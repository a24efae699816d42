//! Runtime components: capabilities an agent can gain and lose while it runs.
//!
//! Two rules make removal safe. Nothing outlives its owner: when a component goes
//! away, every tool, hook, task and service that it registered goes with it.
//! Dependencies are declared: a component starts only once the services that it
//! requires exist, and is stopped again when one of them disappears.
//!
//! A registration and its undo are recorded by the same call, so there is one list
//! of what a component has done.
use crate::text;
use crate::table;
use crate::seqs;
use crate::llm::wire;
use crate::agent::tool::ToolRegistry;
use crate::json::{Json, JsonMap, JsonView};
use crate::llm::types::ToolDefView;
use crate::llm::wire::text_array_json;
use crate::table::{insert_name, Table};
use crate::text::same;
use vstd::prelude::*;

verus! {

/// A component started.
pub const COMPONENT_LOADED: &'static str = "component.loaded";

/// A component stopped.
pub const COMPONENT_UNLOADED: &'static str = "component.unloaded";

/// A component is waiting on unmet dependencies.
pub const COMPONENT_PENDING: &'static str = "component.pending";

/// Errors of the component runtime.
#[derive(Debug)]
pub enum ComponentError {
    Duplicate(String),
    Unknown(String),
    Start(String),
}

/// The message of a component error.
pub open spec fn component_error_text(e: ComponentError) -> Seq<char> {
    match e {
        ComponentError::Duplicate(n) => "component '"@ + n@ + "' is already registered"@,
        ComponentError::Unknown(n) => "unknown component '"@ + n@ + "'"@,
        ComponentError::Start(m) => "component failed to start: "@ + m@,
    }
}

impl ComponentError {
    /// The message of this error.
    pub fn to_text(&self) -> (r: String)
        ensures
            r@ == component_error_text(*self),
    {
        match self {
            ComponentError::Duplicate(n) => {
                let mut out = "component '".to_owned();
                out.push_str(n.as_str());
                out.push_str("' is already registered");
                out
            },
            ComponentError::Unknown(n) => {
                let mut out = "unknown component '".to_owned();
                out.push_str(n.as_str());
                out.push_str("'");
                out
            },
            ComponentError::Start(m) => {
                let mut out = "component failed to start: ".to_owned();
                out.push_str(m.as_str());
                out
            },
        }
    }
}

// ── Services ───────────────────────────────────────────────────────────────

/// Shared services that components publish for one another, by name.
pub struct ServiceRegistry<T> {
    pub inner: Table<T>,
}

impl<T> View for ServiceRegistry<T> {
    type V = Map<Seq<char>, T>;

    open spec fn view(&self) -> Map<Seq<char>, T> {
        self.inner@
    }
}

impl<T> ServiceRegistry<T> {
    pub fn new() -> (r: ServiceRegistry<T>)
        ensures
            r@ == Map::<Seq<char>, T>::empty(),
    {
        ServiceRegistry { inner: Table::new() }
    }

    /// Publish a service under `name`, replacing any previous value.
    pub fn provide(&mut self, name: &str, value: T)
        ensures
            final(self)@ == old(self)@.insert(name@, value),
    {
        self.inner.put(name, value);
    }

    /// Withdraw a service. Returns `true` if it was present.
    pub fn withdraw(&mut self, name: &str) -> (r: bool)
        ensures
            r == old(self)@.contains_key(name@),
            final(self)@ == old(self)@.remove(name@),
    {
        let there = self.inner.contains(name);
        self.inner.remove(name);
        there
    }

    pub fn has(&self, name: &str) -> (r: bool)
        ensures
            r == self@.contains_key(name@),
    {
        self.inner.contains(name)
    }

    /// Fetch a service.
    pub fn get(&self, name: &str) -> (r: Option<&T>)
        ensures
            match r {
                Some(v) => self@.contains_key(name@) && *v == self@[name@],
                None => !self@.contains_key(name@),
            },
    {
        self.inner.get(name)
    }

    /// The names of the services, in ascending order.
    pub fn names(&self) -> (r: Vec<String>)
        ensures
            text::views(r@) == table::ordered(self@.dom()),
            table::ascending(text::views(r@)),
            forall|k: Seq<char>| #[trigger] text::views(r@).contains(k) <==> self@.contains_key(k),
    {
        self.inner.names()
    }
}

/// A service that was published is found under its name, with the value that was
/// published last; every other service stays as it was.
pub proof fn law_published_service_is_found<T>(
    services: Map<Seq<char>, T>,
    name: Seq<char>,
    value: T,
    other: Seq<char>,
)
    requires
        other != name,
    ensures
        services.insert(name, value).contains_key(name),
        services.insert(name, value)[name] == value,
        services.insert(name, value).contains_key(other) == services.contains_key(other),
        services.contains_key(other) ==> services.insert(name, value)[other] == services[other],
{
}

/// What a holder of the services does to them.
pub enum ServiceChange<T> {
    /// The holder publishes a value.
    Provide { holder: u64, name: Seq<char>, value: T },
    /// The holder withdraws a service.
    Withdraw { holder: u64, name: Seq<char> },
}

/// The services after a change. They are shared: it does not matter who makes it.
pub open spec fn changed<T>(
    services: Map<Seq<char>, T>,
    change: ServiceChange<T>,
) -> Map<Seq<char>, T> {
    match change {
        ServiceChange::Provide { name, value, .. } => services.insert(name, value),
        ServiceChange::Withdraw { name, .. } => services.remove(name),
    }
}

/// The services after a series of changes.
pub open spec fn all_changed<T>(
    services: Map<Seq<char>, T>,
    changes: Seq<ServiceChange<T>>,
) -> Map<Seq<char>, T>
    decreases changes.len(),
{
    if changes.len() == 0 {
        services
    } else {
        changed(all_changed(services, changes.drop_last()), changes.last())
    }
}

/// Whether a change is about a service.
pub open spec fn concerns<T>(change: ServiceChange<T>, name: Seq<char>) -> bool {
    match change {
        ServiceChange::Provide { name: n, .. } => n == name,
        ServiceChange::Withdraw { name: n, .. } => n == name,
    }
}

/// After any series of changes, by whichever holder, every holder finds under a name the
/// value that was published last and not withdrawn since. A service that no change is
/// about stays as it was.
pub proof fn law_last_published_is_found<T>(
    services: Map<Seq<char>, T>,
    changes: Seq<ServiceChange<T>>,
    name: Seq<char>,
)
    ensures
        (forall|i: int| 0 <= i < changes.len() ==> !concerns(#[trigger] changes[i], name)) ==> {
            &&& all_changed(services, changes).contains_key(name) == services.contains_key(name)
            &&& services.contains_key(name) ==> all_changed(services, changes)[name]
                == services[name]
        },
        forall|k: int|
            0 <= k < changes.len() && concerns(#[trigger] changes[k], name) && (forall|i: int|
                k < i < changes.len() ==> !concerns(#[trigger] changes[i], name)) ==> match changes[k] {
                ServiceChange::Provide { value, .. } => all_changed(services, changes).contains_key(
                    name,
                ) && all_changed(services, changes)[name] == value,
                ServiceChange::Withdraw { .. } => !all_changed(services, changes).contains_key(name),
            },
    decreases changes.len(),
{
    if changes.len() > 0 {
        let front = changes.drop_last();
        let last = changes.last();
        law_last_published_is_found(services, front, name);
        assert(changes[changes.len() - 1] == last);
        if forall|i: int| 0 <= i < changes.len() ==> !concerns(#[trigger] changes[i], name) {
            assert forall|i: int| 0 <= i < front.len() implies !concerns(
                #[trigger] front[i],
                name,
            ) by {
                assert(front[i] == changes[i]);
            }
        }
        assert forall|k: int|
            0 <= k < changes.len() && concerns(#[trigger] changes[k], name) && (forall|i: int|
                k < i < changes.len() ==> !concerns(#[trigger] changes[i], name)) implies match changes[k] {
            ServiceChange::Provide { value, .. } => all_changed(services, changes).contains_key(name)
                && all_changed(services, changes)[name] == value,
            ServiceChange::Withdraw { .. } => !all_changed(services, changes).contains_key(name),
        } by {
            if k < front.len() {
                assert(!concerns(changes[changes.len() - 1], name));
                assert(front[k] == changes[k]);
                assert forall|i: int| k < i < front.len() implies !concerns(
                    #[trigger] front[i],
                    name,
                ) by {
                    assert(front[i] == changes[i]);
                }
            }
        }
    }
}

// ── What a component registers ─────────────────────────────────────────────

/// Something that a component registered, and that has to be undone.
#[derive(Debug)]
pub enum Effect {
    /// A tool, to be removed from the registry.
    Tool(String),
    /// A hook, to be withdrawn.
    Hook(u64),
    /// A background task, to be aborted.
    Task(u64),
    /// A service, to be withdrawn.
    Service(String),
    /// An undo step that only the component knows.
    Custom(u64),
}

pub enum EffectView {
    Tool(Seq<char>),
    Hook(u64),
    Task(u64),
    Service(Seq<char>),
    Custom(u64),
}

impl View for Effect {
    type V = EffectView;

    open spec fn view(&self) -> EffectView {
        match self {
            Effect::Tool(n) => EffectView::Tool(n@),
            Effect::Hook(i) => EffectView::Hook(*i),
            Effect::Task(i) => EffectView::Task(*i),
            Effect::Service(n) => EffectView::Service(n@),
            Effect::Custom(i) => EffectView::Custom(*i),
        }
    }
}

/// What a component has registered since it started.
pub struct ComponentContext {
    pub name: String,
    pub effects: Vec<Effect>,
}

/// The services among effects, in order.
pub open spec fn services_in(effects: Seq<EffectView>) -> Seq<Seq<char>> {
    seqs::filter_map(
        effects,
        |e: EffectView|
            match e {
                EffectView::Service(n) => Some(n),
                _ => None,
            },
    )
}

/// Services without those that effects published.
pub open spec fn without_services(
    services: Set<Seq<char>>,
    effects: Seq<EffectView>,
) -> Set<Seq<char>> {
    services.difference(services_in(effects).to_set())
}

impl ComponentContext {
    pub fn new(name: &str) -> (r: ComponentContext)
        ensures
            r.name@ == name@,
            r.effects@.len() == 0,
    {
        ComponentContext { name: name.to_owned(), effects: Vec::new() }
    }

    /// Records a registration together with its undo. A service goes through the
    /// host instead.
    pub fn record(&mut self, effect: Effect)
        ensures
            text::views(final(self).effects@) == text::views(old(self).effects@).push(effect@),
            final(self).name == old(self).name,
    {
        let ghost before = text::views(self.effects@);
        self.effects.push(effect);
        assert(text::views(self.effects@) =~= before.push(effect@));
    }

    /// How many undo steps are pending.
    pub fn effect_count(&self) -> (r: usize)
        ensures
            r == self.effects@.len(),
    {
        self.effects.len()
    }

    /// The services that this component published.
    pub fn provided(&self) -> (r: Vec<String>)
        ensures
            text::views(r@) == services_in(text::views(self.effects@)),
    {
        published(&self.effects)
    }
}

fn published(effects: &Vec<Effect>) -> (r: Vec<String>)
    ensures
        text::views(r@) == services_in(text::views(effects@)),
{
    let ghost all = text::views(effects@);
    let ghost f = |e: EffectView|
        match e {
            EffectView::Service(n) => Some(n),
            _ => None,
        };
    let mut out: Vec<String> = Vec::new();
    let mut i: usize = 0;
    assert(text::views(out@) =~= seqs::filter_map(all.take(0), f));
    while i < effects.len()
        invariant
            i <= effects@.len(),
            all == text::views(effects@),
            f == (|e: EffectView|
                match e {
                    EffectView::Service(n) => Some(n),
                    _ => None,
                }),
            text::views(out@) == seqs::filter_map(all.take(i as int), f),
        decreases effects@.len() - i,
    {
        proof {
            seqs::lemma_take_push(all, i as int);
            seqs::lemma_filter_map_push(all.take(i as int), f, all[i as int]);
        }
        if let Effect::Service(n) = &effects[i] {
            let ghost before = text::views(out@);
            out.push(n.clone());
            assert(text::views(out@) =~= before.push(n@));
        }
        i += 1;
    }
    assert(all.take(i as int) =~= all);
    out
}

/// The tools that are left when effects are undone.
pub open spec fn tools_left(
    tools: Map<Seq<char>, ToolDefView>,
    undo: Seq<EffectView>,
) -> Map<Seq<char>, ToolDefView>
    decreases undo.len(),
{
    if undo.len() == 0 {
        tools
    } else {
        match undo.last() {
            EffectView::Tool(n) => tools_left(tools, undo.drop_last()).remove(n),
            _ => tools_left(tools, undo.drop_last()),
        }
    }
}

/// Removes the tools that effects registered.
pub fn undo_tools(registry: &mut ToolRegistry, undo: &Vec<Effect>)
    ensures
        final(registry)@ == tools_left(old(registry)@, text::views(undo@)),
{
    let ghost all = text::views(undo@);
    let ghost start = registry@;
    let mut i: usize = 0;
    while i < undo.len()
        invariant
            i <= undo@.len(),
            all == text::views(undo@),
            registry@ == tools_left(start, all.take(i as int)),
        decreases undo@.len() - i,
    {
        assert(all.take(i + 1).drop_last() =~= all.take(i as int));
        assert(all.take(i + 1).last() == undo@[i as int]@);
        if let Effect::Tool(n) = &undo[i] {
            registry.remove(n.as_str());
        }
        i += 1;
    }
    assert(all.take(i as int) =~= all);
}

/// No tool outlives its owner: when its effects are undone, none of the tools that a
/// component registered is left, and no other tool is touched.
pub proof fn law_tools_go_with_their_owner(
    tools: Map<Seq<char>, ToolDefView>,
    undo: Seq<EffectView>,
    name: Seq<char>,
)
    ensures
        undo.contains(EffectView::Tool(name)) ==> !tools_left(tools, undo).contains_key(name),
        !undo.contains(EffectView::Tool(name)) ==> (tools_left(tools, undo).contains_key(name)
            == tools.contains_key(name) && tools_left(tools, undo)[name] == tools[name]),
    decreases undo.len(),
{
    let e = EffectView::Tool(name);
    if undo.len() > 0 {
        let d = undo.drop_last();
        law_tools_go_with_their_owner(tools, d, name);
        if undo.contains(e) {
            let i = choose|i: int| 0 <= i < undo.len() && undo[i] == e;
            if i < d.len() {
                assert(d[i] == e);
            }
        } else {
            assert(undo[undo.len() - 1] != e);
            if d.contains(e) {
                let i = choose|i: int| 0 <= i < d.len() && d[i] == e;
                assert(undo[i] == e);
            }
        }
    }
}

// ── The host ───────────────────────────────────────────────────────────────

/// Whether a registered component is currently running.
#[derive(Debug, Clone, Copy, PartialEq, Eq, Structural)]
pub enum ComponentState {
    /// Running; its tools and hooks are live.
    Active,
    /// Registered but not running, as when a service that it requires is missing.
    Pending,
}

/// A component that the host knows.
pub struct Registered {
    pub name: String,
    pub needs: Vec<String>,
    pub state: ComponentState,
    /// What it has registered; nothing unless it is active.
    pub effects: Vec<Effect>,
}

#[verifier::ext_equal]
pub struct EntryView {
    pub name: Seq<char>,
    pub needs: Seq<Seq<char>>,
    pub state: ComponentState,
    pub effects: Seq<EffectView>,
}

impl View for Registered {
    type V = EntryView;

    open spec fn view(&self) -> EntryView {
        EntryView {
            name: self.name@,
            needs: text::views(self.needs@),
            state: self.state,
            effects: text::views(self.effects@),
        }
    }
}

/// The components of a host in the order of registration, and the services that are
/// available.
#[verifier::ext_equal]
pub struct HostView {
    pub entries: Seq<EntryView>,
    pub services: Set<Seq<char>>,
}

/// Loads, unloads and reconciles components.
///
/// Starting a component publishes its services, which may release others that were
/// waiting; stopping one withdraws them, which cascades to everything that requires
/// them.
pub struct ComponentHost {
    pub components: Vec<Registered>,
    pub services: ServiceRegistry<bool>,
}

impl View for ComponentHost {
    type V = HostView;

    open spec fn view(&self) -> HostView {
        HostView { entries: text::views(self.components@), services: self.services@.dom() }
    }
}

/// The first component with a name.
pub open spec fn place_of(entries: Seq<EntryView>, name: Seq<char>) -> Option<int>
    decreases entries.len(),
{
    if entries.len() == 0 {
        None
    } else if entries[0].name == name {
        Some(0)
    } else {
        match place_of(entries.skip(1), name) {
            Some(i) => Some(i + 1),
            None => None,
        }
    }
}

/// The required services that are missing.
pub open spec fn missing(needs: Seq<Seq<char>>, services: Set<Seq<char>>) -> Seq<Seq<char>> {
    seqs::filter_map(
        needs,
        |n: Seq<char>|
            if services.contains(n) {
                None
            } else {
                Some(n)
            },
    )
}

/// Whether a component runs without a service that it requires.
pub open spec fn dangling(h: HostView, i: int) -> bool {
    h.entries[i].state == ComponentState::Active && missing(
        h.entries[i].needs,
        h.services,
    ).len() > 0
}

/// Whether no component runs without a service that it requires.
pub open spec fn sound(h: HostView) -> bool {
    forall|i: int| 0 <= i < h.entries.len() ==> !#[trigger] dangling(h, i)
}

/// The host after the component at `i` is stopped: it is pending, nothing of it is
/// registered, and its services are withdrawn.
pub open spec fn stopped(h: HostView, i: int) -> HostView {
    if h.entries[i].state == ComponentState::Active {
        HostView {
            entries: h.entries.update(
                i,
                EntryView {
                    state: ComponentState::Pending,
                    effects: Seq::empty(),
                    ..h.entries[i]
                },
            ),
            services: without_services(h.services, h.entries[i].effects),
        }
    } else {
        h
    }
}

/// The places of the components among the first `n` that run without a service.
pub open spec fn casualties(h: HostView, n: int) -> Seq<int>
    decreases n,
{
    if n <= 0 {
        Seq::empty()
    } else if dangling(h, n - 1) {
        casualties(h, n - 1).push(n - 1)
    } else {
        casualties(h, n - 1)
    }
}

/// The host after components are stopped one after another.
pub open spec fn all_stopped(h: HostView, places: Seq<int>) -> HostView
    decreases places.len(),
{
    if places.len() == 0 {
        h
    } else {
        stopped(all_stopped(h, places.drop_last()), places.last())
    }
}

/// How many components run.
pub open spec fn running(entries: Seq<EntryView>) -> nat
    decreases entries.len(),
{
    if entries.len() == 0 {
        0
    } else {
        running(entries.drop_last()) + (if entries.last().state == ComponentState::Active {
            1nat
        } else {
            0nat
        })
    }
}

/// The host after every component that runs without a service is stopped, repeated
/// until none does.
pub open spec fn cascaded(h: HostView) -> HostView
    decreases running(h.entries),
{
    let hit = casualties(h, h.entries.len() as int);
    if hit.len() == 0 {
        h
    } else {
        let next = all_stopped(h, hit);
        if running(next.entries) < running(h.entries) {
            cascaded(next)
        } else {
            next
        }
    }
}

/// Whether what is registered belongs to components that run: a component that does
/// not run has registered nothing.
pub open spec fn owned(h: HostView) -> bool {
    forall|i: int|
        0 <= i < h.entries.len() && (#[trigger] h.entries[i]).state == ComponentState::Pending
            ==> h.entries[i].effects.len() == 0
}

/// One component fewer runs where one is stopped.
pub proof fn lemma_running_update(entries: Seq<EntryView>, i: int, e: EntryView)
    requires
        0 <= i < entries.len(),
        entries[i].state == ComponentState::Active,
        e.state == ComponentState::Pending,
    ensures
        running(entries.update(i, e)) + 1 == running(entries),
    decreases entries.len(),
{
    let t = entries.update(i, e);
    if i == entries.len() - 1 {
        assert(t.drop_last() =~= entries.drop_last());
    } else {
        assert(t.drop_last() =~= entries.drop_last().update(i, e));
        lemma_running_update(entries.drop_last(), i, e);
    }
}

proof fn lemma_stopped(h: HostView, i: int)
    requires
        0 <= i < h.entries.len(),
    ensures
        stopped(h, i).entries.len() == h.entries.len(),
        running(stopped(h, i).entries) <= running(h.entries),
        h.entries[i].state == ComponentState::Active ==> running(stopped(h, i).entries)
            < running(h.entries),
        stopped(h, i).entries[i].state == ComponentState::Pending,
        forall|j: int|
            0 <= j < h.entries.len() && j != i ==> (#[trigger] stopped(h, i).entries[j])
                == h.entries[j],
{
    if h.entries[i].state == ComponentState::Active {
        lemma_running_update(h.entries, i, stopped(h, i).entries[i]);
    }
}

proof fn lemma_all_stopped(h: HostView, places: Seq<int>)
    requires
        forall|k: int| 0 <= k < places.len() ==> 0 <= #[trigger] places[k] < h.entries.len(),
    ensures
        all_stopped(h, places).entries.len() == h.entries.len(),
        running(all_stopped(h, places).entries) <= running(h.entries),
        owned(h) ==> owned(all_stopped(h, places)),
        places.len() > 0 && h.entries[places[0]].state == ComponentState::Active ==> running(
            all_stopped(h, places).entries,
        ) < running(h.entries),
    decreases places.len(),
{
    if places.len() > 0 {
        let d = places.drop_last();
        assert forall|k: int| 0 <= k < d.len() implies 0 <= #[trigger] d[k] < h.entries.len() by {
            assert(0 <= places[k] < h.entries.len());
        }
        lemma_all_stopped(h, d);
        assert(0 <= places[places.len() - 1] < h.entries.len());
        lemma_stopped(all_stopped(h, d), places.last());
        if d.len() > 0 {
            assert(d[0] == places[0]);
        }
    }
}

/// The components to be stopped are those that run and lack a service.
pub proof fn lemma_casualties(h: HostView, n: int)
    requires
        0 <= n <= h.entries.len(),
    ensures
        forall|k: int|
            0 <= k < casualties(h, n).len() ==> 0 <= #[trigger] casualties(h, n)[k] < n && dangling(
                h,
                casualties(h, n)[k],
            ),
        casualties(h, n).len() == 0 ==> forall|i: int|
            0 <= i < n ==> !#[trigger] dangling(h, i),
    decreases n,
{
    if n > 0 {
        lemma_casualties(h, n - 1);
        let d = casualties(h, n - 1);
        let c = casualties(h, n);
        assert forall|k: int| 0 <= k < c.len() implies 0 <= #[trigger] c[k] < n && dangling(
            h,
            c[k],
        ) by {
            if k < d.len() {
                assert(c[k] == d[k]);
            }
        }
    }
}

/// After a cascade no component runs without a service that it requires, and what is
/// registered still belongs to components that run.
pub proof fn law_cascade_is_sound(h: HostView)
    ensures
        sound(cascaded(h)),
        owned(h) ==> owned(cascaded(h)),
        cascaded(h).entries.len() == h.entries.len(),
    decreases running(h.entries),
{
    let n = h.entries.len() as int;
    let hit = casualties(h, n);
    lemma_casualties(h, n);
    if hit.len() > 0 {
        let next = all_stopped(h, hit);
        lemma_all_stopped(h, hit);
        assert(dangling(h, hit[0]));
        law_cascade_is_sound(next);
    }
}

/// Stopping a component leaves nothing behind: it has no registration left, and none
/// of its services is available.
pub proof fn law_stop_leaves_nothing(h: HostView, i: int)
    requires
        0 <= i < h.entries.len(),
        owned(h),
    ensures
        owned(stopped(h, i)),
        stopped(h, i).entries[i].effects.len() == 0,
        h.entries[i].state == ComponentState::Active ==> forall|k: int|
            0 <= k < services_in(h.entries[i].effects).len() ==> !stopped(h, i).services.contains(
                #[trigger] services_in(h.entries[i].effects)[k],
            ),
{
    lemma_stopped(h, i);
    let names = services_in(h.entries[i].effects);
    assert forall|k: int| 0 <= k < names.len() implies names.to_set().contains(
        #[trigger] names[k],
    ) by {
        assert(names.contains(names[k]));
    }
}

/// A failed start leaves nothing behind: when what it published is withdrawn, the
/// services are those from before, unless it published over another's.
pub proof fn law_failed_start_leaves_nothing(services: Set<Seq<char>>, effects: Seq<EffectView>)
    requires
        services.disjoint(services_in(effects).to_set()),
    ensures
        without_services(services.union(services_in(effects).to_set()), effects) == services,
{
    assert(without_services(services.union(services_in(effects).to_set()), effects)
        =~= services);
}

/// A component that was stopped.
pub struct Stopped {
    pub name: String,
    /// What is to be undone, the latest registration first.
    pub undo: Vec<Effect>,
}

#[verifier::ext_equal]
pub struct StoppedView {
    pub name: Seq<char>,
    pub undo: Seq<EffectView>,
}

impl View for Stopped {
    type V = StoppedView;

    open spec fn view(&self) -> StoppedView {
        StoppedView { name: self.name@, undo: text::views(self.undo@) }
    }
}

/// What stopping the component at `i` gives out.
pub open spec fn stop_record(h: HostView, i: int) -> StoppedView {
    StoppedView { name: h.entries[i].name, undo: h.entries[i].effects.reverse() }
}

/// What stopping components one after another gives out.
pub open spec fn stop_records(h: HostView, places: Seq<int>) -> Seq<StoppedView>
    decreases places.len(),
{
    if places.len() == 0 {
        Seq::empty()
    } else {
        let before = all_stopped(h, places.drop_last());
        let rest = stop_records(h, places.drop_last());
        if before.entries[places.last()].state == ComponentState::Active {
            rest.push(stop_record(before, places.last()))
        } else {
            rest
        }
    }
}

/// What a cascade gives out.
pub open spec fn cascade_records(h: HostView) -> Seq<StoppedView>
    decreases running(h.entries),
{
    let hit = casualties(h, h.entries.len() as int);
    if hit.len() == 0 {
        Seq::empty()
    } else {
        let next = all_stopped(h, hit);
        stop_records(h, hit) + (if running(next.entries) < running(h.entries) {
            cascade_records(next)
        } else {
            Seq::empty()
        })
    }
}

/// The payload of the event that tells of a stopped component.
pub open spec fn unloaded_json(name: Seq<char>, reason: Seq<char>, reverted: int) -> JsonView {
    JsonView::Object(
        Map::<Seq<char>, JsonView>::empty().insert("component"@, JsonView::Text(name)).insert(
            "reason"@,
            JsonView::Text(reason),
        ).insert("effects_reverted"@, JsonView::Int(reverted)),
    )
}

/// The payload of the event that tells of a component and a list of services.
pub open spec fn services_json(name: Seq<char>, key: Seq<char>, list: Seq<Seq<char>>) -> JsonView {
    JsonView::Object(
        Map::<Seq<char>, JsonView>::empty().insert("component"@, JsonView::Text(name)).insert(
            key,
            wire::text_array(list),
        ),
    )
}

impl Stopped {
    /// The payload of the event that tells of this component.
    pub fn payload(&self, reason: &str) -> (r: Json)
        ensures
            r@ == unloaded_json(self@.name, reason@, self@.undo.len() as int),
    {
        Json::Object(
            JsonMap::new().with("component", Json::text(self.name.as_str())).with(
                "reason",
                Json::text(reason),
            ).with("effects_reverted", Json::Unsigned(self.undo.len() as u64)),
        )
    }
}

fn services_payload(name: &str, key: &str, list: &Vec<String>) -> (r: Json)
    ensures
        r@ == services_json(name@, key@, text::views(list@)),
{
    Json::Object(
        JsonMap::new().with("component", Json::text(name)).with(key, text_array_json(list)),
    )
}

/// What a start attempt leads to.
pub enum StartMove {
    /// It runs already.
    Running,
    /// It waits for services; the payload tells which.
    Waiting(Json),
    /// It is to be started.
    Start,
}

fn reversed(effects: Vec<Effect>) -> (r: Vec<Effect>)
    ensures
        text::views(r@) == text::views(effects@).reverse(),
{
    let ghost all = text::views(effects@);
    let mut rest = effects;
    let mut out: Vec<Effect> = Vec::new();
    assert(text::views(out@) + text::views(rest@).reverse() =~= all.reverse());
    while rest.len() > 0
        invariant
            text::views(out@) + text::views(rest@).reverse() == all.reverse(),
        decreases rest@.len(),
    {
        let ghost before = text::views(rest@);
        let ghost done = text::views(out@);
        match rest.pop() {
            Some(e) => {
                out.push(e);
                proof {
                    assert(before =~= text::views(rest@).push(e@));
                    assert(text::views(out@) =~= done.push(e@));
                    assert(done.push(e@) + text::views(rest@).reverse() =~= done + before.reverse());
                }
            },
            None => {},
        }
    }
    assert(text::views(out@) =~= all.reverse());
    out
}

impl ComponentHost {
    pub fn new() -> (r: ComponentHost)
        ensures
            r@ == (HostView { entries: Seq::empty(), services: Set::empty() }),
    {
        let out = ComponentHost { components: Vec::new(), services: ServiceRegistry::new() };
        assert(out@.entries =~= Seq::empty());
        assert(out@.services =~= Set::empty());
        out
    }

    fn find(&self, name: &str) -> (r: Option<usize>)
        ensures
            match (r, place_of(self@.entries, name@)) {
                (Some(i), Some(k)) => i == k && i < self.components@.len(),
                (None, None) => true,
                _ => false,
            },
    {
        let ghost all = self@.entries;
        let mut i: usize = 0;
        assert(all.skip(0) =~= all);
        while i < self.components.len()
            invariant
                i <= self.components@.len(),
                all == self@.entries,
                match place_of(all.skip(i as int), name@) {
                    Some(k) => place_of(all, name@) == Some(k + i),
                    None => place_of(all, name@) is None,
                },
            decreases self.components@.len() - i,
        {
            assert(all.skip(i as int)[0] == self.components@[i as int]@);
            assert(all.skip(i as int).skip(1) =~= all.skip(i + 1));
            if same(self.components[i].name.as_str(), name) {
                return Some(i);
            }
            i += 1;
        }
        None
    }

    /// Current state of a component, if registered.
    pub fn state(&self, name: &str) -> (r: Option<ComponentState>)
        ensures
            r == (match place_of(self@.entries, name@) {
                Some(i) => Some(self@.entries[i].state),
                None => None,
            }),
    {
        match self.find(name) {
            Some(i) => Some(self.components[i].state),
            None => None,
        }
    }

    fn missing_at(&self, i: usize) -> (r: Vec<String>)
        requires
            i < self.components@.len(),
        ensures
            text::views(r@) == missing(self@.entries[i as int].needs, self@.services),
    {
        let needs = &self.components[i].needs;
        let ghost all = text::views(needs@);
        let ghost f = |n: Seq<char>|
            if self@.services.contains(n) {
                None
            } else {
                Some(n)
            };
        let mut out: Vec<String> = Vec::new();
        let mut k: usize = 0;
        assert(text::views(out@) =~= seqs::filter_map(all.take(0), f));
        while k < needs.len()
            invariant
                k <= needs@.len(),
                all == text::views(needs@),
                f == (|n: Seq<char>|
                    if self@.services.contains(n) {
                        None
                    } else {
                        Some(n)
                    }),
                text::views(out@) == seqs::filter_map(all.take(k as int), f),
            decreases needs@.len() - k,
        {
            proof {
                seqs::lemma_take_push(all, k as int);
                seqs::lemma_filter_map_push(all.take(k as int), f, all[k as int]);
            }
            if !self.services.has(needs[k].as_str()) {
                let ghost before = text::views(out@);
                let name = needs[k].clone();
                out.push(name);
                assert(text::views(out@) =~= before.push(name@));
            }
            k += 1;
        }
        assert(all.take(k as int) =~= all);
        out
    }

    /// Registers a component that is not running yet.
    pub fn register(&mut self, name: &str, needs: Vec<String>) -> (r: Result<
        (),
        ComponentError,
    >)
        ensures
            match r {
                Ok(_) => place_of(old(self)@.entries, name@) is None && final(self)@ == (HostView {
                    entries: old(self)@.entries.push(
                        EntryView {
                            name: name@,
                            needs: text::views(needs@),
                            state: ComponentState::Pending,
                            effects: Seq::empty(),
                        },
                    ),
                    ..old(self)@
                }),
                Err(e) => place_of(old(self)@.entries, name@) is Some && (e matches
                    ComponentError::Duplicate(n) && n@ == name@) && *final(self) == *old(self),
            },
    {
        if self.find(name).is_some() {
            return Err(ComponentError::Duplicate(name.to_owned()));
        }
        let effects: Vec<Effect> = Vec::new();
        let entry = Registered {
            name: name.to_owned(),
            needs,
            state: ComponentState::Pending,
            effects,
        };
        let ghost before = self@.entries;
        assert(text::views(effects@) =~= Seq::empty());
        self.components.push(entry);
        assert(self@.entries =~= before.push(entry@));
        Ok(())
    }

    /// What a start attempt leads to.
    pub fn begin_start(&self, name: &str) -> (r: Result<StartMove, ComponentError>)
        ensures
            match place_of(self@.entries, name@) {
                None => r matches Err(ComponentError::Unknown(n)) && n@ == name@,
                Some(i) => {
                    let entry = self@.entries[i];
                    let lacks = missing(entry.needs, self@.services);
                    match r {
                        Ok(StartMove::Running) => entry.state == ComponentState::Active,
                        Ok(StartMove::Waiting(payload)) => entry.state == ComponentState::Pending
                            && lacks.len() > 0 && payload@ == services_json(
                            name@,
                            "missing"@,
                            lacks,
                        ),
                        Ok(StartMove::Start) => entry.state == ComponentState::Pending
                            && lacks.len() == 0,
                        Err(_) => false,
                    }
                },
            },
    {
        let i: usize = match self.find(name) {
            Some(i) => i,
            None => {
                return Err(ComponentError::Unknown(name.to_owned()));
            },
        };
        if self.components[i].state == ComponentState::Active {
            return Ok(StartMove::Running);
        }
        let lacks = self.missing_at(i);
        if lacks.len() > 0 {
            return Ok(StartMove::Waiting(services_payload(name, "missing", &lacks)));
        }
        Ok(StartMove::Start)
    }

    /// Publishes a service for a component that starts, and records its undo.
    pub fn provide(&mut self, ctx: &mut ComponentContext, name: &str)
        ensures
            final(self)@ == (HostView {
                services: old(self)@.services.insert(name@),
                ..old(self)@
            }),
            text::views(final(ctx).effects@) == text::views(old(ctx).effects@).push(
                EffectView::Service(name@),
            ),
            final(ctx).name == old(ctx).name,
    {
        self.services.provide(name, true);
        ctx.record(Effect::Service(name.to_owned()));
        assert(self@.services =~= old(self)@.services.insert(name@));
    }

    fn withdraw_all(&mut self, names: &Vec<String>)
        ensures
            final(self)@ == (HostView {
                services: old(self)@.services.difference(text::views(names@).to_set()),
                ..old(self)@
            }),
            final(self).components == old(self).components,
    {
        let ghost all = text::views(names@);
        let ghost start = self@.services;
        let mut i: usize = 0;
        assert(start.difference(all.take(0).to_set()) =~= start);
        while i < names.len()
            invariant
                i <= names@.len(),
                all == text::views(names@),
                start == old(self)@.services,
                self.components == old(self).components,
                self@.services == start.difference(all.take(i as int).to_set()),
            decreases names@.len() - i,
        {
            self.services.withdraw(names[i].as_str());
            proof {
                let (a, b) = (all.take(i as int), all.take(i + 1));
                assert forall|x: Seq<char>| #[trigger]
                    b.to_set().contains(x) == (a.to_set().contains(x) || x == all[i as int]) by {
                    if a.contains(x) {
                        let j = choose|j: int| 0 <= j < a.len() && a[j] == x;
                        assert(b[j] == x);
                    }
                    if b.contains(x) {
                        let j = choose|j: int| 0 <= j < b.len() && b[j] == x;
                        if j < i {
                            assert(a[j] == x);
                        }
                    }
                    assert(b[i as int] == all[i as int]);
                }
                assert(self@.services =~= start.difference(b.to_set()));
            }
            i += 1;
        }
        assert(all.take(i as int) =~= all);
    }

    /// Takes in that a component started: it runs, and owns what it registered. The
    /// payload tells what it provides.
    pub fn started(&mut self, ctx: ComponentContext) -> (r: Json)
        ensures
            r@ == services_json(ctx.name@, "provides"@, services_in(text::views(ctx.effects@))),
            final(self)@ == (match place_of(old(self)@.entries, ctx.name@) {
                Some(i) => HostView {
                    entries: old(self)@.entries.update(
                        i,
                        EntryView {
                            state: ComponentState::Active,
                            effects: text::views(ctx.effects@),
                            ..old(self)@.entries[i]
                        },
                    ),
                    ..old(self)@
                },
                None => old(self)@,
            }),
    {
        let provides = ctx.provided();
        let payload = services_payload(ctx.name.as_str(), "provides", &provides);
        if let Some(i) = self.find(ctx.name.as_str()) {
            let ghost before = self@.entries;
            let mut entry = Registered {
                name: String::new(),
                needs: Vec::new(),
                state: ComponentState::Active,
                effects: ctx.effects,
            };
            std::mem::swap(&mut entry.name, &mut self.components[i].name);
            std::mem::swap(&mut entry.needs, &mut self.components[i].needs);
            self.components.set(i, entry);
            proof {
                assert(self@.entries =~= before.update(
                    i as int,
                    EntryView {
                        state: ComponentState::Active,
                        effects: text::views(ctx.effects@),
                        ..before[i as int]
                    },
                ));
            }
        }
        payload
    }

    /// Takes in that a start failed: what was registered on the way is to be undone,
    /// the latest first, and its services are withdrawn.
    pub fn start_failed(&mut self, ctx: ComponentContext) -> (r: Vec<Effect>)
        ensures
            text::views(r@) == text::views(ctx.effects@).reverse(),
            final(self)@ == (HostView {
                services: without_services(old(self)@.services, text::views(ctx.effects@)),
                ..old(self)@
            }),
    {
        let names = ctx.provided();
        self.withdraw_all(&names);
        reversed(ctx.effects)
    }

    fn stop_at(&mut self, i: usize) -> (r: Option<Stopped>)
        requires
            i < old(self).components@.len(),
        ensures
            final(self)@ == stopped(old(self)@, i as int),
            final(self).components@.len() == old(self).components@.len(),
            match r {
                Some(s) => old(self)@.entries[i as int].state == ComponentState::Active && s@
                    == stop_record(old(self)@, i as int),
                None => old(self)@.entries[i as int].state == ComponentState::Pending,
            },
    {
        let ghost h = self@;
        assert(h.entries[i as int] == self.components@[i as int]@);
        if self.components[i].state == ComponentState::Pending {
            return None;
        }
        let mut effects: Vec<Effect> = Vec::new();
        let names = published(&self.components[i].effects);
        let name = self.components[i].name.clone();
        let mut entry = Registered {
            name: String::new(),
            needs: Vec::new(),
            state: ComponentState::Pending,
            effects: Vec::new(),
        };
        std::mem::swap(&mut entry.name, &mut self.components[i].name);
        std::mem::swap(&mut entry.needs, &mut self.components[i].needs);
        std::mem::swap(&mut effects, &mut self.components[i].effects);
        self.components.set(i, entry);
        proof {
            assert(text::views(entry.effects@) =~= Seq::empty());
            assert(self@.entries =~= stopped(h, i as int).entries);
        }
        self.withdraw_all(&names);
        let undo = reversed(effects);
        Some(Stopped { name, undo })
    }

    fn casualty_places(&self) -> (r: Vec<usize>)
        ensures
            r@.map_values(|i: usize| i as int) == casualties(
                self@,
                self@.entries.len() as int,
            ),
            forall|k: int| 0 <= k < r@.len() ==> (#[trigger] r@[k]) < self.components@.len(),
    {
        let mut out: Vec<usize> = Vec::new();
        let mut i: usize = 0;
        assert(out@.map_values(|i: usize| i as int) =~= casualties(self@, 0));
        while i < self.components.len()
            invariant
                i <= self.components@.len(),
                out@.map_values(|i: usize| i as int) == casualties(self@, i as int),
                forall|k: int| 0 <= k < out@.len() ==> (#[trigger] out@[k]) < i,
            decreases self.components@.len() - i,
        {
            let lacks = self.missing_at(i);
            assert(self@.entries[i as int] == self.components@[i as int]@);
            if self.components[i].state == ComponentState::Active && lacks.len() > 0 {
                let ghost before = out@.map_values(|i: usize| i as int);
                out.push(i);
                assert(out@.map_values(|i: usize| i as int) =~= before.push(i as int));
            }
            i += 1;
        }
        out
    }

    /// Stops every running component whose services are no longer available,
    /// repeating until nothing is left dangling.
    pub fn cascade(&mut self) -> (r: Vec<Stopped>)
        ensures
            final(self)@ == cascaded(old(self)@),
            sound(final(self)@),
            text::views(r@) == cascade_records(old(self)@),
            final(self)@.entries.len() == old(self)@.entries.len(),
    {
        let ghost h0 = self@;
        let mut out: Vec<Stopped> = Vec::new();
        assert(text::views(out@) + cascade_records(h0) =~= cascade_records(h0));
        proof {
            law_cascade_is_sound(h0);
        }
        loop
            invariant
                h0 == old(self)@,
                sound(cascaded(h0)),
                cascaded(h0).entries.len() == h0.entries.len(),
                cascaded(self@) == cascaded(h0),
                text::views(out@) + cascade_records(self@) == cascade_records(h0),
            decreases running(self@.entries),
        {
            let ghost h = self@;
            let hit = self.casualty_places();
            let ghost places = hit@.map_values(|i: usize| i as int);
            if hit.len() == 0 {
                assert(places.len() == 0);
                assert(text::views(out@) + cascade_records(self@) =~= text::views(out@));
                return out;
            }
            let ghost before = text::views(out@);
            let count: usize = hit.len();
            let mut k: usize = 0;
            proof {
                lemma_casualties(h, h.entries.len() as int);
                assert(stop_records(h, places.take(0)) =~= Seq::empty());
                assert(before + stop_records(h, places.take(0)) =~= before);
            }
            while k < count
                invariant
                    k <= count,
                    count == hit@.len(),
                    places == hit@.map_values(|i: usize| i as int),
                    self.components@.len() == h.entries.len(),
                    forall|j: int| 0 <= j < hit@.len() ==> (#[trigger] hit@[j]) < h.entries.len(),
                    self@ == all_stopped(h, places.take(k as int)),
                    text::views(out@) == before + stop_records(h, places.take(k as int)),
                decreases count - k,
            {
                proof {
                    assert(places.take(k + 1).drop_last() =~= places.take(k as int));
                    assert(places.take(k + 1).last() == hit@[k as int] as int);
                }
                let ghost now = text::views(out@);
                match self.stop_at(hit[k]) {
                    Some(s) => {
                        out.push(s);
                        proof {
                            assert(text::views(out@) =~= now.push(s@));
                            assert(now.push(s@) =~= before + stop_records(h, places.take(k + 1)));
                        }
                    },
                    None => {},
                }
                k += 1;
            }
            proof {
                assert(places.take(k as int) =~= places);
                lemma_all_stopped(h, places);
                assert(dangling(h, places[0]));
                assert(before + (stop_records(h, places) + cascade_records(self@)) =~= text::views(out@)
                    + cascade_records(self@));
            }
        }
    }

    /// Stops a component and undoes everything it registered. Components left
    /// without a service that they require are stopped too.
    ///
    /// The first result is the component itself, if it was running.
    pub fn unload(&mut self, name: &str) -> (r: Result<
        (Option<Stopped>, Vec<Stopped>),
        ComponentError,
    >)
        ensures
            match (r, place_of(old(self)@.entries, name@)) {
                (Ok((own, others)), Some(i)) => {
                    let after = stopped(old(self)@, i);
                    &&& final(self)@ == cascaded(after)
                    &&& sound(final(self)@)
                    &&& text::views(others@) == cascade_records(after)
                    &&& match own {
                        Some(s) => old(self)@.entries[i].state == ComponentState::Active && s@
                            == stop_record(old(self)@, i),
                        None => old(self)@.entries[i].state == ComponentState::Pending,
                    }
                },
                (Err(e), None) => (e matches ComponentError::Unknown(n) && n@ == name@)
                    && *final(self) == *old(self),
                _ => false,
            },
    {
        let i: usize = match self.find(name) {
            Some(i) => i,
            None => {
                return Err(ComponentError::Unknown(name.to_owned()));
            },
        };
        let own = self.stop_at(i);
        let others = self.cascade();
        Ok((own, others))
    }

    /// Stops a component like [`unload`](Self::unload) and forgets it.
    pub fn remove(&mut self, name: &str) -> (r: Result<
        (Option<Stopped>, Vec<Stopped>),
        ComponentError,
    >)
        ensures
            match (r, place_of(old(self)@.entries, name@)) {
                (Ok((own, others)), Some(i)) => {
                    let after = stopped(old(self)@, i);
                    &&& final(self)@ == (HostView {
                        entries: cascaded(after).entries.remove(i),
                        ..cascaded(after)
                    })
                    &&& text::views(others@) == cascade_records(after)
                    &&& match own {
                        Some(s) => old(self)@.entries[i].state == ComponentState::Active && s@
                            == stop_record(old(self)@, i),
                        None => old(self)@.entries[i].state == ComponentState::Pending,
                    }
                },
                (Err(e), None) => (e matches ComponentError::Unknown(n) && n@ == name@)
                    && *final(self) == *old(self),
                _ => false,
            },
    {
        let i: usize = match self.find(name) {
            Some(i) => i,
            None => {
                return Err(ComponentError::Unknown(name.to_owned()));
            },
        };
        let own = self.stop_at(i);
        let others = self.cascade();
        let ghost before = self@.entries;
        self.components.remove(i);
        assert(self@.entries =~= before.remove(i as int));
        Ok((own, others))
    }

    /// The components that run, in ascending order of their names.
    pub fn active(&self) -> (r: Vec<String>)
        ensures
            text::views(r@) == table::ordered(active_names(self@.entries)),
            table::ascending(text::views(r@)),
            forall|k: Seq<char>| #[trigger]
                text::views(r@).contains(k) <==> active_names(self@.entries).contains(k),
    {
        let ghost all = self@.entries;
        let mut out: Vec<String> = Vec::new();
        let mut i: usize = 0;
        while i < self.components.len()
            invariant
                i <= self.components@.len(),
                all == self@.entries,
                table::ascending(text::views(out@)),
                forall|k: Seq<char>| #[trigger]
                    text::views(out@).contains(k) <==> active_names(all.take(i as int)).contains(k),
            decreases self.components@.len() - i,
        {
            proof {
                assert(all.take(i + 1).drop_last() =~= all.take(i as int));
                assert(all.take(i + 1).last() == self.components@[i as int]@);
            }
            let ghost before = text::views(out@);
            if self.components[i].state == ComponentState::Active {
                insert_name(&mut out, self.components[i].name.as_str());
            }
            proof {
                assert forall|k: Seq<char>| #[trigger]
                    text::views(out@).contains(k) <==> active_names(all.take(i + 1)).contains(k) by {
                    assert(before.contains(k) <==> active_names(all.take(i as int)).contains(k));
                }
            }
            i += 1;
        }
        proof {
            assert(all.take(i as int) =~= all);
            table::lemma_ordered(text::views(out@), active_names(all));
        }
        out
    }

    /// The first component that waits and was not tried, in the order of
    /// registration.
    pub fn next_candidate(&self, attempted: &Vec<String>) -> (r: Option<String>)
        ensures
            match r {
                Some(name) => exists|i: int|
                    {
                        &&& 0 <= i < self@.entries.len()
                        &&& waits(#[trigger] self@.entries[i], text::views(attempted@))
                        &&& self@.entries[i].name == name@
                        &&& forall|j: int|
                            0 <= j < i ==> !waits(#[trigger] self@.entries[j], text::views(attempted@))
                    },
                None => forall|i: int|
                    0 <= i < self@.entries.len() ==> !waits(
                        #[trigger] self@.entries[i],
                        text::views(attempted@),
                    ),
            },
    {
        let mut i: usize = 0;
        while i < self.components.len()
            invariant
                i <= self.components@.len(),
                forall|j: int|
                    0 <= j < i ==> !waits(#[trigger] self@.entries[j], text::views(attempted@)),
            decreases self.components@.len() - i,
        {
            let c = &self.components[i];
            assert(self@.entries[i as int] == c@);
            if c.state == ComponentState::Pending && !is_among(attempted, c.name.as_str()) {
                return Some(c.name.clone());
            }
            i += 1;
        }
        None
    }
}

/// The names of the components that run.
pub open spec fn active_names(entries: Seq<EntryView>) -> Set<Seq<char>>
    decreases entries.len(),
{
    if entries.len() == 0 {
        Set::empty()
    } else if entries.last().state == ComponentState::Active {
        active_names(entries.drop_last()).insert(entries.last().name)
    } else {
        active_names(entries.drop_last())
    }
}

/// Whether a component waits to be tried.
pub open spec fn waits(e: EntryView, attempted: Seq<Seq<char>>) -> bool {
    e.state == ComponentState::Pending && !attempted.contains(e.name)
}

fn is_among(names: &Vec<String>, name: &str) -> (r: bool)
    ensures
        r == text::views(names@).contains(name@),
{
    let mut i: usize = 0;
    while i < names.len()
        invariant
            i <= names@.len(),
            forall|j: int| 0 <= j < i ==> text::views(names@)[j] != name@,
        decreases names@.len() - i,
    {
        if same(names[i].as_str(), name) {
            assert(text::views(names@)[i as int] == name@);
            return true;
        }
        i += 1;
    }
    false
}

/// Which components a reconciliation has tried since the last one that started.
pub struct Reconciliation {
    pub attempted: Vec<String>,
}

impl Reconciliation {
    pub fn new() -> (r: Reconciliation)
        ensures
            r.attempted@.len() == 0,
    {
        Reconciliation { attempted: Vec::new() }
    }

    /// Takes in how a try ended. A component that started may have published what
    /// others wait for, so all are tried again.
    pub fn tried(&mut self, name: &str, started: bool)
        ensures
            text::views(final(self).attempted@) == (if started {
                Seq::empty()
            } else {
                text::views(old(self).attempted@).push(name@)
            }),
    {
        if started {
            self.attempted = Vec::new();
            assert(text::views(self.attempted@) =~= Seq::empty());
        } else {
            let ghost before = text::views(self.attempted@);
            let copy = name.to_owned();
            self.attempted.push(copy);
            assert(text::views(self.attempted@) =~= before.push(name@));
        }
    }
}

} // verus!
