//! Laws of what extends an agent: components, plugins and the servers of tools.
use crate::agent::skills;
use crate::agent::skills::SkillView;
use crate::component;
use crate::component::{ComponentState, EffectView, EntryView, HostView, StoppedView};
use crate::event::EventView;
use crate::json::JsonView;
use crate::laws::anthropic as blocks;
use crate::laws::prompting;
use crate::laws::texts;
use crate::llm::sse;
use crate::llm::types::ToolDefView;
use crate::mcp::client;
use crate::mcp::client::McpToolDef;
use crate::mcp::error::McpErrorView;
use crate::mcp::tool;
use crate::mcp::tool::McpToolView;
use crate::plugin;
use crate::plugin::{ManifestFile, McpServerSpec, Plugin, PluginErrorView, PluginFiles};
use crate::seqs;
use crate::text;
use vstd::prelude::*;

verus! {

/// A component is found by its name, at its first place.
pub proof fn law_component_is_found(entries: Seq<EntryView>, name: Seq<char>, i: int)
    requires
        0 <= i <= entries.len(),
        forall|k: int| 0 <= k < i ==> (#[trigger] entries[k]).name != name,
        i < entries.len() ==> entries[i].name == name,
    ensures
        component::place_of(entries, name) == (if i < entries.len() {
            Some(i)
        } else {
            None::<int>
        }),
    decreases entries.len(),
{
    if entries.len() > 0 && i > 0 {
        assert(entries[0].name != name);
        let rest = entries.skip(1);
        assert forall|k: int| 0 <= k < i - 1 implies (#[trigger] rest[k]).name != name by {
            assert(rest[k] == entries[k + 1]);
        }
        if i < entries.len() {
            assert(rest[i - 1] == entries[i]);
        }
        law_component_is_found(rest, name, i - 1);
    }
}

/// What is missing is what is needed and not there, in order.
pub proof fn law_missing_services_are_told(
    a: Seq<Seq<char>>,
    b: Seq<Seq<char>>,
    services: Set<Seq<char>>,
    n: Seq<char>,
)
    ensures
        component::missing(a + b, services) == component::missing(a, services) + component::missing(
            b,
            services,
        ),
        services.contains(n) ==> component::missing(seq![n], services).len() == 0,
        !services.contains(n) ==> component::missing(seq![n], services) == seq![n],
{
    let f = |n: Seq<char>|
        if services.contains(n) {
            None
        } else {
            Some(n)
        };
    seqs::lemma_filter_map_concat(a, b, f);
    blocks::lemma_filter_one(n, f);
}

/// A component that is stopped waits and has nothing registered. The others stay as they
/// were, and so do the services that it had not provided.
pub proof fn law_stop_touches_one_component(h: HostView, i: int)
    requires
        0 <= i < h.entries.len(),
        h.entries[i].state == ComponentState::Active,
    ensures
        ({
            let r = component::stopped(h, i);
            &&& r.entries.len() == h.entries.len()
            &&& r.entries[i].state == ComponentState::Pending
            &&& r.entries[i].effects.len() == 0
            &&& r.entries[i].name == h.entries[i].name
            &&& r.entries[i].needs == h.entries[i].needs
            &&& forall|k: int|
                0 <= k < h.entries.len() && k != i ==> #[trigger] r.entries[k] == h.entries[k]
            &&& forall|s: Seq<char>|
                #![trigger r.services.contains(s)]
                r.services.contains(s) <==> h.services.contains(s) && !h.entries[i].effects.contains(
                    EffectView::Service(s),
                )
        }),
{
    let r = component::stopped(h, i);
    assert forall|s: Seq<char>|
        #![trigger r.services.contains(s)]
        r.services.contains(s) <==> h.services.contains(s) && !h.entries[i].effects.contains(
            EffectView::Service(s),
        ) by {
        lemma_services_in(h.entries[i].effects, s);
    }
}

proof fn lemma_services_in(effects: Seq<EffectView>, s: Seq<char>)
    ensures
        component::services_in(effects).contains(s) <==> effects.contains(EffectView::Service(s)),
    decreases effects.len(),
{
    let r = component::services_in(effects);
    if effects.len() > 0 {
        let front = effects.drop_last();
        let last = effects[effects.len() - 1];
        let before = component::services_in(front);
        lemma_services_in(front, s);
        if effects.contains(EffectView::Service(s)) {
            let k = choose|k: int|
                0 <= k < effects.len() && effects[k] == EffectView::Service(s);
            if k < front.len() {
                assert(front[k] == EffectView::Service(s));
                let j = choose|j: int| 0 <= j < before.len() && before[j] == s;
                assert(r[j] == s);
            } else {
                assert(r[r.len() - 1] == s);
            }
        }
        if r.contains(s) {
            let j = choose|j: int| 0 <= j < r.len() && r[j] == s;
            if j < before.len() {
                assert(before[j] == s);
                let k = choose|k: int|
                    0 <= k < front.len() && front[k] == EffectView::Service(s);
                assert(effects[k] == EffectView::Service(s));
            } else {
                assert(effects[effects.len() - 1] == EffectView::Service(s));
            }
        }
    }
}

/// A component that is not running is not stopped.
pub proof fn law_waiting_component_stays(h: HostView, i: int)
    requires
        0 <= i < h.entries.len(),
        h.entries[i].state == ComponentState::Pending,
    ensures
        component::stopped(h, i) == h,
{
}

/// Nothing is stopped where every running component has what it needs.
pub proof fn law_sound_host_stays(h: HostView)
    requires
        forall|i: int|
            0 <= i < h.entries.len() && (#[trigger] h.entries[i]).state == ComponentState::Active
                ==> component::missing(h.entries[i].needs, h.services).len() == 0,
    ensures
        component::cascaded(h) == h,
        component::cascade_records(h).len() == 0,
{
    lemma_no_casualties(h, h.entries.len() as int);
}

proof fn lemma_no_casualties(h: HostView, n: int)
    requires
        n <= h.entries.len(),
        forall|i: int|
            0 <= i < h.entries.len() && (#[trigger] h.entries[i]).state == ComponentState::Active
                ==> component::missing(h.entries[i].needs, h.services).len() == 0,
    ensures
        component::casualties(h, n).len() == 0,
    decreases n,
{
    if n > 0 {
        lemma_no_casualties(h, n - 1);
        assert(h.entries[n - 1].state == ComponentState::Active ==> component::missing(
            h.entries[n - 1].needs,
            h.services,
        ).len() == 0);
    }
}

proof fn lemma_casualties_range(h: HostView, n: int)
    requires
        n <= h.entries.len(),
    ensures
        forall|k: int|
            0 <= k < component::casualties(h, n).len() ==> 0 <= #[trigger] component::casualties(
                h,
                n,
            )[k] < h.entries.len(),
    decreases n,
{
    if n > 0 {
        lemma_casualties_range(h, n - 1);
        let before = component::casualties(h, n - 1);
        let all = component::casualties(h, n);
        assert forall|k: int| 0 <= k < all.len() implies 0 <= #[trigger] all[k]
            < h.entries.len() by {
            if k < before.len() {
                assert(all[k] == before[k]);
            }
        }
    }
}

/// Whether `r` comes of `h` by stopping: the same components with the same needs, none
/// that waited runs, one that still runs is as it was, and no service is new.
pub open spec fn only_stopped(h: HostView, r: HostView) -> bool {
    &&& r.entries.len() == h.entries.len()
    &&& forall|i: int|
        0 <= i < h.entries.len() ==> {
            let e = #[trigger] r.entries[i];
            &&& e.name == h.entries[i].name
            &&& e.needs == h.entries[i].needs
            &&& e.state == ComponentState::Active ==> e == h.entries[i]
        }
    &&& r.services.subset_of(h.services)
}

proof fn lemma_all_stopped(h: HostView, places: Seq<int>)
    requires
        forall|k: int| 0 <= k < places.len() ==> 0 <= #[trigger] places[k] < h.entries.len(),
    ensures
        only_stopped(h, component::all_stopped(h, places)),
    decreases places.len(),
{
    if places.len() > 0 {
        let front = places.drop_last();
        assert forall|k: int| 0 <= k < front.len() implies 0 <= #[trigger] front[k]
            < h.entries.len() by {
            assert(front[k] == places[k]);
        }
        lemma_all_stopped(h, front);
        let last = places[places.len() - 1];
        let b = component::all_stopped(h, front);
        let r = component::stopped(b, last);
        assert forall|i: int| 0 <= i < h.entries.len() implies {
            let e = #[trigger] r.entries[i];
            &&& e.name == h.entries[i].name
            &&& e.needs == h.entries[i].needs
            &&& e.state == ComponentState::Active ==> e == h.entries[i]
        } by {
            assert(b.entries[i].name == h.entries[i].name);
        }
    }
}

/// A cascade only stops: no component is lost, changes its needs or begins to run, one
/// that still runs is as it was, and no service appears.
pub proof fn law_cascade_only_stops(h: HostView)
    ensures
        only_stopped(h, component::cascaded(h)),
    decreases component::running(h.entries),
{
    let hit = component::casualties(h, h.entries.len() as int);
    if hit.len() > 0 {
        lemma_casualties_range(h, h.entries.len() as int);
        lemma_all_stopped(h, hit);
        let next = component::all_stopped(h, hit);
        if component::running(next.entries) < component::running(h.entries) {
            law_cascade_only_stops(next);
            let r = component::cascaded(next);
            assert forall|i: int| 0 <= i < h.entries.len() implies {
                let e = #[trigger] r.entries[i];
                &&& e.name == h.entries[i].name
                &&& e.needs == h.entries[i].needs
                &&& e.state == ComponentState::Active ==> e == h.entries[i]
            } by {
                assert(next.entries[i].name == h.entries[i].name);
            }
        }
    }
}

/// What a component registered is undone from the latest to the first, and nothing is
/// left out.
pub proof fn law_latest_is_undone_first(h: HostView, i: int, k: int)
    requires
        0 <= i < h.entries.len(),
        0 <= k < h.entries[i].effects.len(),
    ensures
        ({
            let s = component::stop_record(h, i);
            let n = h.entries[i].effects.len();
            &&& s.name == h.entries[i].name
            &&& s.undo.len() == n
            &&& s.undo[k] == h.entries[i].effects[n - 1 - k]
        }),
{
}

/// The names of the running components, and no others.
pub proof fn law_running_components_are_named(entries: Seq<EntryView>, name: Seq<char>)
    ensures
        component::active_names(entries).contains(name) <==> exists|i: int|
            0 <= i < entries.len() && (#[trigger] entries[i]).name == name && entries[i].state
                == ComponentState::Active,
    decreases entries.len(),
{
    if entries.len() > 0 {
        let front = entries.drop_last();
        law_running_components_are_named(front, name);
        let last = entries[entries.len() - 1];
        if exists|i: int|
            0 <= i < front.len() && (#[trigger] front[i]).name == name && front[i].state
                == ComponentState::Active {
            let i = choose|i: int|
                0 <= i < front.len() && (#[trigger] front[i]).name == name && front[i].state
                    == ComponentState::Active;
            assert(entries[i] == front[i]);
        }
        if exists|i: int|
            0 <= i < entries.len() && (#[trigger] entries[i]).name == name && entries[i].state
                == ComponentState::Active {
            let i = choose|i: int|
                0 <= i < entries.len() && (#[trigger] entries[i]).name == name && entries[i].state
                    == ComponentState::Active;
            if i < front.len() {
                assert(front[i] == entries[i]);
            }
        }
        if last.name == name && last.state == ComponentState::Active {
            assert(entries[entries.len() - 1].name == name);
        }
    }
}

/// What is published of a component: its name, why it went and how much was undone; or
/// the services in question.
pub proof fn law_component_is_published(
    name: Seq<char>,
    reason: Seq<char>,
    reverted: int,
    list: Seq<Seq<char>>,
)
    ensures
        ({
            let a = component::unloaded_json(name, reason, reverted);
            &&& a.text_at("component"@) == Some(name)
            &&& a.text_at("reason"@) == Some(reason)
            &&& a.get("effects_reverted"@) == Some(JsonView::Int(reverted))
        }),
        ({
            let b = component::services_json(name, "missing"@, list);
            &&& b.text_at("component"@) == Some(name)
            &&& b.array_at("missing"@) is Some
            &&& b.array_at("missing"@)->0.len() == list.len()
            &&& forall|i: int|
                0 <= i < list.len() ==> #[trigger] b.array_at("missing"@)->0[i] == JsonView::Text(
                    list[i],
                )
        }),
{
    reveal_strlit("component");
    reveal_strlit("reason");
    reveal_strlit("effects_reverted");
    reveal_strlit("missing");
    assert("component"@.len() == 9 && "reason"@.len() == 6 && "effects_reverted"@.len() == 16
        && "missing"@.len() == 7);
}

/// A server is reached as it declares: by its command, or by its address.
pub proof fn law_server_is_reached(spec: McpServerSpec)
    ensures
        ({
            let r = plugin::endpoint_of(spec);
            &&& spec.transport@ == "stdio"@ ==> (spec.command matches Some(c) ==> r == Ok::<
                (bool, Seq<char>),
                Seq<char>,
            >((true, c@)))
            &&& spec.transport@ == "http"@ ==> (spec.url matches Some(u) ==> r == Ok::<
                (bool, Seq<char>),
                Seq<char>,
            >((false, u@)))
            &&& spec.transport@ == "stdio"@ && spec.command is None ==> r is Err
            &&& spec.transport@ == "http"@ && spec.url is None ==> r is Err
            &&& spec.transport@ != "stdio"@ && spec.transport@ != "http"@ ==> r is Err
                && text::contains(r->Err_0, spec.transport@)
        }),
{
    reveal_strlit("stdio");
    reveal_strlit("http");
    assert("stdio"@.len() == 5 && "http"@.len() == 4);
    if spec.transport@ != "stdio"@ && spec.transport@ != "http"@ {
        let t = plugin::endpoint_of(spec)->Err_0;
        let n = "unknown transport '"@.len() as int;
        assert(t.subrange(n, n + spec.transport@.len()) =~= spec.transport@);
        assert(text::occurs_at(t, spec.transport@, n));
    }
}

/// A plugin loads exactly where its manifest reads, what it names can be read, and nothing
/// is objected.
pub proof fn law_plugin_loads(files: PluginFiles)
    ensures
        plugin::fault_in(files) is None <==> {
            &&& files.manifest is Read
            &&& files.manifest->Read_0.prompt is Some ==> files.prompt is Ok
            &&& files.manifest->Read_0.skills_dir is Some ==> files.skills is Ok
            &&& files.objection is None
        },
        files.manifest matches ManifestFile::Unreadable(m) ==> plugin::fault_in(files) == Some(
            PluginErrorView::Io(m@),
        ),
        files.manifest matches ManifestFile::Invalid(m) ==> plugin::fault_in(files) == Some(
            PluginErrorView::Manifest { path: files.path@, message: m@ },
        ),
{
}

/// The text of an error tells what it carries.
pub proof fn law_plugin_error_is_told(e: PluginErrorView)
    ensures
        e matches PluginErrorView::Io(m) ==> m.is_suffix_of(plugin::plugin_error_text(e)),
        e matches PluginErrorView::Manifest { path, message } ==> message.is_suffix_of(
            plugin::plugin_error_text(e),
        ) && text::contains(plugin::plugin_error_text(e), path),
        e matches PluginErrorView::Mcp { name, message } ==> message.is_suffix_of(
            plugin::plugin_error_text(e),
        ) && text::contains(plugin::plugin_error_text(e), name),
        e matches PluginErrorView::Capability { plugin: p, message } ==> message.is_suffix_of(
            plugin::plugin_error_text(e),
        ) && text::contains(plugin::plugin_error_text(e), p),
{
    let t = plugin::plugin_error_text(e);
    if let PluginErrorView::Manifest { path, message } = e {
        let n = "invalid manifest "@.len() as int;
        assert(t.subrange(n, n + path.len()) =~= path);
        assert(text::occurs_at(t, path, n));
    }
    if let PluginErrorView::Mcp { name, message } = e {
        let n = "MCP server '"@.len() as int;
        assert(t.subrange(n, n + name.len()) =~= name);
        assert(text::occurs_at(t, name, n));
    }
    if let PluginErrorView::Capability { plugin: p, message } = e {
        let n = "plugin '"@.len() as int;
        assert(t.subrange(n, n + p.len()) =~= p);
        assert(text::occurs_at(t, p, n));
    }
}

/// A prompt file counts without the space around it, and a blank one not at all.
pub proof fn law_blank_fragment_is_none(t: Seq<char>)
    ensures
        text::trim(t).len() == 0 ==> plugin::fragment_of(t) is None,
        text::trim(t).len() > 0 ==> plugin::fragment_of(t) == Some(text::trim(t)),
{
}

/// The fragments of all plugins are in the prompt.
pub proof fn law_every_fragment_is_told(plugins: Seq<Plugin>, i: int, part: Seq<char>)
    requires
        0 <= i < plugins.len(),
        plugins[i].prompt_fragment is Some,
        plugins[i].prompt_fragment->0@ == part,
    ensures
        text::contains(plugin::fragments(plugins), part),
        text::contains(plugin::installed_prompt(plugins), part),
{
    lemma_fragments(plugins, i, part);
    let known = skills::in_order(plugin::merged_skills(plugins));
    let head = plugin::fragments(plugins);
    if known.len() > 0 {
        let section = skills::skills_section(known);
        if head.len() == 0 {
            let k = choose|k: int| #[trigger] text::occurs_at(head, part, k);
            assert(part =~= Seq::<char>::empty());
            assert(section.subrange(0, 0) =~= part);
            assert(text::occurs_at(section, part, 0));
        } else {
            texts::law_contained_in_a_part(head, "\n\n"@, part);
            texts::law_contained_in_a_part(head + "\n\n"@, section, part);
        }
    }
}

proof fn lemma_fragments(plugins: Seq<Plugin>, i: int, part: Seq<char>)
    requires
        0 <= i < plugins.len(),
        plugins[i].prompt_fragment is Some,
        plugins[i].prompt_fragment->0@ == part,
    ensures
        text::contains(plugin::fragments(plugins), part),
    decreases plugins.len(),
{
    let front = plugins.drop_last();
    let head = plugin::fragments(front);
    let last = plugins[plugins.len() - 1];
    if i < front.len() {
        assert(front[i] == plugins[i]);
        lemma_fragments(front, i, part);
        if let Some(p) = last.prompt_fragment {
            if head.len() == 0 {
                let k = choose|k: int| #[trigger] text::occurs_at(head, part, k);
                assert(part =~= Seq::<char>::empty());
                assert(p@.subrange(0, 0) =~= part);
                assert(text::occurs_at(p@, part, 0));
            } else {
                texts::law_contained_in_a_part(head, "\n\n"@, part);
                texts::law_contained_in_a_part(head + "\n\n"@, p@, part);
            }
        }
    } else {
        texts::law_contained_in_a_part(Seq::empty(), Seq::empty(), part);
        if head.len() > 0 {
            texts::law_contained_in_a_part(head + "\n\n"@, part, part);
        }
    }
}

/// Every merged skill is told.
pub proof fn law_every_merged_skill_is_told(plugins: Seq<Plugin>, i: int)
    requires
        0 <= i < skills::in_order(plugin::merged_skills(plugins)).len(),
    ensures
        ({
            let s = skills::in_order(plugin::merged_skills(plugins))[i];
            text::contains(
                plugin::installed_prompt(plugins),
                "- "@ + s.name + ": "@ + s.description + "\n"@,
            )
        }),
{
    let known = skills::in_order(plugin::merged_skills(plugins));
    let head = plugin::fragments(plugins);
    let line = "- "@ + known[i].name + ": "@ + known[i].description + "\n"@;
    prompting::law_every_skill_is_told(known, i);
    texts::law_contained_in_a_part(head + "\n\n"@, skills::skills_section(known), line);
}

/// A skill that comes later under a name counts; the others stay.
pub proof fn law_later_skill_counts(
    known: Map<Seq<char>, SkillView>,
    more: Seq<SkillView>,
    s: SkillView,
)
    ensures
        plugin::with_skills(known, Seq::empty()) == known,
        plugin::with_skills(known, more.push(s)) == plugin::with_skills(known, more).insert(
            s.name,
            s,
        ),
{
    assert(more.push(s).drop_last() =~= more);
}

proof fn lemma_rpc_keys()
    ensures
        "jsonrpc"@ != "id"@,
        "jsonrpc"@ != "method"@,
        "jsonrpc"@ != "params"@,
        "jsonrpc"@ != "error"@,
        "id"@ != "method"@,
        "id"@ != "params"@,
        "id"@ != "error"@,
        "method"@ != "params"@,
        "code"@ != "message"@,
        "request_id"@ != "server"@,
        "request_id"@ != "message"@,
        "request_id"@ != "schema"@,
        "server"@ != "message"@,
        "server"@ != "schema"@,
        "message"@ != "schema"@,
        "action"@ != "content"@,
        "protocolVersion"@ != "capabilities"@,
        "protocolVersion"@ != "clientInfo"@,
        "capabilities"@ != "clientInfo"@,
        "name"@ != "version"@,
{
    reveal_strlit("jsonrpc");
    reveal_strlit("id");
    reveal_strlit("method");
    reveal_strlit("params");
    reveal_strlit("error");
    reveal_strlit("code");
    reveal_strlit("message");
    reveal_strlit("request_id");
    reveal_strlit("server");
    reveal_strlit("schema");
    reveal_strlit("action");
    reveal_strlit("content");
    reveal_strlit("protocolVersion");
    reveal_strlit("capabilities");
    reveal_strlit("clientInfo");
    reveal_strlit("name");
    reveal_strlit("version");
    assert("jsonrpc"@.len() == 7 && "id"@.len() == 2 && "method"@.len() == 6 && "params"@.len() == 6
        && "error"@.len() == 5 && "code"@.len() == 4 && "message"@.len() == 7 && "request_id"@.len()
        == 10 && "server"@.len() == 6 && "schema"@.len() == 6 && "action"@.len() == 6
        && "content"@.len() == 7 && "protocolVersion"@.len() == 15 && "capabilities"@.len() == 12
        && "clientInfo"@.len() == 10 && "name"@.len() == 4 && "version"@.len() == 7);
    assert("method"@[0] == 'm' && "params"@[0] == 'p' && "server"@[1] == 'e' && "schema"@[1]
        == 'c');
}

/// A request carries its ID, its method and its parameters; a notification has no ID.
pub proof fn law_request_is_sent(id: u64, method: Seq<char>, params: JsonView)
    ensures
        ({
            let r = client::request_json(id, method, params);
            &&& r.text_at("jsonrpc"@) == Some("2.0"@)
            &&& r.get("id"@) == Some(JsonView::Int(id as int))
            &&& r.text_at("method"@) == Some(method)
            &&& r.get("params"@) == Some(params)
        }),
        ({
            let n = client::notification_json(method, params);
            &&& n.text_at("jsonrpc"@) == Some("2.0"@)
            &&& n.get("id"@) is None
            &&& n.text_at("method"@) == Some(method)
            &&& n.get("params"@) == Some(params)
        }),
{
    lemma_rpc_keys();
}

/// The greeting names the client and its version, and offers to ask the user exactly
/// where it can.
pub proof fn law_greeting_names_the_client(has_bus: bool, version: Seq<char>)
    ensures
        ({
            let r = client::initialize_json(has_bus, version);
            &&& r.text_at("protocolVersion"@) is Some
            &&& r.get("capabilities"@) is Some
            &&& r.get("capabilities"@)->0.get("elicitation"@) is Some <==> has_bus
            &&& r.get("clientInfo"@) is Some
            &&& r.get("clientInfo"@)->0.text_at("version"@) == Some(version)
            &&& r.get("clientInfo"@)->0.text_at("name"@) == Some("eventage-mcp"@)
        }),
{
    lemma_rpc_keys();
}

/// A request that the client does not know is refused, under the same ID.
pub proof fn law_unknown_request_is_refused(id: JsonView, method: Seq<char>)
    ensures
        ({
            let r = client::refusal_json(id, method);
            &&& r.get("id"@) == Some(id)
            &&& r.get("error"@) is Some
            &&& r.get("error"@)->0.get("code"@) == Some(JsonView::Int(-32601))
            &&& r.get("error"@)->0.text_at("message"@) is Some
            &&& text::contains(r.get("error"@)->0.text_at("message"@)->0, method)
        }),
{
    lemma_rpc_keys();
    let t = client::refusal_json(id, method).get("error"@)->0.text_at("message"@)->0;
    let n = "method '"@.len() as int;
    assert(t.subrange(n, n + method.len()) =~= method);
    assert(text::occurs_at(t, method, n));
}

/// The user is asked with the server's message and schema.
pub proof fn law_user_is_asked(request_id: Seq<char>, label: Seq<char>, params: JsonView)
    ensures
        ({
            let r = client::elicitation_json(request_id, label, Some(params));
            &&& r.text_at("request_id"@) == Some(request_id)
            &&& r.text_at("server"@) == Some(label)
            &&& r.text_at("message"@) == Some(blocks::text_in(params.text_at("message"@)))
            &&& params.get("requestedSchema"@) matches Some(s) ==> r.get("schema"@) == Some(s)
        }),
{
    lemma_rpc_keys();
}

/// What the user accepts is handed to the server as it was given.
pub proof fn law_accepted_content_is_handed_on(payload: JsonView, content: JsonView)
    requires
        payload.text_at("action"@) == Some("accept"@),
        payload.get("content"@) == Some(content),
    ensures
        client::answered(payload).text_at("action"@) == Some("accept"@),
        client::answered(payload).get("content"@) == Some(content),
{
    lemma_rpc_keys();
}

/// A line of data is gathered, and an empty line ends the event: its lines are its text.
pub proof fn law_events_end_at_empty_lines(ls: Seq<Seq<char>>, line: Seq<char>)
    requires
        line.len() > 0 ==> line.last() != '\r',
    ensures
        ({
            let a = client::after_sse_lines(ls);
            let b = client::after_sse_lines(ls.push(line));
            &&& sse::data_of(line) matches Some(d) ==> b.events == a.events && b.current
                == a.current.push(d)
            &&& line.len() == 0 && a.current.len() > 0 ==> b.events == a.events.push(
                text::join(a.current, "\n"@),
            ) && b.current.len() == 0
            &&& line.len() == 0 && a.current.len() == 0 ==> b == a
            &&& line.len() > 0 && sse::data_of(line) is None ==> b == a
        }),
{
    assert(ls.push(line).drop_last() =~= ls);
    if line.len() == 0 {
        reveal_strlit("data:");
        assert("data:"@.len() == 5);
    }
}

/// What is still gathered at the end is an event too.
pub proof fn law_last_event_counts(body: Seq<char>)
    ensures
        ({
            let st = client::after_sse_lines(text::lines(body));
            let all = client::data_events(body);
            &&& st.current.len() == 0 ==> all == st.events
            &&& st.current.len() > 0 ==> all == st.events.push(text::join(st.current, "\n"@))
        }),
{
}

/// A tool of a server is offered with its name, its description and its schema.
pub proof fn law_server_tool_is_offered(t: McpToolDef)
    ensures
        ({
            let d = client::definition_of(t);
            &&& d.name == t.name@
            &&& d.parameters == t.input_schema@
            &&& t.description matches Some(s) ==> d.description == s@
            &&& t.description is None ==> d.description.len() == 0
            &&& d.kind == "function"@
        }),
{
}

/// What a call of a server's tool gives: an error with its text; the structured content
/// where there is some; the text where all is text; else everything as it came.
pub proof fn law_server_call_gives_its_content(
    items: Seq<JsonView>,
    structured: Option<JsonView>,
    is_error: bool,
)
    ensures
        ({
            let r = client::call_outcome(items, structured, is_error);
            &&& is_error ==> r == Err::<JsonView, McpErrorView>(
                McpErrorView::Tool(text::join(client::item_texts(items), "\n"@)),
            )
            &&& !is_error ==> (structured matches Some(v) ==> r == Ok::<JsonView, McpErrorView>(v))
            &&& !is_error && structured is None && items.len() == 0 ==> r == Err::<
                JsonView,
                McpErrorView,
            >(McpErrorView::NoResult)
            &&& !is_error && structured is None && items.len() > 0 ==> r is Ok
        }),
{
    seqs::lemma_filter_map_len(items, |item: JsonView| client::item_text(item));
}

/// A single text is given as that text, and anything else of a single item as it came.
pub proof fn law_single_item_is_given(item: JsonView)
    ensures
        item.text_at("type"@) == Some("text"@) ==> (item.text_at("text"@) matches Some(t)
            ==> client::call_outcome(seq![item], None, false) == Ok::<JsonView, McpErrorView>(
            JsonView::Text(t),
        )),
        item.text_at("type"@) != Some("text"@) ==> client::call_outcome(seq![item], None, false)
            == Ok::<JsonView, McpErrorView>(JsonView::Array(seq![item])),
{
    blocks::lemma_filter_one(item, |item: JsonView| client::item_text(item));
    if item.text_at("type"@) == Some("text"@) {
        if let Some(t) = item.text_at("text"@) {
            assert(client::item_texts(seq![item]) =~= seq![t]);
            assert(text::join(seq![t], "\n"@) == t);
        }
    }
}

/// The texts of a result are read item by item.
pub proof fn law_item_texts_are_in_order(a: Seq<JsonView>, b: Seq<JsonView>)
    ensures
        client::item_texts(a + b) == client::item_texts(a) + client::item_texts(b),
{
    seqs::lemma_filter_map_concat(a, b, |item: JsonView| client::item_text(item));
}

/// A prefix changes the name that the model sees, and not the one that the server knows.
pub proof fn law_prefix_hides_nothing(def: ToolDefView, prefix: Seq<char>, t: McpToolView)
    ensures
        tool::listed_tool(def, None).definition == def,
        tool::listed_tool(def, None).remote_name == def.name,
        tool::listed_tool(def, Some(prefix)).remote_name == def.name,
        tool::listed_tool(def, Some(prefix)).definition.name == prefix + "__"@ + def.name,
        tool::listed_tool(def, Some(prefix)).definition.description == def.description,
        tool::listed_tool(def, Some(prefix)).definition.parameters == def.parameters,
        tool::renamed(t, prefix).remote_name == t.remote_name,
        tool::renamed(t, prefix).definition.name == prefix + "__"@ + t.remote_name,
        tool::renamed(t, prefix).definition.description == t.definition.description,
        tool::renamed(t, prefix).definition.parameters == t.definition.parameters,
{
}

/// Every listed tool has its place in the list.
pub proof fn law_every_tool_is_listed(defs: Seq<ToolDefView>, prefix: Option<Seq<char>>, i: int)
    requires
        0 <= i < defs.len(),
    ensures
        tool::listed_tools(defs, prefix).len() == defs.len(),
        tool::listed_tools(defs, prefix)[i].remote_name == defs[i].name,
        tool::listed_tools(defs, prefix)[i].definition.parameters == defs[i].parameters,
{
}

/// Tools of a server are registered under the names that the model sees; one that comes
/// later under a name counts.
pub proof fn law_server_tools_are_registered(
    registry: Map<Seq<char>, ToolDefView>,
    tools: Seq<McpToolView>,
    t: McpToolView,
)
    ensures
        tool::with_tools(registry, Seq::empty()) == registry,
        tool::with_tools(registry, tools.push(t)) == tool::with_tools(registry, tools).insert(
            t.definition.name,
            t.definition,
        ),
{
    assert(tools.push(t).drop_last() =~= tools);
}

/// A plugin that loads is what its files say: its prompt without the space around it, and
/// its skills by name.
pub proof fn law_loaded_plugin_is_its_files(p: Plugin, files: PluginFiles, s: Seq<char>)
    requires
        files.manifest is Read,
        plugin::comes_from(p, files.manifest->Read_0, files),
        files.manifest->Read_0.prompt is Some,
        files.prompt is Ok,
        files.prompt->Ok_0@ == s,
    ensures
        p.name@ == files.manifest->Read_0.name@,
        p.description@ == files.manifest->Read_0.description@,
        p.mcp_servers@ == files.manifest->Read_0.mcp@,
        p.observers@ == files.manifest->Read_0.observers@,
        text::trim(s).len() > 0 ==> p.prompt_fragment is Some && p.prompt_fragment->0@
            == text::trim(s),
        text::trim(s).len() == 0 ==> p.prompt_fragment is None,
{
}

/// Only the answer to the same question is one.
pub proof fn law_answer_belongs_to_its_question(e: EventView, request_id: Seq<char>)
    ensures
        client::is_answer_to(e, request_id) <==> e.kind == "mcp.elicitation.response"@
            && e.payload.text_at("request_id"@) == Some(request_id),
{
}

/// An error shows the beginning of what the server said.
pub proof fn law_error_shows_the_beginning(body: Seq<char>)
    ensures
        client::body_start(body).is_prefix_of(body),
        client::body_start(body).len() == (if body.len() <= 500 {
            body.len()
        } else {
            500
        }),
{
}

/// The fragments stand in the order of the plugins, with an empty line between two; the
/// skills stand last.
pub proof fn law_fragments_stand_in_order(plugins: Seq<Plugin>, p: Plugin, part: Seq<char>)
    requires
        p.prompt_fragment is Some,
        p.prompt_fragment->0@ == part,
    ensures
        plugin::fragments(Seq::empty()).len() == 0,
        plugin::fragments(plugins).len() == 0 ==> plugin::fragments(plugins.push(p)) == part,
        plugin::fragments(plugins).len() > 0 ==> plugin::fragments(plugins.push(p))
            == plugin::fragments(plugins) + "\n\n"@ + part,
        plugin::fragments(plugins).is_prefix_of(plugin::installed_prompt(plugins)),
{
    assert(plugins.push(p).drop_last() =~= plugins);
}

/// A plugin without a fragment adds none.
pub proof fn law_plugin_without_a_fragment(plugins: Seq<Plugin>, p: Plugin)
    requires
        p.prompt_fragment is None,
    ensures
        plugin::fragments(plugins.push(p)) == plugin::fragments(plugins),
{
    assert(plugins.push(p).drop_last() =~= plugins);
}

/// Without an acceptance nothing of the user's is handed to the server: it is told that
/// the user cancelled where the user did, and that the request was declined elsewhere.
pub proof fn law_nothing_is_handed_on_unasked(payload: JsonView)
    requires
        payload.text_at("action"@) != Some("accept"@),
    ensures
        client::answered(payload).get("content"@) is None,
        client::answered(payload).text_at("action"@) == Some(
            if payload.text_at("action"@) == Some("cancel"@) {
                "cancel"@
            } else {
                "decline"@
            },
        ),
{
    lemma_rpc_keys();
}

/// Whether every component that runs in `h` and not in `r` has its record: its name, and
/// what it had registered, the latest first.
pub open spec fn stops_are_told(h: HostView, r: HostView, told: Seq<StoppedView>) -> bool {
    forall|i: int|
        0 <= i < h.entries.len() && (#[trigger] h.entries[i]).state == ComponentState::Active
            && r.entries[i].state != ComponentState::Active ==> exists|k: int|
            0 <= k < told.len() && (#[trigger] told[k]).name == h.entries[i].name && told[k].undo
                == h.entries[i].effects.reverse()
}

proof fn lemma_stops_are_told(h: HostView, places: Seq<int>)
    requires
        forall|k: int| 0 <= k < places.len() ==> 0 <= #[trigger] places[k] < h.entries.len(),
    ensures
        stops_are_told(h, component::all_stopped(h, places), component::stop_records(h, places)),
        component::stop_records(h, places).len() + component::running(
            component::all_stopped(h, places).entries,
        ) == component::running(h.entries),
    decreases places.len(),
{
    if places.len() > 0 {
        let front = places.drop_last();
        assert forall|k: int| 0 <= k < front.len() implies 0 <= #[trigger] front[k]
            < h.entries.len() by {
            assert(front[k] == places[k]);
        }
        lemma_stops_are_told(h, front);
        lemma_all_stopped(h, front);
        let p = places[places.len() - 1];
        assert(0 <= p < h.entries.len());
        let b = component::all_stopped(h, front);
        let r = component::all_stopped(h, places);
        let rest = component::stop_records(h, front);
        let told = component::stop_records(h, places);
        assert(r == component::stopped(b, p));
        assert(b.entries[p].name == h.entries[p].name);
        if b.entries[p].state == ComponentState::Active {
            component::lemma_running_update(b.entries, p, r.entries[p]);
            assert(told == rest.push(component::stop_record(b, p)));
            assert(told[told.len() - 1] == component::stop_record(h, p));
        }
        assert forall|i: int|
            0 <= i < h.entries.len() && (#[trigger] h.entries[i]).state == ComponentState::Active
                && r.entries[i].state != ComponentState::Active implies exists|k: int|
            0 <= k < told.len() && (#[trigger] told[k]).name == h.entries[i].name && told[k].undo
                == h.entries[i].effects.reverse() by {
            assert(b.entries[i].name == h.entries[i].name);
            if b.entries[i].state != ComponentState::Active {
                let k = choose|k: int|
                    0 <= k < rest.len() && (#[trigger] rest[k]).name == h.entries[i].name
                        && rest[k].undo == h.entries[i].effects.reverse();
                assert(told[k] == rest[k]);
            } else {
                assert(i == p);
                assert(told[told.len() - 1].name == h.entries[i].name);
            }
        }
    }
}

/// A cascade tells of every component that it stops, and of no other: there are as many
/// records as components fewer that run.
pub proof fn law_every_stop_is_told(h: HostView)
    ensures
        stops_are_told(h, component::cascaded(h), component::cascade_records(h)),
        component::cascade_records(h).len() + component::running(component::cascaded(h).entries)
            == component::running(h.entries),
    decreases component::running(h.entries),
{
    let hit = component::casualties(h, h.entries.len() as int);
    if hit.len() > 0 {
        lemma_casualties_range(h, h.entries.len() as int);
        lemma_stops_are_told(h, hit);
        lemma_all_stopped(h, hit);
        let next = component::all_stopped(h, hit);
        if component::running(next.entries) < component::running(h.entries) {
            law_every_stop_is_told(next);
            law_cascade_only_stops(next);
            let r = component::cascaded(next);
            let first = component::stop_records(h, hit);
            let later = component::cascade_records(next);
            let told = component::cascade_records(h);
            assert(told == first + later);
            assert forall|i: int|
                0 <= i < h.entries.len() && (#[trigger] h.entries[i]).state
                    == ComponentState::Active && r.entries[i].state
                    != ComponentState::Active implies exists|k: int|
                0 <= k < told.len() && (#[trigger] told[k]).name == h.entries[i].name
                    && told[k].undo == h.entries[i].effects.reverse() by {
                if next.entries[i].state == ComponentState::Active {
                    assert(next.entries[i] == h.entries[i]);
                    let k = choose|k: int|
                        0 <= k < later.len() && (#[trigger] later[k]).name == next.entries[i].name
                            && later[k].undo == next.entries[i].effects.reverse();
                    assert(told[first.len() + k] == later[k]);
                } else {
                    let k = choose|k: int|
                        0 <= k < first.len() && (#[trigger] first[k]).name == h.entries[i].name
                            && first[k].undo == h.entries[i].effects.reverse();
                    assert(told[k] == first[k]);
                }
            }
        }
    }
}

proof fn lemma_missing_grows(needs: Seq<Seq<char>>, more: Set<Seq<char>>, fewer: Set<Seq<char>>)
    requires
        fewer.subset_of(more),
    ensures
        component::missing(needs, more).len() <= component::missing(needs, fewer).len(),
    decreases needs.len(),
{
    if needs.len() > 0 {
        let front = needs.drop_last();
        let n = needs[needs.len() - 1];
        lemma_missing_grows(front, more, fewer);
        assert(front + seq![n] =~= needs);
        law_missing_services_are_told(front, seq![n], more, n);
        law_missing_services_are_told(front, seq![n], fewer, n);
    } else {
        assert(component::missing(needs, more).len() == 0);
    }
}

proof fn lemma_only_the_hit_stop(h: HostView, places: Seq<int>, i: int)
    requires
        forall|k: int| 0 <= k < places.len() ==> 0 <= #[trigger] places[k] < h.entries.len(),
        0 <= i < h.entries.len(),
        !places.contains(i),
    ensures
        component::all_stopped(h, places).entries[i] == h.entries[i],
    decreases places.len(),
{
    if places.len() > 0 {
        let front = places.drop_last();
        assert forall|k: int| 0 <= k < front.len() implies 0 <= #[trigger] front[k]
            < h.entries.len() by {
            assert(front[k] == places[k]);
        }
        assert(!front.contains(i)) by {
            if front.contains(i) {
                let k = front.index_of(i);
                assert(places[k] == i);
            }
        }
        lemma_only_the_hit_stop(h, front, i);
        lemma_all_stopped(h, front);
        assert(places[places.len() - 1] != i);
    }
}

/// A cascade stops no component without need: one that ran and runs no more lacks a
/// service that it requires.
pub proof fn law_nothing_stops_without_need(h: HostView, i: int)
    requires
        0 <= i < h.entries.len(),
        h.entries[i].state == ComponentState::Active,
        component::cascaded(h).entries[i].state != ComponentState::Active,
    ensures
        component::missing(h.entries[i].needs, component::cascaded(h).services).len() > 0,
    decreases component::running(h.entries),
{
    let n = h.entries.len() as int;
    let hit = component::casualties(h, n);
    if hit.len() > 0 {
        component::lemma_casualties(h, n);
        lemma_casualties_range(h, n);
        lemma_all_stopped(h, hit);
        law_cascade_only_stops(h);
        let next = component::all_stopped(h, hit);
        if hit.contains(i) {
            let k = hit.index_of(i);
            assert(component::dangling(h, hit[k]));
            lemma_missing_grows(h.entries[i].needs, h.services, component::cascaded(h).services);
        } else {
            lemma_only_the_hit_stop(h, hit, i);
            if component::running(next.entries) < component::running(h.entries) {
                law_nothing_stops_without_need(next, i);
            }
        }
    }
}

/// The components that a cascade stops are those that run and lack a service, in the order
/// in which they were registered.
pub proof fn law_stops_follow_the_registration(h: HostView, n: int)
    requires
        0 <= n <= h.entries.len(),
    ensures
        ({
            let hit = component::casualties(h, n);
            &&& forall|i: int, j: int| 0 <= i < j < hit.len() ==> #[trigger] hit[i] < #[trigger] hit[j]
            &&& forall|i: int|
                0 <= i < hit.len() ==> 0 <= #[trigger] hit[i] < n && h.entries[hit[i]].state
                    == ComponentState::Active && component::missing(
                    h.entries[hit[i]].needs,
                    h.services,
                ).len() > 0
            &&& forall|k: int|
                0 <= k < n && (#[trigger] h.entries[k]).state == ComponentState::Active
                    && component::missing(h.entries[k].needs, h.services).len() > 0 ==> hit.contains(k)
        }),
    decreases n,
{
    if n > 0 {
        law_stops_follow_the_registration(h, n - 1);
        let front = component::casualties(h, n - 1);
        let hit = component::casualties(h, n);
        assert forall|i: int| 0 <= i < hit.len() implies 0 <= #[trigger] hit[i] < n
            && h.entries[hit[i]].state == ComponentState::Active && component::missing(
            h.entries[hit[i]].needs,
            h.services,
        ).len() > 0 by {
            if i < front.len() {
                assert(hit[i] == front[i]);
            }
        }
        assert forall|i: int, j: int| 0 <= i < j < hit.len() implies #[trigger] hit[i]
            < #[trigger] hit[j] by {
            assert(hit[i] == front[i]);
            if j < front.len() {
                assert(hit[j] == front[j]);
            }
        }
        assert forall|k: int|
            0 <= k < n && (#[trigger] h.entries[k]).state == ComponentState::Active
                && component::missing(h.entries[k].needs, h.services).len()
                > 0 implies hit.contains(k) by {
            if k < n - 1 {
                let m = front.index_of(k);
                assert(hit[m] == k);
            } else {
                assert(hit[hit.len() - 1] == k);
            }
        }
    }
}

} // verus!
