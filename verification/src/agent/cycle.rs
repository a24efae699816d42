//! When an agent wakes, how it backs off after errors, and what frames a cycle.
use crate::text;
use crate::event;
use crate::agent::stuck;
use crate::agent::strategy;
use crate::agent::context;
use crate::agent::prompts;
use super::prompts::PromptLibrary;
use super::strategy::AgentContext;
use super::stuck::{detect_stuck, StuckAnalysis, StuckKind};
use crate::event::{Event, EventView};
use crate::json::{Json, JsonMap, JsonView};
use crate::kinds;
use crate::meta_keys;
use crate::text::same;
use vstd::prelude::*;

verus! {

// ── Waking ─────────────────────────────────────────────────────────────────

/// Whether an event of this kind wakes every agent.
pub open spec fn wakes_all(e: EventView) -> bool {
    e.kind == kinds::USER_MESSAGE@ || e.kind == kinds::SYSTEM_HEARTBEAT@ || e.kind
        == kinds::SYSTEM_MESSAGE@
}

/// Whether an event is a message from an agent that is meant for this one: it names
/// this agent, or none.
pub open spec fn addressed(e: EventView, agent_id: Seq<char>) -> bool {
    e.kind == kinds::AGENT_MESSAGE@ && match e.meta_text(meta_keys::TO_AGENT_ID@) {
        Some(to) => to == agent_id,
        None => true,
    }
}

/// Whether an event wakes an agent.
pub open spec fn wakes(e: EventView, agent_id: Seq<char>) -> bool {
    wakes_all(e) || addressed(e, agent_id)
}

/// Whether an event is a message from an agent that is meant for this one.
pub fn is_addressed(e: &Event, agent_id: &str) -> (r: bool)
    ensures
        r == addressed(e@, agent_id@),
{
    same(e.kind.as_str(), kinds::AGENT_MESSAGE) && match e.meta_text(meta_keys::TO_AGENT_ID) {
        Some(to) => same(to, agent_id),
        None => true,
    }
}

fn rouses_all(e: &Event) -> (r: bool)
    ensures
        r == wakes_all(e@),
{
    let kind = e.kind.as_str();
    same(kind, kinds::USER_MESSAGE) || same(kind, kinds::SYSTEM_HEARTBEAT) || same(
        kind,
        kinds::SYSTEM_MESSAGE,
    )
}

/// Whether an event wakes the agent.
pub fn should_wake(e: &Event, agent_id: &str) -> (r: bool)
    ensures
        r == wakes(e@, agent_id@),
{
    rouses_all(e) || is_addressed(e, agent_id)
}

/// Whether a log holds an event that arrived before the agent listened and asks for
/// a cycle.
pub fn has_pending(events: &Vec<Event>) -> (r: bool)
    ensures
        r == exists|i: int| 0 <= i < events@.len() && wakes_all(#[trigger] text::views(events@)[i]),
{
    let ghost log = text::views(events@);
    let mut i: usize = 0;
    while i < events.len()
        invariant
            i <= events@.len(),
            log == text::views(events@),
            forall|j: int| 0 <= j < i ==> !wakes_all(#[trigger] log[j]),
        decreases events@.len() - i,
    {
        assert(log[i as int] == events@[i as int]@);
        if rouses_all(&events[i]) {
            return true;
        }
        i += 1;
    }
    false
}

// ── Backing off ────────────────────────────────────────────────────────────

/// How many errors an agent made in a row, and when the last one was.
#[derive(Debug, Clone, Copy, PartialEq, Eq, Structural)]
pub struct Backoff {
    pub consecutive_errors: u32,
    pub last_error_ms: Option<u64>,
}

/// The milliseconds to wait after `n` errors in a row: a second, doubled for each
/// further one, up to 32 seconds.
pub open spec fn wait_ms(n: int) -> int {
    if n <= 0 {
        0
    } else if n == 1 {
        1_000
    } else if n == 2 {
        2_000
    } else if n == 3 {
        4_000
    } else if n == 4 {
        8_000
    } else if n == 5 {
        16_000
    } else {
        32_000
    }
}

/// The wait grows with each error and never exceeds 32 seconds, so an agent can
/// always recover.
pub proof fn law_backoff_is_bounded(n: int, m: int)
    requires
        n <= m,
    ensures
        0 <= wait_ms(n) <= wait_ms(m) <= 32_000,
        1 < m <= 6 ==> wait_ms(m) == 2 * wait_ms(m - 1),
{
}

/// How a cycle ended.
pub enum CycleEnd {
    Completed,
    /// The bus failed; the agent stops.
    BusFailed,
    /// Anything else failed; the agent goes on.
    Failed(String),
}

/// What an agent does after a cycle.
pub enum AfterCycle {
    /// Wait for the next event.
    Listen,
    /// Publish this assistant payload and wait for the next event.
    Report(Json),
    /// Stop with the error.
    Stop,
}

/// What the user is told of an error.
pub open spec fn error_json(error: Seq<char>) -> JsonView {
    JsonView::Object(
        Map::<Seq<char>, JsonView>::empty().insert(
            "content"@,
            JsonView::Text("⚠️ Error: "@ + error + ". Ready for your next message."@),
        ),
    )
}

impl Backoff {
    pub fn new() -> (r: Backoff)
        ensures
            r.consecutive_errors == 0,
            r.last_error_ms is None,
    {
        Backoff { consecutive_errors: 0, last_error_ms: None }
    }

    /// Whether a cycle may run at the time `now_ms`: always after a success, and
    /// after errors once the wait is over.
    pub fn may_run(&self, now_ms: u64) -> (r: bool)
        ensures
            r == (self.consecutive_errors == 0 || match self.last_error_ms {
                Some(t) => now_ms >= t + wait_ms(self.consecutive_errors as int),
                None => true,
            }),
    {
        if self.consecutive_errors == 0 {
            return true;
        }
        let wait: u64 = match self.consecutive_errors {
            1 => 1_000,
            2 => 2_000,
            3 => 4_000,
            4 => 8_000,
            5 => 16_000,
            _ => 32_000,
        };
        match self.last_error_ms {
            Some(t) => now_ms >= t && now_ms - t >= wait,
            None => true,
        }
    }

    /// Takes in how a cycle ended at the time `now_ms`. The bus failing stops the
    /// agent; any other error is counted and reported, and a success clears the
    /// count.
    pub fn after_cycle(&mut self, end: &CycleEnd, now_ms: u64) -> (r: AfterCycle)
        ensures
            match *end {
                CycleEnd::Completed => r is Listen && *final(self) == (Backoff {
                    consecutive_errors: 0,
                    last_error_ms: None,
                }),
                CycleEnd::BusFailed => r is Stop && *final(self) == *old(self),
                CycleEnd::Failed(e) => {
                    &&& r matches AfterCycle::Report(payload) && payload@ == error_json(e@)
                    &&& final(self).last_error_ms == Some(now_ms)
                    &&& final(self).consecutive_errors == (if old(self).consecutive_errors
                        < u32::MAX {
                        old(self).consecutive_errors + 1
                    } else {
                        u32::MAX as int
                    })
                },
            },
    {
        match end {
            CycleEnd::Completed => {
                self.consecutive_errors = 0;
                self.last_error_ms = None;
                AfterCycle::Listen
            },
            CycleEnd::BusFailed => AfterCycle::Stop,
            CycleEnd::Failed(e) => {
                self.consecutive_errors = self.consecutive_errors.saturating_add(1);
                self.last_error_ms = Some(now_ms);
                let mut text = "⚠️ Error: ".to_owned();
                text.push_str(e.as_str());
                text.push_str(". Ready for your next message.");
                AfterCycle::Report(
                    Json::Object(JsonMap::new().with("content", Json::text(text.as_str()))),
                )
            },
        }
    }
}

// ── The frame of a cycle ───────────────────────────────────────────────────

/// The name of a stuck pattern.
pub open spec fn stuck_name(kind: StuckKind) -> Seq<char> {
    match kind {
        StuckKind::RepeatingAction => "RepeatingAction"@,
        StuckKind::RepeatingError => "RepeatingError"@,
        StuckKind::Monologue => "Monologue"@,
        StuckKind::ContextWindowLoop => "ContextWindowLoop"@,
    }
}

/// The payload of the hint to an agent that repeats itself.
pub open spec fn stuck_json(hint: Seq<char>, kind: StuckKind, repeats: int) -> JsonView {
    JsonView::Object(
        Map::<Seq<char>, JsonView>::empty().insert("kind"@, JsonView::Text(stuck_name(kind))).insert(
            "repeat_count"@,
            JsonView::Int(repeats),
        ).insert("hint"@, JsonView::Text(hint)),
    )
}

fn stuck_payload(hint: &str, a: &StuckAnalysis) -> (r: Json)
    ensures
        r@ == stuck_json(hint@, a.kind, a.repeat_count as int),
{
    let name = match a.kind {
        StuckKind::RepeatingAction => "RepeatingAction",
        StuckKind::RepeatingError => "RepeatingError",
        StuckKind::Monologue => "Monologue",
        StuckKind::ContextWindowLoop => "ContextWindowLoop",
    };
    Json::Object(
        JsonMap::new().with("kind", Json::text(name)).with(
            "repeat_count",
            Json::Unsigned(a.repeat_count as u64),
        ).with("hint", Json::text(hint)),
    )
}

/// The hint that a library has for an agent that repeats itself.
pub open spec fn stuck_hint(library: Map<Seq<char>, Seq<char>>) -> Seq<char> {
    prompts::rendered(library, prompts::names::STUCK_HINT@, Seq::empty())
}

/// The event that hints at a stuck pattern.
pub open spec fn stuck_event(
    e: EventView,
    agent_id: Seq<char>,
    hint: Seq<char>,
    kind: StuckKind,
    n: int,
) -> bool {
    e == event::plain_event(
        e.id,
        e.timestamp,
        kinds::AGENT_STUCK@,
        stuck_json(hint, kind, n),
    ).with_meta(meta_keys::AGENT_ID@, JsonView::Text(agent_id))
}

/// The events that open a cycle. With an empty context there is none; where the last
/// ten events show a stuck pattern, a hint comes first, with the text that the prompt
/// library has for it.
pub fn open_cycle(
    ctx: &AgentContext,
    library: &PromptLibrary,
    context_len: usize,
    events: &Vec<Event>,
) -> (r: Vec<Event>)
    ensures
        ({
            let seen = stuck::diagnosis(context::newest(text::views(events@), 10));
            if context_len == 0 {
                r@.len() == 0
            } else {
                &&& r@.len() == (if seen is Some {
                    2nat
                } else {
                    1nat
                })
                &&& match seen {
                    Some((kind, n)) => stuck_event(
                        r@[0]@,
                        ctx.agent_id@,
                        stuck_hint(library@),
                        kind,
                        n as int,
                    ),
                    None => true,
                }
                &&& r@.last()@ == strategy::tagged(
                    event::plain_event(
                        r@.last().id,
                        r@.last().timestamp,
                        kinds::AGENT_CYCLE_START@,
                        JsonView::Object(Map::empty()),
                    ),
                    ctx.agent_id@,
                    ctx.trace_id@,
                )
            }
        }),
{
    let mut out: Vec<Event> = Vec::new();
    if context_len == 0 {
        return out;
    }
    if let Some(a) = detect_stuck(events, 10) {
        let vars: [(&str, &str); 0] = [];
        let hint = library.render(prompts::names::STUCK_HINT, &vars);
        assert(prompts::vars_view(vars@) =~= Seq::empty());
        let e = Event::new(kinds::AGENT_STUCK, stuck_payload(hint.as_str(), &a)).with_meta(
            meta_keys::AGENT_ID,
            Json::text(ctx.agent_id.as_str()),
        );
        out.push(e);
    }
    let start = ctx.event(kinds::AGENT_CYCLE_START, Json::Object(JsonMap::new()));
    out.push(start);
    out
}

/// The event that closes a cycle, with how long it took.
pub fn close_cycle(ctx: &AgentContext, elapsed_ms: u64) -> (r: Event)
    ensures
        r@ == strategy::tagged(
            event::plain_event(
                r.id,
                r.timestamp,
                kinds::AGENT_CYCLE_END@,
                JsonView::Object(Map::empty()),
            ),
            ctx.agent_id@,
            ctx.trace_id@,
        ).with_meta(meta_keys::ELAPSED_MS@, JsonView::Int(elapsed_ms as int)),
{
    ctx.event(kinds::AGENT_CYCLE_END, Json::Object(JsonMap::new())).with_meta(
        meta_keys::ELAPSED_MS,
        Json::Unsigned(elapsed_ms),
    )
}

} // verus!
