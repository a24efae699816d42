//! Token-budget enforcement for agent sessions.
//!
//! Usage is summed up from the event log: every assistant message carries the
//! tokens that its model call took. Crossing the warning threshold publishes a
//! warning and adds a note to the prompt; crossing the budget publishes that it is
//! exhausted and aborts the cycle before the next model call. As usage is recomputed
//! from the log, the accounting survives restarts.
use crate::text;
use crate::llm::types;
use crate::agent::tokens;
use super::hook::HookAction;
use crate::event::{Event, EventView};
use crate::json::{Json, JsonMap, JsonView};
use crate::kinds;
use crate::llm::types::{ChatMessage, MessageView, Role};
use crate::meta_keys;
use crate::text::{decimal_of, same};
use vstd::prelude::*;

verus! {

/// Which events count against the budget.
#[derive(Debug, Clone, Copy, PartialEq, Eq, Structural)]
pub enum BudgetScope {
    /// All model usage on the bus (every agent in the session).
    Session,
    /// Only usage attributed to the agent this hook runs inside.
    Agent,
}

/// A number in the metadata of an event, or zero.
pub open spec fn meta_count(e: EventView, key: Seq<char>) -> nat {
    match e.meta(key) {
        Some(v) => match v.as_u64() {
            Some(n) => n as nat,
            None => 0,
        },
        None => 0,
    }
}

/// Whether an event counts against the budget.
pub open spec fn counts(e: EventView, scope: BudgetScope, agent_id: Seq<char>) -> bool {
    match scope {
        BudgetScope::Session => true,
        BudgetScope::Agent => e.meta_text(meta_keys::AGENT_ID@) == Some(agent_id),
    }
}

/// The tokens that the events of a log took.
pub open spec fn used(log: Seq<EventView>, scope: BudgetScope, agent_id: Seq<char>) -> nat
    decreases log.len(),
{
    if log.len() == 0 {
        0
    } else {
        used(log.drop_last(), scope, agent_id) + (if counts(log.last(), scope, agent_id) {
            meta_count(log.last(), meta_keys::LLM_INPUT_TOKENS@) + meta_count(
                log.last(),
                meta_keys::LLM_OUTPUT_TOKENS@,
            )
        } else {
            0
        })
    }
}

/// The number of used tokens as far as a `u64` holds it.
pub open spec fn used_capped(log: Seq<EventView>, scope: BudgetScope, agent_id: Seq<char>) -> nat {
    let n = used(log, scope, agent_id);
    if n > u64::MAX {
        u64::MAX as nat
    } else {
        n
    }
}

/// Enforces a token budget over the event log.
#[derive(Debug)]
pub struct TokenBudgetHook {
    /// Hard ceiling on input and output tokens together.
    pub max_tokens: u64,
    /// The number of tokens at which the warning fires.
    pub warn_at: u64,
    /// Whether usage is counted per session or per agent.
    pub scope: BudgetScope,
    pub warned: bool,
    pub exhausted_reported: bool,
}

/// What a budget does before a model call.
pub struct BudgetMove {
    pub action: HookAction,
    /// The kind and the payload of an event to publish.
    pub publish: Option<(&'static str, Json)>,
    /// A note to add to the prompt.
    pub note: Option<ChatMessage>,
}

/// The payload of a budget event.
pub open spec fn budget_json(spent: int, max: int) -> JsonView {
    JsonView::Object(
        Map::<Seq<char>, JsonView>::empty().insert("used_tokens"@, JsonView::Int(spent)).insert(
            "max_tokens"@,
            JsonView::Int(max),
        ),
    )
}

/// The note to a model whose budget is nearly exhausted.
pub open spec fn budget_note(spent: nat, max: nat) -> MessageView {
    MessageView {
        name: Some("harness"@),
        ..types::text_message(
            Role::User,
            "[harness] Token budget nearly exhausted ("@ + text::decimal(spent) + " of "@ + text::decimal(max)
                + " used). Finish the task now with what you have; avoid further tool calls unless strictly necessary."@,
        )
    }
}

/// Whether an event to publish has this kind and tells of this usage.
pub open spec fn tells_usage(
    p: Option<(&'static str, Json)>,
    kind: Seq<char>,
    spent: int,
    max: int,
) -> bool {
    p matches Some((k, payload)) && k@ == kind && payload@ == budget_json(spent, max)
}

fn budget_payload(spent: u64, max: u64) -> (r: Json)
    ensures
        r@ == budget_json(spent as int, max as int),
{
    Json::Object(
        JsonMap::new().with("used_tokens", Json::Unsigned(spent)).with(
            "max_tokens",
            Json::Unsigned(max),
        ),
    )
}

fn read_meta(e: &Event, key: &str) -> (r: u64)
    ensures
        r == meta_count(e@, key@),
{
    match e.metadata.get(key) {
        Some(v) => match v.as_u64() {
            Some(n) => n,
            None => 0,
        },
        None => 0,
    }
}

impl TokenBudgetHook {
    /// A budget for the whole session, with the number of tokens at which it warns.
    pub fn new(max_tokens: u64, warn_at: u64) -> (r: TokenBudgetHook)
        ensures
            r == (TokenBudgetHook {
                max_tokens,
                warn_at,
                scope: BudgetScope::Session,
                warned: false,
                exhausted_reported: false,
            }),
    {
        TokenBudgetHook {
            max_tokens,
            warn_at,
            scope: BudgetScope::Session,
            warned: false,
            exhausted_reported: false,
        }
    }

    /// Restrict accounting to the owning agent's usage only.
    pub fn agent_scoped(self) -> (r: TokenBudgetHook)
        ensures
            r == (TokenBudgetHook { scope: BudgetScope::Agent, ..self }),
    {
        let mut out = self;
        out.scope = BudgetScope::Agent;
        out
    }

    /// Sum tracked token usage from the event log.
    pub fn used_tokens(&self, events: &Vec<Event>, agent_id: &str) -> (r: u64)
        ensures
            r == used_capped(text::views(events@), self.scope, agent_id@),
    {
        let ghost log = text::views(events@);
        let mut total: u64 = 0;
        let mut i: usize = 0;
        while i < events.len()
            invariant
                i <= events@.len(),
                log == text::views(events@),
                total == used_capped(log.take(i as int), self.scope, agent_id@),
            decreases events@.len() - i,
        {
            let e = &events[i];
            proof {
                assert(log.take(i + 1).last() == e@);
                assert(log.take(i + 1).drop_last() =~= log.take(i as int));
            }
            let mine = match self.scope {
                BudgetScope::Session => true,
                BudgetScope::Agent => match e.meta_text(meta_keys::AGENT_ID) {
                    Some(t) => same(t, agent_id),
                    None => false,
                },
            };
            if mine {
                let input: u64 = read_meta(e, meta_keys::LLM_INPUT_TOKENS);
                let output: u64 = read_meta(e, meta_keys::LLM_OUTPUT_TOKENS);
                total = total.saturating_add(input).saturating_add(output);
            }
            i += 1;
        }
        assert(log.take(i as int) =~= log);
        total
    }

    /// What happens before a model call: nothing under the threshold, a note (and
    /// once an event) from the threshold on, and an abort (and once an event) from
    /// the budget on.
    pub fn before_llm(&mut self, events: &Vec<Event>, agent_id: &str) -> (r: BudgetMove)
        ensures
            ({
                let spent = used_capped(text::views(events@), old(self).scope, agent_id@) as int;
                let max = old(self).max_tokens as int;
                if spent >= max {
                    &&& r.action is AbortCycle
                    &&& r.note is None
                    &&& if old(self).exhausted_reported {
                        r.publish is None
                    } else {
                        tells_usage(r.publish, kinds::BUDGET_EXHAUSTED@, spent, max)
                    }
                    &&& *final(self) == (TokenBudgetHook { exhausted_reported: true, ..*old(self) })
                } else if spent >= old(self).warn_at {
                    &&& r.action is Continue
                    &&& r.note matches Some(m) && m@ == budget_note(spent as nat, max as nat)
                    &&& if old(self).warned {
                        r.publish is None
                    } else {
                        tells_usage(r.publish, kinds::BUDGET_WARNING@, spent, max)
                    }
                    &&& *final(self) == (TokenBudgetHook { warned: true, ..*old(self) })
                } else {
                    &&& r.action is Continue
                    &&& r.note is None
                    &&& r.publish is None
                    &&& *final(self) == *old(self)
                }
            }),
    {
        let spent: u64 = self.used_tokens(events, agent_id);
        let max: u64 = self.max_tokens;
        if spent >= max {
            let first = !self.exhausted_reported;
            self.exhausted_reported = true;
            let publish = if first {
                Some((kinds::BUDGET_EXHAUSTED, budget_payload(spent, max)))
            } else {
                None
            };
            return BudgetMove { action: HookAction::AbortCycle, publish, note: None };
        }
        if spent >= self.warn_at {
            let first = !self.warned;
            self.warned = true;
            let publish = if first {
                Some((kinds::BUDGET_WARNING, budget_payload(spent, max)))
            } else {
                None
            };
            let mut text = "[harness] Token budget nearly exhausted (".to_owned();
            let a = decimal_of(spent);
            text.push_str(a.as_str());
            text.push_str(" of ");
            let b = decimal_of(max);
            text.push_str(b.as_str());
            text.push_str(
                " used). Finish the task now with what you have; avoid further tool calls unless strictly necessary.",
            );
            let note = ChatMessage::user(text.as_str()).with_name("harness");
            return BudgetMove { action: HookAction::Continue, publish, note: Some(note) };
        }
        BudgetMove { action: HookAction::Continue, publish: None, note: None }
    }
}

} // verus!
