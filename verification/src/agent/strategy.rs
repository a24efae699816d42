//! Execution strategies: what one step of reasoning does and decides.
use crate::event;
use crate::text;
use crate::seqs;
use crate::llm::wire;
use crate::llm::types;
use crate::json;
use crate::agent::prompts;
use super::hook::HookAction;
use super::prompts::PromptLibrary;
use crate::event::{Event, EventId, EventView};
use crate::json::{Json, JsonMap, JsonView};
use crate::kinds;
use crate::llm::types::{
    tool_calls_json, ChatMessage, DeltaView, LlmResponse, MessageView, ResponseView, Role,
    StreamDelta, ToolCall, ToolCallView,
};
use crate::meta_keys;
use crate::text::{bytes_in, chars_of, decimal_of, fit_prefix, reach_prefix, string_of};
use vstd::prelude::*;

verus! {

/// Default max model calls per cycle.
pub const DEFAULT_MAX_REACT_STEPS: usize = 20;

/// Default max concurrent tools per step.
pub const DEFAULT_MAX_CONCURRENT_TOOLS: usize = 4;

/// Default wall-clock limit per tool call (seconds).
pub const DEFAULT_TOOL_TIMEOUT_SECS: u64 = 300;

/// Default cap on the serialized size of one tool result.
pub const DEFAULT_MAX_TOOL_RESULT_CHARS: usize = 30_000;

/// A limit on how long something may take: whole seconds, and nanoseconds of the
/// second after them.
#[derive(Debug, Clone, Copy, PartialEq, Eq, Structural)]
pub struct TimeLimit {
    pub secs: u64,
    pub nanos: u32,
}

/// Runtime guardrails applied to every tool call.
#[derive(Debug, Clone, Copy)]
pub struct ToolExecOptions {
    /// Maximum tools executing concurrently in one step.
    pub max_concurrent: usize,
    /// Wall-clock limit per tool call; `None` disables it.
    pub timeout: Option<TimeLimit>,
    /// Maximum size of a tool result that is kept. Oversized results are
    /// middle-truncated with an explanatory marker; `None` disables truncation.
    pub max_result_chars: Option<usize>,
    /// Check parsed arguments against the tool's JSON Schema before execution.
    pub validate_args: bool,
}

impl Default for ToolExecOptions {
    fn default() -> (r: ToolExecOptions)
        ensures
            r.max_concurrent == 4,
            r.timeout == Some(TimeLimit { secs: 300, nanos: 0 }),
            r.max_result_chars == Some(30_000usize),
            r.validate_args,
    {
        ToolExecOptions {
            max_concurrent: DEFAULT_MAX_CONCURRENT_TOOLS,
            timeout: Some(TimeLimit { secs: DEFAULT_TOOL_TIMEOUT_SECS, nanos: 0 }),
            max_result_chars: Some(DEFAULT_MAX_TOOL_RESULT_CHARS),
            validate_args: true,
        }
    }
}

// ── Truncation ─────────────────────────────────────────────────────────────

/// How many bytes of `max` go to the head.
pub open spec fn head_share(max: int) -> int {
    (max * 7) / 10
}

/// How the mark of an elided middle ends.
pub const ELIDED_TEXT: &'static str =
    " chars elided by the harness — full output is in the event log; re-run the tool with narrower arguments if you need the elided part]…\n";

/// The mark that stands for the elided middle of a text.
pub open spec fn elision_mark(elided: nat, total: nat) -> Seq<char> {
    "\n…["@ + text::decimal(elided) + " of "@ + text::decimal(total)
        + ELIDED_TEXT@
}

/// The bytes that the mark of a text of `total` bytes takes at most.
pub open spec fn mark_room(total: nat) -> nat {
    text::byte_len(elision_mark(total, total))
}

/// How many bytes of a text of `total` bytes are kept: what the mark leaves of
/// `max`, or `max` where the mark alone is longer.
pub open spec fn kept_bytes(total: nat, max: int) -> int {
    if mark_room(total) <= max {
        max - mark_room(total)
    } else {
        max
    }
}

/// Where the head of a truncated text ends.
pub open spec fn head_end(s: Seq<char>, max: int) -> int {
    text::fitting(s, head_share(kept_bytes(text::byte_len(s), max)))
}

/// Where the tail of a truncated text starts.
pub open spec fn tail_start(s: Seq<char>, max: int) -> int {
    let kept = kept_bytes(text::byte_len(s), max);
    text::reaching(s, text::byte_len(s) - (kept - head_share(kept)))
}

/// `s`, or its head and its tail with a mark between them that says how much is
/// missing. Head and tail end at character boundaries.
pub open spec fn middle_truncated(s: Seq<char>, max: int) -> Seq<char> {
    let total = text::byte_len(s);
    if total <= max {
        s
    } else {
        let head = head_end(s, max);
        let tail = tail_start(s, max);
        s.take(head) + elision_mark(
            (text::byte_len(s.take(tail)) - text::byte_len(s.take(head))) as nat,
            total,
        ) + s.skip(tail)
    }
}

proof fn lemma_fitting_bound(s: Seq<char>, n: int)
    requires
        0 <= n,
    ensures
        0 <= text::fitting(s, n) <= s.len(),
        text::byte_len(s.take(text::fitting(s, n))) <= n,
    decreases s.len(),
{
    if s.len() == 0 || text::byte_len(s) <= n {
        assert(s.take(s.len() as int) =~= s);
    } else {
        lemma_fitting_bound(s.drop_last(), n);
        let k = text::fitting(s.drop_last(), n);
        assert(s.drop_last().take(k) =~= s.take(k));
    }
}

proof fn lemma_reaching_bound(s: Seq<char>, n: int)
    requires
        n <= text::byte_len(s),
    ensures
        0 <= text::reaching(s, n) <= s.len(),
        n <= text::byte_len(s.take(text::reaching(s, n))),
    decreases s.len(),
{
    if s.len() == 0 || text::byte_len(s.drop_last()) < n {
        assert(s.take(s.len() as int) =~= s);
    } else {
        lemma_reaching_bound(s.drop_last(), n);
        let k = text::reaching(s.drop_last(), n);
        assert(s.drop_last().take(k) =~= s.take(k));
    }
}

/// What is kept of a truncated text are a prefix and a suffix that do not
/// overlap, and together they take at most `max` bytes.
pub proof fn law_truncation_keeps_ends(s: Seq<char>, max: int)
    requires
        0 <= max < text::byte_len(s),
    ensures
        0 <= head_end(s, max) <= tail_start(s, max) <= s.len(),
        text::byte_len(s.take(head_end(s, max))) + text::byte_len(s.skip(tail_start(s, max)))
            <= kept_bytes(text::byte_len(s), max) <= max,
        s.take(head_end(s, max)).is_prefix_of(middle_truncated(s, max)),
        s.skip(tail_start(s, max)).is_suffix_of(middle_truncated(s, max)),
{
    let total = text::byte_len(s) as int;
    let kept = kept_bytes(text::byte_len(s), max);
    let share = head_share(kept);
    assert(0 <= share <= kept) by (nonlinear_arith)
        requires
            0 <= kept,
            share == (kept * 7) / 10,
    ;
    let head = head_end(s, max);
    let tail = tail_start(s, max);
    lemma_fitting_bound(s, share);
    lemma_reaching_bound(s, total - (kept - share));
    if tail < head {
        text::lemma_byte_len_monotone(s, tail, head);
    }
    assert(s.take(tail) + s.skip(tail) =~= s);
    text::lemma_byte_len_concat(s.take(tail), s.skip(tail));
}

/// A text takes at least one and at most four bytes per character.
proof fn lemma_byte_len_range(s: Seq<char>)
    ensures
        s.len() <= text::byte_len(s) <= 4 * s.len(),
    decreases s.len(),
{
    if s.len() > 0 {
        lemma_byte_len_range(s.drop_last());
    }
}

/// A decimal text takes one byte per digit.
proof fn lemma_decimal_bytes(n: nat)
    ensures
        text::byte_len(text::decimal(n)) == text::decimal(n).len(),
    decreases n,
{
    if n < 10 {
        assert(text::decimal(n).drop_last() =~= Seq::empty());
        assert(text::byte_len(Seq::<char>::empty()) == 0);
    } else {
        lemma_decimal_bytes(n / 10);
        assert(text::decimal(n).drop_last() =~= text::decimal(n / 10));
    }
}

/// A smaller number has no more digits.
proof fn lemma_decimal_monotone(m: nat, n: nat)
    requires
        m <= n,
    ensures
        text::decimal(m).len() <= text::decimal(n).len(),
    decreases n,
{
    if n >= 10 && m >= 10 {
        lemma_decimal_monotone(m / 10, n / 10);
    }
}

spec fn power_of_ten(k: nat) -> nat
    decreases k,
{
    if k == 0 {
        1
    } else {
        10 * power_of_ten((k - 1) as nat)
    }
}

proof fn lemma_decimal_short(n: nat, k: nat)
    requires
        k >= 1,
        n < power_of_ten(k),
    ensures
        text::decimal(n).len() <= k,
    decreases k,
{
    if n >= 10 {
        reveal_with_fuel(power_of_ten, 2);
        lemma_decimal_short(n / 10, (k - 1) as nat);
    }
}

proof fn lemma_mark_bytes(elided: nat, total: nat)
    ensures
        text::byte_len(elision_mark(elided, total)) == text::byte_len("\n…["@) + text::decimal(
            elided,
        ).len() + text::byte_len(" of "@) + text::decimal(total).len() + text::byte_len(ELIDED_TEXT@),
{
    let a = "\n…["@;
    let b = text::decimal(elided);
    let c = " of "@;
    let d = text::decimal(total);
    let e = ELIDED_TEXT@;
    text::lemma_byte_len_concat(a, b);
    text::lemma_byte_len_concat(a + b, c);
    text::lemma_byte_len_concat(a + b + c, d);
    text::lemma_byte_len_concat(a + b + c + d, e);
    lemma_decimal_bytes(elided);
    lemma_decimal_bytes(total);
}

/// The mark takes less than a thousand bytes.
proof fn lemma_mark_is_short(total: nat)
    requires
        total <= u64::MAX,
    ensures
        mark_room(total) <= 1000,
{
    lemma_mark_bytes(total, total);
    assert(power_of_ten(20) > u64::MAX) by {
        reveal_with_fuel(power_of_ten, 21);
    }
    lemma_decimal_short(total, 20);
    reveal_strlit("\n…[");
    reveal_strlit(" of ");
    reveal_strlit(
        " chars elided by the harness — full output is in the event log; re-run the tool with narrower arguments if you need the elided part]…\n",
    );
    lemma_byte_len_range("\n…["@);
    lemma_byte_len_range(" of "@);
    lemma_byte_len_range(ELIDED_TEXT@);
}

/// A truncated text, its mark included, takes at most `max` bytes, and so has at
/// most `max` characters, wherever the mark fits. From a limit of 1000 on it
/// always does.
pub proof fn law_truncation_is_bounded(s: Seq<char>, max: int)
    requires
        0 <= max,
        text::byte_len(s) <= u64::MAX,
    ensures
        text::byte_len(s) <= max || mark_room(text::byte_len(s)) <= max ==> text::byte_len(
            middle_truncated(s, max),
        ) <= max && middle_truncated(s, max).len() <= max,
        1000 <= max ==> mark_room(text::byte_len(s)) <= max,
{
    let total = text::byte_len(s);
    lemma_mark_is_short(total);
    lemma_byte_len_range(middle_truncated(s, max));
    if total > max && mark_room(total) <= max {
        law_truncation_keeps_ends(s, max);
        let head = s.take(head_end(s, max));
        let tail = s.skip(tail_start(s, max));
        let before = s.take(tail_start(s, max));
        text::lemma_byte_len_monotone(s, tail_start(s, max), s.len() as int);
        assert(s.take(s.len() as int) =~= s);
        let elided = (text::byte_len(before) - text::byte_len(head)) as nat;
        text::lemma_byte_len_monotone(s, head_end(s, max), tail_start(s, max));
        let mark = elision_mark(elided, total);
        text::lemma_byte_len_concat(head, mark);
        text::lemma_byte_len_concat(head + mark, tail);
        lemma_mark_bytes(elided, total);
        lemma_mark_bytes(total, total);
        lemma_decimal_monotone(elided, total);
    }
}

fn mark_text(elided: usize, total: usize) -> (r: String)
    ensures
        r@ == elision_mark(elided as nat, total as nat),
{
    let mut out = "\n…[".to_owned();
    let missing = decimal_of(elided as u64);
    out.push_str(missing.as_str());
    out.push_str(" of ");
    let all = decimal_of(total as u64);
    out.push_str(all.as_str());
    out.push_str(ELIDED_TEXT);
    out
}

/// Middle-truncate `s` to at most `max_chars`, keeping the head and tail (where the
/// useful signal of most tool outputs lives) and inserting a marker stating how much
/// was elided. The marker counts, unless it is longer than `max_chars` by itself: it
/// then comes on top.
pub fn truncate_middle(s: &str, max_chars: usize) -> (r: String)
    ensures
        r@ == middle_truncated(s@, max_chars as int),
        mark_room(text::byte_len(s@)) <= max_chars ==> text::byte_len(r@) <= max_chars,
        1000 <= max_chars ==> text::byte_len(r@) <= max_chars,
{
    let total: usize = bytes_in(s);
    proof {
        law_truncation_is_bounded(s@, max_chars as int);
    }
    if total <= max_chars {
        return s.to_owned();
    }
    let longest = mark_text(total, total);
    let room: usize = bytes_in(longest.as_str());
    let kept: usize = if room <= max_chars {
        max_chars - room
    } else {
        max_chars
    };
    let share: usize = (kept / 10) * 7 + ((kept % 10) * 7) / 10;
    assert(share == head_share(kept as int)) by {
        let q = kept as int / 10;
        let m = kept as int % 10;
        assert(kept as int == q * 10 + m);
        assert((q * 10 + m) * 7 == (q * 7) * 10 + m * 7);
    }
    let v = chars_of(s);
    let (head, head_bytes) = fit_prefix(&v, total, share);
    let (tail, tail_bytes) = reach_prefix(&v, total, total - (kept - share));
    proof {
        lemma_fitting_bound(s@, share as int);
        lemma_reaching_bound(s@, total - (kept - share));
    }
    let mut out = string_of(&v, 0, head);
    assert(out@ =~= s@.take(head as int));
    let mark = mark_text(tail_bytes - head_bytes, total);
    out.push_str(mark.as_str());
    let rest = string_of(&v, tail, v.len());
    assert(rest@ =~= s@.skip(tail as int));
    out.push_str(rest.as_str());
    out
}

/// A tool result within the size limit: one that is too large becomes a
/// truncated text.
pub open spec fn capped(value: JsonView, max: Option<usize>) -> JsonView {
    match max {
        None => value,
        Some(n) => if text::byte_len(json::json_text(value)) <= n {
            value
        } else {
            JsonView::Text(
                middle_truncated(
                    match value {
                        JsonView::Text(t) => t,
                        _ => json::json_text(value),
                    },
                    n as int,
                ),
            )
        },
    }
}

/// Apply a size limit to a successful tool result value.
pub fn cap_result_value(value: Json, max_chars: Option<usize>) -> (r: Json)
    ensures
        r@ == capped(value@, max_chars),
{
    match max_chars {
        None => value,
        Some(max) => {
            let serialized = value.print();
            if bytes_in(serialized.as_str()) <= max {
                return value;
            }
            match value {
                Json::Text(t) => Json::Text(truncate_middle(t.as_str(), max)),
                _ => Json::Text(truncate_middle(serialized.as_str(), max)),
            }
        },
    }
}

// ── Tool calls: pre-flight ─────────────────────────────────────────────────

/// Why a planned call will not be executed.
#[derive(Debug)]
pub enum Veto {
    /// A hook skipped the call or aborted the cycle.
    Skipped,
    /// A hook denied the call; the reason is told to the model.
    Denied(String),
    /// The arguments were wrong; the error is told to the model.
    BadArgs(String),
}

#[verifier::ext_equal]
pub enum VetoView {
    Skipped,
    Denied(Seq<char>),
    BadArgs(Seq<char>),
}

pub open spec fn opt_veto(v: Option<Veto>) -> Option<VetoView> {
    match v {
        None => None,
        Some(Veto::Skipped) => Some(VetoView::Skipped),
        Some(Veto::Denied(t)) => Some(VetoView::Denied(t@)),
        Some(Veto::BadArgs(t)) => Some(VetoView::BadArgs(t@)),
    }
}

/// A call as it will be carried out.
#[derive(Debug)]
pub struct ToolPlan {
    pub id: String,
    pub name: String,
    pub args: Json,
    pub veto: Option<Veto>,
    pub is_terminal: bool,
    /// ID of the proposal event; the result names it as its parent.
    pub proposed_event_id: EventId,
}

#[verifier::ext_equal]
pub struct PlanView {
    pub id: Seq<char>,
    pub name: Seq<char>,
    pub args: JsonView,
    pub veto: Option<VetoView>,
    pub is_terminal: bool,
    pub proposed_event_id: EventId,
}

impl View for ToolPlan {
    type V = PlanView;

    open spec fn view(&self) -> PlanView {
        PlanView {
            id: self.id@,
            name: self.name@,
            args: self.args@,
            veto: opt_veto(self.veto),
            is_terminal: self.is_terminal,
            proposed_event_id: self.proposed_event_id,
        }
    }
}

/// The payload of a proposal event.
pub open spec fn proposal(c: ToolCallView) -> JsonView {
    JsonView::Object(
        map![
            "tool_call_id"@ => JsonView::Text(c.id),
            "name"@ => JsonView::Text(c.name),
            "arguments"@ => JsonView::Text(c.arguments),
        ],
    )
}

/// The payload of a proposal event.
pub fn proposal_json(c: &ToolCall) -> (r: Json)
    ensures
        r@ == proposal(c@),
{
    Json::Object(
        JsonMap::new().with("tool_call_id", Json::text(c.id.as_str())).with(
            "name",
            Json::text(c.function.name.as_str()),
        ).with("arguments", Json::text(c.function.arguments.as_str())),
    )
}

/// A call with bad arguments, which never reaches its tool.
pub open spec fn bad_call(c: ToolCallView, proposed: EventId, args: JsonView, error: Seq<char>) -> PlanView {
    PlanView {
        id: c.id,
        name: c.name,
        args,
        veto: Some(VetoView::BadArgs(error)),
        is_terminal: false,
        proposed_event_id: proposed,
    }
}

/// The call that a hook's answer leaves: it is terminal only where it will be
/// executed by a terminal tool.
pub open spec fn answered_call(
    c: ToolCallView,
    proposed: EventId,
    args: JsonView,
    answer: HookAction,
    terminal_tool: bool,
) -> PlanView {
    PlanView {
        id: c.id,
        name: c.name,
        args,
        veto: match answer {
            HookAction::Continue => None,
            HookAction::Deny(reason) => Some(VetoView::Denied(reason@)),
            _ => Some(VetoView::Skipped),
        },
        is_terminal: answer is Continue && terminal_tool,
        proposed_event_id: proposed,
    }
}

pub open spec fn bad_json_error(e: Seq<char>) -> Seq<char> {
    "invalid JSON in tool arguments: "@ + e
        + ". Re-issue the call with arguments as a single valid JSON object."@
}

pub open spec fn schema_error(violation: Seq<char>) -> Seq<char> {
    violation + ". Re-issue the call with corrected arguments."@
}

/// What is to be done next for a call.
pub enum Preflight {
    /// Check the arguments against the tool's schema.
    CheckSchema(Json),
    /// Ask the hooks.
    AskHooks(Json),
    /// Nothing: the call is planned.
    Planned(ToolPlan),
}

/// Whether `r` is how a call begins whose arguments read as `parsed`.
pub open spec fn begins(
    r: Preflight,
    c: ToolCallView,
    proposed: EventId,
    parsed: Result<JsonView, Seq<char>>,
    checks: bool,
) -> bool {
    match parsed {
        Err(e) => r matches Preflight::Planned(p) && p@ == bad_call(
            c,
            proposed,
            JsonView::Null,
            bad_json_error(e),
        ),
        Ok(args) => if checks {
            r matches Preflight::CheckSchema(j) && j@ == args
        } else {
            r matches Preflight::AskHooks(j) && j@ == args
        },
    }
}

/// Begins a call whose proposal was published: arguments that are no JSON end
/// it, and the schema is checked where that is wanted and the tool is
/// registered.
pub fn begin_call(
    c: &ToolCall,
    proposed: EventId,
    registered: bool,
    validate: bool,
) -> (r: Preflight)
    ensures
        begins(r, c@, proposed, json::parsed_json(c@.arguments), registered && validate),
{
    let parsed = Json::parse(c.function.arguments.as_str());
    begin_parsed(c, proposed, parsed, registered, validate)
}

/// Begins a call, given what its arguments read as.
pub fn begin_parsed(
    c: &ToolCall,
    proposed: EventId,
    parsed: Result<Json, String>,
    registered: bool,
    validate: bool,
) -> (r: Preflight)
    ensures
        begins(r, c@, proposed, json::read_view(parsed), registered && validate),
{
    match parsed {
        Err(e) => {
            let mut text = "invalid JSON in tool arguments: ".to_owned();
            text.push_str(e.as_str());
            text.push_str(". Re-issue the call with arguments as a single valid JSON object.");
            Preflight::Planned(
                ToolPlan {
                    id: c.id.clone(),
                    name: c.function.name.clone(),
                    args: Json::Null,
                    veto: Some(Veto::BadArgs(text)),
                    is_terminal: false,
                    proposed_event_id: proposed,
                },
            )
        },
        Ok(args) => if registered && validate {
            Preflight::CheckSchema(args)
        } else {
            Preflight::AskHooks(args)
        },
    }
}

/// Goes on after the schema was checked: a violation ends the call, and else the
/// hooks are asked.
pub fn after_schema(c: &ToolCall, proposed: EventId, args: Json, violation: Option<String>) -> (r:
    Preflight)
    ensures
        match violation {
            Some(v) => r matches Preflight::Planned(p) && p@ == bad_call(
                c@,
                proposed,
                args@,
                schema_error(v@),
            ),
            None => r matches Preflight::AskHooks(j) && j == args,
        },
{
    match violation {
        Some(v) => {
            let mut text = v;
            text.push_str(". Re-issue the call with corrected arguments.");
            Preflight::Planned(
                ToolPlan {
                    id: c.id.clone(),
                    name: c.function.name.clone(),
                    args,
                    veto: Some(Veto::BadArgs(text)),
                    is_terminal: false,
                    proposed_event_id: proposed,
                },
            )
        },
        None => Preflight::AskHooks(args),
    }
}

/// Plans a call after the hooks answered.
pub fn after_hooks(
    c: &ToolCall,
    proposed: EventId,
    args: Json,
    answer: HookAction,
    terminal_tool: bool,
) -> (r: ToolPlan)
    ensures
        r@ == answered_call(c@, proposed, args@, answer, terminal_tool),
{
    let is_terminal = answer.continues() && terminal_tool;
    let veto = match answer {
        HookAction::Continue => None,
        HookAction::Deny(reason) => Some(Veto::Denied(reason)),
        _ => Some(Veto::Skipped),
    };
    ToolPlan {
        id: c.id.clone(),
        name: c.function.name.clone(),
        args,
        veto,
        is_terminal,
        proposed_event_id: proposed,
    }
}

// ── Tool calls: results ────────────────────────────────────────────────────

/// How the execution of a tool ended.
pub enum ToolOutcome {
    /// No tool of that name is registered.
    NotRegistered,
    Finished(Json),
    /// The tool failed or ran out of time; the text tells how.
    Failed(String),
}

/// A result payload: whose it is, and one more field.
pub open spec fn result_fields(
    id: Seq<char>,
    name: Seq<char>,
    key: Seq<char>,
    value: JsonView,
) -> JsonView {
    JsonView::Object(
        map![
            "tool_call_id"@ => JsonView::Text(id),
            "name"@ => JsonView::Text(name),
            key => value,
        ],
    )
}

fn result_fields_json(id: &str, name: &str, key: &str, value: Json) -> (r: Json)
    ensures
        r@ == result_fields(id@, name@, key@, value@),
{
    Json::Object(
        JsonMap::new().with("tool_call_id", Json::text(id)).with("name", Json::text(name)).with(
            key,
            value,
        ),
    )
}

/// The payload of an execution's outcome.
pub open spec fn outcome_payload(
    id: Seq<char>,
    name: Seq<char>,
    outcome: ToolOutcome,
    max: Option<usize>,
) -> JsonView {
    match outcome {
        ToolOutcome::NotRegistered => result_fields(
            id,
            name,
            "error"@,
            JsonView::Text("tool '"@ + name + "' not registered"@),
        ),
        ToolOutcome::Finished(v) => result_fields(id, name, "result"@, capped(v@, max)),
        ToolOutcome::Failed(e) => result_fields(id, name, "error"@, JsonView::Text(e@)),
    }
}

/// The payload of an execution's outcome.
pub fn outcome_json(id: &str, name: &str, outcome: ToolOutcome, max: Option<usize>) -> (r: Json)
    ensures
        r@ == outcome_payload(id@, name@, outcome, max),
{
    match outcome {
        ToolOutcome::NotRegistered => {
            let mut text = "tool '".to_owned();
            text.push_str(name);
            text.push_str("' not registered");
            result_fields_json(id, name, "error", Json::Text(text))
        },
        ToolOutcome::Finished(v) => result_fields_json(
            id,
            name,
            "result",
            cap_result_value(v, max),
        ),
        ToolOutcome::Failed(e) => result_fields_json(id, name, "error", Json::Text(e)),
    }
}

/// The payload of a call's result event. `executed` is the payload of its
/// outcome, where there is one; a call without one counts as panicked.
pub open spec fn call_result(p: PlanView, executed: Option<JsonView>) -> JsonView {
    match p.veto {
        Some(VetoView::Skipped) => result_fields(
            p.id,
            p.name,
            "result"@,
            JsonView::Object(
                map![
                    "skipped"@ => JsonView::Bool(true),
                    "reason"@ => JsonView::Text("vetoed by hook"@),
                ],
            ),
        ),
        Some(VetoView::Denied(reason)) => result_fields(
            p.id,
            p.name,
            "result"@,
            JsonView::Object(
                map!["denied"@ => JsonView::Bool(true), "reason"@ => JsonView::Text(reason)],
            ),
        ),
        Some(VetoView::BadArgs(error)) => result_fields(
            p.id,
            p.name,
            "error"@,
            JsonView::Text(error),
        ),
        None => match executed {
            Some(j) => j,
            None => result_fields(
                p.id,
                p.name,
                "error"@,
                JsonView::Text("tool execution panicked and produced no result"@),
            ),
        },
    }
}

/// What the hooks are shown of a result: the `result` field, or all of it.
pub open spec fn shown_result(payload: JsonView) -> JsonView {
    match payload.get("result"@) {
        Some(v) => v,
        None => payload,
    }
}

/// The outcome with the given index, the last where several have it.
pub open spec fn outcome_at(done: Seq<(usize, JsonView)>, index: int) -> Option<JsonView>
    decreases done.len(),
{
    if done.len() == 0 {
        None
    } else if done.last().0 == index {
        Some(done.last().1)
    } else {
        outcome_at(done.drop_last(), index)
    }
}

pub open spec fn done_views(done: Seq<(usize, Json)>) -> Seq<(usize, JsonView)> {
    done.map_values(|d: (usize, Json)| (d.0, d.1@))
}

fn find_outcome(done: &Vec<(usize, Json)>, index: usize) -> (r: Option<Json>)
    ensures
        json::opt_json(r) == outcome_at(done_views(done@), index as int),
{
    let ghost ds = done_views(done@);
    let mut i: usize = done.len();
    assert(ds.take(i as int) =~= ds);
    while i > 0
        invariant
            i <= done@.len(),
            ds == done_views(done@),
            outcome_at(ds, index as int) == outcome_at(ds.take(i as int), index as int),
        decreases i,
    {
        proof {
            assert(ds.take(i as int).drop_last() =~= ds.take(i - 1));
            assert(ds.take(i as int).last() == (done@[i - 1].0, done@[i - 1].1@));
        }
        if done[i - 1].0 == index {
            return Some(done[i - 1].1.clone());
        }
        i -= 1;
    }
    None
}

/// A result that is to be published: its payload, what the hooks are shown, and
/// the proposal that it answers.
pub struct ToolResult {
    pub payload: Json,
    pub shown: Json,
    pub parent: EventId,
}

#[verifier::ext_equal]
pub struct ToolResultView {
    pub payload: JsonView,
    pub shown: JsonView,
    pub parent: EventId,
}

impl View for ToolResult {
    type V = ToolResultView;

    open spec fn view(&self) -> ToolResultView {
        ToolResultView { payload: self.payload@, shown: self.shown@, parent: self.parent }
    }
}

/// The results of a batch, one per call and in the order of the calls.
pub open spec fn batch_results(plan: Seq<PlanView>, done: Seq<(usize, JsonView)>) -> Seq<
    ToolResultView,
> {
    Seq::new(
        plan.len(),
        |i: int|
            {
                let payload = call_result(plan[i], outcome_at(done, i));
                ToolResultView {
                    payload,
                    shown: shown_result(payload),
                    parent: plan[i].proposed_event_id,
                }
            },
    )
}

fn call_result_json(p: &ToolPlan, executed: Option<Json>) -> (r: Json)
    ensures
        r@ == call_result(p@, json::opt_json(executed)),
{
    match &p.veto {
        Some(Veto::Skipped) => {
            let inner = JsonMap::new().with("skipped", Json::Bool(true)).with(
                "reason",
                Json::text("vetoed by hook"),
            );
            result_fields_json(p.id.as_str(), p.name.as_str(), "result", Json::Object(inner))
        },
        Some(Veto::Denied(reason)) => {
            let inner = JsonMap::new().with("denied", Json::Bool(true)).with(
                "reason",
                Json::text(reason.as_str()),
            );
            result_fields_json(p.id.as_str(), p.name.as_str(), "result", Json::Object(inner))
        },
        Some(Veto::BadArgs(error)) => result_fields_json(
            p.id.as_str(),
            p.name.as_str(),
            "error",
            Json::text(error.as_str()),
        ),
        None => match executed {
            Some(j) => j,
            None => result_fields_json(
                p.id.as_str(),
                p.name.as_str(),
                "error",
                Json::text("tool execution panicked and produced no result"),
            ),
        },
    }
}

/// Which calls of a plan are to be executed: those that nothing vetoed.
pub fn to_execute(plan: &Vec<ToolPlan>) -> (r: Vec<usize>)
    ensures
        forall|k: int| 0 <= k < r@.len() ==> r@[k] < plan@.len() && plan@[(#[trigger] r@[k]) as int].veto is None,
        forall|i: int| 0 <= i < plan@.len() && (#[trigger] plan@[i]).veto is None ==> r@.contains(i as usize),
        forall|a: int, b: int| 0 <= a < b < r@.len() ==> r@[a] < r@[b],
{
    let mut out: Vec<usize> = Vec::new();
    let mut i: usize = 0;
    while i < plan.len()
        invariant
            i <= plan@.len(),
            forall|k: int|
                0 <= k < out@.len() ==> out@[k] < i && plan@[(#[trigger] out@[k]) as int].veto is None,
            forall|j: int|
                0 <= j < i && (#[trigger] plan@[j]).veto is None ==> out@.contains(j as usize),
            forall|a: int, b: int| 0 <= a < b < out@.len() ==> out@[a] < out@[b],
        decreases plan@.len() - i,
    {
        if plan[i].veto.is_none() {
            let ghost before = out@;
            out.push(i);
            proof {
                assert forall|j: int| 0 <= j < i + 1 && (#[trigger] plan@[j]).veto is None implies out@.contains(
                    j as usize,
                ) by {
                    if j < i {
                        assert(before.contains(j as usize));
                        let k = choose|k: int| 0 <= k < before.len() && before[k] == j as usize;
                        assert(out@[k] == j as usize);
                    } else {
                        assert(out@[out@.len() - 1] == i);
                    }
                }
            }
        }
        i += 1;
    }
    out
}

/// The results of a batch and whether any executed tool was terminal. `done`
/// holds the payloads of the outcomes with the indices of their calls, in any
/// order.
pub fn finish_tools(plan: &Vec<ToolPlan>, done: &Vec<(usize, Json)>) -> (r: (Vec<ToolResult>, bool))
    ensures
        text::views(r.0@) == batch_results(text::views(plan@), done_views(done@)),
        r.1 <==> exists|i: int| 0 <= i < plan@.len() && (#[trigger] plan@[i]).is_terminal,
{
    let mut out: Vec<ToolResult> = Vec::new();
    let mut had_terminal = false;
    let ghost all = batch_results(text::views(plan@), done_views(done@));
    let mut i: usize = 0;
    assert(text::views(out@) =~= all.take(0));
    while i < plan.len()
        invariant
            i <= plan@.len(),
            all == batch_results(text::views(plan@), done_views(done@)),
            all.len() == plan@.len(),
            text::views(out@) == all.take(i as int),
            had_terminal <==> exists|j: int| 0 <= j < i && (#[trigger] plan@[j]).is_terminal,
        decreases plan@.len() - i,
    {
        let executed = find_outcome(done, i);
        let payload = call_result_json(&plan[i], executed);
        let shown = match payload.get("result") {
            Some(v) => v.clone(),
            None => payload.clone(),
        };
        if plan[i].is_terminal {
            assert(plan@[i as int].is_terminal);
            had_terminal = true;
        }
        let result = ToolResult { payload, shown, parent: plan[i].proposed_event_id };
        let ghost before = text::views(out@);
        out.push(result);
        proof {
            assert(text::views(plan@)[i as int] == plan@[i as int]@);
            seqs::lemma_take_push(all, i as int);
            assert(text::views(out@) =~= before.push(result@));
        }
        i += 1;
    }
    assert(all.take(i as int) =~= all);
    (out, had_terminal)
}

/// Every call of a batch gets exactly one result that carries its ID and answers
/// its own proposal, in the order of the calls, whatever the hooks said and
/// however the tools ended.
pub proof fn law_every_call_is_answered(
    plan: Seq<PlanView>,
    outcomes: Seq<(usize, ToolOutcome)>,
    max: Option<usize>,
    i: int,
)
    requires
        0 <= i < plan.len(),
        forall|k: int| 0 <= k < outcomes.len() ==> (#[trigger] outcomes[k]).0 < plan.len(),
    ensures
        ({
            let done = outcomes.map_values(
                |o: (usize, ToolOutcome)|
                    (o.0, outcome_payload(plan[o.0 as int].id, plan[o.0 as int].name, o.1, max)),
            );
            let results = batch_results(plan, done);
            &&& results.len() == plan.len()
            &&& results[i].payload.text_at("tool_call_id"@) == Some(plan[i].id)
            &&& results[i].payload.text_at("name"@) == Some(plan[i].name)
            &&& results[i].parent == plan[i].proposed_event_id
            &&& (results[i].payload.get("result"@) is Some) != (results[i].payload.get("error"@) is Some)
        }),
{
    let done = outcomes.map_values(
        |o: (usize, ToolOutcome)|
            (o.0, outcome_payload(plan[o.0 as int].id, plan[o.0 as int].name, o.1, max)),
    );
    reveal_strlit("tool_call_id");
    reveal_strlit("name");
    reveal_strlit("result");
    reveal_strlit("error");
    assert("tool_call_id"@.len() == 12 && "name"@.len() == 4 && "result"@.len() == 6
        && "error"@.len() == 5);
    lemma_outcome_found(plan, outcomes, max, done, i);
}

proof fn lemma_outcome_found(
    plan: Seq<PlanView>,
    outcomes: Seq<(usize, ToolOutcome)>,
    max: Option<usize>,
    done: Seq<(usize, JsonView)>,
    i: int,
)
    requires
        done.len() == outcomes.len(),
        forall|k: int|
            0 <= k < outcomes.len() ==> #[trigger] done[k] == (
                outcomes[k].0,
                outcome_payload(
                    plan[outcomes[k].0 as int].id,
                    plan[outcomes[k].0 as int].name,
                    outcomes[k].1,
                    max,
                ),
            ),
    ensures
        outcome_at(done, i) matches Some(j) ==> exists|o: ToolOutcome|
            j == outcome_payload(plan[i].id, plan[i].name, o, max),
    decreases done.len(),
{
    if done.len() > 0 {
        let n = done.len() - 1;
        assert(done[n] == done.last());
        if done.last().0 == i {
            assert(outcome_at(done, i) == Some(
                outcome_payload(plan[i].id, plan[i].name, outcomes[n].1, max),
            ));
        } else {
            let front = done.drop_last();
            assert forall|k: int| 0 <= k < outcomes.drop_last().len() implies #[trigger] front[k]
                == (
                outcomes.drop_last()[k].0,
                outcome_payload(
                    plan[outcomes.drop_last()[k].0 as int].id,
                    plan[outcomes.drop_last()[k].0 as int].name,
                    outcomes.drop_last()[k].1,
                    max,
                ),
            ) by {
                assert(front[k] == done[k]);
            }
            lemma_outcome_found(plan, outcomes.drop_last(), max, front, i);
        }
    }
}

// ── Events of a cycle ──────────────────────────────────────────────────────

/// An event tagged with the agent and the cycle that emit it.
pub open spec fn tagged(e: EventView, agent_id: Seq<char>, trace_id: Seq<char>) -> EventView {
    e.with_meta(meta_keys::AGENT_ID@, JsonView::Text(agent_id)).with_meta(
        meta_keys::TRACE_ID@,
        JsonView::Text(trace_id),
    )
}

/// Who emits events: an agent, in a cycle.
#[derive(Debug)]
pub struct AgentContext {
    /// Stable agent identifier; appears in every event's metadata.
    pub agent_id: String,
    /// Correlation ID of the cycle; stamped on every event emitted in it.
    pub trace_id: String,
}

impl AgentContext {
    /// Tags an event with this cycle's agent and trace.
    pub fn tag(&self, e: Event) -> (r: Event)
        ensures
            r@ == tagged(e@, self.agent_id@, self.trace_id@),
    {
        e.with_meta(meta_keys::AGENT_ID, Json::text(self.agent_id.as_str())).with_meta(
            meta_keys::TRACE_ID,
            Json::text(self.trace_id.as_str()),
        )
    }

    /// Build an event pre-tagged with this cycle's agent and trace.
    pub fn event(&self, kind: &str, payload: Json) -> (r: Event)
        ensures
            r@ == tagged(
                event::plain_event(r.id, r.timestamp, kind@, payload@),
                self.agent_id@,
                self.trace_id@,
            ),
    {
        self.tag(Event::new(kind, payload))
    }
}

/// The payload of a streamed piece.
pub open spec fn delta_payload(d: DeltaView) -> JsonView {
    let m = Map::<Seq<char>, JsonView>::empty();
    let a = match d.content {
        Some(t) => m.insert("content"@, JsonView::Text(t)),
        None => m,
    };
    JsonView::Object(
        match d.reasoning_content {
            Some(t) => a.insert("reasoning_content"@, JsonView::Text(t)),
            None => a,
        },
    )
}

/// The payload of a streamed piece.
pub fn delta_json(d: &StreamDelta) -> (r: Json)
    ensures
        r@ == delta_payload(d@),
{
    let mut m = JsonMap::new();
    if let Some(t) = &d.content {
        m.put("content", Json::text(t.as_str()));
    }
    if let Some(t) = &d.reasoning_content {
        m.put("reasoning_content", Json::text(t.as_str()));
    }
    Json::Object(m)
}

/// The payload of an assistant message event.
pub open spec fn assistant_payload(
    response: ResponseView,
    extra: Option<(Seq<char>, JsonView)>,
) -> JsonView {
    let a = map![
        "content"@ => match response.content {
            Some(t) => JsonView::Text(t),
            None => JsonView::Null,
        },
        "tool_calls"@ => JsonView::Array(
            response.tool_calls.map_values(|c: ToolCallView| types::tool_call_json(c)),
        ),
    ];
    let b = match response.reasoning_content {
        Some(t) => a.insert("reasoning_content"@, JsonView::Text(t)),
        None => a,
    };
    let c = wire::with_some(b, "provider_extra"@, response.provider_extra);
    JsonView::Object(
        match extra {
            Some((k, v)) => c.insert(k, v),
            None => c,
        },
    )
}

/// A reported count; one that was not reported counts as zero.
pub open spec fn count_or_zero(n: Option<u32>) -> int {
    match n {
        Some(k) => k as int,
        None => 0,
    }
}

/// An assistant message event with the usage that the provider reported.
pub open spec fn with_usage(e: EventView, response: ResponseView, estimated: int) -> EventView {
    let a = e.with_meta(
        meta_keys::LLM_INPUT_TOKENS@,
        JsonView::Int(count_or_zero(response.input_tokens)),
    ).with_meta(
        meta_keys::LLM_OUTPUT_TOKENS@,
        JsonView::Int(count_or_zero(response.output_tokens)),
    ).with_meta(meta_keys::LLM_ESTIMATED_INPUT_TOKENS@, JsonView::Int(estimated));
    match response.cached_input_tokens {
        Some(n) => a.with_meta(meta_keys::LLM_CACHED_INPUT_TOKENS@, JsonView::Int(n as int)),
        None => a,
    }
}

/// The payload of an assistant message event.
pub fn assistant_json(response: &LlmResponse, extra: Option<(&str, Json)>) -> (r: Json)
    ensures
        r@ == assistant_payload(
            response@,
            match extra {
                Some((k, v)) => Some((k@, v@)),
                None => None,
            },
        ),
{
    let content = match &response.content {
        Some(t) => Json::text(t.as_str()),
        None => Json::Null,
    };
    let mut m = JsonMap::new().with("content", content).with(
        "tool_calls",
        Json::Array(tool_calls_json(&response.tool_calls)),
    );
    if let Some(t) = &response.reasoning_content {
        m.put("reasoning_content", Json::text(t.as_str()));
    }
    if let Some(j) = &response.provider_extra {
        m.put("provider_extra", j.clone());
    }
    if let Some((k, v)) = extra {
        m.put(k, v);
    }
    Json::Object(m)
}

fn count_json(n: Option<u32>) -> (r: Json)
    ensures
        r@ == JsonView::Int(count_or_zero(n)),
{
    match n {
        Some(k) => Json::Unsigned(k as u64),
        None => Json::Unsigned(0),
    }
}

/// The `assistant.message` event of a reply, with reasoning (when present) and
/// token-usage metadata.
pub fn assistant_message(
    ctx: &AgentContext,
    response: &LlmResponse,
    estimated_input_tokens: usize,
    extra: Option<(&str, Json)>,
) -> (r: Event)
    ensures
        r@ == with_usage(
            tagged(
                event::plain_event(
                    r.id,
                    r.timestamp,
                    kinds::ASSISTANT_MESSAGE@,
                    assistant_payload(
                        response@,
                        match extra {
                            Some((k, v)) => Some((k@, v@)),
                            None => None,
                        },
                    ),
                ),
                ctx.agent_id@,
                ctx.trace_id@,
            ),
            response@,
            estimated_input_tokens as int,
        ),
{
    let payload = assistant_json(response, extra);
    let e = ctx.event(kinds::ASSISTANT_MESSAGE, payload).with_meta(
        meta_keys::LLM_INPUT_TOKENS,
        count_json(response.input_tokens),
    ).with_meta(meta_keys::LLM_OUTPUT_TOKENS, count_json(response.output_tokens)).with_meta(
        meta_keys::LLM_ESTIMATED_INPUT_TOKENS,
        Json::Unsigned(estimated_input_tokens as u64),
    );
    match response.cached_input_tokens {
        Some(n) => e.with_meta(meta_keys::LLM_CACHED_INPUT_TOKENS, Json::Unsigned(n as u64)),
        None => e,
    }
}

// ── The loop ───────────────────────────────────────────────────────────────

/// What one step decided about the cycle.
#[derive(Debug, Clone, Copy, PartialEq, Eq, Structural)]
pub enum StepOutcome {
    /// The cycle is finished (final answer, terminal tool, or hook veto).
    Done,
    /// Tool results were produced; another step should run.
    Continue,
}

/// What happened in a step.
pub enum StepEvent {
    /// The hooks answered before the step.
    StepHooks(HookAction),
    /// The context was assembled.
    Assembled { messages: usize },
    /// The hooks answered before the model is called.
    LlmHooks(HookAction),
    /// The model replied.
    Replied { tool_calls: usize },
    /// The tools were executed.
    ToolsDone { had_terminal: bool },
}

/// What a step does next.
#[derive(Debug, Clone, Copy, PartialEq, Eq, Structural)]
pub enum StepPhase {
    Assemble,
    AskLlmHooks,
    CallLlm,
    ExecuteTools,
    Finished(StepOutcome),
}

/// What follows an event of a step.
pub open spec fn next_phase(event: StepEvent) -> StepPhase {
    match event {
        StepEvent::StepHooks(a) => if a is Continue {
            StepPhase::Assemble
        } else {
            StepPhase::Finished(StepOutcome::Done)
        },
        StepEvent::Assembled { messages } => if messages == 0 {
            StepPhase::Finished(StepOutcome::Done)
        } else {
            StepPhase::AskLlmHooks
        },
        StepEvent::LlmHooks(a) => if a is Continue {
            StepPhase::CallLlm
        } else {
            StepPhase::Finished(StepOutcome::Done)
        },
        StepEvent::Replied { tool_calls } => if tool_calls == 0 {
            StepPhase::Finished(StepOutcome::Done)
        } else {
            StepPhase::ExecuteTools
        },
        StepEvent::ToolsDone { had_terminal } => StepPhase::Finished(
            if had_terminal {
                StepOutcome::Done
            } else {
                StepOutcome::Continue
            },
        ),
    }
}

/// What follows an event of a step: hooks, context, model, tools, in this order,
/// each only where the one before it allows.
pub fn run_react_step(event: &StepEvent) -> (r: StepPhase)
    ensures
        r == next_phase(*event),
{
    match event {
        StepEvent::StepHooks(a) => if a.continues() {
            StepPhase::Assemble
        } else {
            StepPhase::Finished(StepOutcome::Done)
        },
        StepEvent::Assembled { messages } => if *messages == 0 {
            StepPhase::Finished(StepOutcome::Done)
        } else {
            StepPhase::AskLlmHooks
        },
        StepEvent::LlmHooks(a) => if a.continues() {
            StepPhase::CallLlm
        } else {
            StepPhase::Finished(StepOutcome::Done)
        },
        StepEvent::Replied { tool_calls } => if *tool_calls == 0 {
            StepPhase::Finished(StepOutcome::Done)
        } else {
            StepPhase::ExecuteTools
        },
        StepEvent::ToolsDone { had_terminal } => StepPhase::Finished(
            if *had_terminal {
                StepOutcome::Done
            } else {
                StepOutcome::Continue
            },
        ),
    }
}

/// Another step runs only after tools were executed and none was terminal.
pub proof fn law_continues_only_after_tools(event: StepEvent)
    ensures
        next_phase(event) == StepPhase::Finished(StepOutcome::Continue) <==> event
            == (StepEvent::ToolsDone { had_terminal: false }),
{
}

/// ReAct (Reason + Act) loop strategy.
///
/// Repeats context, model and tools until there are no tool calls or the limit
/// is reached.
#[derive(Debug, Clone, Copy)]
pub struct ReactStrategy {
    /// Hard cap on model calls per cycle.
    pub max_steps: usize,
    /// Maximum tools executing concurrently in one step.
    pub max_concurrent_tools: usize,
    /// Wall-clock limit per tool call.
    pub tool_timeout: Option<TimeLimit>,
    /// Cap on the serialized size of a single tool result.
    pub max_tool_result_chars: Option<usize>,
    /// When the step budget runs out, make one final call without tools so the
    /// agent wraps up with a coherent answer instead of failing.
    pub finalize_on_max_steps: bool,
    /// Stream completions, broadcasting ephemeral events as tokens arrive.
    pub stream: bool,
}

impl Default for ReactStrategy {
    fn default() -> (r: ReactStrategy)
        ensures
            r.max_steps == 20,
            r.max_concurrent_tools == 4,
            r.tool_timeout == Some(TimeLimit { secs: 300, nanos: 0 }),
            r.max_tool_result_chars == Some(30_000usize),
            r.finalize_on_max_steps,
            !r.stream,
    {
        ReactStrategy {
            max_steps: DEFAULT_MAX_REACT_STEPS,
            max_concurrent_tools: DEFAULT_MAX_CONCURRENT_TOOLS,
            tool_timeout: Some(TimeLimit { secs: DEFAULT_TOOL_TIMEOUT_SECS, nanos: 0 }),
            max_tool_result_chars: Some(DEFAULT_MAX_TOOL_RESULT_CHARS),
            finalize_on_max_steps: true,
            stream: false,
        }
    }
}

/// What the loop does next.
#[derive(Debug, Clone, Copy, PartialEq, Eq, Structural)]
pub enum LoopMove {
    /// Run the step with this number, counted from one.
    Step(usize),
    /// Make one final call without tools.
    Finalize,
    /// Fail: the step limit is reached.
    GiveUp(usize),
    /// The cycle is over.
    Finish,
}

impl ReactStrategy {
    /// The guardrails of this strategy's tool calls.
    pub fn tool_options(&self) -> (r: ToolExecOptions)
        ensures
            r.max_concurrent == self.max_concurrent_tools,
            r.timeout == self.tool_timeout,
            r.max_result_chars == self.max_tool_result_chars,
            r.validate_args,
    {
        ToolExecOptions {
            max_concurrent: self.max_concurrent_tools,
            timeout: self.tool_timeout,
            max_result_chars: self.max_tool_result_chars,
            validate_args: true,
        }
    }

    /// What follows `done` steps, of which the last, if any, ended with `last`.
    pub open spec fn next_move(self, done: usize, last: StepOutcome) -> LoopMove {
        if done > 0 && last == StepOutcome::Done {
            LoopMove::Finish
        } else if done < self.max_steps {
            LoopMove::Step((done + 1) as usize)
        } else if self.finalize_on_max_steps {
            LoopMove::Finalize
        } else {
            LoopMove::GiveUp(self.max_steps)
        }
    }

    /// What follows `done` steps, of which the last, if any, ended with `last`.
    pub fn advance(&self, done: usize, last: StepOutcome) -> (r: LoopMove)
        ensures
            r == self.next_move(done, last),
    {
        if done > 0 && last == StepOutcome::Done {
            LoopMove::Finish
        } else if done < self.max_steps {
            LoopMove::Step(done + 1)
        } else if self.finalize_on_max_steps {
            LoopMove::Finalize
        } else {
            LoopMove::GiveUp(self.max_steps)
        }
    }

    /// The messages of the final call: the assembled context and a nudge to wrap
    /// up, with the text that the prompt library has for it. The nudge stands only in
    /// the request, never in the log. Without context there is no final call.
    pub fn finalize(&self, library: &PromptLibrary, messages: Vec<ChatMessage>) -> (r: Option<
        Vec<ChatMessage>,
    >)
        ensures
            match r {
                None => messages@.len() == 0,
                Some(v) => messages@.len() > 0 && text::views(v@) == text::views(messages@).push(
                    wrap_up(library@),
                ),
            },
    {
        if messages.len() == 0 {
            return None;
        }
        let mut out = messages;
        let vars: [(&str, &str); 0] = [];
        let text = library.render(prompts::names::WRAP_UP, &vars);
        assert(prompts::vars_view(vars@) =~= Seq::empty());
        let nudge = ChatMessage::user(text.as_str()).with_name("harness");
        out.push(nudge);
        assert(text::views(out@) =~= text::views(messages@).push(wrap_up(library@)));
        Some(out)
    }
}

/// The nudge to wrap up that a library has.
pub open spec fn wrap_up(library: Map<Seq<char>, Seq<char>>) -> MessageView {
    MessageView {
        name: Some("harness"@),
        ..types::text_message(
            Role::User,
            prompts::rendered(library, prompts::names::WRAP_UP@, Seq::empty()),
        )
    }
}

/// A cycle takes at most `max_steps` steps.
pub proof fn law_steps_are_bounded(s: ReactStrategy, done: usize, last: StepOutcome)
    ensures
        s.next_move(done, last) matches LoopMove::Step(n) ==> 1 <= n <= s.max_steps && n == done + 1,
        done >= s.max_steps ==> !(s.next_move(done, last) is Step),
{
}

/// A single model call with no tool execution.
///
/// Suitable for classification, summarization, or initial planning.
#[derive(Debug, Clone, Copy)]
pub struct SingleShotStrategy;

impl SingleShotStrategy {
    /// Whether the model is called: only with a context.
    pub fn calls_llm(&self, messages: &Vec<ChatMessage>) -> (r: bool)
        ensures
            r == (messages@.len() > 0),
    {
        messages.len() > 0
    }
}

} // verus!
