//! Crash recovery for interrupted tool calls.
//!
//! A process that dies between `tool.call.proposed` and its `tool.result` leaves
//! the restored log with an orphaned call: the model asked for a side effect, and
//! the harness cannot know whether it happened. A reconciliation pass resolves each
//! of them by a policy per tool. It also repairs the message history: without a
//! result for every `tool_call_id`, most providers reject the next request.
use crate::text;
use crate::seqs;
use crate::json;
use crate::agent::permission;
use super::permission::glob_match;
use crate::event::{Event, EventView};
use crate::json::{Json, JsonMap, JsonView};
use crate::kinds;
use crate::text::same;
use vstd::prelude::*;

verus! {

/// How to handle an interrupted tool call on resume.
#[derive(Debug, Clone, Copy, PartialEq, Eq, Structural)]
pub enum ResumePolicy {
    /// Never re-execute; report the interruption to the model (at most once).
    ReportInterrupted,
    /// Re-execute the call (at least once; requires an idempotent tool).
    Replay,
    /// Refuse to resume while unresolved calls exist.
    Fail,
}

/// Resume policy per tool, matched by glob in registration order.
pub struct ToolRecovery {
    pub rules: Vec<(String, ResumePolicy)>,
    pub default_policy: ResumePolicy,
}

#[verifier::ext_equal]
pub struct RecoveryView {
    pub rules: Seq<(Seq<char>, ResumePolicy)>,
    pub default_policy: ResumePolicy,
}

impl View for ToolRecovery {
    type V = RecoveryView;

    open spec fn view(&self) -> RecoveryView {
        RecoveryView {
            rules: self.rules@.map_values(|r: (String, ResumePolicy)| (r.0@, r.1)),
            default_policy: self.default_policy,
        }
    }
}

/// The policy of the first rule that matches, or the default.
pub open spec fn policy(
    rules: Seq<(Seq<char>, ResumePolicy)>,
    default_policy: ResumePolicy,
    tool: Seq<char>,
) -> ResumePolicy
    decreases rules.len(),
{
    if rules.len() == 0 {
        default_policy
    } else if permission::glob(rules[0].0, tool) {
        rules[0].1
    } else {
        policy(rules.skip(1), default_policy, tool)
    }
}

impl ToolRecovery {
    /// Reports every interrupted tool: the safe choice, since the harness cannot
    /// know whether a side effect landed.
    pub fn new() -> (r: ToolRecovery)
        ensures
            r@ == (RecoveryView {
                rules: Seq::empty(),
                default_policy: ResumePolicy::ReportInterrupted,
            }),
    {
        let out = ToolRecovery {
            rules: Vec::new(),
            default_policy: ResumePolicy::ReportInterrupted,
        };
        assert(out@.rules =~= Seq::empty());
        out
    }

    fn with_rule(self, pattern: &str, policy: ResumePolicy) -> (r: ToolRecovery)
        ensures
            r@ == (RecoveryView { rules: self@.rules.push((pattern@, policy)), ..self@ }),
    {
        let mut out = self;
        out.rules.push((pattern.to_owned(), policy));
        assert(out@.rules =~= self@.rules.push((pattern@, policy)));
        out
    }

    /// Re-execute tools matching `pattern` on resume (idempotent tools only).
    pub fn replay(self, pattern: &str) -> (r: ToolRecovery)
        ensures
            r@ == (RecoveryView {
                rules: self@.rules.push((pattern@, ResumePolicy::Replay)),
                ..self@
            }),
    {
        self.with_rule(pattern, ResumePolicy::Replay)
    }

    /// Only report tools matching `pattern`.
    pub fn report(self, pattern: &str) -> (r: ToolRecovery)
        ensures
            r@ == (RecoveryView {
                rules: self@.rules.push((pattern@, ResumePolicy::ReportInterrupted)),
                ..self@
            }),
    {
        self.with_rule(pattern, ResumePolicy::ReportInterrupted)
    }

    /// Refuse to resume when a tool matching `pattern` was interrupted.
    pub fn fail(self, pattern: &str) -> (r: ToolRecovery)
        ensures
            r@ == (RecoveryView {
                rules: self@.rules.push((pattern@, ResumePolicy::Fail)),
                ..self@
            }),
    {
        self.with_rule(pattern, ResumePolicy::Fail)
    }

    /// Change the policy for tools not matched by any rule.
    pub fn with_default(self, policy: ResumePolicy) -> (r: ToolRecovery)
        ensures
            r@ == (RecoveryView { default_policy: policy, ..self@ }),
    {
        let mut out = self;
        out.default_policy = policy;
        out
    }

    /// The policy for `tool`; the first matching rule wins.
    pub fn policy_for(&self, tool: &str) -> (r: ResumePolicy)
        ensures
            r == policy(self@.rules, self@.default_policy, tool@),
    {
        let ghost rules = self@.rules;
        let mut i: usize = 0;
        assert(rules.skip(0) =~= rules);
        while i < self.rules.len()
            invariant
                i <= self.rules@.len(),
                rules == self@.rules,
                policy(rules, self@.default_policy, tool@) == policy(
                    rules.skip(i as int),
                    self@.default_policy,
                    tool@,
                ),
            decreases self.rules@.len() - i,
        {
            proof {
                assert(rules.skip(i as int)[0] == (
                    self.rules@[i as int].0@,
                    self.rules@[i as int].1,
                ));
                assert(rules.skip(i as int).skip(1) =~= rules.skip(i + 1));
            }
            if glob_match(self.rules[i].0.as_str(), tool) {
                return self.rules[i].1;
            }
            i += 1;
        }
        self.default_policy
    }
}

impl Default for ToolRecovery {
    fn default() -> (r: ToolRecovery)
        ensures
            r@ == (RecoveryView {
                rules: Seq::empty(),
                default_policy: ResumePolicy::ReportInterrupted,
            }),
    {
        ToolRecovery::new()
    }
}

// ── Orphaned calls ─────────────────────────────────────────────────────────

/// A tool call that was proposed but never produced a result.
#[derive(Debug)]
pub struct OrphanedCall {
    pub tool_call_id: String,
    pub name: String,
    /// Raw JSON arguments string from the proposal event.
    pub arguments: String,
}

#[verifier::ext_equal]
pub struct OrphanView {
    pub tool_call_id: Seq<char>,
    pub name: Seq<char>,
    pub arguments: Seq<char>,
}

impl View for OrphanedCall {
    type V = OrphanView;

    open spec fn view(&self) -> OrphanView {
        OrphanView {
            tool_call_id: self.tool_call_id@,
            name: self.name@,
            arguments: self.arguments@,
        }
    }
}

impl Clone for OrphanedCall {
    fn clone(&self) -> (r: OrphanedCall)
        ensures
            r == *self,
    {
        OrphanedCall {
            tool_call_id: self.tool_call_id.clone(),
            name: self.name.clone(),
            arguments: self.arguments.clone(),
        }
    }
}

/// The call that a tool result answers.
pub open spec fn answers(e: EventView) -> Option<Seq<char>> {
    if e.kind == kinds::TOOL_RESULT@ {
        e.payload.text_at("tool_call_id"@)
    } else {
        None
    }
}

/// Whether a log holds a result for a call.
pub open spec fn answered(log: Seq<EventView>, id: Seq<char>) -> bool {
    exists|i: int| 0 <= i < log.len() && answers(#[trigger] log[i]) == Some(id)
}

/// The call that an event proposes, if the log holds no result for it.
pub open spec fn orphan_of(log: Seq<EventView>, e: EventView) -> Option<OrphanView> {
    if e.kind == kinds::TOOL_CALL_PROPOSED@ {
        match e.payload.text_at("tool_call_id"@) {
            Some(id) => if answered(log, id) {
                None
            } else {
                Some(
                    OrphanView {
                        tool_call_id: id,
                        name: match e.payload.text_at("name"@) {
                            Some(t) => t,
                            None => Seq::empty(),
                        },
                        arguments: match e.payload.text_at("arguments"@) {
                            Some(t) => t,
                            None => "{}"@,
                        },
                    },
                )
            },
            None => None,
        }
    } else {
        None
    }
}

/// The proposed calls of a log that have no result.
pub open spec fn orphans(log: Seq<EventView>) -> Seq<OrphanView> {
    seqs::filter_map(log, |e: EventView| orphan_of(log, e))
}

fn has_answer(events: &Vec<Event>, id: &str) -> (r: bool)
    ensures
        r == answered(text::views(events@), id@),
{
    let ghost log = text::views(events@);
    let mut i: usize = 0;
    while i < events.len()
        invariant
            i <= events@.len(),
            log == text::views(events@),
            forall|j: int| 0 <= j < i ==> answers(#[trigger] log[j]) != Some(id@),
        decreases events@.len() - i,
    {
        assert(log[i as int] == events@[i as int]@);
        if same(events[i].kind.as_str(), kinds::TOOL_RESULT) {
            if let Some(t) = events[i].payload.text_at("tool_call_id") {
                if same(t, id) {
                    return true;
                }
            }
        }
        i += 1;
    }
    false
}

fn read_orphan(events: &Vec<Event>, e: &Event) -> (r: Option<OrphanedCall>)
    ensures
        match r {
            Some(c) => orphan_of(text::views(events@), e@) == Some(c@),
            None => orphan_of(text::views(events@), e@) is None,
        },
{
    if !same(e.kind.as_str(), kinds::TOOL_CALL_PROPOSED) {
        return None;
    }
    match e.payload.text_at("tool_call_id") {
        Some(id) => {
            if has_answer(events, id) {
                return None;
            }
            let name = match e.payload.text_at("name") {
                Some(t) => t.to_owned(),
                None => String::new(),
            };
            let arguments = match e.payload.text_at("arguments") {
                Some(t) => t.to_owned(),
                None => "{}".to_owned(),
            };
            Some(OrphanedCall { tool_call_id: id.to_owned(), name, arguments })
        },
        None => None,
    }
}

/// Scan an event log for proposals with no matching `tool.result`.
pub fn find_orphaned_tool_calls(events: &Vec<Event>) -> (r: Vec<OrphanedCall>)
    ensures
        text::views(r@) == orphans(text::views(events@)),
{
    let ghost log = text::views(events@);
    let ghost f = |e: EventView| orphan_of(log, e);
    let mut out: Vec<OrphanedCall> = Vec::new();
    let mut i: usize = 0;
    assert(text::views(out@) =~= seqs::filter_map(log.take(0), f));
    while i < events.len()
        invariant
            i <= events@.len(),
            log == text::views(events@),
            f == (|e: EventView| orphan_of(log, e)),
            text::views(out@) == seqs::filter_map(log.take(i as int), f),
        decreases events@.len() - i,
    {
        proof {
            seqs::lemma_take_push(log, i as int);
            seqs::lemma_filter_map_push(log.take(i as int), f, log[i as int]);
        }
        if let Some(c) = read_orphan(events, &events[i]) {
            let ghost before = text::views(out@);
            out.push(c);
            assert(text::views(out@) =~= before.push(c@));
        }
        i += 1;
    }
    assert(log.take(i as int) =~= log);
    out
}

// ── Reconciliation ─────────────────────────────────────────────────────────

/// What a reconciliation pass did.
#[derive(Debug, Clone, Copy, PartialEq, Eq, Structural)]
pub struct RecoveryReport {
    /// Calls re-executed under [`ResumePolicy::Replay`].
    pub replayed: usize,
    /// Calls reported to the model as interrupted.
    pub reported: usize,
}

impl Default for RecoveryReport {
    fn default() -> (r: RecoveryReport)
        ensures
            r == (RecoveryReport { replayed: 0, reported: 0 }),
    {
        RecoveryReport { replayed: 0, reported: 0 }
    }
}

impl RecoveryReport {
    pub fn total(&self) -> (r: usize)
        requires
            self.replayed + self.reported <= usize::MAX,
        ensures
            r == self.replayed + self.reported,
    {
        self.replayed + self.reported
    }

    pub fn is_empty(&self) -> (r: bool)
        ensures
            r == (self.replayed == 0 && self.reported == 0),
    {
        self.replayed == 0 && self.reported == 0
    }
}

/// What to do about an interrupted call.
pub enum Resume {
    /// Refuse to resume, with the reason.
    Refuse(String),
    /// Execute the call again with these arguments.
    Replay(Json),
    /// Tell the model that the outcome is unknown.
    Report,
}

/// Why a call stops the pass.
pub open spec fn refusal(call: OrphanView) -> Seq<char> {
    "refusing to resume: tool '"@ + call.name + "' (call "@ + call.tool_call_id
        + ") was interrupted by a restart and its policy is Fail"@
}

/// The arguments of a call, given what their text reads as; text that is no JSON
/// stands for none.
pub open spec fn replay_arguments(parsed: Result<JsonView, Seq<char>>) -> JsonView {
    match parsed {
        Ok(j) => j,
        Err(_) => JsonView::Object(Map::empty()),
    }
}

/// Whether `r` is what is done about a call whose arguments read as `parsed`.
pub open spec fn decided(
    r: Resume,
    rules: RecoveryView,
    call: OrphanView,
    registered: bool,
    parsed: Result<JsonView, Seq<char>>,
) -> bool {
    match policy(rules.rules, rules.default_policy, call.name) {
        ResumePolicy::Fail => r matches Resume::Refuse(t) && t@ == refusal(call),
        ResumePolicy::Replay => if registered {
            r matches Resume::Replay(args) && args@ == replay_arguments(parsed)
        } else {
            r is Report
        },
        ResumePolicy::ReportInterrupted => r is Report,
    }
}

fn call_payload(call: &OrphanedCall, key: &str, value: Json, how: &str) -> (r: Json)
    ensures
        r@ == recovered_json(call@, key@, value@, how@),
{
    Json::Object(
        JsonMap::new().with("tool_call_id", Json::text(call.tool_call_id.as_str())).with(
            "name",
            Json::text(call.name.as_str()),
        ).with(key, value).with("recovered", Json::text(how)),
    )
}

/// The payload of the result of a recovered call.
pub open spec fn recovered_json(
    call: OrphanView,
    key: Seq<char>,
    value: JsonView,
    how: Seq<char>,
) -> JsonView {
    JsonView::Object(
        Map::<Seq<char>, JsonView>::empty().insert(
            "tool_call_id"@,
            JsonView::Text(call.tool_call_id),
        ).insert("name"@, JsonView::Text(call.name)).insert(key, value).insert(
            "recovered"@,
            JsonView::Text(how),
        ),
    )
}

/// The payload of the result of a call that is only reported.
pub open spec fn interrupted_json(call: OrphanView) -> JsonView {
    recovered_json(
        call,
        "error"@,
        JsonView::Text(
            "tool '"@ + call.name
                + "' was interrupted by a restart; it is UNKNOWN whether it took effect. Verify the current state before retrying."@,
        ),
        "interrupted"@,
    )
}

/// The payload of the result of a call that was executed again.
pub open spec fn replayed_json(
    call: OrphanView,
    outcome: Result<JsonView, Seq<char>>,
) -> JsonView {
    match outcome {
        Ok(v) => recovered_json(call, "result"@, v, "replayed"@),
        Err(e) => recovered_json(call, "error"@, JsonView::Text(e), "replayed"@),
    }
}

/// The payload of the record of a pass.
pub open spec fn report_json(report: RecoveryReport) -> JsonView {
    JsonView::Object(
        Map::<Seq<char>, JsonView>::empty().insert(
            "interrupted_tool_calls"@,
            JsonView::Int(report.replayed + report.reported),
        ).insert("replayed"@, JsonView::Int(report.replayed as int)).insert(
            "reported"@,
            JsonView::Int(report.reported as int),
        ),
    )
}

/// Decides about an interrupted call. A replay needs the tool to be registered;
/// without, it becomes a report.
pub fn decide(policy_of: &ToolRecovery, call: &OrphanedCall, registered: bool) -> (r: Resume)
    ensures
        decided(r, policy_of@, call@, registered, json::parsed_json(call@.arguments)),
{
    let parsed = Json::parse(call.arguments.as_str());
    decide_parsed(policy_of, call, registered, parsed)
}

/// Decides about an interrupted call, given what its arguments read as.
pub fn decide_parsed(
    policy_of: &ToolRecovery,
    call: &OrphanedCall,
    registered: bool,
    parsed: Result<Json, String>,
) -> (r: Resume)
    ensures
        decided(r, policy_of@, call@, registered, json::read_view(parsed)),
{
    match policy_of.policy_for(call.name.as_str()) {
        ResumePolicy::Fail => {
            let mut out = "refusing to resume: tool '".to_owned();
            out.push_str(call.name.as_str());
            out.push_str("' (call ");
            out.push_str(call.tool_call_id.as_str());
            out.push_str(") was interrupted by a restart and its policy is Fail");
            Resume::Refuse(out)
        },
        ResumePolicy::Replay => if registered {
            let args = match parsed {
                Ok(j) => j,
                Err(_) => Json::Object(JsonMap::new()),
            };
            Resume::Replay(args)
        } else {
            Resume::Report
        },
        ResumePolicy::ReportInterrupted => Resume::Report,
    }
}

/// The payload of the result of a call that was executed again; the pass counts it.
pub fn replayed_payload(
    call: &OrphanedCall,
    outcome: Result<Json, String>,
    report: &mut RecoveryReport,
) -> (r: Json)
    requires
        old(report).replayed < usize::MAX,
    ensures
        r@ == replayed_json(
            call@,
            match outcome {
                Ok(v) => Ok(v@),
                Err(e) => Err(e@),
            },
        ),
        *final(report) == (RecoveryReport {
            replayed: (old(report).replayed + 1) as usize,
            ..*old(report)
        }),
{
    report.replayed = report.replayed + 1;
    match outcome {
        Ok(v) => call_payload(call, "result", v, "replayed"),
        Err(e) => call_payload(call, "error", Json::text(e.as_str()), "replayed"),
    }
}

/// The payload of the result of a call that is only reported; the pass counts it.
pub fn interrupted_payload(call: &OrphanedCall, report: &mut RecoveryReport) -> (r: Json)
    requires
        old(report).reported < usize::MAX,
    ensures
        r@ == interrupted_json(call@),
        *final(report) == (RecoveryReport {
            reported: (old(report).reported + 1) as usize,
            ..*old(report)
        }),
{
    report.reported = report.reported + 1;
    let mut text = "tool '".to_owned();
    text.push_str(call.name.as_str());
    text.push_str(
        "' was interrupted by a restart; it is UNKNOWN whether it took effect. Verify the current state before retrying.",
    );
    call_payload(call, "error", Json::text(text.as_str()), "interrupted")
}

/// The payload of the record of a pass.
pub fn report_payload(report: &RecoveryReport) -> (r: Json)
    requires
        report.replayed + report.reported <= usize::MAX,
    ensures
        r@ == report_json(*report),
{
    Json::Object(
        JsonMap::new().with("interrupted_tool_calls", Json::Unsigned(report.total() as u64)).with(
            "replayed",
            Json::Unsigned(report.replayed as u64),
        ).with("reported", Json::Unsigned(report.reported as u64)),
    )
}

/// A reconciliation pass over a log: the interrupted calls, how many of them have
/// their result, and what was done so far.
pub struct RecoveryPass {
    pub calls: Vec<OrphanedCall>,
    pub done: usize,
    pub report: RecoveryReport,
}

impl RecoveryPass {
    /// Every call that has its result is counted once.
    pub open spec fn wf(self) -> bool {
        self.done <= self.calls@.len() && self.report.replayed + self.report.reported == self.done
    }

    /// Begins a pass over a log.
    pub fn begin(events: &Vec<Event>) -> (r: RecoveryPass)
        ensures
            r.wf(),
            r.done == 0,
            text::views(r.calls@) == orphans(text::views(events@)),
    {
        RecoveryPass {
            calls: find_orphaned_tool_calls(events),
            done: 0,
            report: RecoveryReport { replayed: 0, reported: 0 },
        }
    }

    /// The call that is next; `None` once every call has its result.
    pub fn current(&self) -> (r: Option<&OrphanedCall>)
        requires
            self.wf(),
        ensures
            match r {
                Some(c) => self.done < self.calls@.len() && *c == self.calls@[self.done as int],
                None => self.done == self.calls@.len(),
            },
    {
        if self.done < self.calls.len() {
            Some(&self.calls[self.done])
        } else {
            None
        }
    }

    /// The payload of the result of the next call: what executing it again gave, or
    /// that it is only reported. The pass goes on to the call after it.
    pub fn settle(&mut self, outcome: Option<Result<Json, String>>) -> (r: Json)
        requires
            old(self).wf(),
            old(self).done < old(self).calls@.len(),
        ensures
            final(self).wf(),
            final(self).calls == old(self).calls,
            final(self).done == old(self).done + 1,
            r@ == settled_json(old(self).calls@[old(self).done as int]@, outcome_view(outcome)),
            final(self).report == (match outcome {
                Some(_) => RecoveryReport {
                    replayed: (old(self).report.replayed + 1) as usize,
                    ..old(self).report
                },
                None => RecoveryReport {
                    reported: (old(self).report.reported + 1) as usize,
                    ..old(self).report
                },
            }),
    {
        let n: usize = self.calls.len();
        assert(self.done < n);
        let mut report = self.report;
        let payload = match outcome {
            Some(o) => replayed_payload(&self.calls[self.done], o, &mut report),
            None => interrupted_payload(&self.calls[self.done], &mut report),
        };
        self.report = report;
        self.done = self.done + 1;
        payload
    }

    /// The payload of the record of a finished pass; a pass that found no interrupted
    /// call leaves none.
    pub fn finish(&self) -> (r: Option<Json>)
        requires
            self.wf(),
            self.done == self.calls@.len(),
        ensures
            self.report.replayed + self.report.reported == self.calls@.len(),
            match r {
                Some(j) => self.calls@.len() > 0 && j@ == report_json(self.report),
                None => self.calls@.len() == 0,
            },
    {
        if self.calls.len() == 0 {
            None
        } else {
            Some(report_payload(&self.report))
        }
    }
}

/// What executing a call again gave, if it was.
pub open spec fn outcome_view(outcome: Option<Result<Json, String>>) -> Option<
    Result<JsonView, Seq<char>>,
> {
    match outcome {
        Some(Ok(v)) => Some(Ok(v@)),
        Some(Err(e)) => Some(Err(e@)),
        None => None,
    }
}

/// The payload of the result of an interrupted call.
pub open spec fn settled_json(
    call: OrphanView,
    outcome: Option<Result<JsonView, Seq<char>>>,
) -> JsonView {
    match outcome {
        Some(o) => replayed_json(call, o),
        None => interrupted_json(call),
    }
}

/// How many calls were executed again, and how many were only reported.
pub open spec fn counted(outcomes: Seq<Option<Result<JsonView, Seq<char>>>>) -> (nat, nat)
    decreases outcomes.len(),
{
    if outcomes.len() == 0 {
        (0, 0)
    } else {
        let (replayed, reported) = counted(outcomes.drop_last());
        if outcomes.last() is Some {
            (replayed + 1, reported)
        } else {
            (replayed, reported + 1)
        }
    }
}

proof fn lemma_counted_once(outcomes: Seq<Option<Result<JsonView, Seq<char>>>>)
    ensures
        counted(outcomes).0 + counted(outcomes).1 == outcomes.len(),
    decreases outcomes.len(),
{
    if outcomes.len() > 0 {
        lemma_counted_once(outcomes.drop_last());
    }
}

/// A pass counts every interrupted call once, whatever became of each, and once its
/// results and its record are on the log, a second pass finds no interrupted call: it
/// executes nothing and leaves nothing.
pub proof fn law_second_pass_finds_nothing(
    log: Seq<EventView>,
    outcomes: Seq<Option<Result<JsonView, Seq<char>>>>,
    results: Seq<EventView>,
    record: EventView,
)
    requires
        outcomes.len() == orphans(log).len(),
        results.len() == outcomes.len(),
        forall|i: int|
            0 <= i < results.len() ==> (#[trigger] results[i]).kind == kinds::TOOL_RESULT@
                && results[i].payload == settled_json(orphans(log)[i], outcomes[i]),
        record.kind == kinds::SYSTEM_RECOVERED@,
    ensures
        counted(outcomes).0 + counted(outcomes).1 == orphans(log).len(),
        orphans(log + results + seq![record]) == Seq::<OrphanView>::empty(),
{
    lemma_counted_once(outcomes);
    assert forall|i: int| 0 <= i < results.len() implies (#[trigger] results[i]).kind
        == kinds::TOOL_RESULT@ && results[i].payload.text_at("tool_call_id"@) == Some(
        orphans(log)[i].tool_call_id,
    ) by {
        match outcomes[i] {
            Some(o) => {
                law_recovery_answers(orphans(log)[i], o);
            },
            None => {
                law_recovery_answers(orphans(log)[i], Ok(JsonView::Null));
            },
        }
    }
    assert(kinds::SYSTEM_RECOVERED@ != kinds::TOOL_CALL_PROPOSED@) by {
        reveal_strlit("system.recovered");
        reveal_strlit("tool.call.proposed");
        assert("system.recovered"@[0] == 's' && "tool.call.proposed"@[0] == 't');
    }
    law_recovered_log_has_no_orphans(log, results, seq![record]);
}

/// Without a rule that says so, an interrupted call is never executed again.
pub proof fn law_replay_needs_a_rule(
    r: Resume,
    rules: RecoveryView,
    call: OrphanView,
    registered: bool,
    parsed: Result<JsonView, Seq<char>>,
)
    requires
        rules.default_policy != ResumePolicy::Replay,
        forall|i: int|
            0 <= i < rules.rules.len() && permission::glob((#[trigger] rules.rules[i]).0, call.name)
                ==> rules.rules[i].1 != ResumePolicy::Replay,
        decided(r, rules, call, registered, parsed),
    ensures
        !(r is Replay),
{
    lemma_policy_is_given(rules.rules, rules.default_policy, call.name);
}

proof fn lemma_policy_is_given(
    rules: Seq<(Seq<char>, ResumePolicy)>,
    default_policy: ResumePolicy,
    tool: Seq<char>,
)
    ensures
        policy(rules, default_policy, tool) == default_policy || exists|i: int|
            0 <= i < rules.len() && permission::glob((#[trigger] rules[i]).0, tool) && rules[i].1
                == policy(rules, default_policy, tool),
    decreases rules.len(),
{
    if rules.len() > 0 && !permission::glob(rules[0].0, tool) {
        let rest = rules.skip(1);
        lemma_policy_is_given(rest, default_policy, tool);
        if policy(rest, default_policy, tool) != default_policy {
            let i = choose|i: int|
                0 <= i < rest.len() && permission::glob((#[trigger] rest[i]).0, tool) && rest[i].1
                    == policy(rest, default_policy, tool);
            assert(rules[i + 1] == rest[i]);
        }
    }
}

/// The result of a recovered call answers that call, whatever became of it.
pub proof fn law_recovery_answers(call: OrphanView, outcome: Result<JsonView, Seq<char>>)
    ensures
        interrupted_json(call).text_at("tool_call_id"@) == Some(call.tool_call_id),
        replayed_json(call, outcome).text_at("tool_call_id"@) == Some(call.tool_call_id),
{
    reveal_strlit("tool_call_id");
    reveal_strlit("name");
    reveal_strlit("error");
    reveal_strlit("result");
    reveal_strlit("recovered");
    assert("tool_call_id"@.len() == 12 && "name"@.len() == 4 && "error"@.len() == 5
        && "result"@.len() == 6 && "recovered"@.len() == 9);
}

/// Once each orphaned call has its result, a log has no orphaned call left, so the
/// history is valid again, and it stays so until a call is proposed.
pub proof fn law_recovered_log_has_no_orphans(
    log: Seq<EventView>,
    results: Seq<EventView>,
    more: Seq<EventView>,
)
    requires
        results.len() == orphans(log).len(),
        forall|i: int|
            0 <= i < results.len() ==> (#[trigger] results[i]).kind == kinds::TOOL_RESULT@
                && results[i].payload.text_at("tool_call_id"@) == Some(orphans(log)[i].tool_call_id),
        forall|i: int|
            0 <= i < more.len() ==> (#[trigger] more[i]).kind != kinds::TOOL_CALL_PROPOSED@,
    ensures
        orphans(log + results + more) == Seq::<OrphanView>::empty(),
{
    let all = log + results + more;
    let f = |e: EventView| orphan_of(all, e);
    assert forall|i: int| 0 <= i < all.len() implies #[trigger] f(all[i]) is None by {
        let e = all[i];
        if i < log.len() {
            if let Some(o) = orphan_of(all, e) {
                assert(e == log[i]);
                let id = o.tool_call_id;
                if answered(log, id) {
                    let j = choose|j: int|
                        0 <= j < log.len() && answers(#[trigger] log[j]) == Some(id);
                    assert(all[j] == log[j]);
                } else {
                    assert(orphan_of(log, e) == Some(o));
                    let k = lemma_mapped_place(log, |e: EventView| orphan_of(log, e), i);
                    assert(answers(results[k]) == Some(id));
                    assert(all[log.len() + k] == results[k]);
                }
                assert(false);
            }
        } else if i < log.len() + results.len() {
            assert(e == results[i - log.len()]);
            lemma_kinds_differ();
        } else {
            assert(e == more[i - log.len() - results.len()]);
        }
    }
    lemma_maps_nothing(all, f);
}

proof fn lemma_kinds_differ()
    ensures
        kinds::TOOL_RESULT@ != kinds::TOOL_CALL_PROPOSED@,
{
    reveal_strlit("tool.result");
    reveal_strlit("tool.call.proposed");
    assert("tool.result"@.len() == 11 && "tool.call.proposed"@.len() == 18);
}

proof fn lemma_maps_nothing<A, B>(s: Seq<A>, f: spec_fn(A) -> Option<B>)
    requires
        forall|i: int| 0 <= i < s.len() ==> #[trigger] f(s[i]) is None,
    ensures
        seqs::filter_map(s, f) == Seq::<B>::empty(),
    decreases s.len(),
{
    if s.len() > 0 {
        assert(f(s[s.len() - 1]) is None);
        assert forall|i: int| 0 <= i < s.drop_last().len() implies #[trigger] f(
            s.drop_last()[i],
        ) is None by {
            assert(f(s[i]) is None);
        }
        lemma_maps_nothing(s.drop_last(), f);
    }
}

proof fn lemma_mapped_place<A, B>(s: Seq<A>, f: spec_fn(A) -> Option<B>, i: int) -> (k: int)
    requires
        0 <= i < s.len(),
        f(s[i]) is Some,
    ensures
        0 <= k < seqs::filter_map(s, f).len(),
        Some(seqs::filter_map(s, f)[k]) == f(s[i]),
    decreases s.len(),
{
    let d = s.drop_last();
    if i == s.len() - 1 {
        seqs::filter_map(d, f).len() as int
    } else {
        assert(d[i] == s[i]);
        lemma_mapped_place(d, f, i)
    }
}

} // verus!
