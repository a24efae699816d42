//! Rule-based tool permission policy with approval over the bus.
//!
//! Glob rules decide per tool name whether a call is allowed, denied with a reason
//! the model can act on, or must be asked for. In the last case a durable
//! `permission.request` event is published and a matching `permission.decision` is
//! awaited. Unanswered requests deny after a timeout.
use crate::text;
use super::hook::HookAction;
use crate::event::{Event, EventView};
use crate::json::{Json, JsonMap, JsonView};
use crate::kinds;
use crate::text::{chars_of, decimal_of, same};
use vstd::prelude::*;

verus! {

// ── Glob matching ──────────────────────────────────────────────────────────

/// Whether `text` matches `pattern`, where `*` matches any substring, an empty one
/// too, and every other character itself.
pub open spec fn glob(pattern: Seq<char>, text: Seq<char>) -> bool
    decreases pattern.len() + text.len(),
{
    if pattern.len() == 0 {
        text.len() == 0
    } else if pattern[0] == '*' {
        glob(pattern.skip(1), text) || (text.len() > 0 && glob(pattern, text.skip(1)))
    } else {
        text.len() > 0 && text[0] == pattern[0] && glob(pattern.skip(1), text.skip(1))
    }
}

/// A pattern without `*` matches itself and nothing else.
pub proof fn law_literal_matches_itself(pattern: Seq<char>, text: Seq<char>)
    requires
        !pattern.contains('*'),
    ensures
        glob(pattern, text) <==> pattern == text,
    decreases pattern.len(),
{
    if pattern.len() > 0 {
        assert(pattern[0] != '*');
        if text.len() > 0 {
            assert forall|c: char| pattern.skip(1).contains(c) implies pattern.contains(c) by {
                let i = choose|i: int| 0 <= i < pattern.skip(1).len() && pattern.skip(1)[i] == c;
                assert(pattern[i + 1] == c);
            }
            law_literal_matches_itself(pattern.skip(1), text.skip(1));
            assert(pattern =~= seq![pattern[0]] + pattern.skip(1));
            assert(text =~= seq![text[0]] + text.skip(1));
        }
    } else {
        assert(pattern == text <==> text.len() == 0) by {
            if text.len() == 0 {
                assert(pattern =~= text);
            }
        }
    }
}

/// The pattern `*` matches every text.
pub proof fn law_star_matches_all(text: Seq<char>)
    ensures
        glob(seq!['*'], text),
    decreases text.len(),
{
    let none = Seq::<char>::empty();
    assert(seq!['*'].skip(1) =~= none);
    assert(glob(none, text) == (text.len() == 0));
    if text.len() > 0 {
        law_star_matches_all(text.skip(1));
    }
}

/// A literal followed by `*` matches the texts that start with the literal.
pub proof fn law_prefix_pattern(prefix: Seq<char>, text: Seq<char>)
    requires
        !prefix.contains('*'),
    ensures
        glob(prefix.push('*'), text) <==> text::starts_with(text, prefix),
    decreases prefix.len(),
{
    let pattern = prefix.push('*');
    if prefix.len() == 0 {
        assert(pattern =~= seq!['*']);
        law_star_matches_all(text);
        assert(text.subrange(0, 0) =~= prefix);
    } else {
        assert(pattern[0] == prefix[0]);
        assert(prefix[0] != '*');
        if text.len() > 0 {
            assert forall|c: char| prefix.skip(1).contains(c) implies prefix.contains(c) by {
                let i = choose|i: int| 0 <= i < prefix.skip(1).len() && prefix.skip(1)[i] == c;
                assert(prefix[i + 1] == c);
            }
            law_prefix_pattern(prefix.skip(1), text.skip(1));
            assert(pattern.skip(1) =~= prefix.skip(1).push('*'));
            let n = prefix.len() as int;
            if text::starts_with(text, prefix) {
                assert(text.skip(1).subrange(0, n - 1) =~= prefix.skip(1)) by {
                    assert(text.subrange(0, n).skip(1) =~= text.skip(1).subrange(0, n - 1));
                }
                assert(text[0] == text.subrange(0, n)[0]);
            }
            if text[0] == prefix[0] && text::starts_with(text.skip(1), prefix.skip(1)) {
                assert(text.subrange(0, n) =~= seq![text[0]] + text.skip(1).subrange(0, n - 1));
                assert(prefix =~= seq![prefix[0]] + prefix.skip(1));
            }
        }
    }
}

/// Whether `row` tells for each place of the text whether the rest of the text
/// matches the pattern.
pub open spec fn tells(row: Seq<bool>, pattern: Seq<char>, text: Seq<char>) -> bool {
    row.len() == text.len() + 1 && forall|j: int|
        0 <= j <= text.len() ==> #[trigger] row[j] == glob(pattern, text.skip(j))
}

fn literal_row(row: &Vec<bool>, t: &Vec<char>, Ghost(pattern): Ghost<Seq<char>>, c: char) -> (r:
    Vec<bool>)
    requires
        pattern.len() > 0,
        pattern[0] == c,
        c != '*',
        tells(row@, pattern.skip(1), t@),
    ensures
        tells(r@, pattern, t@),
{
    let n: usize = t.len();
    let mut out: Vec<bool> = Vec::new();
    let mut j: usize = 0;
    while j < n
        invariant
            j <= n,
            n == t@.len(),
            pattern.len() > 0,
            pattern[0] == c,
            c != '*',
            tells(row@, pattern.skip(1), t@),
            out@.len() == j,
            forall|x: int| 0 <= x < j ==> #[trigger] out@[x] == glob(pattern, t@.skip(x)),
        decreases n - j,
    {
        proof {
            assert(t@.skip(j as int)[0] == t@[j as int]);
            assert(t@.skip(j as int).skip(1) =~= t@.skip(j + 1));
            assert(row@[j + 1] == glob(pattern.skip(1), t@.skip(j + 1)));
        }
        out.push(t[j] == c && row[j + 1]);
        j += 1;
    }
    assert(t@.skip(n as int).len() == 0);
    out.push(false);
    out
}

fn star_row(row: Vec<bool>, t: &Vec<char>, Ghost(pattern): Ghost<Seq<char>>) -> (r: Vec<bool>)
    requires
        pattern.len() > 0,
        pattern[0] == '*',
        tells(row@, pattern.skip(1), t@),
    ensures
        tells(r@, pattern, t@),
{
    let n: usize = t.len();
    let mut out = row;
    let mut j: usize = n;
    assert(t@.skip(n as int).len() == 0);
    while j > 0
        invariant
            j <= n,
            n == t@.len(),
            pattern.len() > 0,
            pattern[0] == '*',
            tells(row@, pattern.skip(1), t@),
            out@.len() == n + 1,
            forall|x: int| 0 <= x < j ==> #[trigger] out@[x] == row@[x],
            forall|x: int| j <= x <= n ==> #[trigger] out@[x] == glob(pattern, t@.skip(x)),
        decreases j,
    {
        let x: usize = j - 1;
        proof {
            assert(row@[x as int] == glob(pattern.skip(1), t@.skip(x as int)));
            assert(t@.skip(x as int).skip(1) =~= t@.skip(x + 1));
            assert(out@[x + 1] == glob(pattern, t@.skip(x + 1)));
        }
        let hit = out[x] || out[x + 1];
        out.set(x, hit);
        j -= 1;
    }
    out
}

/// Match `text` against `pattern`, where `*` matches any substring, an empty one
/// too. No other metacharacters.
pub fn glob_match(pattern: &str, text: &str) -> (r: bool)
    ensures
        r == glob(pattern@, text@),
{
    let p = chars_of(pattern);
    let t = chars_of(text);
    let n: usize = t.len();
    let mut row: Vec<bool> = Vec::new();
    while row.len() < n
        invariant
            row@.len() <= n,
            forall|j: int| 0 <= j < row@.len() ==> !#[trigger] row@[j],
        decreases n - row@.len(),
    {
        row.push(false);
    }
    row.push(true);
    let mut i: usize = p.len();
    proof {
        assert(pattern@.skip(i as int) =~= Seq::empty());
        assert forall|j: int| 0 <= j <= n implies #[trigger] row@[j] == glob(
            pattern@.skip(i as int),
            text@.skip(j),
        ) by {
            assert(text@.skip(j).len() == n - j);
        }
    }
    while i > 0
        invariant
            i <= p@.len(),
            p@ == pattern@,
            t@ == text@,
            tells(row@, pattern@.skip(i as int), text@),
        decreases i,
    {
        let c = p[i - 1];
        assert(pattern@.skip(i - 1).skip(1) =~= pattern@.skip(i as int));
        row =
        if c == '*' {
            star_row(row, &t, Ghost(pattern@.skip(i - 1)))
        } else {
            literal_row(&row, &t, Ghost(pattern@.skip(i - 1)), c)
        };
        i -= 1;
    }
    assert(pattern@.skip(0) =~= pattern@);
    assert(text@.skip(0) =~= text@);
    row[0]
}

// ── The policy ─────────────────────────────────────────────────────────────

/// Verdict a rule applies to a matching tool call.
#[derive(Debug)]
pub enum PermissionVerdict {
    /// Execute without interaction.
    Allow,
    /// Refuse; the model is told the reason.
    Deny(String),
    /// Publish a `permission.request` event and wait for a `permission.decision`
    /// before executing.
    Ask,
}

pub enum VerdictView {
    Allow,
    Deny(Seq<char>),
    Ask,
}

impl View for PermissionVerdict {
    type V = VerdictView;

    open spec fn view(&self) -> VerdictView {
        match self {
            PermissionVerdict::Allow => VerdictView::Allow,
            PermissionVerdict::Deny(reason) => VerdictView::Deny(reason@),
            PermissionVerdict::Ask => VerdictView::Ask,
        }
    }
}

impl Clone for PermissionVerdict {
    fn clone(&self) -> (r: PermissionVerdict)
        ensures
            r == *self,
    {
        match self {
            PermissionVerdict::Allow => PermissionVerdict::Allow,
            PermissionVerdict::Deny(reason) => PermissionVerdict::Deny(reason.clone()),
            PermissionVerdict::Ask => PermissionVerdict::Ask,
        }
    }
}

pub struct PermissionRule {
    pub pattern: String,
    pub verdict: PermissionVerdict,
}

impl View for PermissionRule {
    type V = (Seq<char>, VerdictView);

    open spec fn view(&self) -> (Seq<char>, VerdictView) {
        (self.pattern@, self.verdict@)
    }
}

/// Enforces glob-based tool permissions, with approval where a rule asks for it.
///
/// Rules are evaluated in registration order; the first matching rule wins. Tools
/// that no rule matches get the default verdict.
pub struct PermissionPolicyHook {
    pub rules: Vec<PermissionRule>,
    pub default_verdict: PermissionVerdict,
    /// How many milliseconds a request waits for a decision before denying.
    pub ask_timeout_ms: u64,
}

#[verifier::ext_equal]
pub struct PolicyView {
    pub rules: Seq<(Seq<char>, VerdictView)>,
    pub default_verdict: VerdictView,
    pub ask_timeout_ms: u64,
}

impl View for PermissionPolicyHook {
    type V = PolicyView;

    open spec fn view(&self) -> PolicyView {
        PolicyView {
            rules: text::views(self.rules@),
            default_verdict: self.default_verdict@,
            ask_timeout_ms: self.ask_timeout_ms,
        }
    }
}

/// The verdict of the first rule that matches, or the default.
pub open spec fn verdict(
    rules: Seq<(Seq<char>, VerdictView)>,
    default_verdict: VerdictView,
    tool: Seq<char>,
) -> VerdictView
    decreases rules.len(),
{
    if rules.len() == 0 {
        default_verdict
    } else if glob(rules[0].0, tool) {
        rules[0].1
    } else {
        verdict(rules.skip(1), default_verdict, tool)
    }
}

/// Once a rule matches a tool, rules that are added later do not change its
/// verdict, and neither does the default.
pub proof fn law_first_match_wins(
    rules: Seq<(Seq<char>, VerdictView)>,
    later: Seq<(Seq<char>, VerdictView)>,
    before: VerdictView,
    after: VerdictView,
    tool: Seq<char>,
)
    requires
        exists|i: int| 0 <= i < rules.len() && glob((#[trigger] rules[i]).0, tool),
    ensures
        verdict(rules + later, after, tool) == verdict(rules, before, tool),
    decreases rules.len(),
{
    let all = rules + later;
    assert(all[0] == rules[0]);
    if !glob(rules[0].0, tool) {
        let i = choose|i: int| 0 <= i < rules.len() && glob((#[trigger] rules[i]).0, tool);
        assert(rules.skip(1)[i - 1] == rules[i]);
        assert(all.skip(1) =~= rules.skip(1) + later);
        law_first_match_wins(rules.skip(1), later, before, after, tool);
    }
}

/// The payload of a request for approval.
pub open spec fn request_json(
    request_id: Seq<char>,
    tool: Seq<char>,
    args: JsonView,
    agent_id: Seq<char>,
) -> JsonView {
    JsonView::Object(
        Map::<Seq<char>, JsonView>::empty().insert("request_id"@, JsonView::Text(request_id)).insert(
            "tool"@,
            JsonView::Text(tool),
        ).insert("arguments"@, args).insert("agent_id"@, JsonView::Text(agent_id)),
    )
}

/// What a wait for a decision brought.
pub enum Waited {
    /// No decision came in time.
    TimedOut,
    /// The bus was closed.
    Closed,
    /// The request could not be published.
    Unpublished(String),
    /// An event came.
    Received(Event),
}

/// Whether an event is the decision on a request.
pub open spec fn decides(e: EventView, request_id: Seq<char>) -> bool {
    e.kind == kinds::PERMISSION_DECISION@ && e.payload.text_at("request_id"@) == Some(request_id)
}

/// Whether a decision approves; one that does not say so declines.
pub open spec fn approves(e: EventView) -> bool {
    match e.payload.get("approve"@) {
        Some(v) => v.as_bool() == Some(true),
        None => false,
    }
}

/// The action that a wait leads to; `None` is to wait on.
pub open spec fn answer(
    waited: Waited,
    request_id: Seq<char>,
    tool: Seq<char>,
    timeout_ms: int,
) -> Option<Option<Seq<char>>> {
    match waited {
        Waited::TimedOut => Some(
            Some(
                "approval for '"@ + tool + "' timed out after "@ + text::decimal(
                    (timeout_ms / 1000) as nat,
                ) + "s; proceed without this tool or ask the user to respond"@,
            ),
        ),
        Waited::Closed => Some(Some("event bus closed"@)),
        Waited::Unpublished(e) => Some(
            Some("permission request could not be published: "@ + e@),
        ),
        Waited::Received(e) => if decides(e@, request_id) {
            if approves(e@) {
                Some(None)
            } else {
                Some(
                    Some(
                        match e@.payload.text_at("reason"@) {
                            Some(t) => t,
                            None => "request was declined by the approver"@,
                        },
                    ),
                )
            }
        } else {
            None
        },
    }
}

/// Whether an action is what an answer says: `None` goes on, a text denies.
pub open spec fn acts_as(action: HookAction, said: Option<Seq<char>>) -> bool {
    match said {
        None => action is Continue,
        Some(reason) => action matches HookAction::Deny(t) && t@ == reason,
    }
}

/// A call that was asked for goes on only after a decision on its own request that
/// approves it.
pub proof fn law_only_approval_continues(
    waited: Waited,
    request_id: Seq<char>,
    tool: Seq<char>,
    timeout_ms: int,
)
    ensures
        answer(waited, request_id, tool, timeout_ms) == Some(None::<Seq<char>>) <==> (waited matches
            Waited::Received(e) && decides(e@, request_id) && approves(e@)),
{
}

/// What a policy does about a tool call.
pub enum Gate {
    /// It decides by itself.
    Act(HookAction),
    /// It asks for approval.
    Ask,
}

impl PermissionPolicyHook {
    /// A policy that allows every tool.
    pub fn new() -> (r: PermissionPolicyHook)
        ensures
            r@ == (PolicyView {
                rules: Seq::empty(),
                default_verdict: VerdictView::Allow,
                ask_timeout_ms: 120_000,
            }),
    {
        let out = PermissionPolicyHook {
            rules: Vec::new(),
            default_verdict: PermissionVerdict::Allow,
            ask_timeout_ms: 120_000,
        };
        assert(text::views(out.rules@) =~= Seq::empty());
        out
    }

    fn with_rule(self, pattern: &str, verdict: PermissionVerdict) -> (r: PermissionPolicyHook)
        ensures
            r@ == (PolicyView { rules: self@.rules.push((pattern@, verdict@)), ..self@ }),
    {
        let mut out = self;
        let ghost before = text::views(out.rules@);
        let rule = PermissionRule { pattern: pattern.to_owned(), verdict };
        out.rules.push(rule);
        assert(text::views(out.rules@) =~= before.push(rule@));
        out
    }

    /// Allow tools whose name matches `pattern`.
    pub fn allow(self, pattern: &str) -> (r: PermissionPolicyHook)
        ensures
            r@ == (PolicyView {
                rules: self@.rules.push((pattern@, VerdictView::Allow)),
                ..self@
            }),
    {
        self.with_rule(pattern, PermissionVerdict::Allow)
    }

    /// Deny matching tools with a reason that the model is told.
    pub fn deny(self, pattern: &str, reason: &str) -> (r: PermissionPolicyHook)
        ensures
            r@ == (PolicyView {
                rules: self@.rules.push((pattern@, VerdictView::Deny(reason@))),
                ..self@
            }),
    {
        self.with_rule(pattern, PermissionVerdict::Deny(reason.to_owned()))
    }

    /// Require approval for matching tools.
    pub fn ask(self, pattern: &str) -> (r: PermissionPolicyHook)
        ensures
            r@ == (PolicyView { rules: self@.rules.push((pattern@, VerdictView::Ask)), ..self@ }),
    {
        self.with_rule(pattern, PermissionVerdict::Ask)
    }

    /// Deny any tool that no rule matches.
    pub fn deny_by_default(self, reason: &str) -> (r: PermissionPolicyHook)
        ensures
            r@ == (PolicyView { default_verdict: VerdictView::Deny(reason@), ..self@ }),
    {
        let mut out = self;
        out.default_verdict = PermissionVerdict::Deny(reason.to_owned());
        out
    }

    /// Require approval for any tool that no rule matches.
    pub fn ask_by_default(self) -> (r: PermissionPolicyHook)
        ensures
            r@ == (PolicyView { default_verdict: VerdictView::Ask, ..self@ }),
    {
        let mut out = self;
        out.default_verdict = PermissionVerdict::Ask;
        out
    }

    /// Set how many milliseconds a request waits for a decision before denying.
    pub fn with_ask_timeout(self, timeout_ms: u64) -> (r: PermissionPolicyHook)
        ensures
            r@ == (PolicyView { ask_timeout_ms: timeout_ms, ..self@ }),
    {
        let mut out = self;
        out.ask_timeout_ms = timeout_ms;
        out
    }

    /// The verdict this policy applies to `tool`; the first matching rule wins.
    pub fn verdict_for(&self, tool: &str) -> (r: &PermissionVerdict)
        ensures
            r@ == verdict(self@.rules, self@.default_verdict, tool@),
    {
        let ghost rules = self@.rules;
        let mut i: usize = 0;
        assert(rules.skip(0) =~= rules);
        while i < self.rules.len()
            invariant
                i <= self.rules@.len(),
                rules == self@.rules,
                verdict(rules, self@.default_verdict, tool@) == verdict(
                    rules.skip(i as int),
                    self@.default_verdict,
                    tool@,
                ),
            decreases self.rules@.len() - i,
        {
            proof {
                assert(rules.skip(i as int)[0] == self.rules@[i as int]@);
                assert(rules.skip(i as int).skip(1) =~= rules.skip(i + 1));
            }
            if glob_match(self.rules[i].pattern.as_str(), tool) {
                return &self.rules[i].verdict;
            }
            i += 1;
        }
        &self.default_verdict
    }

    /// What happens to a call of `tool` before it runs.
    pub fn before_tool(&self, tool: &str) -> (r: Gate)
        ensures
            match verdict(self@.rules, self@.default_verdict, tool@) {
                VerdictView::Allow => r matches Gate::Act(a) && acts_as(a, None),
                VerdictView::Deny(reason) => r matches Gate::Act(a) && acts_as(a, Some(reason)),
                VerdictView::Ask => r is Ask,
            },
    {
        match self.verdict_for(tool) {
            PermissionVerdict::Allow => Gate::Act(HookAction::Continue),
            PermissionVerdict::Deny(reason) => Gate::Act(HookAction::Deny(reason.clone())),
            PermissionVerdict::Ask => Gate::Ask,
        }
    }

    /// The payload of the request for approval of a tool call.
    pub fn request(request_id: &str, tool: &str, args: &Json, agent_id: &str) -> (r: Json)
        ensures
            r@ == request_json(request_id@, tool@, args@, agent_id@),
    {
        Json::Object(
            JsonMap::new().with("request_id", Json::text(request_id)).with(
                "tool",
                Json::text(tool),
            ).with("arguments", args.clone()).with("agent_id", Json::text(agent_id)),
        )
    }

    /// What follows from a wait for the decision on a request; `None` is to wait
    /// on.
    pub fn ask_for_approval(&self, request_id: &str, tool: &str, waited: &Waited) -> (r: Option<
        HookAction,
    >)
        ensures
            match (r, answer(*waited, request_id@, tool@, self.ask_timeout_ms as int)) {
                (Some(a), Some(said)) => acts_as(a, said),
                (None, None) => true,
                _ => false,
            },
    {
        match waited {
            Waited::TimedOut => {
                let mut out = "approval for '".to_owned();
                out.push_str(tool);
                out.push_str("' timed out after ");
                let secs = decimal_of(self.ask_timeout_ms / 1000);
                out.push_str(secs.as_str());
                out.push_str("s; proceed without this tool or ask the user to respond");
                Some(HookAction::Deny(out))
            },
            Waited::Closed => Some(HookAction::Deny("event bus closed".to_owned())),
            Waited::Unpublished(e) => {
                let mut out = "permission request could not be published: ".to_owned();
                out.push_str(e.as_str());
                Some(HookAction::Deny(out))
            },
            Waited::Received(e) => {
                if !same(e.kind.as_str(), kinds::PERMISSION_DECISION) {
                    return None;
                }
                match e.payload.text_at("request_id") {
                    Some(id) => if !same(id, request_id) {
                        return None;
                    },
                    None => {
                        return None;
                    },
                }
                let approved = match e.payload.get("approve") {
                    Some(v) => match v.as_bool() {
                        Some(b) => b,
                        None => false,
                    },
                    None => false,
                };
                if approved {
                    return Some(HookAction::Continue);
                }
                let reason = match e.payload.text_at("reason") {
                    Some(t) => t.to_owned(),
                    None => "request was declined by the approver".to_owned(),
                };
                Some(HookAction::Deny(reason))
            },
        }
    }
}

impl Default for PermissionPolicyHook {
    fn default() -> (r: PermissionPolicyHook)
        ensures
            r@ == (PolicyView {
                rules: Seq::empty(),
                default_verdict: VerdictView::Allow,
                ask_timeout_ms: 120_000,
            }),
    {
        PermissionPolicyHook::new()
    }
}

} // verus!
