//! Stuck and loop detection for the agent reasoning cycle.
//!
//! Before each cycle, calling [`detect_stuck`] on the recent event log lets the
//! agent detect when it has fallen into a repetitive pattern. Callers should
//! publish a hint event so the model can correct itself on the next cycle.
use crate::json;
use crate::text;
use crate::seqs;
use crate::agent::context;
use crate::event::{Event, EventView};
use crate::kinds;
use crate::text::{contains_str, lowercase_of, same};
use vstd::prelude::*;

verus! {

/// The category of loop or stuck pattern that was detected.
#[derive(Debug, Clone, Copy, PartialEq, Eq, Structural)]
pub enum StuckKind {
    /// The same tool name and arguments were proposed three or more times in a
    /// row.
    RepeatingAction,
    /// The same error message was returned by three or more tool results in a
    /// row.
    RepeatingError,
    /// Four or more assistant messages in a row made no tool calls.
    Monologue,
    /// Two or more context-window or token-limit errors appeared in the recent
    /// event window.
    ContextWindowLoop,
}

/// Details of a detected stuck pattern.
#[derive(Debug, Clone, Copy, PartialEq, Eq, Structural)]
pub struct StuckAnalysis {
    pub kind: StuckKind,
    /// How many times the pattern repeated.
    pub repeat_count: usize,
}

/// Whether a message in lower case says that the context is full.
pub open spec fn says_full(lower: Seq<char>) -> bool {
    text::contains(lower, "context length"@) || text::contains(lower, "context window"@) || text::contains(
        lower,
        "token limit"@,
    ) || text::contains(lower, "maximum context"@)
}

/// Whether a message in lower case says that the context is full.
pub fn names_context_limit(lower: &str) -> (r: bool)
    ensures
        r == says_full(lower@),
{
    contains_str(lower, "context length") || contains_str(lower, "context window") || contains_str(
        lower,
        "token limit",
    ) || contains_str(lower, "maximum context")
}

/// The error of a tool result.
pub open spec fn error_of(e: EventView) -> Option<Seq<char>> {
    if e.kind == kinds::TOOL_RESULT@ {
        e.payload.text_at("error"@)
    } else {
        None
    }
}

/// What a tool result says: its error, or that it has none.
pub open spec fn result_of(e: EventView) -> Option<Option<Seq<char>>> {
    if e.kind == kinds::TOOL_RESULT@ {
        Some(e.payload.text_at("error"@))
    } else {
        None
    }
}

/// What a proposed call asks for: the tool and its arguments, if it names both.
pub open spec fn proposal_of(e: EventView) -> Option<Option<(Seq<char>, Seq<char>)>> {
    if e.kind == kinds::TOOL_CALL_PROPOSED@ {
        Some(
            match (e.payload.text_at("name"@), e.payload.text_at("arguments"@)) {
                (Some(name), Some(args)) => Some((name, args)),
                _ => None,
            },
        )
    } else {
        None
    }
}

/// Whether an event is a tool result that says that the context is full.
pub open spec fn context_error(e: EventView) -> bool {
    match error_of(e) {
        Some(msg) => says_full(text::lowercase(msg)),
        None => false,
    }
}

/// Whether an event is an assistant message without tool calls.
pub open spec fn talk(e: EventView) -> bool {
    e.kind == kinds::ASSISTANT_MESSAGE@ && match e.payload.array_at("tool_calls"@) {
        Some(a) => a.len() == 0,
        None => true,
    }
}

/// How many items at the end of a sequence equal `x`.
pub open spec fn trailing<A>(s: Seq<A>, x: A) -> nat
    decreases s.len(),
{
    if s.len() > 0 && s.last() == x {
        1 + trailing(s.drop_last(), x)
    } else {
        0
    }
}

/// The length of the run of equal values that ends a sequence; an item without
/// a value ends every run.
pub open spec fn last_run<A>(s: Seq<Option<A>>) -> nat {
    if s.len() == 0 || s.last() is None {
        0
    } else {
        trailing(s, s.last())
    }
}

/// How many events are context errors.
pub open spec fn context_errors(tail: Seq<EventView>) -> nat
    decreases tail.len(),
{
    if tail.len() == 0 {
        0
    } else {
        context_errors(tail.drop_last()) + (if context_error(tail.last()) {
            1nat
        } else {
            0nat
        })
    }
}

/// The proposed calls, one item each.
pub open spec fn proposals(tail: Seq<EventView>) -> Seq<Option<(Seq<char>, Seq<char>)>> {
    seqs::filter_map(tail, |e: EventView| proposal_of(e))
}

/// The tool results, one item each: the error, or none where there is no error.
pub open spec fn result_errors(tail: Seq<EventView>) -> Seq<Option<Seq<char>>> {
    seqs::filter_map(tail, |e: EventView| result_of(e))
}

/// Whether the last four events are all talk.
pub open spec fn monologue(tail: Seq<EventView>) -> bool {
    tail.len() >= 4 && forall|i: int|
        tail.len() - 4 <= i < tail.len() ==> talk(#[trigger] tail[i])
}

/// What the events of a window show.
pub open spec fn diagnosis(tail: Seq<EventView>) -> Option<(StuckKind, nat)> {
    if context_errors(tail) >= 2 {
        Some((StuckKind::ContextWindowLoop, context_errors(tail)))
    } else if last_run(proposals(tail)) >= 3 {
        Some((StuckKind::RepeatingAction, last_run(proposals(tail))))
    } else if last_run(result_errors(tail)) >= 3 {
        Some((StuckKind::RepeatingError, last_run(result_errors(tail))))
    } else if monologue(tail) {
        Some((StuckKind::Monologue, 4))
    } else {
        None
    }
}

fn event_error(e: &Event) -> (r: Option<&str>)
    ensures
        match r {
            Some(t) => error_of(e@) == Some(t@),
            None => error_of(e@) is None,
        },
{
    if same(e.kind.as_str(), kinds::TOOL_RESULT) {
        e.payload.text_at("error")
    } else {
        None
    }
}

fn is_context_error(e: &Event) -> (r: bool)
    ensures
        r == context_error(e@),
{
    match event_error(e) {
        Some(msg) => {
            let lower = lowercase_of(msg);
            names_context_limit(lower.as_str())
        },
        None => false,
    }
}

fn is_talk(e: &Event) -> (r: bool)
    ensures
        r == talk(e@),
{
    if !same(e.kind.as_str(), kinds::ASSISTANT_MESSAGE) {
        return false;
    }
    match e.payload.array_at("tool_calls") {
        Some(a) => {
            proof {
                json::lemma_items_view(a@);
            }
            a.len() == 0
        },
        None => true,
    }
}

/// The views of optional texts.
pub open spec fn text_items(s: Seq<Option<String>>) -> Seq<Option<Seq<char>>> {
    s.map_values(|o: Option<String>| json::opt_text(o))
}

/// The view of an optional pair of texts.
pub open spec fn opt_pair(o: Option<(String, String)>) -> Option<(Seq<char>, Seq<char>)> {
    match o {
        Some(p) => Some(p@),
        None => None,
    }
}

/// The views of optional pairs of texts.
pub open spec fn pair_items(s: Seq<Option<(String, String)>>) -> Seq<
    Option<(Seq<char>, Seq<char>)>,
> {
    s.map_values(|o: Option<(String, String)>| opt_pair(o))
}

fn same_text(a: &Option<String>, b: &Option<String>) -> (r: bool)
    ensures
        r == (json::opt_text(*a) == json::opt_text(*b)),
{
    match (a, b) {
        (Some(x), Some(y)) => same(x.as_str(), y.as_str()),
        (None, None) => true,
        _ => false,
    }
}

fn same_pair(a: &Option<(String, String)>, b: &Option<(String, String)>) -> (r: bool)
    ensures
        r == (opt_pair(*a) == opt_pair(*b)),
{
    match (a, b) {
        (Some(x), Some(y)) => same(x.0.as_str(), y.0.as_str()) && same(x.1.as_str(), y.1.as_str()),
        (None, None) => true,
        _ => false,
    }
}

fn run_of_texts(items: &Vec<Option<String>>) -> (r: usize)
    ensures
        r == last_run(text_items(items@)),
{
    let n: usize = items.len();
    if n == 0 {
        return 0;
    }
    let ghost s = text_items(items@);
    let ghost x = s.last();
    if items[n - 1].is_none() {
        return 0;
    }
    let mut run: usize = 0;
    assert(s.take(n as int) =~= s);
    while run < n && same_text(&items[n - 1 - run], &items[n - 1])
        invariant
            n == items@.len(),
            n > 0,
            run <= n,
            s == text_items(items@),
            x == s.last(),
            trailing(s, x) == run + trailing(s.take(n - run), x),
        decreases n - run,
    {
        proof {
            assert(s.take(n - run).last() == json::opt_text(items@[n - 1 - run]));
            assert(s.take(n - run).drop_last() =~= s.take(n - run - 1));
        }
        run += 1;
    }
    proof {
        if run < n {
            assert(s.take(n - run).last() == json::opt_text(items@[n - 1 - run]));
        }
    }
    run
}

fn run_of_pairs(items: &Vec<Option<(String, String)>>) -> (r: usize)
    ensures
        r == last_run(pair_items(items@)),
{
    let n: usize = items.len();
    if n == 0 {
        return 0;
    }
    let ghost s = pair_items(items@);
    let ghost x = s.last();
    if items[n - 1].is_none() {
        return 0;
    }
    let mut run: usize = 0;
    assert(s.take(n as int) =~= s);
    while run < n && same_pair(&items[n - 1 - run], &items[n - 1])
        invariant
            n == items@.len(),
            n > 0,
            run <= n,
            s == pair_items(items@),
            x == s.last(),
            trailing(s, x) == run + trailing(s.take(n - run), x),
        decreases n - run,
    {
        proof {
            assert(s.take(n - run).last() == opt_pair(items@[n - 1 - run]));
            assert(s.take(n - run).drop_last() =~= s.take(n - run - 1));
        }
        run += 1;
    }
    proof {
        if run < n {
            assert(s.take(n - run).last() == opt_pair(items@[n - 1 - run]));
        }
    }
    run
}

fn call_of(e: &Event) -> (r: Option<(String, String)>)
    ensures
        e@.kind == kinds::TOOL_CALL_PROPOSED@ ==> proposal_of(e@) == Some(opt_pair(r)),
{
    match (e.payload.text_at("name"), e.payload.text_at("arguments")) {
        (Some(name), Some(args)) => Some((name.to_owned(), args.to_owned())),
        _ => None,
    }
}

/// Inspect the last `window` events and return a [`StuckAnalysis`] if the agent
/// appears to be looping or stuck. Returns `None` when the cycle looks healthy.
pub fn detect_stuck(events: &Vec<Event>, window: usize) -> (r: Option<StuckAnalysis>)
    ensures
        match (r, diagnosis(context::newest(text::views(events@), window as int))) {
            (Some(a), Some((kind, n))) => a.kind == kind && a.repeat_count == n,
            (None, None) => true,
            _ => false,
        },
{
    let n: usize = events.len();
    let start: usize = if n > window {
        n - window
    } else {
        0
    };
    let ghost tail = context::newest(text::views(events@), window as int);
    let ghost p = |e: EventView| proposal_of(e);
    let ghost q = |e: EventView| result_of(e);
    let mut full: usize = 0;
    let mut proposed: Vec<Option<(String, String)>> = Vec::new();
    let mut errors: Vec<Option<String>> = Vec::new();
    let mut i: usize = start;
    proof {
        assert(tail =~= text::views(events@).skip(start as int));
        assert(tail.take(0) =~= Seq::empty());
        assert(pair_items(proposed@) =~= Seq::empty());
        assert(text_items(errors@) =~= Seq::empty());
    }
    while i < n
        invariant
            n == events@.len(),
            start <= i <= n,
            tail == text::views(events@).skip(start as int),
            p == (|e: EventView| proposal_of(e)),
            q == (|e: EventView| result_of(e)),
            full <= i - start,
            full == context_errors(tail.take(i - start)),
            pair_items(proposed@) == seqs::filter_map(tail.take(i - start), p),
            text_items(errors@) == seqs::filter_map(tail.take(i - start), q),
        decreases n - i,
    {
        let e = &events[i];
        proof {
            assert(tail[i - start] == e@);
            seqs::lemma_take_push(tail, i - start);
            assert(tail.take(i - start + 1).drop_last() =~= tail.take(i - start));
            seqs::lemma_filter_map_push(tail.take(i - start), p, e@);
            seqs::lemma_filter_map_push(tail.take(i - start), q, e@);
        }
        if is_context_error(e) {
            full += 1;
        }
        if same(e.kind.as_str(), kinds::TOOL_CALL_PROPOSED) {
            let ghost before = pair_items(proposed@);
            let call = call_of(e);
            proposed.push(call);
            assert(pair_items(proposed@) =~= before.push(opt_pair(call)));
        }
        if same(e.kind.as_str(), kinds::TOOL_RESULT) {
            let ghost before = text_items(errors@);
            let error: Option<String> = match e.payload.text_at("error") {
                Some(msg) => Some(msg.to_owned()),
                None => None,
            };
            errors.push(error);
            assert(text_items(errors@) =~= before.push(json::opt_text(error)));
        }
        i += 1;
    }
    assert(tail.take(i - start) =~= tail);
    if full >= 2 {
        return Some(StuckAnalysis { kind: StuckKind::ContextWindowLoop, repeat_count: full });
    }
    let actions: usize = run_of_pairs(&proposed);
    if actions >= 3 {
        return Some(StuckAnalysis { kind: StuckKind::RepeatingAction, repeat_count: actions });
    }
    let repeats: usize = run_of_texts(&errors);
    if repeats >= 3 {
        return Some(StuckAnalysis { kind: StuckKind::RepeatingError, repeat_count: repeats });
    }
    if n - start >= 4 {
        let mut k: usize = n - 4;
        while k < n && is_talk(&events[k])
            invariant
                n == events@.len(),
                n - start >= 4,
                start <= n,
                tail == text::views(events@).skip(start as int),
                n - 4 <= k <= n,
                forall|j: int| n - 4 <= j < k ==> talk(#[trigger] events@[j]@),
            decreases n - k,
        {
            k += 1;
        }
        if k == n {
            proof {
                assert forall|j: int| tail.len() - 4 <= j < tail.len() implies talk(
                    #[trigger] tail[j],
                ) by {
                    assert(tail[j] == events@[j + start]@);
                }
            }
            return Some(StuckAnalysis { kind: StuckKind::Monologue, repeat_count: 4 });
        }
        assert(tail[k - start] == events@[k as int]@);
    }
    None
}

} // verus!
