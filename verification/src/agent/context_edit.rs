//! Assembly-time context editing: reclaim budget by clearing stale tool results
//! before resorting to summarization.
//!
//! Once the assembled context crosses a token trigger, the content of the largest
//! stale tool results is replaced with a short placeholder. The assistant's
//! tool-call records stay intact, so the message history remains valid for every
//! provider. Clearing is monotonic: once a result is cleared it stays cleared, so
//! the edited prefix of the conversation is stable across steps.
use crate::seqs;
use crate::text;
use crate::llm::wire;
use crate::agent::tokens;
use super::tokens::{count_all, TokenCounter};
use crate::llm::types::{ChatMessage, MessageView, Role};
use crate::llm::wire::opt_or_empty;
use crate::text::{bytes_in, decimal_of, starts_with_str};
use std::collections::HashSet;
use vstd::prelude::*;

verus! {

broadcast use vstd::std_specs::hash::group_hash_axioms;

// ── Clearing ───────────────────────────────────────────────────────────────

/// What a cleared result of `bytes` bytes says.
pub open spec fn placeholder(bytes: nat) -> Seq<char> {
    "[cleared by harness: "@ + text::decimal(bytes)
        + " chars of stale tool output removed from context. The full result remains in the event log; re-run the tool if you need it again.]"@
}

/// Whether a message is a result that was cleared.
pub open spec fn is_cleared(m: MessageView) -> bool {
    match m.content {
        Some(t) => text::starts_with(t, "[cleared by harness:"@),
        None => false,
    }
}

/// A message with its content cleared.
pub open spec fn cleared_message(m: MessageView) -> MessageView {
    if is_cleared(m) {
        m
    } else {
        MessageView { content: Some(placeholder(text::byte_len(wire::or_empty(m.content)))), ..m }
    }
}

/// How many of the messages are tool results.
pub open spec fn results(ms: Seq<MessageView>) -> nat
    decreases ms.len(),
{
    if ms.len() == 0 {
        0
    } else {
        results(ms.drop_last()) + (if ms.last().role == Role::Tool {
            1nat
        } else {
            0nat
        })
    }
}

/// The message at place `i`, edited: a tool result whose ordinal is in `cleared`
/// says only that it was cleared.
pub open spec fn edited_at(ms: Seq<MessageView>, cleared: Set<usize>, i: int) -> MessageView {
    if ms[i].role == Role::Tool && cleared.contains(results(ms.take(i)) as usize) {
        cleared_message(ms[i])
    } else {
        ms[i]
    }
}

/// Messages with the tool results in `cleared` cleared.
pub open spec fn edited(ms: Seq<MessageView>, cleared: Set<usize>) -> Seq<MessageView> {
    Seq::new(ms.len(), |i: int| edited_at(ms, cleared, i))
}

proof fn lemma_results_bound(ms: Seq<MessageView>)
    ensures
        results(ms) <= ms.len(),
    decreases ms.len(),
{
    if ms.len() > 0 {
        lemma_results_bound(ms.drop_last());
    }
}

proof fn lemma_results_by_role(a: Seq<MessageView>, b: Seq<MessageView>)
    requires
        a.len() == b.len(),
        forall|i: int| 0 <= i < a.len() ==> (#[trigger] a[i]).role == (#[trigger] b[i]).role,
    ensures
        results(a) == results(b),
    decreases a.len(),
{
    if a.len() > 0 {
        assert(a[a.len() - 1].role == b[a.len() - 1].role);
        assert forall|i: int| 0 <= i < a.drop_last().len() implies (
        #[trigger] a.drop_last()[i]).role == (#[trigger] b.drop_last()[i]).role by {
            assert(a[i].role == b[i].role);
        }
        lemma_results_by_role(a.drop_last(), b.drop_last());
    }
}

proof fn lemma_cleared_is_cleared(m: MessageView)
    ensures
        is_cleared(cleared_message(m)),
{
    if !is_cleared(m) {
        reveal_strlit("[cleared by harness: ");
        reveal_strlit("[cleared by harness:");
        let t = placeholder(text::byte_len(wire::or_empty(m.content)));
        assert("[cleared by harness:"@.len() == 20 && "[cleared by harness: "@.len() == 21);
        assert(t.subrange(0, 20) =~= "[cleared by harness:"@);
    }
}

/// Clearing edits the content of tool results and nothing else: as many messages
/// stay, in the same order, with their roles, tool calls, IDs and names.
pub proof fn law_clearing_keeps_history(ms: Seq<MessageView>, cleared: Set<usize>)
    ensures
        edited(ms, cleared).len() == ms.len(),
        forall|i: int|
            0 <= i < ms.len() ==> (#[trigger] edited(ms, cleared)[i]) == (MessageView {
                content: edited(ms, cleared)[i].content,
                ..ms[i]
            }) && (ms[i].role != Role::Tool ==> edited(ms, cleared)[i] == ms[i]),
{
}

/// Clearing more on top of what was cleared is the same as clearing it all at
/// once; in particular a cleared result stays as it is.
pub proof fn law_clearing_is_monotonic(
    ms: Seq<MessageView>,
    before: Set<usize>,
    after: Set<usize>,
)
    requires
        before.subset_of(after),
    ensures
        edited(edited(ms, before), after) == edited(ms, after),
        forall|i: int|
            0 <= i < ms.len() && ms[i].role == Role::Tool && #[trigger] before.contains(
                results(ms.take(i)) as usize,
            ) ==> is_cleared(edited(ms, after)[i]),
{
    let once = edited(ms, before);
    assert forall|i: int| 0 <= i < ms.len() implies edited(once, after)[i] == edited(
        ms,
        after,
    )[i] by {
        assert(results(once.take(i)) == results(ms.take(i))) by {
            lemma_results_by_role(once.take(i), ms.take(i));
        }
        lemma_cleared_is_cleared(ms[i]);
    }
    assert(edited(once, after) =~= edited(ms, after));
    assert forall|i: int|
        0 <= i < ms.len() && ms[i].role == Role::Tool && #[trigger] before.contains(
            results(ms.take(i)) as usize,
        ) implies is_cleared(edited(ms, after)[i]) by {
        lemma_cleared_is_cleared(ms[i]);
    }
}

fn placeholder_text(bytes: usize) -> (r: String)
    ensures
        r@ == placeholder(bytes as nat),
{
    let mut out = "[cleared by harness: ".to_owned();
    let size = decimal_of(bytes as u64);
    out.push_str(size.as_str());
    out.push_str(
        " chars of stale tool output removed from context. The full result remains in the event log; re-run the tool if you need it again.]",
    );
    out
}

fn clear_message(m: &ChatMessage) -> (r: ChatMessage)
    ensures
        r@ == cleared_message(m@),
{
    let already = match &m.content {
        Some(t) => starts_with_str(t.as_str(), "[cleared by harness:"),
        None => false,
    };
    let mut out = m.clone();
    if !already {
        let original = opt_or_empty(&m.content);
        let bytes: usize = bytes_in(original.as_str());
        out.content = Some(placeholder_text(bytes));
    }
    out
}

/// Replace the content of every tool result whose ordinal is in `cleared`.
pub fn apply_clearing(messages: &Vec<ChatMessage>, cleared: &HashSet<usize>) -> (r: Vec<
    ChatMessage,
>)
    ensures
        text::views(r@) == edited(text::views(messages@), cleared@),
{
    let ghost ms = text::views(messages@);
    let ghost all = edited(ms, cleared@);
    let mut out: Vec<ChatMessage> = Vec::new();
    let mut ordinal: usize = 0;
    let mut i: usize = 0;
    assert(text::views(out@) =~= all.take(0));
    while i < messages.len()
        invariant
            i <= messages@.len(),
            ms == text::views(messages@),
            all == edited(ms, cleared@),
            ordinal == results(ms.take(i as int)),
            ordinal <= i,
            text::views(out@) == all.take(i as int),
        decreases messages@.len() - i,
    {
        let m = &messages[i];
        proof {
            seqs::lemma_take_push(all, i as int);
            assert(all[i as int] == edited_at(ms, cleared@, i as int));
            assert(ms[i as int] == m@);
            assert(ms.take(i + 1).last() == m@);
            assert(ms.take(i + 1).drop_last() =~= ms.take(i as int));
        }
        let mut clear = false;
        if m.role == Role::Tool {
            clear = cleared.contains(&ordinal);
            ordinal += 1;
        }
        let next = if clear {
            clear_message(m)
        } else {
            m.clone()
        };
        let ghost before = text::views(out@);
        out.push(next);
        assert(text::views(out@) =~= before.push(next@));
        i += 1;
    }
    assert(all.take(i as int) =~= all);
    out
}

// ── What to clear ──────────────────────────────────────────────────────────

/// A tool result that may be cleared: its ordinal, its rank, and the tokens that
/// clearing it reclaims.
#[derive(Clone, Copy)]
pub struct Candidate {
    pub ordinal: usize,
    pub score: u128,
    pub tokens: usize,
}

/// The tool results among messages.
pub open spec fn tool_messages(ms: Seq<MessageView>) -> Seq<MessageView> {
    seqs::filter_map(
        ms,
        |m: MessageView|
            if m.role == Role::Tool {
                Some(m)
            } else {
                None
            },
    )
}

/// The size of a result.
pub open spec fn size(m: MessageView) -> nat {
    text::byte_len(wire::or_empty(m.content))
}

/// The rank of the result with ordinal `i` among `total`: its size, weighed from
/// once for the newest up to twice for the oldest, in parts of `total`.
pub open spec fn score(m: MessageView, i: int, total: int) -> int {
    size(m) * (total + (total - i))
}

/// The candidates among the first `n` results, in order.
pub open spec fn candidates<C: TokenCounter>(
    counter: &C,
    rs: Seq<MessageView>,
    cleared: Set<usize>,
    min_bytes: int,
    n: int,
) -> Seq<Candidate>
    decreases n,
{
    if n <= 0 {
        Seq::empty()
    } else {
        let rest = candidates(counter, rs, cleared, min_bytes, n - 1);
        let i = n - 1;
        if !cleared.contains(i as usize) && size(rs[i]) >= min_bytes {
            rest.push(
                Candidate {
                    ordinal: i as usize,
                    score: score(rs[i], i, rs.len() as int) as u128,
                    tokens: counter.counted(seq![rs[i]]) as usize,
                },
            )
        } else {
            rest
        }
    }
}

/// Puts a candidate into a ranking, behind those that rank as high.
pub open spec fn placed(ranking: Seq<Candidate>, c: Candidate) -> Seq<Candidate>
    decreases ranking.len(),
{
    if ranking.len() > 0 && ranking.last().score < c.score {
        placed(ranking.drop_last(), c).push(ranking.last())
    } else {
        ranking.push(c)
    }
}

/// The candidates from the highest rank down; the older of two that rank alike
/// comes first.
pub open spec fn ranked(cs: Seq<Candidate>) -> Seq<Candidate>
    decreases cs.len(),
{
    if cs.len() == 0 {
        Seq::empty()
    } else {
        placed(ranked(cs.drop_last()), cs.last())
    }
}

/// How many of the ranked results are cleared to reclaim `need` tokens.
pub open spec fn taken(ranking: Seq<Candidate>, need: int) -> int
    decreases ranking.len(),
{
    if ranking.len() == 0 || need <= 0 {
        0
    } else {
        1 + taken(ranking.skip(1), need - ranking[0].tokens)
    }
}

/// The ordinals of the results to clear.
pub open spec fn selected<C: TokenCounter>(
    counter: &C,
    ms: Seq<MessageView>,
    cleared: Set<usize>,
    keep_recent: int,
    min_bytes: int,
    need: int,
) -> Seq<usize> {
    let rs = tool_messages(ms);
    let open = if rs.len() > keep_recent {
        rs.len() - keep_recent
    } else {
        0
    };
    let ranking = ranked(candidates(counter, rs, cleared, min_bytes, open));
    ranking.take(taken(ranking, need)).map_values(|c: Candidate| c.ordinal)
}

proof fn lemma_placed(ranking: Seq<Candidate>, c: Candidate)
    requires
        forall|i: int, j: int|
            0 <= i < j < ranking.len() ==> (#[trigger] ranking[i]).score >= (
            #[trigger] ranking[j]).score,
    ensures
        placed(ranking, c).len() == ranking.len() + 1,
        forall|i: int, j: int|
            0 <= i < j < placed(ranking, c).len() ==> (#[trigger] placed(ranking, c)[i]).score >= (
            #[trigger] placed(ranking, c)[j]).score,
        placed(ranking, c).to_multiset() == ranking.to_multiset().insert(c),
    decreases ranking.len(),
{
    broadcast use vstd::seq_lib::group_to_multiset_ensures;

    if ranking.len() > 0 && ranking.last().score < c.score {
        let rest = ranking.drop_last();
        lemma_placed(rest, c);
        let p = placed(rest, c);
        let out = p.push(ranking.last());
        assert(p.to_multiset() == rest.to_multiset().insert(c));
        assert(rest.push(ranking.last()) =~= ranking);
        assert(out.to_multiset() =~= ranking.to_multiset().insert(c));
        assert forall|i: int| 0 <= i < p.len() implies (#[trigger] p[i]).score
            >= ranking.last().score by {
            assert(p.to_multiset().count(p[i]) > 0) by {
                assert(p.contains(p[i]));
            }
            if p[i] != c {
                assert(rest.to_multiset().count(p[i]) > 0);
                assert(rest.contains(p[i]));
                let k = choose|k: int| 0 <= k < rest.len() && rest[k] == p[i];
                assert(ranking[k] == p[i]);
            }
        }
    }
}

/// The ranking holds each candidate once more, from the highest rank down.
pub proof fn law_ranking_is_in_order(cs: Seq<Candidate>)
    ensures
        forall|i: int, j: int|
            0 <= i < j < ranked(cs).len() ==> (#[trigger] ranked(cs)[i]).score >= (
            #[trigger] ranked(cs)[j]).score,
        ranked(cs).to_multiset() == cs.to_multiset(),
    decreases cs.len(),
{
    broadcast use vstd::seq_lib::group_to_multiset_ensures;

    if cs.len() > 0 {
        law_ranking_is_in_order(cs.drop_last());
        lemma_placed(ranked(cs.drop_last()), cs.last());
        assert(cs.drop_last().push(cs.last()) =~= cs);
    }
}

proof fn lemma_candidates<C: TokenCounter>(
    counter: &C,
    rs: Seq<MessageView>,
    cleared: Set<usize>,
    min_bytes: int,
    n: int,
    k: int,
)
    requires
        0 <= n <= rs.len() <= usize::MAX,
        0 <= k < candidates(counter, rs, cleared, min_bytes, n).len(),
    ensures
        ({
            let c = candidates(counter, rs, cleared, min_bytes, n)[k];
            c.ordinal < n && !cleared.contains(c.ordinal) && size(rs[c.ordinal as int])
                >= min_bytes
        }),
    decreases n,
{
    let rest = candidates(counter, rs, cleared, min_bytes, n - 1);
    if k < rest.len() {
        lemma_candidates(counter, rs, cleared, min_bytes, n - 1, k);
    }
}

/// Only results that are big enough and older than the newest few are cleared, and
/// none twice.
pub proof fn law_selection_spares<C: TokenCounter>(
    counter: &C,
    ms: Seq<MessageView>,
    cleared: Set<usize>,
    keep_recent: int,
    min_bytes: int,
    need: int,
    k: int,
)
    requires
        keep_recent >= 0,
        ms.len() <= usize::MAX,
        0 <= k < selected(counter, ms, cleared, keep_recent, min_bytes, need).len(),
    ensures
        ({
            let ordinal = selected(counter, ms, cleared, keep_recent, min_bytes, need)[k];
            let rs = tool_messages(ms);
            &&& ordinal + keep_recent < rs.len()
            &&& size(rs[ordinal as int]) >= min_bytes
            &&& !cleared.contains(ordinal)
        }),
{
    broadcast use vstd::seq_lib::group_to_multiset_ensures;

    let rs = tool_messages(ms);
    seqs::lemma_filter_map_len(
        ms,
        |m: MessageView|
            if m.role == Role::Tool {
                Some(m)
            } else {
                None
            },
    );
    let open = if rs.len() > keep_recent {
        rs.len() - keep_recent
    } else {
        0
    };
    let cs = candidates(counter, rs, cleared, min_bytes, open);
    let ranking = ranked(cs);
    law_ranking_is_in_order(cs);
    lemma_taken_range(ranking, need);
    let c = ranking[k];
    assert(ranking.contains(c));
    assert(cs.to_multiset().count(c) > 0);
    assert(cs.contains(c));
    let j = choose|j: int| 0 <= j < cs.len() && cs[j] == c;
    lemma_candidates(counter, rs, cleared, min_bytes, open, j);
}

proof fn lemma_taken_range(ranking: Seq<Candidate>, need: int)
    ensures
        0 <= taken(ranking, need) <= ranking.len(),
    decreases ranking.len(),
{
    if ranking.len() > 0 && need > 0 {
        lemma_taken_range(ranking.skip(1), need - ranking[0].tokens);
    }
}

fn tool_places(messages: &Vec<ChatMessage>) -> (r: Vec<usize>)
    ensures
        r@.len() == tool_messages(text::views(messages@)).len(),
        r@.len() <= messages@.len(),
        forall|k: int|
            0 <= k < r@.len() ==> (#[trigger] r@[k]) < messages@.len() && messages@[r@[k] as int]@
                == tool_messages(text::views(messages@))[k],
{
    let ghost ms = text::views(messages@);
    let ghost f = |m: MessageView|
        if m.role == Role::Tool {
            Some(m)
        } else {
            None
        };
    let mut out: Vec<usize> = Vec::new();
    let mut i: usize = 0;
    assert(ms.take(0) =~= Seq::empty());
    while i < messages.len()
        invariant
            i <= messages@.len(),
            ms == text::views(messages@),
            f == (|m: MessageView|
                if m.role == Role::Tool {
                    Some(m)
                } else {
                    None
                }),
            out@.len() == seqs::filter_map(ms.take(i as int), f).len(),
            out@.len() <= i,
            forall|k: int|
                0 <= k < out@.len() ==> (#[trigger] out@[k]) < i && messages@[out@[k] as int]@
                    == seqs::filter_map(ms.take(i as int), f)[k],
        decreases messages@.len() - i,
    {
        proof {
            seqs::lemma_take_push(ms, i as int);
            seqs::lemma_filter_map_push(ms.take(i as int), f, ms[i as int]);
        }
        if messages[i].role == Role::Tool {
            out.push(i);
        }
        i += 1;
    }
    assert(ms.take(i as int) =~= ms);
    out
}

fn place(ranking: &mut Vec<Candidate>, c: Candidate)
    ensures
        final(ranking)@ == placed(old(ranking)@, c),
{
    let ghost s = ranking@;
    let mut i: usize = ranking.len();
    assert(s.take(i as int) =~= s);
    assert(placed(s.take(i as int), c) + s.skip(i as int) =~= placed(s, c));
    while i > 0 && ranking[i - 1].score < c.score
        invariant
            i <= ranking@.len(),
            s == ranking@,
            placed(s.take(i as int), c) + s.skip(i as int) == placed(s, c),
        decreases i,
    {
        proof {
            let t = s.take(i as int);
            assert(t.drop_last() =~= s.take(i - 1));
            assert(placed(s.take(i - 1), c).push(s[i - 1]) + s.skip(i as int) =~= placed(
                s.take(i - 1),
                c,
            ) + s.skip(i - 1));
        }
        i -= 1;
    }
    proof {
        if i > 0 {
            assert(s.take(i as int).last() == s[i - 1]);
        }
        assert(s.insert(i as int, c) =~= s.take(i as int).push(c) + s.skip(i as int));
    }
    ranking.insert(i, c);
}

/// Choose which tool results to clear, the highest rank first, until `need` tokens
/// have been reclaimed.
///
/// Ranking is by size, nudged by age: what matters about a result is how much of
/// the budget it is holding, and age separates results of comparable size.
pub fn select_for_clearing<C: TokenCounter>(
    calibration: &C,
    messages: &Vec<ChatMessage>,
    cleared: &HashSet<usize>,
    keep_recent: usize,
    min_clear_bytes: usize,
    need: usize,
) -> (r: Vec<usize>)
    requires
        2 * messages@.len() <= usize::MAX,
    ensures
        r@ == selected(
            calibration,
            text::views(messages@),
            cleared@,
            keep_recent as int,
            min_clear_bytes as int,
            need as int,
        ),
{
    let ghost ms = text::views(messages@);
    let ghost rs = tool_messages(ms);
    let places = tool_places(messages);
    let total: usize = places.len();
    let len: usize = messages.len();
    let open: usize = if total > keep_recent {
        total - keep_recent
    } else {
        0
    };
    let mut ranking: Vec<Candidate> = Vec::new();
    let mut i: usize = 0;
    let ghost none = candidates(calibration, rs, cleared@, min_clear_bytes as int, 0);
    assert(ranked(none) =~= ranking@);
    while i < open
        invariant
            i <= open <= total,
            len == messages@.len(),
            total == places@.len(),
            total == rs.len(),
            2 * total <= usize::MAX,
            ms == text::views(messages@),
            forall|k: int|
                0 <= k < places@.len() ==> (#[trigger] places@[k]) < messages@.len()
                    && messages@[places@[k] as int]@ == rs[k],
            ranking@ == ranked(
                candidates(calibration, rs, cleared@, min_clear_bytes as int, i as int),
            ),
        decreases open - i,
    {
        let at: usize = places[i];
        let m = &messages[at];
        let ghost before = candidates(
            calibration,
            rs,
            cleared@,
            min_clear_bytes as int,
            i as int,
        );
        let text = opt_or_empty(&m.content);
        let bytes: usize = bytes_in(text.as_str());
        assert(rs[i as int] == m@);
        if !cleared.contains(&i) && bytes >= min_clear_bytes {
            let weight: usize = total + (total - i);
            assert(0 <= bytes * weight <= usize::MAX * usize::MAX) by (nonlinear_arith)
                requires
                    0 <= bytes <= usize::MAX,
                    0 <= weight <= usize::MAX,
            ;
            assert(usize::MAX * usize::MAX <= u128::MAX) by (nonlinear_arith)
                requires
                    usize::MAX <= 0xffff_ffff_ffff_ffff,
            ;
            let rank: u128 = bytes as u128 * weight as u128;
            assert(ms.subrange(at as int, at + 1) =~= seq![m@]);
            let tokens: usize = calibration.count_range(messages, at, at + 1);
            let c = Candidate { ordinal: i, score: rank, tokens };
            proof {
                assert(rank == score(rs[i as int], i as int, total as int));
                let next = before.push(c);
                assert(next.drop_last() =~= before);
            }
            place(&mut ranking, c);
        }
        i += 1;
    }
    let ghost all = ranking@;
    let mut picked: Vec<usize> = Vec::new();
    let mut left: usize = need;
    let mut k: usize = 0;
    assert(all.skip(0) =~= all);
    while k < ranking.len() && left > 0
        invariant
            k <= all.len(),
            all == ranking@,
            taken(all, need as int) == k + taken(all.skip(k as int), left as int),
            picked@ == all.take(k as int).map_values(|c: Candidate| c.ordinal),
        decreases all.len() - k,
    {
        let c = ranking[k];
        proof {
            assert(all.skip(k as int)[0] == c);
            assert(all.skip(k as int).skip(1) =~= all.skip(k + 1));
            lemma_taken_zero(all.skip(k + 1), left - c.tokens);
            assert(all.take(k + 1).map_values(|c: Candidate| c.ordinal) =~= all.take(
                k as int,
            ).map_values(|c: Candidate| c.ordinal).push(c.ordinal));
        }
        picked.push(c.ordinal);
        left = if left > c.tokens {
            left - c.tokens
        } else {
            0
        };
        k += 1;
    }
    picked
}

proof fn lemma_taken_zero(ranking: Seq<Candidate>, need: int)
    ensures
        need <= 0 ==> taken(ranking, need) == taken(ranking, 0),
{
}

/// Clears tool-result content once the assembled context exceeds a token trigger.
///
/// Results are cleared by how much budget they hold, not by how old they are. A
/// cleared result never reappears, so the edited view stays stable across steps.
pub struct ToolResultClearingAssembler {
    /// Token estimate above which clearing kicks in.
    pub trigger_tokens: usize,
    /// Tokens that a clearing pass reclaims down to.
    pub low_water: usize,
    /// Number of most recent tool results never cleared.
    pub keep_recent: usize,
    /// Results smaller than this are never cleared.
    pub min_clear_bytes: usize,
    /// Ordinals, counted over tool results from the start of the conversation,
    /// whose content has been cleared. Grows only.
    pub cleared: HashSet<usize>,
}

/// The ordinals that are cleared after an assembly of `ms`.
pub open spec fn cleared_after<C: TokenCounter>(
    counter: &C,
    a: ToolResultClearingAssembler,
    ms: Seq<MessageView>,
) -> Set<usize> {
    let shown = edited(ms, a.cleared@);
    let estimate = counter.counted(shown) as int;
    if estimate > a.trigger_tokens {
        let need = if estimate > a.low_water {
            estimate - a.low_water
        } else {
            0
        };
        a.cleared@.union(
            selected(
                counter,
                shown,
                a.cleared@,
                a.keep_recent as int,
                a.min_clear_bytes as int,
                need,
            ).to_set(),
        )
    } else {
        a.cleared@
    }
}

impl ToolResultClearingAssembler {
    pub fn new(trigger_tokens: usize, low_water: usize) -> (r: ToolResultClearingAssembler)
        ensures
            r.trigger_tokens == trigger_tokens,
            r.low_water == low_water,
            r.keep_recent == 2,
            r.min_clear_bytes == 512,
            r.cleared@ == Set::<usize>::empty(),
    {
        ToolResultClearingAssembler {
            trigger_tokens,
            low_water,
            keep_recent: 2,
            min_clear_bytes: 512,
            cleared: HashSet::new(),
        }
    }

    /// Sets how many of the most recent tool results are never cleared.
    pub fn with_keep_recent(self, n: usize) -> (r: ToolResultClearingAssembler)
        ensures
            r == (ToolResultClearingAssembler { keep_recent: n, ..self }),
    {
        let mut out = self;
        out.keep_recent = n;
        out
    }

    /// Sets the number of tokens that a clearing pass reclaims down to.
    pub fn with_target(self, low_water: usize) -> (r: ToolResultClearingAssembler)
        ensures
            r == (ToolResultClearingAssembler { low_water, ..self }),
    {
        let mut out = self;
        out.low_water = low_water;
        out
    }

    /// Sets the size below which a result is left alone.
    pub fn with_min_clear_bytes(self, bytes: usize) -> (r: ToolResultClearingAssembler)
        ensures
            r == (ToolResultClearingAssembler { min_clear_bytes: bytes, ..self }),
    {
        let mut out = self;
        out.min_clear_bytes = bytes;
        out
    }

    /// The messages of a request with stale tool results cleared.
    pub fn assemble<C: TokenCounter>(
        &mut self,
        calibration: &C,
        messages: &Vec<ChatMessage>,
    ) -> (r: Vec<ChatMessage>)
        requires
            2 * messages@.len() <= usize::MAX,
        ensures
            final(self).cleared@ == cleared_after(calibration, *old(self), text::views(messages@)),
            old(self).cleared@.subset_of(final(self).cleared@),
            *final(self) == (ToolResultClearingAssembler {
                cleared: final(self).cleared,
                ..*old(self)
            }),
            text::views(r@) == edited(text::views(messages@), final(self).cleared@),
    {
        let ghost ms = text::views(messages@);
        let ghost start = self.cleared@;
        let shown = apply_clearing(messages, &self.cleared);
        let estimate: usize = count_all(calibration, &shown);
        if estimate <= self.trigger_tokens {
            return shown;
        }
        let need: usize = if estimate > self.low_water {
            estimate - self.low_water
        } else {
            0
        };
        assert(shown@.len() == text::views(shown@).len());
        let picked = select_for_clearing(
            calibration,
            &shown,
            &self.cleared,
            self.keep_recent,
            self.min_clear_bytes,
            need,
        );
        let mut i: usize = 0;
        assert(picked@.take(0).to_set() =~= Set::empty());
        assert(start.union(picked@.take(0).to_set()) =~= start);
        while i < picked.len()
            invariant
                i <= picked@.len(),
                self.cleared@ == start.union(picked@.take(i as int).to_set()),
                *self == (ToolResultClearingAssembler { cleared: self.cleared, ..*old(self) }),
            decreases picked@.len() - i,
        {
            let ordinal: usize = picked[i];
            self.cleared.insert(ordinal);
            proof {
                let (a, b) = (picked@.take(i as int), picked@.take(i + 1));
                assert forall|x: usize| #[trigger]
                    b.to_set().contains(x) == (a.to_set().contains(x) || x == ordinal) by {
                    if a.contains(x) {
                        let j = choose|j: int| 0 <= j < a.len() && a[j] == x;
                        assert(b[j] == x);
                    }
                    if b.contains(x) {
                        let j = choose|j: int| 0 <= j < b.len() && b[j] == x;
                        if j < i {
                            assert(a[j] == x);
                        }
                    }
                    assert(b[i as int] == ordinal);
                }
                assert(self.cleared@ =~= start.union(b.to_set()));
            }
            i += 1;
        }
        assert(picked@.take(i as int) =~= picked@);
        proof {
            law_clearing_is_monotonic(ms, start, self.cleared@);
        }
        apply_clearing(&shown, &self.cleared)
    }
}

} // verus!
