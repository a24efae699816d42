//! Laws of clearing: which results leave the context, and what stands in their place.
use crate::agent::context_edit;
use crate::agent::context_edit::{Candidate, ToolResultClearingAssembler};
use crate::agent::tokens::TokenCounter;
use crate::laws::anthropic as blocks;
use crate::llm::types::{MessageView, Role};
use crate::text;
use vstd::prelude::*;

verus! {

/// A result that is cleared is replaced by a note that says how much was there; the call
/// that it answers stays. Every other message stays as it is.
pub proof fn law_cleared_result_is_noted(ms: Seq<MessageView>, cleared: Set<usize>, i: int)
    requires
        0 <= i < ms.len(),
    ensures
        ({
            let m = context_edit::edited(ms, cleared)[i];
            let was = blocks::text_in(ms[i].content);
            let ordinal = context_edit::results(ms.take(i)) as usize;
            &&& ms[i].role == Role::Tool && cleared.contains(ordinal) ==> {
                &&& m.content is Some
                &&& text::starts_with(m.content->0, "[cleared by harness:"@)
                &&& m.tool_call_id == ms[i].tool_call_id
                &&& !text::starts_with(was, "[cleared by harness:"@) ==> text::contains(
                    m.content->0,
                    text::decimal(text::byte_len(was)),
                )
                &&& ms[i].content is Some && text::starts_with(was, "[cleared by harness:"@)
                    ==> m == ms[i]
            }
            &&& ms[i].role != Role::Tool || !cleared.contains(ordinal) ==> m == ms[i]
        }),
{
    let was = blocks::text_in(ms[i].content);
    let digits = text::decimal(text::byte_len(was));
    let t = context_edit::placeholder(text::byte_len(was));
    let n = "[cleared by harness: "@.len() as int;
    assert(t.subrange(n, n + digits.len()) =~= digits);
    assert(text::occurs_at(t, digits, n));
    reveal_strlit("[cleared by harness: ");
    reveal_strlit("[cleared by harness:");
    let k = "[cleared by harness:"@.len() as int;
    assert(t.subrange(0, k) =~= "[cleared by harness:"@);
}

/// Results are counted from the start of the conversation.
pub proof fn law_results_are_counted(ms: Seq<MessageView>, m: MessageView)
    ensures
        context_edit::results(Seq::empty()) == 0,
        context_edit::results(ms.push(m)) == context_edit::results(ms) + (if m.role == Role::Tool {
            1nat
        } else {
            0nat
        }),
{
    assert(ms.push(m).drop_last() =~= ms);
}

/// Of two results the larger goes first, and of two of one size the older.
pub proof fn law_large_and_old_goes_first(
    a: MessageView,
    i: int,
    b: MessageView,
    j: int,
    total: int,
)
    requires
        0 <= i < total,
        0 <= j < total,
        text::byte_len(blocks::text_in(b.content)) > 0,
    ensures
        text::byte_len(blocks::text_in(a.content)) == text::byte_len(blocks::text_in(b.content))
            && i < j ==> context_edit::score(a, i, total) > context_edit::score(b, j, total),
        text::byte_len(blocks::text_in(a.content)) > text::byte_len(blocks::text_in(b.content)) && i
            == j ==> context_edit::score(a, i, total) > context_edit::score(b, j, total),
{
    let x = text::byte_len(blocks::text_in(a.content)) as int;
    let y = text::byte_len(blocks::text_in(b.content)) as int;
    let p = total + (total - i);
    let q = total + (total - j);
    assert(context_edit::size(a) == x && context_edit::size(b) == y);
    if x == y && i < j {
        assert(x * p > x * q) by (nonlinear_arith)
            requires
                x > 0,
                p > q,
        ;
    }
    if x > y && i == j {
        assert(x * p > y * p) by (nonlinear_arith)
            requires
                x > y,
                p > 0,
        ;
    }
}

/// Every result that is large enough and not cleared yet may go, and no other.
pub proof fn law_candidates_are_the_large_ones<C: TokenCounter>(
    counter: &C,
    rs: Seq<MessageView>,
    cleared: Set<usize>,
    min_bytes: int,
    n: int,
    i: int,
)
    requires
        0 <= i < n <= rs.len() <= usize::MAX,
    ensures
        (exists|k: int|
            0 <= k < context_edit::candidates(counter, rs, cleared, min_bytes, n).len()
                && #[trigger] context_edit::candidates(
                counter,
                rs,
                cleared,
                min_bytes,
                n,
            )[k].ordinal == i) <==> !cleared.contains(i as usize) && text::byte_len(
            blocks::text_in(rs[i].content),
        ) >= min_bytes,
        forall|k: int|
            0 <= k < context_edit::candidates(counter, rs, cleared, min_bytes, n).len()
                ==> #[trigger] context_edit::candidates(
                counter,
                rs,
                cleared,
                min_bytes,
                n,
            )[k].ordinal < n,
    decreases n,
{
    let r = context_edit::candidates(counter, rs, cleared, min_bytes, n);
    let before = context_edit::candidates(counter, rs, cleared, min_bytes, n - 1);
    let fits = !cleared.contains(i as usize) && text::byte_len(blocks::text_in(rs[i].content))
        >= min_bytes;
    assert(context_edit::size(rs[i]) == text::byte_len(blocks::text_in(rs[i].content)));
    if n - 1 > 0 {
        law_candidates_are_the_large_ones(
            counter,
            rs,
            cleared,
            min_bytes,
            n - 1,
            if i < n - 1 {
                i
            } else {
                0
            },
        );
    } else {
        assert(before.len() == 0);
    }
    assert forall|k: int| 0 <= k < r.len() implies #[trigger] r[k].ordinal < n by {
        if k < before.len() {
            assert(r[k] == before[k]);
        }
    }
    if i < n - 1 {
        if fits {
            let k = choose|k: int| 0 <= k < before.len() && #[trigger] before[k].ordinal == i;
            assert(r[k].ordinal == i);
        } else {
            assert forall|k: int| 0 <= k < r.len() implies #[trigger] r[k].ordinal != i by {
                if k < before.len() {
                    assert(r[k] == before[k]);
                }
            }
        }
    } else {
        if fits {
            assert(r[r.len() - 1].ordinal == i);
        } else {
            assert(r == before);
        }
    }
}

/// The tokens of the first `n` of a ranking.
pub open spec fn tokens_of(ranking: Seq<Candidate>, n: int) -> int
    decreases n,
{
    if n <= 0 {
        0
    } else {
        tokens_of(ranking, n - 1) + ranking[n - 1].tokens
    }
}

proof fn lemma_tokens_skip(ranking: Seq<Candidate>, n: int)
    requires
        0 <= n < ranking.len(),
    ensures
        tokens_of(ranking, n + 1) == ranking[0].tokens + tokens_of(ranking.skip(1), n),
    decreases n,
{
    if n > 0 {
        lemma_tokens_skip(ranking, n - 1);
        assert(ranking.skip(1)[n - 1] == ranking[n]);
    } else {
        assert(tokens_of(ranking, 0) == 0);
        assert(tokens_of(ranking.skip(1), 0) == 0);
    }
}

/// As many go as are needed and no more: together they free what is needed, or all go;
/// without the last they would not.
pub proof fn law_as_many_go_as_needed(ranking: Seq<Candidate>, need: int)
    ensures
        ({
            let n = context_edit::taken(ranking, need);
            &&& 0 <= n <= ranking.len()
            &&& n < ranking.len() ==> tokens_of(ranking, n) >= need
            &&& n > 0 ==> tokens_of(ranking, n - 1) < need
        }),
    decreases ranking.len(),
{
    assert(tokens_of(ranking, 0) == 0);
    if ranking.len() > 0 && need > 0 {
        let rest = ranking.skip(1);
        law_as_many_go_as_needed(rest, need - ranking[0].tokens);
        let k = context_edit::taken(rest, need - ranking[0].tokens);
        if k < rest.len() {
            lemma_tokens_skip(ranking, k);
        }
        if k > 0 {
            lemma_tokens_skip(ranking, k - 1);
        }
    }
}

/// Nothing more is cleared while the context is within the trigger, and what was cleared
/// stays cleared.
pub proof fn law_clearing_waits_for_the_trigger<C: TokenCounter>(
    counter: &C,
    a: ToolResultClearingAssembler,
    ms: Seq<MessageView>,
)
    ensures
        a.cleared@.subset_of(context_edit::cleared_after(counter, a, ms)),
        counter.counted(context_edit::edited(ms, a.cleared@)) <= a.trigger_tokens
            ==> context_edit::cleared_after(counter, a, ms) == a.cleared@,
{
}

} // verus!
