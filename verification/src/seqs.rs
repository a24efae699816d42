//! Sequence operations that contracts speak of.
use vstd::prelude::*;

verus! {

/// The values that `f` gives on the items of `s`, in order, where it gives one.
pub open spec fn filter_map<A, B>(s: Seq<A>, f: spec_fn(A) -> Option<B>) -> Seq<B>
    decreases s.len(),
{
    if s.len() == 0 {
        Seq::empty()
    } else {
        match f(s.last()) {
            Some(b) => filter_map(s.drop_last(), f).push(b),
            None => filter_map(s.drop_last(), f),
        }
    }
}

/// The sequences that `f` gives on the items of `s`, one after the other.
pub open spec fn flat_map<A, B>(s: Seq<A>, f: spec_fn(A) -> Seq<B>) -> Seq<B>
    decreases s.len(),
{
    if s.len() == 0 {
        Seq::empty()
    } else {
        flat_map(s.drop_last(), f) + f(s.last())
    }
}

/// The values that `f` gives on the items of `s`, in order, if it gives one on each.
pub open spec fn map_all<A, B>(s: Seq<A>, f: spec_fn(A) -> Option<B>) -> Option<Seq<B>> {
    if forall|i: int| 0 <= i < s.len() ==> f(#[trigger] s[i]) is Some {
        Some(Seq::new(s.len(), |i: int| f(s[i])->0))
    } else {
        None
    }
}

/// One more item adds what `f` gives on it.
pub proof fn lemma_filter_map_push<A, B>(s: Seq<A>, f: spec_fn(A) -> Option<B>, a: A)
    ensures
        filter_map(s.push(a), f) == match f(a) {
            Some(b) => filter_map(s, f).push(b),
            None => filter_map(s, f),
        },
{
    assert(s.push(a).drop_last() =~= s);
}

/// One more item adds what `f` gives on it.
pub proof fn lemma_flat_map_push<A, B>(s: Seq<A>, f: spec_fn(A) -> Seq<B>, a: A)
    ensures
        flat_map(s.push(a), f) == flat_map(s, f) + f(a),
{
    assert(s.push(a).drop_last() =~= s);
}

/// The first `i + 1` items are the first `i` and one more.
pub proof fn lemma_take_push<A>(s: Seq<A>, i: int)
    requires
        0 <= i < s.len(),
    ensures
        s.take(i + 1) == s.take(i).push(s[i]),
{
    assert(s.take(i + 1) =~= s.take(i).push(s[i]));
}

/// Two functions that agree on the items of `s` give the same values.
pub proof fn lemma_filter_map_same<A, B>(
    s: Seq<A>,
    f: spec_fn(A) -> Option<B>,
    g: spec_fn(A) -> Option<B>,
)
    requires
        forall|i: int| 0 <= i < s.len() ==> f(#[trigger] s[i]) == g(s[i]),
    ensures
        filter_map(s, f) == filter_map(s, g),
    decreases s.len(),
{
    if s.len() > 0 {
        let front = s.drop_last();
        assert forall|i: int| 0 <= i < front.len() implies f(#[trigger] front[i]) == g(front[i]) by {
            assert(front[i] == s[i]);
        }
        lemma_filter_map_same(front, f, g);
        assert(f(s[s.len() - 1]) == g(s[s.len() - 1]));
    }
}

/// Where `f` gives a value on every item, there is one value per item.
pub proof fn lemma_filter_map_total<A, B>(s: Seq<A>, f: spec_fn(A) -> Option<B>)
    requires
        forall|i: int| 0 <= i < s.len() ==> f(#[trigger] s[i]) is Some,
    ensures
        filter_map(s, f).len() == s.len(),
        forall|i: int| 0 <= i < s.len() ==> Some(#[trigger] filter_map(s, f)[i]) == f(s[i]),
    decreases s.len(),
{
    if s.len() > 0 {
        let front = s.drop_last();
        assert forall|i: int| 0 <= i < front.len() implies f(#[trigger] front[i]) is Some by {
            assert(front[i] == s[i]);
        }
        lemma_filter_map_total(front, f);
        assert(f(s[s.len() - 1]) is Some);
        assert forall|i: int| 0 <= i < s.len() implies Some(#[trigger] filter_map(s, f)[i]) == f(
            s[i],
        ) by {
            if i < front.len() {
                assert(front[i] == s[i]);
                assert(filter_map(s, f)[i] == filter_map(front, f)[i]);
            }
        }
    }
}

/// The values on a concatenation are those on its two parts.
pub proof fn lemma_filter_map_concat<A, B>(a: Seq<A>, b: Seq<A>, f: spec_fn(A) -> Option<B>)
    ensures
        filter_map(a + b, f) == filter_map(a, f) + filter_map(b, f),
    decreases b.len(),
{
    if b.len() == 0 {
        assert(a + b =~= a);
        assert(filter_map(a, f) + Seq::<B>::empty() =~= filter_map(a, f));
    } else {
        assert((a + b).drop_last() =~= a + b.drop_last());
        lemma_filter_map_concat(a, b.drop_last(), f);
        let fb = filter_map(b.drop_last(), f);
        match f(b.last()) {
            Some(v) => {
                assert((filter_map(a, f) + fb).push(v) =~= filter_map(a, f) + fb.push(v));
            },
            None => {},
        }
    }
}

pub proof fn lemma_filter_map_len<A, B>(s: Seq<A>, f: spec_fn(A) -> Option<B>)
    ensures
        filter_map(s, f).len() <= s.len(),
    decreases s.len(),
{
    if s.len() > 0 {
        lemma_filter_map_len(s.drop_last(), f);
    }
}

} // verus!
