//! Values under names.
use crate::text;
use crate::text::{comes_before, same};
use vstd::prelude::*;

verus! {

/// A map from names to values. Where a name occurs twice, the later entry holds
/// its value.
pub struct Table<V> {
    pub entries: Vec<(String, V)>,
}

/// The map that entries stand for.
pub open spec fn entries_map<V>(s: Seq<(String, V)>) -> Map<Seq<char>, V>
    decreases s.len(),
{
    if s.len() == 0 {
        Map::empty()
    } else {
        entries_map(s.drop_last()).insert(s.last().0@, s.last().1)
    }
}

impl<V> View for Table<V> {
    type V = Map<Seq<char>, V>;

    open spec fn view(&self) -> Map<Seq<char>, V> {
        entries_map(self.entries@)
    }
}

/// Whether texts stand in ascending order, each once.
pub open spec fn ascending(s: Seq<Seq<char>>) -> bool {
    forall|i: int, j: int| 0 <= i < j < s.len() ==> text::text_before(#[trigger] s[i], #[trigger] s[j])
}

/// The texts of a set in ascending order.
pub open spec fn ordered(names: Set<Seq<char>>) -> Seq<Seq<char>> {
    choose|s: Seq<Seq<char>>| ascending(s) && #[trigger] s.to_set() == names
}

/// Whether [`ordered`] orders a set: its texts and no others, in ascending order.
pub open spec fn has_order(names: Set<Seq<char>>) -> bool {
    &&& ascending(ordered(names))
    &&& forall|k: Seq<char>| #[trigger] ordered(names).contains(k) <==> names.contains(k)
}

/// A set of texts has one ascending order.
pub proof fn lemma_ordered(s: Seq<Seq<char>>, names: Set<Seq<char>>)
    requires
        ascending(s),
        forall|k: Seq<char>| #[trigger] s.contains(k) <==> names.contains(k),
    ensures
        ordered(names) == s,
{
    assert(s.to_set() =~= names);
    let t = ordered(names);
    assert(ascending(t) && t.to_set() == names);
    assert forall|k: Seq<char>| #[trigger] s.contains(k) <==> t.contains(k) by {
        assert(t.to_set().contains(k) == names.contains(k));
    }
    lemma_ascending_unique(s, t);
}

/// A text put into its place among ascending texts.
proof fn lemma_insert_in_order(s: Seq<Seq<char>>, k: Seq<char>) -> (t: Seq<Seq<char>>)
    requires
        ascending(s),
    ensures
        ascending(t),
        forall|x: Seq<char>| #[trigger] t.contains(x) <==> s.contains(x) || x == k,
    decreases s.len(),
{
    if s.len() == 0 {
        let t = seq![k];
        assert(t[0] == k);
        t
    } else {
        let d = s.drop_last();
        let last = s.last();
        assert(s[s.len() - 1] == last);
        assert(s =~= d.push(last));
        assert(ascending(d));
        if last == k {
            s
        } else if text::text_before(last, k) {
            let t = s.push(k);
            assert(ascending(t)) by {
                assert forall|i: int, j: int| 0 <= i < j < t.len() implies text::text_before(
                    #[trigger] t[i],
                    #[trigger] t[j],
                ) by {
                    if j == s.len() && i < s.len() - 1 {
                        assert(text::text_before(s[i], s[s.len() - 1]));
                        text::lemma_text_before_transitive(s[i], last, k);
                    }
                }
            }
            lemma_push_contains(s, k);
            t
        } else {
            text::lemma_text_before_total(last, k);
            let u = lemma_insert_in_order(d, k);
            let t = u.push(last);
            lemma_push_contains(u, last);
            lemma_push_contains(d, last);
            assert(ascending(t)) by {
                assert forall|i: int, j: int| 0 <= i < j < t.len() implies text::text_before(
                    #[trigger] t[i],
                    #[trigger] t[j],
                ) by {
                    if j == u.len() {
                        assert(u.contains(u[i]));
                        if u[i] != k {
                            let m = choose|m: int| 0 <= m < d.len() && d[m] == u[i];
                            assert(text::text_before(s[m], s[s.len() - 1]));
                        }
                    }
                }
            }
            t
        }
    }
}

proof fn lemma_push_contains(s: Seq<Seq<char>>, k: Seq<char>)
    ensures
        forall|x: Seq<char>| #[trigger] s.push(k).contains(x) <==> s.contains(x) || x == k,
{
    assert forall|x: Seq<char>| #[trigger] s.push(k).contains(x) <==> s.contains(x) || x == k by {
        let t = s.push(k);
        if s.contains(x) {
            let i = choose|i: int| 0 <= i < s.len() && s[i] == x;
            assert(t[i] == x);
        }
        assert(t[s.len() as int] == k);
        if t.contains(x) {
            let i = choose|i: int| 0 <= i < t.len() && t[i] == x;
            if i < s.len() {
                assert(s[i] == x);
            }
        }
    }
}

proof fn lemma_order_of(names: Set<Seq<char>>) -> (s: Seq<Seq<char>>)
    requires
        names.finite(),
    ensures
        ascending(s),
        forall|k: Seq<char>| #[trigger] s.contains(k) <==> names.contains(k),
    decreases names.len(),
{
    if names.is_empty() {
        Seq::empty()
    } else {
        let k = names.choose();
        let rest = names.remove(k);
        let s = lemma_order_of(rest);
        let t = lemma_insert_in_order(s, k);
        assert forall|x: Seq<char>| #[trigger] t.contains(x) <==> names.contains(x) by {
            assert(s.contains(x) <==> rest.contains(x));
        }
        t
    }
}

/// Every finite set of texts has its ascending order.
pub proof fn law_every_set_has_an_order(names: Set<Seq<char>>)
    requires
        names.finite(),
    ensures
        has_order(names),
{
    let s = lemma_order_of(names);
    lemma_ordered(s, names);
}

proof fn lemma_ascending_unique(a: Seq<Seq<char>>, b: Seq<Seq<char>>)
    requires
        ascending(a),
        ascending(b),
        forall|k: Seq<char>|
            #![trigger a.contains(k)]
            #![trigger b.contains(k)]
            a.contains(k) <==> b.contains(k),
    ensures
        a == b,
    decreases a.len(),
{
    if a.len() == 0 {
        if b.len() > 0 {
            assert(b.contains(b[0]));
        }
        assert(a =~= b);
    } else {
        let x = a[a.len() - 1];
        assert(a.contains(x));
        assert(b.contains(x));
        let j = choose|j: int| 0 <= j < b.len() && b[j] == x;
        let y = b[b.len() - 1];
        assert(b.contains(y));
        assert(a.contains(y));
        let i = choose|i: int| 0 <= i < a.len() && a[i] == y;
        text::lemma_text_before_total(x, y);
        if j < b.len() - 1 {
            assert(text::text_before(b[j], b[b.len() - 1]));
            if i < a.len() - 1 {
                assert(text::text_before(a[i], a[a.len() - 1]));
            }
        }
        assert(x == y);
        let (p, q) = (a.drop_last(), b.drop_last());
        assert forall|k: Seq<char>| #[trigger] p.contains(k) <==> q.contains(k) by {
            if p.contains(k) {
                let m = choose|m: int| 0 <= m < p.len() && p[m] == k;
                assert(a[m] == k);
                assert(text::text_before(a[m], a[a.len() - 1]));
                text::lemma_text_before_total(k, x);
                assert(a.contains(k));
                let n = choose|n: int| 0 <= n < b.len() && b[n] == k;
                assert(q[n] == k);
            }
            if q.contains(k) {
                let m = choose|m: int| 0 <= m < q.len() && q[m] == k;
                assert(b[m] == k);
                assert(text::text_before(b[m], b[b.len() - 1]));
                text::lemma_text_before_total(k, x);
                assert(b.contains(k));
                let n = choose|n: int| 0 <= n < a.len() && a[n] == k;
                assert(p[n] == k);
            }
        }
        assert forall|i: int, j: int| 0 <= i < j < p.len() implies text::text_before(
            #[trigger] p[i],
            #[trigger] p[j],
        ) by {
            assert(text::text_before(a[i], a[j]));
        }
        assert forall|i: int, j: int| 0 <= i < j < q.len() implies text::text_before(
            #[trigger] q[i],
            #[trigger] q[j],
        ) by {
            assert(text::text_before(b[i], b[j]));
        }
        lemma_ascending_unique(p, q);
        assert(a =~= p.push(x));
        assert(b =~= q.push(x));
    }
}

pub proof fn lemma_entries_map<V>(s: Seq<(String, V)>, k: Seq<char>)
    ensures
        entries_map(s).contains_key(k) <==> exists|i: int|
            0 <= i < s.len() && (#[trigger] s[i]).0@ == k,
        forall|i: int|
            0 <= i < s.len() && (#[trigger] s[i]).0@ == k && (forall|j: int|
                i < j < s.len() ==> (#[trigger] s[j]).0@ != k) ==> entries_map(s)[k] == s[i].1,
        entries_map(s).dom().finite(),
    decreases s.len(),
{
    if s.len() > 0 {
        let d = s.drop_last();
        lemma_entries_map(d, k);
        if s.last().0@ == k {
            assert(s[s.len() - 1].0@ == k);
        } else if entries_map(d).contains_key(k) {
            let i = choose|i: int| 0 <= i < d.len() && (#[trigger] d[i]).0@ == k;
            assert(s[i].0@ == k);
        }
        assert forall|i: int|
            0 <= i < s.len() && (#[trigger] s[i]).0@ == k && (forall|j: int|
                i < j < s.len() ==> (#[trigger] s[j]).0@ != k) implies entries_map(s)[k]
            == s[i].1 by {
            if i < s.len() - 1 {
                assert(s[s.len() - 1].0@ != k);
                assert(d[i] == s[i]);
                assert forall|j: int| i < j < d.len() implies (#[trigger] d[j]).0@ != k by {
                    assert(s[j].0@ != k);
                }
            }
        }
        if exists|i: int| 0 <= i < s.len() && (#[trigger] s[i]).0@ == k {
            let i = choose|i: int| 0 <= i < s.len() && (#[trigger] s[i]).0@ == k;
            if i < s.len() - 1 {
                assert(d[i].0@ == k);
            }
        }
    }
}

proof fn lemma_entries_update<V>(s: Seq<(String, V)>, i: int, e: (String, V))
    requires
        0 <= i < s.len(),
        s[i].0@ == e.0@,
        forall|j: int| i < j < s.len() ==> (#[trigger] s[j]).0@ != e.0@,
    ensures
        entries_map(s.update(i, e)) == entries_map(s).insert(e.0@, e.1),
    decreases s.len(),
{
    let t = s.update(i, e);
    if i == s.len() - 1 {
        assert(t.drop_last() =~= s.drop_last());
        assert(entries_map(t) =~= entries_map(s).insert(e.0@, e.1));
    } else {
        let d = s.drop_last();
        assert forall|j: int| i < j < d.len() implies (#[trigger] d[j]).0@ != e.0@ by {
            assert(s[j].0@ != e.0@);
        }
        lemma_entries_update(d, i, e);
        assert(t.drop_last() =~= d.update(i, e));
        assert(s[s.len() - 1].0@ != e.0@);
        assert(entries_map(t) =~= entries_map(s).insert(e.0@, e.1));
    }
}

impl<V> Table<V> {
    pub fn new() -> (r: Table<V>)
        ensures
            r@ == Map::<Seq<char>, V>::empty(),
    {
        Table { entries: Vec::new() }
    }

    /// The place of the entry that holds the value of `name`.
    fn position(&self, name: &str) -> (r: Option<usize>)
        ensures
            match r {
                Some(i) => {
                    &&& i < self.entries@.len()
                    &&& self.entries@[i as int].0@ == name@
                    &&& forall|j: int|
                        i < j < self.entries@.len() ==> (#[trigger] self.entries@[j]).0@ != name@
                    &&& self@.contains_key(name@)
                    &&& self@[name@] == self.entries@[i as int].1
                },
                None => !self@.contains_key(name@),
            },
    {
        let mut i: usize = self.entries.len();
        while i > 0
            invariant
                i <= self.entries@.len(),
                forall|j: int|
                    i <= j < self.entries@.len() ==> (#[trigger] self.entries@[j]).0@ != name@,
            decreases i,
        {
            if same(self.entries[i - 1].0.as_str(), name) {
                proof {
                    lemma_entries_map(self.entries@, name@);
                    assert(self.entries@[i - 1].0@ == name@);
                }
                return Some(i - 1);
            }
            i -= 1;
        }
        proof {
            lemma_entries_map(self.entries@, name@);
        }
        None
    }

    /// The value under `name`, if there is one.
    pub fn get(&self, name: &str) -> (r: Option<&V>)
        ensures
            match r {
                Some(v) => self@.contains_key(name@) && *v == self@[name@],
                None => !self@.contains_key(name@),
            },
    {
        match self.position(name) {
            Some(i) => Some(&self.entries[i].1),
            None => None,
        }
    }

    /// Whether there is a value under `name`.
    pub fn contains(&self, name: &str) -> (r: bool)
        ensures
            r == self@.contains_key(name@),
    {
        self.position(name).is_some()
    }

    /// Sets the value under `name`.
    pub fn put(&mut self, name: &str, value: V)
        ensures
            final(self)@ == old(self)@.insert(name@, value),
    {
        let key = name.to_owned();
        match self.position(name) {
            Some(i) => {
                proof {
                    lemma_entries_update(self.entries@, i as int, (key, value));
                }
                self.entries.set(i, (key, value));
            },
            None => {
                self.entries.push((key, value));
                proof {
                    assert(self.entries@.drop_last() =~= old(self).entries@);
                }
            },
        }
    }

    /// Removes the value under `name`.
    pub fn remove(&mut self, name: &str)
        ensures
            final(self)@ == old(self)@.remove(name@),
    {
        let ghost s = self.entries@;
        let mut kept: Vec<(String, V)> = Vec::new();
        let mut rest: Vec<(String, V)> = Vec::new();
        std::mem::swap(&mut rest, &mut self.entries);
        // Taken from the back and turned round again, so that entries move.
        let mut back: Vec<(String, V)> = Vec::new();
        while rest.len() > 0
            invariant
                rest@.len() <= s.len(),
                rest@ == s.take(rest@.len() as int),
                back@ == s.skip(rest@.len() as int).reverse(),
            decreases rest@.len(),
        {
            let ghost n = rest@.len();
            match rest.pop() {
                Some(e) => {
                    proof {
                        assert(e == s[n - 1]);
                        assert(s.skip(n - 1) =~= seq![e] + s.skip(n as int));
                        assert(s.skip(n - 1).reverse() =~= s.skip(n as int).reverse().push(e));
                        assert(s.take(n as int).drop_last() =~= s.take(n - 1));
                    }
                    back.push(e);
                },
                None => {},
            }
        }
        assert(s.skip(0) =~= s);
        assert(kept@ =~= Seq::empty());
        assert(s.take(0) =~= Seq::empty());
        let ghost total = back@.len();
        while back.len() > 0
            invariant
                total == s.len(),
                back@.len() <= total,
                back@ == s.skip(total - back@.len()).reverse(),
                entries_map(kept@) == entries_map(s.take(total - back@.len())).remove(name@),
            decreases back@.len(),
        {
            let ghost k = total - back@.len();
            let ghost before = kept@;
            match back.pop() {
                Some(e) => {
                    proof {
                        assert(e == s[k]);
                        assert(s.skip(k).reverse().drop_last() =~= s.skip(k + 1).reverse());
                        assert(s.take(k + 1).drop_last() =~= s.take(k));
                    }
                    if !same(e.0.as_str(), name) {
                        kept.push(e);
                        assert(kept@.drop_last() =~= before);
                    }
                    assert(entries_map(kept@) =~= entries_map(s.take(k + 1)).remove(name@));
                },
                None => {},
            }
        }
        assert(s.take(total as int) =~= s);
        self.entries = kept;
    }

    /// The names, in ascending order.
    pub fn names(&self) -> (r: Vec<String>)
        ensures
            text::views(r@) == ordered(self@.dom()),
            has_order(self@.dom()),
            ascending(text::views(r@)),
            forall|k: Seq<char>| #[trigger] text::views(r@).contains(k) <==> self@.contains_key(k),
    {
        let ghost s = self.entries@;
        let mut out: Vec<String> = Vec::new();
        let mut i: usize = 0;
        while i < self.entries.len()
            invariant
                i <= s.len(),
                s == self.entries@,
                ascending(text::views(out@)),
                forall|k: Seq<char>| #[trigger]
                    text::views(out@).contains(k) <==> entries_map(s.take(i as int)).contains_key(k),
            decreases s.len() - i,
        {
            let ghost before = text::views(out@);
            insert_name(&mut out, self.entries[i].0.as_str());
            proof {
                assert(s.take(i + 1).drop_last() =~= s.take(i as int));
                assert forall|k: Seq<char>| #[trigger]
                    text::views(out@).contains(k) <==> entries_map(s.take(i + 1)).contains_key(k) by {
                    assert(before.contains(k) <==> entries_map(s.take(i as int)).contains_key(k));
                }
            }
            i += 1;
        }
        assert(s.take(i as int) =~= s);
        proof {
            lemma_ordered(text::views(out@), self@.dom());
        }
        out
    }
}

/// Puts a name into its place among ascending names, unless it is there.
pub fn insert_name(names: &mut Vec<String>, name: &str)
    requires
        ascending(text::views(old(names)@)),
    ensures
        ascending(text::views(final(names)@)),
        forall|k: Seq<char>| #[trigger]
            text::views(final(names)@).contains(k) <==> text::views(old(names)@).contains(k) || k == name@,
{
    let ghost s = text::views(names@);
    let mut i: usize = 0;
    while i < names.len() && comes_before(names[i].as_str(), name)
        invariant
            i <= names@.len(),
            s == text::views(names@),
            forall|j: int| 0 <= j < i ==> text::text_before(#[trigger] s[j], name@),
        decreases names@.len() - i,
    {
        assert(s[i as int] == names@[i as int]@);
        i += 1;
    }
    if i < names.len() && same(names[i].as_str(), name) {
        proof {
            assert(s[i as int] == name@);
            assert(s.contains(name@));
        }
        return;
    }
    let key = name.to_owned();
    proof {
        if i < names@.len() {
            assert(s[i as int] == names@[i as int]@);
            text::lemma_text_before_total(s[i as int], name@);
        }
        assert forall|j: int| i <= j < s.len() implies text::text_before(name@, #[trigger] s[j]) by {
            if j > i {
                text::lemma_text_before_transitive(name@, s[i as int], s[j]);
            }
        }
    }
    names.insert(i, key);
    proof {
        let t = text::views(names@);
        assert(t =~= s.insert(i as int, name@));
        assert forall|k: Seq<char>| #[trigger] t.contains(k) <==> s.contains(k) || k == name@ by {
            if s.contains(k) {
                let j = choose|j: int| 0 <= j < s.len() && s[j] == k;
                if j < i {
                    assert(t[j] == k);
                } else {
                    assert(t[j + 1] == k);
                }
            }
            if t.contains(k) {
                let j = choose|j: int| 0 <= j < t.len() && t[j] == k;
                if j < i {
                    assert(s[j] == k);
                } else if j > i {
                    assert(s[j - 1] == k);
                }
            }
            assert(t[i as int] == name@);
        }
    }
}

} // verus!
