//! Text primitives over sequences of characters.
use vstd::prelude::*;
use vstd::string::*;

verus! {

/// `String::push`: appends one character.
pub assume_specification[ String::push ](s: &mut String, c: char)
    ensures
        final(s)@ == old(s)@.push(c),
;

/// `String::push_str`: appends a string slice.
pub assume_specification[ String::push_str ](s: &mut String, other: &str)
    ensures
        final(s)@ == old(s)@ + other@,
;

/// The characters of `s`, in order.
pub fn chars_of(s: &str) -> (r: Vec<char>)
    ensures
        r@ == s@,
{
    let mut out: Vec<char> = Vec::new();
    for c in it: s.chars()
        invariant
            out@ == it.seq().take(it.index()),
            it.seq() == s@,
    {
        out.push(c);
    }
    assert(s@.take(s@.len() as int) == s@);
    out
}

/// The string made of `chars[from..to]`.
pub fn string_of(chars: &Vec<char>, from: usize, to: usize) -> (r: String)
    requires
        from <= to <= chars@.len(),
    ensures
        r@ == chars@.subrange(from as int, to as int),
{
    let mut out = String::new();
    let mut i: usize = from;
    while i < to
        invariant
            from <= i <= to <= chars@.len(),
            out@ == chars@.subrange(from as int, i as int),
        decreases to - i,
    {
        out.push(chars[i]);
        i += 1;
    }
    out
}

/// Whether two strings hold the same characters.
pub fn same(a: &str, b: &str) -> (r: bool)
    ensures
        r == (a@ == b@),
{
    let x = chars_of(a);
    let y = chars_of(b);
    if x.len() != y.len() {
        return false;
    }
    let mut i: usize = 0;
    while i < x.len()
        invariant
            i <= x.len(),
            x.len() == y.len(),
            x@ == a@,
            y@ == b@,
            x@.take(i as int) == y@.take(i as int),
        decreases x.len() - i,
    {
        if x[i] != y[i] {
            assert(a@[i as int] != b@[i as int]);
            return false;
        }
        i += 1;
    }
    assert(x@.take(i as int) == a@ && y@.take(i as int) == b@);
    true
}

// ── Searching ──────────────────────────────────────────────────────────────

/// Whether `p` stands in `s` at place `i`.
pub open spec fn occurs_at(s: Seq<char>, p: Seq<char>, i: int) -> bool {
    0 <= i && i + p.len() <= s.len() && s.subrange(i, i + p.len()) == p
}

/// The first place at or after `i` where `p` stands in `s`.
pub open spec fn find_from(s: Seq<char>, p: Seq<char>, i: int) -> Option<int>
    decreases s.len() - i + 1,
{
    if i + p.len() > s.len() {
        None
    } else if occurs_at(s, p, i) {
        Some(i)
    } else {
        find_from(s, p, i + 1)
    }
}

/// The first place where `p` stands in `s`.
pub open spec fn find(s: Seq<char>, p: Seq<char>) -> Option<int> {
    find_from(s, p, 0)
}

/// Whether `p` stands somewhere in `s`.
pub open spec fn contains(s: Seq<char>, p: Seq<char>) -> bool {
    exists|i: int| #[trigger] occurs_at(s, p, i)
}

/// A search from `i` finds the first occurrence at or after `i`, and none only
/// where there is none.
pub proof fn lemma_find_from(s: Seq<char>, p: Seq<char>, i: int)
    requires
        0 <= i,
    ensures
        match find_from(s, p, i) {
            Some(k) => i <= k && occurs_at(s, p, k) && forall|j: int|
                i <= j < k ==> !#[trigger] occurs_at(s, p, j),
            None => forall|j: int| i <= j ==> !#[trigger] occurs_at(s, p, j),
        },
    decreases s.len() - i + 1,
{
    if i + p.len() > s.len() {
    } else if occurs_at(s, p, i) {
    } else {
        lemma_find_from(s, p, i + 1);
    }
}

/// `p` is found in `s` exactly where `s` contains it.
pub proof fn lemma_contains(s: Seq<char>, p: Seq<char>)
    ensures
        contains(s, p) <==> find(s, p) is Some,
{
    lemma_find_from(s, p, 0);
    if find(s, p) is Some {
        assert(occurs_at(s, p, find(s, p)->0));
    }
}

/// Whether `p` stands in `s` at place `i`.
pub fn occurs(s: &Vec<char>, p: &Vec<char>, i: usize) -> (r: bool)
    requires
        i <= s@.len(),
    ensures
        r == occurs_at(s@, p@, i as int),
{
    if p.len() > s.len() - i {
        return false;
    }
    let mut k: usize = 0;
    while k < p.len()
        invariant
            k <= p@.len(),
            i + p.len() <= s.len(),
            s@.subrange(i as int, i + k) == p@.take(k as int),
        decreases p@.len() - k,
    {
        if s[i + k] != p[k] {
            assert(s@.subrange(i as int, i + p@.len())[k as int] != p@[k as int]);
            return false;
        }
        assert(s@.subrange(i as int, i + k + 1) =~= s@.subrange(i as int, i + k).push(s@[i + k]));
        assert(p@.take(k + 1) =~= p@.take(k as int).push(p@[k as int]));
        k += 1;
    }
    assert(p@.take(k as int) =~= p@);
    true
}

/// The first place at or after `from` where `p` stands in `s`.
pub fn find_chars(s: &Vec<char>, p: &Vec<char>, from: usize) -> (r: Option<usize>)
    requires
        from <= s@.len(),
    ensures
        match r {
            Some(k) => find_from(s@, p@, from as int) == Some(k as int) && from <= k && k + p@.len()
                <= s@.len() <= usize::MAX,
            None => find_from(s@, p@, from as int) is None,
        },
{
    let mut i: usize = from;
    while p.len() <= s.len() - i
        invariant
            from <= i <= s@.len(),
            find_from(s@, p@, from as int) == find_from(s@, p@, i as int),
        decreases s@.len() + 1 - i,
    {
        if occurs(s, p, i) {
            return Some(i);
        }
        proof {
            if i == s.len() {
                assert(s@.subrange(i as int, i as int) =~= p@);
            }
        }
        i += 1;
    }
    None
}

/// Whether `p` stands somewhere in `s`.
pub fn contains_str(s: &str, p: &str) -> (r: bool)
    ensures
        r == contains(s@, p@),
{
    let sv = chars_of(s);
    let pv = chars_of(p);
    proof {
        lemma_contains(s@, p@);
    }
    find_chars(&sv, &pv, 0).is_some()
}

/// Whether `s` begins with `p`.
pub open spec fn starts_with(s: Seq<char>, p: Seq<char>) -> bool {
    occurs_at(s, p, 0)
}

/// Whether `s` ends with `p`.
pub open spec fn ends_with(s: Seq<char>, p: Seq<char>) -> bool {
    occurs_at(s, p, s.len() - p.len())
}

pub fn starts_with_str(s: &str, p: &str) -> (r: bool)
    ensures
        r == starts_with(s@, p@),
{
    let sv = chars_of(s);
    let pv = chars_of(p);
    occurs(&sv, &pv, 0)
}

pub fn ends_with_str(s: &str, p: &str) -> (r: bool)
    ensures
        r == ends_with(s@, p@),
{
    let sv = chars_of(s);
    let pv = chars_of(p);
    if pv.len() > sv.len() {
        return false;
    }
    occurs(&sv, &pv, sv.len() - pv.len())
}

/// What follows the prefix `p` of `s`.
pub open spec fn after_prefix(s: Seq<char>, p: Seq<char>) -> Option<Seq<char>> {
    if starts_with(s, p) {
        Some(s.skip(p.len() as int))
    } else {
        None
    }
}

/// What follows the prefix `p` of `s`, if `s` begins with `p`.
pub fn strip_prefix_str(s: &str, p: &str) -> (r: Option<String>)
    ensures
        match r {
            Some(t) => after_prefix(s@, p@) == Some(t@),
            None => after_prefix(s@, p@) is None,
        },
{
    let sv = chars_of(s);
    let pv = chars_of(p);
    if occurs(&sv, &pv, 0) {
        Some(string_of(&sv, pv.len(), sv.len()))
    } else {
        None
    }
}

// ── Replacing ──────────────────────────────────────────────────────────────

/// `s` with every occurrence of `p`, taken from the left, replaced by `to`.
pub open spec fn replace(s: Seq<char>, p: Seq<char>, to: Seq<char>) -> Seq<char>
    decreases s.len(),
{
    if p.len() == 0 || s.len() < p.len() {
        s
    } else if starts_with(s, p) {
        to + replace(s.skip(p.len() as int), p, to)
    } else {
        seq![s[0]] + replace(s.skip(1), p, to)
    }
}

/// Whether a word laid over `to` with its start at place `d` agrees with it.
pub open spec fn overlays(word: Seq<char>, to: Seq<char>, d: int) -> bool {
    forall|i: int| 0 <= i < word.len() && 0 <= d + i < to.len() ==> word[i] == #[trigger] to[d + i]
}

/// Whether a word cannot stand in a text so that it overlaps an occurrence of `to`.
pub open spec fn apart(word: Seq<char>, to: Seq<char>) -> bool {
    forall|d: int| -word.len() < d < to.len() ==> !#[trigger] overlays(word, to, d)
}

proof fn lemma_prefix_of_replaced(
    s: Seq<char>,
    p: Seq<char>,
    to: Seq<char>,
    word: Seq<char>,
    j: int,
)
    requires
        to.len() > 0,
        apart(word, to),
        0 <= j <= word.len(),
        starts_with(replace(s, p, to), word.skip(j)),
    ensures
        starts_with(s, word.skip(j)),
    decreases s.len(),
{
    let tail = word.skip(j);
    let out = replace(s, p, to);
    if j == word.len() {
        assert(s.take(0) =~= tail);
    } else if p.len() == 0 || s.len() < p.len() {
    } else if starts_with(s, p) {
        assert forall|i: int| 0 <= i < word.len() && 0 <= -j + i < to.len() implies word[i]
            == #[trigger] to[-j + i] by {
            assert(tail[i - j] == out.take(tail.len() as int)[i - j]);
            assert(out[i - j] == to[i - j]);
        }
        assert(overlays(word, to, -j));
    } else {
        let rest = replace(s.skip(1), p, to);
        let next = word.skip(j + 1);
        assert(out.take(tail.len() as int)[0] == s[0]);
        assert(rest.take(next.len() as int) =~= next) by {
            assert forall|i: int| 0 <= i < next.len() implies rest[i] == next[i] by {
                assert(out.take(tail.len() as int)[i + 1] == tail[i + 1]);
            }
        }
        lemma_prefix_of_replaced(s.skip(1), p, to, word, j + 1);
        assert(s.take(tail.len() as int) =~= tail) by {
            assert forall|i: int| 0 <= i < tail.len() implies s[i] == tail[i] by {
                if i > 0 {
                    assert(s.skip(1).take(next.len() as int)[i - 1] == next[i - 1]);
                }
            }
        }
    }
}

/// A word that cannot overlap the replacement does not come up by replacing: it is
/// gone where it was replaced, and stays away where it was not there.
pub proof fn lemma_replace_keeps_away(s: Seq<char>, p: Seq<char>, to: Seq<char>, word: Seq<char>)
    requires
        word.len() > 0,
        to.len() > 0,
        apart(word, to),
        word == p || !contains(s, word),
    ensures
        !contains(replace(s, p, to), word),
    decreases s.len(),
{
    let out = replace(s, p, to);
    if contains(out, word) {
        let k = choose|k: int| #[trigger] occurs_at(out, word, k);
        if p.len() == 0 || s.len() < p.len() {
            if word == p {
                assert(false);
            }
        } else if starts_with(s, p) {
            let rest = replace(s.skip(p.len() as int), p, to);
            if !(word == p) {
                lemma_away_in_rest(s, word, p.len() as int);
            }
            lemma_replace_keeps_away(s.skip(p.len() as int), p, to, word);
            if k >= to.len() {
                assert(rest.subrange(k - to.len(), k - to.len() + word.len()) =~= word) by {
                    assert forall|i: int| 0 <= i < word.len() implies rest[k - to.len() + i]
                        == word[i] by {
                        assert(out.subrange(k, k + word.len())[i] == word[i]);
                    }
                }
                assert(occurs_at(rest, word, k - to.len()));
            } else {
                assert forall|i: int| 0 <= i < word.len() && 0 <= k + i < to.len() implies word[i]
                    == #[trigger] to[k + i] by {
                    assert(out.subrange(k, k + word.len())[i] == word[i]);
                }
                assert(overlays(word, to, k));
            }
        } else {
            let rest = replace(s.skip(1), p, to);
            if !(word == p) {
                lemma_away_in_rest(s, word, 1);
            }
            lemma_replace_keeps_away(s.skip(1), p, to, word);
            if k >= 1 {
                assert(rest.subrange(k - 1, k - 1 + word.len()) =~= word) by {
                    assert forall|i: int| 0 <= i < word.len() implies rest[k - 1 + i] == word[i] by {
                        assert(out.subrange(k, k + word.len())[i] == word[i]);
                    }
                }
                assert(occurs_at(rest, word, k - 1));
            } else {
                assert(word.skip(0) =~= word);
                assert(out.take(word.len() as int) =~= word) by {
                    assert(out.subrange(0, word.len() as int) == word);
                }
                lemma_prefix_of_replaced(s, p, to, word, 0);
                if !(word == p) {
                    assert(s.subrange(0, word.len() as int) =~= s.take(word.len() as int));
                    assert(occurs_at(s, word, 0));
                }
            }
        }
    }
}

proof fn lemma_away_in_rest(s: Seq<char>, word: Seq<char>, n: int)
    requires
        0 <= n <= s.len(),
        !contains(s, word),
    ensures
        !contains(s.skip(n), word),
{
    if contains(s.skip(n), word) {
        let k = choose|k: int| #[trigger] occurs_at(s.skip(n), word, k);
        assert(s.subrange(n + k, n + k + word.len()) =~= s.skip(n).subrange(k, k + word.len()));
        assert(occurs_at(s, word, n + k));
    }
}

/// `s` with every occurrence of `p`, taken from the left, replaced by `to`.
pub fn replace_str(s: &str, p: &str, to: &str) -> (r: String)
    requires
        p@.len() > 0,
    ensures
        r@ == replace(s@, p@, to@),
{
    let sv = chars_of(s);
    let pv = chars_of(p);
    let mut out = String::new();
    let mut i: usize = 0;
    assert(s@.skip(0) =~= s@);
    assert(out@ + replace(s@, p@, to@) =~= replace(s@, p@, to@));
    while pv.len() <= sv.len() - i
        invariant
            i <= sv@.len(),
            sv@ == s@,
            pv@ == p@,
            p@.len() > 0,
            out@ + replace(s@.skip(i as int), p@, to@) == replace(s@, p@, to@),
        decreases sv@.len() - i,
    {
        let ghost rest = s@.skip(i as int);
        if occurs(&sv, &pv, i) {
            let ghost before = out@;
            out.push_str(to);
            proof {
                assert(rest.subrange(0, p@.len() as int) =~= s@.subrange(i as int, i + p@.len()));
                assert(rest.skip(p@.len() as int) =~= s@.skip(i + p@.len()));
                assert(before + (to@ + replace(s@.skip(i + p@.len()), p@, to@)) =~= out@ + replace(
                    s@.skip(i + p@.len()),
                    p@,
                    to@,
                ));
            }
            i += pv.len();
        } else {
            let ghost before = out@;
            out.push(sv[i]);
            proof {
                if starts_with(rest, p@) {
                    assert(rest.subrange(0, p@.len() as int) =~= s@.subrange(i as int, i + p@.len()));
                }
                assert(rest.skip(1) =~= s@.skip(i + 1));
                assert(before + (seq![rest[0]] + replace(s@.skip(i + 1), p@, to@)) =~= out@
                    + replace(s@.skip(i + 1), p@, to@));
            }
            i += 1;
        }
    }
    let tail = string_of(&sv, i, sv.len());
    assert(tail@ =~= s@.skip(i as int));
    out.push_str(tail.as_str());
    out
}

// ── Whitespace and trimming ────────────────────────────────────────────────

/// The characters with the Unicode property White_Space.
pub open spec fn is_space(c: char) -> bool {
    ||| 0x9 <= c as u32 <= 0xd
    ||| c as u32 == 0x20
    ||| c as u32 == 0x85
    ||| c as u32 == 0xa0
    ||| c as u32 == 0x1680
    ||| 0x2000 <= c as u32 <= 0x200a
    ||| c as u32 == 0x2028
    ||| c as u32 == 0x2029
    ||| c as u32 == 0x202f
    ||| c as u32 == 0x205f
    ||| c as u32 == 0x3000
}

/// Whether `c` is white space.
pub fn space(c: char) -> (r: bool)
    ensures
        r == is_space(c),
{
    let n: u32 = c as u32;
    (0x9 <= n && n <= 0xd) || n == 0x20 || n == 0x85 || n == 0xa0 || n == 0x1680 || (0x2000 <= n
        && n <= 0x200a) || n == 0x2028 || n == 0x2029 || n == 0x202f || n == 0x205f || n == 0x3000
}

/// `s` without leading white space.
pub open spec fn trim_start(s: Seq<char>) -> Seq<char>
    decreases s.len(),
{
    if s.len() > 0 && is_space(s[0]) {
        trim_start(s.skip(1))
    } else {
        s
    }
}

/// `s` without trailing white space.
pub open spec fn trim_end(s: Seq<char>) -> Seq<char>
    decreases s.len(),
{
    if s.len() > 0 && is_space(s.last()) {
        trim_end(s.drop_last())
    } else {
        s
    }
}

/// `s` without leading and trailing white space.
pub open spec fn trim(s: Seq<char>) -> Seq<char> {
    trim_end(trim_start(s))
}

fn space_prefix(v: &Vec<char>) -> (r: usize)
    ensures
        r <= v@.len(),
        trim_start(v@) == v@.skip(r as int),
{
    let mut i: usize = 0;
    assert(v@.skip(0) =~= v@);
    while i < v.len() && space(v[i])
        invariant
            i <= v@.len(),
            trim_start(v@) == trim_start(v@.skip(i as int)),
        decreases v@.len() - i,
    {
        assert(v@.skip(i as int).skip(1) =~= v@.skip(i + 1));
        i += 1;
    }
    i
}

fn space_suffix(v: &Vec<char>, from: usize) -> (r: usize)
    requires
        from <= v@.len(),
    ensures
        from <= r <= v@.len(),
        trim_end(v@.skip(from as int)) == v@.subrange(from as int, r as int),
{
    let mut i: usize = v.len();
    assert(v@.skip(from as int) =~= v@.subrange(from as int, i as int));
    while i > from && space(v[i - 1])
        invariant
            from <= i <= v@.len(),
            trim_end(v@.skip(from as int)) == trim_end(v@.subrange(from as int, i as int)),
        decreases i,
    {
        assert(v@.subrange(from as int, i as int).drop_last() =~= v@.subrange(from as int, i - 1));
        i -= 1;
    }
    i
}

pub fn trim_str(s: &str) -> (r: String)
    ensures
        r@ == trim(s@),
{
    let v = chars_of(s);
    let a = space_prefix(&v);
    let b = space_suffix(&v, a);
    string_of(&v, a, b)
}

// ── Lines ──────────────────────────────────────────────────────────────────

/// The first place at or after `i` that holds `c`, or the length of `s`.
pub open spec fn char_from(s: Seq<char>, c: char, i: int) -> int
    decreases s.len() - i,
{
    if i >= s.len() {
        s.len() as int
    } else if s[i] == c {
        i
    } else {
        char_from(s, c, i + 1)
    }
}

pub proof fn lemma_char_from(s: Seq<char>, c: char, i: int)
    requires
        0 <= i <= s.len(),
    ensures
        i <= char_from(s, c, i) <= s.len(),
        char_from(s, c, i) < s.len() ==> s[char_from(s, c, i)] == c,
        forall|j: int| i <= j < char_from(s, c, i) ==> s[j] != c,
    decreases s.len() - i,
{
    if i < s.len() && s[i] != c {
        lemma_char_from(s, c, i + 1);
    }
}

/// The first place at or after `from` that holds `c`, or the length of `v`.
pub fn find_char(v: &Vec<char>, c: char, from: usize) -> (r: usize)
    requires
        from <= v@.len(),
    ensures
        r == char_from(v@, c, from as int),
        from <= r <= v@.len(),
        r < v@.len() ==> v@[r as int] == c,
{
    let mut i: usize = from;
    while i < v.len() && v[i] != c
        invariant
            from <= i <= v@.len(),
            char_from(v@, c, from as int) == char_from(v@, c, i as int),
        decreases v@.len() - i,
    {
        i += 1;
    }
    i
}

/// `s` without one trailing carriage return.
pub open spec fn strip_cr(s: Seq<char>) -> Seq<char> {
    if s.len() > 0 && s.last() == '\r' {
        s.drop_last()
    } else {
        s
    }
}

/// The lines of `s` from place `i` on: each ends at a line feed, which is
/// dropped with one carriage return before it; what follows the last line feed
/// is a line unless it is empty.
pub open spec fn lines_from(s: Seq<char>, i: int) -> Seq<Seq<char>>
    decreases s.len() - i,
    when 0 <= i
{
    if i >= s.len() {
        Seq::empty()
    } else {
        let k = char_from(s, '\n', i);
        if k >= s.len() {
            seq![s.subrange(i, s.len() as int)]
        } else if k < i {
            Seq::empty()
        } else {
            seq![strip_cr(s.subrange(i, k))] + lines_from(s, k + 1)
        }
    }
}

/// The lines of `s`.
pub open spec fn lines(s: Seq<char>) -> Seq<Seq<char>> {
    lines_from(s, 0)
}

/// The views of the items of a sequence.
pub open spec fn views<T: View>(v: Seq<T>) -> Seq<T::V> {
    v.map_values(|t: T| t@)
}

/// The lines of `s`.
pub fn lines_of(s: &str) -> (r: Vec<String>)
    ensures
        views(r@) == lines(s@),
{
    let v = chars_of(s);
    let mut out: Vec<String> = Vec::new();
    let mut i: usize = 0;
    assert(views(out@) + lines(s@) =~= lines(s@));
    while i < v.len()
        invariant
            i <= v@.len(),
            v@ == s@,
            views(out@) + lines_from(s@, i as int) == lines(s@),
        decreases v@.len() - i,
    {
        let k = find_char(&v, '\n', i);
        let ghost before = views(out@);
        if k == v.len() {
            let line = string_of(&v, i, k);
            out.push(line);
            proof {
                assert(views(out@) =~= before + seq![s@.subrange(i as int, s@.len() as int)]);
                assert(views(out@) + lines_from(s@, k as int) =~= views(out@));
            }
            i = k;
        } else {
            let mut end: usize = k;
            if end > i && v[end - 1] == '\r' {
                end -= 1;
                assert(s@.subrange(i as int, k as int).drop_last() =~= s@.subrange(i as int, end as int));
            }
            let line = string_of(&v, i, end);
            out.push(line);
            proof {
                assert(views(out@) =~= before + seq![strip_cr(s@.subrange(i as int, k as int))]);
                assert(before + (seq![strip_cr(s@.subrange(i as int, k as int))] + lines_from(s@, k + 1))
                    =~= views(out@) + lines_from(s@, k + 1));
            }
            i = k + 1;
        }
    }
    assert(views(out@) + lines_from(s@, i as int) =~= views(out@));
    out
}

// ── Joining ────────────────────────────────────────────────────────────────

/// The parts in order, with `sep` between each two.
pub open spec fn join(parts: Seq<Seq<char>>, sep: Seq<char>) -> Seq<char>
    decreases parts.len(),
{
    if parts.len() == 0 {
        Seq::empty()
    } else if parts.len() == 1 {
        parts[0]
    } else {
        join(parts.drop_last(), sep) + sep + parts.last()
    }
}

/// The parts in order, with `sep` between each two.
pub fn join_strs(parts: &Vec<String>, sep: &str) -> (r: String)
    ensures
        r@ == join(views(parts@), sep@),
{
    let mut out = String::new();
    let mut i: usize = 0;
    while i < parts.len()
        invariant
            i <= parts@.len(),
            out@ == join(views(parts@).take(i as int), sep@),
        decreases parts@.len() - i,
    {
        proof {
            assert(views(parts@).take(i + 1).drop_last() =~= views(parts@).take(i as int));
        }
        if i > 0 {
            out.push_str(sep);
        }
        let ghost mid = out@;
        out.push_str(parts[i].as_str());
        proof {
            if i == 0 {
                assert(out@ =~= parts@[0]@);
            }
        }
        i += 1;
    }
    assert(views(parts@).take(i as int) =~= views(parts@));
    out
}

// ── Numbers ────────────────────────────────────────────────────────────────

pub open spec fn digit(d: int) -> char {
    ('0' as int + d) as char
}

/// The decimal text of a natural number.
pub open spec fn decimal(n: nat) -> Seq<char>
    decreases n,
{
    if n < 10 {
        seq![digit(n as int)]
    } else {
        decimal(n / 10).push(digit((n % 10) as int))
    }
}

/// The decimal text of an integer.
pub open spec fn signed_decimal(n: int) -> Seq<char> {
    if n < 0 {
        seq!['-'] + decimal((-n) as nat)
    } else {
        decimal(n as nat)
    }
}

fn digit_char(d: u64) -> (r: char)
    requires
        d < 10,
    ensures
        r == digit(d as int),
{
    match d {
        0 => '0',
        1 => '1',
        2 => '2',
        3 => '3',
        4 => '4',
        5 => '5',
        6 => '6',
        7 => '7',
        8 => '8',
        _ => '9',
    }
}

/// The decimal text of `n`.
pub fn decimal_of(n: u64) -> (r: String)
    ensures
        r@ == decimal(n as nat),
    decreases n,
{
    if n < 10 {
        let mut out = String::new();
        out.push(digit_char(n));
        assert(out@ =~= seq![digit(n as int)]);
        out
    } else {
        let mut out = decimal_of(n / 10);
        out.push(digit_char(n % 10));
        out
    }
}

/// The decimal text of `n`, with its sign where it is negative.
pub fn signed_decimal_of(n: i64) -> (r: String)
    ensures
        r@ == signed_decimal(n as int),
{
    if n >= 0 {
        return decimal_of(n as u64);
    }
    let size: u64 = if n == i64::MIN {
        9_223_372_036_854_775_808
    } else {
        (-n) as u64
    };
    let mut out = "-".to_owned();
    let digits = decimal_of(size);
    out.push_str(digits.as_str());
    proof {
        reveal_strlit("-");
        assert("-"@ =~= seq!['-']);
    }
    out
}

// ── Bytes ──────────────────────────────────────────────────────────────────

/// How many bytes a character takes in UTF-8.
pub open spec fn char_width(c: char) -> nat {
    if (c as u32) < 0x80 {
        1
    } else if (c as u32) < 0x800 {
        2
    } else if (c as u32) < 0x10000 {
        3
    } else {
        4
    }
}

/// How many bytes a text takes in UTF-8.
pub open spec fn byte_len(s: Seq<char>) -> nat
    decreases s.len(),
{
    if s.len() == 0 {
        0
    } else {
        byte_len(s.drop_last()) + char_width(s.last())
    }
}

/// The bytes of two parts add up.
pub proof fn lemma_byte_len_concat(a: Seq<char>, b: Seq<char>)
    ensures
        byte_len(a + b) == byte_len(a) + byte_len(b),
    decreases b.len(),
{
    if b.len() == 0 {
        assert(a + b =~= a);
    } else {
        assert((a + b).drop_last() =~= a + b.drop_last());
        lemma_byte_len_concat(a, b.drop_last());
    }
}

/// A longer prefix takes more bytes.
pub proof fn lemma_byte_len_monotone(s: Seq<char>, i: int, j: int)
    requires
        0 <= i <= j <= s.len(),
    ensures
        byte_len(s.take(i)) + (j - i) <= byte_len(s.take(j)),
    decreases j - i,
{
    if i < j {
        lemma_byte_len_monotone(s, i, j - 1);
        assert(s.take(j).drop_last() =~= s.take(j - 1));
    }
}

/// The UTF-8 encoding of a text has that many bytes.
pub proof fn lemma_byte_len_is_encoded_len(s: Seq<char>)
    ensures
        vstd::utf8::encode_utf8(s).len() == byte_len(s),
    decreases s.len(),
{
    if s.len() > 0 {
        lemma_byte_len_is_encoded_len(s.drop_first());
        assert(seq![s[0]] + s.drop_first() =~= s);
        lemma_byte_len_concat(seq![s[0]], s.drop_first());
        assert(seq![s[0]].drop_last() =~= Seq::empty());
        assert(byte_len(Seq::<char>::empty()) == 0);
        assert(byte_len(seq![s[0]]) == char_width(s[0]));
        vstd::utf8::char_is_scalar(s[0]);
    }
}

/// The most leading characters of `s` that fit in `n` bytes.
pub open spec fn fitting(s: Seq<char>, n: int) -> int
    decreases s.len(),
{
    if s.len() == 0 || byte_len(s) <= n {
        s.len() as int
    } else {
        fitting(s.drop_last(), n)
    }
}

/// The fewest leading characters of `s` that take at least `n` bytes, or all of
/// them.
pub open spec fn reaching(s: Seq<char>, n: int) -> int
    decreases s.len(),
{
    if s.len() == 0 || byte_len(s.drop_last()) < n {
        s.len() as int
    } else {
        reaching(s.drop_last(), n)
    }
}

/// How many bytes a character takes in UTF-8.
pub fn width_of(c: char) -> (r: usize)
    ensures
        r == char_width(c),
        1 <= r <= 4,
{
    let n: u32 = c as u32;
    if n < 0x80 {
        1
    } else if n < 0x800 {
        2
    } else if n < 0x10000 {
        3
    } else {
        4
    }
}

/// The length of `s` in bytes.
pub fn bytes_in(s: &str) -> (r: usize)
    ensures
        r == byte_len(s@),
{
    proof {
        lemma_byte_len_is_encoded_len(s@);
    }
    s.as_bytes().len()
}

proof fn lemma_fitting(s: Seq<char>, n: int, k: int)
    requires
        0 <= k <= s.len(),
        byte_len(s.take(k)) <= n || k == 0,
        k < s.len() ==> byte_len(s.take(k + 1)) > n,
    ensures
        fitting(s, n) == k,
    decreases s.len(),
{
    if k == s.len() {
        assert(s.take(k) =~= s);
    } else {
        lemma_byte_len_monotone(s, k + 1, s.len() as int);
        assert(s.take(s.len() as int) =~= s);
        assert(s.drop_last().take(k) =~= s.take(k));
        if k < s.drop_last().len() {
            assert(s.drop_last().take(k + 1) =~= s.take(k + 1));
        }
        lemma_fitting(s.drop_last(), n, k);
    }
}

proof fn lemma_reaching(s: Seq<char>, n: int, k: int)
    requires
        0 <= k <= s.len(),
        k > 0 ==> byte_len(s.take(k - 1)) < n,
        k < s.len() ==> byte_len(s.take(k)) >= n,
    ensures
        reaching(s, n) == k,
    decreases s.len(),
{
    if k == s.len() {
        if k > 0 {
            assert(s.take(k - 1) =~= s.drop_last());
        }
    } else {
        lemma_byte_len_monotone(s, k, s.len() - 1);
        assert(s.take(s.len() - 1) =~= s.drop_last());
        if k > 0 {
            assert(s.drop_last().take(k - 1) =~= s.take(k - 1));
        }
        assert(s.drop_last().take(k) =~= s.take(k));
        lemma_reaching(s.drop_last(), n, k);
    }
}

/// The most leading characters of `v` that fit in `n` bytes, and the bytes that
/// they take. `total` is the length of `v` in bytes.
pub fn fit_prefix(v: &Vec<char>, total: usize, n: usize) -> (r: (usize, usize))
    requires
        total == byte_len(v@),
    ensures
        r.0 <= v@.len(),
        r.0 == fitting(v@, n as int),
        r.1 == byte_len(v@.take(r.0 as int)),
{
    let mut k: usize = 0;
    let mut used: usize = 0;
    while k < v.len()
        invariant_except_break
            k <= v@.len(),
            total == byte_len(v@),
            used == byte_len(v@.take(k as int)),
            used <= n,
        ensures
            k <= v@.len(),
            used == byte_len(v@.take(k as int)),
            used <= n || k == 0,
            k < v@.len() ==> byte_len(v@.take(k + 1)) > n,
        decreases v@.len() - k,
    {
        let w = width_of(v[k]);
        proof {
            assert(v@.take(k + 1).drop_last() =~= v@.take(k as int));
            lemma_byte_len_monotone(v@, k + 1, v@.len() as int);
            assert(v@.take(v@.len() as int) =~= v@);
        }
        if used + w > n {
            break;
        }
        used += w;
        k += 1;
    }
    proof {
        lemma_fitting(v@, n as int, k as int);
    }
    (k, used)
}

/// The fewest leading characters of `v` that take at least `n` bytes, and the
/// bytes that they take. `total` is the length of `v` in bytes.
pub fn reach_prefix(v: &Vec<char>, total: usize, n: usize) -> (r: (usize, usize))
    requires
        total == byte_len(v@),
    ensures
        r.0 <= v@.len(),
        r.0 == reaching(v@, n as int),
        r.1 == byte_len(v@.take(r.0 as int)),
{
    let mut k: usize = 0;
    let mut used: usize = 0;
    while k < v.len() && used < n
        invariant
            k <= v@.len(),
            total == byte_len(v@),
            used == byte_len(v@.take(k as int)),
            k > 0 ==> byte_len(v@.take(k - 1)) < n,
        decreases v@.len() - k,
    {
        let w = width_of(v[k]);
        proof {
            assert(v@.take(k + 1).drop_last() =~= v@.take(k as int));
            lemma_byte_len_monotone(v@, k + 1, v@.len() as int);
            assert(v@.take(v@.len() as int) =~= v@);
        }
        used += w;
        k += 1;
    }
    proof {
        lemma_reaching(v@, n as int, k as int);
    }
    (k, used)
}

// ── Order ──────────────────────────────────────────────────────────────────

/// Whether `a` comes before `b` in the order of `str`: the first place where
/// they differ decides, and a text comes before its own continuations.
pub open spec fn text_before(a: Seq<char>, b: Seq<char>) -> bool
    decreases b.len(),
{
    if b.len() == 0 {
        false
    } else if a.len() == 0 {
        true
    } else if a[0] != b[0] {
        (a[0] as int) < (b[0] as int)
    } else {
        text_before(a.skip(1), b.skip(1))
    }
}

pub proof fn lemma_text_before_total(a: Seq<char>, b: Seq<char>)
    ensures
        text_before(a, b) || text_before(b, a) || a == b,
        !(text_before(a, b) && text_before(b, a)),
        a == b ==> !text_before(a, b),
    decreases b.len(),
{
    if a.len() > 0 && b.len() > 0 && a[0] == b[0] {
        lemma_text_before_total(a.skip(1), b.skip(1));
        assert(a =~= seq![a[0]] + a.skip(1));
        assert(b =~= seq![b[0]] + b.skip(1));
    } else if a.len() == 0 && b.len() == 0 {
        assert(a =~= b);
    }
}

pub proof fn lemma_text_before_transitive(a: Seq<char>, b: Seq<char>, c: Seq<char>)
    requires
        text_before(a, b),
        text_before(b, c),
    ensures
        text_before(a, c),
    decreases c.len(),
{
    if a.len() > 0 && b.len() > 0 && c.len() > 0 && a[0] == b[0] && b[0] == c[0] {
        lemma_text_before_transitive(a.skip(1), b.skip(1), c.skip(1));
    }
}

/// Whether `a` comes before `b` in the order of `str`.
pub fn comes_before(a: &str, b: &str) -> (r: bool)
    ensures
        r == text_before(a@, b@),
{
    let x = chars_of(a);
    let y = chars_of(b);
    let mut i: usize = 0;
    assert(a@.skip(0) =~= a@);
    assert(b@.skip(0) =~= b@);
    while i < x.len() && i < y.len() && x[i] == y[i]
        invariant
            i <= x@.len(),
            i <= y@.len(),
            x@ == a@,
            y@ == b@,
            text_before(a@, b@) == text_before(a@.skip(i as int), b@.skip(i as int)),
        decreases x@.len() - i,
    {
        proof {
            assert(a@.skip(i as int).skip(1) =~= a@.skip(i + 1));
            assert(b@.skip(i as int).skip(1) =~= b@.skip(i + 1));
        }
        i += 1;
    }
    if i >= y.len() {
        false
    } else if i >= x.len() {
        true
    } else {
        x[i] < y[i]
    }
}

// ── Lower case ─────────────────────────────────────────────────────────────

/// What `str::to_lowercase` gives.
pub uninterp spec fn lowercase(s: Seq<char>) -> Seq<char>;

/// The lower-case form of an ASCII letter; any other character stays.
pub open spec fn ascii_lower(c: char) -> char {
    if 'A' <= c && c <= 'Z' {
        (c as int + 32) as char
    } else {
        c
    }
}

/// Each ASCII letter in lower case.
pub open spec fn ascii_lowercase(s: Seq<char>) -> Seq<char> {
    s.map_values(|c: char| ascii_lower(c))
}

/// `str::to_lowercase`: the lower-case equivalent of a text under Unicode's
/// mapping. On a text of ASCII characters it lowers the letters.
#[verifier::external_body]
pub(crate) fn lowercase_of(s: &str) -> (r: String)
    ensures
        r@ == lowercase(s@),
        (forall|i: int| 0 <= i < s@.len() ==> (#[trigger] s@[i] as int) < 128) ==> r@
            == ascii_lowercase(s@),
{
    s.to_lowercase()
}

fn lower_char(c: char) -> (r: char)
    ensures
        r == ascii_lower(c),
{
    match c {
        'A' => 'a',
        'B' => 'b',
        'C' => 'c',
        'D' => 'd',
        'E' => 'e',
        'F' => 'f',
        'G' => 'g',
        'H' => 'h',
        'I' => 'i',
        'J' => 'j',
        'K' => 'k',
        'L' => 'l',
        'M' => 'm',
        'N' => 'n',
        'O' => 'o',
        'P' => 'p',
        'Q' => 'q',
        'R' => 'r',
        'S' => 's',
        'T' => 't',
        'U' => 'u',
        'V' => 'v',
        'W' => 'w',
        'X' => 'x',
        'Y' => 'y',
        'Z' => 'z',
        _ => c,
    }
}

/// Each ASCII letter in lower case.
pub fn ascii_lowercase_of(s: &str) -> (r: String)
    ensures
        r@ == ascii_lowercase(s@),
{
    let v = chars_of(s);
    let mut out = String::new();
    let mut i: usize = 0;
    assert(out@ =~= ascii_lowercase(s@).take(0));
    while i < v.len()
        invariant
            i <= v@.len(),
            v@ == s@,
            out@ == ascii_lowercase(s@).take(i as int),
        decreases v@.len() - i,
    {
        out.push(lower_char(v[i]));
        assert(out@ =~= ascii_lowercase(s@).take(i + 1));
        i += 1;
    }
    assert(ascii_lowercase(s@).take(i as int) =~= ascii_lowercase(s@));
    out
}

// ── Words ──────────────────────────────────────────────────────────────────

/// How many maximal runs of characters other than whitespace a text has.
pub open spec fn words(s: Seq<char>) -> nat
    decreases s.len(),
{
    if s.len() == 0 {
        0
    } else {
        words(s.drop_last()) + (if !is_space(s.last()) && (s.len() == 1 || is_space(
            s[s.len() - 2],
        )) {
            1nat
        } else {
            0nat
        })
    }
}

/// Each word but the last is followed by whitespace.
pub proof fn lemma_words_bound(s: Seq<char>)
    ensures
        2 * words(s) <= s.len() + 1,
        s.len() > 0 && is_space(s.last()) ==> 2 * words(s) <= s.len(),
    decreases s.len(),
{
    if s.len() > 0 {
        lemma_words_bound(s.drop_last());
        if s.len() > 1 {
            assert(s.drop_last().last() == s[s.len() - 2]);
        }
    }
}

/// How many words a text has.
pub fn count_words(s: &str) -> (r: usize)
    ensures
        r == words(s@),
{
    let v = chars_of(s);
    let mut n: usize = 0;
    let mut i: usize = 0;
    while i < v.len()
        invariant
            i <= v@.len(),
            v@ == s@,
            n == words(s@.take(i as int)),
            n <= i,
        decreases v@.len() - i,
    {
        assert(s@.take(i + 1).drop_last() =~= s@.take(i as int));
        if !space(v[i]) && (i == 0 || space(v[i - 1])) {
            n += 1;
        }
        i += 1;
    }
    assert(s@.take(i as int) =~= s@);
    n
}

/// The words of a text, in order.
pub open spec fn word_list(s: Seq<char>) -> Seq<Seq<char>>
    decreases s.len(),
{
    if s.len() == 0 {
        Seq::empty()
    } else if is_space(s[0]) {
        word_list(s.skip(1))
    } else {
        proof {
            lemma_word_end(s, 0);
        }
        seq![s.take(word_end(s, 0))] + word_list(s.skip(word_end(s, 0)))
    }
}

/// Where the word that place `i` stands in ends; after at least one character.
pub open spec fn word_end(s: Seq<char>, i: int) -> int
    decreases s.len() - i,
{
    if i < 0 || i + 1 >= s.len() {
        s.len() as int
    } else if is_space(s[i + 1]) {
        i + 1
    } else {
        word_end(s, i + 1)
    }
}

pub proof fn lemma_word_end(s: Seq<char>, i: int)
    requires
        0 <= i < s.len(),
    ensures
        i < word_end(s, i) <= s.len(),
    decreases s.len() - i,
{
    if i + 1 < s.len() && !is_space(s[i + 1]) {
        lemma_word_end(s, i + 1);
    }
}

proof fn lemma_word_end_skip(s: Seq<char>, from: int, i: int)
    requires
        0 <= from <= i < s.len(),
    ensures
        word_end(s.skip(from), i - from) == word_end(s, i) - from,
    decreases s.len() - i,
{
    if i + 1 < s.len() {
        assert(s.skip(from)[i - from + 1] == s[i + 1]);
        if !is_space(s[i + 1]) {
            lemma_word_end_skip(s, from, i + 1);
        }
    }
}

/// The words of a text, in order.
pub fn words_of(s: &str) -> (r: Vec<String>)
    ensures
        views(r@) == word_list(s@),
{
    let v = chars_of(s);
    let mut out: Vec<String> = Vec::new();
    let mut i: usize = 0;
    assert(s@.skip(0) =~= s@);
    assert(views(out@) + word_list(s@) =~= word_list(s@));
    while i < v.len()
        invariant
            i <= v@.len(),
            v@ == s@,
            views(out@) + word_list(s@.skip(i as int)) == word_list(s@),
        decreases v@.len() - i,
    {
        let ghost rest = s@.skip(i as int);
        assert(rest[0] == v@[i as int]);
        if space(v[i]) {
            assert(rest.skip(1) =~= s@.skip(i + 1));
            i += 1;
        } else {
            let start: usize = i;
            let mut end: usize = i + 1;
            assert(word_end(s@, i as int) == word_end(s@, end - 1));
            while end < v.len() && !space(v[end])
                invariant
                    start < end <= v@.len(),
                    v@ == s@,
                    word_end(s@, start as int) == word_end(s@, end - 1),
                decreases v@.len() - end,
            {
                end += 1;
            }
            let word = string_of(&v, start, end);
            let ghost before = views(out@);
            out.push(word);
            proof {
                lemma_word_end_skip(s@, start as int, start as int);
                assert(word_end(rest, 0) == end - start);
                assert(rest.take(end - start) =~= word@);
                assert(rest.skip(end - start) =~= s@.skip(end as int));
                assert(views(out@) =~= before.push(word@));
                assert(before + (seq![word@] + word_list(s@.skip(end as int))) =~= views(out@)
                    + word_list(s@.skip(end as int)));
            }
            i = end;
        }
    }
    assert(views(out@) + word_list(s@.skip(i as int)) =~= views(out@));
    out
}

// ── Splitting ──────────────────────────────────────────────────────────────

/// The parts of a text between the occurrences of a character.
pub open spec fn split(s: Seq<char>, c: char) -> Seq<Seq<char>>
    decreases s.len(),
{
    let k = char_from(s, c, 0);
    if k >= s.len() || k < 0 {
        seq![s]
    } else {
        seq![s.take(k)] + split(s.skip(k + 1), c)
    }
}

proof fn lemma_char_from_skip(s: Seq<char>, c: char, from: int, i: int)
    requires
        0 <= from <= i <= s.len(),
    ensures
        char_from(s.skip(from), c, i - from) == char_from(s, c, i) - from,
    decreases s.len() - i,
{
    if i < s.len() {
        assert(s.skip(from)[i - from] == s[i]);
        if s[i] != c {
            lemma_char_from_skip(s, c, from, i + 1);
        }
    }
}

/// The parts of a text between the occurrences of a character.
pub fn split_char(s: &str, c: char) -> (r: Vec<String>)
    ensures
        views(r@) == split(s@, c),
        r@.len() > 0,
{
    let v = chars_of(s);
    let mut out: Vec<String> = Vec::new();
    let mut i: usize = 0;
    assert(s@.skip(0) =~= s@);
    assert(views(out@) + split(s@, c) =~= split(s@, c));
    loop
        invariant
            i <= v@.len(),
            v@ == s@,
            views(out@) + split(s@.skip(i as int), c) == split(s@, c),
        decreases v@.len() - i,
    {
        let k: usize = find_char(&v, c, i);
        let part = string_of(&v, i, k);
        let ghost before = views(out@);
        let ghost rest = s@.skip(i as int);
        proof {
            lemma_char_from(s@, c, i as int);
            lemma_char_from_skip(s@, c, i as int, i as int);
        }
        out.push(part);
        proof {
            assert(views(out@) =~= before.push(part@));
            assert(rest.take(k - i) =~= part@);
        }
        if k >= v.len() {
            proof {
                assert(rest =~= part@);
                assert(before + seq![part@] =~= views(out@));
            }
            return out;
        }
        proof {
            assert(rest.skip(k - i + 1) =~= s@.skip(k + 1));
            assert(before + (seq![part@] + split(s@.skip(k + 1), c)) =~= views(out@) + split(
                s@.skip(k + 1),
                c,
            ));
        }
        i = k + 1;
    }
}

/// A text without the occurrences of `c` at its start.
pub open spec fn trim_start_char(s: Seq<char>, c: char) -> Seq<char>
    decreases s.len(),
{
    if s.len() > 0 && s[0] == c {
        trim_start_char(s.skip(1), c)
    } else {
        s
    }
}

/// A text without the occurrences of `c` at its end.
pub open spec fn trim_end_char(s: Seq<char>, c: char) -> Seq<char>
    decreases s.len(),
{
    if s.len() > 0 && s.last() == c {
        trim_end_char(s.drop_last(), c)
    } else {
        s
    }
}

/// A text without the occurrences of `c` at both ends.
pub open spec fn trim_char(s: Seq<char>, c: char) -> Seq<char> {
    trim_end_char(trim_start_char(s, c), c)
}

/// A text without the occurrences of `c` at its start.
pub fn trim_start_char_str(s: &str, c: char) -> (r: String)
    ensures
        r@ == trim_start_char(s@, c),
{
    let v = chars_of(s);
    let mut i: usize = 0;
    assert(s@.skip(0) =~= s@);
    while i < v.len() && v[i] == c
        invariant
            i <= v@.len(),
            v@ == s@,
            trim_start_char(s@, c) == trim_start_char(s@.skip(i as int), c),
        decreases v@.len() - i,
    {
        assert(s@.skip(i as int).skip(1) =~= s@.skip(i + 1));
        i += 1;
    }
    let out = string_of(&v, i, v.len());
    assert(out@ =~= s@.skip(i as int));
    out
}

/// A text without the occurrences of `c` at both ends.
pub fn trim_char_str(s: &str, c: char) -> (r: String)
    ensures
        r@ == trim_char(s@, c),
{
    let front = trim_start_char_str(s, c);
    let v = chars_of(front.as_str());
    let ghost f = front@;
    let mut n: usize = v.len();
    assert(f.take(n as int) =~= f);
    while n > 0 && v[n - 1] == c
        invariant
            n <= v@.len(),
            v@ == f,
            trim_end_char(f, c) == trim_end_char(f.take(n as int), c),
        decreases n,
    {
        assert(f.take(n as int).last() == v@[n - 1]);
        assert(f.take(n as int).drop_last() =~= f.take(n - 1));
        n -= 1;
    }
    let out = string_of(&v, 0, n);
    assert(out@ =~= f.take(n as int));
    proof {
        if n > 0 {
            assert(f.take(n as int).last() == v@[n - 1]);
        }
    }
    out
}

/// A text without the occurrences of `c` at its end.
pub fn trim_end_char_str(s: &str, c: char) -> (r: String)
    ensures
        r@ == trim_end_char(s@, c),
{
    let v = chars_of(s);
    let mut n: usize = v.len();
    assert(s@.take(n as int) =~= s@);
    while n > 0 && v[n - 1] == c
        invariant
            n <= v@.len(),
            v@ == s@,
            trim_end_char(s@, c) == trim_end_char(s@.take(n as int), c),
        decreases n,
    {
        assert(s@.take(n as int).drop_last() =~= s@.take(n - 1));
        n -= 1;
    }
    let out = string_of(&v, 0, n);
    assert(out@ =~= s@.take(n as int));
    out
}

} // verus!
