//! Laws of texts: joining, splitting, trimming, replacing and counting.
use crate::text;
use vstd::prelude::*;

verus! {

/// What a part holds, the whole holds.
pub proof fn law_contained_in_a_part(a: Seq<char>, b: Seq<char>, p: Seq<char>)
    ensures
        text::contains(a, p) ==> text::contains(a + b, p),
        text::contains(b, p) ==> text::contains(a + b, p),
        text::contains(p, p),
{
    if text::contains(a, p) {
        let i = choose|i: int| #[trigger] text::occurs_at(a, p, i);
        assert((a + b).subrange(i, i + p.len()) =~= a.subrange(i, i + p.len()));
        assert(text::occurs_at(a + b, p, i));
    }
    if text::contains(b, p) {
        let i = choose|i: int| #[trigger] text::occurs_at(b, p, i);
        let n = a.len() as int;
        assert((a + b).subrange(n + i, n + i + p.len()) =~= b.subrange(i, i + p.len()));
        assert(text::occurs_at(a + b, p, n + i));
    }
    assert(p.subrange(0, p.len() as int) =~= p);
    assert(text::occurs_at(p, p, 0));
}

/// What holds something, holds what that holds.
pub proof fn law_containment_is_transitive(a: Seq<char>, b: Seq<char>, c: Seq<char>)
    requires
        text::contains(a, b),
        text::contains(b, c),
    ensures
        text::contains(a, c),
{
    let i = choose|i: int| #[trigger] text::occurs_at(a, b, i);
    let j = choose|j: int| #[trigger] text::occurs_at(b, c, j);
    assert(a.subrange(i + j, i + j + c.len()) =~= b.subrange(j, j + c.len())) by {
        assert(b =~= a.subrange(i, i + b.len()));
    }
    assert(text::occurs_at(a, c, i + j));
}

/// A joined text holds every part.
pub proof fn law_join_holds_every_part(parts: Seq<Seq<char>>, sep: Seq<char>, i: int)
    requires
        0 <= i < parts.len(),
    ensures
        text::contains(text::join(parts, sep), parts[i]),
    decreases parts.len(),
{
    let r = text::join(parts, sep);
    if parts.len() == 1 {
        law_contained_in_a_part(Seq::empty(), Seq::empty(), parts[0]);
    } else {
        let front = parts.drop_last();
        let head = text::join(front, sep) + sep;
        assert(r == head + parts.last());
        if i < front.len() {
            law_join_holds_every_part(front, sep, i);
            assert(front[i] == parts[i]);
            law_contained_in_a_part(text::join(front, sep), sep, parts[i]);
            law_contained_in_a_part(head, parts.last(), parts[i]);
        } else {
            law_contained_in_a_part(head, parts.last(), parts[i]);
            law_contained_in_a_part(Seq::empty(), Seq::empty(), parts[i]);
        }
    }
}

/// One part stands alone, and one more stands behind a separator.
pub proof fn law_join_adds_at_the_end(parts: Seq<Seq<char>>, sep: Seq<char>, p: Seq<char>)
    ensures
        text::join(Seq::empty(), sep).len() == 0,
        parts.len() == 0 ==> text::join(parts.push(p), sep) == p,
        parts.len() > 0 ==> text::join(parts.push(p), sep) == text::join(parts, sep) + sep + p,
{
    assert(parts.push(p).drop_last() =~= parts);
}

proof fn lemma_join_front(p: Seq<char>, rest: Seq<Seq<char>>, sep: Seq<char>)
    requires
        rest.len() > 0,
    ensures
        text::join(seq![p] + rest, sep) == p + sep + text::join(rest, sep),
    decreases rest.len(),
{
    let all = seq![p] + rest;
    if rest.len() == 1 {
        assert(all.drop_last() =~= seq![p]);
        assert(text::join(seq![p], sep) == p);
    } else {
        assert(all.drop_last() =~= seq![p] + rest.drop_last());
        lemma_join_front(p, rest.drop_last(), sep);
        assert(p + sep + text::join(rest.drop_last(), sep) + sep + rest.last() =~= p + sep + (
        text::join(rest.drop_last(), sep) + sep + rest.last()));
    }
}

/// A text that is split at a character is put together again with it, and no piece holds
/// the character.
pub proof fn law_split_and_join(s: Seq<char>, c: char)
    ensures
        text::split(s, c).len() > 0,
        text::join(text::split(s, c), seq![c]) == s,
        forall|i: int|
            0 <= i < text::split(s, c).len() ==> !(#[trigger] text::split(s, c)[i]).contains(c),
    decreases s.len(),
{
    text::lemma_char_from(s, c, 0);
    let k = text::char_from(s, c, 0);
    if k >= s.len() {
        assert(text::join(seq![s], seq![c]) == s);
        assert forall|j: int| 0 <= j < s.len() implies s[j] != c by {}
    } else {
        let rest = s.skip(k + 1);
        law_split_and_join(rest, c);
        lemma_join_front(s.take(k), text::split(rest, c), seq![c]);
        assert(s.take(k) + seq![c] + rest =~= s);
        let all = text::split(s, c);
        assert forall|i: int| 0 <= i < all.len() implies !(#[trigger] all[i]).contains(c) by {
            if i == 0 {
                assert forall|j: int| 0 <= j < k implies s.take(k)[j] != c by {}
            } else {
                assert(all[i] == text::split(rest, c)[i - 1]);
            }
        }
    }
}

proof fn lemma_trim_start(s: Seq<char>)
    ensures
        text::trim_start(s).is_suffix_of(s),
        text::trim_start(s).len() > 0 ==> !text::is_space(text::trim_start(s)[0]),
        forall|i: int|
            0 <= i < s.len() - text::trim_start(s).len() ==> text::is_space(#[trigger] s[i]),
    decreases s.len(),
{
    if s.len() > 0 && text::is_space(s[0]) {
        let rest = s.skip(1);
        lemma_trim_start(rest);
        let t = text::trim_start(s);
        assert(t =~= rest.subrange(rest.len() - t.len(), rest.len() as int));
        assert(t =~= s.subrange(s.len() - t.len(), s.len() as int));
        assert forall|i: int| 0 <= i < s.len() - t.len() implies text::is_space(
            #[trigger] s[i],
        ) by {
            if i > 0 {
                assert(s[i] == rest[i - 1]);
            }
        }
    } else {
        assert(s =~= s.subrange(0, s.len() as int));
    }
}

proof fn lemma_trim_end(s: Seq<char>)
    ensures
        text::trim_end(s).is_prefix_of(s),
        text::trim_end(s).len() > 0 ==> !text::is_space(text::trim_end(s).last()),
        forall|i: int| text::trim_end(s).len() <= i < s.len() ==> text::is_space(#[trigger] s[i]),
    decreases s.len(),
{
    if s.len() > 0 && text::is_space(s.last()) {
        let front = s.drop_last();
        lemma_trim_end(front);
        assert forall|i: int| text::trim_end(s).len() <= i < s.len() implies text::is_space(
            #[trigger] s[i],
        ) by {
            if i < front.len() {
                assert(s[i] == front[i]);
            }
        }
    }
}

/// Trimming takes away the white space at both ends, all of it and nothing else.
pub proof fn law_trim_takes_the_space(s: Seq<char>)
    ensures
        text::trim(s).len() > 0 ==> !text::is_space(text::trim(s)[0]) && !text::is_space(
            text::trim(s).last(),
        ),
        exists|i: int, j: int|
            {
                &&& 0 <= i <= j <= s.len()
                &&& text::trim(s) == #[trigger] s.subrange(i, j)
                &&& forall|k: int| 0 <= k < i ==> text::is_space(#[trigger] s[k])
                &&& forall|k: int| j <= k < s.len() ==> text::is_space(#[trigger] s[k])
            },
{
    lemma_trim_start(s);
    let a = text::trim_start(s);
    lemma_trim_end(a);
    let t = text::trim(s);
    let i = s.len() - a.len();
    let j = i + t.len();
    assert(a =~= s.subrange(i, s.len() as int));
    assert(t =~= a.subrange(0, t.len() as int));
    assert(t =~= s.subrange(i, j));
    assert forall|k: int| j <= k < s.len() implies text::is_space(#[trigger] s[k]) by {
        assert(s[k] == a[k - i]);
    }
    if t.len() > 0 {
        assert(t[0] == a[0]);
    }
}

/// A text without white space at its ends stays as it is.
pub proof fn law_trimmed_text_stays(s: Seq<char>)
    requires
        s.len() > 0 ==> !text::is_space(s[0]) && !text::is_space(s.last()),
    ensures
        text::trim(s) == s,
{
}

proof fn lemma_replace_none(s: Seq<char>, p: Seq<char>, to: Seq<char>)
    requires
        p.len() > 0,
        forall|i: int| 0 <= i ==> !#[trigger] text::occurs_at(s, p, i),
    ensures
        text::replace(s, p, to) == s,
    decreases s.len(),
{
    if s.len() >= p.len() {
        assert(!text::occurs_at(s, p, 0));
        let rest = s.skip(1);
        assert forall|i: int| 0 <= i implies !#[trigger] text::occurs_at(rest, p, i) by {
            if text::occurs_at(rest, p, i) {
                assert(s.subrange(i + 1, i + 1 + p.len()) =~= rest.subrange(i, i + p.len()));
                assert(text::occurs_at(s, p, i + 1));
            }
        }
        lemma_replace_none(rest, p, to);
        assert(seq![s[0]] + rest =~= s);
    }
}

/// Where a pattern stands once, it is replaced there, and the text around it stays.
pub proof fn law_replaced_where_it_stands(
    a: Seq<char>,
    p: Seq<char>,
    b: Seq<char>,
    to: Seq<char>,
)
    requires
        p.len() > 0,
        forall|i: int| 0 <= i < a.len() ==> !#[trigger] text::occurs_at(a + p + b, p, i),
        forall|i: int| 0 <= i ==> !#[trigger] text::occurs_at(b, p, i),
    ensures
        text::replace(a + p + b, p, to) == a + to + b,
    decreases a.len(),
{
    let s = a + p + b;
    if a.len() == 0 {
        assert(s.subrange(0, p.len() as int) =~= p);
        assert(text::starts_with(s, p));
        assert(s.skip(p.len() as int) =~= b);
        lemma_replace_none(b, p, to);
        assert(to + b =~= a + to + b);
    } else {
        assert(!text::occurs_at(s, p, 0));
        let rest = a.skip(1);
        assert(s.skip(1) =~= rest + p + b);
        assert forall|i: int| 0 <= i < rest.len() implies !#[trigger] text::occurs_at(
            rest + p + b,
            p,
            i,
        ) by {
            if text::occurs_at(rest + p + b, p, i) {
                assert(s.subrange(i + 1, i + 1 + p.len()) =~= (rest + p + b).subrange(
                    i,
                    i + p.len(),
                ));
                assert(text::occurs_at(s, p, i + 1));
            }
        }
        law_replaced_where_it_stands(rest, p, b, to);
        assert(seq![s[0]] + (rest + to + b) =~= a + to + b);
    }
}

/// A text without the pattern stays as it is.
pub proof fn law_nothing_to_replace(s: Seq<char>, p: Seq<char>, to: Seq<char>)
    requires
        p.len() > 0,
        !text::contains(s, p),
    ensures
        text::replace(s, p, to) == s,
{
    assert forall|i: int| 0 <= i implies !#[trigger] text::occurs_at(s, p, i) by {}
    lemma_replace_none(s, p, to);
}

proof fn lemma_lines_from(s: Seq<char>, i: int)
    requires
        0 <= i <= s.len(),
    ensures
        forall|k: int|
            0 <= k < text::lines_from(s, i).len() ==> !(#[trigger] text::lines_from(s, i)[k]).contains(
                '\n',
            ),
    decreases s.len() - i,
{
    text::lemma_char_from(s, '\n', i);
    let k = text::char_from(s, '\n', i);
    let all = text::lines_from(s, i);
    if i < s.len() {
        if k >= s.len() {
            assert(all =~= seq![s.subrange(i, s.len() as int)]);
        } else {
            lemma_lines_from(s, k + 1);
            let rest = text::lines_from(s, k + 1);
            assert forall|j: int| 0 <= j < all.len() implies !(#[trigger] all[j]).contains('\n') by {
                if j > 0 {
                    assert(all[j] == rest[j - 1]);
                }
            }
        }
    }
}

/// No line holds a line break.
pub proof fn law_lines_hold_no_break(s: Seq<char>)
    ensures
        forall|k: int|
            0 <= k < text::lines(s).len() ==> !(#[trigger] text::lines(s)[k]).contains('\n'),
{
    lemma_lines_from(s, 0);
}

proof fn lemma_lines_skip(a: Seq<char>, b: Seq<char>, i: int)
    requires
        0 <= i <= b.len(),
    ensures
        text::lines_from(a + b, a.len() + i) == text::lines_from(b, i),
    decreases b.len() - i,
{
    let s = a + b;
    if i < b.len() {
        lemma_char_skip(a, b, '\n', i);
        text::lemma_char_from(b, '\n', i);
        let k = text::char_from(b, '\n', i);
        if k >= b.len() {
            assert(s.subrange(a.len() + i, s.len() as int) =~= b.subrange(i, b.len() as int));
        } else {
            lemma_lines_skip(a, b, k + 1);
            assert(s.subrange(a.len() + i, a.len() + k) =~= b.subrange(i, k));
        }
    }
}

proof fn lemma_char_skip(a: Seq<char>, b: Seq<char>, c: char, i: int)
    requires
        0 <= i <= b.len(),
    ensures
        text::char_from(a + b, c, a.len() + i) == a.len() + text::char_from(b, c, i),
    decreases b.len() - i,
{
    if i < b.len() {
        assert((a + b)[a.len() + i] == b[i]);
        if b[i] != c {
            lemma_char_skip(a, b, c, i + 1);
        }
    }
}

/// A line is what stands before the first line break; the lines behind it follow.
pub proof fn law_first_line_stands_first(line: Seq<char>, rest: Seq<char>)
    requires
        !line.contains('\n'),
        line.len() > 0 ==> line.last() != '\r',
    ensures
        text::lines(line.push('\n') + rest) == seq![line] + text::lines(rest),
        line.len() > 0 ==> text::lines(line) == seq![line],
{
    let a = line.push('\n');
    let s = a + rest;
    text::lemma_char_from(s, '\n', 0);
    let k = text::char_from(s, '\n', 0);
    assert(s[line.len() as int] == '\n');
    assert(k == line.len()) by {
        if k < line.len() {
            assert(s[k] == line[k]);
        }
    }
    assert(s.subrange(0, k) =~= line);
    lemma_lines_skip(a, rest, 0);
    if line.len() > 0 {
        text::lemma_char_from(line, '\n', 0);
        let j = text::char_from(line, '\n', 0);
        assert(j == line.len()) by {
            if j < line.len() {
                assert(line[j] == '\n');
            }
        }
        assert(line.subrange(0, line.len() as int) =~= line);
    }
}

/// The number that decimal digits stand for.
pub open spec fn value(s: Seq<char>) -> int
    decreases s.len(),
{
    if s.len() == 0 {
        0
    } else {
        10 * value(s.drop_last()) + (s.last() as int - '0' as int)
    }
}

/// The decimal digits of a number stand for it, without a zero before them.
pub proof fn law_digits_stand_for_the_number(n: nat)
    ensures
        value(text::decimal(n)) == n,
        text::decimal(n).len() > 0,
        forall|i: int|
            0 <= i < text::decimal(n).len() ==> '0' <= #[trigger] text::decimal(n)[i]
                && text::decimal(n)[i] <= '9',
        n > 0 ==> text::decimal(n)[0] != '0',
    decreases n,
{
    let s = text::decimal(n);
    if n < 10 {
        assert(s.drop_last() =~= Seq::<char>::empty());
        assert(value(Seq::<char>::empty()) == 0);
    } else {
        law_digits_stand_for_the_number(n / 10);
        assert(s.drop_last() =~= text::decimal(n / 10));
    }
}

/// A negative number has its sign before its digits.
pub proof fn law_sign_stands_first(n: int)
    ensures
        n >= 0 ==> text::signed_decimal(n) == text::decimal(n as nat),
        n < 0 ==> text::signed_decimal(n) == seq!['-'] + text::decimal((-n) as nat),
{
}

/// What fits is as much of the beginning as the bytes allow.
pub proof fn law_as_much_as_fits(s: Seq<char>, n: int)
    requires
        0 <= n,
    ensures
        0 <= text::fitting(s, n) <= s.len(),
        text::byte_len(s.take(text::fitting(s, n))) <= n,
        text::fitting(s, n) < s.len() ==> text::byte_len(s.take(text::fitting(s, n) + 1)) > n,
        text::byte_len(s) <= n ==> text::fitting(s, n) == s.len(),
    decreases s.len(),
{
    if s.len() == 0 || text::byte_len(s) <= n {
        assert(s.take(s.len() as int) =~= s);
    } else {
        let front = s.drop_last();
        law_as_much_as_fits(front, n);
        let k = text::fitting(front, n);
        assert(front.take(k) =~= s.take(k));
        if k < front.len() {
            assert(front.take(k + 1) =~= s.take(k + 1));
        } else {
            assert(s.take(k + 1) =~= s);
        }
    }
}

/// Bytes are counted character by character, from one to four each.
pub proof fn law_bytes_are_counted(s: Seq<char>, c: char)
    ensures
        text::byte_len(Seq::empty()) == 0,
        text::byte_len(s.push(c)) == text::byte_len(s) + (if (c as u32) < 0x80 {
            1nat
        } else if (c as u32) < 0x800 {
            2nat
        } else if (c as u32) < 0x10000 {
            3nat
        } else {
            4nat
        }),
{
    assert(s.push(c).drop_last() =~= s);
}

/// Words are counted where they begin.
pub proof fn law_words_are_counted(s: Seq<char>, c: char)
    ensures
        text::words(Seq::empty()) == 0,
        text::words(s.push(c)) == text::words(s) + (if !text::is_space(c) && (s.len() == 0
            || text::is_space(s.last())) {
            1nat
        } else {
            0nat
        }),
{
    assert(s.push(c).drop_last() =~= s);
    if s.len() > 0 {
        assert(s.push(c)[s.len() - 1] == s.last());
    }
}

proof fn lemma_word_end(s: Seq<char>, i: int)
    requires
        0 <= i < s.len(),
        !text::is_space(s[i]),
    ensures
        i < text::word_end(s, i) <= s.len(),
        forall|k: int| i <= k < text::word_end(s, i) ==> !text::is_space(#[trigger] s[k]),
        text::word_end(s, i) < s.len() ==> text::is_space(s[text::word_end(s, i)]),
    decreases s.len() - i,
{
    if i + 1 < s.len() && !text::is_space(s[i + 1]) {
        lemma_word_end(s, i + 1);
    }
}

/// A word is not empty and holds no white space.
pub proof fn law_words_hold_no_space(s: Seq<char>)
    ensures
        forall|i: int|
            0 <= i < text::word_list(s).len() ==> (#[trigger] text::word_list(s)[i]).len() > 0,
        forall|i: int, k: int|
            0 <= i < text::word_list(s).len() && 0 <= k < text::word_list(s)[i].len()
                ==> !text::is_space(#[trigger] text::word_list(s)[i][k]),
    decreases s.len(),
{
    let all = text::word_list(s);
    if s.len() > 0 {
        if text::is_space(s[0]) {
            law_words_hold_no_space(s.skip(1));
            assert(all == text::word_list(s.skip(1)));
        } else {
            lemma_word_end(s, 0);
            let e = text::word_end(s, 0);
            let rest = s.skip(e);
            law_words_hold_no_space(rest);
            let more = text::word_list(rest);
            assert(all == seq![s.take(e)] + more);
            assert forall|i: int| 0 <= i < all.len() implies (#[trigger] all[i]).len() > 0 by {
                if i > 0 {
                    assert(all[i] == more[i - 1]);
                }
            }
            assert forall|i: int, k: int|
                0 <= i < all.len() && 0 <= k < all[i].len() implies !text::is_space(
                #[trigger] all[i][k],
            ) by {
                if i > 0 {
                    assert(all[i] == more[i - 1]);
                } else {
                    assert(all[i][k] == s[k]);
                }
            }
        }
    } else {
        assert(all.len() == 0);
    }
}

/// A word stands first where the text begins with it; white space before it does not
/// count.
pub proof fn law_first_word_stands_first(w: Seq<char>, rest: Seq<char>, c: char)
    requires
        w.len() > 0,
        forall|k: int| 0 <= k < w.len() ==> !text::is_space(#[trigger] w[k]),
        rest.len() > 0 ==> text::is_space(rest[0]),
        text::is_space(c),
    ensures
        text::word_list(w + rest) == seq![w] + text::word_list(rest),
        text::word_list(seq![c] + rest) == text::word_list(rest),
{
    let s = w + rest;
    assert(s[0] == w[0]);
    lemma_word_end(s, 0);
    let e = text::word_end(s, 0);
    assert(e == w.len()) by {
        if e < w.len() {
            assert(s[e] == w[e]);
        }
        if e > w.len() {
            assert(s[w.len() as int] == rest[0]);
        }
    }
    assert(s.take(e) =~= w);
    assert(s.skip(e) =~= rest);
    assert((seq![c] + rest).skip(1) =~= rest);
}

/// Lower case changes the capital letters and nothing else.
pub proof fn law_lower_case_changes_capitals(s: Seq<char>, i: int)
    requires
        0 <= i < s.len(),
    ensures
        text::ascii_lowercase(s).len() == s.len(),
        'A' <= s[i] && s[i] <= 'Z' ==> text::ascii_lowercase(s)[i] as int == s[i] as int + 32,
        !('A' <= s[i] && s[i] <= 'Z') ==> text::ascii_lowercase(s)[i] == s[i],
{
}

/// Texts are ordered by their first difference; a text stands before what continues it.
pub proof fn law_first_difference_decides(p: Seq<char>, a: Seq<char>, b: Seq<char>)
    ensures
        a.len() > 0 && b.len() > 0 && a[0] != b[0] ==> (text::text_before(p + a, p + b) <==> (
        a[0] as int) < (b[0] as int)),
        b.len() > 0 ==> text::text_before(p, p + b),
        !text::text_before(p + a, p),
    decreases p.len(),
{
    if p.len() == 0 {
        assert(p + a =~= a);
        assert(p + b =~= b);
    } else {
        let q = p.skip(1);
        law_first_difference_decides(q, a, b);
        assert((p + a).skip(1) =~= q + a);
        assert((p + b).skip(1) =~= q + b);
        assert((p + a)[0] == p[0]);
        assert((p + b)[0] == p[0]);
    }
}

/// A character at both ends is taken away as often as it stands there, and nothing else.
pub proof fn law_quotes_are_taken_away(s: Seq<char>, c: char)
    requires
        s.len() > 0,
        s[0] != c,
        s.last() != c,
    ensures
        text::trim_char(s, c) == s,
        text::trim_char(seq![c] + s + seq![c], c) == s,
{
    let t = seq![c] + s + seq![c];
    assert(t[0] == c);
    let u = t.skip(1);
    assert(u =~= s + seq![c]);
    assert(u[0] == s[0]);
    assert(text::trim_start_char(u, c) == u);
    assert(text::trim_start_char(t, c) == u);
    assert(u.last() == c);
    assert(u.drop_last() =~= s);
    assert(text::trim_end_char(s, c) == s);
    assert(text::trim_end_char(u, c) == s);
}

/// What reaches a size is as little of the beginning as does.
pub proof fn law_as_little_as_reaches(s: Seq<char>, n: int)
    ensures
        0 <= text::reaching(s, n) <= s.len(),
        text::reaching(s, n) < s.len() ==> text::byte_len(s.take(text::reaching(s, n))) >= n,
        text::reaching(s, n) > 0 ==> text::byte_len(s.take(text::reaching(s, n) - 1)) < n,
    decreases s.len(),
{
    if s.len() > 0 {
        let front = s.drop_last();
        assert(s.take(s.len() - 1) =~= front);
        if text::byte_len(front) >= n {
            law_as_little_as_reaches(front, n);
            let k = text::reaching(front, n);
            assert(front.take(k) =~= s.take(k));
            if k > 0 {
                assert(front.take(k - 1) =~= s.take(k - 1));
            }
        }
    }
}

} // verus!
