//! Laws of the web tools: which addresses are refused, what is read of a page, and what is
//! answered.
use crate::agent::web;
use crate::json::JsonView;
use crate::laws::texts;
use crate::seqs;
use crate::text;
use vstd::prelude::*;

verus! {

proof fn lemma_number_is_value(s: Seq<char>)
    requires
        forall|i: int| 0 <= i < s.len() ==> '0' <= #[trigger] s[i] && s[i] <= '9',
    ensures
        web::number(s, 10) == Some(texts::value(s)),
    decreases s.len(),
{
    if s.len() > 0 {
        let front = s.drop_last();
        assert forall|i: int| 0 <= i < front.len() implies '0' <= #[trigger] front[i] && front[i]
            <= '9' by {
            assert(front[i] == s[i]);
        }
        lemma_number_is_value(front);
        assert('0' <= s[s.len() - 1] && s[s.len() - 1] <= '9');
    }
}

proof fn lemma_short_decimal(n: nat)
    requires
        n <= 255,
    ensures
        1 <= text::decimal(n).len() <= 3,
        text::decimal(n).len() > 1 ==> n >= 10,
{
    reveal_with_fuel(text::decimal, 4);
    if n < 10 {
        assert(text::decimal(n).len() == 1);
    } else if n < 100 {
        assert(text::decimal(n / 10).len() == 1);
        assert(text::decimal(n).len() == 2);
    } else {
        assert(n / 10 >= 10 && n / 10 < 100);
        assert(n / 10 / 10 < 10);
        assert(text::decimal(n / 10 / 10).len() == 1);
        assert(text::decimal(n / 10).len() == 2);
        assert(text::decimal(n).len() == 3);
    }
}

/// A decimal number up to 255 is an octet.
pub proof fn law_octet_reads_back(n: nat)
    requires
        n <= 255,
    ensures
        web::octet(text::decimal(n)) == Some(n as int),
{
    texts::law_digits_stand_for_the_number(n);
    lemma_number_is_value(text::decimal(n));
    lemma_short_decimal(n);
}

proof fn lemma_split_front(x: Seq<char>, c: char, rest: Seq<char>)
    requires
        !x.contains(c),
    ensures
        text::split(x + seq![c] + rest, c) == seq![x] + text::split(rest, c),
        text::split(x, c) == seq![x],
{
    let s = x + seq![c] + rest;
    text::lemma_char_from(s, c, 0);
    let k = text::char_from(s, c, 0);
    assert(s[x.len() as int] == c);
    assert(k == x.len()) by {
        if k < x.len() {
            assert(s[k] == x[k]);
        }
    }
    assert(s.take(k) =~= x);
    assert(s.skip(k + 1) =~= rest);
    text::lemma_char_from(x, c, 0);
    if text::char_from(x, c, 0) < x.len() {
        assert(x[text::char_from(x, c, 0)] == c);
    }
}

/// An address in its usual form.
pub open spec fn dotted(a: nat, b: nat, c: nat, d: nat) -> Seq<char> {
    text::decimal(a) + seq!['.'] + (text::decimal(b) + seq!['.'] + (text::decimal(c) + seq!['.']
        + text::decimal(d)))
}

proof fn lemma_no_dot(n: nat)
    ensures
        !text::decimal(n).contains('.'),
{
    texts::law_digits_stand_for_the_number(n);
    let s = text::decimal(n);
    if s.contains('.') {
        let i = choose|i: int| 0 <= i < s.len() && s[i] == '.';
        assert('0' <= s[i]);
    }
}

/// An address is read as its four numbers.
pub proof fn law_address_reads_back(a: nat, b: nat, c: nat, d: nat)
    requires
        a <= 255,
        b <= 255,
        c <= 255,
        d <= 255,
    ensures
        web::ipv4(dotted(a, b, c, d)) == Some(seq![a as int, b as int, c as int, d as int]),
{
    lemma_no_dot(a);
    lemma_no_dot(b);
    lemma_no_dot(c);
    lemma_no_dot(d);
    let p = text::decimal(a);
    let q = text::decimal(b);
    let r = text::decimal(c);
    let s = text::decimal(d);
    lemma_split_front(r, '.', s);
    lemma_split_front(s, '.', Seq::empty());
    lemma_split_front(q, '.', r + seq!['.'] + s);
    lemma_split_front(p, '.', q + seq!['.'] + (r + seq!['.'] + s));
    let parts = text::split(dotted(a, b, c, d), '.');
    assert(parts =~= seq![p, q, r, s]);
    law_octet_reads_back(a);
    law_octet_reads_back(b);
    law_octet_reads_back(c);
    law_octet_reads_back(d);
    reveal_with_fuel(web::numbers, 5);
    assert(seq![p, q, r, s].drop_last() =~= seq![p, q, r]);
    assert(seq![p, q, r].drop_last() =~= seq![p, q]);
    assert(seq![p, q].drop_last() =~= seq![p]);
    assert(seq![p].drop_last() =~= Seq::<Seq<char>>::empty());
    assert(web::numbers(Seq::<Seq<char>>::empty(), true) == Some(Seq::<int>::empty()));
    assert(web::numbers(seq![p], true) == Some(Seq::<int>::empty().push(a as int)));
    assert(web::numbers(seq![p, q], true) == Some(
        Seq::<int>::empty().push(a as int).push(b as int),
    ));
    assert(web::numbers(seq![p, q, r], true) == Some(
        Seq::<int>::empty().push(a as int).push(b as int).push(c as int),
    ));
    assert(web::numbers(seq![p, q, r, s], true) == Some(
        Seq::<int>::empty().push(a as int).push(b as int).push(c as int).push(d as int),
    ));
    assert(Seq::<int>::empty().push(a as int).push(b as int).push(c as int).push(d as int) =~= seq![
        a as int,
        b as int,
        c as int,
        d as int,
    ]);
}

/// Whether an address is one of a machine or of a private network.
pub open spec fn private(a: nat, b: nat, c: nat, d: nat) -> bool {
    a == 127 || a == 10 || (a == 172 && 16 <= b <= 31) || (a == 192 && b == 168) || (a == 169 && b
        == 254) || a == 0 || (a == 255 && b == 255 && c == 255 && d == 255)
}

proof fn lemma_dotted_stays(a: nat, b: nat, c: nat, d: nat)
    ensures
        text::ascii_lowercase(dotted(a, b, c, d)) == dotted(a, b, c, d),
        web::unbracketed(dotted(a, b, c, d)) == dotted(a, b, c, d),
        !web::local_name(dotted(a, b, c, d)),
{
    texts::law_digits_stand_for_the_number(a);
    texts::law_digits_stand_for_the_number(b);
    texts::law_digits_stand_for_the_number(c);
    texts::law_digits_stand_for_the_number(d);
    let s = dotted(a, b, c, d);
    assert forall|i: int| 0 <= i < s.len() implies ('0' <= #[trigger] s[i] && s[i] <= '9') || s[i]
        == '.' by {
        let p = text::decimal(a);
        let q = text::decimal(b);
        let r = text::decimal(c);
        let t = text::decimal(d);
        let j = i - p.len() - 1;
        let k = j - q.len() - 1;
        let l = k - r.len() - 1;
        if i < p.len() {
            assert(s[i] == p[i]);
        } else if i == p.len() {
        } else if j < q.len() {
            assert(s[i] == q[j]);
        } else if j == q.len() {
        } else if k < r.len() {
            assert(s[i] == r[k]);
        } else if k == r.len() {
        } else {
            assert(s[i] == t[l]);
        }
    }
    assert(text::ascii_lowercase(s) =~= s);
    assert(('0' <= s[0] && s[0] <= '9') || s[0] == '.');
    assert(('0' <= s[s.len() - 1] && s[s.len() - 1] <= '9') || s[s.len() - 1] == '.');
    reveal_strlit("localhost");
    reveal_strlit(".localhost");
    reveal_strlit(".internal");
    if s == "localhost"@ {
        assert(s[0] == 'l');
    }
    if text::ends_with(s, ".localhost"@) {
        let n = s.len() - ".localhost"@.len();
        assert(s.subrange(n, n + ".localhost"@.len())[1] == 'l');
        assert(s[n + 1] == 'l');
    }
    if text::ends_with(s, ".internal"@) {
        let n = s.len() - ".internal"@.len();
        assert(s.subrange(n, n + ".internal"@.len())[1] == 'i');
        assert(s[n + 1] == 'i');
    }
}

/// An address of the machine or of a private network is refused, and any other address is
/// not.
pub proof fn law_private_address_is_refused(
    scheme: Seq<char>,
    a: nat,
    b: nat,
    c: nat,
    d: nat,
)
    requires
        scheme == "http"@ || scheme == "https"@,
        a <= 255,
        b <= 255,
        c <= 255,
        d <= 255,
    ensures
        web::refusal(Ok((scheme, Some(dotted(a, b, c, d))))) is Some <==> private(a, b, c, d),
{
    lemma_dotted_stays(a, b, c, d);
    law_address_reads_back(a, b, c, d);
    let v = seq![a as int, b as int, c as int, d as int];
    assert(v[0] == a && v[1] == b && v[2] == c && v[3] == d);
    assert(v == seq![255int, 255, 255, 255] <==> a == 255 && b == 255 && c == 255 && d == 255) by {
        let w = seq![255int, 255, 255, 255];
        assert(w[0] == 255 && w[1] == 255 && w[2] == 255 && w[3] == 255);
        if a == 255 && b == 255 && c == 255 && d == 255 {
            assert(v =~= w);
        }
    }
}

/// What is no web address is refused: what does not read as one, another scheme, no host,
/// and the names of the machine.
pub proof fn law_other_addresses_are_refused(
    scheme: Seq<char>,
    host: Option<Seq<char>>,
    error: Seq<char>,
)
    ensures
        web::refusal(Err(error)) is Some,
        error.is_suffix_of(web::refusal(Err(error))->0),
        scheme != "http"@ && scheme != "https"@ ==> web::refusal(Ok((scheme, host))) is Some
            && text::contains(web::refusal(Ok((scheme, host)))->0, scheme),
        web::refusal(Ok((scheme, None))) is Some,
        host matches Some(h) ==> (text::ascii_lowercase(h) == "localhost"@ ==> web::refusal(
            Ok((scheme, host)),
        ) is Some),
        host matches Some(h) ==> ((text::ends_with(text::ascii_lowercase(h), ".localhost"@)
            || text::ends_with(text::ascii_lowercase(h), ".internal"@)) ==> web::refusal(
            Ok((scheme, host)),
        ) is Some),
{
    if scheme != "http"@ && scheme != "https"@ {
        let t = web::refusal(Ok((scheme, host)))->0;
        let n = "only http and https are allowed; '"@.len() as int;
        assert(t.subrange(n, n + scheme.len()) =~= scheme);
        assert(text::occurs_at(t, scheme, n));
    }
}

/// A page without tags is read as it is.
pub proof fn law_page_without_tags_stays(page: Seq<char>, lower: Seq<char>, i: int)
    requires
        0 <= i <= page.len(),
        forall|k: int| 0 <= k < page.len() ==> #[trigger] page[k] != '<' && page[k] != '>',
        !text::contains(lower, "<script"@),
    ensures
        web::untagged(page, lower, i, false, false) == page.skip(i),
    decreases page.len() - i,
{
    if i < page.len() {
        law_page_without_tags_stays(page, lower, i + 1);
        assert(!text::occurs_at(lower, "<script"@, i));
        assert(seq![page[i]] + page.skip(i + 1) =~= page.skip(i));
    } else {
        assert(page.skip(i) =~= Seq::<char>::empty());
    }
}

proof fn lemma_inside_tag(page: Seq<char>, lower: Seq<char>, i: int, j: int)
    requires
        0 <= i <= j < page.len(),
        page[j] == '>',
        forall|k: int| i <= k < j ==> #[trigger] page[k] != '<' && page[k] != '>',
    ensures
        web::untagged(page, lower, i, true, false) == seq![' '] + web::untagged(
            page,
            lower,
            j + 1,
            false,
            false,
        ),
    decreases j - i,
{
    if i < j {
        assert(page[i] != '<' && page[i] != '>');
        lemma_inside_tag(page, lower, i + 1, j);
    }
}

/// A tag is read as a space.
pub proof fn law_tag_is_read_as_a_space(page: Seq<char>, lower: Seq<char>, i: int, j: int)
    requires
        0 <= i < j < page.len(),
        page[i] == '<',
        page[j] == '>',
        forall|k: int| i < k < j ==> #[trigger] page[k] != '<' && page[k] != '>',
        !text::occurs_at(lower, "<script"@, i),
    ensures
        web::untagged(page, lower, i, false, false) == seq![' '] + web::untagged(
            page,
            lower,
            j + 1,
            false,
            false,
        ),
{
    lemma_inside_tag(page, lower, i + 1, j);
}

proof fn lemma_inside_script(page: Seq<char>, lower: Seq<char>, i: int, j: int, in_tag: bool)
    requires
        0 <= i <= j < page.len(),
        text::occurs_at(lower, "</script>"@, j),
        forall|k: int| i <= k < j ==> !#[trigger] text::occurs_at(lower, "</script>"@, k),
    ensures
        web::untagged(page, lower, i, in_tag, true) == web::untagged(
            page,
            lower,
            j + 9,
            false,
            false,
        ),
    decreases j - i,
{
    if i < j {
        assert(!text::occurs_at(lower, "</script>"@, i));
        if page[i] == '<' {
            lemma_inside_script(page, lower, i + 1, j, true);
        } else if page[i] == '>' {
            lemma_inside_script(page, lower, i + 1, j, false);
            let rest = web::untagged(page, lower, i + 1, false, true);
            assert(Seq::<char>::empty() + rest =~= rest);
        } else {
            lemma_inside_script(page, lower, i + 1, j, in_tag);
        }
    }
}

/// A script is left out, up to where it is closed.
pub proof fn law_script_is_left_out(page: Seq<char>, lower: Seq<char>, i: int, j: int)
    requires
        0 <= i < j < page.len(),
        page[i] == '<',
        text::occurs_at(lower, "<script"@, i),
        text::occurs_at(lower, "</script>"@, j),
        forall|k: int| i < k < j ==> !#[trigger] text::occurs_at(lower, "</script>"@, k),
    ensures
        web::untagged(page, lower, i, false, false) == web::untagged(
            page,
            lower,
            j + 9,
            false,
            false,
        ),
{
    lemma_inside_script(page, lower, i + 1, j, true);
}

proof fn lemma_no_amp(s: Seq<char>, p: Seq<char>)
    requires
        !s.contains('&'),
        p.len() > 0,
        p[0] == '&',
    ensures
        forall|i: int| 0 <= i ==> !#[trigger] text::occurs_at(s, p, i),
{
    assert forall|i: int| 0 <= i implies !#[trigger] text::occurs_at(s, p, i) by {
        if text::occurs_at(s, p, i) {
            assert(s.subrange(i, i + p.len())[0] == '&');
            assert(s[i] == '&');
        }
    }
}

proof fn lemma_replace_no_amp(s: Seq<char>, p: Seq<char>, to: Seq<char>)
    requires
        !s.contains('&'),
        p.len() > 0,
        p[0] == '&',
    ensures
        text::replace(s, p, to) == s,
{
    lemma_no_amp(s, p);
    assert(!text::contains(s, p)) by {
        if text::contains(s, p) {
            let i = choose|i: int| #[trigger] text::occurs_at(s, p, i);
            assert(0 <= i);
        }
    }
    texts::law_nothing_to_replace(s, p, to);
}

proof fn lemma_entity_here(a: Seq<char>, p: Seq<char>, b: Seq<char>, to: Seq<char>)
    requires
        !a.contains('&'),
        !b.contains('&'),
        p.len() > 0,
        p[0] == '&',
    ensures
        text::replace(a + p + b, p, to) == a + to + b,
{
    lemma_no_amp(b, p);
    assert forall|i: int| 0 <= i < a.len() implies !#[trigger] text::occurs_at(
        a + p + b,
        p,
        i,
    ) by {
        if text::occurs_at(a + p + b, p, i) {
            assert((a + p + b).subrange(i, i + p.len())[0] == '&');
            assert((a + p + b)[i] == a[i]);
            assert(a[i] == '&');
        }
    }
    texts::law_replaced_where_it_stands(a, p, b, to);
}

proof fn lemma_other_entity(
    a: Seq<char>,
    q: Seq<char>,
    b: Seq<char>,
    p: Seq<char>,
    to: Seq<char>,
    k: int,
)
    requires
        !a.contains('&'),
        !b.contains('&'),
        p.len() > 1,
        p[0] == '&',
        0 < k < p.len(),
        k < q.len(),
        p[k] != q[k],
        forall|j: int| 0 < j < q.len() ==> #[trigger] q[j] != '&',
    ensures
        text::replace(a + q + b, p, to) == a + q + b,
{
    let s = a + q + b;
    assert(!text::contains(s, p)) by {
        if text::contains(s, p) {
            let i = choose|i: int| #[trigger] text::occurs_at(s, p, i);
            assert(s.subrange(i, i + p.len())[0] == p[0]);
            assert(s[i] == '&');
            if i < a.len() {
                assert(a[i] == '&');
            } else if i >= a.len() + q.len() {
                assert(b[i - a.len() - q.len()] == '&');
            } else if i > a.len() {
                assert(q[i - a.len()] == '&');
            } else {
                assert(s.subrange(i, i + p.len())[k] == p[k]);
                assert(s[i + k] == q[k]);
            }
        }
    }
    texts::law_nothing_to_replace(s, p, to);
}

/// A text without an ampersand has no entities.
pub proof fn law_text_without_entities_stays(s: Seq<char>)
    requires
        !s.contains('&'),
    ensures
        web::entities(s) == s,
{
    reveal_strlit("&amp;");
    reveal_strlit("&lt;");
    reveal_strlit("&gt;");
    reveal_strlit("&quot;");
    reveal_strlit("&#39;");
    reveal_strlit("&nbsp;");
    lemma_replace_no_amp(s, "&amp;"@, "&"@);
    lemma_replace_no_amp(s, "&lt;"@, "<"@);
    lemma_replace_no_amp(s, "&gt;"@, ">"@);
    lemma_replace_no_amp(s, "&quot;"@, "\""@);
    lemma_replace_no_amp(s, "&#39;"@, "'"@);
    lemma_replace_no_amp(s, "&nbsp;"@, " "@);
}

proof fn lemma_concat_no_amp(a: Seq<char>, t: Seq<char>, b: Seq<char>)
    requires
        !a.contains('&'),
        !b.contains('&'),
        !t.contains('&'),
    ensures
        !(a + t + b).contains('&'),
{
    let s = a + t + b;
    if s.contains('&') {
        let i = choose|i: int| 0 <= i < s.len() && s[i] == '&';
        if i < a.len() {
            assert(a[i] == '&');
        } else if i < a.len() + t.len() {
            assert(t[i - a.len()] == '&');
        } else {
            assert(b[i - a.len() - t.len()] == '&');
        }
    }
}

/// The angle brackets come back where their entities stood.
pub proof fn law_brackets_come_back(a: Seq<char>, b: Seq<char>)
    requires
        !a.contains('&'),
        !b.contains('&'),
    ensures
        web::entities(a + "&lt;"@ + b) == a + "<"@ + b,
        web::entities(a + "&gt;"@ + b) == a + ">"@ + b,
{
    reveal_strlit("&amp;");
    reveal_strlit("&lt;");
    reveal_strlit("&gt;");
    reveal_strlit("&quot;");
    reveal_strlit("&#39;");
    reveal_strlit("&nbsp;");
    reveal_strlit("<");
    reveal_strlit(">");
    lemma_other_entity(a, "&lt;"@, b, "&amp;"@, "&"@, 1);
    lemma_entity_here(a, "&lt;"@, b, "<"@);
    assert(!"<"@.contains('&'));
    lemma_concat_no_amp(a, "<"@, b);
    lemma_replace_no_amp(a + "<"@ + b, "&gt;"@, ">"@);
    lemma_replace_no_amp(a + "<"@ + b, "&quot;"@, "\""@);
    lemma_replace_no_amp(a + "<"@ + b, "&#39;"@, "'"@);
    lemma_replace_no_amp(a + "<"@ + b, "&nbsp;"@, " "@);
    lemma_other_entity(a, "&gt;"@, b, "&amp;"@, "&"@, 1);
    lemma_other_entity(a, "&gt;"@, b, "&lt;"@, "<"@, 1);
    lemma_entity_here(a, "&gt;"@, b, ">"@);
    assert(!">"@.contains('&'));
    lemma_concat_no_amp(a, ">"@, b);
    lemma_replace_no_amp(a + ">"@ + b, "&quot;"@, "\""@);
    lemma_replace_no_amp(a + ">"@ + b, "&#39;"@, "'"@);
    lemma_replace_no_amp(a + ">"@ + b, "&nbsp;"@, " "@);
}

/// The value of a link parameter ends at the first mark behind it.
pub proof fn law_value_ends_at_a_mark(s: Seq<char>, i: int)
    requires
        0 <= i <= s.len(),
    ensures
        i <= web::value_end(s, i) <= s.len(),
        forall|k: int|
            i <= k < web::value_end(s, i) ==> #[trigger] s[k] != '&' && s[k] != '"' && s[k] != '\'',
        web::value_end(s, i) < s.len() ==> s[web::value_end(s, i)] == '&' || s[web::value_end(
            s,
            i,
        )] == '"' || s[web::value_end(s, i)] == '\'',
    decreases s.len() - i,
{
    if i < s.len() && s[i] != '&' && s[i] != '"' && s[i] != '\'' {
        law_value_ends_at_a_mark(s, i + 1);
    }
}

/// A link without a redirection is the address in quotes.
pub proof fn law_plain_link_is_its_address(a: Seq<char>, url: Seq<char>, b: Seq<char>)
    requires
        !text::contains(a + "href=\""@ + url + seq!['"'] + b, "uddg="@),
        forall|i: int|
            0 <= i < a.len() ==> !#[trigger] text::occurs_at(
                a + "href=\""@ + url + seq!['"'] + b,
                "href=\""@,
                i,
            ),
        !url.contains('"'),
    ensures
        web::link_target(a + "href=\""@ + url + seq!['"'] + b) == url,
{
    reveal_strlit("href=\"");
    let s = a + "href=\""@ + url + seq!['"'] + b;
    text::lemma_contains(s, "uddg="@);
    let n = a.len() as int;
    assert(s.subrange(n, n + 6) =~= "href=\""@);
    assert(text::occurs_at(s, "href=\""@, n));
    text::lemma_find_from(s, "href=\""@, 0);
    assert(text::find(s, "href=\""@) == Some(n));
    text::lemma_char_from(s, '"', n + 6);
    let k = text::char_from(s, '"', n + 6);
    let e = n + 6 + url.len();
    assert(s[e] == '"');
    assert(k == e) by {
        if k < e {
            assert(s[k] == url[k - n - 6]);
        }
    }
    assert(s.subrange(n + 6, e) =~= url);
}

/// A search result tells its title, its address and its snippet.
pub proof fn law_result_is_told(title: Seq<char>, url: Seq<char>, snippet: Seq<char>)
    ensures
        ({
            let r = web::result_json(title, url, snippet);
            &&& r.text_at("title"@) == Some(text::trim(title))
            &&& r.text_at("url"@) == Some(url)
            &&& r.text_at("snippet"@) == Some(text::trim(snippet))
        }),
{
    reveal_strlit("title");
    reveal_strlit("url");
    reveal_strlit("snippet");
    assert("title"@.len() == 5 && "url"@.len() == 3 && "snippet"@.len() == 7);
}

/// A fetched page is answered with its address, its status and as much of its text as was
/// asked for; whether that is all is told.
pub proof fn law_page_is_answered(
    url: Seq<char>,
    status: int,
    content_type: Seq<char>,
    t: Seq<char>,
    max_chars: int,
)
    requires
        0 <= max_chars,
    ensures
        ({
            let r = web::fetched_json(url, status, content_type, t, max_chars);
            &&& r.text_at("url"@) == Some(url)
            &&& r.get("status"@) == Some(JsonView::Int(status))
            &&& r.text_at("content_type"@) == Some(content_type)
            &&& r.text_at("content"@) is Some
            &&& r.text_at("content"@)->0.is_prefix_of(t)
            &&& r.text_at("content"@)->0.len() == (if t.len() <= max_chars {
                t.len() as int
            } else {
                max_chars
            })
            &&& r.get("truncated"@) == Some(JsonView::Bool(t.len() > max_chars))
        }),
{
    reveal_strlit("url");
    reveal_strlit("status");
    reveal_strlit("content_type");
    reveal_strlit("content");
    reveal_strlit("truncated");
    assert("url"@.len() == 3 && "status"@.len() == 6 && "content_type"@.len() == 12
        && "content"@.len() == 7 && "truncated"@.len() == 9);
}

/// A page that is no HTML is answered as it came.
pub proof fn law_other_content_stays(content_type: Seq<char>, body: Seq<u8>, max: int)
    requires
        !text::contains(content_type, "html"@),
        body.len() <= max,
    ensures
        web::page_text(content_type, body, max) == crate::llm::sse::lossy_text(body),
{
}

/// What a tool takes: a text that it needs and a number that it may be given.
pub proof fn law_tool_takes_its_arguments(
    text_key: Seq<char>,
    text_help: Seq<char>,
    number_key: Seq<char>,
    number_help: Seq<char>,
)
    requires
        text_key != number_key,
    ensures
        ({
            let p = web::tool_parameters(text_key, text_help, number_key, number_help);
            let props = p.get("properties"@)->0;
            &&& p.text_at("type"@) == Some("object"@)
            &&& p.get("properties"@) is Some
            &&& props.get(text_key) is Some
            &&& props.get(text_key)->0.text_at("type"@) == Some("string"@)
            &&& props.get(text_key)->0.text_at("description"@) == Some(text_help)
            &&& props.get(number_key) is Some
            &&& props.get(number_key)->0.text_at("type"@) == Some("integer"@)
            &&& props.get(number_key)->0.text_at("description"@) == Some(number_help)
            &&& p.array_at("required"@) == Some(seq![JsonView::Text(text_key)])
        }),
{
    reveal_strlit("type");
    reveal_strlit("properties");
    reveal_strlit("required");
    reveal_strlit("description");
    assert("type"@.len() == 4 && "properties"@.len() == 10 && "required"@.len() == 8
        && "description"@.len() == 11);
    let p = web::tool_parameters(text_key, text_help, number_key, number_help);
    assert(p.array_at("required"@)->0 =~= seq![JsonView::Text(text_key)]);
}

/// A number that was not given has its default.
pub proof fn law_number_has_its_default(args: JsonView, key: Seq<char>, other: u64)
    requires
        other <= usize::MAX,
    ensures
        args.get(key) is None ==> web::count_or(args, key, other) == other,
        args.u64_at(key) matches Some(n) ==> n <= usize::MAX ==> web::count_or(args, key, other)
            == n,
{
}

/// Letters and digits are sent as they are.
pub proof fn law_plain_query_stays(s: Seq<char>)
    requires
        vstd::utf8::is_ascii_chars(s),
        forall|i: int|
            0 <= i < s.len() ==> ('a' <= #[trigger] s[i] && s[i] <= 'z') || ('A' <= s[i] && s[i]
                <= 'Z') || ('0' <= s[i] && s[i] <= '9'),
    ensures
        web::encoded(s) == s,
{
    vstd::utf8::is_ascii_chars_encode_utf8(s);
    let bs = vstd::utf8::encode_utf8(s);
    lemma_plain_bytes(bs);
    assert(bs.map_values(|b: u8| b as char) =~= s) by {
        assert forall|i: int| 0 <= i < s.len() implies bs[i] as char == s[i] by {
            assert(s[i] as u8 == bs[i]);
            assert((s[i] as int) < 128);
        }
    }
}

proof fn lemma_plain_bytes(bs: Seq<u8>)
    requires
        forall|i: int|
            0 <= i < bs.len() ==> (97 <= #[trigger] bs[i] <= 122) || (65 <= bs[i] <= 90) || (48
                <= bs[i] <= 57),
    ensures
        crate::seqs::flat_map(bs, |b: u8| web::encoded_byte(b)) == bs.map_values(
            |b: u8| b as char,
        ),
    decreases bs.len(),
{
    if bs.len() > 0 {
        let front = bs.drop_last();
        assert forall|i: int| 0 <= i < front.len() implies (97 <= #[trigger] front[i] <= 122) || (65
            <= front[i] <= 90) || (48 <= front[i] <= 57) by {
            assert(front[i] == bs[i]);
        }
        lemma_plain_bytes(front);
        let last = bs[bs.len() - 1];
        assert(web::encoded_byte(last) =~= seq![last as char]);
        assert(bs.map_values(|b: u8| b as char) =~= front.map_values(|b: u8| b as char) + seq![
            last as char,
        ]);
    }
}

/// A shortened address is filled with zeros to eight groups.
pub proof fn law_short_address_is_filled(
    x: Seq<char>,
    y: Seq<char>,
    a: Seq<int>,
    b: Seq<int>,
)
    requires
        forall|i: int| 0 <= i < x.len() ==> !#[trigger] text::occurs_at(x + "::"@ + y, "::"@, i),
        web::groups(x) == Some(a),
        web::groups(y) == Some(b),
        a.len() + b.len() <= 7,
    ensures
        web::ipv6(x + "::"@ + y) is Some,
        web::ipv6(x + "::"@ + y)->0.len() == 8,
        a.is_prefix_of(web::ipv6(x + "::"@ + y)->0),
        b.is_suffix_of(web::ipv6(x + "::"@ + y)->0),
        forall|i: int|
            a.len() <= i < 8 - b.len() ==> #[trigger] web::ipv6(x + "::"@ + y)->0[i] == 0,
{
    reveal_strlit("::");
    let s = x + "::"@ + y;
    let n = x.len() as int;
    assert(s.subrange(n, n + 2) =~= "::"@);
    assert(text::occurs_at(s, "::"@, n));
    text::lemma_find_from(s, "::"@, 0);
    assert(text::find(s, "::"@) == Some(n));
    assert(s.take(n) =~= x);
    assert(s.skip(n + 2) =~= y);
}

/// A long address is local where it is the machine's own, none, of a private network, or
/// stands for a short one that is.
pub proof fn law_long_address_is_local(a: Seq<int>)
    requires
        a.len() == 8,
        forall|i: int| 0 <= i < 8 ==> 0 <= #[trigger] a[i] <= 0xffff,
    ensures
        web::local_v6(a) <==> {
            ||| (forall|i: int| 0 <= i < 7 ==> #[trigger] a[i] == 0) && (a[7] == 0 || a[7] == 1)
            ||| 0xfc00 <= a[0] <= 0xfdff
            ||| (forall|i: int| 0 <= i < 5 ==> #[trigger] a[i] == 0) && a[5] == 0xffff && private(
                (a[6] / 256) as nat,
                (a[6] % 256) as nat,
                (a[7] / 256) as nat,
                (a[7] % 256) as nat,
            )
        },
{
    let one = seq![0int, 0, 0, 0, 0, 0, 0, 1];
    let zero = seq![0int, 0, 0, 0, 0, 0, 0, 0];
    let mapped = seq![0int, 0, 0, 0, 0, 0xffff];
    assert(a == one <==> (forall|i: int| 0 <= i < 7 ==> #[trigger] a[i] == 0) && a[7] == 1) by {
        if (forall|i: int| 0 <= i < 7 ==> #[trigger] a[i] == 0) && a[7] == 1 {
            assert(a =~= one);
        }
    }
    assert(a == zero <==> (forall|i: int| 0 <= i < 7 ==> #[trigger] a[i] == 0) && a[7] == 0) by {
        if (forall|i: int| 0 <= i < 7 ==> #[trigger] a[i] == 0) && a[7] == 0 {
            assert(a =~= zero);
        }
    }
    assert(a.take(6) == mapped <==> (forall|i: int| 0 <= i < 5 ==> #[trigger] a[i] == 0) && a[5]
        == 0xffff) by {
        if a.take(6) == mapped {
            assert forall|i: int| 0 <= i < 5 implies #[trigger] a[i] == 0 by {
                assert(a.take(6)[i] == mapped[i]);
            }
            assert(a.take(6)[5] == mapped[5]);
        }
        if (forall|i: int| 0 <= i < 5 ==> #[trigger] a[i] == 0) && a[5] == 0xffff {
            assert(a.take(6) =~= mapped);
        }
    }
    let v = seq![a[6] / 256, a[6] % 256, a[7] / 256, a[7] % 256];
    let w = seq![255int, 255, 255, 255];
    assert(v[0] == a[6] / 256 && v[1] == a[6] % 256 && v[2] == a[7] / 256 && v[3] == a[7] % 256);
    assert(v == w <==> v[0] == 255 && v[1] == 255 && v[2] == 255 && v[3] == 255) by {
        if v[0] == 255 && v[1] == 255 && v[2] == 255 && v[3] == 255 {
            assert(v =~= w);
        }
    }
}

/// The title of a result is the text of its link.
pub proof fn law_title_is_the_text_of_the_link(html: Seq<char>, k: int, gt: int, end: int)
    requires
        0 <= web::ahead(html, k, 17) <= gt < end,
        gt < web::ahead(html, web::ahead(html, k, 17), 20),
        html[gt] == '>',
        forall|i: int| web::ahead(html, k, 17) <= i < gt ==> #[trigger] html[i] != '>',
        text::find_from(html, "</a>"@, gt + 1) == Some(end),
        web::ahead(html, web::ahead(html, k, 17), 20) <= html.len(),
    ensures
        web::html_title(html, k) == Some(web::plain_text(html.subrange(gt + 1, end))),
{
    let from = web::ahead(html, k, 17);
    text::lemma_char_from(html, '>', from);
    let p = text::char_from(html, '>', from);
    assert(p == gt) by {
        if p < gt {
            assert(html[p] == '>');
        }
    }
}

/// A window of a page holds as many characters as its bytes allow.
pub proof fn law_window_is_measured_in_bytes(s: Seq<char>, i: int, n: int)
    requires
        0 <= i <= s.len(),
        0 <= n,
    ensures
        i <= web::ahead(s, i, n) <= s.len(),
        text::byte_len(s.subrange(i, web::ahead(s, i, n))) <= n,
        web::ahead(s, i, n) < s.len() ==> text::byte_len(
            s.subrange(i, web::ahead(s, i, n) + 1),
        ) > n,
    decreases s.len() - i,
{
    if i >= s.len() {
        assert(s.subrange(i, i) =~= Seq::<char>::empty());
    } else {
        let w = text::char_width(s[i]) as int;
        let one = seq![s[i]];
        assert(one.drop_last() =~= Seq::<char>::empty());
        assert(text::byte_len(Seq::<char>::empty()) == 0);
        assert(text::byte_len(one) == w);
        if w > n {
            assert(s.subrange(i, i) =~= Seq::<char>::empty());
            assert(s.subrange(i, i + 1) =~= one);
        } else {
            law_window_is_measured_in_bytes(s, i + 1, n - w);
            let e = web::ahead(s, i + 1, n - w);
            assert(s.subrange(i, e) =~= one + s.subrange(i + 1, e));
            text::lemma_byte_len_concat(one, s.subrange(i + 1, e));
            if e < s.len() {
                assert(s.subrange(i, e + 1) =~= one + s.subrange(i + 1, e + 1));
                text::lemma_byte_len_concat(one, s.subrange(i + 1, e + 1));
            }
        }
    }
}

proof fn lemma_encoding_has_no_mark(bs: Seq<u8>, c: char)
    requires
        c == '&' || c == '"' || c == '\'',
    ensures
        !seqs::flat_map(bs, |b: u8| web::encoded_byte(b)).contains(c),
    decreases bs.len(),
{
    let f = |b: u8| web::encoded_byte(b);
    if bs.len() > 0 {
        let front = bs.drop_last();
        lemma_encoding_has_no_mark(front, c);
        let before = seqs::flat_map(front, f);
        let out = seqs::flat_map(bs, f);
        let n = before.len() as int;
        assert forall|i: int| 0 <= i < out.len() implies #[trigger] out[i] != c by {
            if i < n {
                assert(out[i] == before[i]);
                assert(before.contains(before[i]));
            } else {
                assert(out[i] == web::encoded_byte(bs.last())[i - n]);
            }
        }
    }
}

/// A redirection leads to the address that was encoded in it.
pub proof fn law_redirection_is_undone(a: Seq<char>, url: Seq<char>, b: Seq<char>)
    requires
        vstd::utf8::is_ascii_chars(url),
        forall|i: int|
            0 <= i < a.len() ==> !#[trigger] text::occurs_at(
                a + "uddg="@ + web::encoded(url) + seq!['&'] + b,
                "uddg="@,
                i,
            ),
    ensures
        web::link_target(a + "uddg="@ + web::encoded(url) + seq!['&'] + b) == url,
{
    reveal_strlit("uddg=");
    let v = web::encoded(url);
    let s = a + "uddg="@ + v + seq!['&'] + b;
    let n = a.len() as int;
    assert(s.subrange(n, n + 5) =~= "uddg="@);
    assert(text::occurs_at(s, "uddg="@, n));
    text::lemma_find_from(s, "uddg="@, 0);
    assert(text::find(s, "uddg="@) == Some(n));
    lemma_encoding_has_no_mark(vstd::utf8::encode_utf8(url), '&');
    lemma_encoding_has_no_mark(vstd::utf8::encode_utf8(url), '"');
    lemma_encoding_has_no_mark(vstd::utf8::encode_utf8(url), '\'');
    law_value_ends_at_a_mark(s, n + 5);
    let k = web::value_end(s, n + 5);
    let e = n + 5 + v.len();
    assert(s[e] == '&');
    assert(k == e) by {
        if k < e {
            assert(s[k] == v[k - n - 5]);
            assert(v.contains(v[k - n - 5]));
        }
    }
    assert(s.subrange(n + 5, e) =~= v);
    web::law_decoding_undoes_encoding(url);
}

/// The results of a page are read from its links in order: none before the first link, the
/// first link's first, and the rest from behind it.
pub proof fn law_results_are_read_in_order(
    html: Seq<char>,
    lite: bool,
    class: Seq<char>,
    pos: int,
    room: int,
    k: int,
)
    requires
        lite ==> class == "result-link"@,
        !lite ==> class == "result__a"@,
        0 <= pos <= k < html.len(),
        room > 0,
        text::occurs_at(html, class, k),
        forall|j: int|
            pos <= j < k ==> !#[trigger] text::occurs_at(html, class, j),
    ensures
        ({
            let r = if lite {
                web::lite_result(html, k)
            } else {
                web::html_result(html, k)
            };
            web::results_from(html, lite, pos, room) == match r {
                Some(j) => seq![j] + web::results_from(html, lite, k + 1, room - 1),
                None => web::results_from(html, lite, k + 1, room),
            }
        }),
{
    text::lemma_find_from(html, class, pos);
    let f = text::find_from(html, class, pos);
    assert(f == Some(k)) by {
        if f is None {
            assert(!text::occurs_at(html, class, k));
        } else if f->0 > k {
            assert(!text::occurs_at(html, class, k));
        }
    }
}

/// A page without links has no results.
pub proof fn law_no_link_no_result(html: Seq<char>, lite: bool, room: int)
    requires
        lite ==> !text::contains(html, "result-link"@),
        !lite ==> !text::contains(html, "result__a"@),
    ensures
        web::results_from(html, lite, 0, room).len() == 0,
{
    text::lemma_contains(html, "result-link"@);
    text::lemma_contains(html, "result__a"@);
}

/// A result of the page has the title of its link and the address that the text around the
/// link leads to.
pub proof fn law_result_is_read_from_its_link(html: Seq<char>, k: int)
    requires
        web::html_result(html, k) is Some,
    ensures
        ({
            let r = web::html_result(html, k)->0;
            let around = html.subrange(web::behind(html, k, 300), web::ahead(html, k, 200));
            &&& web::html_title(html, k) is Some
            &&& r.text_at("title"@) == Some(text::trim(web::html_title(html, k)->0))
            &&& r.text_at("url"@) == Some(web::link_target(around))
            &&& r.text_at("snippet"@) is Some
        }),
{
    let around = html.subrange(web::behind(html, k, 300), web::ahead(html, k, 200));
    law_result_is_told(web::html_title(html, k)->0, web::link_target(around), Seq::empty());
    let snippet = if web::ahead(html, k, 300) < html.len() {
        web::element_text(html, "result__snippet"@, web::ahead(html, k, 300), 50, 300)
    } else {
        Seq::empty()
    };
    law_result_is_told(web::html_title(html, k)->0, web::link_target(around), snippet);
}

/// A snippet is the text of the element that follows its class, up to the element's end.
pub proof fn law_snippet_is_the_text_of_its_element(
    html: Seq<char>,
    class: Seq<char>,
    k: int,
    gt: int,
    end: int,
    tag: int,
    max: int,
)
    requires
        0 <= k,
        text::find_from(html, class, 0) == Some(k),
        k + class.len() <= gt < web::ahead(html, k + class.len(), tag) <= html.len(),
        html[gt] == '>',
        forall|i: int| k + class.len() <= i < gt ==> #[trigger] html[i] != '>',
        text::find_from(html, "</"@, gt + 1) == Some(end),
        end < web::ahead(html, gt + 1, max),
    ensures
        web::element_text(html, class, 0, tag, max) == web::plain_text(html.subrange(gt + 1, end)),
{
    let from = k + class.len();
    text::lemma_char_from(html, '>', from);
    let p = text::char_from(html, '>', from);
    assert(p == gt) by {
        if p < gt {
            assert(html[p] == '>');
        }
    }
}

} // verus!
