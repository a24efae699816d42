//! Web access: what may be fetched, and what is read out of the pages.
//!
//! Only `http` and `https` may be fetched, and no private or loopback addresses: on
//! a developer's machine those are the cloud metadata endpoint, the container
//! network, and whatever listens on localhost.
use crate::text;
use crate::seqs;
use crate::llm::wire;
use crate::llm::sse;
use crate::json;
use crate::agent::summarizing;
use crate::json::{Json, JsonMap, JsonView};
use crate::llm::sse::lossy_string;
use crate::llm::types::ToolDefinition;
use crate::llm::wire::text_array_json;
use crate::text::{
    occurs, width_of, ascii_lowercase_of, chars_of, contains_str, ends_with_str, find_char,
    find_chars, join_strs, lowercase_of, replace_str, same, split_char, starts_with_str, string_of,
    trim_str, words_of,
};
use super::summarizing::truncate_str;
use vstd::prelude::*;

verus! {

// ── Addresses ──────────────────────────────────────────────────────────────

/// The value of a hexadecimal digit.
pub open spec fn hex_digit(c: char) -> Option<int> {
    if '0' <= c && c <= '9' {
        Some(c as int - '0' as int)
    } else if 'a' <= c && c <= 'f' {
        Some(c as int - 'a' as int + 10)
    } else if 'A' <= c && c <= 'F' {
        Some(c as int - 'A' as int + 10)
    } else {
        None
    }
}

/// The number that digits of a base write; `None` if a character is no digit.
pub open spec fn number(s: Seq<char>, base: int) -> Option<int>
    decreases s.len(),
{
    if s.len() == 0 {
        Some(0)
    } else {
        match (number(s.drop_last(), base), hex_digit(s.last())) {
            (Some(n), Some(d)) => if d < base {
                Some(n * base + d)
            } else {
                None
            },
            _ => None,
        }
    }
}

/// The number that an octet of an IPv4 address writes: at most 255, without leading
/// zeros.
pub open spec fn octet(s: Seq<char>) -> Option<int> {
    if s.len() == 0 || s.len() > 3 || (s.len() > 1 && s[0] == '0') {
        None
    } else {
        match number(s, 10) {
            Some(n) => if n <= 255 {
                Some(n)
            } else {
                None
            },
            None => None,
        }
    }
}

/// The number that a group of an IPv6 address writes: one to four hexadecimal
/// digits.
pub open spec fn group(s: Seq<char>) -> Option<int> {
    if s.len() == 0 || s.len() > 4 {
        None
    } else {
        number(s, 16)
    }
}

/// The numbers of parts, of octets or of groups; `None` if a part writes none.
pub open spec fn numbers(parts: Seq<Seq<char>>, octets: bool) -> Option<Seq<int>>
    decreases parts.len(),
{
    if parts.len() == 0 {
        Some(Seq::empty())
    } else {
        match (numbers(parts.drop_last(), octets), if octets {
            octet(parts.last())
        } else {
            group(parts.last())
        }) {
            (Some(ns), Some(n)) => Some(ns.push(n)),
            _ => None,
        }
    }
}

/// The octets of an IPv4 address.
pub open spec fn ipv4(s: Seq<char>) -> Option<Seq<int>> {
    match numbers(text::split(s, '.'), true) {
        Some(ns) => if ns.len() == 4 {
            Some(ns)
        } else {
            None
        },
        None => None,
    }
}

/// The groups of one side of an IPv6 address; an empty side has none.
pub open spec fn groups(s: Seq<char>) -> Option<Seq<int>> {
    if s.len() == 0 {
        Some(Seq::empty())
    } else {
        numbers(text::split(s, ':'), false)
    }
}

/// The eight groups of an IPv6 address as a URL writes it: hexadecimal groups, of
/// which `::` may stand for a run of zeros.
pub open spec fn ipv6(s: Seq<char>) -> Option<Seq<int>> {
    match text::find(s, "::"@) {
        Some(k) => match (groups(s.take(k)), groups(s.skip(k + 2))) {
            (Some(a), Some(b)) => if a.len() + b.len() <= 7 {
                Some(a + Seq::new((8 - a.len() - b.len()) as nat, |i: int| 0int) + b)
            } else {
                None
            },
            _ => None,
        },
        None => match groups(s) {
            Some(a) => if a.len() == 8 {
                Some(a)
            } else {
                None
            },
            None => None,
        },
    }
}

/// Whether an IPv4 address is not of the public internet: loopback, private,
/// link-local, broadcast, or of the network zero.
pub open spec fn local_v4(a: Seq<int>) -> bool {
    ||| a[0] == 127
    ||| a[0] == 10
    ||| a[0] == 172 && 16 <= a[1] <= 31
    ||| a[0] == 192 && a[1] == 168
    ||| a[0] == 169 && a[1] == 254
    ||| a == seq![255int, 255, 255, 255]
    ||| a[0] == 0
}

/// The IPv4 address that an IPv6 address maps: `::ffff:a:b` stands for the four
/// octets of `a` and `b`.
pub open spec fn mapped_v4(a: Seq<int>) -> Option<Seq<int>> {
    if a.take(6) == seq![0int, 0, 0, 0, 0, 0xffff] {
        Some(seq![a[6] / 256, a[6] % 256, a[7] / 256, a[7] % 256])
    } else {
        None
    }
}

/// Whether an IPv6 address is not of the public internet: loopback, unspecified,
/// unique local, or one that maps such an IPv4 address.
pub open spec fn local_v6(a: Seq<int>) -> bool {
    ||| a == seq![0int, 0, 0, 0, 0, 0, 0, 1]
    ||| a == seq![0int, 0, 0, 0, 0, 0, 0, 0]
    ||| 0xfc00 <= a[0] <= 0xfdff
    ||| match mapped_v4(a) {
        Some(b) => local_v4(b),
        None => false,
    }
}

/// Whether a text is an address that is not of the public internet.
pub open spec fn local_address(s: Seq<char>) -> bool {
    match ipv4(s) {
        Some(a) => local_v4(a),
        None => match ipv6(s) {
            Some(a) => local_v6(a),
            None => false,
        },
    }
}

fn digit_of(c: char, base: u32) -> (r: Option<u32>)
    requires
        base <= 16,
    ensures
        match r {
            Some(d) => hex_digit(c) == Some(d as int) && d < base,
            None => match hex_digit(c) {
                Some(d) => d >= base,
                None => true,
            },
        },
{
    let n: u32 = c as u32;
    let d: u32 = if '0' <= c && c <= '9' {
        n - 48
    } else if 'a' <= c && c <= 'f' {
        n - 87
    } else if 'A' <= c && c <= 'F' {
        n - 55
    } else {
        return None;
    };
    if d < base {
        Some(d)
    } else {
        None
    }
}

proof fn lemma_number_prefix(s: Seq<char>, base: int, k: int)
    requires
        0 <= k <= s.len(),
        number(s.take(k), base) is None,
    ensures
        number(s, base) is None,
    decreases s.len(),
{
    if k < s.len() {
        assert(s.drop_last().take(k) =~= s.take(k));
        lemma_number_prefix(s.drop_last(), base, k);
    } else {
        assert(s.take(k) =~= s);
    }
}

fn read_number(s: &str, base: u32) -> (r: Option<u32>)
    requires
        s@.len() <= 4,
        base == 10 || base == 16,
    ensures
        match r {
            Some(n) => number(s@, base as int) == Some(n as int) && n < 65536,
            None => number(s@, base as int) is None,
        },
{
    let v = chars_of(s);
    let mut n: u32 = 0;
    let mut i: usize = 0;
    while i < v.len()
        invariant
            i <= v@.len() <= 4,
            v@ == s@,
            base == 10 || base == 16,
            number(s@.take(i as int), base as int) == Some(n as int),
            i == 0 ==> n == 0,
            i == 1 ==> n < 16,
            i == 2 ==> n < 256,
            i == 3 ==> n < 4096,
            i == 4 ==> n < 65536,
        decreases v@.len() - i,
    {
        proof {
            assert(s@.take(i + 1).drop_last() =~= s@.take(i as int));
            assert(s@.take(i + 1).last() == v@[i as int]);
        }
        match digit_of(v[i], base) {
            Some(d) => {
                if base == 10 {
                    n = n * 10 + d;
                } else {
                    n = n * 16 + d;
                }
            },
            None => {
                proof {
                    lemma_number_prefix(s@, base as int, i + 1);
                }
                return None;
            },
        }
        i += 1;
    }
    assert(s@.take(i as int) =~= s@);
    Some(n)
}

fn read_octet(s: &str) -> (r: Option<u32>)
    ensures
        match r {
            Some(n) => octet(s@) == Some(n as int),
            None => octet(s@) is None,
        },
{
    let v = chars_of(s);
    if v.len() == 0 || v.len() > 3 || (v.len() > 1 && v[0] == '0') {
        return None;
    }
    match read_number(s, 10) {
        Some(n) => if n <= 255 {
            Some(n)
        } else {
            None
        },
        None => None,
    }
}

fn read_group(s: &str) -> (r: Option<u32>)
    ensures
        match r {
            Some(n) => group(s@) == Some(n as int),
            None => group(s@) is None,
        },
{
    let v = chars_of(s);
    if v.len() == 0 || v.len() > 4 {
        return None;
    }
    read_number(s, 16)
}

/// Numbers as integers.
pub open spec fn ints(v: Seq<u32>) -> Seq<int> {
    v.map_values(|n: u32| n as int)
}

proof fn lemma_numbers_prefix(parts: Seq<Seq<char>>, octets: bool, k: int)
    requires
        0 <= k <= parts.len(),
        numbers(parts.take(k), octets) is None,
    ensures
        numbers(parts, octets) is None,
    decreases parts.len(),
{
    if k < parts.len() {
        assert(parts.drop_last().take(k) =~= parts.take(k));
        lemma_numbers_prefix(parts.drop_last(), octets, k);
    } else {
        assert(parts.take(k) =~= parts);
    }
}

fn read_numbers(parts: &Vec<String>, octets: bool) -> (r: Option<Vec<u32>>)
    ensures
        match r {
            Some(v) => numbers(text::views(parts@), octets) == Some(ints(v@)) && v@.len()
                == parts@.len(),
            None => numbers(text::views(parts@), octets) is None,
        },
{
    let ghost all = text::views(parts@);
    let mut out: Vec<u32> = Vec::new();
    let mut i: usize = 0;
    assert(ints(out@) =~= Seq::empty());
    while i < parts.len()
        invariant
            i <= parts@.len(),
            all == text::views(parts@),
            out@.len() == i,
            numbers(all.take(i as int), octets) == Some(ints(out@)),
        decreases parts@.len() - i,
    {
        proof {
            assert(all.take(i + 1).drop_last() =~= all.take(i as int));
            assert(all.take(i + 1).last() == parts@[i as int]@);
        }
        let read = if octets {
            read_octet(parts[i].as_str())
        } else {
            read_group(parts[i].as_str())
        };
        match read {
            Some(n) => {
                let ghost before = ints(out@);
                out.push(n);
                assert(ints(out@) =~= before.push(n as int));
            },
            None => {
                proof {
                    lemma_numbers_prefix(all, octets, i + 1);
                }
                return None;
            },
        }
        i += 1;
    }
    assert(all.take(i as int) =~= all);
    Some(out)
}

fn read_ipv4(s: &str) -> (r: Option<Vec<u32>>)
    ensures
        match r {
            Some(v) => ipv4(s@) == Some(ints(v@)) && v@.len() == 4,
            None => ipv4(s@) is None,
        },
{
    let parts = split_char(s, '.');
    match read_numbers(&parts, true) {
        Some(v) => if v.len() == 4 {
            Some(v)
        } else {
            None
        },
        None => None,
    }
}

fn read_groups(s: &str) -> (r: Option<Vec<u32>>)
    ensures
        match r {
            Some(v) => groups(s@) == Some(ints(v@)),
            None => groups(s@) is None,
        },
{
    if s.is_empty() {
        let none: Vec<u32> = Vec::new();
        assert(ints(none@) =~= Seq::empty());
        return Some(none);
    }
    let parts = split_char(s, ':');
    read_numbers(&parts, false)
}

fn read_ipv6(s: &str) -> (r: Option<Vec<u32>>)
    ensures
        match r {
            Some(v) => ipv6(s@) == Some(ints(v@)) && v@.len() == 8,
            None => ipv6(s@) is None,
        },
{
    let v = chars_of(s);
    let mark = chars_of("::");
    proof {
        reveal_strlit("::");
        assert("::"@.len() == 2);
        text::lemma_find_from(s@, "::"@, 0);
    }
    match find_chars(&v, &mark, 0) {
        Some(k) => {
            let left = string_of(&v, 0, k);
            let right = string_of(&v, k + 2, v.len());
            proof {
                assert(left@ =~= s@.take(k as int));
                assert(right@ =~= s@.skip(k + 2));
            }
            let mut a = match read_groups(left.as_str()) {
                Some(a) => a,
                None => {
                    return None;
                },
            };
            let mut b = match read_groups(right.as_str()) {
                Some(b) => b,
                None => {
                    return None;
                },
            };
            if a.len() > 7 || b.len() > 7 - a.len() {
                return None;
            }
            let ghost (x, y) = (a@, b@);
            let zeros: usize = 8 - a.len() - b.len();
            let mut i: usize = 0;
            while i < zeros
                invariant
                    i <= zeros,
                    a@ == x + Seq::new(i as nat, |j: int| 0u32),
                decreases zeros - i,
            {
                a.push(0);
                assert(a@ =~= x + Seq::new((i + 1) as nat, |j: int| 0u32));
                i += 1;
            }
            a.append(&mut b);
            assert(ints(a@) =~= ints(x) + Seq::new(zeros as nat, |i: int| 0int) + ints(y));
            Some(a)
        },
        None => match read_groups(s) {
            Some(a) => if a.len() == 8 {
                Some(a)
            } else {
                None
            },
            None => None,
        },
    }
}

fn is_local_v4(a: u32, b: u32, c: u32, d: u32) -> (r: bool)
    ensures
        r == local_v4(seq![a as int, b as int, c as int, d as int]),
{
    proof {
        let w = seq![a as int, b as int, c as int, d as int];
        if w == seq![255int, 255, 255, 255] {
            assert(w[0] == 255 && w[1] == 255 && w[2] == 255 && w[3] == 255);
        }
    }
    a == 127 || a == 10 || (a == 172 && 16 <= b && b <= 31) || (a == 192 && b == 168) || (a == 169
        && b == 254) || (a == 255 && b == 255 && c == 255 && d == 255) || a == 0
}

fn is_local(s: &str) -> (r: bool)
    ensures
        r == local_address(s@),
{
    if let Some(a) = read_ipv4(s) {
        assert(ints(a@) =~= seq![a@[0] as int, a@[1] as int, a@[2] as int, a@[3] as int]);
        return is_local_v4(a[0], a[1], a[2], a[3]);
    }
    if let Some(a) = read_ipv6(s) {
        let head_zero = a[0] == 0 && a[1] == 0 && a[2] == 0 && a[3] == 0 && a[4] == 0 && a[5] == 0
            && a[6] == 0;
        proof {
            let w = ints(a@);
            assert(w.len() == 8);
            if head_zero && a@[7] == 1 {
                assert(w =~= seq![0int, 0, 0, 0, 0, 0, 0, 1]);
            }
            if head_zero && a@[7] == 0 {
                assert(w =~= seq![0int, 0, 0, 0, 0, 0, 0, 0]);
            }
            if w == seq![0int, 0, 0, 0, 0, 0, 0, 1] || w == seq![0int, 0, 0, 0, 0, 0, 0, 0] {
                assert(w[0] == 0 && w[1] == 0 && w[2] == 0 && w[3] == 0 && w[4] == 0 && w[5] == 0
                    && w[6] == 0 && (w[7] == 1 || w[7] == 0));
            }
        }
        if (head_zero && (a[7] == 1 || a[7] == 0)) || (0xfc00 <= a[0] && a[0] <= 0xfdff) {
            return true;
        }
        let mapped = a[0] == 0 && a[1] == 0 && a[2] == 0 && a[3] == 0 && a[4] == 0 && a[5]
            == 0xffff;
        proof {
            let w = ints(a@);
            if mapped {
                assert(w.take(6) =~= seq![0int, 0, 0, 0, 0, 0xffff]);
            } else if w.take(6) == seq![0int, 0, 0, 0, 0, 0xffff] {
                let t = w.take(6);
                assert(t[0] == 0 && t[1] == 0 && t[2] == 0 && t[3] == 0 && t[4] == 0 && t[5]
                    == 0xffff);
            }
        }
        return mapped && is_local_v4(a[6] / 256, a[6] % 256, a[7] / 256, a[7] % 256);
    }
    false
}

// ── Which URLs are refused ─────────────────────────────────────────────────

/// The parts of a URL that decide whether it may be fetched.
#[derive(Debug)]
pub struct UrlParts {
    pub scheme: String,
    pub host: Option<String>,
}

/// What `reqwest::Url::parse` reads out of a text: the scheme and the host, or why
/// it is no URL.
pub uninterp spec fn parsed_url(text: Seq<char>) -> Result<
    (Seq<char>, Option<Seq<char>>),
    Seq<char>,
>;

/// Parts as texts.
pub open spec fn parts_view(p: Result<UrlParts, String>) -> Result<
    (Seq<char>, Option<Seq<char>>),
    Seq<char>,
> {
    match p {
        Ok(u) => Ok((u.scheme@, json::opt_text(u.host))),
        Err(e) => Err(e@),
    }
}

/// `reqwest::Url::parse`: reads a URL. Handed out are its scheme and its host, as
/// `scheme` and `host_str` give them, or the message of the error.
#[verifier::external_body]
fn parse_url(url: &str) -> (r: Result<UrlParts, String>)
    ensures
        parts_view(r) == parsed_url(url@),
{
    match reqwest::Url::parse(url) {
        Ok(u) => Ok(
            UrlParts {
                scheme: u.scheme().to_owned(),
                host: u.host_str().map(|h| h.to_owned()),
            },
        ),
        Err(e) => Err(e.to_string()),
    }
}

/// Whether a character is a square bracket.
pub open spec fn is_bracket(c: char) -> bool {
    c == '[' || c == ']'
}

/// A text without brackets at its start.
pub open spec fn open_bracket(s: Seq<char>) -> Seq<char>
    decreases s.len(),
{
    if s.len() > 0 && is_bracket(s[0]) {
        open_bracket(s.skip(1))
    } else {
        s
    }
}

/// A text without brackets at its end.
pub open spec fn close_bracket(s: Seq<char>) -> Seq<char>
    decreases s.len(),
{
    if s.len() > 0 && is_bracket(s.last()) {
        close_bracket(s.drop_last())
    } else {
        s
    }
}

/// A text without brackets at both ends.
pub open spec fn unbracketed(s: Seq<char>) -> Seq<char> {
    close_bracket(open_bracket(s))
}

/// Whether a host in lower case is a local name.
pub open spec fn local_name(lowered: Seq<char>) -> bool {
    lowered == "localhost"@ || text::ends_with(lowered, ".localhost"@) || text::ends_with(
        lowered,
        ".internal"@,
    )
}

/// Why a URL is not fetched, if it is not.
pub open spec fn refusal(
    parsed: Result<(Seq<char>, Option<Seq<char>>), Seq<char>>,
) -> Option<Seq<char>> {
    match parsed {
        Err(e) => Some("that is not a valid URL: "@ + e),
        Ok((scheme, host)) => if scheme != "http"@ && scheme != "https"@ {
            Some(
                "only http and https are allowed; '"@ + scheme + "' is not a web request"@,
            )
        } else {
            match host {
                None => Some("that URL has no host"@),
                Some(h) => {
                    let lowered = text::ascii_lowercase(h);
                    let address = unbracketed(lowered);
                    if local_name(lowered) {
                        Some("'"@ + h + "' is a local address, which is not fetchable"@)
                    } else if local_address(address) {
                        Some(
                            address
                                + " is a private or loopback address; web tools reach the public internet only"@,
                        )
                    } else {
                        None
                    }
                },
            }
        },
    }
}

fn strip_brackets(s: &str) -> (r: String)
    ensures
        r@ == unbracketed(s@),
{
    let v = chars_of(s);
    let mut i: usize = 0;
    assert(s@.skip(0) =~= s@);
    while i < v.len() && (v[i] == '[' || v[i] == ']')
        invariant
            i <= v@.len(),
            v@ == s@,
            open_bracket(s@) == open_bracket(s@.skip(i as int)),
        decreases v@.len() - i,
    {
        assert(s@.skip(i as int).skip(1) =~= s@.skip(i + 1));
        i += 1;
    }
    let ghost f = s@.skip(i as int);
    assert(open_bracket(s@) == f);
    let mut n: usize = v.len();
    assert(s@.subrange(i as int, n as int) =~= f);
    while n > i && (v[n - 1] == '[' || v[n - 1] == ']')
        invariant
            i <= n <= v@.len(),
            v@ == s@,
            close_bracket(f) == close_bracket(s@.subrange(i as int, n as int)),
        decreases n,
    {
        assert(s@.subrange(i as int, n as int).last() == v@[n - 1]);
        assert(s@.subrange(i as int, n as int).drop_last() =~= s@.subrange(i as int, n - 1));
        n -= 1;
    }
    proof {
        if n > i {
            assert(s@.subrange(i as int, n as int).last() == v@[n - 1]);
        }
    }
    string_of(&v, i, n)
}

/// Why a URL with these parts is not fetched; `None` if it may be.
pub fn refuse_parts(parsed: &Result<UrlParts, String>) -> (r: Option<String>)
    ensures
        json::opt_text(r) == refusal(parts_view(*parsed)),
{
    let u = match parsed {
        Ok(u) => u,
        Err(e) => {
            let mut out = "that is not a valid URL: ".to_owned();
            out.push_str(e.as_str());
            return Some(out);
        },
    };
    if !same(u.scheme.as_str(), "http") && !same(u.scheme.as_str(), "https") {
        let mut out = "only http and https are allowed; '".to_owned();
        out.push_str(u.scheme.as_str());
        out.push_str("' is not a web request");
        return Some(out);
    }
    let host = match &u.host {
        Some(h) => h,
        None => {
            return Some("that URL has no host".to_owned());
        },
    };
    let lowered = ascii_lowercase_of(host.as_str());
    if same(lowered.as_str(), "localhost") || ends_with_str(lowered.as_str(), ".localhost")
        || ends_with_str(lowered.as_str(), ".internal") {
        let mut out = "'".to_owned();
        out.push_str(host.as_str());
        out.push_str("' is a local address, which is not fetchable");
        return Some(out);
    }
    let mut address = strip_brackets(lowered.as_str());
    if is_local(address.as_str()) {
        address.push_str(
            " is a private or loopback address; web tools reach the public internet only",
        );
        return Some(address);
    }
    None
}

/// Reject a URL that a fetch tool has no business following.
///
/// Returns the reason for refusal, phrased for the model so that it can adapt rather
/// than retry.
pub fn refuse_url(url: &str) -> (r: Option<String>)
    ensures
        json::opt_text(r) == refusal(parsed_url(url@)),
{
    let parsed = parse_url(url);
    refuse_parts(&parsed)
}

/// Nothing but the web is fetched: a URL that is not refused has the scheme `http` or
/// `https` and a host that is neither a local name nor a local address.
pub proof fn law_only_public_web(parsed: Result<(Seq<char>, Option<Seq<char>>), Seq<char>>)
    ensures
        refusal(parsed) is None ==> (parsed matches Ok((scheme, Some(host))) && (scheme == "http"@
            || scheme == "https"@) && !local_name(text::ascii_lowercase(host)) && !local_address(
            unbracketed(text::ascii_lowercase(host)),
        )),
{
}

// ── URL encoding ───────────────────────────────────────────────────────────

/// The upper-case hexadecimal digit of a number below sixteen.
pub open spec fn hex_upper(n: int) -> char {
    if n < 10 {
        ('0' as int + n) as char
    } else {
        ('A' as int + n - 10) as char
    }
}

/// Whether a byte stands for itself in a query.
pub open spec fn unreserved(b: u8) -> bool {
    ||| 65 <= b <= 90
    ||| 97 <= b <= 122
    ||| 48 <= b <= 57
    ||| b == 45
    ||| b == 46
    ||| b == 95
    ||| b == 126
}

/// A byte in a query.
pub open spec fn encoded_byte(b: u8) -> Seq<char> {
    if unreserved(b) {
        seq![b as char]
    } else if b == 32 {
        seq!['+']
    } else {
        seq!['%', hex_upper(b as int / 16), hex_upper(b as int % 16)]
    }
}

/// A text in a query: its bytes in UTF-8, each encoded.
pub open spec fn encoded(s: Seq<char>) -> Seq<char> {
    seqs::flat_map(vstd::utf8::encode_utf8(s), |b: u8| encoded_byte(b))
}

fn hex_char(n: u8) -> (r: char)
    requires
        n < 16,
    ensures
        r == hex_upper(n as int),
{
    match n {
        0 => '0',
        1 => '1',
        2 => '2',
        3 => '3',
        4 => '4',
        5 => '5',
        6 => '6',
        7 => '7',
        8 => '8',
        9 => '9',
        10 => 'A',
        11 => 'B',
        12 => 'C',
        13 => 'D',
        14 => 'E',
        _ => 'F',
    }
}

/// A text as it stands in a query.
pub fn urlencoding(s: &str) -> (r: String)
    ensures
        r@ == encoded(s@),
{
    let bytes = s.as_bytes();
    let ghost bs = vstd::utf8::encode_utf8(s@);
    let ghost f = |b: u8| encoded_byte(b);
    let n: usize = bytes.len();
    let mut out = String::new();
    let mut i: usize = 0;
    assert(out@ =~= seqs::flat_map(bs.take(0), f));
    while i < n
        invariant
            i <= n,
            n == bytes@.len(),
            bytes@ == bs,
            f == (|b: u8| encoded_byte(b)),
            out@ == seqs::flat_map(bs.take(i as int), f),
        decreases n - i,
    {
        let b: u8 = bytes[i];
        let ghost before = out@;
        proof {
            seqs::lemma_take_push(bs, i as int);
            seqs::lemma_flat_map_push(bs.take(i as int), f, b);
        }
        if (65 <= b && b <= 90) || (97 <= b && b <= 122) || (48 <= b && b <= 57) || b == 45 || b
            == 46 || b == 95 || b == 126 {
            out.push(b as char);
            assert(out@ =~= before + seq![b as char]);
        } else if b == 32 {
            out.push('+');
            assert(out@ =~= before + seq!['+']);
        } else {
            out.push('%');
            out.push(hex_char(b / 16));
            out.push(hex_char(b % 16));
            assert(out@ =~= before + encoded_byte(b));
        }
        i += 1;
    }
    assert(bs.take(i as int) =~= bs);
    out
}

/// The number that two characters after a percent sign write: two hexadecimal
/// digits, or a plus sign and one.
pub open spec fn hex_pair(a: u8, b: u8) -> Option<int> {
    match (hex_digit(a as char), hex_digit(b as char)) {
        (Some(x), Some(y)) => Some(16 * x + y),
        (None, Some(y)) => if a == 43 {
            Some(y)
        } else {
            None
        },
        _ => None,
    }
}

/// The text of query bytes from `i` on. Each byte becomes the character with its
/// number.
pub open spec fn decoded_from(bs: Seq<u8>, i: int) -> Seq<char>
    decreases bs.len() - i,
{
    if i < 0 || i >= bs.len() {
        Seq::empty()
    } else if bs[i] == 37 && i + 2 < bs.len() && hex_pair(bs[i + 1], bs[i + 2]) is Some {
        seq![hex_pair(bs[i + 1], bs[i + 2])->0 as char] + decoded_from(bs, i + 3)
    } else if bs[i] == 43 {
        seq![' '] + decoded_from(bs, i + 1)
    } else {
        seq![bs[i] as char] + decoded_from(bs, i + 1)
    }
}

fn byte_digit(b: u8) -> (r: Option<u8>)
    ensures
        match r {
            Some(d) => hex_digit(b as char) == Some(d as int) && d < 16,
            None => hex_digit(b as char) is None,
        },
{
    if 48 <= b && b <= 57 {
        Some(b - 48)
    } else if 97 <= b && b <= 102 {
        Some(b - 87)
    } else if 65 <= b && b <= 70 {
        Some(b - 55)
    } else {
        None
    }
}

fn byte_pair(a: u8, b: u8) -> (r: Option<u8>)
    ensures
        match r {
            Some(n) => hex_pair(a, b) == Some(n as int),
            None => hex_pair(a, b) is None,
        },
{
    match (byte_digit(a), byte_digit(b)) {
        (Some(x), Some(y)) => Some(16 * x + y),
        (None, Some(y)) => if a == 43 {
            Some(y)
        } else {
            None
        },
        _ => None,
    }
}

/// The text that a part of a query stands for.
pub fn url_decode(s: &str) -> (r: String)
    ensures
        r@ == decoded_from(vstd::utf8::encode_utf8(s@), 0),
{
    let bytes = s.as_bytes();
    let ghost bs = vstd::utf8::encode_utf8(s@);
    let n: usize = bytes.len();
    let mut out = String::new();
    let mut i: usize = 0;
    assert(out@ + decoded_from(bs, 0) =~= decoded_from(bs, 0));
    while i < n
        invariant
            i <= n,
            n == bytes@.len(),
            bytes@ == bs,
            out@ + decoded_from(bs, i as int) == decoded_from(bs, 0),
        decreases n - i,
    {
        let ghost before = out@;
        let ghost at = i as int;
        let b: u8 = bytes[i];
        let mut pair: Option<u8> = None;
        if b == 37 && n - i > 2 {
            pair = byte_pair(bytes[i + 1], bytes[i + 2]);
        }
        match pair {
            Some(code) => {
                out.push(code as char);
                i += 3;
                assert(before + (seq![code as char] + decoded_from(bs, at + 3)) =~= out@
                    + decoded_from(bs, at + 3));
            },
            None => {
                if b == 43 {
                    out.push(' ');
                    assert(before + (seq![' '] + decoded_from(bs, at + 1)) =~= out@ + decoded_from(
                        bs,
                        at + 1,
                    ));
                } else {
                    out.push(b as char);
                    assert(before + (seq![b as char] + decoded_from(bs, at + 1)) =~= out@
                        + decoded_from(bs, at + 1));
                }
                i += 1;
            },
        }
    }
    assert(out@ + decoded_from(bs, i as int) =~= out@);
    out
}

/// Encoding a longer text starts like encoding its beginning.
proof fn lemma_encoded_prefix(bs: Seq<u8>, f: spec_fn(u8) -> Seq<char>, k: int)
    requires
        0 <= k <= bs.len(),
    ensures
        seqs::flat_map(bs.take(k), f).len() <= seqs::flat_map(bs, f).len(),
        seqs::flat_map(bs, f).take(seqs::flat_map(bs.take(k), f).len() as int) == seqs::flat_map(
            bs.take(k),
            f,
        ),
    decreases bs.len(),
{
    if k == bs.len() {
        assert(bs.take(k) =~= bs);
        assert(seqs::flat_map(bs, f).take(seqs::flat_map(bs, f).len() as int) =~= seqs::flat_map(
            bs,
            f,
        ));
    } else {
        assert(bs.drop_last().take(k) =~= bs.take(k));
        lemma_encoded_prefix(bs.drop_last(), f, k);
        let n = seqs::flat_map(bs.take(k), f).len() as int;
        assert(seqs::flat_map(bs, f).take(n) =~= seqs::flat_map(bs.drop_last(), f).take(n));
    }
}

proof fn lemma_encoded_is_ascii(bs: Seq<u8>)
    requires
        forall|i: int| 0 <= i < bs.len() ==> #[trigger] bs[i] < 128,
    ensures
        vstd::utf8::is_ascii_chars(seqs::flat_map(bs, |b: u8| encoded_byte(b))),
    decreases bs.len(),
{
    let f = |b: u8| encoded_byte(b);
    if bs.len() > 0 {
        let front = bs.drop_last();
        assert forall|i: int| 0 <= i < front.len() implies #[trigger] front[i] < 128 by {
            assert(front[i] == bs[i]);
        }
        lemma_encoded_is_ascii(front);
        let out = seqs::flat_map(bs, f);
        let n = seqs::flat_map(front, f).len() as int;
        let b = bs.last();
        assert(bs[bs.len() - 1] < 128);
        assert forall|i: int| 0 <= i < out.len() implies '\0' <= #[trigger] out[i] <= '\u{7f}' by {
            if i < n {
                assert(out[i] == seqs::flat_map(front, f)[i]);
            } else {
                assert(out[i] == encoded_byte(b)[i - n]);
            }
        }
    }
}

/// Decoding from the place of the `k`-th byte gives the rest of the text.
proof fn lemma_decoded_rest(bs: Seq<u8>, k: int)
    requires
        forall|i: int| 0 <= i < bs.len() ==> #[trigger] bs[i] < 128,
        0 <= k <= bs.len(),
    ensures
        ({
            let f = |b: u8| encoded_byte(b);
            decoded_from(
                vstd::utf8::encode_utf8(seqs::flat_map(bs, f)),
                seqs::flat_map(bs.take(k), f).len() as int,
            ) == bs.skip(k).map_values(|b: u8| b as char)
        }),
    decreases bs.len() - k,
{
    let f = |b: u8| encoded_byte(b);
    let es = seqs::flat_map(bs, f);
    let eb = vstd::utf8::encode_utf8(es);
    let at = seqs::flat_map(bs.take(k), f).len() as int;
    let rest = bs.skip(k).map_values(|b: u8| b as char);
    lemma_encoded_is_ascii(bs);
    vstd::utf8::is_ascii_chars_encode_utf8(es);
    if k == bs.len() {
        assert(bs.take(k) =~= bs);
        assert(rest =~= Seq::empty());
    } else {
        lemma_decoded_rest(bs, k + 1);
        lemma_encoded_prefix(bs, f, k);
        lemma_encoded_prefix(bs, f, k + 1);
        seqs::lemma_take_push(bs, k);
        seqs::lemma_flat_map_push(bs.take(k), f, bs[k]);
        let b = bs[k];
        let piece = encoded_byte(b);
        let upto = seqs::flat_map(bs.take(k + 1), f);
        assert(upto.len() == at + piece.len());
        assert forall|i: int| 0 <= i < piece.len() implies #[trigger] es[at + i] == piece[i] by {
            assert(es.take(upto.len() as int)[at + i] == upto[at + i]);
        }
        assert(rest =~= seq![b as char] + bs.skip(k + 1).map_values(|b: u8| b as char));
        assert(es[at + 0] == piece[0]);
        assert(eb[at] == es[at] as u8);
        if !unreserved(b) && b != 32 {
            assert(es[at + 1] == piece[1]);
            assert(es[at + 2] == piece[2]);
            assert(eb[at + 1] == es[at + 1] as u8);
            assert(eb[at + 2] == es[at + 2] as u8);
            assert(hex_digit(piece[1]) == Some(b as int / 16));
            assert(hex_digit(piece[2]) == Some(b as int % 16));
            assert(hex_pair(eb[at + 1], eb[at + 2]) == Some(b as int));
        }
    }
}

/// Decoding undoes encoding on every text of ASCII characters.
pub proof fn law_decoding_undoes_encoding(s: Seq<char>)
    requires
        vstd::utf8::is_ascii_chars(s),
    ensures
        decoded_from(vstd::utf8::encode_utf8(encoded(s)), 0) == s,
{
    let bs = vstd::utf8::encode_utf8(s);
    vstd::utf8::is_ascii_chars_encode_utf8(s);
    assert forall|i: int| 0 <= i < bs.len() implies #[trigger] bs[i] < 128 by {
        assert(s[i] as u8 == bs[i]);
    }
    lemma_decoded_rest(bs, 0);
    assert(bs.take(0) =~= Seq::empty());
    assert(bs.skip(0).map_values(|b: u8| b as char) =~= s) by {
        assert forall|i: int| 0 <= i < s.len() implies bs.skip(0).map_values(|b: u8| b as char)[i]
            == #[trigger] s[i] by {
            assert(s[i] as u8 == bs[i]);
        }
    }
}

// ── Text of a page ─────────────────────────────────────────────────────────

/// The text of a page outside of tags and scripts, from place `i` on; a tag leaves a
/// space. `lower` is the page in lower case.
pub open spec fn untagged(
    page: Seq<char>,
    lower: Seq<char>,
    i: int,
    in_tag: bool,
    in_script: bool,
) -> Seq<char>
    decreases page.len() - i + 9,
{
    let opens = !in_tag && !in_script && text::occurs_at(lower, "<script"@, i);
    if i < 0 || i >= page.len() {
        Seq::empty()
    } else if !opens && in_script && text::occurs_at(lower, "</script>"@, i) {
        untagged(page, lower, i + 9, false, false)
    } else if page[i] == '<' {
        untagged(page, lower, i + 1, true, opens || in_script)
    } else if page[i] == '>' {
        (if opens || in_script {
            Seq::empty()
        } else {
            seq![' ']
        }) + untagged(page, lower, i + 1, false, opens || in_script)
    } else if !opens && !in_tag && !in_script {
        seq![page[i]] + untagged(page, lower, i + 1, in_tag, in_script)
    } else {
        untagged(page, lower, i + 1, opens || in_tag, opens || in_script)
    }
}

/// A text with the common character entities written out.
pub open spec fn entities(s: Seq<char>) -> Seq<char> {
    text::replace(
        text::replace(
            text::replace(
                text::replace(text::replace(text::replace(s, "&amp;"@, "&"@), "&lt;"@, "<"@), "&gt;"@, ">"@),
                "&quot;"@,
                "\""@,
            ),
            "&#39;"@,
            "'"@,
        ),
        "&nbsp;"@,
        " "@,
    )
}

/// The plain text of a page: its words outside of tags and scripts.
pub open spec fn plain(page: Seq<char>, lower: Seq<char>) -> Seq<char> {
    entities(text::join(text::word_list(untagged(page, lower, 0, false, false)), " "@))
}

/// The plain text of a page, given the page in lower case.
pub fn strip_tags_with(html: &str, lower: &str) -> (r: String)
    ensures
        r@ == plain(html@, lower@),
{
    let v = chars_of(html);
    let lo = chars_of(lower);
    let open = chars_of("<script");
    let close = chars_of("</script>");
    let mut out = String::new();
    let mut i: usize = 0;
    let mut in_tag = false;
    let mut in_script = false;
    proof {
        reveal_strlit("<script");
        reveal_strlit("</script>");
        assert("<script"@.len() == 7 && "</script>"@.len() == 9);
        assert(out@ + untagged(html@, lower@, 0, false, false) =~= untagged(
            html@,
            lower@,
            0,
            false,
            false,
        ));
    }
    let n: usize = v.len();
    while i < n
        invariant
            n == v@.len(),
            v@ == html@,
            lo@ == lower@,
            open@ == "<script"@,
            close@ == "</script>"@,
            out@ + untagged(html@, lower@, i as int, in_tag, in_script) == untagged(
                html@,
                lower@,
                0,
                false,
                false,
            ),
        decreases n - i,
    {
        let ghost before = out@;
        let ghost at = i as int;
        let ghost rest = untagged(html@, lower@, i as int, in_tag, in_script);
        let opens = !in_tag && !in_script && i <= lo.len() && occurs(&lo, &open, i);
        let closes = !opens && in_script && i <= lo.len() && occurs(&lo, &close, i);
        if closes {
            in_script = false;
            in_tag = false;
            i = if n - i > 9 {
                i + 9
            } else {
                n
            };
        } else {
            if opens {
                in_script = true;
                in_tag = true;
            }
            if v[i] == '<' {
                in_tag = true;
            } else if v[i] == '>' {
                in_tag = false;
                if !in_script {
                    out.push(' ');
                }
            } else if !in_tag && !in_script {
                out.push(v[i]);
            }
            i += 1;
        }
        proof {
            let next = untagged(html@, lower@, i as int, in_tag, in_script);
            if closes {
                assert(rest == untagged(html@, lower@, at + 9, false, false));
                if i < at + 9 {
                    assert(rest =~= Seq::empty());
                    assert(next =~= Seq::empty());
                }
            }
            assert(before + rest =~= out@ + next);
        }
    }
    assert(out@ + untagged(html@, lower@, i as int, in_tag, in_script) =~= out@);
    let words = words_of(out.as_str());
    let joined = join_strs(&words, " ");
    proof {
        reveal_strlit("&amp;");
        reveal_strlit("&lt;");
        reveal_strlit("&gt;");
        reveal_strlit("&quot;");
        reveal_strlit("&#39;");
        reveal_strlit("&nbsp;");
    }
    let a = replace_str(joined.as_str(), "&amp;", "&");
    let b = replace_str(a.as_str(), "&lt;", "<");
    let c = replace_str(b.as_str(), "&gt;", ">");
    let d = replace_str(c.as_str(), "&quot;", "\"");
    let e = replace_str(d.as_str(), "&#39;", "'");
    replace_str(e.as_str(), "&nbsp;", " ")
}

/// The plain text of a page.
pub open spec fn plain_text(page: Seq<char>) -> Seq<char> {
    plain(page, text::lowercase(page))
}

/// The plain text of a page.
pub fn strip_html_tags(html: &str) -> (r: String)
    ensures
        r@ == plain_text(html@),
{
    let lower = lowercase_of(html);
    strip_tags_with(html, lower.as_str())
}

// ── Search results ─────────────────────────────────────────────────────────

/// The last place that the text from `i` on reaches with `n` bytes.
pub open spec fn ahead(s: Seq<char>, i: int, n: int) -> int
    decreases s.len() - i,
{
    if i < 0 || i >= s.len() {
        s.len() as int
    } else if text::char_width(s[i]) > n {
        i
    } else {
        ahead(s, i + 1, n - text::char_width(s[i]))
    }
}

/// The first place from which the text up to `i` takes at most `n` bytes.
pub open spec fn behind(s: Seq<char>, i: int, n: int) -> int
    decreases i,
{
    if i <= 0 || i > s.len() {
        0
    } else if text::char_width(s[i - 1]) > n {
        i
    } else {
        behind(s, i - 1, n - text::char_width(s[i - 1]))
    }
}

/// The place of the character that ends a value in a query: an ampersand or a quote.
pub open spec fn value_end(s: Seq<char>, i: int) -> int
    decreases s.len() - i,
{
    if i < 0 || i >= s.len() {
        s.len() as int
    } else if s[i] == '&' || s[i] == '"' || s[i] == '\'' {
        i
    } else {
        value_end(s, i + 1)
    }
}

/// The address that a link of the search engine leads to: its `uddg` parameter, or
/// else what its `href` says.
pub open spec fn link_target(region: Seq<char>) -> Seq<char> {
    match text::find(region, "uddg="@) {
        Some(k) => decoded_from(
            vstd::utf8::encode_utf8(region.subrange(k + 5, value_end(region, k + 5))),
            0,
        ),
        None => match text::find(region, "href=\""@) {
            Some(k) => region.subrange(k + 6, text::char_from(region, '"', k + 6)),
            None => Seq::empty(),
        },
    }
}

/// A search result.
pub open spec fn result_json(title: Seq<char>, url: Seq<char>, snippet: Seq<char>) -> JsonView {
    JsonView::Object(
        Map::<Seq<char>, JsonView>::empty().insert("title"@, JsonView::Text(text::trim(title))).insert(
            "url"@,
            JsonView::Text(url),
        ).insert("snippet"@, JsonView::Text(text::trim(snippet))),
    )
}

/// The text of the element whose class is named by `class` at or after `i`: what
/// follows the end of its tag, which is at most `tag` bytes away, up to the next
/// closing tag and at most `max` bytes.
pub open spec fn element_text(
    html: Seq<char>,
    class: Seq<char>,
    i: int,
    tag: int,
    max: int,
) -> Seq<char> {
    match text::find_from(html, class, i) {
        None => Seq::empty(),
        Some(k) => {
            let s = k + class.len();
            let gt = text::char_from(html, '>', s);
            let cs = gt + 1;
            if gt >= ahead(html, s, tag) {
                Seq::empty()
            } else {
                match text::find_from(html, "</"@, cs) {
                    None => Seq::empty(),
                    Some(end) => plain_text(
                        html.subrange(
                            cs,
                            if end < ahead(html, cs, max) {
                                end
                            } else {
                                ahead(html, cs, max)
                            },
                        ),
                    ),
                }
            }
        },
    }
}

/// The title of the result whose class stands at `k`, if it has one.
pub open spec fn html_title(html: Seq<char>, k: int) -> Option<Seq<char>> {
    let after = ahead(html, k, 17);
    let gt = text::char_from(html, '>', after);
    if gt >= ahead(html, after, 20) {
        None
    } else {
        match text::find_from(html, "</a>"@, gt + 1) {
            None => None,
            Some(end) => Some(plain_text(html.subrange(gt + 1, end))),
        }
    }
}

/// The result whose class stands at `k`, if there is one.
pub open spec fn html_result(html: Seq<char>, k: int) -> Option<JsonView> {
    let url = link_target(html.subrange(behind(html, k, 300), ahead(html, k, 200)));
    match html_title(html, k) {
        None => None,
        Some(title) => if title.len() == 0 && url.len() == 0 {
            None
        } else {
            let after = ahead(html, k, 300);
            Some(
                result_json(
                    title,
                    url,
                    if after < html.len() {
                        element_text(html, "result__snippet"@, after, 50, 300)
                    } else {
                        Seq::empty()
                    },
                ),
            )
        },
    }
}

/// The result whose class stands at `k` on a lite page, if there is one.
pub open spec fn lite_result(html: Seq<char>, k: int) -> Option<JsonView> {
    let region = html.subrange(k, ahead(html, k, 600));
    let url = match text::find(region, "href=\""@) {
        Some(h) => {
            let raw = region.subrange(h + 6, text::char_from(region, '"', h + 6));
            if text::contains(raw, "uddg="@) || text::starts_with(raw, "/l/"@) {
                link_target(raw)
            } else {
                raw
            }
        },
        None => Seq::empty(),
    };
    let gt = text::char_from(region, '>', 0);
    let title = if gt >= region.len() {
        Seq::empty()
    } else {
        match text::find_from(region, "</a>"@, gt + 1) {
            Some(end) => plain_text(region.subrange(gt + 1, end)),
            None => Seq::empty(),
        }
    };
    if title.len() == 0 && url.len() == 0 {
        None
    } else {
        Some(result_json(title, url, element_text(html, "result-snippet"@, k, 60, 400)))
    }
}

/// The results of a page from `pos` on, at most `room` of them.
pub open spec fn results_from(html: Seq<char>, lite: bool, pos: int, room: int) -> Seq<JsonView>
    decreases html.len() - pos + 1,
{
    let class = if lite {
        "result-link"@
    } else {
        "result__a"@
    };
    if room <= 0 || pos < 0 || pos >= html.len() {
        Seq::empty()
    } else {
        match text::find_from(html, class, pos) {
            None => Seq::empty(),
            Some(k) => {
                proof {
                    text::lemma_find_from(html, class, pos);
                }
                match if lite {
                    lite_result(html, k)
                } else {
                    html_result(html, k)
                } {
                    Some(r) => seq![r] + results_from(html, lite, k + 1, room - 1),
                    None => results_from(html, lite, k + 1, room),
                }
            },
        }
    }
}

fn look_ahead(v: &Vec<char>, from: usize, bytes: usize) -> (r: usize)
    requires
        from <= v@.len(),
    ensures
        r == ahead(v@, from as int, bytes as int),
        from <= r <= v@.len(),
{
    let mut i: usize = from;
    let mut left: usize = bytes;
    while i < v.len()
        invariant
            from <= i <= v@.len(),
            ahead(v@, from as int, bytes as int) == ahead(v@, i as int, left as int),
        decreases v@.len() - i,
    {
        let w: usize = width_of(v[i]);
        if w > left {
            return i;
        }
        left -= w;
        i += 1;
    }
    i
}

fn look_behind(v: &Vec<char>, to: usize, bytes: usize) -> (r: usize)
    requires
        to <= v@.len(),
    ensures
        r == behind(v@, to as int, bytes as int),
        r <= to,
{
    let mut i: usize = to;
    let mut left: usize = bytes;
    while i > 0
        invariant
            i <= to <= v@.len(),
            behind(v@, to as int, bytes as int) == behind(v@, i as int, left as int),
        decreases i,
    {
        let w: usize = width_of(v[i - 1]);
        if w > left {
            return i;
        }
        left -= w;
        i -= 1;
    }
    0
}

fn find_value_end(v: &Vec<char>, from: usize) -> (r: usize)
    requires
        from <= v@.len(),
    ensures
        r == value_end(v@, from as int),
        from <= r <= v@.len(),
{
    let mut i: usize = from;
    while i < v.len() && v[i] != '&' && v[i] != '"' && v[i] != '\''
        invariant
            from <= i <= v@.len(),
            value_end(v@, from as int) == value_end(v@, i as int),
        decreases v@.len() - i,
    {
        i += 1;
    }
    i
}

/// The address that a link of the search engine leads to.
pub fn extract_ddg_url(region: &str) -> (r: String)
    ensures
        r@ == link_target(region@),
{
    let v = chars_of(region);
    let uddg = chars_of("uddg=");
    let href = chars_of("href=\"");
    proof {
        reveal_strlit("uddg=");
        reveal_strlit("href=\"");
        assert("uddg="@.len() == 5 && "href=\""@.len() == 6);
    }
    if let Some(k) = find_chars(&v, &uddg, 0) {
        let end: usize = find_value_end(&v, k + 5);
        let part = string_of(&v, k + 5, end);
        return url_decode(part.as_str());
    }
    if let Some(k) = find_chars(&v, &href, 0) {
        let end: usize = find_char(&v, '"', k + 6);
        return string_of(&v, k + 6, end);
    }
    String::new()
}

fn read_element(v: &Vec<char>, class: &str, from: usize, tag: usize, max: usize) -> (r: String)
    requires
        from <= v@.len(),
    ensures
        r@ == element_text(v@, class@, from as int, tag as int, max as int),
{
    let name = chars_of(class);
    let close = chars_of("</");
    let k: usize = match find_chars(v, &name, from) {
        Some(k) => k,
        None => {
            return String::new();
        },
    };
    let s: usize = k + name.len();
    let gt: usize = find_char(v, '>', s);
    if gt >= look_ahead(v, s, tag) {
        return String::new();
    }
    let cs: usize = gt + 1;
    match find_chars(v, &close, cs) {
        None => String::new(),
        Some(end) => {
            let limit: usize = look_ahead(v, cs, max);
            let to: usize = if end < limit {
                end
            } else {
                limit
            };
            let part = string_of(v, cs, to);
            strip_html_tags(part.as_str())
        },
    }
}

fn result_object(title: &str, url: &str, snippet: &str) -> (r: Json)
    ensures
        r@ == result_json(title@, url@, snippet@),
{
    let a = trim_str(title);
    let b = trim_str(snippet);
    Json::Object(
        JsonMap::new().with("title", Json::text(a.as_str())).with("url", Json::text(url)).with(
            "snippet",
            Json::text(b.as_str()),
        ),
    )
}

fn read_html_title(v: &Vec<char>, k: usize) -> (r: Option<String>)
    requires
        k <= v@.len(),
    ensures
        json::opt_text(r) == html_title(v@, k as int),
{
    let close = chars_of("</a>");
    let after: usize = look_ahead(v, k, 17);
    let gt: usize = find_char(v, '>', after);
    if gt >= look_ahead(v, after, 20) {
        return None;
    }
    match find_chars(v, &close, gt + 1) {
        None => None,
        Some(end) => {
            let part = string_of(v, gt + 1, end);
            Some(strip_html_tags(part.as_str()))
        },
    }
}

fn read_html_result(v: &Vec<char>, k: usize) -> (r: Option<Json>)
    requires
        k <= v@.len(),
    ensures
        json::opt_json(r) == html_result(v@, k as int),
{
    let from: usize = look_behind(v, k, 300);
    let to: usize = look_ahead(v, k, 200);
    let region = string_of(v, from, to);
    let url = extract_ddg_url(region.as_str());
    let title = match read_html_title(v, k) {
        Some(t) => t,
        None => {
            return None;
        },
    };
    if title.as_str().is_empty() && url.as_str().is_empty() {
        return None;
    }
    let after: usize = look_ahead(v, k, 300);
    let snippet = if after < v.len() {
        read_element(v, "result__snippet", after, 50, 300)
    } else {
        String::new()
    };
    Some(result_object(title.as_str(), url.as_str(), snippet.as_str()))
}

fn read_lite_result(v: &Vec<char>, k: usize) -> (r: Option<Json>)
    requires
        k <= v@.len(),
    ensures
        json::opt_json(r) == lite_result(v@, k as int),
{
    let to: usize = look_ahead(v, k, 600);
    let region_text = string_of(v, k, to);
    let region = chars_of(region_text.as_str());
    let href = chars_of("href=\"");
    let close = chars_of("</a>");
    proof {
        reveal_strlit("href=\"");
        assert("href=\""@.len() == 6);
    }
    let url = match find_chars(&region, &href, 0) {
        Some(h) => {
            let end: usize = find_char(&region, '"', h + 6);
            let raw = string_of(&region, h + 6, end);
            if contains_str(raw.as_str(), "uddg=") || starts_with_str(raw.as_str(), "/l/") {
                extract_ddg_url(raw.as_str())
            } else {
                raw
            }
        },
        None => String::new(),
    };
    let gt: usize = find_char(&region, '>', 0);
    let title = if gt >= region.len() {
        String::new()
    } else {
        match find_chars(&region, &close, gt + 1) {
            Some(end) => {
                let part = string_of(&region, gt + 1, end);
                strip_html_tags(part.as_str())
            },
            None => String::new(),
        }
    };
    if title.as_str().is_empty() && url.as_str().is_empty() {
        return None;
    }
    let snippet = read_element(v, "result-snippet", k, 60, 400);
    Some(result_object(title.as_str(), url.as_str(), snippet.as_str()))
}

fn read_results(html: &str, lite: bool, max: usize) -> (r: Vec<Json>)
    ensures
        json::items_view(r@) == results_from(html@, lite, 0, max as int),
{
    let v = chars_of(html);
    let class = chars_of(
        if lite {
            "result-link"
        } else {
            "result__a"
        },
    );
    proof {
        reveal_strlit("result-link");
        reveal_strlit("result__a");
        assert("result-link"@.len() == 11 && "result__a"@.len() == 9);
    }
    let mut out: Vec<Json> = Vec::new();
    let mut pos: usize = 0;
    let ghost all = results_from(html@, lite, 0, max as int);
    assert(json::items_view(out@) + all =~= all);
    while out.len() < max && pos < v.len()
        invariant
            v@ == html@,
            pos <= v@.len(),
            out@.len() <= max,
            all == results_from(html@, lite, 0, max as int),
            class@ == (if lite {
                "result-link"@
            } else {
                "result__a"@
            }),
            class@.len() > 0,
            json::items_view(out@) + results_from(html@, lite, pos as int, max - out@.len()) == all,
        decreases v@.len() - pos,
    {
        let ghost before = json::items_view(out@);
        let ghost room = max - out@.len();
        match find_chars(&v, &class, pos) {
            None => {
                assert(json::items_view(out@) + results_from(html@, lite, pos as int, room) =~= json::items_view(
                    out@,
                ));
                return out;
            },
            Some(k) => {
                let found = if lite {
                    read_lite_result(&v, k)
                } else {
                    read_html_result(&v, k)
                };
                match found {
                    Some(item) => {
                        proof {
                            wire::lemma_items_push(out@, item);
                            assert(before + (seq![item@] + results_from(
                                html@,
                                lite,
                                k + 1,
                                room - 1,
                            )) =~= before.push(item@) + results_from(html@, lite, k + 1, room - 1));
                        }
                        out.push(item);
                    },
                    None => {},
                }
                pos = k + 1;
            },
        }
    }
    assert(json::items_view(out@) + results_from(html@, lite, pos as int, max - out@.len())
        =~= json::items_view(out@));
    out
}

/// Results of the search engine's HTML page.
///
/// The class of a result is matched as a part of an attribute, so further classes
/// do no harm.
pub fn parse_ddg_results(html: &str, max: usize) -> (r: Vec<Json>)
    ensures
        json::items_view(r@) == results_from(html@, false, 0, max as int),
{
    read_results(html, false, max)
}

/// Results of the search engine's lite page.
///
/// Each result has a `result-link` anchor with title and address, followed by a
/// `result-snippet` cell.
pub fn parse_ddg_lite_results(html: &str, max: usize) -> (r: Vec<Json>)
    ensures
        json::items_view(r@) == results_from(html@, true, 0, max as int),
{
    read_results(html, true, max)
}

/// However long the page, no more results come out of it than were asked for.
pub proof fn law_results_are_bounded(html: Seq<char>, lite: bool, pos: int, room: int)
    ensures
        results_from(html, lite, pos, room).len() <= (if room > 0 {
            room
        } else {
            0
        }),
    decreases html.len() - pos + 1,
{
    let class = if lite {
        "result-link"@
    } else {
        "result__a"@
    };
    if room > 0 && 0 <= pos < html.len() {
        if let Some(k) = text::find_from(html, class, pos) {
            text::lemma_find_from(html, class, pos);
            law_results_are_bounded(html, lite, k + 1, room - 1);
            law_results_are_bounded(html, lite, k + 1, room);
        }
    }
}

// ── The tools ──────────────────────────────────────────────────────────────

/// The parameters of a tool with a required text and an optional number.
pub open spec fn tool_parameters(
    text_key: Seq<char>,
    text_help: Seq<char>,
    number_key: Seq<char>,
    number_help: Seq<char>,
) -> JsonView {
    let object = Map::<Seq<char>, JsonView>::empty();
    JsonView::Object(
        object.insert("type"@, JsonView::Text("object"@)).insert(
            "properties"@,
            JsonView::Object(
                object.insert(
                    text_key,
                    JsonView::Object(
                        object.insert("type"@, JsonView::Text("string"@)).insert(
                            "description"@,
                            JsonView::Text(text_help),
                        ),
                    ),
                ).insert(
                    number_key,
                    JsonView::Object(
                        object.insert("type"@, JsonView::Text("integer"@)).insert(
                            "description"@,
                            JsonView::Text(number_help),
                        ),
                    ),
                ),
            ),
        ).insert("required"@, wire::text_array(seq![text_key])),
    )
}

fn parameters(text_key: &str, text_help: &str, number_key: &str, number_help: &str) -> (r: Json)
    ensures
        r@ == tool_parameters(text_key@, text_help@, number_key@, number_help@),
{
    let required = vec![text_key.to_owned()];
    assert(text::views(required@) =~= seq![text_key@]);
    Json::Object(
        JsonMap::new().with("type", Json::text("object")).with(
            "properties",
            Json::Object(
                JsonMap::new().with(
                    text_key,
                    Json::Object(
                        JsonMap::new().with("type", Json::text("string")).with(
                            "description",
                            Json::text(text_help),
                        ),
                    ),
                ).with(
                    number_key,
                    Json::Object(
                        JsonMap::new().with("type", Json::text("integer")).with(
                            "description",
                            Json::text(number_help),
                        ),
                    ),
                ),
            ),
        ).with("required", text_array_json(&required)),
    )
}

/// Search the web over the search engine's HTML pages.
#[derive(Debug, Clone, Copy)]
pub struct WebSearchTool {}

/// A search that a call asks for.
pub struct SearchCall {
    pub query: String,
    pub max_results: usize,
}

/// The number of a call's argument, or `other`.
pub open spec fn count_or(args: JsonView, key: Seq<char>, other: u64) -> usize {
    match args.u64_at(key) {
        Some(n) => n as usize,
        None => other as usize,
    }
}

fn read_count(args: &Json, key: &str, other: u64) -> (r: usize)
    ensures
        r == count_or(args@, key@, other),
{
    match args.u64_at(key) {
        Some(n) => #[verifier::truncate]
        (n as usize),
        None => #[verifier::truncate]
        (other as usize),
    }
}

impl WebSearchTool {
    pub fn new() -> (r: WebSearchTool) {
        WebSearchTool {  }
    }

    /// The definition of the tool.
    pub fn definition(&self) -> (r: ToolDefinition)
        ensures
            r@.kind == "function"@,
            r@.name == "web_search"@,
            r@.description
                == "Search the web for current information. Returns titles, URLs, and snippets."@,
            r@.parameters == tool_parameters(
                "query"@,
                "Search query."@,
                "max_results"@,
                "Maximum number of results to return (default: 5)."@,
            ),
    {
        ToolDefinition::function(
            "web_search",
            "Search the web for current information. Returns titles, URLs, and snippets.",
            parameters(
                "query",
                "Search query.",
                "max_results",
                "Maximum number of results to return (default: 5).",
            ),
        )
    }

    /// The search that a call asks for; it must say what to search.
    pub fn read_call(&self, args: &Json) -> (r: Result<SearchCall, String>)
        ensures
            match (r, args@.text_at("query"@)) {
                (Ok(c), Some(q)) => c.query@ == q && c.max_results == count_or(
                    args@,
                    "max_results"@,
                    5,
                ),
                (Err(e), None) => e@ == "missing 'query'"@,
                _ => false,
            },
    {
        match args.text_at("query") {
            Some(q) => Ok(
                SearchCall {
                    query: q.to_owned(),
                    max_results: read_count(args, "max_results", 5),
                },
            ),
            None => Err("missing 'query'".to_owned()),
        }
    }

    /// The body of the request for the HTML page.
    pub fn html_body(query: &str) -> (r: String)
        ensures
            r@ == "q="@ + encoded(query@) + "&kd=-1&kp=-2&kl=us-en"@,
    {
        let mut out = "q=".to_owned();
        let q = urlencoding(query);
        out.push_str(q.as_str());
        out.push_str("&kd=-1&kp=-2&kl=us-en");
        out
    }

    /// The body of the request for the lite page.
    pub fn lite_body(query: &str) -> (r: String)
        ensures
            r@ == "q="@ + encoded(query@),
    {
        let mut out = "q=".to_owned();
        let q = urlencoding(query);
        out.push_str(q.as_str());
        out
    }

    /// What the tool answers with; without results it is an error.
    pub fn answer(query: &str, results: Vec<Json>) -> (r: Result<Json, String>)
        ensures
            match r {
                Ok(j) => results@.len() > 0 && j@ == JsonView::Object(
                    Map::<Seq<char>, JsonView>::empty().insert(
                        "query"@,
                        JsonView::Text(query@),
                    ).insert("results"@, JsonView::Array(json::items_view(results@))).insert(
                        "count"@,
                        JsonView::Int(results@.len() as int),
                    ),
                ),
                Err(e) => results@.len() == 0 && e@
                    == "web_search returned no results — the search engine may be rate-limiting or the query has no matches. Try rephrasing."@,
            },
    {
        let n: usize = results.len();
        if n == 0 {
            return Err(
                "web_search returned no results — the search engine may be rate-limiting or the query has no matches. Try rephrasing.".to_owned(),
            );
        }
        Ok(
            Json::Object(
                JsonMap::new().with("query", Json::text(query)).with(
                    "results",
                    Json::Array(results),
                ).with("count", Json::Unsigned(n as u64)),
            ),
        )
    }
}

/// Fetch a URL and return its text content.
#[derive(Debug, Clone, Copy)]
pub struct WebFetchTool {
    /// How much of a page is read.
    pub max_bytes: usize,
}

/// A fetch that a call asks for.
pub struct FetchCall {
    pub url: String,
    pub max_chars: usize,
}

/// What a server answered.
pub struct FetchReply {
    pub status: u16,
    pub content_type: String,
    pub body: Vec<u8>,
}

/// The text of a page of which at most `max` bytes are read; HTML is stripped.
pub open spec fn page_text(content_type: Seq<char>, body: Seq<u8>, max: int) -> Seq<char> {
    let raw = sse::lossy_text(
        if body.len() > max {
            body.take(max)
        } else {
            body
        },
    );
    if text::contains(content_type, "html"@) {
        plain_text(raw)
    } else {
        raw
    }
}

/// What the fetch tool answers with.
pub open spec fn fetched_json(
    url: Seq<char>,
    status: int,
    content_type: Seq<char>,
    text: Seq<char>,
    max_chars: int,
) -> JsonView {
    JsonView::Object(
        Map::<Seq<char>, JsonView>::empty().insert("url"@, JsonView::Text(url)).insert(
            "status"@,
            JsonView::Int(status),
        ).insert("content_type"@, JsonView::Text(content_type)).insert(
            "content"@,
            JsonView::Text(summarizing::first_chars(text, max_chars)),
        ).insert("truncated"@, JsonView::Bool(text.len() > max_chars)),
    )
}

impl WebFetchTool {
    /// A tool that reads fifty kilobytes of a page.
    pub fn new() -> (r: WebFetchTool)
        ensures
            r.max_bytes == 50_000,
    {
        WebFetchTool { max_bytes: 50_000 }
    }

    /// The definition of the tool.
    pub fn definition(&self) -> (r: ToolDefinition)
        ensures
            r@.kind == "function"@,
            r@.name == "web_fetch"@,
            r@.description == "Fetch the content of a URL and return it as plain text."@,
            r@.parameters == tool_parameters(
                "url"@,
                "URL to fetch."@,
                "max_chars"@,
                "Maximum characters to return (default: 5000)."@,
            ),
    {
        ToolDefinition::function(
            "web_fetch",
            "Fetch the content of a URL and return it as plain text.",
            parameters(
                "url",
                "URL to fetch.",
                "max_chars",
                "Maximum characters to return (default: 5000).",
            ),
        )
    }

    /// The fetch that a call asks for; it must name a URL that is not refused.
    pub fn read_call(&self, args: &Json) -> (r: Result<FetchCall, String>)
        ensures
            match args@.text_at("url"@) {
                None => r matches Err(e) && e@ == "missing 'url'"@,
                Some(url) => match refusal(parsed_url(url)) {
                    Some(reason) => r matches Err(e) && e@ == reason,
                    None => r matches Ok(c) && c.url@ == url && c.max_chars == count_or(
                        args@,
                        "max_chars"@,
                        5000,
                    ),
                },
            },
    {
        match args.text_at("url") {
            None => Err("missing 'url'".to_owned()),
            Some(url) => match refuse_url(url) {
                Some(reason) => Err(reason),
                None => Ok(
                    FetchCall {
                        url: url.to_owned(),
                        max_chars: read_count(args, "max_chars", 5000),
                    },
                ),
            },
        }
    }

    /// What the tool answers with.
    pub fn answer(&self, call: &FetchCall, reply: &FetchReply) -> (r: Json)
        ensures
            r@ == fetched_json(
                call.url@,
                reply.status as int,
                reply.content_type@,
                page_text(reply.content_type@, reply.body@, self.max_bytes as int),
                call.max_chars as int,
            ),
    {
        let mut bytes = reply.body.clone();
        if bytes.len() > self.max_bytes {
            bytes.truncate(self.max_bytes);
        }
        proof {
            assert(bytes@ =~= (if reply.body@.len() > self.max_bytes {
                reply.body@.take(self.max_bytes as int)
            } else {
                reply.body@
            }));
        }
        let raw = lossy_string(&bytes);
        let text = if contains_str(reply.content_type.as_str(), "html") {
            strip_html_tags(raw.as_str())
        } else {
            raw
        };
        Self::answer_text(call, reply.status, reply.content_type.as_str(), text.as_str())
    }

    /// What the tool answers with, given the text of the page.
    pub fn answer_text(call: &FetchCall, status: u16, content_type: &str, text: &str) -> (r: Json)
        ensures
            r@ == fetched_json(
                call.url@,
                status as int,
                content_type@,
                text@,
                call.max_chars as int,
            ),
    {
        let v = chars_of(text);
        let truncated = v.len() > call.max_chars;
        let content = truncate_str(text, call.max_chars);
        Json::Object(
            JsonMap::new().with("url", Json::text(call.url.as_str())).with(
                "status",
                Json::Unsigned(status as u64),
            ).with("content_type", Json::text(content_type)).with(
                "content",
                Json::text(content.as_str()),
            ).with("truncated", Json::Bool(truncated)),
        )
    }
}

} // verus!
