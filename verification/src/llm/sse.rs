//! Server-sent event streams: cutting bytes into lines and lines into data.
use crate::text;
use super::types::DeltaView;
use crate::text::{chars_of, find_char, string_of, strip_prefix_str};
use vstd::prelude::*;

verus! {

/// The payload of a `data:` line; the single space after the colon is optional.
pub open spec fn data_of(line: Seq<char>) -> Option<Seq<char>> {
    match text::after_prefix(line, "data:"@) {
        Some(d) => match text::after_prefix(d, " "@) {
            Some(e) => Some(e),
            None => Some(d),
        },
        None => None,
    }
}

/// The payload of a line is the same with and without the space after the colon.
pub proof fn law_space_is_optional(payload: Seq<char>)
    requires
        payload.len() > 0 ==> payload[0] != ' ',
    ensures
        data_of("data:"@ + payload) == Some(payload),
        data_of("data: "@ + payload) == Some(payload),
{
    reveal_strlit("data:");
    reveal_strlit("data: ");
    reveal_strlit(" ");
    let close = "data:"@ + payload;
    let wide = "data: "@ + payload;
    assert(close.take(5) =~= "data:"@);
    assert(close.skip(5) =~= payload);
    assert(wide.take(5) =~= "data:"@);
    assert(wide.skip(5).take(1) =~= " "@);
    assert(wide.skip(5).skip(1) =~= payload);
    if payload.len() > 0 {
        assert(payload.take(1)[0] == payload[0]);
    }
}

/// Extract the payload of an SSE `data:` line.
///
/// The single space after the colon is optional and gateways differ, so
/// requiring it would silently drop every event of some of them.
pub fn sse_data(line: &str) -> (r: Option<String>)
    ensures
        crate::json::opt_text(r) == data_of(line@),
{
    match strip_prefix_str(line, "data:") {
        Some(d) => match strip_prefix_str(d.as_str(), " ") {
            Some(e) => Some(e),
            None => Some(d),
        },
        None => None,
    }
}

/// `s` without trailing carriage returns.
pub open spec fn strip_crs(s: Seq<char>) -> Seq<char>
    decreases s.len(),
{
    if s.len() > 0 && s.last() == '\r' {
        strip_crs(s.drop_last())
    } else {
        s
    }
}

/// The finished lines of `s` from place `i` on: each ends at a line feed and
/// loses it with the carriage returns before it.
pub open spec fn finished_from(s: Seq<char>, i: int) -> Seq<Seq<char>>
    decreases s.len() - i,
    when 0 <= i
{
    let k = text::char_from(s, '\n', i);
    if i >= s.len() || k >= s.len() || k < i {
        Seq::empty()
    } else {
        seq![strip_crs(s.subrange(i, k))] + finished_from(s, k + 1)
    }
}

/// What follows the last line feed of `s`, from place `i` on.
pub open spec fn unfinished_from(s: Seq<char>, i: int) -> Seq<char>
    decreases s.len() - i,
    when 0 <= i
{
    let k = text::char_from(s, '\n', i);
    if i >= s.len() || k >= s.len() || k < i {
        s.skip(i)
    } else {
        unfinished_from(s, k + 1)
    }
}

/// The finished lines of `s`.
pub open spec fn finished(s: Seq<char>) -> Seq<Seq<char>> {
    finished_from(s, 0)
}

/// What follows the last line feed of `s`.
pub open spec fn unfinished(s: Seq<char>) -> Seq<char> {
    unfinished_from(s, 0)
}

proof fn lemma_char_from_shift(a: Seq<char>, b: Seq<char>, c: char, i: int)
    requires
        0 <= i <= a.len(),
        text::char_from(a, c, i) < a.len(),
    ensures
        text::char_from(a + b, c, i) == text::char_from(a, c, i),
    decreases a.len() - i,
{
    if i < a.len() && a[i] != c {
        lemma_char_from_shift(a, b, c, i + 1);
    }
}

proof fn lemma_char_from_skip(s: Seq<char>, c: char, i: int, n: int)
    requires
        0 <= n <= i <= s.len(),
    ensures
        text::char_from(s, c, i) == n + text::char_from(s.skip(n), c, i - n),
    decreases s.len() - i,
{
    if i < s.len() && s[i] != c {
        lemma_char_from_skip(s, c, i + 1, n);
    }
}

proof fn lemma_lines_skip(s: Seq<char>, i: int, n: int)
    requires
        0 <= n <= i <= s.len(),
    ensures
        finished_from(s, i) == finished_from(s.skip(n), i - n),
        unfinished_from(s, i) == unfinished_from(s.skip(n), i - n),
    decreases s.len() - i,
{
    text::lemma_char_from(s, '\n', i);
    lemma_char_from_skip(s, '\n', i, n);
    let k = text::char_from(s, '\n', i);
    if i < s.len() && k < s.len() {
        lemma_lines_skip(s, k + 1, n);
        assert(s.skip(n).subrange(i - n, k - n) =~= s.subrange(i, k));
    } else {
        assert(s.skip(n).skip(i - n) =~= s.skip(i));
    }
}

proof fn lemma_cut_from(a: Seq<char>, b: Seq<char>, i: int)
    requires
        0 <= i <= a.len(),
    ensures
        finished_from(a + b, i) == finished_from(a, i) + finished(unfinished_from(a, i) + b),
        unfinished_from(a + b, i) == unfinished(unfinished_from(a, i) + b),
    decreases a.len() - i,
{
    text::lemma_char_from(a, '\n', i);
    let k = text::char_from(a, '\n', i);
    if i < a.len() && k < a.len() {
        lemma_char_from_shift(a, b, '\n', i);
        lemma_cut_from(a, b, k + 1);
        assert((a + b).subrange(i, k) =~= a.subrange(i, k));
        assert(finished_from(a + b, i) =~= finished_from(a, i) + finished(
            unfinished_from(a, i) + b,
        ));
    } else {
        lemma_lines_skip(a + b, i, i);
        assert((a + b).skip(i) =~= a.skip(i) + b);
        assert(finished_from(a, i) + finished(a.skip(i) + b) =~= finished(a.skip(i) + b));
    }
}

/// A text gives the same finished lines, and leaves the same rest, wherever it
/// is cut in two.
pub proof fn law_cut_anywhere(a: Seq<char>, b: Seq<char>)
    ensures
        finished(a + b) == finished(a) + finished(unfinished(a) + b),
        unfinished(a + b) == unfinished(unfinished(a) + b),
{
    lemma_cut_from(a, b, 0);
}

/// Collects a stream's text and hands out its lines as they are finished.
pub struct LineBuffer {
    pub pending: String,
}

impl LineBuffer {
    pub fn new() -> (r: LineBuffer)
        ensures
            r.pending@ == Seq::<char>::empty(),
    {
        LineBuffer { pending: String::new() }
    }

    /// Adds text and takes out the lines that it finishes.
    pub fn feed(&mut self, chunk: &str) -> (r: Vec<String>)
        ensures
            text::views(r@) == finished(old(self).pending@ + chunk@),
            final(self).pending@ == unfinished(old(self).pending@ + chunk@),
    {
        self.pending.push_str(chunk);
        let v = chars_of(self.pending.as_str());
        let ghost s = v@;
        let mut out: Vec<String> = Vec::new();
        let mut i: usize = 0;
        assert(text::views(out@) + finished(s) =~= finished(s));
        loop
            invariant_except_break
                i <= v@.len(),
                v@ == s,
                text::views(out@) + finished_from(s, i as int) == finished(s),
                unfinished_from(s, i as int) == unfinished(s),
            ensures
                i <= v@.len(),
                v@ == s,
                text::views(out@) == finished(s),
                s.skip(i as int) == unfinished(s),
            decreases v@.len() - i,
        {
            let k = find_char(&v, '\n', i);
            if k == v.len() {
                proof {
                    text::lemma_char_from(s, '\n', i as int);
                    assert(text::views(out@) + finished_from(s, i as int) =~= text::views(out@));
                }
                break;
            }
            let mut end: usize = k;
            let ghost raw = s.subrange(i as int, k as int);
            while end > i && v[end - 1] == '\r'
                invariant
                    i <= end <= k < v@.len(),
                    v@ == s,
                    raw == s.subrange(i as int, k as int),
                    strip_crs(raw) == strip_crs(s.subrange(i as int, end as int)),
                decreases end,
            {
                assert(s.subrange(i as int, end as int).drop_last() =~= s.subrange(
                    i as int,
                    end - 1,
                ));
                end -= 1;
            }
            let line = string_of(&v, i, end);
            let ghost before = text::views(out@);
            out.push(line);
            proof {
                assert(line@ == strip_crs(raw));
                assert(text::views(out@) =~= before + seq![strip_crs(raw)]);
                assert(before + (seq![strip_crs(raw)] + finished_from(s, k + 1)) =~= text::views(out@)
                    + finished_from(s, k + 1));
            }
            i = k + 1;
        }
        self.pending = string_of(&v, i, v.len());
        assert(self.pending@ =~= s.skip(i as int));
        out
    }
}

/// The text that `String::from_utf8_lossy` makes of bytes.
pub uninterp spec fn lossy_text(bytes: Seq<u8>) -> Seq<char>;

/// `String::from_utf8_lossy`: bytes that are valid UTF-8 keep their text; in
/// others each invalid sequence becomes the replacement character.
#[verifier::external_body]
pub(crate) fn lossy_string(bytes: &Vec<u8>) -> (r: String)
    ensures
        r@ == lossy_text(bytes@),
        vstd::utf8::valid_utf8(bytes@) ==> r@ == vstd::utf8::decode_utf8(bytes@),
{
    String::from_utf8_lossy(bytes).into_owned()
}

/// What a reader whose step is `step` makes of a list of lines: its state after
/// them and the deltas that it gave out.
pub open spec fn run_lines<S>(
    step: spec_fn(S, Seq<char>) -> (S, Seq<DeltaView>),
    st: S,
    lines: Seq<Seq<char>>,
) -> (S, Seq<DeltaView>)
    decreases lines.len(),
{
    if lines.len() == 0 {
        (st, Seq::empty())
    } else {
        let (s1, d1) = run_lines(step, st, lines.drop_last());
        let (s2, d2) = step(s1, lines.last());
        (s2, d1 + d2)
    }
}

/// Reading lines in two parts is reading them in one.
pub proof fn law_run_in_parts<S>(
    step: spec_fn(S, Seq<char>) -> (S, Seq<DeltaView>),
    st: S,
    a: Seq<Seq<char>>,
    b: Seq<Seq<char>>,
)
    ensures
        run_lines(step, st, a + b) == ({
            let (s1, d1) = run_lines(step, st, a);
            let (s2, d2) = run_lines(step, s1, b);
            (s2, d1 + d2)
        }),
    decreases b.len(),
{
    if b.len() == 0 {
        assert(a + b =~= a);
        assert(run_lines(step, st, a).1 + Seq::<DeltaView>::empty() =~= run_lines(step, st, a).1);
    } else {
        assert((a + b).drop_last() =~= a + b.drop_last());
        law_run_in_parts(step, st, a, b.drop_last());
        let (s1, d1) = run_lines(step, st, a);
        let (s2, d2) = run_lines(step, s1, b.drop_last());
        let (s3, d3) = step(s2, b.last());
        assert((d1 + d2) + d3 =~= d1 + (d2 + d3));
    }
}

/// However a stream is cut into pieces, a reader that takes the finished lines
/// of each piece in turn ends in the same state and gives out the same deltas.
pub proof fn law_stream_cut_anywhere<S>(
    step: spec_fn(S, Seq<char>) -> (S, Seq<DeltaView>),
    st: S,
    pending: Seq<char>,
    a: Seq<char>,
    b: Seq<char>,
)
    ensures
        run_lines(step, st, finished(pending + (a + b))) == ({
            let (s1, d1) = run_lines(step, st, finished(pending + a));
            let (s2, d2) = run_lines(step, s1, finished(unfinished(pending + a) + b));
            (s2, d1 + d2)
        }),
        unfinished(pending + (a + b)) == unfinished(unfinished(pending + a) + b),
{
    assert(pending + (a + b) =~= (pending + a) + b);
    law_cut_anywhere(pending + a, b);
    law_run_in_parts(
        step,
        st,
        finished(pending + a),
        finished(unfinished(pending + a) + b),
    );
}

} // verus!
