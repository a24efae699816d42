//! Laws of streams: how lines are cut, what each event adds, and how calls are repeated.
use crate::json;
use crate::json::JsonView;
use crate::laws::anthropic as blocks;
use crate::llm::anthropic_stream;
use crate::llm::anthropic_stream::ReplyView;
use crate::llm::error::LlmErrorView;
use crate::llm::qwen;
use crate::llm::rate_limit;
use crate::llm::rate_limit::RateLimitedProvider;
use crate::llm::responses;
use crate::llm::retry;
use crate::llm::retry::RetryProvider;
use crate::llm::sse;
use crate::llm::structured;
use crate::llm::types::{DeltaView, MessageView, ResponseView, Role};
use crate::text;
use vstd::prelude::*;

verus! {

/// Lines with their line breaks, one after the other.
pub open spec fn with_breaks(lines: Seq<Seq<char>>) -> Seq<char>
    decreases lines.len(),
{
    if lines.len() == 0 {
        Seq::empty()
    } else {
        lines[0].push('\n') + with_breaks(lines.skip(1))
    }
}

proof fn lemma_no_crs(s: Seq<char>)
    requires
        forall|i: int| 0 <= i < s.len() ==> #[trigger] s[i] != '\r',
    ensures
        sse::strip_crs(s) == s,
{
    if s.len() > 0 {
        assert(s[s.len() - 1] != '\r');
    }
}

proof fn lemma_lines_from(s: Seq<char>, i: int)
    requires
        0 <= i <= s.len(),
        forall|k: int| 0 <= k < s.len() ==> #[trigger] s[k] != '\r',
    ensures
        with_breaks(sse::finished_from(s, i)) + sse::unfinished_from(s, i) == s.skip(i),
        forall|k: int|
            0 <= k < sse::unfinished_from(s, i).len() ==> #[trigger] sse::unfinished_from(s, i)[k]
                != '\n',
    decreases s.len() - i,
{
    text::lemma_char_from(s, '\n', i);
    let k = text::char_from(s, '\n', i);
    if i >= s.len() || k >= s.len() || k < i {
        assert(with_breaks(Seq::<Seq<char>>::empty()) + s.skip(i) =~= s.skip(i));
        assert forall|j: int| 0 <= j < s.skip(i).len() implies #[trigger] s.skip(i)[j] != '\n' by {
            assert(s[i + j] != '\n');
        }
    } else {
        lemma_lines_from(s, k + 1);
        let line = s.subrange(i, k);
        assert forall|j: int| 0 <= j < line.len() implies #[trigger] line[j] != '\r' by {
            assert(s[i + j] != '\r');
        }
        lemma_no_crs(line);
        let rest = sse::finished_from(s, k + 1);
        let all = seq![line] + rest;
        assert(all.skip(1) =~= rest);
        assert(with_breaks(all) =~= line.push('\n') + with_breaks(rest));
        assert(line.push('\n') + s.skip(k + 1) =~= s.skip(i));
        assert(with_breaks(all) + sse::unfinished_from(s, k + 1) =~= line.push('\n') + (
        with_breaks(rest) + sse::unfinished_from(s, k + 1)));
    }
}

/// Nothing of a stream is lost: the finished lines with their breaks and then what is
/// pending are the text that came. What is pending holds no line break.
pub proof fn law_lines_are_the_text(s: Seq<char>)
    requires
        forall|k: int| 0 <= k < s.len() ==> #[trigger] s[k] != '\r',
    ensures
        with_breaks(sse::finished(s)) + sse::unfinished(s) == s,
        forall|k: int| 0 <= k < sse::unfinished(s).len() ==> #[trigger] sse::unfinished(s)[k] != '\n',
{
    lemma_lines_from(s, 0);
    assert(s.skip(0) =~= s);
}

/// A carriage return before a line break is no part of the line.
pub proof fn law_carriage_returns_are_dropped(line: Seq<char>)
    ensures
        sse::strip_crs(line).is_prefix_of(line),
        forall|i: int| sse::strip_crs(line).len() <= i < line.len() ==> #[trigger] line[i] == '\r',
        sse::strip_crs(line).len() > 0 ==> sse::strip_crs(line).last() != '\r',
    decreases line.len(),
{
    if line.len() > 0 && line.last() == '\r' {
        let front = line.drop_last();
        law_carriage_returns_are_dropped(front);
        assert forall|i: int| sse::strip_crs(line).len() <= i < line.len() implies #[trigger] line[i]
            == '\r' by {
            if i < front.len() {
                assert(front[i] == line[i]);
            }
        }
    }
}

/// Only a line that begins with the data mark carries data.
pub proof fn law_other_lines_carry_no_data(line: Seq<char>)
    ensures
        sse::data_of(line) is Some <==> text::starts_with(line, "data:"@),
        sse::data_of(line) matches Some(d) ==> d.is_suffix_of(line),
{
}

/// A text event grows the text of its block and is handed on; the other blocks stay.
pub proof fn law_text_event_grows_its_block(st: ReplyView, ev: JsonView, i: u64, t: Seq<char>)
    requires
        ev.text_at("type"@) == Some("content_block_delta"@),
        ev.u64_at("index"@) == Some(i),
        i < st.blocks.len() <= usize::MAX,
        st.blocks[i as int] is Object,
        ev.get("delta"@) is Some,
        ev.get("delta"@)->0.text_at("type"@) == Some("text_delta"@),
        ev.get("delta"@)->0.text_at("text"@) == Some(t),
    ensures
        ({
            let (r, out) = anthropic_stream::after_event(st, ev);
            &&& out == seq![DeltaView { content: Some(t), reasoning_content: None }]
            &&& r.blocks.len() == st.blocks.len()
            &&& r.blocks[i as int].text_at("text"@) == Some(
                blocks::text_in(st.blocks[i as int].text_at("text"@)) + t,
            )
            &&& forall|key: Seq<char>|
                key != "text"@ ==> #[trigger] r.blocks[i as int].get(key) == st.blocks[i as int].get(
                    key,
                )
            &&& forall|k: int|
                0 <= k < st.blocks.len() && k != i ==> #[trigger] r.blocks[k] == st.blocks[k]
            &&& r.tool_json == st.tool_json
            &&& r.stop_reason == st.stop_reason
        }),
{
    lemma_event_types();
}

/// A thinking event grows the thought of its block and is handed on as reasoning.
pub proof fn law_thinking_event_grows_its_block(st: ReplyView, ev: JsonView, i: u64, t: Seq<char>)
    requires
        ev.text_at("type"@) == Some("content_block_delta"@),
        ev.u64_at("index"@) == Some(i),
        i < st.blocks.len() <= usize::MAX,
        st.blocks[i as int] is Object,
        ev.get("delta"@) is Some,
        ev.get("delta"@)->0.text_at("type"@) == Some("thinking_delta"@),
        ev.get("delta"@)->0.text_at("thinking"@) == Some(t),
    ensures
        ({
            let (r, out) = anthropic_stream::after_event(st, ev);
            &&& out == seq![DeltaView { content: None, reasoning_content: Some(t) }]
            &&& r.blocks.len() == st.blocks.len()
            &&& r.blocks[i as int].text_at("thinking"@) == Some(
                blocks::text_in(st.blocks[i as int].text_at("thinking"@)) + t,
            )
            &&& forall|key: Seq<char>|
                key != "thinking"@ ==> #[trigger] r.blocks[i as int].get(key)
                    == st.blocks[i as int].get(key)
            &&& forall|k: int|
                0 <= k < st.blocks.len() && k != i ==> #[trigger] r.blocks[k] == st.blocks[k]
            &&& r.tool_json == st.tool_json
        }),
{
    lemma_event_types();
}

/// The signature of a thought is gathered, and not handed on.
pub proof fn law_signature_is_gathered(st: ReplyView, ev: JsonView, i: u64, t: Seq<char>)
    requires
        ev.text_at("type"@) == Some("content_block_delta"@),
        ev.u64_at("index"@) == Some(i),
        i < st.blocks.len() <= usize::MAX,
        st.blocks[i as int] is Object,
        ev.get("delta"@) is Some,
        ev.get("delta"@)->0.text_at("type"@) == Some("signature_delta"@),
        ev.get("delta"@)->0.text_at("signature"@) == Some(t),
    ensures
        ({
            let (r, out) = anthropic_stream::after_event(st, ev);
            &&& out.len() == 0
            &&& r.blocks[i as int].text_at("signature"@) == Some(
                blocks::text_in(st.blocks[i as int].text_at("signature"@)) + t,
            )
            &&& forall|k: int|
                0 <= k < st.blocks.len() && k != i ==> #[trigger] r.blocks[k] == st.blocks[k]
        }),
{
    lemma_event_types();
}

/// The arguments of a call are gathered piece by piece at its own place.
pub proof fn law_arguments_are_gathered(st: ReplyView, ev: JsonView, i: u64, t: Seq<char>)
    requires
        ev.text_at("type"@) == Some("content_block_delta"@),
        ev.u64_at("index"@) == Some(i),
        i < st.blocks.len() <= usize::MAX,
        st.tool_json.len() == st.blocks.len(),
        ev.get("delta"@) is Some,
        ev.get("delta"@)->0.text_at("type"@) == Some("input_json_delta"@),
        ev.get("delta"@)->0.text_at("partial_json"@) == Some(t),
    ensures
        ({
            let (r, out) = anthropic_stream::after_event(st, ev);
            &&& out.len() == 0
            &&& r.blocks == st.blocks
            &&& r.tool_json.len() == st.tool_json.len()
            &&& r.tool_json[i as int] == st.tool_json[i as int] + t
            &&& forall|k: int|
                0 <= k < st.tool_json.len() && k != i ==> #[trigger] r.tool_json[k]
                    == st.tool_json[k]
        }),
{
    lemma_event_types();
}

/// A block that begins stands at its place as it came; earlier blocks stay.
pub proof fn law_block_begins(st: ReplyView, ev: JsonView, i: u64, block: JsonView)
    requires
        ev.text_at("type"@) == Some("content_block_start"@),
        ev.u64_at("index"@) == Some(i),
        i < usize::MAX,
        ev.get("content_block"@) == Some(block),
        st.tool_json.len() == st.blocks.len(),
    ensures
        ({
            let (r, out) = anthropic_stream::after_event(st, ev);
            &&& out.len() == 0
            &&& i < r.blocks.len()
            &&& r.blocks[i as int] == block
            &&& st.blocks.len() == i ==> r.blocks == st.blocks.push(block)
            &&& forall|k: int|
                0 <= k < st.blocks.len() && k != i ==> #[trigger] r.blocks[k] == st.blocks[k]
            &&& forall|k: int|
                0 <= k < st.tool_json.len() ==> #[trigger] r.tool_json[k] == st.tool_json[k]
            &&& r.tool_json.len() == r.blocks.len()
            &&& st.tool_json.len() <= i ==> r.tool_json[i as int].len() == 0
        }),
{
    lemma_event_types();
    let (r, out) = anthropic_stream::after_event(st, ev);
    if st.blocks.len() == i {
        assert(r.blocks =~= st.blocks.push(block));
    }
}

/// The counts and the reason to stop come from the events that report them.
pub proof fn law_reports_are_kept(st: ReplyView, ev: JsonView)
    ensures
        ({
            let (r, out) = anthropic_stream::after_event(st, ev);
            &&& ev.text_at("type"@) == Some("message_start"@) ==> {
                &&& out.len() == 0
                &&& r.blocks == st.blocks
                &&& ev.get("message"@) matches Some(m) ==> (m.get("usage"@) matches Some(u) ==> {
                    &&& u.u64_at("input_tokens"@) matches Some(n) ==> r.input_tokens == Some(
                        n as u32,
                    )
                    &&& u.u64_at("cache_read_input_tokens"@) matches Some(n)
                        ==> r.cached_input_tokens == Some(n as u32)
                })
            }
            &&& ev.text_at("type"@) == Some("message_delta"@) ==> {
                &&& out.len() == 0
                &&& r.blocks == st.blocks
                &&& ev.get("delta"@) matches Some(d) ==> (d.text_at("stop_reason"@) matches Some(t)
                    ==> r.stop_reason == Some(t))
                &&& ev.get("delta"@) is None ==> r.stop_reason == st.stop_reason
                &&& ev.get("usage"@) matches Some(u) ==> (u.u64_at("output_tokens"@) matches Some(
                    n,
                ) ==> r.output_tokens == Some(n as u32))
                &&& ev.get("usage"@) is None ==> r.output_tokens == st.output_tokens
            }
        }),
{
    lemma_event_types();
}

/// The reply of a stream is the gathered blocks; a call has for its input what its pieces
/// read as.
pub proof fn law_streamed_call_has_its_input(st: ReplyView, i: int, input: JsonView)
    requires
        0 <= i < st.blocks.len(),
        st.tool_json.len() == st.blocks.len(),
        st.blocks[i] is Object,
        st.tool_json[i].len() > 0,
        json::parsed_json(st.tool_json[i]) == Ok::<JsonView, Seq<char>>(input),
    ensures
        ({
            let b = anthropic_stream::with_input(st.blocks[i], st.tool_json[i]);
            &&& b.get("input"@) == Some(input)
            &&& forall|key: Seq<char>|
                key != "input"@ ==> #[trigger] b.get(key) == st.blocks[i].get(key)
        }),
{
}

/// Without gathered arguments, or with ones that are no JSON, a block stays as it is.
pub proof fn law_block_without_input_stays(block: JsonView, input: Seq<char>)
    requires
        input.len() == 0 || json::parsed_json(input) is Err,
    ensures
        anthropic_stream::with_input(block, input) == block,
{
}

/// A streamed reply is read as the same blocks would be read from a document.
pub proof fn law_stream_reads_as_a_document(st: ReplyView, doc: JsonView)
    requires
        st.tool_json.len() == st.blocks.len(),
        forall|i: int| 0 <= i < st.tool_json.len() ==> (#[trigger] st.tool_json[i]).len() == 0,
        doc.array_at("content"@) == Some(st.blocks),
        doc.text_at("stop_reason"@) == st.stop_reason,
    ensures
        ({
            let a = anthropic_stream::stream_reply(st);
            let b = crate::llm::anthropic::document_reply(doc);
            &&& a.content == b.content
            &&& a.reasoning_content == b.reasoning_content
            &&& a.tool_calls == b.tool_calls
            &&& a.provider_extra == b.provider_extra
            &&& a.finish_reason == b.finish_reason
            &&& a.input_tokens == st.input_tokens
            &&& a.output_tokens == st.output_tokens
            &&& a.cached_input_tokens == st.cached_input_tokens
        }),
{
    assert(Seq::new(
        st.blocks.len(),
        |i: int| anthropic_stream::with_input(st.blocks[i], st.tool_json[i]),
    ) =~= st.blocks);
}

proof fn lemma_event_types()
    ensures
        "message_start"@ != "content_block_start"@,
        "message_start"@ != "content_block_delta"@,
        "message_start"@ != "message_delta"@,
        "content_block_start"@ != "content_block_delta"@,
        "content_block_start"@ != "message_delta"@,
        "content_block_delta"@ != "message_delta"@,
        "text_delta"@ != "thinking_delta"@,
        "text_delta"@ != "signature_delta"@,
        "text_delta"@ != "input_json_delta"@,
        "thinking_delta"@ != "signature_delta"@,
        "thinking_delta"@ != "input_json_delta"@,
        "signature_delta"@ != "input_json_delta"@,
{
    reveal_strlit("message_start");
    reveal_strlit("content_block_start");
    reveal_strlit("content_block_delta");
    reveal_strlit("message_delta");
    reveal_strlit("text_delta");
    reveal_strlit("thinking_delta");
    reveal_strlit("signature_delta");
    reveal_strlit("input_json_delta");
    assert("message_start"@.len() == 13 && "content_block_start"@.len() == 19
        && "content_block_delta"@.len() == 19 && "message_delta"@.len() == 13 && "text_delta"@.len()
        == 10 && "thinking_delta"@.len() == 14 && "signature_delta"@.len() == 15
        && "input_json_delta"@.len() == 16);
    assert("message_start"@[8] == 's' && "message_delta"@[8] == 'd' && "content_block_start"@[14]
        == 's' && "content_block_delta"@[14] == 'd');
}

proof fn lemma_response_events()
    ensures
        forall|i: int, j: int|
            #![trigger response_event(i), response_event(j)]
            0 <= i < j < 8 ==> response_event(i) != response_event(j),
        response_event(0) == "response.output_text.delta"@,
        response_event(1) == "response.reasoning_summary_text.delta"@,
        response_event(2) == "response.reasoning_text.delta"@,
        response_event(3) == "response.output_item.done"@,
        response_event(4) == "response.completed"@,
        response_event(5) == "response.incomplete"@,
        response_event(6) == "response.failed"@,
        response_event(7) == "error"@,
{
    reveal_strlit("response.output_text.delta");
    reveal_strlit("response.reasoning_summary_text.delta");
    reveal_strlit("response.reasoning_text.delta");
    reveal_strlit("response.output_item.done");
    reveal_strlit("response.completed");
    reveal_strlit("response.incomplete");
    reveal_strlit("response.failed");
    reveal_strlit("error");
    assert("response.output_text.delta"@.len() == 26
        && "response.reasoning_summary_text.delta"@.len() == 37
        && "response.reasoning_text.delta"@.len() == 29 && "response.output_item.done"@.len() == 25
        && "response.completed"@.len() == 18 && "response.incomplete"@.len() == 19
        && "response.failed"@.len() == 15 && "error"@.len() == 5);
}

/// The events of a response stream.
pub open spec fn response_event(i: int) -> Seq<char> {
    if i == 0 {
        "response.output_text.delta"@
    } else if i == 1 {
        "response.reasoning_summary_text.delta"@
    } else if i == 2 {
        "response.reasoning_text.delta"@
    } else if i == 3 {
        "response.output_item.done"@
    } else if i == 4 {
        "response.completed"@
    } else if i == 5 {
        "response.incomplete"@
    } else if i == 6 {
        "response.failed"@
    } else {
        "error"@
    }
}

/// A piece of a response is handed on as it came; the whole response and a failure are
/// kept for the end.
pub proof fn law_response_events_are_kept(st: responses::OutcomeView, ev: JsonView)
    ensures
        ({
            let (r, out) = responses::after_event(st, ev);
            &&& ev.text_at("type"@) == Some("response.output_text.delta"@) ==> r == st && (
            ev.text_at("delta"@) matches Some(t) ==> out == seq![
                DeltaView { content: Some(t), reasoning_content: None },
            ])
            &&& ev.text_at("type"@) == Some("response.reasoning_summary_text.delta"@) ==> r == st
                && (ev.text_at("delta"@) matches Some(t) ==> out == seq![
                DeltaView { content: None, reasoning_content: Some(t) },
            ])
            &&& ev.text_at("type"@) == Some("response.completed"@) ==> out.len() == 0 && r.response
                == ev.get("response"@) && r.failure == st.failure
            &&& ev.text_at("type"@) == Some("response.failed"@) || ev.text_at("type"@) == Some(
                "error"@,
            ) ==> out.len() == 0 && r.failure == Some(ev) && r.response == st.response
        }),
{
    lemma_response_events();
}

/// The same for the other provider, which also gathers the items that are done.
pub proof fn law_qwen_events_are_kept(st: qwen::OutcomeView, ev: JsonView)
    ensures
        ({
            let (r, out) = qwen::after_event(st, ev);
            &&& ev.text_at("type"@) == Some("response.output_text.delta"@) ==> r == st && (
            ev.text_at("delta"@) matches Some(t) ==> out == seq![
                DeltaView { content: Some(t), reasoning_content: None },
            ])
            &&& ev.text_at("type"@) == Some("response.reasoning_text.delta"@) ==> r == st && (
            ev.text_at("delta"@) matches Some(t) ==> out == seq![
                DeltaView { content: None, reasoning_content: Some(t) },
            ])
            &&& ev.text_at("type"@) == Some("response.output_item.done"@) ==> (ev.get("item"@)
                matches Some(i) ==> r.items == st.items.push(i) && r.response == st.response
                && r.failure == st.failure)
            &&& ev.text_at("type"@) == Some("response.completed"@) || ev.text_at("type"@) == Some(
                "response.incomplete"@,
            ) ==> out.len() == 0 && r.response == ev.get("response"@) && r.items == st.items
            &&& ev.text_at("type"@) == Some("response.failed"@) || ev.text_at("type"@) == Some(
                "error"@,
            ) ==> out.len() == 0 && r.failure == Some(ev)
        }),
{
    lemma_response_events();
}

/// Nothing counts behind a failure, and the end mark is no event.
pub proof fn law_nothing_counts_behind_a_failure(
    a: responses::OutcomeView,
    b: qwen::OutcomeView,
    line: Seq<char>,
)
    ensures
        a.failure is Some || sse::data_of(line) == Some("[DONE]"@) || sse::data_of(line) is None
            ==> responses::after_line(a, line).0 == a && responses::after_line(a, line).1.len() == 0,
        b.failure is Some || sse::data_of(line) == Some("[DONE]"@) || sse::data_of(line) is None
            ==> qwen::after_line(b, line).0 == b && qwen::after_line(b, line).1.len() == 0,
{
}

/// A line of data counts as the event that it reads as.
pub proof fn law_data_is_an_event(
    a: responses::OutcomeView,
    b: qwen::OutcomeView,
    c: ReplyView,
    line: Seq<char>,
    data: Seq<char>,
    ev: JsonView,
)
    requires
        sse::data_of(line) == Some(data),
        json::parsed_json(data) == Ok::<JsonView, Seq<char>>(ev),
    ensures
        a.failure is None && data != "[DONE]"@ ==> responses::after_line(a, line)
            == responses::after_event(a, ev),
        b.failure is None && data != "[DONE]"@ ==> qwen::after_line(b, line) == qwen::after_event(
            b,
            ev,
        ),
        anthropic_stream::after_line(c, line) == anthropic_stream::after_event(c, ev),
{
}

/// A bracketed span begins at the first bracket that opens and ends at the last that
/// closes.
pub proof fn law_span_is_bracketed(s: Seq<char>)
    ensures
        structured::bracketed(s) matches Some(span) ==> exists|i: int, j: int|
            {
                &&& 0 <= i < j <= s.len()
                &&& span == #[trigger] s.subrange(i, j)
                &&& s[i] == '{' || s[i] == '['
                &&& s[j - 1] == '}' || s[j - 1] == ']'
                &&& forall|k: int| 0 <= k < i ==> s[k] != '{' && s[k] != '['
                &&& forall|k: int| j <= k < s.len() ==> s[k] != '}' && s[k] != ']'
            },
{
    lemma_first_open(s, 0);
    lemma_last_close(s);
    if structured::bracketed(s) is Some {
        let i = structured::first_open(s, 0);
        let j = structured::last_close(s);
        assert(structured::bracketed(s)->0 == s.subrange(i, j));
    }
}

/// Text around a bracketed value is left out.
pub proof fn law_text_around_a_value_is_left_out(a: Seq<char>, v: Seq<char>, b: Seq<char>)
    requires
        v.len() >= 2,
        v[0] == '{' || v[0] == '[',
        v.last() == '}' || v.last() == ']',
        forall|k: int| 0 <= k < a.len() ==> #[trigger] a[k] != '{' && a[k] != '[',
        forall|k: int| 0 <= k < b.len() ==> #[trigger] b[k] != '}' && b[k] != ']',
    ensures
        structured::bracketed(a + v + b) == Some(v),
{
    let s = a + v + b;
    lemma_first_open(s, 0);
    lemma_last_close(s);
    let i = structured::first_open(s, 0);
    let j = structured::last_close(s);
    assert(s[a.len() as int] == v[0]);
    assert(s[(a.len() + v.len()) as int - 1] == v.last());
    assert(i == a.len()) by {
        if i < a.len() {
            assert(s[i] == a[i]);
        }
    }
    assert(j == a.len() + v.len()) by {
        if j > a.len() + v.len() {
            assert(s[j - 1] == b[j - 1 - a.len() - v.len()]);
        }
    }
    assert(s.subrange(i, j) =~= v);
}

proof fn lemma_first_open(s: Seq<char>, i: int)
    requires
        0 <= i <= s.len(),
    ensures
        i <= structured::first_open(s, i) <= s.len(),
        structured::first_open(s, i) < s.len() ==> s[structured::first_open(s, i)] == '{'
            || s[structured::first_open(s, i)] == '[',
        forall|k: int| i <= k < structured::first_open(s, i) ==> s[k] != '{' && s[k] != '[',
    decreases s.len() - i,
{
    if i < s.len() && s[i] != '{' && s[i] != '[' {
        lemma_first_open(s, i + 1);
    }
}

proof fn lemma_last_close(s: Seq<char>)
    ensures
        0 <= structured::last_close(s) <= s.len(),
        structured::last_close(s) > 0 ==> s[structured::last_close(s) - 1] == '}'
            || s[structured::last_close(s) - 1] == ']',
        forall|k: int| structured::last_close(s) <= k < s.len() ==> s[k] != '}' && s[k] != ']',
    decreases s.len(),
{
    if s.len() > 0 && s.last() != '}' && s.last() != ']' {
        let front = s.drop_last();
        lemma_last_close(front);
        assert forall|k: int| structured::last_close(s) <= k < s.len() implies s[k] != '}' && s[k]
            != ']' by {
            if k < front.len() {
                assert(front[k] == s[k]);
            }
        }
    }
}

/// A value that is the whole reply, or what a fence holds, is tried before a span.
pub proof fn law_reply_is_tried_whole_first(s: Seq<char>)
    ensures
        structured::json_candidates(s).len() >= 2,
        structured::json_candidates(s)[0] == text::trim(s),
        !text::contains(s, "```"@) ==> structured::json_candidates(s)[1] == text::trim(s),
        !text::contains(s, "```"@) ==> (structured::json_candidates(s).len() == 3 <==> structured::bracketed(
            s,
        ) is Some),
        !text::contains(s, "```"@) && structured::bracketed(s) is Some ==> Some(
            structured::json_candidates(s)[2],
        ) == structured::bracketed(s),
{
    text::lemma_contains(s, "```"@);
}

/// The instruction names the value and gives the schema, as a whole.
pub proof fn law_instruction_gives_the_schema(name: Seq<char>, schema: JsonView)
    ensures
        text::contains(structured::instruction(name, schema), json::json_text(schema)),
        text::contains(structured::instruction(name, schema), name),
{
    let a = "You must reply with a single JSON value named '"@;
    let b = "' that validates against this JSON Schema:\n\n"@;
    let t = structured::instruction(name, schema);
    let v = json::json_text(schema);
    let n = a.len() as int;
    assert(t.subrange(n, n + name.len()) =~= name);
    assert(text::occurs_at(t, name, n));
    let k = (a.len() + name.len() + b.len()) as int;
    assert(t.subrange(k, k + v.len()) =~= v);
    assert(text::occurs_at(t, v, k));
}

/// The error of a reply without a value names the schema and shows the beginning.
pub proof fn law_missing_value_is_told(name: Seq<char>, reply: Seq<char>)
    ensures
        text::contains(structured::no_json(name, reply), name),
        reply.len() <= 200 ==> reply.is_suffix_of(structured::no_json(name, reply)),
        reply.len() > 200 ==> reply.take(200).is_suffix_of(structured::no_json(name, reply)),
{
    let a = "model did not return JSON for schema '"@;
    let t = structured::no_json(name, reply);
    assert(t.subrange(a.len() as int, (a.len() + name.len()) as int) =~= name);
    assert(text::occurs_at(t, name, a.len() as int));
}

/// A reply that came at once is handed on as one piece.
pub proof fn law_whole_reply_is_one_piece(r: ResponseView)
    ensures
        structured::whole_delta(r) is Some <==> r.content is Some || r.reasoning_content is Some,
        structured::whole_delta(r) matches Some(d) ==> d.content == r.content
            && d.reasoning_content == r.reasoning_content,
{
}

/// What is worth another try: a timeout, a lost connection, and a server that is busy or
/// failed; no other answer.
pub proof fn law_what_is_tried_again(e: LlmErrorView)
    ensures
        e matches LlmErrorView::Http { message, timeout, connect, request } ==> (retry::transient(e)
            <==> timeout || connect || request),
        e matches LlmErrorView::Api { status, body } ==> (retry::transient(e) <==> status == 408
            || status == 429 || (status >= 500 && status <= 599)),
        e is EmptyResponse || e is Serde || e is Structured ==> !retry::transient(e),
{
}

/// The first delay is the base, and each one doubles until the most is reached.
pub proof fn law_delays_double(p: RetryProvider, attempt: u32)
    requires
        attempt < 31,
    ensures
        p.base_delay <= p.max_delay ==> retry::plain_delay(p, 0) == p.base_delay,
        retry::plain_delay(p, (attempt + 1) as u32) == (if 2 * retry::plain_delay(p, attempt)
            <= p.max_delay {
            2 * retry::plain_delay(p, attempt)
        } else {
            p.max_delay as int
        }),
        retry::plain_delay(p, attempt) <= retry::plain_delay(p, (attempt + 1) as u32),
{
    vstd::arithmetic::power2::lemma_pow2_unfold((attempt + 1) as nat);
    vstd::arithmetic::power2::lemma2_to64();
    lemma_pow2_bound(attempt as nat);
    lemma_pow2_bound((attempt + 1) as nat);
    let f = vstd::arithmetic::power2::pow2(attempt as nat) as int;
    let b = p.base_delay as int;
    assert(b * (2 * f) == 2 * (b * f)) by (nonlinear_arith);
    assert(b * f >= 0) by (nonlinear_arith)
        requires
            b >= 0,
            f >= 0,
    ;
}

proof fn lemma_pow2_bound(n: nat)
    requires
        n <= 31,
    ensures
        vstd::arithmetic::power2::pow2(n) <= u32::MAX,
{
    vstd::arithmetic::power2::lemma2_to64();
    if n < 31 {
        vstd::arithmetic::power2::lemma_pow2_strictly_increases(n, 31);
    }
}

/// A delay is drawn out by less than a quarter.
pub proof fn law_delay_is_spread(p: RetryProvider, attempt: u32, nanos: u32)
    ensures
        retry::plain_delay(p, attempt) <= retry::delay(p, attempt, nanos),
        retry::delay(p, attempt, nanos) <= retry::plain_delay(p, attempt) + retry::plain_delay(
            p,
            attempt,
        ) / 4,
        nanos % 250 == 0 ==> retry::delay(p, attempt, nanos) == retry::plain_delay(p, attempt),
{
    retry::law_delay_is_bounded(p, attempt, nanos);
    let d = retry::plain_delay(p, attempt);
    let k = (nanos % 250) as int;
    assert(d * k <= d * 250) by (nonlinear_arith)
        requires
            0 <= d,
            0 <= k <= 250,
    ;
    assert(d * 0 == 0);
}

/// The gap lets through as many requests a minute as were asked for, and hardly fewer.
pub proof fn law_gap_fits_the_minute(n: u32)
    requires
        n > 0,
    ensures
        rate_limit::gap(n) * n <= 60_000_000_000,
        rate_limit::gap(n) * n > 60_000_000_000 - n * 1_000_000,
        rate_limit::gap(0) == 0,
{
    let m = n as int;
    let q = 60_000int / m;
    assert(q * m <= 60_000 && q * m > 60_000 - m) by (nonlinear_arith)
        requires
            m > 0,
            q == 60_000int / m,
    ;
    assert(q * 1_000_000 * m == (q * m) * 1_000_000) by (nonlinear_arith);
}

/// What a fence holds is taken without the fence and its language.
pub proof fn law_fenced_value_is_taken(pre: Seq<char>, body: Seq<char>, post: Seq<char>)
    requires
        forall|i: int|
            0 <= i < pre.len() ==> !#[trigger] text::occurs_at(
                pre + "```json\n"@ + body + "```"@ + post,
                "```"@,
                i,
            ),
        forall|i: int|
            0 <= i < body.len() ==> !#[trigger] text::occurs_at(body + "```"@ + post, "```"@, i),
        body.len() > 0,
        body[0] != '\n',
    ensures
        structured::unfenced(pre + "```json\n"@ + body + "```"@ + post) == body,
{
    reveal_strlit("```json\n");
    reveal_strlit("```");
    reveal_strlit("json");
    let s = pre + "```json\n"@ + body + "```"@ + post;
    let n = pre.len() as int;
    assert(s.subrange(n, n + 3) =~= "```"@);
    assert(text::occurs_at(s, "```"@, n));
    text::lemma_find_from(s, "```"@, 0);
    assert(text::find(s, "```"@) == Some(n));
    let rest = s.skip(n + 3);
    let inner = seq!['\n'] + body + "```"@ + post;
    assert(rest =~= "json"@ + inner);
    assert(rest.subrange(0, 4) =~= "json"@);
    assert(text::starts_with(rest, "json"@));
    assert(rest.skip(4) =~= inner);
    assert(inner[0] == '\n');
    assert("json"@[0] == 'j');
    assert(!text::starts_with(inner, "json"@)) by {
        if text::starts_with(inner, "json"@) {
            assert(inner.subrange(0, 4)[0] == 'j');
        }
    }
    assert(structured::without_prefix(inner, "json"@) == inner);
    assert(structured::without_prefix(rest, "json"@) == inner);
    let tail = body + "```"@ + post;
    assert(inner.skip(1) =~= tail);
    assert(tail[0] == body[0]);
    assert(text::trim_start_char(tail, '\n') == tail);
    assert(text::trim_start_char(inner, '\n') == tail);
    let b = body.len() as int;
    assert(tail.subrange(b, b + 3) =~= "```"@);
    assert(text::occurs_at(tail, "```"@, b));
    text::lemma_find_from(tail, "```"@, 0);
    assert(text::find(tail, "```"@) == Some(b));
    assert(tail.take(b) =~= body);
}

/// A request for a value is the conversation with the instruction behind it.
pub proof fn law_instruction_stands_last(
    messages: Seq<MessageView>,
    name: Seq<char>,
    schema: JsonView,
)
    ensures
        ({
            let r = structured::prompted(messages, name, schema);
            &&& r.len() == messages.len() + 1
            &&& messages.is_prefix_of(r)
            &&& r.last().role == Role::System
            &&& r.last().content is Some
            &&& text::contains(r.last().content->0, json::json_text(schema))
        }),
{
    law_instruction_gives_the_schema(name, schema);
}

/// A request goes out at once where its slot has come or nothing is limited, and at its
/// slot where that is still to come; the next slot is one gap later.
pub proof fn law_request_goes_out_at_its_slot(p: RateLimitedProvider, now: u128)
    requires
        p.next_slot + p.interval <= u128::MAX,
        now + p.interval <= u128::MAX,
    ensures
        p.interval == 0 || p.next_slot <= now ==> rate_limit::dispatch_time(p, now) == now,
        p.interval > 0 && p.next_slot > now ==> rate_limit::dispatch_time(p, now) == p.next_slot,
        p.interval > 0 ==> rate_limit::reserved(p, now).next_slot == rate_limit::dispatch_time(
            p,
            now,
        ) + p.interval,
        rate_limit::reserved(p, now).interval == p.interval,
        rate_limit::later(p.next_slot, now) >= p.next_slot,
        rate_limit::later(p.next_slot, now) >= now,
        rate_limit::later(p.next_slot, now) == p.next_slot || rate_limit::later(p.next_slot, now)
            == now,
{
}

} // verus!
