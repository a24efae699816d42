//! Laws of the Responses wire format, for both providers that speak it.
use crate::json::JsonView;
use crate::laws::anthropic as blocks;
use crate::llm::content::{ImageSourceView, PartView};
use crate::llm::qwen;
use crate::llm::qwen::QwenProvider;
use crate::llm::responses;
use crate::llm::responses::OpenAiResponsesProvider;
use crate::llm::types::{MessageView, Role, ToolDefView};
use crate::seqs;
use crate::text;
use vstd::prelude::*;

verus! {

proof fn lemma_item_keys()
    ensures
        "role"@ != "content"@,
        "type"@ != "call_id"@,
        "type"@ != "name"@,
        "type"@ != "arguments"@,
        "type"@ != "output"@,
        "type"@ != "text"@,
        "type"@ != "image_url"@,
        "call_id"@ != "name"@,
        "call_id"@ != "arguments"@,
        "call_id"@ != "output"@,
        "name"@ != "arguments"@,
        "type"@ != "description"@,
        "type"@ != "parameters"@,
        "name"@ != "description"@,
        "name"@ != "parameters"@,
        "description"@ != "parameters"@,
{
    reveal_strlit("role");
    reveal_strlit("content");
    reveal_strlit("type");
    reveal_strlit("call_id");
    reveal_strlit("name");
    reveal_strlit("arguments");
    reveal_strlit("output");
    reveal_strlit("text");
    reveal_strlit("image_url");
    reveal_strlit("description");
    reveal_strlit("parameters");
    assert("role"@.len() == 4 && "content"@.len() == 7 && "type"@.len() == 4 && "call_id"@.len()
        == 7 && "name"@.len() == 4 && "arguments"@.len() == 9 && "output"@.len() == 6
        && "text"@.len() == 4 && "image_url"@.len() == 9 && "description"@.len() == 11
        && "parameters"@.len() == 10);
    assert("type"@[1] == 'y' && "text"@[1] == 'e' && "name"@[1] == 'a');
}

/// The input is made message by message: behind what came before stand the items of the
/// messages that follow.
pub proof fn law_input_is_in_order(a: Seq<MessageView>, b: Seq<MessageView>)
    requires
        forall|i: int| 0 <= i < b.len() ==> (#[trigger] b[i]).role != Role::System,
    ensures
        responses::input_of(a + b).items == responses::input_of(a).items + responses::input_of(
            b,
        ).items,
        responses::input_of(a + b).instructions == responses::input_of(a).instructions,
    decreases b.len(),
{
    if b.len() == 0 {
        assert(a + b =~= a);
        assert(responses::input_of(a).items + Seq::<JsonView>::empty() =~= responses::input_of(
            a,
        ).items);
    } else {
        let front = b.drop_last();
        assert((a + b).drop_last() =~= a + front);
        assert((a + b).last() == b[b.len() - 1]);
        assert forall|i: int| 0 <= i < front.len() implies (#[trigger] front[i]).role
            != Role::System by {
            assert(front[i] == b[i]);
        }
        law_input_is_in_order(a, front);
        assert(responses::input_of(a + b).items =~= responses::input_of(a).items
            + responses::input_of(b).items);
    }
}

/// What one message is sent as: a user's text with the sender's name before it, a reply
/// with its text and its calls in order, and a result under the ID of its call.
pub proof fn law_message_becomes_items(m: MessageView, i: int)
    requires
        m.role != Role::System,
        m.parts.len() == 0,
        m.provider_extra is None,
    ensures
        ({
            let items = responses::input_of(seq![m]).items;
            let calls = match m.tool_calls {
                Some(c) => c.len() as int,
                None => 0,
            };
            let spoken = if blocks::text_in(m.content).len() > 0 {
                1int
            } else {
                0
            };
            match m.role {
                Role::System => true,
                Role::User => {
                    &&& items.len() == 1
                    &&& items[0].text_at("role"@) == Some("user"@)
                    &&& items[0].text_at("content"@) == Some(
                        match m.name {
                            Some(n) => "["@ + n + "] "@ + blocks::text_in(m.content),
                            None => blocks::text_in(m.content),
                        },
                    )
                },
                Role::Assistant => {
                    &&& items.len() == spoken + calls
                    &&& spoken == 1 ==> items[0].text_at("role"@) == Some("assistant"@)
                        && items[0].text_at("content"@) == m.content
                    &&& 0 <= i < calls ==> {
                        let c = items[spoken + i];
                        &&& c.text_at("type"@) == Some("function_call"@)
                        &&& c.text_at("call_id"@) == Some(m.tool_calls->0[i].id)
                        &&& c.text_at("name"@) == Some(m.tool_calls->0[i].name)
                        &&& c.text_at("arguments"@) == Some(m.tool_calls->0[i].arguments)
                    }
                },
                Role::Tool => {
                    &&& items.len() == 1
                    &&& items[0].text_at("type"@) == Some("function_call_output"@)
                    &&& items[0].text_at("call_id"@) == Some(blocks::text_in(m.tool_call_id))
                    &&& items[0].text_at("output"@) == Some(blocks::text_in(m.content))
                },
            }
        }),
{
    lemma_item_keys();
    assert(seq![m].drop_last() =~= Seq::<MessageView>::empty());
    assert(seq![m].last() == m);
    let start = responses::input_of(Seq::<MessageView>::empty());
    assert(start.items =~= Seq::<JsonView>::empty());
    assert(responses::input_of(seq![m]) == responses::add_message(start, m));
    if m.role == Role::Assistant {
        let items = responses::input_of(seq![m]).items;
        assert(items =~= responses::assistant_items(m));
    }
}

/// The result of a tool is sent whatever else the message carries.
pub proof fn law_result_becomes_an_item(m: MessageView)
    requires
        m.role == Role::Tool,
    ensures
        ({
            let items = responses::input_of(seq![m]).items;
            &&& items.len() == 1
            &&& items[0].text_at("type"@) == Some("function_call_output"@)
            &&& items[0].text_at("call_id"@) == Some(blocks::text_in(m.tool_call_id))
            &&& items[0].text_at("output"@) == Some(blocks::text_in(m.content))
        }),
{
    lemma_item_keys();
    assert(seq![m].drop_last() =~= Seq::<MessageView>::empty());
    assert(seq![m].last() == m);
    let start = responses::input_of(Seq::<MessageView>::empty());
    assert(start.items =~= Seq::<JsonView>::empty());
}

/// A reply that carries the items that it came with is sent as these items.
pub proof fn law_kept_items_are_sent(m: MessageView, items: Seq<JsonView>)
    requires
        m.role == Role::Assistant,
        m.provider_extra is Some,
        m.provider_extra->0.array_at("openai_response_items"@) == Some(items),
    ensures
        responses::input_of(seq![m]).items == items,
{
    assert(seq![m].drop_last() =~= Seq::<MessageView>::empty());
    assert(seq![m].last() == m);
    let start = responses::input_of(Seq::<MessageView>::empty());
    assert(start.items =~= Seq::<JsonView>::empty());
    assert(responses::input_of(seq![m]).items =~= items);
}

/// A message with images is sent part by part, in order.
pub proof fn law_parts_become_content(m: MessageView, i: int)
    requires
        m.role == Role::User,
        exists|k: int| 0 <= k < m.parts.len() && #[trigger] m.parts[k] is Image,
        0 <= i < m.parts.len(),
    ensures
        ({
            let items = responses::input_of(seq![m]).items;
            let c = items[0].array_at("content"@);
            &&& items.len() == 1
            &&& items[0].text_at("role"@) == Some("user"@)
            &&& c is Some
            &&& c->0.len() == m.parts.len()
            &&& match m.parts[i] {
                PartView::Text { text } => {
                    &&& c->0[i].text_at("type"@) == Some("input_text"@)
                    &&& c->0[i].text_at("text"@) is Some
                    &&& text.is_suffix_of(c->0[i].text_at("text"@)->0)
                    &&& m.name is None ==> c->0[i].text_at("text"@) == Some(text)
                },
                PartView::Image { source } => {
                    &&& c->0[i].text_at("type"@) == Some("input_image"@)
                    &&& c->0[i].text_at("image_url"@) == Some(
                        match source {
                            ImageSourceView::Url { url } => url,
                            ImageSourceView::Base64 { media_type, data } => "data:"@ + media_type
                                + ";base64,"@ + data,
                        },
                    )
                },
            }
        }),
{
    lemma_item_keys();
    assert(seq![m].drop_last() =~= Seq::<MessageView>::empty());
    assert(seq![m].last() == m);
    let start = responses::input_of(Seq::<MessageView>::empty());
    assert(start.items =~= Seq::<JsonView>::empty());
    if let PartView::Text { text } = m.parts[i] {
        if let Some(n) = m.name {
            assert(text.is_suffix_of("["@ + n + "] "@ + text));
        }
    }
}

/// A system message behind the conversation is told to the model under a heading.
pub proof fn law_later_system_message_is_told(a: Seq<MessageView>, m: MessageView)
    requires
        m.role == Role::System,
        exists|i: int| 0 <= i < a.len() && (#[trigger] a[i]).role != Role::System,
    ensures
        ({
            let items = responses::input_of(a.push(m)).items;
            let before = responses::input_of(a).items;
            &&& items.len() == before.len() + 1
            &&& items.drop_last() == before
            &&& items.last().text_at("role"@) == Some("user"@)
            &&& items.last().text_at("content"@) == Some(
                "[system]\n"@ + blocks::text_in(m.content),
            )
        }),
{
    lemma_item_keys();
    lemma_not_leading(a);
    assert(a.push(m).drop_last() =~= a);
    assert(responses::input_of(a.push(m)).items.drop_last() =~= responses::input_of(a).items);
}

proof fn lemma_not_leading(a: Seq<MessageView>)
    requires
        exists|i: int| 0 <= i < a.len() && (#[trigger] a[i]).role != Role::System,
    ensures
        !responses::input_of(a).leading,
    decreases a.len(),
{
    let i = choose|i: int| 0 <= i < a.len() && (#[trigger] a[i]).role != Role::System;
    let front = a.drop_last();
    if i < front.len() {
        assert(front[i].role != Role::System);
        lemma_not_leading(front);
    }
}

/// Leading system messages with a text are the instructions, one after the other, with an
/// empty line between two; nothing of them is among the items.
pub proof fn law_instructions_are_joined(sys: Seq<MessageView>)
    requires
        forall|i: int|
            0 <= i < sys.len() ==> (#[trigger] sys[i]).role == Role::System && blocks::text_in(
                sys[i].content,
            ).len() > 0,
    ensures
        responses::input_of(sys).instructions == text::join(
            Seq::new(sys.len(), |i: int| blocks::text_in(sys[i].content)),
            "\n\n"@,
        ),
        responses::input_of(sys).items.len() == 0,
        responses::input_of(sys).leading,
        sys.len() > 0 ==> responses::input_of(sys).instructions.len() > 0,
    decreases sys.len(),
{
    if sys.len() > 0 {
        let front = sys.drop_last();
        assert forall|i: int| 0 <= i < front.len() implies (#[trigger] front[i]).role
            == Role::System && blocks::text_in(front[i].content).len() > 0 by {
            assert(front[i] == sys[i]);
        }
        law_instructions_are_joined(front);
        let all = Seq::new(sys.len(), |i: int| blocks::text_in(sys[i].content));
        assert(all.drop_last() =~= Seq::new(
            front.len(),
            |i: int| blocks::text_in(front[i].content),
        ));
        assert(sys.last() == sys[sys.len() - 1]);
        if sys.len() == 1 {
            assert(responses::input_of(front).instructions =~= Seq::empty());
            assert(responses::input_of(sys).instructions =~= blocks::text_in(sys[0].content));
        }
    }
}

/// A reply is read item by item: its text and its calls are those of its items in order,
/// and the items themselves are carried.
pub proof fn law_reply_is_read_in_order(
    whole: JsonView,
    first: JsonView,
    second: JsonView,
    a: Seq<JsonView>,
    b: Seq<JsonView>,
)
    requires
        whole.array_at("output"@) == Some(a + b),
        first.array_at("output"@) == Some(a),
        second.array_at("output"@) == Some(b),
    ensures
        ({
            let w = responses::document_reply(whole);
            let f = responses::document_reply(first);
            let s = responses::document_reply(second);
            &&& blocks::text_in(w.content) == blocks::text_in(f.content) + blocks::text_in(
                s.content,
            )
            &&& w.tool_calls == f.tool_calls + s.tool_calls
            &&& (a + b).len() > 0 ==> w.provider_extra is Some && w.provider_extra->0.array_at(
                "openai_response_items"@,
            ) == Some(a + b)
            &&& w.finish_reason == (if w.tool_calls.len() > 0 {
                "tool_calls"@
            } else {
                "stop"@
            })
        }),
{
    blocks::lemma_flat_concat(a, b, |i: JsonView| responses::item_text(i));
    seqs::lemma_filter_map_concat(a, b, |i: JsonView| responses::item_call(i));
    let w = responses::document_reply(whole);
    let f = responses::document_reply(first);
    let s = responses::document_reply(second);
    assert(blocks::text_in(w.content) =~= blocks::text_in(f.content) + blocks::text_in(s.content));
}

/// What one item of a reply says: a message its text, a function call one call with its
/// ID, its name and its arguments.
pub proof fn law_item_is_read(doc: JsonView, item: JsonView)
    requires
        doc.array_at("output"@) == Some(seq![item]),
    ensures
        ({
            let r = responses::document_reply(doc);
            &&& item.text_at("type"@) == Some("function_call"@) ==> {
                &&& r.content is None
                &&& r.reasoning_content is None
                &&& r.tool_calls.len() == 1
                &&& r.tool_calls[0].id == blocks::text_in(item.text_at("call_id"@))
                &&& r.tool_calls[0].name == blocks::text_in(item.text_at("name"@))
                &&& item.text_at("arguments"@) matches Some(t) ==> r.tool_calls[0].arguments == t
                &&& item.text_at("arguments"@) is None ==> r.tool_calls[0].arguments == "{}"@
                &&& r.tool_calls[0].kind == "function"@
                &&& r.tool_calls[0].extra_content is None
            }
            &&& item.text_at("type"@) != Some("function_call"@) ==> r.tool_calls.len() == 0
            &&& item.text_at("type"@) != Some("message"@) ==> r.content is None
            &&& item.text_at("type"@) != Some("reasoning"@) ==> r.reasoning_content is None
        }),
{
    reveal_strlit("function_call");
    reveal_strlit("message");
    reveal_strlit("reasoning");
    assert("function_call"@.len() == 13 && "message"@.len() == 7 && "reasoning"@.len() == 9);
    blocks::lemma_flat_one(item, |i: JsonView| responses::item_text(i));
    blocks::lemma_flat_one(item, |i: JsonView| responses::item_reasoning(i));
    blocks::lemma_filter_one(item, |i: JsonView| responses::item_call(i));
    assert(responses::in_lines(Seq::<Seq<char>>::empty()) =~= Seq::<char>::empty());
}

/// A message of one text says that text.
pub proof fn law_message_item_says_its_text(
    doc: JsonView,
    item: JsonView,
    part: JsonView,
    t: Seq<char>,
)
    requires
        doc.array_at("output"@) == Some(seq![item]),
        item.text_at("type"@) == Some("message"@),
        item.array_at("content"@) == Some(seq![part]),
        part.text_at("type"@) == Some("output_text"@),
        part.text_at("text"@) == Some(t),
    ensures
        blocks::text_in(responses::document_reply(doc).content) == t,
{
    blocks::lemma_flat_one(item, |i: JsonView| responses::item_text(i));
    blocks::lemma_flat_one(part, |p: JsonView| responses::output_text(p));
    assert(blocks::text_in(responses::document_reply(doc).content) =~= t);
}

/// The texts of a message item follow one another.
pub proof fn law_message_item_is_read_in_order(
    whole: JsonView,
    first: JsonView,
    second: JsonView,
    a: Seq<JsonView>,
    b: Seq<JsonView>,
)
    requires
        whole.text_at("type"@) == Some("message"@),
        first.text_at("type"@) == Some("message"@),
        second.text_at("type"@) == Some("message"@),
        whole.array_at("content"@) == Some(a + b),
        first.array_at("content"@) == Some(a),
        second.array_at("content"@) == Some(b),
    ensures
        responses::item_text(whole) == responses::item_text(first) + responses::item_text(second),
{
    blocks::lemma_flat_concat(a, b, |p: JsonView| responses::output_text(p));
}

/// The thoughts of a reply stand one to a line.
pub proof fn law_thoughts_stand_in_lines(texts: Seq<Seq<char>>)
    requires
        forall|i: int| 0 <= i < texts.len() ==> (#[trigger] texts[i]).len() > 0,
    ensures
        responses::in_lines(texts) == text::join(texts, "\n"@),
        texts.len() > 0 ==> responses::in_lines(texts).len() > 0,
    decreases texts.len(),
{
    reveal_strlit("\n");
    if texts.len() > 0 {
        let front = texts.drop_last();
        assert forall|i: int| 0 <= i < front.len() implies (#[trigger] front[i]).len() > 0 by {
            assert(front[i] == texts[i]);
        }
        law_thoughts_stand_in_lines(front);
        assert(texts[texts.len() - 1].len() > 0);
        if texts.len() == 1 {
            assert(responses::in_lines(front) =~= Seq::<char>::empty());
        } else {
            assert(responses::in_lines(front).push('\n') =~= responses::in_lines(front) + "\n"@);
        }
    }
}

/// The thoughts of one reasoning item are the reasoning of the reply.
pub proof fn law_reasoning_is_read(
    doc: JsonView,
    item: JsonView,
    part: JsonView,
    t: Seq<char>,
)
    requires
        doc.array_at("output"@) == Some(seq![item]),
        item.text_at("type"@) == Some("reasoning"@),
        item.array_at("summary"@) == Some(seq![part]),
        part.text_at("text"@) == Some(t),
        t.len() > 0,
    ensures
        responses::document_reply(doc).reasoning_content == Some(t),
{
    blocks::lemma_flat_one(item, |i: JsonView| responses::item_reasoning(i));
    blocks::lemma_filter_one(part, |p: JsonView| p.text_at("text"@));
    law_thoughts_stand_in_lines(seq![t]);
    assert(text::join(seq![t], "\n"@) =~= t);
}

/// The counts of a reply are read.
pub proof fn law_counts_are_read(doc: JsonView, usage: JsonView)
    requires
        doc.get("usage"@) == Some(usage),
    ensures
        ({
            let r = responses::document_reply(doc);
            &&& usage.u64_at("input_tokens"@) matches Some(n) ==> r.input_tokens == Some(n as u32)
            &&& usage.u64_at("output_tokens"@) matches Some(n) ==> r.output_tokens == Some(
                n as u32,
            )
            &&& usage.get("input_tokens_details"@) matches Some(d) ==> (d.u64_at("cached_tokens"@)
                matches Some(n) ==> r.cached_input_tokens == Some(n as u32))
            &&& usage.u64_at("input_tokens"@) is None ==> r.input_tokens is None
            &&& usage.u64_at("output_tokens"@) is None ==> r.output_tokens is None
            &&& usage.get("input_tokens_details"@) is None ==> r.cached_input_tokens is None
        }),
{
}

/// A reply without counts has none.
pub proof fn law_no_counts_without_usage(doc: JsonView)
    requires
        doc.get("usage"@) is None,
    ensures
        responses::document_reply(doc).input_tokens is None,
        responses::document_reply(doc).output_tokens is None,
        responses::document_reply(doc).cached_input_tokens is None,
{
}

/// A reply without output says nothing and calls nothing.
pub proof fn law_empty_reply_says_nothing(doc: JsonView)
    requires
        doc.array_at("output"@) is None,
    ensures
        ({
            let r = responses::document_reply(doc);
            &&& r.content is None
            &&& r.reasoning_content is None
            &&& r.tool_calls.len() == 0
            &&& r.provider_extra is None
            &&& r.finish_reason == "stop"@
        }),
{
    assert(responses::in_lines(Seq::<Seq<char>>::empty()) =~= Seq::<char>::empty());
}

/// The thoughts of two reasoning items stand one under the other, in order.
pub proof fn law_thoughts_are_read_in_order(
    doc: JsonView,
    items: (JsonView, JsonView),
    parts: (JsonView, JsonView),
    texts: (Seq<char>, Seq<char>),
)
    requires
        doc.array_at("output"@) == Some(seq![items.0, items.1]),
        items.0.text_at("type"@) == Some("reasoning"@),
        items.1.text_at("type"@) == Some("reasoning"@),
        items.0.array_at("summary"@) == Some(seq![parts.0]),
        items.1.array_at("summary"@) == Some(seq![parts.1]),
        parts.0.text_at("text"@) == Some(texts.0),
        parts.1.text_at("text"@) == Some(texts.1),
        texts.0.len() > 0,
        texts.1.len() > 0,
    ensures
        responses::document_reply(doc).reasoning_content == Some(texts.0.push('\n') + texts.1),
{
    let f = |i: JsonView| responses::item_reasoning(i);
    let g = |p: JsonView| p.text_at("text"@);
    blocks::lemma_filter_one(parts.0, g);
    blocks::lemma_filter_one(parts.1, g);
    blocks::lemma_flat_one(items.0, f);
    blocks::lemma_flat_one(items.1, f);
    assert(seq![items.0] + seq![items.1] =~= seq![items.0, items.1]);
    blocks::lemma_flat_concat(seq![items.0], seq![items.1], f);
    let all = seq![texts.0, texts.1];
    assert(seqs::flat_map(seq![items.0, items.1], f) =~= all);
    assert(all.drop_last() =~= seq![texts.0]);
    assert(seq![texts.0].drop_last() =~= Seq::<Seq<char>>::empty());
    assert(responses::in_lines(Seq::<Seq<char>>::empty()) =~= Seq::<char>::empty());
    assert(responses::in_lines(seq![texts.0]) == texts.0);
}

proof fn lemma_body_keys()
    ensures
        forall|i: int, j: int|
            #![trigger body_key(i), body_key(j)]
            0 <= i < j < 14 ==> body_key(i) != body_key(j),
{
    reveal_strlit("model");
    reveal_strlit("input");
    reveal_strlit("store");
    reveal_strlit("include");
    reveal_strlit("instructions");
    reveal_strlit("tools");
    reveal_strlit("tool_choice");
    reveal_strlit("parallel_tool_calls");
    reveal_strlit("reasoning");
    reveal_strlit("temperature");
    reveal_strlit("top_p");
    reveal_strlit("max_output_tokens");
    reveal_strlit("stream");
    reveal_strlit("enable_thinking");
    assert("model"@.len() == 5 && "input"@.len() == 5 && "store"@.len() == 5 && "include"@.len()
        == 7 && "instructions"@.len() == 12 && "tools"@.len() == 5 && "tool_choice"@.len() == 11
        && "parallel_tool_calls"@.len() == 19 && "reasoning"@.len() == 9 && "temperature"@.len()
        == 11 && "top_p"@.len() == 5 && "max_output_tokens"@.len() == 17 && "stream"@.len() == 6
        && "enable_thinking"@.len() == 15);
    assert("model"@[0] == 'm' && "input"@[0] == 'i' && "store"@[0] == 's' && "tools"@[0] == 't'
        && "top_p"@[0] == 't' && "tools"@[2] == 'o' && "top_p"@[2] == 'p' && "tool_choice"@[1]
        == 'o' && "temperature"@[1] == 'e');
}

/// The keys of a request.
pub open spec fn body_key(i: int) -> Seq<char> {
    if i == 0 {
        "model"@
    } else if i == 1 {
        "input"@
    } else if i == 2 {
        "store"@
    } else if i == 3 {
        "include"@
    } else if i == 4 {
        "instructions"@
    } else if i == 5 {
        "tools"@
    } else if i == 6 {
        "tool_choice"@
    } else if i == 7 {
        "parallel_tool_calls"@
    } else if i == 8 {
        "reasoning"@
    } else if i == 9 {
        "temperature"@
    } else if i == 10 {
        "top_p"@
    } else if i == 11 {
        "max_output_tokens"@
    } else if i == 12 {
        "stream"@
    } else {
        "enable_thinking"@
    }
}

proof fn lemma_body_keys_apart()
    ensures
        body_key(0) == "model"@,
        body_key(1) == "input"@,
        body_key(2) == "store"@,
        body_key(3) == "include"@,
        body_key(4) == "instructions"@,
        body_key(5) == "tools"@,
        body_key(6) == "tool_choice"@,
        body_key(7) == "parallel_tool_calls"@,
        body_key(8) == "reasoning"@,
        body_key(9) == "temperature"@,
        body_key(10) == "top_p"@,
        body_key(11) == "max_output_tokens"@,
        body_key(12) == "stream"@,
        body_key(13) == "enable_thinking"@,
        forall|i: int, j: int|
            #![trigger body_key(i), body_key(j)]
            0 <= i < j < 14 ==> body_key(i) != body_key(j),
{
    lemma_body_keys();
}

/// A request names the model, sends the input and the instructions, asks that nothing be
/// stored, and carries each setting that was made.
#[verifier::rlimit(60)]
pub proof fn law_request_carries_the_settings(
    p: OpenAiResponsesProvider,
    messages: Seq<MessageView>,
    tools: Seq<ToolDefView>,
    stream: bool,
)
    ensures
        ({
            let b = responses::request_body(p, messages, tools, stream);
            let input = responses::input_of(messages);
            &&& b.text_at("model"@) == Some(p.model@)
            &&& b.array_at("input"@) == Some(input.items)
            &&& b.get("store"@) == Some(JsonView::Bool(false))
            &&& b.array_at("include"@) == Some(
                seq![JsonView::Text("reasoning.encrypted_content"@)],
            )
            &&& input.instructions.len() > 0 ==> b.text_at("instructions"@) == Some(
                input.instructions,
            )
            &&& tools.len() > 0 && p.tool_choice is Some ==> b.get("tool_choice"@) == Some(
                p.tool_choice->0@,
            )
            &&& tools.len() > 0 && p.parallel_tool_calls is Some ==> b.get("parallel_tool_calls"@)
                == Some(JsonView::Bool(p.parallel_tool_calls->0))
            &&& p.reasoning_effort matches Some(t) ==> b.get("reasoning"@) is Some && b.get(
                "reasoning"@,
            )->0.text_at("effort"@) == Some(t@)
            &&& p.temperature matches Some(t) ==> b.get("temperature"@) == Some(t@)
            &&& p.top_p matches Some(t) ==> b.get("top_p"@) == Some(t@)
            &&& p.max_output_tokens matches Some(n) ==> b.get("max_output_tokens"@) == Some(
                JsonView::Int(n as int),
            )
            &&& stream ==> b.get("stream"@) == Some(JsonView::Bool(true))
        }),
{
    lemma_body_keys_apart();
}

/// Every tool is offered, in order.
#[verifier::rlimit(60)]
pub proof fn law_tools_are_offered(
    p: OpenAiResponsesProvider,
    q: QwenProvider,
    messages: Seq<MessageView>,
    tools: Seq<ToolDefView>,
    stream: bool,
    i: int,
)
    requires
        0 <= i < tools.len(),
    ensures
        ({
            let a = responses::request_body(p, messages, tools, stream).array_at("tools"@);
            let b = qwen::request_body(q, messages, tools, stream).array_at("tools"@);
            &&& a is Some
            &&& a->0.len() == tools.len()
            &&& a->0[i].text_at("type"@) == Some("function"@)
            &&& a->0[i].text_at("name"@) == Some(tools[i].name)
            &&& a->0[i].text_at("description"@) == Some(tools[i].description)
            &&& a->0[i].get("parameters"@) == Some(tools[i].parameters)
            &&& b == a
        }),
{
    let list = tools.map_values(|t: ToolDefView| responses::flat_tool(t));
    assert(responses::request_body(p, messages, tools, stream).get("tools"@) == Some(
        JsonView::Array(list),
    ) && qwen::request_body(q, messages, tools, stream).get("tools"@) == Some(
        JsonView::Array(list),
    )) by {
        lemma_body_keys_apart();
    }
    assert(list[i] == responses::flat_tool(tools[i]));
    lemma_item_keys();
}

/// A request to the other provider names the model, sends the visible items and the
/// instructions, and carries each setting that was made.
#[verifier::rlimit(60)]
pub proof fn law_qwen_request_carries_the_settings(
    p: QwenProvider,
    messages: Seq<MessageView>,
    tools: Seq<ToolDefView>,
    stream: bool,
)
    ensures
        ({
            let b = qwen::request_body(p, messages, tools, stream);
            let input = responses::input_of(messages);
            &&& b.text_at("model"@) == Some(p.model@)
            &&& b.array_at("input"@) == Some(qwen::visible(input.items))
            &&& input.instructions.len() > 0 ==> b.text_at("instructions"@) == Some(
                input.instructions,
            )
            &&& tools.len() > 0 && p.tool_choice is Some ==> b.get("tool_choice"@) == Some(
                p.tool_choice->0@,
            )
            &&& tools.len() > 0 && p.parallel_tool_calls is Some ==> b.get("parallel_tool_calls"@)
                == Some(JsonView::Bool(p.parallel_tool_calls->0))
            &&& p.enable_thinking matches Some(f) ==> b.get("enable_thinking"@) == Some(
                JsonView::Bool(f),
            )
            &&& p.temperature matches Some(t) ==> b.get("temperature"@) == Some(t@)
            &&& p.top_p matches Some(t) ==> b.get("top_p"@) == Some(t@)
            &&& p.max_output_tokens matches Some(n) ==> b.get("max_output_tokens"@) == Some(
                JsonView::Int(n as int),
            )
            &&& stream ==> b.get("stream"@) == Some(JsonView::Bool(true))
        }),
{
    lemma_body_keys_apart();
}

/// Reasoning items are left out and all others are kept, in order.
pub proof fn law_only_reasoning_is_hidden(a: Seq<JsonView>, b: Seq<JsonView>, item: JsonView)
    ensures
        qwen::visible(a + b) == qwen::visible(a) + qwen::visible(b),
        item.text_at("type"@) == Some("reasoning"@) ==> qwen::visible(seq![item]).len() == 0,
        item.text_at("type"@) != Some("reasoning"@) ==> qwen::visible(seq![item]) == seq![item],
{
    let f = |i: JsonView| qwen::visible_item(i);
    seqs::lemma_filter_map_concat(a, b, f);
    blocks::lemma_filter_one(item, f);
}

/// What a stream ends with: the whole reply where one came, else the items that were
/// done, in order, with the usage.
pub proof fn law_qwen_stream_ends(st: qwen::OutcomeView)
    ensures
        st.response is Some ==> qwen::final_document(st) == st.response,
        st.response is None && st.items.len() == 0 ==> qwen::final_document(st) is None,
        st.response is None && st.items.len() > 0 ==> {
            &&& qwen::final_document(st) is Some
            &&& qwen::final_document(st)->0.array_at("output"@) == Some(st.items)
            &&& qwen::final_document(st)->0.get("usage"@) == st.usage
        },
{
    reveal_strlit("output");
    reveal_strlit("usage");
    assert("output"@.len() == 6 && "usage"@.len() == 5);
}

} // verus!
