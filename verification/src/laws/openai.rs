//! Laws of the Chat Completions wire format.
use crate::json::JsonView;
use crate::llm::content::{ImageSourceView, PartView};
use crate::llm::openai;
use crate::llm::openai::{
    AccView, Choice, CompletionView, OpenAiProvider, PieceView, StreamChunk, Usage,
};
use crate::llm::sse;
use crate::llm::types;
use crate::llm::types::{MessageView, Role, ToolDefView};
use crate::laws::anthropic as blocks;
use vstd::prelude::*;

verus! {

proof fn lemma_message_keys()
    ensures
        "role"@ != "content"@,
        "role"@ != "tool_calls"@,
        "role"@ != "tool_call_id"@,
        "role"@ != "name"@,
        "content"@ != "tool_calls"@,
        "content"@ != "tool_call_id"@,
        "content"@ != "name"@,
        "tool_calls"@ != "tool_call_id"@,
        "tool_calls"@ != "name"@,
        "tool_call_id"@ != "name"@,
        "id"@ != "type"@,
        "id"@ != "function"@,
        "id"@ != "extra_content"@,
        "type"@ != "function"@,
        "type"@ != "extra_content"@,
        "function"@ != "extra_content"@,
        "name"@ != "arguments"@,
        "name"@ != "description"@,
        "name"@ != "parameters"@,
        "description"@ != "parameters"@,
        "type"@ != "text"@,
        "type"@ != "image_url"@,
{
    reveal_strlit("role");
    reveal_strlit("content");
    reveal_strlit("tool_calls");
    reveal_strlit("tool_call_id");
    reveal_strlit("name");
    reveal_strlit("id");
    reveal_strlit("type");
    reveal_strlit("function");
    reveal_strlit("extra_content");
    reveal_strlit("arguments");
    reveal_strlit("description");
    reveal_strlit("parameters");
    reveal_strlit("text");
    reveal_strlit("image_url");
    assert("role"@.len() == 4 && "content"@.len() == 7 && "tool_calls"@.len() == 10
        && "tool_call_id"@.len() == 12 && "name"@.len() == 4 && "id"@.len() == 2 && "type"@.len()
        == 4 && "function"@.len() == 8 && "extra_content"@.len() == 13 && "arguments"@.len() == 9
        && "description"@.len() == 11 && "parameters"@.len() == 10 && "text"@.len() == 4
        && "image_url"@.len() == 9);
    assert("role"@[0] == 'r' && "name"@[0] == 'n' && "type"@[1] == 'y' && "text"@[1] == 'e');
}

/// A message is sent with its role, its text, its calls in order, the ID of the call that
/// it answers and its name; what it has not is not sent.
pub proof fn law_message_is_sent(m: MessageView)
    ensures
        ({
            let j = types::message_json(m);
            &&& j.text_at("role"@) == Some(
                match m.role {
                    Role::System => "system"@,
                    Role::User => "user"@,
                    Role::Assistant => "assistant"@,
                    Role::Tool => "tool"@,
                },
            )
            &&& m.parts.len() == 0 ==> j.get("content"@) == match m.content {
                Some(t) => Some(JsonView::Text(t)),
                None => None,
            }
            &&& j.text_at("tool_call_id"@) == m.tool_call_id
            &&& j.text_at("name"@) == m.name
            &&& m.tool_calls is None ==> j.get("tool_calls"@) is None
            &&& m.tool_calls is Some ==> {
                &&& j.array_at("tool_calls"@) is Some
                &&& j.array_at("tool_calls"@)->0.len() == m.tool_calls->0.len()
                &&& forall|i: int|
                    0 <= i < m.tool_calls->0.len() ==> {
                        let c = #[trigger] j.array_at("tool_calls"@)->0[i];
                        &&& c.text_at("id"@) == Some(m.tool_calls->0[i].id)
                        &&& c.text_at("type"@) == Some(m.tool_calls->0[i].kind)
                        &&& c.get("function"@) is Some
                        &&& c.get("function"@)->0.text_at("name"@) == Some(m.tool_calls->0[i].name)
                        &&& c.get("function"@)->0.text_at("arguments"@) == Some(
                            m.tool_calls->0[i].arguments,
                        )
                        &&& c.get("extra_content"@) == m.tool_calls->0[i].extra_content
                    }
            }
            &&& j.get("provider_extra"@) is None
        }),
{
    lemma_message_keys();
    reveal_strlit("provider_extra");
    reveal_strlit("role");
    reveal_strlit("content");
    reveal_strlit("tool_calls");
    reveal_strlit("tool_call_id");
    reveal_strlit("name");
    assert("provider_extra"@.len() == 14 && "role"@.len() == 4 && "content"@.len() == 7
        && "tool_calls"@.len() == 10 && "tool_call_id"@.len() == 12 && "name"@.len() == 4);
    if m.tool_calls is Some {
        let j = types::message_json(m);
        let calls = m.tool_calls->0;
        assert forall|i: int| 0 <= i < calls.len() implies #[trigger] j.array_at(
            "tool_calls"@,
        )->0[i] == types::tool_call_json(calls[i]) by {}
    }
}

/// The parts of a message are sent in order, each text as its text and each image as an
/// address.
pub proof fn law_parts_are_sent(m: MessageView, i: int)
    requires
        0 <= i < m.parts.len(),
    ensures
        ({
            let j = types::message_json(m);
            &&& j.array_at("content"@) is Some
            &&& j.array_at("content"@)->0.len() == m.parts.len()
            &&& match m.parts[i] {
                PartView::Text { text } => j.array_at("content"@)->0[i].text_at("type"@) == Some(
                    "text"@,
                ) && j.array_at("content"@)->0[i].text_at("text"@) == Some(text),
                PartView::Image { source } => {
                    let b = j.array_at("content"@)->0[i];
                    &&& b.text_at("type"@) == Some("image_url"@)
                    &&& b.get("image_url"@) is Some
                    &&& b.get("image_url"@)->0.text_at("url"@) == Some(
                        match source {
                            ImageSourceView::Url { url } => url,
                            ImageSourceView::Base64 { media_type, data } => "data:"@ + media_type
                                + ";base64,"@ + data,
                        },
                    )
                },
            }
        }),
{
    lemma_message_keys();
}

proof fn lemma_body_keys()
    ensures
        "model"@ != "messages"@,
        "model"@ != "tools"@,
        "model"@ != "tool_choice"@,
        "model"@ != "temperature"@,
        "model"@ != "top_p"@,
        "model"@ != "max_tokens"@,
        "model"@ != "stop"@,
        "model"@ != "seed"@,
        "model"@ != "frequency_penalty"@,
        "model"@ != "presence_penalty"@,
        "model"@ != "reasoning_effort"@,
        "model"@ != "parallel_tool_calls"@,
        "model"@ != "response_format"@,
        "model"@ != "stream"@,
        "model"@ != "stream_options"@,
        "tools"@ != "tool_choice"@,
        "tools"@ != "temperature"@,
        "tools"@ != "top_p"@,
        "tools"@ != "max_tokens"@,
        "tools"@ != "stop"@,
        "tools"@ != "seed"@,
        "tools"@ != "frequency_penalty"@,
        "tools"@ != "presence_penalty"@,
        "tools"@ != "reasoning_effort"@,
        "tools"@ != "parallel_tool_calls"@,
        "tools"@ != "response_format"@,
        "tools"@ != "stream"@,
        "tools"@ != "stream_options"@,
        "tools"@ != "messages"@,
{
    reveal_strlit("model");
    reveal_strlit("messages");
    reveal_strlit("tools");
    reveal_strlit("tool_choice");
    reveal_strlit("temperature");
    reveal_strlit("top_p");
    reveal_strlit("max_tokens");
    reveal_strlit("stop");
    reveal_strlit("seed");
    reveal_strlit("frequency_penalty");
    reveal_strlit("presence_penalty");
    reveal_strlit("reasoning_effort");
    reveal_strlit("parallel_tool_calls");
    reveal_strlit("response_format");
    reveal_strlit("stream");
    reveal_strlit("stream_options");
    assert("model"@.len() == 5 && "messages"@.len() == 8 && "tools"@.len() == 5
        && "tool_choice"@.len() == 11 && "temperature"@.len() == 11 && "top_p"@.len() == 5
        && "max_tokens"@.len() == 10 && "stop"@.len() == 4 && "seed"@.len() == 4
        && "frequency_penalty"@.len() == 17 && "presence_penalty"@.len() == 16
        && "reasoning_effort"@.len() == 16 && "parallel_tool_calls"@.len() == 19
        && "response_format"@.len() == 15 && "stream"@.len() == 6 && "stream_options"@.len() == 14);
    assert("model"@[0] == 'm' && "top_p"@[2] == 'p' && "tools"@[2] == 'o' && "tools"@[0] == 't'
        && "top_p"@[0] == 't');
}

/// A request names the model and sends every message in order, and every tool.
#[verifier::rlimit(60)]
pub proof fn law_request_is_whole(
    p: OpenAiProvider,
    messages: Seq<MessageView>,
    tools: Seq<ToolDefView>,
    stream: bool,
)
    ensures
        ({
            let b = openai::request_body(p, messages, tools, stream);
            &&& b.text_at("model"@) == Some(p.model@)
            &&& b.array_at("messages"@) is Some
            &&& b.array_at("messages"@)->0.len() == messages.len()
            &&& forall|i: int|
                0 <= i < messages.len() ==> #[trigger] b.array_at("messages"@)->0[i]
                    == types::message_json(messages[i])
            &&& tools.len() > 0 ==> {
                &&& b.array_at("tools"@) is Some
                &&& b.array_at("tools"@)->0.len() == tools.len()
                &&& forall|i: int|
                    0 <= i < tools.len() ==> {
                        let t = #[trigger] b.array_at("tools"@)->0[i];
                        &&& t.text_at("type"@) == Some(tools[i].kind)
                        &&& t.get("function"@) is Some
                        &&& t.get("function"@)->0.text_at("name"@) == Some(tools[i].name)
                        &&& t.get("function"@)->0.text_at("description"@) == Some(
                            tools[i].description,
                        )
                        &&& t.get("function"@)->0.get("parameters"@) == Some(tools[i].parameters)
                    }
            }
        }),
{
    let b = openai::request_body(p, messages, tools, stream);
    assert(b.get("model"@) == Some(JsonView::Text(p.model@)) && b.get("messages"@) == Some(
        JsonView::Array(messages.map_values(|m: MessageView| types::message_json(m))),
    ) && (tools.len() > 0 ==> b.get("tools"@) == Some(
        JsonView::Array(tools.map_values(|t: ToolDefView| openai::tool_def_json(t))),
    ))) by {
        lemma_body_keys();
        lemma_messages_key();
    }
    lemma_message_keys();
}

proof fn lemma_messages_key()
    ensures
        "messages"@ != "tool_choice"@,
        "messages"@ != "temperature"@,
        "messages"@ != "top_p"@,
        "messages"@ != "max_tokens"@,
        "messages"@ != "stop"@,
        "messages"@ != "seed"@,
        "messages"@ != "frequency_penalty"@,
        "messages"@ != "presence_penalty"@,
        "messages"@ != "reasoning_effort"@,
        "messages"@ != "parallel_tool_calls"@,
        "messages"@ != "response_format"@,
        "messages"@ != "stream"@,
        "messages"@ != "stream_options"@,
{
    reveal_strlit("messages");
    reveal_strlit("tool_choice");
    reveal_strlit("temperature");
    reveal_strlit("top_p");
    reveal_strlit("max_tokens");
    reveal_strlit("stop");
    reveal_strlit("seed");
    reveal_strlit("frequency_penalty");
    reveal_strlit("presence_penalty");
    reveal_strlit("reasoning_effort");
    reveal_strlit("parallel_tool_calls");
    reveal_strlit("response_format");
    reveal_strlit("stream");
    reveal_strlit("stream_options");
    assert("messages"@.len() == 8 && "tool_choice"@.len() == 11 && "temperature"@.len() == 11
        && "top_p"@.len() == 5 && "max_tokens"@.len() == 10 && "stop"@.len() == 4 && "seed"@.len()
        == 4 && "frequency_penalty"@.len() == 17 && "presence_penalty"@.len() == 16
        && "reasoning_effort"@.len() == 16 && "parallel_tool_calls"@.len() == 19
        && "response_format"@.len() == 15 && "stream"@.len() == 6 && "stream_options"@.len() == 14);
}

proof fn lemma_setting_keys()
    ensures
        forall|i: int, j: int|
            #![trigger setting_key(i), setting_key(j)]
            0 <= i < j < 13 ==> setting_key(i) != setting_key(j),
{
    reveal_strlit("tool_choice");
    reveal_strlit("temperature");
    reveal_strlit("top_p");
    reveal_strlit("max_tokens");
    reveal_strlit("stop");
    reveal_strlit("seed");
    reveal_strlit("frequency_penalty");
    reveal_strlit("presence_penalty");
    reveal_strlit("reasoning_effort");
    reveal_strlit("parallel_tool_calls");
    reveal_strlit("response_format");
    reveal_strlit("stream");
    reveal_strlit("stream_options");
    assert("tool_choice"@.len() == 11 && "temperature"@.len() == 11 && "top_p"@.len() == 5
        && "max_tokens"@.len() == 10 && "stop"@.len() == 4 && "seed"@.len() == 4
        && "frequency_penalty"@.len() == 17 && "presence_penalty"@.len() == 16
        && "reasoning_effort"@.len() == 16 && "parallel_tool_calls"@.len() == 19
        && "response_format"@.len() == 15 && "stream"@.len() == 6 && "stream_options"@.len() == 14);
    assert("tool_choice"@[1] == 'o' && "temperature"@[1] == 'e' && "stop"@[1] == 't' && "seed"@[1]
        == 'e' && "presence_penalty"@[0] == 'p' && "reasoning_effort"@[0] == 'r');
}

/// The keys of the settings.
pub open spec fn setting_key(i: int) -> Seq<char> {
    if i == 0 {
        "tool_choice"@
    } else if i == 1 {
        "temperature"@
    } else if i == 2 {
        "top_p"@
    } else if i == 3 {
        "max_tokens"@
    } else if i == 4 {
        "stop"@
    } else if i == 5 {
        "seed"@
    } else if i == 6 {
        "frequency_penalty"@
    } else if i == 7 {
        "presence_penalty"@
    } else if i == 8 {
        "reasoning_effort"@
    } else if i == 9 {
        "parallel_tool_calls"@
    } else if i == 10 {
        "response_format"@
    } else if i == 11 {
        "stream"@
    } else {
        "stream_options"@
    }
}

/// Each setting that was made is sent as it was made, and a stream is asked for with its
/// usage.
#[verifier::rlimit(40)]
pub proof fn law_request_carries_the_settings(
    p: OpenAiProvider,
    messages: Seq<MessageView>,
    tools: Seq<ToolDefView>,
    stream: bool,
)
    ensures
        ({
            let b = openai::request_body(p, messages, tools, stream);
            &&& p.tool_choice is Some && tools.len() > 0 ==> b.get("tool_choice"@) == Some(
                p.tool_choice->0@,
            )
            &&& p.temperature matches Some(t) ==> b.get("temperature"@) == Some(t@)
            &&& p.top_p matches Some(t) ==> b.get("top_p"@) == Some(t@)
            &&& p.max_tokens matches Some(n) ==> b.get("max_tokens"@) == Some(
                JsonView::Int(n as int),
            )
            &&& p.stop@.len() > 0 ==> {
                &&& b.array_at("stop"@) is Some
                &&& b.array_at("stop"@)->0.len() == p.stop@.len()
                &&& forall|i: int|
                    0 <= i < p.stop@.len() ==> #[trigger] b.array_at("stop"@)->0[i]
                        == JsonView::Text(p.stop@[i]@)
            }
            &&& p.seed matches Some(n) ==> b.get("seed"@) == Some(JsonView::Int(n as int))
            &&& p.frequency_penalty matches Some(t) ==> b.get("frequency_penalty"@) == Some(t@)
            &&& p.presence_penalty matches Some(t) ==> b.get("presence_penalty"@) == Some(t@)
            &&& p.reasoning_effort matches Some(t) ==> b.text_at("reasoning_effort"@) == Some(t@)
            &&& p.parallel_tool_calls matches Some(f) ==> b.get("parallel_tool_calls"@) == Some(
                JsonView::Bool(f),
            )
            &&& p.response_format matches Some(t) ==> b.get("response_format"@) == Some(t@)
            &&& stream ==> b.get("stream"@) == Some(JsonView::Bool(true))
            &&& stream ==> b.get("stream_options"@) is Some && b.get("stream_options"@)->0.get(
                "include_usage"@,
            ) == Some(JsonView::Bool(true))
        }),
{
    lemma_body_keys();
    lemma_messages_key();
    lemma_setting_keys();
    assert(setting_key(0) == "tool_choice"@ && setting_key(1) == "temperature"@ && setting_key(2)
        == "top_p"@ && setting_key(3) == "max_tokens"@ && setting_key(4) == "stop"@ && setting_key(5)
        == "seed"@ && setting_key(6) == "frequency_penalty"@ && setting_key(7)
        == "presence_penalty"@ && setting_key(8) == "reasoning_effort"@ && setting_key(9)
        == "parallel_tool_calls"@ && setting_key(10) == "response_format"@ && setting_key(11)
        == "stream"@ && setting_key(12) == "stream_options"@);
}

/// A setting that was not made is sent only where it was added to the body by hand.
#[verifier::rlimit(40)]
pub proof fn law_request_carries_nothing_else(
    p: OpenAiProvider,
    messages: Seq<MessageView>,
    tools: Seq<ToolDefView>,
    stream: bool,
    key: Seq<char>,
)
    requires
        key != "model"@,
        key != "messages"@,
        key == "tools"@ ==> tools.len() == 0,
        key == "tool_choice"@ ==> tools.len() == 0 || p.tool_choice is None,
        key == "temperature"@ ==> p.temperature is None,
        key == "top_p"@ ==> p.top_p is None,
        key == "max_tokens"@ ==> p.max_tokens is None,
        key == "stop"@ ==> p.stop@.len() == 0,
        key == "seed"@ ==> p.seed is None,
        key == "frequency_penalty"@ ==> p.frequency_penalty is None,
        key == "presence_penalty"@ ==> p.presence_penalty is None,
        key == "reasoning_effort"@ ==> p.reasoning_effort is None,
        key == "parallel_tool_calls"@ ==> p.parallel_tool_calls is None,
        key == "response_format"@ ==> p.response_format is None,
        key == "stream"@ || key == "stream_options"@ ==> !stream,
    ensures
        openai::request_body(p, messages, tools, stream).get(key) == JsonView::Object(
            p.extra_body@,
        ).get(key),
{
}

/// A reply is its first choice: its text, its reasoning under either name, its calls in
/// order and its reason to stop.
pub proof fn law_reply_is_the_choice(c: Choice, usage: Option<Usage>)
    ensures
        ({
            let r = openai::choice_reply(c, usage);
            &&& r.content == match c.message.content {
                Some(t) => Some(t@),
                None => None,
            }
            &&& c.message.reasoning_content matches Some(t) ==> t@.len() > 0
                ==> r.reasoning_content == Some(t@)
            &&& c.message.reasoning_content is None ==> (c.message.reasoning matches Some(t)
                ==> t@.len() > 0 ==> r.reasoning_content == Some(t@))
            &&& c.message.reasoning_content is None && c.message.reasoning is None
                ==> r.reasoning_content is None
            &&& r.tool_calls.len() == match c.message.tool_calls {
                Some(v) => v@.len(),
                None => 0,
            }
            &&& c.message.tool_calls matches Some(v) ==> (forall|i: int|
                0 <= i < v@.len() ==> #[trigger] r.tool_calls[i] == v@[i]@)
            &&& r.finish_reason == c.finish_reason@
            &&& usage matches Some(u) ==> r.input_tokens == u.prompt_tokens && r.output_tokens
                == u.completion_tokens && r.cached_input_tokens == u.cached_tokens
            &&& usage is None ==> r.input_tokens is None && r.output_tokens is None
                && r.cached_input_tokens is None
            &&& r.provider_extra is None
        }),
{
}

/// What a chunk adds: its text and its reasoning behind what came before, its pieces to
/// the calls; the newest usage and the newest reason to stop count.
pub proof fn law_chunk_is_added(st: CompletionView, chunk: StreamChunk)
    ensures
        ({
            let r = openai::after_chunk(st, chunk);
            &&& chunk.usage is Some ==> r.usage == chunk.usage
            &&& chunk.usage is None ==> r.usage == st.usage
            &&& st.content.is_prefix_of(r.content)
            &&& st.reasoning.is_prefix_of(r.reasoning)
            &&& chunk.choices@.len() == 0 ==> r.content == st.content && r.reasoning
                == st.reasoning && r.calls == st.calls && r.finish_reason == st.finish_reason
            &&& chunk.choices@.len() > 0 ==> {
                let d = chunk.choices@[0].delta;
                &&& d.content matches Some(t) ==> r.content == st.content + t@
                &&& d.content is None ==> r.content == st.content
                &&& d.reasoning_content matches Some(t) ==> r.reasoning == st.reasoning + t@
                &&& d.reasoning_content is None ==> (d.reasoning matches Some(t) ==> r.reasoning
                    == st.reasoning + t@)
                &&& d.tool_calls is None ==> r.calls == st.calls
                &&& chunk.choices@[0].finish_reason matches Some(t) ==> t@.len() > 0
                    ==> r.finish_reason == t@
                &&& chunk.choices@[0].finish_reason is None ==> r.finish_reason
                    == st.finish_reason
            }
        }),
{
    let r = openai::after_chunk(st, chunk);
    if chunk.choices@.len() > 0 {
        let d = chunk.choices@[0].delta;
        if d.content is None {
            assert(r.content =~= st.content);
        }
    }
}

/// What is handed on of a chunk is what it adds: the pieces, put together, are the reply.
pub proof fn law_pieces_are_the_reply(st: CompletionView, chunk: StreamChunk)
    requires
        chunk.choices@.len() > 0,
    ensures
        ({
            let r = openai::after_chunk(st, chunk);
            let d = openai::choice_delta(chunk.choices@[0]);
            &&& d.len() <= 1
            &&& d.len() == 0 ==> r.content == st.content && r.reasoning == st.reasoning
            &&& d.len() == 1 ==> r.content == st.content + blocks::text_in(d[0].content)
                && r.reasoning == st.reasoning + blocks::text_in(d[0].reasoning_content)
        }),
{
    let r = openai::after_chunk(st, chunk);
    let d = openai::choice_delta(chunk.choices@[0]);
    if d.len() == 0 {
        assert(r.content =~= st.content);
        assert(r.reasoning =~= st.reasoning);
    } else {
        assert(r.content =~= st.content + blocks::text_in(d[0].content));
        assert(r.reasoning =~= st.reasoning + blocks::text_in(d[0].reasoning_content));
    }
}

/// A piece of a call goes to the call of its index: names and arguments grow at the end,
/// an ID and a kind stay once they came. The other calls stay as they were.
pub proof fn law_piece_grows_its_call(calls: Seq<AccView>, p: PieceView)
    requires
        forall|i: int, j: int|
            0 <= i < j < calls.len() ==> (#[trigger] calls[i]).index < (#[trigger] calls[j]).index,
    ensures
        forall|k: int|
            0 <= k < calls.len() && (#[trigger] calls[k]).index == p.index
                ==> openai::add_piece(calls, p).len() == calls.len() && ({
                let a = openai::add_piece(calls, p)[k];
                &&& a.index == p.index
                &&& a.name == calls[k].name + blocks::text_in(p.name)
                &&& a.arguments == calls[k].arguments + blocks::text_in(p.arguments)
                &&& a.id == match p.id {
                    Some(t) => t,
                    None => calls[k].id,
                }
                &&& a.kind == match p.kind {
                    Some(t) => t,
                    None => calls[k].kind,
                }
                &&& forall|j: int|
                    0 <= j < calls.len() && j != k ==> #[trigger] openai::add_piece(calls, p)[j]
                        == calls[j]
            }),
        (forall|k: int| 0 <= k < calls.len() ==> (#[trigger] calls[k]).index != p.index)
            ==> exists|k: int|
            {
                &&& 0 <= k < openai::add_piece(calls, p).len()
                &&& (#[trigger] openai::add_piece(calls, p)[k]).index == p.index
                &&& openai::add_piece(calls, p)[k].name == blocks::text_in(p.name)
                &&& openai::add_piece(calls, p)[k].arguments == blocks::text_in(p.arguments)
                &&& openai::add_piece(calls, p)[k].id == blocks::text_in(p.id)
                &&& openai::add_piece(calls, p)[k].kind == blocks::text_in(p.kind)
                &&& openai::add_piece(calls, p).remove(k) == calls
            },
    decreases calls.len(),
{
    let r = openai::add_piece(calls, p);
    if calls.len() == 0 {
        assert(r[0].name =~= blocks::text_in(p.name));
        assert(r[0].arguments =~= blocks::text_in(p.arguments));
        assert(r.remove(0) =~= calls);
    } else {
        let front = calls.drop_last();
        let last = calls[calls.len() - 1];
        if last.index == p.index {
            assert forall|k: int| 0 <= k < calls.len() && (#[trigger] calls[k]).index
                == p.index implies k == calls.len() - 1 by {
                if k < calls.len() - 1 {
                    assert(calls[k].index < calls[calls.len() - 1].index);
                }
            }
        } else if last.index < p.index {
            assert forall|k: int| 0 <= k < calls.len() implies (#[trigger] calls[k]).index
                != p.index by {
                if k < calls.len() - 1 {
                    assert(calls[k].index < calls[calls.len() - 1].index);
                }
            }
            let k = calls.len() as int;
            assert(r[k].name =~= blocks::text_in(p.name));
            assert(r[k].arguments =~= blocks::text_in(p.arguments));
            assert(r.remove(k) =~= calls);
        } else {
            assert forall|i: int, j: int| 0 <= i < j < front.len() implies (
            #[trigger] front[i]).index < (#[trigger] front[j]).index by {
                assert(front[i] == calls[i] && front[j] == calls[j]);
            }
            law_piece_grows_its_call(front, p);
            let f = openai::add_piece(front, p);
            assert(r == f.push(last));
            assert forall|k: int| 0 <= k < calls.len() && (#[trigger] calls[k]).index
                == p.index implies r.len() == calls.len() && ({
                let a = r[k];
                &&& a.index == p.index
                &&& a.name == calls[k].name + blocks::text_in(p.name)
                &&& a.arguments == calls[k].arguments + blocks::text_in(p.arguments)
                &&& a.id == match p.id {
                    Some(t) => t,
                    None => calls[k].id,
                }
                &&& a.kind == match p.kind {
                    Some(t) => t,
                    None => calls[k].kind,
                }
                &&& forall|j: int|
                    0 <= j < calls.len() && j != k ==> #[trigger] openai::add_piece(calls, p)[j]
                        == calls[j]
            }) by {
                assert(k < front.len());
                assert(front[k] == calls[k]);
            }
            if forall|k: int| 0 <= k < calls.len() ==> (#[trigger] calls[k]).index != p.index {
                assert forall|k: int| 0 <= k < front.len() implies (#[trigger] front[k]).index
                    != p.index by {
                    assert(front[k] == calls[k]);
                }
                let k = choose|k: int|
                    {
                        &&& 0 <= k < f.len()
                        &&& (#[trigger] f[k]).index == p.index
                        &&& f[k].name == blocks::text_in(p.name)
                        &&& f[k].arguments == blocks::text_in(p.arguments)
                        &&& f[k].id == blocks::text_in(p.id)
                        &&& f[k].kind == blocks::text_in(p.kind)
                        &&& f.remove(k) == front
                    };
                assert(r[k] == f[k]);
                assert(r.remove(k) =~= f.remove(k).push(last));
                assert(front.push(last) =~= calls);
            }
        }
    }
}

/// A streamed reply is what was gathered: the whole text, the whole reasoning and every
/// call with its arguments.
pub proof fn law_streamed_reply_is_what_was_gathered(st: CompletionView)
    ensures
        ({
            let r = openai::stream_reply(st);
            &&& blocks::text_in(r.content) == st.content
            &&& r.content is Some <==> st.content.len() > 0
            &&& blocks::text_in(r.reasoning_content) == st.reasoning
            &&& r.tool_calls.len() == st.calls.len()
            &&& forall|i: int|
                0 <= i < st.calls.len() ==> {
                    let c = #[trigger] r.tool_calls[i];
                    &&& c.id == st.calls[i].id
                    &&& c.name == st.calls[i].name
                    &&& c.arguments == st.calls[i].arguments
                    &&& st.calls[i].kind.len() > 0 ==> c.kind == st.calls[i].kind
                    &&& st.calls[i].kind.len() == 0 ==> c.kind == "function"@
                }
            &&& r.finish_reason == st.finish_reason
            &&& st.usage matches Some(u) ==> r.input_tokens == u.prompt_tokens && r.output_tokens
                == u.completion_tokens && r.cached_input_tokens == u.cached_tokens
        }),
{
    let r = openai::stream_reply(st);
    assert(blocks::text_in(r.content) =~= st.content);
    assert(blocks::text_in(r.reasoning_content) =~= st.reasoning);
}

/// The data of a stream is read up to its end mark and no further.
pub proof fn law_data_ends_at_the_mark(lines: Seq<Seq<char>>, line: Seq<char>)
    ensures
        ({
            let (before, done) = openai::payloads(lines);
            let (after, now) = openai::payloads(lines.push(line));
            &&& done ==> after == before && now
            &&& !done && sse::data_of(line) is None ==> after == before && !now
            &&& !done && sse::data_of(line) == Some("[DONE]"@) ==> after == before && now
            &&& !done && sse::data_of(line) is Some && sse::data_of(line) != Some("[DONE]"@)
                ==> after == before.push(sse::data_of(line)->0) && !now
        }),
{
    assert(lines.push(line).drop_last() =~= lines);
}

/// A message is read with its role, its text, the ID of the call that it answers and its
/// name, and what follows a role that is unknown is no message.
pub proof fn law_message_is_read(j: JsonView)
    ensures
        types::message_of(j) matches Some(m) ==> {
            &&& j.text_at("role"@) == Some(
                match m.role {
                    Role::System => "system"@,
                    Role::User => "user"@,
                    Role::Assistant => "assistant"@,
                    Role::Tool => "tool"@,
                },
            )
            &&& j.get("content"@) matches Some(JsonView::Text(t)) ==> m.content == Some(t)
                && m.parts.len() == 0
            &&& m.tool_call_id == j.text_at("tool_call_id"@)
            &&& m.name == j.text_at("name"@)
            &&& m.tool_calls is Some <==> j.array_at("tool_calls"@) is Some
        },
        j.text_at("role"@) is None ==> types::message_of(j) is None,
        j.text_at("role"@) matches Some(r) ==> r != "system"@ && r != "user"@ && r != "assistant"@
            && r != "tool"@ ==> types::message_of(j) is None,
{
}

/// Each call of a message that is read holds what its entry holds, at the same place.
pub proof fn law_calls_are_read(j: JsonView, i: int)
    requires
        types::message_of(j) is Some,
        j.array_at("tool_calls"@) is Some,
        0 <= i < j.array_at("tool_calls"@)->0.len(),
    ensures
        ({
            let calls = types::message_of(j)->0.tool_calls->0;
            let entry = j.array_at("tool_calls"@)->0[i];
            &&& calls.len() == j.array_at("tool_calls"@)->0.len()
            &&& entry.text_at("id"@) == Some(calls[i].id)
            &&& entry.text_at("type"@) == Some(calls[i].kind)
            &&& entry.get("function"@) is Some
            &&& entry.get("function"@)->0.text_at("name"@) == Some(calls[i].name)
            &&& entry.get("function"@)->0.text_at("arguments"@) == Some(calls[i].arguments)
        }),
{
}

} // verus!
