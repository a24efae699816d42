//! The OpenAI Responses API: requests and replies.
//!
//! Raw output items are carried with the message that they make and sent again
//! verbatim on the next request, so that a reasoning model keeps its chain of
//! thought across tool-loop steps.
use crate::text;
use crate::seqs;
use crate::llm::wire;
use crate::llm::types;
use crate::llm::sse;
use crate::llm::openai;
use crate::llm::content;
use crate::llm::anthropic_stream;
use crate::llm::anthropic;
use crate::json;
use super::content::{text_block_json, ContentPart};
use super::error::{HttpRequest, LlmError, LlmErrorView, RequestView};
use super::openai::bearer_request;
use super::sse::{lossy_string, sse_data, LineBuffer};
use super::types::{
    non_empty_text, ChatMessage, DeltaView, FunctionCall, LlmResponse, MessageView, ResponseView,
    Role, StreamDelta, ToolCall, ToolCallView, ToolDefView, ToolDefinition,
};
use super::wire::{has_type, named_text, one_block, opt_or_empty, read_count, text_or_empty};
use crate::json::{copy_items, Json, JsonMap, JsonView};
use crate::text::same;
use vstd::prelude::*;

verus! {

/// An input item: who speaks, and what.
pub open spec fn said(role: Seq<char>, content: JsonView) -> JsonView {
    JsonView::Object(map!["role"@ => JsonView::Text(role), "content"@ => content])
}

/// The content of a user message: its parts, with the sender's name before the
/// first text, or its text.
pub open spec fn user_content(m: MessageView) -> JsonView {
    if types::multimodal(m) {
        JsonView::Array(
            Seq::new(
                m.parts.len(),
                |i: int|
                    if anthropic::first_text(m.parts, i) {
                        content::text_block("input_text"@, wire::named(m.name, m.parts[i]->text))
                    } else {
                        content::responses_part(m.parts[i])
                    },
            ),
        )
    } else {
        JsonView::Text(wire::named(m.name, wire::or_empty(m.content)))
    }
}

/// The output items that a message carries for this provider.
pub open spec fn kept_items(m: MessageView) -> Option<Seq<JsonView>> {
    match m.provider_extra {
        Some(e) => e.array_at("openai_response_items"@),
        None => None,
    }
}

/// The item of a tool call.
pub open spec fn call_item(c: ToolCallView) -> JsonView {
    JsonView::Object(
        map![
            "type"@ => JsonView::Text("function_call"@),
            "call_id"@ => JsonView::Text(c.id),
            "name"@ => JsonView::Text(c.name),
            "arguments"@ => JsonView::Text(c.arguments),
        ],
    )
}

/// The items of an assistant message: those that it carries, verbatim, else its
/// text and its tool calls.
pub open spec fn assistant_items(m: MessageView) -> Seq<JsonView> {
    match kept_items(m) {
        Some(items) => items,
        None => {
            let text = match m.content {
                Some(t) => if t.len() > 0 {
                    seq![said("assistant"@, JsonView::Text(t))]
                } else {
                    Seq::empty()
                },
                None => Seq::empty(),
            };
            let calls = match m.tool_calls {
                Some(c) => c.map_values(|t: ToolCallView| call_item(t)),
                None => Seq::empty(),
            };
            text + calls
        },
    }
}

/// The item of a tool result.
pub open spec fn output_item(m: MessageView) -> JsonView {
    JsonView::Object(
        map![
            "type"@ => JsonView::Text("function_call_output"@),
            "call_id"@ => JsonView::Text(wire::or_empty(m.tool_call_id)),
            "output"@ => JsonView::Text(wire::or_empty(m.content)),
        ],
    )
}

/// Where a conversion stands.
#[verifier::ext_equal]
pub struct InputView {
    pub instructions: Seq<char>,
    pub leading: bool,
    pub items: Seq<JsonView>,
}

/// Adds one message to a conversion.
pub open spec fn add_message(p: InputView, m: MessageView) -> InputView {
    match m.role {
        Role::System => if p.leading {
            let head = if p.instructions.len() > 0 {
                p.instructions + "\n\n"@
            } else {
                p.instructions
            };
            InputView { instructions: head + wire::or_empty(m.content), ..p }
        } else {
            InputView {
                items: p.items.push(
                    said("user"@, JsonView::Text("[system]\n"@ + wire::or_empty(m.content))),
                ),
                ..p
            }
        },
        Role::User => InputView {
            leading: false,
            items: p.items.push(said("user"@, user_content(m))),
            ..p
        },
        Role::Assistant => InputView { leading: false, items: p.items + assistant_items(m), ..p },
        Role::Tool => InputView { leading: false, items: p.items.push(output_item(m)), ..p },
    }
}

/// The conversion of a history, message by message.
pub open spec fn input_of(messages: Seq<MessageView>) -> InputView
    decreases messages.len(),
{
    if messages.len() == 0 {
        InputView { instructions: Seq::empty(), leading: true, items: Seq::empty() }
    } else {
        add_message(input_of(messages.drop_last()), messages.last())
    }
}

fn said_json(role: &str, content: Json) -> (r: Json)
    ensures
        r@ == said(role@, content@),
{
    Json::Object(JsonMap::new().with("role", Json::text(role)).with("content", content))
}

fn user_content_json(m: &ChatMessage) -> (r: Json)
    ensures
        r@ == user_content(m@),
{
    if m.is_multimodal() {
        let mut out: Vec<Json> = Vec::new();
        let ghost all = user_content(m@)->Array_0;
        let mut seen = false;
        let mut i: usize = 0;
        assert(json::items_view(out@) =~= all.take(0));
        while i < m.parts.len()
            invariant
                i <= m.parts@.len(),
                types::multimodal(m@),
                all == user_content(m@)->Array_0,
                json::items_view(out@) == all.take(i as int),
                seen <==> exists|j: int| 0 <= j < i && #[trigger] m@.parts[j] is Text,
            decreases m.parts@.len() - i,
        {
            let block = match &m.parts[i] {
                ContentPart::Text { text } if !seen => {
                    assert(m@.parts[i as int] is Text);
                    assert(anthropic::first_text(m@.parts, i as int));
                    let t = named_text(&m.name, text.as_str());
                    text_block_json("input_text", t.as_str())
                },
                p => {
                    assert(!anthropic::first_text(m@.parts, i as int));
                    p.to_responses_json()
                },
            };
            if let ContentPart::Text { .. } = &m.parts[i] {
                assert(m@.parts[i as int] is Text);
                seen = true;
            } else {
                assert(!(m@.parts[i as int] is Text));
            }
            proof {
                wire::lemma_items_push(out@, block);
                seqs::lemma_take_push(all, i as int);
            }
            out.push(block);
            i += 1;
        }
        assert(all.take(i as int) =~= all);
        Json::Array(out)
    } else {
        let content = opt_or_empty(&m.content);
        Json::Text(named_text(&m.name, content.as_str()))
    }
}

fn assistant_items_of(m: &ChatMessage) -> (r: Vec<Json>)
    ensures
        json::items_view(r@) == assistant_items(m@),
{
    if let Some(e) = &m.provider_extra {
        if let Some(items) = e.array_at("openai_response_items") {
            return copy_items(items);
        }
    }
    let mut out: Vec<Json> = Vec::new();
    if let Some(t) = &m.content {
        if !t.as_str().is_empty() {
            let item = said_json("assistant", Json::text(t.as_str()));
            proof {
                wire::lemma_items_push(out@, item);
            }
            out.push(item);
        }
    }
    let ghost head = json::items_view(out@);
    if let Some(calls) = &m.tool_calls {
        let ghost all = text::views(calls@).map_values(|t: ToolCallView| call_item(t));
        let mut i: usize = 0;
        assert(head + all.take(0) =~= head);
        while i < calls.len()
            invariant
                i <= calls@.len(),
                all == text::views(calls@).map_values(|t: ToolCallView| call_item(t)),
                json::items_view(out@) == head + all.take(i as int),
            decreases calls@.len() - i,
        {
            let c = &calls[i];
            let item = Json::Object(
                JsonMap::new().with("type", Json::text("function_call")).with(
                    "call_id",
                    Json::text(c.id.as_str()),
                ).with("name", Json::text(c.function.name.as_str())).with(
                    "arguments",
                    Json::text(c.function.arguments.as_str()),
                ),
            );
            proof {
                assert(item@ == call_item(calls@[i as int]@));
                wire::lemma_items_push(out@, item);
                seqs::lemma_take_push(all, i as int);
                assert((head + all.take(i as int)).push(item@) =~= head + all.take(i as int).push(
                    item@,
                ));
            }
            out.push(item);
            i += 1;
        }
        assert(all.take(i as int) =~= all);
    }
    assert(json::items_view(out@) =~= assistant_items(m@));
    out
}

/// Convert messages to the `instructions` and `input` parameters.
///
/// Assistant turns that carry raw output items are sent verbatim; others are
/// made from their text and tool calls.
pub fn convert_messages(messages: &Vec<ChatMessage>) -> (r: (Option<String>, Vec<Json>))
    ensures
        json::opt_text(r.0) == types::non_empty(input_of(text::views(messages@)).instructions),
        json::items_view(r.1@) == input_of(text::views(messages@)).items,
{
    let mut instructions = String::new();
    let mut leading = true;
    let mut input: Vec<Json> = Vec::new();
    let ghost ms = text::views(messages@);
    let mut i: usize = 0;
    assert(json::items_view(input@) =~= Seq::empty());
    while i < messages.len()
        invariant
            i <= messages@.len(),
            ms == text::views(messages@),
            input_of(ms.take(i as int)) == (InputView {
                instructions: instructions@,
                leading,
                items: json::items_view(input@),
            }),
        decreases messages@.len() - i,
    {
        proof {
            assert(ms.take(i + 1).drop_last() =~= ms.take(i as int));
        }
        let m = &messages[i];
        match m.role {
            Role::System => {
                let t = opt_or_empty(&m.content);
                if leading {
                    if !instructions.as_str().is_empty() {
                        instructions.push_str("\n\n");
                    }
                    instructions.push_str(t.as_str());
                } else {
                    let mut s = "[system]\n".to_owned();
                    s.push_str(t.as_str());
                    let item = said_json("user", Json::Text(s));
                    proof {
                        wire::lemma_items_push(input@, item);
                    }
                    input.push(item);
                }
            },
            Role::User => {
                leading = false;
                let item = said_json("user", user_content_json(m));
                proof {
                    wire::lemma_items_push(input@, item);
                }
                input.push(item);
            },
            Role::Assistant => {
                leading = false;
                let mut items = assistant_items_of(m);
                proof {
                    wire::lemma_items_concat(input@, items@);
                }
                input.append(&mut items);
            },
            Role::Tool => {
                leading = false;
                let id = opt_or_empty(&m.tool_call_id);
                let content = opt_or_empty(&m.content);
                let item = Json::Object(
                    JsonMap::new().with("type", Json::text("function_call_output")).with(
                        "call_id",
                        Json::Text(id),
                    ).with("output", Json::Text(content)),
                );
                proof {
                    assert(item@ == output_item(m@));
                    wire::lemma_items_push(input@, item);
                }
                input.push(item);
            },
        }
        i += 1;
    }
    assert(ms.take(i as int) =~= ms);
    (non_empty_text(instructions), input)
}

// ── Replies ────────────────────────────────────────────────────────────────

/// The items of an array field, or none.
pub open spec fn items_at(j: JsonView, key: Seq<char>) -> Seq<JsonView> {
    match j.array_at(key) {
        Some(a) => a,
        None => Seq::empty(),
    }
}

/// The text of an `output_text` part.
pub open spec fn output_text(part: JsonView) -> Seq<char> {
    if wire::is_type(part, "output_text"@) {
        wire::or_empty(part.text_at("text"@))
    } else {
        Seq::empty()
    }
}

/// What an output item adds to the reply's text.
pub open spec fn item_text(item: JsonView) -> Seq<char> {
    if wire::is_type(item, "message"@) {
        seqs::flat_map(items_at(item, "content"@), |p: JsonView| output_text(p))
    } else {
        Seq::empty()
    }
}

/// The reasoning texts of an output item.
pub open spec fn item_reasoning(item: JsonView) -> Seq<Seq<char>> {
    if wire::is_type(item, "reasoning"@) {
        seqs::filter_map(items_at(item, "summary"@), |p: JsonView| p.text_at("text"@))
    } else {
        Seq::empty()
    }
}

/// The texts one per line; no line break stands before the first that is not
/// empty.
pub open spec fn in_lines(texts: Seq<Seq<char>>) -> Seq<char>
    decreases texts.len(),
{
    if texts.len() == 0 {
        Seq::empty()
    } else {
        let front = in_lines(texts.drop_last());
        if front.len() > 0 {
            front.push('\n') + texts.last()
        } else {
            texts.last()
        }
    }
}

/// The tool call that an output item makes.
pub open spec fn item_call(item: JsonView) -> Option<ToolCallView> {
    if wire::is_type(item, "function_call"@) {
        Some(
            ToolCallView {
                id: wire::or_empty(item.text_at("call_id"@)),
                kind: "function"@,
                name: wire::or_empty(item.text_at("name"@)),
                arguments: match item.text_at("arguments"@) {
                    Some(t) => t,
                    None => "{}"@,
                },
                extra_content: None,
            },
        )
    } else {
        None
    }
}

/// The cached-token count inside the usage of a response document.
pub open spec fn cached_count(usage: Option<JsonView>) -> Option<u32> {
    match usage {
        Some(u) => wire::count_at(u.get("input_tokens_details"@), "cached_tokens"@),
        None => None,
    }
}

/// The reply in a response document.
pub open spec fn document_reply(doc: JsonView) -> ResponseView {
    let output = items_at(doc, "output"@);
    let usage = doc.get("usage"@);
    let calls = seqs::filter_map(output, |i: JsonView| item_call(i));
    ResponseView {
        content: types::non_empty(seqs::flat_map(output, |i: JsonView| item_text(i))),
        reasoning_content: types::non_empty(
            in_lines(seqs::flat_map(output, |i: JsonView| item_reasoning(i))),
        ),
        tool_calls: calls,
        finish_reason: if calls.len() == 0 {
            "stop"@
        } else {
            "tool_calls"@
        },
        input_tokens: wire::count_at(usage, "input_tokens"@),
        output_tokens: wire::count_at(usage, "output_tokens"@),
        cached_input_tokens: cached_count(usage),
        provider_extra: if output.len() == 0 {
            None
        } else {
            Some(JsonView::Object(map!["openai_response_items"@ => JsonView::Array(output)]))
        },
    }
}

fn item_text_of(item: &Json) -> (r: String)
    ensures
        r@ == item_text(item@),
{
    let mut out = String::new();
    if has_type(item, "message") {
        if let Some(parts) = item.array_at("content") {
            let ghost ps = json::items_view(parts@);
            let ghost f = |p: JsonView| output_text(p);
            let mut i: usize = 0;
            while i < parts.len()
                invariant
                    i <= parts@.len(),
                    ps == json::items_view(parts@),
                    f == (|p: JsonView| output_text(p)),
                    out@ == seqs::flat_map(ps.take(i as int), f),
                decreases parts@.len() - i,
            {
                proof {
                    json::lemma_items_view(parts@);
                    assert(ps[i as int] == parts@[i as int]@);
                    seqs::lemma_take_push(ps, i as int);
                    seqs::lemma_flat_map_push(ps.take(i as int), f, ps[i as int]);
                }
                if has_type(&parts[i], "output_text") {
                    let t = text_or_empty(&parts[i], "text");
                    out.push_str(t.as_str());
                } else {
                    assert(out@ + Seq::<char>::empty() =~= out@);
                }
                i += 1;
            }
            proof {
                json::lemma_items_view(parts@);
                assert(ps.take(i as int) =~= ps);
            }
        }
    }
    out
}

fn item_reasoning_of(item: &Json) -> (r: Vec<String>)
    ensures
        text::views(r@) == item_reasoning(item@),
{
    let mut out: Vec<String> = Vec::new();
    assert(text::views(out@) =~= Seq::empty());
    if has_type(item, "reasoning") {
        if let Some(parts) = item.array_at("summary") {
            let ghost ps = json::items_view(parts@);
            let ghost f = |p: JsonView| p.text_at("text"@);
            let mut i: usize = 0;
            while i < parts.len()
                invariant
                    i <= parts@.len(),
                    ps == json::items_view(parts@),
                    f == (|p: JsonView| p.text_at("text"@)),
                    text::views(out@) == seqs::filter_map(ps.take(i as int), f),
                decreases parts@.len() - i,
            {
                proof {
                    json::lemma_items_view(parts@);
                    assert(ps[i as int] == parts@[i as int]@);
                    seqs::lemma_take_push(ps, i as int);
                    seqs::lemma_filter_map_push(ps.take(i as int), f, ps[i as int]);
                }
                if let Some(t) = parts[i].text_at("text") {
                    let ghost before = text::views(out@);
                    out.push(t.to_owned());
                    assert(text::views(out@) =~= before.push(t@));
                }
                i += 1;
            }
            proof {
                json::lemma_items_view(parts@);
                assert(ps.take(i as int) =~= ps);
            }
        }
    }
    out
}

fn item_call_of(item: &Json) -> (r: Option<ToolCall>)
    ensures
        match r {
            Some(c) => item_call(item@) == Some(c@),
            None => item_call(item@) is None,
        },
{
    if has_type(item, "function_call") {
        let arguments = match item.text_at("arguments") {
            Some(t) => t.to_owned(),
            None => "{}".to_owned(),
        };
        Some(
            ToolCall {
                id: text_or_empty(item, "call_id"),
                kind: "function".to_owned(),
                function: FunctionCall { name: text_or_empty(item, "name"), arguments },
                extra_content: None,
            },
        )
    } else {
        None
    }
}

fn lines_of_texts(texts: &Vec<String>) -> (r: String)
    ensures
        r@ == in_lines(text::views(texts@)),
{
    let mut out = String::new();
    let ghost ts = text::views(texts@);
    let mut i: usize = 0;
    while i < texts.len()
        invariant
            i <= texts@.len(),
            ts == text::views(texts@),
            out@ == in_lines(ts.take(i as int)),
        decreases texts@.len() - i,
    {
        proof {
            assert(ts.take(i + 1).drop_last() =~= ts.take(i as int));
        }
        if !out.as_str().is_empty() {
            out.push('\n');
            out.push_str(texts[i].as_str());
        } else {
            out.push_str(texts[i].as_str());
            assert(out@ =~= texts@[i as int]@);
        }
        i += 1;
    }
    assert(ts.take(i as int) =~= ts);
    out
}

/// The reply in a complete response document.
pub fn parse_response(doc: &Json) -> (r: LlmResponse)
    ensures
        r@ == document_reply(doc@),
{
    let output = match doc.array_at("output") {
        Some(a) => copy_items(a),
        None => {
            let none: Vec<Json> = Vec::new();
            assert(json::items_view(none@) =~= Seq::empty());
            none
        },
    };
    let ghost os = json::items_view(output@);
    assert(os == items_at(doc@, "output"@));
    let ghost ft = |i: JsonView| item_text(i);
    let ghost fr = |i: JsonView| item_reasoning(i);
    let ghost fc = |i: JsonView| item_call(i);
    let mut content = String::new();
    let mut reasoning: Vec<String> = Vec::new();
    let mut tool_calls: Vec<ToolCall> = Vec::new();
    proof {
        json::lemma_items_view(output@);
        assert(text::views(reasoning@) =~= Seq::empty());
        assert(text::views(tool_calls@) =~= Seq::empty());
    }
    let mut i: usize = 0;
    while i < output.len()
        invariant
            i <= output@.len(),
            os == json::items_view(output@),
            os.len() == output@.len(),
            ft == (|i: JsonView| item_text(i)),
            fr == (|i: JsonView| item_reasoning(i)),
            fc == (|i: JsonView| item_call(i)),
            content@ == seqs::flat_map(os.take(i as int), ft),
            text::views(reasoning@) == seqs::flat_map(os.take(i as int), fr),
            text::views(tool_calls@) == seqs::filter_map(os.take(i as int), fc),
        decreases output@.len() - i,
    {
        let item = &output[i];
        proof {
            json::lemma_items_view(output@);
            assert(os[i as int] == item@);
            seqs::lemma_take_push(os, i as int);
            seqs::lemma_flat_map_push(os.take(i as int), ft, item@);
            seqs::lemma_flat_map_push(os.take(i as int), fr, item@);
            seqs::lemma_filter_map_push(os.take(i as int), fc, item@);
        }
        let t = item_text_of(item);
        content.push_str(t.as_str());
        let mut texts = item_reasoning_of(item);
        let ghost before = text::views(reasoning@);
        let ghost more = text::views(texts@);
        reasoning.append(&mut texts);
        assert(text::views(reasoning@) =~= before + more);
        if let Some(c) = item_call_of(item) {
            let ghost calls = text::views(tool_calls@);
            tool_calls.push(c);
            assert(text::views(tool_calls@) =~= calls.push(c@));
        }
        i += 1;
    }
    assert(os.take(i as int) =~= os);
    let usage = doc.get("usage");
    let cached = match usage {
        Some(u) => read_count(u.get("input_tokens_details"), "cached_tokens"),
        None => None,
    };
    let finish_reason = if tool_calls.len() == 0 {
        "stop".to_owned()
    } else {
        "tool_calls".to_owned()
    };
    let reasoning_text = lines_of_texts(&reasoning);
    let input_tokens = read_count(usage, "input_tokens");
    let output_tokens = read_count(usage, "output_tokens");
    let provider_extra = if output.len() == 0 {
        None
    } else {
        Some(Json::Object(JsonMap::new().with("openai_response_items", Json::Array(output))))
    };
    LlmResponse {
        content: non_empty_text(content),
        reasoning_content: non_empty_text(reasoning_text),
        tool_calls,
        finish_reason,
        input_tokens,
        output_tokens,
        cached_input_tokens: cached,
        provider_extra,
    }
}

/// The output items of a reply, stored with the assistant message that it
/// becomes, are sent again verbatim and in order.
pub proof fn law_items_return_verbatim(doc: JsonView, m: MessageView)
    requires
        m.provider_extra == document_reply(doc).provider_extra,
        items_at(doc, "output"@).len() > 0,
    ensures
        assistant_items(m) == items_at(doc, "output"@),
{
}

// ── Requests ───────────────────────────────────────────────────────────────

/// The settings of a native Responses API provider.
///
/// Sampling numbers are held as JSON numbers.
pub struct OpenAiResponsesProvider {
    pub base_url: String,
    pub api_key: String,
    pub model: String,
    pub temperature: Option<Json>,
    pub top_p: Option<Json>,
    pub max_output_tokens: Option<u32>,
    pub reasoning_effort: Option<String>,
    pub parallel_tool_calls: Option<bool>,
    pub tool_choice: Option<Json>,
    pub extra_body: JsonMap,
}

/// The flat wire form of a tool.
pub open spec fn flat_tool(t: ToolDefView) -> JsonView {
    JsonView::Object(
        map![
            "type"@ => JsonView::Text("function"@),
            "name"@ => JsonView::Text(t.name),
            "description"@ => JsonView::Text(t.description),
            "parameters"@ => t.parameters,
        ],
    )
}

/// `m` with the tools, and with the two settings that only go with tools.
pub open spec fn with_tools(
    m: Map<Seq<char>, JsonView>,
    tools: Seq<ToolDefView>,
    tool_choice: Option<JsonView>,
    parallel: Option<bool>,
) -> Map<Seq<char>, JsonView> {
    if tools.len() > 0 {
        wire::with_some(
            wire::with_some(
                m.insert(
                    "tools"@,
                    JsonView::Array(tools.map_values(|t: ToolDefView| flat_tool(t))),
                ),
                "tool_choice"@,
                tool_choice,
            ),
            "parallel_tool_calls"@,
            openai::opt_flag(parallel),
        )
    } else {
        m
    }
}

/// A text as an optional field: left out when it is empty.
pub open spec fn opt_field(t: Seq<char>) -> Option<JsonView> {
    if t.len() == 0 {
        None
    } else {
        Some(JsonView::Text(t))
    }
}

/// The body of a completion request. Nothing is stored by the server: the
/// context is sent whole with every request.
pub open spec fn request_body(
    p: OpenAiResponsesProvider,
    messages: Seq<MessageView>,
    tools: Seq<ToolDefView>,
    stream: bool,
) -> JsonView {
    let input = input_of(messages);
    let a = map![
        "model"@ => JsonView::Text(p.model@),
        "input"@ => JsonView::Array(input.items),
        "store"@ => JsonView::Bool(false),
        "include"@ => JsonView::Array(seq![JsonView::Text("reasoning.encrypted_content"@)]),
    ];
    let b = wire::with_some(a, "instructions"@, opt_field(input.instructions));
    let c = with_tools(b, tools, json::opt_json(p.tool_choice), p.parallel_tool_calls);
    let d = match p.reasoning_effort {
        Some(t) => c.insert(
            "reasoning"@,
            JsonView::Object(map!["effort"@ => JsonView::Text(t@)]),
        ),
        None => c,
    };
    let e = wire::with_some(d, "temperature"@, json::opt_json(p.temperature));
    let f = wire::with_some(e, "top_p"@, json::opt_json(p.top_p));
    let g = wire::with_some(f, "max_output_tokens"@, wire::opt_count(p.max_output_tokens));
    let h = if stream {
        g.insert("stream"@, JsonView::Bool(true))
    } else {
        g
    };
    JsonView::Object(p.extra_body@.union_prefer_right(h))
}

/// Adds the tools, and the two settings that only go with tools.
pub fn put_tools(
    m: &mut JsonMap,
    tools: &Vec<ToolDefinition>,
    tool_choice: &Option<Json>,
    parallel: Option<bool>,
)
    ensures
        final(m)@ == with_tools(old(m)@, text::views(tools@), json::opt_json(*tool_choice), parallel),
{
    if tools.len() > 0 {
        let mut out: Vec<Json> = Vec::new();
        let ghost all = text::views(tools@).map_values(|t: ToolDefView| flat_tool(t));
        let mut i: usize = 0;
        assert(json::items_view(out@) =~= all.take(0));
        while i < tools.len()
            invariant
                i <= tools@.len(),
                all == text::views(tools@).map_values(|t: ToolDefView| flat_tool(t)),
                json::items_view(out@) == all.take(i as int),
            decreases tools@.len() - i,
        {
            let f = &tools[i].function;
            let item = Json::Object(
                JsonMap::new().with("type", Json::text("function")).with(
                    "name",
                    Json::text(f.name.as_str()),
                ).with("description", Json::text(f.description.as_str())).with(
                    "parameters",
                    f.parameters.clone(),
                ),
            );
            proof {
                assert(item@ == flat_tool(tools@[i as int]@));
                wire::lemma_items_push(out@, item);
                seqs::lemma_take_push(all, i as int);
            }
            out.push(item);
            i += 1;
        }
        assert(all.take(i as int) =~= all);
        m.put("tools", Json::Array(out));
        if let Some(choice) = tool_choice {
            m.put("tool_choice", choice.clone());
        }
        if let Some(b) = parallel {
            m.put("parallel_tool_calls", Json::Bool(b));
        }
    }
}

impl OpenAiResponsesProvider {
    pub fn new(api_key: &str, model: &str) -> (r: OpenAiResponsesProvider)
        ensures
            r.base_url@ == "https://api.openai.com/v1"@,
            r.api_key@ == api_key@,
            r.model@ == model@,
            r.temperature is None,
            r.top_p is None,
            r.max_output_tokens is None,
            r.reasoning_effort is None,
            r.parallel_tool_calls is None,
            r.tool_choice is None,
            r.extra_body@ == Map::<Seq<char>, JsonView>::empty(),
    {
        OpenAiResponsesProvider {
            base_url: "https://api.openai.com/v1".to_owned(),
            api_key: api_key.to_owned(),
            model: model.to_owned(),
            temperature: None,
            top_p: None,
            max_output_tokens: None,
            reasoning_effort: None,
            parallel_tool_calls: None,
            tool_choice: None,
            extra_body: JsonMap::new(),
        }
    }

    /// Point at a different endpoint.
    pub fn with_base_url(self, url: &str) -> (r: OpenAiResponsesProvider)
        ensures
            r == (OpenAiResponsesProvider { base_url: r.base_url, ..self }),
            r.base_url@ == url@,
    {
        let mut out = self;
        out.base_url = url.to_owned();
        out
    }

    pub fn with_temperature(self, t: Json) -> (r: OpenAiResponsesProvider)
        ensures
            r == (OpenAiResponsesProvider { temperature: Some(t), ..self }),
    {
        let mut out = self;
        out.temperature = Some(t);
        out
    }

    pub fn with_top_p(self, p: Json) -> (r: OpenAiResponsesProvider)
        ensures
            r == (OpenAiResponsesProvider { top_p: Some(p), ..self }),
    {
        let mut out = self;
        out.top_p = Some(p);
        out
    }

    pub fn with_max_output_tokens(self, n: u32) -> (r: OpenAiResponsesProvider)
        ensures
            r == (OpenAiResponsesProvider { max_output_tokens: Some(n), ..self }),
    {
        let mut out = self;
        out.max_output_tokens = Some(n);
        out
    }

    /// Reasoning effort for reasoning models.
    pub fn with_reasoning_effort(self, effort: &str) -> (r: OpenAiResponsesProvider)
        ensures
            r == (OpenAiResponsesProvider { reasoning_effort: r.reasoning_effort, ..self }),
            json::opt_text(r.reasoning_effort) == Some(effort@),
    {
        let mut out = self;
        out.reasoning_effort = Some(effort.to_owned());
        out
    }

    pub fn with_parallel_tool_calls(self, enabled: bool) -> (r: OpenAiResponsesProvider)
        ensures
            r == (OpenAiResponsesProvider { parallel_tool_calls: Some(enabled), ..self }),
    {
        let mut out = self;
        out.parallel_tool_calls = Some(enabled);
        out
    }

    /// Force tool choice.
    pub fn with_tool_choice(self, choice: Json) -> (r: OpenAiResponsesProvider)
        ensures
            r == (OpenAiResponsesProvider { tool_choice: Some(choice), ..self }),
    {
        let mut out = self;
        out.tool_choice = Some(choice);
        out
    }

    /// Merge an arbitrary top-level field into every request.
    pub fn with_body_param(self, key: &str, value: Json) -> (r: OpenAiResponsesProvider)
        ensures
            r == (OpenAiResponsesProvider { extra_body: r.extra_body, ..self }),
            r.extra_body@ == self.extra_body@.insert(key@, value@),
    {
        let mut out = self;
        let body = out.extra_body.with(key, value);
        out.extra_body = body;
        out
    }

    /// The body of a completion request.
    pub fn build_body(
        &self,
        messages: &Vec<ChatMessage>,
        tools: &Vec<ToolDefinition>,
        stream: bool,
    ) -> (r: Json)
        ensures
            r@ == request_body(*self, text::views(messages@), text::views(tools@), stream),
    {
        let (instructions, input) = convert_messages(messages);
        let mut m = JsonMap::new().with("model", Json::text(self.model.as_str())).with(
            "input",
            Json::Array(input),
        ).with("store", Json::Bool(false)).with(
            "include",
            Json::Array(one_block(Json::text("reasoning.encrypted_content"))),
        );
        if let Some(t) = instructions {
            m.put("instructions", Json::Text(t));
        }
        put_tools(&mut m, tools, &self.tool_choice, self.parallel_tool_calls);
        if let Some(t) = &self.reasoning_effort {
            m.put(
                "reasoning",
                Json::Object(JsonMap::new().with("effort", Json::text(t.as_str()))),
            );
        }
        if let Some(t) = &self.temperature {
            m.put("temperature", t.clone());
        }
        if let Some(t) = &self.top_p {
            m.put("top_p", t.clone());
        }
        if let Some(n) = self.max_output_tokens {
            m.put("max_output_tokens", Json::Unsigned(n as u64));
        }
        if stream {
            m.put("stream", Json::Bool(true));
        }
        m.fill_from(&self.extra_body);
        Json::Object(m)
    }

    /// The HTTP request that carries `body`.
    pub fn request(&self, body: Json) -> (r: HttpRequest)
        ensures
            r@ == (RequestView {
                url: self.base_url@ + "/responses"@,
                headers: seq![("Authorization"@, "Bearer "@ + self.api_key@)],
                body: body@,
            }),
    {
        bearer_request(self.base_url.as_str(), "/responses", self.api_key.as_str(), body)
    }
}

// ── Streaming ──────────────────────────────────────────────────────────────

/// What a stream has brought so far: the finished response, or the event that
/// made it fail. Nothing after a failure counts.
#[verifier::ext_equal]
pub struct OutcomeView {
    pub response: Option<JsonView>,
    pub failure: Option<JsonView>,
}

/// The text delta that an event carries.
pub open spec fn event_text(ev: JsonView) -> Seq<DeltaView> {
    match ev.text_at("delta"@) {
        Some(t) => seq![anthropic_stream::text_delta(t)],
        None => Seq::empty(),
    }
}

/// The reasoning delta that an event carries.
pub open spec fn event_reasoning(ev: JsonView) -> Seq<DeltaView> {
    match ev.text_at("delta"@) {
        Some(t) => seq![anthropic_stream::reasoning_delta(t)],
        None => Seq::empty(),
    }
}

/// What one event does.
pub open spec fn after_event(st: OutcomeView, ev: JsonView) -> (OutcomeView, Seq<DeltaView>) {
    if wire::is_type(ev, "response.output_text.delta"@) {
        (st, event_text(ev))
    } else if wire::is_type(ev, "response.reasoning_summary_text.delta"@) {
        (st, event_reasoning(ev))
    } else if wire::is_type(ev, "response.completed"@) {
        (OutcomeView { response: ev.get("response"@), ..st }, Seq::empty())
    } else if wire::is_type(ev, "response.failed"@) || wire::is_type(ev, "error"@) {
        (OutcomeView { failure: Some(ev), ..st }, Seq::empty())
    } else {
        (st, Seq::empty())
    }
}

/// What one line does; the space after `data:` is optional.
pub open spec fn after_line(st: OutcomeView, line: Seq<char>) -> (OutcomeView, Seq<DeltaView>) {
    match sse::data_of(line) {
        Some(data) => if st.failure is Some || data == "[DONE]"@ {
            (st, Seq::empty())
        } else {
            match json::parsed_json(data) {
                Ok(ev) => after_event(st, ev),
                Err(_) => (st, Seq::empty()),
            }
        },
        None => (st, Seq::empty()),
    }
}

pub open spec fn after_lines(st: OutcomeView, lines: Seq<Seq<char>>) -> (
    OutcomeView,
    Seq<DeltaView>,
) {
    sse::run_lines(|s: OutcomeView, l: Seq<char>| after_line(s, l), st, lines)
}

/// Reads a streamed reply.
pub struct ResponsesStream {
    pub lines: LineBuffer,
    pub response: Option<Json>,
    pub failure: Option<Json>,
}

impl View for ResponsesStream {
    type V = OutcomeView;

    open spec fn view(&self) -> OutcomeView {
        OutcomeView { response: json::opt_json(self.response), failure: json::opt_json(self.failure) }
    }
}

/// The delta of the given kind that an event carries.
pub fn event_delta(ev: &Json, reasoning: bool) -> (r: Vec<StreamDelta>)
    ensures
        text::views(r@) == (if reasoning {
            event_reasoning(ev@)
        } else {
            event_text(ev@)
        }),
{
    let mut out: Vec<StreamDelta> = Vec::new();
    match ev.text_at("delta") {
        Some(t) => {
            if reasoning {
                out.push(StreamDelta { content: None, reasoning_content: Some(t.to_owned()) });
                assert(text::views(out@) =~= seq![anthropic_stream::reasoning_delta(t@)]);
            } else {
                out.push(StreamDelta { content: Some(t.to_owned()), reasoning_content: None });
                assert(text::views(out@) =~= seq![anthropic_stream::text_delta(t@)]);
            }
        },
        None => {
            assert(text::views(out@) =~= Seq::empty());
        },
    }
    out
}

/// A copy of an optional field.
pub fn copy_field(j: &Json, key: &str) -> (r: Option<Json>)
    ensures
        json::opt_json(r) == j@.get(key@),
{
    match j.get(key) {
        Some(v) => Some(v.clone()),
        None => None,
    }
}

impl ResponsesStream {
    pub fn new() -> (r: ResponsesStream)
        ensures
            r.lines.pending@ == Seq::<char>::empty(),
            r@ == (OutcomeView { response: None, failure: None }),
    {
        ResponsesStream { lines: LineBuffer::new(), response: None, failure: None }
    }

    fn line(&mut self, line: &str) -> (r: Vec<StreamDelta>)
        ensures
            final(self).lines == old(self).lines,
            (final(self)@, text::views(r@)) == after_line(old(self)@, line@),
    {
        let none: Vec<StreamDelta> = Vec::new();
        assert(text::views(none@) =~= Seq::empty());
        if let Some(data) = sse_data(line) {
            if self.failure.is_none() && !same(data.as_str(), "[DONE]") {
                if let Ok(ev) = Json::parse(data.as_str()) {
                    return self.event(ev);
                }
            }
        }
        none
    }

    /// Takes in one event and gives out the deltas that it brings.
    pub fn event(&mut self, ev: Json) -> (r: Vec<StreamDelta>)
        ensures
            final(self).lines == old(self).lines,
            (final(self)@, text::views(r@)) == after_event(old(self)@, ev@),
    {
        let none: Vec<StreamDelta> = Vec::new();
        assert(text::views(none@) =~= Seq::empty());
        if has_type(&ev, "response.output_text.delta") {
            return event_delta(&ev, false);
        } else if has_type(&ev, "response.reasoning_summary_text.delta") {
            return event_delta(&ev, true);
        } else if has_type(&ev, "response.completed") {
            self.response = copy_field(&ev, "response");
        } else if has_type(&ev, "response.failed") || has_type(&ev, "error") {
            self.failure = Some(ev);
        }
        none
    }

    /// Reads a piece of the stream and gives out the deltas that it brings.
    pub fn feed(&mut self, bytes: &Vec<u8>) -> (r: Vec<StreamDelta>)
        ensures
            final(self).lines.pending@ == sse::unfinished(
                old(self).lines.pending@ + sse::lossy_text(bytes@),
            ),
            (final(self)@, text::views(r@)) == after_lines(
                old(self)@,
                sse::finished(old(self).lines.pending@ + sse::lossy_text(bytes@)),
            ),
    {
        let piece = lossy_string(bytes);
        self.feed_text(piece.as_str())
    }

    /// Reads a piece of the stream's text and gives out the deltas that it brings.
    pub fn feed_text(&mut self, piece: &str) -> (r: Vec<StreamDelta>)
        ensures
            final(self).lines.pending@ == sse::unfinished(
                old(self).lines.pending@ + piece@,
            ),
            (final(self)@, text::views(r@)) == after_lines(
                old(self)@,
                sse::finished(old(self).lines.pending@ + piece@),
            ),
    {
        let lines = self.lines.feed(piece);
        let mut out: Vec<StreamDelta> = Vec::new();
        let ghost ls = text::views(lines@);
        let ghost step = |s: OutcomeView, l: Seq<char>| after_line(s, l);
        let ghost pending = self.lines;
        assert(text::views(out@) =~= Seq::empty());
        let mut i: usize = 0;
        while i < lines.len()
            invariant
                i <= lines@.len(),
                ls == text::views(lines@),
                step == (|s: OutcomeView, l: Seq<char>| after_line(s, l)),
                self.lines == pending,
                (self@, text::views(out@)) == sse::run_lines(step, old(self)@, ls.take(i as int)),
            decreases lines@.len() - i,
        {
            proof {
                assert(ls.take(i + 1).drop_last() =~= ls.take(i as int));
            }
            let ghost before = text::views(out@);
            let mut deltas = self.line(lines[i].as_str());
            let ghost more = text::views(deltas@);
            out.append(&mut deltas);
            assert(text::views(out@) =~= before + more);
            i += 1;
        }
        assert(ls.take(i as int) =~= ls);
        out
    }

    /// The reply that the stream made: a failure that the server reported is an
    /// API error with the event's text, and a stream without a finished response
    /// is an empty one.
    pub fn finish(&self) -> (r: Result<LlmResponse, LlmError>)
        ensures
            match r {
                Ok(v) => self@.failure is None && self@.response is Some && v@ == document_reply(
                    self@.response->0,
                ),
                Err(e) => e@ == match self@.failure {
                    Some(ev) => LlmErrorView::Api { status: 500, body: json::json_text(ev) },
                    None => LlmErrorView::EmptyResponse,
                } && (self@.failure is Some || self@.response is None),
            },
    {
        match &self.failure {
            Some(ev) => Err(LlmError::Api { status: 500, body: ev.print() }),
            None => match &self.response {
                Some(doc) => Ok(parse_response(doc)),
                None => Err(LlmError::EmptyResponse),
            },
        }
    }
}

} // verus!
