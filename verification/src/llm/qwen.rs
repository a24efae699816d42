//! Qwen: the Responses API as served by Alibaba Cloud's compatible gateway.
//!
//! The gateway speaks the Responses shape but not its extensions: `store`,
//! `include` and the reasoning effort are never sent, reasoning is not sent
//! again across steps, and a reply is rebuilt from its finished items where no
//! closing event comes.
use crate::text;
use crate::seqs;
use crate::llm::wire;
use crate::llm::sse;
use crate::llm::responses;
use crate::llm::openai;
use crate::json;
use super::error::{HttpRequest, LlmError, LlmErrorView, RequestView};
use super::openai::bearer_request;
use super::responses::{convert_messages, copy_field, event_delta, parse_response, put_tools};
use super::sse::{lossy_string, sse_data, LineBuffer};
use super::types::{
    ChatMessage, DeltaView, LlmResponse, MessageView, StreamDelta, ToolDefView, ToolDefinition,
};
use super::wire::has_type;
use crate::json::{copy_items, Json, JsonMap, JsonView};
use crate::text::same;
use vstd::prelude::*;

verus! {

/// The settings of a Qwen provider.
///
/// Sampling numbers are held as JSON numbers.
pub struct QwenProvider {
    pub base_url: String,
    pub api_key: String,
    pub model: String,
    pub temperature: Option<Json>,
    pub top_p: Option<Json>,
    pub max_output_tokens: Option<u32>,
    pub parallel_tool_calls: Option<bool>,
    pub tool_choice: Option<Json>,
    /// Thinking is switched by `enable_thinking`, not by an effort.
    pub enable_thinking: Option<bool>,
    pub extra_body: JsonMap,
}

/// An item that is no reasoning.
pub open spec fn visible_item(item: JsonView) -> Option<JsonView> {
    if wire::is_type(item, "reasoning"@) {
        None
    } else {
        Some(item)
    }
}

/// The items without reasoning.
pub open spec fn visible(items: Seq<JsonView>) -> Seq<JsonView> {
    seqs::filter_map(items, |i: JsonView| visible_item(i))
}

/// The body of a completion request.
pub open spec fn request_body(
    p: QwenProvider,
    messages: Seq<MessageView>,
    tools: Seq<ToolDefView>,
    stream: bool,
) -> JsonView {
    let input = responses::input_of(messages);
    let a = map![
        "model"@ => JsonView::Text(p.model@),
        "input"@ => JsonView::Array(visible(input.items)),
    ];
    let b = wire::with_some(a, "instructions"@, responses::opt_field(input.instructions));
    let c = responses::with_tools(b, tools, json::opt_json(p.tool_choice), p.parallel_tool_calls);
    let d = wire::with_some(c, "enable_thinking"@, openai::opt_flag(p.enable_thinking));
    let e = wire::with_some(d, "temperature"@, json::opt_json(p.temperature));
    let f = wire::with_some(e, "top_p"@, json::opt_json(p.top_p));
    let g = wire::with_some(f, "max_output_tokens"@, wire::opt_count(p.max_output_tokens));
    let h = if stream {
        g.insert("stream"@, JsonView::Bool(true))
    } else {
        g
    };
    JsonView::Object(p.extra_body@.union_prefer_right(h))
}

/// A request never carries a field that the gateway does not accept, unless the
/// caller adds it.
pub proof fn law_never_sends_unsupported(
    p: QwenProvider,
    messages: Seq<MessageView>,
    tools: Seq<ToolDefView>,
    stream: bool,
    key: Seq<char>,
)
    requires
        key == "store"@ || key == "include"@ || key == "reasoning"@,
        !p.extra_body@.contains_key(key),
    ensures
        request_body(p, messages, tools, stream).get(key) is None,
{
    reveal_strlit("store");
    reveal_strlit("include");
    reveal_strlit("reasoning");
    reveal_strlit("model");
    reveal_strlit("input");
    reveal_strlit("instructions");
    reveal_strlit("tools");
    reveal_strlit("tool_choice");
    reveal_strlit("parallel_tool_calls");
    reveal_strlit("enable_thinking");
    reveal_strlit("temperature");
    reveal_strlit("top_p");
    reveal_strlit("max_output_tokens");
    reveal_strlit("stream");
    assert(key.len() == 5 || key.len() == 7 || key.len() == 9);
    if key.len() == 5 {
        assert(key[0] == 's' && "model"@[0] == 'm' && "input"@[0] == 'i' && "tools"@[0] == 't'
            && "top_p"@[0] == 't');
    }
}

fn visible_items(items: &Vec<Json>) -> (r: Vec<Json>)
    ensures
        json::items_view(r@) == visible(json::items_view(items@)),
{
    let mut out: Vec<Json> = Vec::new();
    let ghost all = json::items_view(items@);
    let ghost f = |i: JsonView| visible_item(i);
    let mut i: usize = 0;
    assert(json::items_view(out@) =~= Seq::empty());
    while i < items.len()
        invariant
            i <= items@.len(),
            all == json::items_view(items@),
            f == (|i: JsonView| visible_item(i)),
            json::items_view(out@) == seqs::filter_map(all.take(i as int), f),
        decreases items@.len() - i,
    {
        proof {
            json::lemma_items_view(items@);
            assert(all[i as int] == items@[i as int]@);
            seqs::lemma_take_push(all, i as int);
            seqs::lemma_filter_map_push(all.take(i as int), f, all[i as int]);
        }
        if !has_type(&items[i], "reasoning") {
            let item = items[i].clone();
            proof {
                wire::lemma_items_push(out@, item);
            }
            out.push(item);
        }
        i += 1;
    }
    proof {
        json::lemma_items_view(items@);
        assert(all.take(i as int) =~= all);
    }
    out
}

impl QwenProvider {
    pub fn new(api_key: &str, model: &str) -> (r: QwenProvider)
        ensures
            r.base_url@ == "https://dashscope-intl.aliyuncs.com/compatible-mode/v1"@,
            r.api_key@ == api_key@,
            r.model@ == model@,
            r.temperature is None,
            r.top_p is None,
            r.max_output_tokens is None,
            r.parallel_tool_calls is None,
            r.tool_choice is None,
            r.enable_thinking is None,
            r.extra_body@ == Map::<Seq<char>, JsonView>::empty(),
    {
        QwenProvider {
            base_url: "https://dashscope-intl.aliyuncs.com/compatible-mode/v1".to_owned(),
            api_key: api_key.to_owned(),
            model: model.to_owned(),
            temperature: None,
            top_p: None,
            max_output_tokens: None,
            parallel_tool_calls: None,
            tool_choice: None,
            enable_thinking: None,
            extra_body: JsonMap::new(),
        }
    }

    /// Point at a specific gateway; `/responses` is appended.
    pub fn with_base_url(self, url: &str) -> (r: QwenProvider)
        ensures
            r == (QwenProvider { base_url: r.base_url, ..self }),
            r.base_url@ == url@,
    {
        let mut out = self;
        out.base_url = url.to_owned();
        out
    }

    pub fn with_temperature(self, t: Json) -> (r: QwenProvider)
        ensures
            r == (QwenProvider { temperature: Some(t), ..self }),
    {
        let mut out = self;
        out.temperature = Some(t);
        out
    }

    pub fn with_top_p(self, p: Json) -> (r: QwenProvider)
        ensures
            r == (QwenProvider { top_p: Some(p), ..self }),
    {
        let mut out = self;
        out.top_p = Some(p);
        out
    }

    pub fn with_max_output_tokens(self, n: u32) -> (r: QwenProvider)
        ensures
            r == (QwenProvider { max_output_tokens: Some(n), ..self }),
    {
        let mut out = self;
        out.max_output_tokens = Some(n);
        out
    }

    /// Toggle Qwen's thinking mode.
    pub fn with_thinking(self, enabled: bool) -> (r: QwenProvider)
        ensures
            r == (QwenProvider { enable_thinking: Some(enabled), ..self }),
    {
        let mut out = self;
        out.enable_thinking = Some(enabled);
        out
    }

    pub fn with_parallel_tool_calls(self, enabled: bool) -> (r: QwenProvider)
        ensures
            r == (QwenProvider { parallel_tool_calls: Some(enabled), ..self }),
    {
        let mut out = self;
        out.parallel_tool_calls = Some(enabled);
        out
    }

    pub fn with_tool_choice(self, choice: Json) -> (r: QwenProvider)
        ensures
            r == (QwenProvider { tool_choice: Some(choice), ..self }),
    {
        let mut out = self;
        out.tool_choice = Some(choice);
        out
    }

    /// Merge an arbitrary top-level field into every request.
    pub fn with_body_param(self, key: &str, value: Json) -> (r: QwenProvider)
        ensures
            r == (QwenProvider { extra_body: r.extra_body, ..self }),
            r.extra_body@ == self.extra_body@.insert(key@, value@),
    {
        let mut out = self;
        let body = out.extra_body.with(key, value);
        out.extra_body = body;
        out
    }

    /// The body of a completion request.
    pub fn build_body(
        &self,
        messages: &Vec<ChatMessage>,
        tools: &Vec<ToolDefinition>,
        stream: bool,
    ) -> (r: Json)
        ensures
            r@ == request_body(*self, text::views(messages@), text::views(tools@), stream),
    {
        let (instructions, input) = convert_messages(messages);
        let mut m = JsonMap::new().with("model", Json::text(self.model.as_str())).with(
            "input",
            Json::Array(visible_items(&input)),
        );
        if let Some(t) = instructions {
            m.put("instructions", Json::Text(t));
        }
        put_tools(&mut m, tools, &self.tool_choice, self.parallel_tool_calls);
        if let Some(b) = self.enable_thinking {
            m.put("enable_thinking", Json::Bool(b));
        }
        if let Some(t) = &self.temperature {
            m.put("temperature", t.clone());
        }
        if let Some(t) = &self.top_p {
            m.put("top_p", t.clone());
        }
        if let Some(n) = self.max_output_tokens {
            m.put("max_output_tokens", Json::Unsigned(n as u64));
        }
        if stream {
            m.put("stream", Json::Bool(true));
        }
        m.fill_from(&self.extra_body);
        Json::Object(m)
    }

    /// The HTTP request that carries `body`.
    pub fn request(&self, body: Json) -> (r: HttpRequest)
        ensures
            r@ == (RequestView {
                url: self.base_url@ + "/responses"@,
                headers: seq![("Authorization"@, "Bearer "@ + self.api_key@)],
                body: body@,
            }),
    {
        bearer_request(self.base_url.as_str(), "/responses", self.api_key.as_str(), body)
    }
}

// ── Streaming ──────────────────────────────────────────────────────────────

/// What a stream has brought so far. Nothing after a failure counts.
#[verifier::ext_equal]
pub struct OutcomeView {
    pub items: Seq<JsonView>,
    pub response: Option<JsonView>,
    pub usage: Option<JsonView>,
    pub failure: Option<JsonView>,
}

/// What one event does.
pub open spec fn after_event(st: OutcomeView, ev: JsonView) -> (OutcomeView, Seq<DeltaView>) {
    if wire::is_type(ev, "response.output_text.delta"@) {
        (st, responses::event_text(ev))
    } else if wire::is_type(ev, "response.reasoning_text.delta"@) {
        (st, responses::event_reasoning(ev))
    } else if wire::is_type(ev, "response.output_item.done"@) {
        (
            OutcomeView {
                items: match ev.get("item"@) {
                    Some(i) => st.items.push(i),
                    None => st.items,
                },
                ..st
            },
            Seq::empty(),
        )
    } else if wire::is_type(ev, "response.completed"@) || wire::is_type(ev, "response.incomplete"@) {
        (OutcomeView { response: ev.get("response"@), ..st }, Seq::empty())
    } else if wire::is_type(ev, "error"@) || wire::is_type(ev, "response.failed"@) {
        (OutcomeView { failure: Some(ev), ..st }, Seq::empty())
    } else {
        (
            OutcomeView {
                usage: match ev.get("usage"@) {
                    Some(u) => Some(u),
                    None => st.usage,
                },
                ..st
            },
            Seq::empty(),
        )
    }
}

/// What one line does; the space after `data:` is optional.
pub open spec fn after_line(st: OutcomeView, line: Seq<char>) -> (OutcomeView, Seq<DeltaView>) {
    match sse::data_of(line) {
        Some(data) => if st.failure is Some || data == "[DONE]"@ {
            (st, Seq::empty())
        } else {
            match json::parsed_json(data) {
                Ok(ev) => after_event(st, ev),
                Err(_) => (st, Seq::empty()),
            }
        },
        None => (st, Seq::empty()),
    }
}

pub open spec fn after_lines(st: OutcomeView, lines: Seq<Seq<char>>) -> (
    OutcomeView,
    Seq<DeltaView>,
) {
    sse::run_lines(|s: OutcomeView, l: Seq<char>| after_line(s, l), st, lines)
}

/// The response document of a finished stream: the closing one, or one made of
/// the finished items.
pub open spec fn final_document(st: OutcomeView) -> Option<JsonView> {
    match st.response {
        Some(doc) => Some(doc),
        None => if st.items.len() > 0 {
            Some(
                JsonView::Object(
                    wire::with_some(map!["output"@ => JsonView::Array(st.items)], "usage"@, st.usage),
                ),
            )
        } else {
            None
        },
    }
}

/// Reads a streamed reply.
pub struct QwenStream {
    pub lines: LineBuffer,
    pub items: Vec<Json>,
    pub response: Option<Json>,
    pub usage: Option<Json>,
    pub failure: Option<Json>,
}

impl View for QwenStream {
    type V = OutcomeView;

    open spec fn view(&self) -> OutcomeView {
        OutcomeView {
            items: json::items_view(self.items@),
            response: json::opt_json(self.response),
            usage: json::opt_json(self.usage),
            failure: json::opt_json(self.failure),
        }
    }
}

impl QwenStream {
    pub fn new() -> (r: QwenStream)
        ensures
            r.lines.pending@ == Seq::<char>::empty(),
            r@ == (OutcomeView {
                items: Seq::empty(),
                response: None,
                usage: None,
                failure: None,
            }),
    {
        let r = QwenStream {
            lines: LineBuffer::new(),
            items: Vec::new(),
            response: None,
            usage: None,
            failure: None,
        };
        assert(r@.items =~= Seq::empty());
        r
    }

    fn line(&mut self, line: &str) -> (r: Vec<StreamDelta>)
        ensures
            final(self).lines == old(self).lines,
            (final(self)@, text::views(r@)) == after_line(old(self)@, line@),
    {
        let none: Vec<StreamDelta> = Vec::new();
        assert(text::views(none@) =~= Seq::empty());
        if let Some(data) = sse_data(line) {
            if self.failure.is_none() && !same(data.as_str(), "[DONE]") {
                if let Ok(ev) = Json::parse(data.as_str()) {
                    return self.event(ev);
                }
            }
        }
        none
    }

    /// Takes in one event and gives out the deltas that it brings.
    pub fn event(&mut self, ev: Json) -> (r: Vec<StreamDelta>)
        ensures
            final(self).lines == old(self).lines,
            (final(self)@, text::views(r@)) == after_event(old(self)@, ev@),
    {
        let none: Vec<StreamDelta> = Vec::new();
        assert(text::views(none@) =~= Seq::empty());
        if has_type(&ev, "response.output_text.delta") {
            return event_delta(&ev, false);
        } else if has_type(&ev, "response.reasoning_text.delta") {
            return event_delta(&ev, true);
        } else if has_type(&ev, "response.output_item.done") {
            if let Some(item) = ev.get("item") {
                let copy = item.clone();
                proof {
                    wire::lemma_items_push(self.items@, copy);
                }
                self.items.push(copy);
            }
        } else if has_type(&ev, "response.completed") || has_type(&ev, "response.incomplete") {
            self.response = copy_field(&ev, "response");
        } else if has_type(&ev, "error") || has_type(&ev, "response.failed") {
            self.failure = Some(ev);
        } else if let Some(u) = ev.get("usage") {
            self.usage = Some(u.clone());
        }
        none
    }

    /// Reads a piece of the stream and gives out the deltas that it brings.
    pub fn feed(&mut self, bytes: &Vec<u8>) -> (r: Vec<StreamDelta>)
        ensures
            final(self).lines.pending@ == sse::unfinished(
                old(self).lines.pending@ + sse::lossy_text(bytes@),
            ),
            (final(self)@, text::views(r@)) == after_lines(
                old(self)@,
                sse::finished(old(self).lines.pending@ + sse::lossy_text(bytes@)),
            ),
    {
        let piece = lossy_string(bytes);
        self.feed_text(piece.as_str())
    }

    /// Reads a piece of the stream's text and gives out the deltas that it brings.
    pub fn feed_text(&mut self, piece: &str) -> (r: Vec<StreamDelta>)
        ensures
            final(self).lines.pending@ == sse::unfinished(
                old(self).lines.pending@ + piece@,
            ),
            (final(self)@, text::views(r@)) == after_lines(
                old(self)@,
                sse::finished(old(self).lines.pending@ + piece@),
            ),
    {
        let lines = self.lines.feed(piece);
        let mut out: Vec<StreamDelta> = Vec::new();
        let ghost ls = text::views(lines@);
        let ghost step = |s: OutcomeView, l: Seq<char>| after_line(s, l);
        let ghost pending = self.lines;
        assert(text::views(out@) =~= Seq::empty());
        let mut i: usize = 0;
        while i < lines.len()
            invariant
                i <= lines@.len(),
                ls == text::views(lines@),
                step == (|s: OutcomeView, l: Seq<char>| after_line(s, l)),
                self.lines == pending,
                (self@, text::views(out@)) == sse::run_lines(step, old(self)@, ls.take(i as int)),
            decreases lines@.len() - i,
        {
            proof {
                assert(ls.take(i + 1).drop_last() =~= ls.take(i as int));
            }
            let ghost before = text::views(out@);
            let mut deltas = self.line(lines[i].as_str());
            let ghost more = text::views(deltas@);
            out.append(&mut deltas);
            assert(text::views(out@) =~= before + more);
            i += 1;
        }
        assert(ls.take(i as int) =~= ls);
        out
    }

    /// The reply that the stream made: a failure that the server reported is an
    /// API error with the event's text, and a stream without a closing response
    /// and without items is an empty one.
    pub fn finish(&self) -> (r: Result<LlmResponse, LlmError>)
        ensures
            match r {
                Ok(v) => self@.failure is None && final_document(self@) is Some && v@
                    == responses::document_reply(final_document(self@)->0),
                Err(e) => e@ == match self@.failure {
                    Some(ev) => LlmErrorView::Api { status: 500, body: json::json_text(ev) },
                    None => LlmErrorView::EmptyResponse,
                } && (self@.failure is Some || final_document(self@) is None),
            },
    {
        proof {
            json::lemma_items_view(self.items@);
        }
        match &self.failure {
            Some(ev) => Err(LlmError::Api { status: 500, body: ev.print() }),
            None => match &self.response {
                Some(doc) => Ok(parse_response(doc)),
                None => {
                    if self.items.len() == 0 {
                        return Err(LlmError::EmptyResponse);
                    }
                    let mut m = JsonMap::new().with("output", Json::Array(copy_items(&self.items)));
                    if let Some(u) = &self.usage {
                        m.put("usage", u.clone());
                    }
                    let doc = Json::Object(m);
                    Ok(parse_response(&doc))
                },
            },
        }
    }
}

} // verus!
