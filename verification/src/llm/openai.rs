//! OpenAI-compatible chat completions: requests and replies.
use crate::text;
use crate::seqs;
use crate::llm::wire;
use crate::llm::types;
use crate::llm::sse;
use crate::json;
use super::error::{HttpRequest, LlmError, LlmErrorView, RequestView};
use super::sse::{lossy_string, sse_data, LineBuffer};
use super::types::{
    copy_opt_text, non_empty_text, ChatMessage, DeltaView, FunctionCall, LlmResponse, MessageView,
    ResponseView, StreamDelta, ToolCall, ToolCallView, ToolDefView, ToolDefinition,
};
use super::wire::text_array_json;
use crate::json::{Json, JsonMap, JsonView};
use crate::text::same;
use vstd::prelude::*;

verus! {

/// The settings of an OpenAI-compatible provider.
///
/// Sampling numbers are held as JSON numbers.
pub struct OpenAiProvider {
    pub base_url: String,
    pub api_key: String,
    pub model: String,
    /// Sent only when tools are present.
    pub tool_choice: Option<Json>,
    pub temperature: Option<Json>,
    pub top_p: Option<Json>,
    pub max_tokens: Option<u32>,
    pub stop: Vec<String>,
    pub seed: Option<i64>,
    pub frequency_penalty: Option<Json>,
    pub presence_penalty: Option<Json>,
    pub reasoning_effort: Option<String>,
    pub parallel_tool_calls: Option<bool>,
    pub response_format: Option<Json>,
    /// Extra top-level request fields.
    pub extra_body: JsonMap,
}

/// The wire form of a tool.
pub open spec fn tool_def_json(t: ToolDefView) -> JsonView {
    JsonView::Object(
        map![
            "type"@ => JsonView::Text(t.kind),
            "function"@ => JsonView::Object(
                map![
                    "name"@ => JsonView::Text(t.name),
                    "description"@ => JsonView::Text(t.description),
                    "parameters"@ => t.parameters,
                ],
            ),
        ],
    )
}

pub open spec fn opt_text_json(t: Option<Seq<char>>) -> Option<JsonView> {
    match t {
        Some(s) => Some(JsonView::Text(s)),
        None => None,
    }
}

pub open spec fn opt_flag(b: Option<bool>) -> Option<JsonView> {
    match b {
        Some(f) => Some(JsonView::Bool(f)),
        None => None,
    }
}

pub open spec fn opt_int(n: Option<i64>) -> Option<JsonView> {
    match n {
        Some(k) => Some(JsonView::Int(k as int)),
        None => None,
    }
}

/// The body of a completion request: a field stands only for what is set, and
/// `tool_choice` only with tools. Fields that the caller adds never replace one
/// that is already there.
pub open spec fn request_body(
    p: OpenAiProvider,
    messages: Seq<MessageView>,
    tools: Seq<ToolDefView>,
    stream: bool,
) -> JsonView {
    let a = map![
        "model"@ => JsonView::Text(p.model@),
        "messages"@ => JsonView::Array(messages.map_values(|m: MessageView| types::message_json(m))),
    ];
    let b = if tools.len() > 0 {
        wire::with_some(
            a.insert(
                "tools"@,
                JsonView::Array(tools.map_values(|t: ToolDefView| tool_def_json(t))),
            ),
            "tool_choice"@,
            json::opt_json(p.tool_choice),
        )
    } else {
        a
    };
    let c = wire::with_some(b, "temperature"@, json::opt_json(p.temperature));
    let d = wire::with_some(c, "top_p"@, json::opt_json(p.top_p));
    let e = wire::with_some(d, "max_tokens"@, wire::opt_count(p.max_tokens));
    let f = if p.stop@.len() > 0 {
        e.insert("stop"@, wire::text_array(text::views(p.stop@)))
    } else {
        e
    };
    let g = wire::with_some(f, "seed"@, opt_int(p.seed));
    let h = wire::with_some(g, "frequency_penalty"@, json::opt_json(p.frequency_penalty));
    let i = wire::with_some(h, "presence_penalty"@, json::opt_json(p.presence_penalty));
    let j = wire::with_some(i, "reasoning_effort"@, opt_text_json(json::opt_text(p.reasoning_effort)));
    let k = wire::with_some(j, "parallel_tool_calls"@, opt_flag(p.parallel_tool_calls));
    let l = wire::with_some(k, "response_format"@, json::opt_json(p.response_format));
    let m = if stream {
        l.insert("stream"@, JsonView::Bool(true)).insert(
            "stream_options"@,
            JsonView::Object(map!["include_usage"@ => JsonView::Bool(true)]),
        )
    } else {
        l
    };
    JsonView::Object(p.extra_body@.union_prefer_right(m))
}

fn messages_json(messages: &Vec<ChatMessage>) -> (r: Vec<Json>)
    ensures
        json::items_view(r@) == text::views(messages@).map_values(|m: MessageView| types::message_json(m)),
{
    let mut out: Vec<Json> = Vec::new();
    let ghost all = text::views(messages@).map_values(|m: MessageView| types::message_json(m));
    let mut i: usize = 0;
    while i < messages.len()
        invariant
            i <= messages@.len(),
            all == text::views(messages@).map_values(|m: MessageView| types::message_json(m)),
            json::items_view(out@) == all.take(i as int),
        decreases messages@.len() - i,
    {
        let item = messages[i].to_json();
        proof {
            wire::lemma_items_push(out@, item);
            seqs::lemma_take_push(all, i as int);
        }
        out.push(item);
        i += 1;
    }
    assert(all.take(i as int) =~= all);
    out
}

fn tools_json(tools: &Vec<ToolDefinition>) -> (r: Vec<Json>)
    ensures
        json::items_view(r@) == text::views(tools@).map_values(|t: ToolDefView| tool_def_json(t)),
{
    let mut out: Vec<Json> = Vec::new();
    let ghost all = text::views(tools@).map_values(|t: ToolDefView| tool_def_json(t));
    let mut i: usize = 0;
    while i < tools.len()
        invariant
            i <= tools@.len(),
            all == text::views(tools@).map_values(|t: ToolDefView| tool_def_json(t)),
            json::items_view(out@) == all.take(i as int),
        decreases tools@.len() - i,
    {
        let f = &tools[i].function;
        let inner = JsonMap::new().with("name", Json::text(f.name.as_str())).with(
            "description",
            Json::text(f.description.as_str()),
        ).with("parameters", f.parameters.clone());
        let item = Json::Object(
            JsonMap::new().with("type", Json::text(tools[i].kind.as_str())).with(
                "function",
                Json::Object(inner),
            ),
        );
        proof {
            assert(item@ == tool_def_json(tools@[i as int]@));
            wire::lemma_items_push(out@, item);
            seqs::lemma_take_push(all, i as int);
        }
        out.push(item);
        i += 1;
    }
    assert(all.take(i as int) =~= all);
    out
}

impl OpenAiProvider {
    pub fn new(base_url: &str, api_key: &str, model: &str) -> (r: OpenAiProvider)
        ensures
            r.base_url@ == base_url@,
            r.api_key@ == api_key@,
            r.model@ == model@,
            r.tool_choice is None,
            r.temperature is None,
            r.top_p is None,
            r.max_tokens is None,
            r.stop@.len() == 0,
            r.seed is None,
            r.frequency_penalty is None,
            r.presence_penalty is None,
            r.reasoning_effort is None,
            r.parallel_tool_calls is None,
            r.response_format is None,
            r.extra_body@ == Map::<Seq<char>, JsonView>::empty(),
    {
        OpenAiProvider {
            base_url: base_url.to_owned(),
            api_key: api_key.to_owned(),
            model: model.to_owned(),
            tool_choice: None,
            temperature: None,
            top_p: None,
            max_tokens: None,
            stop: Vec::new(),
            seed: None,
            frequency_penalty: None,
            presence_penalty: None,
            reasoning_effort: None,
            parallel_tool_calls: None,
            response_format: None,
            extra_body: JsonMap::new(),
        }
    }

    /// The settings for a local Ollama instance.
    pub fn ollama(model: &str) -> (r: OpenAiProvider)
        ensures
            r.base_url@ == "http://localhost:11434/v1"@,
            r.api_key@ == "ollama"@,
            r.model@ == model@,
            r.tool_choice is None,
            r.extra_body@ == Map::<Seq<char>, JsonView>::empty(),
    {
        Self::new("http://localhost:11434/v1", "ollama", model)
    }

    /// The settings for OpenAI.
    pub fn openai(api_key: &str, model: &str) -> (r: OpenAiProvider)
        ensures
            r.base_url@ == "https://api.openai.com/v1"@,
            r.api_key@ == api_key@,
            r.model@ == model@,
            r.tool_choice is None,
            r.extra_body@ == Map::<Seq<char>, JsonView>::empty(),
    {
        Self::new("https://api.openai.com/v1", api_key, model)
    }

    /// Sets the `tool_choice` field for requests with tools.
    pub fn with_tool_choice(self, choice: Json) -> (r: OpenAiProvider)
        ensures
            r == (OpenAiProvider { tool_choice: Some(choice), ..self }),
    {
        let mut out = self;
        out.tool_choice = Some(choice);
        out
    }

    /// Sets the sampling temperature.
    pub fn with_temperature(self, temperature: Json) -> (r: OpenAiProvider)
        ensures
            r == (OpenAiProvider { temperature: Some(temperature), ..self }),
    {
        let mut out = self;
        out.temperature = Some(temperature);
        out
    }

    /// Sets nucleus sampling `top_p`.
    pub fn with_top_p(self, top_p: Json) -> (r: OpenAiProvider)
        ensures
            r == (OpenAiProvider { top_p: Some(top_p), ..self }),
    {
        let mut out = self;
        out.top_p = Some(top_p);
        out
    }

    /// Caps completion length (`max_tokens`).
    pub fn with_max_tokens(self, max_tokens: u32) -> (r: OpenAiProvider)
        ensures
            r == (OpenAiProvider { max_tokens: Some(max_tokens), ..self }),
    {
        let mut out = self;
        out.max_tokens = Some(max_tokens);
        out
    }

    /// Sets stop sequences.
    pub fn with_stop(self, stop: Vec<String>) -> (r: OpenAiProvider)
        ensures
            r == (OpenAiProvider { stop, ..self }),
    {
        let mut out = self;
        out.stop = stop;
        out
    }

    /// Sets the sampling seed.
    pub fn with_seed(self, seed: i64) -> (r: OpenAiProvider)
        ensures
            r == (OpenAiProvider { seed: Some(seed), ..self }),
    {
        let mut out = self;
        out.seed = Some(seed);
        out
    }

    pub fn with_frequency_penalty(self, penalty: Json) -> (r: OpenAiProvider)
        ensures
            r == (OpenAiProvider { frequency_penalty: Some(penalty), ..self }),
    {
        let mut out = self;
        out.frequency_penalty = Some(penalty);
        out
    }

    pub fn with_presence_penalty(self, penalty: Json) -> (r: OpenAiProvider)
        ensures
            r == (OpenAiProvider { presence_penalty: Some(penalty), ..self }),
    {
        let mut out = self;
        out.presence_penalty = Some(penalty);
        out
    }

    /// Reasoning effort for reasoning models.
    pub fn with_reasoning_effort(self, effort: &str) -> (r: OpenAiProvider)
        ensures
            r == (OpenAiProvider { reasoning_effort: r.reasoning_effort, ..self }),
            json::opt_text(r.reasoning_effort) == Some(effort@),
    {
        let mut out = self;
        out.reasoning_effort = Some(effort.to_owned());
        out
    }

    /// Enable or disable parallel tool calls.
    pub fn with_parallel_tool_calls(self, enabled: bool) -> (r: OpenAiProvider)
        ensures
            r == (OpenAiProvider { parallel_tool_calls: Some(enabled), ..self }),
    {
        let mut out = self;
        out.parallel_tool_calls = Some(enabled);
        out
    }

    /// Constrain output to a JSON Schema (structured outputs).
    pub fn with_json_schema(self, name: &str, schema: Json) -> (r: OpenAiProvider)
        ensures
            r == (OpenAiProvider { response_format: r.response_format, ..self }),
            json::opt_json(r.response_format) == Some(
                JsonView::Object(
                    map![
                        "type"@ => JsonView::Text("json_schema"@),
                        "json_schema"@ => JsonView::Object(
                            map![
                                "name"@ => JsonView::Text(name@),
                                "strict"@ => JsonView::Bool(true),
                                "schema"@ => schema@,
                            ],
                        ),
                    ],
                ),
            ),
    {
        let inner = JsonMap::new().with("name", Json::text(name)).with(
            "strict",
            Json::Bool(true),
        ).with("schema", schema);
        let mut out = self;
        out.response_format = Some(
            Json::Object(
                JsonMap::new().with("type", Json::text("json_schema")).with(
                    "json_schema",
                    Json::Object(inner),
                ),
            ),
        );
        out
    }

    /// Constrain output to syntactically valid JSON.
    pub fn with_json_mode(self) -> (r: OpenAiProvider)
        ensures
            r == (OpenAiProvider { response_format: r.response_format, ..self }),
            json::opt_json(r.response_format) == Some(
                JsonView::Object(map!["type"@ => JsonView::Text("json_object"@)]),
            ),
    {
        let mut out = self;
        out.response_format = Some(
            Json::Object(JsonMap::new().with("type", Json::text("json_object"))),
        );
        out
    }

    /// Adds an arbitrary top-level field to every completion request.
    pub fn with_body_param(self, key: &str, value: Json) -> (r: OpenAiProvider)
        ensures
            r == (OpenAiProvider { extra_body: r.extra_body, ..self }),
            r.extra_body@ == self.extra_body@.insert(key@, value@),
    {
        let mut out = self;
        let body = out.extra_body.with(key, value);
        out.extra_body = body;
        out
    }

    /// The body of a completion request.
    pub fn build_body(
        &self,
        messages: &Vec<ChatMessage>,
        tools: &Vec<ToolDefinition>,
        stream: bool,
    ) -> (r: Json)
        ensures
            r@ == request_body(*self, text::views(messages@), text::views(tools@), stream),
    {
        let mut m = JsonMap::new().with("model", Json::text(self.model.as_str())).with(
            "messages",
            Json::Array(messages_json(messages)),
        );
        if tools.len() > 0 {
            m.put("tools", Json::Array(tools_json(tools)));
            if let Some(choice) = &self.tool_choice {
                m.put("tool_choice", choice.clone());
            }
        }
        if let Some(t) = &self.temperature {
            m.put("temperature", t.clone());
        }
        if let Some(t) = &self.top_p {
            m.put("top_p", t.clone());
        }
        if let Some(n) = self.max_tokens {
            m.put("max_tokens", Json::Unsigned(n as u64));
        }
        if self.stop.len() > 0 {
            m.put("stop", text_array_json(&self.stop));
        }
        if let Some(n) = self.seed {
            m.put("seed", Json::Signed(n));
        }
        if let Some(t) = &self.frequency_penalty {
            m.put("frequency_penalty", t.clone());
        }
        if let Some(t) = &self.presence_penalty {
            m.put("presence_penalty", t.clone());
        }
        if let Some(t) = &self.reasoning_effort {
            m.put("reasoning_effort", Json::text(t.as_str()));
        }
        if let Some(b) = self.parallel_tool_calls {
            m.put("parallel_tool_calls", Json::Bool(b));
        }
        if let Some(t) = &self.response_format {
            m.put("response_format", t.clone());
        }
        if stream {
            m.put("stream", Json::Bool(true));
            m.put(
                "stream_options",
                Json::Object(JsonMap::new().with("include_usage", Json::Bool(true))),
            );
        }
        m.fill_from(&self.extra_body);
        Json::Object(m)
    }

    /// The HTTP request that carries `body`.
    pub fn request(&self, body: Json) -> (r: HttpRequest)
        ensures
            r@ == (RequestView {
                url: self.base_url@ + "/chat/completions"@,
                headers: seq![("Authorization"@, "Bearer "@ + self.api_key@)],
                body: body@,
            }),
    {
        bearer_request(self.base_url.as_str(), "/chat/completions", self.api_key.as_str(), body)
    }
}

/// A request to `base` + `path` that names the key as a bearer token.
pub fn bearer_request(base: &str, path: &str, key: &str, body: Json) -> (r: HttpRequest)
    ensures
        r@ == (RequestView {
            url: base@ + path@,
            headers: seq![("Authorization"@, "Bearer "@ + key@)],
            body: body@,
        }),
{
    let mut url = base.to_owned();
    url.push_str(path);
    let mut token = "Bearer ".to_owned();
    token.push_str(key);
    let mut headers: Vec<(String, String)> = Vec::new();
    headers.push(("Authorization".to_owned(), token));
    let r = HttpRequest { url, headers, body };
    assert(r@.headers =~= seq![("Authorization"@, "Bearer "@ + key@)]);
    r
}

// ── Replies ────────────────────────────────────────────────────────────────

/// The counts that a reply reports.
#[derive(Debug, Clone, Copy)]
pub struct Usage {
    pub prompt_tokens: Option<u32>,
    pub completion_tokens: Option<u32>,
    pub cached_tokens: Option<u32>,
}

pub struct ChoiceMessage {
    pub content: Option<String>,
    /// Servers disagree on the name of the reasoning field; both are read.
    pub reasoning_content: Option<String>,
    pub reasoning: Option<String>,
    pub tool_calls: Option<Vec<ToolCall>>,
}

pub struct Choice {
    pub message: ChoiceMessage,
    pub finish_reason: String,
}

/// A completion as a server sends it.
pub struct CompletionResponse {
    pub choices: Vec<Choice>,
    pub usage: Option<Usage>,
}

pub open spec fn first_some<A>(a: Option<A>, b: Option<A>) -> Option<A> {
    match a {
        Some(x) => Some(x),
        None => b,
    }
}

/// A text that is there and not empty.
pub open spec fn kept_text(t: Option<Seq<char>>) -> Option<Seq<char>> {
    match t {
        Some(s) => types::non_empty(s),
        None => None,
    }
}

pub open spec fn usage_counts(u: Option<Usage>) -> (Option<u32>, Option<u32>, Option<u32>) {
    match u {
        Some(c) => (c.prompt_tokens, c.completion_tokens, c.cached_tokens),
        None => (None, None, None),
    }
}

/// The reply in the first choice of a completion.
pub open spec fn choice_reply(c: Choice, usage: Option<Usage>) -> ResponseView {
    let (i, o, k) = usage_counts(usage);
    ResponseView {
        content: json::opt_text(c.message.content),
        reasoning_content: kept_text(
            first_some(json::opt_text(c.message.reasoning_content), json::opt_text(c.message.reasoning)),
        ),
        tool_calls: match c.message.tool_calls {
            Some(v) => text::views(v@),
            None => Seq::empty(),
        },
        finish_reason: c.finish_reason@,
        input_tokens: i,
        output_tokens: o,
        cached_input_tokens: k,
        provider_extra: None,
    }
}

/// The reply of a completion: that of its first choice, and an error where it
/// has none.
pub fn completion_reply(completion: CompletionResponse) -> (r: Result<LlmResponse, LlmError>)
    ensures
        match r {
            Ok(v) => completion.choices@.len() > 0 && v@ == choice_reply(
                completion.choices@[0],
                completion.usage,
            ),
            Err(e) => completion.choices@.len() == 0 && e@ == LlmErrorView::EmptyResponse,
        },
{
    let mut choices = completion.choices;
    if choices.len() == 0 {
        return Err(LlmError::EmptyResponse);
    }
    let choice = choices.remove(0);
    let tool_calls = match choice.message.tool_calls {
        Some(v) => v,
        None => {
            let none: Vec<ToolCall> = Vec::new();
            assert(text::views(none@) =~= Seq::empty());
            none
        },
    };
    let reasoning = match choice.message.reasoning_content {
        Some(t) => Some(t),
        None => choice.message.reasoning,
    };
    let reasoning_content = match reasoning {
        Some(t) => non_empty_text(t),
        None => None,
    };
    let (i, o, k) = counts_of(completion.usage);
    Ok(
        LlmResponse {
            content: choice.message.content,
            reasoning_content,
            tool_calls,
            finish_reason: choice.finish_reason,
            input_tokens: i,
            output_tokens: o,
            cached_input_tokens: k,
            provider_extra: None,
        },
    )
}

fn counts_of(u: Option<Usage>) -> (r: (Option<u32>, Option<u32>, Option<u32>))
    ensures
        r == usage_counts(u),
{
    match u {
        Some(c) => (c.prompt_tokens, c.completion_tokens, c.cached_tokens),
        None => (None, None, None),
    }
}

// ── Streaming ──────────────────────────────────────────────────────────────

pub struct FunctionDelta {
    pub name: Option<String>,
    pub arguments: Option<String>,
}

/// A piece of a tool call.
pub struct ToolCallDelta {
    pub index: usize,
    pub id: Option<String>,
    pub kind: Option<String>,
    pub function: Option<FunctionDelta>,
}

pub struct StreamDeltaRaw {
    pub content: Option<String>,
    pub reasoning_content: Option<String>,
    pub reasoning: Option<String>,
    pub tool_calls: Option<Vec<ToolCallDelta>>,
}

pub struct StreamChoice {
    pub delta: StreamDeltaRaw,
    pub finish_reason: Option<String>,
}

/// One chunk of a streamed completion.
pub struct StreamChunk {
    pub choices: Vec<StreamChoice>,
    pub usage: Option<Usage>,
}

/// What the pieces of a tool call have brought so far.
pub struct ToolCallAcc {
    pub index: usize,
    pub id: String,
    pub kind: String,
    pub name: String,
    pub arguments: String,
}

#[verifier::ext_equal]
pub struct AccView {
    pub index: usize,
    pub id: Seq<char>,
    pub kind: Seq<char>,
    pub name: Seq<char>,
    pub arguments: Seq<char>,
}

impl View for ToolCallAcc {
    type V = AccView;

    open spec fn view(&self) -> AccView {
        AccView {
            index: self.index,
            id: self.id@,
            kind: self.kind@,
            name: self.name@,
            arguments: self.arguments@,
        }
    }
}

#[verifier::ext_equal]
pub struct PieceView {
    pub index: usize,
    pub id: Option<Seq<char>>,
    pub kind: Option<Seq<char>>,
    pub name: Option<Seq<char>>,
    pub arguments: Option<Seq<char>>,
}

impl View for ToolCallDelta {
    type V = PieceView;

    open spec fn view(&self) -> PieceView {
        PieceView {
            index: self.index,
            id: json::opt_text(self.id),
            kind: json::opt_text(self.kind),
            name: match self.function {
                Some(f) => json::opt_text(f.name),
                None => None,
            },
            arguments: match self.function {
                Some(f) => json::opt_text(f.arguments),
                None => None,
            },
        }
    }
}

/// A call that nothing was heard of yet.
pub open spec fn blank_acc(index: usize) -> AccView {
    AccView {
        index,
        id: Seq::empty(),
        kind: Seq::empty(),
        name: Seq::empty(),
        arguments: Seq::empty(),
    }
}

/// A piece sets the id and the kind, and adds to the name and the arguments.
pub open spec fn with_piece(a: AccView, p: PieceView) -> AccView {
    AccView {
        index: a.index,
        id: match p.id {
            Some(t) => t,
            None => a.id,
        },
        kind: match p.kind {
            Some(t) => t,
            None => a.kind,
        },
        name: a.name + wire::or_empty(p.name),
        arguments: a.arguments + wire::or_empty(p.arguments),
    }
}

/// The calls with a piece added to the one at its index, in order of index.
pub open spec fn add_piece(calls: Seq<AccView>, p: PieceView) -> Seq<AccView>
    decreases calls.len(),
{
    if calls.len() == 0 {
        seq![with_piece(blank_acc(p.index), p)]
    } else if calls.last().index == p.index {
        calls.drop_last().push(with_piece(calls.last(), p))
    } else if calls.last().index < p.index {
        calls.push(with_piece(blank_acc(p.index), p))
    } else {
        add_piece(calls.drop_last(), p).push(calls.last())
    }
}

/// The calls with all pieces of a list added.
pub open spec fn add_pieces(calls: Seq<AccView>, ps: Seq<PieceView>) -> Seq<AccView>
    decreases ps.len(),
{
    if ps.len() == 0 {
        calls
    } else {
        add_piece(add_pieces(calls, ps.drop_last()), ps.last())
    }
}

/// Whether the calls stand in order of index, each index once.
pub open spec fn in_order(calls: Seq<AccView>) -> bool {
    forall|i: int, j: int|
        0 <= i < j < calls.len() ==> (#[trigger] calls[i]).index < (#[trigger] calls[j]).index
}

/// The call at `index`, blank where there is none.
pub open spec fn acc_at(calls: Seq<AccView>, index: usize) -> AccView
    decreases calls.len(),
{
    if calls.len() == 0 {
        blank_acc(index)
    } else if calls.last().index == index {
        calls.last()
    } else {
        acc_at(calls.drop_last(), index)
    }
}

proof fn lemma_add_piece(calls: Seq<AccView>, p: PieceView)
    requires
        in_order(calls),
    ensures
        in_order(add_piece(calls, p)),
        add_piece(calls, p).len() > 0,
        add_piece(calls, p).last().index == (if calls.len() == 0 || calls.last().index <= p.index {
            p.index
        } else {
            calls.last().index
        }),
    decreases calls.len(),
{
    if calls.len() > 0 {
        let out = add_piece(calls, p);
        if calls.last().index > p.index {
            let front = calls.drop_last();
            assert forall|i: int, j: int| 0 <= i < j < front.len() implies (
            #[trigger] front[i]).index < (#[trigger] front[j]).index by {
                assert(front[i] == calls[i] && front[j] == calls[j]);
            }
            lemma_add_piece(front, p);
            if front.len() > 0 {
                assert(front.last() == calls[calls.len() - 2]);
            }
            let mid = add_piece(front, p);
            assert(mid.last().index < calls.last().index);
            assert forall|i: int, j: int| 0 <= i < j < out.len() implies (#[trigger] out[i]).index
                < (#[trigger] out[j]).index by {
                if j == out.len() - 1 {
                    assert(out[i] == mid[i]);
                    if i < mid.len() - 1 {
                        assert(mid[i].index < mid[mid.len() - 1].index);
                    }
                } else {
                    assert(out[i] == mid[i] && out[j] == mid[j]);
                }
            }
        } else {
            assert forall|i: int, j: int| 0 <= i < j < out.len() implies (#[trigger] out[i]).index
                < (#[trigger] out[j]).index by {
                if j < calls.len() && i < calls.len() {
                    assert(calls[i].index < calls[j].index);
                }
                if j == calls.len() && i < calls.len() - 1 {
                    assert(calls[i].index < calls[calls.len() - 1].index);
                }
            }
        }
    }
}

/// Pieces may come in any order of index: the calls stay in order of index with
/// no index twice.
pub proof fn law_calls_in_order(calls: Seq<AccView>, ps: Seq<PieceView>)
    requires
        in_order(calls),
    ensures
        in_order(add_pieces(calls, ps)),
    decreases ps.len(),
{
    if ps.len() > 0 {
        law_calls_in_order(calls, ps.drop_last());
        lemma_add_piece(add_pieces(calls, ps.drop_last()), ps.last());
    }
}

/// A piece changes the call at its own index and no other.
pub proof fn law_piece_changes_one_call(calls: Seq<AccView>, p: PieceView, index: usize)
    requires
        in_order(calls),
    ensures
        acc_at(add_piece(calls, p), index) == (if index == p.index {
            with_piece(acc_at(calls, index), p)
        } else {
            acc_at(calls, index)
        }),
    decreases calls.len(),
{
    let out = add_piece(calls, p);
    if calls.len() == 0 {
        assert(out.drop_last() =~= Seq::empty());
        assert(acc_at(out.drop_last(), index) == blank_acc(index));
        assert(acc_at(calls, index) == blank_acc(index));
    } else {
        let front = calls.drop_last();
        assert forall|i: int, j: int| 0 <= i < j < front.len() implies (
        #[trigger] front[i]).index < (#[trigger] front[j]).index by {
            assert(front[i] == calls[i] && front[j] == calls[j]);
        }
        if calls.last().index == p.index {
            assert(out.drop_last() =~= front);
        } else if calls.last().index < p.index {
            assert(out.drop_last() =~= calls);
            if index == p.index {
                lemma_acc_absent(calls, index);
            }
        } else {
            assert(out.drop_last() =~= add_piece(front, p));
            law_piece_changes_one_call(front, p, index);
        }
    }
}

proof fn lemma_acc_absent(calls: Seq<AccView>, index: usize)
    requires
        in_order(calls),
        calls.len() == 0 || calls.last().index < index,
    ensures
        acc_at(calls, index) == blank_acc(index),
    decreases calls.len(),
{
    if calls.len() > 0 {
        let front = calls.drop_last();
        assert forall|i: int, j: int| 0 <= i < j < front.len() implies (
        #[trigger] front[i]).index < (#[trigger] front[j]).index by {
            assert(front[i] == calls[i] && front[j] == calls[j]);
        }
        if front.len() > 0 {
            assert(front.last() == calls[calls.len() - 2]);
            assert(calls[calls.len() - 2].index < calls[calls.len() - 1].index);
        }
        lemma_acc_absent(front, index);
    }
}

/// What a streamed completion has brought so far.
#[verifier::ext_equal]
pub struct CompletionView {
    pub content: Seq<char>,
    pub reasoning: Seq<char>,
    pub calls: Seq<AccView>,
    pub finish_reason: Seq<char>,
    pub usage: Option<Usage>,
}

/// The delta that a choice gives out: nothing where it brings no text.
pub open spec fn choice_delta(c: StreamChoice) -> Seq<DeltaView> {
    let text = json::opt_text(c.delta.content);
    let reasoning = first_some(json::opt_text(c.delta.reasoning_content), json::opt_text(c.delta.reasoning));
    if text is Some || reasoning is Some {
        seq![DeltaView { content: text, reasoning_content: reasoning }]
    } else {
        Seq::empty()
    }
}

/// What one chunk does: its usage replaces an earlier one, and its first choice
/// adds text, reasoning and pieces of tool calls.
pub open spec fn after_chunk(st: CompletionView, chunk: StreamChunk) -> CompletionView {
    let usage = match chunk.usage {
        Some(u) => Some(u),
        None => st.usage,
    };
    if chunk.choices@.len() == 0 {
        CompletionView { usage, ..st }
    } else {
        let c = chunk.choices@[0];
        CompletionView {
            content: st.content + wire::or_empty(json::opt_text(c.delta.content)),
            reasoning: st.reasoning + wire::or_empty(
                first_some(json::opt_text(c.delta.reasoning_content), json::opt_text(c.delta.reasoning)),
            ),
            calls: match c.delta.tool_calls {
                Some(v) => add_pieces(st.calls, text::views(v@)),
                None => st.calls,
            },
            finish_reason: match kept_text(json::opt_text(c.finish_reason)) {
                Some(t) => t,
                None => st.finish_reason,
            },
            usage,
        }
    }
}

/// The call that its pieces make.
pub open spec fn finished_call(a: AccView) -> ToolCallView {
    ToolCallView {
        id: a.id,
        kind: if a.kind.len() == 0 {
            "function"@
        } else {
            a.kind
        },
        name: a.name,
        arguments: a.arguments,
        extra_content: None,
    }
}

/// The reply that a finished stream makes.
pub open spec fn stream_reply(st: CompletionView) -> ResponseView {
    let (i, o, k) = usage_counts(st.usage);
    ResponseView {
        content: types::non_empty(st.content),
        reasoning_content: types::non_empty(st.reasoning),
        tool_calls: st.calls.map_values(|a: AccView| finished_call(a)),
        finish_reason: st.finish_reason,
        input_tokens: i,
        output_tokens: o,
        cached_input_tokens: k,
        provider_extra: None,
    }
}

/// The payloads of the `data:` lines up to the `[DONE]` mark, and whether the
/// mark was reached.
pub open spec fn payloads(lines: Seq<Seq<char>>) -> (Seq<Seq<char>>, bool)
    decreases lines.len(),
{
    if lines.len() == 0 {
        (Seq::empty(), false)
    } else {
        let (front, done) = payloads(lines.drop_last());
        match sse::data_of(lines.last()) {
            Some(d) => if done {
                (front, true)
            } else if d == "[DONE]"@ {
                (front, true)
            } else {
                (front.push(d), false)
            },
            None => (front, done),
        }
    }
}

/// Reads a streamed completion.
pub struct OpenAiStream {
    pub lines: LineBuffer,
    /// Whether the end mark was seen; nothing after it counts.
    pub done: bool,
    pub content: String,
    pub reasoning: String,
    pub calls: Vec<ToolCallAcc>,
    pub finish_reason: String,
    pub usage: Option<Usage>,
}

impl View for OpenAiStream {
    type V = CompletionView;

    open spec fn view(&self) -> CompletionView {
        CompletionView {
            content: self.content@,
            reasoning: self.reasoning@,
            calls: text::views(self.calls@),
            finish_reason: self.finish_reason@,
            usage: self.usage,
        }
    }
}

fn opt_push(out: &mut String, t: &Option<String>)
    ensures
        final(out)@ == old(out)@ + wire::or_empty(json::opt_text(*t)),
{
    match t {
        Some(s) => out.push_str(s.as_str()),
        None => {
            assert(out@ + Seq::<char>::empty() =~= out@);
        },
    }
}

fn merge_piece(a: ToolCallAcc, p: &ToolCallDelta) -> (r: ToolCallAcc)
    ensures
        r@ == with_piece(a@, p@),
{
    let mut out = a;
    if let Some(t) = &p.id {
        out.id = t.clone();
    }
    if let Some(t) = &p.kind {
        out.kind = t.clone();
    }
    let none: Option<String> = None;
    let (name, arguments) = match &p.function {
        Some(f) => (&f.name, &f.arguments),
        None => (&none, &none),
    };
    let mut n = out.name;
    let mut g = out.arguments;
    opt_push(&mut n, name);
    opt_push(&mut g, arguments);
    out.name = n;
    out.arguments = g;
    out
}

fn new_acc(index: usize) -> (r: ToolCallAcc)
    ensures
        r@ == blank_acc(index),
{
    ToolCallAcc {
        index,
        id: String::new(),
        kind: String::new(),
        name: String::new(),
        arguments: String::new(),
    }
}

fn put_piece(calls: &mut Vec<ToolCallAcc>, p: &ToolCallDelta)
    ensures
        text::views(final(calls)@) == add_piece(text::views(old(calls)@), p@),
    decreases old(calls)@.len(),
{
    let n: usize = calls.len();
    let ghost before = calls@;
    if n == 0 {
        calls.push(merge_piece(new_acc(p.index), p));
        assert(text::views(calls@) =~= seq![with_piece(blank_acc(p.index), p@)]);
    } else {
        let last = calls.pop().unwrap();
        assert(text::views(calls@) =~= text::views(before).drop_last());
        assert(text::views(before).last() == last@);
        if last.index == p.index {
            let ghost front = text::views(calls@);
            calls.push(merge_piece(last, p));
            assert(text::views(calls@) =~= front.push(with_piece(last@, p@)));
        } else if last.index < p.index {
            calls.push(last);
            let a = merge_piece(new_acc(p.index), p);
            calls.push(a);
            assert(text::views(calls@) =~= text::views(before).push(a@));
        } else {
            put_piece(calls, p);
            let ghost front = text::views(calls@);
            calls.push(last);
            assert(text::views(calls@) =~= front.push(last@));
        }
    }
}

impl OpenAiStream {
    pub fn new() -> (r: OpenAiStream)
        ensures
            !r.done,
            r.lines.pending@ == Seq::<char>::empty(),
            r@ == (CompletionView {
                content: Seq::empty(),
                reasoning: Seq::empty(),
                calls: Seq::empty(),
                finish_reason: "stop"@,
                usage: None,
            }),
    {
        let r = OpenAiStream {
            lines: LineBuffer::new(),
            done: false,
            content: String::new(),
            reasoning: String::new(),
            calls: Vec::new(),
            finish_reason: "stop".to_owned(),
            usage: None,
        };
        assert(r@.calls =~= Seq::empty());
        r
    }

    /// Reads a piece of the stream: the payloads that it finishes, up to the end
    /// mark. After the end mark there are none.
    pub fn feed(&mut self, bytes: &Vec<u8>) -> (r: Vec<String>)
        ensures
            final(self)@ == old(self)@,
            final(self).lines.pending@ == sse::unfinished(
                old(self).lines.pending@ + sse::lossy_text(bytes@),
            ),
            old(self).done ==> r@.len() == 0 && final(self).done,
            !old(self).done ==> (text::views(r@), final(self).done) == payloads(
                sse::finished(old(self).lines.pending@ + sse::lossy_text(bytes@)),
            ),
    {
        let piece = lossy_string(bytes);
        self.feed_text(piece.as_str())
    }

    /// Reads a piece of the stream's text: the payloads that it finishes, up to the end
    /// mark. After the end mark there are none.
    pub fn feed_text(&mut self, piece: &str) -> (r: Vec<String>)
        ensures
            final(self)@ == old(self)@,
            final(self).lines.pending@ == sse::unfinished(
                old(self).lines.pending@ + piece@,
            ),
            old(self).done ==> r@.len() == 0 && final(self).done,
            !old(self).done ==> (text::views(r@), final(self).done) == payloads(
                sse::finished(old(self).lines.pending@ + piece@),
            ),
    {
        let lines = self.lines.feed(piece);
        let ghost ls = text::views(lines@);
        let mut out: Vec<String> = Vec::new();
        if self.done {
            return out;
        }
        let mut done = false;
        let mut i: usize = 0;
        assert(text::views(out@) =~= Seq::empty());
        while i < lines.len()
            invariant
                i <= lines@.len(),
                ls == text::views(lines@),
                (text::views(out@), done) == payloads(ls.take(i as int)),
            decreases lines@.len() - i,
        {
            proof {
                assert(ls.take(i + 1).drop_last() =~= ls.take(i as int));
            }
            match sse_data(lines[i].as_str()) {
                Some(d) => {
                    if !done {
                        if same(d.as_str(), "[DONE]") {
                            done = true;
                        } else {
                            let ghost before = text::views(out@);
                            out.push(d);
                            assert(text::views(out@) =~= before.push(d@));
                        }
                    }
                },
                None => {},
            }
            i += 1;
        }
        assert(ls.take(i as int) =~= ls);
        self.done = done;
        out
    }

    /// Takes in one chunk and gives out the delta that it brings.
    pub fn chunk(&mut self, chunk: &StreamChunk) -> (r: Option<StreamDelta>)
        ensures
            final(self)@ == after_chunk(old(self)@, *chunk),
            final(self).lines == old(self).lines,
            final(self).done == old(self).done,
            match r {
                Some(d) => chunk.choices@.len() > 0 && choice_delta(chunk.choices@[0]) == seq![d@],
                None => chunk.choices@.len() == 0 || choice_delta(chunk.choices@[0]).len() == 0,
            },
    {
        if let Some(u) = chunk.usage {
            self.usage = Some(u);
        }
        if chunk.choices.len() == 0 {
            return None;
        }
        let choice = &chunk.choices[0];
        if let Some(reason) = &choice.finish_reason {
            if !reason.as_str().is_empty() {
                self.finish_reason = reason.clone();
            }
        }
        let reasoning = match &choice.delta.reasoning_content {
            Some(t) => Some(t.clone()),
            None => copy_opt_text(&choice.delta.reasoning),
        };
        opt_push(&mut self.content, &choice.delta.content);
        opt_push(&mut self.reasoning, &reasoning);
        if let Some(pieces) = &choice.delta.tool_calls {
            let ghost ps = text::views(pieces@);
            let ghost before = *self;
            let mut i: usize = 0;
            while i < pieces.len()
                invariant
                    i <= pieces@.len(),
                    ps == text::views(pieces@),
                    self.content == before.content,
                    self.reasoning == before.reasoning,
                    self.finish_reason == before.finish_reason,
                    self.usage == before.usage,
                    self.lines == before.lines,
                    self.done == before.done,
                    text::views(self.calls@) == add_pieces(text::views(before.calls@), ps.take(i as int)),
                decreases pieces@.len() - i,
            {
                proof {
                    assert(ps.take(i + 1).drop_last() =~= ps.take(i as int));
                }
                put_piece(&mut self.calls, &pieces[i]);
                i += 1;
            }
            assert(ps.take(i as int) =~= ps);
        }
        let content = copy_opt_text(&choice.delta.content);
        if content.is_some() || reasoning.is_some() {
            Some(StreamDelta { content, reasoning_content: reasoning })
        } else {
            None
        }
    }

    /// The reply that the stream made.
    pub fn finish(self) -> (r: LlmResponse)
        ensures
            r@ == stream_reply(self@),
    {
        let mut tool_calls: Vec<ToolCall> = Vec::new();
        let ghost all = self@.calls.map_values(|a: AccView| finished_call(a));
        let mut i: usize = 0;
        assert(text::views(tool_calls@) =~= all.take(0));
        while i < self.calls.len()
            invariant
                i <= self.calls@.len(),
                all == self@.calls.map_values(|a: AccView| finished_call(a)),
                text::views(tool_calls@) == all.take(i as int),
            decreases self.calls@.len() - i,
        {
            let a = &self.calls[i];
            let kind = if a.kind.as_str().is_empty() {
                "function".to_owned()
            } else {
                a.kind.clone()
            };
            let call = ToolCall {
                id: a.id.clone(),
                kind,
                function: FunctionCall { name: a.name.clone(), arguments: a.arguments.clone() },
                extra_content: None,
            };
            let ghost before = text::views(tool_calls@);
            tool_calls.push(call);
            proof {
                seqs::lemma_take_push(all, i as int);
                assert(text::views(tool_calls@) =~= before.push(call@));
            }
            i += 1;
        }
        assert(all.take(i as int) =~= all);
        let (input, output, cached) = counts_of(self.usage);
        LlmResponse {
            content: non_empty_text(self.content),
            reasoning_content: non_empty_text(self.reasoning),
            tool_calls,
            finish_reason: self.finish_reason,
            input_tokens: input,
            output_tokens: output,
            cached_input_tokens: cached,
            provider_extra: None,
        }
    }
}

} // verus!
