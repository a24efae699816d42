//! The messages that an MCP client sends, and what it makes of the replies.
//!
//! The protocol is JSON-RPC over an HTTP endpoint or over the pipes of a local
//! process. On a pipe the server's own requests and notifications stand between the
//! answers to the client's.
use crate::text;
use crate::seqs;
use crate::llm::wire;
use crate::llm::sse;
use crate::json;
use crate::event::{Event, EventView};
use crate::json::{Json, JsonMap, JsonView};
use crate::kinds;
use crate::llm::sse::sse_data;
use crate::llm::types::{ToolDefView, ToolDefinition};
use crate::llm::wire::copy_or_object;
use crate::mcp::error::{McpError, McpErrorView};
use crate::text::{
    chars_of, contains_str, join_strs, lines_of, same, string_of, trim_end_char_str, trim_str,
};
use vstd::prelude::*;

verus! {

/// Latest protocol revision that this client speaks. The server may negotiate down
/// during `initialize`.
pub const PROTOCOL_VERSION: &'static str = "2025-06-18";

// ── Requests ───────────────────────────────────────────────────────────────

/// An object with no fields.
pub open spec fn no_fields() -> Map<Seq<char>, JsonView> {
    Map::empty()
}

/// A request.
pub open spec fn request_json(id: u64, method: Seq<char>, params: JsonView) -> JsonView {
    JsonView::Object(
        no_fields().insert("jsonrpc"@, JsonView::Text("2.0"@)).insert(
            "id"@,
            JsonView::Int(id as int),
        ).insert("method"@, JsonView::Text(method)).insert("params"@, params),
    )
}

/// A notification, to which there is no answer.
pub open spec fn notification_json(method: Seq<char>, params: JsonView) -> JsonView {
    JsonView::Object(
        no_fields().insert("jsonrpc"@, JsonView::Text("2.0"@)).insert(
            "method"@,
            JsonView::Text(method),
        ).insert("params"@, params),
    )
}

/// The request of a call.
pub fn request(id: u64, method: &str, params: Json) -> (r: Json)
    ensures
        r@ == request_json(id, method@, params@),
{
    Json::Object(
        JsonMap::new().with("jsonrpc", Json::text("2.0")).with("id", Json::Unsigned(id)).with(
            "method",
            Json::text(method),
        ).with("params", params),
    )
}

/// A notification to the server.
pub fn notification(method: &str, params: Json) -> (r: Json)
    ensures
        r@ == notification_json(method@, params@),
{
    Json::Object(
        JsonMap::new().with("jsonrpc", Json::text("2.0")).with("method", Json::text(method)).with(
            "params",
            params,
        ),
    )
}

/// The parameters of the handshake. A client with a bus can pass questions on to
/// the user, and says so.
pub open spec fn initialize_json(has_bus: bool, version: Seq<char>) -> JsonView {
    JsonView::Object(
        no_fields().insert("protocolVersion"@, JsonView::Text(PROTOCOL_VERSION@)).insert(
            "capabilities"@,
            JsonView::Object(
                if has_bus {
                    no_fields().insert("elicitation"@, JsonView::Object(no_fields()))
                } else {
                    no_fields()
                },
            ),
        ).insert(
            "clientInfo"@,
            JsonView::Object(
                no_fields().insert("name"@, JsonView::Text("eventage-mcp"@)).insert(
                    "version"@,
                    JsonView::Text(version),
                ),
            ),
        ),
    )
}

/// The parameters of the handshake.
pub fn initialize_params(has_bus: bool, version: &str) -> (r: Json)
    ensures
        r@ == initialize_json(has_bus, version@),
{
    let capabilities = if has_bus {
        JsonMap::new().with("elicitation", Json::Object(JsonMap::new()))
    } else {
        JsonMap::new()
    };
    Json::Object(
        JsonMap::new().with("protocolVersion", Json::text(PROTOCOL_VERSION)).with(
            "capabilities",
            Json::Object(capabilities),
        ).with(
            "clientInfo",
            Json::Object(
                JsonMap::new().with("name", Json::text("eventage-mcp")).with(
                    "version",
                    Json::text(version),
                ),
            ),
        ),
    )
}

/// The revision that the server answered the handshake with; this client's own
/// where it names none.
pub fn negotiated_version(init: &Json) -> (r: String)
    ensures
        r@ == (match init@.text_at("protocolVersion"@) {
            Some(v) => v,
            None => PROTOCOL_VERSION@,
        }),
{
    match init.text_at("protocolVersion") {
        Some(v) => v.to_owned(),
        None => PROTOCOL_VERSION.to_owned(),
    }
}

/// The parameters of a tool call.
pub fn call_params(name: &str, args: Json) -> (r: Json)
    ensures
        r@ == JsonView::Object(
            no_fields().insert("name"@, JsonView::Text(name@)).insert("arguments"@, args@),
        ),
{
    Json::Object(JsonMap::new().with("name", Json::text(name)).with("arguments", args))
}

// ── Answers ────────────────────────────────────────────────────────────────

/// The error of an answer.
pub struct RpcError {
    pub code: i64,
    pub message: String,
}

/// An answer.
pub struct RpcResponse {
    pub id: Option<Json>,
    pub result: Option<Json>,
    pub error: Option<RpcError>,
}

/// What an answer gives: its result, unless it carries an error.
pub fn rpc_result(response: RpcResponse) -> (r: Result<Json, McpError>)
    ensures
        match (response.error, response.result) {
            (Some(e), _) => r matches Err(f) && f@ == (McpErrorView::Protocol {
                code: e.code,
                message: e.message@,
            }),
            (None, Some(j)) => r == Ok::<Json, McpError>(j),
            (None, None) => r matches Err(f) && f@ == McpErrorView::NoResult,
        },
{
    if let Some(e) = response.error {
        return Err(McpError::Protocol { code: e.code, message: e.message });
    }
    match response.result {
        Some(j) => Ok(j),
        None => Err(McpError::NoResult),
    }
}

/// Whether a response is the answer to a request: it carries a result or an error.
pub open spec fn is_answer(r: RpcResponse) -> bool {
    r.result is Some || r.error is Some
}

/// The first of the responses in an event stream that is an answer.
pub fn first_answer(responses: Vec<RpcResponse>) -> (r: Result<RpcResponse, McpError>)
    ensures
        match r {
            Ok(a) => exists|i: int|
                {
                    &&& 0 <= i < responses@.len()
                    &&& #[trigger] responses@[i] == a
                    &&& is_answer(a)
                    &&& forall|j: int| 0 <= j < i ==> !is_answer(#[trigger] responses@[j])
                },
            Err(e) => (forall|j: int|
                0 <= j < responses@.len() ==> !is_answer(#[trigger] responses@[j])) && e@
                == McpErrorView::Transport("SSE response contained no JSON-RPC result"@),
        },
{
    let ghost all = responses@;
    let total: usize = responses.len();
    let mut rest = responses;
    let mut i: usize = 0;
    while rest.len() > 0
        invariant
            all == responses@,
            total == all.len(),
            i + rest@.len() == all.len(),
            rest@ == all.skip(i as int),
            forall|j: int| 0 <= j < i ==> !is_answer(#[trigger] all[j]),
        decreases rest@.len(),
    {
        let next = rest.remove(0);
        assert(next == all[i as int]);
        if next.result.is_some() || next.error.is_some() {
            return Ok(next);
        }
        assert(rest@ =~= all.skip(i + 1));
        i += 1;
    }
    Err(McpError::Transport("SSE response contained no JSON-RPC result".to_owned()))
}

/// Whether a response on a pipe is the answer to the request with `id`.
pub fn answers(response: &RpcResponse, id: u64) -> (r: bool)
    ensures
        r == (is_answer(*response) && match response.id {
            Some(j) => j@.as_u64() == Some(id),
            None => false,
        }),
{
    let ours = match &response.id {
        Some(j) => match j.as_u64() {
            Some(n) => n == id,
            None => false,
        },
        None => false,
    };
    ours && (response.result.is_some() || response.error.is_some())
}

/// What the body of an HTTP reply holds.
pub enum HttpBody {
    /// The payloads of an event stream.
    Stream(Vec<String>),
    /// One document.
    Document(String),
}

/// The first 500 characters of a body.
pub open spec fn body_start(body: Seq<char>) -> Seq<char> {
    if body.len() <= 500 {
        body
    } else {
        body.take(500)
    }
}

/// What an HTTP reply holds. A reply outside the 2xx range is an error that shows
/// the status and the start of the body.
pub fn http_body(code: u16, status: &str, content_type: &str, body: String) -> (r: Result<
    HttpBody,
    McpError,
>)
    ensures
        match r {
            Err(e) => !(200 <= code < 300) && e@ == McpErrorView::Transport(
                "HTTP "@ + status@ + ": "@ + body_start(body@),
            ),
            Ok(HttpBody::Stream(list)) => 200 <= code < 300 && text::contains(
                content_type@,
                "text/event-stream"@,
            ) && text::views(list@) == data_events(body@),
            Ok(HttpBody::Document(b)) => 200 <= code < 300 && !text::contains(
                content_type@,
                "text/event-stream"@,
            ) && b == body,
        },
{
    if code < 200 || code >= 300 {
        let v = chars_of(body.as_str());
        let n: usize = if v.len() <= 500 {
            v.len()
        } else {
            500
        };
        let start = string_of(&v, 0, n);
        assert(start@ =~= body_start(body@));
        let mut out = "HTTP ".to_owned();
        out.push_str(status);
        out.push_str(": ");
        out.push_str(start.as_str());
        return Err(McpError::Transport(out));
    }
    if contains_str(content_type, "text/event-stream") {
        Ok(HttpBody::Stream(sse_data_lines(body.as_str())))
    } else {
        Ok(HttpBody::Document(body))
    }
}

/// The payloads of finished events, and the data lines of the one that is open.
#[verifier::ext_equal]
pub struct SseView {
    pub events: Seq<Seq<char>>,
    pub current: Seq<Seq<char>>,
}

/// What one line adds.
pub open spec fn after_sse_line(st: SseView, line: Seq<char>) -> SseView {
    let l = text::trim_end_char(line, '\r');
    match sse::data_of(l) {
        Some(d) => SseView { current: st.current.push(d), ..st },
        None => if l.len() == 0 && st.current.len() > 0 {
            SseView { events: st.events.push(text::join(st.current, "\n"@)), current: Seq::empty() }
        } else {
            st
        },
    }
}

/// What lines add up to.
pub open spec fn after_sse_lines(ls: Seq<Seq<char>>) -> SseView
    decreases ls.len(),
{
    if ls.len() == 0 {
        SseView { events: Seq::empty(), current: Seq::empty() }
    } else {
        after_sse_line(after_sse_lines(ls.drop_last()), ls.last())
    }
}

/// The payloads of an event stream: the data lines of one event are joined, and the
/// last event may lack the blank line after it.
pub open spec fn data_events(body: Seq<char>) -> Seq<Seq<char>> {
    let st = after_sse_lines(text::lines(body));
    if st.current.len() > 0 {
        st.events.push(text::join(st.current, "\n"@))
    } else {
        st.events
    }
}

/// Extract the `data:` payloads from an event stream, joining continuation lines
/// within one event.
pub fn sse_data_lines(body: &str) -> (r: Vec<String>)
    ensures
        text::views(r@) == data_events(body@),
{
    let list = lines_of(body);
    let ghost all = text::views(list@);
    let mut events: Vec<String> = Vec::new();
    let mut current: Vec<String> = Vec::new();
    let mut i: usize = 0;
    proof {
        assert(text::views(events@) =~= after_sse_lines(all.take(0)).events);
        assert(text::views(current@) =~= after_sse_lines(all.take(0)).current);
    }
    while i < list.len()
        invariant
            i <= list@.len(),
            all == text::views(list@),
            text::views(events@) == after_sse_lines(all.take(i as int)).events,
            text::views(current@) == after_sse_lines(all.take(i as int)).current,
        decreases list@.len() - i,
    {
        proof {
            assert(all.take(i + 1).drop_last() =~= all.take(i as int));
            assert(all.take(i + 1).last() == list@[i as int]@);
        }
        let line = trim_end_char_str(list[i].as_str(), '\r');
        match sse_data(line.as_str()) {
            Some(d) => {
                let ghost before = text::views(current@);
                current.push(d);
                assert(text::views(current@) =~= before.push(d@));
            },
            None => {
                if line.as_str().is_empty() && current.len() > 0 {
                    let event = join_strs(&current, "\n");
                    let ghost before = text::views(events@);
                    events.push(event);
                    current = Vec::new();
                    proof {
                        assert(text::views(events@) =~= before.push(event@));
                        assert(text::views(current@) =~= Seq::empty());
                    }
                }
            },
        }
        i += 1;
    }
    assert(all.take(i as int) =~= all);
    if current.len() > 0 {
        let event = join_strs(&current, "\n");
        let ghost before = text::views(events@);
        events.push(event);
        assert(text::views(events@) =~= before.push(event@));
    }
    events
}

// ── Tools ──────────────────────────────────────────────────────────────────

/// A tool as a server lists it.
pub struct McpToolDef {
    pub name: String,
    pub description: Option<String>,
    pub input_schema: Json,
}

/// The definition of a tool that a server lists.
pub open spec fn definition_of(t: McpToolDef) -> ToolDefView {
    ToolDefView {
        kind: "function"@,
        name: t.name@,
        description: match t.description {
            Some(d) => d@,
            None => Seq::empty(),
        },
        parameters: t.input_schema@,
    }
}

/// The definitions of the tools that a server lists.
pub fn tool_definitions(tools: &Vec<McpToolDef>) -> (r: Vec<ToolDefinition>)
    ensures
        text::views(r@) == tools@.map_values(|t: McpToolDef| definition_of(t)),
{
    let ghost all = tools@.map_values(|t: McpToolDef| definition_of(t));
    let mut out: Vec<ToolDefinition> = Vec::new();
    let mut i: usize = 0;
    assert(text::views(out@) =~= all.take(0));
    while i < tools.len()
        invariant
            i <= tools@.len(),
            all == tools@.map_values(|t: McpToolDef| definition_of(t)),
            text::views(out@) == all.take(i as int),
        decreases tools@.len() - i,
    {
        let t = &tools[i];
        let def = match &t.description {
            Some(d) => ToolDefinition::function(
                t.name.as_str(),
                d.as_str(),
                t.input_schema.clone(),
            ),
            None => {
                let empty = String::new();
                assert(empty@ =~= Seq::empty());
                ToolDefinition::function(t.name.as_str(), empty.as_str(), t.input_schema.clone())
            },
        };
        let ghost before = text::views(out@);
        out.push(def);
        proof {
            seqs::lemma_take_push(all, i as int);
            assert(text::views(out@) =~= before.push(def@));
            assert(all[i as int] == definition_of(tools@[i as int]));
        }
        i += 1;
    }
    assert(all.take(i as int) =~= all);
    out
}

/// What a tool call came to.
pub struct ToolsCallResult {
    pub content: Vec<Json>,
    /// Typed result, preferred over the text of `content`.
    pub structured_content: Option<Json>,
    pub is_error: bool,
}

/// The text of a content item, if it is one of text.
pub open spec fn item_text(item: JsonView) -> Option<Seq<char>> {
    if item.text_at("type"@) == Some("text"@) {
        item.text_at("text"@)
    } else {
        None
    }
}

/// The texts among content items.
pub open spec fn item_texts(items: Seq<JsonView>) -> Seq<Seq<char>> {
    seqs::filter_map(items, |item: JsonView| item_text(item))
}

/// What a tool call gives: a failed call its texts as an error; else the typed
/// result; else the joined texts where all items are texts; else the items as they
/// are, so that nothing is dropped.
pub open spec fn call_outcome(
    items: Seq<JsonView>,
    structured: Option<JsonView>,
    is_error: bool,
) -> Result<JsonView, McpErrorView> {
    let texts = item_texts(items);
    if is_error {
        Err(McpErrorView::Tool(text::join(texts, "\n"@)))
    } else if structured is Some {
        Ok(structured->0)
    } else if texts.len() == items.len() && texts.len() > 0 {
        Ok(JsonView::Text(text::join(texts, "\n"@)))
    } else if items.len() == 0 {
        Err(McpErrorView::NoResult)
    } else {
        Ok(JsonView::Array(items))
    }
}

fn texts_of(items: &Vec<Json>) -> (r: Vec<String>)
    ensures
        text::views(r@) == item_texts(json::items_view(items@)),
{
    let ghost all = json::items_view(items@);
    let ghost f = |item: JsonView| item_text(item);
    let mut out: Vec<String> = Vec::new();
    let mut i: usize = 0;
    proof {
        crate::json::lemma_items_view(items@);
        assert(text::views(out@) =~= seqs::filter_map(all.take(0), f));
    }
    while i < items.len()
        invariant
            i <= items@.len(),
            all == json::items_view(items@),
            all.len() == items@.len(),
            forall|k: int| 0 <= k < items@.len() ==> #[trigger] all[k] == items@[k]@,
            f == (|item: JsonView| item_text(item)),
            text::views(out@) == seqs::filter_map(all.take(i as int), f),
        decreases items@.len() - i,
    {
        proof {
            seqs::lemma_take_push(all, i as int);
            seqs::lemma_filter_map_push(all.take(i as int), f, all[i as int]);
            assert(all[i as int] == items@[i as int]@);
        }
        let is_text = match items[i].text_at("type") {
            Some(k) => same(k, "text"),
            None => false,
        };
        if is_text {
            if let Some(t) = items[i].text_at("text") {
                let ghost before = text::views(out@);
                let copy = t.to_owned();
                out.push(copy);
                assert(text::views(out@) =~= before.push(copy@));
            }
        }
        i += 1;
    }
    assert(all.take(i as int) =~= all);
    out
}

/// What a tool call gives.
pub fn call_result(call: ToolsCallResult) -> (r: Result<Json, McpError>)
    ensures
        match (r, call_outcome(
            json::items_view(call.content@),
            json::opt_json(call.structured_content),
            call.is_error,
        )) {
            (Ok(j), Ok(v)) => j@ == v,
            (Err(e), Err(f)) => e@ == f,
            _ => false,
        },
{
    let texts = texts_of(&call.content);
    proof {
        crate::json::lemma_items_view(call.content@);
    }
    if call.is_error {
        return Err(McpError::Tool(join_strs(&texts, "\n")));
    }
    if let Some(j) = call.structured_content {
        return Ok(j);
    }
    if texts.len() == call.content.len() && texts.len() > 0 {
        return Ok(Json::Text(join_strs(&texts, "\n")));
    }
    if call.content.len() == 0 {
        return Err(McpError::NoResult);
    }
    Ok(Json::Array(call.content))
}

/// A call that did not fail and returned anything loses nothing of it: without a
/// typed result, either all its items are texts and are joined, or the items come
/// out as they are.
pub proof fn law_nothing_is_dropped(items: Seq<JsonView>)
    requires
        items.len() > 0,
    ensures
        match call_outcome(items, None, false) {
            Ok(v) => v == JsonView::Array(items) || (v == JsonView::Text(
                text::join(item_texts(items), "\n"@),
            ) && item_texts(items).len() == items.len()),
            Err(_) => false,
        },
{
}

// ── Traffic that the server starts ─────────────────────────────────────────

/// What a line from a server's pipe is.
pub enum ServerLine {
    /// A blank line.
    Blank,
    /// A request or notification of the server.
    Initiated { method: String, message: Json },
    /// Anything else: the text of a response.
    Response(String),
}

/// Whether a text is a request or notification: a document with a method.
pub open spec fn initiated(document: Result<JsonView, Seq<char>>) -> Option<Seq<char>> {
    match document {
        Ok(v) => v.text_at("method"@),
        Err(_) => None,
    }
}

/// What a line is, given what its trimmed text reads as.
pub fn classify(trimmed: String, document: Result<Json, String>) -> (r: ServerLine)
    ensures
        match r {
            ServerLine::Blank => trimmed@.len() == 0,
            ServerLine::Initiated { method, message } => trimmed@.len() > 0 && document
                == Ok::<Json, String>(message) && message@.text_at("method"@) == Some(method@),
            ServerLine::Response(t) => trimmed@.len() > 0 && t == trimmed && match document {
                Ok(j) => j@.text_at("method"@) is None,
                Err(_) => true,
            },
        },
{
    if trimmed.as_str().is_empty() {
        return ServerLine::Blank;
    }
    if let Ok(message) = document {
        let method: Option<String> = match message.text_at("method") {
            Some(m) => Some(m.to_owned()),
            None => None,
        };
        if let Some(method) = method {
            return ServerLine::Initiated { method, message };
        }
    }
    ServerLine::Response(trimmed)
}

/// What a line from a server's pipe is.
pub fn read_line(line: &str) -> (r: ServerLine)
    ensures
        ({
            let t = text::trim(line@);
            let method = initiated(crate::json::parsed_json(t));
            match r {
                ServerLine::Blank => t.len() == 0,
                ServerLine::Initiated { method: m, message } => t.len() > 0 && method == Some(m@)
                    && crate::json::parsed_json(t) == Ok::<JsonView, Seq<char>>(message@),
                ServerLine::Response(text) => t.len() > 0 && text@ == t && method is None,
            }
        }),
{
    let trimmed = trim_str(line);
    let document = Json::parse(trimmed.as_str());
    classify(trimmed, document)
}

/// What is done about a request or notification of the server.
pub enum ServerMove {
    /// Ask the user, and answer the request with this id, if it has one.
    Elicit(Option<Json>),
    /// Tell that the tools changed, with this payload.
    ToolsChanged(Json),
    /// Send this reply.
    Reply(Json),
    Nothing,
}

/// The reply to a request with a method that the client does not know.
pub open spec fn refusal_json(id: JsonView, method: Seq<char>) -> JsonView {
    JsonView::Object(
        no_fields().insert("jsonrpc"@, JsonView::Text("2.0"@)).insert("id"@, id).insert(
            "error"@,
            JsonView::Object(
                no_fields().insert("code"@, JsonView::Int(-32601)).insert(
                    "message"@,
                    JsonView::Text("method '"@ + method + "' not supported by this client"@),
                ),
            ),
        ),
    )
}

/// What is done about a request or notification. A request that the client does not
/// know is refused, so that the server is not left hanging.
pub fn server_move(method: &str, message: &Json, has_bus: bool, label: &str) -> (r: ServerMove)
    ensures
        ({
            let id = message@.get("id"@);
            if method@ == "elicitation/create"@ {
                r matches ServerMove::Elicit(i) && json::opt_json(i) == id
            } else if method@ == "notifications/tools/list_changed"@ {
                if has_bus {
                    r matches ServerMove::ToolsChanged(p) && p@ == JsonView::Object(
                        no_fields().insert("server"@, JsonView::Text(label@)),
                    )
                } else {
                    r is Nothing
                }
            } else {
                match id {
                    Some(i) => r matches ServerMove::Reply(p) && p@ == refusal_json(i, method@),
                    None => r is Nothing,
                }
            }
        }),
{
    let id: Option<Json> = match message.get("id") {
        Some(j) => Some(j.clone()),
        None => None,
    };
    if same(method, "elicitation/create") {
        return ServerMove::Elicit(id);
    }
    if same(method, "notifications/tools/list_changed") {
        if has_bus {
            return ServerMove::ToolsChanged(
                Json::Object(JsonMap::new().with("server", Json::text(label))),
            );
        }
        return ServerMove::Nothing;
    }
    match id {
        Some(i) => {
            let mut text = "method '".to_owned();
            text.push_str(method);
            text.push_str("' not supported by this client");
            ServerMove::Reply(
                Json::Object(
                    JsonMap::new().with("jsonrpc", Json::text("2.0")).with("id", i).with(
                        "error",
                        Json::Object(
                            JsonMap::new().with("code", Json::Signed(-32601)).with(
                                "message",
                                Json::Text(text),
                            ),
                        ),
                    ),
                ),
            )
        },
        None => ServerMove::Nothing,
    }
}

// ── Elicitation ────────────────────────────────────────────────────────────

/// The field of optional parameters.
pub open spec fn param(params: Option<JsonView>, key: Seq<char>) -> Option<JsonView> {
    match params {
        Some(p) => p.get(key),
        None => None,
    }
}

/// The payload of the event that asks the user.
pub open spec fn elicitation_json(
    request_id: Seq<char>,
    label: Seq<char>,
    params: Option<JsonView>,
) -> JsonView {
    JsonView::Object(
        no_fields().insert("request_id"@, JsonView::Text(request_id)).insert(
            "server"@,
            JsonView::Text(label),
        ).insert(
            "message"@,
            JsonView::Text(
                match param(params, "message"@) {
                    Some(m) => match m.as_str() {
                        Some(t) => t,
                        None => Seq::empty(),
                    },
                    None => Seq::empty(),
                },
            ),
        ).insert("schema"@, wire::or_object(param(params, "requestedSchema"@))),
    )
}

/// The payload of the event that asks the user.
pub fn elicitation_request(request_id: &str, label: &str, params: Option<&Json>) -> (r: Json)
    ensures
        r@ == elicitation_json(request_id@, label@, wire::opt_ref(params)),
{
    let mut message = String::new();
    assert(message@ =~= Seq::empty());
    let mut schema: Option<&Json> = None;
    if let Some(p) = params {
        if let Some(t) = p.text_at("message") {
            message = t.to_owned();
        }
        schema = p.get("requestedSchema");
    }
    Json::Object(
        JsonMap::new().with("request_id", Json::text(request_id)).with(
            "server",
            Json::text(label),
        ).with("message", Json::Text(message)).with("schema", copy_or_object(schema)),
    )
}

/// The result that declines a request.
pub open spec fn declined() -> JsonView {
    JsonView::Object(no_fields().insert("action"@, JsonView::Text("decline"@)))
}

/// The result that an answer of the user gives.
pub open spec fn answered(payload: JsonView) -> JsonView {
    match payload.text_at("action"@) {
        Some(action) => if action == "accept"@ {
            JsonView::Object(
                no_fields().insert("action"@, JsonView::Text("accept"@)).insert(
                    "content"@,
                    wire::or_object(payload.get("content"@)),
                ),
            )
        } else if action == "cancel"@ {
            JsonView::Object(no_fields().insert("action"@, JsonView::Text("cancel"@)))
        } else {
            declined()
        },
        None => declined(),
    }
}

/// Whether an event is the user's answer to a request.
pub open spec fn is_answer_to(e: EventView, request_id: Seq<char>) -> bool {
    e.kind == kinds::MCP_ELICITATION_RESPONSE@ && e.payload.text_at("request_id"@) == Some(
        request_id,
    )
}

/// The result that declines a request: the answer without a bus, on a timeout, and
/// when the bus closes.
pub fn decline() -> (r: Json)
    ensures
        r@ == declined(),
{
    Json::Object(JsonMap::new().with("action", Json::text("decline")))
}

/// The result that an event gives, if it is the user's answer to a request.
pub fn elicited(event: &Event, request_id: &str) -> (r: Option<Json>)
    ensures
        match r {
            Some(j) => is_answer_to(event@, request_id@) && j@ == answered(event@.payload),
            None => !is_answer_to(event@, request_id@),
        },
{
    if !same(event.kind.as_str(), kinds::MCP_ELICITATION_RESPONSE) {
        return None;
    }
    let ours = match event.payload.text_at("request_id") {
        Some(id) => same(id, request_id),
        None => false,
    };
    if !ours {
        return None;
    }
    if let Some(action) = event.payload.text_at("action") {
        if same(action, "accept") {
            return Some(
                Json::Object(
                    JsonMap::new().with("action", Json::text("accept")).with(
                        "content",
                        copy_or_object(event.payload.get("content")),
                    ),
                ),
            );
        }
        if same(action, "cancel") {
            return Some(Json::Object(JsonMap::new().with("action", Json::text("cancel"))));
        }
    }
    Some(decline())
}

/// The reply that carries the result of an elicitation.
pub fn elicitation_reply(id: Json, result: Json) -> (r: Json)
    ensures
        r@ == JsonView::Object(
            no_fields().insert("jsonrpc"@, JsonView::Text("2.0"@)).insert("id"@, id@).insert(
                "result"@,
                result@,
            ),
        ),
{
    Json::Object(
        JsonMap::new().with("jsonrpc", Json::text("2.0")).with("id", id).with("result", result),
    )
}

/// A request is never silently accepted: only an answer that says so accepts it, and
/// declining does not.
pub proof fn law_only_the_user_accepts(payload: JsonView)
    ensures
        declined().text_at("action"@) == Some("decline"@),
        answered(payload).text_at("action"@) == Some("accept"@) <==> payload.text_at("action"@)
            == Some("accept"@),
{
    reveal_strlit("accept");
    reveal_strlit("decline");
    reveal_strlit("cancel");
    reveal_strlit("action");
    reveal_strlit("content");
    assert("action"@.len() == 6 && "content"@.len() == 7);
    assert("accept"@.len() == 6 && "decline"@.len() == 7 && "cancel"@.len() == 6);
    assert("accept"@[0] == 'a' && "cancel"@[0] == 'c');
}

} // verus!
