//! Model requests and replies.
use eventage::json::Json;
use eventage::llm::anthropic;
use eventage::llm::anthropic::AnthropicProvider;
use eventage::llm::anthropic_stream::AnthropicStream;
use eventage::llm::content::{parts_to_text, read_parts, ContentPart};
use eventage::llm::error::{check_status, HttpFailure, LlmError};
use eventage::llm::mock::MockLlmProvider;
use eventage::llm::openai::{
    completion_reply, Choice, ChoiceMessage, CompletionResponse, FunctionDelta, OpenAiProvider,
    OpenAiStream, StreamChoice, StreamChunk, StreamDeltaRaw, ToolCallDelta, Usage,
};
use eventage::llm::qwen::{QwenProvider, QwenStream};
use eventage::llm::rate_limit::RateLimitedProvider;
use eventage::llm::responses;
use eventage::llm::responses::{OpenAiResponsesProvider, ResponsesStream};
use eventage::llm::retry::RetryProvider;
use eventage::llm::sse::{sse_data, LineBuffer};
use eventage::llm::structured::{
    candidates, checked_value, extract_json, prompted_messages, prompted_value, single_delta,
};
use eventage::llm::types::{ChatMessage, FunctionCall, LlmResponse, Role, ToolCall, ToolDefinition};

fn json(text: &str) -> Json {
    Json::parse(text).unwrap()
}

fn call(id: &str, name: &str, arguments: &str) -> ToolCall {
    ToolCall {
        id: id.to_string(),
        kind: "function".to_string(),
        function: FunctionCall { name: name.to_string(), arguments: arguments.to_string() },
        extra_content: None,
    }
}

#[test]
fn accepts_both_spacings() {
    assert_eq!(sse_data("data: {\"a\":1}").as_deref(), Some("{\"a\":1}"));
    assert_eq!(sse_data("data:{\"a\":1}").as_deref(), Some("{\"a\":1}"));
    assert_eq!(sse_data("data:[DONE]").as_deref(), Some("[DONE]"));
    assert_eq!(sse_data("event:response.created"), None);
    assert_eq!(sse_data(":comment"), None);
}

#[test]
fn lines_are_found_however_the_text_is_cut() {
    let mut whole = LineBuffer::new();
    let all = whole.feed("data: a\r\ndata: b\nrest");
    assert_eq!(all, vec!["data: a".to_string(), "data: b".to_string()]);
    let mut cut = LineBuffer::new();
    let mut parts = cut.feed("da");
    parts.extend(cut.feed("ta: a\r"));
    parts.extend(cut.feed("\ndata: b\nre"));
    assert_eq!(parts, all);
}

#[test]
fn converts_tool_loop_with_merged_results() {
    let messages = vec![
        ChatMessage::system("be helpful"),
        ChatMessage::user("run both tools"),
        ChatMessage::assistant_with_tool_calls(
            None,
            vec![call("t1", "a", r#"{"x":1}"#), call("t2", "b", "{}")],
        ),
        ChatMessage::tool_result("t1", "one"),
        ChatMessage::tool_result("t2", "two"),
    ];
    let (system, converted) = anthropic::convert_messages(&messages, false);
    assert_eq!(system.unwrap().as_str(), Some("be helpful"));
    assert_eq!(converted.len(), 3, "user, assistant, merged tool-result user");

    let blocks = converted[1].array_at("content").unwrap();
    assert_eq!(blocks[0].text_at("type"), Some("tool_use"));
    assert_eq!(blocks[0].get("input").unwrap().u64_at("x"), Some(1));

    assert_eq!(converted[2].text_at("role"), Some("user"));
    let blocks = converted[2].array_at("content").unwrap();
    assert_eq!(blocks.len(), 2, "parallel tool results share one user turn");
    assert_eq!(blocks[0].text_at("type"), Some("tool_result"));
    assert_eq!(blocks[1].text_at("tool_use_id"), Some("t2"));
}

#[test]
fn caching_places_breakpoints() {
    let messages = vec![
        ChatMessage::system("sys"),
        ChatMessage::user("hi"),
        ChatMessage::assistant("hello"),
        ChatMessage::user("again"),
    ];
    let (system, converted) = anthropic::convert_messages(&messages, true);
    let marked = |b: &Json| b.get("cache_control").and_then(|c| c.text_at("type")) == Some("ephemeral");
    assert!(marked(system.unwrap().at(0).unwrap()));
    let last = converted.last().unwrap().array_at("content").unwrap();
    assert!(marked(last.last().unwrap()), "moving breakpoint on the latest turn");
    assert!(converted[0].array_at("content").unwrap()[0].get("cache_control").is_none());
}

#[test]
fn thinking_blocks_replay_first() {
    let mut assistant = ChatMessage::assistant_with_tool_calls(
        Some("visible".to_string()),
        vec![call("t1", "a", "{}")],
    );
    assistant.provider_extra = Some(json(
        r#"{"anthropic_blocks": [{"type": "thinking", "thinking": "hmm", "signature": "sig"}]}"#,
    ));
    let (_, converted) =
        anthropic::convert_messages(&vec![ChatMessage::user("q"), assistant], false);
    let blocks = converted[1].array_at("content").unwrap();
    assert_eq!(blocks[0].text_at("type"), Some("thinking"), "thinking must come first");
    assert_eq!(blocks[0].text_at("signature"), Some("sig"));
    assert_eq!(blocks[1].text_at("type"), Some("text"));
    assert_eq!(blocks[2].text_at("type"), Some("tool_use"));
}

#[test]
fn late_system_messages_become_user_turns() {
    let messages = vec![
        ChatMessage::system("sys"),
        ChatMessage::user("hi"),
        ChatMessage::system("negative context warning"),
    ];
    let (system, converted) = anthropic::convert_messages(&messages, false);
    assert_eq!(system.unwrap().as_str(), Some("sys"));
    assert_eq!(converted.len(), 1);
    let blocks = converted[0].array_at("content").unwrap();
    assert_eq!(blocks.len(), 2);
    assert!(blocks[1].text_at("text").unwrap().starts_with("[system]"));
}

#[test]
fn base64_renders_as_data_url() {
    let openai = ContentPart::image_base64("image/png", "AAAA").to_openai_json();
    assert_eq!(
        openai.get("image_url").unwrap().text_at("url"),
        Some("data:image/png;base64,AAAA")
    );
}

#[test]
fn anthropic_distinguishes_url_and_base64() {
    let url = ContentPart::image_url("https://x/y.png").to_anthropic_json();
    let source = url.get("source").unwrap();
    assert_eq!(source.text_at("type"), Some("url"));
    assert_eq!(source.text_at("url"), Some("https://x/y.png"));

    let b64 = ContentPart::image_base64("image/jpeg", "ZZZ").to_anthropic_json();
    let source = b64.get("source").unwrap();
    assert_eq!(source.text_at("type"), Some("base64"));
    assert_eq!(source.text_at("media_type"), Some("image/jpeg"));
    assert_eq!(source.text_at("data"), Some("ZZZ"));
}

#[test]
fn responses_uses_input_prefixed_types() {
    assert_eq!(ContentPart::text("hi").to_responses_json().text_at("type"), Some("input_text"));
    assert_eq!(ContentPart::image_url("u").to_responses_json().text_at("type"), Some("input_image"));
}

#[test]
fn parts_read_as_their_text() {
    let parts = vec![ContentPart::text("look:"), ContentPart::image_base64("image/png", "QQ")];
    assert_eq!(parts_to_text(&parts), "look:");
}

fn qwen() -> QwenProvider {
    QwenProvider::new("key", "qwen3.7-max")
}

#[test]
fn omits_openai_only_request_fields() {
    let body = qwen().build_body(&vec![ChatMessage::user("hi")], &vec![], false);
    assert!(body.get("store").is_none());
    assert!(body.get("include").is_none());
    assert!(body.get("reasoning").is_none());
    assert_eq!(body.text_at("model"), Some("qwen3.7-max"));
    assert_eq!(body.array_at("input").unwrap()[0].text_at("role"), Some("user"));
}

#[test]
fn thinking_uses_qwen_flag() {
    let body = qwen().with_thinking(true).build_body(&vec![ChatMessage::user("hi")], &vec![], false);
    assert_eq!(body.get("enable_thinking").unwrap().as_bool(), Some(true));
    assert!(body.get("reasoning").is_none());
}

#[test]
fn tools_use_the_flat_responses_shape() {
    let tool = ToolDefinition::function(
        "read_file",
        "Read a file",
        json(r#"{"type": "object", "properties": {}}"#),
    );
    let body = qwen().build_body(&vec![ChatMessage::user("hi")], &vec![tool], false);
    let first = &body.array_at("tools").unwrap()[0];
    assert_eq!(first.text_at("type"), Some("function"));
    assert_eq!(first.text_at("name"), Some("read_file"));
}

#[test]
fn parses_a_response_without_a_terminal_event() {
    let synthetic = json(
        r#"{"output": [
            {"type": "reasoning", "summary": [{"text": "thinking"}]},
            {"type": "message", "content": [{"type": "output_text", "text": "OK"}]}
        ]}"#,
    );
    let resp = responses::parse_response(&synthetic);
    assert_eq!(resp.content.as_deref(), Some("OK"));
    assert_eq!(resp.reasoning_content.as_deref(), Some("thinking"));
}

#[test]
fn stored_items_replay_verbatim() {
    let mut assistant =
        ChatMessage::assistant_with_tool_calls(None, vec![call("call_1", "search", "{}")]);
    assistant.provider_extra = Some(json(
        r#"{"openai_response_items": [
            {"type": "reasoning", "id": "rs_1", "encrypted_content": "opaque..."},
            {"type": "function_call", "call_id": "call_1", "name": "search", "arguments": "{}"}
        ]}"#,
    ));
    let messages = vec![
        ChatMessage::system("sys"),
        ChatMessage::user("find it"),
        assistant,
        ChatMessage::tool_result("call_1", "found"),
    ];
    let (instructions, input) = responses::convert_messages(&messages);
    assert_eq!(instructions.as_deref(), Some("sys"));
    assert_eq!(input.len(), 4);
    assert_eq!(input[1].text_at("type"), Some("reasoning"));
    assert_eq!(input[1].text_at("encrypted_content"), Some("opaque..."));
    assert_eq!(input[2].text_at("type"), Some("function_call"));
    assert_eq!(input[3].text_at("type"), Some("function_call_output"));
    assert_eq!(input[3].text_at("call_id"), Some("call_1"));
}

#[test]
fn parses_response_output() {
    let parsed = json(
        r#"{"output": [
            {"type": "reasoning", "id": "rs_1", "encrypted_content": "xxx",
             "summary": [{"type": "summary_text", "text": "thought about it"}]},
            {"type": "message", "role": "assistant",
             "content": [{"type": "output_text", "text": "the answer"}]},
            {"type": "function_call", "call_id": "c1", "name": "f", "arguments": "{\"a\":1}"}
        ],
        "usage": {"input_tokens": 100, "output_tokens": 20,
                  "input_tokens_details": {"cached_tokens": 80}}}"#,
    );
    let resp = responses::parse_response(&parsed);
    assert_eq!(resp.content.as_deref(), Some("the answer"));
    assert_eq!(resp.reasoning_content.as_deref(), Some("thought about it"));
    assert_eq!(resp.tool_calls.len(), 1);
    assert_eq!(resp.tool_calls[0].id, "c1");
    assert_eq!(resp.finish_reason, "tool_calls");
    assert_eq!(resp.input_tokens, Some(100));
    assert_eq!(resp.cached_input_tokens, Some(80));
    let extra = resp.provider_extra.unwrap();
    assert_eq!(extra.array_at("openai_response_items").unwrap().len(), 3);
}

struct Flaky {
    calls: usize,
    fail_first: usize,
    status: u16,
}

impl Flaky {
    fn complete(&mut self) -> Result<String, LlmError> {
        self.calls += 1;
        if self.calls <= self.fail_first {
            Err(LlmError::Api { status: self.status, body: "overloaded".to_string() })
        } else {
            Ok("ok".to_string())
        }
    }
}

fn with_retries(policy: &RetryProvider, model: &mut Flaky) -> Result<String, LlmError> {
    let mut attempt = 0;
    loop {
        match model.complete() {
            Ok(r) => return Ok(r),
            Err(e) => match policy.after_failure(attempt, &e, 0) {
                Some((next, _)) => attempt = next,
                None => return Err(e),
            },
        }
    }
}

#[test]
fn retries_transient_errors_then_succeeds() {
    let mut model = Flaky { calls: 0, fail_first: 2, status: 429 };
    assert_eq!(with_retries(&RetryProvider::new(), &mut model).unwrap(), "ok");
    assert_eq!(model.calls, 3);
}

#[test]
fn does_not_retry_client_errors() {
    let mut model = Flaky { calls: 0, fail_first: 10, status: 400 };
    let err = with_retries(&RetryProvider::new(), &mut model).unwrap_err();
    assert!(matches!(err, LlmError::Api { status: 400, .. }));
    assert_eq!(model.calls, 1);
}

#[test]
fn gives_up_after_max_retries() {
    let mut model = Flaky { calls: 0, fail_first: 10, status: 503 };
    let policy = RetryProvider::new().with_max_retries(2);
    let err = with_retries(&policy, &mut model).unwrap_err();
    assert!(matches!(err, LlmError::Api { status: 503, .. }));
    assert_eq!(model.calls, 3);
}

#[test]
fn backoff_doubles_up_to_its_bound_with_jitter() {
    let policy = RetryProvider::new().with_base_delay(100).with_max_delay(1_000);
    assert_eq!(policy.backoff(0, 0), 100);
    assert_eq!(policy.backoff(1, 0), 200);
    assert_eq!(policy.backoff(3, 0), 800);
    assert_eq!(policy.backoff(4, 0), 1_000);
    assert_eq!(policy.backoff(200, 0), 1_000);
    assert_eq!(policy.backoff(4, 100), 1_100);
    assert_eq!(policy.backoff(4, 350), 1_100);
    let timeout = LlmError::Http(HttpFailure {
        message: "x".to_string(),
        timeout: true,
        connect: false,
        request: false,
    });
    assert!(RetryProvider::is_transient(&timeout));
    assert!(!RetryProvider::is_transient(&LlmError::EmptyResponse));
    for status in [408, 429, 500, 529, 599] {
        assert!(RetryProvider::is_transient(&LlmError::Api { status, body: String::new() }));
    }
    assert!(!RetryProvider::is_transient(&LlmError::Api { status: 600, body: String::new() }));
}

#[test]
fn slots_are_reserved_one_interval_apart() {
    let mut limiter = RateLimitedProvider::new(60, 0);
    let second: u128 = 1_000_000_000;
    assert_eq!(limiter.reserve_slot(0), 0);
    assert_eq!(limiter.reserve_slot(0), second);
    assert_eq!(limiter.reserve_slot(0), 2 * second);
    assert_eq!(limiter.reserve_slot(10 * second), 0);
    assert_eq!(limiter.reserve_slot(10 * second + 5), second - 5);
    let mut unlimited = RateLimitedProvider::new(0, 0);
    assert_eq!(unlimited.reserve_slot(0), 0);
    assert_eq!(unlimited.reserve_slot(0), 0);
}

#[test]
fn extracts_bare_fenced_and_embedded_json() {
    assert_eq!(extract_json(r#"{"a":1}"#).unwrap().u64_at("a"), Some(1));
    assert_eq!(extract_json("```json\n{\"a\": 2}\n```").unwrap().u64_at("a"), Some(2));
    assert_eq!(
        extract_json("Sure! Here you go:\n{\"a\": 3}\nHope that helps.").unwrap().u64_at("a"),
        Some(3)
    );
    assert!(extract_json("no json here").is_none());
}

#[test]
fn candidates_in_order() {
    assert_eq!(
        candidates(" x ```json\n{\"a\": [1]}\n``` y"),
        vec![
            "x ```json\n{\"a\": [1]}\n``` y".to_string(),
            "{\"a\": [1]}".to_string(),
            "{\"a\": [1]}".to_string()
        ]
    );
    assert_eq!(candidates("} {").len(), 2);
}

fn schema() -> Json {
    json(r#"{"type": "object", "properties": {"approved": {"type": "boolean"}}, "required": ["approved"]}"#)
}

#[test]
fn fallback_parses_typed_result() {
    let messages = prompted_messages(vec![ChatMessage::user("ship?")], "verdict", &schema());
    assert_eq!(messages.len(), 2);
    assert!(matches!(messages[1].role, Role::System));
    let asked = messages[1].content.as_deref().unwrap();
    assert!(asked.contains("JSON Schema"));
    assert!(asked.contains("named 'verdict'"));
    assert!(asked.contains(r#""required":["approved"]"#));
    let reply = Some("```json\n{\"approved\": true}\n```".to_string());
    let value = prompted_value(&reply, "verdict").unwrap();
    let value = checked_value(value, "verdict", None).unwrap();
    assert_eq!(value.get("approved").unwrap().as_bool(), Some(true));
}

#[test]
fn schema_violation_is_reported_clearly() {
    let value = prompted_value(&Some(r#"{"approved": "yes"}"#.to_string()), "verdict").unwrap();
    let err =
        checked_value(value, "verdict", Some("approved: expected boolean".to_string())).unwrap_err();
    let msg = err.to_text();
    assert!(msg.contains("did not match schema"), "{msg}");
    assert!(msg.contains("approved"), "{msg}");
}

#[test]
fn unparseable_output_errors() {
    let err = prompted_value(&Some("I cannot do that".to_string()), "verdict").unwrap_err();
    assert!(matches!(err, LlmError::Structured(_)));
    let long = prompted_value(&Some("n".repeat(300)), "v").unwrap_err().to_text();
    assert!(long.ends_with(&format!("'v': {}", "n".repeat(200))));
}

#[test]
fn a_whole_answer_is_one_delta() {
    let mut response = LlmResponse::default();
    assert!(single_delta(&response).is_none());
    response.content = Some("hi".to_string());
    assert_eq!(single_delta(&response).unwrap().content.as_deref(), Some("hi"));
}

#[test]
fn the_mock_repeats_its_last_response() {
    let mut mock = MockLlmProvider::with_texts(&vec!["a".to_string(), "b".to_string()]);
    assert_eq!(mock.complete().content.as_deref(), Some("a"));
    assert_eq!(mock.complete().content.as_deref(), Some("b"));
    assert_eq!(mock.complete().content.as_deref(), Some("b"));
    assert_eq!(mock.model(), "mock");
    let mut empty = MockLlmProvider::new(vec![]);
    assert_eq!(empty.complete().content.as_deref(), Some("(mock empty response)"));
}

#[test]
fn errors_read_as_texts() {
    assert_eq!(LlmError::EmptyResponse.to_text(), "Empty response from LLM");
    assert_eq!(LlmError::Serde("x".to_string()).to_text(), "Serialization error: x");
    assert_eq!(
        LlmError::Api { status: 500, body: "x".to_string() }.to_text(),
        "API error 500: x"
    );
    assert!(check_status(204, "b".to_string()).is_ok());
    assert!(check_status(300, "b".to_string()).is_err());
}

fn piece(index: usize, id: Option<&str>, name: Option<&str>, arguments: Option<&str>) -> ToolCallDelta {
    ToolCallDelta {
        index,
        id: id.map(|s| s.to_string()),
        kind: None,
        function: Some(FunctionDelta {
            name: name.map(|s| s.to_string()),
            arguments: arguments.map(|s| s.to_string()),
        }),
    }
}

fn chunk(content: Option<&str>, calls: Vec<ToolCallDelta>) -> StreamChunk {
    StreamChunk {
        choices: vec![StreamChoice {
            delta: StreamDeltaRaw {
                content: content.map(|s| s.to_string()),
                reasoning_content: None,
                reasoning: None,
                tool_calls: Some(calls),
            },
            finish_reason: None,
        }],
        usage: None,
    }
}

#[test]
fn pieces_of_calls_are_put_together_by_their_index() {
    let mut stream = OpenAiStream::new();
    let payloads = stream.feed(&b"data: {\"x\":1}\n\ndata: [DONE]\n".to_vec());
    assert_eq!(payloads, vec!["{\"x\":1}".to_string()]);

    let mut stream = OpenAiStream::new();
    let d = stream.chunk(&chunk(Some("he"), vec![piece(1, Some("b"), Some("g"), Some("{"))]));
    assert_eq!(d.unwrap().content.as_deref(), Some("he"));
    stream.chunk(&chunk(Some("llo"), vec![
        piece(0, Some("a"), Some("f"), Some("{}")),
        piece(1, None, None, Some("}")),
    ]));
    let reply = stream.finish();
    assert_eq!(reply.content.as_deref(), Some("hello"));
    assert_eq!(reply.tool_calls.len(), 2);
    assert_eq!(reply.tool_calls[0].id, "a");
    assert_eq!(reply.tool_calls[1].function.arguments, "{}");
}

#[test]
fn a_completion_without_choices_is_empty() {
    let none = CompletionResponse { choices: vec![], usage: None };
    assert!(matches!(completion_reply(none), Err(LlmError::EmptyResponse)));
    let one = CompletionResponse {
        choices: vec![Choice {
            message: ChoiceMessage {
                content: Some("hi".to_string()),
                reasoning_content: None,
                reasoning: Some("why".to_string()),
                tool_calls: None,
            },
            finish_reason: "stop".to_string(),
        }],
        usage: Some(Usage {
            prompt_tokens: Some(3),
            completion_tokens: Some(4),
            cached_tokens: None,
        }),
    };
    let reply = completion_reply(one).unwrap();
    assert_eq!(reply.content.as_deref(), Some("hi"));
    assert_eq!(reply.reasoning_content.as_deref(), Some("why"));
    assert_eq!(reply.input_tokens, Some(3));
}

#[test]
fn an_anthropic_stream_adds_up() {
    let text = concat_lines(&[
        r#"data: {"type":"message_start","message":{"usage":{"input_tokens":7}}}"#,
        r#"data: {"type":"content_block_start","index":0,"content_block":{"type":"text","text":""}}"#,
        r#"data: {"type":"content_block_delta","index":0,"delta":{"type":"text_delta","text":"Hel"}}"#,
        r#"data: {"type":"content_block_delta","index":0,"delta":{"type":"text_delta","text":"lo"}}"#,
        r#"data: {"type":"content_block_start","index":1,"content_block":{"type":"tool_use","id":"t","name":"f","input":{}}}"#,
        r#"data: {"type":"content_block_delta","index":1,"delta":{"type":"input_json_delta","partial_json":"{\"a\":"}}"#,
        r#"data: {"type":"content_block_delta","index":1,"delta":{"type":"input_json_delta","partial_json":"1}"}}"#,
        r#"data: {"type":"message_delta","delta":{"stop_reason":"tool_use"},"usage":{"output_tokens":9}}"#,
    ]);
    for cut in [1, 40, 200] {
        let mut stream = AnthropicStream::new();
        let mut said = String::new();
        let bytes = text.as_bytes();
        for part in [&bytes[..cut], &bytes[cut..]] {
            for d in stream.feed(&part.to_vec()) {
                said.push_str(d.content.as_deref().unwrap_or(""));
            }
        }
        assert_eq!(said, "Hello");
        let reply = stream.finish();
        assert_eq!(reply.content.as_deref(), Some("Hello"));
        assert_eq!(reply.tool_calls[0].function.arguments, "{\"a\":1}");
        assert_eq!(reply.input_tokens, Some(7));
        assert_eq!(reply.output_tokens, Some(9));
    }
}

fn concat_lines(lines: &[&str]) -> String {
    let mut out = String::new();
    for l in lines {
        out.push_str(l);
        out.push_str("\n\n");
    }
    out
}

#[test]
fn response_streams_end_with_their_document() {
    let text = concat_lines(&[
        r#"data: {"type":"response.output_text.delta","delta":"hi"}"#,
        r#"data: {"type":"response.completed","response":{"output":[{"type":"message","content":[{"type":"output_text","text":"hi"}]}]}}"#,
    ]);
    let mut stream = ResponsesStream::new();
    let deltas = stream.feed(&text.clone().into_bytes());
    assert_eq!(deltas[0].content.as_deref(), Some("hi"));
    assert_eq!(stream.finish().unwrap().content.as_deref(), Some("hi"));
    assert!(ResponsesStream::new().finish().is_err());

    let items = concat_lines(&[
        r#"data: {"type":"response.output_item.done","item":{"type":"message","content":[{"type":"output_text","text":"OK"}]}}"#,
    ]);
    let mut stream = QwenStream::new();
    stream.feed(&items.into_bytes());
    assert_eq!(stream.finish().unwrap().content.as_deref(), Some("OK"));
    assert!(QwenStream::new().finish().is_err());
}

#[test]
fn requests_carry_their_headers() {
    let openai = OpenAiProvider::openai("sk", "m").with_max_tokens(5);
    let body = openai.build_body(&vec![ChatMessage::user("hi")], &vec![], true);
    assert_eq!(body.u64_at("max_tokens"), Some(5));
    assert_eq!(body.get("stream").unwrap().as_bool(), Some(true));
    let http = openai.request(body);
    assert!(http.url.ends_with("/chat/completions"));
    assert!(http.headers.iter().any(|h| h.1 == "Bearer sk"));

    let anthropic = AnthropicProvider::new("sk", "m").with_thinking(1024);
    let body = anthropic.build_body(&vec![ChatMessage::user("hi")], &vec![], false);
    assert_eq!(body.get("thinking").unwrap().u64_at("budget_tokens"), Some(1024));
    let http = anthropic.request(body);
    assert!(http.headers.iter().any(|h| h.0 == "x-api-key" && h.1 == "sk"));

    let responses = OpenAiResponsesProvider::new("sk", "m").with_reasoning_effort("low");
    let body = responses.build_body(&vec![ChatMessage::user("hi")], &vec![], false);
    assert_eq!(body.get("reasoning").unwrap().text_at("effort"), Some("low"));
    assert!(responses.request(body).url.ends_with("/responses"));
}

#[test]
fn sampling_settings_go_into_the_body() {
    let provider = OpenAiProvider::openai("key", "m")
        .with_temperature(json("0.5"))
        .with_max_tokens(64)
        .with_stop(vec!["END".to_string()])
        .with_seed(-7)
        .with_frequency_penalty(json("0.25"))
        .with_presence_penalty(json("1"))
        .with_json_mode()
        .with_body_param("model", json("\"other\""))
        .with_body_param("user", json("\"u1\""));
    let body = provider.build_body(&vec![ChatMessage::user("hi")], &vec![], false);
    assert_eq!(body.text_at("model"), Some("m"), "a set field wins over an extra one");
    assert_eq!(body.text_at("user"), Some("u1"));
    assert_eq!(body.u64_at("max_tokens"), Some(64));
    assert_eq!(body.get("temperature").unwrap().print(), "0.5");
    assert_eq!(body.get("stop").unwrap().print(), r#"["END"]"#);
    assert_eq!(body.get("seed").unwrap().print(), "-7");
    assert_eq!(body.get("frequency_penalty").unwrap().print(), "0.25");
    assert_eq!(body.get("presence_penalty").unwrap().print(), "1");
    assert_eq!(body.get("response_format").unwrap().print(), r#"{"type":"json_object"}"#);
    assert!(body.get("tool_choice").is_none() && body.get("stream").is_none());

    let constrained = provider.with_json_schema("verdict", json(r#"{"type":"object"}"#));
    let body = constrained.build_body(&vec![ChatMessage::user("hi")], &vec![], true);
    let format = body.get("response_format").unwrap();
    assert_eq!(format.get("json_schema").unwrap().text_at("name"), Some("verdict"));
    assert_eq!(body.get("stream_options").unwrap().print(), r#"{"include_usage":true}"#);
}

#[test]
fn thinking_leaves_sampling_settings_out() {
    let provider = AnthropicProvider::new("key", "m")
        .with_top_k(5)
        .with_stop_sequences(vec!["END".to_string()])
        .without_prompt_caching()
        .with_beta("one")
        .with_beta("two");
    let messages = vec![ChatMessage::user("hi")];
    let body = provider.build_body(&messages, &vec![], false);
    assert_eq!(body.u64_at("top_k"), Some(5));
    assert_eq!(body.get("stop_sequences").unwrap().print(), r#"["END"]"#);
    let request = provider.request(body);
    assert!(request.headers.contains(&("anthropic-beta".to_string(), "one,two".to_string())));

    let thinking = provider.with_thinking(1024).build_body(&messages, &vec![], false);
    assert!(thinking.get("top_k").is_none());
    assert_eq!(thinking.get("thinking").unwrap().u64_at("budget_tokens"), Some(1024));
}

#[test]
fn parts_stand_for_the_content_of_a_message() {
    let parts = vec![ContentPart::text("look"), ContentPart::image_url("https://e.com/a.png")];
    let message = ChatMessage::user_with_parts(parts.clone());
    assert_eq!(message.content.as_deref(), Some("look"));
    assert!(message.is_multimodal());
    assert_eq!(message.content_parts().len(), 2);

    let plain = ChatMessage::assistant("hello");
    assert!(!plain.is_multimodal());
    assert_eq!(plain.content_parts()[0].as_text(), Some("hello"));
    assert!(ChatMessage::assistant("").content_parts().is_empty());
    assert_eq!(plain.with_parts(parts).content_parts().len(), 2);
}

#[test]
fn parts_round_trip_through_json() {
    let parts = vec![ContentPart::text("look:"), ContentPart::image_base64("image/png", "QQ")];
    let stored = Json::Array(parts.iter().map(|p| p.to_json()).collect()).print();
    let back = read_parts(json(&stored).as_array().unwrap()).unwrap();
    assert_eq!(format!("{parts:?}"), format!("{back:?}"));
    assert_eq!(parts_to_text(&parts), "look:");
    assert_eq!(
        parts[1].to_json().print(),
        r#"{"source":{"data":"QQ","kind":"base64","media_type":"image/png"},"type":"image"}"#
    );
    let url = ContentPart::image_url("https://x/y.png");
    let back = ContentPart::from_json(&json(&url.to_json().print())).unwrap();
    assert_eq!(format!("{url:?}"), format!("{back:?}"));
    for bad in [
        r#""text""#,
        r#"{"type": "text"}"#,
        r#"{"type": "sound", "text": "x"}"#,
        r#"{"type": "image", "source": {"kind": "url"}}"#,
        r#"{"type": "image", "source": {"kind": "file", "url": "u"}}"#,
        r#"{"type": "image", "source": {"kind": "base64", "data": "QQ"}}"#,
    ] {
        assert!(ContentPart::from_json(&json(bad)).is_none(), "{bad}");
    }
    assert!(read_parts(json(r#"[{"type": "text", "text": "a"}, 1]"#).as_array().unwrap()).is_none());
}

#[test]
fn messages_read_back_as_they_were_written() {
    let calls = vec![call("c1", "ls", "{}")];
    for message in [
        ChatMessage::system("be brief"),
        ChatMessage::user("hi").with_name("ann"),
        ChatMessage::assistant_with_tool_calls(None, calls),
        ChatMessage::tool_result("c1", ""),
        ChatMessage::user_with_parts(vec![ContentPart::text("a"), ContentPart::text("b")]),
    ] {
        let back = ChatMessage::from_json(&json(&message.to_json().print())).unwrap();
        assert_eq!(format!("{message:?}"), format!("{back:?}"));
    }
    let stored = r#"{"role": "user", "extra": 1, "name": null, "content": [
        {"type": "text", "text": "look"},
        {"type": "image", "source": {"kind": "url", "url": "u"}}]}"#;
    let read = ChatMessage::from_json(&json(stored)).unwrap();
    assert_eq!(read.content.as_deref(), Some("look"));
    assert!(read.is_multimodal());
    assert!(read.name.is_none() && read.tool_calls.is_none());
    for bad in [
        r#"{"content": "x"}"#,
        r#"{"role": "judge"}"#,
        r#"{"role": "user", "content": 1}"#,
        r#"{"role": "user", "content": [{"type": "image_url"}]}"#,
        r#"{"role": "user", "name": 1}"#,
        r#"{"role": "assistant", "tool_calls": [{"id": "c"}]}"#,
    ] {
        assert!(ChatMessage::from_json(&json(bad)).is_none(), "{bad}");
    }
}

#[test]
fn streams_take_data_lines_without_the_space() {
    let mut openai = OpenAiStream::new();
    assert_eq!(openai.feed_text("data:{\"x\":1}\n"), vec!["{\"x\":1}".to_string()]);
    assert!(openai.feed_text("data:[DONE]\ndata:{}\n").is_empty());
    assert!(openai.done);

    let mut anthropic = AnthropicStream::new();
    anthropic.feed_text(
        "data:{\"type\":\"content_block_start\",\"content_block\":{\"type\":\"text\",\"text\":\"\"}}\n",
    );
    let deltas = anthropic.feed_text(
        "data:{\"type\":\"content_block_delta\",\"delta\":{\"type\":\"text_delta\",\"text\":\"hi\"}}\n",
    );
    assert_eq!(deltas[0].content.as_deref(), Some("hi"));

    let mut responses = ResponsesStream::new();
    let deltas =
        responses.feed_text("data:{\"type\":\"response.output_text.delta\",\"delta\":\"hi\"}\n");
    assert_eq!(deltas[0].content.as_deref(), Some("hi"));
}
