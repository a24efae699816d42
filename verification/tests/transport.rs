//! Bridges, distributed nodes, MCP and observation.
use eventage::bridge::{BusBridge, BRIDGE_HOPS_KEY};
use eventage::bus::EventBus;
use eventage::dag::BranchData;
use eventage::distributed::{DistributedBus, TransportError, ORIGIN_NODE_KEY};
use eventage::event::Event;
use eventage::eviction::{epitaph_messages, epitaph_of, epitaph_payload, EpitaphStrategy};
use eventage::json::Json;
use eventage::llm::types::{Role, ToolDefinition};
use eventage::mcp::client::{
    answers, call_params, call_result, decline, elicitation_reply, elicitation_request, elicited,
    first_answer, http_body, initialize_params, negotiated_version, notification, read_line,
    request, rpc_result, server_move, sse_data_lines, tool_definitions, HttpBody, McpToolDef,
    RpcError, RpcResponse, ServerLine, ServerMove, ToolsCallResult, PROTOCOL_VERSION,
};
use eventage::mcp::error::McpError;
use eventage::mcp::tool::McpToolset;
use eventage::agent::tool::ToolRegistry;
use eventage::observability::{count_failure, span_move, ObsError, SpanMove};
use eventage::{kinds, meta_keys};

fn json(text: &str) -> Json {
    Json::parse(text).unwrap()
}

#[test]
fn bidirectional_bridges_do_not_echo_forever() {
    let mut bus_a = EventBus::new();
    let mut bus_b = EventBus::new();
    let a_to_b = BusBridge::new();
    let b_to_a = BusBridge::new();

    let original = Event::new(kinds::AGENT_MESSAGE, json(r#"{"text": "hi"}"#));
    bus_a.publish(original.clone());
    if let Some(e) = a_to_b.handle(&original) {
        bus_b.publish(e);
    }
    let on_b = bus_b.log();
    assert_eq!(on_b.len(), 1);
    assert_eq!(on_b[0].metadata.get(BRIDGE_HOPS_KEY).unwrap().as_u64(), Some(1));

    assert!(b_to_a.handle(&on_b[0]).is_none(), "event must not return to its origin bus");
    assert_eq!(bus_a.log().len(), 1);
}

#[test]
fn a_longer_limit_allows_more_bridges() {
    let bridge = BusBridge::new().max_hops(2).filter_kinds(vec![kinds::AGENT_MESSAGE.to_string()]);
    assert_eq!(bridge.subscribed_kinds(), vec![kinds::AGENT_MESSAGE.to_string()]);
    let e = Event::new(kinds::AGENT_MESSAGE, json("{}"));
    let once = bridge.handle(&e).unwrap();
    let twice = bridge.handle(&once).unwrap();
    assert_eq!(twice.metadata.get(BRIDGE_HOPS_KEY).unwrap().as_u64(), Some(2));
    assert!(bridge.handle(&twice).is_none());
    assert_eq!(BusBridge::new().max_hops(0).max_hops, 1);
}

#[test]
fn events_replicate_between_two_hosts() {
    let mut a = DistributedBus::new("a");
    let mut b = DistributedBus::new("x").with_node_id("b".to_string());
    let e = Event::new(kinds::AGENT_MESSAGE, json(r#"{"text": "from a"}"#));
    let sent = a.outbound(&e).expect("event should replicate");
    assert_eq!(sent.payload.text_at("text"), Some("from a"));
    assert_eq!(sent.meta_text(ORIGIN_NODE_KEY), Some("a"));
    assert!(b.inbound(&sent));
    assert!(!b.inbound(&sent), "a known event is not taken in again");
    assert!(b.outbound(&sent).is_none(), "event must not echo back to its origin");
    assert!(!a.inbound(&sent));
    assert!(a.outbound(&e).is_none());
}

#[test]
fn filter_limits_what_crosses_the_wire() {
    let mut a = DistributedBus::new("a").filter_kinds(vec![kinds::AGENT_MESSAGE.to_string()]);
    let secret = Event::new(kinds::TOOL_RESULT, json(r#"{"result": "secret"}"#));
    let shared = Event::new(kinds::AGENT_MESSAGE, json(r#"{"text": "shared"}"#));
    assert!(!a.should_forward(&secret));
    assert!(a.outbound(&secret).is_none(), "filtered kind must not cross the wire");
    assert!(a.outbound(&shared).is_some(), "allowed kind should replicate");
}

#[test]
fn a_foreign_event_is_not_sent() {
    let mut a = DistributedBus::new("a");
    let e = Event::new(kinds::AGENT_MESSAGE, json("{}")).with_meta(ORIGIN_NODE_KEY, Json::text("b"));
    assert!(a.outbound(&e).is_none());
    assert_eq!(TransportError::Closed.to_text(), "transport closed");
    assert_eq!(TransportError::Io("x".to_string()).to_text(), "I/O error: x");
    assert_eq!(TransportError::Serde("x".to_string()).to_text(), "serialization error: x");
}

#[test]
fn an_epitaph_is_asked_for_and_kept() {
    let branch = BranchData {
        id: 1,
        parent_event_id: None,
        events: vec![
            Event::new(kinds::ASSISTANT_MESSAGE, json(r#"{"content":"x"}"#)),
            Event::new(kinds::CHECKPOINT, json("{}")),
        ],
    };
    let messages = epitaph_messages(&branch);
    assert!(matches!(messages[0].role, Role::System));
    assert_eq!(
        messages[1].content.as_deref(),
        Some("Branch 00000000-0000-0000-0000-000000000001 (diverged from root):\n\n[assistant.message] {\"content\":\"x\"}\n[system.checkpoint]")
    );
    assert_eq!(epitaph_of(1, &Ok(Some("  gone \n".to_string()))), "gone");
    assert!(epitaph_of(1, &Ok(None)).ends_with("no summary generated."));
    assert!(epitaph_of(1, &Err("down".to_string())).ends_with("epitaph generation failed: down"));
    assert_eq!(epitaph_payload(&branch, "gone").u64_at("events_lost"), Some(2));

    let evicted = |id: u128| BranchData { id, parent_event_id: None, events: vec![] };
    let mut strategy = EpitaphStrategy::new();
    assert!(strategy.take().is_none());
    for id in 1..=256 {
        assert!(strategy.on_evict(evicted(id)));
    }
    assert!(!strategy.on_evict(evicted(300)), "the queue is full");
    // The place is free while the epitaph is still being written.
    let taken = strategy.take().unwrap();
    assert_eq!(taken.id, 1);
    assert!(strategy.on_evict(evicted(257)));
    assert!(!strategy.on_evict(evicted(301)));
    assert!(strategy.epitaph(1).is_none());
    strategy.record(1, "gone".to_string());
    assert_eq!(strategy.epitaph(1).map(|s| s.as_str()), Some("gone"));
    assert!(strategy.epitaph(2).is_none());
    assert!(!strategy.on_evict(evicted(302)), "an epitaph frees no place");
    for id in 2..=257 {
        assert_eq!(strategy.take().unwrap().id, id);
    }
    assert!(strategy.take().is_none());
    assert_eq!(strategy.name(), "epitaph");
}

#[test]
fn sse_parsing_extracts_data() {
    let body = "event: message\ndata: {\"a\":1}\n\ndata: line1\ndata: line2\n\n";
    let events = sse_data_lines(body);
    assert_eq!(
        events,
        vec!["{\"a\":1}".to_string(), "line1\nline2".to_string()]
    );
}

#[test]
fn sse_parsing_handles_missing_trailing_blank() {
    let events = sse_data_lines("data: {\"jsonrpc\":\"2.0\"}");
    assert_eq!(events.len(), 1);
}

fn response(id: Option<&str>, result: Option<&str>, error: Option<(i64, &str)>) -> RpcResponse {
    RpcResponse {
        id: id.map(json),
        result: result.map(json),
        error: error.map(|(code, message)| RpcError { code, message: message.to_string() }),
    }
}

#[test]
fn stdio_round_trip_against_scripted_server() {
    let sent = request(7, "tools/call", call_params("echo", json("{}")));
    assert_eq!(sent.u64_at("id"), Some(7));
    assert_eq!(sent.text_at("method"), Some("tools/call"));
    assert_eq!(sent.get("params").unwrap().text_at("name"), Some("echo"));
    assert!(matches!(read_line(" \n"), ServerLine::Blank));
    match read_line("{\"jsonrpc\":\"2.0\",\"id\":7,\"result\":{}}\n") {
        ServerLine::Response(text) => assert!(text.ends_with('}')),
        _ => panic!("expected a response"),
    }
    assert!(answers(&response(Some("7"), Some("{}"), None), 7));
    assert!(!answers(&response(Some("8"), Some("{}"), None), 7));
    assert!(!answers(&response(Some("7"), None, None), 7));
    assert!(!answers(&response(None, Some("{}"), None), 7));

    let tools = tool_definitions(&vec![McpToolDef {
        name: "echo".to_string(),
        description: None,
        input_schema: json(r#"{"type": "object"}"#),
    }]);
    assert_eq!(tools.len(), 1);
    assert_eq!(tools[0].function.name, "echo");
    assert_eq!(tools[0].function.description, "");

    let result = call_result(ToolsCallResult {
        content: vec![json(r#"{"type": "text", "text": "pong"}"#)],
        structured_content: None,
        is_error: false,
    });
    assert_eq!(result.unwrap().as_str(), Some("pong"));
}

#[test]
fn results_of_tool_calls() {
    let text = |t: &str| json(&format!(r#"{{"type": "text", "text": "{t}"}}"#));
    let image = json(r#"{"type": "image", "data": "AA"}"#);
    let call = |content: Vec<Json>, structured: Option<Json>, is_error: bool| {
        call_result(ToolsCallResult { content, structured_content: structured, is_error })
    };
    match call(vec![text("a"), text("b")], None, true) {
        Err(McpError::Tool(m)) => assert_eq!(m, "a\nb"),
        _ => panic!("expected a tool error"),
    }
    assert_eq!(call(vec![text("a")], Some(json("5")), false).unwrap().as_u64(), Some(5));
    assert_eq!(call(vec![text("a"), text("b")], None, false).unwrap().as_str(), Some("a\nb"));
    assert_eq!(call(vec![text("a"), image], None, false).unwrap().as_array().unwrap().len(), 2);
    assert!(matches!(call(vec![], None, false), Err(McpError::NoResult)));
}

#[test]
fn answers_and_errors_of_calls() {
    assert_eq!(rpc_result(response(None, Some("1"), None)).unwrap().as_u64(), Some(1));
    assert!(matches!(rpc_result(response(None, None, None)), Err(McpError::NoResult)));
    let err = rpc_result(response(None, Some("1"), Some((-32000, "no")))).unwrap_err();
    assert_eq!(err.to_text(), "MCP protocol error (code=-32000): no");
    assert_eq!(McpError::Http("x".to_string()).to_text(), "HTTP error: x");
    assert_eq!(McpError::Json("x".to_string()).to_text(), "JSON error: x");
    assert_eq!(McpError::NoResult.to_text(), "no result returned by tool");

    let list = vec![response(None, None, None), response(None, Some("2"), None)];
    assert_eq!(first_answer(list).ok().unwrap().result.unwrap().as_u64(), Some(2));
    assert!(first_answer(vec![]).is_err());

    match http_body(200, "200 OK", "text/event-stream; charset=utf-8", "data: 1\n\n".to_string()) {
        Ok(HttpBody::Stream(events)) => assert_eq!(events, vec!["1".to_string()]),
        _ => panic!("expected a stream"),
    }
    match http_body(200, "200 OK", "application/json", "{}".to_string()) {
        Ok(HttpBody::Document(d)) => assert_eq!(d, "{}"),
        _ => panic!("expected a document"),
    }
    match http_body(404, "404 Not Found", "", "x".repeat(600)) {
        Err(McpError::Transport(m)) => {
            assert_eq!(m, format!("HTTP 404 Not Found: {}", "x".repeat(500)))
        }
        _ => panic!("expected an error"),
    }
}

#[test]
fn the_handshake_names_the_revision() {
    let params = initialize_params(true, "1.0");
    assert_eq!(params.text_at("protocolVersion"), Some(PROTOCOL_VERSION));
    assert!(params.get("capabilities").unwrap().get("elicitation").is_some());
    assert!(initialize_params(false, "1.0")
        .get("capabilities")
        .unwrap()
        .get("elicitation")
        .is_none());
    assert_eq!(negotiated_version(&json(r#"{"protocolVersion": "2025-03-26"}"#)), "2025-03-26");
    assert_eq!(negotiated_version(&json("{}")), PROTOCOL_VERSION);
    assert!(notification("notifications/initialized", json("{}")).get("id").is_none());
}

#[test]
fn elicitation_round_trips_through_the_bus() {
    let message = json(
        r#"{"jsonrpc":"2.0","id":99,"method":"elicitation/create","params":{"message":"Which branch?","requestedSchema":{"type":"object"}}}"#,
    );
    let id = match server_move("elicitation/create", &message, true, "test-server") {
        ServerMove::Elicit(Some(id)) => id,
        _ => panic!("expected to ask"),
    };
    let asked = elicitation_request("r1", "test-server", message.get("params"));
    assert_eq!(asked.text_at("message"), Some("Which branch?"));
    assert_eq!(asked.text_at("server"), Some("test-server"));
    let wrong = Event::new(
        kinds::MCP_ELICITATION_RESPONSE,
        json(r#"{"request_id": "r2", "action": "accept"}"#),
    );
    assert!(elicited(&wrong, "r1").is_none());
    let right = Event::new(
        kinds::MCP_ELICITATION_RESPONSE,
        json(r#"{"request_id": "r1", "action": "accept", "content": {"branch": "main"}}"#),
    );
    let result = elicited(&right, "r1").unwrap();
    let reply = elicitation_reply(id, result);
    assert_eq!(reply.u64_at("id"), Some(99));
    assert!(reply.print().contains("main"), "elicited value should reach the server");
    assert_eq!(decline().text_at("action"), Some("decline"));
    let odd = Event::new(kinds::MCP_ELICITATION_RESPONSE, json(r#"{"request_id": "r1"}"#));
    assert_eq!(elicited(&odd, "r1").unwrap().text_at("action"), Some("decline"));
    let cancel = Event::new(
        kinds::MCP_ELICITATION_RESPONSE,
        json(r#"{"request_id": "r1", "action": "cancel"}"#),
    );
    assert_eq!(elicited(&cancel, "r1").unwrap().text_at("action"), Some("cancel"));
}

#[test]
fn unknown_requests_of_a_server_are_refused() {
    let with_id = json(r#"{"id": 3, "method": "roots/list"}"#);
    match server_move("roots/list", &with_id, true, "s") {
        ServerMove::Reply(r) => {
            assert_eq!(r.u64_at("id"), Some(3));
            assert!(r.print().contains("-32601"));
            assert!(r.print().contains("method 'roots/list' not supported by this client"));
        }
        _ => panic!("expected a refusal"),
    }
    assert!(matches!(server_move("x", &json("{}"), true, "s"), ServerMove::Nothing));
    let changed = "notifications/tools/list_changed";
    match server_move(changed, &json("{}"), true, "s") {
        ServerMove::ToolsChanged(p) => assert_eq!(p.text_at("server"), Some("s")),
        _ => panic!("expected an announcement"),
    }
    assert!(matches!(server_move(changed, &json("{}"), false, "s"), ServerMove::Nothing));
    match read_line(r#"{"method": "x", "id": 1}"#) {
        ServerLine::Initiated { method, .. } => assert_eq!(method, "x"),
        _ => panic!("expected a request"),
    }
}

#[test]
fn a_prefix_renames_for_the_model_only() {
    let defs = vec![ToolDefinition::function("echo", "echoes", json("{}"))];
    let set = McpToolset::from_definitions(&defs).with_prefix("search".to_string());
    assert_eq!(set.len(), 1);
    assert!(!set.is_empty());
    assert_eq!(set.tools[0].definition.function.name, "search__echo");
    assert_eq!(set.tools[0].remote_name, "echo");
    let again = set.reload(&defs);
    assert_eq!(again.tools[0].definition.function.name, "search__echo");
    let mut registry = ToolRegistry::new();
    again.add_to_registry(&mut registry);
    assert_eq!(registry.names(), vec!["search__echo".to_string()]);
    assert_eq!(set.into_tools().len(), 1);
}

#[test]
fn events_become_spans_and_counts() {
    let start = Event::new(kinds::AGENT_CYCLE_START, json("{}"))
        .with_meta(meta_keys::TRACE_ID, Json::text("t"));
    match span_move(&start) {
        SpanMove::OpenCycle { trace_id, agent_id } => {
            assert_eq!((trace_id.as_str(), agent_id.as_str()), ("t", "unknown"))
        }
        _ => panic!("expected a cycle"),
    }
    let end = Event::new(kinds::AGENT_CYCLE_END, json("{}"))
        .with_meta(meta_keys::ELAPSED_MS, Json::Unsigned(12));
    assert!(matches!(span_move(&end), SpanMove::CloseCycle { elapsed_ms: Some(12), .. }));
    let reply = Event::new(kinds::ASSISTANT_MESSAGE, json("{}"))
        .with_meta(meta_keys::LLM_INPUT_TOKENS, Json::Unsigned(5));
    assert!(matches!(span_move(&reply), SpanMove::Count { input: 5, output: 0, cached: 0, .. }));
    let call = Event::new(kinds::TOOL_CALL_PROPOSED, json(r#"{"tool_call_id": "c", "name": "ls"}"#));
    match span_move(&call) {
        SpanMove::OpenTool { call_id, span_name, .. } => {
            assert_eq!((call_id.as_str(), span_name.as_str()), ("c", "tool.ls"))
        }
        _ => panic!("expected a tool span"),
    }
    let result = Event::new(kinds::TOOL_RESULT, json(r#"{"tool_call_id": "c", "error": "x"}"#));
    assert!(matches!(span_move(&result), SpanMove::CloseTool { is_error: true, .. }));
    assert!(matches!(span_move(&Event::new("x", json("{}"))), SpanMove::Nothing));
    assert_eq!(count_failure(3, true), 4);
    assert_eq!(count_failure(3, false), 3);
    assert_eq!(ObsError::Io("x".to_string()).to_text(), "I/O error: x");
    assert_eq!(ObsError::Serde("x".to_string()).to_text(), "Serialization error: x");
    assert_eq!(ObsError::ChannelClosed.to_text(), "Channel closed");
    assert_eq!(ObsError::Other("x".to_string()).to_text(), "x");
}
