//! Turning events into requests.
use eventage::agent::context::{
    default_negative_context_format, events_to_messages, inject_negative, truncate,
    with_system_prompt, DefaultContextAssembler,
};
use eventage::agent::context_edit::ToolResultClearingAssembler;
use eventage::agent::tokens::{estimate_tokens, messages_token_count, TokenCalibration};
use eventage::event::Event;
use eventage::json::{Json, JsonMap};
use eventage::kinds;
use eventage::llm::types::{ChatMessage, Role};
use eventage::text::trim_str;

fn json(text: &str) -> Json {
    Json::parse(text).unwrap()
}

fn user(text: &str) -> Event {
    Event::new(kinds::USER_MESSAGE, Json::Object(JsonMap::new().with("text", Json::text(text))))
}

#[test]
fn assembles_user_message() {
    let messages = events_to_messages(&vec![user("hello")]);
    assert_eq!(messages.len(), 1);
    assert_eq!(messages[0].content.as_deref(), Some("hello"));
}

#[test]
fn skips_observability_events() {
    let events = vec![
        Event::new(kinds::AGENT_CYCLE_START, json("{}")),
        user("hi"),
        Event::new(kinds::AGENT_CYCLE_END, json("{}")),
    ];
    assert_eq!(events_to_messages(&events).len(), 1);
}

#[test]
fn system_prompt_assembler_prepends_system() {
    let messages = with_system_prompt("Be helpful.", &vec![user("hi")]);
    assert_eq!(messages.len(), 2);
    assert!(matches!(messages[0].role, Role::System));
    assert_eq!(messages[0].content.as_deref(), Some("Be helpful."));
}

#[test]
fn default_assembler_assembles_user_message() {
    let mut assembler = DefaultContextAssembler::without_system_prompt();
    let messages = assembler.assemble(&vec![user("hello")]);
    assert_eq!(messages.len(), 1);
    assert_eq!(messages[0].content.as_deref(), Some("hello"));
}

#[test]
fn sliding_window_limits_context() {
    let mut assembler = DefaultContextAssembler::without_system_prompt().with_max_events(2);
    let messages = assembler.assemble(&vec![user("a"), user("b"), user("c")]);
    assert_eq!(messages.len(), 2);
    assert_eq!(messages[0].content.as_deref(), Some("b"));
    assert_eq!(messages[1].content.as_deref(), Some("c"));
}

#[test]
fn incremental_cache_extends_on_new_events() {
    let mut assembler = DefaultContextAssembler::without_system_prompt();
    let events1 = vec![user("first")];
    assert_eq!(assembler.assemble(&events1).len(), 1);

    let mut events2 = events1.clone();
    events2.push(user("second"));
    let messages = assembler.assemble(&events2);
    assert_eq!(messages.len(), 2);
    assert_eq!(messages[1].content.as_deref(), Some("second"));
}

#[test]
fn negative_aware_assembler_injects_warning() {
    let mut base = DefaultContextAssembler::without_system_prompt();
    let rejected = vec![vec![Event::new(
        kinds::ASSISTANT_MESSAGE,
        json(r#"{"content": "I tried approach X", "tool_calls": []}"#),
    )]];
    let summary = default_negative_context_format(&rejected);
    let messages = inject_negative(base.assemble(&vec![user("try again")]), 1, &summary);
    assert_eq!(messages.len(), 2);
    assert!(matches!(messages[0].role, Role::System));
    let text = messages[0].content.as_deref().unwrap_or("");
    assert!(text.contains("failed"));
    assert!(text.contains("I tried approach X"));
}

#[test]
fn without_rejected_branches_nothing_is_injected() {
    let messages = inject_negative(vec![ChatMessage::user("hi")], 0, "");
    assert_eq!(messages.len(), 1);
}

#[test]
fn truncation_counts_bytes_and_keeps_characters_whole() {
    assert_eq!(truncate("short", 10), "short");
    assert_eq!(truncate("abcdef", 3), "abc");
    assert_eq!(truncate("aéb", 2), "a");
}

#[test]
fn token_estimates() {
    assert_eq!(estimate_tokens(""), 4);
    assert_eq!(estimate_tokens(&"x".repeat(400)), 104);
    assert_eq!(estimate_tokens("a b c d e f g h i j"), 17);
    let one = messages_token_count(&vec![ChatMessage::user("hello there")]);
    let two = messages_token_count(&vec![
        ChatMessage::user("hello there"),
        ChatMessage::user("hello there"),
    ]);
    assert!(one > 0);
    assert_eq!(two, 2 * one);
}

fn tool_turn(id: &str, big: &str) -> Vec<Event> {
    let call = format!(
        r#"{{"content": null, "tool_calls": [{{"id": "{id}", "type": "function", "function": {{"name": "read_file", "arguments": "{{}}"}}}}]}}"#
    );
    let result = JsonMap::new()
        .with("tool_call_id", Json::text(id))
        .with("name", Json::text("read_file"))
        .with("result", Json::text(big));
    vec![
        Event::new(kinds::ASSISTANT_MESSAGE, json(&call)),
        Event::new(kinds::TOOL_RESULT, Json::Object(result)),
    ]
}

fn is_cleared(m: &ChatMessage) -> bool {
    m.content.as_deref().unwrap_or("").starts_with("[cleared by harness:")
}

fn clear(assembler: &mut ToolResultClearingAssembler, events: &Vec<Event>) -> Vec<ChatMessage> {
    let messages = DefaultContextAssembler::without_system_prompt().assemble(events);
    let kept = assembler.assemble(&TokenCalibration::new(), &messages);
    kept.into_iter().filter(|m| matches!(m.role, Role::Tool)).collect()
}

#[test]
fn clears_old_tool_results_when_over_trigger() {
    let big = "x".repeat(4000);
    let mut events = vec![user("go")];
    for i in 0..4 {
        events.extend(tool_turn(&format!("c{i}"), &big));
    }
    let mut assembler = ToolResultClearingAssembler::new(2_500, 1_875).with_keep_recent(1);
    let results = clear(&mut assembler, &events);
    assert_eq!(results.len(), 4);
    for old in &results[..3] {
        assert!(is_cleared(old), "old results should be cleared");
    }
    assert!(
        results[3].content.as_deref().unwrap().contains("xxx"),
        "most recent result must stay verbatim"
    );
}

#[test]
fn under_trigger_leaves_everything_verbatim() {
    let mut events = vec![user("go")];
    events.extend(tool_turn("c0", "small result"));
    let mut assembler = ToolResultClearingAssembler::new(100_000, 75_000);
    let results = clear(&mut assembler, &events);
    assert_eq!(results[0].content.as_deref(), Some("\"small result\""));
}

#[test]
fn the_big_results_go_first_whatever_their_age() {
    let mut events = vec![user("go")];
    for (id, bytes) in [("t0", 600), ("t1", 40_000), ("t2", 600), ("t3", 600), ("t4", 40_000)] {
        events.extend(tool_turn(id, &"x".repeat(bytes)));
    }
    let mut assembler = ToolResultClearingAssembler::new(2_000, 1_500)
        .with_keep_recent(1)
        .with_min_clear_bytes(1_000);
    let results = clear(&mut assembler, &events);
    assert!(is_cleared(&results[1]), "the 40 KB dump must be reclaimed");
    for small in [0usize, 2, 3] {
        assert!(!is_cleared(&results[small]), "small result {small} frees nothing");
    }
}

#[test]
fn a_large_recent_result_is_not_shielded_by_its_position() {
    let mut events = vec![user("go")];
    for (id, bytes) in [("t0", 600), ("t1", 600), ("t2", 80_000), ("t3", 600)] {
        events.extend(tool_turn(id, &"x".repeat(bytes)));
    }
    let mut assembler = ToolResultClearingAssembler::new(2_000, 1_500)
        .with_keep_recent(1)
        .with_min_clear_bytes(1_000);
    assert!(is_cleared(&clear(&mut assembler, &events)[2]));
}

#[test]
fn results_under_the_floor_are_left_alone() {
    let mut events = vec![user("go")];
    for i in 0..30 {
        events.extend(tool_turn(&format!("s{i}"), &"x".repeat(300)));
    }
    let mut assembler = ToolResultClearingAssembler::new(500, 375)
        .with_keep_recent(1)
        .with_min_clear_bytes(1_000);
    assert!(
        clear(&mut assembler, &events).iter().all(|m| !is_cleared(m)),
        "sub-floor results must survive"
    );
}

#[test]
fn clearing_is_monotonic_across_calls() {
    let big = "y".repeat(4000);
    let mut events = vec![user("go")];
    for i in 0..4 {
        events.extend(tool_turn(&format!("c{i}"), &big));
    }
    let mut assembler = ToolResultClearingAssembler::new(2_500, 1_875).with_keep_recent(1);
    clear(&mut assembler, &events);
    let again = clear(&mut assembler, &events);
    assert_eq!(
        again.iter().filter(|m| is_cleared(m)).count(),
        3,
        "ratchet must persist across calls"
    );
}

#[test]
fn white_space_is_that_of_unicode() {
    for code in 0..=0x10FFFFu32 {
        if let Some(c) = char::from_u32(code) {
            let blank = trim_str(&c.to_string()).is_empty();
            assert_eq!(blank, c.is_whitespace(), "U+{code:04X}");
        }
    }
}

#[test]
fn a_clearing_pass_goes_down_to_its_target() {
    let rule = ToolResultClearingAssembler::new(100, 75).with_target(50).with_keep_recent(0);
    assert_eq!((rule.trigger_tokens, rule.low_water, rule.keep_recent), (100, 50, 0));
}
