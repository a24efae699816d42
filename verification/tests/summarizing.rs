//! Compaction of long conversations.
use eventage::agent::context::DefaultContextAssembler;
use eventage::agent::prompts::{names, PromptLibrary};
use eventage::agent::summarizing::{
    at_task_boundary, choose_cutoff, context_summarized_payload, override_summary, recorded_text,
    retention_budget,
    split_by_role, summary_from_log, truncate_str, AssemblyStep, SummarizingContextAssembler,
    SummaryState, MAX_RECORDED_CHARS,
};
use eventage::agent::tokens::TokenCalibration;
use eventage::bus::EventBus;
use eventage::event::Event;
use eventage::json::{Json, JsonMap};
use eventage::kinds;
use eventage::llm::content::ContentPart;
use eventage::llm::types::{ChatMessage, FunctionCall, Role, ToolCall};

fn ev(kind: &str) -> Event {
    Event::new(kind, Json::Object(JsonMap::new()))
}

fn wordy_session() -> Vec<Event> {
    let go = JsonMap::new().with("text", Json::text("go"));
    let mut events = vec![Event::new(kinds::USER_MESSAGE, Json::Object(go))];
    for i in 0..40 {
        let text = format!("a fairly wordy reply number {i} ").repeat(20);
        let payload = JsonMap::new().with("content", Json::text(&text));
        events.push(Event::new(kinds::ASSISTANT_MESSAGE, Json::Object(payload)));
    }
    events.push(ev(kinds::AGENT_CYCLE_END));
    events
}

fn compacting() -> SummarizingContextAssembler {
    SummarizingContextAssembler::new(600, 510, 570, 300, "test")
}

/// Runs the steps of an assembly with a model that answers every prompt alike.
fn run(
    assembler: &mut SummarizingContextAssembler,
    events: &mut Vec<Event>,
    on_bus: bool,
) -> (Vec<ChatMessage>, Json, Vec<String>) {
    let messages = DefaultContextAssembler::without_system_prompt().assemble(events);
    let (sys, conv) = split_by_role(&messages);
    let budget = assembler.trigger(events);
    let mut state: Option<SummaryState> = assembler.starting_state(events);
    let mut asked = Vec::new();
    loop {
        match assembler.next_step(&TokenCalibration::new(), &sys, &conv, &state, budget) {
            AssemblyStep::Done { messages, record, .. } => return (messages, record, asked),
            AssemblyStep::Summarize { to, prompt, .. } => {
                asked.push(prompt);
                let reply = Ok(Some("a summary".to_string()));
                let (next, payload) = assembler.summarized(&state, to, reply, on_bus);
                if let Some(p) = payload {
                    events.push(Event::new(kinds::AGENT_CONTEXT_SUMMARIZED, p));
                }
                state = Some(next);
            }
        }
    }
}

#[test]
fn an_application_can_change_how_the_harness_asks_for_a_summary() {
    let mut prompts = PromptLibrary::with_defaults();
    prompts.set(names::SUMMARIZE_FRESH, "In Dutch, one sentence only:\n\n{conversation}");
    let mut assembler = compacting().with_prompts(prompts);
    let mut events = wordy_session();
    let (_, _, asked) = run(&mut assembler, &mut events, false);
    assert!(!asked.is_empty(), "summarization should have run");
    assert!(asked[0].starts_with("In Dutch, one sentence only:"));
    assert!(asked[0].contains("wordy reply"), "the conversation must still be substituted in");
}

#[test]
fn a_summary_survives_reopening_the_session() {
    let mut events = wordy_session();
    let (_, _, asked) = run(&mut compacting(), &mut events, true);
    assert_eq!(asked.len(), 1, "should have compacted once");

    let (messages, _, asked) = run(&mut compacting(), &mut events, true);
    assert!(asked.is_empty(), "the restored session must reuse the recorded summary");
    assert!(messages
        .iter()
        .any(|m| m.content.as_deref().is_some_and(|c| c.contains("conversation_summary"))));
}

#[test]
fn a_person_can_replace_a_summary_that_dropped_something() {
    let mut events = wordy_session();
    run(&mut compacting(), &mut events, true);
    let replaced =
        override_summary("The user's deploy key is in .secrets/, do not touch it.", 30);
    events.push(Event::new(kinds::AGENT_CONTEXT_SUMMARIZED, replaced));
    let before = summary_from_log(&events).unwrap();
    assert_eq!(before.summarized_count, 30);
    assert!(before.summary.contains("deploy key"));
    let (messages, _, _) = run(&mut compacting(), &mut events, true);
    assert!(
        messages.iter().any(|m| m.content.as_deref().is_some_and(|c| c.contains("deploy key"))),
        "the override should be what the model sees"
    );
}

#[test]
fn superseding_a_summary_leaves_the_old_one_in_the_log() {
    let events = vec![
        Event::new(kinds::AGENT_CONTEXT_SUMMARIZED, override_summary("first attempt", 10)),
        Event::new(kinds::AGENT_CONTEXT_SUMMARIZED, override_summary("second attempt", 20)),
    ];
    let mut bus = EventBus::new();
    for event in events {
        bus.publish(event);
    }
    let events = bus.log();
    let recorded = events.iter().filter(|e| e.kind == kinds::AGENT_CONTEXT_SUMMARIZED).count();
    assert_eq!(recorded, 2, "history is appended to, not rewritten");
    assert_eq!(
        summary_from_log(&events).unwrap().summary,
        "second attempt",
        "the newest one wins"
    );
}

#[test]
fn every_request_records_what_it_was_made_of() {
    let mut events = wordy_session();
    let (_, record, _) = run(&mut compacting(), &mut events, true);
    assert_eq!(record.get("compacted").unwrap().as_bool(), Some(true));
    let manifest = record.array_at("manifest").unwrap();
    assert_eq!(manifest.len() as u64, record.u64_at("messages").unwrap());
    assert!(manifest.iter().any(|m| m.text_at("source") == Some("summary")));
    assert!(manifest.iter().any(|m| m.text_at("source") == Some("verbatim")));
    for entry in manifest {
        assert!(entry.u64_at("tokens").is_some(), "each needs a size");
        assert!(entry.text_at("role").is_some());
    }
    assert!(manifest.iter().any(|m| !m.text_at("text").unwrap_or("").is_empty()));
    assert!(record.u64_at("summarized_messages").unwrap() > 0);
    assert!(record.u64_at("total_tokens").unwrap() > 0);
    assert!(record.u64_at("verbatim_messages").is_some());
}

#[test]
fn a_failed_summary_keeps_the_one_there_is() {
    let mut assembler = compacting();
    let old = Some(SummaryState { summary: "kept".to_string(), summarized_count: 2 });
    let (next, payload) = assembler.summarized(&old, 5, Err("down".to_string()), true);
    assert_eq!(next.summary, "kept");
    assert_eq!(payload.unwrap().u64_at("replaced_messages"), Some(3));
    let (first, _) = assembler.summarized(&None, 1, Err("down".to_string()), false);
    assert_eq!(first.summary, "[Summary unavailable: down]");
}

#[test]
fn a_long_message_is_recorded_at_length_and_says_what_it_cut() {
    let long = "x".repeat(MAX_RECORDED_CHARS + 500);
    let (text, truncated) = recorded_text(&ChatMessage::assistant(&long));
    assert_eq!(text.chars().count(), MAX_RECORDED_CHARS);
    assert_eq!(truncated, Some(long.chars().count()));

    let short = ChatMessage::assistant("brief");
    assert_eq!(recorded_text(&short), ("brief".to_string(), None));
}

#[test]
fn a_message_carrying_an_image_is_not_recorded_as_blank() {
    let mut m = ChatMessage::user("");
    m.content = None;
    m.parts = vec![
        ContentPart::text("what is wrong with this screenshot?"),
        ContentPart::image_base64("image/png", &"A".repeat(4096)),
    ];
    let (text, truncated) = recorded_text(&m);
    assert!(text.contains("what is wrong with this screenshot?"), "{text}");
    assert!(text.contains("image/png"), "the image should be named: {text}");
    assert!(!text.contains("AAAA"), "but not dumped: {text}");
    assert_eq!(truncated, None);
}

#[test]
fn the_cut_counts_characters_not_bytes() {
    let wide = "\u{6c49}".repeat(MAX_RECORDED_CHARS + 100);
    let (text, truncated) = recorded_text(&ChatMessage::assistant(&wide));
    assert_eq!(text.chars().count(), MAX_RECORDED_CHARS);
    assert_eq!(truncated, Some(wide.chars().count()));
    assert_eq!(truncate_str("\u{6c49}\u{6c49}\u{6c49}", 2).chars().next(), Some('\u{6c49}'));
}

fn read_call(id: &str, arguments: &str) -> ToolCall {
    ToolCall {
        id: id.to_string(),
        kind: "function".to_string(),
        function: FunctionCall { name: "read_file".to_string(), arguments: arguments.to_string() },
        extra_content: None,
    }
}

#[test]
fn a_tool_call_is_recorded_as_the_call_it_makes() {
    let m = ChatMessage::assistant_with_tool_calls(
        Some("Let me look.".to_string()),
        vec![read_call("c1", r#"{"path":"src/bus.rs"}"#)],
    );
    let (text, _) = recorded_text(&m);
    assert!(text.contains("Let me look."));
    assert!(text.contains(r#"read_file({"path":"src/bus.rs"})"#), "{text}");
}

#[test]
fn a_finished_turn_is_a_boundary() {
    assert!(at_task_boundary(&vec![]), "an empty log is idle");
    assert!(at_task_boundary(&vec![
        ev(kinds::USER_MESSAGE),
        ev(kinds::AGENT_CYCLE_START),
        ev(kinds::ASSISTANT_MESSAGE),
        ev(kinds::AGENT_CYCLE_END),
    ]));
}

#[test]
fn a_running_turn_is_not_a_boundary() {
    assert!(!at_task_boundary(&vec![
        ev(kinds::USER_MESSAGE),
        ev(kinds::AGENT_CYCLE_START),
        ev(kinds::TOOL_CALL_PROPOSED),
        ev(kinds::TOOL_RESULT),
    ]));
}

fn turn(n: usize, bulk: usize) -> Vec<ChatMessage> {
    let id = format!("call{n}");
    vec![
        ChatMessage::user(&format!("request {n}")),
        ChatMessage::assistant_with_tool_calls(None, vec![read_call(&id, "{}")]),
        ChatMessage::tool_result(&id, &"x".repeat(bulk)),
        ChatMessage::assistant(&format!("done {n}")),
    ]
}

fn conversation(turns: usize, bulk: usize) -> Vec<ChatMessage> {
    (0..turns).flat_map(|n| turn(n, bulk)).collect()
}

#[test]
fn the_cut_lands_on_a_turn_boundary() {
    let cal = TokenCalibration::new();
    let conv = conversation(10, 4_000);
    for retain in (0..20_000).step_by(250) {
        let cut = choose_cutoff(&conv, 0, retain, 1, &cal);
        assert!(
            matches!(conv[cut].role, Role::User),
            "cut at {cut} (retain={retain}) splits a turn"
        );
    }
}

#[test]
fn a_tight_budget_still_cuts_cleanly_and_makes_progress() {
    let conv = conversation(10, 4_000);
    let cut = choose_cutoff(&conv, 0, 10, 1, &TokenCalibration::new());
    assert!(cut > 0, "must fold something rather than give up");
    assert!(matches!(conv[cut].role, Role::User), "should land on the start of a turn");
}

#[test]
fn keep_recent_is_a_floor_the_budget_cannot_cross() {
    let conv = conversation(10, 4_000);
    let cut = choose_cutoff(&conv, 0, 0, 8, &TokenCalibration::new());
    assert!(cut <= conv.len() - 8, "at least keep_recent messages must survive");
}

#[test]
fn retention_aims_at_the_low_water_mark_not_the_trigger() {
    let cal = TokenCalibration::new();
    let sys = vec![ChatMessage::system("you are helpful")];
    let low = retention_budget(50_000, &sys, None, &cal);
    let shallow = retention_budget(85_000, &sys, None, &cal);
    assert!(low < shallow);
    assert!(low > 0);
    assert_eq!(retention_budget(50, &sys, None, &cal), 0);
}

#[test]
fn a_bigger_summary_leaves_less_room_for_verbatim_history() {
    let cal = TokenCalibration::new();
    let sys = vec![ChatMessage::system("you are helpful")];
    let small = retention_budget(50_000, &sys, Some("short"), &cal);
    let large = retention_budget(50_000, &sys, Some(&"word ".repeat(5_000)), &cal);
    assert!(large < small, "summary growth must come out of retention");
}

#[test]
fn boundary_survives_many_completed_turns() {
    let mut log = Vec::new();
    for _ in 0..3 {
        log.push(ev(kinds::USER_MESSAGE));
        log.push(ev(kinds::AGENT_CYCLE_START));
        log.push(ev(kinds::AGENT_CYCLE_END));
    }
    assert!(at_task_boundary(&log));
    log.push(ev(kinds::AGENT_CYCLE_START));
    assert!(!at_task_boundary(&log));
}

#[test]
fn a_report_counts_what_was_summarized() {
    let payload = context_summarized_payload(120, 7, 3);
    assert_eq!(payload.u64_at("summary_len"), Some(120));
    assert_eq!(payload.u64_at("summarized_events"), Some(7));
    assert_eq!(payload.u64_at("retained_events"), Some(3));
}
