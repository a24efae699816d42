//! Cycles, tools and what guards them.
use eventage::agent::cycle::{has_pending, open_cycle, should_wake, AfterCycle, Backoff, CycleEnd};
use eventage::agent::hook::{first_veto, HookAction};
use eventage::agent::multi::{should_wake_in_set, AgentExit, Exits};
use eventage::agent::prompts::{names, PromptLibrary};
use eventage::agent::session::{history, last_reply, SessionBuilder};
use eventage::agent::speculate::{
    choose_winner, collect_runs, count_finished, first_number, round_error, settle_round,
    CandidateRun, LlmJudgeScorer, Rating,
};
use eventage::agent::strategy::{
    after_hooks, after_schema, begin_call, cap_result_value, finish_tools, outcome_json,
    run_react_step, to_execute, truncate_middle, AgentContext, LoopMove, Preflight, ReactStrategy,
    StepEvent, StepOutcome, StepPhase, ToolOutcome,
};
use eventage::agent::stuck::{detect_stuck, StuckKind};
use eventage::agent::tool::{KeywordToolSelector, ToolRegistry};
use eventage::agent::web::{
    extract_ddg_url, parse_ddg_lite_results, parse_ddg_results, refuse_url, strip_html_tags,
    url_decode, urlencoding, FetchReply, WebFetchTool, WebSearchTool,
};
use eventage::agent::worker::{interested, restarts, WorkerError, WorkerExit};
use eventage::bus::EventBus;
use eventage::error::BusError;
use eventage::event::{Event, Timestamp};
use eventage::json::{Json, JsonMap};
use eventage::llm::types::{ChatMessage, FunctionCall, ToolCall, ToolDefinition};
use eventage::{kinds, meta_keys};

fn json(text: &str) -> Json {
    Json::parse(text).unwrap()
}

fn tool_call(name: &str, args: &str) -> Event {
    let payload =
        JsonMap::new().with("name", Json::text(name)).with("arguments", Json::text(args));
    Event::new(kinds::TOOL_CALL_PROPOSED, Json::Object(payload))
}

fn tool_error(msg: &str) -> Event {
    Event::new(kinds::TOOL_RESULT, Json::Object(JsonMap::new().with("error", Json::text(msg))))
}

fn assistant_msg() -> Event {
    Event::new(kinds::ASSISTANT_MESSAGE, json(r#"{"content": "thinking..."}"#))
}

#[test]
fn detects_repeating_action() {
    let events: Vec<Event> = (0..4).map(|_| tool_call("search", "{}")).collect();
    let analysis = detect_stuck(&events, 10).unwrap();
    assert_eq!(analysis.kind, StuckKind::RepeatingAction);
    assert_eq!(analysis.repeat_count, 4);
}

#[test]
fn detects_repeating_error() {
    let events: Vec<Event> = (0..3).map(|_| tool_error("permission denied")).collect();
    let analysis = detect_stuck(&events, 10).unwrap();
    assert_eq!(analysis.kind, StuckKind::RepeatingError);
}

#[test]
fn detects_monologue() {
    let events: Vec<Event> = (0..4).map(|_| assistant_msg()).collect();
    let analysis = detect_stuck(&events, 10).unwrap();
    assert_eq!(analysis.kind, StuckKind::Monologue);
}

#[test]
fn detects_context_window_loop() {
    let events = vec![
        tool_error("context length exceeded — please shorten"),
        tool_error("context length exceeded — please shorten"),
    ];
    let analysis = detect_stuck(&events, 10).unwrap();
    assert_eq!(analysis.kind, StuckKind::ContextWindowLoop);
}

#[test]
fn no_false_positives_on_healthy_cycle() {
    let ok = || Event::new(kinds::TOOL_RESULT, json(r#"{"result": "ok"}"#));
    let events = vec![
        assistant_msg(),
        tool_call("read_file", r#"{"path":"a.txt"}"#),
        ok(),
        assistant_msg(),
        tool_call("write_file", r#"{"path":"b.txt"}"#),
        ok(),
    ];
    assert!(detect_stuck(&events, 10).is_none());
}

#[test]
fn a_success_between_errors_breaks_the_run() {
    let ok = || Event::new(kinds::TOOL_RESULT, json(r#"{"result": "ok"}"#));
    let denied = || tool_error("denied");
    assert!(detect_stuck(&vec![denied(), ok(), denied(), ok(), denied()], 10).is_none());
    let analysis =
        detect_stuck(&vec![denied(), ok(), denied(), assistant_msg(), denied(), denied()], 10);
    let analysis = analysis.unwrap();
    assert_eq!(analysis.kind, StuckKind::RepeatingError);
    assert_eq!(analysis.repeat_count, 3);
    let unreadable = || Event::new(kinds::TOOL_CALL_PROPOSED, json("{}"));
    let call = || tool_call("search", "{}");
    assert!(detect_stuck(&vec![call(), unreadable(), call(), call()], 10).is_none());
}

#[test]
fn definitions_come_back_in_a_stable_order() {
    let mut registry = ToolRegistry::new();
    for name in ["zebra", "alpha", "middle"] {
        registry.register(ToolDefinition::function(name, "stub", json("{}")));
    }
    let names: Vec<String> =
        registry.definitions().into_iter().map(|d| d.function.name).collect();
    assert_eq!(names, vec!["alpha", "middle", "zebra"]);
    assert!(registry.remove("alpha"));
    assert!(!registry.remove("alpha"));
    let selector = KeywordToolSelector::new(vec!["mid".to_string()]);
    let chosen = selector.select(&registry.definitions());
    assert_eq!(chosen.len(), 1);
    registry.clear();
    assert!(registry.is_empty());
}

#[test]
fn public_urls_are_allowed() {
    for url in [
        "https://docs.rs/serde/latest/serde/",
        "http://example.com/page?q=1",
        "https://8.8.8.8/",
    ] {
        assert!(refuse_url(url).is_none(), "{url} should be fetchable");
    }
}

#[test]
fn non_web_schemes_cannot_be_smuggled_through_a_fetch_tool() {
    for url in ["file:///etc/passwd", "gopher://x/", "ftp://host/f"] {
        assert!(refuse_url(url).is_some(), "{url} should be refused");
    }
}

#[test]
fn the_cloud_metadata_endpoint_is_refused() {
    assert!(refuse_url("http://169.254.169.254/latest/meta-data/").is_some());
}

#[test]
fn addresses_that_map_local_ones_are_refused() {
    for url in [
        "http://[::ffff:127.0.0.1]/",
        "http://[::ffff:10.0.0.1]:8080/",
        "http://[::ffff:192.168.1.1]/",
        "http://[::ffff:a9fe:a9fe]/latest",
        "http://[0:0:0:0:0:ffff:7f00:1]/",
    ] {
        assert!(refuse_url(url).is_some(), "{url} should be refused");
    }
    assert!(refuse_url("http://[::ffff:8.8.8.8]/").is_none());
    assert!(refuse_url("http://[2606:4700::1111]/").is_none());
}

#[test]
fn loopback_and_private_ranges_are_refused() {
    for url in [
        "http://127.0.0.1:4600/api/sessions",
        "http://localhost:8080/",
        "http://10.0.0.5/",
        "http://192.168.1.1/admin",
        "http://172.16.4.4/",
        "http://[::1]:9222/json",
        "http://0.0.0.0/",
    ] {
        assert!(refuse_url(url).is_some(), "{url} should be refused");
    }
}

#[test]
fn the_refusal_says_why_so_the_model_can_adapt() {
    let reason = refuse_url("file:///etc/passwd").unwrap();
    assert!(reason.contains("http"), "unhelpful refusal: {reason}");
}

#[test]
fn malformed_input_is_refused_not_panicked_on() {
    assert!(refuse_url("").is_some());
    assert!(refuse_url("not a url").is_some());
}

#[test]
fn url_texts_go_both_ways() {
    assert_eq!(urlencoding("a b&c/é"), "a+b%26c%2F%C3%A9");
    assert_eq!(url_decode("a+b%26c%2Fd"), "a b&c/d");
    assert_eq!(url_decode("100%"), "100%");
    let plain = "q=1 + 2% of {x}~\n\u{7f}";
    assert_eq!(url_decode(&urlencoding(plain)), plain);
}

#[test]
fn pages_become_text() {
    assert_eq!(
        strip_html_tags("<p>Hello <b>World</b></p><script>var x = 1;</script>"),
        "Hello World"
    );
}

#[test]
fn searches_are_parsed_up_to_their_limit() {
    let one = |i: usize| {
        format!(
            "<a class=\"result__a\" href=\"https://e.com/{i}\">Title {i}</a><a class=\"result__snippet\" href=\"x\">About {i}</a>"
        )
    };
    let page: String = (0..3).map(one).collect();
    let results = parse_ddg_results(&page, 2);
    assert!(results.len() <= 2);
    assert!(parse_ddg_lite_results("", 5).is_empty());
    assert_eq!(extract_ddg_url("nothing here"), "");
    let call = WebSearchTool::new().read_call(&json(r#"{"query": "rust"}"#)).unwrap();
    assert_eq!(call.query, "rust");
    assert!(WebSearchTool::new().read_call(&json("{}")).is_err());
}

#[test]
fn a_fetched_page_is_cut_to_its_limit() {
    let tool = WebFetchTool::new();
    let call = tool.read_call(&json(r#"{"url": "https://e.com/", "max_chars": 3}"#)).unwrap();
    let reply = FetchReply {
        status: 200,
        content_type: "text/plain".to_string(),
        body: b"abcdef".to_vec(),
    };
    let answer = tool.answer(&call, &reply);
    assert_eq!(answer.get("truncated").unwrap().as_bool(), Some(true));
    assert_eq!(answer.u64_at("status"), Some(200));
    assert!(answer.text_at("content").unwrap().starts_with("abc"));
    assert!(tool.read_call(&json(r#"{"url": "file:///x"}"#)).is_err());
}

#[test]
fn parses_judge_scores() {
    let number = |t: &str| first_number(t).map(|s| s.parse::<f64>().unwrap());
    assert_eq!(number("8"), Some(8.0));
    assert_eq!(number("Score: 7.5/10"), Some(7.5));
    assert_eq!(number("I'd rate this 9 out of 10"), Some(9.0));
    assert_eq!(number("no digits"), None);
}

fn run(name: &str, reply: &str, rank: Option<i64>) -> CandidateRun {
    let payload = JsonMap::new().with("content", Json::text(reply));
    CandidateRun {
        name: name.to_string(),
        finished: true,
        events: vec![Event::new(kinds::ASSISTANT_MESSAGE, Json::Object(payload))],
        rating: Rating { rank, score: Json::Signed(rank.unwrap_or(0)) },
    }
}

#[test]
fn winner_is_spliced_and_losers_are_sealed() {
    let mut bus = EventBus::new();
    bus.publish(Event::new(kinds::USER_MESSAGE, json(r#"{"text": "solve it"}"#)));
    let anchor = bus.log().last().unwrap().id;
    let runs = vec![
        run("short", "ok", Some(2)),
        run("long", "a much longer, more detailed answer", Some(35)),
    ];
    let time = Timestamp { secs: 0, nanos: 0 };
    let outcome = settle_round(&mut bus, Some(anchor), &runs, &vec![11, 12], 99, time);
    assert_eq!(outcome.winner, 1);
    assert_eq!(outcome.winner_name, "long");
    assert_eq!(outcome.rejected_branch_ids.len(), 1);

    let log = bus.log();
    let last = log.iter().filter(|e| e.kind == kinds::ASSISTANT_MESSAGE).next_back().unwrap();
    assert_eq!(last.payload.text_at("content"), Some("a much longer, more detailed answer"));

    let rejected = bus.rejected_branches_from(anchor);
    assert_eq!(rejected.len(), 1);
    assert!(rejected[0].iter().any(|e| e.payload.text_at("content") == Some("ok")));
    assert!(log.iter().any(|e| e.kind == kinds::SPECULATION_COMPLETED));
}

#[test]
fn errored_candidates_lose() {
    let names: Vec<String> =
        ["failing", "works"].iter().map(|n| n.to_string()).collect();
    let answer = Event::new(kinds::ASSISTANT_MESSAGE, json(r#"{"content": "answer"}"#));
    let score = Rating { rank: Some(1), score: Json::Unsigned(1) };
    let runs = collect_runs(
        &names,
        vec![Some((vec![], Rating::failed())), Some((vec![answer], score))],
    );
    assert_eq!(count_finished(&runs), 2);
    let mut bus = EventBus::new();
    let time = Timestamp { secs: 0, nanos: 0 };
    let outcome = settle_round(&mut bus, None, &runs, &vec![11, 12], 99, time);
    assert_eq!(outcome.winner_name, "works");
    assert!(outcome.scores[0].is_negative_infinity());
    assert!(!outcome.scores[1].is_negative_infinity());
    assert!(round_error(0, 0).unwrap().contains("no candidates"));
    assert!(round_error(2, 0).is_some());
    assert!(round_error(2, 1).is_none());
    let prompt = LlmJudgeScorer::new("be short").prompt(&runs[1].events);
    assert!(prompt.contains("be short"));
    assert!(prompt.contains("answer"));
}

#[test]
fn a_panicked_candidate_keeps_its_place_and_never_wins() {
    let names: Vec<String> = ["a", "b", "c"].iter().map(|n| n.to_string()).collect();
    let reply = || vec![Event::new(kinds::ASSISTANT_MESSAGE, json(r#"{"content": "x"}"#))];
    let rated = |rank: Option<i64>| Some((reply(), Rating { rank, score: Json::Null }));

    let runs = collect_runs(&names, vec![None, rated(Some(7)), rated(Some(3))]);
    assert_eq!(runs.len(), 3);
    assert!(runs[0].events.is_empty() && !runs[0].finished);
    assert_eq!(count_finished(&runs), 2);
    let mut bus = EventBus::new();
    let time = Timestamp { secs: 0, nanos: 0 };
    let outcome = settle_round(&mut bus, None, &runs, &vec![11, 12, 13], 99, time);
    assert_eq!(outcome.winner, 1);
    assert_eq!(outcome.winner_name, "b");
    assert_eq!(outcome.scores.len(), 3);
    assert!(outcome.scores[0].is_negative_infinity());
    assert_eq!(outcome.rejected_branch_ids, vec![13]);

    let runs = collect_runs(&names, vec![rated(None), None, None]);
    assert_eq!(choose_winner(&runs), 0);
    let runs = collect_runs(&names, vec![Some((reply(), Rating::failed())), None, None]);
    assert_eq!(choose_winner(&runs), 0);
    let runs = collect_runs(&names, vec![None, None, None]);
    assert!(round_error(3, count_finished(&runs)).is_some());
}

fn call_of(arguments: &str) -> ToolCall {
    ToolCall {
        id: "c1".to_string(),
        kind: "function".to_string(),
        function: FunctionCall { name: "ls".to_string(), arguments: arguments.to_string() },
        extra_content: None,
    }
}

#[test]
fn a_tool_call_is_planned_executed_and_answered() {
    let c = call_of(r#"{"p": 1}"#);
    let args = match begin_call(&c, 7, true, true) {
        Preflight::CheckSchema(args) => args,
        _ => panic!("expected a schema check"),
    };
    let args = match after_schema(&c, 7, args, None) {
        Preflight::AskHooks(args) => args,
        _ => panic!("expected hooks"),
    };
    let plan = vec![after_hooks(&c, 7, args, HookAction::Continue, false)];
    assert_eq!(to_execute(&plan), vec![0]);
    let payload = outcome_json("c1", "ls", ToolOutcome::Finished(json("\"x\"")), None);
    assert_eq!(payload.text_at("result"), Some("x"));
    let (results, terminal) = finish_tools(&plan, &vec![(0, payload)]);
    assert_eq!(results.len(), 1);
    assert_eq!(results[0].parent, 7);
    assert!(!terminal);
}

#[test]
fn bad_arguments_and_vetoes_are_answered_without_running() {
    match begin_call(&call_of("{"), 7, true, true) {
        Preflight::Planned(plan) => assert!(to_execute(&vec![plan]).is_empty()),
        _ => panic!("expected a finished plan"),
    }
    let c = call_of("{}");
    let vetoed = after_hooks(&c, 7, json("{}"), HookAction::Deny("no".to_string()), true);
    assert!(to_execute(&vec![vetoed]).is_empty());
    match after_schema(&c, 7, json("{}"), Some("p: missing".to_string())) {
        Preflight::Planned(plan) => {
            let (results, _) = finish_tools(&vec![plan], &vec![]);
            assert!(results[0].payload.text_at("error").unwrap().contains("p: missing"));
        }
        _ => panic!("expected a finished plan"),
    }
}

#[test]
fn long_results_lose_their_middle() {
    assert_eq!(truncate_middle("short", 10), "short");
    let cut = truncate_middle(&"x".repeat(1000), 100);
    assert!(cut.starts_with("xxx"));
    assert!(cut.ends_with("xxx"));
    assert!(cut.len() < 1000);
    for max in [400, 1000, 1234, 30_000] {
        let cut = truncate_middle(&"x".repeat(2 * max), max);
        assert!(cut.len() <= max && max - cut.len() <= 20, "{}", cut.len());
        assert!(cut.starts_with("xxx") && cut.ends_with("xxx") && cut.contains("elided"));
        let wide = truncate_middle(&"é".repeat(max), max);
        assert!(wide.len() <= max && wide.starts_with('é') && wide.ends_with('é'));
    }
    let kept = cap_result_value(json("[1,2]"), None);
    assert_eq!(kept.print(), "[1,2]");
}

#[test]
fn a_step_goes_through_its_phases() {
    let c = HookAction::Continue;
    assert!(matches!(run_react_step(&StepEvent::StepHooks(c.clone())), StepPhase::Assemble));
    assert!(matches!(
        run_react_step(&StepEvent::StepHooks(HookAction::AbortCycle)),
        StepPhase::Finished(StepOutcome::Done)
    ));
    assert!(matches!(
        run_react_step(&StepEvent::Assembled { messages: 0 }),
        StepPhase::Finished(StepOutcome::Done)
    ));
    assert!(matches!(
        run_react_step(&StepEvent::Assembled { messages: 1 }),
        StepPhase::AskLlmHooks
    ));
    assert!(matches!(run_react_step(&StepEvent::LlmHooks(c)), StepPhase::CallLlm));
    assert!(matches!(
        run_react_step(&StepEvent::Replied { tool_calls: 2 }),
        StepPhase::ExecuteTools
    ));
    let strategy = ReactStrategy::default();
    assert!(matches!(strategy.advance(0, StepOutcome::Continue), LoopMove::Step(1)));
    assert!(matches!(strategy.advance(1, StepOutcome::Done), LoopMove::Finish));
    assert!(matches!(
        strategy.advance(strategy.max_steps, StepOutcome::Continue),
        LoopMove::Finalize
    ));
    let mut library = PromptLibrary::with_defaults();
    let nudged = strategy.finalize(&library, vec![ChatMessage::user("hi")]).unwrap();
    assert!(nudged[1].content.as_deref().unwrap().contains("reached the step limit"));
    assert_eq!(nudged[1].name.as_deref(), Some("harness"));
    assert!(strategy.finalize(&library, vec![]).is_none());
    library.set(names::WRAP_UP, "Stop now.");
    let nudged = strategy.finalize(&library, vec![ChatMessage::user("hi")]).unwrap();
    assert_eq!(nudged[1].content.as_deref(), Some("Stop now."));
}

#[test]
fn a_replaced_hint_is_what_a_stuck_agent_reads() {
    let who = AgentContext { agent_id: "a".to_string(), trace_id: "t".to_string() };
    let events: Vec<Event> = (0..3).map(|_| tool_call("search", "{}")).collect();
    let mut library = PromptLibrary::with_defaults();
    let opening = open_cycle(&who, &library, 1, &events);
    assert_eq!(opening.len(), 2);
    assert!(opening[0].payload.text_at("hint").unwrap().contains("repeating the same action"));
    library.set(names::STUCK_HINT, "Ask a person.");
    let opening = open_cycle(&who, &library, 1, &events);
    assert_eq!(opening[0].payload.text_at("hint"), Some("Ask a person."));
    assert!(open_cycle(&who, &library, 0, &events).is_empty());
    assert_eq!(open_cycle(&who, &library, 1, &vec![]).len(), 1);
}

#[test]
fn agents_wake_for_what_concerns_them() {
    let user = Event::new(kinds::USER_MESSAGE, json("{}"));
    assert!(should_wake(&user, "a"));
    assert!(should_wake_in_set(&user, "a"));
    let to_b = Event::new(kinds::AGENT_MESSAGE, json("{}"))
        .with_meta(meta_keys::TO_AGENT_ID, Json::text("b"));
    assert!(!should_wake(&to_b, "a"));
    assert!(should_wake(&to_b, "b"));
    assert!(has_pending(&vec![user]));
    assert!(!has_pending(&vec![]));
}

#[test]
fn errors_are_waited_out() {
    let mut backoff = Backoff::new();
    assert!(backoff.may_run(0));
    let failed = CycleEnd::Failed("down".to_string());
    match backoff.after_cycle(&failed, 1_000) {
        AfterCycle::Report(p) => assert!(p.text_at("content").unwrap().contains("down")),
        _ => panic!("expected a report"),
    }
    assert!(!backoff.may_run(1_999));
    assert!(backoff.may_run(2_000));
    backoff.after_cycle(&failed, 2_000);
    assert!(!backoff.may_run(3_999));
    assert!(backoff.may_run(4_000));
    assert!(matches!(backoff.after_cycle(&CycleEnd::Completed, 5_000), AfterCycle::Listen));
    assert!(backoff.may_run(5_000));
    assert!(matches!(backoff.after_cycle(&CycleEnd::BusFailed, 6_000), AfterCycle::Stop));
}

#[test]
fn a_set_ends_with_its_first_failure() {
    let mut exits: Exits<u32> = Exits::new();
    assert!(!exits.take(AgentExit::Finished));
    assert!(exits.take(AgentExit::Failed(1)));
    assert!(exits.take(AgentExit::Failed(2)));
    assert!(!exits.take(AgentExit::Panicked));
    assert_eq!(exits.first_err, Some(1));
}

#[test]
fn workers_hear_their_kinds_and_are_restarted() {
    assert!(interested(&vec![], "x"));
    assert!(!interested(&vec!["y".to_string()], "x"));
    assert!(restarts(&WorkerExit::Panicked));
    assert!(!restarts(&WorkerExit::Closed));
    assert!(!restarts(&WorkerExit::Failed(WorkerError::Bus(BusError::ChannelClosed))));
    let e = WorkerError::Worker("x".to_string());
    assert_eq!(e.to_text(), "worker error: x");
    assert!(restarts(&WorkerExit::Failed(e)));
}

#[test]
fn the_first_veto_decides() {
    let answers =
        vec![HookAction::Continue, HookAction::Deny("no".to_string()), HookAction::AbortCycle];
    assert!(matches!(first_veto(&answers), HookAction::Deny(_)));
    assert!(matches!(first_veto(&vec![]), HookAction::Continue));
}

#[test]
fn a_session_reads_its_log() {
    let user = Event::new(kinds::USER_MESSAGE, json(r#"{"text": "hi"}"#));
    let reply = Event::new(kinds::ASSISTANT_MESSAGE, json(r#"{"content": "hello"}"#));
    let log = vec![user, reply];
    assert_eq!(last_reply(&log), "hello");
    let turns = history(&log);
    assert_eq!(turns[0], ("user".to_string(), "hi".to_string()));
    assert_eq!(turns[1].1, "hello");
    let builder = SessionBuilder::new().max_steps(3).context_window(10).system_prompt("p");
    assert_eq!(builder.strategy().max_steps, 3);
    assert_eq!(builder.assembler().max_events, Some(10));
}
