//! Permissions, budgets and recovery.
use eventage::agent::budget::TokenBudgetHook;
use eventage::agent::hook::HookAction;
use eventage::agent::permission::{glob_match, Gate, PermissionPolicyHook, PermissionVerdict, Waited};
use eventage::agent::recovery::{
    decide, find_orphaned_tool_calls, interrupted_payload, replayed_payload, report_payload,
    OrphanedCall, RecoveryPass, RecoveryReport, Resume, ResumePolicy, ToolRecovery,
};
use eventage::bus::EventBus;
use eventage::event::Event;
use eventage::json::Json;
use eventage::{kinds, meta_keys};

fn json(text: &str) -> Json {
    Json::parse(text).unwrap()
}

#[test]
fn glob_semantics() {
    assert!(glob_match("read_*", "read_file"));
    assert!(glob_match("*", "anything"));
    assert!(glob_match("exact", "exact"));
    assert!(glob_match("*_file", "write_file"));
    assert!(glob_match("a*b*c", "a-x-b-y-c"));
    assert!(!glob_match("read_*", "write_file"));
    assert!(!glob_match("exact", "exactly"));
    assert!(!glob_match("a*b*c", "a-c-b"));
}

#[test]
fn globs_of_stars_and_nothing() {
    assert!(glob_match("", ""));
    assert!(!glob_match("", "x"));
    assert!(glob_match("***", ""));
    assert!(glob_match("é*", "éa"));
    assert!(!glob_match("ab*ab", "ab"));
}

#[test]
fn first_matching_rule_wins() {
    let policy = PermissionPolicyHook::new()
        .deny("write_secrets", "secrets are protected")
        .allow("write_*")
        .deny_by_default("not allowlisted");

    assert!(matches!(
        policy.verdict_for("write_secrets"),
        PermissionVerdict::Deny(_)
    ));
    assert!(matches!(
        policy.verdict_for("write_file"),
        PermissionVerdict::Allow
    ));
    assert!(matches!(
        policy.verdict_for("launch_rocket"),
        PermissionVerdict::Deny(_)
    ));
}

#[test]
fn a_denial_says_why_and_asking_gates() {
    let policy = PermissionPolicyHook::new().deny("rm", "no").ask("mv");
    assert!(matches!(policy.before_tool("rm"), Gate::Act(_)));
    assert!(matches!(policy.before_tool("mv"), Gate::Ask));
    assert!(matches!(policy.before_tool("ls"), Gate::Act(HookAction::Continue)));
    match policy.verdict_for("rm") {
        PermissionVerdict::Deny(why) => assert_eq!(why, "no"),
        _ => panic!("expected a denial"),
    }
}

#[test]
fn silence_is_no_approval() {
    let policy = PermissionPolicyHook::new().ask_by_default();
    for waited in [Waited::TimedOut, Waited::Closed, Waited::Unpublished("bus closed".to_string())] {
        let action = policy.ask_for_approval("r1", "rm", &waited);
        assert!(!matches!(action, Some(HookAction::Continue)));
        assert!(action.is_some());
    }
}

fn usage_event(agent_id: &str, input: u64, output: u64) -> Event {
    Event::new(kinds::ASSISTANT_MESSAGE, json(r#"{"content": "x", "tool_calls": []}"#))
        .with_meta(meta_keys::AGENT_ID, Json::text(agent_id))
        .with_meta(meta_keys::LLM_INPUT_TOKENS, Json::Unsigned(input))
        .with_meta(meta_keys::LLM_OUTPUT_TOKENS, Json::Unsigned(output))
}

#[test]
fn aborts_when_budget_exhausted() {
    let events = vec![usage_event("a", 900, 200)];
    let mut hook = TokenBudgetHook::new(1000, 800);
    let step = hook.before_llm(&events, "a");
    assert!(matches!(step.action, HookAction::AbortCycle));
    assert_eq!(step.publish.unwrap().0, kinds::BUDGET_EXHAUSTED);
}

#[test]
fn warns_and_injects_note_near_limit() {
    let events = vec![usage_event("a", 700, 150)];
    let mut hook = TokenBudgetHook::new(1000, 800);
    let step = hook.before_llm(&events, "a");
    assert!(matches!(step.action, HookAction::Continue));
    let note = step.note.expect("wrap-up note should be injected");
    assert!(note.content.unwrap().contains("budget nearly exhausted"));
    assert_eq!(step.publish.unwrap().0, kinds::BUDGET_WARNING);
    assert_eq!(hook.used_tokens(&events, "a"), 850);
}

#[test]
fn agent_scope_ignores_other_agents() {
    let events = vec![usage_event("other", 5000, 5000), usage_event("me", 10, 10)];
    let mut hook = TokenBudgetHook::new(1000, 800).agent_scoped();
    let step = hook.before_llm(&events, "me");
    assert!(matches!(step.action, HookAction::Continue));
    assert!(step.note.is_none(), "no warning expected under agent scope");
}

fn proposed(id: &str, name: &str, arguments: &str) -> Event {
    let mut payload = json("{}");
    if let Json::Object(map) = &mut payload {
        map.put("tool_call_id", Json::text(id));
        map.put("name", Json::text(name));
        map.put("arguments", Json::text(arguments));
    }
    Event::new(kinds::TOOL_CALL_PROPOSED, payload)
}

fn orphans_of(name: &str) -> Vec<OrphanedCall> {
    find_orphaned_tool_calls(&vec![
        Event::new(kinds::USER_MESSAGE, json(r#"{"text": "go"}"#)),
        proposed("c1", name, "{}"),
    ])
}

#[test]
fn finds_only_unanswered_calls() {
    let events = vec![
        proposed("a", "t", "{}"),
        Event::new(kinds::TOOL_RESULT, json(r#"{"tool_call_id": "a"}"#)),
        proposed("b", "write_file", "{\"p\":1}"),
    ];
    let orphans = find_orphaned_tool_calls(&events);
    assert_eq!(orphans.len(), 1);
    assert_eq!(orphans[0].tool_call_id, "b");
    assert_eq!(orphans[0].name, "write_file");
    assert_eq!(orphans[0].arguments, "{\"p\":1}");
}

#[test]
fn default_reports_without_executing() {
    let orphans = orphans_of("write_file");
    let policy = ToolRecovery::new();
    assert!(matches!(decide(&policy, &orphans[0], true), Resume::Report));
    let mut report = RecoveryReport::default();
    let payload = interrupted_payload(&orphans[0], &mut report);
    assert_eq!(report.reported, 1);
    assert_eq!(report.replayed, 0);
    assert_eq!(payload.text_at("recovered"), Some("interrupted"));
    assert!(payload.text_at("error").unwrap().contains("UNKNOWN whether it took effect"));
    let summary = report_payload(&report);
    assert_eq!(summary.u64_at("reported"), Some(1));
}

#[test]
fn replay_policy_reexecutes_idempotent_tools() {
    let orphans = orphans_of("read_file");
    let policy = ToolRecovery::new().replay("read_*");
    match decide(&policy, &orphans[0], true) {
        Resume::Replay(args) => assert_eq!(args.print(), "{}"),
        _ => panic!("expected a replay"),
    }
    let mut report = RecoveryReport::default();
    let payload = replayed_payload(&orphans[0], Ok(json(r#"{"ok": true}"#)), &mut report);
    assert_eq!(report.replayed, 1);
    assert_eq!(payload.text_at("recovered"), Some("replayed"));
    assert_eq!(payload.get("result").unwrap().get("ok").unwrap().as_bool(), Some(true));
}

#[test]
fn replay_without_registry_degrades_to_report() {
    let orphans = orphans_of("read_file");
    let policy = ToolRecovery::new().replay("read_*");
    assert!(matches!(decide(&policy, &orphans[0], false), Resume::Report));
}

#[test]
fn fail_policy_refuses_to_resume() {
    let orphans = orphans_of("transfer_funds");
    let policy = ToolRecovery::new().fail("transfer_*");
    match decide(&policy, &orphans[0], false) {
        Resume::Refuse(why) => assert!(why.contains("refusing to resume")),
        _ => panic!("expected a refusal"),
    }
}

#[test]
fn clean_log_is_a_no_op() {
    let events = vec![Event::new(kinds::USER_MESSAGE, json(r#"{"text": "hi"}"#))];
    assert!(find_orphaned_tool_calls(&events).is_empty());
    let mut bus = EventBus::new();
    for event in events {
        bus.publish(event);
    }
    let pass = RecoveryPass::begin(&bus.log());
    assert!(pass.current().is_none());
    assert!(pass.report.is_empty());
    if let Some(record) = pass.finish() {
        bus.publish(Event::new(kinds::SYSTEM_RECOVERED, record));
    }
    assert!(!bus.log().iter().any(|e| e.kind == kinds::SYSTEM_RECOVERED));
}

#[test]
fn recovery_rules_in_order() {
    let policy = ToolRecovery::new().report("a*").fail("ab").with_default(ResumePolicy::Replay);
    assert!(matches!(policy.policy_for("ab"), ResumePolicy::ReportInterrupted));
    assert!(matches!(policy.policy_for("b"), ResumePolicy::Replay));
}

#[test]
fn a_second_pass_finds_nothing() {
    let proposed = |id: &str| {
        let payload = format!(r#"{{"tool_call_id": "{id}", "name": "t", "arguments": "{{}}"}}"#);
        Event::new(kinds::TOOL_CALL_PROPOSED, Json::parse(&payload).unwrap())
    };
    let mut log = vec![proposed("a"), proposed("b")];
    let mut pass = RecoveryPass::begin(&log);
    assert_eq!(pass.current().unwrap().tool_call_id, "a");
    let first = pass.settle(Some(Ok(Json::text("done"))));
    assert_eq!(first.text_at("result"), Some("done"));
    let second = pass.settle(None);
    assert_eq!(second.text_at("tool_call_id"), Some("b"));
    assert_eq!(second.text_at("recovered"), Some("interrupted"));
    assert!(pass.current().is_none());
    assert_eq!(pass.report, RecoveryReport { replayed: 1, reported: 1 });
    let record = pass.finish().unwrap();
    assert_eq!(record.u64_at("interrupted_tool_calls"), Some(2));
    for payload in [first, second] {
        log.push(Event::new(kinds::TOOL_RESULT, payload));
    }
    log.push(Event::new(kinds::SYSTEM_RECOVERED, record));
    let again = RecoveryPass::begin(&log);
    assert!(again.current().is_none());
    assert!(again.finish().is_none());
    assert!(again.report.is_empty());
}
