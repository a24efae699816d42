//! The event log and its branches.
use eventage::bus::{
    mark_ephemeral, mask_text, secrets_masking_transform, with_masked, BusConfig, Delivery,
    EventBus,
};
use eventage::error::BusError;
use eventage::event::Event;
use eventage::json::{Json, JsonMap};
use eventage::{kinds, meta_keys};
use std::sync::mpsc::{channel, sync_channel, TrySendError};

fn json(text: &str) -> Json {
    Json::parse(text).unwrap()
}

fn event(kind: &str, payload: &str) -> Event {
    Event::new(kind, json(payload))
}

#[test]
fn publish_appends_to_log() {
    let mut bus = EventBus::new();
    bus.publish(event(kinds::USER_MESSAGE, r#"{"text": "hi"}"#));
    bus.publish(event(kinds::SYSTEM_HEARTBEAT, "{}"));
    assert_eq!(bus.log_len(), 2);
}

#[test]
fn subscribe_receives_future_events() {
    let mut bus = EventBus::new();
    let sent = bus.publish(event(kinds::USER_MESSAGE, r#"{"text": "hello"}"#));
    assert_eq!(sent.kind, kinds::USER_MESSAGE);
}

#[test]
fn parent_event_id_chain() {
    let mut bus = EventBus::new();
    bus.publish(event(kinds::USER_MESSAGE, "{}"));
    bus.publish(event(kinds::ASSISTANT_MESSAGE, "{}"));
    let log = bus.log();
    assert!(log[0].parent_event_id.is_none(), "first event has no parent");
    assert_eq!(log[1].parent_event_id, Some(log[0].id), "second event points to first");
}

#[test]
fn checkpoint_publishes_event() {
    let mut bus = EventBus::new();
    bus.publish(event(kinds::USER_MESSAGE, "{}"));
    let cp = bus.checkpoint();
    let log = bus.log();
    assert_eq!(log.len(), 2);
    assert_eq!(log[1].id, cp.id);
    assert_eq!(log[1].kind, kinds::CHECKPOINT);
}

#[test]
fn rollback_seals_rejected_branch() {
    let mut bus = EventBus::new();
    bus.publish(event(kinds::USER_MESSAGE, r#"{"text": "q"}"#));
    let cp = bus.checkpoint();
    bus.publish(event(kinds::ASSISTANT_MESSAGE, r#"{"content": "bad"}"#));
    assert_eq!(bus.log_len(), 3);

    assert!(bus.rollback(cp.id).is_ok());

    let log = bus.log();
    assert_eq!(log.len(), 2);
    assert_eq!(log[0].kind, kinds::USER_MESSAGE);
    assert_eq!(log[1].kind, kinds::SYSTEM_ROLLBACK);

    let rejected = bus.rejected_branches_from(log[0].id);
    assert_eq!(rejected.len(), 1);
    assert_eq!(rejected[0].len(), 2);
    assert_eq!(rejected[0][0].kind, kinds::CHECKPOINT);
    assert_eq!(rejected[0][1].kind, kinds::ASSISTANT_MESSAGE);
}

#[test]
fn new_events_after_rollback_continue_from_anchor() {
    let mut bus = EventBus::new();
    bus.publish(event(kinds::USER_MESSAGE, "{}"));
    let cp = bus.checkpoint();
    bus.publish(event(kinds::ASSISTANT_MESSAGE, r#"{"content": "bad"}"#));
    assert!(bus.rollback(cp.id).is_ok());
    bus.publish(event(kinds::ASSISTANT_MESSAGE, r#"{"content": "retry"}"#));

    let log = bus.log();
    assert_eq!(log.len(), 3);
    assert_eq!(log[1].kind, kinds::SYSTEM_ROLLBACK);
    assert_eq!(log[2].payload.text_at("content"), Some("retry"));
    assert_eq!(log[2].parent_event_id, Some(log[1].id));
}

#[test]
fn streaming_deltas_do_not_come_back_as_history() {
    let mut bus = EventBus::new();
    let persisted = vec![
        bus.publish(event(kinds::USER_MESSAGE, r#"{"text": "hi"}"#)),
        mark_ephemeral(event(kinds::ASSISTANT_DELTA, r#"{"content": "he"}"#)),
        mark_ephemeral(event(kinds::ASSISTANT_DELTA, r#"{"content": "llo"}"#)),
        bus.publish(event(kinds::ASSISTANT_MESSAGE, r#"{"content": "hello"}"#)),
    ];
    let mut reopened = EventBus::new();
    reopened.restore_from(persisted);
    let log = reopened.log();
    let restored: Vec<&str> = log.iter().map(|e| e.kind.as_str()).collect();
    assert_eq!(
        restored,
        vec![kinds::USER_MESSAGE, kinds::ASSISTANT_MESSAGE],
        "only durable events belong on the restored branch"
    );
}

#[test]
fn broadcasts_are_marked_so_any_consumer_can_tell() {
    let marked = mark_ephemeral(event(kinds::ASSISTANT_DELTA, "{}"));
    assert_eq!(marked.metadata.get(meta_keys::EPHEMERAL).and_then(|v| v.as_bool()), Some(true));
}

#[test]
fn restore_replays_rollbacks_instead_of_resurrecting_them() {
    let mut bus = EventBus::new();
    let mut captured = Vec::new();
    captured.push(bus.publish(event(kinds::USER_MESSAGE, r#"{"text": "q"}"#)));
    let cp = bus.checkpoint();
    captured.push(cp.clone());
    captured.push(bus.publish(event(kinds::ASSISTANT_MESSAGE, r#"{"content": "bad"}"#)));
    let sealed = bus.rollback(cp.id).unwrap();
    captured.extend(sealed.broadcasts);
    captured.push(sealed.tombstone);
    captured.push(bus.publish(event(kinds::ASSISTANT_MESSAGE, r#"{"content": "good"}"#)));

    let mut restored = EventBus::new();
    restored.restore_from(captured);

    let original_log: Vec<u128> = bus.log().iter().map(|e| e.id).collect();
    let restored_log: Vec<u128> = restored.log().iter().map(|e| e.id).collect();
    assert_eq!(restored_log, original_log, "no resurrected events");

    let rejected = restored.rejected_branches_from(bus.log()[0].id);
    assert_eq!(rejected.len(), 1);
    assert_eq!(rejected[0].len(), 2, "checkpoint + bad assistant message");
    assert_eq!(rejected[0][1].payload.text_at("content"), Some("bad"));
}

#[test]
fn checkpoint_not_found_returns_error() {
    let mut bus = EventBus::new();
    let result = bus.rollback(42);
    assert!(matches!(result, Err(BusError::CheckpointNotFound(_))));
}

fn reject_one(bus: &mut EventBus) -> Vec<Event> {
    bus.publish(event(kinds::ASSISTANT_MESSAGE, r#"{"content": "bad"}"#));
    let cp = bus.checkpoint();
    bus.publish(event(kinds::ASSISTANT_MESSAGE, r#"{"content": "wrong"}"#));
    bus.rollback(cp.id).unwrap().broadcasts
}

#[test]
fn bounded_branches_evict_oldest() {
    let mut bus =
        EventBus::with_config(BusConfig { max_retained_branches: 2, ..BusConfig::default() });
    bus.publish(event(kinds::USER_MESSAGE, r#"{"text": "q"}"#));
    for _ in 0..3 {
        reject_one(&mut bus);
    }
    assert_eq!(bus.all_rejected_branches().len(), 2, "oldest branch should have been evicted");
}

#[test]
fn pruned_event_is_broadcast() {
    let mut bus =
        EventBus::with_config(BusConfig { max_retained_branches: 1, ..BusConfig::default() });
    bus.publish(event(kinds::USER_MESSAGE, r#"{"text": "q"}"#));
    let first = reject_one(&mut bus);
    assert!(first.iter().all(|e| e.kind != kinds::SYSTEM_PRUNED));
    let second = reject_one(&mut bus);
    assert!(second.iter().any(|e| e.kind == kinds::SYSTEM_PRUNED));
}

#[test]
fn bounded_subscriber_drops_on_overflow() {
    let bounded = BusConfig { subscriber_capacity: 2, ..BusConfig::default() };
    assert_eq!(bounded.channel_bound(), Some(2));
    assert_eq!(BusConfig::default().channel_bound(), None);
    assert!(Delivery::Full.keeps_subscriber(), "a full subscriber loses the event only");
    assert!(Delivery::Sent.keeps_subscriber());
    assert!(!Delivery::Closed.keeps_subscriber());

    let mut bus = EventBus::with_config(bounded);
    let (tx, rx) = sync_channel(bus.config.channel_bound().unwrap());
    let mut subscribed = true;
    for i in 0..5u64 {
        let payload = JsonMap::new().with("i", Json::Unsigned(i));
        let stored = bus.publish(Event::new(kinds::USER_MESSAGE, Json::Object(payload)));
        if subscribed {
            let delivery = match tx.try_send(stored) {
                Ok(()) => Delivery::Sent,
                Err(TrySendError::Full(_)) => Delivery::Full,
                Err(TrySendError::Disconnected(_)) => Delivery::Closed,
            };
            subscribed = delivery.keeps_subscriber();
        }
    }
    assert!(subscribed);
    let count = rx.try_iter().count();
    assert_eq!(count, 2, "bounded subscriber should receive exactly capacity events");
    assert_eq!(bus.log_len(), 5, "the log always has the full history");
}

#[test]
fn no_capacity_limit_high_volume() {
    let mut bus = EventBus::new();
    assert_eq!(bus.config.channel_bound(), None);
    let (tx, rx) = channel();
    let n = 2000usize;
    for i in 0..n {
        let payload = JsonMap::new().with("i", Json::Unsigned(i as u64));
        let stored = bus.publish(Event::new(kinds::USER_MESSAGE, Json::Object(payload)));
        tx.send(stored).unwrap();
    }
    let mut count = 0usize;
    for event in rx.try_iter() {
        assert_eq!(event.kind, kinds::USER_MESSAGE);
        count += 1;
    }
    assert_eq!(count, n);
    assert_eq!(bus.log_len(), n);
    assert_eq!(bus.log_since(1950).len(), 50);
}

#[test]
fn a_fork_does_not_touch_its_origin() {
    let mut bus = EventBus::new();
    bus.publish(event(kinds::USER_MESSAGE, r#"{"text": "q"}"#));
    let mut fork = bus.fork();
    fork.publish(event(kinds::ASSISTANT_MESSAGE, r#"{"content": "a"}"#));
    assert_eq!(fork.log_len(), 2);
    assert_eq!(bus.log_len(), 1);
    assert_eq!(fork.log()[0].id, bus.log()[0].id);
}

#[test]
fn secrets_are_masked_in_payloads() {
    let secrets = vec!["hunter2".to_string()];
    let masked = secrets_masking_transform(
        &secrets,
        event(kinds::USER_MESSAGE, r#"{"text": "my password is hunter2"}"#),
    );
    let text = masked.payload.text_at("text").unwrap().to_string();
    assert!(!text.contains("hunter2"), "{text}");
    assert!(text.starts_with("my password is "));
}

#[test]
fn no_secret_is_stored() {
    let secrets = vec!["1234".to_string(), "a\"b".to_string(), "}".to_string()];
    let masked = |payload: &str| {
        let secrets = &secrets[..2];
        secrets_masking_transform(&secrets.to_vec(), event(kinds::USER_MESSAGE, payload))
    };
    let pin = masked(r#"{"pin": 1234}"#);
    assert!(!pin.payload.print().contains("1234"));
    assert_eq!(pin.payload.as_str(), Some(r#"{"pin":[REDACTED]}"#));
    let quoted = masked(r#"{"deep": [{"x": "is a\"b here"}]}"#);
    assert!(quoted.payload.print().contains("is [REDACTED] here"));
    assert!(!quoted.payload.print().contains("a\\\"b"));
    let plain = masked(r#"{"n": 1.5, "t": "fine"}"#);
    assert_eq!(plain.payload.text_at("t"), Some("fine"));
    let all = secrets_masking_transform(&secrets, event(kinds::USER_MESSAGE, r#"{"a": 1}"#));
    assert!(!all.payload.print().contains('}'));
}

#[test]
fn what_cannot_be_shown_is_replaced_by_the_mark() {
    let words = vec!["key".to_string()];
    let start = || event(kinds::USER_MESSAGE, r#"{"a": "key"}"#);
    let clean = (Json::text("x"), "\"x\"".to_string());
    let read = with_masked(start(), "key", &words, "m", "\"m\"", Ok(clean));
    assert_eq!(read.payload.as_str(), Some("x"));
    let shows = || Ok((Json::text("key"), "\"key\"".to_string()));
    let text = with_masked(start(), "key", &words, "m", "\"m\"", shows());
    assert_eq!(text.payload.as_str(), Some("m"));
    let mark = with_masked(start(), "key", &words, "key", "\"key\"", shows());
    assert_eq!(mark.payload.as_str(), Some("[REDACTED]"));
    let kept = with_masked(start(), "plain", &words, "m", "\"m\"", Err("no".to_string()));
    assert_eq!(kept.payload.text_at("a"), Some("key"));
}

#[test]
fn no_secret_is_left_in_a_masked_text() {
    let secrets = vec!["abc".to_string(), "".to_string(), "ca".to_string()];
    let masked = mask_text(&secrets, "cabca abc").unwrap();
    assert_eq!(masked, "c[REDACTED]a [REDACTED]");
    assert!(!masked.contains("abc") && !masked.contains("ca"));
    assert_eq!(mask_text(&vec!["".to_string()], "abc"), None);
}

#[test]
fn an_id_and_its_text_go_both_ways() {
    let mut bus = EventBus::new();
    bus.publish(event(kinds::USER_MESSAGE, r#"{"text": "q"}"#));
    let cp = bus.checkpoint();
    bus.publish(event(kinds::ASSISTANT_MESSAGE, r#"{"content": "x"}"#));
    let sealed = bus.rollback(cp.id).unwrap();
    let written = sealed.tombstone.payload.text_at("branch_id").unwrap();
    assert_eq!(written, uuid::Uuid::from_u128(sealed.branch_id).to_string());
}
