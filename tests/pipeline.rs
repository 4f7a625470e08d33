use delivery_core::batcher::{Batch, BatchConfig, Batcher};
use delivery_core::event::{Event, Finalizer, Timestamp};
use delivery_core::finalize::{BatchStatus, FinalizationEngine, FinalizeError};
use delivery_core::request::build_request;
use delivery_core::sink::route_event;
use delivery_core::template::{Template, TemplatePart};

fn event(level: &str, message: &str, batch: u64, id: u64, size: usize) -> Event {
    let mut e = Event::new(
        vec![
            ("level".to_string(), level.to_string()),
            ("message".to_string(), message.to_string()),
        ],
        size,
    );
    e.finalizers.push(Finalizer { batch, id });
    e
}

fn level_template() -> Template {
    Template::parse("{{ level }}").unwrap()
}

fn messages(b: &Batch) -> Vec<String> {
    b.events.iter().map(|e| e.get(&"message".to_string()).unwrap().clone()).collect()
}

fn encode_messages(events: &[Event]) -> Vec<Option<Vec<u8>>> {
    events
        .iter()
        .map(|e| Some(e.get(&"message".to_string()).unwrap().as_bytes().to_vec()))
        .collect()
}

#[test]
fn partition_and_batch_scenario() {
    let template = level_template();
    let mut batcher = Batcher::new(BatchConfig { max_bytes: 1000, max_events: 2, timeout_ms: 1000 });
    let mut closed: Vec<Batch> = Vec::new();
    for (i, (level, msg)) in [("a", "m1"), ("a", "m2"), ("b", "m3")].iter().enumerate() {
        let out = route_event(&mut batcher, &template, event(level, msg, 1, i as u64, 10), 0);
        assert!(out.rejected.is_empty());
        closed.extend(out.flushed);
    }
    closed.extend(batcher.drain());
    assert_eq!(closed.len(), 2);
    assert_eq!(closed[0].key, "a");
    assert_eq!(messages(&closed[0]), vec!["m1", "m2"]);
    assert_eq!(closed[1].key, "b");
    assert_eq!(messages(&closed[1]), vec!["m3"]);

    let customer = "cust-1".to_string();
    let r0 = build_request(&customer, &closed[0].key, &closed[0].events, &encode_messages(&closed[0].events));
    let req0 = r0.request;
    assert_eq!(
        req0.body,
        r#"{"customer_id":"cust-1","entries":[{"log_text":"m1"},{"log_text":"m2"}],"log_type":"a"}"#
    );
    assert_eq!(req0.finalizers, vec![Finalizer { batch: 1, id: 0 }, Finalizer { batch: 1, id: 1 }]);
    assert_eq!(req0.metadata.event_count, 2);
    assert_eq!(req0.metadata.events_byte_size, 20);
    assert_eq!(req0.metadata.request_encoded_size, req0.body.len());
    let r1 = build_request(&customer, &closed[1].key, &closed[1].events, &encode_messages(&closed[1].events));
    assert_eq!(
        r1.request.body,
        r#"{"customer_id":"cust-1","entries":[{"log_text":"m3"}],"log_type":"b"}"#
    );
}

#[test]
fn missing_partition_field_rejects_at_once() {
    let template = Template {
        parts: vec![TemplatePart::Literal("logs-".to_string()), TemplatePart::Field("app".to_string())],
    };
    let mut batcher = Batcher::new(BatchConfig { max_bytes: 100, max_events: 5, timeout_ms: 10 });
    let out = route_event(&mut batcher, &template, event("a", "m", 4, 9, 1), 0);
    assert!(out.flushed.is_empty());
    assert_eq!(out.rejected, vec![Finalizer { batch: 4, id: 9 }]);
    assert!(batcher.open.is_empty());
}

#[test]
fn partition_is_deterministic() {
    let t = Template {
        parts: vec![TemplatePart::Literal("logs-".to_string()), TemplatePart::Field("level".to_string())],
    };
    let e1 = event("warn", "first", 1, 1, 1);
    let e2 = event("warn", "second", 1, 2, 1);
    assert_eq!(t.render(&e1), Some("logs-warn".to_string()));
    assert_eq!(t.render(&e1), t.render(&e1));
    assert_eq!(t.render(&e1), t.render(&e2));
}

#[test]
fn batches_respect_bounds() {
    let mut batcher = Batcher::new(BatchConfig { max_bytes: 25, max_events: 3, timeout_ms: 100 });
    let mut closed: Vec<Batch> = Vec::new();
    let sizes = [10usize, 10, 10, 5, 5, 5, 20, 1];
    for (i, s) in sizes.iter().enumerate() {
        let out = batcher.push("k".to_string(), event("k", &format!("m{}", i), 1, i as u64, *s), 0);
        assert!(out.rejected.is_none());
        closed.extend(out.flushed);
    }
    closed.extend(batcher.drain());
    let mut total = 0;
    for b in &closed {
        assert!(b.events.len() <= 3 && !b.events.is_empty());
        let sum: usize = b.events.iter().map(|e| e.byte_size).sum();
        assert_eq!(sum, b.size);
        assert!(b.size <= 25);
        total += b.events.len();
    }
    assert_eq!(total, sizes.len());
    let order: Vec<String> = closed.iter().flat_map(|b| messages(b)).collect();
    let expected: Vec<String> = (0..sizes.len()).map(|i| format!("m{}", i)).collect();
    assert_eq!(order, expected);
}

#[test]
fn oversized_event_is_rejected() {
    let mut batcher = Batcher::new(BatchConfig { max_bytes: 8, max_events: 3, timeout_ms: 100 });
    let out = batcher.push("k".to_string(), event("k", "big", 2, 7, 9), 0);
    assert!(out.flushed.is_empty());
    assert!(out.rejected.is_some());
    assert!(batcher.open.is_empty());
}

#[test]
fn linger_timeout_flushes() {
    let mut batcher = Batcher::new(BatchConfig { max_bytes: 100, max_events: 10, timeout_ms: 50 });
    batcher.push("a".to_string(), event("a", "x", 1, 1, 1), 0);
    batcher.push("b".to_string(), event("b", "y", 1, 2, 1), 30);
    assert!(batcher.tick(49).is_empty());
    let due = batcher.tick(50);
    assert_eq!(due.len(), 1);
    assert_eq!(due[0].key, "a");
    assert_eq!(batcher.open.len(), 1);
    let due = batcher.tick(80);
    assert_eq!(due.len(), 1);
    assert_eq!(due[0].key, "b");
    assert!(batcher.open.is_empty());
}

#[test]
fn one_bad_event_costs_only_itself() {
    let events = vec![event("a", "m1", 3, 0, 1), event("a", "m2", 3, 1, 1), event("a", "m3", 3, 2, 1)];
    let encoded = vec![Some(b"m1".to_vec()), None, Some(b"m3".to_vec())];
    let out = build_request(&"c".to_string(), &"a".to_string(), &events, &encoded);
    let req = out.request;
    assert_eq!(req.body, r#"{"customer_id":"c","entries":[{"log_text":"m1"},{"log_text":"m3"}],"log_type":"a"}"#);
    assert_eq!(req.finalizers, vec![Finalizer { batch: 3, id: 0 }, Finalizer { batch: 3, id: 2 }]);
    assert_eq!(out.rejected, vec![Finalizer { batch: 3, id: 1 }]);
    assert_eq!(req.metadata.event_count, 2);

    let mut engine = FinalizationEngine::new();
    assert!(engine.register(3, vec![0, 1, 2]));
    let rejected = engine.resolve(&out.rejected, BatchStatus::Rejected);
    assert_eq!(rejected[0].result, Ok(None));
    let delivered = engine.resolve(&req.finalizers, BatchStatus::Delivered);
    assert!(delivered.iter().all(|r| r.status == BatchStatus::Delivered));
    assert_eq!(delivered[1].result, Ok(Some(BatchStatus::Rejected)));
}

#[test]
fn entry_carries_timestamp_and_escapes() {
    let mut e = event("a", "m", 1, 1, 1);
    e.timestamp = Some(Timestamp { secs: 0, nanos: 0 });
    let bad_utf8 = vec![b'q', b'"', 0xff];
    let out = build_request(&"c\"x".to_string(), &"k".to_string(), &vec![e], &vec![Some(bad_utf8)]);
    assert_eq!(
        out.request.body,
        "{\"customer_id\":\"c\\\"x\",\"entries\":[{\"log_text\":\"q\\\"\u{FFFD}\",\"ts_rfc3339\":\"1970-01-01T00:00:00Z\"}],\"log_type\":\"k\"}"
    );
}

#[test]
fn empty_batch_request() {
    let out = build_request(&"c".to_string(), &"k".to_string(), &vec![], &vec![]);
    let req = out.request;
    assert_eq!(req.body, r#"{"customer_id":"c","entries":[],"log_type":"k"}"#);
    assert!(req.finalizers.is_empty());
    assert!(out.rejected.is_empty());
}

#[test]
fn finalizer_resolves_once() {
    let mut engine = FinalizationEngine::new();
    assert!(!engine.register(1, vec![5, 5]));
    assert!(engine.register(1, vec![5, 6]));
    let f = Finalizer { batch: 1, id: 5 };
    assert_eq!(engine.resolve_one(f, BatchStatus::Delivered), Ok(None));
    assert_eq!(engine.resolve_one(f, BatchStatus::Delivered), Err(FinalizeError::AlreadyResolved));
    assert_eq!(
        engine.resolve_one(Finalizer { batch: 2, id: 5 }, BatchStatus::Delivered),
        Err(FinalizeError::UnknownBatch)
    );
    assert_eq!(
        engine.resolve_one(Finalizer { batch: 1, id: 6 }, BatchStatus::Delivered),
        Ok(Some(BatchStatus::Delivered))
    );
}

#[test]
fn template_parsing() {
    assert_eq!(Template::parse("{{ level }}").unwrap().parts, vec![TemplatePart::Field("level".to_string())]);
    assert_eq!(
        Template::parse("logs-{{app}}-x").unwrap().parts,
        vec![
            TemplatePart::Literal("logs-".to_string()),
            TemplatePart::Field("app".to_string()),
            TemplatePart::Literal("-x".to_string()),
        ]
    );
    assert_eq!(Template::parse("a}}b{").unwrap().parts, vec![TemplatePart::Literal("a}}b{".to_string())]);
    assert!(Template::parse("").unwrap().parts.is_empty());
    assert_eq!(Template::parse("ab{{ oops").unwrap_err().position, 2);
}

#[test]
fn request_hands_over_finalizers() {
    let events = vec![event("a", "m1", 8, 0, 1)];
    let out = build_request(&"c".to_string(), &"a".to_string(), &events, &vec![Some(b"m1".to_vec())]);
    let mut req = out.request;
    let fs = req.take_finalizers();
    assert_eq!(fs, vec![Finalizer { batch: 8, id: 0 }]);
    assert!(req.finalizers.is_empty());
    assert_eq!(req.metadata.event_count, 1);
}

#[test]
fn control_characters_are_escaped() {
    let out = build_request(
        &"a\\b".to_string(),
        &"k\n".to_string(),
        &vec![event("a", "m", 1, 1, 1)],
        &vec![Some(vec![0x01, b'\t', 0x1f, b'x'])],
    );
    assert_eq!(
        out.request.body,
        "{\"customer_id\":\"a\\\\b\",\"entries\":[{\"log_text\":\"\\u0001\\t\\u001fx\"}],\"log_type\":\"k\\n\"}"
    );
}
