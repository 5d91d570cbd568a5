use vtn_notifier::buffer::Backpressure;
use vtn_notifier::client::ClientId;
use vtn_notifier::notification::Notification;
use vtn_notifier::registry::{
    after_publish, BroadcastCounts, ClientFilter, Dequeued, PublishNext, PublishOutcome, RegisterOutcome, Registry,
};

fn id(s: &str) -> ClientId {
    ClientId::from_text(s)
}

fn note(payload: &str) -> Notification {
    Notification::new("evt".to_string(), payload.to_string())
}

fn next_payload(r: &mut Registry, c: &ClientId, t: u64) -> Option<String> {
    match r.take_next(c, t) {
        Dequeued::Message(n) => Some(n.payload),
        _ => None,
    }
}

#[test]
fn only_the_first_registration_is_admitted() {
    let mut r = Registry::new(4, Backpressure::DropNewest);
    let first = r.register(id("ven-a"));
    assert_eq!(first, RegisterOutcome::Admitted(0));
    for _ in 0..5 {
        assert_eq!(r.register(id("ven-a")), RegisterOutcome::Conflict);
    }
    assert_eq!(r.lookup(&id("ven-a")), Some(0));
    assert_eq!(r.register(id("ven-b")), RegisterOutcome::Admitted(1));
}

#[test]
fn register_then_deregister_restores_state() {
    let mut r = Registry::new(4, Backpressure::DropNewest);
    assert_eq!(r.register(id("ven-a")), RegisterOutcome::Admitted(0));
    assert_eq!(r.lookup(&id("ven-b")), None);
    let t = match r.register(id("ven-b")) {
        RegisterOutcome::Admitted(t) => t,
        RegisterOutcome::Conflict => panic!("ven-b was free"),
    };
    r.deregister(&id("ven-b"), t);
    assert_eq!(r.lookup(&id("ven-b")), None);
    assert_eq!(r.lookup(&id("ven-a")), Some(0));
}

#[test]
fn stale_token_does_not_remove_successor() {
    let mut r = Registry::new(4, Backpressure::DropNewest);
    assert_eq!(r.register(id("ven-a")), RegisterOutcome::Admitted(0));
    r.deregister(&id("ven-a"), 0);
    assert_eq!(r.register(id("ven-a")), RegisterOutcome::Admitted(1));
    r.deregister(&id("ven-a"), 0);
    assert_eq!(r.lookup(&id("ven-a")), Some(1));
    r.deregister(&id("nobody"), 1);
    assert_eq!(r.lookup(&id("ven-a")), Some(1));
}

#[test]
fn publish_to_unknown_client() {
    let mut r = Registry::new(4, Backpressure::DropNewest);
    assert_eq!(r.publish(&id("ven-a"), note("1")), PublishOutcome::NoSuchClient);
}

#[test]
fn publish_after_channel_closed() {
    let mut r = Registry::new(4, Backpressure::DropNewest);
    assert_eq!(r.register(id("ven-a")), RegisterOutcome::Admitted(0));
    r.deregister(&id("ven-a"), 0);
    assert_eq!(r.publish(&id("ven-a"), note("1")), PublishOutcome::NoSuchClient);
    assert_eq!(r.lookup(&id("ven-a")), None);
}

#[test]
fn published_messages_arrive_in_order() {
    let mut r = Registry::new(4, Backpressure::DropNewest);
    let a = id("ven-a");
    assert_eq!(r.register(a.copy()), RegisterOutcome::Admitted(0));
    assert_eq!(r.publish(&a, note("1")), PublishOutcome::DeliveredToBuffer);
    assert_eq!(r.publish(&a, note("2")), PublishOutcome::DeliveredToBuffer);
    assert_eq!(next_payload(&mut r, &a, 0), Some("1".to_string()));
    assert_eq!(next_payload(&mut r, &a, 0), Some("2".to_string()));
    assert!(matches!(r.take_next(&a, 0), Dequeued::Idle));
}

#[test]
fn slow_consumer_under_drop_newest() {
    let mut r = Registry::new(2, Backpressure::DropNewest);
    let a = id("ven-a");
    assert_eq!(r.register(a.copy()), RegisterOutcome::Admitted(0));
    assert_eq!(r.publish(&a, note("1")), PublishOutcome::DeliveredToBuffer);
    assert_eq!(r.publish(&a, note("2")), PublishOutcome::DeliveredToBuffer);
    assert_eq!(r.publish(&a, note("3")), PublishOutcome::BufferFull);
    assert_eq!(r.publish(&a, note("4")), PublishOutcome::BufferFull);
    assert_eq!(next_payload(&mut r, &a, 0), Some("1".to_string()));
    assert_eq!(next_payload(&mut r, &a, 0), Some("2".to_string()));
    assert_eq!(next_payload(&mut r, &a, 0), None);
}

#[test]
fn drop_oldest_reports_delivery() {
    let mut r = Registry::new(1, Backpressure::DropOldest);
    let a = id("ven-a");
    r.register(a.copy());
    assert_eq!(r.publish(&a, note("1")), PublishOutcome::DeliveredToBuffer);
    assert_eq!(r.publish(&a, note("2")), PublishOutcome::DeliveredToBuffer);
    assert_eq!(next_payload(&mut r, &a, 0), Some("2".to_string()));
}

#[test]
fn old_loop_learns_it_was_replaced() {
    let mut r = Registry::new(4, Backpressure::DropNewest);
    let a = id("ven-a");
    r.register(a.copy());
    r.deregister(&a, 0);
    r.register(a.copy());
    r.publish(&a, note("1"));
    assert!(matches!(r.take_next(&a, 0), Dequeued::Unbound));
    assert_eq!(next_payload(&mut r, &a, 1), Some("1".to_string()));
}

#[test]
fn broadcast_reaches_every_client_once() {
    let mut r = Registry::new(4, Backpressure::DropNewest);
    let ids: Vec<ClientId> = (0..100).map(|i| id(&format!("ven-{}", i))).collect();
    for c in &ids {
        assert!(matches!(r.register(c.copy()), RegisterOutcome::Admitted(_)));
    }
    let counts = r.broadcast(&ClientFilter::All, &note("{\"alert\":true}"));
    assert_eq!(counts, BroadcastCounts { accepted: 100, no_such_client: 0, dropped: 0 });
    for (i, c) in ids.iter().enumerate() {
        let t = r.lookup(c).unwrap();
        assert_eq!(t, i as u64);
        assert_eq!(next_payload(&mut r, c, t), Some("{\"alert\":true}".to_string()));
        assert!(matches!(r.take_next(c, t), Dequeued::Idle));
    }
}

#[test]
fn broadcast_respects_filter_and_full_buffers() {
    let mut r = Registry::new(1, Backpressure::DropNewest);
    let (a, b, c) = (id("a"), id("b"), id("c"));
    r.register(a.copy());
    r.register(b.copy());
    r.register(c.copy());
    assert_eq!(r.publish(&b, note("0")), PublishOutcome::DeliveredToBuffer);
    let filter = ClientFilter::AnyOf(vec![id("a"), id("b"), id("zzz")]);
    assert!(filter.admits(&a));
    assert!(!filter.admits(&c));
    let counts = r.broadcast(&filter, &note("9"));
    assert_eq!(counts, BroadcastCounts { accepted: 1, no_such_client: 1, dropped: 1 });
    assert_eq!(next_payload(&mut r, &a, 0), Some("9".to_string()));
    assert_eq!(next_payload(&mut r, &b, 1), Some("0".to_string()));
    assert_eq!(next_payload(&mut r, &b, 1), None);
    assert_eq!(next_payload(&mut r, &c, 2), None);
}

#[test]
fn fresh_tokens_are_available() {
    let r = Registry::new(64, Backpressure::BlockProducer);
    assert!(r.has_fresh_token());
    assert_eq!(r.capacity(), 64);
    assert_eq!(r.policy(), Backpressure::BlockProducer);
}

#[test]
fn publish_around_conflicting_register_uses_old_channel() {
    let mut r = Registry::new(4, Backpressure::DropNewest);
    let a = id("ven-a");
    assert_eq!(r.register(a.copy()), RegisterOutcome::Admitted(0));
    assert_eq!(r.publish(&a, note("1")), PublishOutcome::DeliveredToBuffer);
    assert_eq!(r.register(a.copy()), RegisterOutcome::Conflict);
    assert_eq!(r.publish(&a, note("2")), PublishOutcome::DeliveredToBuffer);
    assert_eq!(r.lookup(&a), Some(0));
    assert_eq!(next_payload(&mut r, &a, 0), Some("1".to_string()));
    assert_eq!(next_payload(&mut r, &a, 0), Some("2".to_string()));
}

#[test]
fn duplicate_is_equal() {
    let n = note("[1,2]");
    let d = n.duplicate();
    assert_eq!(d.kind, n.kind);
    assert_eq!(d.payload, n.payload);
}

#[test]
fn broadcast_where_follows_the_predicate() {
    let mut r = Registry::new(2, Backpressure::DropNewest);
    for name in ["ven-1", "ven-2", "bl-1"] {
        r.register(id(name));
    }
    let counts = r.broadcast_where(&|c: &ClientId| c.as_str().starts_with("ven-"), &note("5"));
    assert_eq!(counts, BroadcastCounts { accepted: 2, no_such_client: 0, dropped: 0 });
    assert_eq!(next_payload(&mut r, &id("ven-1"), 0), Some("5".to_string()));
    assert_eq!(next_payload(&mut r, &id("ven-2"), 1), Some("5".to_string()));
    assert_eq!(next_payload(&mut r, &id("bl-1"), 2), None);
}

#[test]
fn only_block_producer_waits_on_a_full_buffer() {
    assert_eq!(after_publish(PublishOutcome::BufferFull, Backpressure::BlockProducer), PublishNext::WaitAndRetry);
    assert_eq!(after_publish(PublishOutcome::BufferFull, Backpressure::DropNewest), PublishNext::Done);
    assert_eq!(after_publish(PublishOutcome::DeliveredToBuffer, Backpressure::BlockProducer), PublishNext::Done);
    assert_eq!(after_publish(PublishOutcome::NoSuchClient, Backpressure::BlockProducer), PublishNext::Done);
}
