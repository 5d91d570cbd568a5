use vtn_notifier::admission::{reserve_channel, Identity, UpgradeError};
use vtn_notifier::buffer::Backpressure;
use vtn_notifier::capability::notifier_get;
use vtn_notifier::client::ClientId;
use vtn_notifier::notification::{assemble_frame, encode_frame, Notification};
use vtn_notifier::registry::Registry;
use vtn_notifier::session::{finish, forward_step, LoopAction, LoopEvent, LoopState};

fn note(kind: &str, payload: &str) -> Notification {
    Notification::new(kind.to_string(), payload.to_string())
}

#[test]
fn advertises_websocket() {
    assert!(notifier_get().websocket);
}

#[test]
fn frames_carry_type_and_payload() {
    assert_eq!(encode_frame(&note("evt", "1")), Some("{\"type\":\"evt\",\"payload\":1}".to_string()));
    assert_eq!(encode_frame(&note("evt", "2")), Some("{\"type\":\"evt\",\"payload\":2}".to_string()));
}

#[test]
fn kind_is_escaped() {
    assert_eq!(
        encode_frame(&note("a\"b", "{\"x\":[1,2]}")),
        Some("{\"type\":\"a\\\"b\",\"payload\":{\"x\":[1,2]}}".to_string())
    );
}

#[test]
fn invalid_payload_gives_no_frame() {
    assert_eq!(encode_frame(&note("evt", "{not json")), None);
    assert_eq!(encode_frame(&note("evt", "")), None);
}

#[test]
fn assemble_needs_both_parts() {
    let q = Some("\"evt\"".to_string());
    assert_eq!(assemble_frame(&q, "[]", true), Some("{\"type\":\"evt\",\"payload\":[]}".to_string()));
    assert_eq!(assemble_frame(&q, "[]", false), None);
    assert_eq!(assemble_frame(&None, "[]", true), None);
}

#[test]
fn running_loop_sends_in_order() {
    let s1 = forward_step(LoopState::Running, LoopEvent::Dequeued(note("evt", "1")));
    let s2 = forward_step(s1.next, LoopEvent::Dequeued(note("evt", "2")));
    assert_eq!(s2.next, LoopState::Running);
    match (s1.action, s2.action) {
        (LoopAction::Send(a), LoopAction::Send(b)) => {
            assert_eq!(a, "{\"type\":\"evt\",\"payload\":1}");
            assert_eq!(b, "{\"type\":\"evt\",\"payload\":2}");
        }
        _ => panic!("both messages must be sent"),
    }
}

#[test]
fn bad_message_is_dropped_and_loop_survives() {
    let s = forward_step(LoopState::Running, LoopEvent::Dequeued(note("evt", "nope")));
    assert_eq!(s.next, LoopState::Running);
    assert!(matches!(s.action, LoopAction::DropMessage));
}

#[test]
fn exits_lead_through_draining_to_deregistration() {
    for (e, closes) in [
        (LoopEvent::WriteFailed, true),
        (LoopEvent::BufferClosed, true),
        (LoopEvent::PeerClosed, false),
        (LoopEvent::Cancelled, false),
        (LoopEvent::IdleTimeout, false),
    ] {
        let s = forward_step(LoopState::Running, e);
        assert_eq!(s.next, LoopState::Draining);
        assert_eq!(matches!(s.action, LoopAction::CloseSocket), closes);
        assert_eq!(matches!(s.action, LoopAction::Exit), !closes);
        let f = finish(s.next);
        assert_eq!(f.next, LoopState::Terminated);
        assert!(matches!(f.action, LoopAction::Deregister));
    }
}

#[test]
fn inbound_data_is_ignored() {
    let s = forward_step(LoopState::Running, LoopEvent::InboundData);
    assert_eq!(s.next, LoopState::Running);
    assert!(matches!(s.action, LoopAction::Nothing));
}

#[test]
fn draining_never_returns_to_running() {
    let s = forward_step(LoopState::Draining, LoopEvent::Dequeued(note("evt", "1")));
    assert_eq!(s.next, LoopState::Draining);
    assert!(matches!(s.action, LoopAction::Nothing));
    let t = finish(LoopState::Terminated);
    assert_eq!(t.next, LoopState::Terminated);
    assert!(matches!(finish(LoopState::Running).action, LoopAction::Nothing));
}

#[test]
fn cancellation_releases_the_slot() {
    let mut r = Registry::new(4, Backpressure::DropNewest);
    let (c, t) = reserve_channel(&mut r, Identity::Client(ClientId::from_text("ven-a"))).unwrap();
    let s = forward_step(LoopState::Running, LoopEvent::Cancelled);
    let f = finish(s.next);
    assert!(matches!(f.action, LoopAction::Deregister));
    r.deregister(&c, t);
    assert_eq!(r.lookup(&ClientId::from_text("ven-a")), None);
}

#[test]
fn second_channel_for_client_conflicts() {
    let mut r = Registry::new(4, Backpressure::DropNewest);
    let first = reserve_channel(&mut r, Identity::Client(ClientId::from_text("ven-a"))).unwrap();
    assert_eq!(first.0.as_str(), "ven-a");
    assert_eq!(first.1, 0);
    let err = reserve_channel(&mut r, Identity::Client(ClientId::from_text("ven-a"))).unwrap_err();
    assert_eq!(err, UpgradeError::Conflict);
    assert_eq!(err.status(), 409);
    assert_eq!(err.code(), "notifier_channel_conflict");
    assert_eq!(err.message(), "notifier channel already open for this client");
    assert_eq!(r.lookup(&ClientId::from_text("ven-a")), Some(0));
}

#[test]
fn anonymous_and_clientless_sessions_are_refused() {
    let mut r = Registry::new(4, Backpressure::DropNewest);
    let e = reserve_channel(&mut r, Identity::Anonymous).unwrap_err();
    assert_eq!((e, e.status(), e.code()), (UpgradeError::Unauthorized, 401, "unauthorized".to_string()));
    let e = reserve_channel(&mut r, Identity::NoClient).unwrap_err();
    assert_eq!((e, e.status(), e.code()), (UpgradeError::Forbidden, 403, "forbidden".to_string()));
    assert!(r.has_fresh_token());
}

#[test]
fn client_ids_compare_by_text() {
    let a = ClientId::new("x".to_string());
    assert!(a.same(&ClientId::from_text("x")));
    assert!(!a.same(&ClientId::from_text("y")));
    assert_eq!(a.copy().as_str(), "x");
}

#[test]
fn good_message_after_bad_one_is_still_sent() {
    let bad = forward_step(LoopState::Running, LoopEvent::Dequeued(note("evt", "{oops")));
    assert!(matches!(bad.action, LoopAction::DropMessage));
    let good = forward_step(bad.next, LoopEvent::Dequeued(note("evt", "3")));
    assert_eq!(good.next, LoopState::Running);
    match good.action {
        LoopAction::Send(f) => assert_eq!(f, "{\"type\":\"evt\",\"payload\":3}"),
        _ => panic!("a valid message must be sent"),
    }
}

#[test]
fn control_characters_in_kind_are_escaped() {
    assert_eq!(
        encode_frame(&note("a\nb\u{1}\\/\u{7f}", "null")),
        Some("{\"type\":\"a\\nb\\u0001\\\\/\u{7f}\",\"payload\":null}".to_string())
    );
}
