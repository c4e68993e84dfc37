use heyo_chat::channel::Delivery;
use heyo_chat::jwt::Claims;
use heyo_chat::message::Message;
use heyo_chat::registry::{failed_recipients, Conflict, Connections};
use heyo_chat::service::{HeyoChat, JoinError};
use heyo_chat::session::{SessionAction, SessionEvent, SessionState};

const NOW: i64 = 1_700_000_000;

fn msg(sender: &str, body: &str) -> Message {
    Message::new(sender.to_string(), body.to_string())
}

fn claims(username: &str, exp: i64) -> Claims {
    Claims { exp, username: username.to_string() }
}

#[test]
fn second_register_conflicts_and_keeps_first_channel() {
    let mut c = Connections::new();
    let mut rx = c.register("alice".to_string()).unwrap();
    assert_eq!(c.register("alice".to_string()).err(), Some(Conflict));
    assert_eq!(c.len(), 1);
    let report = c.broadcast(&msg("bob", "still here?"));
    assert_eq!(report.len(), 1);
    assert_eq!(report[0].delivery, Delivery::Queued);
    let got = rx.try_recv().unwrap();
    assert_eq!(got.sender, "bob");
    assert_eq!(got.body, "still here?");
}

#[test]
fn unregister_is_idempotent() {
    let mut c = Connections::new();
    let _a = c.register("alice".to_string()).unwrap();
    let _b = c.register("bob".to_string()).unwrap();
    c.unregister(&"carol".to_string());
    assert_eq!(c.roster(), vec!["alice".to_string(), "bob".to_string()]);
    c.unregister(&"alice".to_string());
    assert_eq!(c.roster(), vec!["bob".to_string()]);
    c.unregister(&"alice".to_string());
    assert_eq!(c.roster(), vec!["bob".to_string()]);
    assert!(!c.contains(&"alice".to_string()));
    assert!(c.contains(&"bob".to_string()));
}

#[test]
fn messages_arrive_in_publish_order() {
    let mut c = Connections::new();
    let mut rx = c.register("alice".to_string()).unwrap();
    c.broadcast(&msg("bob", "m1"));
    assert_eq!(rx.try_recv().unwrap().body, "m1");
    c.broadcast(&msg("bob", "m2"));
    assert_eq!(rx.try_recv().unwrap().body, "m2");
    assert!(rx.try_recv().is_err());
}

#[test]
fn full_slot_drops_later_message_and_keeps_earlier() {
    let mut c = Connections::new();
    let mut rx = c.register("alice".to_string()).unwrap();
    let first = c.broadcast(&msg("bob", "m1"));
    let second = c.broadcast(&msg("bob", "m2"));
    assert_eq!(first[0].delivery, Delivery::Queued);
    assert_eq!(second[0].delivery, Delivery::Full);
    assert!(second[0].delivery.failed());
    assert_eq!(rx.try_recv().unwrap().body, "m1");
    assert!(rx.try_recv().is_err());
}

#[test]
fn blocked_subscriber_does_not_stop_others() {
    let mut c = Connections::new();
    let mut a = c.register("a".to_string()).unwrap();
    let _b = c.register("b".to_string()).unwrap();
    c.broadcast(&msg("x", "fill"));
    assert_eq!(a.try_recv().unwrap().body, "fill");
    let report = c.broadcast(&msg("x", "next"));
    assert_eq!(report.len(), 2);
    assert_eq!(report[0].recipient, "a");
    assert_eq!(report[0].delivery, Delivery::Queued);
    assert_eq!(report[1].recipient, "b");
    assert_eq!(report[1].delivery, Delivery::Full);
    assert_eq!(a.try_recv().unwrap().body, "next");
}

#[test]
fn closed_subscriber_is_reported_and_skipped() {
    let mut c = Connections::new();
    let rx = c.register("gone".to_string()).unwrap();
    let mut live = c.register("live".to_string()).unwrap();
    drop(rx);
    let report = c.broadcast(&msg("x", "hello"));
    assert_eq!(report[0].delivery, Delivery::Closed);
    assert!(report[0].delivery.failed());
    assert_eq!(report[1].delivery, Delivery::Queued);
    assert!(!report[1].delivery.failed());
    assert_eq!(live.try_recv().unwrap().body, "hello");
}

#[test]
fn broadcast_to_empty_registry_reports_nothing() {
    let mut c = Connections::new();
    assert!(c.broadcast(&msg("x", "anyone?")).is_empty());
    assert_eq!(c.len(), 0);
}

#[test]
fn slot_is_reusable_after_leaving() {
    let mut c = Connections::new();
    let first = c.register("i".to_string()).unwrap();
    c.unregister(&"i".to_string());
    drop(first);
    let mut again = c.register("i".to_string()).unwrap();
    c.broadcast(&msg("i", "back"));
    assert_eq!(again.try_recv().unwrap().body, "back");
}

#[test]
fn alice_joins_sends_and_rejoins() {
    let mut chat = HeyoChat::new("SECRET-REDACTED".to_string());
    let mut stream = chat.join_identity("alice".to_string()).unwrap();
    let report = chat.send_message(msg("alice", "hi"));
    assert_eq!(report.len(), 1);
    assert_eq!(report[0].recipient, "alice");
    let got = stream.try_recv().unwrap();
    assert_eq!(got.sender, "alice");
    assert_eq!(got.body, "hi");
    assert_eq!(chat.join_identity("alice".to_string()).err(), Some(JoinError::AlreadyConnected));
    assert!(chat.is_connected(&"alice".to_string()));
    chat.leave(&"alice".to_string());
    drop(stream);
    assert!(!chat.is_connected(&"alice".to_string()));
    assert!(chat.join_identity("alice".to_string()).is_ok());
}

#[test]
fn expired_credential_is_unauthenticated() {
    let mut chat = HeyoChat::new("SECRET-REDACTED".to_string());
    let r = chat.join(Some(claims("alice", NOW - 1)), NOW);
    assert_eq!(r.err(), Some(JoinError::Unauthenticated));
    assert!(chat.roster().is_empty());
}

#[test]
fn current_credential_joins() {
    let mut chat = HeyoChat::new("SECRET-REDACTED".to_string());
    assert!(chat.join(Some(claims("alice", NOW + 1800)), NOW).is_ok());
    assert_eq!(chat.roster(), vec!["alice".to_string()]);
    let again = chat.join(Some(claims("alice", NOW + 1800)), NOW);
    assert_eq!(again.err(), Some(JoinError::AlreadyConnected));
}

#[test]
fn credential_expiring_now_is_still_current() {
    assert!(claims("a", NOW).is_current(NOW));
    assert!(!claims("a", NOW).is_current(NOW + 1));
    let mut chat = HeyoChat::new("k".to_string());
    assert!(chat.join(Some(claims("a", NOW)), NOW).is_ok());
}

#[test]
fn rejected_signature_is_unauthenticated() {
    let mut chat = HeyoChat::new("k".to_string());
    assert_eq!(chat.join(None, NOW).err(), Some(JoinError::Unauthenticated));
    assert!(chat.roster().is_empty());
}

#[test]
fn secret_is_kept() {
    let chat = HeyoChat::new("SECRET-REDACTED".to_string());
    assert_eq!(chat.jwt_secret(), "SECRET-REDACTED");
}

#[test]
fn duplicate_copies_fields() {
    let m = msg("alice", "hi");
    let d = m.duplicate();
    assert_eq!(d.sender, "alice");
    assert_eq!(d.body, "hi");
}

#[test]
fn session_becomes_active_only_on_admission() {
    assert_eq!(
        SessionState::Joining.step(SessionEvent::Admitted),
        (SessionState::Active, SessionAction::Idle)
    );
    assert_eq!(
        SessionState::Joining.step(SessionEvent::Refused),
        (SessionState::Terminated, SessionAction::Idle)
    );
    assert_eq!(
        SessionState::Joining.step(SessionEvent::MessageArrived),
        (SessionState::Joining, SessionAction::Idle)
    );
}

#[test]
fn active_session_forwards_and_unregisters_on_failure() {
    assert_eq!(
        SessionState::Active.step(SessionEvent::MessageArrived),
        (SessionState::Active, SessionAction::Forward)
    );
    for ev in [SessionEvent::WriteFailed, SessionEvent::ChannelClosed, SessionEvent::StreamClosed] {
        assert_eq!(
            SessionState::Active.step(ev),
            (SessionState::Terminated, SessionAction::Unregister)
        );
    }
    assert_eq!(
        SessionState::Terminated.step(SessionEvent::WriteFailed),
        (SessionState::Terminated, SessionAction::Idle)
    );
}

#[test]
fn failed_recipients_lists_dropped_copies_in_order() {
    let mut c = Connections::new();
    let gone = c.register("gone".to_string()).unwrap();
    let mut ok = c.register("ok".to_string()).unwrap();
    let _full = c.register("full".to_string()).unwrap();
    drop(gone);
    c.broadcast(&msg("x", "fill"));
    assert_eq!(ok.try_recv().unwrap().body, "fill");
    let report = c.broadcast(&msg("x", "again"));
    assert_eq!(failed_recipients(&report), vec!["gone".to_string(), "full".to_string()]);
    assert!(failed_recipients(&Vec::new()).is_empty());
}
