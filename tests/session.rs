use coordinator::protocol::{Event, IceCandidate, Role};
use coordinator::session::{
    handshake_step, inbound_step, outbound_step, HandshakeAction, InboundAction, Inbound,
    OutboundAction, RecvOutcome, Session,
};
use coordinator::store::Store;
use std::sync::{Arc, Mutex};
use tokio::sync::broadcast::error::TryRecvError;

fn joined(passphrase: &str) -> Session {
    let mut s = Session::new();
    assert!(s.awaits_passphrase());
    let p = s.passphrase(Some(Event::Passphrase(passphrase.to_string())));
    assert_eq!(p, Ok(passphrase.to_string()));
    assert!(!s.awaits_passphrase());
    s
}

fn outcome(r: Result<String, TryRecvError>) -> Option<RecvOutcome> {
    match r {
        Ok(m) => Some(RecvOutcome::Message(m)),
        Err(TryRecvError::Lagged(n)) => Some(RecvOutcome::Lagged(n)),
        Err(TryRecvError::Closed) => Some(RecvOutcome::Closed),
        Err(TryRecvError::Empty) => None,
    }
}

#[test]
fn passphrase_accepts_non_empty() {
    let mut s = Session::new();
    assert_eq!(s.passphrase(Some(Event::Passphrase("abc".to_string()))), Ok("abc".to_string()));
    assert_eq!(s.assigned_role(), None);
}

#[test]
fn passphrase_rejects_empty() {
    let mut s = Session::new();
    assert_eq!(
        s.passphrase(Some(Event::Passphrase(String::new()))),
        Err(Event::Error("Empty passphrase.".to_string()))
    );
    assert!(s.awaits_passphrase());
}

#[test]
fn passphrase_rejects_other_envelopes() {
    let mut s = Session::new();
    assert_eq!(
        s.passphrase(Some(Event::Offer("sdp".to_string()))),
        Err(Event::Error("Expected a passphrase.".to_string()))
    );
    assert_eq!(
        s.passphrase(None),
        Err(Event::Error("Expected a passphrase.".to_string()))
    );
    assert!(s.awaits_passphrase());
}

#[test]
fn rejected_passphrase_leaves_store_untouched() {
    let mut store = Store::new();
    let mut s = Session::new();
    assert!(s.passphrase(Some(Event::Passphrase(String::new()))).is_err());
    s.teardown(&mut store);
    assert!(!store.is_claimed(&String::new()));
    assert!(!store.has_topic(&":Initiator".to_string()));
}

#[test]
fn first_claimer_is_initiator() {
    let mut store = Store::new();
    let mut x = joined("abc");
    let mut y = joined("abc");
    let rx = x.role(&mut store);
    assert_eq!(rx.role, Role::Initiator);
    assert!(rx.notification.is_some());
    assert!(store.has_topic(&"abc:notification".to_string()));
    let ry = y.role(&mut store);
    assert_eq!(ry.role, Role::Responder);
    assert!(ry.notification.is_none());
    assert_eq!(x.assigned_role(), Some(Role::Initiator));
    assert_eq!(y.assigned_role(), Some(Role::Responder));
}

#[test]
fn concurrent_claims_give_one_initiator() {
    let runtime = tokio::runtime::Builder::new_multi_thread()
        .worker_threads(4)
        .build()
        .unwrap();
    runtime.block_on(async {
        for round in 0..64u32 {
            let store = Arc::new(Mutex::new(Store::new()));
            let passphrase = format!("pass-{}", round);
            let mut tasks = Vec::new();
            for side in 0..2u32 {
                let store = store.clone();
                let passphrase = passphrase.clone();
                let delay = (round * 7 + side * 3) % 5;
                tasks.push(tokio::spawn(async move {
                    for _ in 0..delay {
                        tokio::task::yield_now().await;
                    }
                    let mut s = Session::new();
                    s.passphrase(Some(Event::Passphrase(passphrase))).unwrap();
                    let mut guard = store.lock().unwrap();
                    s.role(&mut guard).role
                }));
            }
            let mut roles = Vec::new();
            for t in tasks {
                roles.push(t.await.unwrap());
            }
            let initiators = roles.iter().filter(|r| **r == Role::Initiator).count();
            let responders = roles.iter().filter(|r| **r == Role::Responder).count();
            assert_eq!(initiators, 1);
            assert_eq!(responders, 1);
        }
    });
}

#[test]
fn initiator_gets_role_only_after_responder_notifies() {
    let mut store = Store::new();
    let mut x = joined("abc");
    let assigned = x.role(&mut store);
    assert_eq!(assigned.role, Role::Initiator);
    let mut notification = assigned.notification.unwrap();
    let _x_inbound = x.exchange_messages(&mut store);
    assert!(matches!(x.notify(&mut store), HandshakeAction::Wait));
    assert_eq!(notification.try_recv(), Err(TryRecvError::Empty));

    let mut y = joined("abc");
    assert_eq!(y.role(&mut store).role, Role::Responder);
    let _y_inbound = y.exchange_messages(&mut store);
    match y.notify(&mut store) {
        HandshakeAction::Emit(e) => assert_eq!(e, Event::Role(Role::Responder)),
        _ => panic!("the responder announces its role at once"),
    }

    let got = outcome(notification.try_recv()).unwrap();
    match handshake_step(Role::Initiator, &got) {
        HandshakeAction::Emit(e) => assert_eq!(e, Event::Role(Role::Initiator)),
        _ => panic!("the initiator proceeds after the notification"),
    }
    assert_eq!(notification.try_recv(), Err(TryRecvError::Empty));
}

#[test]
fn offer_reaches_counterpart_unchanged() {
    let mut store = Store::new();
    let mut x = joined("abc");
    x.role(&mut store);
    let mut x_inbound = x.exchange_messages(&mut store);
    let mut y = joined("abc");
    y.role(&mut store);
    let mut y_inbound = y.exchange_messages(&mut store);
    y.notify(&mut store);

    let raw = "{\"Offer\":\"sdp-x\"}".to_string();
    let frame = Inbound { raw: raw.clone(), event: Some(Event::Offer("sdp-x".to_string())) };
    match outbound_step(Some(frame)) {
        OutboundAction::Publish(payload) => assert_eq!(x.publish(&mut store, payload), 1),
        _ => panic!("an offer is relayed"),
    }
    match inbound_step(outcome(y_inbound.try_recv()).unwrap()) {
        InboundAction::Deliver(m) => assert_eq!(m, raw),
        _ => panic!("the offer is delivered"),
    }
    assert_eq!(y_inbound.try_recv(), Err(TryRecvError::Empty));

    let answer = "{\"Answer\":\"sdp-y\"}".to_string();
    assert_eq!(y.publish(&mut store, answer.clone()), 1);
    assert_eq!(x_inbound.try_recv(), Ok(answer));
}

#[test]
fn disconnect_clears_store_and_ends_counterpart_relay() {
    let mut store = Store::new();
    let mut x = joined("abc");
    x.role(&mut store);
    let _x_inbound = x.exchange_messages(&mut store);
    let mut y = joined("abc");
    y.role(&mut store);
    let mut y_inbound = y.exchange_messages(&mut store);
    y.notify(&mut store);
    x.publish(&mut store, "{\"Offer\":\"sdp-x\"}".to_string());

    assert!(matches!(outbound_step(None), OutboundAction::Stop));
    x.teardown(&mut store);
    assert!(!store.is_claimed(&"abc".to_string()));
    assert!(!store.has_topic(&"abc:Initiator".to_string()));
    assert!(!store.has_topic(&"abc:Responder".to_string()));
    assert!(!store.has_topic(&"abc:notification".to_string()));

    assert!(matches!(inbound_step(outcome(y_inbound.try_recv()).unwrap()), InboundAction::Deliver(_)));
    assert!(matches!(inbound_step(outcome(y_inbound.try_recv()).unwrap()), InboundAction::Stop));
}

#[test]
fn teardown_twice_matches_once() {
    let mut store = Store::new();
    let mut x = joined("abc");
    x.role(&mut store);
    let _rx = x.exchange_messages(&mut store);
    x.publish(&mut store, "p".to_string());
    store.claim_if_absent("other".to_string());
    store.subscribe("other:Initiator".to_string());
    x.teardown(&mut store);
    x.teardown(&mut store);
    assert!(!store.is_claimed(&"abc".to_string()));
    assert!(!store.has_topic(&"abc:Initiator".to_string()));
    assert!(!store.has_topic(&"abc:Responder".to_string()));
    assert!(!store.has_topic(&"abc:notification".to_string()));
    assert!(store.is_claimed(&"other".to_string()));
    assert!(store.has_topic(&"other:Initiator".to_string()));
}

#[test]
fn passphrase_can_be_reused_after_teardown() {
    let mut store = Store::new();
    let mut x = joined("abc");
    x.role(&mut store);
    let mut y = joined("abc");
    y.role(&mut store);
    x.teardown(&mut store);
    y.teardown(&mut store);
    let mut z = joined("abc");
    assert_eq!(z.role(&mut store).role, Role::Initiator);
}

#[test]
fn outbound_step_relays_only_signaling() {
    let cand = IceCandidate { candidate: "c".to_string(), sdp_mid: None, sdp_m_line_index: Some(1) };
    let f = |raw: &str, event: Option<Event>| Some(Inbound { raw: raw.to_string(), event });
    assert!(matches!(outbound_step(f("o", Some(Event::Offer("s".to_string())))), OutboundAction::Publish(p) if p == "o"));
    assert!(matches!(outbound_step(f("a", Some(Event::Answer("s".to_string())))), OutboundAction::Publish(p) if p == "a"));
    assert!(matches!(outbound_step(f("i", Some(Event::IceCandidate(cand)))), OutboundAction::Publish(p) if p == "i"));
    assert!(matches!(outbound_step(f("c", Some(Event::CloseConnection))), OutboundAction::Stop));
    assert!(matches!(outbound_step(f("p", Some(Event::Passphrase("x".to_string())))), OutboundAction::Ignore));
    assert!(matches!(outbound_step(f("r", Some(Event::Role(Role::Initiator)))), OutboundAction::Ignore));
    assert!(matches!(outbound_step(f("e", Some(Event::Error("x".to_string())))), OutboundAction::Ignore));
    match outbound_step(f("{not json", None)) {
        OutboundAction::Reject(e) => assert_eq!(e, Event::Error("Malformed message.".to_string())),
        _ => panic!("a malformed frame is rejected"),
    }
    assert!(matches!(outbound_step(None), OutboundAction::Stop));
}

#[test]
fn inbound_step_delivers_skips_and_stops() {
    assert!(matches!(inbound_step(RecvOutcome::Message("m".to_string())), InboundAction::Deliver(m) if m == "m"));
    assert!(matches!(inbound_step(RecvOutcome::Lagged(3)), InboundAction::Skip));
    assert!(matches!(inbound_step(RecvOutcome::Closed), InboundAction::Stop));
}

#[test]
fn handshake_step_outcomes() {
    assert!(matches!(handshake_step(Role::Initiator, &RecvOutcome::Closed), HandshakeAction::Stop));
    match handshake_step(Role::Initiator, &RecvOutcome::Lagged(1)) {
        HandshakeAction::Emit(e) => assert_eq!(e, Event::Role(Role::Initiator)),
        _ => panic!("a lag still means the counterpart notified"),
    }
}
