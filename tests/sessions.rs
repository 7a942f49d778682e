use std::collections::HashMap;

use signaling::handlers::{admit_connection, RoomRequestError};
use signaling::registry::Registry;
use signaling::room::{AdmissionError, RegisterError, RoomKey};
use signaling::session::{
    heartbeat_expired, rejection_frame, should_forward, Action, Phase, Session,
    HEARTBEAT_INTERVAL_MS, HEARTBEAT_TIMEOUT_MS,
};
use signaling::types::{SignalMessage, SignalPayload};

fn params(pairs: &[(&str, &str)]) -> HashMap<String, String> {
    pairs.iter().map(|(k, v)| (k.to_string(), v.to_string())).collect()
}

fn msg(from: &str, payload: SignalPayload) -> SignalMessage {
    SignalMessage { from: from.to_string(), payload }
}

fn offer(to: &str, sdp: &str) -> SignalPayload {
    SignalPayload::Offer { to: to.to_string(), sdp: sdp.to_string() }
}

/// Registers a fresh peer and starts its session; returns the session and
/// the frames it produced.
fn connect(reg: &mut Registry, key: &RoomKey, now: u64) -> Result<(Session, Vec<Action>), RegisterError> {
    let id = reg.join(key)?;
    let mut s = Session::new(id, now);
    let actions = s.on_registered(Ok(()));
    Ok((s, actions))
}

/// Delivers every published frame to every session, as the hub does.
fn fan_out(sessions: &[&Session], published: &SignalMessage) -> Vec<Vec<SignalMessage>> {
    sessions.iter().map(|s| s.on_hub_message(published).into_iter().collect()).collect()
}

fn new_room(reg: &mut Registry, slug: &str, cap: usize, pwd: Option<&str>) -> RoomKey {
    let cands = vec![slug.to_string()];
    reg.create_with_candidates(&"public".to_string(), &cands, Some(cap), pwd.map(|p| p.to_string()), 0)
        .unwrap();
    RoomKey { app_id: "public".to_string(), room_id: slug.to_string() }
}

#[test]
fn targeting_policy() {
    let me = "me".to_string();
    assert!(!should_forward(&msg("me", SignalPayload::Join { peer_id: "me".to_string() }), &me));
    assert!(should_forward(&msg("you", SignalPayload::Join { peer_id: "you".to_string() }), &me));
    assert!(should_forward(&msg("you", offer("me", "x")), &me));
    assert!(!should_forward(&msg("you", offer("them", "x")), &me));
    assert!(!should_forward(
        &msg("you", SignalPayload::Ice { to: "them".to_string(), candidate: "c".to_string() }),
        &me
    ));
    assert!(should_forward(
        &msg("you", SignalPayload::Answer { to: "me".to_string(), sdp: "a".to_string() }),
        &me
    ));
    assert!(!should_forward(&msg("you", SignalPayload::Ping), &me));
    assert!(!should_forward(&msg("you", SignalPayload::Pong), &me));
    assert!(should_forward(&msg("you", SignalPayload::Leave { peer_id: "you".to_string() }), &me));
}

#[test]
fn join_reaches_others_but_not_joiner() {
    let mut reg = Registry::new(6, 10);
    let k = new_room(&mut reg, "abcdef", 3, None);
    let (s1, _) = connect(&mut reg, &k, 0).unwrap();
    let (s2, _) = connect(&mut reg, &k, 0).unwrap();
    let (s3, a3) = connect(&mut reg, &k, 0).unwrap();
    let join = match &a3[1] {
        Action::Publish(m) => m.clone(),
        other => panic!("expected a publication, got {:?}", other),
    };
    assert_eq!(join.payload, SignalPayload::Join { peer_id: s3.peer_id.clone() });
    let seen = fan_out(&[&s1, &s2, &s3], &join);
    assert_eq!(seen[0], vec![join.clone()]);
    assert_eq!(seen[1], vec![join.clone()]);
    assert!(seen[2].is_empty());
}

#[test]
fn directed_payload_only_reaches_target() {
    let mut reg = Registry::new(6, 10);
    let k = new_room(&mut reg, "abcdef", 3, None);
    let (mut s1, _) = connect(&mut reg, &k, 0).unwrap();
    let (s2, _) = connect(&mut reg, &k, 0).unwrap();
    let (s3, _) = connect(&mut reg, &k, 0).unwrap();
    let published = s1.on_frame(msg("spoofed", offer(&s3.peer_id, "x")), 1).unwrap();
    let seen = fan_out(&[&s1, &s2, &s3], &published);
    assert!(seen[0].is_empty());
    assert!(seen[1].is_empty());
    assert_eq!(seen[2].len(), 1);
}

#[test]
fn inbound_frames_are_classified() {
    let mut s = Session::new("me".to_string(), 0);
    assert_eq!(s.on_frame(msg("x", offer("y", "z")), 5), None);
    s.on_registered(Ok(()));
    assert_eq!(s.on_frame(msg("x", SignalPayload::Pong), 5), None);
    assert_eq!(s.last_pong_ms, 5);
    let hello = SignalPayload::Hello { version: "1".to_string(), client: "web".to_string() };
    assert_eq!(s.on_frame(msg("x", hello), 6), None);
    assert_eq!(s.last_pong_ms, 5);
    let out = s.on_frame(msg("x", offer("y", "z")), 7).unwrap();
    assert_eq!(out, msg("me", offer("y", "z")));
}

#[test]
fn silent_peer_is_disconnected_and_announced() {
    let mut reg = Registry::new(6, 10);
    let k = new_room(&mut reg, "abcdef", 2, None);
    let (mut s1, _) = connect(&mut reg, &k, 0).unwrap();
    let (s2, _) = connect(&mut reg, &k, 0).unwrap();
    // Within the timeout only a ping goes out.
    let acts = s1.on_tick(HEARTBEAT_INTERVAL_MS);
    assert_eq!(acts.len(), 1);
    assert!(matches!(&acts[0], Action::Send(m) if m.payload == SignalPayload::Ping && m.from == "server"));
    assert_eq!(s1.on_tick(HEARTBEAT_TIMEOUT_MS).len(), 1);
    // The first tick after the threshold closes the session.
    let acts = s1.on_tick(HEARTBEAT_TIMEOUT_MS + HEARTBEAT_INTERVAL_MS);
    assert_eq!(acts.len(), 2);
    assert_eq!(acts[1], Action::Close);
    assert_eq!(s1.phase, Phase::Closing);
    assert!(s1.on_tick(HEARTBEAT_TIMEOUT_MS + 2 * HEARTBEAT_INTERVAL_MS).is_empty());
    let leave = s1.close().unwrap();
    assert_eq!(s1.phase, Phase::Closed);
    reg.deregister(&k, &s1.peer_id);
    assert_eq!(s2.on_hub_message(&leave), Some(leave.clone()));
    assert_eq!(leave.payload, SignalPayload::Leave { peer_id: s1.peer_id.clone() });
    assert!(!reg.remove_if_empty(&k));
}

#[test]
fn pong_keeps_session_alive() {
    let mut s = Session::new("me".to_string(), 0);
    s.on_registered(Ok(()));
    s.on_frame(msg("me", SignalPayload::Pong), 20_000);
    assert_eq!(s.on_tick(45_000).len(), 1);
    assert_eq!(s.phase, Phase::Active);
    assert!(heartbeat_expired(0, 30_001));
    assert!(!heartbeat_expired(0, 30_000));
    assert!(!heartbeat_expired(10, 5));
}

#[test]
fn failed_registration_sends_no_welcome() {
    let mut s = Session::new("me".to_string(), 0);
    assert!(s.on_registered(Err(RegisterError::RoomFull)).is_empty());
    assert_eq!(s.phase, Phase::Closed);
    assert!(s.close().is_none());
}

#[test]
fn scenario_offer_between_two_peers() {
    let mut reg = Registry::new(6, 10);
    let k = new_room(&mut reg, "abcdef", 2, None);
    let (mut c1, a1) = connect(&mut reg, &k, 0).unwrap();
    let (c2, a2) = connect(&mut reg, &k, 0).unwrap();
    let welcome_id = |a: &Vec<Action>| match &a[0] {
        Action::Send(SignalMessage { payload: SignalPayload::Welcome { peer_id, .. }, .. }) => {
            peer_id.clone()
        }
        other => panic!("expected a welcome, got {:?}", other),
    };
    let id1 = welcome_id(&a1);
    let id2 = welcome_id(&a2);
    assert_ne!(id1, id2);
    assert_eq!(id1, c1.peer_id);
    let published = c1.on_frame(msg("", offer(&id2, "x")), 1).unwrap();
    let seen = fan_out(&[&c1, &c2], &published);
    assert!(seen[0].is_empty());
    assert_eq!(seen[1].len(), 1);
    assert_eq!(seen[1][0].payload, offer(&id2, "x"));
    assert_eq!(seen[1][0].from, id1);
}

#[test]
fn scenario_full_room_rejects_second_client() {
    let mut reg = Registry::new(6, 10);
    let k = new_room(&mut reg, "abcdef", 1, None);
    connect(&mut reg, &k, 0).unwrap();
    let verdict = admit_connection(&reg, &"abcdef".to_string(), &params(&[]));
    assert_eq!(verdict, Err(RoomRequestError::Rejected(AdmissionError::RoomFull)));
    let frame = rejection_frame(AdmissionError::RoomFull);
    assert_eq!(frame.from, "server");
    assert!(matches!(&frame.payload, SignalPayload::Error { code, message }
        if code == "room_full" && message == "Room is at maximum capacity"));
    // Even past the advisory check, registration refuses: no welcome.
    assert_eq!(reg.join(&k), Err(RegisterError::RoomFull));
}

#[test]
fn scenario_password_protected_room() {
    let mut reg = Registry::new(6, 10);
    let k = new_room(&mut reg, "abcdef", 2, Some("ab12"));
    let room = "abcdef".to_string();
    let code = |e: AdmissionError| match rejection_frame(e).payload {
        SignalPayload::Error { code, .. } => code,
        _ => unreachable!(),
    };
    match admit_connection(&reg, &room, &params(&[])) {
        Err(RoomRequestError::Rejected(e)) => assert_eq!(code(e), "password_required"),
        other => panic!("unexpected {:?}", other),
    }
    match admit_connection(&reg, &room, &params(&[("password", "wxyz")])) {
        Err(RoomRequestError::Rejected(e)) => assert_eq!(code(e), "invalid_password"),
        other => panic!("unexpected {:?}", other),
    }
    let admitted = admit_connection(&reg, &room, &params(&[("password", "ab12")])).unwrap();
    assert_eq!(admitted, k);
    let (_, actions) = connect(&mut reg, &admitted, 0).unwrap();
    assert!(matches!(&actions[0], Action::Send(m) if matches!(m.payload, SignalPayload::Welcome { .. })));
}

#[test]
fn outbound_failure_closes_session() {
    let mut s = Session::new("me".to_string(), 0);
    assert!(s.on_outbound_failed().is_empty());
    assert_eq!(s.phase, Phase::Joining);
    s.on_registered(Ok(()));
    assert_eq!(s.on_outbound_failed(), vec![Action::Close]);
    assert_eq!(s.phase, Phase::Closing);
    let leave = s.close().unwrap();
    assert_eq!(leave.payload, SignalPayload::Leave { peer_id: "me".to_string() });
}

#[test]
fn rejection_messages() {
    let text = |e| match rejection_frame(e).payload {
        SignalPayload::Error { code, message } => (code, message),
        _ => unreachable!(),
    };
    assert_eq!(
        text(AdmissionError::PasswordRequired),
        ("password_required".to_string(), "This room requires a password".to_string())
    );
    assert_eq!(
        text(AdmissionError::PasswordInvalid),
        ("invalid_password".to_string(), "Incorrect password".to_string())
    );
}
