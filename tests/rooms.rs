use std::collections::HashMap;

use signaling::handlers::{
    admin_metrics, admin_rooms, admit_connection, check_room, connection_count, create_room,
    get_app_id, parse_usize, validate_api_key, validate_room_id, CreateRoomError,
    RoomRequestError,
};
use signaling::ident::{generate_peer_id, random_slug, slug_alphabet};
use signaling::registry::{
    draw_slug_candidates, generate_unique_slug, validate_password, CreateError, Registry,
};
use signaling::room::{AdmissionError, RegisterError, RoomKey, RoomState, MAX_PEERS_PER_ROOM};
use signaling::types::RoomInfo;

fn key(app: &str, room: &str) -> RoomKey {
    RoomKey { app_id: app.to_string(), room_id: room.to_string() }
}

fn params(pairs: &[(&str, &str)]) -> HashMap<String, String> {
    pairs.iter().map(|(k, v)| (k.to_string(), v.to_string())).collect()
}

fn room_with(reg: &mut Registry, app: &str, slug: &str, cap: usize, pwd: Option<&str>) -> RoomKey {
    let cands = vec![slug.to_string()];
    let resp = reg
        .create_with_candidates(&app.to_string(), &cands, Some(cap), pwd.map(|p| p.to_string()), 0)
        .expect("room is created");
    assert_eq!(resp.room, slug);
    key(app, slug)
}

fn is_id_char(c: char) -> bool {
    c.is_ascii_lowercase() || c.is_ascii_digit()
}

#[test]
fn capacity_is_capped_at_global_ceiling() {
    let r = RoomState::with_capacity(100, None, 5);
    assert_eq!(r.max_peers, MAX_PEERS_PER_ROOM);
    assert_eq!(r.created_at_ms, 5);
    assert!(r.peers.is_empty());
    let r = RoomState::with_capacity(2, Some("ab12".to_string()), 0);
    assert_eq!(r.max_peers, 2);
    assert_eq!(r.password.as_deref(), Some("ab12"));
}

#[test]
fn at_most_capacity_registrations_succeed() {
    let mut room = RoomState::with_capacity(2, None, 0);
    let outcomes: Vec<_> =
        ["alice", "bob", "carol", "dave"].iter().map(|p| room.register(p.to_string())).collect();
    assert_eq!(outcomes.iter().filter(|o| o.is_ok()).count(), 2);
    assert_eq!(outcomes[2], Err(RegisterError::RoomFull));
    assert_eq!(outcomes[3], Err(RegisterError::RoomFull));
    assert_eq!(room.peers.len(), 2);
}

#[test]
fn duplicate_peer_id_is_refused() {
    let mut room = RoomState::with_capacity(3, None, 0);
    assert_eq!(room.register("a".to_string()), Ok(()));
    assert_eq!(room.register("a".to_string()), Err(RegisterError::PeerIdTaken));
    assert_eq!(room.peers, vec!["a".to_string()]);
}

#[test]
fn deregister_is_idempotent() {
    let mut room = RoomState::with_capacity(3, None, 0);
    room.register("a".to_string()).unwrap();
    room.register("b".to_string()).unwrap();
    room.deregister(&"a".to_string());
    assert_eq!(room.peers, vec!["b".to_string()]);
    room.deregister(&"a".to_string());
    assert_eq!(room.peers, vec!["b".to_string()]);
    assert!(!room.contains(&"a".to_string()));
    assert!(room.contains(&"b".to_string()));
}

#[test]
fn registry_join_respects_capacity() {
    let mut reg = Registry::new(6, 10);
    let k = room_with(&mut reg, "public", "abc123", 2, None);
    let a = reg.join(&k).unwrap();
    let b = reg.join(&k).unwrap();
    assert_ne!(a, b);
    assert_eq!(reg.join(&k), Err(RegisterError::RoomFull));
    assert_eq!(reg.get(&k).unwrap().peers.len(), 2);
    assert_eq!(reg.join(&key("public", "zzzzzz")), Err(RegisterError::NotFound));
    assert_eq!(reg.register(&key("other", "abc123"), "x".to_string()), Err(RegisterError::NotFound));
}

#[test]
fn peer_ids_are_eight_alphabet_characters() {
    for _ in 0..20 {
        let id = generate_peer_id();
        assert_eq!(id.chars().count(), 8);
        assert!(id.chars().all(is_id_char));
    }
}

#[test]
fn slug_alphabet_has_thirty_six_characters() {
    let a = slug_alphabet();
    assert_eq!(a.len(), 36);
    assert!(a.iter().all(|c| is_id_char(*c)));
}

#[test]
fn slugs_are_six_alphabet_characters_and_free() {
    let mut reg = Registry::new(6, 100);
    for _ in 0..20 {
        let s = random_slug();
        assert_eq!(s.chars().count(), 6);
        assert!(s.chars().all(is_id_char));
    }
    let cands = draw_slug_candidates();
    assert_eq!(cands.len(), 10);
    let app = "public".to_string();
    let first = reg.create(&app, None, None, 0).unwrap();
    let slug = generate_unique_slug(&reg, &app).unwrap();
    assert_eq!(slug.chars().count(), 6);
    assert!(slug.chars().all(is_id_char));
    assert_ne!(slug, first.room);
    assert!(!reg.contains_key(&key("public", &slug)));
}

#[test]
fn ten_collisions_exhaust_slugs() {
    let mut reg = Registry::new(6, 100);
    let app = "public".to_string();
    let mut cands = Vec::new();
    for i in 0..10 {
        let s = format!("aaaaa{}", i);
        room_with(&mut reg, "public", &s, 2, None);
        cands.push(s);
    }
    assert_eq!(reg.first_free_slug(&app, &cands), None);
    assert_eq!(
        reg.create_with_candidates(&app, &cands, None, None, 0),
        Err(CreateError::SlugExhausted)
    );
    assert_eq!(reg.len(), 10);
    // The same ids are free in another scope.
    assert_eq!(reg.first_free_slug(&"other".to_string(), &cands), Some("aaaaa0".to_string()));
    // The first free candidate wins.
    cands.push("bbbbbb".to_string());
    cands.push("cccccc".to_string());
    assert_eq!(reg.first_free_slug(&app, &cands), Some("bbbbbb".to_string()));
}

#[test]
fn global_room_ceiling_is_enforced() {
    let mut reg = Registry::new(6, 1);
    room_with(&mut reg, "public", "abcdef", 2, None);
    let cands = vec!["ghijkl".to_string()];
    assert_eq!(
        reg.create_with_candidates(&"public".to_string(), &cands, None, None, 0),
        Err(CreateError::TooManyRooms)
    );
    assert_eq!(reg.len(), 1);
}

#[test]
fn password_rules() {
    assert_eq!(validate_password(&"ab1".to_string()), Err(CreateError::PasswordLength));
    assert_eq!(validate_password(&"abcdefghijklm".to_string()), Err(CreateError::PasswordLength));
    assert_eq!(validate_password(&"ab-12".to_string()), Err(CreateError::PasswordChars));
    assert_eq!(validate_password(&"ab12".to_string()), Ok(()));
    assert_eq!(validate_password(&"ABCdef123456".to_string()), Ok(()));
    let mut reg = Registry::new(6, 10);
    let cands = vec!["abcdef".to_string()];
    assert_eq!(
        reg.create_with_candidates(&"public".to_string(), &cands, None, Some("a!".to_string()), 0),
        Err(CreateError::PasswordLength)
    );
    assert_eq!(reg.len(), 0);
}

#[test]
fn default_capacity_comes_from_registry() {
    let mut reg = Registry::new(4, 10);
    let cands = vec!["abcdef".to_string()];
    let resp = reg.create_with_candidates(&"public".to_string(), &cands, None, None, 7).unwrap();
    let room = reg.get(&key("public", &resp.room)).unwrap();
    assert_eq!(room.max_peers, 4);
    assert_eq!(room.created_at_ms, 7);
}

#[test]
fn sweep_removes_only_idle_empty_rooms() {
    let mut reg = Registry::new(6, 10);
    let old_empty = room_with(&mut reg, "public", "oldemp", 2, None);
    let old_busy = room_with(&mut reg, "public", "oldbsy", 2, None);
    reg.register(&old_busy, "p".to_string()).unwrap();
    let cands = vec!["newemp".to_string()];
    reg.create_with_candidates(&"public".to_string(), &cands, None, None, 250_000).unwrap();
    let removed = reg.sweep(301_000, 300_000);
    assert_eq!(removed, 1);
    assert!(!reg.contains_key(&old_empty));
    assert!(reg.contains_key(&old_busy));
    assert!(reg.contains_key(&key("public", "newemp")));
    assert_eq!(reg.sweep(0, 300_000), 0);
    let mut empty = Registry::new(6, 10);
    assert_eq!(empty.sweep(1_000_000, 300_000), 0);
}

#[test]
fn empty_room_is_removed_after_last_leave() {
    let mut reg = Registry::new(6, 10);
    let k = room_with(&mut reg, "public", "abcdef", 2, None);
    let a = reg.join(&k).unwrap();
    assert!(!reg.remove_if_empty(&k));
    reg.deregister(&k, &a);
    assert!(reg.remove_if_empty(&k));
    assert!(!reg.contains_key(&k));
    assert!(!reg.remove_if_empty(&k));
}

#[test]
fn room_id_validation() {
    assert_eq!(validate_room_id("abc"), Err("invalid_room_id_length"));
    assert_eq!(validate_room_id(&"a".repeat(33)), Err("invalid_room_id_length"));
    assert_eq!(validate_room_id("ab_cd"), Err("invalid_room_id_chars"));
    assert_eq!(validate_room_id("my-Room-42"), Ok(()));
    assert_eq!(validate_room_id(&"a".repeat(32)), Ok(()));
}

#[test]
fn app_id_defaults_to_public() {
    assert_eq!(get_app_id(&params(&[])), "public");
    assert_eq!(get_app_id(&params(&[("appId", "game")])), "game");
}

#[test]
fn api_key_checks() {
    let k = Some("SECRET-REDACTED".to_string());
    let good = "SECRET-REDACTED".to_string();
    let bad = "nope".to_string();
    assert!(validate_api_key(&None, None, None));
    assert!(validate_api_key(&k, Some(&good), None));
    assert!(validate_api_key(&k, None, Some(&good)));
    assert!(validate_api_key(&k, Some(&bad), Some(&good)));
    assert!(!validate_api_key(&k, Some(&bad), None));
    assert!(!validate_api_key(&k, None, None));
}

#[test]
fn decimal_parsing() {
    assert_eq!(parse_usize("4"), Some(4));
    assert_eq!(parse_usize("+12"), Some(12));
    assert_eq!(parse_usize("007"), Some(7));
    assert_eq!(parse_usize(""), None);
    assert_eq!(parse_usize("+"), None);
    assert_eq!(parse_usize("-1"), None);
    assert_eq!(parse_usize("4a"), None);
    assert_eq!(parse_usize(" 4"), None);
    assert_eq!(parse_usize("18446744073709551615"), Some(usize::MAX));
    assert_eq!(parse_usize("18446744073709551616"), None);
    assert_eq!(parse_usize("99999999999999999999"), None);
}

#[test]
fn create_room_request() {
    let mut reg = Registry::new(6, 10);
    let key_cfg = Some("k".to_string());
    let wrong = "x".to_string();
    assert_eq!(
        create_room(&mut reg, &key_cfg, Some(&wrong), &params(&[]), 0),
        Err(CreateRoomError::Unauthorized)
    );
    let p = params(&[("appId", "game"), ("max_peers", "3"), ("password", "ab12")]);
    let resp = create_room(&mut reg, &None, None, &p, 9).unwrap();
    assert_eq!(resp.password.as_deref(), Some("ab12"));
    let room = reg.get(&key("game", &resp.room)).unwrap();
    assert_eq!(room.max_peers, 3);
    assert_eq!(room.created_at_ms, 9);
    let bad = params(&[("password", "a b")]);
    assert_eq!(
        create_room(&mut reg, &None, None, &bad, 0),
        Err(CreateRoomError::Rejected(CreateError::PasswordLength))
    );
    let bad = params(&[("password", "ab_12")]);
    assert_eq!(
        create_room(&mut reg, &None, None, &bad, 0),
        Err(CreateRoomError::Rejected(CreateError::PasswordChars))
    );
    let unparsed = params(&[("max_peers", "many")]);
    let resp = create_room(&mut reg, &None, None, &unparsed, 0).unwrap();
    assert_eq!(reg.get(&key("public", &resp.room)).unwrap().max_peers, 6);
    assert_eq!(reg.len(), 2);
}

#[test]
fn check_room_reports_status() {
    let mut reg = Registry::new(6, 10);
    let k = room_with(&mut reg, "public", "abcdef", 1, Some("ab12"));
    reg.join(&k).unwrap();
    let st = check_room(&reg, &"abcdef".to_string(), &params(&[])).unwrap();
    assert_eq!(st.peers, 1);
    assert_eq!(st.capacity, 1);
    assert!(st.full);
    assert!(st.password_required);
    assert_eq!(
        check_room(&reg, &"abcdef".to_string(), &params(&[("appId", "other")])),
        Err(RoomRequestError::NotFound)
    );
    assert_eq!(
        check_room(&reg, &"ab".to_string(), &params(&[])),
        Err(RoomRequestError::InvalidRoomId("invalid_room_id_length"))
    );
}

#[test]
fn admission_checks_password_then_capacity() {
    let mut reg = Registry::new(6, 10);
    let k = room_with(&mut reg, "public", "abcdef", 1, Some("ab12"));
    let room = "abcdef".to_string();
    assert_eq!(
        admit_connection(&reg, &room, &params(&[])),
        Err(RoomRequestError::Rejected(AdmissionError::PasswordRequired))
    );
    assert_eq!(
        admit_connection(&reg, &room, &params(&[("password", "zz99")])),
        Err(RoomRequestError::Rejected(AdmissionError::PasswordInvalid))
    );
    assert_eq!(admit_connection(&reg, &room, &params(&[("password", "ab12")])), Ok(k.clone()));
    reg.join(&k).unwrap();
    assert_eq!(
        admit_connection(&reg, &room, &params(&[("password", "ab12")])),
        Err(RoomRequestError::Rejected(AdmissionError::RoomFull))
    );
    assert_eq!(
        admit_connection(&reg, &"nothere".to_string(), &params(&[])),
        Err(RoomRequestError::NotFound)
    );
    assert_eq!(reg.check_admission(&key("x", "y"), None), Err(AdmissionError::NotFound));
}

#[test]
fn admin_views_need_the_token() {
    let mut reg = Registry::new(6, 10);
    let a = room_with(&mut reg, "public", "abcdef", 3, None);
    room_with(&mut reg, "game", "ghijkl", 3, None);
    reg.join(&a).unwrap();
    reg.join(&a).unwrap();
    let t = "tok".to_string();
    let bad = "bad".to_string();
    assert!(admin_rooms(&reg, &bad, &t).is_none());
    let listing = admin_rooms(&reg, &t, &t).unwrap();
    assert_eq!(listing.total_rooms, 2);
    assert_eq!(listing.max_rooms, 10);
    let mut ids: Vec<_> = listing.rooms.iter().map(|r| (r.app_id.clone(), r.id.clone(), r.peers)).collect();
    ids.sort();
    assert_eq!(
        ids,
        vec![("game".to_string(), "ghijkl".to_string(), 0), ("public".to_string(), "abcdef".to_string(), 2)]
    );
    assert!(admin_metrics(&reg, &bad, &t, 1, 2, 3).is_none());
    let m = admin_metrics(&reg, &t, &t, 1, 2, 3).unwrap();
    assert_eq!(m.active_rooms, 2);
    assert_eq!(m.active_connections, 2);
    assert_eq!(m.rooms_created_today, 1);
    assert_eq!(m.connections_today, 2);
    assert_eq!(m.uptime_seconds, 3);
}

#[test]
fn connection_count_saturates() {
    let info = |peers| RoomInfo { id: "r".to_string(), app_id: "a".to_string(), peers, capacity: 6 };
    assert_eq!(connection_count(&vec![]), 0);
    assert_eq!(connection_count(&vec![info(2), info(3)]), 5);
    assert_eq!(connection_count(&vec![info(usize::MAX), info(1)]), usize::MAX);
}

#[test]
fn join_passes_over_taken_ids() {
    let mut reg = Registry::new(6, 10);
    let k = room_with(&mut reg, "public", "abcdef", 3, None);
    let ids = |v: &[&str]| v.iter().map(|s| s.to_string()).collect::<Vec<_>>();
    assert_eq!(reg.join_with_candidates(&k, &ids(&["peer0001"])), Ok("peer0001".to_string()));
    assert_eq!(
        reg.join_with_candidates(&k, &ids(&["peer0001", "peer0002"])),
        Ok("peer0002".to_string())
    );
    assert_eq!(
        reg.join_with_candidates(&k, &ids(&["peer0001", "peer0002"])),
        Err(RegisterError::PeerIdTaken)
    );
    assert_eq!(reg.join_with_candidates(&k, &ids(&[])), Err(RegisterError::PeerIdTaken));
    assert_eq!(reg.join_with_candidates(&k, &ids(&["peer0003"])), Ok("peer0003".to_string()));
    assert_eq!(reg.join_with_candidates(&k, &ids(&["peer0004"])), Err(RegisterError::RoomFull));
    assert_eq!(reg.get(&k).unwrap().peers.len(), 3);
    assert_eq!(
        reg.join_with_candidates(&key("public", "nothere"), &ids(&["x"])),
        Err(RegisterError::NotFound)
    );
}

#[test]
fn lengths_are_counted_in_bytes() {
    // Three characters but four bytes: long enough, but a character is not allowed.
    assert_eq!(validate_room_id("ab\u{e9}"), Err("invalid_room_id_chars"));
    assert_eq!(validate_room_id("\u{e9}\u{e9}\u{e9}\u{e9}\u{e9}\u{e9}\u{e9}\u{e9}\u{e9}\u{e9}\u{e9}\u{e9}\u{e9}\u{e9}\u{e9}\u{e9}\u{e9}"), Err("invalid_room_id_length"));
    assert_eq!(validate_password(&"ab\u{e9}".to_string()), Err(CreateError::PasswordChars));
    assert_eq!(validate_password(&"\u{e9}\u{e9}\u{e9}\u{e9}\u{e9}\u{e9}\u{e9}".to_string()), Err(CreateError::PasswordLength));
}

#[test]
fn creation_in_an_empty_scope_succeeds() {
    let mut reg = Registry::new(6, 500);
    let resp = create_room(&mut reg, &None, None, &params(&[("max_peers", "2")]), 0).unwrap();
    assert_eq!(resp.room.chars().count(), 6);
    assert_eq!(reg.len(), 1);
    let room = reg.get(&key("public", &resp.room)).unwrap();
    assert_eq!(room.max_peers, 2);
    assert!(room.peers.is_empty());
    let resp = create_room(&mut reg, &None, None, &params(&[("appId", "x"), ("password", "ab12")]), 0).unwrap();
    assert_eq!(resp.password.as_deref(), Some("ab12"));
    assert_eq!(reg.get(&key("x", &resp.room)).unwrap().password.as_deref(), Some("ab12"));
    assert!(generate_unique_slug(&reg, &"empty".to_string()).is_some());
}

#[test]
fn listing_has_one_entry_per_room() {
    let mut reg = Registry::new(6, 10);
    for s in ["room01", "room02", "room03"] {
        room_with(&mut reg, "public", s, 2, None);
    }
    let infos = reg.room_infos();
    assert_eq!(infos.len(), 3);
    let mut ids: Vec<_> = infos.iter().map(|i| i.id.clone()).collect();
    ids.sort();
    ids.dedup();
    assert_eq!(ids.len(), 3);
}
