use conduit_core::data::{Data, StoreError, EMPTY_TYPING};
use ruma_signatures::Ed25519KeyPair;

fn s(x: &str) -> String {
    x.to_owned()
}

fn store() -> Data {
    let doc = Ed25519KeyPair::generate();
    let keypair = Ed25519KeyPair::from_der(&doc, s("1")).unwrap();
    Data::new(s("example.org"), keypair, reqwest::Client::new())
}

fn message(d: &mut Data, room: &str, sender: &str, body: &str, now: u64) -> String {
    let content = format!("{{\"body\":\"{}\",\"msgtype\":\"m.text\"}}", body);
    d.pdu_append(&s(room), &s(sender), &s("m.room.message"), &content, None, None, now)
        .unwrap()
        .unwrap()
}

#[test]
fn room_exists_after_first_append() {
    let mut d = store();
    assert!(!d.room_exists(&s("!r")));
    message(&mut d, "!r", "@alice:example.org", "hi", 1);
    assert!(d.room_exists(&s("!r")));
    assert!(!d.room_exists(&s("!other")));
}

#[test]
fn frontier_is_the_new_event() {
    let mut d = store();
    assert!(d.pdu_leaves_get(&s("!r")).is_empty());
    let a = message(&mut d, "!r", "@alice:example.org", "one", 1);
    assert_eq!(d.pdu_leaves_get(&s("!r")), vec![a.clone()]);
    let b = message(&mut d, "!r", "@alice:example.org", "two", 2);
    assert_eq!(d.pdu_leaves_get(&s("!r")), vec![b.clone()]);
    assert_ne!(a, b);
    let pb = d.pdu_get(&b).unwrap();
    assert_eq!(pb.prev_events, vec![a]);
}

#[test]
fn depth_grows_from_one() {
    let mut d = store();
    let a = message(&mut d, "!r", "@alice:example.org", "one", 1);
    let b = message(&mut d, "!r", "@alice:example.org", "two", 2);
    let c = message(&mut d, "!q", "@alice:example.org", "three", 3);
    assert_eq!(d.pdu_get(&a).unwrap().depth, 1);
    assert_eq!(d.pdu_get(&b).unwrap().depth, 2);
    assert_eq!(d.pdu_get(&c).unwrap().depth, 1);
}

#[test]
fn appended_event_round_trips() {
    let mut d = store();
    let content = s("{\"body\":\"hello\",\"msgtype\":\"m.text\"}");
    let id = d
        .pdu_append(&s("!r"), &s("@alice:example.org"), &s("m.room.message"), &content, None, None, 1234)
        .unwrap()
        .unwrap();
    let p = d.pdu_get(&id).unwrap();
    assert_eq!(p.event_id, id);
    assert_eq!(p.content, content);
    assert_eq!(p.sender, "@alice:example.org");
    assert_eq!(p.room_id, "!r");
    assert_eq!(p.kind, "m.room.message");
    assert_eq!(p.origin, "example.org");
    assert_eq!(p.origin_server_ts, 1234);
    assert!(id.starts_with('$'));
    assert!(id.len() > 40);
    assert_ne!(id, "$thiswillbefilledinlater");
    assert!(p.signed.contains("\"signatures\""));
    assert!(p.signed.contains("\"hashes\""));
    assert!(p.signed.contains("\"depth\":1"));
    assert!(p.signed.contains(&id));
    assert_eq!(d.pdu_get_count(&id), Some(1));
    assert_eq!(d.last_pdu_index(), 1);
    assert!(d.pdu_get(&s("$unknown")).is_none());
}

#[test]
fn invalid_content_fails_identity() {
    let mut d = store();
    let r = d.pdu_append(&s("!r"), &s("@a:x"), &s("m.room.message"), &s("not json"), None, None, 1);
    assert_eq!(r, Err(StoreError::Identity));
    assert!(!d.room_exists(&s("!r")));
    assert_eq!(d.last_pdu_index(), 0);
}

#[test]
fn since_and_until_partition_the_room() {
    let mut d = store();
    let a = message(&mut d, "!r", "@a:x", "1", 1);
    let b = message(&mut d, "!r", "@a:x", "2", 2);
    let other = message(&mut d, "!q", "@a:x", "3", 3);
    let c = message(&mut d, "!r", "@a:x", "4", 4);
    let e = message(&mut d, "!r", "@a:x", "5", 5);
    let boundary = d.pdu_get_count(&other).unwrap();
    let mut back: Vec<String> = d.pdus_until(&s("!r"), boundary, u32::MAX).into_iter().map(|p| p.event_id).collect();
    assert_eq!(back, vec![b.clone(), a.clone()]);
    back.reverse();
    let fwd: Vec<String> = d.pdus_since(&s("!r"), boundary).into_iter().map(|p| p.event_id).collect();
    assert_eq!(fwd, vec![c.clone(), e.clone()]);
    let all: Vec<String> = d.pdus_all(&s("!r")).into_iter().map(|p| p.event_id).collect();
    let joined: Vec<String> = back.into_iter().chain(fwd).collect();
    assert_eq!(joined, all);
    assert_eq!(all, vec![a, b, c, e.clone()]);
    let capped: Vec<String> = d.pdus_until(&s("!r"), u64::MAX, 1).into_iter().map(|p| p.event_id).collect();
    assert_eq!(capped, vec![e]);
}

#[test]
fn low_power_state_event_is_rejected() {
    let mut d = store();
    let room = s("!r");
    let pl = s("{\"users\":{\"@admin:x\":100},\"users_default\":0}");
    d.pdu_append(&room, &s("@admin:x"), &s("m.room.power_levels"), &pl, None, Some(s("")), 1).unwrap().unwrap();
    let before_frontier = d.pdu_leaves_get(&room);
    let before_index = d.last_pdu_index();
    let r = d.pdu_append(&room, &s("@bob:x"), &s("m.room.topic"), &s("{\"topic\":\"t\"}"), None, Some(s("")), 2);
    assert_eq!(r, Ok(None));
    assert_eq!(d.pdu_leaves_get(&room), before_frontier);
    assert_eq!(d.last_pdu_index(), before_index);
    assert!(d.room_state_get(&room, &s("m.room.topic"), &s("")).is_none());
    let member = d.pdu_append(&room, &s("@bob:x"), &s("m.room.member"), &s("{\"membership\":\"join\"}"), None, Some(s("@bob:x")), 3);
    assert!(matches!(member, Ok(Some(_))));
    let admin = d.pdu_append(&room, &s("@admin:x"), &s("m.room.topic"), &s("{\"topic\":\"t\"}"), None, Some(s("")), 4);
    assert!(matches!(admin, Ok(Some(_))));
    assert!(d.power_levels(&room).is_some());
    assert!(d.power_levels(&s("!none")).is_none());
}

#[test]
fn superseded_state_keeps_prev_content() {
    let mut d = store();
    let room = s("!r");
    d.pdu_append(&room, &s("@a:x"), &s("m.room.topic"), &s("{\"topic\":\"old\"}"), None, Some(s("")), 1).unwrap();
    let id = d
        .pdu_append(&room, &s("@a:x"), &s("m.room.topic"), &s("{\"topic\":\"new\"}"), Some(vec![(s("age"), s("5"))]), Some(s("")), 2)
        .unwrap()
        .unwrap();
    let p = d.pdu_get(&id).unwrap();
    assert_eq!(p.unsigned, vec![(s("age"), s("5")), (s("prev_content"), s("{\"topic\":\"old\"}"))]);
    let cur = d.room_state_get(&room, &s("m.room.topic"), &s("")).unwrap();
    assert_eq!(cur.content, "{\"topic\":\"new\"}");
}

#[test]
fn sender_cursor_follows_append() {
    let mut d = store();
    let a = message(&mut d, "!r", "@a:x", "1", 1);
    assert_eq!(d.room_read_get(&s("!r"), &s("@a:x")), Some(1));
    message(&mut d, "!r", "@a:x", "2", 2);
    assert_eq!(d.room_read_get(&s("!r"), &s("@a:x")), Some(2));
    assert_eq!(d.room_read_set(&s("!r"), &s("@b:x"), &a), Some(()));
    assert_eq!(d.room_read_get(&s("!r"), &s("@b:x")), Some(1));
    assert_eq!(d.room_read_set(&s("!r"), &s("@b:x"), &s("$nope")), None);
    assert_eq!(d.room_read_get(&s("!r"), &s("@b:x")), Some(1));
    assert_eq!(d.room_read_get(&s("!r"), &s("@c:x")), None);
}

#[test]
fn receipt_updates_keep_one_slot() {
    let mut d = store();
    for i in 0..5 {
        d.roomlatest_update(&s("@alice:x"), &s("!r"), format!("{{\"n\":{}}}", i)).unwrap();
    }
    assert_eq!(d.roomlatests_all(&s("!r")), vec![s("{\"n\":4}")]);
}

#[test]
fn serialized_receipt_updates_last_wins() {
    let mut d = store();
    d.roomlatest_update(&s("@alice:x"), &s("!r"), s("{\"from\":\"first\"}")).unwrap();
    d.roomlatest_update(&s("@bob:x"), &s("!r"), s("{\"from\":\"bob\"}")).unwrap();
    d.roomlatest_update(&s("@alice:x"), &s("!r"), s("{\"from\":\"second\"}")).unwrap();
    assert_eq!(d.roomlatests_all(&s("!r")), vec![s("{\"from\":\"bob\"}"), s("{\"from\":\"second\"}")]);
    assert_eq!(d.roomlatests_since(&s("!r"), 2), vec![s("{\"from\":\"second\"}")]);
    assert!(d.roomlatests_since(&s("!r"), 3).is_empty());
    assert!(d.roomlatests_all(&s("!q")).is_empty());
}

#[test]
fn typing_markers_expire_and_remove() {
    let mut d = store();
    let room = s("!r");
    assert_eq!(d.roomactives_in(&room, 0), vec![s(EMPTY_TYPING)]);
    d.roomactive_add(s("a"), &room, 100).unwrap();
    d.roomactive_add(s("b"), &room, 50).unwrap();
    d.roomactive_add(s("c"), &s("!q"), 10).unwrap();
    assert_eq!(d.roomactives_in(&room, 10), vec![s("b"), s("a")]);
    assert_eq!(d.roomactives_in(&room, 60), vec![s("a")]);
    d.roomactive_remove(&s("a"), &room);
    assert_eq!(d.roomactives_in(&room, 60), vec![s(EMPTY_TYPING)]);
    assert_eq!(d.roomactives_in(&s("!q"), 0), vec![s("c")]);
}

#[test]
fn account_data_overwrites_by_type() {
    let mut d = store();
    let room = Some(s("!r"));
    let user = s("@a:x");
    d.room_userdata_update(room.clone(), &user, &s("m.tag"), s("{\"v\":1}")).unwrap();
    d.room_userdata_update(None, &user, &s("m.tag"), s("{\"v\":9}")).unwrap();
    d.room_userdata_update(room.clone(), &user, &s("m.other"), s("{\"v\":2}")).unwrap();
    d.room_userdata_update(room.clone(), &user, &s("m.tag"), s("{\"v\":3}")).unwrap();
    assert_eq!(d.room_userdata_get(&room, &user, &s("m.tag")), Some(s("{\"v\":3}")));
    assert_eq!(d.room_userdata_get(&None, &user, &s("m.tag")), Some(s("{\"v\":9}")));
    assert_eq!(d.room_userdata_get(&room, &user, &s("m.none")), None);
    assert_eq!(
        d.room_userdata_all(&room, &user),
        vec![(s("m.other"), s("{\"v\":2}")), (s("m.tag"), s("{\"v\":3}"))]
    );
    assert_eq!(d.room_userdata_since(&room, &user, 3), vec![(s("m.tag"), s("{\"v\":3}"))]);
}

#[test]
fn sequence_is_shared() {
    let mut d = store();
    d.roomlatest_update(&s("@a:x"), &s("!r"), s("{}")).unwrap();
    let id = message(&mut d, "!r", "@a:x", "1", 1);
    assert_eq!(d.pdu_get_count(&id), Some(2));
    assert_eq!(d.last_pdu_index(), 2);
}

#[test]
fn accounts_and_tokens() {
    let mut d = store();
    let u = s("@a:x");
    assert!(!d.user_exists(&u));
    d.user_add(&u, &s("hash1"));
    assert!(d.user_exists(&u));
    assert_eq!(d.password_hash_get(&u), Some(s("hash1")));
    d.user_add(&s("@b:x"), &s("hash2"));
    d.user_add(&u, &s("hash3"));
    assert_eq!(d.password_hash_get(&u), Some(s("hash3")));
    let mut all = d.users_all();
    all.sort();
    assert_eq!(all, vec![s("@a:x"), s("@b:x")]);
    d.device_add(&u, &s("DEV"));
    d.device_add(&u, &s("DEV"));
    d.token_replace(&u, &s("DEV"), s("tok1"));
    assert_eq!(d.user_from_token(&s("tok1")), Some(u.clone()));
    d.token_replace(&u, &s("DEV"), s("tok2"));
    assert_eq!(d.user_from_token(&s("tok1")), None);
    assert_eq!(d.user_from_token(&s("tok2")), Some(u.clone()));
}

#[test]
fn profile_fields() {
    let mut d = store();
    let u = s("@a:x");
    assert_eq!(d.displayname_get(&u), None);
    d.displayname_set(&u, s("Alice"), 1).unwrap();
    assert_eq!(d.displayname_get(&u), Some(s("Alice")));
    d.displayname_remove(&u);
    assert_eq!(d.displayname_get(&u), None);
    d.avatar_url_set(&u, &s("mxc://x/y"));
    assert_eq!(d.avatar_url_get(&u), Some(s("mxc://x/y")));
    d.avatar_url_remove(&u);
    assert_eq!(d.avatar_url_get(&u), None);
}

#[test]
fn membership_lifecycle() {
    let mut d = store();
    let room = s("!r");
    let alice = s("@alice:x");
    let bob = s("@bob:x");
    assert_eq!(d.room_join(&room, &alice, 1), Ok(false));
    assert!(d.rooms_joined(&alice).is_empty());
    message(&mut d, "!r", "@creator:x", "hello", 1);
    d.displayname_set(&alice, s("Al \"the\" one"), 2).unwrap();
    assert_eq!(d.room_join(&room, &alice, 3), Ok(true));
    assert_eq!(d.rooms_joined(&alice), vec![room.clone()]);
    assert_eq!(d.room_users_joined(&room), 1);
    let leaf = d.pdu_leaves_get(&room).pop().unwrap();
    let ev = d.pdu_get(&leaf).unwrap();
    assert_eq!(ev.kind, "m.room.member");
    assert_eq!(ev.state_key, Some(alice.clone()));
    assert_eq!(ev.content, "{\"membership\":\"join\",\"displayname\":\"Al \\\"the\\\" one\"}");
    d.room_invite(&alice, &room, &bob, 4).unwrap();
    assert_eq!(d.rooms_invited(&bob), vec![room.clone()]);
    assert_eq!(d.room_users_invited(&room), 1);
    let leaf = d.pdu_leaves_get(&room).pop().unwrap();
    assert_eq!(d.pdu_get(&leaf).unwrap().content, "{\"membership\":\"invite\"}");
    assert_eq!(d.room_join(&room, &bob, 5), Ok(true));
    assert!(d.rooms_invited(&bob).is_empty());
    assert_eq!(d.room_users_joined(&room), 2);
    d.room_leave(&alice, &room, &alice, 6).unwrap();
    assert!(d.rooms_joined(&alice).is_empty());
    assert_eq!(d.rooms_left(&alice), vec![room.clone()]);
    let leaf = d.pdu_leaves_get(&room).pop().unwrap();
    assert_eq!(d.pdu_get(&leaf).unwrap().content, "{\"membership\":\"leave\"}");
    d.room_forget(&room, &alice);
    assert!(d.rooms_left(&alice).is_empty());
    assert_eq!(d.rooms_all(), vec![room]);
}

#[test]
fn displayname_change_is_announced_in_joined_rooms() {
    let mut d = store();
    let alice = s("@alice:x");
    message(&mut d, "!r", "@creator:x", "hello", 1);
    message(&mut d, "!q", "@creator:x", "hello", 2);
    assert_eq!(d.room_join(&s("!r"), &alice, 3), Ok(true));
    assert_eq!(d.room_join(&s("!q"), &alice, 4), Ok(true));
    let before = d.last_pdu_index();
    d.displayname_set(&alice, s("Alice"), 5).unwrap();
    assert_eq!(d.last_pdu_index(), before + 2);
    for room in ["!r", "!q"] {
        let leaf = d.pdu_leaves_get(&s(room)).pop().unwrap();
        assert_eq!(d.pdu_get(&leaf).unwrap().content, "{\"membership\":\"join\",\"displayname\":\"Alice\"}");
    }
}

#[test]
fn state_projection_keeps_latest_per_pair() {
    let mut d = store();
    let room = s("!r");
    let t1 = d.pdu_append(&room, &s("@a:x"), &s("m.room.topic"), &s("{\"topic\":\"1\"}"), None, Some(s("")), 1).unwrap().unwrap();
    let n = d.pdu_append(&room, &s("@a:x"), &s("m.room.name"), &s("{\"name\":\"n\"}"), None, Some(s("")), 2).unwrap().unwrap();
    message(&mut d, "!r", "@a:x", "not state", 3);
    d.pdu_append(&s("!q"), &s("@a:x"), &s("m.room.topic"), &s("{\"topic\":\"q\"}"), None, Some(s("")), 4).unwrap();
    let t2 = d.pdu_append(&room, &s("@a:x"), &s("m.room.topic"), &s("{\"topic\":\"2\"}"), None, Some(s("")), 5).unwrap().unwrap();
    let mut ids: Vec<String> = d.room_state(&room).into_iter().map(|p| p.event_id).collect();
    ids.sort();
    let mut expected = vec![n, t2];
    expected.sort();
    assert_eq!(ids, expected);
    assert_ne!(t1, expected[0]);
    assert_eq!(d.room_state(&s("!q")).len(), 1);
    assert!(d.room_state(&s("!none")).is_empty());
}

#[test]
fn since_by_event_key() {
    let mut d = store();
    let room = s("!r");
    message(&mut d, "!r", "@a:x", "1", 1);
    let b = message(&mut d, "!r", "@a:x", "2", 2);
    let ids: Vec<String> =
        d.pdus_since_pduid(&room, conduit_core::keys::pdu_id(&room, 1)).into_iter().map(|p| p.event_id).collect();
    assert_eq!(ids, vec![b]);
    assert!(d.pdus_since_pduid(&room, conduit_core::keys::pdu_id(&s("!q"), 0)).is_empty());
    let all: Vec<String> = d.pdus_all(&room).into_iter().map(|p| p.event_id).collect();
    let mut short = conduit_core::keys::room_prefix_bytes(&room);
    short.push(0);
    let ids: Vec<String> = d.pdus_since_pduid(&room, short).into_iter().map(|p| p.event_id).collect();
    assert_eq!(ids, all);
    let mut high = conduit_core::keys::room_prefix_bytes(&room);
    high.extend_from_slice(&[0, 0, 0, 0, 0, 0, 0, 1, 7]);
    let ids: Vec<String> = d.pdus_since_pduid(&room, high).into_iter().map(|p| p.event_id).collect();
    assert_eq!(ids, vec![all[1].clone()]);
    assert!(d.pdus_since_pduid(&room, vec![1, 2, 3]).is_empty());
}

#[test]
fn event_ids_are_content_addressed() {
    let mut d1 = store();
    let mut d2 = store();
    let a1 = message(&mut d1, "!r", "@a:x", "same", 7);
    let a2 = message(&mut d2, "!r", "@a:x", "same", 7);
    assert_eq!(a1, a2);
    assert_ne!(d1.pdu_get(&a1).unwrap().signed, d2.pdu_get(&a2).unwrap().signed);
    let b1 = message(&mut d1, "!r", "@a:x", "different", 8);
    let b2 = message(&mut d2, "!r", "@a:x", "different", 9);
    assert_ne!(b1, b2);
    assert!(!a1.contains('{'));
}

#[test]
fn typing_marker_due_now_is_still_active() {
    let mut d = store();
    let room = s("!r");
    d.roomactive_add(s("x"), &room, 100).unwrap();
    assert_eq!(d.roomactives_in(&room, 100), vec![s("x")]);
    assert_eq!(d.roomactives_in(&room, 101), vec![s(EMPTY_TYPING)]);
}

#[test]
fn invite_appends_then_records() {
    let mut d = store();
    let room = s("!r");
    message(&mut d, "!r", "@creator:x", "hello", 1);
    let alice = s("@alice:x");
    let before = d.last_pdu_index();
    assert_eq!(d.room_invite(&s("@creator:x"), &room, &alice, 3), Ok(()));
    assert_eq!(d.last_pdu_index(), before + 1);
    assert_eq!(d.rooms_invited(&alice), vec![room.clone()]);
    d.displayname_set(&alice, s("ok"), 4).unwrap();
    assert_eq!(d.displayname_get(&alice), Some(s("ok")));
}
