use conduit_core::access::{AccessCheck, AccessDenied};
use conduit_core::auth::{authorize, PowerLevels};

fn reads(acl_ok: bool, world_readable: bool, server_in_room: bool, server_can_see: Option<bool>) -> AccessCheck {
    AccessCheck { acl_ok, world_readable, server_in_room, server_can_see }
}

#[test]
fn acl_denial_wins_even_when_world_readable() {
    let r = reads(false, true, true, Some(true)).check();
    assert_eq!(r, Err(AccessDenied::ServerAccessDenied));
    assert_eq!(AccessDenied::ServerAccessDenied.message(), "Server access denied.");
}

#[test]
fn private_room_without_member_is_refused() {
    let r = reads(true, false, false, None).check();
    assert_eq!(r, Err(AccessDenied::ServerNotInRoom));
    assert_eq!(AccessDenied::ServerNotInRoom.message(), "Server is not in room.");
}

#[test]
fn hidden_event_is_refused() {
    let r = reads(true, true, false, Some(false)).check();
    assert_eq!(r, Err(AccessDenied::ServerCannotSeeEvent));
    assert_eq!(AccessDenied::ServerCannotSeeEvent.message(), "Server is not allowed to see event.");
}

#[test]
fn admitted_requests() {
    assert_eq!(reads(true, false, true, None).check(), Ok(()));
    assert_eq!(reads(true, true, false, None).check(), Ok(()));
    assert_eq!(reads(true, false, true, Some(true)).check(), Ok(()));
}

fn levels() -> PowerLevels {
    PowerLevels { users: vec![("@admin:x".to_owned(), 100), ("@muted:x".to_owned(), -1)], users_default: 0 }
}

#[test]
fn effective_power_levels() {
    let pl = levels();
    assert_eq!(pl.user_level(&"@admin:x".to_owned()), 100);
    assert_eq!(pl.user_level(&"@muted:x".to_owned()), -1);
    assert_eq!(pl.user_level(&"@other:x".to_owned()), 0);
}

#[test]
fn authorization_decisions() {
    let topic = "m.room.topic".to_owned();
    let member = "m.room.member".to_owned();
    let admin = "@admin:x".to_owned();
    let other = "@other:x".to_owned();
    assert!(authorize(true, &topic, &other, &None));
    assert!(authorize(true, &topic, &admin, &Some(levels())));
    assert!(!authorize(true, &topic, &other, &Some(levels())));
    assert!(authorize(true, &member, &other, &Some(levels())));
    assert!(authorize(false, &topic, &other, &Some(levels())));
}

