use conduit_core::keys::{key_before, ordinal_bytes, pdu_id, room_prefix_bytes, DELIMITER};

#[test]
fn ordinals_are_big_endian() {
    assert_eq!(ordinal_bytes(0x0102030405060708), vec![1, 2, 3, 4, 5, 6, 7, 8]);
    assert_eq!(ordinal_bytes(0), vec![0; 8]);
    assert_eq!(ordinal_bytes(u64::MAX), vec![0xff; 8]);
    for n in [0u64, 1, 255, 256, 1 << 40, u64::MAX] {
        assert_eq!(ordinal_bytes(n), n.to_be_bytes().to_vec());
    }
}

#[test]
fn event_keys_layout() {
    let room = "!r".to_owned();
    assert_eq!(room_prefix_bytes(&room), vec![b'!', b'r', DELIMITER]);
    assert_eq!(pdu_id(&room, 5), vec![b'!', b'r', 0xff, 0, 0, 0, 0, 0, 0, 0, 5]);
    let a = pdu_id(&room, 0x1ff);
    let b = pdu_id(&room, 0x200);
    assert!(a < b);
    assert!(!pdu_id(&"!r2".to_owned(), 0).starts_with(&room_prefix_bytes(&room)));
}

#[test]
fn keys_compare_byte_wise() {
    assert!(key_before(&vec![1, 2], &vec![1, 3]));
    assert!(key_before(&vec![1, 2], &vec![1, 2, 0]));
    assert!(!key_before(&vec![1, 2], &vec![1, 2]));
    assert!(!key_before(&vec![2], &vec![1, 9, 9]));
    let room = "!r".to_owned();
    assert!(key_before(&pdu_id(&room, 0x1ff), &pdu_id(&room, 0x200)));
}
