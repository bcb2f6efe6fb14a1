use vstd::prelude::*;
use vstd::utf8::encode_utf8;

verus! {

/// The byte that separates an identifier from what follows it in a key. It
/// never occurs in UTF-8 text.
pub const DELIMITER: u8 = 0xff;

/// The eight big-endian bytes of `n`.
pub open spec fn be8(n: u64) -> Seq<u8> {
    seq![
        ((n >> 56u64) & 0xffu64) as u8,
        ((n >> 48u64) & 0xffu64) as u8,
        ((n >> 40u64) & 0xffu64) as u8,
        ((n >> 32u64) & 0xffu64) as u8,
        ((n >> 24u64) & 0xffu64) as u8,
        ((n >> 16u64) & 0xffu64) as u8,
        ((n >> 8u64) & 0xffu64) as u8,
        (n & 0xffu64) as u8,
    ]
}

/// The prefix shared by the keys of one room: its identifier's UTF-8 bytes
/// and the delimiter.
pub open spec fn room_prefix(room: Seq<char>) -> Seq<u8> {
    encode_utf8(room) + seq![DELIMITER]
}

/// The storage key of the event stored in `room` under `ordinal`.
pub open spec fn pdu_key(room: Seq<char>, ordinal: u64) -> Seq<u8> {
    room_prefix(room) + be8(ordinal)
}

/// The big-endian bytes of `n` (as `u64::to_be_bytes`).
pub fn ordinal_bytes(n: u64) -> (r: Vec<u8>)
    ensures
        r@ == be8(n),
{
    let mut r: Vec<u8> = Vec::new();
    r.push(((n >> 56u64) & 0xffu64) as u8);
    r.push(((n >> 48u64) & 0xffu64) as u8);
    r.push(((n >> 40u64) & 0xffu64) as u8);
    r.push(((n >> 32u64) & 0xffu64) as u8);
    r.push(((n >> 24u64) & 0xffu64) as u8);
    r.push(((n >> 16u64) & 0xffu64) as u8);
    r.push(((n >> 8u64) & 0xffu64) as u8);
    r.push((n & 0xffu64) as u8);
    assert(r@ =~= be8(n));
    r
}

/// The key prefix of `room`.
pub fn room_prefix_bytes(room: &String) -> (r: Vec<u8>)
    ensures
        r@ == room_prefix(room@),
{
    let bytes = room.as_str().as_bytes();
    let mut r: Vec<u8> = Vec::new();
    let mut i: usize = 0;
    while i < bytes.len()
        invariant
            0 <= i <= bytes@.len(),
            bytes@ == encode_utf8(room@),
            r@ == bytes@.subrange(0, i as int),
        decreases bytes@.len() - i,
    {
        r.push(bytes[i]);
        i = i + 1;
        assert(r@ =~= bytes@.subrange(0, i as int));
    }
    assert(bytes@.subrange(0, i as int) =~= bytes@);
    r.push(DELIMITER);
    r
}

/// The storage key of the event stored in `room_id` under `ordinal`.
pub fn pdu_id(room_id: &String, ordinal: u64) -> (r: Vec<u8>)
    ensures
        r@ == pdu_key(room_id@, ordinal),
{
    let mut r = room_prefix_bytes(room_id);
    let tail = ordinal_bytes(ordinal);
    let mut i: usize = 0;
    let ghost head = r@;
    while i < 8
        invariant
            0 <= i <= 8,
            tail@ == be8(ordinal),
            r@ == head + tail@.subrange(0, i as int),
        decreases 8 - i,
    {
        r.push(tail[i]);
        i = i + 1;
        assert(r@ =~= head + tail@.subrange(0, i as int));
    }
    assert(tail@.subrange(0, 8) =~= tail@);
    r
}

/// Byte-wise lexicographic order of keys, the order of the ordered store.
pub open spec fn key_less(a: Seq<u8>, b: Seq<u8>) -> bool
    decreases a.len(),
{
    if a.len() == 0 {
        b.len() > 0
    } else if b.len() == 0 {
        false
    } else if a[0] != b[0] {
        a[0] < b[0]
    } else {
        key_less(a.drop_first(), b.drop_first())
    }
}

/// Whether `a` sorts before `b`.
pub fn key_before(a: &Vec<u8>, b: &Vec<u8>) -> (r: bool)
    ensures
        r == key_less(a@, b@),
{
    let mut i: usize = 0;
    assert(a@.subrange(0, a@.len() as int) =~= a@);
    assert(b@.subrange(0, b@.len() as int) =~= b@);
    while i < a.len() && i < b.len()
        invariant
            0 <= i <= a@.len(),
            i <= b@.len(),
            key_less(a@.subrange(i as int, a@.len() as int), b@.subrange(i as int, b@.len() as int)) == key_less(a@, b@),
        decreases a@.len() - i,
    {
        let ghost sa = a@.subrange(i as int, a@.len() as int);
        let ghost sb = b@.subrange(i as int, b@.len() as int);
        assert(sa[0] == a@[i as int] && sb[0] == b@[i as int]);
        if a[i] != b[i] {
            return a[i] < b[i];
        }
        assert(sa.drop_first() =~= a@.subrange(i + 1, a@.len() as int));
        assert(sb.drop_first() =~= b@.subrange(i + 1, b@.len() as int));
        i = i + 1;
    }
    i == a.len() && i < b.len()
}

/// Whether `key` starts with `prefix`.
pub fn starts_with(key: &Vec<u8>, prefix: &Vec<u8>) -> (r: bool)
    ensures
        r == (prefix@.len() <= key@.len() && key@.subrange(0, prefix@.len() as int) == prefix@),
{
    if key.len() < prefix.len() {
        return false;
    }
    let mut i: usize = 0;
    while i < prefix.len()
        invariant
            0 <= i <= prefix@.len(),
            prefix@.len() <= key@.len(),
            forall|j: int| 0 <= j < i ==> key@[j] == prefix@[j],
        decreases prefix@.len() - i,
    {
        if key[i] != prefix[i] {
            assert(key@.subrange(0, prefix@.len() as int)[i as int] != prefix@[i as int]);
            return false;
        }
        i = i + 1;
    }
    assert(key@.subrange(0, prefix@.len() as int) =~= prefix@);
    true
}

} // verus!
