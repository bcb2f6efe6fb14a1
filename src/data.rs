use vstd::prelude::*;
use vstd::string::*;
use crate::auth::{
    authorize, authorized, authorized_view, lemma_level_view, LevelsView, PowerLevels, MEMBER_KIND,
    POWER_LEVELS_KIND,
};
use crate::identity::{
    assign_identity, event_id_of, identity_ok, parse_power_levels, power_levels_of, PLACEHOLDER_EVENT_ID,
};
use crate::log::{
    event_lookup, events_after, events_before, lemma_after_zero, lemma_max_depth_bounded, lemma_room_events_prefix, lemma_state_lookup_found,
    lemma_state_lookup_last, max_depth, ordinals_increasing, room_events, state_lookup, state_match, LogEntry,
};
use crate::keys::{key_before, key_less, pdu_id as pdu_id_of, pdu_key, room_prefix, room_prefix_bytes, starts_with};
use crate::pdu::{Pdu, PduView, StoredPdu};
use crate::slots::{
    active_events, lemma_receipt_single, lemma_without_expired_bound, lemma_without_receipt_ok,
    lemma_without_user_data_ok, receipts_ok, user_data_ok, actives_bounded, lemma_bounds_grow, lemma_receipt_push,
    lemma_user_data_push, lemma_active_insert, lemma_active_remove, lemma_empty_ok, lemma_user_data_single, receipts_after, receipts_of,
    user_data_after, user_data_lookup, user_data_of, without_expired, without_receipt, without_user_data,
    ActiveView, ReceiptView, UserDataView,
};
use crate::strs::{clone_opt, opt_eq, opt_str, str_pairs, strs};
use crate::table::{
    add_pair, contains_pair, count_second, count_seconds, distinct_firsts, firsts, get_value, has_pair,
    lookup_key, remove_pair, seconds, seconds_of, with_value, without_key, without_key_vec, without_pair,
    PairView,
};
use crate::identity::{member_content, member_content_text};
use ruma_signatures::Ed25519KeyPair;

verus! {

/// reqwest's HTTP client, carried as an opaque value for outbound federation.
#[verifier::external_type_specification]
#[verifier::external_body]
pub struct ExClient(reqwest::Client);

/// A fault that ends an operation before anything is stored.
#[derive(Clone, Copy, Debug, PartialEq, Eq, Structural)]
pub enum StoreError {
    /// The global sequence has no ordinal left.
    SequenceExhausted,
    /// Computing the event's identifier or signature failed.
    Identity,
}

/// The last-read position of a user in a room.
pub struct Cursor {
    pub room_id: String,
    pub user_id: String,
    pub ordinal: u64,
}

pub type CursorView = (Seq<char>, Seq<char>, u64);

/// The latest read receipt of a user in a room.
pub struct Receipt {
    pub ordinal: u64,
    pub room_id: String,
    pub user_id: String,
    pub event: String,
}

/// A typing or presence marker that lapses at `timeout`.
pub struct ActiveMarker {
    pub timeout: u64,
    pub ordinal: u64,
    pub room_id: String,
    pub event: String,
}

/// An account-data item of a user, in a room or global (no room).
pub struct UserDataSlot {
    pub ordinal: u64,
    pub room_id: Option<String>,
    pub user_id: String,
    pub kind: String,
    pub event: String,
}

/// The event that stands for "nobody is typing".
pub const EMPTY_TYPING: &'static str = "{\"content\":{\"user_ids\":[]},\"type\":\"m.typing\"}";

pub open spec fn pdu_views(v: Seq<Pdu>) -> Seq<PduView> {
    v.map_values(|p: Pdu| p@)
}

/// The events of `room` whose storage key sorts after `key`, oldest first.
pub open spec fn events_after_key(log: Seq<LogEntry>, room: Seq<char>, key: Seq<u8>) -> Seq<PduView>
    decreases log.len(),
{
    if log.len() == 0 {
        Seq::empty()
    } else {
        let rest = events_after_key(log.drop_last(), room, key);
        if log.last().1.room_id == room && key_less(key, pdu_key(room, log.last().0)) {
            rest.push(log.last().1)
        } else {
            rest
        }
    }
}

/// The frontier of `room`: the event identifiers recorded for it, in order.
pub open spec fn frontier_of(leaves: Seq<(Seq<char>, Seq<char>)>, room: Seq<char>) -> Seq<Seq<char>>
    decreases leaves.len(),
{
    if leaves.len() == 0 {
        Seq::empty()
    } else {
        let rest = frontier_of(leaves.drop_last(), room);
        if leaves.last().0 == room { rest.push(leaves.last().1) } else { rest }
    }
}

/// The frontier entries of every room but `room`.
pub open spec fn without_room(leaves: Seq<(Seq<char>, Seq<char>)>, room: Seq<char>) -> Seq<(Seq<char>, Seq<char>)>
    decreases leaves.len(),
{
    if leaves.len() == 0 {
        Seq::empty()
    } else {
        let rest = without_room(leaves.drop_last(), room);
        if leaves.last().0 == room { rest } else { rest.push(leaves.last()) }
    }
}

/// The power levels of `room`: those of its power-levels state, where a
/// content that does not parse gives no user any power; none without such
/// a state.
pub open spec fn room_power_levels(log: Seq<LogEntry>, room: Seq<char>) -> Option<LevelsView> {
    match state_lookup(log, room, POWER_LEVELS_KIND@, Seq::empty()) {
        Some(p) => match power_levels_of(p.content) {
            Some(v) => Some(v),
            None => Some((Seq::empty(), 0)),
        },
        None => None,
    }
}

/// Every room has at most one frontier entry.
#[verifier::opaque]
pub open spec fn leaves_ok(leaves: Seq<(Seq<char>, Seq<char>)>) -> bool {
    forall|room: Seq<char>| #[trigger] frontier_of(leaves, room).len() <= 1
}

proof fn lemma_without_room_frontier(leaves: Seq<(Seq<char>, Seq<char>)>, room: Seq<char>, other: Seq<char>)
    ensures
        frontier_of(without_room(leaves, room), room).len() == 0,
        other != room ==> frontier_of(without_room(leaves, room), other) == frontier_of(leaves, other),
    decreases leaves.len(),
{
    if leaves.len() > 0 {
        lemma_without_room_frontier(leaves.drop_last(), room, other);
        let w = without_room(leaves.drop_last(), room);
        assert(w.push(leaves.last()).drop_last() =~= w);
    }
}

proof fn lemma_replace_leaves_ok(leaves: Seq<(Seq<char>, Seq<char>)>, room: Seq<char>, id: Seq<char>)
    requires
        leaves_ok(leaves),
    ensures
        leaves_ok(without_room(leaves, room).push((room, id))),
{
    reveal(leaves_ok);
    let w = without_room(leaves, room);
    assert forall|r: Seq<char>| #[trigger] frontier_of(w.push((room, id)), r).len() <= 1 by {
        lemma_without_room_frontier(leaves, room, r);
        assert(w.push((room, id)).drop_last() =~= w);
        assert(frontier_of(leaves, r).len() <= 1);
    }
}

/// The cursor of `user` in `room`.
pub open spec fn cursor_of(cursors: Seq<CursorView>, room: Seq<char>, user: Seq<char>) -> Option<u64>
    decreases cursors.len(),
{
    if cursors.len() == 0 {
        None
    } else if cursors.last().0 == room && cursors.last().1 == user {
        Some(cursors.last().2)
    } else {
        cursor_of(cursors.drop_last(), room, user)
    }
}

/// The cursors of every (room, user) pair but the given one.
pub open spec fn without_cursor(cursors: Seq<CursorView>, room: Seq<char>, user: Seq<char>) -> Seq<CursorView>
    decreases cursors.len(),
{
    if cursors.len() == 0 {
        Seq::empty()
    } else {
        let rest = without_cursor(cursors.drop_last(), room, user);
        if cursors.last().0 == room && cursors.last().1 == user { rest } else { rest.push(cursors.last()) }
    }
}

/// The unsigned side-channel of a new event: the caller's members, with
/// `prev_content` set to the content of the state that the event supersedes.
pub open spec fn unsigned_after(u: Seq<(Seq<char>, Seq<char>)>, prev: Option<PduView>) -> Seq<(Seq<char>, Seq<char>)> {
    match prev {
        Some(p) => without_key(u, "prev_content"@).push(("prev_content"@, p.content)),
        None => u,
    }
}

/// The event that an append builds before it is given its identity.
pub open spec fn draft_event(
    room: Seq<char>,
    sender: Seq<char>,
    origin: Seq<char>,
    ts: u64,
    kind: Seq<char>,
    content: Seq<char>,
    state_key: Option<Seq<char>>,
    prev_events: Seq<Seq<char>>,
    depth: u64,
    unsigned: Seq<(Seq<char>, Seq<char>)>,
) -> PduView {
    PduView {
        event_id: PLACEHOLDER_EVENT_ID@,
        room_id: room,
        sender,
        origin,
        origin_server_ts: ts,
        kind,
        content,
        state_key,
        prev_events,
        depth,
        redacts: None,
        unsigned,
        signed: Seq::empty(),
    }
}

pub open spec fn unsigned_view(u: Option<Vec<(String, String)>>) -> Seq<(Seq<char>, Seq<char>)> {
    match u {
        Some(v) => str_pairs(v@),
        None => Seq::empty(),
    }
}

/// The event that an append to `room` builds on `old` before the event is
/// given its identity.
pub open spec fn append_draft(
    old: Data,
    room: Seq<char>,
    sender: Seq<char>,
    kind: Seq<char>,
    content: Seq<char>,
    unsigned: Seq<(Seq<char>, Seq<char>)>,
    state_key: Option<Seq<char>>,
    ts: u64,
) -> PduView {
    let prevs = frontier_of(old.leaves_view(), room);
    let prev_state = match state_key {
        Some(k) => state_lookup(old.log(), room, kind, k),
        None => None,
    };
    draft_event(
        room,
        sender,
        old.host(),
        ts,
        kind,
        content,
        state_key,
        prevs,
        (max_depth(old.log(), prevs) + 1) as u64,
        unsigned_after(unsigned, prev_state),
    )
}

/// `new` is `old` after a successful append of the event `id` to `room`.
pub open spec fn appended(
    old: Data,
    new: Data,
    id: Seq<char>,
    room: Seq<char>,
    sender: Seq<char>,
    kind: Seq<char>,
    content: Seq<char>,
    unsigned: Seq<(Seq<char>, Seq<char>)>,
    state_key: Option<Seq<char>>,
    ts: u64,
) -> bool {
    let ord = (old.last_ordinal() + 1) as u64;
    let prevs = frontier_of(old.leaves_view(), room);
    let draft = append_draft(old, room, sender, kind, content, unsigned, state_key, ts);
    &&& old.last_ordinal() < u64::MAX
    &&& new.last_ordinal() == ord
    &&& new.log().len() == old.log().len() + 1
    &&& new.log().drop_last() == old.log()
    &&& new.log().last().0 == ord
    &&& new.log().last().1 == PduView { event_id: id, signed: new.log().last().1.signed, ..draft }
    &&& new.log().last().1.depth == max_depth(old.log(), prevs) + 1
    &&& event_id_of(draft) == Some(id)
    &&& event_lookup(new.log(), id) == Some(new.log().last())
    &&& new.leaves_view() == without_room(old.leaves_view(), room).push((room, id))
    &&& frontier_of(new.leaves_view(), room) == seq![id]
    &&& new.cursors_view() == without_cursor(old.cursors_view(), room, sender).push((room, sender, ord))
    &&& cursor_of(new.cursors_view(), room, sender) == Some(ord)
}

/// The event log, frontiers, cursors and sequence are the same in `a` and `b`.
pub open spec fn same_events(a: Data, b: Data) -> bool {
    &&& a.log() == b.log()
    &&& a.last_ordinal() == b.last_ordinal()
    &&& a.leaves_view() == b.leaves_view()
    &&& a.cursors_view() == b.cursors_view()
}

/// `new` holds the events of `old` and one more membership event that
/// `sender` appended to `room` about `user`.
pub open spec fn member_appended(
    old: Data,
    new: Data,
    room: Seq<char>,
    sender: Seq<char>,
    user: Seq<char>,
    content: Seq<char>,
    ts: u64,
) -> bool {
    exists|id: Seq<char>| appended(old, new, id, room, sender, MEMBER_KIND@, content, Seq::empty(), Some(user), ts)
}

/// Whether a membership event about `user` with `content` can be appended
/// to `room` on `old`: an ordinal is left and the event can be given its
/// identity.
pub open spec fn member_append_ok(
    old: Data,
    room: Seq<char>,
    sender: Seq<char>,
    user: Seq<char>,
    content: Seq<char>,
    ts: u64,
) -> bool {
    &&& old.last_ordinal() < u64::MAX
    &&& identity_ok(append_draft(old, room, sender, MEMBER_KIND@, content, Seq::empty(), Some(user), ts), old.host())
}

/// The key under which the access token of `device` of `user` is kept: the
/// user's identifier, a character that no user identifier holds, and the
/// device's.
pub open spec fn device_key(user: Seq<char>, device: Seq<char>) -> Seq<char> {
    user + seq!['\u{0}'] + device
}

/// The store of a homeserver: the event log, room frontiers, read cursors,
/// ephemeral slots, accounts and memberships.
pub struct Data {
    hostname: String,
    reqwest_client: reqwest::Client,
    keypair: Ed25519KeyPair,
    counter: u64,
    pdus: Vec<StoredPdu>,
    leaves: Vec<(String, String)>,
    cursors: Vec<Cursor>,
    receipts: Vec<Receipt>,
    actives: Vec<ActiveMarker>,
    user_data: Vec<UserDataSlot>,
    passwords: Vec<(String, String)>,
    tokens: Vec<(String, String)>,
    devices: Vec<(String, String)>,
    device_tokens: Vec<(String, String)>,
    displaynames: Vec<(String, String)>,
    avatar_urls: Vec<(String, String)>,
    joined: Vec<(String, String)>,
    invited: Vec<(String, String)>,
    left: Vec<(String, String)>,
}

impl Data {
    /// The stored events with their ordinals, in order of storage.
    pub closed spec fn log(&self) -> Seq<LogEntry> {
        self.pdus@.map_values(|s: StoredPdu| (s.ordinal, s.pdu@))
    }

    /// The last ordinal handed out by the global sequence.
    pub closed spec fn last_ordinal(&self) -> u64 {
        self.counter
    }

    pub closed spec fn leaves_view(&self) -> Seq<(Seq<char>, Seq<char>)> {
        str_pairs(self.leaves@)
    }

    pub closed spec fn cursors_view(&self) -> Seq<CursorView> {
        self.cursors@.map_values(|c: Cursor| (c.room_id@, c.user_id@, c.ordinal))
    }

    pub closed spec fn host(&self) -> Seq<char> {
        self.hostname@
    }

    pub closed spec fn receipts_view(&self) -> Seq<ReceiptView> {
        self.receipts@.map_values(|x: Receipt| (x.ordinal, x.room_id@, x.user_id@, x.event@))
    }

    pub closed spec fn actives_view(&self) -> Seq<ActiveView> {
        self.actives@.map_values(|x: ActiveMarker| (x.timeout, x.ordinal, x.room_id@, x.event@))
    }

    pub closed spec fn user_data_view(&self) -> Seq<UserDataView> {
        self.user_data@.map_values(|x: UserDataSlot| (x.ordinal, opt_str(x.room_id), x.user_id@, x.kind@, x.event@))
    }

    /// Password hashes by user.
    pub closed spec fn passwords_view(&self) -> Seq<PairView> {
        str_pairs(self.passwords@)
    }

    /// Users by access token.
    pub closed spec fn tokens_view(&self) -> Seq<PairView> {
        str_pairs(self.tokens@)
    }

    /// (user, device) pairs.
    pub closed spec fn devices_view(&self) -> Seq<PairView> {
        str_pairs(self.devices@)
    }

    /// Access tokens by device: the key is the device identifier under the
    /// user's identifier (see [`device_key`]).
    pub closed spec fn device_tokens_view(&self) -> Seq<PairView> {
        str_pairs(self.device_tokens@)
    }

    pub closed spec fn displaynames_view(&self) -> Seq<PairView> {
        str_pairs(self.displaynames@)
    }

    pub closed spec fn avatar_urls_view(&self) -> Seq<PairView> {
        str_pairs(self.avatar_urls@)
    }

    /// (user, room) pairs of joined members.
    pub closed spec fn joined_view(&self) -> Seq<PairView> {
        str_pairs(self.joined@)
    }

    /// (user, room) pairs of invited users.
    pub closed spec fn invited_view(&self) -> Seq<PairView> {
        str_pairs(self.invited@)
    }

    /// (user, room) pairs of rooms that users left and have not forgotten.
    pub closed spec fn left_view(&self) -> Seq<PairView> {
        str_pairs(self.left@)
    }

    /// The server's identity is the same in `self` and `o`.
    pub closed spec fn identity_eq(&self, o: &Data) -> bool {
        &&& self.hostname == o.hostname
        &&& self.reqwest_client == o.reqwest_client
        &&& self.keypair == o.keypair
    }

    /// The account tables are the same in `self` and `o`.
    pub closed spec fn accounts_eq(&self, o: &Data) -> bool {
        &&& self.passwords == o.passwords
        &&& self.tokens == o.tokens
        &&& self.devices == o.devices
        &&& self.device_tokens == o.device_tokens
        &&& self.displaynames == o.displaynames
        &&& self.avatar_urls == o.avatar_urls
    }

    /// The membership tables are the same in `self` and `o`.
    pub closed spec fn members_eq(&self, o: &Data) -> bool {
        &&& self.joined == o.joined
        &&& self.invited == o.invited
        &&& self.left == o.left
    }

    /// The server's identity and its account and membership tables are the
    /// same in `self` and `o`.
    pub closed spec fn profile_eq(&self, o: &Data) -> bool {
        self.identity_eq(o) && self.accounts_eq(o) && self.members_eq(o)
    }

    /// The ephemeral tables are the same in `self` and `o`.
    pub closed spec fn ephemeral_eq(&self, o: &Data) -> bool {
        &&& self.receipts == o.receipts
        &&& self.actives == o.actives
        &&& self.user_data == o.user_data
    }

    /// Everything but the event log, frontiers, cursors and sequence is the
    /// same in `self` and `o`.
    pub closed spec fn beyond_events_eq(&self, o: &Data) -> bool {
        self.profile_eq(o) && self.ephemeral_eq(o)
    }

    /// Ordinals grow along the log, none is 0 or passes the sequence, and no
    /// event is deeper than its ordinal. Receipt and account-data ordinals
    /// grow in storage order, each subject has at most one slot, and no
    /// ephemeral ordinal passes the sequence. Every room has at most one
    /// frontier entry.
    pub closed spec fn wf(&self) -> bool {
        &&& leaves_ok(self.leaves_view())
        &&& receipts_ok(self.receipts_view(), self.counter)
        &&& user_data_ok(self.user_data_view(), self.counter)
        &&& actives_bounded(self.actives_view(), self.counter)
        &&& ordinals_increasing(self.log())
        &&& forall|i: int| 0 <= i < self.log().len() ==> {
            &&& 1 <= self.log()[i].0 <= self.counter
            &&& self.log()[i].1.depth <= self.log()[i].0
        }
    }

    /// Ordinals grow along the log of a well-formed store.
    pub proof fn lemma_wf_ordinals(&self)
        requires
            self.wf(),
        ensures
            ordinals_increasing(self.log()),
    {
    }

    /// A store with nothing in it.
    pub fn new(hostname: String, keypair: Ed25519KeyPair, reqwest_client: reqwest::Client) -> (r: Data)
        ensures
            r.wf(),
            r.host() == hostname@,
            r.last_ordinal() == 0,
            r.log().len() == 0,
            r.leaves_view().len() == 0,
            r.cursors_view().len() == 0,
            r.receipts_view().len() == 0,
            r.actives_view().len() == 0,
            r.user_data_view().len() == 0,
            r.passwords_view().len() == 0,
            r.tokens_view().len() == 0,
            r.devices_view().len() == 0,
            r.device_tokens_view().len() == 0,
            r.displaynames_view().len() == 0,
            r.avatar_urls_view().len() == 0,
            r.joined_view().len() == 0,
            r.invited_view().len() == 0,
            r.left_view().len() == 0,
    {
        let r = Data {
            hostname,
            reqwest_client,
            keypair,
            counter: 0,
            pdus: Vec::new(),
            leaves: Vec::new(),
            cursors: Vec::new(),
            receipts: Vec::new(),
            actives: Vec::new(),
            user_data: Vec::new(),
            passwords: Vec::new(),
            tokens: Vec::new(),
            devices: Vec::new(),
            device_tokens: Vec::new(),
            displaynames: Vec::new(),
            avatar_urls: Vec::new(),
            joined: Vec::new(),
            invited: Vec::new(),
            left: Vec::new(),
        };
        assert(r.log() =~= Seq::<LogEntry>::empty());
        assert(r.receipts_view() =~= Seq::<ReceiptView>::empty());
        assert(r.user_data_view() =~= Seq::<UserDataView>::empty());
        assert(r.actives_view() =~= Seq::<ActiveView>::empty());
        proof {
            lemma_empty_ok(0);
            reveal(leaves_ok);
            assert forall|room: Seq<char>| #[trigger] frontier_of(r.leaves_view(), room).len() <= 1 by {
                assert(r.leaves_view() =~= Seq::<(Seq<char>, Seq<char>)>::empty());
            }
        }
        r
    }

    /// The server's name.
    pub fn hostname(&self) -> (r: &str)
        ensures
            r@ == self.host(),
    {
        self.hostname.as_str()
    }

    /// The HTTP client for outbound federation.
    pub fn reqwest_client(&self) -> &reqwest::Client {
        &self.reqwest_client
    }

    /// The server's signing key.
    pub fn keypair(&self) -> &Ed25519KeyPair {
        &self.keypair
    }

    /// The last ordinal handed out by the global sequence.
    pub fn last_pdu_index(&self) -> (r: u64)
        ensures
            r == self.last_ordinal(),
    {
        self.counter
    }

    /// Takes the next ordinal of the global sequence.
    fn next_ordinal(&mut self) -> (r: Result<u64, StoreError>)
        ensures
            old(self).last_ordinal() == u64::MAX ==> r == Err::<u64, StoreError>(StoreError::SequenceExhausted)
                && *final(self) == *old(self),
            old(self).last_ordinal() < u64::MAX ==> r == Ok::<u64, StoreError>((old(self).last_ordinal() + 1) as u64)
                && *final(self) == (Data { counter: (old(self).counter + 1) as u64, ..*old(self) }),
    {
        if self.counter == u64::MAX {
            return Err(StoreError::SequenceExhausted);
        }
        self.counter = self.counter + 1;
        Ok(self.counter)
    }

    /// The stream ordinal of the event with identifier `event_id`.
    pub fn pdu_get_count(&self, event_id: &String) -> (r: Option<u64>)
        ensures
            r == (match event_lookup(self.log(), event_id@) {
                Some(e) => Some(e.0),
                None => None,
            }),
    {
        match self.find_event(event_id) {
            Some(i) => Some(self.pdus[i].ordinal),
            None => None,
        }
    }

    /// The event with identifier `event_id`.
    pub fn pdu_get(&self, event_id: &String) -> (r: Option<Pdu>)
        ensures
            match event_lookup(self.log(), event_id@) {
                Some(e) => r matches Some(p) && p@ == e.1,
                None => r is None,
            },
    {
        match self.find_event(event_id) {
            Some(i) => Some(self.pdus[i].pdu.duplicate()),
            None => None,
        }
    }

    fn find_event(&self, event_id: &String) -> (r: Option<usize>)
        ensures
            match event_lookup(self.log(), event_id@) {
                Some(e) => r matches Some(i) && i < self.log().len() && self.log()[i as int] == e,
                None => r is None,
            },
    {
        let mut i: usize = self.pdus.len();
        assert(self.log().subrange(0, i as int) =~= self.log());
        while i > 0
            invariant
                0 <= i <= self.pdus@.len(),
                self.log().len() == self.pdus@.len(),
                event_lookup(self.log().subrange(0, i as int), event_id@) == event_lookup(self.log(), event_id@),
            decreases i,
        {
            assert(self.log().subrange(0, i as int).drop_last() =~= self.log().subrange(0, i - 1));
            if self.pdus[i - 1].pdu.event_id == *event_id {
                return Some(i - 1);
            }
            i = i - 1;
        }
        None
    }

    /// The frontier of `room`.
    pub fn pdu_leaves_get(&self, room_id: &String) -> (r: Vec<String>)
        ensures
            strs(r@) == frontier_of(self.leaves_view(), room_id@),
    {
        let mut r: Vec<String> = Vec::new();
        let mut i: usize = 0;
        while i < self.leaves.len()
            invariant
                0 <= i <= self.leaves@.len(),
                self.leaves_view().len() == self.leaves@.len(),
                strs(r@) == frontier_of(self.leaves_view().subrange(0, i as int), room_id@),
            decreases self.leaves@.len() - i,
        {
            assert(self.leaves_view().subrange(0, i + 1).drop_last() =~= self.leaves_view().subrange(0, i as int));
            if self.leaves[i].0 == *room_id {
                r.push(self.leaves[i].1.clone());
            }
            i = i + 1;
            assert(strs(r@) =~= frontier_of(self.leaves_view().subrange(0, i as int), room_id@));
        }
        assert(self.leaves_view().subrange(0, i as int) =~= self.leaves_view());
        r
    }

    /// Makes `event_id` the whole frontier of `room`.
    pub fn pdu_leaves_replace(&mut self, room_id: &String, event_id: &String)
        ensures
            final(self).leaves_view() == without_room(old(self).leaves_view(), room_id@).push((room_id@, event_id@)),
            frontier_of(final(self).leaves_view(), room_id@) == seq![event_id@],
            final(self).log() == old(self).log(),
            final(self).last_ordinal() == old(self).last_ordinal(),
            final(self).cursors_view() == old(self).cursors_view(),
            final(self).beyond_events_eq(&*old(self)),
            old(self).wf() ==> final(self).wf(),
    {
        let mut kept: Vec<(String, String)> = Vec::new();
        let mut i: usize = 0;
        while i < self.leaves.len()
            invariant
                0 <= i <= self.leaves@.len(),
                self.leaves_view().len() == self.leaves@.len(),
                str_pairs(kept@) == without_room(self.leaves_view().subrange(0, i as int), room_id@),
                frontier_of(str_pairs(kept@), room_id@).len() == 0,
            decreases self.leaves@.len() - i,
        {
            assert(self.leaves_view().subrange(0, i + 1).drop_last() =~= self.leaves_view().subrange(0, i as int));
            if self.leaves[i].0 != *room_id {
                let ghost before = kept@;
                kept.push((self.leaves[i].0.clone(), self.leaves[i].1.clone()));
                assert(str_pairs(kept@).drop_last() =~= str_pairs(before));
            }
            i = i + 1;
            assert(str_pairs(kept@) =~= without_room(self.leaves_view().subrange(0, i as int), room_id@));
        }
        assert(self.leaves_view().subrange(0, i as int) =~= self.leaves_view());
        let ghost before = kept@;
        kept.push((room_id.clone(), event_id.clone()));
        assert(str_pairs(kept@) =~= str_pairs(before).push((room_id@, event_id@)));
        assert(str_pairs(kept@).drop_last() =~= str_pairs(before));
        assert(frontier_of(str_pairs(kept@), room_id@) =~= seq![event_id@]);
        proof {
            if old(self).wf() {
                lemma_replace_leaves_ok(old(self).leaves_view(), room_id@, event_id@);
            }
        }
        self.leaves = kept;
    }

    /// Whether any event of `room` is stored.
    pub fn room_exists(&self, room_id: &String) -> (r: bool)
        ensures
            r == (room_events(self.log(), room_id@).len() > 0),
    {
        let mut i: usize = 0;
        while i < self.pdus.len()
            invariant
                0 <= i <= self.pdus@.len(),
                self.log().len() == self.pdus@.len(),
                room_events(self.log().subrange(0, i as int), room_id@).len() == 0,
            decreases self.pdus@.len() - i,
        {
            assert(self.log().subrange(0, i + 1).drop_last() =~= self.log().subrange(0, i as int));
            if self.pdus[i].pdu.room_id == *room_id {
                proof { lemma_room_events_prefix(self.log(), room_id@, i as int); }
                return true;
            }
            i = i + 1;
        }
        assert(self.log().subrange(0, i as int) =~= self.log());
        false
    }

    /// The events of `room` stored after ordinal `since`, oldest first.
    fn scan_after(&self, room_id: &String, since: u64) -> (r: Vec<Pdu>)
        ensures
            pdu_views(r@) == events_after(self.log(), room_id@, since),
    {
        let mut r: Vec<Pdu> = Vec::new();
        let mut i: usize = 0;
        while i < self.pdus.len()
            invariant
                0 <= i <= self.pdus@.len(),
                self.log().len() == self.pdus@.len(),
                pdu_views(r@) == events_after(self.log().subrange(0, i as int), room_id@, since),
            decreases self.pdus@.len() - i,
        {
            assert(self.log().subrange(0, i + 1).drop_last() =~= self.log().subrange(0, i as int));
            if self.pdus[i].pdu.room_id == *room_id && self.pdus[i].ordinal > since {
                r.push(self.pdus[i].pdu.duplicate());
            }
            i = i + 1;
            assert(pdu_views(r@) =~= events_after(self.log().subrange(0, i as int), room_id@, since));
        }
        assert(self.log().subrange(0, i as int) =~= self.log());
        r
    }

    /// The events of `room_id` whose storage key sorts after `pdu_id`, oldest
    /// first. A key outside the room's key range gives nothing.
    pub fn pdus_since_pduid(&self, room_id: &String, pdu_id: Vec<u8>) -> (r: Vec<Pdu>)
        ensures
            ({
                let p = room_prefix(room_id@);
                if p.len() <= pdu_id@.len() && pdu_id@.subrange(0, p.len() as int) == p {
                    pdu_views(r@) == events_after_key(self.log(), room_id@, pdu_id@)
                } else {
                    r@.len() == 0
                }
            }),
    {
        let prefix = room_prefix_bytes(room_id);
        if !starts_with(&pdu_id, &prefix) {
            return Vec::new();
        }
        let mut r: Vec<Pdu> = Vec::new();
        let mut i: usize = 0;
        while i < self.pdus.len()
            invariant
                0 <= i <= self.pdus@.len(),
                self.log().len() == self.pdus@.len(),
                pdu_views(r@) == events_after_key(self.log().subrange(0, i as int), room_id@, pdu_id@),
            decreases self.pdus@.len() - i,
        {
            assert(self.log().subrange(0, i + 1).drop_last() =~= self.log().subrange(0, i as int));
            if self.pdus[i].pdu.room_id == *room_id {
                let key = pdu_id_of(room_id, self.pdus[i].ordinal);
                if key_before(&pdu_id, &key) {
                    r.push(self.pdus[i].pdu.duplicate());
                }
            }
            i = i + 1;
            assert(pdu_views(r@) =~= events_after_key(self.log().subrange(0, i as int), room_id@, pdu_id@));
        }
        assert(self.log().subrange(0, i as int) =~= self.log());
        r
    }

    /// The events of `room_id` stored after ordinal `since`, oldest first.
    pub fn pdus_since(&self, room_id: &String, since: u64) -> (r: Vec<Pdu>)
        ensures
            pdu_views(r@) == events_after(self.log(), room_id@, since),
    {
        self.scan_after(room_id, since)
    }

    /// All events of `room`, oldest first.
    pub fn pdus_all(&self, room_id: &String) -> (r: Vec<Pdu>)
        requires
            self.wf(),
        ensures
            pdu_views(r@) == room_events(self.log(), room_id@),
    {
        let r = self.pdus_since(room_id, 0);
        proof { lemma_after_zero(self.log(), room_id@); }
        r
    }

    /// At most `max` events of `room` stored before ordinal `until`, newest
    /// first.
    pub fn pdus_until(&self, room_id: &String, until: u64, max: u32) -> (r: Vec<Pdu>)
        ensures
            pdu_views(r@) == events_before(self.log(), room_id@, until, max as nat),
    {
        let mut r: Vec<Pdu> = Vec::new();
        let mut i: usize = self.pdus.len();
        assert(self.log().subrange(0, i as int) =~= self.log());
        while i > 0
            invariant
                0 <= i <= self.pdus@.len(),
                self.log().len() == self.pdus@.len(),
                r@.len() <= max,
                pdu_views(r@) + events_before(self.log().subrange(0, i as int), room_id@, until, (max - r@.len()) as nat)
                    == events_before(self.log(), room_id@, until, max as nat),
            ensures
                i == 0 || r@.len() == max,
            decreases i,
        {
            if r.len() >= max as usize {
                break;
            }
            let ghost sub = self.log().subrange(0, i as int);
            assert(sub.drop_last() =~= self.log().subrange(0, i - 1));
            if self.pdus[i - 1].pdu.room_id == *room_id && self.pdus[i - 1].ordinal < until {
                let ghost before = pdu_views(r@);
                r.push(self.pdus[i - 1].pdu.duplicate());
                assert(pdu_views(r@) =~= before.push(self.log()[i - 1].1));
                assert(pdu_views(r@) + events_before(self.log().subrange(0, i - 1), room_id@, until, (max - r@.len()) as nat)
                    =~= before + events_before(sub, room_id@, until, (max - before.len()) as nat));
            }
            i = i - 1;
        }
        if i == 0 {
            assert(self.log().subrange(0, i as int).len() == 0);
        }
        assert(events_before(self.log().subrange(0, i as int), room_id@, until, (max - r@.len()) as nat)
            == Seq::<PduView>::empty());
        assert(pdu_views(r@) + Seq::<PduView>::empty() =~= pdu_views(r@));
        r
    }

    /// The latest state event of `room` for the pair (`kind`, `state_key`).
    pub fn room_state_get(&self, room_id: &String, kind: &String, state_key: &String) -> (r: Option<Pdu>)
        ensures
            match state_lookup(self.log(), room_id@, kind@, state_key@) {
                Some(p) => r matches Some(q) && q@ == p,
                None => r is None,
            },
    {
        let mut i: usize = self.pdus.len();
        assert(self.log().subrange(0, i as int) =~= self.log());
        while i > 0
            invariant
                0 <= i <= self.pdus@.len(),
                self.log().len() == self.pdus@.len(),
                state_lookup(self.log().subrange(0, i as int), room_id@, kind@, state_key@)
                    == state_lookup(self.log(), room_id@, kind@, state_key@),
            decreases i,
        {
            let ghost sub = self.log().subrange(0, i as int);
            assert(sub.drop_last() =~= self.log().subrange(0, i - 1));
            let p = &self.pdus[i - 1].pdu;
            if p.room_id == *room_id && p.kind == *kind {
                match &p.state_key {
                    Some(k) => {
                        if *k == *state_key {
                            return Some(p.duplicate());
                        }
                    },
                    None => {},
                }
            }
            i = i - 1;
        }
        None
    }

    /// The power levels of `room`, when it has a power-levels state. A
    /// power-levels content that does not parse gives no user any power.
    pub fn power_levels(&self, room_id: &String) -> (r: Option<PowerLevels>)
        ensures
            match r {
                Some(pl) => room_power_levels(self.log(), room_id@) == Some(pl.levels_view()),
                None => room_power_levels(self.log(), room_id@) is None,
            },
    {
        let kind = String::from_str(POWER_LEVELS_KIND);
        let empty = String::new();
        match self.room_state_get(room_id, &kind, &empty) {
            Some(pdu) => match parse_power_levels(pdu.content.as_str()) {
                Some(levels) => Some(levels),
                None => {
                    let pl = PowerLevels { users: Vec::new(), users_default: 0 };
                    assert(pl.levels_view().0 =~= Seq::<(Seq<char>, i64)>::empty());
                    Some(pl)
                },
            },
            None => None,
        }
    }

    /// The largest depth among the events `ids`, 0 for none.
    fn max_depth_of(&self, ids: &Vec<String>) -> (r: u64)
        requires
            self.wf(),
        ensures
            r == max_depth(self.log(), strs(ids@)),
            r <= self.last_ordinal(),
    {
        let mut r: u64 = 0;
        let mut i: usize = 0;
        while i < ids.len()
            invariant
                0 <= i <= ids@.len(),
                self.wf(),
                r == max_depth(self.log(), strs(ids@).subrange(0, i as int)),
                r <= self.last_ordinal(),
            decreases ids@.len() - i,
        {
            assert(strs(ids@).subrange(0, i + 1).drop_last() =~= strs(ids@).subrange(0, i as int));
            let d: u64 = match self.find_event(&ids[i]) {
                Some(k) => self.pdus[k].pdu.depth,
                None => 0,
            };
            proof {
                lemma_max_depth_bounded(self.log(), strs(ids@).subrange(0, i + 1), self.counter);
            }
            if d > r {
                r = d;
            }
            i = i + 1;
        }
        assert(strs(ids@).subrange(0, i as int) =~= strs(ids@));
        r
    }

    /// Sets the cursor of `user_id` in `room_id` to `ordinal`.
    fn set_cursor(&mut self, room_id: &String, user_id: &String, ordinal: u64)
        ensures
            final(self).cursors_view() == without_cursor(old(self).cursors_view(), room_id@, user_id@).push(
                (room_id@, user_id@, ordinal),
            ),
            final(self).log() == old(self).log(),
            final(self).last_ordinal() == old(self).last_ordinal(),
            final(self).leaves_view() == old(self).leaves_view(),
            final(self).beyond_events_eq(&*old(self)),
            final(self).wf() == old(self).wf(),
    {
        let mut kept: Vec<Cursor> = Vec::new();
        let mut i: usize = 0;
        while i < self.cursors.len()
            invariant
                0 <= i <= self.cursors@.len(),
                self.cursors_view().len() == self.cursors@.len(),
                kept@.map_values(|c: Cursor| (c.room_id@, c.user_id@, c.ordinal))
                    == without_cursor(self.cursors_view().subrange(0, i as int), room_id@, user_id@),
            decreases self.cursors@.len() - i,
        {
            assert(self.cursors_view().subrange(0, i + 1).drop_last() =~= self.cursors_view().subrange(0, i as int));
            let c = &self.cursors[i];
            if !(c.room_id == *room_id && c.user_id == *user_id) {
                kept.push(Cursor { room_id: c.room_id.clone(), user_id: c.user_id.clone(), ordinal: c.ordinal });
            }
            i = i + 1;
            assert(kept@.map_values(|c: Cursor| (c.room_id@, c.user_id@, c.ordinal))
                =~= without_cursor(self.cursors_view().subrange(0, i as int), room_id@, user_id@));
        }
        assert(self.cursors_view().subrange(0, i as int) =~= self.cursors_view());
        kept.push(Cursor { room_id: room_id.clone(), user_id: user_id.clone(), ordinal });
        self.cursors = kept;
        assert(self.cursors_view() =~= without_cursor(old(self).cursors_view(), room_id@, user_id@).push(
            (room_id@, user_id@, ordinal),
        ));
    }

    /// Moves the read cursor of `user_id` in `room_id` to the event
    /// `event_id`. Nothing changes, and the result is `None`, when the event
    /// is unknown.
    pub fn room_read_set(&mut self, room_id: &String, user_id: &String, event_id: &String) -> (r: Option<()>)
        ensures
            match event_lookup(old(self).log(), event_id@) {
                Some(e) => r is Some && final(self).cursors_view() == without_cursor(
                    old(self).cursors_view(),
                    room_id@,
                    user_id@,
                ).push((room_id@, user_id@, e.0)),
                None => r is None && final(self).cursors_view() == old(self).cursors_view(),
            },
            final(self).log() == old(self).log(),
            final(self).last_ordinal() == old(self).last_ordinal(),
            final(self).leaves_view() == old(self).leaves_view(),
            final(self).beyond_events_eq(&*old(self)),
            final(self).wf() == old(self).wf(),
    {
        match self.pdu_get_count(event_id) {
            Some(ordinal) => {
                self.set_cursor(room_id, user_id, ordinal);
                Some(())
            },
            None => None,
        }
    }

    /// The read cursor of `user_id` in `room_id`.
    pub fn room_read_get(&self, room_id: &String, user_id: &String) -> (r: Option<u64>)
        ensures
            r == cursor_of(self.cursors_view(), room_id@, user_id@),
    {
        let mut i: usize = self.cursors.len();
        assert(self.cursors_view().subrange(0, i as int) =~= self.cursors_view());
        while i > 0
            invariant
                0 <= i <= self.cursors@.len(),
                self.cursors_view().len() == self.cursors@.len(),
                cursor_of(self.cursors_view().subrange(0, i as int), room_id@, user_id@)
                    == cursor_of(self.cursors_view(), room_id@, user_id@),
            decreases i,
        {
            assert(self.cursors_view().subrange(0, i as int).drop_last() =~= self.cursors_view().subrange(0, i - 1));
            let c = &self.cursors[i - 1];
            if c.room_id == *room_id && c.user_id == *user_id {
                return Some(c.ordinal);
            }
            i = i - 1;
        }
        None
    }

    /// Appends an event to `room_id` after checking it against the given power
    /// levels of the room.
    ///
    /// A state event that the levels do not admit gives `Ok(None)` and
    /// changes nothing. Otherwise the event takes the room's frontier as its
    /// predecessors and one more than their largest depth as its depth, gets
    /// its identity and signature, becomes the room's whole frontier, is
    /// stored under the next ordinal, and moves the sender's read cursor to
    /// it.
    pub fn pdu_append_with_levels(
        &mut self,
        levels: &Option<PowerLevels>,
        room_id: &String,
        sender: &String,
        kind: &String,
        content: &String,
        unsigned: Option<Vec<(String, String)>>,
        state_key: Option<String>,
        now: u64,
    ) -> (r: Result<Option<String>, StoreError>)
        requires
            old(self).wf(),
        ensures
            final(self).wf(),
            !authorized(state_key is Some, kind@, sender@, *levels) ==> r == Ok::<Option<String>, StoreError>(None)
                && *final(self) == *old(self),
            authorized(state_key is Some, kind@, sender@, *levels) && old(self).last_ordinal() == u64::MAX
                ==> r == Err::<Option<String>, StoreError>(StoreError::SequenceExhausted) && *final(self) == *old(self),
            authorized(state_key is Some, kind@, sender@, *levels) && old(self).last_ordinal() < u64::MAX
                ==> r matches Ok(Some(_)) || r == Err::<Option<String>, StoreError>(StoreError::Identity),
            authorized(state_key is Some, kind@, sender@, *levels) && old(self).last_ordinal() < u64::MAX ==> (r
                == Err::<Option<String>, StoreError>(StoreError::Identity) <==> !identity_ok(
                append_draft(*old(self), room_id@, sender@, kind@, content@, unsigned_view(unsigned), opt_str(state_key), now),
                old(self).host(),
            )),
            r == Err::<Option<String>, StoreError>(StoreError::Identity) ==> *final(self) == *old(self),
            r matches Ok(Some(id)) ==> appended(
                *old(self),
                *final(self),
                id@,
                room_id@,
                sender@,
                kind@,
                content@,
                unsigned_view(unsigned),
                opt_str(state_key),
                now,
            ),
            r matches Ok(Some(_)) ==> final(self).beyond_events_eq(&*old(self)),
    {
        let ghost state_key0 = state_key;
        let is_state = state_key.is_some();
        if !authorize(is_state, kind, sender, levels) {
            return Ok(None);
        }
        if self.counter == u64::MAX {
            return Err(StoreError::SequenceExhausted);
        }
        let ghost prevs = frontier_of(self.leaves_view(), room_id@);
        let prev_events = self.pdu_leaves_get(room_id);
        let depth_max = self.max_depth_of(&prev_events);
        let depth = depth_max + 1;
        let ghost u0 = unsigned_view(unsigned);
        let mut unsigned = match unsigned {
            Some(u) => u,
            None => Vec::new(),
        };
        assert(str_pairs(unsigned@) =~= u0);
        match &state_key {
            Some(k) => match self.room_state_get(room_id, kind, k) {
                Some(prev) => {
                    let key = String::from_str("prev_content");
                    unsigned = with_value(&unsigned, &key, &prev.content);
                },
                None => {},
            },
            None => {},
        }
        let pdu = Pdu {
            event_id: String::from_str(PLACEHOLDER_EVENT_ID),
            room_id: room_id.clone(),
            sender: sender.clone(),
            origin: self.hostname.clone(),
            origin_server_ts: now,
            kind: kind.clone(),
            content: content.clone(),
            state_key,
            prev_events,
            depth,
            redacts: None,
            unsigned,
            signed: String::new(),
        };
        let ghost draft = pdu@;
        let ghost prev_state = match opt_str(state_key0) {
            Some(k) => state_lookup(self.log(), room_id@, kind@, k),
            None => None,
        };
        assert(draft == draft_event(
            room_id@, sender@, self.host(), now, kind@, content@, opt_str(state_key0), prevs,
            (max_depth(self.log(), prevs) + 1) as u64, unsigned_after(u0, prev_state)));
        let pdu = match assign_identity(pdu, self.hostname.as_str(), &self.keypair) {
            Some(p) => p,
            None => return Err(StoreError::Identity),
        };
        let event_id = pdu.event_id.clone();
        let ghost old_log = self.log();
        self.pdu_leaves_replace(room_id, &event_id);
        let ordinal = self.counter + 1;
        self.counter = ordinal;
        self.pdus.push(StoredPdu { ordinal, pdu });
        assert(self.log() =~= old_log.push((ordinal, self.pdus@.last().pdu@)));
        proof {
            crate::log::lemma_lookup_push(old_log, (ordinal, self.pdus@.last().pdu@));
            lemma_bounds_grow(self.receipts_view(), self.user_data_view(), self.actives_view(), old(self).counter, ordinal);
        }
        self.set_cursor(room_id, sender, ordinal);
        assert(self.log().last().1 == PduView { event_id: event_id@, signed: self.log().last().1.signed, ..draft });
        assert(self.log().drop_last() =~= old(self).log());
        Ok(Some(event_id))
    }

    /// Appends an event to `room_id`, checked against the room's current
    /// power levels (see [`Data::pdu_append_with_levels`]).
    pub fn pdu_append(
        &mut self,
        room_id: &String,
        sender: &String,
        kind: &String,
        content: &String,
        unsigned: Option<Vec<(String, String)>>,
        state_key: Option<String>,
        now: u64,
    ) -> (r: Result<Option<String>, StoreError>)
        requires
            old(self).wf(),
        ensures
            final(self).wf(),
            r == Ok::<Option<String>, StoreError>(None) <==> !authorized_view(
                state_key is Some,
                kind@,
                sender@,
                room_power_levels(old(self).log(), room_id@),
            ),
            r == Ok::<Option<String>, StoreError>(None) ==> *final(self) == *old(self),
            r == Err::<Option<String>, StoreError>(StoreError::SequenceExhausted) ==> old(self).last_ordinal() == u64::MAX
                && *final(self) == *old(self),
            r == Err::<Option<String>, StoreError>(StoreError::Identity) ==> *final(self) == *old(self) && !identity_ok(
                append_draft(*old(self), room_id@, sender@, kind@, content@, unsigned_view(unsigned), opt_str(state_key), now),
                old(self).host(),
            ),
            old(self).last_ordinal() < u64::MAX && (state_key is None || kind@ == MEMBER_KIND@
                || state_lookup(old(self).log(), room_id@, POWER_LEVELS_KIND@, Seq::empty()) is None)
                ==> (r matches Ok(Some(_)) <==> identity_ok(
                append_draft(*old(self), room_id@, sender@, kind@, content@, unsigned_view(unsigned), opt_str(state_key), now),
                old(self).host(),
            )),
            r matches Ok(Some(id)) ==> appended(
                *old(self),
                *final(self),
                id@,
                room_id@,
                sender@,
                kind@,
                content@,
                unsigned_view(unsigned),
                opt_str(state_key),
                now,
            ),
            r matches Ok(Some(_)) ==> final(self).beyond_events_eq(&*old(self)),
    {
        let levels = self.power_levels(room_id);
        proof {
            if levels is Some {
                lemma_level_view(levels->0.users@, levels->0.users_default, sender@);
            }
        }
        self.pdu_append_with_levels(&levels, room_id, sender, kind, content, unsigned, state_key, now)
    }

    /// Replaces the read receipt of `user_id` in `room_id` with `event`, under
    /// a fresh ordinal. Afterwards the pair has exactly one receipt, this one.
    pub fn roomlatest_update(&mut self, user_id: &String, room_id: &String, event: String) -> (r: Result<(), StoreError>)
        ensures
            old(self).last_ordinal() == u64::MAX ==> r == Err::<(), StoreError>(StoreError::SequenceExhausted)
                && *final(self) == *old(self),
            old(self).last_ordinal() < u64::MAX ==> {
                let e = ((old(self).last_ordinal() + 1) as u64, room_id@, user_id@, event@);
                &&& r is Ok
                &&& final(self).last_ordinal() == old(self).last_ordinal() + 1
                &&& final(self).receipts_view() == without_receipt(old(self).receipts_view(), room_id@, user_id@).push(e)
                &&& receipts_of(final(self).receipts_view(), room_id@, user_id@) == seq![e]
                &&& final(self).actives_view() == old(self).actives_view()
                &&& final(self).user_data_view() == old(self).user_data_view()
            },
            old(self).wf() ==> final(self).wf(),
            final(self).log() == old(self).log(),
            final(self).leaves_view() == old(self).leaves_view(),
            final(self).cursors_view() == old(self).cursors_view(),
            final(self).profile_eq(&*old(self)),
    {
        let ghost before = self.receipts_view();
        let mut kept: Vec<Receipt> = Vec::new();
        let mut i: usize = 0;
        while i < self.receipts.len()
            invariant
                0 <= i <= self.receipts@.len(),
                self.receipts_view() == before,
                before.len() == self.receipts@.len(),
                kept@.map_values(|x: Receipt| (x.ordinal, x.room_id@, x.user_id@, x.event@))
                    == without_receipt(before.subrange(0, i as int), room_id@, user_id@),
            decreases self.receipts@.len() - i,
        {
            assert(before.subrange(0, i + 1).drop_last() =~= before.subrange(0, i as int));
            let x = &self.receipts[i];
            if !(x.room_id == *room_id && x.user_id == *user_id) {
                kept.push(Receipt {
                    ordinal: x.ordinal,
                    room_id: x.room_id.clone(),
                    user_id: x.user_id.clone(),
                    event: x.event.clone(),
                });
            }
            i = i + 1;
            assert(kept@.map_values(|x: Receipt| (x.ordinal, x.room_id@, x.user_id@, x.event@))
                =~= without_receipt(before.subrange(0, i as int), room_id@, user_id@));
        }
        assert(before.subrange(0, i as int) =~= before);
        proof {
            if old(self).wf() {
                lemma_without_receipt_ok(before, room_id@, user_id@, self.counter);
            }
        }
        let ordinal = match self.next_ordinal() {
            Ok(o) => o,
            Err(e) => return Err(e),
        };
        kept.push(Receipt { ordinal, room_id: room_id.clone(), user_id: user_id.clone(), event });
        self.receipts = kept;
        proof {
            let e = (ordinal, room_id@, user_id@, event@);
            assert(self.receipts_view() =~= without_receipt(before, room_id@, user_id@).push(e));
            lemma_receipt_single(before, e);
            if old(self).wf() {
                lemma_receipt_push(without_receipt(before, room_id@, user_id@), e, old(self).counter);
                lemma_bounds_grow(old(self).receipts_view(), self.user_data_view(), self.actives_view(), old(self).counter, ordinal);
            }
        }
        Ok(())
    }

    /// The events of the receipts in `room_id` stored after ordinal `since`,
    /// in order of storage.
    pub fn roomlatests_since(&self, room_id: &String, since: u64) -> (r: Vec<String>)
        ensures
            strs(r@) == receipts_after(self.receipts_view(), room_id@, since),
    {
        let mut r: Vec<String> = Vec::new();
        let mut i: usize = 0;
        while i < self.receipts.len()
            invariant
                0 <= i <= self.receipts@.len(),
                self.receipts_view().len() == self.receipts@.len(),
                strs(r@) == receipts_after(self.receipts_view().subrange(0, i as int), room_id@, since),
            decreases self.receipts@.len() - i,
        {
            assert(self.receipts_view().subrange(0, i + 1).drop_last() =~= self.receipts_view().subrange(0, i as int));
            if self.receipts[i].room_id == *room_id && self.receipts[i].ordinal > since {
                r.push(self.receipts[i].event.clone());
            }
            i = i + 1;
            assert(strs(r@) =~= receipts_after(self.receipts_view().subrange(0, i as int), room_id@, since));
        }
        assert(self.receipts_view().subrange(0, i as int) =~= self.receipts_view());
        r
    }

    /// The events of all receipts in `room_id`.
    pub fn roomlatests_all(&self, room_id: &String) -> (r: Vec<String>)
        ensures
            strs(r@) == receipts_after(self.receipts_view(), room_id@, 0),
    {
        self.roomlatests_since(room_id, 0)
    }

    /// Adds a typing or presence marker to `room_id` that lapses at
    /// `timeout`. Markers are kept in order of timeout, then of ordinal.
    pub fn roomactive_add(&mut self, event: String, room_id: &String, timeout: u64) -> (r: Result<(), StoreError>)
        ensures
            old(self).last_ordinal() == u64::MAX ==> r == Err::<(), StoreError>(StoreError::SequenceExhausted)
                && *final(self) == *old(self),
            old(self).last_ordinal() < u64::MAX ==> {
                &&& r is Ok
                &&& final(self).last_ordinal() == old(self).last_ordinal() + 1
                &&& exists|p: int| {
                    &&& 0 <= p <= old(self).actives_view().len()
                    &&& final(self).actives_view() == old(self).actives_view().insert(
                        p,
                        (timeout, (old(self).last_ordinal() + 1) as u64, room_id@, event@),
                    )
                    &&& forall|i: int| 0 <= i < p ==> old(self).actives_view()[i].0 <= timeout
                    &&& p < old(self).actives_view().len() ==> old(self).actives_view()[p].0 > timeout
                }
                &&& final(self).receipts_view() == old(self).receipts_view()
                &&& final(self).user_data_view() == old(self).user_data_view()
            },
            old(self).wf() ==> final(self).wf(),
            final(self).log() == old(self).log(),
            final(self).leaves_view() == old(self).leaves_view(),
            final(self).cursors_view() == old(self).cursors_view(),
            final(self).profile_eq(&*old(self)),
    {
        let mut p: usize = 0;
        while p < self.actives.len() && self.actives[p].timeout <= timeout
            invariant
                0 <= p <= self.actives@.len(),
                self.actives_view().len() == self.actives@.len(),
                forall|i: int| 0 <= i < p ==> self.actives_view()[i].0 <= timeout,
            decreases self.actives@.len() - p,
        {
            p = p + 1;
        }
        let ordinal = match self.next_ordinal() {
            Ok(o) => o,
            Err(e) => return Err(e),
        };
        let ghost before = self.actives_view();
        self.actives.insert(p, ActiveMarker { timeout, ordinal, room_id: room_id.clone(), event });
        assert(self.actives_view() =~= before.insert(p as int, (timeout, ordinal, room_id@, event@)));
        assert(before == old(self).actives_view());
        assert(p < before.len() ==> before[p as int].0 > timeout);
        proof {
            if old(self).wf() {
                lemma_active_insert(before, p as int, (timeout, ordinal, room_id@, event@), old(self).counter);
                lemma_bounds_grow(self.receipts_view(), self.user_data_view(), old(self).actives_view(), old(self).counter, ordinal);
            }
        }
        Ok(())
    }

    /// Removes the first marker of `room_id`, in scan order, whose event is
    /// `event`. Nothing changes when there is none.
    pub fn roomactive_remove(&mut self, event: &String, room_id: &String)
        ensures
            (forall|i: int| 0 <= i < old(self).actives_view().len() ==> !(old(self).actives_view()[i].2 == room_id@
                && old(self).actives_view()[i].3 == event@)) ==> final(self).actives_view() == old(self).actives_view(),
            (exists|i: int| 0 <= i < old(self).actives_view().len() && old(self).actives_view()[i].2 == room_id@
                && old(self).actives_view()[i].3 == event@) ==> exists|i: int| {
                &&& 0 <= i < old(self).actives_view().len()
                &&& old(self).actives_view()[i].2 == room_id@
                &&& old(self).actives_view()[i].3 == event@
                &&& forall|j: int| 0 <= j < i ==> !(old(self).actives_view()[j].2 == room_id@
                    && old(self).actives_view()[j].3 == event@)
                &&& final(self).actives_view() == old(self).actives_view().remove(i)
            },
            final(self).receipts_view() == old(self).receipts_view(),
            final(self).user_data_view() == old(self).user_data_view(),
            final(self).last_ordinal() == old(self).last_ordinal(),
            old(self).wf() ==> final(self).wf(),
            final(self).log() == old(self).log(),
            final(self).leaves_view() == old(self).leaves_view(),
            final(self).cursors_view() == old(self).cursors_view(),
            final(self).profile_eq(&*old(self)),
    {
        let mut i: usize = 0;
        while i < self.actives.len()
            invariant
                0 <= i <= self.actives@.len(),
                self.actives_view().len() == self.actives@.len(),
                *self == *old(self),
                forall|j: int| 0 <= j < i ==> !(self.actives_view()[j].2 == room_id@ && self.actives_view()[j].3 == event@),
            decreases self.actives@.len() - i,
        {
            if self.actives[i].room_id == *room_id && self.actives[i].event == *event {
                let ghost before = self.actives_view();
                self.actives.remove(i);
                assert(self.actives_view() =~= before.remove(i as int));
                proof {
                    if old(self).wf() {
                        lemma_active_remove(before, i as int, self.counter);
                    }
                }
                assert(before[i as int].2 == room_id@ && before[i as int].3 == event@);
                return;
            }
            i = i + 1;
        }
    }

    /// Drops the markers of `room_id` that lapsed before `now` and returns
    /// the events of the others, in scan order; when none is left, the one
    /// event that says that nobody is typing.
    pub fn roomactives_in(&mut self, room_id: &String, now: u64) -> (r: Vec<String>)
        ensures
            final(self).actives_view() == without_expired(old(self).actives_view(), room_id@, now),
            active_events(final(self).actives_view(), room_id@).len() == 0 ==> strs(r@) == seq![EMPTY_TYPING@],
            active_events(final(self).actives_view(), room_id@).len() > 0 ==> strs(r@) == active_events(
                final(self).actives_view(),
                room_id@,
            ),
            final(self).receipts_view() == old(self).receipts_view(),
            final(self).user_data_view() == old(self).user_data_view(),
            final(self).last_ordinal() == old(self).last_ordinal(),
            old(self).wf() ==> final(self).wf(),
            final(self).log() == old(self).log(),
            final(self).leaves_view() == old(self).leaves_view(),
            final(self).cursors_view() == old(self).cursors_view(),
            final(self).profile_eq(&*old(self)),
    {
        let ghost before = self.actives_view();
        let mut kept: Vec<ActiveMarker> = Vec::new();
        let mut events: Vec<String> = Vec::new();
        let mut i: usize = 0;
        while i < self.actives.len()
            invariant
                0 <= i <= self.actives@.len(),
                self.actives_view() == before,
                before.len() == self.actives@.len(),
                kept@.map_values(|x: ActiveMarker| (x.timeout, x.ordinal, x.room_id@, x.event@))
                    == without_expired(before.subrange(0, i as int), room_id@, now),
                strs(events@) == active_events(without_expired(before.subrange(0, i as int), room_id@, now), room_id@),
            decreases self.actives@.len() - i,
        {
            assert(before.subrange(0, i + 1).drop_last() =~= before.subrange(0, i as int));
            let x = &self.actives[i];
            let ghost k0 = without_expired(before.subrange(0, i as int), room_id@, now);
            if !(x.room_id == *room_id && x.timeout < now) {
                kept.push(ActiveMarker { timeout: x.timeout, ordinal: x.ordinal, room_id: x.room_id.clone(), event: x.event.clone() });
                assert(k0.push(before[i as int]).drop_last() =~= k0);
                if x.room_id == *room_id {
                    events.push(x.event.clone());
                }
            }
            i = i + 1;
            assert(kept@.map_values(|x: ActiveMarker| (x.timeout, x.ordinal, x.room_id@, x.event@))
                =~= without_expired(before.subrange(0, i as int), room_id@, now));
            assert(strs(events@) =~= active_events(without_expired(before.subrange(0, i as int), room_id@, now), room_id@));
        }
        assert(before.subrange(0, i as int) =~= before);
        proof {
            if old(self).wf() {
                lemma_without_expired_bound(before, room_id@, now, self.counter);
            }
        }
        self.actives = kept;
        if events.len() == 0 {
            let mut r: Vec<String> = Vec::new();
            r.push(String::from_str(EMPTY_TYPING));
            assert(strs(r@) =~= seq![EMPTY_TYPING@]);
            r
        } else {
            events
        }
    }

    /// Replaces the account-data item of type `kind` in the scope
    /// (`room_id`, `user_id`) with `event`, under a fresh ordinal. Afterwards
    /// the scope has exactly one item of that type, this one.
    pub fn room_userdata_update(
        &mut self,
        room_id: Option<String>,
        user_id: &String,
        kind: &String,
        event: String,
    ) -> (r: Result<(), StoreError>)
        ensures
            old(self).last_ordinal() == u64::MAX ==> r == Err::<(), StoreError>(StoreError::SequenceExhausted)
                && *final(self) == *old(self),
            old(self).last_ordinal() < u64::MAX ==> {
                let e = ((old(self).last_ordinal() + 1) as u64, opt_str(room_id), user_id@, kind@, event@);
                &&& r is Ok
                &&& final(self).last_ordinal() == old(self).last_ordinal() + 1
                &&& final(self).user_data_view() == without_user_data(
                    old(self).user_data_view(),
                    opt_str(room_id),
                    user_id@,
                    kind@,
                ).push(e)
                &&& user_data_of(final(self).user_data_view(), opt_str(room_id), user_id@, kind@) == seq![e]
                &&& final(self).receipts_view() == old(self).receipts_view()
                &&& final(self).actives_view() == old(self).actives_view()
            },
            old(self).wf() ==> final(self).wf(),
            final(self).log() == old(self).log(),
            final(self).leaves_view() == old(self).leaves_view(),
            final(self).cursors_view() == old(self).cursors_view(),
            final(self).profile_eq(&*old(self)),
    {
        let ghost before = self.user_data_view();
        let ghost room = opt_str(room_id);
        let mut kept: Vec<UserDataSlot> = Vec::new();
        let mut i: usize = 0;
        while i < self.user_data.len()
            invariant
                0 <= i <= self.user_data@.len(),
                self.user_data_view() == before,
                before.len() == self.user_data@.len(),
                room == opt_str(room_id),
                kept@.map_values(|x: UserDataSlot| (x.ordinal, opt_str(x.room_id), x.user_id@, x.kind@, x.event@))
                    == without_user_data(before.subrange(0, i as int), room, user_id@, kind@),
            decreases self.user_data@.len() - i,
        {
            assert(before.subrange(0, i + 1).drop_last() =~= before.subrange(0, i as int));
            let x = &self.user_data[i];
            if !(opt_eq(&x.room_id, &room_id) && x.user_id == *user_id && x.kind == *kind) {
                kept.push(UserDataSlot {
                    ordinal: x.ordinal,
                    room_id: clone_opt(&x.room_id),
                    user_id: x.user_id.clone(),
                    kind: x.kind.clone(),
                    event: x.event.clone(),
                });
            }
            i = i + 1;
            assert(kept@.map_values(|x: UserDataSlot| (x.ordinal, opt_str(x.room_id), x.user_id@, x.kind@, x.event@))
                =~= without_user_data(before.subrange(0, i as int), room, user_id@, kind@));
        }
        assert(before.subrange(0, i as int) =~= before);
        proof {
            if old(self).wf() {
                lemma_without_user_data_ok(before, room, user_id@, kind@, self.counter);
            }
        }
        let ordinal = match self.next_ordinal() {
            Ok(o) => o,
            Err(e) => return Err(e),
        };
        kept.push(UserDataSlot { ordinal, room_id, user_id: user_id.clone(), kind: kind.clone(), event });
        self.user_data = kept;
        proof {
            let e = (ordinal, room, user_id@, kind@, event@);
            assert(self.user_data_view() =~= without_user_data(before, room, user_id@, kind@).push(e));
            lemma_user_data_single(before, e);
            if old(self).wf() {
                lemma_user_data_push(without_user_data(before, room, user_id@, kind@), e, old(self).counter);
                lemma_bounds_grow(self.receipts_view(), old(self).user_data_view(), self.actives_view(), old(self).counter, ordinal);
            }
        }
        Ok(())
    }

    /// The (type, event) pairs of the scope (`room_id`, `user_id`) stored
    /// after ordinal `since`, in order of storage.
    pub fn room_userdata_since(&self, room_id: &Option<String>, user_id: &String, since: u64) -> (r: Vec<(String, String)>)
        ensures
            str_pairs(r@) == user_data_after(self.user_data_view(), opt_str(*room_id), user_id@, since),
    {
        let mut r: Vec<(String, String)> = Vec::new();
        let mut i: usize = 0;
        while i < self.user_data.len()
            invariant
                0 <= i <= self.user_data@.len(),
                self.user_data_view().len() == self.user_data@.len(),
                str_pairs(r@) == user_data_after(self.user_data_view().subrange(0, i as int), opt_str(*room_id), user_id@, since),
            decreases self.user_data@.len() - i,
        {
            assert(self.user_data_view().subrange(0, i + 1).drop_last() =~= self.user_data_view().subrange(0, i as int));
            let x = &self.user_data[i];
            if opt_eq(&x.room_id, room_id) && x.user_id == *user_id && x.ordinal > since {
                r.push((x.kind.clone(), x.event.clone()));
            }
            i = i + 1;
            assert(str_pairs(r@) =~= user_data_after(self.user_data_view().subrange(0, i as int), opt_str(*room_id), user_id@, since));
        }
        assert(self.user_data_view().subrange(0, i as int) =~= self.user_data_view());
        r
    }

    /// All (type, event) pairs of the scope (`room_id`, `user_id`).
    pub fn room_userdata_all(&self, room_id: &Option<String>, user_id: &String) -> (r: Vec<(String, String)>)
        ensures
            str_pairs(r@) == user_data_after(self.user_data_view(), opt_str(*room_id), user_id@, 0),
    {
        self.room_userdata_since(room_id, user_id, 0)
    }

    /// The event of the account-data item of type `kind` in the scope
    /// (`room_id`, `user_id`).
    pub fn room_userdata_get(&self, room_id: &Option<String>, user_id: &String, kind: &String) -> (r: Option<String>)
        ensures
            opt_str(r) == user_data_lookup(self.user_data_view(), opt_str(*room_id), user_id@, kind@),
    {
        let mut i: usize = self.user_data.len();
        assert(self.user_data_view().subrange(0, i as int) =~= self.user_data_view());
        while i > 0
            invariant
                0 <= i <= self.user_data@.len(),
                self.user_data_view().len() == self.user_data@.len(),
                user_data_lookup(self.user_data_view().subrange(0, i as int), opt_str(*room_id), user_id@, kind@)
                    == user_data_lookup(self.user_data_view(), opt_str(*room_id), user_id@, kind@),
            decreases i,
        {
            assert(self.user_data_view().subrange(0, i as int).drop_last() =~= self.user_data_view().subrange(0, i - 1));
            let x = &self.user_data[i - 1];
            if opt_eq(&x.room_id, room_id) && x.user_id == *user_id && x.kind == *kind {
                return Some(x.event.clone());
            }
            i = i - 1;
        }
        None
    }

    /// Whether `user_id` has an account, that is, a password hash.
    pub fn user_exists(&self, user_id: &String) -> (r: bool)
        ensures
            r == lookup_key(self.passwords_view(), user_id@) is Some,
    {
        get_value(&self.passwords, user_id).is_some()
    }

    /// Creates the account of `user_id` with the password hash `hash`.
    pub fn user_add(&mut self, user_id: &String, hash: &String)
        ensures
            final(self).passwords_view() == without_key(old(self).passwords_view(), user_id@).push((user_id@, hash@)),
            lookup_key(final(self).passwords_view(), user_id@) == Some(hash@),
            final(self).tokens_view() == old(self).tokens_view(),
            final(self).members_eq(&*old(self)),
            same_events(*old(self), *final(self)),
            final(self).wf() == old(self).wf(),
            final(self).ephemeral_eq(&*old(self)),
            final(self).identity_eq(&*old(self)),
    {
        self.passwords = with_value(&self.passwords, user_id, hash);
    }

    /// The user that the access token `token` belongs to.
    pub fn user_from_token(&self, token: &String) -> (r: Option<String>)
        ensures
            opt_str(r) == lookup_key(self.tokens_view(), token@),
    {
        get_value(&self.tokens, token)
    }

    /// The users that have an account, each once.
    pub fn users_all(&self) -> (r: Vec<String>)
        ensures
            strs(r@) == distinct_firsts(self.passwords_view()),
    {
        firsts(&self.passwords)
    }

    /// The password hash of `user_id`.
    pub fn password_hash_get(&self, user_id: &String) -> (r: Option<String>)
        ensures
            opt_str(r) == lookup_key(self.passwords_view(), user_id@),
    {
        get_value(&self.passwords, user_id)
    }

    /// Removes the display name of `user_id`.
    pub fn displayname_remove(&mut self, user_id: &String)
        ensures
            final(self).displaynames_view() == without_key(old(self).displaynames_view(), user_id@),
            final(self).passwords_view() == old(self).passwords_view(),
            final(self).members_eq(&*old(self)),
            same_events(*old(self), *final(self)),
            final(self).wf() == old(self).wf(),
            final(self).ephemeral_eq(&*old(self)),
            final(self).identity_eq(&*old(self)),
    {
        self.displaynames = without_key_vec(&self.displaynames, user_id);
    }

    /// The display name of `user_id`.
    pub fn displayname_get(&self, user_id: &String) -> (r: Option<String>)
        ensures
            opt_str(r) == lookup_key(self.displaynames_view(), user_id@),
    {
        get_value(&self.displaynames, user_id)
    }

    /// Removes the avatar URL of `user_id`.
    pub fn avatar_url_remove(&mut self, user_id: &String)
        ensures
            final(self).avatar_urls_view() == without_key(old(self).avatar_urls_view(), user_id@),
            final(self).displaynames_view() == old(self).displaynames_view(),
            final(self).members_eq(&*old(self)),
            same_events(*old(self), *final(self)),
            final(self).wf() == old(self).wf(),
            final(self).ephemeral_eq(&*old(self)),
            final(self).identity_eq(&*old(self)),
    {
        self.avatar_urls = without_key_vec(&self.avatar_urls, user_id);
    }

    /// Sets the avatar URL of `user_id`.
    pub fn avatar_url_set(&mut self, user_id: &String, avatar_url: &String)
        ensures
            final(self).avatar_urls_view() == without_key(old(self).avatar_urls_view(), user_id@).push(
                (user_id@, avatar_url@),
            ),
            lookup_key(final(self).avatar_urls_view(), user_id@) == Some(avatar_url@),
            final(self).displaynames_view() == old(self).displaynames_view(),
            final(self).members_eq(&*old(self)),
            same_events(*old(self), *final(self)),
            final(self).wf() == old(self).wf(),
            final(self).ephemeral_eq(&*old(self)),
            final(self).identity_eq(&*old(self)),
    {
        self.avatar_urls = with_value(&self.avatar_urls, user_id, avatar_url);
    }

    /// The avatar URL of `user_id`.
    pub fn avatar_url_get(&self, user_id: &String) -> (r: Option<String>)
        ensures
            opt_str(r) == lookup_key(self.avatar_urls_view(), user_id@),
    {
        get_value(&self.avatar_urls, user_id)
    }

    /// Records `device_id` as a device of `user_id`, unless it is one already.
    pub fn device_add(&mut self, user_id: &String, device_id: &String)
        ensures
            has_pair(old(self).devices_view(), user_id@, device_id@) ==> final(self).devices_view()
                == old(self).devices_view(),
            !has_pair(old(self).devices_view(), user_id@, device_id@) ==> final(self).devices_view()
                == old(self).devices_view().push((user_id@, device_id@)),
            has_pair(final(self).devices_view(), user_id@, device_id@),
            final(self).tokens_view() == old(self).tokens_view(),
            final(self).members_eq(&*old(self)),
            same_events(*old(self), *final(self)),
            final(self).wf() == old(self).wf(),
            final(self).ephemeral_eq(&*old(self)),
            final(self).identity_eq(&*old(self)),
    {
        add_pair(&mut self.devices, user_id, device_id);
        assert(has_pair(self.devices_view(), user_id@, device_id@)) by {
            if !has_pair(old(self).devices_view(), user_id@, device_id@) {
                assert(self.devices_view()[self.devices_view().len() - 1] == (user_id@, device_id@));
            }
        }
    }

    fn device_key_text(user_id: &String, device_id: &String) -> (r: String)
        ensures
            r@ == device_key(user_id@, device_id@),
    {
        let mut key = user_id.clone();
        key.append("\u{0}");
        key.append(device_id.as_str());
        proof {
            reveal_strlit("\u{0}");
        }
        assert(key@ =~= device_key(user_id@, device_id@));
        key
    }

    /// Gives `device_id` of `user_id` the access token `token`. The device's
    /// previous token no longer names the user.
    pub fn token_replace(&mut self, user_id: &String, device_id: &String, token: String)
        ensures
            final(self).device_tokens_view() == without_key(
                old(self).device_tokens_view(),
                device_key(user_id@, device_id@),
            ).push((device_key(user_id@, device_id@), token@)),
            final(self).tokens_view() == without_key(
                match lookup_key(old(self).device_tokens_view(), device_key(user_id@, device_id@)) {
                    Some(t) => without_key(old(self).tokens_view(), t),
                    None => old(self).tokens_view(),
                },
                token@,
            ).push((token@, user_id@)),
            lookup_key(final(self).tokens_view(), token@) == Some(user_id@),
            final(self).passwords_view() == old(self).passwords_view(),
            final(self).members_eq(&*old(self)),
            same_events(*old(self), *final(self)),
            final(self).wf() == old(self).wf(),
            final(self).ephemeral_eq(&*old(self)),
            final(self).identity_eq(&*old(self)),
    {
        let key = Self::device_key_text(user_id, device_id);
        match get_value(&self.device_tokens, &key) {
            Some(old_token) => {
                self.tokens = without_key_vec(&self.tokens, &old_token);
            },
            None => {},
        }
        self.device_tokens = with_value(&self.device_tokens, &key, &token);
        self.tokens = with_value(&self.tokens, &token, user_id);
    }

    /// The rooms that `user_id` has joined.
    pub fn rooms_joined(&self, user_id: &String) -> (r: Vec<String>)
        ensures
            strs(r@) == seconds_of(self.joined_view(), user_id@),
    {
        seconds(&self.joined, user_id)
    }

    /// The rooms that `user_id` is invited to.
    pub fn rooms_invited(&self, user_id: &String) -> (r: Vec<String>)
        ensures
            strs(r@) == seconds_of(self.invited_view(), user_id@),
    {
        seconds(&self.invited, user_id)
    }

    /// The rooms that `user_id` has left and not forgotten.
    pub fn rooms_left(&self, user_id: &String) -> (r: Vec<String>)
        ensures
            strs(r@) == seconds_of(self.left_view(), user_id@),
    {
        seconds(&self.left, user_id)
    }

    /// The number of joined members of `room_id`.
    pub fn room_users_joined(&self, room_id: &String) -> (r: u32)
        ensures
            r == count_second(self.joined_view(), room_id@) as u32,
    {
        count_seconds(&self.joined, room_id)
    }

    /// The number of users invited to `room_id`.
    pub fn room_users_invited(&self, room_id: &String) -> (r: u32)
        ensures
            r == count_second(self.invited_view(), room_id@) as u32,
    {
        count_seconds(&self.invited, room_id)
    }

    /// The rooms that have a frontier, each once.
    pub fn rooms_all(&self) -> (r: Vec<String>)
        ensures
            strs(r@) == distinct_firsts(self.leaves_view()),
    {
        firsts(&self.leaves)
    }

    /// Forgets that `user_id` left `room_id`.
    pub fn room_forget(&mut self, room_id: &String, user_id: &String)
        ensures
            final(self).left_view() == without_pair(old(self).left_view(), user_id@, room_id@),
            final(self).joined_view() == old(self).joined_view(),
            final(self).invited_view() == old(self).invited_view(),
            final(self).accounts_eq(&*old(self)),
            same_events(*old(self), *final(self)),
            final(self).wf() == old(self).wf(),
            final(self).ephemeral_eq(&*old(self)),
            final(self).identity_eq(&*old(self)),
    {
        self.left = remove_pair(&self.left, user_id, room_id);
    }

    /// Appends the membership event `content` about `user_id` to `room_id`.
    /// On failure nothing changes.
    fn append_member(&mut self, room_id: &String, sender: &String, user_id: &String, content: &String, now: u64) -> (r: Result<(), StoreError>)
        requires
            old(self).wf(),
        ensures
            final(self).wf(),
            r is Ok <==> member_append_ok(*old(self), room_id@, sender@, user_id@, content@, now),
            r is Ok ==> member_appended(*old(self), *final(self), room_id@, sender@, user_id@, content@, now)
                && final(self).beyond_events_eq(&*old(self)),
            r is Err ==> *final(self) == *old(self),
    {
        let kind = String::from_str(MEMBER_KIND);
        let ghost u0 = unsigned_view(None);
        assert(u0 =~= Seq::<(Seq<char>, Seq<char>)>::empty());
        let r = self.pdu_append(room_id, sender, &kind, content, None, Some(user_id.clone()), now);
        match r {
            Ok(Some(id)) => {
                assert(appended(*old(self), *self, id@, room_id@, sender@, MEMBER_KIND@, content@, Seq::empty(), Some(user_id@), now));
                Ok(())
            },
            Ok(None) => {
                assert(false);
                Ok(())
            },
            Err(e) => Err(e),
        }
    }

    /// Announces the display name `displayname` of `user_id` with a
    /// membership event in every room that the user has joined, then records
    /// it. The first append that fails ends the call with its error, and the
    /// name is not recorded; events appended before it stay.
    pub fn displayname_set(&mut self, user_id: &String, displayname: String, now: u64) -> (r: Result<(), StoreError>)
        requires
            old(self).wf(),
        ensures
            final(self).wf(),
            r is Ok ==> final(self).displaynames_view() == without_key(old(self).displaynames_view(), user_id@).push(
                (user_id@, displayname@),
            ) && lookup_key(final(self).displaynames_view(), user_id@) == Some(displayname@),
            r is Err ==> final(self).displaynames_view() == old(self).displaynames_view(),
            seconds_of(old(self).joined_view(), user_id@).len() == 0 ==> r is Ok && same_events(*old(self), *final(self)),
            old(self).log().len() <= final(self).log().len(),
            final(self).log().subrange(0, old(self).log().len() as int) == old(self).log(),
            final(self).passwords_view() == old(self).passwords_view(),
            final(self).members_eq(&*old(self)),
            final(self).ephemeral_eq(&*old(self)),
            final(self).identity_eq(&*old(self)),
    {
        let rooms = self.rooms_joined(user_id);
        let some_name = Some(displayname);
        let content = member_content_text("join", &some_name);
        let mut i: usize = 0;
        assert(self.log().subrange(0, old(self).log().len() as int) =~= old(self).log());
        while i < rooms.len()
            invariant
                self.wf(),
                0 <= i <= rooms@.len(),
                strs(rooms@) == seconds_of(old(self).joined_view(), user_id@),
                self.beyond_events_eq(&*old(self)),
                old(self).log().len() <= self.log().len(),
                self.log().subrange(0, old(self).log().len() as int) == old(self).log(),
                i == 0 ==> same_events(*old(self), *self),
            decreases rooms@.len() - i,
        {
            let ghost prev = *self;
            match self.append_member(&rooms[i], user_id, user_id, &content, now) {
                Ok(()) => {},
                Err(e) => return Err(e),
            }
            proof {
                let id = choose|id: Seq<char>| appended(
                    prev, *self, id, rooms@[i as int]@, user_id@, MEMBER_KIND@, content@,
                    Seq::empty(), Some(user_id@), now);
                assert(self.log().drop_last() == prev.log());
                assert(self.log().subrange(0, old(self).log().len() as int)
                    =~= prev.log().subrange(0, old(self).log().len() as int));
            }
            i = i + 1;
        }
        let name = match some_name {
            Some(n) => n,
            None => String::new(),
        };
        self.displaynames = with_value(&self.displaynames, user_id, &name);
        Ok(())
    }

    /// Joins `user_id` to `room_id` by appending the membership event, which
    /// carries the user's display name when there is one, and then recording
    /// the membership. A room with no events that the user has not joined
    /// cannot be joined: the result is then `Ok(false)` and nothing changes.
    /// When the append fails its error is returned and nothing changes.
    pub fn room_join(&mut self, room_id: &String, user_id: &String, now: u64) -> (r: Result<bool, StoreError>)
        requires
            old(self).wf(),
        ensures
            final(self).wf(),
            ({
                let can = room_events(old(self).log(), room_id@).len() > 0 || has_pair(old(self).joined_view(), user_id@, room_id@);
                let content = member_content("join"@, lookup_key(old(self).displaynames_view(), user_id@));
                &&& !can ==> r == Ok::<bool, StoreError>(false)
                &&& can ==> (r == Ok::<bool, StoreError>(true) <==> member_append_ok(*old(self), room_id@, user_id@, user_id@, content, now))
                &&& r == Ok::<bool, StoreError>(true) ==> {
                    &&& has_pair(old(self).joined_view(), user_id@, room_id@) ==> final(self).joined_view() == old(self).joined_view()
                    &&& !has_pair(old(self).joined_view(), user_id@, room_id@) ==> final(self).joined_view()
                        == old(self).joined_view().push((user_id@, room_id@))
                    &&& final(self).invited_view() == without_pair(old(self).invited_view(), user_id@, room_id@)
                    &&& final(self).left_view() == without_pair(old(self).left_view(), user_id@, room_id@)
                    &&& member_appended(*old(self), *final(self), room_id@, user_id@, user_id@, content, now)
                    &&& final(self).accounts_eq(&*old(self))
                    &&& final(self).ephemeral_eq(&*old(self))
                    &&& final(self).identity_eq(&*old(self))
                }
            }),
            r != Ok::<bool, StoreError>(true) ==> *final(self) == *old(self),
    {
        if !self.room_exists(room_id) && !contains_pair(&self.joined, user_id, room_id) {
            return Ok(false);
        }
        let displayname = self.displayname_get(user_id);
        let content = member_content_text("join", &displayname);
        match self.append_member(room_id, user_id, user_id, &content, now) {
            Ok(()) => {},
            Err(e) => return Err(e),
        }
        let ghost mid = *self;
        add_pair(&mut self.joined, user_id, room_id);
        self.invited = remove_pair(&self.invited, user_id, room_id);
        self.left = remove_pair(&self.left, user_id, room_id);
        proof {
            let id = choose|id: Seq<char>| appended(
                *old(self), mid, id, room_id@, user_id@, MEMBER_KIND@, content@, Seq::empty(), Some(user_id@), now);
            assert(appended(*old(self), *self, id, room_id@, user_id@, MEMBER_KIND@, content@, Seq::empty(), Some(user_id@), now));
        }
        Ok(true)
    }

    /// Appends the event in which `sender` has `user_id` leave `room_id`, and
    /// then records the room as left by the user. When the append fails its
    /// error is returned and nothing changes.
    pub fn room_leave(&mut self, sender: &String, room_id: &String, user_id: &String, now: u64) -> (r: Result<(), StoreError>)
        requires
            old(self).wf(),
        ensures
            final(self).wf(),
            r is Ok <==> member_append_ok(*old(self), room_id@, sender@, user_id@, member_content("leave"@, None), now),
            r is Err ==> *final(self) == *old(self),
            r is Ok ==> {
                &&& member_appended(*old(self), *final(self), room_id@, sender@, user_id@, member_content("leave"@, None), now)
                &&& final(self).invited_view() == without_pair(old(self).invited_view(), user_id@, room_id@)
                &&& final(self).joined_view() == without_pair(old(self).joined_view(), user_id@, room_id@)
                &&& has_pair(old(self).left_view(), user_id@, room_id@) ==> final(self).left_view() == old(self).left_view()
                &&& !has_pair(old(self).left_view(), user_id@, room_id@) ==> final(self).left_view()
                    == old(self).left_view().push((user_id@, room_id@))
                &&& final(self).accounts_eq(&*old(self))
                &&& final(self).ephemeral_eq(&*old(self))
                &&& final(self).identity_eq(&*old(self))
            },
    {
        let content = member_content_text("leave", &None);
        match self.append_member(room_id, sender, user_id, &content, now) {
            Ok(()) => {},
            Err(e) => return Err(e),
        }
        let ghost mid = *self;
        self.invited = remove_pair(&self.invited, user_id, room_id);
        self.joined = remove_pair(&self.joined, user_id, room_id);
        add_pair(&mut self.left, user_id, room_id);
        proof {
            let id = choose|id: Seq<char>| appended(
                *old(self), mid, id, room_id@, sender@, MEMBER_KIND@, content@, Seq::empty(), Some(user_id@), now);
            assert(appended(*old(self), *self, id, room_id@, sender@, MEMBER_KIND@, content@, Seq::empty(), Some(user_id@), now));
        }
        Ok(())
    }

    /// Appends the event in which `sender` invites `user_id` to `room_id`,
    /// and then records the invitation. When the append fails its error is
    /// returned and nothing changes.
    pub fn room_invite(&mut self, sender: &String, room_id: &String, user_id: &String, now: u64) -> (r: Result<(), StoreError>)
        requires
            old(self).wf(),
        ensures
            final(self).wf(),
            r is Ok <==> member_append_ok(*old(self), room_id@, sender@, user_id@, member_content("invite"@, None), now),
            r is Err ==> *final(self) == *old(self),
            r is Ok ==> {
                &&& member_appended(*old(self), *final(self), room_id@, sender@, user_id@, member_content("invite"@, None), now)
                &&& has_pair(old(self).invited_view(), user_id@, room_id@) ==> final(self).invited_view() == old(self).invited_view()
                &&& !has_pair(old(self).invited_view(), user_id@, room_id@) ==> final(self).invited_view()
                    == old(self).invited_view().push((user_id@, room_id@))
                &&& final(self).joined_view() == old(self).joined_view()
                &&& final(self).left_view() == old(self).left_view()
                &&& final(self).accounts_eq(&*old(self))
                &&& final(self).ephemeral_eq(&*old(self))
                &&& final(self).identity_eq(&*old(self))
            },
    {
        let content = member_content_text("invite", &None);
        match self.append_member(room_id, sender, user_id, &content, now) {
            Ok(()) => {},
            Err(e) => return Err(e),
        }
        let ghost mid = *self;
        add_pair(&mut self.invited, user_id, room_id);
        proof {
            let id = choose|id: Seq<char>| appended(
                *old(self), mid, id, room_id@, sender@, MEMBER_KIND@, content@, Seq::empty(), Some(user_id@), now);
            assert(appended(*old(self), *self, id, room_id@, sender@, MEMBER_KIND@, content@, Seq::empty(), Some(user_id@), now));
        }
        Ok(())
    }

    /// Whether `r` holds an event for the pair (`kind`, `state_key`).
    fn has_state_pair(r: &Vec<Pdu>, kind: &String, state_key: &String) -> (b: bool)
        ensures
            b == exists|i: int| 0 <= i < r@.len() && (#[trigger] r@[i])@.kind == kind@ && r@[i]@.state_key == Some(state_key@),
    {
        let mut i: usize = 0;
        while i < r.len()
            invariant
                0 <= i <= r@.len(),
                forall|j: int| 0 <= j < i ==> !((#[trigger] r@[j])@.kind == kind@ && r@[j]@.state_key == Some(state_key@)),
            decreases r@.len() - i,
        {
            if r[i].kind == *kind {
                match &r[i].state_key {
                    Some(k) => {
                        if *k == *state_key {
                            return true;
                        }
                    },
                    None => {},
                }
            }
            i = i + 1;
        }
        false
    }

    /// The current state of `room_id`: for each (type, state key) pair with a
    /// state event in the room, the latest such event, each pair once.
    pub fn room_state(&self, room_id: &String) -> (r: Vec<Pdu>)
        ensures
            forall|i: int| 0 <= i < r@.len() ==> {
                &&& (#[trigger] r@[i])@.state_key is Some
                &&& state_lookup(self.log(), room_id@, r@[i]@.kind, r@[i]@.state_key->0) == Some(r@[i]@)
            },
            forall|i: int, j: int| 0 <= i < j < r@.len() ==> !((#[trigger] r@[i])@.kind == (#[trigger] r@[j])@.kind
                && r@[i]@.state_key == r@[j]@.state_key),
            forall|kind: Seq<char>, key: Seq<char>| #[trigger] state_lookup(self.log(), room_id@, kind, key) is Some
                ==> exists|i: int| 0 <= i < r@.len() && (#[trigger] r@[i])@.kind == kind && r@[i]@.state_key == Some(key),
    {
        let ghost log = self.log();
        let mut r: Vec<Pdu> = Vec::new();
        let mut i: usize = self.pdus.len();
        while i > 0
            invariant
                0 <= i <= self.pdus@.len(),
                log == self.log(),
                log.len() == self.pdus@.len(),
                forall|a: int| 0 <= a < r@.len() ==> {
                    &&& (#[trigger] r@[a])@.state_key is Some
                    &&& state_lookup(log, room_id@, r@[a]@.kind, r@[a]@.state_key->0) == Some(r@[a]@)
                },
                forall|a: int, b: int| 0 <= a < b < r@.len() ==> !((#[trigger] r@[a])@.kind == (#[trigger] r@[b])@.kind
                    && r@[a]@.state_key == r@[b]@.state_key),
                forall|j: int, kind: Seq<char>, key: Seq<char>| i <= j < log.len() && #[trigger] state_match(log[j], room_id@, kind, key)
                    ==> exists|a: int| 0 <= a < r@.len() && (#[trigger] r@[a])@.kind == kind && r@[a]@.state_key == Some(key),
            decreases i,
        {
            let p = &self.pdus[i - 1].pdu;
            if p.room_id == *room_id {
                match &p.state_key {
                    Some(k) => {
                        if !Self::has_state_pair(&r, &p.kind, k) {
                            proof {
                                assert forall|j: int| i - 1 < j < log.len() implies !state_match(#[trigger] log[j], room_id@, p.kind@, k@) by {
                                    if state_match(log[j], room_id@, p.kind@, k@) {
                                        let a = choose|a: int| 0 <= a < r@.len() && (#[trigger] r@[a])@.kind == p.kind@ && r@[a]@.state_key == Some(k@);
                                    }
                                }
                                assert(state_match(log[i - 1], room_id@, p.kind@, k@));
                                lemma_state_lookup_last(log, room_id@, p.kind@, k@, i - 1);
                            }
                            let ghost before = r@;
                            r.push(p.duplicate());
                            proof {
                                assert forall|j: int, kind: Seq<char>, key: Seq<char>| i - 1 <= j < log.len() && #[trigger] state_match(log[j], room_id@, kind, key)
                                    implies exists|a: int| 0 <= a < r@.len() && (#[trigger] r@[a])@.kind == kind && r@[a]@.state_key == Some(key) by {
                                    if j == i - 1 {
                                        assert(r@[r@.len() - 1]@.kind == kind);
                                    } else {
                                        let a = choose|a: int| 0 <= a < before.len() && (#[trigger] before[a])@.kind == kind && before[a]@.state_key == Some(key);
                                        assert(r@[a] == before[a]);
                                    }
                                }
                            }
                        }
                    },
                    None => {},
                }
            }
            i = i - 1;
        }
        proof {
            assert forall|kind: Seq<char>, key: Seq<char>| #[trigger] state_lookup(log, room_id@, kind, key) is Some
                implies exists|a: int| 0 <= a < r@.len() && (#[trigger] r@[a])@.kind == kind && r@[a]@.state_key == Some(key) by {
                lemma_state_lookup_found(log, room_id@, kind, key);
                let j = choose|j: int| 0 <= j < log.len() && state_match(#[trigger] log[j], room_id@, kind, key);
            }
        }
        r
    }
}

} // verus!
