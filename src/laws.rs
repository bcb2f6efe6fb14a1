use vstd::prelude::*;
use crate::auth::{authorized, authorized_view, view_level, LevelsView, PowerLevels, MEMBER_KIND};
use crate::data::{appended, draft_event, frontier_of, Data};
use crate::identity::event_id_of;
use crate::log::{event_lookup, events_after, events_before, max_depth, ordinals_increasing, room_events, LogEntry};
use crate::pdu::PduView;

verus! {

proof fn lemma_after_empty(log: Seq<LogEntry>, room: Seq<char>, since: u64)
    requires
        forall|i: int| 0 <= i < log.len() ==> log[i].0 <= since,
    ensures
        events_after(log, room, since) == Seq::<PduView>::empty(),
    decreases log.len(),
{
    if log.len() > 0 {
        lemma_after_empty(log.drop_last(), room, since);
    }
}

/// Paging backwards from a boundary ordinal with no limit, read oldest
/// first, followed by the incremental read after that boundary, gives every
/// event of the room once, in order.
pub proof fn lemma_since_until_partition(log: Seq<LogEntry>, room: Seq<char>, boundary: u64, max: nat)
    requires
        ordinals_increasing(log),
        max >= room_events(log, room).len(),
        forall|i: int| 0 <= i < log.len() && log[i].1.room_id == room ==> log[i].0 != boundary,
    ensures
        events_before(log, room, boundary, max).reverse() + events_after(log, room, boundary) == room_events(log, room),
    decreases log.len(),
{
    if log.len() > 0 {
        let rest = log.drop_last();
        let last = log.last();
        assert(ordinals_increasing(rest));
        if last.1.room_id == room && last.0 < boundary {
            lemma_since_until_partition(rest, room, boundary, (max - 1) as nat);
            assert forall|i: int| 0 <= i < rest.len() implies rest[i].0 <= boundary by {
                assert(log[i].0 < log[log.len() - 1].0);
            }
            lemma_after_empty(rest, room, boundary);
            let before = events_before(rest, room, boundary, (max - 1) as nat);
            assert((seq![last.1] + before).reverse() =~= before.reverse().push(last.1));
            assert(before.reverse() + events_after(rest, room, boundary) =~= before.reverse());
            assert(before.reverse().push(last.1) + Seq::<PduView>::empty() =~= before.reverse().push(last.1));
        } else {
            assert(room_events(rest, room).len() <= room_events(log, room).len());
            lemma_since_until_partition(rest, room, boundary, max);
            let before = events_before(rest, room, boundary, max);
            assert(before.reverse() + events_after(rest, room, boundary).push(last.1)
                =~= (before.reverse() + events_after(rest, room, boundary)).push(last.1));
        }
    }
}

/// On a well-formed store, reading the events of a room before a boundary
/// ordinal (newest first, with a limit no smaller than the room's event
/// count), reversed, and then those after it gives every event of the room
/// once, in order. The boundary is an ordinal that no event of the room has.
pub proof fn lemma_store_since_until(d: Data, room: Seq<char>, boundary: u64, max: nat)
    requires
        d.wf(),
        max >= room_events(d.log(), room).len(),
        forall|i: int| 0 <= i < d.log().len() && d.log()[i].1.room_id == room ==> d.log()[i].0 != boundary,
    ensures
        events_before(d.log(), room, boundary, max).reverse() + events_after(d.log(), room, boundary) == room_events(
            d.log(),
            room,
        ),
{
    d.lemma_wf_ordinals();
    lemma_since_until_partition(d.log(), room, boundary, max);
}

/// The first event of a room, whose frontier is empty, has depth 1; any
/// appended event is deeper than every event of the frontier it extends.
pub proof fn lemma_append_depth(
    old: Data,
    new: Data,
    id: Seq<char>,
    room: Seq<char>,
    sender: Seq<char>,
    kind: Seq<char>,
    content: Seq<char>,
    unsigned: Seq<(Seq<char>, Seq<char>)>,
    state_key: Option<Seq<char>>,
    ts: u64,
)
    requires
        appended(old, new, id, room, sender, kind, content, unsigned, state_key, ts),
    ensures
        new.log().last().1.depth > max_depth(old.log(), frontier_of(old.leaves_view(), room)),
        frontier_of(old.leaves_view(), room).len() == 0 ==> new.log().last().1.depth == 1,
        frontier_of(new.leaves_view(), room) == seq![id],
{
}

/// An event appended with no unsigned data and no state key is found again
/// under its identifier, with the room, sender, type and content given, and
/// its identifier is `$` and the reference hash of its canonical content.
pub proof fn lemma_append_round_trip(
    old: Data,
    new: Data,
    id: Seq<char>,
    room: Seq<char>,
    sender: Seq<char>,
    kind: Seq<char>,
    content: Seq<char>,
    ts: u64,
)
    requires
        appended(old, new, id, room, sender, kind, content, Seq::empty(), None, ts),
    ensures
        event_lookup(new.log(), id) matches Some(e) && {
            let draft = draft_event(
                room,
                sender,
                old.host(),
                ts,
                kind,
                content,
                None,
                frontier_of(old.leaves_view(), room),
                e.1.depth,
                Seq::empty(),
            );
            &&& e.1.content == content
            &&& e.1.sender == sender
            &&& e.1.room_id == room
            &&& e.1.kind == kind
            &&& e.1.event_id == id
            &&& event_id_of(draft) == Some(id)
        },
{
    assert(new.log() =~= old.log().push(new.log().last()));
    crate::log::lemma_lookup_push(old.log(), new.log().last());
}

/// Once a room has power levels, a state event other than a membership
/// change from a sender whose effective level is zero or below is refused.
pub proof fn lemma_low_power_rejected(kind: Seq<char>, sender: Seq<char>, levels: PowerLevels)
    requires
        kind != MEMBER_KIND@,
        levels.level_of(sender) <= 0,
    ensures
        !authorized(true, kind, sender, Some(levels)),
{
}

/// The same over levels given as plain values, as `Data::pdu_append`
/// states its refusals.
pub proof fn lemma_low_power_rejected_view(kind: Seq<char>, sender: Seq<char>, levels: LevelsView)
    requires
        kind != MEMBER_KIND@,
        view_level(levels.0, levels.1, sender) <= 0,
    ensures
        !authorized_view(true, kind, sender, Some(levels)),
{
}

} // verus!
