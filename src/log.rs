use vstd::prelude::*;
use crate::pdu::PduView;

verus! {

/// One entry of the event log: the stream ordinal and the event.
pub type LogEntry = (u64, PduView);

/// The events of `room` stored after ordinal `since`, oldest first.
pub open spec fn events_after(log: Seq<LogEntry>, room: Seq<char>, since: u64) -> Seq<PduView>
    decreases log.len(),
{
    if log.len() == 0 {
        Seq::empty()
    } else {
        let rest = events_after(log.drop_last(), room, since);
        if log.last().1.room_id == room && log.last().0 > since {
            rest.push(log.last().1)
        } else {
            rest
        }
    }
}

/// All events of `room`, oldest first.
pub open spec fn room_events(log: Seq<LogEntry>, room: Seq<char>) -> Seq<PduView>
    decreases log.len(),
{
    if log.len() == 0 {
        Seq::empty()
    } else {
        let rest = room_events(log.drop_last(), room);
        if log.last().1.room_id == room {
            rest.push(log.last().1)
        } else {
            rest
        }
    }
}

/// At most `max` events of `room` stored before ordinal `until`, newest first.
pub open spec fn events_before(log: Seq<LogEntry>, room: Seq<char>, until: u64, max: nat) -> Seq<PduView>
    decreases log.len(),
{
    if log.len() == 0 || max == 0 {
        Seq::empty()
    } else if log.last().1.room_id == room && log.last().0 < until {
        seq![log.last().1] + events_before(log.drop_last(), room, until, (max - 1) as nat)
    } else {
        events_before(log.drop_last(), room, until, max)
    }
}

/// The latest stored entry whose event has identifier `id`: storing an event
/// points its identifier at the new entry.
pub open spec fn event_lookup(log: Seq<LogEntry>, id: Seq<char>) -> Option<LogEntry>
    decreases log.len(),
{
    if log.len() == 0 {
        None
    } else if log.last().1.event_id == id {
        Some(log.last())
    } else {
        event_lookup(log.drop_last(), id)
    }
}

/// The depth of the event with identifier `id`, or 0 when it is unknown.
pub open spec fn depth_of(log: Seq<LogEntry>, id: Seq<char>) -> nat {
    match event_lookup(log, id) {
        Some(e) => e.1.depth as nat,
        None => 0,
    }
}

/// The largest depth among the events `ids`, 0 for none.
pub open spec fn max_depth(log: Seq<LogEntry>, ids: Seq<Seq<char>>) -> nat
    decreases ids.len(),
{
    if ids.len() == 0 {
        0
    } else {
        let rest = max_depth(log, ids.drop_last());
        let d = depth_of(log, ids.last());
        if d > rest { d } else { rest }
    }
}

/// The latest state event of `room` for the pair (`kind`, `state_key`).
pub open spec fn state_lookup(log: Seq<LogEntry>, room: Seq<char>, kind: Seq<char>, state_key: Seq<char>) -> Option<PduView>
    decreases log.len(),
{
    if log.len() == 0 {
        None
    } else if log.last().1.room_id == room && log.last().1.kind == kind && log.last().1.state_key == Some(state_key) {
        Some(log.last().1)
    } else {
        state_lookup(log.drop_last(), room, kind, state_key)
    }
}

/// Ordinals grow strictly along the log.
pub open spec fn ordinals_increasing(log: Seq<LogEntry>) -> bool {
    forall|i: int, j: int| 0 <= i < j < log.len() ==> log[i].0 < log[j].0
}

pub proof fn lemma_lookup_in_log(log: Seq<LogEntry>, id: Seq<char>)
    ensures
        event_lookup(log, id) matches Some(e) ==> exists|i: int| 0 <= i < log.len() && log[i] == e,
    decreases log.len(),
{
    if log.len() > 0 && log.last().1.event_id != id {
        lemma_lookup_in_log(log.drop_last(), id);
        if let Some(e) = event_lookup(log, id) {
            let i = choose|i: int| 0 <= i < log.drop_last().len() && log.drop_last()[i] == e;
            assert(log[i] == e);
        }
    }
}

/// When no event is deeper than its ordinal and no ordinal passes `bound`,
/// no depth among known events passes `bound`.
pub proof fn lemma_max_depth_bounded(log: Seq<LogEntry>, ids: Seq<Seq<char>>, bound: u64)
    requires
        forall|i: int| 0 <= i < log.len() ==> log[i].1.depth <= log[i].0 && log[i].0 <= bound,
    ensures
        max_depth(log, ids) <= bound,
    decreases ids.len(),
{
    if ids.len() > 0 {
        lemma_max_depth_bounded(log, ids.drop_last(), bound);
        lemma_lookup_in_log(log, ids.last());
    }
}

/// After storing `e`, its identifier names `e`.
pub proof fn lemma_lookup_push(log: Seq<LogEntry>, e: LogEntry)
    ensures
        event_lookup(log.push(e), e.1.event_id) == Some(e),
{
    assert(log.push(e).last() == e);
}

/// Whether the entry is a state event of `room` for (`kind`, `state_key`).
pub open spec fn state_match(e: LogEntry, room: Seq<char>, kind: Seq<char>, state_key: Seq<char>) -> bool {
    e.1.room_id == room && e.1.kind == kind && e.1.state_key == Some(state_key)
}

/// The state lookup finds the last matching entry.
pub proof fn lemma_state_lookup_last(log: Seq<LogEntry>, room: Seq<char>, kind: Seq<char>, state_key: Seq<char>, k: int)
    requires
        0 <= k < log.len(),
        state_match(log[k], room, kind, state_key),
        forall|j: int| k < j < log.len() ==> !state_match(#[trigger] log[j], room, kind, state_key),
    ensures
        state_lookup(log, room, kind, state_key) == Some(log[k].1),
    decreases log.len(),
{
    if k < log.len() - 1 {
        assert(!state_match(log[log.len() - 1], room, kind, state_key));
        lemma_state_lookup_last(log.drop_last(), room, kind, state_key, k);
    }
}

/// A state lookup that finds something finds a matching entry.
pub proof fn lemma_state_lookup_found(log: Seq<LogEntry>, room: Seq<char>, kind: Seq<char>, state_key: Seq<char>)
    ensures
        state_lookup(log, room, kind, state_key) is Some ==> exists|j: int| 0 <= j < log.len() && state_match(#[trigger] log[j], room, kind, state_key),
    decreases log.len(),
{
    if log.len() > 0 {
        lemma_state_lookup_found(log.drop_last(), room, kind, state_key);
        if state_lookup(log.drop_last(), room, kind, state_key) is Some && !state_match(log.last(), room, kind, state_key) {
            let j = choose|j: int| 0 <= j < log.drop_last().len() && state_match(#[trigger] log.drop_last()[j], room, kind, state_key);
            assert(log[j] == log.drop_last()[j]);
        }
        if state_match(log.last(), room, kind, state_key) {
            assert(state_match(log[log.len() - 1], room, kind, state_key));
        }
    }
}

/// A room with an event in the log has room events.
pub proof fn lemma_room_events_prefix(log: Seq<LogEntry>, room: Seq<char>, i: int)
    requires
        0 <= i < log.len(),
        log[i].1.room_id == room,
    ensures
        room_events(log, room).len() > 0,
    decreases log.len(),
{
    if i < log.len() - 1 {
        lemma_room_events_prefix(log.drop_last(), room, i);
    }
}

/// With no ordinal 0 in the log, reading after ordinal 0 reads the whole room.
pub proof fn lemma_after_zero(log: Seq<LogEntry>, room: Seq<char>)
    requires
        forall|i: int| 0 <= i < log.len() ==> log[i].0 >= 1,
    ensures
        events_after(log, room, 0) == room_events(log, room),
    decreases log.len(),
{
    if log.len() > 0 {
        lemma_after_zero(log.drop_last(), room);
    }
}

} // verus!
