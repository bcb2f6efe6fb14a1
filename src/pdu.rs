use vstd::prelude::*;
use crate::strs::{clone_opt, clone_pairs, clone_strs, opt_str, str_pairs, strs};

verus! {

/// A persisted event of a room's history graph.
///
/// `content` and the values of `unsigned` are JSON texts; `signed` is the
/// event's signed canonical form, carrying its content hash and signatures.
pub struct Pdu {
    pub event_id: String,
    pub room_id: String,
    pub sender: String,
    pub origin: String,
    pub origin_server_ts: u64,
    pub kind: String,
    pub content: String,
    pub state_key: Option<String>,
    pub prev_events: Vec<String>,
    pub depth: u64,
    pub redacts: Option<String>,
    pub unsigned: Vec<(String, String)>,
    pub signed: String,
}

/// The mathematical value of a [`Pdu`].
pub struct PduView {
    pub event_id: Seq<char>,
    pub room_id: Seq<char>,
    pub sender: Seq<char>,
    pub origin: Seq<char>,
    pub origin_server_ts: u64,
    pub kind: Seq<char>,
    pub content: Seq<char>,
    pub state_key: Option<Seq<char>>,
    pub prev_events: Seq<Seq<char>>,
    pub depth: u64,
    pub redacts: Option<Seq<char>>,
    pub unsigned: Seq<(Seq<char>, Seq<char>)>,
    pub signed: Seq<char>,
}

impl View for Pdu {
    type V = PduView;

    open spec fn view(&self) -> PduView {
        PduView {
            event_id: self.event_id@,
            room_id: self.room_id@,
            sender: self.sender@,
            origin: self.origin@,
            origin_server_ts: self.origin_server_ts,
            kind: self.kind@,
            content: self.content@,
            state_key: opt_str(self.state_key),
            prev_events: strs(self.prev_events@),
            depth: self.depth,
            redacts: opt_str(self.redacts),
            unsigned: str_pairs(self.unsigned@),
            signed: self.signed@,
        }
    }
}

impl Pdu {
    /// A copy of the event.
    pub fn duplicate(&self) -> (r: Pdu)
        ensures
            r@ == self@,
    {
        Pdu {
            event_id: self.event_id.clone(),
            room_id: self.room_id.clone(),
            sender: self.sender.clone(),
            origin: self.origin.clone(),
            origin_server_ts: self.origin_server_ts,
            kind: self.kind.clone(),
            content: self.content.clone(),
            state_key: clone_opt(&self.state_key),
            prev_events: clone_strs(&self.prev_events),
            depth: self.depth,
            redacts: clone_opt(&self.redacts),
            unsigned: clone_pairs(&self.unsigned),
            signed: self.signed.clone(),
        }
    }
}

/// An event together with the stream ordinal under which it was stored.
pub struct StoredPdu {
    pub ordinal: u64,
    pub pdu: Pdu,
}

} // verus!
