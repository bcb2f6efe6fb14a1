use vstd::prelude::*;
use vstd::string::*;
use crate::auth::{LevelsView, PowerLevels};
use crate::pdu::{Pdu, PduView};
use crate::strs::{str_pairs, strs};
use ruma_events::exports::ruma_common::CanonicalJsonObject;
use ruma_events::exports::ruma_common::room_version_rules::RoomVersionRules;
use ruma_events::room::power_levels::RoomPowerLevelsEventContent;
use ruma_signatures::Ed25519KeyPair;

verus! {

/// ruma_signatures's Ed25519 key pair, carried as an opaque value and handed
/// to the signing call.
#[verifier::external_type_specification]
#[verifier::external_body]
pub struct ExEd25519KeyPair(Ed25519KeyPair);

/// The JSON string literal that encodes `s`, quotes and escapes included.
pub uninterp spec fn json_quoted(s: Seq<char>) -> Seq<char>;

/// The reference hash of the event whose JSON text is `text`, in the
/// unpadded base64 form used for event identifiers; none when the text is no
/// JSON object or hashing refuses it.
pub uninterp spec fn reference_hash_of(text: Seq<char>) -> Option<Seq<char>>;

/// Whether the event whose JSON text is `text` can be hashed and signed in
/// the name of `origin`; the outcome depends on the text and the name alone.
pub uninterp spec fn signable(origin: Seq<char>, text: Seq<char>) -> bool;

/// Relies on serde_json::to_string: a `str` serializes to its JSON string
/// literal, and serializing a `str` cannot fail.
#[verifier::external_body]
pub(crate) fn json_quote(s: &str) -> (r: String)
    ensures
        r@ == json_quoted(s@),
{
    serde_json::to_string(s).unwrap_or_default()
}

/// The character of a decimal digit.
pub open spec fn digit_char(d: nat) -> char {
    if d == 0 { '0' } else if d == 1 { '1' } else if d == 2 { '2' } else if d == 3 { '3' }
    else if d == 4 { '4' } else if d == 5 { '5' } else if d == 6 { '6' } else if d == 7 { '7' }
    else if d == 8 { '8' } else { '9' }
}

/// The decimal notation of `n`, without leading zeros.
pub open spec fn decimal(n: nat) -> Seq<char>
    decreases n,
{
    if n < 10 {
        seq![digit_char(n)]
    } else {
        decimal(n / 10).push(digit_char(n % 10))
    }
}

/// Relies on `u64::to_string`: the decimal notation of the number.
#[verifier::external_body]
fn decimal_text(n: u64) -> (r: String)
    ensures
        r@ == decimal(n as nat),
{
    n.to_string()
}

/// Relies on ruma_signatures::reference_hash (room version 3 rules) over the
/// canonical JSON object parsed by serde_json from `text`. There is no result
/// when the text is no JSON object or the event is too large.
#[verifier::external_body]
fn reference_hash(text: &str) -> (r: Option<String>)
    ensures
        crate::strs::opt_str(r) == reference_hash_of(text@),
{
    let object: CanonicalJsonObject = serde_json::from_str(text).ok()?;
    ruma_signatures::reference_hash(&object, &RoomVersionRules::V3).ok()
}

/// Relies on ruma_signatures::hash_and_sign_event (room version 3 redaction
/// rules): adds the content hash and `origin`'s signature to the event given
/// as JSON text and returns the signed event as JSON text. There is no result
/// when the text is no JSON object or hashing or inserting the signature
/// fails, which the text and `origin` decide.
#[verifier::external_body]
fn hash_and_sign(origin: &str, keypair: &Ed25519KeyPair, text: &str) -> (r: Option<String>)
    ensures
        r is Some <==> signable(origin@, text@),
{
    let mut object: CanonicalJsonObject = serde_json::from_str(text).ok()?;
    let rules = RoomVersionRules::V3;
    ruma_signatures::hash_and_sign_event(origin, keypair, &mut object, &rules.redaction).ok()?;
    serde_json::to_string(&object).ok()
}

/// The per-user levels (in the order of user identifiers) and the default
/// level of the power-levels content `content`; none when it does not parse.
pub uninterp spec fn power_levels_of(content: Seq<char>) -> Option<LevelsView>;

/// Relies on serde_json::from_str into ruma_events's
/// `RoomPowerLevelsEventContent`: the per-user levels and the default level
/// of a power-levels content. There is no result when the content does not
/// parse.
#[verifier::external_body]
pub(crate) fn parse_power_levels(content: &str) -> (r: Option<PowerLevels>)
    ensures
        match r {
            Some(pl) => power_levels_of(content@) == Some(pl.levels_view()),
            None => power_levels_of(content@) is None,
        },
{
    let c: RoomPowerLevelsEventContent = serde_json::from_str(content).ok()?;
    Some(PowerLevels {
        users: c.users.iter().map(|(u, l)| (u.to_string(), i64::from(*l))).collect(),
        users_default: i64::from(c.users_default),
    })
}

/// `"key":value,` with the key quoted.
pub open spec fn field(key: Seq<char>, value: Seq<char>) -> Seq<char> {
    json_quoted(key) + ":"@ + value
}

/// The JSON array of the quoted strings of `s`, elements separated by commas.
pub open spec fn quoted_list(s: Seq<Seq<char>>) -> Seq<char>
    decreases s.len(),
{
    if s.len() == 0 {
        Seq::empty()
    } else if s.len() == 1 {
        json_quoted(s[0])
    } else {
        quoted_list(s.drop_last()) + ","@ + json_quoted(s.last())
    }
}

/// The members of a JSON object whose keys are quoted and whose values are
/// JSON texts, separated by commas.
pub open spec fn member_list(s: Seq<(Seq<char>, Seq<char>)>) -> Seq<char>
    decreases s.len(),
{
    if s.len() == 0 {
        Seq::empty()
    } else if s.len() == 1 {
        field(s[0].0, s[0].1)
    } else {
        member_list(s.drop_last()) + ","@ + field(s.last().0, s.last().1)
    }
}

pub open spec fn opt_field(key: Seq<char>, value: Option<Seq<char>>) -> Seq<char> {
    match value {
        Some(v) => ","@ + field(key, json_quoted(v)),
        None => Seq::empty(),
    }
}

/// The JSON text of an event's canonical content, without hashes and
/// signatures, with the members in key order.
pub open spec fn pdu_json(p: PduView) -> Seq<char> {
    "{"@ + field("auth_events"@, "[]"@)
        + ","@ + field("content"@, p.content)
        + ","@ + field("depth"@, decimal(p.depth as nat))
        + ","@ + field("event_id"@, json_quoted(p.event_id))
        + ","@ + field("origin"@, json_quoted(p.origin))
        + ","@ + field("origin_server_ts"@, decimal(p.origin_server_ts as nat))
        + ","@ + field("prev_events"@, "["@ + quoted_list(p.prev_events) + "]"@)
        + opt_field("redacts"@, p.redacts)
        + ","@ + field("room_id"@, json_quoted(p.room_id))
        + ","@ + field("sender"@, json_quoted(p.sender))
        + opt_field("state_key"@, p.state_key)
        + ","@ + field("type"@, json_quoted(p.kind))
        + ","@ + field("unsigned"@, "{"@ + member_list(p.unsigned) + "}"@)
        + "}"@
}

pub(crate) fn push_field(out: &mut String, key: &str, value: &str)
    ensures
        final(out)@ == old(out)@ + field(key@, value@),
{
    let k = json_quote(key);
    out.append(k.as_str());
    out.append(":");
    out.append(value);
}

fn quoted_list_text(s: &Vec<String>) -> (r: String)
    ensures
        r@ == quoted_list(strs(s@)),
{
    let mut out = String::new();
    let mut i: usize = 0;
    while i < s.len()
        invariant
            0 <= i <= s@.len(),
            out@ == quoted_list(strs(s@).subrange(0, i as int)),
        decreases s@.len() - i,
    {
        let ghost pre = strs(s@).subrange(0, i as int);
        assert(strs(s@).subrange(0, i + 1).drop_last() =~= pre);
        if i > 0 {
            out.append(",");
        } else {
            assert(out@ =~= Seq::<char>::empty());
        }
        let q = json_quote(s[i].as_str());
        out.append(q.as_str());
        i = i + 1;
        assert(out@ =~= quoted_list(strs(s@).subrange(0, i as int)));
    }
    assert(strs(s@).subrange(0, s@.len() as int) =~= strs(s@));
    out
}

fn member_list_text(s: &Vec<(String, String)>) -> (r: String)
    ensures
        r@ == member_list(str_pairs(s@)),
{
    let mut out = String::new();
    let mut i: usize = 0;
    while i < s.len()
        invariant
            0 <= i <= s@.len(),
            out@ == member_list(str_pairs(s@).subrange(0, i as int)),
        decreases s@.len() - i,
    {
        let ghost pre = str_pairs(s@).subrange(0, i as int);
        assert(str_pairs(s@).subrange(0, i + 1).drop_last() =~= pre);
        if i > 0 {
            out.append(",");
        } else {
            assert(out@ =~= Seq::<char>::empty());
        }
        push_field(&mut out, s[i].0.as_str(), s[i].1.as_str());
        i = i + 1;
        assert(out@ =~= member_list(str_pairs(s@).subrange(0, i as int)));
    }
    assert(str_pairs(s@).subrange(0, s@.len() as int) =~= str_pairs(s@));
    out
}

fn push_opt_field(out: &mut String, key: &str, value: &Option<String>)
    ensures
        final(out)@ == old(out)@ + opt_field(key@, crate::strs::opt_str(*value)),
{
    match value {
        Some(v) => {
            out.append(",");
            let q = json_quote(v.as_str());
            push_field(out, key, q.as_str());
        },
        None => {
            assert(old(out)@ + opt_field(key@, None) =~= old(out)@);
        },
    }
}

/// The JSON text of the event's canonical content.
pub fn pdu_json_text(p: &Pdu) -> (r: String)
    ensures
        r@ == pdu_json(p@),
{
    let mut out = String::from_str("{");
    push_field(&mut out, "auth_events", "[]");
    out.append(",");
    push_field(&mut out, "content", p.content.as_str());
    out.append(",");
    let depth = decimal_text(p.depth);
    push_field(&mut out, "depth", depth.as_str());
    out.append(",");
    let id = json_quote(p.event_id.as_str());
    push_field(&mut out, "event_id", id.as_str());
    out.append(",");
    let origin = json_quote(p.origin.as_str());
    push_field(&mut out, "origin", origin.as_str());
    out.append(",");
    let ts = decimal_text(p.origin_server_ts);
    push_field(&mut out, "origin_server_ts", ts.as_str());
    out.append(",");
    let mut prev = String::from_str("[");
    let list = quoted_list_text(&p.prev_events);
    prev.append(list.as_str());
    prev.append("]");
    push_field(&mut out, "prev_events", prev.as_str());
    push_opt_field(&mut out, "redacts", &p.redacts);
    out.append(",");
    let room = json_quote(p.room_id.as_str());
    push_field(&mut out, "room_id", room.as_str());
    out.append(",");
    let sender = json_quote(p.sender.as_str());
    push_field(&mut out, "sender", sender.as_str());
    push_opt_field(&mut out, "state_key", &p.state_key);
    out.append(",");
    let kind = json_quote(p.kind.as_str());
    push_field(&mut out, "type", kind.as_str());
    out.append(",");
    let mut unsigned = String::from_str("{");
    let members = member_list_text(&p.unsigned);
    unsigned.append(members.as_str());
    unsigned.append("}");
    push_field(&mut out, "unsigned", unsigned.as_str());
    out.append("}");
    assert(out@ =~= pdu_json(p@));
    out
}

/// The content of a membership event, with the member's display name when
/// one is given.
pub open spec fn member_content(membership: Seq<char>, displayname: Option<Seq<char>>) -> Seq<char> {
    "{"@ + field("membership"@, json_quoted(membership)) + opt_field("displayname"@, displayname) + "}"@
}

/// The JSON text of a membership event's content.
pub fn member_content_text(membership: &str, displayname: &Option<String>) -> (r: String)
    ensures
        r@ == member_content(membership@, crate::strs::opt_str(*displayname)),
{
    let mut out = String::from_str("{");
    let m = json_quote(membership);
    push_field(&mut out, "membership", m.as_str());
    push_opt_field(&mut out, "displayname", displayname);
    out.append("}");
    assert(out@ =~= member_content(membership@, crate::strs::opt_str(*displayname)));
    out
}

/// The placeholder identifier that an event carries while its reference hash
/// is computed.
pub const PLACEHOLDER_EVENT_ID: &'static str = "$thiswillbefilledinlater";

/// The identifier of the event `d`: `$` followed by the reference hash of
/// its canonical text (with the placeholder identifier).
pub open spec fn event_id_of(d: PduView) -> Option<Seq<char>> {
    match reference_hash_of(pdu_json(d)) {
        Some(h) => Some(seq!['$'] + h),
        None => None,
    }
}

/// Whether the event `d` can be given its identity: it can be hashed, and
/// with its identifier in place it can be signed in the name of `origin`.
pub open spec fn identity_ok(d: PduView, origin: Seq<char>) -> bool {
    match event_id_of(d) {
        Some(id) => signable(origin, pdu_json(PduView { event_id: id, ..d })),
        None => false,
    }
}

/// Gives the event its content-derived identifier and its signature: the
/// identifier is `$` followed by the reference hash of the event's canonical
/// text with the placeholder identifier; the signed form is made from the
/// canonical text with the final identifier. `None` exactly when hashing or
/// signing refuses the text.
pub fn assign_identity(p: Pdu, origin: &str, keypair: &Ed25519KeyPair) -> (r: Option<Pdu>)
    requires
        p.event_id@ == PLACEHOLDER_EVENT_ID@,
    ensures
        r is Some <==> identity_ok(p@, origin@),
        r matches Some(q) ==> {
            &&& event_id_of(p@) == Some(q.event_id@)
            &&& q@ == PduView { event_id: q.event_id@, signed: q.signed@, ..p@ }
        },
{
    let ghost d = p@;
    let mut p = p;
    let text = pdu_json_text(&p);
    let hash = match reference_hash(text.as_str()) {
        Some(h) => h,
        None => return None,
    };
    let mut id = String::from_str("$");
    id.append(hash.as_str());
    proof {
        reveal_strlit("$");
    }
    assert(id@ =~= seq!['$'] + hash@);
    p.event_id = id;
    let final_text = pdu_json_text(&p);
    assert(p@ == PduView { event_id: p.event_id@, ..d });
    match hash_and_sign(origin, keypair, final_text.as_str()) {
        Some(signed) => {
            p.signed = signed;
            Some(p)
        },
        None => None,
    }
}

} // verus!
