use vstd::prelude::*;

verus! {

/// A read receipt: (ordinal, room, user, event JSON).
pub type ReceiptView = (u64, Seq<char>, Seq<char>, Seq<char>);

/// A typing or presence marker: (timeout, ordinal, room, event JSON).
pub type ActiveView = (u64, u64, Seq<char>, Seq<char>);

/// An account-data item: (ordinal, room or none for global data, user, type, event JSON).
pub type UserDataView = (u64, Option<Seq<char>>, Seq<char>, Seq<char>, Seq<char>);

/// The receipts of every (room, user) pair but the given one.
pub open spec fn without_receipt(s: Seq<ReceiptView>, room: Seq<char>, user: Seq<char>) -> Seq<ReceiptView>
    decreases s.len(),
{
    if s.len() == 0 {
        Seq::empty()
    } else {
        let rest = without_receipt(s.drop_last(), room, user);
        if s.last().1 == room && s.last().2 == user { rest } else { rest.push(s.last()) }
    }
}

/// The receipts of `user` in `room`.
pub open spec fn receipts_of(s: Seq<ReceiptView>, room: Seq<char>, user: Seq<char>) -> Seq<ReceiptView>
    decreases s.len(),
{
    if s.len() == 0 {
        Seq::empty()
    } else {
        let rest = receipts_of(s.drop_last(), room, user);
        if s.last().1 == room && s.last().2 == user { rest.push(s.last()) } else { rest }
    }
}

/// The events of the receipts in `room` stored after ordinal `since`.
pub open spec fn receipts_after(s: Seq<ReceiptView>, room: Seq<char>, since: u64) -> Seq<Seq<char>>
    decreases s.len(),
{
    if s.len() == 0 {
        Seq::empty()
    } else {
        let rest = receipts_after(s.drop_last(), room, since);
        if s.last().1 == room && s.last().0 > since { rest.push(s.last().3) } else { rest }
    }
}

/// A receipt table with the receipt of (`room`, `user`) replaced holds
/// exactly one receipt for that pair, the new one.
pub proof fn lemma_receipt_single(s: Seq<ReceiptView>, e: ReceiptView)
    ensures
        receipts_of(without_receipt(s, e.1, e.2).push(e), e.1, e.2) == seq![e],
{
    lemma_receipt_none(s, e.1, e.2);
    assert(without_receipt(s, e.1, e.2).push(e).drop_last() =~= without_receipt(s, e.1, e.2));
}

pub proof fn lemma_receipt_none(s: Seq<ReceiptView>, room: Seq<char>, user: Seq<char>)
    ensures
        receipts_of(without_receipt(s, room, user), room, user) == Seq::<ReceiptView>::empty(),
    decreases s.len(),
{
    if s.len() > 0 {
        lemma_receipt_none(s.drop_last(), room, user);
        let rest = without_receipt(s.drop_last(), room, user);
        assert(rest.push(s.last()).drop_last() =~= rest);
    }
}

/// The markers of every room but `room`, and those of `room` whose timeout
/// is not before `now`.
pub open spec fn without_expired(s: Seq<ActiveView>, room: Seq<char>, now: u64) -> Seq<ActiveView>
    decreases s.len(),
{
    if s.len() == 0 {
        Seq::empty()
    } else {
        let rest = without_expired(s.drop_last(), room, now);
        if s.last().2 == room && s.last().0 < now { rest } else { rest.push(s.last()) }
    }
}

/// The events of the markers of `room`, in scan order.
pub open spec fn active_events(s: Seq<ActiveView>, room: Seq<char>) -> Seq<Seq<char>>
    decreases s.len(),
{
    if s.len() == 0 {
        Seq::empty()
    } else {
        let rest = active_events(s.drop_last(), room);
        if s.last().2 == room { rest.push(s.last().3) } else { rest }
    }
}

/// The account-data items of every (scope, type) but the given one.
pub open spec fn without_user_data(
    s: Seq<UserDataView>,
    room: Option<Seq<char>>,
    user: Seq<char>,
    kind: Seq<char>,
) -> Seq<UserDataView>
    decreases s.len(),
{
    if s.len() == 0 {
        Seq::empty()
    } else {
        let rest = without_user_data(s.drop_last(), room, user, kind);
        if s.last().1 == room && s.last().2 == user && s.last().3 == kind { rest } else { rest.push(s.last()) }
    }
}

/// The account-data items of type `kind` in the scope (`room`, `user`).
pub open spec fn user_data_of(
    s: Seq<UserDataView>,
    room: Option<Seq<char>>,
    user: Seq<char>,
    kind: Seq<char>,
) -> Seq<UserDataView>
    decreases s.len(),
{
    if s.len() == 0 {
        Seq::empty()
    } else {
        let rest = user_data_of(s.drop_last(), room, user, kind);
        if s.last().1 == room && s.last().2 == user && s.last().3 == kind { rest.push(s.last()) } else { rest }
    }
}

/// The (type, event) pairs of the scope (`room`, `user`) stored after
/// ordinal `since`.
pub open spec fn user_data_after(
    s: Seq<UserDataView>,
    room: Option<Seq<char>>,
    user: Seq<char>,
    since: u64,
) -> Seq<(Seq<char>, Seq<char>)>
    decreases s.len(),
{
    if s.len() == 0 {
        Seq::empty()
    } else {
        let rest = user_data_after(s.drop_last(), room, user, since);
        if s.last().1 == room && s.last().2 == user && s.last().0 > since {
            rest.push((s.last().3, s.last().4))
        } else {
            rest
        }
    }
}

/// The event of the latest item of type `kind` in the scope (`room`, `user`).
pub open spec fn user_data_lookup(
    s: Seq<UserDataView>,
    room: Option<Seq<char>>,
    user: Seq<char>,
    kind: Seq<char>,
) -> Option<Seq<char>>
    decreases s.len(),
{
    if s.len() == 0 {
        None
    } else if s.last().1 == room && s.last().2 == user && s.last().3 == kind {
        Some(s.last().4)
    } else {
        user_data_lookup(s.drop_last(), room, user, kind)
    }
}

pub proof fn lemma_user_data_single(s: Seq<UserDataView>, e: UserDataView)
    ensures
        user_data_of(without_user_data(s, e.1, e.2, e.3).push(e), e.1, e.2, e.3) == seq![e],
{
    lemma_user_data_none(s, e.1, e.2, e.3);
    assert(without_user_data(s, e.1, e.2, e.3).push(e).drop_last() =~= without_user_data(s, e.1, e.2, e.3));
}

pub proof fn lemma_user_data_none(s: Seq<UserDataView>, room: Option<Seq<char>>, user: Seq<char>, kind: Seq<char>)
    ensures
        user_data_of(without_user_data(s, room, user, kind), room, user, kind) == Seq::<UserDataView>::empty(),
    decreases s.len(),
{
    if s.len() > 0 {
        lemma_user_data_none(s.drop_last(), room, user, kind);
        let rest = without_user_data(s.drop_last(), room, user, kind);
        assert(rest.push(s.last()).drop_last() =~= rest);
    }
}

/// Receipt ordinals grow in storage order and none passes `bound`; each
/// (room, user) pair has at most one receipt.
#[verifier::opaque]
pub open spec fn receipts_ok(s: Seq<ReceiptView>, bound: u64) -> bool {
    &&& forall|i: int, j: int| 0 <= i < j < s.len() ==> s[i].0 < s[j].0
    &&& forall|i: int| 0 <= i < s.len() ==> s[i].0 <= bound
    &&& forall|i: int, j: int| 0 <= i < j < s.len() ==> !(s[i].1 == s[j].1 && s[i].2 == s[j].2)
}

pub proof fn lemma_without_receipt_ok(s: Seq<ReceiptView>, room: Seq<char>, user: Seq<char>, bound: u64)
    requires
        receipts_ok(s, bound),
    ensures
        receipts_ok(without_receipt(s, room, user), bound),
        forall|k: int| 0 <= k < without_receipt(s, room, user).len() ==> !(without_receipt(s, room, user)[k].1 == room
            && without_receipt(s, room, user)[k].2 == user),
        forall|k: int| #![trigger without_receipt(s, room, user)[k]] 0 <= k < without_receipt(s, room, user).len() ==> exists|i: int| 0 <= i < s.len() && #[trigger] s[i] == without_receipt(s, room, user)[k],
    decreases s.len(),
{
    reveal(receipts_ok);
    if s.len() > 0 {
        let t = s.drop_last();
        assert(receipts_ok(t, bound));
        lemma_without_receipt_ok(t, room, user, bound);
        let w = without_receipt(t, room, user);
        assert forall|k: int| #![trigger w[k]] 0 <= k < w.len() implies exists|i: int| 0 <= i < s.len() && #[trigger] s[i] == w[k] by {
            let i = choose|i: int| 0 <= i < t.len() && #[trigger] t[i] == w[k];
            assert(s[i] == w[k]);
        }
        if !(s.last().1 == room && s.last().2 == user) {
            let w2 = w.push(s.last());
            assert forall|k: int| #![trigger w[k]] 0 <= k < w.len() implies w[k].0 < s.last().0 && !(w[k].1 == s.last().1 && w[k].2 == s.last().2) by {
                let i = choose|i: int| 0 <= i < t.len() && #[trigger] t[i] == w[k];
                assert(s[i] == w[k]);
            }
            assert forall|k: int| #![trigger w2[k]] 0 <= k < w2.len() implies exists|i: int| 0 <= i < s.len() && #[trigger] s[i] == w2[k] by {
                if k == w.len() {
                    assert(s[s.len() - 1] == w2[k]);
                } else {
                    assert(w2[k] == w[k]);
                }
            }
        }
    }
}

/// Account-data ordinals grow in storage order and none passes `bound`;
/// each (scope, type) has at most one item.
#[verifier::opaque]
pub open spec fn user_data_ok(s: Seq<UserDataView>, bound: u64) -> bool {
    &&& forall|i: int, j: int| 0 <= i < j < s.len() ==> s[i].0 < s[j].0
    &&& forall|i: int| 0 <= i < s.len() ==> s[i].0 <= bound
    &&& forall|i: int, j: int| 0 <= i < j < s.len() ==> !(s[i].1 == s[j].1 && s[i].2 == s[j].2 && s[i].3 == s[j].3)
}

pub proof fn lemma_without_user_data_ok(
    s: Seq<UserDataView>,
    room: Option<Seq<char>>,
    user: Seq<char>,
    kind: Seq<char>,
    bound: u64,
)
    requires
        user_data_ok(s, bound),
    ensures
        user_data_ok(without_user_data(s, room, user, kind), bound),
        forall|k: int| 0 <= k < without_user_data(s, room, user, kind).len() ==> !(without_user_data(s, room, user, kind)[k].1
            == room && without_user_data(s, room, user, kind)[k].2 == user && without_user_data(s, room, user, kind)[k].3 == kind),
        forall|k: int| #![trigger without_user_data(s, room, user, kind)[k]] 0 <= k < without_user_data(s, room, user, kind).len() ==> exists|i: int| 0 <= i < s.len() && #[trigger] s[i]
            == without_user_data(s, room, user, kind)[k],
    decreases s.len(),
{
    reveal(user_data_ok);
    if s.len() > 0 {
        let t = s.drop_last();
        assert(user_data_ok(t, bound));
        lemma_without_user_data_ok(t, room, user, kind, bound);
        let w = without_user_data(t, room, user, kind);
        assert forall|k: int| #![trigger w[k]] 0 <= k < w.len() implies exists|i: int| 0 <= i < s.len() && #[trigger] s[i] == w[k] by {
            let i = choose|i: int| 0 <= i < t.len() && #[trigger] t[i] == w[k];
            assert(s[i] == w[k]);
        }
        if !(s.last().1 == room && s.last().2 == user && s.last().3 == kind) {
            let w2 = w.push(s.last());
            assert forall|k: int| #![trigger w[k]] 0 <= k < w.len() implies w[k].0 < s.last().0 && !(w[k].1 == s.last().1 && w[k].2
                == s.last().2 && w[k].3 == s.last().3) by {
                let i = choose|i: int| 0 <= i < t.len() && #[trigger] t[i] == w[k];
                assert(s[i] == w[k]);
            }
            assert forall|k: int| #![trigger w2[k]] 0 <= k < w2.len() implies exists|i: int| 0 <= i < s.len() && #[trigger] s[i] == w2[k] by {
                if k == w.len() {
                    assert(s[s.len() - 1] == w2[k]);
                } else {
                    assert(w2[k] == w[k]);
                }
            }
        }
    }
}

/// No marker ordinal passes `bound`.
#[verifier::opaque]
pub open spec fn actives_bounded(s: Seq<ActiveView>, bound: u64) -> bool {
    forall|i: int| 0 <= i < s.len() ==> s[i].1 <= bound
}

pub proof fn lemma_without_expired_bound(s: Seq<ActiveView>, room: Seq<char>, now: u64, bound: u64)
    requires
        actives_bounded(s, bound),
    ensures
        actives_bounded(without_expired(s, room, now), bound),
    decreases s.len(),
{
    reveal(actives_bounded);
    if s.len() > 0 {
        let t = s.drop_last();
        assert(actives_bounded(t, bound));
        lemma_without_expired_bound(t, room, now, bound);
        let w = without_expired(t, room, now);
        assert forall|k: int| 0 <= k < w.push(s.last()).len() implies #[trigger] w.push(s.last())[k].1 <= bound by {
            if k < w.len() {
                assert(w.push(s.last())[k] == w[k]);
            }
        }
    }
}

/// Bounds on ephemeral ordinals hold for any larger bound.
pub proof fn lemma_bounds_grow(
    r: Seq<ReceiptView>,
    u: Seq<UserDataView>,
    a: Seq<ActiveView>,
    b1: u64,
    b2: u64,
)
    requires
        b1 <= b2,
        receipts_ok(r, b1),
        user_data_ok(u, b1),
        actives_bounded(a, b1),
    ensures
        receipts_ok(r, b2),
        user_data_ok(u, b2),
        actives_bounded(a, b2),
{
    reveal(receipts_ok);
    reveal(user_data_ok);
    reveal(actives_bounded);
}

/// Storing `e` after the receipts, with an ordinal past every bound, keeps
/// them well-formed when `e`'s pair has no other receipt.
pub proof fn lemma_receipt_push(w: Seq<ReceiptView>, e: ReceiptView, bound: u64)
    requires
        receipts_ok(w, bound),
        bound < e.0,
        forall|k: int| 0 <= k < w.len() ==> !(w[k].1 == e.1 && w[k].2 == e.2),
    ensures
        receipts_ok(w.push(e), e.0),
{
    reveal(receipts_ok);
    let s = w.push(e);
    assert forall|i: int, j: int| 0 <= i < j < s.len() implies s[i].0 < s[j].0 && !(s[i].1 == s[j].1 && s[i].2 == s[j].2) by {
        if j == w.len() {
            assert(s[i] == w[i]);
        } else {
            assert(s[i] == w[i] && s[j] == w[j]);
        }
    }
    assert forall|i: int| 0 <= i < s.len() implies s[i].0 <= e.0 by {
        if i < w.len() {
            assert(s[i] == w[i]);
        }
    }
}

pub proof fn lemma_user_data_push(w: Seq<UserDataView>, e: UserDataView, bound: u64)
    requires
        user_data_ok(w, bound),
        bound < e.0,
        forall|k: int| 0 <= k < w.len() ==> !(w[k].1 == e.1 && w[k].2 == e.2 && w[k].3 == e.3),
    ensures
        user_data_ok(w.push(e), e.0),
{
    reveal(user_data_ok);
    let s = w.push(e);
    assert forall|i: int, j: int| 0 <= i < j < s.len() implies s[i].0 < s[j].0 && !(s[i].1 == s[j].1 && s[i].2 == s[j].2
        && s[i].3 == s[j].3) by {
        if j == w.len() {
            assert(s[i] == w[i]);
        } else {
            assert(s[i] == w[i] && s[j] == w[j]);
        }
    }
    assert forall|i: int| 0 <= i < s.len() implies s[i].0 <= e.0 by {
        if i < w.len() {
            assert(s[i] == w[i]);
        }
    }
}

pub proof fn lemma_active_insert(s: Seq<ActiveView>, p: int, e: ActiveView, bound: u64)
    requires
        actives_bounded(s, bound),
        0 <= p <= s.len(),
        bound < e.1,
    ensures
        actives_bounded(s.insert(p, e), e.1),
{
    reveal(actives_bounded);
    let t = s.insert(p, e);
    assert forall|i: int| 0 <= i < t.len() implies t[i].1 <= e.1 by {
        if i < p {
            assert(t[i] == s[i]);
        } else if i > p {
            assert(t[i] == s[i - 1]);
        }
    }
}

pub proof fn lemma_active_remove(s: Seq<ActiveView>, p: int, bound: u64)
    requires
        actives_bounded(s, bound),
        0 <= p < s.len(),
    ensures
        actives_bounded(s.remove(p), bound),
{
    reveal(actives_bounded);
    let t = s.remove(p);
    assert forall|i: int| 0 <= i < t.len() implies t[i].1 <= bound by {
        if i < p {
            assert(t[i] == s[i]);
        } else {
            assert(t[i] == s[i + 1]);
        }
    }
}

/// Empty tables are well-formed.
pub proof fn lemma_empty_ok(bound: u64)
    ensures
        receipts_ok(Seq::empty(), bound),
        user_data_ok(Seq::empty(), bound),
        actives_bounded(Seq::empty(), bound),
{
    reveal(receipts_ok);
    reveal(user_data_ok);
    reveal(actives_bounded);
}

} // verus!
