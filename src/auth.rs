use vstd::prelude::*;
use vstd::string::*;

verus! {

/// The parts of a room's power-levels state that local authorization reads:
/// explicit per-user levels and the level of every other user.
pub struct PowerLevels {
    pub users: Vec<(String, i64)>,
    pub users_default: i64,
}

/// The level given to `user` by the first matching per-user entry, or the
/// default when there is none.
pub open spec fn level_in(users: Seq<(String, i64)>, default: i64, user: Seq<char>) -> i64
    decreases users.len(),
{
    if users.len() == 0 {
        default
    } else if users[0].0@ == user {
        users[0].1
    } else {
        level_in(users.drop_first(), default, user)
    }
}

/// Per-user levels and the default level, as plain values.
pub type LevelsView = (Seq<(Seq<char>, i64)>, i64);

/// The level given to `user` by the first matching per-user entry of
/// `users`, or `default`.
pub open spec fn view_level(users: Seq<(Seq<char>, i64)>, default: i64, user: Seq<char>) -> i64
    decreases users.len(),
{
    if users.len() == 0 {
        default
    } else if users[0].0 == user {
        users[0].1
    } else {
        view_level(users.drop_first(), default, user)
    }
}

pub open spec fn users_view(users: Seq<(String, i64)>) -> Seq<(Seq<char>, i64)> {
    users.map_values(|p: (String, i64)| (p.0@, p.1))
}

pub proof fn lemma_level_view(users: Seq<(String, i64)>, default: i64, user: Seq<char>)
    ensures
        level_in(users, default, user) == view_level(users_view(users), default, user),
    decreases users.len(),
{
    if users.len() > 0 {
        assert(users_view(users).drop_first() =~= users_view(users.drop_first()));
        lemma_level_view(users.drop_first(), default, user);
    }
}

/// Whether local authorization admits an event under levels given as plain
/// values (see [`authorized`]).
pub open spec fn authorized_view(is_state: bool, kind: Seq<char>, sender: Seq<char>, levels: Option<LevelsView>) -> bool {
    match levels {
        None => true,
        Some(l) => !is_state || kind == MEMBER_KIND@ || view_level(l.0, l.1, sender) > 0,
    }
}

impl PowerLevels {
    pub open spec fn levels_view(&self) -> LevelsView {
        (users_view(self.users@), self.users_default)
    }

    pub open spec fn level_of(&self, user: Seq<char>) -> i64 {
        level_in(self.users@, self.users_default, user)
    }

    /// The effective power level of `user`.
    pub fn user_level(&self, user: &String) -> (r: i64)
        ensures
            r == self.level_of(user@),
    {
        let mut i: usize = 0;
        assert(self.users@.subrange(0, self.users@.len() as int) =~= self.users@);
        while i < self.users.len()
            invariant
                0 <= i <= self.users@.len(),
                level_in(self.users@.subrange(i as int, self.users@.len() as int), self.users_default, user@)
                    == self.level_of(user@),
            decreases self.users@.len() - i,
        {
            let ghost rest = self.users@.subrange(i as int, self.users@.len() as int);
            assert(rest.drop_first() =~= self.users@.subrange(i + 1, self.users@.len() as int));
            if self.users[i].0 == *user {
                return self.users[i].1;
            }
            i = i + 1;
        }
        assert(self.users@.subrange(i as int, self.users@.len() as int).len() == 0);
        self.users_default
    }
}

/// The event type of membership changes, which local authorization does not restrict.
pub const MEMBER_KIND: &'static str = "m.room.member";

/// The event type of the power-levels state.
pub const POWER_LEVELS_KIND: &'static str = "m.room.power_levels";

/// Whether local authorization admits an event. Only state events are
/// checked; without a power-levels state every event passes (room creation).
/// Membership events are admitted unconditionally: their power checks are not
/// enforced yet. Any other state event needs a sender level above zero.
pub open spec fn authorized(
    is_state: bool,
    kind: Seq<char>,
    sender: Seq<char>,
    levels: Option<PowerLevels>,
) -> bool {
    match levels {
        None => true,
        Some(pl) => !is_state || kind == MEMBER_KIND@ || pl.level_of(sender) > 0,
    }
}

/// Decides whether an event may be appended under the given power levels.
pub fn authorize(is_state: bool, kind: &String, sender: &String, levels: &Option<PowerLevels>) -> (r: bool)
    ensures
        r == authorized(is_state, kind@, sender@, *levels),
{
    match levels {
        None => true,
        Some(pl) => {
            if !is_state {
                return true;
            }
            let member = String::from_str(MEMBER_KIND);
            if *kind == member {
                return true;
            }
            pl.user_level(sender) > 0
        }
    }
}

} // verus!
