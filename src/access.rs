use vstd::prelude::*;

verus! {

/// Why a federation request was turned away.
#[derive(Clone, Copy, Debug, PartialEq, Eq, Structural)]
pub enum AccessDenied {
    /// The room's ACL does not admit the origin server.
    ServerAccessDenied,
    /// The room is not world-readable and the origin has no member in it.
    ServerNotInRoom,
    /// The origin may not see the requested event.
    ServerCannotSeeEvent,
}

impl AccessDenied {
    /// The human-readable reason given to the remote server.
    pub fn message(&self) -> (r: &'static str) {
        match self {
            AccessDenied::ServerAccessDenied => "Server access denied.",
            AccessDenied::ServerNotInRoom => "Server is not in room.",
            AccessDenied::ServerCannotSeeEvent => "Server is not allowed to see event.",
        }
    }
}

/// The results of the independent reads that decide a federation request:
/// the ACL check, the world-readability flag, whether the origin has a member
/// in the room, and (when an event was named) whether the origin may see it.
#[derive(Clone, Copy, Debug, PartialEq, Eq, Structural)]
pub struct AccessCheck {
    pub acl_ok: bool,
    pub world_readable: bool,
    pub server_in_room: bool,
    pub server_can_see: Option<bool>,
}

/// The access decision, in the order in which the rules apply.
pub open spec fn access_spec(c: AccessCheck) -> Result<(), AccessDenied> {
    if !c.acl_ok {
        Err(AccessDenied::ServerAccessDenied)
    } else if !c.world_readable && !c.server_in_room {
        Err(AccessDenied::ServerNotInRoom)
    } else if c.server_can_see == Some(false) {
        Err(AccessDenied::ServerCannotSeeEvent)
    } else {
        Ok(())
    }
}

impl AccessCheck {
    /// Admits or rejects the request once all reads have completed. A failed
    /// ACL check wins over every other outcome.
    pub fn check(&self) -> (r: Result<(), AccessDenied>)
        ensures
            r == access_spec(*self),
    {
        if !self.acl_ok {
            return Err(AccessDenied::ServerAccessDenied);
        }
        if !self.world_readable && !self.server_in_room {
            return Err(AccessDenied::ServerNotInRoom);
        }
        match self.server_can_see {
            Some(false) => Err(AccessDenied::ServerCannotSeeEvent),
            _ => Ok(()),
        }
    }
}

/// An origin that the ACL refuses is refused for that reason, whatever the
/// room's visibility and membership say.
pub proof fn lemma_acl_denial_dominates(c: AccessCheck)
    requires
        !c.acl_ok,
    ensures
        access_spec(c) == Err::<(), AccessDenied>(AccessDenied::ServerAccessDenied),
{
}

} // verus!
