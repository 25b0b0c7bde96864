//! Privilege levels of identities.

use vstd::prelude::*;
use vstd::std_specs::convert::FromSpecImpl;

verus! {

/// The privilege level bound to an identity when it is issued.
#[derive(Clone, Copy, PartialEq, Eq, Structural, Debug)]
pub enum Role {
    /// Ordinary callers: every endpoint applies its declared limits.
    Standered,
    /// Privileged callers: the largest quota and no cooldown on every endpoint.
    Admin,
    /// Callers without any privilege: they are never issued an identity.
    Unauthenticated,
}

impl Role {
    /// Whether an identity may be issued for this role.
    pub open spec fn may_hold_identity(self) -> bool {
        self != Role::Unauthenticated
    }

    /// The name under which the role is shown to callers.
    pub open spec fn label(self) -> Seq<char> {
        match self {
            Role::Standered => "Standard"@,
            Role::Admin => "Admin"@,
            Role::Unauthenticated => "None"@,
        }
    }
}

/// Strings with the same characters are not known to be the same value, so
/// the conversion states the characters of its result and names no result.
impl FromSpecImpl<Role> for String {
    open spec fn obeys_from_spec() -> bool {
        false
    }

    open spec fn from_spec(data: Role) -> String {
        arbitrary()
    }
}

impl From<Role> for String {
    /// The name under which the role is shown to callers.
    fn from(data: Role) -> (label: String)
        ensures
            label@ == data.label(),
    {
        match data {
            Role::Standered => "Standard".to_owned(),
            Role::Admin => "Admin".to_owned(),
            Role::Unauthenticated => "None".to_owned(),
        }
    }
}

} // verus!
