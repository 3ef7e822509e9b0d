//! The authorization claims the identity provider attaches to a session:
//! per-client roles, of which only the admin role carries meaning here.

use vstd::prelude::*;

verus! {

/// A role granted to the calling user for this service's client.
#[derive(Clone, Copy, Debug, PartialEq, Eq, Structural, Hash)]
pub enum Role {
    Admin,
}

/// The roles granted for this service's client.
#[derive(Clone, Debug, PartialEq, Eq)]
pub struct ClientRoles {
    pub roles: Vec<Role>,
}

/// The per-client role map, reduced to the one client this service reads.
#[derive(Clone, Debug, PartialEq, Eq)]
pub struct ResourceAccess {
    pub tortoaster: ClientRoles,
}

/// The additional claims of a session token.
#[derive(Clone, Debug, PartialEq, Eq)]
pub struct AppClaims {
    pub resource_access: ResourceAccess,
}

impl AppClaims {
    /// Whether the admin role was granted.
    #[verifier::loop_isolation(false)]
    pub fn is_admin(&self) -> (r: bool)
        ensures
            r == self.resource_access.tortoaster.roles@.contains(Role::Admin),
    {
        let roles = &self.resource_access.tortoaster.roles;
        let mut k: usize = 0;
        while k < roles.len()
            invariant
                k <= roles@.len(),
                forall|m: int| 0 <= m < k ==> roles@[m] != Role::Admin,
            decreases roles@.len() - k,
        {
            if roles[k] == Role::Admin {
                proof {
                    assert(self.resource_access.tortoaster.roles@.contains(Role::Admin)) by {
                        assert(self.resource_access.tortoaster.roles@[k as int] == Role::Admin);
                    }
                }
                return true;
            }
            k = k + 1;
        }
        false
    }
}

} // verus!
