use vstd::prelude::*;

verus! {

/// One capability. Capabilities combine into a bitmask and are checked
/// independently: no role implies another.
#[derive(Clone, Copy, Debug, PartialEq, Eq, Structural)]
pub enum Role {
    Admin,
    Producer,
    Artist,
}

/// The bit a role occupies in a capability bitmask.
pub open spec fn spec_role_bit(role: Role) -> u8 {
    match role {
        Role::Admin => 1,
        Role::Producer => 2,
        Role::Artist => 4,
    }
}

/// A bitmask grants a role exactly when that role's bit is set.
pub open spec fn spec_has_role(mask: u8, role: Role) -> bool {
    mask & spec_role_bit(role) != 0
}

/// The bit a role occupies in a capability bitmask.
pub fn role_bit(role: Role) -> (b: u8)
    ensures
        b == spec_role_bit(role),
{
    match role {
        Role::Admin => 1,
        Role::Producer => 2,
        Role::Artist => 4,
    }
}

/// Whether a capability bitmask grants the given role.
pub fn has_role(mask: u8, role: Role) -> (granted: bool)
    ensures
        granted == spec_has_role(mask, role),
{
    mask & role_bit(role) != 0
}

} // verus!
