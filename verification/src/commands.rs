//! What the settings window asks for.

use vstd::prelude::*;

verus! {

/// The permissions that the app has.
#[derive(Clone, Copy, PartialEq, Eq, Debug, Structural)]
pub struct Permissions {
    /// It may type into other apps.
    pub accessibility: bool,
}

/// The permissions that the app has, by what the system says.
pub fn get_permissions(trusted: bool) -> (r: Permissions)
    ensures
        r == (Permissions { accessibility: trusted }),
{
    Permissions { accessibility: trusted }
}

/// What the system permits is what is told.
pub proof fn law_permissions_are_told(trusted: bool, r: Permissions)
    requires
        call_ensures(get_permissions, (trusted,), r),
    ensures
        r.accessibility <==> trusted,
{
}

}
