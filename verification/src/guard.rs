//! The authorization guard: only the recorded admin may change a registry.

use crate::error::PayrollError;
use crate::identity::Identity;
use vstd::prelude::*;

verus! {

/// Checks that `caller` is `admin`. Every mutating operation makes this
/// check first, before it touches any state.
pub fn require_admin(admin: &Identity, caller: &Identity) -> (r: Result<(), PayrollError>)
    ensures
        r == if caller@ == admin@ {
            Ok::<(), PayrollError>(())
        } else {
            Err::<(), PayrollError>(PayrollError::Unauthorized)
        },
{
    if caller.same(admin) {
        Ok(())
    } else {
        Err(PayrollError::Unauthorized)
    }
}

} // verus!
