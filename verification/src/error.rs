//! The ways in which a payroll operation fails.

use vstd::prelude::*;

verus! {

/// Why an operation was rejected. A rejected operation changes nothing.
#[derive(Clone, Copy, Debug, PartialEq, Eq, Structural)]
pub enum PayrollError {
    /// The caller is not the admin recorded in the registry.
    Unauthorized,
    /// No registry, or no employee record, is found where the operation looks.
    NotFound,
    /// The storage address that the operation would create is taken.
    AlreadyExists,
    /// The registry's byte budget, or its id counter, is exhausted.
    CapacityExceeded,
    /// The balance does not cover the transfer, or the receiver cannot hold it.
    TransferFailure,
    /// The seeds admit no storage address.
    InvalidSeeds,
}

} // verus!
