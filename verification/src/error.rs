//! The error taxonomy of the hub's operations.

use vstd::prelude::*;

verus! {

/// Why a transfer record failed payment validation.
#[derive(Clone, Copy, PartialEq, Eq, Structural, Debug)]
pub enum ValidationReason {
    /// The recipient subaccount is not the shop's derived subaccount.
    SubaccountMismatch,
    /// The transfer memo is not the invoice's derived memo.
    MemoMismatch,
    /// The transferred amount is below the owed amount minus the tolerance.
    InsufficientAmount,
}

/// The hub's operation errors.
#[derive(Clone, Copy, PartialEq, Eq, Structural, Debug)]
pub enum Error {
    /// No entry with the given id.
    NotFound,
    /// The caller is not allowed to perform the operation.
    AccessDenied,
    /// The operation is not valid for the invoice's current status.
    InvalidState,
    /// The transfer recipient is not this hub: the funds cannot be recovered
    /// by retrying.
    FundsAtRisk,
    /// The transfer record fails one of the payment checks.
    ValidationFailed(ValidationReason),
    /// A freshly derived invoice id is already in use.  With a cryptographic
    /// hash behind the id generator this is never expected to occur.
    IdCollision,
    /// An external service call failed; the operation may be retried.
    ExternalCallFailed,
}

} // verus!
