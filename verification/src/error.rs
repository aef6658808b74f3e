//! Error taxonomy of the deposit operation. Every error aborts the whole
//! operation; the handler guarantees that no state is mutated on any of them.

use vstd::prelude::*;

verus! {

/// Why a deposit was rejected. Each variant corresponds to one check of the
/// deposit handler; the handler's contract says exactly which inputs produce
/// which variant.
#[derive(Clone, Copy, Debug, PartialEq, Eq, Structural)]
pub enum DepositError {
    /// Fewer or more than the four expected accounts were supplied.
    NotEnoughAccountKeys,
    /// The payer account did not sign the transaction.
    MissingRequiredSignature,
    /// The pool state or vault account is not writable.
    NotWritable,
    /// The instruction payload does not have the fixed expected length.
    MalformedPayload,
    /// The deposit amount is zero; zero-value deposits would let a caller
    /// mutate the accumulator at no economic cost, so they are rejected.
    ZeroAmount,
    /// The pool state or vault address does not equal its deterministic
    /// derivation from the program identity.
    AddressMismatch,
    /// The pool state or vault account is not owned by this program.
    InvalidOwner,
    /// The pool state account has not been initialized yet.
    Uninitialized,
    /// The fund transfer cannot be performed: the payer balance is too low,
    /// or the vault balance would overflow.
    TransferFailed,
    /// The accumulator is at capacity; no further leaf can be inserted.
    TreeFull,
}

} // verus!
