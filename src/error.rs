use vstd::prelude::*;

verus! {

/// Why an invocation was refused. Each one leaves the storage untouched.
#[derive(Debug, Clone, Copy, PartialEq, Eq, Structural)]
pub enum ReviewError {
    /// The instruction bytes are truncated, malformed or carry an unknown tag.
    DecodeError,
    /// Fewer accounts were supplied than the operation reads.
    NotEnoughAccounts,
    /// The owner did not sign.
    MissingSignature,
    /// The storage account is not the address derived from the owner and seed.
    InvalidAddress,
    /// An add found a record already populated.
    AlreadyInitialized,
    /// An update found no populated record.
    NotInitialized,
    /// The storage account is not owned by this program.
    IllegalOwner,
    /// The rating lies outside one to ten.
    InvalidRating,
    /// The record does not fit its storage buffer.
    SerializationOverflow,
    /// The storage buffer does not hold a record.
    InvalidAccountData,
}

} // verus!
