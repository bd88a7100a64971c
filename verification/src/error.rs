//! The reasons for which an operation is refused.

use vstd::prelude::*;

verus! {

/// Why an operation was refused.
///
/// Every refusal leaves the records it was given untouched.
#[derive(Clone, Copy, Debug, PartialEq, Eq, Structural)]
pub enum BetError {
    /// The authority did not sign, or is not the one the record names.
    Unauthorized,
    /// A record is not administered by this service.
    OwnershipMismatch,
    /// The market has not been initialized.
    NotInitialized,
    /// The record has been initialized before.
    AlreadyInitialized,
    /// The betting deadline has passed.
    BettingClosed,
    /// The betting deadline has not been reached yet.
    TooEarly,
    /// The outcome byte is unknown, or the outcome is not allowed here.
    InvalidChoice,
    /// The market already has an outcome.
    OutcomeAlreadySet,
    /// The market has no outcome yet.
    OutcomeStillUnknown,
    /// The position belongs to another market.
    MismatchedMarket,
    /// A record holds too little value for what is asked of it.
    InsufficientFunds,
    /// A record or a request cannot be decoded.
    MalformedData,
    /// A request carries a value that cannot be accepted.
    InvalidInput,
    /// The records contradict the rules that keep them, or an amount would
    /// leave the range of the ledger.
    InvalidState,
}

} // verus!
