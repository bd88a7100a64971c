//! Pari-mutuel wagering escrow.
//!
//! Participants stake value on one side of an event. An arbiter records the
//! outcome once betting has closed, and every participant may then redeem a
//! share of the pooled value that is proportional to their stake, less a fixed
//! commission.
//!
//! The crate holds the settlement rules only: the record layouts, the request
//! decoder, the payout arithmetic and the four state transitions. The ledger
//! that stores the records, the clock and the rent schedule are the host's
//! business; the host hands their readings in as plain values.

pub mod account;
pub mod error;
pub mod instruction;
pub mod laws;
pub mod outcome;
pub mod payout;
pub mod processor;
pub mod pubkey;
pub mod solvency;
pub mod state;
pub mod wire;

pub use account::{Account, AccountState};
pub use error::BetError;
pub use instruction::Instruction;
pub use outcome::{pack_match_outcome, unpack_match_outcome, MatchOutcome};
pub use processor::{
    process_add_bet, process_initialize, process_instruction, process_set_winner,
    process_withdraw,
};
pub use pubkey::{cmp_pubkeys, Pubkey, PUBKEY_BYTES};
pub use state::{Bet, EventBets, Market, Position};
