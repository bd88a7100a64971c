//! Requests: the operation that is asked for, and how it is written in bytes.

use crate::error::BetError;
use crate::outcome::{event_outcome_of_code, unpack_match_outcome, MatchOutcome};
use crate::wire::{i64_of_bits, le_value, read_i64};
use vstd::prelude::*;

verus! {

/// An operation on the records that come with the request.
#[derive(Clone, Copy, Debug, PartialEq, Eq, Structural)]
pub enum Instruction {
    /// Sets up an empty market.
    ///
    /// Records: the authority, who signs and becomes the arbiter; the market.
    Initialize { bets_accepted_until: i64 },
    /// Places a bet.
    ///
    /// Records: the bettor; the market; the staging record, which holds the
    /// stake and becomes the position.
    AddBet { choice: MatchOutcome },
    /// Records the outcome of the event.
    ///
    /// Records: the arbiter, who signs; the market.
    SetWinner { result: MatchOutcome },
    /// Pays a position out.
    ///
    /// Records: the bettor, who need not sign; the market; the position.
    Withdraw,
}

/// The request that a byte string holds.
///
/// The first byte selects the operation. `Initialize` (0) is followed by the
/// deadline, eight bytes of a signed little-endian number. `AddBet` (1) and
/// `SetWinner` (2) are followed by the code of an outcome of an event.
/// `Withdraw` (3) is followed by nothing. Bytes behind the request are not
/// looked at.
pub open spec fn parse_instruction(input: Seq<u8>) -> Result<Instruction, BetError> {
    if input.len() == 0 {
        Err(BetError::MalformedData)
    } else if input[0] == 0 {
        if input.len() < 9 {
            Err(BetError::MalformedData)
        } else {
            Ok(
                Instruction::Initialize {
                    bets_accepted_until: i64_of_bits(le_value(input.subrange(1, 9))) as i64,
                },
            )
        }
    } else if input[0] == 1 {
        if input.len() < 2 {
            Err(BetError::MalformedData)
        } else if event_outcome_of_code(input[1]) is None {
            Err(BetError::InvalidChoice)
        } else {
            Ok(Instruction::AddBet { choice: event_outcome_of_code(input[1])->0 })
        }
    } else if input[0] == 2 {
        if input.len() < 2 {
            Err(BetError::MalformedData)
        } else if event_outcome_of_code(input[1]) is None {
            Err(BetError::InvalidChoice)
        } else {
            Ok(Instruction::SetWinner { result: event_outcome_of_code(input[1])->0 })
        }
    } else if input[0] == 3 {
        Ok(Instruction::Withdraw)
    } else {
        Err(BetError::MalformedData)
    }
}

/// How many records an operation takes from the front of those that come
/// with the request.
pub open spec fn records_taken(instruction: Instruction) -> nat {
    match instruction {
        Instruction::Initialize { .. } => 2,
        Instruction::AddBet { .. } => 3,
        Instruction::SetWinner { .. } => 2,
        Instruction::Withdraw => 3,
    }
}

impl Instruction {
    /// How many records the operation takes.
    pub fn accounts_taken(&self) -> (count: usize)
        ensures
            count == records_taken(*self),
    {
        match self {
            Instruction::Initialize { .. } => 2,
            Instruction::AddBet { .. } => 3,
            Instruction::SetWinner { .. } => 2,
            Instruction::Withdraw => 3,
        }
    }

    /// Reads a request.
    pub fn unpack(input: &[u8]) -> (parsed: Result<Instruction, BetError>)
        ensures
            parsed == parse_instruction(input@),
    {
        if input.len() == 0 {
            return Err(BetError::MalformedData);
        }
        let tag: u8 = input[0];
        match tag {
            0 => {
                if input.len() < 9 {
                    Err(BetError::MalformedData)
                } else {
                    Ok(Instruction::Initialize { bets_accepted_until: read_i64(input, 1) })
                }
            },
            1 => {
                if input.len() < 2 {
                    Err(BetError::MalformedData)
                } else {
                    match unpack_match_outcome(input[1]) {
                        Ok(choice) => Ok(Instruction::AddBet { choice }),
                        Err(_) => Err(BetError::InvalidChoice),
                    }
                }
            },
            2 => {
                if input.len() < 2 {
                    Err(BetError::MalformedData)
                } else {
                    match unpack_match_outcome(input[1]) {
                        Ok(result) => Ok(Instruction::SetWinner { result }),
                        Err(_) => Err(BetError::InvalidChoice),
                    }
                }
            },
            3 => Ok(Instruction::Withdraw),
            _ => Err(BetError::MalformedData),
        }
    }
}

} // verus!
