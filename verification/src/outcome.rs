//! The outcome of an event and its one-byte code.

use crate::error::BetError;
use vstd::prelude::*;

verus! {

/// The outcome of an event, as a market records it and as a bettor picks it.
///
/// `Unknown` is what a market holds until the arbiter has decided.
/// `Withdrawn` is never an outcome of an event: it replaces the choice of a
/// position that has been paid out.
#[derive(Clone, Copy, Debug, PartialEq, Eq, Structural)]
pub enum MatchOutcome {
    /// The event is not decided.
    Unknown,
    /// The first team has won.
    TeamA,
    /// The second team has won.
    TeamB,
    /// Neither team has won.
    Draw,
    /// The position has been paid out.
    Withdrawn,
}

/// The byte that stands for an outcome in records and requests.
pub open spec fn outcome_code(value: MatchOutcome) -> u8 {
    match value {
        MatchOutcome::Unknown => 0,
        MatchOutcome::TeamA => 1,
        MatchOutcome::TeamB => 2,
        MatchOutcome::Draw => 3,
        MatchOutcome::Withdrawn => 255,
    }
}

/// The outcome that a byte stands for, if it stands for one.
pub open spec fn outcome_of_code(code: u8) -> Option<MatchOutcome> {
    if code == 0 {
        Some(MatchOutcome::Unknown)
    } else if code == 1 {
        Some(MatchOutcome::TeamA)
    } else if code == 2 {
        Some(MatchOutcome::TeamB)
    } else if code == 3 {
        Some(MatchOutcome::Draw)
    } else if code == 255 {
        Some(MatchOutcome::Withdrawn)
    } else {
        None
    }
}

/// The outcome of an event that a byte stands for: as `outcome_of_code`, but
/// the marker `Withdrawn` is no outcome of an event.
pub open spec fn event_outcome_of_code(code: u8) -> Option<MatchOutcome> {
    if code == 255 {
        None
    } else {
        outcome_of_code(code)
    }
}

/// What `MatchOutcome::deserialize` makes of a buffer.
pub open spec fn parse_outcome(buf: Seq<u8>) -> Result<MatchOutcome, BetError> {
    if buf.len() == 1 && outcome_of_code(buf[0]) is Some {
        Ok(outcome_of_code(buf[0])->0)
    } else {
        Err(BetError::MalformedData)
    }
}

impl Default for MatchOutcome {
    /// No outcome yet.
    fn default() -> (value: Self)
        ensures
            value == MatchOutcome::Unknown,
    {
        MatchOutcome::Unknown
    }
}

impl MatchOutcome {
    /// Appends the code of the outcome to `writer`.
    pub fn serialize(&self, writer: &mut Vec<u8>)
        ensures
            final(writer)@ == old(writer)@.push(outcome_code(*self)),
    {
        writer.push(pack_match_outcome(*self));
    }

    /// Reads an outcome from a buffer that holds its code and nothing else.
    pub fn deserialize(buf: &[u8]) -> (parsed: Result<Self, BetError>)
        ensures
            parsed == parse_outcome(buf@),
    {
        if buf.len() != 1 {
            return Err(BetError::MalformedData);
        }
        match MatchOutcome::from_code(buf[0]) {
            Some(value) => Ok(value),
            None => Err(BetError::MalformedData),
        }
    }

    /// The outcome that a code stands for, the marker `Withdrawn` included.
    pub fn from_code(code: u8) -> (value: Option<Self>)
        ensures
            value == outcome_of_code(code),
    {
        if code == 255 {
            Some(MatchOutcome::Withdrawn)
        } else {
            match unpack_match_outcome(code) {
                Ok(value) => Some(value),
                Err(_) => None,
            }
        }
    }
}

/// The code of an outcome.
pub fn pack_match_outcome(value: MatchOutcome) -> (code: u8)
    ensures
        code == outcome_code(value),
{
    match value {
        MatchOutcome::Unknown => 0,
        MatchOutcome::TeamA => 1,
        MatchOutcome::TeamB => 2,
        MatchOutcome::Draw => 3,
        MatchOutcome::Withdrawn => 255,
    }
}

/// The outcome of an event that a code stands for. The code of `Withdrawn`
/// is refused like any byte that is no code at all.
pub fn unpack_match_outcome(src: u8) -> (unpacked: Result<MatchOutcome, BetError>)
    ensures
        unpacked == match event_outcome_of_code(src) {
            Some(value) => Ok::<MatchOutcome, BetError>(value),
            None => Err(BetError::MalformedData),
        },
{
    match src {
        0 => Ok(MatchOutcome::Unknown),
        1 => Ok(MatchOutcome::TeamA),
        2 => Ok(MatchOutcome::TeamB),
        3 => Ok(MatchOutcome::Draw),
        _ => Err(BetError::MalformedData),
    }
}

/// Packing and unpacking undo each other: every outcome is found again from
/// its code, and a byte that stands for an outcome is the code of that
/// outcome.
pub proof fn lemma_outcome_code_round_trip(value: MatchOutcome, code: u8)
    ensures
        outcome_of_code(outcome_code(value)) == Some(value),
        outcome_of_code(code) == Some(value) ==> outcome_code(value) == code,
        value != MatchOutcome::Withdrawn ==> event_outcome_of_code(outcome_code(value)) == Some(
            value,
        ),
        event_outcome_of_code(code) == Some(value) ==> outcome_code(value) == code && value
            != MatchOutcome::Withdrawn,
{
}

} // verus!
