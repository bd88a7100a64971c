//! The two records of the escrow, a market and a position, and their byte
//! layouts.

use crate::error::BetError;
use crate::outcome::{
    event_outcome_of_code, outcome_code, outcome_of_code, pack_match_outcome,
    unpack_match_outcome, MatchOutcome,
};
use crate::pubkey::Pubkey;
use crate::wire::{
    bits_of_i64, i64_of_bits, le_bytes, le_value, lemma_le_bytes_len,
    lemma_le_bytes_of_le_value, lemma_le_value_bound, lemma_le_value_of_le_bytes,
    lemma_pow256_8, read_i64, read_pubkey, read_u64, write_i64, write_pubkey, write_u64,
};
use vstd::prelude::*;

verus! {

/// The number of bytes that a market takes in its record.
pub const EVENT_BETS_LEN: usize = 58;

/// The number of bytes that a position takes in its record.
pub const BET_LEN: usize = 74;

/// A market, as the rules speak of it: one event that is bet on.
pub struct Market {
    /// Whether the market has been set up.
    pub initialized: bool,
    /// The identity that alone may record the outcome.
    pub arbiter: Seq<u8>,
    /// The last moment at which a bet is taken.
    pub deadline: int,
    /// The outcome, `Unknown` until the arbiter has recorded one.
    pub outcome: MatchOutcome,
    /// The value staked on team A.
    pub pool_a: nat,
    /// The value staked on team B.
    pub pool_b: nat,
}

/// A position, as the rules speak of it: one wager of one bettor.
pub struct Position {
    /// Whether the position has been opened.
    pub initialized: bool,
    /// The identity that is paid.
    pub bettor: Seq<u8>,
    /// The key of the market that the wager was placed on.
    pub market: Seq<u8>,
    /// The value staked.
    pub amount: nat,
    /// The outcome that was bet on, `Withdrawn` once the position is paid.
    pub choice: MatchOutcome,
}

impl Market {
    /// What holds of every market that a record can carry.
    pub open spec fn valid(self) -> bool {
        &&& self.arbiter.len() == 32
        &&& i64::MIN <= self.deadline <= i64::MAX
        &&& self.outcome != MatchOutcome::Withdrawn
        &&& self.pool_a <= u64::MAX
        &&& self.pool_b <= u64::MAX
    }
}

impl Position {
    /// What holds of every position that a record can carry.
    pub open spec fn valid(self) -> bool {
        &&& self.bettor.len() == 32
        &&& self.market.len() == 32
        &&& self.amount <= u64::MAX
    }
}

/// The byte that stands for a flag.
pub open spec fn flag_code(flag: bool) -> u8 {
    if flag {
        1
    } else {
        0
    }
}

/// The layout of a market: the flag, the arbiter, the deadline as a signed
/// little-endian number, the code of the outcome, and the two pools as
/// unsigned little-endian numbers.
pub open spec fn market_bytes(market: Market) -> Seq<u8> {
    seq![flag_code(market.initialized)] + market.arbiter + le_bytes(
        bits_of_i64(market.deadline),
        8,
    ) + seq![outcome_code(market.outcome)] + le_bytes(market.pool_a, 8) + le_bytes(
        market.pool_b,
        8,
    )
}

/// The layout of a position: the flag, the bettor, the market, the amount as
/// an unsigned little-endian number, and the code of the choice.
pub open spec fn position_bytes(position: Position) -> Seq<u8> {
    seq![flag_code(position.initialized)] + position.bettor + position.market + le_bytes(
        position.amount,
        8,
    ) + seq![outcome_code(position.choice)]
}

/// The market that a record holds in its first 58 bytes. There is none where
/// the record is shorter, where the flag is neither 0 nor 1, or where the
/// outcome byte is not the code of an outcome of an event.
pub open spec fn parse_market(data: Seq<u8>) -> Option<Market> {
    if data.len() >= 58 && data[0] <= 1 && event_outcome_of_code(data[41]) is Some {
        Some(
            Market {
                initialized: data[0] == 1,
                arbiter: data.subrange(1, 33),
                deadline: i64_of_bits(le_value(data.subrange(33, 41))),
                outcome: event_outcome_of_code(data[41])->0,
                pool_a: le_value(data.subrange(42, 50)),
                pool_b: le_value(data.subrange(50, 58)),
            },
        )
    } else {
        None
    }
}

/// The position that a record holds in its first 74 bytes. There is none
/// where the record is shorter, where the flag is neither 0 nor 1, or where
/// the last byte is not the code of an outcome.
pub open spec fn parse_position(data: Seq<u8>) -> Option<Position> {
    if data.len() >= 74 && data[0] <= 1 && outcome_of_code(data[73]) is Some {
        Some(
            Position {
                initialized: data[0] == 1,
                bettor: data.subrange(1, 33),
                market: data.subrange(33, 65),
                amount: le_value(data.subrange(65, 73)),
                choice: outcome_of_code(data[73])->0,
            },
        )
    } else {
        None
    }
}

/// The record of one wagering event.
///
/// `Withdrawn` is no outcome of an event: a market that is written with it
/// is not read back.
#[derive(Clone, Copy, Debug, PartialEq, Eq)]
pub struct EventBets {
    /// Whether the market has been set up.
    pub is_initialized: bool,
    /// The identity that alone may record the outcome.
    pub arbiter: Pubkey,
    /// The last moment at which a bet is taken.
    pub bets_allowed_until_ts: i64,
    /// The outcome, `Unknown` until the arbiter has recorded one.
    pub outcome: MatchOutcome,
    /// The value staked on team A.
    pub balance_a: u64,
    /// The value staked on team B.
    pub balance_b: u64,
}

/// The record of one wager.
#[derive(Clone, Copy, Debug, PartialEq, Eq)]
pub struct Bet {
    /// Whether the position has been opened.
    pub is_initialized: bool,
    /// The identity that is paid.
    pub betor: Pubkey,
    /// The key of the market that the wager was placed on.
    pub event: Pubkey,
    /// The value staked.
    pub amount: u64,
    /// The outcome that was bet on, `Withdrawn` once the position is paid.
    pub outcome: MatchOutcome,
}

impl View for EventBets {
    type V = Market;

    open spec fn view(&self) -> Market {
        Market {
            initialized: self.is_initialized,
            arbiter: self.arbiter@,
            deadline: self.bets_allowed_until_ts as int,
            outcome: self.outcome,
            pool_a: self.balance_a as nat,
            pool_b: self.balance_b as nat,
        }
    }
}

impl View for Bet {
    type V = Position;

    open spec fn view(&self) -> Position {
        Position {
            initialized: self.is_initialized,
            bettor: self.betor@,
            market: self.event@,
            amount: self.amount as nat,
            choice: self.outcome,
        }
    }
}

/// Reads a flag: 0 is false, 1 is true, and nothing else is a flag.
fn read_flag(code: u8) -> (flag: Option<bool>)
    ensures
        flag == if code <= 1 {
            Some(code == 1)
        } else {
            None
        },
{
    if code == 0 {
        Some(false)
    } else if code == 1 {
        Some(true)
    } else {
        None
    }
}

/// The byte of a flag.
fn write_flag(flag: bool) -> (code: u8)
    ensures
        code == flag_code(flag),
{
    if flag {
        1
    } else {
        0
    }
}

impl EventBets {
    /// Reads a market from the front of a record. What follows the 58 bytes
    /// of the layout is not looked at.
    pub fn deserialize(buf: &[u8]) -> (parsed: Result<EventBets, BetError>)
        ensures
            match parse_market(buf@) {
                Some(market) => parsed matches Ok(record) && record@ == market,
                None => parsed matches Err(e) && e == BetError::MalformedData,
            },
    {
        if buf.len() < EVENT_BETS_LEN {
            return Err(BetError::MalformedData);
        }
        let is_initialized = match read_flag(buf[0]) {
            Some(flag) => flag,
            None => {
                return Err(BetError::MalformedData);
            },
        };
        let outcome = match unpack_match_outcome(buf[41]) {
            Ok(outcome) => outcome,
            Err(_) => {
                return Err(BetError::MalformedData);
            },
        };
        Ok(
            EventBets {
                is_initialized,
                arbiter: read_pubkey(buf, 1),
                bets_allowed_until_ts: read_i64(buf, 33),
                outcome,
                balance_a: read_u64(buf, 42),
                balance_b: read_u64(buf, 50),
            },
        )
    }

    /// Appends the 58 bytes of the market.
    pub fn serialize(&self, writer: &mut Vec<u8>)
        ensures
            final(writer)@ == old(writer)@ + market_bytes(self@),
    {
        writer.push(write_flag(self.is_initialized));
        write_pubkey(writer, &self.arbiter);
        write_i64(writer, self.bets_allowed_until_ts);
        writer.push(pack_match_outcome(self.outcome));
        write_u64(writer, self.balance_a);
        write_u64(writer, self.balance_b);
    }
}

impl Bet {
    /// Reads a position from the front of a record. What follows the 74
    /// bytes of the layout is not looked at.
    pub fn deserialize(buf: &[u8]) -> (parsed: Result<Bet, BetError>)
        ensures
            match parse_position(buf@) {
                Some(position) => parsed matches Ok(record) && record@ == position,
                None => parsed matches Err(e) && e == BetError::MalformedData,
            },
    {
        if buf.len() < BET_LEN {
            return Err(BetError::MalformedData);
        }
        let is_initialized = match read_flag(buf[0]) {
            Some(flag) => flag,
            None => {
                return Err(BetError::MalformedData);
            },
        };
        let outcome = match MatchOutcome::from_code(buf[73]) {
            Some(outcome) => outcome,
            None => {
                return Err(BetError::MalformedData);
            },
        };
        Ok(
            Bet {
                is_initialized,
                betor: read_pubkey(buf, 1),
                event: read_pubkey(buf, 33),
                amount: read_u64(buf, 65),
                outcome,
            },
        )
    }

    /// Appends the 74 bytes of the position.
    pub fn serialize(&self, writer: &mut Vec<u8>)
        ensures
            final(writer)@ == old(writer)@ + position_bytes(self@),
    {
        writer.push(write_flag(self.is_initialized));
        write_pubkey(writer, &self.betor);
        write_pubkey(writer, &self.event);
        write_u64(writer, self.amount);
        self.outcome.serialize(writer);
    }
}

/// Writing a market and reading it back gives the same market, whatever
/// follows it in the record.
pub proof fn lemma_market_round_trip(market: Market, rest: Seq<u8>)
    requires
        market.valid(),
    ensures
        market_bytes(market).len() == 58,
        parse_market(market_bytes(market) + rest) == Some(market),
{
    let deadline = le_bytes(bits_of_i64(market.deadline), 8);
    let pool_a = le_bytes(market.pool_a, 8);
    let pool_b = le_bytes(market.pool_b, 8);
    lemma_le_bytes_len(bits_of_i64(market.deadline), 8);
    lemma_le_bytes_len(market.pool_a, 8);
    lemma_le_bytes_len(market.pool_b, 8);
    lemma_pow256_8();
    lemma_le_value_of_le_bytes(bits_of_i64(market.deadline), 8);
    lemma_le_value_of_le_bytes(market.pool_a, 8);
    lemma_le_value_of_le_bytes(market.pool_b, 8);
    let data = market_bytes(market) + rest;
    assert(data.subrange(1, 33) =~= market.arbiter);
    assert(data.subrange(33, 41) =~= deadline);
    assert(data.subrange(42, 50) =~= pool_a);
    assert(data.subrange(50, 58) =~= pool_b);
}

/// A record that holds a market holds a valid one, and holds it in the very
/// bytes that writing the market gives.
pub proof fn lemma_market_bytes_of_parse(data: Seq<u8>)
    requires
        parse_market(data) is Some,
    ensures
        parse_market(data)->0.valid(),
        market_bytes(parse_market(data)->0) == data.subrange(0, 58),
{
    let market = parse_market(data)->0;
    let deadline = data.subrange(33, 41);
    let pool_a = data.subrange(42, 50);
    let pool_b = data.subrange(50, 58);
    lemma_pow256_8();
    lemma_le_value_bound(deadline);
    lemma_le_value_bound(pool_a);
    lemma_le_value_bound(pool_b);
    lemma_le_bytes_of_le_value(deadline);
    lemma_le_bytes_of_le_value(pool_a);
    lemma_le_bytes_of_le_value(pool_b);
}

/// Writing a position and reading it back gives the same position, whatever
/// follows it in the record.
pub proof fn lemma_position_round_trip(position: Position, rest: Seq<u8>)
    requires
        position.valid(),
    ensures
        position_bytes(position).len() == 74,
        parse_position(position_bytes(position) + rest) == Some(position),
{
    let amount = le_bytes(position.amount, 8);
    lemma_le_bytes_len(position.amount, 8);
    lemma_pow256_8();
    lemma_le_value_of_le_bytes(position.amount, 8);
    let data = position_bytes(position) + rest;
    assert(data.subrange(1, 33) =~= position.bettor);
    assert(data.subrange(33, 65) =~= position.market);
    assert(data.subrange(65, 73) =~= amount);
}

/// A record that holds a position holds a valid one, and holds it in the
/// very bytes that writing the position gives.
pub proof fn lemma_position_bytes_of_parse(data: Seq<u8>)
    requires
        parse_position(data) is Some,
    ensures
        parse_position(data)->0.valid(),
        position_bytes(parse_position(data)->0) == data.subrange(0, 74),
{
    let position = parse_position(data)->0;
    let amount = data.subrange(65, 73);
    lemma_pow256_8();
    lemma_le_value_bound(amount);
    lemma_le_bytes_of_le_value(amount);
}

} // verus!
