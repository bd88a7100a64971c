//! The four operations of the escrow.
//!
//! Each operation checks the records it is handed against the rules, one
//! rule after the other. The first rule that is broken decides the error, and
//! nothing is written before every rule has been found to hold. For each
//! operation a spec function tells the error, if there is one, and further
//! spec functions tell what the records hold afterwards if there is none.

use crate::account::{Account, AccountState};
use crate::error::BetError;
use crate::instruction::{parse_instruction, records_taken, Instruction};
use crate::outcome::MatchOutcome;
use crate::payout::{commission, commission_of, compute_payout, payout, within};
use crate::pubkey::{cmp_pubkeys, Pubkey};
use crate::state::{
    lemma_market_round_trip, lemma_position_round_trip, market_bytes, parse_market,
    parse_position, position_bytes, Bet, EventBets, Market, Position,
};
use vstd::prelude::*;

verus! {

/// What the ledger keeps back of a staging record: the balance below which
/// it would not keep a record of that size. It is no part of any stake.
pub const BETS_RENT_EXEMPTION: u64 = 1405920;

/// Why `process_initialize` refuses, if it does.
pub open spec fn initialize_error(
    program_id: Seq<u8>,
    authority: AccountState,
    market: AccountState,
    bets_accepted_until: i64,
    now: i64,
    rent_minimum: u64,
) -> Option<BetError> {
    if !authority.is_signer {
        Some(BetError::Unauthorized)
    } else if parse_market(market.data) is None {
        Some(BetError::MalformedData)
    } else if parse_market(market.data)->0.initialized {
        Some(BetError::AlreadyInitialized)
    } else if market.lamports < rent_minimum {
        Some(BetError::InsufficientFunds)
    } else if market.owner != program_id {
        Some(BetError::OwnershipMismatch)
    } else if bets_accepted_until < now {
        Some(BetError::InvalidInput)
    } else {
        None
    }
}

/// The market that `process_initialize` sets up: open, with empty pools, and
/// with the authority as its arbiter.
pub open spec fn fresh_market(authority: AccountState, bets_accepted_until: i64) -> Market {
    Market {
        initialized: true,
        arbiter: authority.key,
        deadline: bets_accepted_until as int,
        outcome: MatchOutcome::Unknown,
        pool_a: 0,
        pool_b: 0,
    }
}

/// The record of the market after `process_initialize`.
pub open spec fn initialized_market(
    authority: AccountState,
    market: AccountState,
    bets_accepted_until: i64,
) -> AccountState {
    market.holding(market_bytes(fresh_market(authority, bets_accepted_until)))
}

/// The stake that a staging record brings: what it holds above the balance
/// that the ledger keeps back.
pub open spec fn stake_of(staging: AccountState) -> nat {
    (staging.lamports - BETS_RENT_EXEMPTION) as nat
}

/// A market with a stake added to the pool of a team.
pub open spec fn with_stake(market: Market, choice: MatchOutcome, stake: nat) -> Market {
    Market {
        pool_a: if choice == MatchOutcome::TeamA {
            market.pool_a + stake
        } else {
            market.pool_a
        },
        pool_b: if choice == MatchOutcome::TeamB {
            market.pool_b + stake
        } else {
            market.pool_b
        },
        ..market
    }
}

/// Why `process_add_bet` refuses, if it does.
pub open spec fn add_bet_error(
    program_id: Seq<u8>,
    market: AccountState,
    staging: AccountState,
    choice: MatchOutcome,
    now: i64,
) -> Option<BetError> {
    if market.owner != program_id || staging.owner != program_id {
        Some(BetError::OwnershipMismatch)
    } else if parse_market(market.data) is None || parse_position(staging.data) is None {
        Some(BetError::MalformedData)
    } else {
        let found = parse_market(market.data)->0;
        if !found.initialized {
            Some(BetError::NotInitialized)
        } else if parse_position(staging.data)->0.initialized {
            Some(BetError::AlreadyInitialized)
        } else if now > found.deadline {
            Some(BetError::BettingClosed)
        } else if found.outcome != MatchOutcome::Unknown {
            Some(BetError::OutcomeAlreadySet)
        } else if staging.lamports <= BETS_RENT_EXEMPTION {
            Some(BetError::InsufficientFunds)
        } else if choice != MatchOutcome::TeamA && choice != MatchOutcome::TeamB {
            Some(BetError::InvalidChoice)
        } else if with_stake(found, choice, stake_of(staging)).pool_a > u64::MAX || with_stake(
            found,
            choice,
            stake_of(staging),
        ).pool_b > u64::MAX || market.lamports + stake_of(staging) > u64::MAX {
            Some(BetError::InvalidState)
        } else {
            None
        }
    }
}

/// The record of the market after `process_add_bet`: it holds the stake, and
/// the pool of the chosen team has grown by it.
pub open spec fn market_with_bet(
    market: AccountState,
    staging: AccountState,
    choice: MatchOutcome,
) -> AccountState {
    market.holding(
        market_bytes(with_stake(parse_market(market.data)->0, choice, stake_of(staging))),
    ).credited(stake_of(staging))
}

/// The position that `process_add_bet` opens.
pub open spec fn opened_position(
    bettor: AccountState,
    market: AccountState,
    staging: AccountState,
    choice: MatchOutcome,
) -> Position {
    Position {
        initialized: true,
        bettor: bettor.key,
        market: market.key,
        amount: stake_of(staging),
        choice,
    }
}

/// The staging record after `process_add_bet`: it holds the position, and of
/// its value only what the ledger keeps back.
pub open spec fn staging_with_position(
    bettor: AccountState,
    market: AccountState,
    staging: AccountState,
    choice: MatchOutcome,
) -> AccountState {
    staging.holding(position_bytes(opened_position(bettor, market, staging, choice))).debited(
        stake_of(staging),
    )
}

/// The commission that `process_set_winner` moves: that on all the market
/// holds, when the market has no outcome yet, and nothing otherwise.
pub open spec fn commission_due(market: AccountState) -> nat {
    if parse_market(market.data)->0.outcome == MatchOutcome::Unknown {
        commission_of(market.lamports)
    } else {
        0
    }
}

/// Why `process_set_winner` refuses, if it does.
pub open spec fn set_winner_error(
    authority: AccountState,
    market: AccountState,
    result: MatchOutcome,
    now: i64,
) -> Option<BetError> {
    if !authority.is_signer {
        Some(BetError::Unauthorized)
    } else if parse_market(market.data) is None {
        Some(BetError::MalformedData)
    } else {
        let found = parse_market(market.data)->0;
        if !found.initialized {
            Some(BetError::NotInitialized)
        } else if found.arbiter != authority.key {
            Some(BetError::Unauthorized)
        } else if now < found.deadline {
            Some(BetError::TooEarly)
        } else if result == MatchOutcome::Unknown || result == MatchOutcome::Withdrawn {
            Some(BetError::InvalidChoice)
        } else if authority.lamports + commission_due(market) > u64::MAX {
            Some(BetError::InvalidState)
        } else {
            None
        }
    }
}

/// The record of the market after `process_set_winner`: it holds the
/// outcome, and has given up the commission that was due.
pub open spec fn settled_market(market: AccountState, result: MatchOutcome) -> AccountState {
    market.holding(
        market_bytes(Market { outcome: result, ..parse_market(market.data)->0 }),
    ).debited(commission_due(market))
}

/// The record of the arbiter after `process_set_winner`.
pub open spec fn paid_arbiter(authority: AccountState, market: AccountState) -> AccountState {
    authority.credited(commission_due(market))
}

/// What `process_withdraw` pays for a position out of a market, if the two
/// records can be read and the winning pool is not empty.
pub open spec fn payout_due(market: AccountState, position: AccountState) -> Option<nat> {
    payout(
        parse_market(market.data)->0.outcome,
        parse_position(position.data)->0.choice,
        parse_position(position.data)->0.amount,
        parse_market(market.data)->0.pool_a,
        parse_market(market.data)->0.pool_b,
    )
}

/// Why `process_withdraw` refuses, if it does.
pub open spec fn withdraw_error(
    program_id: Seq<u8>,
    bettor: AccountState,
    market: AccountState,
    position: AccountState,
) -> Option<BetError> {
    if market.owner != program_id {
        Some(BetError::OwnershipMismatch)
    } else if parse_market(market.data) is None || parse_position(position.data) is None {
        Some(BetError::MalformedData)
    } else {
        let found = parse_market(market.data)->0;
        let wager = parse_position(position.data)->0;
        if wager.market != market.key {
            Some(BetError::MismatchedMarket)
        } else if wager.bettor != bettor.key {
            Some(BetError::Unauthorized)
        } else if found.outcome == MatchOutcome::Unknown {
            Some(BetError::OutcomeStillUnknown)
        } else if wager.choice == MatchOutcome::Withdrawn {
            Some(BetError::InvalidChoice)
        } else if payout_due(market, position) is None {
            Some(BetError::InvalidState)
        } else if payout_due(market, position)->0 > market.lamports {
            Some(BetError::InsufficientFunds)
        } else if bettor.lamports + payout_due(market, position)->0 > u64::MAX {
            Some(BetError::InvalidState)
        } else {
            None
        }
    }
}

/// The record of the position after `process_withdraw`: its choice has given
/// way to the marker `Withdrawn`.
pub open spec fn withdrawn_position(position: AccountState) -> AccountState {
    position.holding(
        position_bytes(
            Position { choice: MatchOutcome::Withdrawn, ..parse_position(position.data)->0 },
        ),
    )
}

/// Sets up a market.
///
/// The authority must have signed. The record must hold a market that has
/// not been set up, be administered by this service, and hold at least
/// `rent_minimum`, the balance below which the ledger would not keep a record
/// of its size. The deadline must not lie before `now`. The market is then
/// open, with empty pools, and the authority is its arbiter. No value moves.
pub fn process_initialize(
    program_id: &Pubkey,
    bets_accepted_until: i64,
    authority: &Account,
    market: &mut Account,
    now: i64,
    rent_minimum: u64,
) -> (done: Result<(), BetError>)
    ensures
        match initialize_error(
            program_id@,
            authority@,
            old(market)@,
            bets_accepted_until,
            now,
            rent_minimum,
        ) {
            Some(e) => done == Err::<(), BetError>(e) && final(market)@ == old(market)@,
            None => done is Ok && final(market)@ == initialized_market(
                authority@,
                old(market)@,
                bets_accepted_until,
            ),
        },
        done is Err ==> final(market)@ == old(market)@,
        final(market)@.lamports == old(market)@.lamports,
{
    if !authority.is_signer {
        return Err(BetError::Unauthorized);
    }
    let found = match EventBets::deserialize(market.data.as_slice()) {
        Ok(found) => found,
        Err(e) => {
            return Err(e);
        },
    };
    if found.is_initialized {
        return Err(BetError::AlreadyInitialized);
    }
    if market.lamports < rent_minimum {
        return Err(BetError::InsufficientFunds);
    }
    if !cmp_pubkeys(program_id, &market.owner) {
        return Err(BetError::OwnershipMismatch);
    }
    if bets_accepted_until < now {
        return Err(BetError::InvalidInput);
    }
    let bets = EventBets {
        is_initialized: true,
        arbiter: authority.key,
        bets_allowed_until_ts: bets_accepted_until,
        outcome: MatchOutcome::Unknown,
        balance_a: 0,
        balance_b: 0,
    };
    let mut image: Vec<u8> = Vec::new();
    bets.serialize(&mut image);
    proof {
        lemma_market_round_trip(bets@, Seq::empty());
    }
    market.store(&image);
    Ok(())
}

/// Places a bet.
///
/// The market and the staging record must be administered by this service.
/// The market must have been set up, must not have reached its deadline and
/// must have no outcome yet. The staging record must not hold a position
/// already, and must hold more than the ledger keeps back of it: what it
/// holds above that is the stake. The choice must be one of the two teams.
///
/// The stake then moves from the staging record to the market and is added
/// to the pool of the chosen team, and the staging record holds the position
/// of the bettor. A stake that would take the pool or the market out of the
/// range of the ledger is refused as `InvalidState`.
pub fn process_add_bet(
    program_id: &Pubkey,
    bettor: &Account,
    market: &mut Account,
    staging: &mut Account,
    choice: MatchOutcome,
    now: i64,
) -> (done: Result<(), BetError>)
    ensures
        match add_bet_error(program_id@, old(market)@, old(staging)@, choice, now) {
            Some(e) => done == Err::<(), BetError>(e) && final(market)@ == old(market)@
                && final(staging)@ == old(staging)@,
            None => done is Ok && final(market)@ == market_with_bet(
                old(market)@,
                old(staging)@,
                choice,
            ) && final(staging)@ == staging_with_position(
                bettor@,
                old(market)@,
                old(staging)@,
                choice,
            ),
        },
        done is Err ==> final(market)@ == old(market)@ && final(staging)@ == old(staging)@,
        parse_market(old(market)@.data) is Some && now > parse_market(
            old(market)@.data,
        )->0.deadline ==> done is Err,
        old(market)@.owner == program_id@ && old(staging)@.owner == program_id@ && parse_market(
            old(market)@.data,
        ) is Some && parse_market(old(market)@.data)->0.initialized && parse_position(
            old(staging)@.data,
        ) is Some && !parse_position(old(staging)@.data)->0.initialized && now > parse_market(
            old(market)@.data,
        )->0.deadline ==> done == Err::<(), BetError>(BetError::BettingClosed),
{
    if !cmp_pubkeys(program_id, &market.owner) {
        return Err(BetError::OwnershipMismatch);
    }
    if !cmp_pubkeys(program_id, &staging.owner) {
        return Err(BetError::OwnershipMismatch);
    }
    let mut bets = match EventBets::deserialize(market.data.as_slice()) {
        Ok(bets) => bets,
        Err(e) => {
            return Err(e);
        },
    };
    let empty = match Bet::deserialize(staging.data.as_slice()) {
        Ok(empty) => empty,
        Err(e) => {
            return Err(e);
        },
    };
    if !bets.is_initialized {
        return Err(BetError::NotInitialized);
    }
    if empty.is_initialized {
        return Err(BetError::AlreadyInitialized);
    }
    if now > bets.bets_allowed_until_ts {
        return Err(BetError::BettingClosed);
    }
    if bets.outcome != MatchOutcome::Unknown {
        return Err(BetError::OutcomeAlreadySet);
    }
    if staging.lamports <= BETS_RENT_EXEMPTION {
        return Err(BetError::InsufficientFunds);
    }
    let amount: u64 = staging.lamports - BETS_RENT_EXEMPTION;
    let pool: u64 = match choice {
        MatchOutcome::TeamA => bets.balance_a,
        MatchOutcome::TeamB => bets.balance_b,
        _ => {
            return Err(BetError::InvalidChoice);
        },
    };
    let grown: u64 = match pool.checked_add(amount) {
        Some(grown) => grown,
        None => {
            return Err(BetError::InvalidState);
        },
    };
    let held: u64 = match market.lamports.checked_add(amount) {
        Some(held) => held,
        None => {
            return Err(BetError::InvalidState);
        },
    };
    match choice {
        MatchOutcome::TeamA => {
            bets.balance_a = grown;
        },
        _ => {
            bets.balance_b = grown;
        },
    }
    let this_bet = Bet {
        is_initialized: true,
        betor: bettor.key,
        event: market.key,
        amount,
        outcome: choice,
    };
    let mut market_image: Vec<u8> = Vec::new();
    bets.serialize(&mut market_image);
    let mut bet_image: Vec<u8> = Vec::new();
    this_bet.serialize(&mut bet_image);
    proof {
        lemma_market_round_trip(bets@, Seq::empty());
        lemma_position_round_trip(this_bet@, Seq::empty());
    }
    market.store(&market_image);
    market.lamports = held;
    staging.store(&bet_image);
    staging.lamports = BETS_RENT_EXEMPTION;
    Ok(())
}

/// Records the outcome of the event.
///
/// The authority must have signed and be the arbiter of the market, which
/// must have been set up and have reached its deadline. The outcome must be
/// a team or a draw.
///
/// The market then holds the outcome. If it held none before, the commission
/// on all that the market holds moves to the arbiter. If it held one, that
/// one is replaced and no value moves. A commission that would take the
/// arbiter out of the range of the ledger is refused as `InvalidState`.
pub fn process_set_winner(
    authority: &mut Account,
    market: &mut Account,
    result: MatchOutcome,
    now: i64,
) -> (done: Result<(), BetError>)
    ensures
        match set_winner_error(old(authority)@, old(market)@, result, now) {
            Some(e) => done == Err::<(), BetError>(e) && final(market)@ == old(market)@
                && final(authority)@ == old(authority)@,
            None => done is Ok && final(market)@ == settled_market(old(market)@, result)
                && final(authority)@ == paid_arbiter(old(authority)@, old(market)@),
        },
        done is Err ==> final(market)@ == old(market)@ && final(authority)@ == old(authority)@,
        parse_market(old(market)@.data) is Some && parse_market(
            old(market)@.data,
        )->0.initialized && parse_market(old(market)@.data)->0.arbiter != old(authority)@.key
            ==> done == Err::<(), BetError>(BetError::Unauthorized),
{
    if !authority.is_signer {
        return Err(BetError::Unauthorized);
    }
    let mut bets = match EventBets::deserialize(market.data.as_slice()) {
        Ok(bets) => bets,
        Err(e) => {
            return Err(e);
        },
    };
    if !bets.is_initialized {
        return Err(BetError::NotInitialized);
    }
    if !cmp_pubkeys(&bets.arbiter, &authority.key) {
        return Err(BetError::Unauthorized);
    }
    if now < bets.bets_allowed_until_ts {
        return Err(BetError::TooEarly);
    }
    if result == MatchOutcome::Unknown || result == MatchOutcome::Withdrawn {
        return Err(BetError::InvalidChoice);
    }
    let fee: u64 = if bets.outcome == MatchOutcome::Unknown {
        commission(market.lamports)
    } else {
        0
    };
    let earned: u64 = match authority.lamports.checked_add(fee) {
        Some(earned) => earned,
        None => {
            return Err(BetError::InvalidState);
        },
    };
    bets.outcome = result;
    let mut image: Vec<u8> = Vec::new();
    bets.serialize(&mut image);
    proof {
        lemma_market_round_trip(bets@, Seq::empty());
    }
    market.store(&image);
    market.lamports = market.lamports - fee;
    authority.lamports = earned;
    Ok(())
}

/// Pays a position out.
///
/// The market must be administered by this service and have an outcome. The
/// position must have been placed on this market by this bettor, and must
/// not have been paid out before. The bettor need not have signed: anyone
/// may have the rightful bettor paid.
///
/// What `payout` gives for the position then moves from the market to the
/// bettor, and the position is marked as withdrawn. The market must hold
/// that much. A position that won out of an empty pool, and a payout that
/// would take the bettor out of the range of the ledger, are refused as
/// `InvalidState`.
pub fn process_withdraw(
    program_id: &Pubkey,
    bettor: &mut Account,
    market: &mut Account,
    position: &mut Account,
) -> (done: Result<(), BetError>)
    ensures
        match withdraw_error(program_id@, old(bettor)@, old(market)@, old(position)@) {
            Some(e) => done == Err::<(), BetError>(e) && final(bettor)@ == old(bettor)@
                && final(market)@ == old(market)@ && final(position)@ == old(position)@,
            None => done is Ok && final(bettor)@ == old(bettor)@.credited(
                payout_due(old(market)@, old(position)@)->0,
            ) && final(market)@ == old(market)@.debited(
                payout_due(old(market)@, old(position)@)->0,
            ) && final(position)@ == withdrawn_position(old(position)@),
        },
        done is Err ==> final(bettor)@ == old(bettor)@ && final(market)@ == old(market)@
            && final(position)@ == old(position)@,
{
    if !cmp_pubkeys(program_id, &market.owner) {
        return Err(BetError::OwnershipMismatch);
    }
    let bets = match EventBets::deserialize(market.data.as_slice()) {
        Ok(bets) => bets,
        Err(e) => {
            return Err(e);
        },
    };
    let mut this_bet = match Bet::deserialize(position.data.as_slice()) {
        Ok(this_bet) => this_bet,
        Err(e) => {
            return Err(e);
        },
    };
    if !cmp_pubkeys(&market.key, &this_bet.event) {
        return Err(BetError::MismatchedMarket);
    }
    if !cmp_pubkeys(&this_bet.betor, &bettor.key) {
        return Err(BetError::Unauthorized);
    }
    if bets.outcome == MatchOutcome::Unknown {
        return Err(BetError::OutcomeStillUnknown);
    }
    if this_bet.outcome == MatchOutcome::Withdrawn {
        return Err(BetError::InvalidChoice);
    }
    let withdraw_balance: u128 = match compute_payout(
        bets.outcome,
        this_bet.outcome,
        this_bet.amount,
        bets.balance_a,
        bets.balance_b,
    ) {
        Ok(withdraw_balance) => withdraw_balance,
        Err(e) => {
            return Err(e);
        },
    };
    let paid: u64 = match within(withdraw_balance, market.lamports) {
        Some(paid) => paid,
        None => {
            return Err(BetError::InsufficientFunds);
        },
    };
    let credited: u64 = match bettor.lamports.checked_add(paid) {
        Some(credited) => credited,
        None => {
            return Err(BetError::InvalidState);
        },
    };
    this_bet.outcome = MatchOutcome::Withdrawn;
    let mut image: Vec<u8> = Vec::new();
    this_bet.serialize(&mut image);
    proof {
        lemma_position_round_trip(this_bet@, Seq::empty());
    }
    position.store(&image);
    market.lamports = market.lamports - paid;
    bettor.lamports = credited;
    Ok(())
}

/// The records of a request, each as the rules speak of it.
pub open spec fn states(accounts: Seq<Account>) -> Seq<AccountState> {
    accounts.map_values(|account: Account| account@)
}

/// What `process_instruction` makes of a request: the records as they are
/// afterwards, or the reason for which the request is refused.
///
/// Each operation takes its records from the front of the list, in the order
/// that `Instruction` gives, and leaves the others alone. A request that
/// brings fewer records than its operation takes is malformed.
pub open spec fn processed(
    program_id: Seq<u8>,
    accounts: Seq<AccountState>,
    input: Seq<u8>,
    now: i64,
    rent_minimum: u64,
) -> Result<Seq<AccountState>, BetError> {
    match parse_instruction(input) {
        Err(e) => Err(e),
        Ok(instruction) => if accounts.len() < records_taken(instruction) {
            Err(BetError::MalformedData)
        } else {
            match instruction {
                Instruction::Initialize { bets_accepted_until } => {
                    match initialize_error(
                        program_id,
                        accounts[0],
                        accounts[1],
                        bets_accepted_until,
                        now,
                        rent_minimum,
                    ) {
                        Some(e) => Err(e),
                        None => Ok(
                            accounts.update(
                                1,
                                initialized_market(accounts[0], accounts[1], bets_accepted_until),
                            ),
                        ),
                    }
                },
                Instruction::AddBet { choice } => {
                    match add_bet_error(program_id, accounts[1], accounts[2], choice, now) {
                        Some(e) => Err(e),
                        None => Ok(
                            accounts.update(
                                1,
                                market_with_bet(accounts[1], accounts[2], choice),
                            ).update(
                                2,
                                staging_with_position(
                                    accounts[0],
                                    accounts[1],
                                    accounts[2],
                                    choice,
                                ),
                            ),
                        ),
                    }
                },
                Instruction::SetWinner { result } => {
                    match set_winner_error(accounts[0], accounts[1], result, now) {
                        Some(e) => Err(e),
                        None => Ok(
                            accounts.update(0, paid_arbiter(accounts[0], accounts[1])).update(
                                1,
                                settled_market(accounts[1], result),
                            ),
                        ),
                    }
                },
                Instruction::Withdraw => {
                    match withdraw_error(program_id, accounts[0], accounts[1], accounts[2]) {
                        Some(e) => Err(e),
                        None => Ok(
                            accounts.update(
                                0,
                                accounts[0].credited(payout_due(accounts[1], accounts[2])->0),
                            ).update(
                                1,
                                accounts[1].debited(payout_due(accounts[1], accounts[2])->0),
                            ).update(2, withdrawn_position(accounts[2])),
                        ),
                    }
                },
            }
        },
    }
}

/// Carries out a request on the records that come with it.
///
/// `now` is the time of the ledger. `rent_minimum` is the balance below which
/// the ledger would not keep the second record; only `Initialize` asks for
/// it. A request that is refused leaves every record as it was.
pub fn process_instruction(
    program_id: &Pubkey,
    accounts: &mut [Account],
    instruction_data: &[u8],
    now: i64,
    rent_minimum: u64,
) -> (done: Result<(), BetError>)
    ensures
        match processed(
            program_id@,
            states(old(accounts)@),
            instruction_data@,
            now,
            rent_minimum,
        ) {
            Ok(after) => done is Ok && states(final(accounts)@) == after,
            Err(e) => done == Err::<(), BetError>(e) && states(final(accounts)@) == states(
                old(accounts)@,
            ),
        },
{
    let instruction = match Instruction::unpack(instruction_data) {
        Ok(instruction) => instruction,
        Err(e) => {
            return Err(e);
        },
    };
    if accounts.len() < instruction.accounts_taken() {
        return Err(BetError::MalformedData);
    }
    let (first, rest) = accounts.split_at_mut(1);
    match instruction {
        Instruction::Initialize { bets_accepted_until } => {
            process_initialize(
                program_id,
                bets_accepted_until,
                &first[0],
                &mut rest[0],
                now,
                rent_minimum,
            )
        },
        Instruction::AddBet { choice } => {
            let (second, rest) = rest.split_at_mut(1);
            process_add_bet(program_id, &first[0], &mut second[0], &mut rest[0], choice, now)
        },
        Instruction::SetWinner { result } => {
            process_set_winner(&mut first[0], &mut rest[0], result, now)
        },
        Instruction::Withdraw => {
            let (second, rest) = rest.split_at_mut(1);
            process_withdraw(program_id, &mut first[0], &mut second[0], &mut rest[0])
        },
    }
}

} // verus!
