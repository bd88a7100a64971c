//! What holds of the operations taken together.

use crate::account::AccountState;
use crate::error::BetError;
use crate::instruction::{parse_instruction, Instruction};
use crate::outcome::MatchOutcome;
use crate::processor::{
    add_bet_error, commission_due, fresh_market, initialize_error, initialized_market,
    market_with_bet, opened_position, paid_arbiter, payout_due, processed, set_winner_error,
    settled_market, stake_of, staging_with_position, with_stake, withdraw_error,
    withdrawn_position, BETS_RENT_EXEMPTION,
};
use crate::state::{
    lemma_market_bytes_of_parse, lemma_market_round_trip, lemma_position_bytes_of_parse,
    lemma_position_round_trip, parse_market, parse_position, Market, Position,
};
use vstd::prelude::*;

verus! {

/// One request to place a bet: who bets, the staging record that brings the
/// stake, the team, and the time at which the request is served.
pub struct BetCall {
    /// The record of the bettor.
    pub bettor: AccountState,
    /// The staging record, as it is before the request is served.
    pub staging: AccountState,
    /// The outcome that is bet on.
    pub choice: MatchOutcome,
    /// The time of the ledger when the request is served.
    pub now: i64,
}

/// The record of a market after a run of requests to place a bet, each
/// served on what the one before it left. A request that is refused leaves
/// the record as it was.
pub open spec fn market_after_bets(
    program_id: Seq<u8>,
    market: AccountState,
    calls: Seq<BetCall>,
) -> AccountState
    decreases calls.len(),
{
    if calls.len() == 0 {
        market
    } else {
        let before = market_after_bets(program_id, market, calls.drop_last());
        let call = calls.last();
        if add_bet_error(program_id, before, call.staging, call.choice, call.now) is None {
            market_with_bet(before, call.staging, call.choice)
        } else {
            before
        }
    }
}

/// The positions that a run of requests to place a bet has opened on a
/// market, in the order of the requests.
pub open spec fn positions_opened(
    program_id: Seq<u8>,
    market: AccountState,
    calls: Seq<BetCall>,
) -> Seq<Position>
    decreases calls.len(),
{
    if calls.len() == 0 {
        Seq::empty()
    } else {
        let before = market_after_bets(program_id, market, calls.drop_last());
        let earlier = positions_opened(program_id, market, calls.drop_last());
        let call = calls.last();
        if add_bet_error(program_id, before, call.staging, call.choice, call.now) is None {
            earlier.push(opened_position(call.bettor, before, call.staging, call.choice))
        } else {
            earlier
        }
    }
}

/// The sum of the amounts of the positions that chose `side`.
pub open spec fn staked_on(positions: Seq<Position>, side: MatchOutcome) -> nat
    decreases positions.len(),
{
    if positions.len() == 0 {
        0
    } else if positions.last().choice == side {
        staked_on(positions.drop_last(), side) + positions.last().amount
    } else {
        staked_on(positions.drop_last(), side)
    }
}

/// Whether an open market holds at least what its pools say was staked. Of a
/// market that has an outcome nothing is asked: the commission has left it.
pub open spec fn backed(market: AccountState) -> bool {
    parse_market(market.data) matches Some(found) && (found.outcome == MatchOutcome::Unknown
        ==> found.pool_a + found.pool_b <= market.lamports)
}

/// After `process_initialize` the record holds the market that was set up.
pub proof fn lemma_initialize_writes_market(
    program_id: Seq<u8>,
    authority: AccountState,
    market: AccountState,
    bets_accepted_until: i64,
    now: i64,
    rent_minimum: u64,
)
    requires
        authority.valid(),
        initialize_error(program_id, authority, market, bets_accepted_until, now, rent_minimum)
            is None,
    ensures
        parse_market(initialized_market(authority, market, bets_accepted_until).data) == Some(
            fresh_market(authority, bets_accepted_until),
        ),
{
    lemma_market_round_trip(fresh_market(authority, bets_accepted_until), market.data.skip(58));
}

/// After `process_add_bet` the record of the market holds the market with
/// the stake in the pool of the chosen team.
pub proof fn lemma_add_bet_writes_market(
    program_id: Seq<u8>,
    market: AccountState,
    staging: AccountState,
    choice: MatchOutcome,
    now: i64,
)
    requires
        add_bet_error(program_id, market, staging, choice, now) is None,
    ensures
        parse_market(market_with_bet(market, staging, choice).data) == Some(
            with_stake(parse_market(market.data)->0, choice, stake_of(staging)),
        ),
{
    lemma_market_bytes_of_parse(market.data);
    lemma_market_round_trip(
        with_stake(parse_market(market.data)->0, choice, stake_of(staging)),
        market.data.skip(58),
    );
}

/// After `process_add_bet` the staging record holds the position that was
/// opened.
pub proof fn lemma_add_bet_writes_position(
    program_id: Seq<u8>,
    bettor: AccountState,
    market: AccountState,
    staging: AccountState,
    choice: MatchOutcome,
    now: i64,
)
    requires
        bettor.valid(),
        market.valid(),
        add_bet_error(program_id, market, staging, choice, now) is None,
    ensures
        parse_position(staging_with_position(bettor, market, staging, choice).data) == Some(
            opened_position(bettor, market, staging, choice),
        ),
{
    lemma_position_round_trip(
        opened_position(bettor, market, staging, choice),
        staging.data.skip(74),
    );
}

/// Bets leave a market open: requests to place a bet change neither the
/// outcome of a market, nor its deadline, nor its arbiter.
pub proof fn lemma_bets_keep_outcome(
    program_id: Seq<u8>,
    market: AccountState,
    calls: Seq<BetCall>,
)
    requires
        parse_market(market.data) is Some,
    ensures
        parse_market(market_after_bets(program_id, market, calls).data) is Some,
        parse_market(market_after_bets(program_id, market, calls).data)->0.outcome
            == parse_market(market.data)->0.outcome,
        parse_market(market_after_bets(program_id, market, calls).data)->0.deadline
            == parse_market(market.data)->0.deadline,
        parse_market(market_after_bets(program_id, market, calls).data)->0.arbiter
            == parse_market(market.data)->0.arbiter,
    decreases calls.len(),
{
    if calls.len() > 0 {
        let call = calls.last();
        let before = market_after_bets(program_id, market, calls.drop_last());
        lemma_bets_keep_outcome(program_id, market, calls.drop_last());
        if add_bet_error(program_id, before, call.staging, call.choice, call.now) is None {
            lemma_add_bet_writes_market(program_id, before, call.staging, call.choice, call.now);
        }
    }
}

/// Pools are sums of stakes: whatever requests to place a bet are served on
/// a market, in whatever order and whether they are accepted or refused,
/// each pool grows by the sum of the amounts of the positions that were
/// opened on its team, and every such position names the market.
pub proof fn lemma_pools_grow_by_stakes(
    program_id: Seq<u8>,
    market: AccountState,
    calls: Seq<BetCall>,
)
    requires
        parse_market(market.data) is Some,
    ensures
        parse_market(market_after_bets(program_id, market, calls).data) is Some,
        market_after_bets(program_id, market, calls).key == market.key,
        parse_market(market_after_bets(program_id, market, calls).data)->0.pool_a
            == parse_market(market.data)->0.pool_a + staked_on(
            positions_opened(program_id, market, calls),
            MatchOutcome::TeamA,
        ),
        parse_market(market_after_bets(program_id, market, calls).data)->0.pool_b
            == parse_market(market.data)->0.pool_b + staked_on(
            positions_opened(program_id, market, calls),
            MatchOutcome::TeamB,
        ),
        forall|i: int|
            0 <= i < positions_opened(program_id, market, calls).len() ==> (
            #[trigger] positions_opened(program_id, market, calls)[i]).market == market.key,
    decreases calls.len(),
{
    if calls.len() > 0 {
        let earlier = calls.drop_last();
        let call = calls.last();
        let before = market_after_bets(program_id, market, earlier);
        lemma_pools_grow_by_stakes(program_id, market, earlier);
        if add_bet_error(program_id, before, call.staging, call.choice, call.now) is None {
            let found = parse_market(before.data)->0;
            let grown = with_stake(found, call.choice, stake_of(call.staging));
            lemma_market_bytes_of_parse(before.data);
            lemma_market_round_trip(grown, before.data.skip(58));
            let opened = positions_opened(program_id, market, calls);
            assert(opened.drop_last() =~= positions_opened(program_id, market, earlier));
        }
    }
}

/// Pools are sums of stakes, from the start: on a market that has just been
/// set up, each pool is the sum of the amounts of all the positions opened
/// on its team.
pub proof fn lemma_pools_are_sums_of_stakes(
    program_id: Seq<u8>,
    authority: AccountState,
    market: AccountState,
    bets_accepted_until: i64,
    now: i64,
    rent_minimum: u64,
    calls: Seq<BetCall>,
)
    requires
        authority.valid(),
        initialize_error(program_id, authority, market, bets_accepted_until, now, rent_minimum)
            is None,
    ensures
        ({
            let fresh = initialized_market(authority, market, bets_accepted_until);
            let open = parse_market(market_after_bets(program_id, fresh, calls).data);
            let opened = positions_opened(program_id, fresh, calls);
            &&& open is Some
            &&& open->0.pool_a == staked_on(opened, MatchOutcome::TeamA)
            &&& open->0.pool_b == staked_on(opened, MatchOutcome::TeamB)
        }),
{
    let fresh = initialized_market(authority, market, bets_accepted_until);
    lemma_initialize_writes_market(
        program_id,
        authority,
        market,
        bets_accepted_until,
        now,
        rent_minimum,
    );
    lemma_pools_grow_by_stakes(program_id, fresh, calls);
}

/// A market is set up once: after `process_initialize` has set a market up,
/// every further request to set it up is refused, whoever makes it and
/// whatever it asks for, and it is refused as `AlreadyInitialized` whenever
/// its authority has signed.
pub proof fn lemma_initialize_once(
    program_id: Seq<u8>,
    authority: AccountState,
    market: AccountState,
    bets_accepted_until: i64,
    now: i64,
    rent_minimum: u64,
    next_program_id: Seq<u8>,
    next_authority: AccountState,
    next_bets_accepted_until: i64,
    next_now: i64,
    next_rent_minimum: u64,
)
    requires
        authority.valid(),
        initialize_error(program_id, authority, market, bets_accepted_until, now, rent_minimum)
            is None,
    ensures
        initialize_error(
            next_program_id,
            next_authority,
            initialized_market(authority, market, bets_accepted_until),
            next_bets_accepted_until,
            next_now,
            next_rent_minimum,
        ) is Some,
        next_authority.is_signer ==> initialize_error(
            next_program_id,
            next_authority,
            initialized_market(authority, market, bets_accepted_until),
            next_bets_accepted_until,
            next_now,
            next_rent_minimum,
        ) == Some(BetError::AlreadyInitialized),
{
    lemma_initialize_writes_market(
        program_id,
        authority,
        market,
        bets_accepted_until,
        now,
        rent_minimum,
    );
}

/// No bet after the deadline: a request to place a bet that is served after
/// the deadline of the market is refused, and it is refused as
/// `BettingClosed` on a market that has been set up, with records that this
/// service administers and a staging record that holds no position yet.
pub proof fn lemma_no_bet_after_deadline(
    program_id: Seq<u8>,
    market: AccountState,
    staging: AccountState,
    choice: MatchOutcome,
    now: i64,
)
    requires
        parse_market(market.data) is Some,
        now > parse_market(market.data)->0.deadline,
    ensures
        add_bet_error(program_id, market, staging, choice, now) is Some,
        market.owner == program_id && staging.owner == program_id && parse_market(
            market.data,
        )->0.initialized && parse_position(staging.data) is Some && !parse_position(
            staging.data,
        )->0.initialized ==> add_bet_error(program_id, market, staging, choice, now) == Some(
            BetError::BettingClosed,
        ),
{
}

/// Only the arbiter decides: a request to record an outcome that comes from
/// anyone but the arbiter of a market that has been set up is refused as
/// `Unauthorized`.
pub proof fn lemma_only_arbiter_sets_winner(
    authority: AccountState,
    market: AccountState,
    result: MatchOutcome,
    now: i64,
)
    requires
        parse_market(market.data) is Some,
        parse_market(market.data)->0.initialized,
        parse_market(market.data)->0.arbiter != authority.key,
    ensures
        set_winner_error(authority, market, result, now) == Some(BetError::Unauthorized),
{
}

/// A position is paid once: after `process_withdraw` has paid a position
/// out, every further request to pay it out is refused, whichever market and
/// bettor it names.
pub proof fn lemma_withdraw_once(
    program_id: Seq<u8>,
    bettor: AccountState,
    market: AccountState,
    position: AccountState,
    next_program_id: Seq<u8>,
    next_bettor: AccountState,
    next_market: AccountState,
)
    requires
        withdraw_error(program_id, bettor, market, position) is None,
    ensures
        parse_position(withdrawn_position(position).data) matches Some(wager) && wager.choice
            == MatchOutcome::Withdrawn,
        withdraw_error(
            next_program_id,
            next_bettor,
            next_market,
            withdrawn_position(position),
        ) is Some,
        withdraw_error(
            program_id,
            bettor.credited(payout_due(market, position)->0),
            market.debited(payout_due(market, position)->0),
            withdrawn_position(position),
        ) == Some(BetError::InvalidChoice),
{
    let wager = parse_position(position.data)->0;
    lemma_position_bytes_of_parse(position.data);
    lemma_position_round_trip(
        Position { choice: MatchOutcome::Withdrawn, ..wager },
        position.data.skip(74),
    );
}

/// Setting a market up overdraws nothing: no value moves, and the market is
/// backed, since its pools are empty.
pub proof fn lemma_initialize_backed(
    program_id: Seq<u8>,
    authority: AccountState,
    market: AccountState,
    bets_accepted_until: i64,
    now: i64,
    rent_minimum: u64,
)
    requires
        authority.valid(),
        initialize_error(program_id, authority, market, bets_accepted_until, now, rent_minimum)
            is None,
    ensures
        initialized_market(authority, market, bets_accepted_until).lamports == market.lamports,
        backed(initialized_market(authority, market, bets_accepted_until)),
{
    lemma_initialize_writes_market(
        program_id,
        authority,
        market,
        bets_accepted_until,
        now,
        rent_minimum,
    );
}

/// Placing a bet overdraws nothing: the stake that leaves the staging record
/// reaches the market, the staging record keeps what the ledger keeps back,
/// the amount of the position is the stake, and a market that was backed
/// stays backed.
pub proof fn lemma_add_bet_backed(
    program_id: Seq<u8>,
    bettor: AccountState,
    market: AccountState,
    staging: AccountState,
    choice: MatchOutcome,
    now: i64,
)
    requires
        add_bet_error(program_id, market, staging, choice, now) is None,
    ensures
        market_with_bet(market, staging, choice).lamports + staging_with_position(
            bettor,
            market,
            staging,
            choice,
        ).lamports == market.lamports + staging.lamports,
        staging_with_position(bettor, market, staging, choice).lamports
            == BETS_RENT_EXEMPTION,
        opened_position(bettor, market, staging, choice).amount + staging_with_position(
            bettor,
            market,
            staging,
            choice,
        ).lamports == staging.lamports,
        opened_position(bettor, market, staging, choice).amount <= market_with_bet(
            market,
            staging,
            choice,
        ).lamports,
        backed(market) ==> backed(market_with_bet(market, staging, choice)),
{
    lemma_add_bet_writes_market(program_id, market, staging, choice, now);
}

/// Bets keep a market backed: whatever requests to place a bet are served on
/// a market that is backed, the market is backed afterwards.
pub proof fn lemma_bets_keep_backing(
    program_id: Seq<u8>,
    market: AccountState,
    calls: Seq<BetCall>,
)
    requires
        backed(market),
    ensures
        backed(market_after_bets(program_id, market, calls)),
    decreases calls.len(),
{
    if calls.len() > 0 {
        let call = calls.last();
        let before = market_after_bets(program_id, market, calls.drop_last());
        lemma_bets_keep_backing(program_id, market, calls.drop_last());
        if add_bet_error(program_id, before, call.staging, call.choice, call.now) is None {
            lemma_add_bet_writes_market(program_id, before, call.staging, call.choice, call.now);
        }
    }
}

/// Recording an outcome overdraws nothing: the commission is no more than
/// the market holds, what leaves the market reaches the arbiter, and the
/// market stays backed.
pub proof fn lemma_set_winner_backed(
    authority: AccountState,
    market: AccountState,
    result: MatchOutcome,
    now: i64,
)
    requires
        set_winner_error(authority, market, result, now) is None,
    ensures
        commission_due(market) <= market.lamports,
        settled_market(market, result).lamports + paid_arbiter(authority, market).lamports
            == market.lamports + authority.lamports,
        parse_market(settled_market(market, result).data) matches Some(settled)
            && settled.outcome == result,
        backed(settled_market(market, result)),
{
    let found = parse_market(market.data)->0;
    lemma_market_bytes_of_parse(market.data);
    lemma_market_round_trip(Market { outcome: result, ..found }, market.data.skip(58));
}

/// Paying a position out overdraws nothing: the payout is no more than the
/// market holds, what leaves the market reaches the bettor, and the market
/// stays backed.
pub proof fn lemma_withdraw_backed(
    program_id: Seq<u8>,
    bettor: AccountState,
    market: AccountState,
    position: AccountState,
)
    requires
        withdraw_error(program_id, bettor, market, position) is None,
    ensures
        payout_due(market, position) matches Some(amount) && amount <= market.lamports
            && market.debited(amount).lamports + bettor.credited(amount).lamports
            == market.lamports + bettor.lamports,
        backed(market.debited(payout_due(market, position)->0)),
{
}

/// All the value that the records of a request hold.
pub open spec fn total_value(accounts: Seq<AccountState>) -> nat
    decreases accounts.len(),
{
    if accounts.len() == 0 {
        0
    } else {
        total_value(accounts.drop_last()) + accounts.last().lamports
    }
}

/// Replacing one record changes the total by what that record gains.
pub proof fn lemma_total_value_update(
    accounts: Seq<AccountState>,
    index: int,
    replaced: AccountState,
)
    requires
        0 <= index < accounts.len(),
    ensures
        total_value(accounts.update(index, replaced)) + accounts[index].lamports == total_value(
            accounts,
        ) + replaced.lamports,
    decreases accounts.len(),
{
    let updated = accounts.update(index, replaced);
    if index == accounts.len() - 1 {
        assert(updated.drop_last() =~= accounts.drop_last());
    } else {
        lemma_total_value_update(accounts.drop_last(), index, replaced);
        assert(updated.drop_last() =~= accounts.drop_last().update(index, replaced));
    }
}

/// Value is conserved: a request that is served leaves in its records, taken
/// together, exactly the value that they held. What one record gives up,
/// another receives; nothing is made and nothing is lost.
pub proof fn lemma_value_is_conserved(
    program_id: Seq<u8>,
    accounts: Seq<AccountState>,
    input: Seq<u8>,
    now: i64,
    rent_minimum: u64,
)
    ensures
        processed(program_id, accounts, input, now, rent_minimum) matches Ok(after) ==> after.len()
            == accounts.len() && total_value(after) == total_value(accounts),
{
    match parse_instruction(input) {
        Err(_) => {},
        Ok(Instruction::Initialize { bets_accepted_until }) => {
            if accounts.len() >= 2 {
                lemma_total_value_update(
                    accounts,
                    1,
                    initialized_market(accounts[0], accounts[1], bets_accepted_until),
                );
            }
        },
        Ok(Instruction::AddBet { choice }) => {
            if accounts.len() >= 3 && add_bet_error(
                program_id,
                accounts[1],
                accounts[2],
                choice,
                now,
            ) is None {
                let market = market_with_bet(accounts[1], accounts[2], choice);
                let staging = staging_with_position(accounts[0], accounts[1], accounts[2], choice);
                lemma_total_value_update(accounts, 1, market);
                lemma_total_value_update(accounts.update(1, market), 2, staging);
            }
        },
        Ok(Instruction::SetWinner { result }) => {
            if accounts.len() >= 2 && set_winner_error(accounts[0], accounts[1], result, now)
                is None {
                let arbiter = paid_arbiter(accounts[0], accounts[1]);
                let market = settled_market(accounts[1], result);
                lemma_total_value_update(accounts, 0, arbiter);
                lemma_total_value_update(accounts.update(0, arbiter), 1, market);
            }
        },
        Ok(Instruction::Withdraw) => {
            if accounts.len() >= 3 && withdraw_error(
                program_id,
                accounts[0],
                accounts[1],
                accounts[2],
            ) is None {
                let amount = payout_due(accounts[1], accounts[2])->0;
                let bettor = accounts[0].credited(amount);
                let market = accounts[1].debited(amount);
                let position = withdrawn_position(accounts[2]);
                lemma_total_value_update(accounts, 0, bettor);
                lemma_total_value_update(accounts.update(0, bettor), 1, market);
                lemma_total_value_update(accounts.update(0, bettor).update(1, market), 2, position);
            }
        },
    }
}

} // verus!
