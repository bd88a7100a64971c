//! Why a market can pay: what the positions of an event are paid, taken
//! together, is covered by what the market holds.

use crate::account::AccountState;
use crate::laws::{
    lemma_bets_keep_backing, lemma_bets_keep_outcome, lemma_initialize_writes_market,
    lemma_pools_are_sums_of_stakes, market_after_bets, positions_opened, staked_on, BetCall,
};
use crate::outcome::MatchOutcome;
use crate::payout::{after_commission, gross_share, lemma_share_adds_up, payout};
use crate::processor::{
    initialize_error, initialized_market, set_winner_error, settled_market,
};
use crate::state::{parse_market, Position};
use vstd::prelude::*;

verus! {

/// What a position is paid, and nothing where `payout` has no amount.
pub open spec fn paid(result: MatchOutcome, position: Position, pool_a: nat, pool_b: nat) -> nat {
    match payout(result, position.choice, position.amount, pool_a, pool_b) {
        Some(amount) => amount,
        None => 0,
    }
}

/// What some positions are paid, taken together.
pub open spec fn total_payout(
    result: MatchOutcome,
    positions: Seq<Position>,
    pool_a: nat,
    pool_b: nat,
) -> nat
    decreases positions.len(),
{
    if positions.len() == 0 {
        0
    } else {
        total_payout(result, positions.drop_last(), pool_a, pool_b) + paid(
            result,
            positions.last(),
            pool_a,
            pool_b,
        )
    }
}

/// What the stakes on the two teams are worth before commission, taken
/// together, given the outcome.
pub open spec fn gross_due(
    result: MatchOutcome,
    staked_a: nat,
    staked_b: nat,
    pool_a: nat,
    pool_b: nat,
) -> nat {
    if result == MatchOutcome::TeamA && pool_a > 0 {
        gross_share(staked_a, pool_a, pool_b)
    } else if result == MatchOutcome::TeamB && pool_b > 0 {
        gross_share(staked_b, pool_b, pool_a)
    } else if result == MatchOutcome::Draw {
        staked_a + staked_b
    } else {
        0
    }
}

/// Positions are paid, taken together, no more than their stakes taken
/// together are worth: rounding down each payout loses value, it makes none.
pub proof fn lemma_payouts_round_down(
    result: MatchOutcome,
    positions: Seq<Position>,
    pool_a: nat,
    pool_b: nat,
)
    ensures
        total_payout(result, positions, pool_a, pool_b) <= after_commission(
            gross_due(
                result,
                staked_on(positions, MatchOutcome::TeamA),
                staked_on(positions, MatchOutcome::TeamB),
                pool_a,
                pool_b,
            ),
        ),
    decreases positions.len(),
{
    if positions.len() > 0 {
        let earlier = positions.drop_last();
        let last = positions.last();
        let staked_a = staked_on(earlier, MatchOutcome::TeamA);
        let staked_b = staked_on(earlier, MatchOutcome::TeamB);
        lemma_payouts_round_down(result, earlier, pool_a, pool_b);
        if last.choice == MatchOutcome::TeamA && pool_a > 0 {
            lemma_share_adds_up(staked_a, last.amount, pool_a, pool_b);
        }
        if last.choice == MatchOutcome::TeamB && pool_b > 0 {
            lemma_share_adds_up(staked_b, last.amount, pool_b, pool_a);
        }
    }
}

/// The pools cover the payouts: positions whose stakes on each team are no
/// more than the pool of that team are paid, taken together, no more than
/// the two pools hold after commission.
pub proof fn lemma_pools_cover_payouts(
    result: MatchOutcome,
    positions: Seq<Position>,
    pool_a: nat,
    pool_b: nat,
)
    requires
        staked_on(positions, MatchOutcome::TeamA) <= pool_a,
        staked_on(positions, MatchOutcome::TeamB) <= pool_b,
    ensures
        total_payout(result, positions, pool_a, pool_b) <= after_commission(pool_a + pool_b),
{
    let staked_a = staked_on(positions, MatchOutcome::TeamA);
    let staked_b = staked_on(positions, MatchOutcome::TeamB);
    lemma_payouts_round_down(result, positions, pool_a, pool_b);
    if pool_a > 0 {
        lemma_share_adds_up(staked_a, 0, pool_a, pool_b);
    }
    if pool_b > 0 {
        lemma_share_adds_up(staked_b, 0, pool_b, pool_a);
    }
}

/// An event can pay its winners. On a market that has been set up, then
/// taken bets, and then been given its outcome for the first time, the
/// positions that were opened are paid, taken together, no more than the
/// market holds once the commission has left it.
pub proof fn lemma_market_can_pay_its_positions(
    program_id: Seq<u8>,
    authority: AccountState,
    market: AccountState,
    bets_accepted_until: i64,
    now: i64,
    rent_minimum: u64,
    calls: Seq<BetCall>,
    arbiter: AccountState,
    result: MatchOutcome,
    settled_at: i64,
)
    requires
        authority.valid(),
        initialize_error(program_id, authority, market, bets_accepted_until, now, rent_minimum)
            is None,
        set_winner_error(
            arbiter,
            market_after_bets(
                program_id,
                initialized_market(authority, market, bets_accepted_until),
                calls,
            ),
            result,
            settled_at,
        ) is None,
    ensures
        ({
            let fresh = initialized_market(authority, market, bets_accepted_until);
            let open = market_after_bets(program_id, fresh, calls);
            let pools = parse_market(open.data)->0;
            total_payout(
                result,
                positions_opened(program_id, fresh, calls),
                pools.pool_a,
                pools.pool_b,
            ) <= settled_market(open, result).lamports
        }),
{
    let fresh = initialized_market(authority, market, bets_accepted_until);
    let open = market_after_bets(program_id, fresh, calls);
    let pools = parse_market(open.data)->0;
    lemma_initialize_writes_market(
        program_id,
        authority,
        market,
        bets_accepted_until,
        now,
        rent_minimum,
    );
    lemma_pools_are_sums_of_stakes(
        program_id,
        authority,
        market,
        bets_accepted_until,
        now,
        rent_minimum,
        calls,
    );
    lemma_bets_keep_backing(program_id, fresh, calls);
    lemma_bets_keep_outcome(program_id, fresh, calls);
    lemma_pools_cover_payouts(
        result,
        positions_opened(program_id, fresh, calls),
        pools.pool_a,
        pools.pool_b,
    );
}

/// What the positions at the places that `order` names are paid, taken
/// together.
pub open spec fn paid_in_order(
    result: MatchOutcome,
    positions: Seq<Position>,
    pool_a: nat,
    pool_b: nat,
    order: Seq<int>,
) -> nat
    decreases order.len(),
{
    if order.len() == 0 {
        0
    } else {
        paid_in_order(result, positions, pool_a, pool_b, order.drop_last()) + paid(
            result,
            positions[order.last()],
            pool_a,
            pool_b,
        )
    }
}

/// Whether `order` names places among the first `count`, and none of them
/// twice.
pub open spec fn names_each_once(order: Seq<int>, count: nat) -> bool {
    &&& forall|i: int| 0 <= i < order.len() ==> 0 <= #[trigger] order[i] < count
    &&& forall|i: int, j: int| 0 <= i < j < order.len() ==> order[i] != order[j]
}

/// Paying the positions at some places does not look at the positions
/// behind them.
proof fn lemma_paid_in_order_ignores_the_rest(
    result: MatchOutcome,
    positions: Seq<Position>,
    pool_a: nat,
    pool_b: nat,
    order: Seq<int>,
)
    requires
        positions.len() > 0,
        names_each_once(order, (positions.len() - 1) as nat),
    ensures
        paid_in_order(result, positions, pool_a, pool_b, order) == paid_in_order(
            result,
            positions.drop_last(),
            pool_a,
            pool_b,
            order,
        ),
    decreases order.len(),
{
    if order.len() > 0 {
        lemma_paid_in_order_ignores_the_rest(
            result,
            positions,
            pool_a,
            pool_b,
            order.drop_last(),
        );
    }
}

/// Leaving one place out of an order leaves out what the position at that
/// place is paid.
proof fn lemma_paid_in_order_without(
    result: MatchOutcome,
    positions: Seq<Position>,
    pool_a: nat,
    pool_b: nat,
    order: Seq<int>,
    left_out: int,
)
    requires
        0 <= left_out < order.len(),
    ensures
        paid_in_order(result, positions, pool_a, pool_b, order) == paid_in_order(
            result,
            positions,
            pool_a,
            pool_b,
            order.remove(left_out),
        ) + paid(result, positions[order[left_out]], pool_a, pool_b),
    decreases order.len(),
{
    if left_out < order.len() - 1 {
        lemma_paid_in_order_without(
            result,
            positions,
            pool_a,
            pool_b,
            order.drop_last(),
            left_out,
        );
        assert(order.remove(left_out).drop_last() =~= order.drop_last().remove(left_out));
    }
}

/// Some of the positions are paid no more than all of them: whichever
/// positions are paid, each once and in whatever order, they are paid,
/// taken together, no more than all the positions taken together.
pub proof fn lemma_some_are_paid_no_more_than_all(
    result: MatchOutcome,
    positions: Seq<Position>,
    pool_a: nat,
    pool_b: nat,
    order: Seq<int>,
)
    requires
        names_each_once(order, positions.len()),
    ensures
        paid_in_order(result, positions, pool_a, pool_b, order) <= total_payout(
            result,
            positions,
            pool_a,
            pool_b,
        ),
    decreases positions.len(),
{
    if positions.len() > 0 {
        let last = positions.len() - 1;
        let earlier = positions.drop_last();
        if exists|i: int| 0 <= i < order.len() && order[i] == last {
            let found = choose|i: int| 0 <= i < order.len() && order[i] == last;
            let others = order.remove(found);
            lemma_paid_in_order_without(result, positions, pool_a, pool_b, order, found);
            assert(names_each_once(others, last as nat)) by {
                assert forall|i: int| 0 <= i < others.len() implies 0 <= #[trigger] others[i]
                    < last by {
                    if i < found {
                        assert(others[i] == order[i]);
                    } else {
                        assert(others[i] == order[i + 1]);
                    }
                }
                assert forall|i: int, j: int| 0 <= i < j < others.len() implies others[i]
                    != others[j] by {
                    let from_i = if i < found {
                        i
                    } else {
                        i + 1
                    };
                    let from_j = if j < found {
                        j
                    } else {
                        j + 1
                    };
                    assert(others[i] == order[from_i] && others[j] == order[from_j]);
                }
            }
            lemma_paid_in_order_ignores_the_rest(result, positions, pool_a, pool_b, others);
            lemma_some_are_paid_no_more_than_all(result, earlier, pool_a, pool_b, others);
        } else {
            lemma_paid_in_order_ignores_the_rest(result, positions, pool_a, pool_b, order);
            lemma_some_are_paid_no_more_than_all(result, earlier, pool_a, pool_b, order);
        }
    }
}

/// No winner waits in vain. On a market that has been set up, then taken
/// bets, and then been given its outcome for the first time, whichever of
/// the positions that were opened are paid, each once and in whatever order,
/// the market holds what they are paid: it held enough when the commission
/// had left it.
pub proof fn lemma_market_pays_in_any_order(
    program_id: Seq<u8>,
    authority: AccountState,
    market: AccountState,
    bets_accepted_until: i64,
    now: i64,
    rent_minimum: u64,
    calls: Seq<BetCall>,
    arbiter: AccountState,
    result: MatchOutcome,
    settled_at: i64,
    order: Seq<int>,
)
    requires
        authority.valid(),
        initialize_error(program_id, authority, market, bets_accepted_until, now, rent_minimum)
            is None,
        set_winner_error(
            arbiter,
            market_after_bets(
                program_id,
                initialized_market(authority, market, bets_accepted_until),
                calls,
            ),
            result,
            settled_at,
        ) is None,
        names_each_once(
            order,
            positions_opened(
                program_id,
                initialized_market(authority, market, bets_accepted_until),
                calls,
            ).len(),
        ),
    ensures
        ({
            let fresh = initialized_market(authority, market, bets_accepted_until);
            let open = market_after_bets(program_id, fresh, calls);
            let pools = parse_market(open.data)->0;
            paid_in_order(
                result,
                positions_opened(program_id, fresh, calls),
                pools.pool_a,
                pools.pool_b,
                order,
            ) <= settled_market(open, result).lamports
        }),
{
    let fresh = initialized_market(authority, market, bets_accepted_until);
    let open = market_after_bets(program_id, fresh, calls);
    let pools = parse_market(open.data)->0;
    lemma_market_can_pay_its_positions(
        program_id,
        authority,
        market,
        bets_accepted_until,
        now,
        rent_minimum,
        calls,
        arbiter,
        result,
        settled_at,
    );
    lemma_some_are_paid_no_more_than_all(
        result,
        positions_opened(program_id, fresh, calls),
        pools.pool_a,
        pools.pool_b,
        order,
    );
}

} // verus!
