//! The arithmetic of settlement: the commission of the arbiter and the share
//! of a bettor.

use crate::error::BetError;
use crate::outcome::MatchOutcome;
use vstd::prelude::*;

verus! {

/// The commission, in hundredths of what it is taken from.
pub const COMMISSION: u8 = 3;

/// The commission on a total: three hundredths of it, rounded down.
pub open spec fn commission_of(total: nat) -> nat {
    total * 3 / 100
}

/// What is left of an amount when the commission is taken: ninety-seven
/// hundredths of it, rounded down.
pub open spec fn after_commission(gross: nat) -> nat {
    gross * 97 / 100
}

/// What a winning stake is worth before commission: the stake itself and, of
/// the losing pool, the part that the stake is of the winning pool, rounded
/// down.
pub open spec fn gross_share(stake: nat, winning_pool: nat, losing_pool: nat) -> nat {
    stake + stake * losing_pool / winning_pool
}

/// What a position is paid, given the outcome of the event, the choice and
/// the stake of the position, and the two pools.
///
/// A stake on the winning team is paid its share of both pools. A draw pays
/// back the stakes on either team. Both are paid less the commission. Every
/// other position is paid nothing. There is no payout where the winning pool
/// is empty, since no share can be taken of it.
pub open spec fn payout(
    result: MatchOutcome,
    choice: MatchOutcome,
    stake: nat,
    pool_a: nat,
    pool_b: nat,
) -> Option<nat> {
    if result == MatchOutcome::TeamA && choice == MatchOutcome::TeamA {
        if pool_a == 0 {
            None
        } else {
            Some(after_commission(gross_share(stake, pool_a, pool_b)))
        }
    } else if result == MatchOutcome::TeamB && choice == MatchOutcome::TeamB {
        if pool_b == 0 {
            None
        } else {
            Some(after_commission(gross_share(stake, pool_b, pool_a)))
        }
    } else if result == MatchOutcome::Draw && (choice == MatchOutcome::TeamA || choice
        == MatchOutcome::TeamB) {
        Some(after_commission(stake))
    } else {
        Some(0)
    }
}

/// The commission on a total.
pub fn commission(total: u64) -> (fee: u64)
    ensures
        fee == commission_of(total as nat),
        fee <= total,
{
    let rate: u128 = COMMISSION as u128;
    assert(total * rate == total * 3) by (nonlinear_arith)
        requires
            rate == 3,
    ;
    let wide: u128 = total as u128 * rate / 100;
    wide as u64
}

/// What is left of an amount when the commission is taken. The product with
/// 97 is never formed, so that no amount is too large.
fn net_of_commission(gross: u128) -> (net: u128)
    ensures
        net == after_commission(gross as nat),
        net <= gross,
{
    let keep: u128 = 100 - COMMISSION as u128;
    let hundreds: u128 = gross / 100;
    let units: u128 = gross % 100;
    assert(hundreds * keep == hundreds * 97 && units * keep == units * 97) by (nonlinear_arith)
        requires
            keep == 97,
    ;
    hundreds * keep + units * keep / 100
}

/// What a winning stake is worth before commission. The product of stake and
/// pool is formed in twice the width of either.
fn share(stake: u64, winning_pool: u64, losing_pool: u64) -> (gross: u128)
    requires
        winning_pool > 0,
    ensures
        gross == gross_share(stake as nat, winning_pool as nat, losing_pool as nat),
        gross <= 0xffff_ffff_ffff_ffff_0000_0000_0000_0000,
{
    assert(stake * losing_pool <= 0xffff_ffff_ffff_ffff * 0xffff_ffff_ffff_ffff)
        by (nonlinear_arith)
        requires
            0 <= stake <= 0xffff_ffff_ffff_ffff,
            0 <= losing_pool <= 0xffff_ffff_ffff_ffff,
    ;
    let product: u128 = stake as u128 * losing_pool as u128;
    assert(product / (winning_pool as u128) <= product) by (nonlinear_arith)
        requires
            winning_pool > 0,
    ;
    product / winning_pool as u128 + stake as u128
}

/// What a position is paid: `payout`, computed.
///
/// The amount may be larger than any record can hold; whether the market
/// holds it is for the caller to see.
pub fn compute_payout(
    result: MatchOutcome,
    choice: MatchOutcome,
    stake: u64,
    pool_a: u64,
    pool_b: u64,
) -> (paid: Result<u128, BetError>)
    ensures
        match payout(result, choice, stake as nat, pool_a as nat, pool_b as nat) {
            Some(amount) => paid matches Ok(value) && value == amount,
            None => paid matches Err(e) && e == BetError::InvalidState,
        },
{
    match (result, choice) {
        (MatchOutcome::TeamA, MatchOutcome::TeamA) => {
            if pool_a == 0 {
                Err(BetError::InvalidState)
            } else {
                Ok(net_of_commission(share(stake, pool_a, pool_b)))
            }
        },
        (MatchOutcome::TeamB, MatchOutcome::TeamB) => {
            if pool_b == 0 {
                Err(BetError::InvalidState)
            } else {
                Ok(net_of_commission(share(stake, pool_b, pool_a)))
            }
        },
        (MatchOutcome::Draw, MatchOutcome::TeamA) | (MatchOutcome::Draw, MatchOutcome::TeamB) => {
            Ok(net_of_commission(stake as u128))
        },
        _ => Ok(0),
    }
}

/// An amount as a record holds it, where it is no more than `held`.
pub fn within(amount: u128, held: u64) -> (fits: Option<u64>)
    ensures
        fits == if amount <= held {
            Some(amount as u64)
        } else {
            None
        },
{
    if amount <= held as u128 {
        Some(amount as u64)
    } else {
        None
    }
}

/// Two stakes taken apart have no larger a part of the losing pool than
/// taken together, and stakes that are no more than the winning pool have
/// no more than the losing pool for their part.
pub proof fn lemma_share_adds_up(first: nat, second: nat, winning_pool: nat, losing_pool: nat)
    requires
        winning_pool > 0,
    ensures
        gross_share(first, winning_pool, losing_pool) + gross_share(
            second,
            winning_pool,
            losing_pool,
        ) <= gross_share(first + second, winning_pool, losing_pool),
        first <= winning_pool ==> gross_share(first, winning_pool, losing_pool) <= first
            + losing_pool,
{
    let a = first * losing_pool;
    let b = second * losing_pool;
    assert((first + second) * losing_pool == a + b) by (nonlinear_arith)
        requires
            a == first * losing_pool,
            b == second * losing_pool,
    ;
    assert(a / winning_pool + b / winning_pool <= (a + b) / winning_pool) by (nonlinear_arith)
        requires
            winning_pool > 0,
    ;
    if first <= winning_pool {
        assert(a <= winning_pool * losing_pool) by (nonlinear_arith)
            requires
                a == first * losing_pool,
                first <= winning_pool,
        ;
        assert(a / winning_pool <= losing_pool) by (nonlinear_arith)
            requires
                a <= winning_pool * losing_pool,
                winning_pool > 0,
        ;
    }
}

} // verus!
