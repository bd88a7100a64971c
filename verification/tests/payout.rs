use event_bets::payout::{commission, compute_payout, within, COMMISSION};
use event_bets::BetError;
use event_bets::MatchOutcome;

#[test]
fn commission_is_three_hundredths() {
    assert_eq!(COMMISSION, 3);
    assert_eq!(commission(0), 0);
    assert_eq!(commission(33), 0);
    assert_eq!(commission(34), 1);
    assert_eq!(commission(100), 3);
    assert_eq!(commission(150), 4);
    assert_eq!(commission(1_000_150), 30_004);
    assert_eq!(commission(u64::MAX), 553_402_322_211_286_548);
}

#[test]
fn winner_takes_stake_and_share_of_the_other_pool() {
    assert_eq!(
        compute_payout(MatchOutcome::TeamA, MatchOutcome::TeamA, 100, 100, 50),
        Ok(145)
    );
    assert_eq!(
        compute_payout(MatchOutcome::TeamB, MatchOutcome::TeamB, 50, 100, 50),
        Ok(145)
    );
    assert_eq!(
        compute_payout(MatchOutcome::TeamA, MatchOutcome::TeamA, 30, 100, 50),
        Ok(43)
    );
    assert_eq!(
        compute_payout(MatchOutcome::TeamB, MatchOutcome::TeamB, 7, 1000, 10),
        Ok(685)
    );
}

#[test]
fn loser_takes_nothing() {
    assert_eq!(compute_payout(MatchOutcome::TeamA, MatchOutcome::TeamB, 50, 100, 50), Ok(0));
    assert_eq!(compute_payout(MatchOutcome::TeamB, MatchOutcome::TeamA, 100, 100, 50), Ok(0));
    assert_eq!(compute_payout(MatchOutcome::TeamA, MatchOutcome::Draw, 50, 100, 50), Ok(0));
    assert_eq!(compute_payout(MatchOutcome::TeamA, MatchOutcome::Unknown, 50, 100, 50), Ok(0));
    assert_eq!(compute_payout(MatchOutcome::Unknown, MatchOutcome::TeamA, 50, 100, 50), Ok(0));
    assert_eq!(compute_payout(MatchOutcome::TeamA, MatchOutcome::Withdrawn, 5, 100, 50), Ok(0));
}

#[test]
fn draw_pays_the_stake_back_less_commission() {
    assert_eq!(compute_payout(MatchOutcome::Draw, MatchOutcome::TeamA, 200, 200, 0), Ok(194));
    assert_eq!(compute_payout(MatchOutcome::Draw, MatchOutcome::TeamB, 200, 10, 900), Ok(194));
    assert_eq!(compute_payout(MatchOutcome::Draw, MatchOutcome::Draw, 200, 200, 200), Ok(0));
    assert_eq!(compute_payout(MatchOutcome::Draw, MatchOutcome::TeamA, 1, 0, 0), Ok(0));
    assert_eq!(compute_payout(MatchOutcome::Draw, MatchOutcome::TeamA, 0, 0, 0), Ok(0));
}

#[test]
fn empty_winning_pool_is_an_invalid_state() {
    assert_eq!(
        compute_payout(MatchOutcome::TeamA, MatchOutcome::TeamA, 10, 0, 50),
        Err(BetError::InvalidState)
    );
    assert_eq!(
        compute_payout(MatchOutcome::TeamB, MatchOutcome::TeamB, 10, 50, 0),
        Err(BetError::InvalidState)
    );
    assert_eq!(compute_payout(MatchOutcome::TeamA, MatchOutcome::TeamA, 10, 10, 0), Ok(9));
    assert_eq!(compute_payout(MatchOutcome::TeamA, MatchOutcome::TeamB, 10, 0, 50), Ok(0));
}

#[test]
fn largest_amounts_do_not_overflow() {
    let max = u64::MAX;
    let gross: u128 = max as u128 + (max as u128 * max as u128) / 1;
    let expected = (gross / 100) * 97 + (gross % 100) * 97 / 100;
    assert_eq!(
        compute_payout(MatchOutcome::TeamA, MatchOutcome::TeamA, max, 1, max),
        Ok(expected)
    );
    assert_eq!(expected, 330_073_895_913_310_309_541_580_027_457_316_900_044);
    assert_eq!(
        compute_payout(MatchOutcome::TeamB, MatchOutcome::TeamB, max, max, max),
        Ok((2 * max as u128) * 97 / 100)
    );
    assert_eq!(
        compute_payout(MatchOutcome::Draw, MatchOutcome::TeamB, max, 0, max),
        Ok(max as u128 * 97 / 100)
    );
}

#[test]
fn within_tells_what_a_record_can_pay() {
    assert_eq!(within(0, 0), Some(0));
    assert_eq!(within(145, 145), Some(145));
    assert_eq!(within(146, 145), None);
    assert_eq!(within(u64::MAX as u128, u64::MAX), Some(u64::MAX));
    assert_eq!(within(u64::MAX as u128 + 1, u64::MAX), None);
    assert_eq!(within(u128::MAX, u64::MAX), None);
}
