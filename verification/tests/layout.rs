use borsh::{BorshDeserialize, BorshSerialize};
use event_bets::{cmp_pubkeys, Bet, EventBets, MatchOutcome, Pubkey};
use solana_program::pubkey::Pubkey as LedgerKey;

fn fields_of_market(market: &EventBets) -> Vec<u8> {
    let mut out = Vec::new();
    market.is_initialized.serialize(&mut out).unwrap();
    LedgerKey::new_from_array(market.arbiter.to_bytes()).serialize(&mut out).unwrap();
    market.bets_allowed_until_ts.serialize(&mut out).unwrap();
    event_bets::pack_match_outcome(market.outcome).serialize(&mut out).unwrap();
    market.balance_a.serialize(&mut out).unwrap();
    market.balance_b.serialize(&mut out).unwrap();
    out
}

fn fields_of_position(position: &Bet) -> Vec<u8> {
    let mut out = Vec::new();
    position.is_initialized.serialize(&mut out).unwrap();
    LedgerKey::new_from_array(position.betor.to_bytes()).serialize(&mut out).unwrap();
    LedgerKey::new_from_array(position.event.to_bytes()).serialize(&mut out).unwrap();
    position.amount.serialize(&mut out).unwrap();
    event_bets::pack_match_outcome(position.outcome).serialize(&mut out).unwrap();
    out
}

fn key(seed: u8) -> Pubkey {
    let mut bytes = [0u8; 32];
    for (i, byte) in bytes.iter_mut().enumerate() {
        *byte = seed.wrapping_mul(31).wrapping_add(i as u8 * 7);
    }
    Pubkey(bytes)
}

fn markets() -> Vec<EventBets> {
    let mut all = Vec::new();
    let outcomes =
        [MatchOutcome::Unknown, MatchOutcome::TeamA, MatchOutcome::TeamB, MatchOutcome::Draw];
    let numbers = [0u64, 1, 255, 256, 1_405_920, 1 << 40, u64::MAX - 1, u64::MAX];
    let times = [0i64, 1, -1, 1_700_000_000, i64::MAX, i64::MIN, -256];
    for (i, outcome) in outcomes.iter().enumerate() {
        for (j, time) in times.iter().enumerate() {
            all.push(EventBets {
                is_initialized: (i + j) % 2 == 0,
                arbiter: key((i * 7 + j) as u8),
                bets_allowed_until_ts: *time,
                outcome: *outcome,
                balance_a: numbers[(i + j) % 8],
                balance_b: numbers[(i * 3 + j * 5) % 8],
            });
        }
    }
    all
}

#[test]
fn markets_are_laid_out_field_by_field() {
    for market in markets() {
        let mut written = Vec::new();
        market.serialize(&mut written);
        assert_eq!(written, fields_of_market(&market));
    }
}

#[test]
fn markets_are_read_field_by_field() {
    for market in markets() {
        let mut data = fields_of_market(&market);
        data.extend_from_slice(&[1, 2, 3]);
        let read = EventBets::deserialize(&data).unwrap();
        assert_eq!(read, market);
        let mut rest: &[u8] = &data;
        assert_eq!(bool::deserialize(&mut rest).unwrap(), read.is_initialized);
        assert_eq!(
            LedgerKey::deserialize(&mut rest).unwrap().to_bytes(),
            read.arbiter.to_bytes()
        );
        assert_eq!(i64::deserialize(&mut rest).unwrap(), read.bets_allowed_until_ts);
        assert_eq!(u8::deserialize(&mut rest).unwrap(), event_bets::pack_match_outcome(read.outcome));
        assert_eq!(u64::deserialize(&mut rest).unwrap(), read.balance_a);
        assert_eq!(u64::deserialize(&mut rest).unwrap(), read.balance_b);
        assert_eq!(rest, &[1, 2, 3]);
    }
}

#[test]
fn positions_are_laid_out_field_by_field() {
    let outcomes = [
        MatchOutcome::Unknown,
        MatchOutcome::TeamA,
        MatchOutcome::TeamB,
        MatchOutcome::Draw,
        MatchOutcome::Withdrawn,
    ];
    for (i, outcome) in outcomes.iter().enumerate() {
        for amount in [0u64, 7, 1 << 32, u64::MAX] {
            let position = Bet {
                is_initialized: i % 2 == 1,
                betor: key(i as u8),
                event: key(100 + i as u8),
                amount,
                outcome: *outcome,
            };
            let mut written = Vec::new();
            position.serialize(&mut written);
            assert_eq!(written, fields_of_position(&position));
            assert_eq!(Bet::deserialize(&written), Ok(position));
            let mut rest: &[u8] = &written;
            assert_eq!(bool::deserialize(&mut rest).unwrap(), position.is_initialized);
            assert_eq!(LedgerKey::deserialize(&mut rest).unwrap().to_bytes(), position.betor.0);
            assert_eq!(LedgerKey::deserialize(&mut rest).unwrap().to_bytes(), position.event.0);
            assert_eq!(u64::deserialize(&mut rest).unwrap(), amount);
            assert_eq!(rest, &[event_bets::pack_match_outcome(*outcome)]);
        }
    }
}

#[test]
fn flags_other_than_zero_and_one_are_refused_alike() {
    for flag in 2u8..=255 {
        let mut data = vec![0u8; 58];
        data[0] = flag;
        assert!(EventBets::deserialize(&data).is_err());
        let mut rest: &[u8] = &data;
        assert!(bool::deserialize(&mut rest).is_err());
    }
}

#[test]
fn keys_compare_as_the_keys_of_the_ledger() {
    for a in 0u8..20 {
        for b in 0u8..20 {
            let same_here = cmp_pubkeys(&key(a), &key(b));
            let same_there =
                LedgerKey::new_from_array(key(a).0) == LedgerKey::new_from_array(key(b).0);
            assert_eq!(same_here, same_there);
            assert_eq!(same_here, a == b);
        }
    }
    let mut last = key(3);
    last.0[31] ^= 1;
    assert!(!cmp_pubkeys(&key(3), &last));
    let mut first = key(3);
    first.0[0] ^= 0x80;
    assert!(!cmp_pubkeys(&first, &key(3)));
    assert_eq!(Pubkey::default().to_bytes(), LedgerKey::default().to_bytes());
}
