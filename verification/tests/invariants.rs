use event_bets::processor::{process_instruction, BETS_RENT_EXEMPTION};
use event_bets::{Account, Bet, BetError, EventBets, MatchOutcome, Pubkey};

const RENT: u64 = 1_000_000;

fn program() -> Pubkey {
    Pubkey([1u8; 32])
}

fn holder(tag: u8, is_signer: bool, lamports: u64) -> Account {
    Account {
        key: Pubkey([tag; 32]),
        owner: Pubkey([0u8; 32]),
        is_signer,
        lamports,
        data: Vec::new(),
    }
}

fn slot(tag: u8, lamports: u64, len: usize) -> Account {
    Account {
        key: Pubkey([tag; 32]),
        owner: program(),
        is_signer: false,
        lamports,
        data: vec![0u8; len],
    }
}

fn total(accounts: &[Account]) -> u128 {
    accounts.iter().map(|account| account.lamports as u128).sum()
}

fn pools(market: &Account) -> EventBets {
    EventBets::deserialize(&market.data).unwrap()
}

fn serve(accounts: &mut Vec<Account>, request: &[u8], now: i64) -> Result<(), BetError> {
    let before = accounts.clone();
    let held = total(accounts);
    let done = process_instruction(&program(), accounts, request, now, RENT);
    assert_eq!(total(accounts), held);
    assert_eq!(accounts.len(), before.len());
    if done.is_err() {
        assert_eq!(*accounts, before);
    }
    done
}

struct Event {
    arbiter: Account,
    market: Account,
    bettors: Vec<Account>,
    positions: Vec<Account>,
}

fn event_with_stakes(stakes: &[(u8, u64)]) -> Event {
    let mut initialize = vec![0u8];
    initialize.extend_from_slice(&1000i64.to_le_bytes());
    let mut accounts = vec![holder(2, true, 0), slot(3, RENT, 58)];
    assert_eq!(serve(&mut accounts, &initialize, 0), Ok(()));
    let mut event = Event {
        arbiter: accounts[0].clone(),
        market: accounts[1].clone(),
        bettors: Vec::new(),
        positions: Vec::new(),
    };
    for (i, (side, stake)) in stakes.iter().enumerate() {
        let bettor = holder(100 + i as u8, false, 0);
        let staging = slot(150 + i as u8, BETS_RENT_EXEMPTION + stake, 74);
        let mut accounts = vec![bettor, event.market.clone(), staging];
        assert_eq!(serve(&mut accounts, &[1, *side], 10), Ok(()));
        let open = pools(&accounts[1]);
        assert!(open.balance_a as u128 + open.balance_b as u128 <= accounts[1].lamports as u128);
        let position = Bet::deserialize(&accounts[2].data).unwrap();
        assert_eq!(position.amount, *stake);
        assert!(position.amount <= accounts[1].lamports);
        event.market = accounts[1].clone();
        event.bettors.push(accounts[0].clone());
        event.positions.push(accounts[2].clone());
    }
    event
}

fn settle(event: &mut Event, result: u8) {
    let mut accounts = vec![event.arbiter.clone(), event.market.clone()];
    let before = event.market.lamports;
    assert_eq!(serve(&mut accounts, &[2, result], 1000), Ok(()));
    assert_eq!(accounts[0].lamports, before * 3 / 100);
    event.arbiter = accounts[0].clone();
    event.market = accounts[1].clone();
}

fn pay_all(event: &mut Event, order: &[usize]) -> Vec<u64> {
    let mut paid = vec![0u64; event.positions.len()];
    for &i in order {
        let mut accounts =
            vec![event.bettors[i].clone(), event.market.clone(), event.positions[i].clone()];
        assert_eq!(serve(&mut accounts, &[3], 0), Ok(()));
        paid[i] = accounts[0].lamports - event.bettors[i].lamports;
        event.bettors[i] = accounts[0].clone();
        event.market = accounts[1].clone();
        event.positions[i] = accounts[2].clone();
        assert_eq!(serve(&mut accounts, &[3], 0), Err(BetError::InvalidChoice));
    }
    paid
}

#[test]
fn every_winner_of_team_a_can_be_paid() {
    let stakes = [(1u8, 100u64), (2, 50), (1, 33), (1, 1), (2, 7), (1, 999)];
    let mut event = event_with_stakes(&stakes);
    assert_eq!((pools(&event.market).balance_a, pools(&event.market).balance_b), (1133, 57));
    settle(&mut event, 1);
    let held = event.market.lamports;
    let paid = pay_all(&mut event, &[5, 0, 1, 4, 3, 2]);
    let shares: Vec<u64> =
        [100u64, 33, 1, 999].iter().map(|s| (s + s * 57 / 1133) * 97 / 100).collect();
    assert_eq!(paid, vec![shares[0], 0, shares[1], shares[2], 0, shares[3]]);
    assert_eq!(paid, vec![101, 0, 32, 0, 0, 1017]);
    let sum: u64 = paid.iter().sum();
    assert!(sum <= (1133 + 57) * 97 / 100);
    assert_eq!(event.market.lamports, held - sum);
}

#[test]
fn every_bettor_can_be_paid_after_a_draw() {
    let stakes = [(1u8, 199u64), (2, 201), (2, 1), (1, 3)];
    let mut event = event_with_stakes(&stakes);
    settle(&mut event, 3);
    let paid = pay_all(&mut event, &[0, 1, 2, 3]);
    assert_eq!(paid, vec![193, 194, 0, 2]);
    assert!(paid.iter().sum::<u64>() <= 404 * 97 / 100);
}

#[test]
fn an_event_without_bets_settles() {
    let mut event = event_with_stakes(&[]);
    settle(&mut event, 2);
    assert_eq!(event.market.lamports, RENT - 30_000);
    assert_eq!(event.arbiter.lamports, 30_000);
    assert_eq!(pools(&event.market).outcome, MatchOutcome::TeamB);
}

#[test]
fn refused_requests_change_nothing() {
    let mut event = event_with_stakes(&[(1, 10), (2, 20)]);
    let mut early = vec![event.arbiter.clone(), event.market.clone()];
    assert_eq!(serve(&mut early, &[2, 1], 999), Err(BetError::TooEarly));
    let mut unsettled =
        vec![event.bettors[0].clone(), event.market.clone(), event.positions[0].clone()];
    assert_eq!(serve(&mut unsettled, &[3], 0), Err(BetError::OutcomeStillUnknown));
    settle(&mut event, 2);
    let mut late = vec![
        holder(9, false, 0),
        event.market.clone(),
        slot(10, BETS_RENT_EXEMPTION + 5, 74),
    ];
    assert_eq!(serve(&mut late, &[1, 1], 1000), Err(BetError::OutcomeAlreadySet));
    assert_eq!(serve(&mut late, &[1, 1], 1001), Err(BetError::BettingClosed));
    let mut wrong = vec![
        event.bettors[0].clone(),
        event.market.clone(),
        event.positions[1].clone(),
    ];
    assert_eq!(serve(&mut wrong, &[3], 0), Err(BetError::Unauthorized));
    let mut empty: Vec<Account> = Vec::new();
    assert_eq!(serve(&mut empty, &[], 0), Err(BetError::MalformedData));
}
