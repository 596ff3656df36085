use candid::Principal;
use ireits_backend::error::{ErrorKind, LedgerError};
use ireits_backend::ret_token::{
    RETToken, TransferArgs, AIRDROP_ALLOCATION, GENESIS_MINT, INITIAL_SUPPLY, MIN_STAKE_DURATION, NANOS_PER_DAY,
    STAKE_APR,
};

const T0: u64 = 1_700_000_000_000_000_000;

fn who(n: u8) -> Principal {
    Principal::from_slice(&[n, 7])
}

fn send(from: Principal, to: Principal, amount: u64) -> TransferArgs {
    TransferArgs { from, to, amount, memo: None }
}

fn funded() -> RETToken {
    let mut ledger = RETToken::new();
    assert!(ledger.initialize(who(0), T0, None, None));
    ledger
}

fn held(ledger: &RETToken, accounts: &[Principal]) -> u64 {
    accounts.iter().map(|a| ledger.balance_of(*a) + ledger.staked_balance_of(*a)).sum()
}

#[test]
fn ret_constants() {
    assert_eq!(INITIAL_SUPPLY, 10_000_000);
    assert_eq!(AIRDROP_ALLOCATION, INITIAL_SUPPLY / 2);
    assert_eq!(GENESIS_MINT, INITIAL_SUPPLY - AIRDROP_ALLOCATION);
    assert_eq!(NANOS_PER_DAY, 24 * 60 * 60 * 1_000_000_000);
    assert_eq!(MIN_STAKE_DURATION, 30 * NANOS_PER_DAY);
    assert_eq!(STAKE_APR, 10);
}

#[test]
fn ret_initialize_credits_the_owner_once() {
    let mut ledger = RETToken::new();
    assert!(ledger.get_metadata().is_none());
    assert_eq!(ledger.balance_of(who(0)), 0);
    assert!(ledger.initialize(
        who(0),
        T0,
        Some("https://ret.example".to_string()),
        Some(vec!["https://social.example/ret".to_string()]),
    ));
    assert!(!ledger.initialize(who(1), T0 + 1, None, None));
    let m = ledger.get_metadata().unwrap();
    assert_eq!(m.name, "Real Estate Token");
    assert_eq!(m.symbol, "RET");
    assert_eq!(m.description, Some("Governance token for Real Estate Investment Platform".to_string()));
    assert_eq!(m.logo, None);
    assert_eq!(m.decimals, 8);
    assert_eq!(m.total_supply, 10_000_000);
    assert_eq!(m.circulating_supply, 5_000_000);
    assert_eq!(m.owner, who(0));
    assert_eq!(m.created_at, T0);
    assert_eq!(m.website, Some("https://ret.example".to_string()));
    assert_eq!(m.social_links, Some(vec!["https://social.example/ret".to_string()]));
    assert_eq!(ledger.balance_of(who(0)), 5_000_000);
    assert_eq!(ledger.balance_of(who(1)), 0);
    assert_eq!(ledger.staked_balance_of(who(0)), 0);
}

#[test]
fn ret_initialize_adds_to_an_earlier_airdrop() {
    let mut ledger = RETToken::new();
    assert_eq!(ledger.airdrop(vec![(who(0), 40)]), Ok(true));
    assert!(ledger.initialize(who(0), T0, None, None));
    assert_eq!(ledger.balance_of(who(0)), 5_000_040);
    assert_eq!(ledger.get_stats().total_airdropped, 40);
}

#[test]
fn ret_transfer_moves_the_amount() {
    let mut ledger = funded();
    assert_eq!(ledger.transfer(who(0), send(who(0), who(1), 1_500)), Ok(true));
    assert_eq!(ledger.balance_of(who(0)), 4_998_500);
    assert_eq!(ledger.balance_of(who(1)), 1_500);
    assert_eq!(ledger.transfer(who(1), send(who(1), who(2), 500)), Ok(true));
    assert_eq!(ledger.balance_of(who(1)), 1_000);
    assert_eq!(ledger.balance_of(who(2)), 500);
    let stats = ledger.get_stats();
    assert_eq!(stats.total_transactions, 2);
    assert_eq!(stats.volume_24h, 2_000);
    assert_eq!(stats.total_staked, 0);
    assert_eq!(stats.total_airdropped, 0);
    assert_eq!(stats.unique_holders, 0);
}

#[test]
fn ret_transfer_refusals() {
    let mut ledger = funded();
    // not the sender
    let r = ledger.transfer(who(1), send(who(0), who(1), 1));
    assert_eq!(r, Err(LedgerError::Unauthorized));
    assert_eq!(r.unwrap_err().kind(), ErrorKind::Unauthorized);
    assert_eq!(r.unwrap_err().message(), "Not authorized");
    // a sender that was never credited, even for nothing
    let r = ledger.transfer(who(1), send(who(1), who(0), 0));
    assert_eq!(r, Err(LedgerError::SenderNotFound));
    assert_eq!(r.unwrap_err().kind(), ErrorKind::NotFound);
    // more than the balance
    let r = ledger.transfer(who(0), send(who(0), who(1), 5_000_001));
    assert_eq!(r, Err(LedgerError::InsufficientBalance));
    assert_eq!(r.unwrap_err().kind(), ErrorKind::InsufficientBalance);
    assert_eq!(ledger.balance_of(who(0)), 5_000_000);
    assert_eq!(ledger.balance_of(who(1)), 0);
    assert_eq!(ledger.get_stats().total_transactions, 0);
    assert_eq!(ledger.get_stats().volume_24h, 0);
}

#[test]
fn ret_transfer_edges() {
    let mut ledger = funded();
    // the whole balance
    assert_eq!(ledger.transfer(who(0), send(who(0), who(1), 5_000_000)), Ok(true));
    assert_eq!(ledger.balance_of(who(0)), 0);
    assert_eq!(ledger.balance_of(who(1)), 5_000_000);
    // nothing at all, from an account that is known
    assert_eq!(ledger.transfer(who(0), send(who(0), who(2), 0)), Ok(true));
    assert_eq!(ledger.balance_of(who(2)), 0);
    // to oneself
    assert_eq!(ledger.transfer(who(1), send(who(1), who(1), 700)), Ok(true));
    assert_eq!(ledger.balance_of(who(1)), 5_000_000);
    assert_eq!(ledger.get_stats().total_transactions, 3);
    assert_eq!(ledger.get_stats().volume_24h, 5_000_700);
}

#[test]
fn ret_stake_then_unstake_pays_the_reward() {
    let mut ledger = funded();
    assert_eq!(ledger.stake(who(0), T0, 1000, MIN_STAKE_DURATION), Ok(true));
    assert_eq!(ledger.balance_of(who(0)), 4_999_000);
    assert_eq!(ledger.staked_balance_of(who(0)), 1000);
    assert_eq!(ledger.get_stats().total_staked, 1000);
    let r = ledger.unstake(who(0), T0 + MIN_STAKE_DURATION);
    // 1000 * 10 * 30 / 36500 = 8
    assert_eq!(r, Ok(1000 + 1000 * 10 * 30 / (365 * 100)));
    assert_eq!(r, Ok(1008));
    assert_eq!(ledger.balance_of(who(0)), 5_000_008);
    assert_eq!(ledger.staked_balance_of(who(0)), 0);
    assert_eq!(ledger.get_stats().total_staked, 0);
}

#[test]
fn ret_reward_counts_whole_days_of_the_duration() {
    let mut ledger = funded();
    let duration = 365 * NANOS_PER_DAY + NANOS_PER_DAY - 1;
    assert_eq!(ledger.stake(who(0), T0, 2_000_000, duration), Ok(true));
    // long after the lock: the reward is for the 365 days of the duration
    assert_eq!(ledger.unstake(who(0), T0 + 3 * duration), Ok(2_200_000));
    assert_eq!(ledger.balance_of(who(0)), 5_200_000);
}

#[test]
fn ret_small_stake_earns_nothing() {
    let mut ledger = funded();
    assert_eq!(ledger.stake(who(0), T0, 121, MIN_STAKE_DURATION), Ok(true));
    // 121 * 10 * 30 = 36300 < 36500
    assert_eq!(ledger.unstake(who(0), T0 + MIN_STAKE_DURATION), Ok(121));
    assert_eq!(ledger.stake(who(0), T0, 122, MIN_STAKE_DURATION), Ok(true));
    // 122 * 10 * 30 = 36600
    assert_eq!(ledger.unstake(who(0), T0 + MIN_STAKE_DURATION), Ok(123));
}

#[test]
fn ret_stake_refusals() {
    let mut ledger = funded();
    let r = ledger.stake(who(0), T0, 10, MIN_STAKE_DURATION - 1);
    assert_eq!(r, Err(LedgerError::DurationTooShort));
    assert_eq!(r.unwrap_err().kind(), ErrorKind::InvalidInput);
    let r = ledger.stake(who(5), T0, 10, MIN_STAKE_DURATION);
    assert_eq!(r, Err(LedgerError::HolderNotFound));
    let r = ledger.stake(who(0), T0, 5_000_001, MIN_STAKE_DURATION);
    assert_eq!(r, Err(LedgerError::InsufficientBalance));
    assert_eq!(ledger.stake(who(0), T0, 10, MIN_STAKE_DURATION), Ok(true));
    let r = ledger.stake(who(0), T0 + 1, 10, MIN_STAKE_DURATION);
    assert_eq!(r, Err(LedgerError::AlreadyStaked));
    assert_eq!(r.unwrap_err().kind(), ErrorKind::InvalidState);
    assert_eq!(ledger.staked_balance_of(who(0)), 10);
    assert_eq!(ledger.balance_of(who(0)), 4_999_990);
    assert_eq!(ledger.get_stats().total_staked, 10);
}

#[test]
fn ret_unstake_refusals() {
    let mut ledger = funded();
    assert_eq!(ledger.unstake(who(5), T0), Err(LedgerError::HolderNotFound));
    let r = ledger.unstake(who(0), T0);
    assert_eq!(r, Err(LedgerError::NothingStaked));
    assert_eq!(r.unwrap_err().kind(), ErrorKind::InvalidState);
    assert_eq!(ledger.stake(who(0), T0, 1000, MIN_STAKE_DURATION), Ok(true));
    let r = ledger.unstake(who(0), T0 + MIN_STAKE_DURATION - 1);
    assert_eq!(r, Err(LedgerError::LockNotElapsed));
    assert_eq!(r.unwrap_err().kind(), ErrorKind::InvalidState);
    assert_eq!(ledger.staked_balance_of(who(0)), 1000);
    assert_eq!(ledger.get_stats().total_staked, 1000);
    assert_eq!(ledger.unstake(who(0), T0 + MIN_STAKE_DURATION), Ok(1008));
    assert_eq!(ledger.unstake(who(0), T0 + MIN_STAKE_DURATION), Err(LedgerError::NothingStaked));
}

#[test]
fn ret_lock_that_ends_beyond_the_clock_never_elapses() {
    let mut ledger = funded();
    assert_eq!(ledger.stake(who(0), u64::MAX - 5, 1000, MIN_STAKE_DURATION), Ok(true));
    assert_eq!(ledger.unstake(who(0), u64::MAX), Err(LedgerError::LockNotElapsed));
}

#[test]
fn ret_total_staked_follows_every_stake() {
    let mut ledger = funded();
    ledger.transfer(who(0), send(who(0), who(1), 10_000)).unwrap();
    ledger.stake(who(0), T0, 300, MIN_STAKE_DURATION).unwrap();
    ledger.stake(who(1), T0, 200, MIN_STAKE_DURATION).unwrap();
    assert_eq!(ledger.get_stats().total_staked, 500);
    ledger.unstake(who(0), T0 + MIN_STAKE_DURATION).unwrap();
    assert_eq!(ledger.get_stats().total_staked, 200);
    ledger.unstake(who(1), T0 + MIN_STAKE_DURATION).unwrap();
    assert_eq!(ledger.get_stats().total_staked, 0);
}

#[test]
fn ret_airdrop_credits_everyone_or_nobody() {
    let mut ledger = funded();
    assert_eq!(ledger.airdrop(vec![(who(1), 100), (who(2), 200), (who(1), 50)]), Ok(true));
    assert_eq!(ledger.balance_of(who(1)), 150);
    assert_eq!(ledger.balance_of(who(2)), 200);
    assert_eq!(ledger.get_stats().total_airdropped, 350);
    // the second recipient would pass the allocation: the first gets nothing either
    let r = ledger.airdrop(vec![(who(3), 10), (who(4), AIRDROP_ALLOCATION - 359)]);
    assert_eq!(r, Err(LedgerError::AllocationExceeded));
    assert_eq!(r.unwrap_err().kind(), ErrorKind::AllocationExceeded);
    assert_eq!(ledger.balance_of(who(3)), 0);
    assert_eq!(ledger.balance_of(who(4)), 0);
    assert_eq!(ledger.get_stats().total_airdropped, 350);
    // exactly what is left goes through
    assert_eq!(ledger.airdrop(vec![(who(3), 10), (who(4), AIRDROP_ALLOCATION - 360)]), Ok(true));
    assert_eq!(ledger.get_stats().total_airdropped, AIRDROP_ALLOCATION);
    assert_eq!(ledger.airdrop(vec![(who(3), 1)]), Err(LedgerError::AllocationExceeded));
    assert_eq!(ledger.airdrop(vec![]), Ok(true));
    assert_eq!(ledger.airdrop(vec![(who(3), 0)]), Ok(true));
    assert_eq!(ledger.balance_of(who(3)), 10);
}

#[test]
fn ret_airdrop_of_sums_beyond_u64_is_refused() {
    let mut ledger = RETToken::new();
    let r = ledger.airdrop(vec![(who(1), u64::MAX), (who(2), u64::MAX), (who(3), 2)]);
    assert_eq!(r, Err(LedgerError::AllocationExceeded));
    assert_eq!(ledger.balance_of(who(1)), 0);
}

#[test]
fn ret_supply_is_conserved() {
    let mut ledger = funded();
    let accounts = [who(0), who(1), who(2), who(3)];
    let mut minted = GENESIS_MINT;
    assert_eq!(held(&ledger, &accounts), minted);
    ledger.airdrop(vec![(who(1), 40_000), (who(2), 7)]).unwrap();
    assert_eq!(held(&ledger, &accounts), minted + ledger.get_stats().total_airdropped);
    ledger.transfer(who(0), send(who(0), who(3), 123_456)).unwrap();
    ledger.transfer(who(1), send(who(1), who(2), 40_000)).unwrap();
    assert!(ledger.transfer(who(2), send(who(2), who(1), 50_000)).is_err());
    assert_eq!(held(&ledger, &accounts), minted + 40_007);
    ledger.stake(who(3), T0, 100_000, MIN_STAKE_DURATION).unwrap();
    assert!(ledger.stake(who(3), T0, 1, MIN_STAKE_DURATION).is_err());
    assert_eq!(held(&ledger, &accounts), minted + 40_007);
    assert!(ledger.unstake(who(3), T0 + 1).is_err());
    let returned = ledger.unstake(who(3), T0 + MIN_STAKE_DURATION).unwrap();
    // the reward is new supply: 100000 * 10 * 30 / 36500 = 821
    assert_eq!(returned, 100_821);
    minted += 821;
    assert_eq!(held(&ledger, &accounts), minted + ledger.get_stats().total_airdropped);
    assert_eq!(ledger.get_stats().total_staked, 0);
}
