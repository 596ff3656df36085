use candid::Principal;
use ireits_backend::error::{ErrorKind, LedgerError};
use ireits_backend::payments::{
    BatchOutcome, PaymentError, PaymentFailure, PaymentPhase, ServiceCall,
};
use ireits_backend::token::icrc7;
use ireits_backend::token::management;
use ireits_backend::token::{ApprovalArgs, PropertyLedger, TokenMetadata, TransferArgs};

const T0: u64 = 1_700_000_000_000_000_000;

fn u(n: u8) -> Principal {
    Principal::from_slice(&[n, 3, 3])
}

fn usdc() -> Principal {
    u(201)
}

fn usdt() -> Principal {
    u(202)
}

fn meta(name: &str) -> TokenMetadata {
    TokenMetadata {
        name: name.to_string(),
        symbol: "PRP".to_string(),
        description: None,
        logo: None,
        content_type: None,
        decimals: 0,
        website: None,
        social_links: None,
        supply_cap: None,
        image: None,
        royalties: None,
        royalty_recipient: None,
        tags: None,
        created_at: 0,
        modified_at: 0,
    }
}

fn moving(from: Principal, to: Principal, token_id: u64) -> TransferArgs {
    TransferArgs { spender_subaccount: None, from, to, token_id, memo: None, created_at_time: None }
}

fn failure(error: PaymentError) -> PaymentFailure {
    PaymentFailure { error, code: 0, message: String::new() }
}

fn ready() -> PropertyLedger {
    let mut ledger = PropertyLedger::new();
    management::initialize_payment_manager(&mut ledger, usdc(), usdt());
    ledger
}

#[test]
fn property_collection_is_optional() {
    let mut ledger = PropertyLedger::new();
    assert_eq!(icrc7::name(&ledger), "");
    assert_eq!(icrc7::symbol(&ledger), "");
    assert_eq!(icrc7::total_supply(&ledger), 0);
    assert_eq!(icrc7::max_supply(&ledger), None);
    assert!(icrc7::get_collection_info(&ledger).is_none());
    // a token can be minted before any collection is set
    let r = management::mint_token(&mut ledger, u(1), T0, meta("A"), 11, 1_000, 5, false, false);
    assert_eq!(r, Ok(1));
    assert!(management::initialize_collection(
        &mut ledger,
        u(9),
        T0,
        "Homes".to_string(),
        "HOM".to_string(),
        "Homes in parts".to_string(),
        100,
        u(9),
        Some(1),
        None,
        None,
        None,
    ));
    assert!(!management::initialize_collection(
        &mut ledger,
        u(8),
        T0,
        "Other".to_string(),
        "OTH".to_string(),
        "Another".to_string(),
        0,
        u(8),
        None,
        None,
        None,
        None,
    ));
    assert_eq!(icrc7::name(&ledger), "Homes");
    assert_eq!(icrc7::symbol(&ledger), "HOM");
    assert_eq!(icrc7::max_supply(&ledger), Some(1));
    assert_eq!(icrc7::get_collection_info(&ledger).unwrap().owner, u(9));
    // the collection counts the mints made since it was set
    assert_eq!(icrc7::total_supply(&ledger), 0);
    assert_eq!(management::mint_token(&mut ledger, u(1), T0, meta("B"), 12, 10, 5, false, false), Ok(2));
    assert_eq!(icrc7::total_supply(&ledger), 1);
    let r = management::mint_token(&mut ledger, u(1), T0, meta("C"), 13, 10, 5, false, false);
    assert_eq!(r, Err(LedgerError::SupplyCapReached));
    assert_eq!(icrc7::total_supply(&ledger), 1);
}

#[test]
fn property_mint_sets_the_terms() {
    let mut ledger = ready();
    assert_eq!(management::mint_token(&mut ledger, u(1), T0 + 3, meta("A"), 77, 1_000, 5, true, true), Ok(1));
    let t = management::get_token(&ledger, 1).unwrap();
    assert_eq!(t.token_id, 1);
    assert_eq!(t.owner, u(1));
    assert_eq!(t.metadata.name, "A");
    assert_eq!(t.metadata.created_at, T0 + 3);
    assert_eq!(t.metadata.modified_at, T0 + 3);
    assert_eq!(t.property_id, 77);
    assert_eq!(t.total_supply, 1_000);
    assert_eq!(t.circulating_supply, 1_000);
    assert_eq!(t.price_per_token, 5);
    assert_eq!(t.available_supply, 1_000);
    assert!(t.use_usdt);
    assert_eq!(t.holders, 1);
    assert!(t.transfer_restricted);
    assert_eq!(t.last_transfer, None);
    let stats = icrc7::get_token_stats(&ledger, 1).unwrap();
    assert_eq!(stats.total_transactions, 0);
    assert_eq!(stats.unique_holders, 1);
    assert_eq!(stats.market_cap, 5_000);
    assert_eq!(stats.volume_24h, 0);
    assert!(management::get_token(&ledger, 2).is_none());
    assert_eq!(icrc7::get_metadata(&ledger, 1).unwrap().name, "A");
    assert!(icrc7::get_metadata(&ledger, 2).is_none());
    assert_eq!(icrc7::owner_of(&ledger, 1), Some(u(1)));
    assert_eq!(icrc7::balance_of(&ledger, u(1)), 1);
}

#[test]
fn property_market_cap_is_held_at_the_largest_value() {
    let mut ledger = ready();
    assert_eq!(management::mint_token(&mut ledger, u(1), T0, meta("A"), 1, u64::MAX, 2, false, false), Ok(1));
    assert_eq!(icrc7::get_token_stats(&ledger, 1).unwrap().market_cap, u64::MAX);
    assert_eq!(ledger.total_issued(), Some(u64::MAX));
    assert_eq!(ledger.compute_distribution(10), Ok(vec![(u(1), 10)]));
}

#[test]
fn income_is_refused_where_the_units_pass_what_u64_holds() {
    let mut ledger = ready();
    assert_eq!(management::mint_token(&mut ledger, u(1), T0, meta("A"), 1, u64::MAX, 2, false, false), Ok(1));
    // a further token is minted all the same
    assert_eq!(management::mint_token(&mut ledger, u(2), T0, meta("B"), 2, 1, 2, false, false), Ok(2));
    assert_eq!(management::get_token(&ledger, 2).unwrap().total_supply, 1);
    assert_eq!(ledger.total_issued(), None);
    assert_eq!(ledger.compute_distribution(10), Err(LedgerError::SupplyOverflow));
    let r = management::distribute_token_income(&mut ledger, u(9), 10, false).err();
    assert_eq!(r, Some(LedgerError::SupplyOverflow));
    // nothing was marked: the refusal is the same the second time
    let r = management::distribute_token_income(&mut ledger, u(9), 10, false).err();
    assert_eq!(r, Some(LedgerError::SupplyOverflow));
}

#[test]
fn property_transfer_and_approval() {
    let mut ledger = ready();
    management::mint_token(&mut ledger, u(1), T0, meta("A"), 1, 100, 5, false, false).unwrap();
    management::mint_token(&mut ledger, u(1), T0, meta("B"), 2, 100, 5, false, true).unwrap();
    assert_eq!(icrc7::transfer(&mut ledger, u(2), T0, moving(u(1), u(2), 1)), Err(LedgerError::TransferNotAuthorized));
    let approval = ApprovalArgs {
        from_subaccount: None,
        spender: u(2),
        token_id: 1,
        expires_at: Some(T0 + 10),
        memo: None,
        created_at_time: None,
    };
    assert_eq!(icrc7::approve(&mut ledger, u(1), approval), Ok(true));
    assert_eq!(icrc7::get_approved(&ledger, T0 + 10, 1), Some((u(2), Some(T0 + 10))));
    assert_eq!(icrc7::get_approved(&ledger, T0 + 11, 1), None);
    assert_eq!(icrc7::transfer(&mut ledger, u(2), T0 + 5, moving(u(1), u(3), 1)), Ok(true));
    assert_eq!(icrc7::owner_of(&ledger, 1), Some(u(3)));
    assert_eq!(icrc7::balance_of(&ledger, u(1)), 1);
    assert_eq!(icrc7::balance_of(&ledger, u(3)), 1);
    assert_eq!(icrc7::get_token_stats(&ledger, 1).unwrap().total_transactions, 1);
    assert_eq!(icrc7::transfer(&mut ledger, u(1), T0, moving(u(1), u(3), 2)), Err(LedgerError::TransferRestricted));
    let mine: Vec<u64> = management::get_user_tokens(&ledger, u(1)).iter().map(|t| t.token_id).collect();
    assert_eq!(mine, vec![2]);
    let theirs = management::get_user_tokens(&ledger, u(3));
    assert_eq!(theirs.len(), 1);
    assert_eq!(theirs[0].token_id, 1);
    assert_eq!(theirs[0].owner, u(3));
    assert_eq!(theirs[0].total_supply, 100);
    assert!(management::get_user_tokens(&ledger, u(2)).is_empty());
}

#[test]
fn purchase_reserves_the_token_until_it_is_settled() {
    let mut ledger = ready();
    management::mint_token(&mut ledger, u(1), T0, meta("A"), 1, 100, 5, false, false).unwrap();
    let (payment, call) = management::purchase_tokens(&mut ledger, u(2), 1, 30).unwrap();
    assert_eq!(payment.service, usdc());
    assert_eq!(payment.from, u(2));
    assert_eq!(payment.to, u(1));
    assert_eq!(payment.amount, 150);
    assert_eq!(payment.phase, PaymentPhase::CheckingBalance);
    match call {
        ServiceCall::BalanceOf { service, account } => {
            assert_eq!(service, usdc());
            assert_eq!(account, u(2));
        }
        _ => panic!("a purchase begins with a query of the balance"),
    }
    // while the payment is under way the token takes no other operation
    let busy = management::purchase_tokens(&mut ledger, u(3), 1, 1).err();
    assert_eq!(busy, Some(LedgerError::Busy));
    assert_eq!(busy.unwrap().kind(), ErrorKind::Conflict);
    assert_eq!(icrc7::transfer(&mut ledger, u(1), T0, moving(u(1), u(3), 1)), Err(LedgerError::Busy));
    let approval = ApprovalArgs {
        from_subaccount: None,
        spender: u(3),
        token_id: 1,
        expires_at: None,
        memo: None,
        created_at_time: None,
    };
    assert_eq!(icrc7::approve(&mut ledger, u(1), approval), Err(LedgerError::Busy));
    assert_eq!(management::get_token(&ledger, 1).unwrap().available_supply, 100);
    assert_eq!(management::settle_purchase(&mut ledger, 1, Ok(())), Ok(true));
    let t = management::get_token(&ledger, 1).unwrap();
    assert_eq!(t.available_supply, 70);
    assert_eq!(t.holders, 2);
    assert_eq!(t.total_supply, 100);
    let stats = icrc7::get_token_stats(&ledger, 1).unwrap();
    assert_eq!(stats.total_transactions, 1);
    assert_eq!(stats.unique_holders, 2);
    assert_eq!(stats.volume_24h, 150);
    assert_eq!(stats.market_cap, 500);
    // the token is free again
    assert_eq!(icrc7::transfer(&mut ledger, u(1), T0, moving(u(1), u(3), 1)), Ok(true));
    let r = management::settle_purchase(&mut ledger, 1, Ok(()));
    assert_eq!(r, Err(LedgerError::NotBusy));
}

#[test]
fn purchase_in_the_other_denomination() {
    let mut ledger = ready();
    management::mint_token(&mut ledger, u(1), T0, meta("A"), 1, 100, 5, true, false).unwrap();
    let (payment, _) = management::purchase_tokens(&mut ledger, u(2), 1, 100).unwrap();
    assert_eq!(payment.service, usdt());
    assert_eq!(payment.amount, 500);
    assert_eq!(management::settle_purchase(&mut ledger, 1, Ok(())), Ok(true));
    assert_eq!(management::get_token(&ledger, 1).unwrap().available_supply, 0);
    assert_eq!(management::purchase_tokens(&mut ledger, u(2), 1, 1).err(), Some(LedgerError::InsufficientSupply));
    assert!(management::purchase_tokens(&mut ledger, u(2), 1, 0).is_ok());
}

#[test]
fn purchase_that_is_not_paid_changes_nothing() {
    let mut ledger = ready();
    management::mint_token(&mut ledger, u(1), T0, meta("A"), 1, 100, 5, false, false).unwrap();
    management::purchase_tokens(&mut ledger, u(2), 1, 30).unwrap();
    let r = management::settle_purchase(&mut ledger, 1, Err(failure(PaymentError::InsufficientBalance)));
    assert_eq!(r, Err(LedgerError::InsufficientBalance));
    management::purchase_tokens(&mut ledger, u(2), 1, 30).unwrap();
    let r = management::settle_purchase(&mut ledger, 1, Err(failure(PaymentError::TransferFailed)));
    assert_eq!(r, Err(LedgerError::TransferFailed));
    assert_eq!(r.unwrap_err().kind(), ErrorKind::TransferFailed);
    management::purchase_tokens(&mut ledger, u(2), 1, 30).unwrap();
    let r = management::settle_purchase(&mut ledger, 1, Err(failure(PaymentError::InvalidToken)));
    assert_eq!(r, Err(LedgerError::UnsupportedSettlementKind));
    let t = management::get_token(&ledger, 1).unwrap();
    assert_eq!(t.available_supply, 100);
    assert_eq!(t.holders, 1);
    assert_eq!(icrc7::get_token_stats(&ledger, 1).unwrap().total_transactions, 0);
    // and the token is free again
    assert!(management::purchase_tokens(&mut ledger, u(2), 1, 30).is_ok());
}

#[test]
fn purchase_refusals() {
    let mut ledger = PropertyLedger::new();
    assert_eq!(management::purchase_tokens(&mut ledger, u(2), 1, 1).err(), Some(LedgerError::TokenNotFound));
    assert_eq!(management::settle_purchase(&mut ledger, 1, Ok(())), Err(LedgerError::TokenNotFound));
    management::mint_token(&mut ledger, u(1), T0, meta("A"), 1, 100, u64::MAX, false, false).unwrap();
    assert_eq!(management::purchase_tokens(&mut ledger, u(2), 1, 2).err(), Some(LedgerError::PriceOverflow));
    let r = management::purchase_tokens(&mut ledger, u(2), 1, 1).err();
    assert_eq!(r, Some(LedgerError::PaymentManagerNotInitialized));
    management::initialize_payment_manager(&mut ledger, usdc(), usdt());
    assert_eq!(management::purchase_tokens(&mut ledger, u(2), 1, 101).err(), Some(LedgerError::PriceOverflow));
    assert_eq!(management::purchase_tokens(&mut ledger, u(2), 0, 1).err(), Some(LedgerError::TokenNotFound));
    management::mint_token(&mut ledger, u(1), T0, meta("B"), 2, 100, 1, false, false).unwrap();
    assert_eq!(management::purchase_tokens(&mut ledger, u(2), 2, 101).err(), Some(LedgerError::InsufficientSupply));
    // purchases of different tokens do not stand in each other's way
    assert!(management::purchase_tokens(&mut ledger, u(2), 1, 1).is_ok());
    assert!(management::purchase_tokens(&mut ledger, u(3), 2, 1).is_ok());
}

#[test]
fn income_is_shared_by_units_owned() {
    let mut ledger = ready();
    management::mint_token(&mut ledger, u(1), T0, meta("A"), 1, 100, 5, false, false).unwrap();
    management::mint_token(&mut ledger, u(2), T0, meta("B"), 2, 300, 5, false, false).unwrap();
    management::mint_token(&mut ledger, u(1), T0, meta("C"), 3, 200, 5, false, false).unwrap();
    management::mint_token(&mut ledger, u(3), T0, meta("D"), 4, 0, 5, false, false).unwrap();
    // 600 units are issued: 300 with the first account, 300 with the second
    assert_eq!(ledger.compute_distribution(1_001).unwrap(), vec![(u(1), 500), (u(2), 500)]);
    assert_eq!(ledger.compute_distribution(0).unwrap(), vec![(u(1), 0), (u(2), 0)]);
    icrc7::transfer(&mut ledger, u(1), T0, moving(u(1), u(3), 1)).unwrap();
    // now 200, 300 and 100
    assert_eq!(ledger.compute_distribution(1_000).unwrap(), vec![(u(1), 333), (u(2), 500), (u(3), 166)]);
    assert_eq!(ledger.compute_distribution(u64::MAX).unwrap(), vec![
        (u(1), u64::MAX / 3),
        (u(2), u64::MAX / 2),
        (u(3), u64::MAX / 6),
    ]);
}

#[test]
fn income_of_a_ledger_without_units_goes_to_nobody() {
    let mut ledger = ready();
    assert!(ledger.compute_distribution(1_000).unwrap().is_empty());
    management::mint_token(&mut ledger, u(1), T0, meta("A"), 1, 0, 5, false, false).unwrap();
    assert!(ledger.compute_distribution(1_000).unwrap().is_empty());
}

#[test]
fn income_distribution_is_one_at_a_time() {
    let mut ledger = PropertyLedger::new();
    management::mint_token(&mut ledger, u(1), T0, meta("A"), 1, 100, 5, false, false).unwrap();
    let r = management::distribute_token_income(&mut ledger, u(9), 1_000, false).err();
    assert_eq!(r, Some(LedgerError::PaymentManagerNotInitialized));
    let r = management::settle_token_income(&mut ledger, BatchOutcome { completed: 0, failure: None });
    assert_eq!(r, Err(LedgerError::NotBusy));
    management::initialize_payment_manager(&mut ledger, usdc(), usdt());
    let (_batch, call) = management::distribute_token_income(&mut ledger, u(9), 1_000, true).unwrap();
    match call {
        ServiceCall::BalanceOf { service, account } => {
            assert_eq!(service, usdt());
            assert_eq!(account, u(9));
        }
        _ => panic!("a distribution begins with a query of the balance"),
    }
    let again = management::distribute_token_income(&mut ledger, u(9), 1_000, true).err();
    assert_eq!(again, Some(LedgerError::Busy));
    // tokens still move while income is paid
    assert_eq!(icrc7::transfer(&mut ledger, u(1), T0, moving(u(1), u(2), 1)), Ok(true));
    let r = management::settle_token_income(&mut ledger, BatchOutcome { completed: 1, failure: None });
    assert_eq!(r, Ok(true));
    assert!(management::distribute_token_income(&mut ledger, u(9), 1_000, false).is_ok());
}

#[test]
fn income_outcomes() {
    let mut ledger = ready();
    management::distribute_token_income(&mut ledger, u(9), 1_000, false).unwrap();
    let outcome = BatchOutcome { completed: 0, failure: Some(failure(PaymentError::InsufficientBalance)) };
    assert_eq!(management::settle_token_income(&mut ledger, outcome), Err(LedgerError::InsufficientBalance));
    management::distribute_token_income(&mut ledger, u(9), 1_000, false).unwrap();
    let outcome = BatchOutcome { completed: 0, failure: Some(failure(PaymentError::TransferFailed)) };
    assert_eq!(management::settle_token_income(&mut ledger, outcome), Err(LedgerError::TransferFailed));
    management::distribute_token_income(&mut ledger, u(9), 1_000, false).unwrap();
    let outcome = BatchOutcome { completed: 2, failure: Some(failure(PaymentError::TransferFailed)) };
    assert_eq!(
        management::settle_token_income(&mut ledger, outcome),
        Err(LedgerError::PartialFailure { completed: 2, cause: ErrorKind::TransferFailed })
    );
}
