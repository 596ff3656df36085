use candid::Principal;
use ireits_backend::error::{ErrorKind, LedgerError};
use ireits_backend::icrc7_token::{ApprovalArgs, ICRC7Token, TokenMetadata, TransferArgs};

const NOW: u64 = 1_700_000_000_000_000_000;

fn setup_test_collection(ledger: &mut ICRC7Token) -> bool {
    ledger.initialize_collection(
        Principal::anonymous(),
        NOW,
        "Test Collection".to_string(),
        "TEST".to_string(),
        "Test NFT Collection".to_string(),
        250, // 2.5% royalties
        Principal::anonymous(),
        Some(1000),
        None,
        Some("https://test.com".to_string()),
        Some(vec!["https://twitter.com/test".to_string()]),
    )
}

fn create_test_metadata() -> TokenMetadata {
    TokenMetadata {
        name: "Test Token".to_string(),
        symbol: "TEST".to_string(),
        description: Some("Test Token Description".to_string()),
        logo: None,
        content_type: None,
        decimals: 0,
        website: None,
        social_links: None,
        supply_cap: Some(1),
        image: None,
        royalties: Some(250),
        royalty_recipient: Some(Principal::anonymous()),
        tags: Some(vec!["test".to_string()]),
        created_at: NOW,
        modified_at: NOW,
    }
}

fn transfer_args(from: Principal, to: Principal, token_id: u64) -> TransferArgs {
    TransferArgs { spender_subaccount: None, from, to, token_id, memo: None, created_at_time: None }
}

fn approval_args(spender: Principal, token_id: u64, expires_at: Option<u64>) -> ApprovalArgs {
    ApprovalArgs { from_subaccount: None, spender, token_id, expires_at, memo: None, created_at_time: None }
}

fn account(n: u8) -> Principal {
    Principal::from_slice(&[n, n, n])
}

#[test]
fn test_collection_initialization() {
    let mut ledger = ICRC7Token::new();
    assert!(setup_test_collection(&mut ledger));
    assert_eq!(ledger.name(), "Test Collection");
    assert_eq!(ledger.symbol(), "TEST");
    assert_eq!(ledger.total_supply(), 0);
    assert_eq!(ledger.max_supply(), Some(1000));
}

#[test]
fn test_token_minting() {
    let mut ledger = ICRC7Token::new();
    assert!(setup_test_collection(&mut ledger));
    let owner = Principal::anonymous();
    let metadata = create_test_metadata();

    let token_id = ledger.mint(owner, NOW, metadata.clone(), false).ok();
    assert!(token_id.is_some());
    assert_eq!(token_id, Some(1));

    let token = ledger.get_token(1);
    assert!(token.is_some());
    let token = token.unwrap();
    assert_eq!(token.owner, owner);
    assert_eq!(token.metadata.name, metadata.name);
    assert_eq!(ledger.total_supply(), 1);
}

#[test]
fn test_token_transfer() {
    let mut ledger = ICRC7Token::new();
    assert!(setup_test_collection(&mut ledger));
    let owner = Principal::anonymous();
    // "2vxsx-fae" is the text of the anonymous principal, the owner itself;
    // the counts below change only where the recipient is another account.
    assert_eq!(Principal::from_text("2vxsx-fae").unwrap(), owner);
    let recipient = Principal::from_text("aaaaa-aa").unwrap();

    // Mint token
    let token_id = ledger.mint(owner, NOW, create_test_metadata(), false).unwrap();

    // Transfer token
    let result = ledger.transfer(owner, NOW, transfer_args(owner, recipient, token_id));
    assert!(result.is_ok());

    // Verify ownership change
    assert_eq!(ledger.owner_of(token_id), Some(recipient));
    assert_eq!(ledger.balance_of(owner), 0);
    assert_eq!(ledger.balance_of(recipient), 1);
}

#[test]
fn test_token_transfer_to_self() {
    let mut ledger = ICRC7Token::new();
    assert!(setup_test_collection(&mut ledger));
    let owner = Principal::anonymous();
    let recipient = Principal::from_text("2vxsx-fae").unwrap();
    let token_id = ledger.mint(owner, NOW, create_test_metadata(), false).unwrap();

    let result = ledger.transfer(owner, NOW + 5, transfer_args(owner, recipient, token_id));
    assert_eq!(result, Ok(true));

    assert_eq!(ledger.owner_of(token_id), Some(recipient));
    assert_eq!(ledger.balance_of(owner), 1);
    assert_eq!(ledger.get_token(token_id).unwrap().last_transfer, Some(NOW + 5));
    assert_eq!(ledger.get_user_tokens(owner).len(), 1);
}

#[test]
fn test_token_approval() {
    let mut ledger = ICRC7Token::new();
    assert!(setup_test_collection(&mut ledger));
    let owner = Principal::anonymous();
    let spender = Principal::from_text("2vxsx-fae").unwrap();

    // Mint token
    let token_id = ledger.mint(owner, NOW, create_test_metadata(), false).unwrap();

    // Approve token
    let result = ledger.approve(owner, approval_args(spender, token_id, None));
    assert!(result.is_ok());

    // Verify approval
    let approved = ledger.get_approved(NOW, token_id);
    assert!(approved.is_some());
    let (approved_spender, _) = approved.unwrap();
    assert_eq!(approved_spender, spender);
}

#[test]
fn test_transfer_restrictions() {
    let mut ledger = ICRC7Token::new();
    assert!(setup_test_collection(&mut ledger));
    let owner = Principal::anonymous();
    let recipient = Principal::from_text("2vxsx-fae").unwrap();

    // Mint restricted token
    let token_id = ledger.mint(owner, NOW, create_test_metadata(), true).unwrap();

    // Attempt transfer
    let result = ledger.transfer(owner, NOW, transfer_args(owner, recipient, token_id));
    assert!(result.is_err());
    assert_eq!(result.unwrap_err().message(), "Token transfers are restricted");
}

#[test]
fn test_token_stats() {
    let mut ledger = ICRC7Token::new();
    assert!(setup_test_collection(&mut ledger));
    let owner = Principal::anonymous();
    let recipient = Principal::from_text("2vxsx-fae").unwrap();

    // Mint token
    let token_id = ledger.mint(owner, NOW, create_test_metadata(), false).unwrap();

    // Check initial stats
    let stats = ledger.get_token_stats(token_id).unwrap();
    assert_eq!(stats.total_transactions, 0);
    assert_eq!(stats.unique_holders, 1);

    // Transfer token
    ledger.transfer(owner, NOW, transfer_args(owner, recipient, token_id)).unwrap();

    // Check updated stats
    let stats = ledger.get_token_stats(token_id).unwrap();
    assert_eq!(stats.total_transactions, 1);
}

#[test]
fn collection_is_set_once() {
    let mut ledger = ICRC7Token::new();
    assert_eq!(ledger.name(), "");
    assert_eq!(ledger.symbol(), "");
    assert_eq!(ledger.total_supply(), 0);
    assert_eq!(ledger.max_supply(), None);
    assert!(ledger.get_collection_info().is_none());
    assert!(setup_test_collection(&mut ledger));
    assert!(!setup_test_collection(&mut ledger));
    let info = ledger.get_collection_info().unwrap();
    assert_eq!(info.owner, Principal::anonymous());
    assert_eq!(info.created_at, NOW);
    assert_eq!(info.royalties, 250);
    assert_eq!(info.description, "Test NFT Collection");
    assert_eq!(info.website, Some("https://test.com".to_string()));
    assert_eq!(info.social_links, Some(vec!["https://twitter.com/test".to_string()]));
}

#[test]
fn mint_needs_a_collection() {
    let mut ledger = ICRC7Token::new();
    let r = ledger.mint(account(1), NOW, create_test_metadata(), false);
    assert_eq!(r, Err(LedgerError::CollectionNotInitialized));
    assert_eq!(ledger.owner_of(1), None);
}

#[test]
fn mint_stamps_metadata_and_counts_up() {
    let mut ledger = ICRC7Token::new();
    assert!(setup_test_collection(&mut ledger));
    let mut metadata = create_test_metadata();
    metadata.created_at = 1;
    metadata.modified_at = 2;
    metadata.logo = Some(vec![1, 2, 3]);
    assert_eq!(ledger.mint(account(1), NOW + 7, metadata, false), Ok(1));
    assert_eq!(ledger.mint(account(2), NOW + 8, create_test_metadata(), false), Ok(2));
    assert_eq!(ledger.mint(account(1), NOW + 9, create_test_metadata(), true), Ok(3));
    let stored = ledger.get_metadata(1).unwrap();
    assert_eq!(stored.created_at, NOW + 7);
    assert_eq!(stored.modified_at, NOW + 7);
    assert_eq!(stored.logo, Some(vec![1, 2, 3]));
    assert_eq!(stored.tags, Some(vec!["test".to_string()]));
    assert!(ledger.get_metadata(4).is_none());
    assert!(ledger.get_token(0).is_none());
    assert!(ledger.get_token_stats(4).is_none());
    assert_eq!(ledger.total_supply(), 3);
    assert_eq!(ledger.balance_of(account(1)), 2);
    assert_eq!(ledger.balance_of(account(2)), 1);
    assert_eq!(ledger.balance_of(account(3)), 0);
    let mine: Vec<u64> = ledger.get_user_tokens(account(1)).iter().map(|t| t.token_id).collect();
    assert_eq!(mine, vec![1, 3]);
    assert!(ledger.get_token(3).unwrap().transfer_restricted);
    assert_eq!(ledger.get_token(3).unwrap().last_transfer, None);
}

#[test]
fn cap_of_one_admits_one_mint() {
    let mut ledger = ICRC7Token::new();
    assert!(ledger.initialize_collection(
        account(9),
        NOW,
        "One".to_string(),
        "ONE".to_string(),
        "A single token".to_string(),
        0,
        account(9),
        Some(1),
        None,
        None,
        None,
    ));
    assert_eq!(ledger.mint(account(1), NOW, create_test_metadata(), false), Ok(1));
    let second = ledger.mint(account(1), NOW, create_test_metadata(), false);
    assert_eq!(second, Err(LedgerError::SupplyCapReached));
    assert_eq!(second.unwrap_err().kind(), ErrorKind::InvalidState);
    assert_eq!(ledger.total_supply(), 1);
    assert_eq!(ledger.owner_of(2), None);
    assert_eq!(ledger.balance_of(account(1)), 1);
}

#[test]
fn cap_of_zero_admits_no_mint() {
    let mut ledger = ICRC7Token::new();
    assert!(ledger.initialize_collection(
        account(9),
        NOW,
        "None".to_string(),
        "NON".to_string(),
        "No token".to_string(),
        0,
        account(9),
        Some(0),
        None,
        None,
        None,
    ));
    assert_eq!(ledger.mint(account(1), NOW, create_test_metadata(), false), Err(LedgerError::SupplyCapReached));
}

#[test]
fn restricted_token_keeps_its_owner() {
    let mut ledger = ICRC7Token::new();
    assert!(setup_test_collection(&mut ledger));
    let owner = account(1);
    let other = account(2);
    let id = ledger.mint(owner, NOW, create_test_metadata(), true).unwrap();
    let r = ledger.transfer(owner, NOW, transfer_args(owner, other, id));
    assert_eq!(r, Err(LedgerError::TransferRestricted));
    assert_eq!(r.unwrap_err().kind(), ErrorKind::InvalidState);
    ledger.approve(owner, approval_args(other, id, None)).unwrap();
    assert_eq!(ledger.transfer(other, NOW, transfer_args(owner, other, id)), Err(LedgerError::TransferRestricted));
    assert_eq!(ledger.owner_of(id), Some(owner));
    assert_eq!(ledger.balance_of(owner), 1);
    assert_eq!(ledger.balance_of(other), 0);
    assert_eq!(ledger.get_token_stats(id).unwrap().total_transactions, 0);
}

#[test]
fn transfer_errors_come_in_order() {
    let mut ledger = ICRC7Token::new();
    assert!(setup_test_collection(&mut ledger));
    let owner = account(1);
    let other = account(2);
    let third = account(3);
    let id = ledger.mint(owner, NOW, create_test_metadata(), false).unwrap();
    // a stranger names the owner as sender
    assert_eq!(
        ledger.transfer(other, NOW, transfer_args(owner, other, id)),
        Err(LedgerError::TransferNotAuthorized)
    );
    // an unknown token, asked for by its would-be sender and by a stranger
    assert_eq!(ledger.transfer(owner, NOW, transfer_args(owner, other, 99)), Err(LedgerError::TokenNotFound));
    assert_eq!(
        ledger.transfer(other, NOW, transfer_args(owner, other, 99)),
        Err(LedgerError::TransferNotAuthorized)
    );
    assert_eq!(ledger.transfer(owner, NOW, transfer_args(owner, other, 0)), Err(LedgerError::TokenNotFound));
    // the caller is the sender but not the owner
    assert_eq!(ledger.transfer(third, NOW, transfer_args(third, other, id)), Err(LedgerError::NotOwner));
    assert_eq!(LedgerError::TransferNotAuthorized.kind(), ErrorKind::Unauthorized);
    assert_eq!(LedgerError::TokenNotFound.kind(), ErrorKind::NotFound);
    assert_eq!(ledger.owner_of(id), Some(owner));
}

#[test]
fn transfer_updates_both_sides_of_the_index() {
    let mut ledger = ICRC7Token::new();
    assert!(setup_test_collection(&mut ledger));
    let a = account(1);
    let b = account(2);
    for _ in 0..3 {
        ledger.mint(a, NOW, create_test_metadata(), false).unwrap();
    }
    assert_eq!(ledger.transfer(a, NOW + 1, transfer_args(a, b, 2)), Ok(true));
    assert_eq!(ledger.owner_of(1), Some(a));
    assert_eq!(ledger.owner_of(2), Some(b));
    assert_eq!(ledger.owner_of(3), Some(a));
    assert_eq!(ledger.balance_of(a), 2);
    assert_eq!(ledger.balance_of(b), 1);
    let of_a: Vec<u64> = ledger.get_user_tokens(a).iter().map(|t| t.token_id).collect();
    let of_b: Vec<u64> = ledger.get_user_tokens(b).iter().map(|t| t.token_id).collect();
    assert_eq!(of_a, vec![1, 3]);
    assert_eq!(of_b, vec![2]);
    assert_eq!(ledger.get_token(2).unwrap().last_transfer, Some(NOW + 1));
    // and back again: the tokens come in the order of their minting
    assert_eq!(ledger.transfer(b, NOW + 2, transfer_args(b, a, 2)), Ok(true));
    let of_a: Vec<u64> = ledger.get_user_tokens(a).iter().map(|t| t.token_id).collect();
    assert_eq!(of_a, vec![1, 2, 3]);
    assert_eq!(ledger.balance_of(b), 0);
    assert!(ledger.get_user_tokens(b).is_empty());
    assert_eq!(ledger.get_token_stats(2).unwrap().total_transactions, 2);
    assert_eq!(ledger.total_supply(), 3);
}

#[test]
fn every_token_is_listed_under_its_owner_only() {
    let mut ledger = ICRC7Token::new();
    assert!(setup_test_collection(&mut ledger));
    let accounts = [account(1), account(2), account(3)];
    for i in 0..6u64 {
        ledger.mint(accounts[(i % 3) as usize], NOW, create_test_metadata(), false).unwrap();
    }
    ledger.transfer(accounts[0], NOW, transfer_args(accounts[0], accounts[1], 1)).unwrap();
    ledger.transfer(accounts[1], NOW, transfer_args(accounts[1], accounts[2], 2)).unwrap();
    ledger.transfer(accounts[2], NOW, transfer_args(accounts[2], accounts[2], 3)).unwrap();
    for id in 1..=6u64 {
        let owner = ledger.owner_of(id).unwrap();
        let mut holders = 0;
        for who in accounts.iter() {
            let listed = ledger.get_user_tokens(*who).iter().filter(|t| t.token_id == id).count();
            if *who == owner {
                assert_eq!(listed, 1);
            } else {
                assert_eq!(listed, 0);
            }
            holders += listed;
        }
        assert_eq!(holders, 1);
    }
    let total: u64 = accounts.iter().map(|who| ledger.balance_of(*who)).sum();
    assert_eq!(total, 6);
}

#[test]
fn approval_lets_the_spender_move_the_token_once() {
    let mut ledger = ICRC7Token::new();
    assert!(setup_test_collection(&mut ledger));
    let owner = account(1);
    let spender = account(2);
    let third = account(3);
    let id = ledger.mint(owner, NOW, create_test_metadata(), false).unwrap();
    assert_eq!(ledger.get_approved(NOW, id), None);
    assert_eq!(ledger.approve(spender, approval_args(spender, id, None)), Err(LedgerError::NotTokenOwner));
    assert_eq!(ledger.approve(owner, approval_args(spender, 99, None)), Err(LedgerError::NotTokenOwner));
    assert_eq!(ledger.approve(owner, approval_args(third, id, Some(5))), Ok(true));
    // a later approval replaces the earlier one
    assert_eq!(ledger.approve(owner, approval_args(spender, id, Some(NOW + 10))), Ok(true));
    assert_eq!(ledger.get_approved(NOW, id), Some((spender, Some(NOW + 10))));
    assert_eq!(
        ledger.transfer(third, NOW, transfer_args(owner, third, id)),
        Err(LedgerError::TransferNotAuthorized)
    );
    assert_eq!(ledger.transfer(spender, NOW, transfer_args(owner, third, id)), Ok(true));
    assert_eq!(ledger.owner_of(id), Some(third));
    // the transfer cleared the approval
    assert_eq!(ledger.get_approved(NOW, id), None);
    assert_eq!(
        ledger.transfer(spender, NOW, transfer_args(third, spender, id)),
        Err(LedgerError::TransferNotAuthorized)
    );
    assert_eq!(ledger.get_approved(NOW, 99), None);
}

#[test]
fn approval_ends_when_its_expiry_has_passed() {
    let mut ledger = ICRC7Token::new();
    assert!(setup_test_collection(&mut ledger));
    let owner = account(1);
    let spender = account(2);
    let id = ledger.mint(owner, NOW, create_test_metadata(), false).unwrap();
    ledger.approve(owner, approval_args(spender, id, Some(NOW + 100))).unwrap();
    assert_eq!(ledger.get_approved(NOW + 99, id), Some((spender, Some(NOW + 100))));
    assert_eq!(ledger.get_approved(NOW + 100, id), Some((spender, Some(NOW + 100))));
    assert_eq!(ledger.get_approved(NOW + 101, id), None);
    assert_eq!(ledger.get_approved(u64::MAX, id), None);
    assert_eq!(
        ledger.transfer(spender, NOW + 101, transfer_args(owner, spender, id)),
        Err(LedgerError::TransferNotAuthorized)
    );
    assert_eq!(ledger.owner_of(id), Some(owner));
    // at the expiry itself the approval still holds
    assert_eq!(ledger.transfer(spender, NOW + 100, transfer_args(owner, spender, id)), Ok(true));
    assert_eq!(ledger.owner_of(id), Some(spender));
}
