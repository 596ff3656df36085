use candid::Principal;
use ireits_backend::error::{ErrorKind, LedgerError};
use ireits_backend::icrc7_token::ICRC7Token;
use ireits_backend::marketplace::Marketplace;
use ireits_backend::property::{DocumentType, PropertyBook, PropertyStatus, RentalIncome};

const T0: u64 = 1_700_000_000_000_000_000;

fn o(n: u8) -> Principal {
    Principal::from_slice(&[n, 5, 5, 5])
}

fn collection() -> ICRC7Token {
    let mut tokens = ICRC7Token::new();
    assert!(tokens.initialize_collection(
        o(100),
        T0,
        "Estates".to_string(),
        "EST".to_string(),
        "Estates on offer".to_string(),
        250,
        o(100),
        Some(2),
        None,
        None,
        None,
    ));
    tokens
}

fn offer(book: &mut PropertyBook, owner: Principal, price: f64) -> u64 {
    book.list_property(owner, price.to_bits(), "Main Street 1".to_string(), "A house".to_string(), None)
        .unwrap()
        .id
}

#[test]
fn property_listing_is_recorded() {
    let mut book = PropertyBook::new();
    assert!(book.get_property(1).is_none());
    assert!(book.get_all_properties().is_empty());
    let rent = RentalIncome { monthly_amount: 1_200, last_distribution: 0, distribution_frequency: 30 };
    let p = book
        .list_property(o(1), 250_000.5f64.to_bits(), "Main Street 1".to_string(), "A house".to_string(), Some(rent))
        .unwrap();
    assert_eq!(p.id, 1);
    assert_eq!(p.owner, o(1));
    assert_eq!(f64::from_bits(p.price_bits), 250_000.5);
    assert_eq!(p.location, "Main Street 1");
    assert_eq!(p.description, "A house");
    assert_eq!(p.status, PropertyStatus::Listed);
    assert!(p.documents.is_empty());
    assert_eq!(p.rental_income, Some(rent));
    assert_eq!(p.token_id, None);
    assert_eq!(offer(&mut book, o(2), 1.0), 2);
    assert_eq!(offer(&mut book, o(1), 2.0), 3);
    let stored = book.get_property(1).unwrap();
    assert_eq!(stored.location, "Main Street 1");
    assert_eq!(stored.rental_income, Some(rent));
    assert!(book.get_property(0).is_none());
    assert!(book.get_property(4).is_none());
    let all: Vec<u64> = book.get_all_properties().iter().map(|p| p.id).collect();
    assert_eq!(all, vec![1, 2, 3]);
    let mine: Vec<u64> = book.get_user_properties(o(1)).iter().map(|p| p.id).collect();
    assert_eq!(mine, vec![1, 3]);
    assert!(book.get_user_properties(o(3)).is_empty());
}

#[test]
fn property_documents_are_numbered() {
    let mut book = PropertyBook::new();
    let id = offer(&mut book, o(1), 1.0);
    assert!(!book.add_document(o(2), T0, id, DocumentType::Deed, "abc".to_string()));
    assert!(!book.add_document(o(1), T0, 9, DocumentType::Deed, "abc".to_string()));
    assert!(book.get_property(id).unwrap().documents.is_empty());
    assert!(book.add_document(o(1), T0 + 1, id, DocumentType::Deed, "abc".to_string()));
    assert!(book.add_document(o(1), T0 + 2, id, DocumentType::Inspection, "def".to_string()));
    let docs = book.get_property(id).unwrap().documents;
    assert_eq!(docs.len(), 2);
    assert_eq!(docs[0].id, 1);
    assert_eq!(docs[0].doc_type, DocumentType::Deed);
    assert_eq!(docs[0].hash, "abc");
    assert_eq!(docs[0].timestamp, T0 + 1);
    assert_eq!(docs[1].id, 2);
    assert_eq!(docs[1].doc_type, DocumentType::Inspection);
    assert_eq!(docs[1].hash, "def");
    assert_eq!(docs[1].timestamp, T0 + 2);
}

#[test]
fn property_is_tokenized_once() {
    let mut book = PropertyBook::new();
    let mut tokens = collection();
    let id = offer(&mut book, o(1), 1.0);
    let r = book.tokenize_property(
        &mut tokens,
        o(2),
        T0,
        id,
        "House".to_string(),
        "HSE".to_string(),
        None,
        1_000,
        Some(250),
    );
    assert_eq!(r, Err(LedgerError::NotPropertyOwner));
    let r = book.tokenize_property(
        &mut tokens,
        o(1),
        T0,
        7,
        "House".to_string(),
        "HSE".to_string(),
        None,
        1_000,
        Some(250),
    );
    assert_eq!(r, Err(LedgerError::PropertyNotFound));
    assert_eq!(r.unwrap_err().kind(), ErrorKind::NotFound);
    assert_eq!(tokens.total_supply(), 0);
    let r = book.tokenize_property(
        &mut tokens,
        o(1),
        T0 + 4,
        id,
        "House".to_string(),
        "HSE".to_string(),
        Some("A house in parts".to_string()),
        1_000,
        Some(250),
    );
    assert_eq!(r, Ok(true));
    let p = book.get_property(id).unwrap();
    assert_eq!(p.status, PropertyStatus::Tokenized);
    assert_eq!(p.token_id, Some(1));
    let token = tokens.get_token(1).unwrap();
    assert_eq!(token.owner, o(1));
    assert!(!token.transfer_restricted);
    assert_eq!(token.metadata.name, "House");
    assert_eq!(token.metadata.symbol, "HSE");
    assert_eq!(token.metadata.description, Some("A house in parts".to_string()));
    assert_eq!(token.metadata.decimals, 0);
    assert_eq!(token.metadata.supply_cap, Some(1_000));
    assert_eq!(token.metadata.royalties, Some(250));
    assert_eq!(token.metadata.royalty_recipient, Some(o(1)));
    assert_eq!(token.metadata.tags, Some(vec!["real-estate".to_string()]));
    assert_eq!(token.metadata.created_at, T0 + 4);
    let r = book.tokenize_property(
        &mut tokens,
        o(1),
        T0,
        id,
        "House".to_string(),
        "HSE".to_string(),
        None,
        1_000,
        None,
    );
    assert_eq!(r, Err(LedgerError::PropertyAlreadyTokenized));
    assert_eq!(r.unwrap_err().kind(), ErrorKind::InvalidState);
    assert_eq!(tokens.total_supply(), 1);
}

#[test]
fn property_tokenization_fails_with_the_mint() {
    let mut book = PropertyBook::new();
    let mut tokens = ICRC7Token::new();
    let id = offer(&mut book, o(1), 1.0);
    let r = book.tokenize_property(
        &mut tokens,
        o(1),
        T0,
        id,
        "House".to_string(),
        "HSE".to_string(),
        None,
        1_000,
        None,
    );
    assert_eq!(r, Err(LedgerError::MintFailed));
    assert_eq!(r.unwrap_err().message(), "Failed to mint token");
    let p = book.get_property(id).unwrap();
    assert_eq!(p.status, PropertyStatus::Listed);
    assert_eq!(p.token_id, None);
}

#[test]
fn property_shares_go_to_the_token() {
    let mut book = PropertyBook::new();
    let mut tokens = collection();
    let mut market = Marketplace::new();
    let first = offer(&mut book, o(1), 1.0);
    let second = offer(&mut book, o(1), 2.0);
    // the second property is tokenized first, so its token is number one
    book.tokenize_property(
        &mut tokens,
        o(1),
        T0,
        second,
        "Two".to_string(),
        "TWO".to_string(),
        None,
        10,
        None,
    )
    .unwrap();
    let shares = vec![(o(3), 7_500), (o(4), 2_500)];
    let r = book.fractionalize_property(&tokens, &mut market, o(1), T0, first, shares.clone());
    assert_eq!(r, Err(LedgerError::PropertyNotTokenized));
    let r = book.fractionalize_property(&tokens, &mut market, o(2), T0, second, shares.clone());
    assert_eq!(r, Err(LedgerError::NotPropertyOwner));
    let r = book.fractionalize_property(&tokens, &mut market, o(1), T0, 9, shares.clone());
    assert_eq!(r, Err(LedgerError::PropertyNotFound));
    let r = book.fractionalize_property(&tokens, &mut market, o(1), T0, second, vec![(o(3), 1)]);
    assert_eq!(r, Err(LedgerError::SharesNotComplete));
    let r = book.fractionalize_property(&tokens, &mut market, o(1), T0, second, shares.clone());
    assert_eq!(r, Ok(true));
    assert!(market.verify_ownership(&tokens, 1, o(3)));
    assert!(market.verify_ownership(&tokens, 1, o(4)));
    assert!(!market.verify_ownership(&tokens, 2, o(3)));
    // once the token has gone, its former owner records no shares
    let args = ireits_backend::icrc7_token::TransferArgs {
        spender_subaccount: None,
        from: o(1),
        to: o(5),
        token_id: 1,
        memo: None,
        created_at_time: None,
    };
    tokens.transfer(o(1), T0, args).unwrap();
    let r = book.fractionalize_property(&tokens, &mut market, o(1), T0, second, shares);
    assert_eq!(r, Err(LedgerError::PropertyTokenNotOwned));
    assert_eq!(r.unwrap_err().message(), "Not the token owner");
}
