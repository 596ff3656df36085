use candid::Principal;
use ireits_backend::error::{BidFloor, ErrorKind, LedgerError};
use ireits_backend::marketplace::{Bid, TokenType};

#[test]
fn errors_have_a_kind_and_a_message() {
    let cases = [
        (LedgerError::Unauthorized, ErrorKind::Unauthorized, "Not authorized"),
        (LedgerError::SenderNotFound, ErrorKind::NotFound, "Sender has no balance"),
        (LedgerError::HolderNotFound, ErrorKind::NotFound, "No balance found"),
        (LedgerError::InsufficientBalance, ErrorKind::InsufficientBalance, "Insufficient balance"),
        (LedgerError::DurationTooShort, ErrorKind::InvalidInput, "Minimum staking duration is 30 days"),
        (LedgerError::NothingStaked, ErrorKind::InvalidState, "No staked balance"),
        (LedgerError::LockNotElapsed, ErrorKind::InvalidState, "Stake duration not met"),
        (LedgerError::AllocationExceeded, ErrorKind::AllocationExceeded, "Exceeds airdrop allocation"),
        (LedgerError::TransferNotAuthorized, ErrorKind::Unauthorized, "Not authorized to transfer"),
        (LedgerError::TokenNotFound, ErrorKind::NotFound, "Token not found"),
        (LedgerError::NotOwner, ErrorKind::Unauthorized, "Token not owned by sender"),
        (LedgerError::TransferRestricted, ErrorKind::InvalidState, "Token transfers are restricted"),
        (LedgerError::NotTokenOwner, ErrorKind::Unauthorized, "Not token owner"),
        (LedgerError::NotPropertyOwner, ErrorKind::Unauthorized, "Not the property owner"),
        (
            LedgerError::SharesNotComplete,
            ErrorKind::InvalidInput,
            "Total shares must equal 100% (10000 basis points)",
        ),
        (LedgerError::SharesNotFound, ErrorKind::NotFound, "Property not found"),
        (LedgerError::ListingNotFound, ErrorKind::NotFound, "Listing not found"),
        (LedgerError::ListingNotActive, ErrorKind::InvalidState, "Listing is not active"),
        (LedgerError::NotSeller, ErrorKind::Unauthorized, "Not the seller"),
        (LedgerError::NoBids, ErrorKind::InvalidState, "No bids to accept"),
        (LedgerError::WrongSettlementKind, ErrorKind::InvalidInput, "Invalid token type for bid"),
        (
            LedgerError::UnsupportedSettlementKind,
            ErrorKind::InvalidInput,
            "Other token types not implemented yet",
        ),
        (
            LedgerError::PaymentManagerNotInitialized,
            ErrorKind::InvalidState,
            "Payment manager not initialized",
        ),
        (LedgerError::InsufficientSupply, ErrorKind::InvalidState, "Insufficient available supply"),
        (LedgerError::PropertyNotFound, ErrorKind::NotFound, "Property not found"),
        (LedgerError::PropertyAlreadyTokenized, ErrorKind::InvalidState, "Property already tokenized"),
        (LedgerError::PropertyNotTokenized, ErrorKind::InvalidState, "Property not tokenized"),
        (LedgerError::MintFailed, ErrorKind::InvalidState, "Failed to mint token"),
        (LedgerError::PropertyTokenNotOwned, ErrorKind::Unauthorized, "Not the token owner"),
        (LedgerError::InsufficientRetBalance, ErrorKind::InsufficientBalance, "Insufficient RET balance"),
        (
            LedgerError::BidTooLow { floor: BidFloor::HighestBid },
            ErrorKind::InvalidInput,
            "Bid amount must be higher than current highest bid",
        ),
        (
            LedgerError::BidTooLow { floor: BidFloor::ListingPrice },
            ErrorKind::InvalidInput,
            "Bid amount must be at least the listing price",
        ),
        (LedgerError::TransferFailed, ErrorKind::TransferFailed, "Transfer failed"),
        (LedgerError::Busy, ErrorKind::Conflict, "Resource is busy with a settlement"),
    ];
    for (error, kind, message) in cases {
        assert_eq!(error.kind(), kind);
        assert_eq!(error.message(), message);
    }
    let partial = LedgerError::PartialFailure { completed: 3, cause: ErrorKind::TransferFailed };
    assert_eq!(partial.kind(), ErrorKind::PartialFailure);
    assert_ne!(partial, LedgerError::PartialFailure { completed: 2, cause: ErrorKind::TransferFailed });
    for error in [
        LedgerError::AlreadyStaked,
        LedgerError::SupplyOverflow,
        LedgerError::CollectionNotInitialized,
        LedgerError::SupplyCapReached,
        LedgerError::CapacityExceeded,
        LedgerError::NotBusy,
    ] {
        assert_eq!(error.kind(), ErrorKind::InvalidState);
        assert!(!error.message().is_empty());
    }
    assert_eq!(LedgerError::PriceOverflow.kind(), ErrorKind::InvalidInput);
    assert!(!LedgerError::PriceOverflow.message().is_empty());
    assert_eq!(LedgerError::RoyaltyExceedsBid.kind(), ErrorKind::InvalidState);
    assert!(!LedgerError::RoyaltyExceedsBid.message().is_empty());
}

#[test]
fn copies_keep_their_account() {
    let bidder = Principal::from_slice(&[1, 2, 3, 4]);
    let bid = Bid { bidder, amount: 5, token_type: TokenType::RET, timestamp: 9 };
    let copy = bid.clone();
    assert_eq!(copy.bidder, bidder);
    assert_ne!(copy.bidder, Principal::anonymous());
}
