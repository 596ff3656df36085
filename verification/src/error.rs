use vstd::prelude::*;

verus! {

/// The broad classes of failure that every operation of the ledgers and of
/// the marketplace reports.
#[derive(Clone, Copy, Debug, PartialEq, Eq, Structural)]
pub enum ErrorKind {
    /// The caller lacks the required relationship to the resource.
    Unauthorized,
    /// An identifier names nothing.
    NotFound,
    InsufficientBalance,
    /// The resource is not in a state that admits the operation.
    InvalidState,
    /// An argument is rejected whatever the state.
    InvalidInput,
    AllocationExceeded,
    /// An outside value-transfer service refused or could not be reached.
    TransferFailed,
    /// The resource is in the middle of a settlement.
    Conflict,
    /// A multi-step operation stopped after some of its steps took effect.
    PartialFailure,
}

/// What a bid has to reach: the listing's price where it is the first bid,
/// and more than the highest bid where there is one.
#[derive(Clone, Copy, Debug, PartialEq, Eq, Structural)]
pub enum BidFloor {
    ListingPrice,
    HighestBid,
}

/// Why an operation was refused.
///
/// Every variant but `PartialFailure` means that the state is exactly as it
/// was before the call.
#[derive(Clone, Copy, Debug, PartialEq, Eq, Structural)]
pub enum LedgerError {
    /// The caller is not the account that the balance is drawn from.
    Unauthorized,
    /// The sender of a balance transfer has no record.
    SenderNotFound,
    /// The caller of a staking operation has no record.
    HolderNotFound,
    InsufficientBalance,
    /// The staking duration is below the minimum.
    DurationTooShort,
    AlreadyStaked,
    NothingStaked,
    LockNotElapsed,
    /// Crediting a staking reward would push the supply past what `u64` holds.
    SupplyOverflow,
    AllocationExceeded,
    /// The caller is neither the sender nor a spender with a live approval.
    TransferNotAuthorized,
    TokenNotFound,
    /// The sender named in a token transfer does not own the token.
    NotOwner,
    TransferRestricted,
    /// The caller of `approve` does not own the token.
    NotTokenOwner,
    CollectionNotInitialized,
    SupplyCapReached,
    /// No further identifier can be issued.
    CapacityExceeded,
    /// The caller owns neither the token nor a share of it.
    NotPropertyOwner,
    /// The royalty on the highest bid is more than the bid itself.
    RoyaltyExceedsBid,
    SharesNotComplete,
    /// No shares are recorded for the token.
    SharesNotFound,
    ListingNotFound,
    ListingNotActive,
    NotSeller,
    NoBids,
    WrongSettlementKind,
    /// The bid is not above the floor that it is held against.
    BidTooLow { floor: BidFloor },
    /// The bidder's balance in the reward token does not cover the bid.
    InsufficientRetBalance,
    /// The settlement kind has no ledger behind it.
    UnsupportedSettlementKind,
    PaymentManagerNotInitialized,
    InsufficientSupply,
    /// The total price of a purchase does not fit in `u64`.
    PriceOverflow,
    TransferFailed,
    PropertyNotFound,
    PropertyAlreadyTokenized,
    PropertyNotTokenized,
    /// The token of a property could not be minted.
    MintFailed,
    /// The caller does not own the token of the property.
    PropertyTokenNotOwned,
    /// The resource is in the middle of a settlement.
    Busy,
    /// A settlement is completed that was never begun.
    NotBusy,
    /// The operation stopped after `completed` of its steps took effect; the
    /// step that failed did so for a reason of kind `cause`.
    PartialFailure { completed: u64, cause: ErrorKind },
}

impl LedgerError {
    /// The class of failure that this error belongs to.
    pub open spec fn kind_of(self) -> ErrorKind {
        match self {
            LedgerError::Unauthorized => ErrorKind::Unauthorized,
            LedgerError::SenderNotFound => ErrorKind::NotFound,
            LedgerError::HolderNotFound => ErrorKind::NotFound,
            LedgerError::InsufficientBalance => ErrorKind::InsufficientBalance,
            LedgerError::DurationTooShort => ErrorKind::InvalidInput,
            LedgerError::AlreadyStaked => ErrorKind::InvalidState,
            LedgerError::NothingStaked => ErrorKind::InvalidState,
            LedgerError::LockNotElapsed => ErrorKind::InvalidState,
            LedgerError::SupplyOverflow => ErrorKind::InvalidState,
            LedgerError::AllocationExceeded => ErrorKind::AllocationExceeded,
            LedgerError::TransferNotAuthorized => ErrorKind::Unauthorized,
            LedgerError::TokenNotFound => ErrorKind::NotFound,
            LedgerError::NotOwner => ErrorKind::Unauthorized,
            LedgerError::TransferRestricted => ErrorKind::InvalidState,
            LedgerError::NotTokenOwner => ErrorKind::Unauthorized,
            LedgerError::CollectionNotInitialized => ErrorKind::InvalidState,
            LedgerError::SupplyCapReached => ErrorKind::InvalidState,
            LedgerError::CapacityExceeded => ErrorKind::InvalidState,
            LedgerError::NotPropertyOwner => ErrorKind::Unauthorized,
            LedgerError::RoyaltyExceedsBid => ErrorKind::InvalidState,
            LedgerError::SharesNotComplete => ErrorKind::InvalidInput,
            LedgerError::SharesNotFound => ErrorKind::NotFound,
            LedgerError::ListingNotFound => ErrorKind::NotFound,
            LedgerError::ListingNotActive => ErrorKind::InvalidState,
            LedgerError::NotSeller => ErrorKind::Unauthorized,
            LedgerError::NoBids => ErrorKind::InvalidState,
            LedgerError::WrongSettlementKind => ErrorKind::InvalidInput,
            LedgerError::BidTooLow { .. } => ErrorKind::InvalidInput,
            LedgerError::InsufficientRetBalance => ErrorKind::InsufficientBalance,
            LedgerError::UnsupportedSettlementKind => ErrorKind::InvalidInput,
            LedgerError::PaymentManagerNotInitialized => ErrorKind::InvalidState,
            LedgerError::InsufficientSupply => ErrorKind::InvalidState,
            LedgerError::PriceOverflow => ErrorKind::InvalidInput,
            LedgerError::TransferFailed => ErrorKind::TransferFailed,
            LedgerError::PropertyNotFound => ErrorKind::NotFound,
            LedgerError::PropertyAlreadyTokenized => ErrorKind::InvalidState,
            LedgerError::PropertyNotTokenized => ErrorKind::InvalidState,
            LedgerError::MintFailed => ErrorKind::InvalidState,
            LedgerError::PropertyTokenNotOwned => ErrorKind::Unauthorized,
            LedgerError::Busy => ErrorKind::Conflict,
            LedgerError::NotBusy => ErrorKind::InvalidState,
            LedgerError::PartialFailure { .. } => ErrorKind::PartialFailure,
        }
    }

    /// The text shown to a caller for this error.
    pub open spec fn message_text(self) -> Seq<char> {
        match self {
            LedgerError::Unauthorized => "Not authorized"@,
            LedgerError::SenderNotFound => "Sender has no balance"@,
            LedgerError::HolderNotFound => "No balance found"@,
            LedgerError::InsufficientBalance => "Insufficient balance"@,
            LedgerError::DurationTooShort => "Minimum staking duration is 30 days"@,
            LedgerError::AlreadyStaked => "A stake is already in progress"@,
            LedgerError::NothingStaked => "No staked balance"@,
            LedgerError::LockNotElapsed => "Stake duration not met"@,
            LedgerError::SupplyOverflow => "Reward exceeds the representable supply"@,
            LedgerError::AllocationExceeded => "Exceeds airdrop allocation"@,
            LedgerError::TransferNotAuthorized => "Not authorized to transfer"@,
            LedgerError::TokenNotFound => "Token not found"@,
            LedgerError::NotOwner => "Token not owned by sender"@,
            LedgerError::TransferRestricted => "Token transfers are restricted"@,
            LedgerError::NotTokenOwner => "Not token owner"@,
            LedgerError::CollectionNotInitialized => "Collection not initialized"@,
            LedgerError::SupplyCapReached => "Maximum supply reached"@,
            LedgerError::CapacityExceeded => "No identifier left"@,
            LedgerError::NotPropertyOwner => "Not the property owner"@,
            LedgerError::RoyaltyExceedsBid => "Royalty exceeds the bid amount"@,
            LedgerError::SharesNotComplete => "Total shares must equal 100% (10000 basis points)"@,
            LedgerError::SharesNotFound => "Property not found"@,
            LedgerError::ListingNotFound => "Listing not found"@,
            LedgerError::ListingNotActive => "Listing is not active"@,
            LedgerError::NotSeller => "Not the seller"@,
            LedgerError::NoBids => "No bids to accept"@,
            LedgerError::WrongSettlementKind => "Invalid token type for bid"@,
            LedgerError::BidTooLow { floor: BidFloor::HighestBid } => "Bid amount must be higher than current highest bid"@,
            LedgerError::BidTooLow { floor: BidFloor::ListingPrice } => "Bid amount must be at least the listing price"@,
            LedgerError::InsufficientRetBalance => "Insufficient RET balance"@,
            LedgerError::UnsupportedSettlementKind => "Other token types not implemented yet"@,
            LedgerError::PaymentManagerNotInitialized => "Payment manager not initialized"@,
            LedgerError::InsufficientSupply => "Insufficient available supply"@,
            LedgerError::PriceOverflow => "Total price is out of range"@,
            LedgerError::TransferFailed => "Transfer failed"@,
            LedgerError::PropertyNotFound => "Property not found"@,
            LedgerError::PropertyAlreadyTokenized => "Property already tokenized"@,
            LedgerError::PropertyNotTokenized => "Property not tokenized"@,
            LedgerError::MintFailed => "Failed to mint token"@,
            LedgerError::PropertyTokenNotOwned => "Not the token owner"@,
            LedgerError::Busy => "Resource is busy with a settlement"@,
            LedgerError::NotBusy => "No settlement in progress"@,
            LedgerError::PartialFailure { .. } => "Operation failed after partial completion"@,
        }
    }

    /// The class of failure that this error belongs to.
    pub fn kind(&self) -> (k: ErrorKind)
        ensures
            k == self.kind_of(),
    {
        match self {
            LedgerError::Unauthorized => ErrorKind::Unauthorized,
            LedgerError::SenderNotFound => ErrorKind::NotFound,
            LedgerError::HolderNotFound => ErrorKind::NotFound,
            LedgerError::InsufficientBalance => ErrorKind::InsufficientBalance,
            LedgerError::DurationTooShort => ErrorKind::InvalidInput,
            LedgerError::AlreadyStaked => ErrorKind::InvalidState,
            LedgerError::NothingStaked => ErrorKind::InvalidState,
            LedgerError::LockNotElapsed => ErrorKind::InvalidState,
            LedgerError::SupplyOverflow => ErrorKind::InvalidState,
            LedgerError::AllocationExceeded => ErrorKind::AllocationExceeded,
            LedgerError::TransferNotAuthorized => ErrorKind::Unauthorized,
            LedgerError::TokenNotFound => ErrorKind::NotFound,
            LedgerError::NotOwner => ErrorKind::Unauthorized,
            LedgerError::TransferRestricted => ErrorKind::InvalidState,
            LedgerError::NotTokenOwner => ErrorKind::Unauthorized,
            LedgerError::CollectionNotInitialized => ErrorKind::InvalidState,
            LedgerError::SupplyCapReached => ErrorKind::InvalidState,
            LedgerError::CapacityExceeded => ErrorKind::InvalidState,
            LedgerError::NotPropertyOwner => ErrorKind::Unauthorized,
            LedgerError::RoyaltyExceedsBid => ErrorKind::InvalidState,
            LedgerError::SharesNotComplete => ErrorKind::InvalidInput,
            LedgerError::SharesNotFound => ErrorKind::NotFound,
            LedgerError::ListingNotFound => ErrorKind::NotFound,
            LedgerError::ListingNotActive => ErrorKind::InvalidState,
            LedgerError::NotSeller => ErrorKind::Unauthorized,
            LedgerError::NoBids => ErrorKind::InvalidState,
            LedgerError::WrongSettlementKind => ErrorKind::InvalidInput,
            LedgerError::BidTooLow { .. } => ErrorKind::InvalidInput,
            LedgerError::InsufficientRetBalance => ErrorKind::InsufficientBalance,
            LedgerError::UnsupportedSettlementKind => ErrorKind::InvalidInput,
            LedgerError::PaymentManagerNotInitialized => ErrorKind::InvalidState,
            LedgerError::InsufficientSupply => ErrorKind::InvalidState,
            LedgerError::PriceOverflow => ErrorKind::InvalidInput,
            LedgerError::TransferFailed => ErrorKind::TransferFailed,
            LedgerError::PropertyNotFound => ErrorKind::NotFound,
            LedgerError::PropertyAlreadyTokenized => ErrorKind::InvalidState,
            LedgerError::PropertyNotTokenized => ErrorKind::InvalidState,
            LedgerError::MintFailed => ErrorKind::InvalidState,
            LedgerError::PropertyTokenNotOwned => ErrorKind::Unauthorized,
            LedgerError::Busy => ErrorKind::Conflict,
            LedgerError::NotBusy => ErrorKind::InvalidState,
            LedgerError::PartialFailure { .. } => ErrorKind::PartialFailure,
        }
    }

    /// The text shown to a caller for this error.
    pub fn message(&self) -> (s: String)
        ensures
            s@ == self.message_text(),
    {
        match self {
            LedgerError::Unauthorized => "Not authorized".to_owned(),
            LedgerError::SenderNotFound => "Sender has no balance".to_owned(),
            LedgerError::HolderNotFound => "No balance found".to_owned(),
            LedgerError::InsufficientBalance => "Insufficient balance".to_owned(),
            LedgerError::DurationTooShort => "Minimum staking duration is 30 days".to_owned(),
            LedgerError::AlreadyStaked => "A stake is already in progress".to_owned(),
            LedgerError::NothingStaked => "No staked balance".to_owned(),
            LedgerError::LockNotElapsed => "Stake duration not met".to_owned(),
            LedgerError::SupplyOverflow => "Reward exceeds the representable supply".to_owned(),
            LedgerError::AllocationExceeded => "Exceeds airdrop allocation".to_owned(),
            LedgerError::TransferNotAuthorized => "Not authorized to transfer".to_owned(),
            LedgerError::TokenNotFound => "Token not found".to_owned(),
            LedgerError::NotOwner => "Token not owned by sender".to_owned(),
            LedgerError::TransferRestricted => "Token transfers are restricted".to_owned(),
            LedgerError::NotTokenOwner => "Not token owner".to_owned(),
            LedgerError::CollectionNotInitialized => "Collection not initialized".to_owned(),
            LedgerError::SupplyCapReached => "Maximum supply reached".to_owned(),
            LedgerError::CapacityExceeded => "No identifier left".to_owned(),
            LedgerError::NotPropertyOwner => "Not the property owner".to_owned(),
            LedgerError::RoyaltyExceedsBid => "Royalty exceeds the bid amount".to_owned(),
            LedgerError::SharesNotComplete => "Total shares must equal 100% (10000 basis points)".to_owned(),
            LedgerError::SharesNotFound => "Property not found".to_owned(),
            LedgerError::ListingNotFound => "Listing not found".to_owned(),
            LedgerError::ListingNotActive => "Listing is not active".to_owned(),
            LedgerError::NotSeller => "Not the seller".to_owned(),
            LedgerError::NoBids => "No bids to accept".to_owned(),
            LedgerError::WrongSettlementKind => "Invalid token type for bid".to_owned(),
            LedgerError::BidTooLow { floor: BidFloor::HighestBid } => "Bid amount must be higher than current highest bid".to_owned(),
            LedgerError::BidTooLow { floor: BidFloor::ListingPrice } => "Bid amount must be at least the listing price".to_owned(),
            LedgerError::InsufficientRetBalance => "Insufficient RET balance".to_owned(),
            LedgerError::UnsupportedSettlementKind => "Other token types not implemented yet".to_owned(),
            LedgerError::PaymentManagerNotInitialized => "Payment manager not initialized".to_owned(),
            LedgerError::InsufficientSupply => "Insufficient available supply".to_owned(),
            LedgerError::PriceOverflow => "Total price is out of range".to_owned(),
            LedgerError::TransferFailed => "Transfer failed".to_owned(),
            LedgerError::PropertyNotFound => "Property not found".to_owned(),
            LedgerError::PropertyAlreadyTokenized => "Property already tokenized".to_owned(),
            LedgerError::PropertyNotTokenized => "Property not tokenized".to_owned(),
            LedgerError::MintFailed => "Failed to mint token".to_owned(),
            LedgerError::PropertyTokenNotOwned => "Not the token owner".to_owned(),
            LedgerError::Busy => "Resource is busy with a settlement".to_owned(),
            LedgerError::NotBusy => "No settlement in progress".to_owned(),
            LedgerError::PartialFailure { .. } => "Operation failed after partial completion".to_owned(),
        }
    }
}

} // verus!
