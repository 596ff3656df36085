//! Ledgers and a marketplace for tokenized property.
//!
//! The reward token's balances and stakes are kept by [`ret_token`], the
//! ownership of property tokens by [`icrc7_token`] over [`registry`], and
//! listings, bids and shares by [`marketplace`]. [`token`] keeps property
//! tokens whose units are sold and whose income is shared out; the payments
//! for both go through outside services, which [`payments`] drives one call
//! at a time. No function here reads a clock or asks who is calling: both
//! are arguments.

pub mod account;
pub mod error;
pub mod icrc7_token;
pub mod marketplace;
pub mod mock_ledger;
pub mod payments;
pub mod property;
pub mod registry;
pub mod ret_token;
pub mod token;
pub mod types;
pub mod views;

pub use property::{Document, DocumentType, Property, PropertyStatus, RentalIncome};
