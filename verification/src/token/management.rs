use crate::error::LedgerError;
use crate::icrc7_token::CollectionView;
use crate::payments::{BatchOutcome, IncomeBatch, Payment, PaymentFailure, ServiceCall};
use crate::registry::holdings_of;
use crate::token::{failure_kind, income_result, payment_error_of, property_token, property_token_views, property_tokens, PaymentHandles, PropertyLedger, PropertyState, PropertyToken, TokenMetadata};
use crate::views::opt_view;
use candid::Principal;
use vstd::prelude::*;

verus! {

/// Sets the handles of the two services that payments go through.
pub fn initialize_payment_manager(ledger: &mut PropertyLedger, usdc_ledger: Principal, usdt_ledger: Principal)
    requires
        old(ledger).wf(),
    ensures
        final(ledger).wf(),
        final(ledger)@ == (PropertyState {
            handles: Some(PaymentHandles { usdc_ledger, usdt_ledger }),
            ..old(ledger)@
        }),
{
    ledger.set_payment_handles(usdc_ledger, usdt_ledger);
}

/// Sets the collection record, owned by `caller`. Returns `false`, and
/// changes nothing, where one is set already.
pub fn initialize_collection(
    ledger: &mut PropertyLedger,
    caller: Principal,
    now: u64,
    name: String,
    symbol: String,
    description: String,
    royalties: u16,
    treasury: Principal,
    max_supply: Option<u64>,
    logo: Option<Vec<u8>>,
    website: Option<String>,
    social_links: Option<Vec<String>>,
) -> (r: bool)
    requires
        old(ledger).wf(),
    ensures
        final(ledger).wf(),
        r == (old(ledger)@.collection is None),
        !r ==> final(ledger)@ == old(ledger)@,
        r ==> final(ledger)@ == (PropertyState {
            collection: Some(
                CollectionView {
                    name,
                    symbol,
                    description,
                    total_supply: 0,
                    max_supply,
                    royalties,
                    owner: caller,
                    treasury,
                    created_at: now,
                    logo: opt_view(logo),
                    website,
                    social_links: opt_view(social_links),
                },
            ),
            ..old(ledger)@
        }),
{
    ledger.set_collection(
        caller,
        now,
        name,
        symbol,
        description,
        royalties,
        treasury,
        max_supply,
        logo,
        website,
        social_links,
    )
}

/// Issues the next property token to `owner`, with all its units available,
/// and returns its identifier.
pub fn mint_token(
    ledger: &mut PropertyLedger,
    owner: Principal,
    now: u64,
    metadata: TokenMetadata,
    property_id: u64,
    total_supply: u64,
    price_per_token: u64,
    use_usdt: bool,
    transfer_restricted: bool,
) -> (r: Result<u64, LedgerError>)
    requires
        old(ledger).wf(),
    ensures
        final(ledger).wf(),
        match old(ledger)@.mint_error(total_supply) {
            Some(e) => r == Err::<u64, LedgerError>(e) && final(ledger)@ == old(ledger)@,
            None => r == Ok::<u64, LedgerError>(old(ledger)@.registry.next_id() as u64) && final(ledger)@ == old(ledger)@.after_mint(
                owner,
                metadata@,
                property_id,
                total_supply,
                price_per_token,
                use_usdt,
                transfer_restricted,
                now,
            ),
        },
{
    ledger.mint(owner, now, metadata, property_id, total_supply, price_per_token, use_usdt, transfer_restricted)
}

/// The property token with identifier `token_id`.
pub fn get_token(ledger: &PropertyLedger, token_id: u64) -> (r: Option<PropertyToken>)
    requires
        ledger.wf(),
    ensures
        ledger@.registry.has_token(token_id) ==> r is Some && r.unwrap()@ == property_token(
            ledger@.registry.slots[token_id - 1].token,
            ledger@.terms[token_id - 1],
        ),
        !ledger@.registry.has_token(token_id) ==> r is None,
{
    ledger.get_token(token_id)
}

/// The property tokens listed under `user`, in the order of their minting.
pub fn get_user_tokens(ledger: &PropertyLedger, user: Principal) -> (r: Vec<PropertyToken>)
    requires
        ledger.wf(),
    ensures
        property_token_views(r@) == property_tokens(holdings_of(ledger@.registry, user), ledger@.terms),
{
    ledger.get_user_tokens(user)
}

/// Begins the purchase of `amount` units of a token by `caller`: marks the
/// token as busy and says which payment is to be made. `settle_purchase`
/// ends it, with what became of the payment.
pub fn purchase_tokens(ledger: &mut PropertyLedger, caller: Principal, token_id: u64, amount: u64) -> (r: Result<
    (Payment, ServiceCall),
    LedgerError,
>)
    requires
        old(ledger).wf(),
    ensures
        final(ledger).wf(),
        match old(ledger)@.purchase_error(token_id, amount) {
            Some(e) => r matches Err(err) && err == e && final(ledger)@ == old(ledger)@,
            None => r matches Ok(p) && p.0 == old(ledger)@.purchase_payment(caller, token_id, amount) && p.1 == (
            ServiceCall::BalanceOf { service: p.0.service, account: caller }) && final(ledger)@ == old(ledger)@.after_purchase(caller, token_id, amount),
        },
{
    ledger.begin_purchase(caller, token_id, amount)
}

/// Ends the purchase that is under way for a token: frees the token, and
/// where the payment was made takes the units from the available supply.
pub fn settle_purchase(ledger: &mut PropertyLedger, token_id: u64, outcome: Result<(), PaymentFailure>) -> (r: Result<
    bool,
    LedgerError,
>)
    requires
        old(ledger).wf(),
    ensures
        final(ledger).wf(),
        match old(ledger)@.settle_error(token_id) {
            Some(e) => r == Err::<bool, LedgerError>(e) && final(ledger)@ == old(ledger)@,
            None => final(ledger)@ == old(ledger)@.after_settle(token_id, outcome is Ok) && r == match outcome {
                Ok(_) => Ok::<bool, LedgerError>(true),
                Err(f) => Err::<bool, LedgerError>(payment_error_of(f.error)),
            },
        },
{
    ledger.settle_purchase(token_id, outcome)
}

/// Begins the distribution of a pool of `total_amount` over the holders, in
/// proportion to the units of the tokens they own: marks the ledger as
/// distributing and says which batch of payments is to be made.
/// `settle_token_income` ends it, with what became of the batch.
pub fn distribute_token_income(ledger: &mut PropertyLedger, caller: Principal, total_amount: u64, use_usdt: bool) -> (r:
    Result<(IncomeBatch, ServiceCall), LedgerError>)
    requires
        old(ledger).wf(),
    ensures
        final(ledger).wf(),
        match old(ledger)@.income_error() {
            Some(e) => r matches Err(err) && err == e && final(ledger)@ == old(ledger)@,
            None => r matches Ok(p) && p.0.wf() && p.0@ == old(ledger)@.income_batch(caller, total_amount, use_usdt)
                && p.1 == (ServiceCall::BalanceOf { service: p.0@.service, account: caller }) && final(ledger)@ == (
            PropertyState { distributing: true, ..old(ledger)@ }),
        },
{
    ledger.begin_income(caller, total_amount, use_usdt)
}

/// Ends the distribution of income that is under way.
pub fn settle_token_income(ledger: &mut PropertyLedger, outcome: BatchOutcome) -> (r: Result<bool, LedgerError>)
    requires
        old(ledger).wf(),
    ensures
        final(ledger).wf(),
        !old(ledger)@.distributing ==> r == Err::<bool, LedgerError>(LedgerError::NotBusy) && final(ledger)@ == old(ledger)@,
        old(ledger)@.distributing ==> r == income_result(outcome.completed, failure_kind(outcome.failure)) && final(ledger)@ == (PropertyState { distributing: false, ..old(ledger)@ }),
{
    ledger.settle_income(outcome)
}

} // verus!
