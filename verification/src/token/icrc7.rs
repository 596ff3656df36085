use crate::error::LedgerError;
use crate::icrc7_token::collection_view;
use crate::token::{ApprovalArgs, Collection, PropertyLedger, PropertyState, TokenMetadata, TokenStats, TransferArgs};
use candid::Principal;
use vstd::prelude::*;

verus! {

/// The collection's name; empty while no collection is set.
pub fn name(ledger: &PropertyLedger) -> (r: String)
    ensures
        r@ == match ledger@.collection {
            Some(c) => c.name@,
            None => Seq::<char>::empty(),
        },
{
    ledger.collection_name()
}

/// The collection's symbol; empty while no collection is set.
pub fn symbol(ledger: &PropertyLedger) -> (r: String)
    ensures
        r@ == match ledger@.collection {
            Some(c) => c.symbol@,
            None => Seq::<char>::empty(),
        },
{
    ledger.collection_symbol()
}

/// How many tokens were minted since the collection was set.
pub fn total_supply(ledger: &PropertyLedger) -> (r: u64)
    ensures
        r == match ledger@.collection {
            Some(c) => c.total_supply,
            None => 0,
        },
{
    ledger.collection_supply()
}

/// The cap on the number of tokens, where one is set.
pub fn max_supply(ledger: &PropertyLedger) -> (r: Option<u64>)
    ensures
        r == match ledger@.collection {
            Some(c) => c.max_supply,
            None => None,
        },
{
    ledger.collection_cap()
}

/// The owner of a token; nothing for an identifier that names none.
pub fn owner_of(ledger: &PropertyLedger, token_id: u64) -> (r: Option<Principal>)
    requires
        ledger.wf(),
    ensures
        r == ledger@.registry.owner_of(token_id),
{
    ledger.registry().owner_of(token_id)
}

/// How many tokens the owner index lists under `owner`.
pub fn balance_of(ledger: &PropertyLedger, owner: Principal) -> (r: u64)
    requires
        ledger.wf(),
    ensures
        r == ledger@.registry.balance_of(owner),
{
    ledger.registry().balance_of(owner)
}

/// The statistics kept for a token.
pub fn get_token_stats(ledger: &PropertyLedger, token_id: u64) -> (r: Option<TokenStats>)
    requires
        ledger.wf(),
    ensures
        ledger@.registry.has_token(token_id) ==> r == Some(ledger@.registry.slots[token_id - 1].stats),
        !ledger@.registry.has_token(token_id) ==> r is None,
{
    ledger.registry().get_token_stats(token_id)
}

/// Hands a token from `args.from` to `args.to`, unless a purchase of its
/// units is under way.
pub fn transfer(ledger: &mut PropertyLedger, caller: Principal, now: u64, args: TransferArgs) -> (r: Result<
    bool,
    LedgerError,
>)
    requires
        old(ledger).wf(),
    ensures
        final(ledger).wf(),
        match old(ledger)@.transfer_error(caller, now, args.from, args.token_id) {
            Some(e) => r == Err::<bool, LedgerError>(e) && final(ledger)@ == old(ledger)@,
            None => r == Ok::<bool, LedgerError>(true) && final(ledger)@ == (PropertyState {
                registry: old(ledger)@.registry.after_transfer(now, args.from, args.to, args.token_id),
                ..old(ledger)@
            }),
        },
{
    ledger.transfer(caller, now, args)
}

/// Records that `args.spender` may move a token of `caller`, unless a
/// purchase of its units is under way.
pub fn approve(ledger: &mut PropertyLedger, caller: Principal, args: ApprovalArgs) -> (r: Result<bool, LedgerError>)
    requires
        old(ledger).wf(),
    ensures
        final(ledger).wf(),
        match old(ledger)@.approve_error(caller, args.token_id) {
            Some(e) => r == Err::<bool, LedgerError>(e) && final(ledger)@ == old(ledger)@,
            None => r == Ok::<bool, LedgerError>(true) && final(ledger)@ == (PropertyState {
                registry: old(ledger)@.registry.after_approve(caller, args.spender, args.token_id, args.expires_at),
                ..old(ledger)@
            }),
        },
{
    ledger.approve(caller, args)
}

/// The spender approved for a token and the expiry of the approval; nothing
/// once the expiry has passed.
pub fn get_approved(ledger: &PropertyLedger, now: u64, token_id: u64) -> (r: Option<(Principal, Option<u64>)>)
    requires
        ledger.wf(),
    ensures
        r == ledger@.registry.approved(now, token_id),
{
    ledger.registry().get_approved(now, token_id)
}

/// The metadata of a token, as it was stamped at mint.
pub fn get_metadata(ledger: &PropertyLedger, token_id: u64) -> (r: Option<TokenMetadata>)
    requires
        ledger.wf(),
    ensures
        ledger@.registry.has_token(token_id) ==> r is Some && r.unwrap()@ == ledger@.registry.slots[token_id
            - 1].token.metadata,
        !ledger@.registry.has_token(token_id) ==> r is None,
{
    ledger.registry().get_metadata(token_id)
}

/// The collection record, once it is set.
pub fn get_collection_info(ledger: &PropertyLedger) -> (r: Option<Collection>)
    ensures
        collection_view(r) == ledger@.collection,
{
    ledger.collection_info()
}

} // verus!
