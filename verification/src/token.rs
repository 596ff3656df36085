use crate::error::LedgerError;
use crate::icrc7_token::{collection_view, CollectionView};
pub use crate::icrc7_token::{ApprovalArgs, Collection, TokenMetadata, TokenStats, TransferArgs};
use crate::icrc7_token::{TokenMetadataView, TokenView};
use crate::payments::{BatchOutcome, IncomeBatch, IncomeBatchView, Payment, PaymentError, PaymentFailure, PaymentPhase, ServiceCall};
use crate::registry::{holdings_of, lemma_holding, listed, owned, stamped, tokens_among, tokens_of, Holding, Registry, RegistryState, Slot};
use crate::views::{add_saturating, mul_saturating, sat_add, sat_mul};
use candid::Principal;
use std::collections::HashMap;
use vstd::prelude::*;

pub mod icrc7;
pub mod management;

verus! {

/// A property token: a token of the registry with the terms of its sale.
#[derive(Debug)]
pub struct PropertyToken {
    pub token_id: u64,
    pub owner: Principal,
    pub metadata: TokenMetadata,
    pub property_id: u64,
    pub total_supply: u64,
    pub circulating_supply: u64,
    pub price_per_token: u64,
    pub available_supply: u64,
    pub use_usdt: bool,
    pub holders: u64,
    pub transfer_restricted: bool,
    pub last_transfer: Option<u64>,
}

pub struct PropertyTokenView {
    pub token_id: u64,
    pub owner: Principal,
    pub metadata: TokenMetadataView,
    pub property_id: u64,
    pub total_supply: u64,
    pub circulating_supply: u64,
    pub price_per_token: u64,
    pub available_supply: u64,
    pub use_usdt: bool,
    pub holders: u64,
    pub transfer_restricted: bool,
    pub last_transfer: Option<u64>,
}

impl View for PropertyToken {
    type V = PropertyTokenView;

    open spec fn view(&self) -> PropertyTokenView {
        PropertyTokenView {
            token_id: self.token_id,
            owner: self.owner,
            metadata: self.metadata@,
            property_id: self.property_id,
            total_supply: self.total_supply,
            circulating_supply: self.circulating_supply,
            price_per_token: self.price_per_token,
            available_supply: self.available_supply,
            use_usdt: self.use_usdt,
            holders: self.holders,
            transfer_restricted: self.transfer_restricted,
            last_transfer: self.last_transfer,
        }
    }
}

/// The terms under which the units of one property token are sold.
#[derive(Clone, Copy, Debug, PartialEq, Eq, Structural)]
pub struct PropertyTerms {
    pub property_id: u64,
    pub total_supply: u64,
    pub circulating_supply: u64,
    pub price_per_token: u64,
    pub available_supply: u64,
    pub use_usdt: bool,
    pub holders: u64,
}

/// A purchase whose payment is under way: it marks its token as busy.
#[derive(Clone, Copy, Debug)]
pub struct PendingPurchase {
    pub buyer: Principal,
    pub amount: u64,
    pub total_price: u64,
}

/// What the ledger keeps for one token beside the registry's entry: the
/// terms of its sale, and the purchase under way where there is one.
#[derive(Clone, Copy, Debug)]
pub struct TokenUnits {
    pub terms: PropertyTerms,
    pub pending: Option<PendingPurchase>,
}

/// The handles of the two value-transfer services that purchases and income
/// are settled through.
#[derive(Clone, Copy, Debug)]
pub struct PaymentHandles {
    pub usdc_ledger: Principal,
    pub usdt_ledger: Principal,
}

/// The property token that a registry token and its terms make.
pub open spec fn property_token(token: TokenView, terms: PropertyTerms) -> PropertyTokenView {
    PropertyTokenView {
        token_id: token.token_id,
        owner: token.owner,
        metadata: token.metadata,
        property_id: terms.property_id,
        total_supply: terms.total_supply,
        circulating_supply: terms.circulating_supply,
        price_per_token: terms.price_per_token,
        available_supply: terms.available_supply,
        use_usdt: terms.use_usdt,
        holders: terms.holders,
        transfer_restricted: token.transfer_restricted,
        last_transfer: token.last_transfer,
    }
}

/// The units issued over all tokens.
pub open spec fn issued_total(terms: Seq<PropertyTerms>) -> int
    decreases terms.len(),
{
    if terms.len() == 0 {
        0
    } else {
        issued_total(terms.drop_last()) + terms.last().total_supply
    }
}

/// The units issued over the tokens whose identifiers are in `ids`.
pub open spec fn owned_supply(terms: Seq<PropertyTerms>, ids: Set<u64>) -> int
    decreases terms.len(),
{
    if terms.len() == 0 {
        0
    } else {
        owned_supply(terms.drop_last(), ids) + if ids.contains(terms.len() as u64) {
            terms.last().total_supply as int
        } else {
            0
        }
    }
}

/// The property tokens that tokens and their terms make, token by token.
pub open spec fn property_tokens(tokens: Seq<TokenView>, terms: Seq<PropertyTerms>) -> Seq<PropertyTokenView> {
    Seq::new(tokens.len(), |k: int| property_token(tokens[k], terms[tokens[k].token_id - 1]))
}

/// What a list of property tokens holds, each by its view.
pub open spec fn property_token_views(tokens: Seq<PropertyToken>) -> Seq<PropertyTokenView> {
    Seq::new(tokens.len(), |k: int| tokens[k]@)
}

/// The part of a pool of `total_amount` that falls to the holder of `owned`
/// of the `issued` units, rounded down.
pub open spec fn income_share(total_amount: u64, owned: int, issued: u64) -> int {
    (total_amount * owned) / (issued as int)
}

/// The distribution of a pool of `total_amount`: for each line of the owner
/// index that holds any units, the account and its part of the pool, in the
/// order of the index.
pub open spec fn income_shares(
    index: Seq<Holding>,
    terms: Seq<PropertyTerms>,
    issued: u64,
    total_amount: u64,
) -> Seq<(Principal, u64)>
    decreases index.len(),
{
    if index.len() == 0 {
        Seq::empty()
    } else {
        let rest = income_shares(index.drop_last(), terms, issued, total_amount);
        let units = owned_supply(terms, index.last().tokens);
        if units > 0 {
            rest.push((index.last().owner, income_share(total_amount, units, issued) as u64))
        } else {
            rest
        }
    }
}

/// How a failed payment is reported by the ledger.
pub open spec fn payment_error_of(e: PaymentError) -> LedgerError {
    match e {
        PaymentError::InsufficientBalance => LedgerError::InsufficientBalance,
        PaymentError::TransferFailed => LedgerError::TransferFailed,
        PaymentError::InvalidToken => LedgerError::UnsupportedSettlementKind,
    }
}

/// What `settle_token_income` returns for a batch that ended as `completed`
/// and `failure` say.
pub open spec fn income_result(completed: usize, failure: Option<PaymentError>) -> Result<bool, LedgerError> {
    match failure {
        None => Ok(true),
        Some(e) => if completed == 0 {
            Err(payment_error_of(e))
        } else {
            Err(LedgerError::PartialFailure { completed: completed as u64, cause: payment_error_of(e).kind_of() })
        },
    }
}

/// The kind of an optional failure.
pub open spec fn failure_kind(f: Option<PaymentFailure>) -> Option<PaymentError> {
    match f {
        Some(f) => Some(f.error),
        None => None,
    }
}

/// The state of the ledger of property tokens.
pub struct PropertyState {
    pub collection: Option<CollectionView>,
    pub registry: RegistryState,
    /// The terms of each token: those of token `id` are at `id - 1`.
    pub terms: Seq<PropertyTerms>,
    /// The purchase under way for each token, where there is one.
    pub pending: Seq<Option<PendingPurchase>>,
    pub handles: Option<PaymentHandles>,
    /// A distribution of income is under way.
    pub distributing: bool,
}

impl PropertyState {
    /// The registry is valid, every token has its terms and its marker, no
    /// more units are available or reserved than there are, and the supply is
    /// within the cap.
    pub open spec fn valid(self) -> bool {
        &&& self.registry.valid()
        &&& self.terms.len() == self.registry.slots.len()
        &&& self.pending.len() == self.registry.slots.len()
        &&& forall|i: int|
            0 <= i < self.terms.len() ==> (#[trigger] self.terms[i]).available_supply <= self.terms[i].total_supply
        &&& forall|i: int|
            0 <= i < self.pending.len() ==> ((#[trigger] self.pending[i]) matches Some(p) ==> p.amount
                <= self.terms[i].available_supply)
        &&& match self.collection {
            Some(c) => c.total_supply <= self.registry.slots.len() && (c.max_supply matches Some(m)
                ==> c.total_supply <= m),
            None => true,
        }
    }

    /// A purchase of units of token `id` is under way.
    pub open spec fn busy(self, id: u64) -> bool {
        self.registry.has_token(id) && self.pending[id - 1] is Some
    }

    /// Why a transfer is refused, if it is: the first of these that applies.
    pub open spec fn transfer_error(self, caller: Principal, now: u64, from: Principal, id: u64) -> Option<
        LedgerError,
    > {
        if self.busy(id) {
            Some(LedgerError::Busy)
        } else {
            self.registry.transfer_error(caller, now, from, id)
        }
    }

    /// Why an approval is refused, if it is: the first of these that applies.
    pub open spec fn approve_error(self, caller: Principal, id: u64) -> Option<LedgerError> {
        if self.busy(id) {
            Some(LedgerError::Busy)
        } else {
            self.registry.approve_error(caller, id)
        }
    }

    /// Why a mint is refused, if it is: the first of these that applies.
    pub open spec fn mint_error(self, total_supply: u64) -> Option<LedgerError> {
        if self.collection matches Some(c) && c.max_supply matches Some(m) && c.total_supply + 1 > m {
            Some(LedgerError::SupplyCapReached)
        } else if self.registry.slots.len() >= u64::MAX {
            Some(LedgerError::CapacityExceeded)
        } else {
            None
        }
    }

    /// The terms that a token is minted with.
    pub open spec fn first_terms(property_id: u64, total_supply: u64, price_per_token: u64, use_usdt: bool) -> PropertyTerms {
        PropertyTerms {
            property_id,
            total_supply,
            circulating_supply: total_supply,
            price_per_token,
            available_supply: total_supply,
            use_usdt,
            holders: 1,
        }
    }

    /// The state after a mint that is not refused.
    pub open spec fn after_mint(
        self,
        owner: Principal,
        metadata: TokenMetadataView,
        property_id: u64,
        total_supply: u64,
        price_per_token: u64,
        use_usdt: bool,
        transfer_restricted: bool,
        now: u64,
    ) -> PropertyState {
        PropertyState {
            collection: match self.collection {
                Some(c) => Some(CollectionView { total_supply: (c.total_supply + 1) as u64, ..c }),
                None => None,
            },
            registry: self.registry.after_insert(
                owner,
                stamped(metadata, now),
                transfer_restricted,
                TokenStats {
                    total_transactions: 0,
                    unique_holders: 1,
                    market_cap: sat_mul(total_supply, price_per_token),
                    volume_24h: 0,
                },
            ),
            terms: self.terms.push(Self::first_terms(property_id, total_supply, price_per_token, use_usdt)),
            pending: self.pending.push(None),
            ..self
        }
    }

    /// Why a purchase is refused, if it is: the first of these that applies.
    pub open spec fn purchase_error(self, id: u64, amount: u64) -> Option<LedgerError> {
        if !self.registry.has_token(id) {
            Some(LedgerError::TokenNotFound)
        } else if self.pending[id - 1] is Some {
            Some(LedgerError::Busy)
        } else if self.terms[id - 1].price_per_token * amount > u64::MAX {
            Some(LedgerError::PriceOverflow)
        } else if self.handles is None {
            Some(LedgerError::PaymentManagerNotInitialized)
        } else if self.terms[id - 1].available_supply < amount {
            Some(LedgerError::InsufficientSupply)
        } else {
            None
        }
    }

    /// The purchase that `caller` begins.
    pub open spec fn purchase_of(self, caller: Principal, id: u64, amount: u64) -> PendingPurchase {
        PendingPurchase {
            buyer: caller,
            amount,
            total_price: (self.terms[id - 1].price_per_token * amount) as u64,
        }
    }

    /// The service that token `id` is paid through.
    pub open spec fn service_of(self, use_usdt: bool) -> Principal {
        if use_usdt {
            self.handles.unwrap().usdt_ledger
        } else {
            self.handles.unwrap().usdc_ledger
        }
    }

    /// The payment that a purchase begins with: from the buyer to the
    /// token's owner, after a query of the buyer's balance.
    pub open spec fn purchase_payment(self, caller: Principal, id: u64, amount: u64) -> Payment {
        Payment {
            service: self.service_of(self.terms[id - 1].use_usdt),
            from: caller,
            to: self.registry.slots[id - 1].token.owner,
            amount: self.purchase_of(caller, id, amount).total_price,
            phase: PaymentPhase::CheckingBalance,
        }
    }

    /// The state once a purchase has begun: its token is marked.
    pub open spec fn after_purchase(self, caller: Principal, id: u64, amount: u64) -> PropertyState {
        PropertyState { pending: self.pending.update(id - 1, Some(self.purchase_of(caller, id, amount))), ..self }
    }

    /// Why the end of a purchase is refused, if it is.
    pub open spec fn settle_error(self, id: u64) -> Option<LedgerError> {
        if !self.registry.has_token(id) {
            Some(LedgerError::TokenNotFound)
        } else if self.pending[id - 1] is None {
            Some(LedgerError::NotBusy)
        } else {
            None
        }
    }

    /// The ledger once the purchase of token `id` has ended: the token is
    /// free again, and where the payment was made the units have left the
    /// available supply.
    pub open spec fn after_settle(self, id: u64, paid: bool) -> PropertyState {
        let p = self.pending[id - 1].unwrap();
        let t = self.terms[id - 1];
        let s = self.registry.slots[id - 1].stats;
        if paid {
            PropertyState {
                pending: self.pending.update(id - 1, None),
                terms: self.terms.update(
                    id - 1,
                    PropertyTerms {
                        available_supply: (t.available_supply - p.amount) as u64,
                        holders: sat_add(t.holders, 1),
                        ..t
                    },
                ),
                registry: self.registry.with_stats(
                    id,
                    TokenStats {
                        total_transactions: sat_add(s.total_transactions, 1),
                        unique_holders: sat_add(t.holders, 1),
                        volume_24h: sat_add(s.volume_24h, p.total_price),
                        ..s
                    },
                ),
                ..self
            }
        } else {
            PropertyState { pending: self.pending.update(id - 1, None), ..self }
        }
    }

    /// Why a distribution of income is refused, if it is.
    pub open spec fn income_error(self) -> Option<LedgerError> {
        if self.distributing {
            Some(LedgerError::Busy)
        } else if issued_total(self.terms) > u64::MAX {
            Some(LedgerError::SupplyOverflow)
        } else if self.handles is None {
            Some(LedgerError::PaymentManagerNotInitialized)
        } else {
            None
        }
    }

    /// The batch that a distribution of `total_amount` begins with.
    pub open spec fn income_batch(self, caller: Principal, total_amount: u64, use_usdt: bool) -> IncomeBatchView {
        IncomeBatchView {
            service: self.service_of(use_usdt),
            from: caller,
            payouts: income_shares(self.registry.index, self.terms, issued_total(self.terms) as u64, total_amount),
            checking: true,
            completed: 0,
        }
    }
}

/// The units issued are not negative.
pub proof fn lemma_issued_nonnegative(terms: Seq<PropertyTerms>)
    ensures
        0 <= issued_total(terms),
    decreases terms.len(),
{
    if terms.len() > 0 {
        lemma_issued_nonnegative(terms.drop_last());
    }
}

/// The units issued over the first tokens are no more than those over all.
pub proof fn lemma_issued_prefix(terms: Seq<PropertyTerms>, k: int)
    requires
        0 <= k <= terms.len(),
    ensures
        0 <= issued_total(terms.take(k)) <= issued_total(terms),
    decreases terms.len(),
{
    lemma_issued_nonnegative(terms.take(k));
    if k == terms.len() {
        assert(terms.take(k) =~= terms);
    } else {
        assert(terms.drop_last().take(k) =~= terms.take(k));
        lemma_issued_prefix(terms.drop_last(), k);
    }
}

/// The units of some of the tokens are no more than the units of all.
pub proof fn lemma_owned_supply_bound(terms: Seq<PropertyTerms>, ids: Set<u64>)
    ensures
        0 <= owned_supply(terms, ids) <= issued_total(terms),
    decreases terms.len(),
{
    if terms.len() > 0 {
        lemma_owned_supply_bound(terms.drop_last(), ids);
    }
}

/// The tokens among the slots carry identifiers of the slots.
pub proof fn lemma_among_ids(slots: Seq<Slot>, ids: Set<u64>, k: int)
    requires
        forall|i: int| 0 <= i < slots.len() ==> (#[trigger] slots[i]).token.token_id == i + 1,
        0 <= k < tokens_among(slots, ids).len(),
    ensures
        1 <= tokens_among(slots, ids)[k].token_id <= slots.len(),
    decreases slots.len(),
{
    if slots.len() > 0 {
        let rest = slots.drop_last();
        assert forall|i: int| 0 <= i < rest.len() implies (#[trigger] rest[i]).token.token_id == i + 1 by {
            assert(slots[i].token.token_id == i + 1);
        }
        if k < tokens_among(rest, ids).len() {
            lemma_among_ids(rest, ids, k);
        } else {
            assert(slots[slots.len() - 1].token.token_id == slots.len());
        }
    }
}

/// A holder's part of a pool is no more than the pool.
pub proof fn lemma_income_share_bound(total_amount: u64, units: int, issued: u64)
    requires
        0 < units <= issued,
    ensures
        0 <= income_share(total_amount, units, issued) <= total_amount,
        total_amount * units <= u64::MAX * u64::MAX,
{
    assert(0 <= total_amount * units <= total_amount * issued) by (nonlinear_arith)
        requires
            0 <= total_amount,
            0 < units <= issued,
    ;
    assert((total_amount * units) / (issued as int) <= total_amount) by (nonlinear_arith)
        requires
            0 <= total_amount * units <= total_amount * issued,
            issued > 0,
    ;
    assert(0 <= (total_amount * units) / (issued as int)) by (nonlinear_arith)
        requires
            0 <= total_amount * units,
            issued > 0,
    ;
    assert(total_amount * issued <= u64::MAX * u64::MAX) by (nonlinear_arith)
        requires
            0 <= total_amount <= u64::MAX,
            0 <= issued <= u64::MAX,
    ;
}

impl PropertyState {
    /// A mint that is not refused leaves a valid ledger, with the supply
    /// within the cap.
    pub proof fn lemma_mint_valid(
        self,
        owner: Principal,
        metadata: TokenMetadataView,
        property_id: u64,
        total_supply: u64,
        price_per_token: u64,
        use_usdt: bool,
        transfer_restricted: bool,
        now: u64,
    )
        requires
            self.valid(),
            self.mint_error(total_supply) is None,
        ensures
            self.after_mint(
                owner,
                metadata,
                property_id,
                total_supply,
                price_per_token,
                use_usdt,
                transfer_restricted,
                now,
            ).valid(),
    {
        let after = self.after_mint(
            owner,
            metadata,
            property_id,
            total_supply,
            price_per_token,
            use_usdt,
            transfer_restricted,
            now,
        );
        self.registry.lemma_insert_valid(
            owner,
            stamped(metadata, now),
            transfer_restricted,
            TokenStats {
                total_transactions: 0,
                unique_holders: 1,
                market_cap: sat_mul(total_supply, price_per_token),
                volume_24h: 0,
            },
        );
        assert forall|i: int| 0 <= i < after.terms.len() implies (#[trigger] after.terms[i]).available_supply
            <= after.terms[i].total_supply by {
            if i < self.terms.len() {
                assert(self.terms[i].available_supply <= self.terms[i].total_supply);
            }
        }
        assert forall|i: int| 0 <= i < after.pending.len() implies ((#[trigger] after.pending[i]) matches Some(p)
            ==> p.amount <= after.terms[i].available_supply) by {
            if i < self.pending.len() {
                assert(self.pending[i] matches Some(p) ==> p.amount <= self.terms[i].available_supply);
            }
        }
    }

    /// A token whose units are being bought is busy: until the purchase is
    /// settled, every transfer, approval and further purchase of it is
    /// refused, while the other tokens are as free as they were.
    pub proof fn lemma_busy_token_is_locked(
        self,
        buyer: Principal,
        id: u64,
        amount: u64,
        caller: Principal,
        now: u64,
        from: Principal,
        other: u64,
        units: u64,
        paid: bool,
    )
        requires
            self.valid(),
            self.purchase_error(id, amount) is None,
        ensures
            self.after_purchase(buyer, id, amount).busy(id),
            self.after_purchase(buyer, id, amount).transfer_error(caller, now, from, id) == Some(LedgerError::Busy),
            self.after_purchase(buyer, id, amount).approve_error(caller, id) == Some(LedgerError::Busy),
            self.after_purchase(buyer, id, amount).purchase_error(id, units) == Some(LedgerError::Busy),
            LedgerError::Busy.kind_of() == crate::error::ErrorKind::Conflict,
            other != id ==> self.after_purchase(buyer, id, amount).transfer_error(caller, now, from, other)
                == self.transfer_error(caller, now, from, other),
            other != id ==> self.after_purchase(buyer, id, amount).approve_error(caller, other)
                == self.approve_error(caller, other),
            other != id ==> self.after_purchase(buyer, id, amount).purchase_error(other, units)
                == self.purchase_error(other, units),
            self.after_purchase(buyer, id, amount).settle_error(id) is None,
            !self.after_purchase(buyer, id, amount).after_settle(id, paid).busy(id),
    {
    }

    /// A purchase that has begun leaves a valid state.
    pub proof fn lemma_purchase_valid(self, caller: Principal, id: u64, amount: u64)
        requires
            self.valid(),
            self.purchase_error(id, amount) is None,
        ensures
            self.after_purchase(caller, id, amount).valid(),
    {
        let after = self.after_purchase(caller, id, amount);
        assert forall|i: int| 0 <= i < after.pending.len() implies ((#[trigger] after.pending[i]) matches Some(p)
            ==> p.amount <= after.terms[i].available_supply) by {
            if i != id - 1 {
                assert(self.pending[i] matches Some(p) ==> p.amount <= self.terms[i].available_supply);
            }
        }
    }

    /// A purchase that has ended leaves a valid state.
    pub proof fn lemma_settle_valid(self, id: u64, paid: bool)
        requires
            self.valid(),
            self.settle_error(id) is None,
        ensures
            self.after_settle(id, paid).valid(),
            self.pending[id - 1].unwrap().amount <= self.terms[id - 1].available_supply,
    {
        let after = self.after_settle(id, paid);
        assert(self.pending[id - 1] matches Some(p) ==> p.amount <= self.terms[id - 1].available_supply);
        assert(self.terms[id - 1].available_supply <= self.terms[id - 1].total_supply);
        if paid {
            self.registry.lemma_with_stats_valid(id, after.registry.slots[id - 1].stats);
        }
        assert forall|i: int| 0 <= i < after.terms.len() implies (#[trigger] after.terms[i]).available_supply
            <= after.terms[i].total_supply by {
            assert(self.terms[i].available_supply <= self.terms[i].total_supply);
        }
        assert forall|i: int| 0 <= i < after.pending.len() implies ((#[trigger] after.pending[i]) matches Some(p)
            ==> p.amount <= after.terms[i].available_supply) by {
            if i != id - 1 {
                assert(self.pending[i] matches Some(p) ==> p.amount <= self.terms[i].available_supply);
            }
        }
    }
}

/// The units issued over the tokens of all lines of the index together.
pub open spec fn lines_supply(index: Seq<Holding>, terms: Seq<PropertyTerms>) -> int
    decreases index.len(),
{
    if index.len() == 0 {
        0
    } else {
        lines_supply(index.drop_last(), terms) + owned_supply(terms, index.last().tokens)
    }
}

/// No two lines name the same token.
pub open spec fn lines_disjoint(index: Seq<Holding>) -> bool {
    forall|a: int, b: int, id: u64|
        0 <= a < b < index.len() ==> !(#[trigger] index[a].tokens.contains(id) && #[trigger] index[b].tokens.contains(
            id,
        ))
}

/// What the lines that name token `id` hold of it together, at `units` for
/// each of them.
pub open spec fn named_units(index: Seq<Holding>, id: u64, units: int) -> int
    decreases index.len(),
{
    if index.len() == 0 {
        0
    } else {
        named_units(index.drop_last(), id, units) + if index.last().tokens.contains(id) {
            units
        } else {
            0
        }
    }
}

proof fn lemma_lines_step(index: Seq<Holding>, terms: Seq<PropertyTerms>)
    requires
        terms.len() > 0,
    ensures
        lines_supply(index, terms) == lines_supply(index, terms.drop_last()) + named_units(
            index,
            terms.len() as u64,
            terms.last().total_supply as int,
        ),
    decreases index.len(),
{
    if index.len() > 0 {
        lemma_lines_step(index.drop_last(), terms);
    }
}

proof fn lemma_unnamed(index: Seq<Holding>, id: u64, units: int)
    requires
        forall|k: int| 0 <= k < index.len() ==> !(#[trigger] index[k]).tokens.contains(id),
    ensures
        named_units(index, id, units) == 0,
    decreases index.len(),
{
    if index.len() > 0 {
        let rest = index.drop_last();
        assert forall|k: int| 0 <= k < rest.len() implies !(#[trigger] rest[k]).tokens.contains(id) by {
            assert(rest[k] == index[k]);
        }
        lemma_unnamed(rest, id, units);
        assert(!index[index.len() - 1].tokens.contains(id));
    }
}

proof fn lemma_named_once(index: Seq<Holding>, id: u64, units: int)
    requires
        lines_disjoint(index),
        units >= 0,
    ensures
        0 <= named_units(index, id, units) <= units,
    decreases index.len(),
{
    if index.len() > 0 {
        let rest = index.drop_last();
        let n = index.len() - 1;
        assert forall|a: int, b: int, x: u64| 0 <= a < b < rest.len() implies !(#[trigger] rest[a].tokens.contains(x)
            && #[trigger] rest[b].tokens.contains(x)) by {
            assert(rest[a] == index[a]);
            assert(rest[b] == index[b]);
            assert(!(index[a].tokens.contains(x) && index[b].tokens.contains(x)));
        }
        lemma_named_once(rest, id, units);
        if index.last().tokens.contains(id) {
            assert forall|k: int| 0 <= k < rest.len() implies !(#[trigger] rest[k]).tokens.contains(id) by {
                assert(rest[k] == index[k]);
                assert(!(index[k].tokens.contains(id) && index[n].tokens.contains(id)));
            }
            lemma_unnamed(rest, id, units);
        }
    }
}

proof fn lemma_lines_of_no_terms(index: Seq<Holding>, terms: Seq<PropertyTerms>)
    requires
        terms.len() == 0,
    ensures
        lines_supply(index, terms) == 0,
    decreases index.len(),
{
    if index.len() > 0 {
        lemma_lines_of_no_terms(index.drop_last(), terms);
    }
}

/// The units of lines that share no token are no more than the units of all
/// tokens.
proof fn lemma_lines_supply_bound(index: Seq<Holding>, terms: Seq<PropertyTerms>)
    requires
        lines_disjoint(index),
    ensures
        lines_supply(index, terms) <= issued_total(terms),
    decreases terms.len(),
{
    if terms.len() == 0 {
        lemma_lines_of_no_terms(index, terms);
    } else {
        lemma_lines_step(index, terms);
        lemma_named_once(index, terms.len() as u64, terms.last().total_supply as int);
        lemma_lines_supply_bound(index, terms.drop_last());
    }
}

/// What a distribution pays, weighed by the units issued, is no more than
/// the pool weighed by the units of the lines.
proof fn lemma_shares_weighed(index: Seq<Holding>, terms: Seq<PropertyTerms>, issued: u64, total_amount: u64)
    requires
        issued > 0,
    ensures
        0 <= crate::ret_token::batch_total(income_shares(index, terms, issued, total_amount)),
        0 <= lines_supply(index, terms),
        crate::ret_token::batch_total(income_shares(index, terms, issued, total_amount)) * issued <= total_amount
            * lines_supply(index, terms),
    decreases index.len(),
{
    if index.len() > 0 {
        let rest = index.drop_last();
        lemma_shares_weighed(rest, terms, issued, total_amount);
        let units = owned_supply(terms, index.last().tokens);
        lemma_owned_supply_bound(terms, index.last().tokens);
        let before = income_shares(rest, terms, issued, total_amount);
        let paid = crate::ret_token::batch_total(before);
        let weight = lines_supply(rest, terms);
        if units > 0 {
            let share = income_share(total_amount, units, issued);
            let all = before.push((index.last().owner, share as u64));
            assert(all.drop_last() =~= before);
            assert(0 <= share && share * issued <= total_amount * units) by (nonlinear_arith)
                requires
                    share == (total_amount * units) / (issued as int),
                    issued > 0,
                    units > 0,
                    total_amount >= 0,
            ;
            assert(share <= total_amount * units) by (nonlinear_arith)
                requires
                    0 <= share,
                    share * issued <= total_amount * units,
                    issued > 0,
            ;
            if share <= u64::MAX {
                assert((paid + share) * issued <= total_amount * (weight + units)) by (nonlinear_arith)
                    requires
                        paid * issued <= total_amount * weight,
                        share * issued <= total_amount * units,
                ;
            } else {
                // Whatever stands in `u64` for a share beyond it is less than the share.
                let cut = (share as u64) as int;
                assert(0 <= cut <= u64::MAX);
                assert((paid + cut) * issued <= total_amount * (weight + units)) by (nonlinear_arith)
                    requires
                        paid * issued <= total_amount * weight,
                        share * issued <= total_amount * units,
                        0 <= cut <= share,
                        issued > 0,
                ;
            }
        } else {
            assert(total_amount * weight == total_amount * (weight + units)) by (nonlinear_arith)
                requires
                    units == 0,
            ;
        }
    }
}

impl PropertyState {
    /// A distribution pays out no more than the pool: what is lost to
    /// rounding stays with the payer.
    pub proof fn lemma_income_within_pool(self, total_amount: u64)
        requires
            self.valid(),
            issued_total(self.terms) <= u64::MAX,
        ensures
            crate::ret_token::batch_total(
                income_shares(self.registry.index, self.terms, issued_total(self.terms) as u64, total_amount),
            ) <= total_amount,
    {
        let index = self.registry.index;
        lemma_issued_nonnegative(self.terms);
        let issued = issued_total(self.terms) as u64;
        let paid = crate::ret_token::batch_total(income_shares(index, self.terms, issued, total_amount));
        if issued == 0 {
            assert(index.take(index.len() as int) =~= index);
            lemma_no_units_no_shares(index, self.terms, issued, total_amount, index.len() as int, self);
        } else {
            assert forall|a: int, b: int, id: u64| 0 <= a < b < index.len() implies !(
            #[trigger] index[a].tokens.contains(id) && #[trigger] index[b].tokens.contains(id)) by {
                if index[a].tokens.contains(id) && index[b].tokens.contains(id) {
                    lemma_holding(index, index[a].owner, a);
                    lemma_holding(index, index[b].owner, b);
                    assert(listed(index, index[a].owner, id) <==> owned(self.registry.slots, index[a].owner, id));
                    assert(listed(index, index[b].owner, id) <==> owned(self.registry.slots, index[b].owner, id));
                    assert(index[a].owner != index[b].owner);
                }
            }
            lemma_lines_supply_bound(index, self.terms);
            lemma_shares_weighed(index, self.terms, issued, total_amount);
            let weight = lines_supply(index, self.terms);
            assert(paid <= total_amount) by (nonlinear_arith)
                requires
                    paid * issued <= total_amount * weight,
                    0 <= weight <= issued,
                    issued > 0,
                    0 <= paid,
                    0 <= total_amount,
            ;
        }
    }
}

proof fn lemma_no_units_no_shares(
    index: Seq<Holding>,
    terms: Seq<PropertyTerms>,
    issued: u64,
    total_amount: u64,
    k: int,
    s: PropertyState,
)
    requires
        s.valid(),
        issued_total(s.terms) == 0,
        issued == 0,
        terms == s.terms,
        0 <= k <= s.registry.index.len(),
        index == s.registry.index.take(k),
    ensures
        income_shares(index, terms, issued, total_amount) == Seq::<(Principal, u64)>::empty(),
        k == s.registry.index.len() ==> crate::ret_token::batch_total(
            income_shares(s.registry.index, terms, issued, total_amount),
        ) == 0,
    decreases k,
{
    if k > 0 {
        lemma_no_units_no_shares(s.registry.index.take(k - 1), terms, issued, total_amount, k - 1, s);
        assert(index.drop_last() =~= s.registry.index.take(k - 1));
        assert(index.last() == s.registry.index[k - 1]);
        lemma_owned_supply_bound(terms, s.registry.index[k - 1].tokens);
    }
    if k == s.registry.index.len() {
        assert(s.registry.index.take(k) =~= s.registry.index);
    }
}

/// The ledger of the property tokens whose units are sold: the registry of
/// the tokens, the terms of sale, and the markers of what is being settled.
pub struct PropertyLedger {
    collection: Option<Collection>,
    registry: Registry,
    units: HashMap<u64, TokenUnits>,
    handles: Option<PaymentHandles>,
    distributing: bool,
}

impl View for PropertyLedger {
    type V = PropertyState;

    closed spec fn view(&self) -> PropertyState {
        PropertyState {
            collection: collection_view(self.collection),
            registry: self.registry@,
            terms: Seq::new(self.registry@.slots.len(), |i: int| self.units@[(i + 1) as u64].terms),
            pending: Seq::new(self.registry@.slots.len(), |i: int| self.units@[(i + 1) as u64].pending),
            handles: self.handles,
            distributing: self.distributing,
        }
    }
}

impl PropertyLedger {
    /// The ledger's invariant: the registry's own, terms and a marker for
    /// every token, no more units reserved or sold than there are, and a
    /// supply within the cap.
    pub open spec fn wf(&self) -> bool {
        self.sound() && self@.valid()
    }

    /// The registry's own invariant holds, and every token of the registry
    /// has its terms, and nothing else has.
    pub closed spec fn sound(&self) -> bool {
        &&& self.registry.wf()
        &&& forall|k: u64| #[trigger] self.units@.contains_key(k) <==> 1 <= k <= self.registry@.slots.len()
    }

    /// How many tokens were minted.
    fn token_count(&self) -> (n: u64)
        ensures
            n == self@.registry.slots.len(),
    {
        self.registry.count()
    }

    /// What is kept for token `id`, which names one.
    fn units_at(&self, id: u64) -> (u: TokenUnits)
        requires
            self.sound(),
            1 <= id <= self@.registry.slots.len(),
        ensures
            u.terms == self@.terms[id - 1],
            u.pending == self@.pending[id - 1],
    {
        broadcast use vstd::std_specs::hash::group_hash_axioms;

        assert(self.units@.contains_key(id));
        match self.units.get(&id) {
            Some(u) => *u,
            None => vstd::pervasive::unreached(),
        }
    }

    /// Puts `u` in the place of what is kept for token `id`.
    fn put_units(&mut self, id: u64, u: TokenUnits)
        requires
            old(self).sound(),
            1 <= id <= old(self)@.registry.slots.len(),
        ensures
            final(self).sound(),
            final(self)@ == (PropertyState {
                terms: old(self)@.terms.update(id - 1, u.terms),
                pending: old(self)@.pending.update(id - 1, u.pending),
                ..old(self)@
            }),
    {
        broadcast use vstd::std_specs::hash::group_hash_axioms;

        self.units.insert(id, u);
        assert(self@.terms =~= old(self)@.terms.update(id - 1, u.terms));
        assert(self@.pending =~= old(self)@.pending.update(id - 1, u.pending));
    }

    /// A ledger without collection, tokens or payment services.
    pub fn new() -> (r: Self)
        ensures
            r.wf(),
            r@.collection is None,
            r@.registry.slots.len() == 0,
            r@.registry.index.len() == 0,
            r@.terms.len() == 0,
            r@.pending.len() == 0,
            r@.handles is None,
            !r@.distributing,
    {
        PropertyLedger {
            collection: None,
            registry: Registry::new(),
            units: HashMap::new(),
            handles: None,
            distributing: false,
        }
    }

    /// Sets the handles of the two services that payments go through.
    pub fn set_payment_handles(&mut self, usdc_ledger: Principal, usdt_ledger: Principal)
        requires
            old(self).wf(),
        ensures
            final(self).wf(),
            final(self)@ == (PropertyState {
                handles: Some(PaymentHandles { usdc_ledger, usdt_ledger }),
                ..old(self)@
            }),
    {
        self.handles = Some(PaymentHandles { usdc_ledger, usdt_ledger });
    }

    /// Sets the collection record, owned by `caller`. Returns `false`, and
    /// changes nothing, where one is set already.
    pub fn set_collection(
        &mut self,
        caller: Principal,
        now: u64,
        name: String,
        symbol: String,
        description: String,
        royalties: u16,
        treasury: Principal,
        max_supply: Option<u64>,
        logo: Option<Vec<u8>>,
        website: Option<String>,
        social_links: Option<Vec<String>>,
    ) -> (r: bool)
        requires
            old(self).wf(),
        ensures
            final(self).wf(),
            r == (old(self)@.collection is None),
            !r ==> final(self)@ == old(self)@,
            r ==> final(self)@ == (PropertyState {
                collection: Some(
                    CollectionView {
                        name,
                        symbol,
                        description,
                        total_supply: 0,
                        max_supply,
                        royalties,
                        owner: caller,
                        treasury,
                        created_at: now,
                        logo: crate::views::opt_view(logo),
                        website,
                        social_links: crate::views::opt_view(social_links),
                    },
                ),
                ..old(self)@
            }),
    {
        if self.collection.is_some() {
            return false;
        }
        self.collection = Some(
            Collection {
                name,
                symbol,
                description,
                total_supply: 0,
                max_supply,
                royalties,
                owner: caller,
                treasury,
                created_at: now,
                logo,
                website,
                social_links,
            },
        );
        true
    }

    /// The collection's name; empty while no collection is set.
    pub fn collection_name(&self) -> (r: String)
        ensures
            r@ == match self@.collection {
                Some(c) => c.name@,
                None => Seq::<char>::empty(),
            },
    {
        match &self.collection {
            Some(c) => c.name.clone(),
            None => String::new(),
        }
    }

    /// The collection's symbol; empty while no collection is set.
    pub fn collection_symbol(&self) -> (r: String)
        ensures
            r@ == match self@.collection {
                Some(c) => c.symbol@,
                None => Seq::<char>::empty(),
            },
    {
        match &self.collection {
            Some(c) => c.symbol.clone(),
            None => String::new(),
        }
    }

    /// How many tokens were minted since the collection was set.
    pub fn collection_supply(&self) -> (r: u64)
        ensures
            r == match self@.collection {
                Some(c) => c.total_supply,
                None => 0,
            },
    {
        match &self.collection {
            Some(c) => c.total_supply,
            None => 0,
        }
    }

    /// The cap on the number of tokens, where one is set.
    pub fn collection_cap(&self) -> (r: Option<u64>)
        ensures
            r == match self@.collection {
                Some(c) => c.max_supply,
                None => None,
            },
    {
        match &self.collection {
            Some(c) => c.max_supply,
            None => None,
        }
    }

    /// The collection record, once it is set.
    pub fn collection_info(&self) -> (r: Option<Collection>)
        ensures
            collection_view(r) == self@.collection,
    {
        match &self.collection {
            Some(c) => Some(c.clone()),
            None => None,
        }
    }

    /// The registry of the tokens.
    pub fn registry(&self) -> (r: &Registry)
        ensures
            r@ == self@.registry,
            self.wf() ==> r.wf(),
    {
        &self.registry
    }

    fn is_busy(&self, id: u64) -> (r: bool)
        requires
            self.wf(),
        ensures
            r == self@.busy(id),
    {
        if id >= 1 && id <= self.token_count() {
            self.units_at(id).pending.is_some()
        } else {
            false
        }
    }

    /// Hands a token from `args.from` to `args.to`, unless a purchase of its
    /// units is under way.
    pub fn transfer(&mut self, caller: Principal, now: u64, args: TransferArgs) -> (r: Result<bool, LedgerError>)
        requires
            old(self).wf(),
        ensures
            final(self).wf(),
            match old(self)@.transfer_error(caller, now, args.from, args.token_id) {
                Some(e) => r == Err::<bool, LedgerError>(e) && final(self)@ == old(self)@,
                None => r == Ok::<bool, LedgerError>(true) && final(self)@ == (PropertyState {
                    registry: old(self)@.registry.after_transfer(now, args.from, args.to, args.token_id),
                    ..old(self)@
                }),
            },
    {
        if self.is_busy(args.token_id) {
            return Err(LedgerError::Busy);
        }
        proof {
            if old(self)@.registry.transfer_error(caller, now, args.from, args.token_id) is None {
                old(self)@.registry.lemma_transfer_valid(caller, now, args.from, args.to, args.token_id);
            }
        }
        match self.registry.transfer(caller, now, args.from, args.to, args.token_id) {
            Ok(()) => Ok(true),
            Err(e) => Err(e),
        }
    }

    /// Records that `args.spender` may move a token of `caller`, unless a
    /// purchase of its units is under way.
    pub fn approve(&mut self, caller: Principal, args: ApprovalArgs) -> (r: Result<bool, LedgerError>)
        requires
            old(self).wf(),
        ensures
            final(self).wf(),
            match old(self)@.approve_error(caller, args.token_id) {
                Some(e) => r == Err::<bool, LedgerError>(e) && final(self)@ == old(self)@,
                None => r == Ok::<bool, LedgerError>(true) && final(self)@ == (PropertyState {
                    registry: old(self)@.registry.after_approve(caller, args.spender, args.token_id, args.expires_at),
                    ..old(self)@
                }),
            },
    {
        if self.is_busy(args.token_id) {
            return Err(LedgerError::Busy);
        }
        match self.registry.approve(caller, args.spender, args.token_id, args.expires_at) {
            Ok(()) => Ok(true),
            Err(e) => Err(e),
        }
    }

    /// Issues the next property token to `owner`, with all its units available,
    /// and returns its identifier.
    pub fn mint(
        &mut self,
        owner: Principal,
        now: u64,
        metadata: TokenMetadata,
        property_id: u64,
        total_supply: u64,
        price_per_token: u64,
        use_usdt: bool,
        transfer_restricted: bool,
    ) -> (r: Result<u64, LedgerError>)
        requires
            old(self).wf(),
        ensures
            final(self).wf(),
            match old(self)@.mint_error(total_supply) {
                Some(e) => r == Err::<u64, LedgerError>(e) && final(self)@ == old(self)@,
                None => r == Ok::<u64, LedgerError>(old(self)@.registry.next_id() as u64) && final(self)@
                    == old(self)@.after_mint(
                    owner,
                    metadata@,
                    property_id,
                    total_supply,
                    price_per_token,
                    use_usdt,
                    transfer_restricted,
                    now,
                ),
            },
    {
        let supply = match &self.collection {
            Some(c) => {
                if let Some(m) = c.max_supply {
                    if c.total_supply >= m {
                        return Err(LedgerError::SupplyCapReached);
                    }
                }
                Some(c.total_supply)
            },
            None => None,
        };
        if self.registry.count() >= u64::MAX {
            return Err(LedgerError::CapacityExceeded);
        }
        proof {
            old(self)@.lemma_mint_valid(
                owner,
                metadata@,
                property_id,
                total_supply,
                price_per_token,
                use_usdt,
                transfer_restricted,
                now,
            );
        }
        let stats = TokenStats {
            total_transactions: 0,
            unique_holders: 1,
            market_cap: mul_saturating(total_supply, price_per_token),
            volume_24h: 0,
        };
        let id = self.registry.insert(owner, metadata, transfer_restricted, stats, now);
        let terms = PropertyTerms {
            property_id,
            total_supply,
            circulating_supply: total_supply,
            price_per_token,
            available_supply: total_supply,
            use_usdt,
            holders: 1,
        };
        self.units.insert(id, TokenUnits { terms, pending: None });
        assert(self@.terms =~= old(self)@.terms.push(terms));
        assert(self@.pending =~= old(self)@.pending.push(None));
        match &mut self.collection {
            Some(c) => {
                c.total_supply = supply.unwrap() + 1;
            },
            None => {},
        }
        Ok(id)
    }

    /// The property token with identifier `id`.
    pub fn get_token(&self, id: u64) -> (r: Option<PropertyToken>)
        requires
            self.wf(),
        ensures
            self@.registry.has_token(id) ==> r is Some && r.unwrap()@ == property_token(
                self@.registry.slots[id - 1].token,
                self@.terms[id - 1],
            ),
            !self@.registry.has_token(id) ==> r is None,
    {
        match self.registry.get_token(id) {
            Some(token) => {
                let terms = self.units_at(id).terms;
                Some(
                    PropertyToken {
                        token_id: token.token_id,
                        owner: token.owner,
                        metadata: token.metadata,
                        property_id: terms.property_id,
                        total_supply: terms.total_supply,
                        circulating_supply: terms.circulating_supply,
                        price_per_token: terms.price_per_token,
                        available_supply: terms.available_supply,
                        use_usdt: terms.use_usdt,
                        holders: terms.holders,
                        transfer_restricted: token.transfer_restricted,
                        last_transfer: token.last_transfer,
                    },
                )
            },
            None => None,
        }
    }

    /// The property tokens listed under `user`, in the order of their
    /// minting.
    pub fn get_user_tokens(&self, user: Principal) -> (r: Vec<PropertyToken>)
        requires
            self.wf(),
        ensures
            property_token_views(r@) == property_tokens(holdings_of(self@.registry, user), self@.terms),
    {
        let tokens = self.registry.get_user_tokens(user);
        let ghost held = holdings_of(self@.registry, user);
        let count = self.token_count();
        let mut out: Vec<PropertyToken> = Vec::new();
        let mut k: usize = 0;
        while k < tokens.len()
            invariant
                self.wf(),
                count == self@.terms.len(),
                held == holdings_of(self@.registry, user),
                crate::icrc7_token::token_views(tokens@) == held,
                k <= tokens.len(),
                out.len() == k,
                forall|j: int|
                    0 <= j < k ==> (#[trigger] out[j])@ == property_token(held[j], self@.terms[held[j].token_id - 1]),
            decreases tokens.len() - k,
        {
            proof {
                assert(crate::icrc7_token::token_views(tokens@)[k as int] == tokens[k as int]@);
                lemma_among_ids(self@.registry.slots, tokens_of(self@.registry.index, user), k as int);
                assert(1 <= held[k as int].token_id <= count);
            }
            let token = tokens[k].clone();
            let terms = self.units_at(token.token_id).terms;
            let ghost before = out@;
            out.push(
                PropertyToken {
                    token_id: token.token_id,
                    owner: token.owner,
                    metadata: token.metadata,
                    property_id: terms.property_id,
                    total_supply: terms.total_supply,
                    circulating_supply: terms.circulating_supply,
                    price_per_token: terms.price_per_token,
                    available_supply: terms.available_supply,
                    use_usdt: terms.use_usdt,
                    holders: terms.holders,
                    transfer_restricted: token.transfer_restricted,
                    last_transfer: token.last_transfer,
                },
            );
            assert forall|j: int| 0 <= j < k + 1 implies (#[trigger] out[j])@ == property_token(
                held[j],
                self@.terms[held[j].token_id - 1],
            ) by {
                if j < k {
                    assert(out[j] == before[j]);
                }
            }
            k = k + 1;
        }
        assert(property_token_views(out@) =~= property_tokens(held, self@.terms));
        out
    }

    /// Begins the purchase of `amount` units of a token: reserves the token
    /// and says which payment is to be made.
    pub fn begin_purchase(&mut self, caller: Principal, id: u64, amount: u64) -> (r: Result<
        (Payment, ServiceCall),
        LedgerError,
    >)
        requires
            old(self).wf(),
        ensures
            final(self).wf(),
            match old(self)@.purchase_error(id, amount) {
                Some(e) => r matches Err(err) && err == e && final(self)@ == old(self)@,
                None => r matches Ok(p) && p.0 == old(self)@.purchase_payment(caller, id, amount) && p.1 == (
                ServiceCall::BalanceOf { service: p.0.service, account: caller }) && final(self)@ == old(self)@.after_purchase(caller, id, amount),
            },
    {
        if !(id >= 1 && id <= self.token_count()) {
            return Err(LedgerError::TokenNotFound);
        }
        let units = self.units_at(id);
        if units.pending.is_some() {
            return Err(LedgerError::Busy);
        }
        let terms = units.terms;
        let total_price = match terms.price_per_token.checked_mul(amount) {
            Some(p) => p,
            None => {
                return Err(LedgerError::PriceOverflow);
            },
        };
        let handles = match self.handles {
            Some(h) => h,
            None => {
                return Err(LedgerError::PaymentManagerNotInitialized);
            },
        };
        if terms.available_supply < amount {
            return Err(LedgerError::InsufficientSupply);
        }
        let owner = match self.registry.owner_of(id) {
            Some(o) => o,
            None => {
                return Err(LedgerError::TokenNotFound);
            },
        };
        proof {
            old(self)@.lemma_purchase_valid(caller, id, amount);
        }
        self.put_units(id, TokenUnits { terms, pending: Some(PendingPurchase { buyer: caller, amount, total_price }) });
        let service = if terms.use_usdt {
            handles.usdt_ledger
        } else {
            handles.usdc_ledger
        };
        assert(self@.terms =~= old(self)@.terms);
        Ok(Payment::begin(service, caller, owner, total_price, true))
    }

    /// Ends the purchase of units of token `id`: frees the token, and where
    /// the payment was made takes the units from the available supply.
    pub fn settle_purchase(&mut self, id: u64, outcome: Result<(), PaymentFailure>) -> (r: Result<bool, LedgerError>)
        requires
            old(self).wf(),
        ensures
            final(self).wf(),
            match old(self)@.settle_error(id) {
                Some(e) => r == Err::<bool, LedgerError>(e) && final(self)@ == old(self)@,
                None => final(self)@ == old(self)@.after_settle(id, outcome is Ok) && r == match outcome {
                    Ok(_) => Ok::<bool, LedgerError>(true),
                    Err(f) => Err::<bool, LedgerError>(payment_error_of(f.error)),
                },
            },
    {
        if !(id >= 1 && id <= self.token_count()) {
            return Err(LedgerError::TokenNotFound);
        }
        let units = self.units_at(id);
        let purchase = match units.pending {
            Some(p) => p,
            None => {
                return Err(LedgerError::NotBusy);
            },
        };
        proof {
            old(self)@.lemma_settle_valid(id, outcome is Ok);
        }
        match outcome {
            Ok(_) => {
                let terms = units.terms;
                let holders = add_saturating(terms.holders, 1);
                let sold = PropertyTerms {
                    property_id: terms.property_id,
                    total_supply: terms.total_supply,
                    circulating_supply: terms.circulating_supply,
                    price_per_token: terms.price_per_token,
                    available_supply: terms.available_supply - purchase.amount,
                    use_usdt: terms.use_usdt,
                    holders,
                };
                self.put_units(id, TokenUnits { terms: sold, pending: None });
                match self.registry.get_token_stats(id) {
                    Some(stats) => {
                        self.registry.set_stats(
                            id,
                            TokenStats {
                                total_transactions: add_saturating(stats.total_transactions, 1),
                                unique_holders: holders,
                                market_cap: stats.market_cap,
                                volume_24h: add_saturating(stats.volume_24h, purchase.total_price),
                            },
                        );
                    },
                    None => {},
                }
                assert(self@.pending =~= old(self)@.after_settle(id, true).pending);
                assert(self@.terms =~= old(self)@.after_settle(id, true).terms);
                Ok(true)
            },
            Err(f) => {
                self.put_units(id, TokenUnits { terms: units.terms, pending: None });
                assert(self@.pending =~= old(self)@.after_settle(id, false).pending);
                assert(self@.terms =~= old(self)@.terms);
                Err(
                    match f.error {
                        PaymentError::InsufficientBalance => LedgerError::InsufficientBalance,
                        PaymentError::TransferFailed => LedgerError::TransferFailed,
                        PaymentError::InvalidToken => LedgerError::UnsupportedSettlementKind,
                    },
                )
            },
        }
    }

    /// The units issued over the tokens of line `k` of the owner index.
    fn units_of_line(&self, k: usize) -> (r: u64)
        requires
            self.wf(),
            issued_total(self@.terms) <= u64::MAX,
            k < self@.registry.index.len(),
        ensures
            r == owned_supply(self@.terms, self@.registry.index[k as int].tokens),
    {
        let ghost ids = self@.registry.index[k as int].tokens;
        let count = self.token_count();
        let mut units: u64 = 0;
        let mut i: u64 = 0;
        while i < count
            invariant
                self.wf(),
                issued_total(self@.terms) <= u64::MAX,
                k < self@.registry.index.len(),
                ids == self@.registry.index[k as int].tokens,
                count == self@.terms.len(),
                i <= count,
                units == owned_supply(self@.terms.take(i as int), ids),
            decreases count - i,
        {
            proof {
                let next = self@.terms.take(i + 1);
                assert(next.drop_last() =~= self@.terms.take(i as int));
                assert(next.last() == self@.terms[i as int]);
                lemma_owned_supply_bound(next, ids);
                lemma_issued_prefix(self@.terms, i + 1);
            }
            if self.registry.line_holds(k, i + 1) {
                units = units + self.units_at(i + 1).terms.total_supply;
            }
            i = i + 1;
        }
        assert(self@.terms.take(count as int) =~= self@.terms);
        units
    }

    /// The units issued over all tokens, where `u64` holds them.
    pub fn total_issued(&self) -> (r: Option<u64>)
        requires
            self.wf(),
        ensures
            match r {
                Some(t) => t == issued_total(self@.terms),
                None => issued_total(self@.terms) > u64::MAX,
            },
    {
        let count = self.token_count();
        let mut total: u64 = 0;
        let mut i: u64 = 0;
        while i < count
            invariant
                self.wf(),
                count == self@.terms.len(),
                i <= count,
                total == issued_total(self@.terms.take(i as int)),
            decreases count - i,
        {
            proof {
                assert(self@.terms.take(i + 1).drop_last() =~= self@.terms.take(i as int));
                assert(self@.terms.take(i + 1).last() == self@.terms[i as int]);
                lemma_issued_prefix(self@.terms, i + 1);
            }
            let units = self.units_at(i + 1).terms.total_supply;
            if units > u64::MAX - total {
                return None;
            }
            total = total + units;
            i = i + 1;
        }
        assert(self@.terms.take(count as int) =~= self@.terms);
        Some(total)
    }

    /// The distribution of a pool of `total_amount` over the holders; none
    /// where the units issued are more than `u64` holds.
    pub fn compute_distribution(&self, total_amount: u64) -> (r: Result<Vec<(Principal, u64)>, LedgerError>)
        requires
            self.wf(),
        ensures
            match r {
                Ok(v) => issued_total(self@.terms) <= u64::MAX && v@ == income_shares(
                    self@.registry.index,
                    self@.terms,
                    issued_total(self@.terms) as u64,
                    total_amount,
                ) && crate::ret_token::batch_total(v@) <= total_amount,
                Err(e) => issued_total(self@.terms) > u64::MAX && e == LedgerError::SupplyOverflow,
            },
    {
        let issued = match self.total_issued() {
            Some(t) => t,
            None => {
                return Err(LedgerError::SupplyOverflow);
            },
        };
        proof {
            self@.lemma_income_within_pool(total_amount);
        }
        let mut out: Vec<(Principal, u64)> = Vec::new();
        let n = self.registry.owner_count();
        let mut k: usize = 0;
        while k < n
            invariant
                self.wf(),
                issued == issued_total(self@.terms),
                n == self@.registry.index.len(),
                k <= n,
                out@ == income_shares(self@.registry.index.take(k as int), self@.terms, issued, total_amount),
            decreases n - k,
        {
            proof {
                assert(self@.registry.index.take(k + 1).drop_last() =~= self@.registry.index.take(k as int));
                assert(self@.registry.index.take(k + 1).last() == self@.registry.index[k as int]);
                lemma_owned_supply_bound(self@.terms, self@.registry.index[k as int].tokens);
            }
            let units = self.units_of_line(k);
            if units > 0 {
                proof {
                    lemma_income_share_bound(total_amount, units as int, issued);
                }
                let wide: u128 = (total_amount as u128) * (units as u128) / (issued as u128);
                out.push((self.registry.owner_at(k), wide as u64));
            }
            k = k + 1;
        }
        assert(self@.registry.index.take(n as int) =~= self@.registry.index);
        Ok(out)
    }

    /// Begins a distribution of income: marks the ledger as distributing and
    /// says which batch of payments is to be made.
    pub fn begin_income(&mut self, caller: Principal, total_amount: u64, use_usdt: bool) -> (r: Result<
        (IncomeBatch, ServiceCall),
        LedgerError,
    >)
        requires
            old(self).wf(),
        ensures
            final(self).wf(),
            match old(self)@.income_error() {
                Some(e) => r matches Err(err) && err == e && final(self)@ == old(self)@,
                None => r matches Ok(p) && p.0.wf() && p.0@ == old(self)@.income_batch(caller, total_amount, use_usdt)
                    && p.1 == (ServiceCall::BalanceOf { service: p.0@.service, account: caller }) && final(self)@
                    == (PropertyState { distributing: true, ..old(self)@ }),
            },
    {
        if self.distributing {
            return Err(LedgerError::Busy);
        }
        let payouts = match self.compute_distribution(total_amount) {
            Ok(payouts) => payouts,
            Err(e) => {
                return Err(e);
            },
        };
        let handles = match self.handles {
            Some(h) => h,
            None => {
                return Err(LedgerError::PaymentManagerNotInitialized);
            },
        };
        self.distributing = true;
        let service = if use_usdt {
            handles.usdt_ledger
        } else {
            handles.usdc_ledger
        };
        Ok(IncomeBatch::begin(service, caller, payouts))
    }

    /// Ends a distribution of income.
    pub fn settle_income(&mut self, outcome: BatchOutcome) -> (r: Result<bool, LedgerError>)
        requires
            old(self).wf(),
        ensures
            final(self).wf(),
            !old(self)@.distributing ==> r == Err::<bool, LedgerError>(LedgerError::NotBusy) && final(self)@ == old(self)@,
            old(self)@.distributing ==> r == income_result(outcome.completed, failure_kind(outcome.failure))
                && final(self)@ == (PropertyState { distributing: false, ..old(self)@ }),
    {
        if !self.distributing {
            return Err(LedgerError::NotBusy);
        }
        self.distributing = false;
        match outcome.failure {
            None => Ok(true),
            Some(f) => {
                let e = match f.error {
                    PaymentError::InsufficientBalance => LedgerError::InsufficientBalance,
                    PaymentError::TransferFailed => LedgerError::TransferFailed,
                    PaymentError::InvalidToken => LedgerError::UnsupportedSettlementKind,
                };
                if outcome.completed == 0 {
                    Err(e)
                } else {
                    Err(LedgerError::PartialFailure { completed: outcome.completed as u64, cause: e.kind() })
                }
            },
        }
    }
}

} // verus!
