use crate::account::same_account;
use crate::error::{BidFloor, ErrorKind, LedgerError};
use crate::icrc7_token::{AssetState, ICRC7Token};
use crate::registry::RegistryState;
use crate::ret_token::{balance_in, RETToken, RetState};
use crate::views::{add_saturating, bps_of, sat_add};
use candid::Principal;
use std::collections::HashMap;
use vstd::prelude::*;

verus! {

/// The listing fee, in basis points of the price.
pub const LISTING_FEE_PERCENTAGE: u64 = 100;

/// The denomination a listing is priced and settled in.
#[derive(Clone, Copy, Debug, PartialEq, Eq, Structural)]
pub enum TokenType {
    RET,
    ICP,
}

#[derive(Clone, Copy, Debug, PartialEq, Eq, Structural)]
pub struct ListingPrice {
    pub amount: u64,
    pub token_type: TokenType,
}

/// A part of the ownership of one token, in basis points.
#[derive(Clone, Copy, Debug)]
pub struct PropertyShare {
    pub owner: Principal,
    pub share_percentage: u16,
    pub last_distribution: u64,
}

#[derive(Clone, Copy, Debug, PartialEq, Eq, Structural)]
pub enum ListingStatus {
    Active,
    Sold,
    Cancelled,
}

#[derive(Clone, Copy, Debug)]
pub struct Bid {
    pub bidder: Principal,
    pub amount: u64,
    pub token_type: TokenType,
    pub timestamp: u64,
}

#[derive(Clone, Copy, Debug)]
pub struct Listing {
    pub id: u64,
    pub property_token_id: u64,
    pub seller: Principal,
    pub price: ListingPrice,
    pub created_at: u64,
    pub status: ListingStatus,
    pub highest_bid: Option<Bid>,
    pub royalty_percentage: u16,
    pub listing_fee: u64,
}

#[derive(Clone, Copy, Debug, PartialEq, Eq, Structural)]
pub struct MarketplaceStats {
    pub total_listings: u64,
    pub active_listings: u64,
    pub total_sales: u64,
    pub total_volume_ret: u64,
    pub total_volume_icp: u64,
    pub total_listing_fees: u64,
}

/// How many listings are in `status`.
pub open spec fn count_status(listings: Seq<Listing>, status: ListingStatus) -> int
    decreases listings.len(),
{
    if listings.len() == 0 {
        0
    } else {
        count_status(listings.drop_last(), status) + if listings.last().status == status {
            1int
        } else {
            0int
        }
    }
}

/// The sum of the basis points of a set of shares.
pub open spec fn share_sum(shares: Seq<PropertyShare>) -> int
    decreases shares.len(),
{
    if shares.len() == 0 {
        0
    } else {
        share_sum(shares.drop_last()) + shares.last().share_percentage
    }
}

/// The sum of the basis points of a list of shares as a caller gives it.
pub open spec fn pair_sum(shares: Seq<(Principal, u16)>) -> int
    decreases shares.len(),
{
    if shares.len() == 0 {
        0
    } else {
        pair_sum(shares.drop_last()) + shares.last().1
    }
}

/// The shares that a list of pairs becomes when it is recorded at `now`.
pub open spec fn recorded_shares(shares: Seq<(Principal, u16)>, now: u64) -> Seq<PropertyShare> {
    Seq::new(
        shares.len(),
        |i: int| PropertyShare { owner: shares[i].0, share_percentage: shares[i].1, last_distribution: now },
    )
}

/// `who` holds one of the shares.
pub open spec fn has_share(shares: Seq<PropertyShare>, who: Principal) -> bool {
    exists|i: int| 0 <= i < shares.len() && (#[trigger] shares[i]).owner == who
}

/// The fee for listing at a price of `amount`.
pub open spec fn listing_fee_of(amount: u64) -> int {
    bps_of(amount, LISTING_FEE_PERCENTAGE)
}

/// The highest bid of a listing names the reward token, the kind that the
/// listing is priced in, and no less than the price.
pub open spec fn bid_in_order(l: Listing) -> bool {
    l.highest_bid matches Some(b) ==> b.token_type == TokenType::RET && l.price.token_type == TokenType::RET
        && b.amount >= l.price.amount
}

/// The bids that `user` holds as the highest of a listing, each with the
/// listing's identifier, in the order of the listings.
pub open spec fn bids_by(listings: Seq<Listing>, user: Principal) -> Seq<(u64, Bid)>
    decreases listings.len(),
{
    if listings.len() == 0 {
        Seq::empty()
    } else {
        let rest = bids_by(listings.drop_last(), user);
        match listings.last().highest_bid {
            Some(b) => if b.bidder == user {
                rest.push((listings.last().id, b))
            } else {
                rest
            },
            None => rest,
        }
    }
}

/// The state of the marketplace.
pub struct MarketState {
    /// The listings in the order of their creation: listing `id` is at
    /// `id - 1`.
    pub listings: Seq<Listing>,
    /// The shares recorded for a token, by the token's identifier.
    pub shares: Map<u64, Seq<PropertyShare>>,
    pub stats: MarketplaceStats,
}

impl MarketState {
    /// Identifiers follow the order of creation, bids are in order, the
    /// counters count the listings, and every recorded set of shares sums to
    /// 10000.
    pub open spec fn valid(self) -> bool {
        &&& self.listings.len() <= u64::MAX
        &&& forall|i: int| 0 <= i < self.listings.len() ==> (#[trigger] self.listings[i]).id == i + 1
        &&& forall|i: int| 0 <= i < self.listings.len() ==> bid_in_order(#[trigger] self.listings[i])
        &&& self.stats.total_listings == self.listings.len()
        &&& self.stats.active_listings == count_status(self.listings, ListingStatus::Active)
        &&& self.stats.total_sales == count_status(self.listings, ListingStatus::Sold)
        &&& forall|t: u64| #[trigger] self.shares.contains_key(t) ==> share_sum(self.shares[t]) == 10000
    }

    /// `id` names a listing.
    pub open spec fn has_listing(self, id: u64) -> bool {
        1 <= id <= self.listings.len()
    }

    /// `caller` owns token `id`, or a recorded share of it.
    pub open spec fn verified_owner(self, tokens: RegistryState, caller: Principal, id: u64) -> bool {
        tokens.owner_of(id) == Some(caller) || (self.shares.contains_key(id) && has_share(self.shares[id], caller))
    }

    /// Why a listing is refused, if it is: the first of these that applies.
    pub open spec fn list_error(self, tokens: RegistryState, caller: Principal, token_id: u64, royalty: u16) -> Option<
        LedgerError,
    > {
        if !self.verified_owner(tokens, caller, token_id) {
            Some(LedgerError::NotPropertyOwner)
        } else if self.listings.len() >= u64::MAX {
            Some(LedgerError::CapacityExceeded)
        } else {
            None
        }
    }

    /// The listing that a call of `list_property` creates.
    pub open spec fn new_listing(
        self,
        caller: Principal,
        now: u64,
        token_id: u64,
        price: ListingPrice,
        royalty: u16,
    ) -> Listing {
        Listing {
            id: (self.listings.len() + 1) as u64,
            property_token_id: token_id,
            seller: caller,
            price,
            created_at: now,
            status: ListingStatus::Active,
            highest_bid: None,
            royalty_percentage: royalty,
            listing_fee: listing_fee_of(price.amount) as u64,
        }
    }

    /// The state after a listing that is not refused.
    pub open spec fn after_list(
        self,
        caller: Principal,
        now: u64,
        token_id: u64,
        price: ListingPrice,
        royalty: u16,
    ) -> MarketState {
        MarketState {
            listings: self.listings.push(self.new_listing(caller, now, token_id, price, royalty)),
            stats: MarketplaceStats {
                total_listings: (self.stats.total_listings + 1) as u64,
                active_listings: (self.stats.active_listings + 1) as u64,
                total_listing_fees: sat_add(self.stats.total_listing_fees, listing_fee_of(price.amount) as u64),
                ..self.stats
            },
            ..self
        }
    }

    /// Why a bid is refused, if it is: the first of these that applies.
    pub open spec fn bid_error(self, ret: RetState, caller: Principal, id: u64, amount: u64, kind: TokenType) -> Option<
        LedgerError,
    > {
        if !self.has_listing(id) {
            Some(LedgerError::ListingNotFound)
        } else {
            let l = self.listings[id - 1];
            if l.status != ListingStatus::Active {
                Some(LedgerError::ListingNotActive)
            } else if kind != l.price.token_type {
                Some(LedgerError::WrongSettlementKind)
            } else if l.highest_bid matches Some(b) && amount <= b.amount {
                Some(LedgerError::BidTooLow { floor: BidFloor::HighestBid })
            } else if l.highest_bid is None && amount < l.price.amount {
                Some(LedgerError::BidTooLow { floor: BidFloor::ListingPrice })
            } else if kind != TokenType::RET {
                Some(LedgerError::UnsupportedSettlementKind)
            } else if balance_in(ret.book, caller) < amount {
                Some(LedgerError::InsufficientRetBalance)
            } else {
                None
            }
        }
    }

    /// The state after a bid that is not refused.
    pub open spec fn after_bid(self, caller: Principal, now: u64, id: u64, amount: u64, kind: TokenType) -> MarketState {
        MarketState {
            listings: self.listings.update(
                id - 1,
                Listing {
                    highest_bid: Some(Bid { bidder: caller, amount, token_type: kind, timestamp: now }),
                    ..self.listings[id - 1]
                },
            ),
            ..self
        }
    }

    /// Why a cancellation is refused, if it is: the first of these that applies.
    pub open spec fn cancel_error(self, caller: Principal, id: u64) -> Option<LedgerError> {
        if !self.has_listing(id) {
            Some(LedgerError::ListingNotFound)
        } else if self.listings[id - 1].seller != caller {
            Some(LedgerError::NotSeller)
        } else if self.listings[id - 1].status != ListingStatus::Active {
            Some(LedgerError::ListingNotActive)
        } else {
            None
        }
    }

    /// The state after a cancellation that is not refused.
    pub open spec fn after_cancel(self, id: u64) -> MarketState {
        MarketState {
            listings: self.listings.update(
                id - 1,
                Listing { status: ListingStatus::Cancelled, ..self.listings[id - 1] },
            ),
            stats: MarketplaceStats { active_listings: (self.stats.active_listings - 1) as u64, ..self.stats },
            ..self
        }
    }

    /// Why a list of shares is refused, if it is: the first of these that
    /// applies.
    pub open spec fn fractionalize_error(
        self,
        tokens: RegistryState,
        caller: Principal,
        token_id: u64,
        shares: Seq<(Principal, u16)>,
    ) -> Option<LedgerError> {
        if tokens.owner_of(token_id) != Some(caller) {
            Some(LedgerError::NotPropertyOwner)
        } else if pair_sum(shares) != 10000 {
            Some(LedgerError::SharesNotComplete)
        } else {
            None
        }
    }

    /// The state after a list of shares was recorded.
    pub open spec fn after_fractionalize(self, now: u64, token_id: u64, shares: Seq<(Principal, u16)>) -> MarketState {
        MarketState { shares: self.shares.insert(token_id, recorded_shares(shares, now)), ..self }
    }

    /// What stands in the way of accepting the highest bid of listing `id`,
    /// before anything is moved.
    pub open spec fn accept_error(self, caller: Principal, id: u64) -> Option<LedgerError> {
        if !self.has_listing(id) {
            Some(LedgerError::ListingNotFound)
        } else if self.listings[id - 1].seller != caller {
            Some(LedgerError::NotSeller)
        } else if self.listings[id - 1].status != ListingStatus::Active {
            Some(LedgerError::ListingNotActive)
        } else if self.listings[id - 1].highest_bid is None {
            Some(LedgerError::NoBids)
        } else if self.listings[id - 1].highest_bid.unwrap().token_type != TokenType::RET {
            Some(LedgerError::UnsupportedSettlementKind)
        } else if royalty_of(
            self.listings[id - 1].highest_bid.unwrap().amount,
            self.listings[id - 1].royalty_percentage,
        ) > self.listings[id - 1].highest_bid.unwrap().amount {
            Some(LedgerError::RoyaltyExceedsBid)
        } else {
            None
        }
    }

    /// The state after listing `id` was sold at its highest bid.
    pub open spec fn after_sale(self, id: u64) -> MarketState {
        let l = self.listings[id - 1];
        MarketState {
            listings: self.listings.update(id - 1, Listing { status: ListingStatus::Sold, ..l }),
            stats: MarketplaceStats {
                active_listings: (self.stats.active_listings - 1) as u64,
                total_sales: (self.stats.total_sales + 1) as u64,
                total_volume_ret: sat_add(self.stats.total_volume_ret, l.highest_bid.unwrap().amount),
                ..self.stats
            },
            ..self
        }
    }
}

/// No counter of `after` is below that of `before`, the count of active
/// listings apart.
pub open spec fn rises(before: MarketplaceStats, after: MarketplaceStats) -> bool {
    &&& before.total_listings <= after.total_listings
    &&& before.total_sales <= after.total_sales
    &&& before.total_volume_ret <= after.total_volume_ret
    &&& before.total_volume_icp <= after.total_volume_icp
    &&& before.total_listing_fees <= after.total_listing_fees
}

/// The royalty on a sale at `amount`.
pub open spec fn royalty_of(amount: u64, royalty: u16) -> int {
    bps_of(amount, royalty as u64)
}

/// What a call of `accept_bid` leaves: its result, and the three states.
pub struct Settlement {
    pub result: Result<bool, LedgerError>,
    pub market: MarketState,
    pub registry: RegistryState,
    pub ret: RetState,
}

/// The settlement of the highest bid of listing `id`, step by step: a bid in
/// the reward token is the only kind that is settled; the token goes to the
/// bidder, the bidder pays the seller the amount less the royalty, the bidder
/// pays the royalty to the treasury of the collection, and the listing is
/// sold. A step that fails ends the settlement and leaves what the steps
/// before it did.
pub open spec fn settle(
    market: MarketState,
    tokens: AssetState,
    ret: RetState,
    caller: Principal,
    now: u64,
    id: u64,
) -> Settlement {
    match market.accept_error(caller, id) {
        Some(e) => Settlement { result: Err(e), market, registry: tokens.registry, ret },
        None => {
            let l = market.listings[id - 1];
            let bid = l.highest_bid.unwrap();
            match tokens.registry.transfer_error(caller, now, caller, l.property_token_id) {
                Some(e) => Settlement { result: Err(e), market, registry: tokens.registry, ret },
                None => settle_payment(
                    market,
                    tokens.registry.after_transfer(now, caller, bid.bidder, l.property_token_id),
                    ret,
                    caller,
                    tokens.treasury(),
                    id,
                ),
            }
        },
    }
}

/// The rest of a settlement, once the token has gone to the bidder: the
/// seller is paid, and then the treasury where the royalty is more than
/// nothing.
pub open spec fn settle_payment(
    market: MarketState,
    moved: RegistryState,
    ret: RetState,
    caller: Principal,
    treasury: Principal,
    id: u64,
) -> Settlement {
    let l = market.listings[id - 1];
    let bid = l.highest_bid.unwrap();
    let royalty = royalty_of(bid.amount, l.royalty_percentage) as u64;
    let seller_amount = (bid.amount - royalty) as u64;
    match ret.transfer_error(bid.bidder, bid.bidder, seller_amount) {
        Some(e) => Settlement {
            result: Err(LedgerError::PartialFailure { completed: 1, cause: e.kind_of() }),
            market,
            registry: moved,
            ret,
        },
        None => {
            let paid = ret.after_transfer(bid.bidder, caller, seller_amount);
            if royalty > 0 {
                match paid.transfer_error(bid.bidder, bid.bidder, royalty) {
                    Some(e) => Settlement {
                        result: Err(LedgerError::PartialFailure { completed: 2, cause: e.kind_of() }),
                        market,
                        registry: moved,
                        ret: paid,
                    },
                    None => Settlement {
                        result: Ok(true),
                        market: market.after_sale(id),
                        registry: moved,
                        ret: paid.after_transfer(bid.bidder, treasury, royalty),
                    },
                }
            } else {
                Settlement { result: Ok(true), market: market.after_sale(id), registry: moved, ret: paid }
            }
        },
    }
}

/// A settlement that succeeds pays the bid out in full: the seller has the
/// bid less the royalty more than before, the treasury of the collection the
/// royalty more, the bidder the whole bid less, everybody else what they had,
/// and the token is the bidder's. An account in two of these roles has the
/// sum of what falls to each.
pub proof fn lemma_settlement_pays(
    market: MarketState,
    tokens: AssetState,
    ret: RetState,
    caller: Principal,
    now: u64,
    id: u64,
    who: Principal,
)
    requires
        market.valid(),
        tokens.valid(),
        ret.valid(),
        settle(market, tokens, ret, caller, now, id).result == Ok::<bool, LedgerError>(true),
    ensures
        tokens.collection is Some,
        settle(market, tokens, ret, caller, now, id).market.listings[id - 1].status == ListingStatus::Sold,
        settle(market, tokens, ret, caller, now, id).registry.owner_of(market.listings[id - 1].property_token_id)
            == Some(market.listings[id - 1].highest_bid.unwrap().bidder),
        0 <= royalty_of(
            market.listings[id - 1].highest_bid.unwrap().amount,
            market.listings[id - 1].royalty_percentage,
        ) <= market.listings[id - 1].highest_bid.unwrap().amount,
        balance_in(settle(market, tokens, ret, caller, now, id).ret.book, who) == balance_in(ret.book, who) + (if who
            == caller {
            market.listings[id - 1].highest_bid.unwrap().amount - royalty_of(
                market.listings[id - 1].highest_bid.unwrap().amount,
                market.listings[id - 1].royalty_percentage,
            )
        } else {
            0
        }) + (if who == tokens.collection.unwrap().treasury {
            royalty_of(
                market.listings[id - 1].highest_bid.unwrap().amount,
                market.listings[id - 1].royalty_percentage,
            )
        } else {
            0
        }) - (if who == market.listings[id - 1].highest_bid.unwrap().bidder {
            market.listings[id - 1].highest_bid.unwrap().amount as int
        } else {
            0
        }),
{
    let l = market.listings[id - 1];
    let bid = l.highest_bid.unwrap();
    lemma_bps_nonnegative(bid.amount, l.royalty_percentage as u64);
    let royalty = royalty_of(bid.amount, l.royalty_percentage) as u64;
    let seller_amount = (bid.amount - royalty) as u64;
    tokens.lemma_tokens_have_a_collection(l.property_token_id);
    tokens.registry.lemma_transfer_valid(caller, now, caller, bid.bidder, l.property_token_id);
    ret.lemma_transfer_valid(bid.bidder, caller, seller_amount);
    ret.lemma_transfer_moves_amount(bid.bidder, caller, seller_amount, who);
    let paid = ret.after_transfer(bid.bidder, caller, seller_amount);
    if royalty > 0 {
        paid.lemma_transfer_moves_amount(bid.bidder, tokens.treasury(), royalty, who);
    }
}

/// How far a distribution of rewards came.
pub struct Payout {
    pub ret: RetState,
    /// How many transfers were made.
    pub completed: nat,
    /// Why the next transfer was refused, where one was.
    pub failure: Option<LedgerError>,
}

/// The reward of one share of a pool of `amount`.
pub open spec fn reward_of(amount: u64, share: PropertyShare) -> int {
    bps_of(amount, share.share_percentage as u64)
}

/// The distribution of `amount` over `shares`, first to last, each share
/// paid from the balance of `caller`; it ends at the first transfer that is
/// refused.
pub open spec fn pay_out(ret: RetState, caller: Principal, shares: Seq<PropertyShare>, amount: u64) -> Payout
    decreases shares.len(),
{
    if shares.len() == 0 {
        Payout { ret, completed: 0, failure: None }
    } else {
        let before = pay_out(ret, caller, shares.drop_last(), amount);
        if before.failure is Some {
            before
        } else {
            let reward = reward_of(amount, shares.last()) as u64;
            match before.ret.transfer_error(caller, caller, reward) {
                Some(e) => Payout { failure: Some(e), ..before },
                None => Payout {
                    ret: before.ret.after_transfer(caller, shares.last().owner, reward),
                    completed: before.completed + 1,
                    failure: None,
                },
            }
        }
    }
}

/// What `distribute_ret_rewards` returns for a distribution that came as far
/// as `p`.
pub open spec fn payout_result(p: Payout) -> Result<(), LedgerError> {
    match p.failure {
        None => Ok(()),
        Some(e) => if p.completed == 0 {
            Err(e)
        } else {
            Err(LedgerError::PartialFailure { completed: p.completed as u64, cause: e.kind_of() })
        },
    }
}

/// No more listings are in a status than there are listings.
pub proof fn lemma_count_bounds(listings: Seq<Listing>, status: ListingStatus)
    ensures
        0 <= count_status(listings, status) <= listings.len(),
    decreases listings.len(),
{
    if listings.len() > 0 {
        lemma_count_bounds(listings.drop_last(), status);
    }
}

/// How the count of a status changes where one listing is replaced.
pub proof fn lemma_count_update(listings: Seq<Listing>, i: int, l: Listing, status: ListingStatus)
    requires
        0 <= i < listings.len(),
    ensures
        count_status(listings.update(i, l), status) == count_status(listings, status) - (if listings[i].status
            == status {
            1int
        } else {
            0int
        }) + (if l.status == status {
            1int
        } else {
            0int
        }),
    decreases listings.len(),
{
    let after = listings.update(i, l);
    if i < listings.len() - 1 {
        lemma_count_update(listings.drop_last(), i, l, status);
        assert(after.drop_last() =~= listings.drop_last().update(i, l));
    } else {
        assert(after.drop_last() =~= listings.drop_last());
    }
}

/// How the count of a status changes where one listing is added.
pub proof fn lemma_count_push(listings: Seq<Listing>, l: Listing, status: ListingStatus)
    ensures
        count_status(listings.push(l), status) == count_status(listings, status) + (if l.status == status {
            1int
        } else {
            0int
        }),
{
    assert(listings.push(l).drop_last() =~= listings);
}

/// No share of a set is more than the sum of the set.
pub proof fn lemma_share_bound(shares: Seq<PropertyShare>, i: int)
    requires
        0 <= i < shares.len(),
    ensures
        shares[i].share_percentage <= share_sum(shares),
        0 <= share_sum(shares),
    decreases shares.len(),
{
    lemma_share_sum_nonnegative(shares);
    lemma_share_sum_nonnegative(shares.drop_last());
    if i < shares.len() - 1 {
        lemma_share_bound(shares.drop_last(), i);
    }
}

/// A sum of shares is not negative.
pub proof fn lemma_share_sum_nonnegative(shares: Seq<PropertyShare>)
    ensures
        0 <= share_sum(shares),
    decreases shares.len(),
{
    if shares.len() > 0 {
        lemma_share_sum_nonnegative(shares.drop_last());
    }
}

/// The sum of a part of a list of shares is no more than that of the whole.
pub proof fn lemma_pair_prefix(shares: Seq<(Principal, u16)>, k: int)
    requires
        0 <= k <= shares.len(),
    ensures
        0 <= pair_sum(shares.take(k)) <= pair_sum(shares),
    decreases shares.len(),
{
    lemma_pair_sum_nonnegative(shares.take(k));
    if k == shares.len() {
        assert(shares.take(k) =~= shares);
    } else {
        lemma_pair_prefix(shares.drop_last(), k);
        assert(shares.drop_last().take(k) =~= shares.take(k));
    }
}

/// A sum of shares is not negative.
pub proof fn lemma_pair_sum_nonnegative(shares: Seq<(Principal, u16)>)
    ensures
        0 <= pair_sum(shares),
    decreases shares.len(),
{
    if shares.len() > 0 {
        lemma_pair_sum_nonnegative(shares.drop_last());
    }
}

/// Recording a list of pairs keeps the sum of its basis points.
pub proof fn lemma_recorded_sum(shares: Seq<(Principal, u16)>, now: u64)
    ensures
        share_sum(recorded_shares(shares, now)) == pair_sum(shares),
    decreases shares.len(),
{
    if shares.len() > 0 {
        lemma_recorded_sum(shares.drop_last(), now);
        assert(recorded_shares(shares, now).drop_last() =~= recorded_shares(shares.drop_last(), now));
    }
}

/// A basis-point part of an amount is not negative.
pub proof fn lemma_bps_nonnegative(amount: u64, bps: u64)
    ensures
        0 <= bps_of(amount, bps),
{
    assert(0 <= amount * bps) by (nonlinear_arith)
        requires
            0 <= bps,
            0 <= amount,
    ;
}

/// A basis-point part of an amount is no more than the amount.
pub proof fn lemma_bps_bound(amount: u64, bps: u64)
    requires
        bps <= 10000,
    ensures
        0 <= bps_of(amount, bps) <= amount,
{
    assert(0 <= amount * bps <= amount * 10000) by (nonlinear_arith)
        requires
            0 <= bps <= 10000,
            0 <= amount,
    ;
}

/// A distribution that was stopped stays where it stopped, whatever shares
/// follow.
pub proof fn lemma_pay_out_stopped(ret: RetState, caller: Principal, shares: Seq<PropertyShare>, amount: u64, k: int)
    requires
        0 <= k <= shares.len(),
        pay_out(ret, caller, shares.take(k), amount).failure is Some,
    ensures
        pay_out(ret, caller, shares, amount) == pay_out(ret, caller, shares.take(k), amount),
    decreases shares.len(),
{
    if k == shares.len() {
        assert(shares.take(k) =~= shares);
    } else {
        assert(shares.drop_last().take(k) =~= shares.take(k));
        lemma_pay_out_stopped(ret, caller, shares.drop_last(), amount, k);
    }
}

/// A distribution leaves a valid ledger, and makes no more transfers than
/// there are shares.
pub proof fn lemma_pay_out_valid(ret: RetState, caller: Principal, shares: Seq<PropertyShare>, amount: u64)
    requires
        ret.valid(),
    ensures
        pay_out(ret, caller, shares, amount).ret.valid(),
        pay_out(ret, caller, shares, amount).completed <= shares.len(),
        pay_out(ret, caller, shares, amount).failure is None ==> pay_out(ret, caller, shares, amount).completed
            == shares.len(),
    decreases shares.len(),
{
    if shares.len() > 0 {
        lemma_pay_out_valid(ret, caller, shares.drop_last(), amount);
        let before = pay_out(ret, caller, shares.drop_last(), amount);
        if before.failure is None {
            let reward = reward_of(amount, shares.last()) as u64;
            if before.ret.transfer_error(caller, caller, reward) is None {
                before.ret.lemma_transfer_valid(caller, shares.last().owner, reward);
            }
        }
    }
}

impl MarketState {
    /// A listing that is not refused leaves a valid state.
    pub proof fn lemma_list_valid(
        self,
        tokens: RegistryState,
        caller: Principal,
        now: u64,
        token_id: u64,
        price: ListingPrice,
        royalty: u16,
    )
        requires
            self.valid(),
            self.list_error(tokens, caller, token_id, royalty) is None,
        ensures
            self.after_list(caller, now, token_id, price, royalty).valid(),
            0 <= listing_fee_of(price.amount) <= price.amount,
    {
        let after = self.after_list(caller, now, token_id, price, royalty);
        let l = self.new_listing(caller, now, token_id, price, royalty);
        lemma_bps_bound(price.amount, LISTING_FEE_PERCENTAGE);
        lemma_count_push(self.listings, l, ListingStatus::Active);
        lemma_count_push(self.listings, l, ListingStatus::Sold);
        lemma_count_bounds(self.listings, ListingStatus::Active);
        assert forall|i: int| 0 <= i < after.listings.len() implies (#[trigger] after.listings[i]).id == i + 1 by {
            if i < self.listings.len() {
                assert(self.listings[i].id == i + 1);
            }
        }
        assert forall|i: int| 0 <= i < after.listings.len() implies bid_in_order(#[trigger] after.listings[i]) by {
            if i < self.listings.len() {
                assert(bid_in_order(self.listings[i]));
            }
        }
    }

    proof fn lemma_update_valid(self, id: u64, l: Listing, stats: MarketplaceStats)
        requires
            self.valid(),
            self.has_listing(id),
            l.id == id,
            bid_in_order(l),
            stats.total_listings == self.stats.total_listings,
            stats.active_listings == count_status(self.listings.update(id - 1, l), ListingStatus::Active),
            stats.total_sales == count_status(self.listings.update(id - 1, l), ListingStatus::Sold),
        ensures
            (MarketState { listings: self.listings.update(id - 1, l), stats, ..self }).valid(),
    {
        let after = MarketState { listings: self.listings.update(id - 1, l), stats, ..self };
        assert forall|i: int| 0 <= i < after.listings.len() implies (#[trigger] after.listings[i]).id == i + 1 by {
            assert(self.listings[i].id == i + 1);
        }
        assert forall|i: int| 0 <= i < after.listings.len() implies bid_in_order(#[trigger] after.listings[i]) by {
            assert(bid_in_order(self.listings[i]));
        }
    }

    /// A bid that is not refused leaves a valid state.
    pub proof fn lemma_bid_valid(self, ret: RetState, caller: Principal, now: u64, id: u64, amount: u64, kind: TokenType)
        requires
            self.valid(),
            self.bid_error(ret, caller, id, amount, kind) is None,
        ensures
            self.after_bid(caller, now, id, amount, kind).valid(),
    {
        let l = self.after_bid(caller, now, id, amount, kind).listings[id - 1];
        assert(self.listings[id - 1].id == id);
        assert(bid_in_order(self.listings[id - 1]));
        lemma_count_update(self.listings, id - 1, l, ListingStatus::Active);
        lemma_count_update(self.listings, id - 1, l, ListingStatus::Sold);
        self.lemma_update_valid(id, l, self.stats);
    }

    /// A cancellation that is not refused leaves a valid state.
    pub proof fn lemma_cancel_valid(self, caller: Principal, id: u64)
        requires
            self.valid(),
            self.cancel_error(caller, id) is None,
        ensures
            self.after_cancel(id).valid(),
            self.stats.active_listings >= 1,
    {
        let after = self.after_cancel(id);
        let l = after.listings[id - 1];
        assert(self.listings[id - 1].id == id);
        assert(bid_in_order(self.listings[id - 1]));
        lemma_count_update(self.listings, id - 1, l, ListingStatus::Active);
        lemma_count_update(self.listings, id - 1, l, ListingStatus::Sold);
        lemma_count_bounds(after.listings, ListingStatus::Active);
        self.lemma_update_valid(id, l, after.stats);
    }

    /// A sale leaves a valid state.
    pub proof fn lemma_sale_valid(self, caller: Principal, id: u64)
        requires
            self.valid(),
            self.accept_error(caller, id) is None,
        ensures
            self.after_sale(id).valid(),
            self.stats.active_listings >= 1,
            self.stats.total_sales < u64::MAX,
    {
        let after = self.after_sale(id);
        let l = after.listings[id - 1];
        assert(self.listings[id - 1].id == id);
        assert(bid_in_order(self.listings[id - 1]));
        lemma_count_update(self.listings, id - 1, l, ListingStatus::Active);
        lemma_count_update(self.listings, id - 1, l, ListingStatus::Sold);
        lemma_count_bounds(after.listings, ListingStatus::Active);
        lemma_count_bounds(after.listings, ListingStatus::Sold);
        self.lemma_update_valid(id, l, after.stats);
    }

    /// The counters only rise: no listing, bid, sale or cancellation that is
    /// made lowers a counter, but for the count of active listings, which a
    /// sale or a cancellation lowers by one.
    pub proof fn lemma_counters_only_rise(
        self,
        tokens: RegistryState,
        caller: Principal,
        now: u64,
        token_id: u64,
        price: ListingPrice,
        royalty: u16,
        id: u64,
        amount: u64,
        kind: TokenType,
    )
        requires
            self.valid(),
        ensures
            self.list_error(tokens, caller, token_id, royalty) is None ==> rises(
                self.stats,
                self.after_list(caller, now, token_id, price, royalty).stats,
            ) && self.after_list(caller, now, token_id, price, royalty).stats.active_listings
                == self.stats.active_listings + 1,
            self.after_bid(caller, now, id, amount, kind).stats == self.stats,
            self.accept_error(caller, id) is None ==> rises(self.stats, self.after_sale(id).stats)
                && self.after_sale(id).stats.active_listings == self.stats.active_listings - 1,
            self.cancel_error(caller, id) is None ==> rises(self.stats, self.after_cancel(id).stats)
                && self.after_cancel(id).stats.active_listings == self.stats.active_listings - 1,
    {
        if self.list_error(tokens, caller, token_id, royalty) is None {
            self.lemma_list_valid(tokens, caller, now, token_id, price, royalty);
            lemma_count_bounds(self.listings, ListingStatus::Active);
        }
        if self.accept_error(caller, id) is None {
            self.lemma_sale_valid(caller, id);
        }
        if self.cancel_error(caller, id) is None {
            self.lemma_cancel_valid(caller, id);
        }
    }

    /// A listing follows from ownership alone: while identifiers are left, a
    /// token is listed for exactly those callers who own it or a recorded
    /// share of it, at any price and with any royalty, and the listing made
    /// is active, without bids, and carries the royalty as it was given and
    /// a fee of one hundredth of the price.
    pub proof fn lemma_listing_follows_ownership(
        self,
        tokens: RegistryState,
        caller: Principal,
        now: u64,
        token_id: u64,
        price: ListingPrice,
        royalty: u16,
    )
        requires
            self.valid(),
            self.listings.len() < u64::MAX,
        ensures
            self.list_error(tokens, caller, token_id, royalty) is None <==> self.verified_owner(
                tokens,
                caller,
                token_id,
            ),
            !self.verified_owner(tokens, caller, token_id) ==> self.list_error(tokens, caller, token_id, royalty)
                == Some(LedgerError::NotPropertyOwner),
            self.after_list(caller, now, token_id, price, royalty).listings.last() == (Listing {
                id: (self.listings.len() + 1) as u64,
                property_token_id: token_id,
                seller: caller,
                price,
                created_at: now,
                status: ListingStatus::Active,
                highest_bid: None,
                royalty_percentage: royalty,
                listing_fee: (price.amount * 100 / 10000) as u64,
            }),
            self.after_list(caller, now, token_id, price, royalty).stats.total_listings == self.stats.total_listings
                + 1,
            self.after_list(caller, now, token_id, price, royalty).stats.active_listings
                == self.stats.active_listings + 1,
            self.after_list(caller, now, token_id, price, royalty).stats.total_listing_fees == sat_add(
                self.stats.total_listing_fees,
                (price.amount * 100 / 10000) as u64,
            ),
    {
        lemma_count_bounds(self.listings, ListingStatus::Active);
    }

    /// A cancelled listing cannot be cancelled again: the second call fails
    /// because the listing is no longer active.
    pub proof fn lemma_cancel_once(self, caller: Principal, id: u64)
        requires
            self.valid(),
            self.cancel_error(caller, id) is None,
        ensures
            self.after_cancel(id).cancel_error(caller, id) == Some(LedgerError::ListingNotActive),
            LedgerError::ListingNotActive.kind_of() == ErrorKind::InvalidState,
    {
    }

    /// Bids only rise: the first bid of a listing is at or above the price,
    /// and once a bid of `amount` stands, a bid of no more than `amount` is
    /// refused as too low, whoever makes it.
    pub proof fn lemma_bids_rise(
        self,
        ret: RetState,
        caller: Principal,
        now: u64,
        id: u64,
        amount: u64,
        kind: TokenType,
        later_ret: RetState,
        later_caller: Principal,
        later_amount: u64,
    )
        requires
            self.valid(),
            self.bid_error(ret, caller, id, amount, kind) is None,
        ensures
            amount >= self.listings[id - 1].price.amount,
            self.listings[id - 1].highest_bid matches Some(b) ==> amount > b.amount,
            later_amount <= amount ==> self.after_bid(caller, now, id, amount, kind).bid_error(
                later_ret,
                later_caller,
                id,
                later_amount,
                kind,
            ) == Some(LedgerError::BidTooLow { floor: BidFloor::HighestBid }),
            self.after_bid(caller, now, id, amount, kind).bid_error(later_ret, later_caller, id, later_amount, kind)
                is None ==> later_amount > amount,
    {
        assert(bid_in_order(self.listings[id - 1]));
    }

    /// Shares are complete: a list of shares of a token's owner is recorded
    /// if and only if its basis points sum to exactly 10000, and every
    /// recorded set sums to that.
    pub proof fn lemma_shares_complete(
        self,
        tokens: RegistryState,
        caller: Principal,
        now: u64,
        token_id: u64,
        shares: Seq<(Principal, u16)>,
    )
        requires
            self.valid(),
            tokens.owner_of(token_id) == Some(caller),
        ensures
            self.fractionalize_error(tokens, caller, token_id, shares) is None <==> pair_sum(shares) == 10000,
            pair_sum(shares) != 10000 ==> self.fractionalize_error(tokens, caller, token_id, shares) == Some(
                LedgerError::SharesNotComplete,
            ),
            pair_sum(shares) == 10000 ==> share_sum(
                self.after_fractionalize(now, token_id, shares).shares[token_id],
            ) == 10000,
            forall|t: u64| #[trigger] self.shares.contains_key(t) ==> share_sum(self.shares[t]) == 10000,
    {
        lemma_recorded_sum(shares, now);
    }

    /// A list of shares that is not refused leaves a valid state.
    pub proof fn lemma_fractionalize_valid(
        self,
        tokens: RegistryState,
        caller: Principal,
        now: u64,
        token_id: u64,
        shares: Seq<(Principal, u16)>,
    )
        requires
            self.valid(),
            self.fractionalize_error(tokens, caller, token_id, shares) is None,
        ensures
            self.after_fractionalize(now, token_id, shares).valid(),
    {
        lemma_recorded_sum(shares, now);
    }
}


/// The listings that are active, in the order of their creation.
pub open spec fn active_among(listings: Seq<Listing>) -> Seq<Listing>
    decreases listings.len(),
{
    if listings.len() == 0 {
        Seq::empty()
    } else if listings.last().status == ListingStatus::Active {
        active_among(listings.drop_last()).push(listings.last())
    } else {
        active_among(listings.drop_last())
    }
}

/// The listings of `seller`, in the order of their creation.
pub open spec fn listed_by(listings: Seq<Listing>, seller: Principal) -> Seq<Listing>
    decreases listings.len(),
{
    if listings.len() == 0 {
        Seq::empty()
    } else if listings.last().seller == seller {
        listed_by(listings.drop_last(), seller).push(listings.last())
    } else {
        listed_by(listings.drop_last(), seller)
    }
}

/// The recorded shares, each set as a sequence.
pub open spec fn shares_view(m: Map<u64, Vec<PropertyShare>>) -> Map<u64, Seq<PropertyShare>> {
    m.map_values(|v: Vec<PropertyShare>| v@)
}

/// Listings, recorded shares, and the counters kept over them.
pub struct Marketplace {
    listings: HashMap<u64, Listing>,
    /// The identifier of the listing that was created last.
    listing_counter: u64,
    shares: HashMap<u64, Vec<PropertyShare>>,
    stats: MarketplaceStats,
}

impl View for Marketplace {
    type V = MarketState;

    closed spec fn view(&self) -> MarketState {
        MarketState {
            listings: Seq::new(self.listing_counter as nat, |i: int| self.listings@[(i + 1) as u64]),
            shares: shares_view(self.shares@),
            stats: self.stats,
        }
    }
}

fn holds_share(shares: &Vec<PropertyShare>, who: &Principal) -> (r: bool)
    ensures
        r == has_share(shares@, *who),
{
    let mut i: usize = 0;
    while i < shares.len()
        invariant
            i <= shares.len(),
            forall|j: int| 0 <= j < i ==> (#[trigger] shares[j]).owner != *who,
        decreases shares.len() - i,
    {
        if same_account(&shares[i].owner, who) {
            return true;
        }
        i = i + 1;
    }
    false
}

impl Marketplace {
    /// The marketplace's invariant: identifiers follow the order of
    /// creation, the counters count the listings, a highest bid is at or
    /// above the price, and every recorded set of shares sums to 10000.
    pub open spec fn wf(&self) -> bool {
        self.filled() && self@.valid()
    }

    /// Every identifier up to the one given last has its listing, and no
    /// other has one.
    pub closed spec fn filled(&self) -> bool {
        forall|k: u64| #[trigger] self.listings@.contains_key(k) <==> 1 <= k <= self.listing_counter
    }

    /// The listing with identifier `id`, which names one.
    fn listing_at(&self, id: u64) -> (l: Listing)
        requires
            self.filled(),
            1 <= id <= self@.listings.len(),
        ensures
            l == self@.listings[id - 1],
    {
        broadcast use vstd::std_specs::hash::group_hash_axioms;

        assert(self.listings@.contains_key(id));
        match self.listings.get(&id) {
            Some(l) => *l,
            None => vstd::pervasive::unreached(),
        }
    }

    /// Puts `l` in the place of the listing with identifier `id`.
    fn put_listing(&mut self, id: u64, l: Listing)
        requires
            old(self).filled(),
            1 <= id <= old(self)@.listings.len(),
        ensures
            final(self).filled(),
            final(self)@ == (MarketState { listings: old(self)@.listings.update(id - 1, l), ..old(self)@ }),
    {
        broadcast use vstd::std_specs::hash::group_hash_axioms;

        self.listings.insert(id, l);
        assert(self@.listings =~= old(self)@.listings.update(id - 1, l));
    }

    /// How many listings were created.
    fn listing_count(&self) -> (n: u64)
        ensures
            n == self@.listings.len(),
    {
        self.listing_counter
    }

    /// A marketplace without listings or shares.
    pub fn new() -> (r: Self)
        ensures
            r.wf(),
            r@.listings == Seq::<Listing>::empty(),
            r@.shares == Map::<u64, Seq<PropertyShare>>::empty(),
            r@.stats == (MarketplaceStats {
                total_listings: 0,
                active_listings: 0,
                total_sales: 0,
                total_volume_ret: 0,
                total_volume_icp: 0,
                total_listing_fees: 0,
            }),
    {
        let r = Marketplace {
            listings: HashMap::new(),
            listing_counter: 0,
            shares: HashMap::new(),
            stats: MarketplaceStats {
                total_listings: 0,
                active_listings: 0,
                total_sales: 0,
                total_volume_ret: 0,
                total_volume_icp: 0,
                total_listing_fees: 0,
            },
        };
        assert(r@.shares =~= Map::<u64, Seq<PropertyShare>>::empty());
        assert(r@.listings =~= Seq::<Listing>::empty());
        r
    }

    /// `caller` owns the token, or a recorded share of it.
    pub fn verify_ownership(&self, tokens: &ICRC7Token, property_token_id: u64, caller: Principal) -> (r: bool)
        requires
            tokens.wf(),
        ensures
            r == self@.verified_owner(tokens@.registry, caller, property_token_id),
    {
        broadcast use vstd::std_specs::hash::group_hash_axioms;

        if let Some(owner) = tokens.owner_of(property_token_id) {
            if same_account(&owner, &caller) {
                return true;
            }
        }
        match self.shares.get(&property_token_id) {
            Some(shares) => holds_share(shares, &caller),
            None => false,
        }
    }

    /// Puts a token up for sale and returns the identifier of the listing.
    pub fn list_property(
        &mut self,
        tokens: &ICRC7Token,
        caller: Principal,
        now: u64,
        property_token_id: u64,
        price: ListingPrice,
        royalty_percentage: u16,
    ) -> (r: Result<u64, LedgerError>)
        requires
            old(self).wf(),
            tokens.wf(),
        ensures
            final(self).wf(),
            match old(self)@.list_error(tokens@.registry, caller, property_token_id, royalty_percentage) {
                Some(e) => r == Err::<u64, LedgerError>(e) && final(self)@ == old(self)@,
                None => r == Ok::<u64, LedgerError>((old(self)@.listings.len() + 1) as u64) && final(self)@
                    == old(self)@.after_list(caller, now, property_token_id, price, royalty_percentage),
            },
    {
        if !self.verify_ownership(tokens, property_token_id, caller) {
            return Err(LedgerError::NotPropertyOwner);
        }
        broadcast use vstd::std_specs::hash::group_hash_axioms;

        if self.listing_counter >= u64::MAX {
            return Err(LedgerError::CapacityExceeded);
        }
        proof {
            old(self)@.lemma_list_valid(tokens@.registry, caller, now, property_token_id, price, royalty_percentage);
            lemma_count_bounds(self@.listings, ListingStatus::Active);
        }
        let listing_fee: u64 = crate::views::basis_points(price.amount, LISTING_FEE_PERCENTAGE) as u64;
        let listing_id: u64 = self.listing_counter + 1;
        let listing = Listing {
            id: listing_id,
            property_token_id,
            seller: caller,
            price,
            created_at: now,
            status: ListingStatus::Active,
            highest_bid: None,
            royalty_percentage,
            listing_fee,
        };
        self.listings.insert(listing_id, listing);
        self.listing_counter = listing_id;
        assert(self@.listings =~= old(self)@.listings.push(listing));
        self.stats.total_listings = self.stats.total_listings + 1;
        self.stats.active_listings = self.stats.active_listings + 1;
        self.stats.total_listing_fees = add_saturating(self.stats.total_listing_fees, listing_fee);
        Ok(listing_id)
    }

    /// Records the shares of a token, in place of any recorded before.
    pub fn fractionalize_property(
        &mut self,
        tokens: &ICRC7Token,
        caller: Principal,
        now: u64,
        property_token_id: u64,
        shares: Vec<(Principal, u16)>,
    ) -> (r: Result<(), LedgerError>)
        requires
            old(self).wf(),
            tokens.wf(),
        ensures
            final(self).wf(),
            match old(self)@.fractionalize_error(tokens@.registry, caller, property_token_id, shares@) {
                Some(e) => r == Err::<(), LedgerError>(e) && final(self)@ == old(self)@,
                None => r is Ok && final(self)@ == old(self)@.after_fractionalize(now, property_token_id, shares@),
            },
    {
        broadcast use vstd::std_specs::hash::group_hash_axioms;

        let owns = match tokens.owner_of(property_token_id) {
            Some(owner) => same_account(&owner, &caller),
            None => false,
        };
        if !owns {
            return Err(LedgerError::NotPropertyOwner);
        }
        let mut total: u64 = 0;
        let mut recorded: Vec<PropertyShare> = Vec::new();
        let mut i: usize = 0;
        while i < shares.len()
            invariant
                i <= shares.len(),
                total == pair_sum(shares@.take(i as int)),
                total <= 10000,
                recorded@ == recorded_shares(shares@.take(i as int), now),
                self@ == old(self)@,
                self.wf(),
                tokens@.registry.owner_of(property_token_id) == Some(caller),
            decreases shares.len() - i,
        {
            let share = shares[i].1;
            proof {
                assert(shares@.take(i + 1).drop_last() =~= shares@.take(i as int));
                assert(shares@.take(i + 1).last() == shares@[i as int]);
                lemma_pair_prefix(shares@, i + 1);
            }
            if share as u64 > 10000 - total {
                return Err(LedgerError::SharesNotComplete);
            }
            total = total + share as u64;
            recorded.push(PropertyShare { owner: shares[i].0, share_percentage: share, last_distribution: now });
            i = i + 1;
            assert(recorded@ =~= recorded_shares(shares@.take(i as int), now));
        }
        assert(shares@.take(shares.len() as int) =~= shares@);
        if total != 10000 {
            return Err(LedgerError::SharesNotComplete);
        }
        proof {
            old(self)@.lemma_fractionalize_valid(tokens@.registry, caller, now, property_token_id, shares@);
        }
        self.shares.insert(property_token_id, recorded);
        assert(self@.shares =~= old(self)@.shares.insert(property_token_id, recorded_shares(shares@, now)));
        Ok(())
    }

    /// Pays each recorded share of a token its part of `amount`, from the
    /// balance of `caller`. What was paid before a transfer is refused stays
    /// paid.
    pub fn distribute_ret_rewards(
        &self,
        ret: &mut RETToken,
        caller: Principal,
        property_token_id: u64,
        amount: u64,
    ) -> (r: Result<(), LedgerError>)
        requires
            self.wf(),
            old(ret).wf(),
        ensures
            final(ret).wf(),
            !self@.shares.contains_key(property_token_id) ==> r == Err::<(), LedgerError>(
                LedgerError::SharesNotFound,
            ) && final(ret)@ == old(ret)@,
            self@.shares.contains_key(property_token_id) ==> r == payout_result(
                pay_out(old(ret)@, caller, self@.shares[property_token_id], amount),
            ) && final(ret)@ == pay_out(old(ret)@, caller, self@.shares[property_token_id], amount).ret,
    {
        broadcast use vstd::std_specs::hash::group_hash_axioms;

        let shares = match self.shares.get(&property_token_id) {
            Some(shares) => shares,
            None => {
                return Err(LedgerError::SharesNotFound);
            },
        };
        assert(self@.shares.contains_key(property_token_id));
        assert(shares@ == self@.shares[property_token_id]);
        assert(share_sum(shares@) == 10000);
        let mut i: usize = 0;
        while i < shares.len()
            invariant
                i <= shares.len(),
                share_sum(shares@) == 10000,
                self@.shares.contains_key(property_token_id),
                shares@ == self@.shares[property_token_id],
                old(ret).wf(),
                ret.wf(),
                pay_out(old(ret)@, caller, shares@.take(i as int), amount) == (Payout {
                    ret: ret@,
                    completed: i as nat,
                    failure: None,
                }),
            decreases shares.len() - i,
        {
            let share = shares[i];
            proof {
                assert(shares@.take(i + 1).drop_last() =~= shares@.take(i as int));
                assert(shares@.take(i + 1).last() == shares@[i as int]);
                lemma_share_bound(shares@, i as int);
                lemma_pay_out_valid(old(ret)@, caller, shares@.take(i + 1), amount);
            }
            let reward: u64 = crate::views::basis_points(amount, share.share_percentage as u64) as u64;
            match ret.transfer(
                caller,
                crate::ret_token::TransferArgs { from: caller, to: share.owner, amount: reward, memo: None },
            ) {
                Ok(_) => {},
                Err(e) => {
                    proof {
                        lemma_pay_out_stopped(old(ret)@, caller, shares@, amount, i + 1);
                    }
                    if i == 0 {
                        return Err(e);
                    } else {
                        return Err(LedgerError::PartialFailure { completed: i as u64, cause: e.kind() });
                    }
                },
            }
            i = i + 1;
        }
        assert(shares@.take(shares.len() as int) =~= shares@);
        Ok(())
    }

    /// Makes `amount` the highest bid of a listing.
    pub fn place_bid(
        &mut self,
        ret: &RETToken,
        caller: Principal,
        now: u64,
        listing_id: u64,
        amount: u64,
        token_type: TokenType,
    ) -> (r: Result<bool, LedgerError>)
        requires
            old(self).wf(),
            ret.wf(),
        ensures
            final(self).wf(),
            match old(self)@.bid_error(ret@, caller, listing_id, amount, token_type) {
                Some(e) => r == Err::<bool, LedgerError>(e) && final(self)@ == old(self)@,
                None => r == Ok::<bool, LedgerError>(true) && final(self)@ == old(self)@.after_bid(
                    caller,
                    now,
                    listing_id,
                    amount,
                    token_type,
                ),
            },
    {
        if !(listing_id >= 1 && listing_id <= self.listing_count()) {
            return Err(LedgerError::ListingNotFound);
        }
        let listing = self.listing_at(listing_id);
        if listing.status != ListingStatus::Active {
            return Err(LedgerError::ListingNotActive);
        }
        if token_type != listing.price.token_type {
            return Err(LedgerError::WrongSettlementKind);
        }
        match listing.highest_bid {
            Some(highest) => {
                if amount <= highest.amount {
                    return Err(LedgerError::BidTooLow { floor: BidFloor::HighestBid });
                }
            },
            None => {
                if amount < listing.price.amount {
                    return Err(LedgerError::BidTooLow { floor: BidFloor::ListingPrice });
                }
            },
        }
        match token_type {
            TokenType::RET => {
                if ret.balance_of(caller) < amount {
                    return Err(LedgerError::InsufficientRetBalance);
                }
            },
            TokenType::ICP => {
                return Err(LedgerError::UnsupportedSettlementKind);
            },
        }
        proof {
            old(self)@.lemma_bid_valid(ret@, caller, now, listing_id, amount, token_type);
        }
        let mut listing = listing;
        listing.highest_bid = Some(Bid { bidder: caller, amount, token_type, timestamp: now });
        self.put_listing(listing_id, listing);
        Ok(true)
    }

    /// Settles the highest bid of a listing: the token goes to the bidder,
    /// the bidder pays the seller, the bidder pays the royalty to the
    /// treasury of the collection, and the listing is sold.
    ///
    /// A royalty that comes to more than the bid is refused before anything
    /// moves. The steps are then taken in that order. Where a payment is
    /// refused the token has gone all the same: the error is then a
    /// `PartialFailure` that counts the steps that took effect.
    pub fn accept_bid(
        &mut self,
        tokens: &mut ICRC7Token,
        ret: &mut RETToken,
        caller: Principal,
        now: u64,
        listing_id: u64,
    ) -> (r: Result<bool, LedgerError>)
        requires
            old(self).wf(),
            old(tokens).wf(),
            old(ret).wf(),
        ensures
            final(self).wf(),
            final(tokens).wf(),
            final(ret).wf(),
            r == settle(old(self)@, old(tokens)@, old(ret)@, caller, now, listing_id).result,
            final(self)@ == settle(old(self)@, old(tokens)@, old(ret)@, caller, now, listing_id).market,
            final(tokens)@ == (AssetState {
                registry: settle(old(self)@, old(tokens)@, old(ret)@, caller, now, listing_id).registry,
                ..old(tokens)@
            }),
            final(ret)@ == settle(old(self)@, old(tokens)@, old(ret)@, caller, now, listing_id).ret,
    {
        if !(listing_id >= 1 && listing_id <= self.listing_count()) {
            return Err(LedgerError::ListingNotFound);
        }
        let listing = self.listing_at(listing_id);
        if !same_account(&listing.seller, &caller) {
            return Err(LedgerError::NotSeller);
        }
        if listing.status != ListingStatus::Active {
            return Err(LedgerError::ListingNotActive);
        }
        let bid = match listing.highest_bid {
            Some(bid) => bid,
            None => {
                return Err(LedgerError::NoBids);
            },
        };
        match bid.token_type {
            TokenType::RET => {},
            TokenType::ICP => {
                return Err(LedgerError::UnsupportedSettlementKind);
            },
        }
        let royalty_wide = crate::views::basis_points(bid.amount, listing.royalty_percentage as u64);
        if royalty_wide > bid.amount as u128 {
            return Err(LedgerError::RoyaltyExceedsBid);
        }
        let royalty_amount: u64 = royalty_wide as u64;
        proof {
            assert(bid_in_order(self@.listings[listing_id - 1]));
            old(self)@.lemma_sale_valid(caller, listing_id);
        }
        match tokens.transfer(
            caller,
            now,
            crate::icrc7_token::TransferArgs {
                spender_subaccount: None,
                from: caller,
                to: bid.bidder,
                token_id: listing.property_token_id,
                memo: None,
                created_at_time: None,
            },
        ) {
            Ok(_) => {},
            Err(e) => {
                return Err(e);
            },
        }
        let seller_amount = bid.amount - royalty_amount;
        match ret.transfer(
            bid.bidder,
            crate::ret_token::TransferArgs { from: bid.bidder, to: caller, amount: seller_amount, memo: None },
        ) {
            Ok(_) => {},
            Err(e) => {
                return Err(LedgerError::PartialFailure { completed: 1, cause: e.kind() });
            },
        }
        if royalty_amount > 0 {
            proof {
                tokens@.lemma_tokens_have_a_collection(listing.property_token_id);
            }
            let treasury = match tokens.treasury() {
                Some(treasury) => treasury,
                None => vstd::pervasive::unreached(),
            };
            match ret.transfer(
                bid.bidder,
                crate::ret_token::TransferArgs { from: bid.bidder, to: treasury, amount: royalty_amount, memo: None },
            ) {
                Ok(_) => {},
                Err(e) => {
                    return Err(LedgerError::PartialFailure { completed: 2, cause: e.kind() });
                },
            }
        }
        let mut sold = listing;
        sold.status = ListingStatus::Sold;
        self.put_listing(listing_id, sold);
        self.stats.active_listings = self.stats.active_listings - 1;
        self.stats.total_sales = self.stats.total_sales + 1;
        self.stats.total_volume_ret = add_saturating(self.stats.total_volume_ret, bid.amount);
        Ok(true)
    }

    /// Withdraws an active listing.
    pub fn cancel_listing(&mut self, caller: Principal, listing_id: u64) -> (r: Result<bool, LedgerError>)
        requires
            old(self).wf(),
        ensures
            final(self).wf(),
            match old(self)@.cancel_error(caller, listing_id) {
                Some(e) => r == Err::<bool, LedgerError>(e) && final(self)@ == old(self)@,
                None => r == Ok::<bool, LedgerError>(true) && final(self)@ == old(self)@.after_cancel(listing_id),
            },
    {
        if !(listing_id >= 1 && listing_id <= self.listing_count()) {
            return Err(LedgerError::ListingNotFound);
        }
        let mut listing = self.listing_at(listing_id);
        if !same_account(&listing.seller, &caller) {
            return Err(LedgerError::NotSeller);
        }
        if listing.status != ListingStatus::Active {
            return Err(LedgerError::ListingNotActive);
        }
        proof {
            old(self)@.lemma_cancel_valid(caller, listing_id);
        }
        listing.status = ListingStatus::Cancelled;
        self.put_listing(listing_id, listing);
        self.stats.active_listings = self.stats.active_listings - 1;
        Ok(true)
    }

    /// The listing with identifier `listing_id`.
    pub fn get_listing(&self, listing_id: u64) -> (r: Option<Listing>)
        requires
            self.wf(),
        ensures
            r == if self@.has_listing(listing_id) {
                Some(self@.listings[listing_id - 1])
            } else {
                None
            },
    {
        if listing_id >= 1 && listing_id <= self.listing_count() {
            Some(self.listing_at(listing_id))
        } else {
            None
        }
    }

    /// The active listings, in the order of their creation.
    pub fn get_active_listings(&self) -> (r: Vec<Listing>)
        requires
            self.wf(),
        ensures
            r@ == active_among(self@.listings),
    {
        let mut out: Vec<Listing> = Vec::new();
        let count = self.listing_count();
        let mut i: u64 = 0;
        while i < count
            invariant
                self.wf(),
                count == self@.listings.len(),
                i <= count,
                out@ == active_among(self@.listings.take(i as int)),
            decreases count - i,
        {
            proof {
                assert(self@.listings.take(i + 1).drop_last() =~= self@.listings.take(i as int));
            }
            let listing = self.listing_at(i + 1);
            if listing.status == ListingStatus::Active {
                out.push(listing);
            }
            i = i + 1;
        }
        assert(self@.listings.take(count as int) =~= self@.listings);
        out
    }

    /// The listings of `user`, in the order of their creation.
    pub fn get_user_listings(&self, user: Principal) -> (r: Vec<Listing>)
        requires
            self.wf(),
        ensures
            r@ == listed_by(self@.listings, user),
    {
        let mut out: Vec<Listing> = Vec::new();
        let count = self.listing_count();
        let mut i: u64 = 0;
        while i < count
            invariant
                self.wf(),
                count == self@.listings.len(),
                i <= count,
                out@ == listed_by(self@.listings.take(i as int), user),
            decreases count - i,
        {
            proof {
                assert(self@.listings.take(i + 1).drop_last() =~= self@.listings.take(i as int));
            }
            let listing = self.listing_at(i + 1);
            if same_account(&listing.seller, &user) {
                out.push(listing);
            }
            i = i + 1;
        }
        assert(self@.listings.take(count as int) =~= self@.listings);
        out
    }

    /// The highest bids that `user` holds, each with its listing's
    /// identifier, in the order of the listings.
    pub fn get_user_bids(&self, user: Principal) -> (r: Vec<(u64, Bid)>)
        requires
            self.wf(),
        ensures
            r@ == bids_by(self@.listings, user),
    {
        let mut out: Vec<(u64, Bid)> = Vec::new();
        let count = self.listing_count();
        let mut i: u64 = 0;
        while i < count
            invariant
                self.wf(),
                count == self@.listings.len(),
                i <= count,
                out@ == bids_by(self@.listings.take(i as int), user),
            decreases count - i,
        {
            proof {
                assert(self@.listings.take(i + 1).drop_last() =~= self@.listings.take(i as int));
            }
            let listing = self.listing_at(i + 1);
            if let Some(bid) = listing.highest_bid {
                if same_account(&bid.bidder, &user) {
                    out.push((listing.id, bid));
                }
            }
            i = i + 1;
        }
        assert(self@.listings.take(count as int) =~= self@.listings);
        out
    }

    /// The counters kept over the listings.
    pub fn get_stats(&self) -> (r: MarketplaceStats)
        ensures
            r == self@.stats,
    {
        self.stats
    }
}

} // verus!
