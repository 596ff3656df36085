use crate::account::same_account;
use crate::error::LedgerError;
use crate::icrc7_token::{Token, TokenMetadata, TokenMetadataView, TokenStats, TokenView};
use crate::views::{add_saturating, sat_add};
use candid::Principal;
use std::collections::{HashMap, HashSet};
use vstd::prelude::*;

verus! {

/// A spender's leave to move one token of `owner`, until `expires_at` where
/// that is set.
#[derive(Clone, Copy, Debug)]
pub struct Approval {
    pub owner: Principal,
    pub spender: Principal,
    pub expires_at: Option<u64>,
}

/// What the registry keeps for one token.
pub struct Slot {
    pub token: TokenView,
    pub stats: TokenStats,
    pub approval: Option<Approval>,
}

/// One line of the owner index: an account and the tokens listed under it.
pub struct Holding {
    pub owner: Principal,
    pub tokens: Set<u64>,
}

/// The index has a line for `who`.
pub open spec fn has_holding(index: Seq<Holding>, who: Principal) -> bool {
    exists|k: int| 0 <= k < index.len() && (#[trigger] index[k]).owner == who
}

/// Where the line of `who` stands in the index.
pub open spec fn holding_at(index: Seq<Holding>, who: Principal) -> int {
    choose|k: int| 0 <= k < index.len() && (#[trigger] index[k]).owner == who
}

/// The tokens listed under `who`.
pub open spec fn tokens_of(index: Seq<Holding>, who: Principal) -> Set<u64> {
    if has_holding(index, who) {
        index[holding_at(index, who)].tokens
    } else {
        Set::empty()
    }
}

/// The index lists token `id` under `who`.
pub open spec fn listed(index: Seq<Holding>, who: Principal, id: u64) -> bool {
    tokens_of(index, who).contains(id)
}

/// No account has two lines in the index.
pub open spec fn owners_distinct(index: Seq<Holding>) -> bool {
    forall|a: int, b: int| 0 <= a < b < index.len() ==> (#[trigger] index[a]).owner != (#[trigger] index[b]).owner
}

/// Every line of the index names finitely many tokens.
pub open spec fn lists_finite(index: Seq<Holding>) -> bool {
    forall|k: int| 0 <= k < index.len() ==> (#[trigger] index[k]).tokens.finite()
}

/// The index after `id` was taken from the line of `who`.
pub open spec fn unlist(index: Seq<Holding>, who: Principal, id: u64) -> Seq<Holding> {
    if listed(index, who, id) {
        let k = holding_at(index, who);
        index.update(k, Holding { owner: who, tokens: index[k].tokens.remove(id) })
    } else {
        index
    }
}

/// The index after `id` was added to the line of `who`, which is created
/// where there was none.
pub open spec fn enlist(index: Seq<Holding>, who: Principal, id: u64) -> Seq<Holding> {
    if has_holding(index, who) {
        let k = holding_at(index, who);
        index.update(k, Holding { owner: who, tokens: index[k].tokens.insert(id) })
    } else {
        index.push(Holding { owner: who, tokens: Set::<u64>::empty().insert(id) })
    }
}

/// Token `id` exists and belongs to `who`.
pub open spec fn owned(slots: Seq<Slot>, who: Principal, id: u64) -> bool {
    1 <= id <= slots.len() && slots[id - 1].token.owner == who
}

/// An approval is live until its expiry has passed.
pub open spec fn live(a: Approval, now: u64) -> bool {
    match a.expires_at {
        Some(e) => now <= e,
        None => true,
    }
}

/// The metadata of a token as it is stored at mint.
pub open spec fn stamped(m: TokenMetadataView, now: u64) -> TokenMetadataView {
    TokenMetadataView { created_at: now, modified_at: now, ..m }
}

/// Tokens, their approvals and statistics, and the index from owners to
/// tokens.
pub struct RegistryState {
    /// The tokens in the order of their minting: token `id` is at `id - 1`.
    pub slots: Seq<Slot>,
    pub index: Seq<Holding>,
}

impl RegistryState {
    /// Identifiers follow the order of minting, an approval names the owner of
    /// its token, and the index lists a token under an account if and only if
    /// the account owns it.
    pub open spec fn valid(self) -> bool {
        &&& self.slots.len() <= u64::MAX
        &&& forall|i: int| 0 <= i < self.slots.len() ==> (#[trigger] self.slots[i]).token.token_id == i + 1
        &&& forall|i: int|
            0 <= i < self.slots.len() ==> ((#[trigger] self.slots[i]).approval matches Some(a)
                ==> a.owner == self.slots[i].token.owner)
        &&& owners_distinct(self.index)
        &&& lists_finite(self.index)
        &&& forall|who: Principal, id: u64| #[trigger]
            listed(self.index, who, id) <==> owned(self.slots, who, id)
    }

    /// `id` names a token.
    pub open spec fn has_token(self, id: u64) -> bool {
        1 <= id <= self.slots.len()
    }

    /// The owner of token `id`; nothing where `id` names no token.
    pub open spec fn owner_of(self, id: u64) -> Option<Principal> {
        if self.has_token(id) {
            Some(self.slots[id - 1].token.owner)
        } else {
            None
        }
    }

    /// How many tokens the index lists under `who`.
    pub open spec fn balance_of(self, who: Principal) -> nat {
        tokens_of(self.index, who).len()
    }

    /// The approval recorded for the pair of `owner` and token `id`.
    pub open spec fn approval_for(self, owner: Principal, id: u64) -> Option<Approval> {
        if self.has_token(id) {
            match self.slots[id - 1].approval {
                Some(a) => if a.owner == owner {
                    Some(a)
                } else {
                    None
                },
                None => None,
            }
        } else {
            None
        }
    }

    /// `caller` may move token `id` out of the hands of `from`: it is `from`
    /// itself, or the spender of a live approval for that pair.
    pub open spec fn may_move(self, caller: Principal, now: u64, from: Principal, id: u64) -> bool {
        caller == from || (self.approval_for(from, id) matches Some(a) && a.spender == caller && live(a, now))
    }

    /// Why a transfer is refused, if it is: the first of these that applies.
    pub open spec fn transfer_error(self, caller: Principal, now: u64, from: Principal, id: u64) -> Option<
        LedgerError,
    > {
        if !self.may_move(caller, now, from, id) {
            Some(LedgerError::TransferNotAuthorized)
        } else if !self.has_token(id) {
            Some(LedgerError::TokenNotFound)
        } else if self.slots[id - 1].token.owner != from {
            Some(LedgerError::NotOwner)
        } else if self.slots[id - 1].token.transfer_restricted {
            Some(LedgerError::TransferRestricted)
        } else {
            None
        }
    }

    /// The registry after a transfer that is not refused: the token has a new
    /// owner and no approval, and has moved from one line of the index to the
    /// other.
    pub open spec fn after_transfer(self, now: u64, from: Principal, to: Principal, id: u64) -> RegistryState {
        let slot = self.slots[id - 1];
        RegistryState {
            slots: self.slots.update(
                id - 1,
                Slot {
                    token: TokenView { owner: to, last_transfer: Some(now), ..slot.token },
                    stats: TokenStats { total_transactions: sat_add(slot.stats.total_transactions, 1), ..slot.stats },
                    approval: None,
                },
            ),
            index: enlist(unlist(self.index, from, id), to, id),
        }
    }

    /// Why an approval is refused, if it is.
    pub open spec fn approve_error(self, caller: Principal, id: u64) -> Option<LedgerError> {
        if self.owner_of(id) != Some(caller) {
            Some(LedgerError::NotTokenOwner)
        } else {
            None
        }
    }

    /// The registry after an approval that is not refused.
    pub open spec fn after_approve(
        self,
        caller: Principal,
        spender: Principal,
        id: u64,
        expires_at: Option<u64>,
    ) -> RegistryState {
        RegistryState {
            slots: self.slots.update(
                id - 1,
                Slot { approval: Some(Approval { owner: caller, spender, expires_at }), ..self.slots[id - 1] },
            ),
            ..self
        }
    }

    /// The spender approved for token `id` by its owner, and the expiry of
    /// that approval, while it is live.
    pub open spec fn approved(self, now: u64, id: u64) -> Option<(Principal, Option<u64>)> {
        match self.owner_of(id) {
            Some(owner) => match self.approval_for(owner, id) {
                Some(a) => if live(a, now) {
                    Some((a.spender, a.expires_at))
                } else {
                    None
                },
                None => None,
            },
            None => None,
        }
    }

    /// The registry with other statistics for token `id`.
    pub open spec fn with_stats(self, id: u64, stats: TokenStats) -> RegistryState {
        RegistryState { slots: self.slots.update(id - 1, Slot { stats, ..self.slots[id - 1] }), ..self }
    }

    /// The identifier that the next token gets.
    pub open spec fn next_id(self) -> int {
        self.slots.len() as int + 1
    }

    /// The registry after a token was minted for `owner`.
    pub open spec fn after_insert(
        self,
        owner: Principal,
        metadata: TokenMetadataView,
        transfer_restricted: bool,
        stats: TokenStats,
    ) -> RegistryState {
        let id = self.next_id() as u64;
        RegistryState {
            slots: self.slots.push(
                Slot {
                    token: TokenView { token_id: id, owner, metadata, transfer_restricted, last_transfer: None },
                    stats,
                    approval: None,
                },
            ),
            index: enlist(self.index, owner, id),
        }
    }
}

/// Where the line of `who` stands in an index without double lines.
pub proof fn lemma_holding(index: Seq<Holding>, who: Principal, k: int)
    requires
        owners_distinct(index),
        0 <= k < index.len(),
        index[k].owner == who,
    ensures
        has_holding(index, who),
        holding_at(index, who) == k,
{
    let j = holding_at(index, who);
    if j < k {
        assert(index[j].owner != index[k].owner);
    } else if k < j {
        assert(index[k].owner != index[j].owner);
    }
}

/// Taking a listed token from its line changes nothing else in the index.
pub proof fn lemma_unlist(index: Seq<Holding>, who: Principal, id: u64)
    requires
        owners_distinct(index),
        lists_finite(index),
        listed(index, who, id),
    ensures
        owners_distinct(unlist(index, who, id)),
        lists_finite(unlist(index, who, id)),
        forall|w: Principal| #[trigger] has_holding(unlist(index, who, id), w) <==> has_holding(index, w),
        forall|w: Principal, x: u64| #[trigger]
            listed(unlist(index, who, id), w, x) <==> (listed(index, w, x) && !(w == who && x == id)),
        tokens_of(unlist(index, who, id), who) == tokens_of(index, who).remove(id),
{
    let out = unlist(index, who, id);
    let k = holding_at(index, who);
    assert forall|a: int, b: int| 0 <= a < b < out.len() implies (#[trigger] out[a]).owner != (
    #[trigger] out[b]).owner by {
        assert(index[a].owner != index[b].owner);
    }
    assert forall|j: int| 0 <= j < out.len() implies (#[trigger] out[j]).tokens.finite() by {
        assert(index[j].tokens.finite());
    }
    assert forall|w: Principal| #[trigger] has_holding(out, w) <==> has_holding(index, w) by {
        if has_holding(index, w) {
            let j = holding_at(index, w);
            assert(out[j].owner == w);
        }
        if has_holding(out, w) {
            let j = holding_at(out, w);
            assert(index[j].owner == w);
        }
    }
    assert forall|w: Principal, x: u64| #[trigger]
        listed(out, w, x) <==> (listed(index, w, x) && !(w == who && x == id)) by {
        if has_holding(index, w) {
            let j = holding_at(index, w);
            assert(out[j].owner == w);
            lemma_holding(out, w, j);
        }
    }
    assert(out[k].owner == who);
    lemma_holding(out, who, k);
}

/// Adding a token to a line changes nothing else in the index.
pub proof fn lemma_enlist(index: Seq<Holding>, who: Principal, id: u64)
    requires
        owners_distinct(index),
        lists_finite(index),
    ensures
        owners_distinct(enlist(index, who, id)),
        lists_finite(enlist(index, who, id)),
        forall|w: Principal, x: u64| #[trigger]
            listed(enlist(index, who, id), w, x) <==> (listed(index, w, x) || (w == who && x == id)),
        tokens_of(enlist(index, who, id), who) == tokens_of(index, who).insert(id),
{
    let out = enlist(index, who, id);
    if has_holding(index, who) {
        let k = holding_at(index, who);
        assert forall|a: int, b: int| 0 <= a < b < out.len() implies (#[trigger] out[a]).owner != (
        #[trigger] out[b]).owner by {
            assert(index[a].owner != index[b].owner);
        }
        assert forall|j: int| 0 <= j < out.len() implies (#[trigger] out[j]).tokens.finite() by {
            assert(index[j].tokens.finite());
        }
        assert forall|w: Principal| #[trigger] has_holding(out, w) <==> has_holding(index, w) by {
            if has_holding(index, w) {
                let j = holding_at(index, w);
                assert(out[j].owner == w);
            }
            if has_holding(out, w) {
                let j = holding_at(out, w);
                assert(index[j].owner == w);
            }
        }
        assert forall|w: Principal, x: u64| #[trigger]
            listed(out, w, x) <==> (listed(index, w, x) || (w == who && x == id)) by {
            if has_holding(index, w) {
                let j = holding_at(index, w);
                assert(out[j].owner == w);
                lemma_holding(out, w, j);
            }
        }
        assert(out[k].owner == who);
        lemma_holding(out, who, k);
    } else {
        let n = index.len() as int;
        assert(out[n].owner == who);
        assert forall|a: int, b: int| 0 <= a < b < out.len() implies (#[trigger] out[a]).owner != (
        #[trigger] out[b]).owner by {
            if b < n {
                assert(index[a].owner != index[b].owner);
            } else {
                assert(index[a].owner != who);
            }
        }
        lemma_holding(out, who, n);
        assert forall|j: int| 0 <= j < out.len() implies (#[trigger] out[j]).tokens.finite() by {
            if j < n {
                assert(index[j].tokens.finite());
            }
        }
        assert forall|w: Principal, x: u64| #[trigger]
            listed(out, w, x) <==> (listed(index, w, x) || (w == who && x == id)) by {
            if w != who {
                if has_holding(index, w) {
                    let j = holding_at(index, w);
                    assert(out[j].owner == w);
                    lemma_holding(out, w, j);
                }
                if has_holding(out, w) {
                    let j = holding_at(out, w);
                    assert(index[j].owner == w);
                }
            }
        }
    }
}

impl RegistryState {
    /// The owner index is the exact inverse of the map from tokens to
    /// owners: a token is listed under an account if and only if that account
    /// owns it, so every token is listed under exactly one account.
    pub proof fn lemma_index_is_inverse(self, who: Principal, id: u64)
        requires
            self.valid(),
        ensures
            listed(self.index, who, id) <==> self.owner_of(id) == Some(who),
            self.has_token(id) ==> listed(self.index, self.owner_of(id).unwrap(), id),
            self.has_token(id) && listed(self.index, who, id) ==> who == self.owner_of(id).unwrap(),
            !self.has_token(id) ==> !listed(self.index, who, id),
    {
        assert(listed(self.index, who, id) <==> owned(self.slots, who, id));
        if self.has_token(id) {
            let o = self.owner_of(id).unwrap();
            assert(listed(self.index, o, id) <==> owned(self.slots, o, id));
        }
    }

    /// An approval whose expiry has passed counts as absent, though nobody
    /// cleared it: it is not reported, and it lets its spender move nothing.
    pub proof fn lemma_expired_approval_is_absent(self, now: u64, id: u64, caller: Principal, from: Principal)
        requires
            self.has_token(id),
            self.slots[id - 1].approval matches Some(a) && a.expires_at matches Some(e) && now > e,
        ensures
            self.approved(now, id) is None,
            caller != from ==> !self.may_move(caller, now, from, id),
            caller != from ==> self.transfer_error(caller, now, from, id) == Some(LedgerError::TransferNotAuthorized),
    {
    }

    /// A token whose transfers are restricted stays where it is: every
    /// transfer of it is refused, and its owner's own attempt is refused for
    /// that reason.
    pub proof fn lemma_restricted_token_stays(self, caller: Principal, now: u64, from: Principal, id: u64)
        requires
            self.has_token(id),
            self.slots[id - 1].token.transfer_restricted,
        ensures
            self.transfer_error(caller, now, from, id) is Some,
            caller == from && self.owner_of(id) == Some(from) ==> self.transfer_error(caller, now, from, id) == Some(
                LedgerError::TransferRestricted,
            ),
            LedgerError::TransferRestricted.kind_of() == crate::error::ErrorKind::InvalidState,
    {
    }

    /// A transfer that is not refused leaves a valid registry.
    pub proof fn lemma_transfer_valid(self, caller: Principal, now: u64, from: Principal, to: Principal, id: u64)
        requires
            self.valid(),
            self.transfer_error(caller, now, from, id) is None,
        ensures
            self.after_transfer(now, from, to, id).valid(),
            self.after_transfer(now, from, to, id).owner_of(id) == Some(to),
            self.after_transfer(now, from, to, id).slots.len() == self.slots.len(),
    {
        let after = self.after_transfer(now, from, to, id);
        let mid = unlist(self.index, from, id);
        assert(listed(self.index, from, id) <==> owned(self.slots, from, id));
        lemma_unlist(self.index, from, id);
        assert(listed(mid, to, id) <==> (listed(self.index, to, id) && !(to == from && id == id)));
        assert(listed(self.index, to, id) <==> owned(self.slots, to, id));
        lemma_enlist(mid, to, id);
        assert forall|i: int| 0 <= i < after.slots.len() implies (#[trigger] after.slots[i]).token.token_id == i
            + 1 by {
            assert(self.slots[i].token.token_id == i + 1);
        }
        assert forall|i: int| 0 <= i < after.slots.len() implies ((#[trigger] after.slots[i]).approval matches Some(
            a,
        ) ==> a.owner == after.slots[i].token.owner) by {
            assert(self.slots[i].approval matches Some(a) ==> a.owner == self.slots[i].token.owner);
        }
        assert forall|w: Principal, x: u64| #[trigger]
            listed(after.index, w, x) <==> owned(after.slots, w, x) by {
            assert(listed(after.index, w, x) <==> (listed(mid, w, x) || (w == to && x == id)));
            assert(listed(mid, w, x) <==> (listed(self.index, w, x) && !(w == from && x == id)));
            assert(listed(self.index, w, x) <==> owned(self.slots, w, x));
        }
    }

    /// An approval that is not refused leaves a valid registry.
    pub proof fn lemma_approve_valid(self, caller: Principal, spender: Principal, id: u64, expires_at: Option<u64>)
        requires
            self.valid(),
            self.approve_error(caller, id) is None,
        ensures
            self.after_approve(caller, spender, id, expires_at).valid(),
    {
        let after = self.after_approve(caller, spender, id, expires_at);
        assert forall|i: int| 0 <= i < after.slots.len() implies (#[trigger] after.slots[i]).token.token_id == i
            + 1 by {
            assert(self.slots[i].token.token_id == i + 1);
        }
        assert forall|i: int| 0 <= i < after.slots.len() implies ((#[trigger] after.slots[i]).approval matches Some(
            a,
        ) ==> a.owner == after.slots[i].token.owner) by {
            assert(self.slots[i].approval matches Some(a) ==> a.owner == self.slots[i].token.owner);
        }
        assert forall|w: Principal, x: u64| #[trigger]
            listed(after.index, w, x) <==> owned(after.slots, w, x) by {
            assert(listed(self.index, w, x) <==> owned(self.slots, w, x));
        }
    }

    /// New statistics for one token leave a valid registry.
    pub proof fn lemma_with_stats_valid(self, id: u64, stats: TokenStats)
        requires
            self.valid(),
            self.has_token(id),
        ensures
            self.with_stats(id, stats).valid(),
    {
        let after = self.with_stats(id, stats);
        assert forall|i: int| 0 <= i < after.slots.len() implies (#[trigger] after.slots[i]).token.token_id == i
            + 1 by {
            assert(self.slots[i].token.token_id == i + 1);
        }
        assert forall|i: int| 0 <= i < after.slots.len() implies ((#[trigger] after.slots[i]).approval matches Some(
            a,
        ) ==> a.owner == after.slots[i].token.owner) by {
            assert(self.slots[i].approval matches Some(a) ==> a.owner == self.slots[i].token.owner);
        }
        assert forall|w: Principal, x: u64| #[trigger]
            listed(after.index, w, x) <==> owned(after.slots, w, x) by {
            assert(listed(self.index, w, x) <==> owned(self.slots, w, x));
        }
    }

    /// A new token leaves a valid registry.
    pub proof fn lemma_insert_valid(
        self,
        owner: Principal,
        metadata: TokenMetadataView,
        transfer_restricted: bool,
        stats: TokenStats,
    )
        requires
            self.valid(),
            self.slots.len() < u64::MAX,
        ensures
            self.after_insert(owner, metadata, transfer_restricted, stats).valid(),
            self.after_insert(owner, metadata, transfer_restricted, stats).owner_of(self.next_id() as u64) == Some(
                owner,
            ),
    {
        let after = self.after_insert(owner, metadata, transfer_restricted, stats);
        let id = self.next_id() as u64;
        assert(listed(self.index, owner, id) <==> owned(self.slots, owner, id));
        lemma_enlist(self.index, owner, id);
        assert forall|i: int| 0 <= i < after.slots.len() implies (#[trigger] after.slots[i]).token.token_id == i
            + 1 by {
            if i < self.slots.len() {
                assert(self.slots[i].token.token_id == i + 1);
            }
        }
        assert forall|i: int| 0 <= i < after.slots.len() implies ((#[trigger] after.slots[i]).approval matches Some(
            a,
        ) ==> a.owner == after.slots[i].token.owner) by {
            if i < self.slots.len() {
                assert(self.slots[i].approval matches Some(a) ==> a.owner == self.slots[i].token.owner);
            }
        }
        assert forall|w: Principal, x: u64| #[trigger]
            listed(after.index, w, x) <==> owned(after.slots, w, x) by {
            assert(listed(after.index, w, x) <==> (listed(self.index, w, x) || (w == owner && x == id)));
            assert(listed(self.index, w, x) <==> owned(self.slots, w, x));
        }
    }
}

/// A token with its statistics and approval, as the registry stores them.
#[derive(Debug)]
pub struct SlotEntry {
    pub token: Token,
    pub stats: TokenStats,
    pub approval: Option<Approval>,
}

/// An account and the tokens listed under it, as the registry stores them.
#[derive(Debug)]
pub struct OwnerEntry {
    pub owner: Principal,
    pub tokens: HashSet<u64>,
}

/// The slot that a stored entry stands for.
pub open spec fn slot_of(entry: SlotEntry) -> Slot {
    Slot { token: entry.token@, stats: entry.stats, approval: entry.approval }
}

/// The index that a list of stored entries stands for.
pub open spec fn index_of_owners(owners: Seq<OwnerEntry>) -> Seq<Holding> {
    Seq::new(owners.len(), |k: int| Holding { owner: owners[k].owner, tokens: owners[k].tokens@ })
}

/// The tokens among `slots` whose identifiers are in `ids`, in the order of
/// their minting.
pub open spec fn tokens_among(slots: Seq<Slot>, ids: Set<u64>) -> Seq<TokenView>
    decreases slots.len(),
{
    if slots.len() == 0 {
        Seq::empty()
    } else if ids.contains(slots.len() as u64) {
        tokens_among(slots.drop_last(), ids).push(slots.last().token)
    } else {
        tokens_among(slots.drop_last(), ids)
    }
}

/// The tokens that the index lists under `who`, each as the registry holds
/// it, in the order of their minting.
pub open spec fn holdings_of(s: RegistryState, who: Principal) -> Seq<TokenView> {
    tokens_among(s.slots, tokens_of(s.index, who))
}

/// The store behind an asset ledger: tokens by identifier, and the index
/// from owners to their tokens.
pub struct Registry {
    slots: HashMap<u64, SlotEntry>,
    /// The identifier of the token that was minted last.
    token_counter: u64,
    owners: Vec<OwnerEntry>,
}

impl View for Registry {
    type V = RegistryState;

    closed spec fn view(&self) -> RegistryState {
        RegistryState {
            slots: Seq::new(self.token_counter as nat, |i: int| slot_of(self.slots@[(i + 1) as u64])),
            index: index_of_owners(self.owners@),
        }
    }
}

impl Registry {
    /// The registry's invariant: every identifier that was given has its
    /// token, identifiers follow the order of minting, and the owner index
    /// is the exact inverse of the map from tokens to owners.
    pub open spec fn wf(&self) -> bool {
        self.filled() && self@.valid()
    }

    /// Every identifier up to the one given last has its token, and no other
    /// has one.
    pub closed spec fn filled(&self) -> bool {
        forall|k: u64| #[trigger] self.slots@.contains_key(k) <==> 1 <= k <= self.token_counter
    }

    /// A registry without tokens.
    pub fn new() -> (r: Self)
        ensures
            r.wf(),
            r@.slots == Seq::<Slot>::empty(),
            r@.index == Seq::<Holding>::empty(),
    {
        let r = Registry { slots: HashMap::new(), token_counter: 0, owners: Vec::new() };
        assert(r@.slots =~= Seq::<Slot>::empty());
        assert(r@.index =~= Seq::<Holding>::empty());
        assert forall|who: Principal, id: u64| #[trigger]
            listed(r@.index, who, id) <==> owned(r@.slots, who, id) by {
            assert(!has_holding(r@.index, who));
        }
        r
    }

    /// How many tokens were minted.
    pub fn count(&self) -> (n: u64)
        ensures
            n == self@.slots.len(),
    {
        self.token_counter
    }

    /// The entry of token `id`, which names one.
    fn slot_at(&self, id: u64) -> (e: &SlotEntry)
        requires
            self.filled(),
            1 <= id <= self@.slots.len(),
        ensures
            slot_of(*e) == self@.slots[id - 1],
    {
        broadcast use vstd::std_specs::hash::group_hash_axioms;

        assert(self.slots@.contains_key(id));
        match self.slots.get(&id) {
            Some(e) => e,
            None => vstd::pervasive::unreached(),
        }
    }

    /// Takes the entry of token `id` out of the registry, to be put back
    /// with `put_slot`.
    fn take_slot(&mut self, id: u64) -> (e: SlotEntry)
        requires
            old(self).filled(),
            1 <= id <= old(self)@.slots.len(),
        ensures
            slot_of(e) == old(self)@.slots[id - 1],
            final(self).slots@ == old(self).slots@.remove(id),
            final(self).token_counter == old(self).token_counter,
            final(self).owners == old(self).owners,
    {
        broadcast use vstd::std_specs::hash::group_hash_axioms;

        assert(self.slots@.contains_key(id));
        match self.slots.remove(&id) {
            Some(e) => e,
            None => vstd::pervasive::unreached(),
        }
    }

    /// Puts `e` into the registry as the entry of token `id`.
    fn put_slot(&mut self, id: u64, e: SlotEntry)
        ensures
            final(self).slots@ == old(self).slots@.insert(id, e),
            final(self).token_counter == old(self).token_counter,
            final(self).owners == old(self).owners,
    {
        broadcast use vstd::std_specs::hash::group_hash_axioms;

        self.slots.insert(id, e);
    }

    fn find_owner(&self, who: &Principal) -> (r: Option<usize>)
        requires
            owners_distinct(self@.index),
        ensures
            match r {
                Some(k) => k < self.owners.len() && has_holding(self@.index, *who) && holding_at(self@.index, *who)
                    == k,
                None => !has_holding(self@.index, *who),
            },
    {
        let mut k: usize = 0;
        while k < self.owners.len()
            invariant
                k <= self.owners.len(),
                owners_distinct(self@.index),
                forall|j: int| 0 <= j < k ==> (#[trigger] self@.index[j]).owner != *who,
            decreases self.owners.len() - k,
        {
            if same_account(&self.owners[k].owner, who) {
                proof {
                    lemma_holding(self@.index, *who, k as int);
                }
                return Some(k);
            }
            k = k + 1;
        }
        None
    }

    fn unlist_token(&mut self, who: Principal, id: u64)
        requires
            owners_distinct(old(self)@.index),
            listed(old(self)@.index, who, id),
        ensures
            final(self)@ == (RegistryState { index: unlist(old(self)@.index, who, id), ..old(self)@ }),
            final(self).filled() == old(self).filled(),
    {
        broadcast use vstd::std_specs::hash::group_hash_axioms;

        match self.find_owner(&who) {
            Some(k) => {
                self.owners[k].tokens.remove(&id);
                assert(self@.index =~= unlist(old(self)@.index, who, id));
            },
            None => {},
        }
        assert(self@.slots =~= old(self)@.slots);
    }

    fn enlist_token(&mut self, who: Principal, id: u64)
        requires
            owners_distinct(old(self)@.index),
        ensures
            final(self)@ == (RegistryState { index: enlist(old(self)@.index, who, id), ..old(self)@ }),
            final(self).filled() == old(self).filled(),
    {
        broadcast use vstd::std_specs::hash::group_hash_axioms;

        match self.find_owner(&who) {
            Some(k) => {
                self.owners[k].tokens.insert(id);
                assert(self@.index =~= enlist(old(self)@.index, who, id));
            },
            None => {
                let mut tokens: HashSet<u64> = HashSet::new();
                tokens.insert(id);
                self.owners.push(OwnerEntry { owner: who, tokens });
                assert(self@.index =~= enlist(old(self)@.index, who, id));
            },
        }
        assert(self@.slots =~= old(self)@.slots);
    }

    /// The owner of token `id`; nothing where `id` names no token.
    pub fn owner_of(&self, id: u64) -> (r: Option<Principal>)
        requires
            self.wf(),
        ensures
            r == self@.owner_of(id),
    {
        if id >= 1 && id <= self.token_counter {
            Some(self.slot_at(id).token.owner)
        } else {
            None
        }
    }

    /// How many tokens the owner index lists under `who`.
    pub fn balance_of(&self, who: Principal) -> (r: u64)
        requires
            self.wf(),
        ensures
            r == self@.balance_of(who),
    {
        broadcast use vstd::std_specs::hash::group_hash_axioms;

        match self.find_owner(&who) {
            Some(k) => self.owners[k].tokens.len() as u64,
            None => 0,
        }
    }

    /// Stores a new token for `owner` under the next identifier, which it
    /// returns, with its metadata stamped `now`.
    pub fn insert(
        &mut self,
        owner: Principal,
        metadata: TokenMetadata,
        transfer_restricted: bool,
        stats: TokenStats,
        now: u64,
    ) -> (id: u64)
        requires
            old(self).wf(),
            old(self)@.slots.len() < u64::MAX,
        ensures
            final(self).wf(),
            id == old(self)@.next_id(),
            final(self)@ == old(self)@.after_insert(owner, stamped(metadata@, now), transfer_restricted, stats),
    {
        let id: u64 = self.token_counter + 1;
        let mut metadata = metadata;
        metadata.created_at = now;
        metadata.modified_at = now;
        proof {
            self@.lemma_insert_valid(owner, metadata@, transfer_restricted, stats);
        }
        self.put_slot(
            id,
            SlotEntry {
                token: Token { token_id: id, owner, metadata, transfer_restricted, last_transfer: None },
                stats,
                approval: None,
            },
        );
        self.token_counter = id;
        assert(self@.slots =~= old(self)@.after_insert(
            owner,
            stamped(metadata@, now),
            transfer_restricted,
            stats,
        ).slots);
        assert(self@.index =~= old(self)@.index);
        assert(self.filled());
        self.enlist_token(owner, id);
        id
    }

    /// Hands token `id` from `from` to `to`, at the word of `caller`.
    pub fn transfer(&mut self, caller: Principal, now: u64, from: Principal, to: Principal, id: u64) -> (r: Result<
        (),
        LedgerError,
    >)
        requires
            old(self).wf(),
        ensures
            final(self).wf(),
            match old(self)@.transfer_error(caller, now, from, id) {
                Some(e) => r == Err::<(), LedgerError>(e) && final(self)@ == old(self)@,
                None => r is Ok && final(self)@ == old(self)@.after_transfer(now, from, to, id),
            },
    {
        let exists = id >= 1 && id <= self.token_counter;
        if !same_account(&from, &caller) {
            let approved = if exists {
                match self.slot_at(id).approval {
                    Some(a) => same_account(&a.owner, &from) && same_account(&a.spender, &caller) && (match a.expires_at {
                        Some(e) => now <= e,
                        None => true,
                    }),
                    None => false,
                }
            } else {
                false
            };
            if !approved {
                return Err(LedgerError::TransferNotAuthorized);
            }
        }
        if !exists {
            return Err(LedgerError::TokenNotFound);
        }
        if !same_account(&self.slot_at(id).token.owner, &from) {
            return Err(LedgerError::NotOwner);
        }
        if self.slot_at(id).token.transfer_restricted {
            return Err(LedgerError::TransferRestricted);
        }
        proof {
            old(self)@.lemma_transfer_valid(caller, now, from, to, id);
            assert(listed(self@.index, from, id) <==> owned(self@.slots, from, id));
            lemma_unlist(self@.index, from, id);
        }
        let mut entry = self.take_slot(id);
        entry.token.owner = to;
        entry.token.last_transfer = Some(now);
        entry.stats.total_transactions = add_saturating(entry.stats.total_transactions, 1);
        entry.approval = None;
        self.put_slot(id, entry);
        assert(self@.slots =~= old(self)@.after_transfer(now, from, to, id).slots);
        assert(self@.index =~= old(self)@.index);
        assert(self.filled());
        self.unlist_token(from, id);
        self.enlist_token(to, id);
        Ok(())
    }

    /// Records that `spender` may move token `id` of `caller`.
    pub fn approve(&mut self, caller: Principal, spender: Principal, id: u64, expires_at: Option<u64>) -> (r: Result<
        (),
        LedgerError,
    >)
        requires
            old(self).wf(),
        ensures
            final(self).wf(),
            match old(self)@.approve_error(caller, id) {
                Some(e) => r == Err::<(), LedgerError>(e) && final(self)@ == old(self)@,
                None => r is Ok && final(self)@ == old(self)@.after_approve(caller, spender, id, expires_at),
            },
    {
        if !(id >= 1 && id <= self.token_counter) {
            return Err(LedgerError::NotTokenOwner);
        }
        if !same_account(&self.slot_at(id).token.owner, &caller) {
            return Err(LedgerError::NotTokenOwner);
        }
        proof {
            old(self)@.lemma_approve_valid(caller, spender, id, expires_at);
        }
        let mut entry = self.take_slot(id);
        entry.approval = Some(Approval { owner: caller, spender, expires_at });
        self.put_slot(id, entry);
        assert(self@.slots =~= old(self)@.after_approve(caller, spender, id, expires_at).slots);
        assert(self@.index =~= old(self)@.index);
        assert(self.filled());
        Ok(())
    }

    /// The spender approved for a token and the expiry of the approval; nothing
    /// once the expiry has passed.
    pub fn get_approved(&self, now: u64, id: u64) -> (r: Option<(Principal, Option<u64>)>)
        requires
            self.wf(),
        ensures
            r == self@.approved(now, id),
    {
        if !(id >= 1 && id <= self.token_counter) {
            return None;
        }
        match self.slot_at(id).approval {
            Some(a) => {
                let alive = match a.expires_at {
                    Some(e) => now <= e,
                    None => true,
                };
                if alive {
                    Some((a.spender, a.expires_at))
                } else {
                    None
                }
            },
            None => None,
        }
    }

    /// The token with identifier `id`.
    pub fn get_token(&self, id: u64) -> (r: Option<Token>)
        requires
            self.wf(),
        ensures
            self@.has_token(id) ==> r is Some && r.unwrap()@ == self@.slots[id - 1].token,
            !self@.has_token(id) ==> r is None,
    {
        if id >= 1 && id <= self.token_counter {
            Some(self.slot_at(id).token.clone())
        } else {
            None
        }
    }

    /// The metadata of token `id`.
    pub fn get_metadata(&self, id: u64) -> (r: Option<TokenMetadata>)
        requires
            self.wf(),
        ensures
            self@.has_token(id) ==> r is Some && r.unwrap()@ == self@.slots[id - 1].token.metadata,
            !self@.has_token(id) ==> r is None,
    {
        if id >= 1 && id <= self.token_counter {
            Some(self.slot_at(id).token.metadata.clone())
        } else {
            None
        }
    }

    /// The statistics kept for token `id`.
    pub fn get_token_stats(&self, id: u64) -> (r: Option<TokenStats>)
        requires
            self.wf(),
        ensures
            self@.has_token(id) ==> r == Some(self@.slots[id - 1].stats),
            !self@.has_token(id) ==> r is None,
    {
        if id >= 1 && id <= self.token_counter {
            Some(self.slot_at(id).stats)
        } else {
            None
        }
    }

    /// Replaces the statistics kept for token `id`.
    pub fn set_stats(&mut self, id: u64, stats: TokenStats)
        requires
            old(self).wf(),
            old(self)@.has_token(id),
        ensures
            final(self).wf(),
            final(self)@ == old(self)@.with_stats(id, stats),
    {
        proof {
            old(self)@.lemma_with_stats_valid(id, stats);
        }
        let mut entry = self.take_slot(id);
        entry.stats = stats;
        self.put_slot(id, entry);
        assert(self@.slots =~= old(self)@.with_stats(id, stats).slots);
        assert(self@.index =~= old(self)@.index);
        assert(self.filled());
    }

    /// How many lines the owner index has.
    pub fn owner_count(&self) -> (n: usize)
        ensures
            n == self@.index.len(),
    {
        self.owners.len()
    }

    /// The account of line `k` of the owner index.
    pub fn owner_at(&self, k: usize) -> (r: Principal)
        requires
            k < self@.index.len(),
        ensures
            r == self@.index[k as int].owner,
    {
        self.owners[k].owner
    }

    /// Whether line `k` of the owner index names token `id`.
    pub fn line_holds(&self, k: usize, id: u64) -> (r: bool)
        requires
            k < self@.index.len(),
        ensures
            r == self@.index[k as int].tokens.contains(id),
    {
        broadcast use vstd::std_specs::hash::group_hash_axioms;

        self.owners[k].tokens.contains(&id)
    }

    /// The tokens listed under `user`, in the order of their minting.
    pub fn get_user_tokens(&self, user: Principal) -> (r: Vec<Token>)
        requires
            self.wf(),
        ensures
            crate::icrc7_token::token_views(r@) == holdings_of(self@, user),
    {
        let mut out: Vec<Token> = Vec::new();
        let count = self.token_counter;
        match self.find_owner(&user) {
            Some(k) => {
                let mut i: u64 = 0;
                while i < count
                    invariant
                        self.wf(),
                        count == self@.slots.len(),
                        k < self.owners.len(),
                        has_holding(self@.index, user),
                        holding_at(self@.index, user) == k,
                        i <= count,
                        crate::icrc7_token::token_views(out@) == tokens_among(
                            self@.slots.take(i as int),
                            tokens_of(self@.index, user),
                        ),
                    decreases count - i,
                {
                    proof {
                        assert(self@.slots.take(i + 1).drop_last() =~= self@.slots.take(i as int));
                        assert(self@.slots.take(i + 1).last() == self@.slots[i as int]);
                    }
                    if self.line_holds(k, i + 1) {
                        let ghost before = crate::icrc7_token::token_views(out@);
                        out.push(self.slot_at(i + 1).token.clone());
                        assert(crate::icrc7_token::token_views(out@) =~= before.push(self@.slots[i as int].token));
                    }
                    i = i + 1;
                }
                assert(self@.slots.take(count as int) =~= self@.slots);
            },
            None => {
                proof {
                    lemma_none_among(self@.slots, Set::<u64>::empty());
                }
                assert(crate::icrc7_token::token_views(out@) =~= Seq::<TokenView>::empty());
            },
        }
        out
    }
}

/// No token is among the slots where no identifier is asked for.
proof fn lemma_none_among(slots: Seq<Slot>, ids: Set<u64>)
    requires
        forall|id: u64| !ids.contains(id),
    ensures
        tokens_among(slots, ids) == Seq::<TokenView>::empty(),
    decreases slots.len(),
{
    if slots.len() > 0 {
        lemma_none_among(slots.drop_last(), ids);
    }
}

} // verus!
