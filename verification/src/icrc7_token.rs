use crate::error::LedgerError;
use crate::registry::RegistryState;
use crate::views::{clone_opt_bytes, clone_opt_string, clone_opt_strings, opt_view};
use candid::Principal;
use vstd::prelude::*;

verus! {

#[derive(Debug)]
pub struct TokenMetadata {
    pub name: String,
    pub symbol: String,
    pub description: Option<String>,
    pub logo: Option<Vec<u8>>,
    pub content_type: Option<String>,
    pub decimals: u8,
    pub website: Option<String>,
    pub social_links: Option<Vec<String>>,
    pub supply_cap: Option<u64>,
    pub image: Option<Vec<u8>>,
    pub royalties: Option<u16>,
    pub royalty_recipient: Option<Principal>,
    pub tags: Option<Vec<String>>,
    pub created_at: u64,
    pub modified_at: u64,
}

pub struct TokenMetadataView {
    pub name: String,
    pub symbol: String,
    pub description: Option<String>,
    pub logo: Option<Seq<u8>>,
    pub content_type: Option<String>,
    pub decimals: u8,
    pub website: Option<String>,
    pub social_links: Option<Seq<String>>,
    pub supply_cap: Option<u64>,
    pub image: Option<Seq<u8>>,
    pub royalties: Option<u16>,
    pub royalty_recipient: Option<Principal>,
    pub tags: Option<Seq<String>>,
    pub created_at: u64,
    pub modified_at: u64,
}

impl View for TokenMetadata {
    type V = TokenMetadataView;

    open spec fn view(&self) -> TokenMetadataView {
        TokenMetadataView {
            name: self.name,
            symbol: self.symbol,
            description: self.description,
            logo: opt_view(self.logo),
            content_type: self.content_type,
            decimals: self.decimals,
            website: self.website,
            social_links: opt_view(self.social_links),
            supply_cap: self.supply_cap,
            image: opt_view(self.image),
            royalties: self.royalties,
            royalty_recipient: self.royalty_recipient,
            tags: opt_view(self.tags),
            created_at: self.created_at,
            modified_at: self.modified_at,
        }
    }
}

impl Clone for TokenMetadata {
    fn clone(&self) -> (r: Self)
        ensures
            r@ == self@,
    {
        TokenMetadata {
            name: self.name.clone(),
            symbol: self.symbol.clone(),
            description: clone_opt_string(&self.description),
            logo: clone_opt_bytes(&self.logo),
            content_type: clone_opt_string(&self.content_type),
            decimals: self.decimals,
            website: clone_opt_string(&self.website),
            social_links: clone_opt_strings(&self.social_links),
            supply_cap: self.supply_cap,
            image: clone_opt_bytes(&self.image),
            royalties: self.royalties,
            royalty_recipient: self.royalty_recipient,
            tags: clone_opt_strings(&self.tags),
            created_at: self.created_at,
            modified_at: self.modified_at,
        }
    }
}

#[derive(Debug)]
pub struct Token {
    pub token_id: u64,
    pub owner: Principal,
    pub metadata: TokenMetadata,
    pub transfer_restricted: bool,
    pub last_transfer: Option<u64>,
}

pub struct TokenView {
    pub token_id: u64,
    pub owner: Principal,
    pub metadata: TokenMetadataView,
    pub transfer_restricted: bool,
    pub last_transfer: Option<u64>,
}

impl View for Token {
    type V = TokenView;

    open spec fn view(&self) -> TokenView {
        TokenView {
            token_id: self.token_id,
            owner: self.owner,
            metadata: self.metadata@,
            transfer_restricted: self.transfer_restricted,
            last_transfer: self.last_transfer,
        }
    }
}

impl Clone for Token {
    fn clone(&self) -> (r: Self)
        ensures
            r@ == self@,
    {
        Token {
            token_id: self.token_id,
            owner: self.owner,
            metadata: self.metadata.clone(),
            transfer_restricted: self.transfer_restricted,
            last_transfer: self.last_transfer,
        }
    }
}

#[derive(Debug)]
pub struct Collection {
    pub name: String,
    pub symbol: String,
    pub description: String,
    pub total_supply: u64,
    pub max_supply: Option<u64>,
    pub royalties: u16,
    pub owner: Principal,
    pub treasury: Principal,
    pub created_at: u64,
    pub logo: Option<Vec<u8>>,
    pub website: Option<String>,
    pub social_links: Option<Vec<String>>,
}

pub struct CollectionView {
    pub name: String,
    pub symbol: String,
    pub description: String,
    pub total_supply: u64,
    pub max_supply: Option<u64>,
    pub royalties: u16,
    pub owner: Principal,
    pub treasury: Principal,
    pub created_at: u64,
    pub logo: Option<Seq<u8>>,
    pub website: Option<String>,
    pub social_links: Option<Seq<String>>,
}

impl View for Collection {
    type V = CollectionView;

    open spec fn view(&self) -> CollectionView {
        CollectionView {
            name: self.name,
            symbol: self.symbol,
            description: self.description,
            total_supply: self.total_supply,
            max_supply: self.max_supply,
            royalties: self.royalties,
            owner: self.owner,
            treasury: self.treasury,
            created_at: self.created_at,
            logo: opt_view(self.logo),
            website: self.website,
            social_links: opt_view(self.social_links),
        }
    }
}

impl Clone for Collection {
    fn clone(&self) -> (r: Self)
        ensures
            r@ == self@,
    {
        Collection {
            name: self.name.clone(),
            symbol: self.symbol.clone(),
            description: self.description.clone(),
            total_supply: self.total_supply,
            max_supply: self.max_supply,
            royalties: self.royalties,
            owner: self.owner,
            treasury: self.treasury,
            created_at: self.created_at,
            logo: clone_opt_bytes(&self.logo),
            website: clone_opt_string(&self.website),
            social_links: clone_opt_strings(&self.social_links),
        }
    }
}

#[derive(Clone, Copy, Debug, PartialEq, Eq, Structural)]
pub struct TokenStats {
    pub total_transactions: u64,
    pub unique_holders: u64,
    pub market_cap: u64,
    pub volume_24h: u64,
}

#[derive(Debug)]
pub struct TransferArgs {
    pub spender_subaccount: Option<Vec<u8>>,
    pub from: Principal,
    pub to: Principal,
    pub token_id: u64,
    pub memo: Option<Vec<u8>>,
    pub created_at_time: Option<u64>,
}

#[derive(Debug)]
pub struct ApprovalArgs {
    pub from_subaccount: Option<Vec<u8>>,
    pub spender: Principal,
    pub token_id: u64,
    pub expires_at: Option<u64>,
    pub memo: Option<Vec<u8>>,
    pub created_at_time: Option<u64>,
}

/// What an optional collection record holds, by its view.
pub open spec fn collection_view(c: Option<Collection>) -> Option<CollectionView> {
    match c {
        Some(c) => Some(c@),
        None => None,
    }
}

/// What a list of tokens holds, each by its view.
pub open spec fn token_views(tokens: Seq<Token>) -> Seq<TokenView> {
    Seq::new(tokens.len(), |i: int| tokens[i]@)
}

/// The state of the asset ledger: the collection record, once it is set,
/// and the registry of its tokens.
pub struct AssetState {
    pub collection: Option<CollectionView>,
    pub registry: RegistryState,
}

/// The statistics that a token starts with.
pub open spec fn initial_stats() -> TokenStats {
    TokenStats { total_transactions: 0, unique_holders: 1, market_cap: 0, volume_24h: 0 }
}

impl AssetState {
    /// The registry is valid, and the supply counts the tokens and is within the
    /// cap; without a collection there are no tokens.
    pub open spec fn valid(self) -> bool {
        &&& self.registry.valid()
        &&& match self.collection {
            Some(c) => c.total_supply == self.registry.slots.len() && (c.max_supply matches Some(m)
                ==> c.total_supply <= m),
            None => self.registry.slots.len() == 0,
        }
    }

    /// Why a mint is refused, if it is: the first of these that applies.
    pub open spec fn mint_error(self) -> Option<LedgerError> {
        match self.collection {
            None => Some(LedgerError::CollectionNotInitialized),
            Some(c) => if c.max_supply matches Some(m) && c.total_supply >= m {
                Some(LedgerError::SupplyCapReached)
            } else if c.total_supply >= u64::MAX {
                Some(LedgerError::CapacityExceeded)
            } else {
                None
            },
        }
    }

    /// The state after a mint that is not refused.
    pub open spec fn after_mint(
        self,
        owner: Principal,
        metadata: TokenMetadataView,
        transfer_restricted: bool,
        now: u64,
    ) -> AssetState {
        let c = self.collection.unwrap();
        AssetState {
            collection: Some(CollectionView { total_supply: (c.total_supply + 1) as u64, ..c }),
            registry: self.registry.after_insert(
                owner,
                crate::registry::stamped(metadata, now),
                transfer_restricted,
                initial_stats(),
            ),
        }
    }

    /// The account that takes the royalties of the collection. A ledger that
    /// holds a token has a collection, and so a treasury.
    pub open spec fn treasury(self) -> Principal {
        self.collection.unwrap().treasury
    }

    /// A ledger that holds a token has a collection.
    pub proof fn lemma_tokens_have_a_collection(self, id: u64)
        requires
            self.valid(),
            self.registry.has_token(id),
        ensures
            self.collection is Some,
    {
    }

    /// Once the supply has reached the cap, every mint is refused.
    pub proof fn lemma_cap_is_enforced(self)
        requires
            self.valid(),
            self.collection matches Some(c) && c.max_supply matches Some(m) && c.total_supply >= m,
        ensures
            self.mint_error() == Some(LedgerError::SupplyCapReached),
    {
    }

    /// Issuance is capped: a mint that is not refused leaves a valid state,
    /// in which the supply has grown by one and is within the cap.
    pub proof fn lemma_mint_valid(
        self,
        owner: Principal,
        metadata: TokenMetadataView,
        transfer_restricted: bool,
        now: u64,
    )
        requires
            self.valid(),
            self.mint_error() is None,
        ensures
            self.after_mint(owner, metadata, transfer_restricted, now).valid(),
            self.after_mint(owner, metadata, transfer_restricted, now).collection.unwrap().total_supply
                == self.collection.unwrap().total_supply + 1,
    {
        self.registry.lemma_insert_valid(
            owner,
            crate::registry::stamped(metadata, now),
            transfer_restricted,
            initial_stats(),
        );
    }
}

/// The ledger of the property tokens: who owns which token, who may move
/// it, and the collection that bounds their number.
pub struct ICRC7Token {
    collection: Option<Collection>,
    registry: crate::registry::Registry,
}

impl View for ICRC7Token {
    type V = AssetState;

    closed spec fn view(&self) -> AssetState {
        AssetState { collection: collection_view(self.collection), registry: self.registry@ }
    }
}

impl ICRC7Token {
    /// The ledger's invariant: the registry's own, and a supply that counts
    /// the tokens and stays within the cap.
    pub open spec fn wf(&self) -> bool {
        self.sound() && self@.valid()
    }

    /// The registry's own invariant holds.
    pub closed spec fn sound(&self) -> bool {
        self.registry.wf()
    }

    /// A ledger without collection or tokens.
    pub fn new() -> (r: Self)
        ensures
            r.wf(),
            r@.collection is None,
            r@.registry.slots == Seq::<crate::registry::Slot>::empty(),
            r@.registry.index == Seq::<crate::registry::Holding>::empty(),
    {
        ICRC7Token { collection: None, registry: crate::registry::Registry::new() }
    }

    /// Sets the collection record, owned by `caller`. Returns `false`, and
    /// changes nothing, where one is set already.
    pub fn initialize_collection(
        &mut self,
        caller: Principal,
        now: u64,
        name: String,
        symbol: String,
        description: String,
        royalties: u16,
        treasury: Principal,
        max_supply: Option<u64>,
        logo: Option<Vec<u8>>,
        website: Option<String>,
        social_links: Option<Vec<String>>,
    ) -> (r: bool)
        requires
            old(self).wf(),
        ensures
            final(self).wf(),
            r == (old(self)@.collection is None),
            !r ==> final(self)@ == old(self)@,
            r ==> final(self)@ == (AssetState {
                collection: Some(
                    CollectionView {
                        name,
                        symbol,
                        description,
                        total_supply: 0,
                        max_supply,
                        royalties,
                        owner: caller,
                        treasury,
                        created_at: now,
                        logo: opt_view(logo),
                        website,
                        social_links: opt_view(social_links),
                    },
                ),
                ..old(self)@
            }),
    {
        if self.collection.is_some() {
            return false;
        }
        self.collection = Some(
            Collection {
                name,
                symbol,
                description,
                total_supply: 0,
                max_supply,
                royalties,
                owner: caller,
                treasury,
                created_at: now,
                logo,
                website,
                social_links,
            },
        );
        true
    }

    /// The collection's name; empty while no collection is set.
    pub fn name(&self) -> (r: String)
        ensures
            r@ == match self@.collection {
                Some(c) => c.name@,
                None => Seq::<char>::empty(),
            },
    {
        match &self.collection {
            Some(c) => c.name.clone(),
            None => String::new(),
        }
    }

    /// The collection's symbol; empty while no collection is set.
    pub fn symbol(&self) -> (r: String)
        ensures
            r@ == match self@.collection {
                Some(c) => c.symbol@,
                None => Seq::<char>::empty(),
            },
    {
        match &self.collection {
            Some(c) => c.symbol.clone(),
            None => String::new(),
        }
    }

    /// How many tokens were minted; zero while no collection is set.
    pub fn total_supply(&self) -> (r: u64)
        ensures
            r == match self@.collection {
                Some(c) => c.total_supply,
                None => 0,
            },
    {
        match &self.collection {
            Some(c) => c.total_supply,
            None => 0,
        }
    }

    /// The cap on the number of tokens, where one is set.
    pub fn max_supply(&self) -> (r: Option<u64>)
        ensures
            r == match self@.collection {
                Some(c) => c.max_supply,
                None => None,
            },
    {
        match &self.collection {
            Some(c) => c.max_supply,
            None => None,
        }
    }

    /// The account that takes the royalties of the collection, once a
    /// collection is set.
    pub fn treasury(&self) -> (r: Option<Principal>)
        ensures
            r == match self@.collection {
                Some(c) => Some(c.treasury),
                None => None,
            },
    {
        match &self.collection {
            Some(c) => Some(c.treasury),
            None => None,
        }
    }

    /// The owner of a token; nothing for an identifier that names none.
    pub fn owner_of(&self, token_id: u64) -> (r: Option<Principal>)
        requires
            self.wf(),
        ensures
            r == self@.registry.owner_of(token_id),
    {
        self.registry.owner_of(token_id)
    }

    /// How many tokens the owner index lists under `owner`.
    pub fn balance_of(&self, owner: Principal) -> (r: u64)
        requires
            self.wf(),
        ensures
            r == self@.registry.balance_of(owner),
    {
        self.registry.balance_of(owner)
    }

    /// Issues the next token to `owner` and returns its identifier.
    pub fn mint(&mut self, owner: Principal, now: u64, metadata: TokenMetadata, transfer_restricted: bool) -> (r:
        Result<u64, LedgerError>)
        requires
            old(self).wf(),
        ensures
            final(self).wf(),
            match old(self)@.mint_error() {
                Some(e) => r == Err::<u64, LedgerError>(e) && final(self)@ == old(self)@,
                None => r == Ok::<u64, LedgerError>(old(self)@.registry.next_id() as u64) && final(self)@
                    == old(self)@.after_mint(owner, metadata@, transfer_restricted, now),
            },
    {
        let supply = match &self.collection {
            None => {
                return Err(LedgerError::CollectionNotInitialized);
            },
            Some(c) => {
                if let Some(m) = c.max_supply {
                    if c.total_supply >= m {
                        return Err(LedgerError::SupplyCapReached);
                    }
                }
                if c.total_supply >= u64::MAX {
                    return Err(LedgerError::CapacityExceeded);
                }
                c.total_supply
            },
        };
        proof {
            old(self)@.lemma_mint_valid(owner, metadata@, transfer_restricted, now);
        }
        let stats = TokenStats { total_transactions: 0, unique_holders: 1, market_cap: 0, volume_24h: 0 };
        let id = self.registry.insert(owner, metadata, transfer_restricted, stats, now);
        match &mut self.collection {
            Some(c) => {
                c.total_supply = supply + 1;
            },
            None => {},
        }
        Ok(id)
    }

    /// Hands a token from `args.from` to `args.to`.
    pub fn transfer(&mut self, caller: Principal, now: u64, args: TransferArgs) -> (r: Result<bool, LedgerError>)
        requires
            old(self).wf(),
        ensures
            final(self).wf(),
            match old(self)@.registry.transfer_error(caller, now, args.from, args.token_id) {
                Some(e) => r == Err::<bool, LedgerError>(e) && final(self)@ == old(self)@,
                None => r == Ok::<bool, LedgerError>(true) && final(self)@ == (AssetState {
                    registry: old(self)@.registry.after_transfer(now, args.from, args.to, args.token_id),
                    ..old(self)@
                }),
            },
    {
        proof {
            if old(self)@.registry.transfer_error(caller, now, args.from, args.token_id) is None {
                old(self)@.registry.lemma_transfer_valid(caller, now, args.from, args.to, args.token_id);
            }
        }
        match self.registry.transfer(caller, now, args.from, args.to, args.token_id) {
            Ok(()) => Ok(true),
            Err(e) => Err(e),
        }
    }

    /// Records that `args.spender` may move a token of `caller`, replacing
    /// what was recorded for that token before.
    pub fn approve(&mut self, caller: Principal, args: ApprovalArgs) -> (r: Result<bool, LedgerError>)
        requires
            old(self).wf(),
        ensures
            final(self).wf(),
            match old(self)@.registry.approve_error(caller, args.token_id) {
                Some(e) => r == Err::<bool, LedgerError>(e) && final(self)@ == old(self)@,
                None => r == Ok::<bool, LedgerError>(true) && final(self)@ == (AssetState {
                    registry: old(self)@.registry.after_approve(caller, args.spender, args.token_id, args.expires_at),
                    ..old(self)@
                }),
            },
    {
        match self.registry.approve(caller, args.spender, args.token_id, args.expires_at) {
            Ok(()) => Ok(true),
            Err(e) => Err(e),
        }
    }

    /// The spender approved for a token and the expiry of the approval;
    /// nothing once the expiry has passed.
    pub fn get_approved(&self, now: u64, token_id: u64) -> (r: Option<(Principal, Option<u64>)>)
        requires
            self.wf(),
        ensures
            r == self@.registry.approved(now, token_id),
    {
        self.registry.get_approved(now, token_id)
    }

    /// The metadata of a token, as it was stamped at mint.
    pub fn get_metadata(&self, token_id: u64) -> (r: Option<TokenMetadata>)
        requires
            self.wf(),
        ensures
            self@.registry.has_token(token_id) ==> r is Some && r.unwrap()@ == self@.registry.slots[token_id
                - 1].token.metadata,
            !self@.registry.has_token(token_id) ==> r is None,
    {
        self.registry.get_metadata(token_id)
    }

    /// The token with identifier `token_id`.
    pub fn get_token(&self, token_id: u64) -> (r: Option<Token>)
        requires
            self.wf(),
        ensures
            self@.registry.has_token(token_id) ==> r is Some && r.unwrap()@ == self@.registry.slots[token_id
                - 1].token,
            !self@.registry.has_token(token_id) ==> r is None,
    {
        self.registry.get_token(token_id)
    }

    /// The collection record, once it is set.
    pub fn get_collection_info(&self) -> (r: Option<Collection>)
        ensures
            collection_view(r) == self@.collection,
    {
        match &self.collection {
            Some(c) => Some(c.clone()),
            None => None,
        }
    }

    /// The statistics kept for a token.
    pub fn get_token_stats(&self, token_id: u64) -> (r: Option<TokenStats>)
        requires
            self.wf(),
        ensures
            self@.registry.has_token(token_id) ==> r == Some(self@.registry.slots[token_id - 1].stats),
            !self@.registry.has_token(token_id) ==> r is None,
    {
        self.registry.get_token_stats(token_id)
    }

    /// The tokens listed under `user`, in the order of their minting.
    pub fn get_user_tokens(&self, user: Principal) -> (r: Vec<Token>)
        requires
            self.wf(),
        ensures
            token_views(r@) == crate::registry::holdings_of(self@.registry, user),
    {
        self.registry.get_user_tokens(user)
    }
}

} // verus!
