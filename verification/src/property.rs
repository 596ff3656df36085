use crate::account::same_account;
use crate::error::LedgerError;
use crate::icrc7_token::{AssetState, ICRC7Token, TokenMetadata, TokenMetadataView};
use crate::marketplace::Marketplace;
use candid::Principal;
use std::collections::HashMap;
use vstd::prelude::*;

verus! {

#[derive(Clone, Copy, Debug, PartialEq, Eq, Structural)]
pub enum PropertyStatus {
    Listed,
    UnderContract,
    Sold,
    Tokenized,
}

#[derive(Clone, Copy, Debug, PartialEq, Eq, Structural)]
pub enum DocumentType {
    Deed,
    Title,
    Contract,
    Inspection,
    Other,
}

#[derive(Debug)]
pub struct Document {
    pub id: u64,
    pub doc_type: DocumentType,
    pub hash: String,
    pub timestamp: u64,
}

impl Clone for Document {
    fn clone(&self) -> (r: Self)
        ensures
            r == *self,
    {
        Document { id: self.id, doc_type: self.doc_type, hash: self.hash.clone(), timestamp: self.timestamp }
    }
}

#[derive(Clone, Copy, Debug, PartialEq, Eq, Structural)]
pub struct RentalIncome {
    pub monthly_amount: u64,
    pub last_distribution: u64,
    pub distribution_frequency: u64,
}

/// A property on offer.
#[derive(Debug)]
pub struct Property {
    pub id: u64,
    pub owner: Principal,
    /// The asking price, as the bits of the floating-point number that the
    /// owner gave.
    pub price_bits: u64,
    pub location: String,
    pub description: String,
    pub status: PropertyStatus,
    pub documents: Vec<Document>,
    pub rental_income: Option<RentalIncome>,
    pub token_id: Option<u64>,
}

pub struct PropertyView {
    pub id: u64,
    pub owner: Principal,
    pub price_bits: u64,
    pub location: String,
    pub description: String,
    pub status: PropertyStatus,
    pub documents: Seq<Document>,
    pub rental_income: Option<RentalIncome>,
    pub token_id: Option<u64>,
}

impl View for Property {
    type V = PropertyView;

    open spec fn view(&self) -> PropertyView {
        PropertyView {
            id: self.id,
            owner: self.owner,
            price_bits: self.price_bits,
            location: self.location,
            description: self.description,
            status: self.status,
            documents: self.documents@,
            rental_income: self.rental_income,
            token_id: self.token_id,
        }
    }
}

fn clone_documents(v: &Vec<Document>) -> (r: Vec<Document>)
    ensures
        r@ == v@,
{
    let mut out: Vec<Document> = Vec::new();
    let mut i: usize = 0;
    while i < v.len()
        invariant
            i <= v.len(),
            out@ == v@.take(i as int),
        decreases v.len() - i,
    {
        out.push(v[i].clone());
        i = i + 1;
        assert(out@ =~= v@.take(i as int));
    }
    assert(v@.take(v.len() as int) =~= v@);
    out
}

impl Clone for Property {
    fn clone(&self) -> (r: Self)
        ensures
            r@ == self@,
    {
        Property {
            id: self.id,
            owner: self.owner,
            price_bits: self.price_bits,
            location: self.location.clone(),
            description: self.description.clone(),
            status: self.status,
            documents: clone_documents(&self.documents),
            rental_income: self.rental_income,
            token_id: self.token_id,
        }
    }
}

/// What a list of properties holds, each by its view.
pub open spec fn property_views(properties: Seq<Property>) -> Seq<PropertyView> {
    Seq::new(properties.len(), |i: int| properties[i]@)
}

/// The properties of `owner`, in the order of their listing.
pub open spec fn owned_among(properties: Seq<PropertyView>, owner: Principal) -> Seq<PropertyView>
    decreases properties.len(),
{
    if properties.len() == 0 {
        Seq::empty()
    } else if properties.last().owner == owner {
        owned_among(properties.drop_last(), owner).push(properties.last())
    } else {
        owned_among(properties.drop_last(), owner)
    }
}

/// The metadata that a property's token is minted with.
pub open spec fn tokenization_metadata(
    caller: Principal,
    now: u64,
    name: String,
    symbol: String,
    description: Option<String>,
    total_supply: u64,
    royalty_percentage: Option<u16>,
    tag: String,
) -> TokenMetadataView {
    TokenMetadataView {
        name,
        symbol,
        description,
        logo: None,
        content_type: None,
        decimals: 0,
        website: None,
        social_links: None,
        supply_cap: Some(total_supply),
        image: None,
        royalties: royalty_percentage,
        royalty_recipient: Some(caller),
        tags: Some(seq![tag]),
        created_at: now,
        modified_at: now,
    }
}

/// The properties on offer, in the order of their listing: property `id` is
/// at `id - 1`.
pub struct BookState {
    pub properties: Seq<PropertyView>,
}

impl BookState {
    /// Identifiers follow the order of listing.
    pub open spec fn valid(self) -> bool {
        &&& self.properties.len() <= u64::MAX
        &&& forall|i: int| 0 <= i < self.properties.len() ==> (#[trigger] self.properties[i]).id == i + 1
    }

    /// `id` names a property.
    pub open spec fn has_property(self, id: u64) -> bool {
        1 <= id <= self.properties.len()
    }

    /// The document that `add_document` attaches to property `id`.
    pub open spec fn next_document(self, id: u64, doc_type: DocumentType, hash: String, now: u64) -> Document {
        Document { id: (self.properties[id - 1].documents.len() + 1) as u64, doc_type, hash, timestamp: now }
    }

    /// `caller` owns property `id`, which can take another document.
    pub open spec fn may_add_document(self, caller: Principal, id: u64) -> bool {
        self.has_property(id) && self.properties[id - 1].owner == caller && self.properties[id - 1].documents.len()
            < u64::MAX
    }

    /// Why a tokenization is refused, if it is: the first of these that
    /// applies.
    pub open spec fn tokenize_error(self, tokens: AssetState, caller: Principal, id: u64) -> Option<LedgerError> {
        if !self.has_property(id) {
            Some(LedgerError::PropertyNotFound)
        } else if self.properties[id - 1].owner != caller {
            Some(LedgerError::NotPropertyOwner)
        } else if self.properties[id - 1].token_id is Some {
            Some(LedgerError::PropertyAlreadyTokenized)
        } else if tokens.mint_error() is Some {
            Some(LedgerError::MintFailed)
        } else {
            None
        }
    }

    /// The book after property `id` was tokenized as `token_id`.
    pub open spec fn after_tokenize(self, id: u64, token_id: u64) -> BookState {
        BookState {
            properties: self.properties.update(
                id - 1,
                PropertyView { status: PropertyStatus::Tokenized, token_id: Some(token_id), ..self.properties[id - 1] },
            ),
        }
    }

    /// What stands in the way of recording shares for property `id`, before
    /// the marketplace is asked.
    pub open spec fn share_error(self, tokens: AssetState, caller: Principal, id: u64) -> Option<LedgerError> {
        if !self.has_property(id) {
            Some(LedgerError::PropertyNotFound)
        } else if self.properties[id - 1].owner != caller {
            Some(LedgerError::NotPropertyOwner)
        } else if self.properties[id - 1].token_id is None {
            Some(LedgerError::PropertyNotTokenized)
        } else if tokens.registry.owner_of(self.properties[id - 1].token_id.unwrap()) != Some(caller) {
            Some(LedgerError::PropertyTokenNotOwned)
        } else {
            None
        }
    }
}

/// The book of the properties on offer.
pub struct PropertyBook {
    properties: HashMap<u64, Property>,
    /// The identifier of the property that was listed last.
    property_counter: u64,
}

impl View for PropertyBook {
    type V = BookState;

    closed spec fn view(&self) -> BookState {
        BookState {
            properties: Seq::new(self.property_counter as nat, |i: int| self.properties@[(i + 1) as u64]@),
        }
    }
}

impl PropertyBook {
    /// The book's invariant: identifiers follow the order of listing.
    pub open spec fn wf(&self) -> bool {
        self.filled() && self@.valid()
    }

    /// Every identifier up to the one given last has its property, and no
    /// other has one.
    pub closed spec fn filled(&self) -> bool {
        forall|k: u64| #[trigger] self.properties@.contains_key(k) <==> 1 <= k <= self.property_counter
    }

    /// How many properties were listed.
    fn property_count(&self) -> (n: u64)
        ensures
            n == self@.properties.len(),
    {
        self.property_counter
    }

    /// The property with identifier `id`, which names one.
    fn property_at(&self, id: u64) -> (p: &Property)
        requires
            self.filled(),
            1 <= id <= self@.properties.len(),
        ensures
            p@ == self@.properties[id - 1],
    {
        broadcast use vstd::std_specs::hash::group_hash_axioms;

        assert(self.properties@.contains_key(id));
        match self.properties.get(&id) {
            Some(p) => p,
            None => vstd::pervasive::unreached(),
        }
    }

    /// Takes the property with identifier `id` out of the book, to be put
    /// back with `put_property`.
    fn take_property(&mut self, id: u64) -> (p: Property)
        requires
            old(self).filled(),
            1 <= id <= old(self)@.properties.len(),
        ensures
            p@ == old(self)@.properties[id - 1],
            final(self).properties@ == old(self).properties@.remove(id),
            final(self).property_counter == old(self).property_counter,
    {
        broadcast use vstd::std_specs::hash::group_hash_axioms;

        assert(self.properties@.contains_key(id));
        match self.properties.remove(&id) {
            Some(p) => p,
            None => vstd::pervasive::unreached(),
        }
    }

    /// Puts `p` into the book as the property with identifier `id`.
    fn put_property(&mut self, id: u64, p: Property)
        ensures
            final(self).properties@ == old(self).properties@.insert(id, p),
            final(self).property_counter == old(self).property_counter,
    {
        broadcast use vstd::std_specs::hash::group_hash_axioms;

        self.properties.insert(id, p);
    }

    /// A book without properties.
    pub fn new() -> (r: Self)
        ensures
            r.wf(),
            r@.properties == Seq::<PropertyView>::empty(),
    {
        let r = PropertyBook { properties: HashMap::new(), property_counter: 0 };
        assert(r@.properties =~= Seq::<PropertyView>::empty());
        r
    }

    /// Puts a property on offer and returns its record.
    pub fn list_property(
        &mut self,
        caller: Principal,
        price_bits: u64,
        location: String,
        description: String,
        rental_income: Option<RentalIncome>,
    ) -> (r: Result<Property, LedgerError>)
        requires
            old(self).wf(),
        ensures
            final(self).wf(),
            match r {
                Err(e) => old(self)@.properties.len() >= u64::MAX && e == LedgerError::CapacityExceeded && final(self)@ == old(self)@,
                Ok(p) => old(self)@.properties.len() < u64::MAX && p@ == (PropertyView {
                    id: (old(self)@.properties.len() + 1) as u64,
                    owner: caller,
                    price_bits,
                    location,
                    description,
                    status: PropertyStatus::Listed,
                    documents: Seq::empty(),
                    rental_income,
                    token_id: None,
                }) && final(self)@.properties == old(self)@.properties.push(p@),
            },
    {
        if self.property_counter >= u64::MAX {
            return Err(LedgerError::CapacityExceeded);
        }
        let id: u64 = self.property_counter + 1;
        let property = Property {
            id,
            owner: caller,
            price_bits,
            location,
            description,
            status: PropertyStatus::Listed,
            documents: Vec::new(),
            rental_income,
            token_id: None,
        };
        let copy = property.clone();
        self.put_property(id, property);
        self.property_counter = id;
        assert(self@.properties =~= old(self)@.properties.push(copy@));
        assert forall|i: int| 0 <= i < self@.properties.len() implies (#[trigger] self@.properties[i]).id == i
            + 1 by {
            if i < old(self)@.properties.len() {
                assert(old(self)@.properties[i].id == i + 1);
            }
        }
        Ok(copy)
    }

    /// The property with identifier `property_id`.
    pub fn get_property(&self, property_id: u64) -> (r: Option<Property>)
        requires
            self.wf(),
        ensures
            self@.has_property(property_id) ==> r is Some && r.unwrap()@ == self@.properties[property_id - 1],
            !self@.has_property(property_id) ==> r is None,
    {
        if property_id >= 1 && property_id <= self.property_count() {
            Some(self.property_at(property_id).clone())
        } else {
            None
        }
    }

    /// All properties, in the order of their listing.
    pub fn get_all_properties(&self) -> (r: Vec<Property>)
        requires
            self.wf(),
        ensures
            property_views(r@) == self@.properties,
    {
        let mut out: Vec<Property> = Vec::new();
        let count = self.property_count();
        let mut i: u64 = 0;
        while i < count
            invariant
                self.wf(),
                count == self@.properties.len(),
                i <= count,
                property_views(out@) == self@.properties.take(i as int),
            decreases count - i,
        {
            let ghost before = property_views(out@);
            out.push(self.property_at(i + 1).clone());
            assert(property_views(out@) =~= before.push(self@.properties[i as int]));
            i = i + 1;
            assert(property_views(out@) =~= self@.properties.take(i as int));
        }
        assert(self@.properties.take(count as int) =~= self@.properties);
        out
    }

    /// The properties of `user`, in the order of their listing.
    pub fn get_user_properties(&self, user: Principal) -> (r: Vec<Property>)
        requires
            self.wf(),
        ensures
            property_views(r@) == owned_among(self@.properties, user),
    {
        let mut out: Vec<Property> = Vec::new();
        let count = self.property_count();
        let mut i: u64 = 0;
        while i < count
            invariant
                self.wf(),
                count == self@.properties.len(),
                i <= count,
                property_views(out@) == owned_among(self@.properties.take(i as int), user),
            decreases count - i,
        {
            proof {
                assert(self@.properties.take(i + 1).drop_last() =~= self@.properties.take(i as int));
            }
            let property = self.property_at(i + 1);
            if same_account(&property.owner, &user) {
                let ghost before = property_views(out@);
                out.push(property.clone());
                assert(property_views(out@) =~= before.push(self@.properties[i as int]));
            }
            i = i + 1;
        }
        assert(self@.properties.take(count as int) =~= self@.properties);
        out
    }

    /// Attaches a document to a property of `caller`. Returns `false`, and
    /// changes nothing, where the property is unknown or not the caller's.
    pub fn add_document(&mut self, caller: Principal, now: u64, property_id: u64, doc_type: DocumentType, hash: String) -> (r:
        bool)
        requires
            old(self).wf(),
        ensures
            final(self).wf(),
            r == old(self)@.may_add_document(caller, property_id),
            !r ==> final(self)@ == old(self)@,
            r ==> final(self)@.properties == old(self)@.properties.update(
                property_id - 1,
                PropertyView {
                    documents: old(self)@.properties[property_id - 1].documents.push(
                        old(self)@.next_document(property_id, doc_type, hash, now),
                    ),
                    ..old(self)@.properties[property_id - 1]
                },
            ),
    {
        if !(property_id >= 1 && property_id <= self.property_count()) {
            return false;
        }
        if !same_account(&self.property_at(property_id).owner, &caller) {
            return false;
        }
        if self.property_at(property_id).documents.len() as u64 >= u64::MAX {
            return false;
        }
        let mut property = self.take_property(property_id);
        let doc_id: u64 = property.documents.len() as u64 + 1;
        property.documents.push(Document { id: doc_id, doc_type, hash, timestamp: now });
        self.put_property(property_id, property);
        assert(self@.properties =~= old(self)@.properties.update(
            property_id - 1,
            PropertyView {
                documents: old(self)@.properties[property_id - 1].documents.push(
                    old(self)@.next_document(property_id, doc_type, hash, now),
                ),
                ..old(self)@.properties[property_id - 1]
            },
        ));
        assert forall|j: int| 0 <= j < self@.properties.len() implies (#[trigger] self@.properties[j]).id == j
            + 1 by {
            assert(old(self)@.properties[j].id == j + 1);
        }
        true
    }

    /// Mints the token of a property of `caller`, and records it with the
    /// property.
    pub fn tokenize_property(
        &mut self,
        tokens: &mut ICRC7Token,
        caller: Principal,
        now: u64,
        property_id: u64,
        name: String,
        symbol: String,
        description: Option<String>,
        total_supply: u64,
        royalty_percentage: Option<u16>,
    ) -> (r: Result<bool, LedgerError>)
        requires
            old(self).wf(),
            old(tokens).wf(),
        ensures
            final(self).wf(),
            final(tokens).wf(),
            match old(self)@.tokenize_error(old(tokens)@, caller, property_id) {
                Some(e) => r == Err::<bool, LedgerError>(e) && final(self)@ == old(self)@ && final(tokens)@ == old(tokens)@,
                None => r == Ok::<bool, LedgerError>(true) && final(self)@ == old(self)@.after_tokenize(
                    property_id,
                    old(tokens)@.registry.next_id() as u64,
                ) && final(tokens)@.registry.owner_of(old(tokens)@.registry.next_id() as u64) == Some(caller)
                    && exists|tag: String|
                    tag@ == "real-estate"@ && final(tokens)@ == old(tokens)@.after_mint(
                        caller,
                        #[trigger] tokenization_metadata(
                            caller,
                            now,
                            name,
                            symbol,
                            description,
                            total_supply,
                            royalty_percentage,
                            tag,
                        ),
                        false,
                        now,
                    ),
            },
    {
        if !(property_id >= 1 && property_id <= self.property_count()) {
            return Err(LedgerError::PropertyNotFound);
        }
        if !same_account(&self.property_at(property_id).owner, &caller) {
            return Err(LedgerError::NotPropertyOwner);
        }
        if self.property_at(property_id).token_id.is_some() {
            return Err(LedgerError::PropertyAlreadyTokenized);
        }
        let tag = "real-estate".to_owned();
        let mut tags: Vec<String> = Vec::new();
        tags.push(tag);
        let metadata = TokenMetadata {
            name,
            symbol,
            description,
            logo: None,
            content_type: None,
            decimals: 0,
            website: None,
            social_links: None,
            supply_cap: Some(total_supply),
            image: None,
            royalties: royalty_percentage,
            royalty_recipient: Some(caller),
            tags: Some(tags),
            created_at: now,
            modified_at: now,
        };
        proof {
            assert(tags@ =~= seq![tag]);
            assert(metadata@ == tokenization_metadata(
                caller,
                now,
                name,
                symbol,
                description,
                total_supply,
                royalty_percentage,
                tag,
            ));
            if old(tokens)@.mint_error() is None {
                old(tokens)@.registry.lemma_insert_valid(
                    caller,
                    crate::registry::stamped(metadata@, now),
                    false,
                    crate::icrc7_token::initial_stats(),
                );
            }
        }
        let token_id = match tokens.mint(caller, now, metadata, false) {
            Ok(id) => id,
            Err(_) => {
                return Err(LedgerError::MintFailed);
            },
        };
        let mut property = self.take_property(property_id);
        property.status = PropertyStatus::Tokenized;
        property.token_id = Some(token_id);
        self.put_property(property_id, property);
        assert(self@.properties =~= old(self)@.after_tokenize(property_id, token_id).properties);
        assert forall|j: int| 0 <= j < self@.properties.len() implies (#[trigger] self@.properties[j]).id == j
            + 1 by {
            assert(old(self)@.properties[j].id == j + 1);
        }
        Ok(true)
    }

    /// Records the shares of the token of a property of `caller`.
    pub fn fractionalize_property(
        &self,
        tokens: &ICRC7Token,
        market: &mut Marketplace,
        caller: Principal,
        now: u64,
        property_id: u64,
        shares: Vec<(Principal, u16)>,
    ) -> (r: Result<bool, LedgerError>)
        requires
            self.wf(),
            tokens.wf(),
            old(market).wf(),
        ensures
            final(market).wf(),
            match self@.share_error(tokens@, caller, property_id) {
                Some(e) => r == Err::<bool, LedgerError>(e) && final(market)@ == old(market)@,
                None => match old(market)@.fractionalize_error(
                    tokens@.registry,
                    caller,
                    self@.properties[property_id - 1].token_id.unwrap(),
                    shares@,
                ) {
                    Some(e) => r == Err::<bool, LedgerError>(e) && final(market)@ == old(market)@,
                    None => r == Ok::<bool, LedgerError>(true) && final(market)@ == old(market)@.after_fractionalize(
                        now,
                        self@.properties[property_id - 1].token_id.unwrap(),
                        shares@,
                    ),
                },
            },
    {
        if !(property_id >= 1 && property_id <= self.property_count()) {
            return Err(LedgerError::PropertyNotFound);
        }
        if !same_account(&self.property_at(property_id).owner, &caller) {
            return Err(LedgerError::NotPropertyOwner);
        }
        let token_id = match self.property_at(property_id).token_id {
            Some(id) => id,
            None => {
                return Err(LedgerError::PropertyNotTokenized);
            },
        };
        let owns = match tokens.owner_of(token_id) {
            Some(owner) => same_account(&owner, &caller),
            None => false,
        };
        if !owns {
            return Err(LedgerError::PropertyTokenNotOwned);
        }
        match market.fractionalize_property(tokens, caller, now, token_id, shares) {
            Ok(()) => Ok(true),
            Err(e) => Err(e),
        }
    }
}

} // verus!
