use crate::account::same_account;
use crate::error::LedgerError;
use crate::views::{add_saturating, clone_opt_bytes, clone_opt_string, clone_opt_strings, opt_view, sat_add};
use candid::Principal;
use vstd::prelude::*;

verus! {

pub const INITIAL_SUPPLY: u64 = 10_000_000;

pub const MAX_SUPPLY: u64 = 20_000_000;

/// The part of the initial supply that is reserved for airdrops.
pub const AIRDROP_ALLOCATION: u64 = 5_000_000;

/// What is credited to the owner when the ledger is initialised.
pub const GENESIS_MINT: u64 = 5_000_000;

pub const NANOS_PER_DAY: u64 = 86_400_000_000_000;

/// Thirty days, in nanoseconds.
pub const MIN_STAKE_DURATION: u64 = 2_592_000_000_000_000;

/// The yearly staking reward, in percent.
pub const STAKE_APR: u64 = 10;

#[derive(Debug)]
pub struct TokenMetadata {
    pub name: String,
    pub symbol: String,
    pub description: Option<String>,
    pub logo: Option<Vec<u8>>,
    pub decimals: u8,
    pub total_supply: u64,
    pub circulating_supply: u64,
    pub owner: Principal,
    pub created_at: u64,
    pub website: Option<String>,
    pub social_links: Option<Vec<String>>,
}

pub struct TokenMetadataView {
    pub name: String,
    pub symbol: String,
    pub description: Option<String>,
    pub logo: Option<Seq<u8>>,
    pub decimals: u8,
    pub total_supply: u64,
    pub circulating_supply: u64,
    pub owner: Principal,
    pub created_at: u64,
    pub website: Option<String>,
    pub social_links: Option<Seq<String>>,
}

impl View for TokenMetadata {
    type V = TokenMetadataView;

    open spec fn view(&self) -> TokenMetadataView {
        TokenMetadataView {
            name: self.name,
            symbol: self.symbol,
            description: self.description,
            logo: opt_view(self.logo),
            decimals: self.decimals,
            total_supply: self.total_supply,
            circulating_supply: self.circulating_supply,
            owner: self.owner,
            created_at: self.created_at,
            website: self.website,
            social_links: opt_view(self.social_links),
        }
    }
}

impl Clone for TokenMetadata {
    fn clone(&self) -> (r: Self)
        ensures
            r@ == self@,
    {
        TokenMetadata {
            name: self.name.clone(),
            symbol: self.symbol.clone(),
            description: clone_opt_string(&self.description),
            logo: clone_opt_bytes(&self.logo),
            decimals: self.decimals,
            total_supply: self.total_supply,
            circulating_supply: self.circulating_supply,
            owner: self.owner,
            created_at: self.created_at,
            website: clone_opt_string(&self.website),
            social_links: clone_opt_strings(&self.social_links),
        }
    }
}

#[derive(Debug)]
pub struct TokenHolder {
    pub balance: u64,
    pub allowances: Vec<(Principal, u64)>,
    pub staked_balance: u64,
    pub last_stake_time: Option<u64>,
    pub stake_duration: Option<u64>,
}

pub struct HolderView {
    pub balance: u64,
    pub allowances: Seq<(Principal, u64)>,
    pub staked_balance: u64,
    pub last_stake_time: Option<u64>,
    pub stake_duration: Option<u64>,
}

impl View for TokenHolder {
    type V = HolderView;

    open spec fn view(&self) -> HolderView {
        HolderView {
            balance: self.balance,
            allowances: self.allowances@,
            staked_balance: self.staked_balance,
            last_stake_time: self.last_stake_time,
            stake_duration: self.stake_duration,
        }
    }
}

#[derive(Clone, Copy, Debug, PartialEq, Eq, Structural)]
pub struct TokenStats {
    pub total_transactions: u64,
    pub unique_holders: u64,
    pub market_cap: u64,
    pub volume_24h: u64,
    pub total_staked: u64,
    pub total_airdropped: u64,
}

#[derive(Debug)]
pub struct TransferArgs {
    pub from: Principal,
    pub to: Principal,
    pub amount: u64,
    pub memo: Option<Vec<u8>>,
}

/// One line of the book: an account and what it holds.
pub struct Entry {
    pub id: Principal,
    pub holder: HolderView,
}

/// The book of the ledger: one entry for each account that was ever
/// credited, in the order of their first credit.
pub type Book = Seq<Entry>;

/// The book has an entry for `who`.
pub open spec fn has_account(book: Book, who: Principal) -> bool {
    exists|i: int| 0 <= i < book.len() && (#[trigger] book[i]).id == who
}

/// Where the entry of `who` stands in the book.
pub open spec fn index_of(book: Book, who: Principal) -> int {
    choose|i: int| 0 <= i < book.len() && (#[trigger] book[i]).id == who
}

/// What `who` holds, where it has an entry.
pub open spec fn holder_of(book: Book, who: Principal) -> Option<HolderView> {
    if has_account(book, who) {
        Some(book[index_of(book, who)].holder)
    } else {
        None
    }
}

/// The spendable balance of `who`; zero for an account without an entry.
pub open spec fn balance_in(book: Book, who: Principal) -> u64 {
    match holder_of(book, who) {
        Some(h) => h.balance,
        None => 0,
    }
}

/// The staked balance of `who`; zero for an account without an entry.
pub open spec fn staked_in(book: Book, who: Principal) -> u64 {
    match holder_of(book, who) {
        Some(h) => h.staked_balance,
        None => 0,
    }
}

/// No account has two entries.
pub open spec fn distinct(book: Book) -> bool {
    forall|i: int, j: int| 0 <= i < j < book.len() ==> (#[trigger] book[i]).id != (#[trigger] book[j]).id
}

/// The sum of `balance + staked_balance` over the whole book.
pub open spec fn book_total(book: Book) -> int
    decreases book.len(),
{
    if book.len() == 0 {
        0
    } else {
        book_total(book.drop_last()) + book.last().holder.balance + book.last().holder.staked_balance
    }
}

/// The sum of `staked_balance` over the whole book.
pub open spec fn staked_total(book: Book) -> int
    decreases book.len(),
{
    if book.len() == 0 {
        0
    } else {
        staked_total(book.drop_last()) + book.last().holder.staked_balance
    }
}

/// A holder with a stake knows when it was made and for how long.
pub open spec fn stake_recorded(h: HolderView) -> bool {
    h.staked_balance > 0 ==> h.last_stake_time is Some && h.stake_duration is Some
}

/// The holder that a first credit of `amount` creates.
pub open spec fn fresh_holder(amount: u64) -> HolderView {
    HolderView {
        balance: amount,
        allowances: Seq::empty(),
        staked_balance: 0,
        last_stake_time: None,
        stake_duration: None,
    }
}

/// The book after `amount` was added to the balance of `who`, whose entry is
/// created where there was none.
pub open spec fn credit(book: Book, who: Principal, amount: u64) -> Book {
    if has_account(book, who) {
        let i = index_of(book, who);
        book.update(
            i,
            Entry { id: who, holder: HolderView { balance: (book[i].holder.balance + amount) as u64, ..book[i].holder } },
        )
    } else {
        book.push(Entry { id: who, holder: fresh_holder(amount) })
    }
}

/// The book after `amount` was taken from the balance of `who`.
pub open spec fn debit(book: Book, who: Principal, amount: u64) -> Book
    recommends
        balance_in(book, who) >= amount,
{
    if has_account(book, who) {
        let i = index_of(book, who);
        book.update(
            i,
            Entry { id: who, holder: HolderView { balance: (book[i].holder.balance - amount) as u64, ..book[i].holder } },
        )
    } else {
        book
    }
}

/// The sum of the amounts of a batch of credits.
pub open spec fn batch_total(recipients: Seq<(Principal, u64)>) -> int
    decreases recipients.len(),
{
    if recipients.len() == 0 {
        0
    } else {
        batch_total(recipients.drop_last()) + recipients.last().1
    }
}

/// The book after every credit of the batch was made, first to last.
pub open spec fn credit_all(book: Book, recipients: Seq<(Principal, u64)>) -> Book
    decreases recipients.len(),
{
    if recipients.len() == 0 {
        book
    } else {
        credit(credit_all(book, recipients.drop_last()), recipients.last().0, recipients.last().1)
    }
}

/// The whole days in a staking duration.
pub open spec fn stake_days(duration: u64) -> int {
    duration as int / NANOS_PER_DAY as int
}

/// The reward for a stake of `staked` held for `duration`, rounded down.
pub open spec fn stake_reward(staked: u64, duration: u64) -> int {
    (staked * STAKE_APR * stake_days(duration)) / 36500
}

/// The state of the ledger.
pub struct RetState {
    pub metadata: Option<TokenMetadataView>,
    pub book: Book,
    pub stats: TokenStats,
    /// Everything that was ever created but by airdrop: the genesis mint and
    /// the staking rewards.
    pub minted: u64,
}

impl RetState {
    /// No account has two entries, balances and stakes together equal what was
    /// minted and airdropped, the stakes equal the counter kept of them, the
    /// airdrops are within their allocation, and every stake is recorded with
    /// its time.
    pub open spec fn valid(self) -> bool {
        &&& distinct(self.book)
        &&& book_total(self.book) == self.minted + self.stats.total_airdropped
        &&& staked_total(self.book) == self.stats.total_staked
        &&& self.stats.total_airdropped <= AIRDROP_ALLOCATION
        &&& self.minted + AIRDROP_ALLOCATION <= u64::MAX
        &&& forall|i: int| 0 <= i < self.book.len() ==> stake_recorded((#[trigger] self.book[i]).holder)
    }

    /// Why a transfer is refused, if it is: the first of these that applies.
    pub open spec fn transfer_error(self, caller: Principal, from: Principal, amount: u64) -> Option<LedgerError> {
        if from != caller {
            Some(LedgerError::Unauthorized)
        } else if !has_account(self.book, from) {
            Some(LedgerError::SenderNotFound)
        } else if balance_in(self.book, from) < amount {
            Some(LedgerError::InsufficientBalance)
        } else {
            None
        }
    }

    /// The state after a transfer that is not refused.
    pub open spec fn after_transfer(self, from: Principal, to: Principal, amount: u64) -> RetState {
        RetState {
            book: credit(debit(self.book, from, amount), to, amount),
            stats: TokenStats {
                total_transactions: sat_add(self.stats.total_transactions, 1),
                volume_24h: sat_add(self.stats.volume_24h, amount),
                ..self.stats
            },
            ..self
        }
    }

    /// Why a stake is refused, if it is: the first of these that applies.
    pub open spec fn stake_error(self, caller: Principal, amount: u64, duration: u64) -> Option<LedgerError> {
        if duration < MIN_STAKE_DURATION {
            Some(LedgerError::DurationTooShort)
        } else if !has_account(self.book, caller) {
            Some(LedgerError::HolderNotFound)
        } else if staked_in(self.book, caller) > 0 {
            Some(LedgerError::AlreadyStaked)
        } else if balance_in(self.book, caller) < amount {
            Some(LedgerError::InsufficientBalance)
        } else {
            None
        }
    }

    /// The state after a stake that is not refused.
    pub open spec fn after_stake(self, caller: Principal, amount: u64, duration: u64, now: u64) -> RetState {
        let i = index_of(self.book, caller);
        let h = self.book[i].holder;
        RetState {
            book: self.book.update(
                i,
                Entry {
                    id: caller,
                    holder: HolderView {
                        balance: (h.balance - amount) as u64,
                        staked_balance: amount,
                        last_stake_time: Some(now),
                        stake_duration: Some(duration),
                        ..h
                    },
                },
            ),
            stats: TokenStats { total_staked: (self.stats.total_staked + amount) as u64, ..self.stats },
            ..self
        }
    }

    /// What `unstake` pays to `caller`: the stake and its reward.
    pub open spec fn unstake_return(self, caller: Principal) -> int {
        let h = self.book[index_of(self.book, caller)].holder;
        h.staked_balance + stake_reward(h.staked_balance, h.stake_duration.unwrap())
    }

    /// Why an unstake is refused, if it is: the first of these that applies.
    pub open spec fn unstake_error(self, caller: Principal, now: u64) -> Option<LedgerError> {
        if !has_account(self.book, caller) {
            Some(LedgerError::HolderNotFound)
        } else {
            let h = self.book[index_of(self.book, caller)].holder;
            if h.staked_balance == 0 {
                Some(LedgerError::NothingStaked)
            } else if now < h.last_stake_time.unwrap() + h.stake_duration.unwrap() {
                Some(LedgerError::LockNotElapsed)
            } else if self.minted + stake_reward(h.staked_balance, h.stake_duration.unwrap()) + AIRDROP_ALLOCATION
                > u64::MAX {
                Some(LedgerError::SupplyOverflow)
            } else {
                None
            }
        }
    }

    /// The state after an unstake that is not refused: the stake and its reward
    /// are back in the balance, and the reward counts as minted.
    pub open spec fn after_unstake(self, caller: Principal) -> RetState {
        let i = index_of(self.book, caller);
        let h = self.book[i].holder;
        let reward = stake_reward(h.staked_balance, h.stake_duration.unwrap());
        RetState {
            book: self.book.update(
                i,
                Entry {
                    id: caller,
                    holder: HolderView {
                        balance: (h.balance + h.staked_balance + reward) as u64,
                        staked_balance: 0,
                        last_stake_time: None,
                        stake_duration: None,
                        ..h
                    },
                },
            ),
            stats: TokenStats { total_staked: (self.stats.total_staked - h.staked_balance) as u64, ..self.stats },
            minted: (self.minted + reward) as u64,
            ..self
        }
    }

    /// Why an airdrop is refused, if it is.
    pub open spec fn airdrop_error(self, recipients: Seq<(Principal, u64)>) -> Option<LedgerError> {
        if self.stats.total_airdropped + batch_total(recipients) > AIRDROP_ALLOCATION {
            Some(LedgerError::AllocationExceeded)
        } else {
            None
        }
    }

    /// The state after an airdrop that is not refused.
    pub open spec fn after_airdrop(self, recipients: Seq<(Principal, u64)>) -> RetState {
        RetState {
            book: credit_all(self.book, recipients),
            stats: TokenStats {
                total_airdropped: (self.stats.total_airdropped + batch_total(recipients)) as u64,
                ..self.stats
            },
            ..self
        }
    }
}

/// Where the account `who` stands in a book without double entries.
pub proof fn lemma_index(book: Book, who: Principal, i: int)
    requires
        distinct(book),
        0 <= i < book.len(),
        book[i].id == who,
    ensures
        has_account(book, who),
        index_of(book, who) == i,
{
    let j = index_of(book, who);
    if j < i {
        assert(book[j].id != book[i].id);
    } else if i < j {
        assert(book[i].id != book[j].id);
    }
}

/// What one holder has is part of both totals.
pub proof fn lemma_part_of_total(book: Book, i: int)
    requires
        0 <= i < book.len(),
    ensures
        book[i].holder.balance + book[i].holder.staked_balance <= book_total(book),
        book[i].holder.staked_balance <= staked_total(book),
        0 <= staked_total(book) <= book_total(book),
    decreases book.len(),
{
    lemma_totals_ordered(book);
    if i < book.len() - 1 {
        lemma_part_of_total(book.drop_last(), i);
    } else {
        lemma_totals_ordered(book.drop_last());
    }
}

/// The stakes are part of the total.
pub proof fn lemma_totals_ordered(book: Book)
    ensures
        0 <= staked_total(book) <= book_total(book),
    decreases book.len(),
{
    if book.len() > 0 {
        lemma_totals_ordered(book.drop_last());
    }
}

/// Both totals after one entry was replaced.
pub proof fn lemma_totals_update(book: Book, i: int, e: Entry)
    requires
        0 <= i < book.len(),
    ensures
        book_total(book.update(i, e)) == book_total(book) - book[i].holder.balance - book[i].holder.staked_balance
            + e.holder.balance + e.holder.staked_balance,
        staked_total(book.update(i, e)) == staked_total(book) - book[i].holder.staked_balance
            + e.holder.staked_balance,
    decreases book.len(),
{
    let after = book.update(i, e);
    if i < book.len() - 1 {
        lemma_totals_update(book.drop_last(), i, e);
        assert(after.drop_last() =~= book.drop_last().update(i, e));
    } else {
        assert(after.drop_last() =~= book.drop_last());
    }
}

/// Both totals after one entry was added.
pub proof fn lemma_totals_push(book: Book, e: Entry)
    ensures
        book_total(book.push(e)) == book_total(book) + e.holder.balance + e.holder.staked_balance,
        staked_total(book.push(e)) == staked_total(book) + e.holder.staked_balance,
{
    assert(book.push(e).drop_last() =~= book);
}

/// A credit keeps the book in order and adds `amount` to its total.
pub proof fn lemma_credit(book: Book, who: Principal, amount: u64)
    requires
        distinct(book),
        book_total(book) + amount <= u64::MAX,
        forall|i: int| 0 <= i < book.len() ==> stake_recorded((#[trigger] book[i]).holder),
    ensures
        distinct(credit(book, who, amount)),
        book_total(credit(book, who, amount)) == book_total(book) + amount,
        staked_total(credit(book, who, amount)) == staked_total(book),
        forall|i: int|
            0 <= i < credit(book, who, amount).len() ==> stake_recorded(
                (#[trigger] credit(book, who, amount)[i]).holder,
            ),
        has_account(credit(book, who, amount), who),
{
    let after = credit(book, who, amount);
    if has_account(book, who) {
        let i = index_of(book, who);
        lemma_part_of_total(book, i);
        lemma_totals_update(book, i, after[i]);
        assert forall|a: int, b: int| 0 <= a < b < after.len() implies (#[trigger] after[a]).id != (
        #[trigger] after[b]).id by {
            assert(book[a].id != book[b].id);
        }
        assert forall|k: int| 0 <= k < after.len() implies stake_recorded((#[trigger] after[k]).holder) by {
            assert(stake_recorded(book[k].holder));
        }
        assert(after[i].id == who);
    } else {
        let e = Entry { id: who, holder: fresh_holder(amount) };
        lemma_totals_push(book, e);
        assert forall|a: int, b: int| 0 <= a < b < after.len() implies (#[trigger] after[a]).id != (
        #[trigger] after[b]).id by {
            if b < book.len() {
                assert(book[a].id != book[b].id);
            } else {
                assert(book[a].id != who);
            }
        }
        assert forall|k: int| 0 <= k < after.len() implies stake_recorded((#[trigger] after[k]).holder) by {
            if k < book.len() {
                assert(stake_recorded(book[k].holder));
            }
        }
        assert(after[book.len() as int].id == who);
    }
}

/// A debit that the balance covers keeps the book in order and takes
/// `amount` from its total.
pub proof fn lemma_debit(book: Book, who: Principal, amount: u64)
    requires
        distinct(book),
        has_account(book, who),
        balance_in(book, who) >= amount,
        forall|i: int| 0 <= i < book.len() ==> stake_recorded((#[trigger] book[i]).holder),
    ensures
        distinct(debit(book, who, amount)),
        book_total(debit(book, who, amount)) == book_total(book) - amount,
        staked_total(debit(book, who, amount)) == staked_total(book),
        forall|i: int|
            0 <= i < debit(book, who, amount).len() ==> stake_recorded(
                (#[trigger] debit(book, who, amount)[i]).holder,
            ),
{
    let after = debit(book, who, amount);
    let i = index_of(book, who);
    lemma_totals_update(book, i, after[i]);
    assert forall|a: int, b: int| 0 <= a < b < after.len() implies (#[trigger] after[a]).id != (
    #[trigger] after[b]).id by {
        assert(book[a].id != book[b].id);
    }
    assert forall|k: int| 0 <= k < after.len() implies stake_recorded((#[trigger] after[k]).holder) by {
        assert(stake_recorded(book[k].holder));
    }
}

/// What an account holds once one entry has other values: those, where the
/// entry is the account's own, and what it held before, where it is not.
proof fn lemma_update_lookup(book: Book, i: int, holder: HolderView, other: Principal)
    requires
        distinct(book),
        0 <= i < book.len(),
    ensures
        distinct(book.update(i, Entry { id: book[i].id, holder })),
        has_account(book.update(i, Entry { id: book[i].id, holder }), other) <==> has_account(book, other),
        holder_of(book.update(i, Entry { id: book[i].id, holder }), other) == if other == book[i].id {
            Some(holder)
        } else {
            holder_of(book, other)
        },
{
    let after = book.update(i, Entry { id: book[i].id, holder });
    assert forall|a: int, b: int| 0 <= a < b < after.len() implies (#[trigger] after[a]).id != (
    #[trigger] after[b]).id by {
        assert(book[a].id != book[b].id);
    }
    if has_account(book, other) {
        let j = index_of(book, other);
        assert(after[j].id == other);
        lemma_index(after, other, j);
        lemma_index(book, book[i].id, i);
    }
    if has_account(after, other) {
        let j = index_of(after, other);
        assert(book[j].id == other);
    }
}

/// What an account holds after a credit: `amount` more where the credit is
/// its own, and what it held before where it is not.
pub proof fn lemma_credit_lookup(book: Book, who: Principal, amount: u64, other: Principal)
    requires
        distinct(book),
        book_total(book) + amount <= u64::MAX,
    ensures
        has_account(credit(book, who, amount), other) <==> (has_account(book, other) || other == who),
        balance_in(credit(book, who, amount), other) == balance_in(book, other) + if other == who {
            amount as int
        } else {
            0
        },
        staked_in(credit(book, who, amount), other) == staked_in(book, other),
{
    let after = credit(book, who, amount);
    if has_account(book, who) {
        let i = index_of(book, who);
        lemma_part_of_total(book, i);
        lemma_update_lookup(
            book,
            i,
            HolderView { balance: (book[i].holder.balance + amount) as u64, ..book[i].holder },
            other,
        );
    } else {
        let n = book.len() as int;
        assert(after[n].id == who);
        assert forall|a: int, b: int| 0 <= a < b < after.len() implies (#[trigger] after[a]).id != (
        #[trigger] after[b]).id by {
            if b < n {
                assert(book[a].id != book[b].id);
            } else {
                assert(book[a].id != who);
            }
        }
        lemma_index(after, who, n);
        if has_account(book, other) {
            let j = index_of(book, other);
            assert(after[j].id == other);
            lemma_index(after, other, j);
        }
        if has_account(after, other) && other != who {
            let j = index_of(after, other);
            assert(book[j].id == other);
        }
    }
}

/// What an account holds after a debit that its balance covers: `amount`
/// less where the debit is its own, and what it held before where it is not.
pub proof fn lemma_debit_lookup(book: Book, who: Principal, amount: u64, other: Principal)
    requires
        distinct(book),
        has_account(book, who),
        balance_in(book, who) >= amount,
    ensures
        has_account(debit(book, who, amount), other) <==> has_account(book, other),
        balance_in(debit(book, who, amount), other) == balance_in(book, other) - if other == who {
            amount as int
        } else {
            0
        },
        staked_in(debit(book, who, amount), other) == staked_in(book, other),
{
    let i = index_of(book, who);
    lemma_update_lookup(
        book,
        i,
        HolderView { balance: (book[i].holder.balance - amount) as u64, ..book[i].holder },
        other,
    );
}

impl RetState {
    /// A transfer moves the amount and nothing else: the sender has `amount`
    /// less, the recipient `amount` more, a sender that is its own recipient
    /// what it had, and every other balance and every stake is as it was.
    pub proof fn lemma_transfer_moves_amount(self, from: Principal, to: Principal, amount: u64, who: Principal)
        requires
            self.valid(),
            self.transfer_error(from, from, amount) is None,
        ensures
            balance_in(self.after_transfer(from, to, amount).book, who) == balance_in(self.book, who) - (if who
                == from {
                amount as int
            } else {
                0
            }) + (if who == to {
                amount as int
            } else {
                0
            }),
            staked_in(self.after_transfer(from, to, amount).book, who) == staked_in(self.book, who),
    {
        lemma_debit(self.book, from, amount);
        lemma_debit_lookup(self.book, from, amount, who);
        lemma_credit_lookup(debit(self.book, from, amount), to, amount, who);
    }
}

/// A batch of credits keeps the book in order and adds its sum to the total.
pub proof fn lemma_credit_all(book: Book, recipients: Seq<(Principal, u64)>)
    requires
        distinct(book),
        book_total(book) + batch_total(recipients) <= u64::MAX,
        forall|i: int| 0 <= i < book.len() ==> stake_recorded((#[trigger] book[i]).holder),
    ensures
        batch_total(recipients) >= 0,
        distinct(credit_all(book, recipients)),
        book_total(credit_all(book, recipients)) == book_total(book) + batch_total(recipients),
        staked_total(credit_all(book, recipients)) == staked_total(book),
        forall|i: int|
            0 <= i < credit_all(book, recipients).len() ==> stake_recorded(
                (#[trigger] credit_all(book, recipients)[i]).holder,
            ),
    decreases recipients.len(),
{
    lemma_batch_total_nonnegative(recipients);
    if recipients.len() > 0 {
        lemma_batch_total_nonnegative(recipients.drop_last());
        lemma_credit_all(book, recipients.drop_last());
        lemma_credit(credit_all(book, recipients.drop_last()), recipients.last().0, recipients.last().1);
    }
}

/// The sum of a batch is not negative.
pub proof fn lemma_batch_total_nonnegative(recipients: Seq<(Principal, u64)>)
    ensures
        batch_total(recipients) >= 0,
    decreases recipients.len(),
{
    if recipients.len() > 0 {
        lemma_batch_total_nonnegative(recipients.drop_last());
    }
}


/// The sum of a part of a batch is no more than the sum of the whole.
pub proof fn lemma_batch_prefix(recipients: Seq<(Principal, u64)>, k: int)
    requires
        0 <= k <= recipients.len(),
    ensures
        0 <= batch_total(recipients.take(k)) <= batch_total(recipients),
    decreases recipients.len(),
{
    lemma_batch_total_nonnegative(recipients.take(k));
    if k == recipients.len() {
        assert(recipients.take(k) =~= recipients);
    } else {
        lemma_batch_prefix(recipients.drop_last(), k);
        assert(recipients.drop_last().take(k) =~= recipients.take(k));
    }
}

impl RetState {
    /// A transfer that is not refused leaves a valid state.
    pub proof fn lemma_transfer_valid(self, from: Principal, to: Principal, amount: u64)
        requires
            self.valid(),
            self.transfer_error(from, from, amount) is None,
        ensures
            self.after_transfer(from, to, amount).valid(),
            book_total(self.after_transfer(from, to, amount).book) == book_total(self.book),
    {
        lemma_debit(self.book, from, amount);
        lemma_credit(debit(self.book, from, amount), to, amount);
    }

    /// A stake that is not refused leaves a valid state.
    pub proof fn lemma_stake_valid(self, caller: Principal, amount: u64, duration: u64, now: u64)
        requires
            self.valid(),
            self.stake_error(caller, amount, duration) is None,
        ensures
            self.after_stake(caller, amount, duration, now).valid(),
            book_total(self.after_stake(caller, amount, duration, now).book) == book_total(self.book),
            self.stats.total_staked + amount <= u64::MAX,
    {
        let i = index_of(self.book, caller);
        let after = self.after_stake(caller, amount, duration, now);
        lemma_part_of_total(self.book, i);
        lemma_totals_update(self.book, i, after.book[i]);
        lemma_totals_ordered(after.book);
        assert forall|a: int, b: int| 0 <= a < b < after.book.len() implies (#[trigger] after.book[a]).id != (
        #[trigger] after.book[b]).id by {
            assert(self.book[a].id != self.book[b].id);
        }
        assert forall|k: int| 0 <= k < after.book.len() implies stake_recorded(
            (#[trigger] after.book[k]).holder,
        ) by {
            assert(stake_recorded(self.book[k].holder));
        }
    }

    /// An unstake that is not refused leaves a valid state, in which the
    /// total has grown by the reward.
    pub proof fn lemma_unstake_valid(self, caller: Principal, now: u64)
        requires
            self.valid(),
            self.unstake_error(caller, now) is None,
        ensures
            self.after_unstake(caller).valid(),
            self.unstake_return(caller) <= u64::MAX,
            stake_reward(
                self.book[index_of(self.book, caller)].holder.staked_balance,
                self.book[index_of(self.book, caller)].holder.stake_duration.unwrap(),
            ) >= 0,
    {
        let i = index_of(self.book, caller);
        let h = self.book[i].holder;
        let after = self.after_unstake(caller);
        lemma_reward_nonnegative(h.staked_balance, h.stake_duration.unwrap());
        lemma_part_of_total(self.book, i);
        lemma_totals_update(self.book, i, after.book[i]);
        assert forall|a: int, b: int| 0 <= a < b < after.book.len() implies (#[trigger] after.book[a]).id != (
        #[trigger] after.book[b]).id by {
            assert(self.book[a].id != self.book[b].id);
        }
        assert forall|k: int| 0 <= k < after.book.len() implies stake_recorded(
            (#[trigger] after.book[k]).holder,
        ) by {
            assert(stake_recorded(self.book[k].holder));
        }
    }

    /// An airdrop that is not refused leaves a valid state.
    pub proof fn lemma_airdrop_valid(self, recipients: Seq<(Principal, u64)>)
        requires
            self.valid(),
            self.airdrop_error(recipients) is None,
        ensures
            self.after_airdrop(recipients).valid(),
    {
        lemma_batch_total_nonnegative(recipients);
        lemma_credit_all(self.book, recipients);
    }
}

/// A reward is not negative, and bounded by the stake and the longest
/// duration that `u64` holds.
pub proof fn lemma_reward_nonnegative(staked: u64, duration: u64)
    ensures
        0 <= stake_reward(staked, duration),
        0 <= stake_days(duration) <= 213503,
        stake_reward(staked, duration) <= staked * 58494,
{
    let d = stake_days(duration);
    assert(0 <= d <= 213503);
    assert(0 <= staked * STAKE_APR * d <= staked * 2135030) by (nonlinear_arith)
        requires
            0 <= d <= 213503,
            STAKE_APR == 10,
            0 <= staked,
    ;
    assert(staked * 2135030 <= (staked * 58494) * 36500) by (nonlinear_arith)
        requires
            0 <= staked,
    ;
}

/// One call of an operation that moves balances.
pub enum Call {
    Transfer { caller: Principal, from: Principal, to: Principal, amount: u64 },
    Stake { caller: Principal, amount: u64, duration: u64, now: u64 },
    Unstake { caller: Principal, now: u64 },
    Airdrop { recipients: Seq<(Principal, u64)> },
}

impl RetState {
    /// The state after one call: changed as the operation says where the call
    /// is accepted, and as it was where the call is refused.
    pub open spec fn step(self, call: Call) -> RetState {
        match call {
            Call::Transfer { caller, from, to, amount } => {
                if self.transfer_error(caller, from, amount) is None {
                    self.after_transfer(from, to, amount)
                } else {
                    self
                }
            },
            Call::Stake { caller, amount, duration, now } => {
                if self.stake_error(caller, amount, duration) is None {
                    self.after_stake(caller, amount, duration, now)
                } else {
                    self
                }
            },
            Call::Unstake { caller, now } => {
                if self.unstake_error(caller, now) is None {
                    self.after_unstake(caller)
                } else {
                    self
                }
            },
            Call::Airdrop { recipients } => {
                if self.airdrop_error(recipients) is None {
                    self.after_airdrop(recipients)
                } else {
                    self
                }
            },
        }
    }

    /// The state after a sequence of calls, first to last.
    pub open spec fn run(self, calls: Seq<Call>) -> RetState
        decreases calls.len(),
    {
        if calls.len() == 0 {
            self
        } else {
            self.run(calls.drop_last()).step(calls.last())
        }
    }

    /// Conservation: whatever sequence of transfers, stakes, unstakes and
    /// airdrops is made from a valid state, the balances and the stakes of
    /// all accounts together equal what was minted plus what was airdropped.
    pub proof fn conservation(self, calls: Seq<Call>)
        requires
            self.valid(),
        ensures
            self.run(calls).valid(),
            book_total(self.run(calls).book) == self.run(calls).minted + self.run(
                calls,
            ).stats.total_airdropped,
        decreases calls.len(),
    {
        if calls.len() > 0 {
            self.conservation(calls.drop_last());
            let before = self.run(calls.drop_last());
            match calls.last() {
                Call::Transfer { caller, from, to, amount } => {
                    if before.transfer_error(caller, from, amount) is None {
                        before.lemma_transfer_valid(from, to, amount);
                    }
                },
                Call::Stake { caller, amount, duration, now } => {
                    if before.stake_error(caller, amount, duration) is None {
                        before.lemma_stake_valid(caller, amount, duration, now);
                    }
                },
                Call::Unstake { caller, now } => {
                    if before.unstake_error(caller, now) is None {
                        before.lemma_unstake_valid(caller, now);
                    }
                },
                Call::Airdrop { recipients } => {
                    if before.airdrop_error(recipients) is None {
                        before.lemma_airdrop_valid(recipients);
                    }
                },
            }
        }
    }
}


/// An account and its holder, as the ledger stores them.
#[derive(Debug)]
pub struct HolderEntry {
    pub account: Principal,
    pub holder: TokenHolder,
}

/// The book that a list of stored entries stands for.
pub open spec fn book_of(holders: Seq<HolderEntry>) -> Book {
    Seq::new(holders.len(), |i: int| Entry { id: holders[i].account, holder: holders[i].holder@ })
}

/// What optional metadata holds, by its view.
pub open spec fn metadata_view(m: Option<TokenMetadata>) -> Option<TokenMetadataView> {
    match m {
        Some(m) => Some(m@),
        None => None,
    }
}

/// The ledger of the reward token: balances, stakes and the counters kept
/// over them.
pub struct RETToken {
    metadata: Option<TokenMetadata>,
    holders: Vec<HolderEntry>,
    stats: TokenStats,
    minted: u64,
}

impl View for RETToken {
    type V = RetState;

    closed spec fn view(&self) -> RetState {
        RetState {
            metadata: metadata_view(self.metadata),
            book: book_of(self.holders@),
            stats: self.stats,
            minted: self.minted,
        }
    }
}

impl RETToken {
    /// The ledger's invariant: no account has two entries, the totals agree
    /// with the counters, and every stake is recorded with its time.
    pub open spec fn wf(&self) -> bool {
        self@.valid()
    }

    /// A ledger without metadata, accounts or history.
    pub fn new() -> (r: Self)
        ensures
            r.wf(),
            r@.metadata is None,
            r@.book == Seq::<Entry>::empty(),
            r@.stats == (TokenStats {
                total_transactions: 0,
                unique_holders: 0,
                market_cap: 0,
                volume_24h: 0,
                total_staked: 0,
                total_airdropped: 0,
            }),
            r@.minted == 0,
    {
        let r = RETToken {
            metadata: None,
            holders: Vec::new(),
            stats: TokenStats {
                total_transactions: 0,
                unique_holders: 0,
                market_cap: 0,
                volume_24h: 0,
                total_staked: 0,
                total_airdropped: 0,
            },
            minted: 0,
        };
        assert(r@.book =~= Seq::<Entry>::empty());
        r
    }

    fn find(&self, who: &Principal) -> (r: Option<usize>)
        requires
            distinct(self@.book),
        ensures
            match r {
                Some(i) => i < self.holders.len() && has_account(self@.book, *who) && index_of(self@.book, *who)
                    == i,
                None => !has_account(self@.book, *who),
            },
    {
        let mut i: usize = 0;
        while i < self.holders.len()
            invariant
                i <= self.holders.len(),
                distinct(self@.book),
                forall|j: int| 0 <= j < i ==> (#[trigger] self@.book[j]).id != *who,
            decreases self.holders.len() - i,
        {
            if same_account(&self.holders[i].account, who) {
                proof {
                    lemma_index(self@.book, *who, i as int);
                }
                return Some(i);
            }
            i = i + 1;
        }
        None
    }

    /// Adds `amount` to the balance of `who`, whose entry is created where
    /// there was none.
    fn credit_balance(&mut self, who: Principal, amount: u64)
        requires
            distinct(old(self)@.book),
            book_total(old(self)@.book) + amount <= u64::MAX,
        ensures
            final(self)@ == (RetState { book: credit(old(self)@.book, who, amount), ..old(self)@ }),
    {
        match self.find(&who) {
            Some(i) => {
                proof {
                    lemma_part_of_total(self@.book, i as int);
                }
                let balance = self.holders[i].holder.balance;
                self.holders[i].holder.balance = balance + amount;
                assert(self@.book =~= credit(old(self)@.book, who, amount));
            },
            None => {
                self.holders.push(
                    HolderEntry {
                        account: who,
                        holder: TokenHolder {
                            balance: amount,
                            allowances: Vec::new(),
                            staked_balance: 0,
                            last_stake_time: None,
                            stake_duration: None,
                        },
                    },
                );
                assert(self@.book =~= credit(old(self)@.book, who, amount));
            },
        }
    }

    /// Attaches the token's metadata and credits the genesis mint to `owner`.
    ///
    /// Returns `false`, and changes nothing, where the ledger was initialised
    /// before or the mint would not fit beside what rewards have created.
    pub fn initialize(
        &mut self,
        owner: Principal,
        now: u64,
        website: Option<String>,
        social_links: Option<Vec<String>>,
    ) -> (r: bool)
        requires
            old(self).wf(),
        ensures
            final(self).wf(),
            r == (old(self)@.metadata is None && old(self)@.minted + GENESIS_MINT + AIRDROP_ALLOCATION
                <= u64::MAX),
            !r ==> final(self)@ == old(self)@,
            r ==> final(self)@ == (RetState {
                metadata: Some(
                    TokenMetadataView {
                        name: final(self)@.metadata.unwrap().name,
                        symbol: final(self)@.metadata.unwrap().symbol,
                        description: final(self)@.metadata.unwrap().description,
                        logo: None,
                        decimals: 8,
                        total_supply: INITIAL_SUPPLY,
                        circulating_supply: GENESIS_MINT,
                        owner: owner,
                        created_at: now,
                        website: website,
                        social_links: opt_view(social_links),
                    },
                ),
                book: credit(old(self)@.book, owner, GENESIS_MINT),
                minted: (old(self)@.minted + GENESIS_MINT) as u64,
                ..old(self)@
            }),
            r ==> final(self)@.metadata.unwrap().name@ == "Real Estate Token"@,
            r ==> final(self)@.metadata.unwrap().symbol@ == "RET"@,
            r ==> final(self)@.metadata.unwrap().description == Some(
                final(self)@.metadata.unwrap().description.unwrap(),
            ),
            r ==> final(self)@.metadata.unwrap().description.unwrap()@
                == "Governance token for Real Estate Investment Platform"@,
    {
        if self.metadata.is_some() {
            return false;
        }
        if self.minted > u64::MAX - GENESIS_MINT - AIRDROP_ALLOCATION {
            return false;
        }
        proof {
            lemma_credit(self@.book, owner, GENESIS_MINT);
        }
        self.metadata = Some(
            TokenMetadata {
                name: "Real Estate Token".to_owned(),
                symbol: "RET".to_owned(),
                description: Some("Governance token for Real Estate Investment Platform".to_owned()),
                logo: None,
                decimals: 8,
                total_supply: INITIAL_SUPPLY,
                circulating_supply: GENESIS_MINT,
                owner,
                created_at: now,
                website,
                social_links,
            },
        );
        self.credit_balance(owner, GENESIS_MINT);
        self.minted = self.minted + GENESIS_MINT;
        true
    }

    /// Moves `args.amount` from `args.from` to `args.to`.
    pub fn transfer(&mut self, caller: Principal, args: TransferArgs) -> (r: Result<bool, LedgerError>)
        requires
            old(self).wf(),
        ensures
            final(self).wf(),
            match old(self)@.transfer_error(caller, args.from, args.amount) {
                Some(e) => r == Err::<bool, LedgerError>(e) && final(self)@ == old(self)@,
                None => r == Ok::<bool, LedgerError>(true) && final(self)@ == old(self)@.after_transfer(
                    args.from,
                    args.to,
                    args.amount,
                ),
            },
            final(self)@ == old(self)@.step(
                Call::Transfer { caller, from: args.from, to: args.to, amount: args.amount },
            ),
    {
        if !same_account(&args.from, &caller) {
            return Err(LedgerError::Unauthorized);
        }
        let i = match self.find(&args.from) {
            Some(i) => i,
            None => {
                return Err(LedgerError::SenderNotFound);
            },
        };
        if self.holders[i].holder.balance < args.amount {
            return Err(LedgerError::InsufficientBalance);
        }
        proof {
            old(self)@.lemma_transfer_valid(args.from, args.to, args.amount);
            lemma_debit(self@.book, args.from, args.amount);
        }
        let balance = self.holders[i].holder.balance;
        self.holders[i].holder.balance = balance - args.amount;
        assert(self@.book =~= debit(old(self)@.book, args.from, args.amount));
        self.credit_balance(args.to, args.amount);
        self.stats.total_transactions = add_saturating(self.stats.total_transactions, 1);
        self.stats.volume_24h = add_saturating(self.stats.volume_24h, args.amount);
        Ok(true)
    }

    /// Locks `amount` of the caller's balance for `duration` nanoseconds.
    pub fn stake(&mut self, caller: Principal, now: u64, amount: u64, duration: u64) -> (r: Result<
        bool,
        LedgerError,
    >)
        requires
            old(self).wf(),
        ensures
            final(self).wf(),
            match old(self)@.stake_error(caller, amount, duration) {
                Some(e) => r == Err::<bool, LedgerError>(e) && final(self)@ == old(self)@,
                None => r == Ok::<bool, LedgerError>(true) && final(self)@ == old(self)@.after_stake(
                    caller,
                    amount,
                    duration,
                    now,
                ),
            },
            final(self)@ == old(self)@.step(Call::Stake { caller, amount, duration, now }),
    {
        if duration < MIN_STAKE_DURATION {
            return Err(LedgerError::DurationTooShort);
        }
        let i = match self.find(&caller) {
            Some(i) => i,
            None => {
                return Err(LedgerError::HolderNotFound);
            },
        };
        if self.holders[i].holder.staked_balance > 0 {
            return Err(LedgerError::AlreadyStaked);
        }
        if self.holders[i].holder.balance < amount {
            return Err(LedgerError::InsufficientBalance);
        }
        proof {
            old(self)@.lemma_stake_valid(caller, amount, duration, now);
        }
        let balance = self.holders[i].holder.balance;
        self.holders[i].holder.balance = balance - amount;
        self.holders[i].holder.staked_balance = amount;
        self.holders[i].holder.last_stake_time = Some(now);
        self.holders[i].holder.stake_duration = Some(duration);
        self.stats.total_staked = self.stats.total_staked + amount;
        assert(self@.book =~= old(self)@.after_stake(caller, amount, duration, now).book);
        Ok(true)
    }

    /// Returns the caller's stake and its reward to the balance, once the
    /// lock has elapsed, and says how much that was.
    pub fn unstake(&mut self, caller: Principal, now: u64) -> (r: Result<u64, LedgerError>)
        requires
            old(self).wf(),
        ensures
            final(self).wf(),
            match old(self)@.unstake_error(caller, now) {
                Some(e) => r == Err::<u64, LedgerError>(e) && final(self)@ == old(self)@,
                None => r == Ok::<u64, LedgerError>(old(self)@.unstake_return(caller) as u64) && final(self)@
                    == old(self)@.after_unstake(caller),
            },
            final(self)@ == old(self)@.step(Call::Unstake { caller, now }),
    {
        let i = match self.find(&caller) {
            Some(i) => i,
            None => {
                return Err(LedgerError::HolderNotFound);
            },
        };
        let staked = self.holders[i].holder.staked_balance;
        if staked == 0 {
            return Err(LedgerError::NothingStaked);
        }
        assert(stake_recorded(self@.book[i as int].holder));
        let stake_time = match self.holders[i].holder.last_stake_time {
            Some(t) => t,
            None => {
                return Err(LedgerError::NothingStaked);
            },
        };
        let duration = match self.holders[i].holder.stake_duration {
            Some(d) => d,
            None => {
                return Err(LedgerError::NothingStaked);
            },
        };
        if (now as u128) < (stake_time as u128) + (duration as u128) {
            return Err(LedgerError::LockNotElapsed);
        }
        let days: u64 = duration / NANOS_PER_DAY;
        proof {
            lemma_reward_nonnegative(staked, duration);
            assert(staked * STAKE_APR * days <= u64::MAX * 2135030) by (nonlinear_arith)
                requires
                    0 <= staked <= u64::MAX,
                    STAKE_APR == 10,
                    0 <= days <= 213503,
            ;
            assert(0 <= staked * STAKE_APR) by (nonlinear_arith)
                requires
                    0 <= staked,
                    STAKE_APR == 10,
            ;
            assert(staked * STAKE_APR <= u64::MAX * 10) by (nonlinear_arith)
                requires
                    0 <= staked <= u64::MAX,
                    STAKE_APR == 10,
            ;
        }
        let product: u128 = (staked as u128) * (STAKE_APR as u128) * (days as u128);
        let reward_wide: u128 = product / 36500;
        assert(reward_wide == stake_reward(staked, duration));
        if reward_wide > ((u64::MAX - AIRDROP_ALLOCATION - self.minted) as u128) {
            return Err(LedgerError::SupplyOverflow);
        }
        let reward: u64 = reward_wide as u64;
        proof {
            old(self)@.lemma_unstake_valid(caller, now);
            lemma_part_of_total(self@.book, i as int);
        }
        let total_return: u64 = staked + reward;
        let balance = self.holders[i].holder.balance;
        self.holders[i].holder.balance = balance + total_return;
        self.holders[i].holder.staked_balance = 0;
        self.holders[i].holder.last_stake_time = None;
        self.holders[i].holder.stake_duration = None;
        self.stats.total_staked = self.stats.total_staked - staked;
        self.minted = self.minted + reward;
        assert(self@.book =~= old(self)@.after_unstake(caller).book);
        Ok(total_return)
    }

    /// Credits every recipient of the batch, or nobody where the batch does
    /// not fit in what is left of the airdrop allocation.
    pub fn airdrop(&mut self, recipients: Vec<(Principal, u64)>) -> (r: Result<bool, LedgerError>)
        requires
            old(self).wf(),
        ensures
            final(self).wf(),
            match old(self)@.airdrop_error(recipients@) {
                Some(e) => r == Err::<bool, LedgerError>(e) && final(self)@ == old(self)@,
                None => r == Ok::<bool, LedgerError>(true) && final(self)@ == old(self)@.after_airdrop(
                    recipients@,
                ),
            },
            final(self)@ == old(self)@.step(Call::Airdrop { recipients: recipients@ }),
    {
        let room: u64 = AIRDROP_ALLOCATION - self.stats.total_airdropped;
        let mut total: u64 = 0;
        let mut i: usize = 0;
        while i < recipients.len()
            invariant
                i <= recipients.len(),
                total == batch_total(recipients@.take(i as int)),
                total <= room,
                room == AIRDROP_ALLOCATION - old(self)@.stats.total_airdropped,
                self@ == old(self)@,
                self.wf(),
            decreases recipients.len() - i,
        {
            let amount = recipients[i].1;
            proof {
                assert(recipients@.take(i + 1).drop_last() =~= recipients@.take(i as int));
                lemma_batch_prefix(recipients@, i + 1);
            }
            if amount > room - total {
                return Err(LedgerError::AllocationExceeded);
            }
            total = total + amount;
            i = i + 1;
        }
        proof {
            assert(recipients@.take(recipients.len() as int) =~= recipients@);
            old(self)@.lemma_airdrop_valid(recipients@);
        }
        let mut k: usize = 0;
        while k < recipients.len()
            invariant
                k <= recipients.len(),
                total == batch_total(recipients@),
                self@ == (RetState { book: credit_all(old(self)@.book, recipients@.take(k as int)), ..old(self)@ }),
                old(self)@.valid(),
                old(self)@.stats.total_airdropped + total <= AIRDROP_ALLOCATION,
            decreases recipients.len() - k,
        {
            proof {
                assert(recipients@.take(k + 1).drop_last() =~= recipients@.take(k as int));
                lemma_batch_prefix(recipients@, k as int);
                lemma_batch_prefix(recipients@, k + 1);
                lemma_credit_all(old(self)@.book, recipients@.take(k as int));
            }
            self.credit_balance(recipients[k].0, recipients[k].1);
            k = k + 1;
        }
        assert(recipients@.take(recipients.len() as int) =~= recipients@);
        self.stats.total_airdropped = self.stats.total_airdropped + total;
        Ok(true)
    }

    /// The spendable balance of `owner`; zero for an account without an entry.
    pub fn balance_of(&self, owner: Principal) -> (r: u64)
        requires
            self.wf(),
        ensures
            r == balance_in(self@.book, owner),
    {
        match self.find(&owner) {
            Some(i) => self.holders[i].holder.balance,
            None => 0,
        }
    }

    /// The staked balance of `owner`; zero for an account without an entry.
    pub fn staked_balance_of(&self, owner: Principal) -> (r: u64)
        requires
            self.wf(),
        ensures
            r == staked_in(self@.book, owner),
    {
        match self.find(&owner) {
            Some(i) => self.holders[i].holder.staked_balance,
            None => 0,
        }
    }

    /// The token's metadata, once the ledger is initialised.
    pub fn get_metadata(&self) -> (r: Option<TokenMetadata>)
        ensures
            metadata_view(r) == self@.metadata,
    {
        match &self.metadata {
            Some(m) => Some(m.clone()),
            None => None,
        }
    }

    /// The counters kept over the ledger.
    pub fn get_stats(&self) -> (r: TokenStats)
        ensures
            r == self@.stats,
    {
        self.stats
    }
}

} // verus!
