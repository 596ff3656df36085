use crate::account::same_account;
use candid::Principal;
use vstd::prelude::*;

verus! {

/// What an account is given when it first pays.
pub const OPENING_BALANCE: u64 = 1_000_000;

/// `who` has an account.
pub open spec fn known(accounts: Seq<(Principal, u64)>, who: Principal) -> bool {
    exists|i: int| 0 <= i < accounts.len() && (#[trigger] accounts[i]).0 == who
}

/// Where the account of `who` stands.
pub open spec fn place_of(accounts: Seq<(Principal, u64)>, who: Principal) -> int {
    choose|i: int| 0 <= i < accounts.len() && (#[trigger] accounts[i]).0 == who
}

/// The balance of `who`; zero for an account that is not known.
pub open spec fn funds(accounts: Seq<(Principal, u64)>, who: Principal) -> u64 {
    if known(accounts, who) {
        accounts[place_of(accounts, who)].1
    } else {
        0
    }
}

/// No account stands twice.
pub open spec fn no_double(accounts: Seq<(Principal, u64)>) -> bool {
    forall|i: int, j: int| 0 <= i < j < accounts.len() ==> (#[trigger] accounts[i]).0 != (#[trigger] accounts[j]).0
}

/// The accounts with `balance` for `who`, which is added where it is not
/// known.
pub open spec fn with_funds(accounts: Seq<(Principal, u64)>, who: Principal, balance: u64) -> Seq<(Principal, u64)> {
    if known(accounts, who) {
        accounts.update(place_of(accounts, who), (who, balance))
    } else {
        accounts.push((who, balance))
    }
}

/// The accounts once `from` is known: it is added with the opening balance
/// where it was not.
pub open spec fn opened(accounts: Seq<(Principal, u64)>, from: Principal) -> Seq<(Principal, u64)> {
    if known(accounts, from) {
        accounts
    } else {
        accounts.push((from, OPENING_BALANCE))
    }
}

/// A transfer is made where the payer, once known, has the amount and the
/// payee's balance can take it.
pub open spec fn transfer_made(accounts: Seq<(Principal, u64)>, from: Principal, to: Principal, amount: u64) -> bool {
    let start = opened(accounts, from);
    funds(start, from) >= amount && funds(with_funds(start, from, (funds(start, from) - amount) as u64), to) + amount
        <= u64::MAX
}

/// The accounts after a transfer was asked for: the payer is known, and the
/// amount has moved where the transfer was made.
pub open spec fn after_transfer(accounts: Seq<(Principal, u64)>, from: Principal, to: Principal, amount: u64) -> Seq<
    (Principal, u64),
> {
    let start = opened(accounts, from);
    if transfer_made(accounts, from, to, amount) {
        let debited = with_funds(start, from, (funds(start, from) - amount) as u64);
        with_funds(debited, to, (funds(debited, to) + amount) as u64)
    } else {
        start
    }
}

proof fn lemma_place(accounts: Seq<(Principal, u64)>, who: Principal, i: int)
    requires
        no_double(accounts),
        0 <= i < accounts.len(),
        accounts[i].0 == who,
    ensures
        known(accounts, who),
        place_of(accounts, who) == i,
{
    let j = place_of(accounts, who);
    if j < i {
        assert(accounts[j].0 != accounts[i].0);
    } else if i < j {
        assert(accounts[i].0 != accounts[j].0);
    }
}

proof fn lemma_with_funds(accounts: Seq<(Principal, u64)>, who: Principal, balance: u64)
    requires
        no_double(accounts),
    ensures
        no_double(with_funds(accounts, who, balance)),
{
    let after = with_funds(accounts, who, balance);
    assert forall|i: int, j: int| 0 <= i < j < after.len() implies (#[trigger] after[i]).0 != (#[trigger] after[j]).0 by {
        if j < accounts.len() {
            assert(accounts[i].0 != accounts[j].0);
        } else {
            assert(accounts[i].0 != who);
        }
    }
}

/// A stand-in for a value-transfer service, with the two operations that
/// such a service offers.
pub struct MockLedger {
    accounts: Vec<(Principal, u64)>,
}

impl View for MockLedger {
    type V = Seq<(Principal, u64)>;

    closed spec fn view(&self) -> Seq<(Principal, u64)> {
        self.accounts@
    }
}

impl MockLedger {
    /// The ledger's invariant: no account stands twice.
    pub open spec fn wf(&self) -> bool {
        no_double(self@)
    }

    /// A ledger without accounts.
    pub fn new() -> (r: Self)
        ensures
            r.wf(),
            r@ == Seq::<(Principal, u64)>::empty(),
    {
        MockLedger { accounts: Vec::new() }
    }

    fn find(&self, who: &Principal) -> (r: Option<usize>)
        requires
            self.wf(),
        ensures
            match r {
                Some(i) => i < self.accounts.len() && known(self@, *who) && place_of(self@, *who) == i,
                None => !known(self@, *who),
            },
    {
        let mut i: usize = 0;
        while i < self.accounts.len()
            invariant
                i <= self.accounts.len(),
                self.wf(),
                forall|j: int| 0 <= j < i ==> (#[trigger] self@[j]).0 != *who,
            decreases self.accounts.len() - i,
        {
            if same_account(&self.accounts[i].0, who) {
                proof {
                    lemma_place(self@, *who, i as int);
                }
                return Some(i);
            }
            i = i + 1;
        }
        None
    }

    fn set_funds(&mut self, who: Principal, balance: u64)
        requires
            old(self).wf(),
        ensures
            final(self).wf(),
            final(self)@ == with_funds(old(self)@, who, balance),
    {
        proof {
            lemma_with_funds(self@, who, balance);
        }
        match self.find(&who) {
            Some(i) => {
                self.accounts[i] = (who, balance);
            },
            None => {
                self.accounts.push((who, balance));
            },
        }
    }

    /// Moves `amount` from `from` to `to`, and says whether it did. A payer
    /// that is not known is first given the opening balance.
    pub fn icrc1_transfer(&mut self, from: Principal, to: Principal, amount: u64) -> (r: bool)
        requires
            old(self).wf(),
        ensures
            final(self).wf(),
            r == transfer_made(old(self)@, from, to, amount),
            final(self)@ == after_transfer(old(self)@, from, to, amount),
    {
        let from_balance = match self.find(&from) {
            Some(i) => self.accounts[i].1,
            None => {
                self.set_funds(from, OPENING_BALANCE);
                proof {
                    lemma_place(self@, from, old(self)@.len() as int);
                }
                OPENING_BALANCE
            },
        };
        assert(self@ == opened(old(self)@, from));
        assert(from_balance == funds(self@, from));
        if from_balance < amount {
            return false;
        }
        let to_balance = if same_account(&from, &to) {
            from_balance - amount
        } else {
            match self.find(&to) {
                Some(i) => self.accounts[i].1,
                None => 0,
            }
        };
        let ghost start = self@;
        let ghost debited = with_funds(start, from, (from_balance - amount) as u64);
        proof {
            lemma_with_funds(start, from, (from_balance - amount) as u64);
            let k = place_of(start, from);
            assert(debited[k].0 == from);
            lemma_place(debited, from, k);
            if from != to {
                if known(start, to) {
                    let t = place_of(start, to);
                    assert(debited[t] == start[t]);
                    lemma_place(debited, to, t);
                } else {
                    if known(debited, to) {
                        let t = place_of(debited, to);
                        assert(start[t].0 == to);
                    }
                }
            }
            assert(to_balance == funds(debited, to));
        }
        if to_balance > u64::MAX - amount {
            return false;
        }
        self.set_funds(from, from_balance - amount);
        self.set_funds(to, to_balance + amount);
        true
    }

    /// The balance of `account`; zero for an account that is not known.
    pub fn icrc1_balance_of(&self, account: Principal) -> (r: u64)
        requires
            self.wf(),
        ensures
            r == funds(self@, account),
    {
        match self.find(&account) {
            Some(i) => self.accounts[i].1,
            None => 0,
        }
    }
}

} // verus!
