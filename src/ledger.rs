use vstd::prelude::*;
use crate::error::VaultError;
use crate::principal::Principal;

verus! {

/// The principals of a list of accounts, in order.
pub open spec fn owners_of(accounts: Seq<(Seq<char>, int)>) -> Seq<Seq<char>> {
    accounts.map_values(|a: (Seq<char>, int)| a.0)
}

/// A list of (principal, amount) pairs as (address, amount) values.
pub open spec fn holdings(entries: Seq<(Principal, i128)>) -> Seq<(Seq<char>, int)> {
    entries.map_values(|e: (Principal, i128)| (e.0@, e.1 as int))
}

/// The shares held over a list of accounts.
pub open spec fn sum_of(accounts: Seq<(Seq<char>, int)>) -> int
    decreases accounts.len(),
{
    if accounts.len() == 0 {
        0
    } else {
        sum_of(accounts.drop_last()) + accounts.last().1
    }
}

/// The shares that `who` holds in a list of accounts; zero for a principal without one.
pub open spec fn balance_in(accounts: Seq<(Seq<char>, int)>, who: Seq<char>) -> int
    decreases accounts.len(),
{
    if accounts.len() == 0 {
        0
    } else if accounts.last().0 == who {
        accounts.last().1
    } else {
        balance_in(accounts.drop_last(), who)
    }
}

/// Accounts with distinct owners and no negative balance.
pub open spec fn accounts_wf(accounts: Seq<(Seq<char>, int)>) -> bool {
    &&& owners_of(accounts).no_duplicates()
    &&& forall|i: int| 0 <= i < accounts.len() ==> #[trigger] accounts[i].1 >= 0
}

proof fn lemma_drop_last_wf(accounts: Seq<(Seq<char>, int)>)
    requires
        accounts_wf(accounts),
        accounts.len() > 0,
    ensures
        accounts_wf(accounts.drop_last()),
        owners_of(accounts.drop_last()) == owners_of(accounts).drop_last(),
        !owners_of(accounts.drop_last()).contains(accounts.last().0),
{
    let d = accounts.drop_last();
    assert(owners_of(d) =~= owners_of(accounts).drop_last());
    assert forall|i: int| 0 <= i < d.len() implies #[trigger] d[i].1 >= 0 by {
        assert(d[i] == accounts[i]);
    }
    let o = owners_of(accounts);
    if owners_of(d).contains(accounts.last().0) {
        let k = choose|k: int| 0 <= k < owners_of(d).len() && owners_of(d)[k] == accounts.last().0;
        assert(o[k] == o[o.len() - 1]);
    }
}

/// A balance is never negative and never above the sum of all balances.
pub proof fn lemma_balance_bounded(accounts: Seq<(Seq<char>, int)>, who: Seq<char>)
    requires
        accounts_wf(accounts),
    ensures
        0 <= balance_in(accounts, who) <= sum_of(accounts),
        sum_of(accounts) >= 0,
    decreases accounts.len(),
{
    if accounts.len() > 0 {
        lemma_drop_last_wf(accounts);
        lemma_balance_bounded(accounts.drop_last(), who);
        assert(accounts[accounts.len() - 1].1 >= 0);
    }
}

/// A principal without an account holds nothing.
pub proof fn lemma_balance_absent(accounts: Seq<(Seq<char>, int)>, who: Seq<char>)
    requires
        !owners_of(accounts).contains(who),
    ensures
        balance_in(accounts, who) == 0,
    decreases accounts.len(),
{
    if accounts.len() > 0 {
        assert(owners_of(accounts)[accounts.len() - 1] == accounts.last().0);
        assert(!owners_of(accounts.drop_last()).contains(who)) by {
            if owners_of(accounts.drop_last()).contains(who) {
                let k = choose|k: int|
                    0 <= k < owners_of(accounts.drop_last()).len() && owners_of(
                        accounts.drop_last(),
                    )[k] == who;
                assert(owners_of(accounts)[k] == who);
            }
        }
        lemma_balance_absent(accounts.drop_last(), who);
    }
}

/// The balance of an account's owner is that account's shares.
pub proof fn lemma_balance_at(accounts: Seq<(Seq<char>, int)>, i: int)
    requires
        accounts_wf(accounts),
        0 <= i < accounts.len(),
    ensures
        balance_in(accounts, accounts[i].0) == accounts[i].1,
    decreases accounts.len(),
{
    if i < accounts.len() - 1 {
        lemma_drop_last_wf(accounts);
        assert(owners_of(accounts)[i] == accounts[i].0);
        assert(owners_of(accounts)[accounts.len() - 1] == accounts.last().0);
        assert(accounts.drop_last()[i] == accounts[i]);
        lemma_balance_at(accounts.drop_last(), i);
    }
}

/// Setting the shares of one account changes that owner's balance and the sum by the same
/// amount, and nothing else.
pub proof fn lemma_set_shares(accounts: Seq<(Seq<char>, int)>, i: int, v: int)
    requires
        accounts_wf(accounts),
        0 <= i < accounts.len(),
    ensures
        ({
            let after = accounts.update(i, (accounts[i].0, v));
            &&& sum_of(after) == sum_of(accounts) - accounts[i].1 + v
            &&& owners_of(after) == owners_of(accounts)
            &&& forall|who: Seq<char>|
                #![trigger balance_in(after, who)]
                balance_in(after, who) == (if who == accounts[i].0 {
                    v
                } else {
                    balance_in(accounts, who)
                })
        }),
    decreases accounts.len(),
{
    let after = accounts.update(i, (accounts[i].0, v));
    assert(owners_of(after) =~= owners_of(accounts));
    lemma_drop_last_wf(accounts);
    if i == accounts.len() - 1 {
        assert(after.drop_last() =~= accounts.drop_last());
        assert forall|who: Seq<char>| #[trigger]
            balance_in(after, who) == (if who == accounts[i].0 {
                v
            } else {
                balance_in(accounts, who)
            }) by {}
    } else {
        let d = accounts.drop_last();
        assert(after.drop_last() =~= d.update(i, (d[i].0, v)));
        lemma_set_shares(d, i, v);
        assert(owners_of(accounts)[i] == accounts[i].0);
        assert(owners_of(accounts)[accounts.len() - 1] == accounts.last().0);
        assert(after.last() == accounts.last());
        assert forall|who: Seq<char>| #[trigger]
            balance_in(after, who) == (if who == accounts[i].0 {
                v
            } else {
                balance_in(accounts, who)
            }) by {
            if who == accounts.last().0 {
                assert(owners_of(accounts)[i] != owners_of(accounts)[accounts.len() - 1]);
            } else {
                assert(balance_in(after, who) == balance_in(after.drop_last(), who));
                assert(balance_in(accounts, who) == balance_in(d, who));
                assert(d[i] == accounts[i]);
            }
        }
    }
}

/// Appending an account for a new owner adds its shares to the sum and gives the owner that
/// balance.
pub proof fn lemma_push_account(accounts: Seq<(Seq<char>, int)>, who: Seq<char>, v: int)
    requires
        !owners_of(accounts).contains(who),
    ensures
        ({
            let after = accounts.push((who, v));
            &&& sum_of(after) == sum_of(accounts) + v
            &&& owners_of(after) == owners_of(accounts).push(who)
            &&& forall|p: Seq<char>|
                #![trigger balance_in(after, p)]
                balance_in(after, p) == (if p == who {
                    v
                } else {
                    balance_in(accounts, p)
                })
        }),
{
    let after = accounts.push((who, v));
    assert(after.drop_last() =~= accounts);
    assert(owners_of(after) =~= owners_of(accounts).push(who));
    lemma_balance_absent(accounts, who);
}

/// With no negative balance, a prefix never holds more than the whole.
pub proof fn lemma_prefix_sum_bounded(accounts: Seq<(Seq<char>, int)>, k: int)
    requires
        accounts_wf(accounts),
        0 <= k <= accounts.len(),
    ensures
        0 <= sum_of(accounts.take(k)) <= sum_of(accounts),
    decreases accounts.len(),
{
    if k < accounts.len() {
        lemma_drop_last_wf(accounts);
        assert(accounts.drop_last().take(k) =~= accounts.take(k));
        lemma_prefix_sum_bounded(accounts.drop_last(), k);
        assert(accounts[accounts.len() - 1].1 >= 0);
    } else {
        assert(accounts.take(k) =~= accounts);
        lemma_balance_bounded(accounts, Seq::empty());
    }
}

struct Account {
    owner: Principal,
    shares: i128,
}

/// The vault's share token: a total supply and one account per principal ever credited,
/// changed only by minting and burning.
pub struct ShareLedger {
    total_supply: i128,
    accounts: Vec<Account>,
}

impl View for ShareLedger {
    type V = Seq<(Seq<char>, int)>;

    /// The accounts as (owner, shares), in the order in which they were opened.
    closed spec fn view(&self) -> Seq<(Seq<char>, int)> {
        self.accounts@.map_values(|a: Account| (a.owner@, a.shares as int))
    }
}

impl ShareLedger {
    pub closed spec fn supply(&self) -> int {
        self.total_supply as int
    }

    pub open spec fn balance_of(&self, who: Seq<char>) -> int {
        balance_in(self@, who)
    }

    pub open spec fn owners(&self) -> Seq<Seq<char>> {
        owners_of(self@)
    }

    /// Distinct owners, no negative balance, and a supply that is the sum of the balances
    /// and fits in an `i128`.
    pub open spec fn wf(&self) -> bool {
        &&& accounts_wf(self@)
        &&& self.supply() == sum_of(self@)
        &&& self.supply() <= i128::MAX
    }

    pub fn new() -> (r: ShareLedger)
        ensures
            r.wf(),
            r@ == Seq::<(Seq<char>, int)>::empty(),
            r.supply() == 0,
    {
        let r = ShareLedger { total_supply: 0, accounts: Vec::new() };
        assert(r@ =~= Seq::<(Seq<char>, int)>::empty());
        r
    }

    pub fn total_supply(&self) -> (r: i128)
        ensures
            r == self.supply(),
    {
        self.total_supply
    }

    fn find(&self, who: &Principal) -> (r: Option<usize>)
        ensures
            match r {
                Some(i) => i < self@.len() && self@[i as int].0 == who@,
                None => !self.owners().contains(who@),
            },
    {
        let mut i: usize = 0;
        while i < self.accounts.len()
            invariant
                i <= self.accounts@.len(),
                self@.len() == self.accounts@.len(),
                forall|j: int| 0 <= j < i ==> self@[j].0 != who@,
            decreases self.accounts@.len() - i,
        {
            if self.accounts[i].owner == *who {
                return Some(i);
            }
            i = i + 1;
        }
        proof {
            if self.owners().contains(who@) {
                let k = choose|k: int| 0 <= k < self.owners().len() && self.owners()[k] == who@;
                assert(self@[k].0 == who@);
            }
        }
        None
    }

    /// The shares that `who` holds; zero for a principal never credited.
    pub fn balance(&self, who: &Principal) -> (r: i128)
        requires
            self.wf(),
        ensures
            r == self.balance_of(who@),
    {
        match self.find(who) {
            Some(i) => {
                proof {
                    lemma_balance_at(self@, i as int);
                }
                self.accounts[i].shares
            },
            None => {
                proof {
                    lemma_balance_absent(self@, who@);
                }
                0
            },
        }
    }

    /// The accounts as (owner, shares), in the order in which they were opened.
    pub fn accounts(&self) -> (r: Vec<(Principal, i128)>)
        ensures
            holdings(r@) == self@,
    {
        let mut out: Vec<(Principal, i128)> = Vec::new();
        let mut i: usize = 0;
        while i < self.accounts.len()
            invariant
                i <= self.accounts@.len(),
                self@.len() == self.accounts@.len(),
                holdings(out@) == self@.take(i as int),
            decreases self.accounts@.len() - i,
        {
            let ghost before = out@;
            out.push((self.accounts[i].owner.clone(), self.accounts[i].shares));
            assert(holdings(out@) =~= holdings(before).push(self@[i as int]));
            assert(self@.take(i + 1) =~= self@.take(i as int).push(self@[i as int]));
            i = i + 1;
        }
        assert(self@.take(self@.len() as int) =~= self@);
        out
    }

    /// Credits `amount` new shares to `to`, opening its account on its first credit.
    pub fn mint(&mut self, to: &Principal, amount: i128) -> (r: Result<(), VaultError>)
        requires
            old(self).wf(),
            amount >= 0,
        ensures
            final(self).wf(),
            r is Err <==> old(self).supply() + amount > i128::MAX,
            r is Err ==> r == Err::<(), VaultError>(VaultError::MathOverflow) && *final(self)
                == *old(self),
            r is Ok ==> {
                &&& final(self).supply() == old(self).supply() + amount
                &&& forall|who: Seq<char>| #[trigger]
                    final(self).balance_of(who) == old(self).balance_of(who) + (if who == to@ {
                        amount as int
                    } else {
                        0
                    })
                &&& final(self).owners() == (if old(self).owners().contains(to@) {
                    old(self).owners()
                } else {
                    old(self).owners().push(to@)
                })
            },
    {
        let supply = match self.total_supply.checked_add(amount) {
            Some(s) => s,
            None => {
                return Err(VaultError::MathOverflow);
            },
        };
        proof {
            lemma_balance_bounded(self@, to@);
        }
        match self.find(to) {
            Some(i) => {
                proof {
                    lemma_balance_at(self@, i as int);
                    lemma_set_shares(self@, i as int, self@[i as int].1 + amount);
                }
                let owner = self.accounts[i].owner.clone();
                let shares = self.accounts[i].shares + amount;
                self.accounts.set(i, Account { owner, shares });
                self.total_supply = supply;
                assert(self@ =~= old(self)@.update(i as int, (old(self)@[i as int].0, shares as int)));
                assert(old(self).owners()[i as int] == to@);
            },
            None => {
                proof {
                    lemma_push_account(self@, to@, amount as int);
                    lemma_balance_absent(self@, to@);
                }
                self.accounts.push(Account { owner: to.clone(), shares: amount });
                self.total_supply = supply;
                assert(self@ =~= old(self)@.push((to@, amount as int)));
                assert(owners_of(old(self)@).push(to@).no_duplicates());
            },
        }
        Ok(())
    }

    /// Removes `amount` shares from `from`, refused when it holds fewer.
    pub fn burn(&mut self, from: &Principal, amount: i128) -> (r: Result<(), VaultError>)
        requires
            old(self).wf(),
            amount >= 0,
        ensures
            final(self).wf(),
            old(self).balance_of(from@) < amount ==> r == Err::<(), VaultError>(
                VaultError::InsufficientShares {
                    available: old(self).balance_of(from@) as i128,
                    required: amount,
                },
            ) && *final(self) == *old(self),
            old(self).balance_of(from@) >= amount ==> {
                &&& r is Ok
                &&& final(self).supply() == old(self).supply() - amount
                &&& forall|who: Seq<char>| #[trigger]
                    final(self).balance_of(who) == old(self).balance_of(who) - (if who
                        == from@ {
                        amount as int
                    } else {
                        0
                    })
                &&& final(self).owners() == old(self).owners()
            },
    {
        proof {
            lemma_balance_bounded(self@, from@);
        }
        let available = self.balance(from);
        if available < amount {
            return Err(VaultError::InsufficientShares { available, required: amount });
        }
        if amount == 0 {
            return Ok(());
        }
        match self.find(from) {
            Some(i) => {
                proof {
                    lemma_balance_at(self@, i as int);
                    lemma_set_shares(self@, i as int, self@[i as int].1 - amount);
                }
                let owner = self.accounts[i].owner.clone();
                let shares = self.accounts[i].shares - amount;
                self.accounts.set(i, Account { owner, shares });
                self.total_supply = self.total_supply - amount;
                assert(self@ =~= old(self)@.update(i as int, (old(self)@[i as int].0, shares as int)));
            },
            None => {
                proof {
                    lemma_balance_absent(self@, from@);
                }
            },
        }
        Ok(())
    }
}

} // verus!
