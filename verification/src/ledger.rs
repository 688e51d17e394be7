//! The balance ledger: a keyed table `(owner, symbol) -> amount`.
//!
//! Entries are created lazily on first credit and never removed; a zero
//! balance is an ordinary state. Besides the per-key contracts, every
//! mutation states what it does to the ledger-wide total of each symbol,
//! which is what the conservation law of the matching engine rests on.

use vstd::prelude::*;
use crate::types::{Identity, SwapError};

verus! {

/// One ledger entry: how much of one symbol one owner can spend.
#[derive(Debug)]
pub struct BalanceEntry {
    pub owner: Identity,
    pub symbol: String,
    pub amount: u64,
}

/// Does `e` carry the balance of `(owner, symbol)`?
pub open spec fn entry_matches(e: BalanceEntry, owner: Seq<u8>, symbol: Seq<char>) -> bool {
    e.owner@ == owner && e.symbol@ == symbol
}

/// What `e` contributes to the ledger-wide total of `symbol`.
pub open spec fn symbol_contrib(e: BalanceEntry, symbol: Seq<char>) -> int {
    if e.symbol@ == symbol {
        e.amount as int
    } else {
        0
    }
}

/// The spendable amount of `(owner, symbol)` recorded in `entries`;
/// 0 when no entry carries the pair.
pub open spec fn balance_in(entries: Seq<BalanceEntry>, owner: Seq<u8>, symbol: Seq<char>) -> u64
    decreases entries.len(),
{
    if entries.len() == 0 {
        0u64
    } else if entry_matches(entries.last(), owner, symbol) {
        entries.last().amount
    } else {
        balance_in(entries.drop_last(), owner, symbol)
    }
}

/// The total spendable amount of `symbol` over all owners.
pub open spec fn sum_in(entries: Seq<BalanceEntry>, symbol: Seq<char>) -> int
    decreases entries.len(),
{
    if entries.len() == 0 {
        0
    } else {
        sum_in(entries.drop_last(), symbol) + symbol_contrib(entries.last(), symbol)
    }
}

/// At most one entry per `(owner, symbol)` pair.
pub open spec fn unique_keys(entries: Seq<BalanceEntry>) -> bool {
    forall|i: int, j: int|
        0 <= i < j < entries.len() ==> !entry_matches(
            #[trigger] entries[i],
            #[trigger] entries[j].owner@,
            entries[j].symbol@,
        )
}

proof fn lemma_balance_found(entries: Seq<BalanceEntry>, owner: Seq<u8>, symbol: Seq<char>, i: int)
    requires
        unique_keys(entries),
        0 <= i < entries.len(),
        entry_matches(entries[i], owner, symbol),
    ensures
        balance_in(entries, owner, symbol) == entries[i].amount,
    decreases entries.len(),
{
    if i == entries.len() - 1 {
    } else {
        assert(!entry_matches(entries.last(), owner, symbol));
        assert(entries.drop_last()[i] == entries[i]);
        lemma_balance_found(entries.drop_last(), owner, symbol, i);
    }
}

proof fn lemma_balance_absent(entries: Seq<BalanceEntry>, owner: Seq<u8>, symbol: Seq<char>)
    requires
        forall|j: int| 0 <= j < entries.len() ==> !entry_matches(#[trigger] entries[j], owner, symbol),
    ensures
        balance_in(entries, owner, symbol) == 0,
    decreases entries.len(),
{
    if entries.len() > 0 {
        lemma_balance_absent(entries.drop_last(), owner, symbol);
    }
}

proof fn lemma_balance_update_other(
    entries: Seq<BalanceEntry>,
    i: int,
    e: BalanceEntry,
    owner: Seq<u8>,
    symbol: Seq<char>,
)
    requires
        0 <= i < entries.len(),
        e.owner@ == entries[i].owner@,
        e.symbol@ == entries[i].symbol@,
        !entry_matches(entries[i], owner, symbol),
    ensures
        balance_in(entries.update(i, e), owner, symbol) == balance_in(entries, owner, symbol),
    decreases entries.len(),
{
    let u = entries.update(i, e);
    if i == entries.len() - 1 {
        assert(!entry_matches(u.last(), owner, symbol));
        assert(u.drop_last() =~= entries.drop_last());
    } else {
        assert(u.last() == entries.last());
        if entry_matches(entries.last(), owner, symbol) {
        } else {
            assert(u.drop_last() =~= entries.drop_last().update(i, e));
            lemma_balance_update_other(entries.drop_last(), i, e, owner, symbol);
        }
    }
}

proof fn lemma_sum_update(entries: Seq<BalanceEntry>, i: int, e: BalanceEntry, symbol: Seq<char>)
    requires
        0 <= i < entries.len(),
    ensures
        sum_in(entries.update(i, e), symbol) == sum_in(entries, symbol) + symbol_contrib(e, symbol)
            - symbol_contrib(entries[i], symbol),
    decreases entries.len(),
{
    let u = entries.update(i, e);
    if i == entries.len() - 1 {
        assert(u.drop_last() =~= entries.drop_last());
    } else {
        assert(u.last() == entries.last());
        assert(u.drop_last() =~= entries.drop_last().update(i, e));
        lemma_sum_update(entries.drop_last(), i, e, symbol);
    }
}

proof fn lemma_sum_push(entries: Seq<BalanceEntry>, e: BalanceEntry, symbol: Seq<char>)
    ensures
        sum_in(entries.push(e), symbol) == sum_in(entries, symbol) + symbol_contrib(e, symbol),
{
    assert(entries.push(e).drop_last() =~= entries);
    assert(entries.push(e).last() == e);
}

proof fn lemma_balance_push_other(
    entries: Seq<BalanceEntry>,
    e: BalanceEntry,
    owner: Seq<u8>,
    symbol: Seq<char>,
)
    requires
        !entry_matches(e, owner, symbol),
    ensures
        balance_in(entries.push(e), owner, symbol) == balance_in(entries, owner, symbol),
{
    assert(entries.push(e).drop_last() =~= entries);
    assert(entries.push(e).last() == e);
}

/// The `(symbol, amount)` pairs that `entries` records for `owner`, in
/// entry order.
pub open spec fn user_pairs(entries: Seq<BalanceEntry>, owner: Seq<u8>) -> Seq<(Seq<char>, u64)>
    decreases entries.len(),
{
    if entries.len() == 0 {
        Seq::empty()
    } else if entries.last().owner@ == owner {
        user_pairs(entries.drop_last(), owner).push(
            (entries.last().symbol@, entries.last().amount),
        )
    } else {
        user_pairs(entries.drop_last(), owner)
    }
}

/// The ledger itself: a list of entries with pairwise distinct keys.
#[derive(Debug)]
pub struct BalanceLedger {
    pub entries: Vec<BalanceEntry>,
}

impl BalanceLedger {
    /// Internal invariant: one entry per `(owner, symbol)` pair.
    pub open spec fn wf(self) -> bool {
        unique_keys(self.entries@)
    }

    /// The spendable balance of `(owner, symbol)`; 0 for unknown pairs.
    pub open spec fn balance(self, owner: Seq<u8>, symbol: Seq<char>) -> u64 {
        balance_in(self.entries@, owner, symbol)
    }

    /// The total spendable amount of `symbol` over all owners.
    pub open spec fn total(self, symbol: Seq<char>) -> int {
        sum_in(self.entries@, symbol)
    }

    /// An empty ledger.
    pub fn new() -> (l: BalanceLedger)
        ensures
            l.wf(),
            l.entries@.len() == 0,
            forall|o: Seq<u8>, s: Seq<char>| #[trigger] l.balance(o, s) == 0,
            forall|s: Seq<char>| #[trigger] l.total(s) == 0,
    {
        BalanceLedger { entries: Vec::new() }
    }

    /// The index of the entry carrying `(user, asset_symbol)`, if any.
    fn find_entry(&self, user: &Identity, asset_symbol: &String) -> (r: Option<usize>)
        ensures
            match r {
                Some(i) => i < self.entries@.len() && entry_matches(
                    self.entries@[i as int],
                    user@,
                    asset_symbol@,
                ),
                None => forall|j: int|
                    0 <= j < self.entries@.len() ==> !entry_matches(
                        #[trigger] self.entries@[j],
                        user@,
                        asset_symbol@,
                    ),
            },
    {
        let n = self.entries.len();
        let mut i: usize = 0;
        while i < n
            invariant
                i <= n,
                n == self.entries@.len(),
                forall|j: int|
                    0 <= j < i ==> !entry_matches(#[trigger] self.entries@[j], user@, asset_symbol@),
            decreases n - i,
        {
            let e = &self.entries[i];
            if e.owner.same_as(user) && e.symbol == *asset_symbol {
                return Some(i);
            }
            i += 1;
        }
        None
    }

    /// The spendable balance of `(user, asset_symbol)`; 0 for unknown pairs.
    pub fn get_user_balance(&self, user: &Identity, asset_symbol: &String) -> (r: u64)
        requires
            self.wf(),
        ensures
            r == self.balance(user@, asset_symbol@),
    {
        match self.find_entry(user, asset_symbol) {
            Some(i) => {
                proof {
                    lemma_balance_found(self.entries@, user@, asset_symbol@, i as int);
                }
                self.entries[i].amount
            },
            None => {
                proof {
                    lemma_balance_absent(self.entries@, user@, asset_symbol@);
                }
                0
            },
        }
    }

    /// Set the balance of `(user, asset_symbol)` to `amount`, creating the
    /// entry when the pair is new. No other pair changes; the total of
    /// `asset_symbol` moves by exactly the difference.
    pub fn update_user_balance(&mut self, user: &Identity, asset_symbol: &String, amount: u64)
        requires
            old(self).wf(),
        ensures
            final(self).wf(),
            final(self).balance(user@, asset_symbol@) == amount,
            forall|o: Seq<u8>, s: Seq<char>|
                !(o == user@ && s == asset_symbol@) ==> #[trigger] final(self).balance(o, s)
                    == old(self).balance(o, s),
            final(self).total(asset_symbol@) == old(self).total(asset_symbol@) + amount
                - old(self).balance(user@, asset_symbol@),
            forall|s: Seq<char>|
                s != asset_symbol@ ==> #[trigger] final(self).total(s) == old(self).total(s),
    {
        let ghost entries0 = self.entries@;
        match self.find_entry(user, asset_symbol) {
            Some(i) => {
                let e = BalanceEntry {
                    owner: self.entries[i].owner.clone(),
                    symbol: self.entries[i].symbol.clone(),
                    amount,
                };
                proof {
                    lemma_balance_found(entries0, user@, asset_symbol@, i as int);
                }
                self.entries[i] = e;
                proof {
                    let entries1 = self.entries@;
                    assert(entries1 == entries0.update(i as int, e));
                    lemma_balance_found(entries1, user@, asset_symbol@, i as int);
                    lemma_sum_update(entries0, i as int, e, asset_symbol@);
                    assert forall|s: Seq<char>| s != asset_symbol@ implies #[trigger] sum_in(
                        entries1,
                        s,
                    ) == sum_in(entries0, s) by {
                        lemma_sum_update(entries0, i as int, e, s);
                    }
                    assert forall|o: Seq<u8>, s: Seq<char>|
                        !(o == user@ && s == asset_symbol@) implies #[trigger] balance_in(
                        entries1,
                        o,
                        s,
                    ) == balance_in(entries0, o, s) by {
                        lemma_balance_update_other(entries0, i as int, e, o, s);
                    }
                    assert forall|k: int, l: int| 0 <= k < l < entries1.len() implies !entry_matches(
                        entries1[k],
                        entries1[l].owner@,
                        entries1[l].symbol@,
                    ) by {
                        assert(entries1[k].owner@ == entries0[k].owner@);
                        assert(entries1[k].symbol@ == entries0[k].symbol@);
                        assert(entries1[l].owner@ == entries0[l].owner@);
                        assert(entries1[l].symbol@ == entries0[l].symbol@);
                        assert(!entry_matches(entries0[k], entries0[l].owner@, entries0[l].symbol@));
                    }
                }
            },
            None => {
                let e = BalanceEntry { owner: user.clone(), symbol: asset_symbol.clone(), amount };
                proof {
                    lemma_balance_absent(entries0, user@, asset_symbol@);
                }
                self.entries.push(e);
                proof {
                    let entries1 = self.entries@;
                    assert(entries1 == entries0.push(e));
                    assert(entries1.drop_last() =~= entries0);
                    assert(entries1.last() == e);
                    assert(balance_in(entries1, user@, asset_symbol@) == amount);
                    lemma_sum_push(entries0, e, asset_symbol@);
                    assert forall|s: Seq<char>| s != asset_symbol@ implies #[trigger] sum_in(
                        entries1,
                        s,
                    ) == sum_in(entries0, s) by {
                        lemma_sum_push(entries0, e, s);
                    }
                    assert forall|o: Seq<u8>, s: Seq<char>|
                        !(o == user@ && s == asset_symbol@) implies #[trigger] balance_in(
                        entries1,
                        o,
                        s,
                    ) == balance_in(entries0, o, s) by {
                        lemma_balance_push_other(entries0, e, o, s);
                    }
                    assert forall|k: int, l: int| 0 <= k < l < entries1.len() implies !entry_matches(
                        entries1[k],
                        entries1[l].owner@,
                        entries1[l].symbol@,
                    ) by {
                        if l == entries1.len() - 1 {
                            assert(entries1[l] == e);
                            assert(entries1[k] == entries0[k]);
                            assert(!entry_matches(entries0[k], user@, asset_symbol@));
                        } else {
                            assert(entries1[k] == entries0[k]);
                            assert(entries1[l] == entries0[l]);
                        }
                    }
                }
            },
        }
    }

    /// Every `(symbol, amount)` pair held for `user`, in entry order.
    pub fn get_all_user_balances(&self, user: &Identity) -> (r: Vec<(String, u64)>)
        ensures
            r@.map_values(|p: (String, u64)| (p.0@, p.1)) == user_pairs(self.entries@, user@),
    {
        let n = self.entries.len();
        let mut out: Vec<(String, u64)> = Vec::new();
        let mut i: usize = 0;
        while i < n
            invariant
                i <= n,
                n == self.entries@.len(),
                out@.map_values(|p: (String, u64)| (p.0@, p.1)) == user_pairs(
                    self.entries@.take(i as int),
                    user@,
                ),
            decreases n - i,
        {
            let ghost prefix0 = self.entries@.take(i as int);
            let ghost prefix1 = self.entries@.take(i as int + 1);
            proof {
                assert(prefix1.drop_last() =~= prefix0);
                assert(prefix1.last() == self.entries@[i as int]);
            }
            let e = &self.entries[i];
            if e.owner.same_as(user) {
                let ghost out0 = out@;
                out.push((e.symbol.clone(), e.amount));
                proof {
                    assert(out@.map_values(|p: (String, u64)| (p.0@, p.1)) =~= out0.map_values(
                        |p: (String, u64)| (p.0@, p.1),
                    ).push((self.entries@[i as int].symbol@, self.entries@[i as int].amount)));
                }
            }
            i += 1;
        }
        proof {
            assert(self.entries@.take(n as int) =~= self.entries@);
        }
        out
    }

    /// Atomically increase the balance of `(user, asset_symbol)` by `amount`.
    /// Succeeds exactly when the new balance fits in the amount type; on
    /// failure nothing changes.
    pub fn credit(&mut self, user: &Identity, asset_symbol: &String, amount: u64) -> (r: Result<
        (),
        SwapError,
    >)
        requires
            old(self).wf(),
        ensures
            final(self).wf(),
            r is Ok <==> old(self).balance(user@, asset_symbol@) + amount <= u64::MAX,
            r is Err ==> r == Err::<(), SwapError>(SwapError::Overflow) && *final(self) == *old(
                self,
            ),
            r is Ok ==> final(self).balance(user@, asset_symbol@) == old(self).balance(
                user@,
                asset_symbol@,
            ) + amount,
            r is Ok ==> forall|o: Seq<u8>, s: Seq<char>|
                !(o == user@ && s == asset_symbol@) ==> #[trigger] final(self).balance(o, s)
                    == old(self).balance(o, s),
            r is Ok ==> final(self).total(asset_symbol@) == old(self).total(asset_symbol@)
                + amount,
            r is Ok ==> forall|s: Seq<char>|
                s != asset_symbol@ ==> #[trigger] final(self).total(s) == old(self).total(s),
    {
        let current = self.get_user_balance(user, asset_symbol);
        match current.checked_add(amount) {
            Some(new_balance) => {
                self.update_user_balance(user, asset_symbol, new_balance);
                Ok(())
            },
            None => Err(SwapError::Overflow),
        }
    }

    /// Atomically decrease the balance of `(user, asset_symbol)` by `amount`.
    /// Succeeds exactly when the current balance covers `amount`; on failure
    /// nothing changes, so a balance can never go below zero.
    pub fn debit(&mut self, user: &Identity, asset_symbol: &String, amount: u64) -> (r: Result<
        (),
        SwapError,
    >)
        requires
            old(self).wf(),
        ensures
            final(self).wf(),
            r is Ok <==> old(self).balance(user@, asset_symbol@) >= amount,
            r is Err ==> r == Err::<(), SwapError>(SwapError::InsufficientFunds) && *final(self)
                == *old(self),
            r is Ok ==> final(self).balance(user@, asset_symbol@) == old(self).balance(
                user@,
                asset_symbol@,
            ) - amount,
            r is Ok ==> forall|o: Seq<u8>, s: Seq<char>|
                !(o == user@ && s == asset_symbol@) ==> #[trigger] final(self).balance(o, s)
                    == old(self).balance(o, s),
            r is Ok ==> final(self).total(asset_symbol@) == old(self).total(asset_symbol@)
                - amount,
            r is Ok ==> forall|s: Seq<char>|
                s != asset_symbol@ ==> #[trigger] final(self).total(s) == old(self).total(s),
    {
        let current = self.get_user_balance(user, asset_symbol);
        if current < amount {
            Err(SwapError::InsufficientFunds)
        } else {
            self.update_user_balance(user, asset_symbol, current - amount);
            Ok(())
        }
    }
}

} // verus!
