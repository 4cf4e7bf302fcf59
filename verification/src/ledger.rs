//! Resource ledgers: balances, reservation, and conservation.
//!
//! A `Ledger` keeps one unsigned balance per 64-bit account, plus a
//! `reserved` amount held by the market itself (the refundable storage
//! deposits of live listings).  The ledger tracks the total amount ever
//! issued and maintains the conservation invariant
//! `sum of balances + reserved == issued`, with `issued` a `u64`.  That
//! bound is what makes every credit provably free of overflow: no single
//! balance can exceed the issued total.

use vstd::prelude::*;

use crate::table::{find_key, keys_unique, lemma_lookup_push, lemma_lookup_update, lookup};

verus! {

/// Sum of all stored balances, as an unbounded integer.
pub open spec fn total_of(s: Seq<(u64, u64)>) -> int
    decreases s.len(),
{
    if s.len() == 0 {
        0
    } else {
        s[0].1 + total_of(s.drop_first())
    }
}

/// The balance stored under `k`; absent accounts hold zero.
pub open spec fn balance_in(s: Seq<(u64, u64)>, k: u64) -> u64 {
    match lookup(s, k) {
        Some(v) => v,
        None => 0,
    }
}

/// The sum of balances is never negative.
pub proof fn lemma_total_nonneg(s: Seq<(u64, u64)>)
    ensures
        total_of(s) >= 0,
    decreases s.len(),
{
    if s.len() > 0 {
        lemma_total_nonneg(s.drop_first());
    }
}

/// No single balance exceeds the sum of all balances.
pub proof fn lemma_balance_le_total(s: Seq<(u64, u64)>, k: u64)
    ensures
        balance_in(s, k) <= total_of(s),
    decreases s.len(),
{
    if s.len() == 0 {
    } else if s[0].0 == k {
        lemma_total_nonneg(s.drop_first());
    } else {
        lemma_balance_le_total(s.drop_first(), k);
    }
}

/// Overwriting one entry shifts the sum by exactly the difference.
pub proof fn lemma_total_update(s: Seq<(u64, u64)>, i: int, v: u64)
    requires
        0 <= i < s.len(),
    ensures
        total_of(s.update(i, (s[i].0, v))) == total_of(s) - s[i].1 + v,
    decreases s.len(),
{
    let s2 = s.update(i, (s[i].0, v));
    if i == 0 {
        assert(s2.drop_first() =~= s.drop_first());
    } else {
        assert(s2.drop_first() =~= s.drop_first().update(i - 1, (s[i].0, v)));
        assert(s.drop_first()[i - 1] == s[i]);
        lemma_total_update(s.drop_first(), i - 1, v);
        assert(s2[0] == s[0]);
    }
}

/// Appending an entry adds exactly its balance to the sum.
pub proof fn lemma_total_push(s: Seq<(u64, u64)>, k: u64, v: u64)
    ensures
        total_of(s.push((k, v))) == total_of(s) + v,
    decreases s.len(),
{
    let s2 = s.push((k, v));
    assert(s2.len() > 0);
    assert(total_of(s2) == s2[0].1 + total_of(s2.drop_first()));
    if s.len() == 0 {
        assert(s2[0] == (k, v));
        assert(s2.drop_first().len() == 0);
        assert(total_of(s2.drop_first()) == 0);
    } else {
        assert(s2.drop_first() =~= s.drop_first().push((k, v)));
        lemma_total_push(s.drop_first(), k, v);
        assert(s2[0] == s[0]);
    }
}

/// A resource ledger with per-account balances, a reserved amount held by
/// the market itself, and a record of the total ever issued.
pub struct Ledger {
    entries: Vec<(u64, u64)>,
    reserved: u64,
    issued: u64,
}

impl Ledger {
    /// Conservation: keys are distinct and every issued unit is either in
    /// some account's balance or reserved by the market.
    pub closed spec fn wf(self) -> bool {
        &&& keys_unique(self.entries@)
        &&& total_of(self.entries@) + self.reserved == self.issued
    }

    /// The balance of account `k`.
    pub closed spec fn balance_of(self, k: u64) -> u64 {
        balance_in(self.entries@, k)
    }

    /// The amount the market itself holds in reserve.
    pub closed spec fn reserved_amt(self) -> u64 {
        self.reserved
    }

    /// The total amount ever issued into this ledger.
    pub closed spec fn issued_amt(self) -> u64 {
        self.issued
    }

    /// An empty ledger: nothing issued, nothing reserved, all balances zero.
    pub fn new() -> (ledger: Ledger)
        ensures
            ledger.wf(),
            forall|k: u64| ledger.balance_of(k) == 0,
            ledger.reserved_amt() == 0,
            ledger.issued_amt() == 0,
    {
        Ledger { entries: Vec::new(), reserved: 0, issued: 0 }
    }

    /// Read the balance of account `k`.
    pub fn balance(&self, k: u64) -> (r: u64)
        ensures
            r == self.balance_of(k),
    {
        match find_key(&self.entries, k) {
            Some(i) => self.entries[i].1,
            None => 0,
        }
    }

    /// Store balance `v` under `k`, adjusting nothing else.  The sum of
    /// balances moves by exactly `v - old balance`.
    fn write_balance(&mut self, k: u64, v: u64)
        requires
            keys_unique(old(self).entries@),
        ensures
            keys_unique(final(self).entries@),
            final(self).balance_of(k) == v,
            forall|q: u64| q != k ==> final(self).balance_of(q) == old(self).balance_of(q),
            total_of(final(self).entries@) == total_of(old(self).entries@)
                - old(self).balance_of(k) + v,
            final(self).reserved == old(self).reserved,
            final(self).issued == old(self).issued,
    {
        let ghost s = self.entries@;
        match find_key(&self.entries, k) {
            Some(i) => {
                self.entries[i] = (k, v);
                proof {
                    lemma_lookup_update(s, i as int, v);
                    lemma_total_update(s, i as int, v);
                }
            },
            None => {
                self.entries.push((k, v));
                proof {
                    lemma_lookup_push(s, k, v);
                    lemma_total_push(s, k, v);
                }
            },
        }
    }

    /// Issue `amount` new units into account `k`.  Succeeds exactly when the
    /// issued total stays within `u64`; on failure nothing changes.
    pub fn fund(&mut self, k: u64, amount: u64) -> (r: bool)
        requires
            old(self).wf(),
        ensures
            final(self).wf(),
            r <==> old(self).issued_amt() + amount <= u64::MAX,
            r ==> final(self).balance_of(k) == old(self).balance_of(k) + amount,
            r ==> final(self).issued_amt() == old(self).issued_amt() + amount,
            forall|q: u64| q != k ==> final(self).balance_of(q) == old(self).balance_of(q),
            final(self).reserved_amt() == old(self).reserved_amt(),
            !r ==> *final(self) == *old(self),
    {
        if amount > u64::MAX - self.issued {
            return false;
        }
        let old_bal = self.balance(k);
        proof {
            lemma_balance_le_total(self.entries@, k);
            lemma_total_nonneg(self.entries@);
        }
        self.write_balance(k, old_bal + amount);
        self.issued = self.issued + amount;
        true
    }

    /// Move `amount` from `from` to `to`.  Succeeds exactly when `from`
    /// holds at least `amount`; on failure nothing changes.  A transfer to
    /// oneself succeeds with no visible effect.
    pub fn transfer(&mut self, from: u64, to: u64, amount: u64) -> (r: bool)
        requires
            old(self).wf(),
        ensures
            final(self).wf(),
            r <==> old(self).balance_of(from) >= amount,
            r && from != to ==> final(self).balance_of(from)
                == old(self).balance_of(from) - amount,
            r && from != to ==> final(self).balance_of(to)
                == old(self).balance_of(to) + amount,
            r && from == to ==> forall|q: u64|
                final(self).balance_of(q) == old(self).balance_of(q),
            forall|q: u64| q != from && q != to
                ==> final(self).balance_of(q) == old(self).balance_of(q),
            final(self).reserved_amt() == old(self).reserved_amt(),
            final(self).issued_amt() == old(self).issued_amt(),
            !r ==> *final(self) == *old(self),
    {
        let from_bal = self.balance(from);
        if from_bal < amount {
            return false;
        }
        self.write_balance(from, from_bal - amount);
        let to_bal = self.balance(to);
        proof {
            lemma_balance_le_total(self.entries@, to);
            lemma_total_nonneg(self.entries@);
        }
        self.write_balance(to, to_bal + amount);
        true
    }

    /// Move `amount` from account `from` into the market's reserve.
    /// Succeeds exactly when `from` holds at least `amount`; on failure
    /// nothing changes.
    pub fn reserve(&mut self, from: u64, amount: u64) -> (r: bool)
        requires
            old(self).wf(),
        ensures
            final(self).wf(),
            r <==> old(self).balance_of(from) >= amount,
            r ==> final(self).balance_of(from) == old(self).balance_of(from) - amount,
            r ==> final(self).reserved_amt() == old(self).reserved_amt() + amount,
            forall|q: u64| q != from ==> final(self).balance_of(q) == old(self).balance_of(q),
            final(self).issued_amt() == old(self).issued_amt(),
            !r ==> *final(self) == *old(self),
    {
        let from_bal = self.balance(from);
        if from_bal < amount {
            return false;
        }
        proof {
            lemma_balance_le_total(self.entries@, from);
            lemma_total_nonneg(self.entries@);
        }
        self.write_balance(from, from_bal - amount);
        self.reserved = self.reserved + amount;
        true
    }

    /// Release `amount` of the market's reserve into account `to`.  The
    /// caller shows the reserve covers it, so release cannot fail.
    pub fn release(&mut self, to: u64, amount: u64)
        requires
            old(self).wf(),
            amount <= old(self).reserved_amt(),
        ensures
            final(self).wf(),
            final(self).balance_of(to) == old(self).balance_of(to) + amount,
            final(self).reserved_amt() == old(self).reserved_amt() - amount,
            forall|q: u64| q != to ==> final(self).balance_of(q) == old(self).balance_of(q),
            final(self).issued_amt() == old(self).issued_amt(),
    {
        let to_bal = self.balance(to);
        proof {
            lemma_balance_le_total(self.entries@, to);
            lemma_total_nonneg(self.entries@);
        }
        self.reserved = self.reserved - amount;
        self.write_balance(to, to_bal + amount);
    }
}

} // verus!
