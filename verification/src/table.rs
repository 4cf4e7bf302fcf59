//! Association tables keyed by 64-bit identifiers.
//!
//! The market stores its listings, vaults, holdings and ledger entries as
//! vectors of key/value pairs with pairwise-distinct keys.  This module
//! gives the lookup function those tables are specified with, the executable
//! key search, and the lemmas that relate lookup to push, update and remove.

use vstd::prelude::*;

verus! {

/// All keys of the table are pairwise distinct.
pub open spec fn keys_unique<V>(s: Seq<(u64, V)>) -> bool {
    forall|i: int, j: int| 0 <= i < j < s.len() ==> (#[trigger] s[i]).0 != (#[trigger] s[j]).0
}

/// Some entry of the table carries key `k`.
pub open spec fn has_key<V>(s: Seq<(u64, V)>, k: u64) -> bool {
    exists|i: int| 0 <= i < s.len() && (#[trigger] s[i]).0 == k
}

/// The value stored under key `k`, reading front to back.
pub open spec fn lookup<V>(s: Seq<(u64, V)>, k: u64) -> Option<V>
    decreases s.len(),
{
    if s.len() == 0 {
        None
    } else if s[0].0 == k {
        Some(s[0].1)
    } else {
        lookup(s.drop_first(), k)
    }
}

/// With distinct keys, holding key `k` and looking `k` up to `Some` value
/// are the same thing.
pub proof fn lemma_has_key_lookup<V>(s: Seq<(u64, V)>, k: u64)
    requires
        keys_unique(s),
    ensures
        has_key(s, k) <==> lookup(s, k) is Some,
{
    if has_key(s, k) {
        let i = choose|i: int| 0 <= i < s.len() && (#[trigger] s[i]).0 == k;
        lemma_lookup_at_index(s, i);
    } else {
        lemma_lookup_absent(s, k);
    }
}

/// Find the index of the entry holding key `k`, scanning front to back.
pub fn find_key<V>(table: &Vec<(u64, V)>, k: u64) -> (r: Option<usize>)
    ensures
        match r {
            Some(i) => i < table@.len() && table@[i as int].0 == k
                && lookup(table@, k) == Some(table@[i as int].1),
            None => !has_key(table@, k) && lookup(table@, k) is None,
        },
{
    let ghost s = table@;
    let n: usize = table.len();
    let mut i: usize = 0;
    proof {
        assert(s.skip(0) =~= s);
    }
    while i < n
        invariant
            n == s.len(),
            i <= n,
            s == table@,
            lookup(s, k) == lookup(s.skip(i as int), k),
            forall|j: int| 0 <= j < i ==> (#[trigger] s[j]).0 != k,
        decreases n - i,
    {
        proof {
            assert(s.skip(i as int)[0] == s[i as int]);
        }
        if table[i].0 == k {
            proof {
                assert(lookup(s.skip(i as int), k) == Some(s[i as int].1));
            }
            return Some(i);
        }
        proof {
            assert(s.skip(i as int).drop_first() =~= s.skip(i as int + 1));
        }
        i = i + 1;
    }
    proof {
        assert(s.skip(n as int).len() == 0);
    }
    None
}

/// A table without an entry for `k` looks `k` up to `None`.
pub proof fn lemma_lookup_absent<V>(s: Seq<(u64, V)>, k: u64)
    requires
        !has_key(s, k),
    ensures
        lookup(s, k) is None,
    decreases s.len(),
{
    if s.len() > 0 {
        assert(s[0].0 != k);
        assert(forall|i: int|
            0 <= i < s.drop_first().len() ==> (#[trigger] s.drop_first()[i]).0 == s[i + 1].0);
        lemma_lookup_absent(s.drop_first(), k);
    }
}

/// With distinct keys, the entry found at any index is the one lookup gives.
pub proof fn lemma_lookup_at_index<V>(s: Seq<(u64, V)>, i: int)
    requires
        keys_unique(s),
        0 <= i < s.len(),
    ensures
        lookup(s, s[i].0) == Some(s[i].1),
    decreases s.len(),
{
    if i > 0 {
        assert(s[0].0 != s[i].0);
        assert(keys_unique(s.drop_first())) by {
            assert(forall|p: int, q: int|
                0 <= p < q < s.drop_first().len() ==> (#[trigger] s.drop_first()[p]).0
                    != (#[trigger] s.drop_first()[q]).0) by {
                assert(forall|p: int|
                    0 <= p < s.drop_first().len() ==> #[trigger] s.drop_first()[p] == s[p + 1]);
            }
        }
        assert(s.drop_first()[i - 1] == s[i]);
        lemma_lookup_at_index(s.drop_first(), i - 1);
    }
}

/// A found value is stored somewhere in the table.
pub proof fn lemma_lookup_implies_index<V>(s: Seq<(u64, V)>, k: u64)
    requires
        lookup(s, k) is Some,
    ensures
        exists|i: int|
            0 <= i < s.len() && (#[trigger] s[i]).0 == k && s[i].1 == lookup(s, k)->Some_0,
    decreases s.len(),
{
    if s.len() > 0 && s[0].0 != k {
        lemma_lookup_implies_index(s.drop_first(), k);
        let j = choose|j: int|
            0 <= j < s.drop_first().len() && (#[trigger] s.drop_first()[j]).0 == k
                && s.drop_first()[j].1 == lookup(s.drop_first(), k)->Some_0;
        assert(s[j + 1] == s.drop_first()[j]);
    }
}

/// Appending a fresh key stores its value and leaves every other key as it
/// was; distinctness of keys is preserved.
pub proof fn lemma_lookup_push<V>(s: Seq<(u64, V)>, k: u64, v: V)
    requires
        keys_unique(s),
        !has_key(s, k),
    ensures
        keys_unique(s.push((k, v))),
        lookup(s.push((k, v)), k) == Some(v),
        forall|q: u64| q != k ==> #[trigger] lookup(s.push((k, v)), q) == lookup(s, q),
    decreases s.len(),
{
    let s2 = s.push((k, v));
    assert(forall|i: int| 0 <= i < s.len() ==> #[trigger] s2[i] == s[i]);
    assert(s2[s.len() as int] == (k, v));
    if s.len() == 0 {
        assert(s2.len() == 1);
        assert(s2[0] == (k, v));
        assert forall|q: u64| q != k implies #[trigger] lookup(s2, q) == lookup(s, q) by {
            assert(s2.drop_first().len() == 0);
            assert(lookup(s2, q) == lookup(s2.drop_first(), q));
            assert(lookup(s2.drop_first(), q) is None);
            assert(lookup(s, q) is None);
        }
    } else {
        assert(!has_key(s.drop_first(), k)) by {
            assert(forall|i: int|
                0 <= i < s.drop_first().len() ==> #[trigger] s.drop_first()[i] == s[i + 1]);
        }
        assert(keys_unique(s.drop_first())) by {
            assert(forall|i: int|
                0 <= i < s.drop_first().len() ==> #[trigger] s.drop_first()[i] == s[i + 1]);
        }
        lemma_lookup_push(s.drop_first(), k, v);
        assert(s2.drop_first() =~= s.drop_first().push((k, v)));
        assert forall|q: u64| q != k implies #[trigger] lookup(s2, q) == lookup(s, q) by {
            assert(lookup(s2.drop_first(), q) == lookup(s.drop_first(), q));
            if s[0].0 == q {
                assert(lookup(s2, q) == Some(s2[0].1));
            } else {
                assert(lookup(s2, q) == lookup(s2.drop_first(), q));
                assert(lookup(s, q) == lookup(s.drop_first(), q));
            }
        }
    }
}

/// Overwriting the entry that holds key `k` stores the new value and leaves
/// every other key as it was; distinctness of keys is preserved.
pub proof fn lemma_lookup_update<V>(s: Seq<(u64, V)>, i: int, v: V)
    requires
        keys_unique(s),
        0 <= i < s.len(),
    ensures
        keys_unique(s.update(i, (s[i].0, v))),
        lookup(s.update(i, (s[i].0, v)), s[i].0) == Some(v),
        forall|q: u64|
            q != s[i].0 ==> #[trigger] lookup(s.update(i, (s[i].0, v)), q) == lookup(s, q),
    decreases s.len(),
{
    let k = s[i].0;
    let s2 = s.update(i, (k, v));
    assert(forall|j: int| 0 <= j < s.len() && j != i ==> #[trigger] s2[j] == s[j]);
    if i == 0 {
        assert(s2.drop_first() =~= s.drop_first());
        assert forall|q: u64| q != k implies #[trigger] lookup(s2, q) == lookup(s, q) by {
            assert(lookup(s2, q) == lookup(s2.drop_first(), q));
            assert(lookup(s, q) == lookup(s.drop_first(), q));
        }
    } else {
        assert(keys_unique(s.drop_first())) by {
            assert(forall|p: int|
                0 <= p < s.drop_first().len() ==> #[trigger] s.drop_first()[p] == s[p + 1]);
        }
        assert(s2.drop_first() =~= s.drop_first().update(i - 1, (s[i].0, v)));
        assert(s.drop_first()[i - 1] == s[i]);
        lemma_lookup_update(s.drop_first(), i - 1, v);
        assert(s2[0] == s[0]);
        assert(s[0].0 != k);
        assert forall|q: u64| q != k implies #[trigger] lookup(s2, q) == lookup(s, q) by {
            assert(lookup(s2.drop_first(), q) == lookup(s.drop_first(), q));
            if s[0].0 == q {
                assert(lookup(s2, q) == Some(s2[0].1));
            } else {
                assert(lookup(s2, q) == lookup(s2.drop_first(), q));
                assert(lookup(s, q) == lookup(s.drop_first(), q));
            }
        }
    }
}

/// Removing the entry that holds key `k` makes `k` absent and leaves every
/// other key as it was; distinctness of keys is preserved.
pub proof fn lemma_lookup_remove<V>(s: Seq<(u64, V)>, i: int)
    requires
        keys_unique(s),
        0 <= i < s.len(),
    ensures
        keys_unique(s.remove(i)),
        !has_key(s.remove(i), s[i].0),
        lookup(s.remove(i), s[i].0) is None,
        forall|q: u64| q != s[i].0 ==> #[trigger] lookup(s.remove(i), q) == lookup(s, q),
    decreases s.len(),
{
    let k = s[i].0;
    let s2 = s.remove(i);
    s.remove_ensures(i);
    assert(forall|j: int| 0 <= j < i ==> #[trigger] s2[j] == s[j]);
    assert(forall|j: int| i <= j < s.len() - 1 ==> #[trigger] s2[j] == s[j + 1]);
    assert(keys_unique(s2));
    assert(!has_key(s2, k));
    lemma_lookup_absent(s2, k);
    if i == 0 {
        assert(s2 =~= s.drop_first());
        assert forall|q: u64| q != k implies #[trigger] lookup(s2, q) == lookup(s, q) by {
            assert(lookup(s, q) == lookup(s.drop_first(), q));
        }
    } else {
        assert(keys_unique(s.drop_first())) by {
            assert(forall|p: int|
                0 <= p < s.drop_first().len() ==> #[trigger] s.drop_first()[p] == s[p + 1]);
        }
        assert(s2.drop_first() =~= s.drop_first().remove(i - 1));
        assert(s.drop_first()[i - 1] == s[i]);
        lemma_lookup_remove(s.drop_first(), i - 1);
        assert(s2[0] == s[0]);
        assert forall|q: u64| q != k implies #[trigger] lookup(s2, q) == lookup(s, q) by {
            assert(lookup(s2.drop_first(), q) == lookup(s.drop_first(), q));
            if s[0].0 == q {
                assert(lookup(s2, q) == Some(s2[0].1));
            } else {
                assert(lookup(s2, q) == lookup(s2.drop_first(), q));
                assert(lookup(s, q) == lookup(s.drop_first(), q));
            }
        }
    }
}

} // verus!
