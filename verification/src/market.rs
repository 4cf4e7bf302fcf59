//! The marketplace state machine: listings, vaults, custody and the three
//! operations `list`, `buy` and `cancel`.
//!
//! Per asset the market is a two-state machine: absent (no listing) and
//! active (a listing paired with an escrow vault that holds the one unit of
//! the asset).  `list` moves an asset from its seller's custody into a fresh
//! vault and records the offer; `buy` pays the seller and hands custody to
//! the buyer; `cancel` returns custody to the seller.  `buy` and `cancel`
//! both destroy the listing and its vault, which is what makes them mutually
//! exclusive: whichever runs second finds no listing left to act on.
//!
//! Every operation is atomic: it performs no mutation until all its checks
//! have passed, so a failing call returns its error with the market exactly
//! as it was.

use vstd::prelude::*;

use crate::derivation::{authority_for, derive_authority, derive_nonce, nonce_for, Authority,
    Tag};
use crate::errors::MarketError;
use crate::ledger::Ledger;
use crate::table::{find_key, keys_unique, lemma_has_key_lookup, lemma_lookup_at_index,
    lemma_lookup_push, lemma_lookup_remove, lookup};

verus! {

/// One active sale offer: who sells which asset at what price, plus the
/// verification nonce that re-derivation of the listing's identity must
/// reproduce.  All fields are immutable for the listing's lifetime.
#[derive(Clone, Copy, Debug, PartialEq, Eq, Structural)]
pub struct Listing {
    pub seller: u64,
    pub asset: u64,
    pub price: u64,
    pub nonce: u8,
}

/// The custodial holder of an escrowed asset.  A vault holds exactly one
/// unit for its listing's lifetime and is controlled by the derived vault
/// authority, which only program logic can present.
#[derive(Clone, Copy, Debug, PartialEq, Eq, Structural)]
pub struct Vault {
    pub asset: u64,
    pub amount: u64,
    pub authority: Authority,
}

/// The roles of a `list` call: the authenticated seller and the asset to
/// escrow.  The execution host has already verified the seller's signature,
/// so `seller` is the caller's identity.
#[derive(Clone, Copy, Debug, PartialEq, Eq, Structural)]
pub struct List {
    pub seller: u64,
    pub asset: u64,
}

/// The roles of a `buy` call: the authenticated buyer, the asset whose
/// listing is bought, and the derivation nonce the buyer supplies, which
/// must recompute to the listing's own nonce.
#[derive(Clone, Copy, Debug, PartialEq, Eq, Structural)]
pub struct Buy {
    pub buyer: u64,
    pub asset: u64,
    pub nonce: u8,
}

/// The roles of a `cancel` call: the authenticated caller (who must be the
/// recorded seller), the asset, and the supplied derivation nonce.
#[derive(Clone, Copy, Debug, PartialEq, Eq, Structural)]
pub struct Cancel {
    pub seller: u64,
    pub asset: u64,
    pub nonce: u8,
}

/// The whole persistent state of the marketplace: the listing and vault
/// records keyed by asset, direct asset custody keyed by asset, and the two
/// resource ledgers (payment currency, refundable storage credit).
pub struct Market {
    listings: Vec<(u64, Listing)>,
    vaults: Vec<(u64, Vault)>,
    holdings: Vec<(u64, u64)>,
    currency: Ledger,
    storage: Ledger,
    storage_cost: u64,
}

impl Market {
    /// The listing recorded for `asset`, if one is active.
    pub closed spec fn listing_of(self, asset: u64) -> Option<Listing> {
        lookup(self.listings@, asset)
    }

    /// The vault recorded for `asset`, if one is active.
    pub closed spec fn vault_of(self, asset: u64) -> Option<Vault> {
        lookup(self.vaults@, asset)
    }

    /// The account directly holding `asset`, if any (none while escrowed).
    pub closed spec fn holder_of(self, asset: u64) -> Option<u64> {
        lookup(self.holdings@, asset)
    }

    /// How many units of `asset` account `who` holds directly: one or zero,
    /// assets being unique and indivisible.
    pub open spec fn asset_balance(self, who: u64, asset: u64) -> nat {
        if self.holder_of(asset) == Some(who) {
            1
        } else {
            0
        }
    }

    /// How many units of `asset` its vault holds: one while a listing is
    /// active, zero otherwise.
    pub open spec fn vault_amount(self, asset: u64) -> nat {
        match self.vault_of(asset) {
            Some(v) => v.amount as nat,
            None => 0,
        }
    }

    /// The currency balance of account `who`.
    pub closed spec fn currency_of(self, who: u64) -> u64 {
        self.currency.balance_of(who)
    }

    /// The storage-credit balance of account `who`.
    pub closed spec fn storage_of(self, who: u64) -> u64 {
        self.storage.balance_of(who)
    }

    /// The total currency ever issued into the market.
    pub closed spec fn currency_issued(self) -> u64 {
        self.currency.issued_amt()
    }

    /// The total storage credit ever issued into the market.
    pub closed spec fn storage_issued(self) -> u64 {
        self.storage.issued_amt()
    }

    /// The storage cost of one listing's records, charged at `list` and
    /// refunded when the records are destroyed.
    pub closed spec fn cost(self) -> u64 {
        self.storage_cost
    }

    /// Well-formedness of the market.  Beyond distinct record keys and
    /// ledger conservation it states the central pairing invariant: a
    /// listing exists iff its vault exists; the vault holds exactly one unit
    /// under the derived vault authority; the listing carries the derived
    /// nonce; and an escrowed asset is in nobody's direct custody.  The
    /// reserved storage credit is exactly one deposit per live listing.
    pub closed spec fn wf(self) -> bool {
        &&& keys_unique(self.listings@)
        &&& keys_unique(self.vaults@)
        &&& keys_unique(self.holdings@)
        &&& self.currency.wf()
        &&& self.storage.wf()
        &&& forall|i: int| 0 <= i < self.listings@.len() ==> {
            let k = (#[trigger] self.listings@[i]).0;
            let l = self.listings@[i].1;
            &&& k == l.asset
            &&& l.nonce == nonce_for(Tag::Listing, k)
            &&& lookup(self.vaults@, k) is Some
            &&& lookup(self.holdings@, k) is None
        }
        &&& forall|i: int| 0 <= i < self.vaults@.len() ==> {
            let k = (#[trigger] self.vaults@[i]).0;
            let v = self.vaults@[i].1;
            &&& k == v.asset
            &&& v.amount == 1
            &&& v.authority == authority_for(Tag::Vault, k)
            &&& lookup(self.listings@, k) is Some
        }
        &&& self.storage.reserved_amt() == self.storage_cost * self.listings@.len()
    }

    /// A fresh market: no assets, no listings, empty ledgers.  Each listing
    /// created later will charge `storage_cost` of storage credit.
    pub fn new(storage_cost: u64) -> (market: Market)
        ensures
            market.wf(),
            forall|a: u64| market.listing_of(a) is None,
            forall|a: u64| market.vault_of(a) is None,
            forall|a: u64| market.holder_of(a) is None,
            forall|w: u64| market.currency_of(w) == 0,
            forall|w: u64| market.storage_of(w) == 0,
            market.currency_issued() == 0,
            market.storage_issued() == 0,
            market.cost() == storage_cost,
    {
        let market = Market {
            listings: Vec::new(),
            vaults: Vec::new(),
            holdings: Vec::new(),
            currency: Ledger::new(),
            storage: Ledger::new(),
            storage_cost,
        };
        proof {
            assert(market.listings@.len() == 0);
            assert(market.storage_cost * market.listings@.len() == 0) by (nonlinear_arith)
                requires
                    market.listings@.len() == 0,
            ;
        }
        market
    }

    /// Host bookkeeping: bring `asset` into existence in `owner`'s custody.
    /// Succeeds exactly when the asset exists nowhere yet, neither held nor
    /// escrowed; on failure nothing changes.
    pub fn mint_asset(&mut self, owner: u64, asset: u64) -> (r: bool)
        requires
            old(self).wf(),
        ensures
            final(self).wf(),
            r <==> (old(self).holder_of(asset) is None && old(self).listing_of(asset) is None),
            r ==> final(self).holder_of(asset) == Some(owner),
            forall|x: u64| x != asset ==> final(self).holder_of(x) == old(self).holder_of(x),
            forall|x: u64| final(self).listing_of(x) == old(self).listing_of(x),
            forall|x: u64| final(self).vault_of(x) == old(self).vault_of(x),
            forall|w: u64| final(self).currency_of(w) == old(self).currency_of(w),
            forall|w: u64| final(self).storage_of(w) == old(self).storage_of(w),
            final(self).currency_issued() == old(self).currency_issued(),
            final(self).storage_issued() == old(self).storage_issued(),
            final(self).cost() == old(self).cost(),
            !r ==> *final(self) == *old(self),
    {
        if find_key(&self.holdings, asset).is_some() {
            return false;
        }
        if find_key(&self.listings, asset).is_some() {
            return false;
        }
        proof {
            lemma_has_key_lookup(self.holdings@, asset);
            lemma_lookup_push(self.holdings@, asset, owner);
        }
        let ghost pre = *self;
        self.holdings.push((asset, owner));
        proof {
            assert forall|i: int| 0 <= i < self.listings@.len() implies {
                let k = (#[trigger] self.listings@[i]).0;
                let l = self.listings@[i].1;
                &&& k == l.asset
                &&& l.nonce == nonce_for(Tag::Listing, k)
                &&& lookup(self.vaults@, k) is Some
                &&& lookup(self.holdings@, k) is None
            } by {
                lemma_lookup_at_index(pre.listings@, i);
                assert(lookup(self.holdings@, self.listings@[i].0)
                    == lookup(pre.holdings@, self.listings@[i].0));
            }
        }
        true
    }

    /// Host bookkeeping: issue `amount` of currency into `who`'s balance.
    /// Succeeds exactly when the issued total stays within `u64`; on
    /// failure nothing changes.
    pub fn fund_currency(&mut self, who: u64, amount: u64) -> (r: bool)
        requires
            old(self).wf(),
        ensures
            final(self).wf(),
            r <==> old(self).currency_issued() + amount <= u64::MAX,
            r ==> final(self).currency_of(who) == old(self).currency_of(who) + amount,
            r ==> final(self).currency_issued() == old(self).currency_issued() + amount,
            final(self).storage_issued() == old(self).storage_issued(),
            forall|w: u64| w != who ==> final(self).currency_of(w) == old(self).currency_of(w),
            forall|w: u64| final(self).storage_of(w) == old(self).storage_of(w),
            forall|x: u64| final(self).listing_of(x) == old(self).listing_of(x),
            forall|x: u64| final(self).vault_of(x) == old(self).vault_of(x),
            forall|x: u64| final(self).holder_of(x) == old(self).holder_of(x),
            final(self).cost() == old(self).cost(),
            !r ==> *final(self) == *old(self),
    {
        self.currency.fund(who, amount)
    }

    /// Host bookkeeping: issue `amount` of storage credit into `who`'s
    /// balance.  Succeeds exactly when the issued total stays within `u64`;
    /// on failure nothing changes.
    pub fn fund_storage(&mut self, who: u64, amount: u64) -> (r: bool)
        requires
            old(self).wf(),
        ensures
            final(self).wf(),
            r <==> old(self).storage_issued() + amount <= u64::MAX,
            r ==> final(self).storage_of(who) == old(self).storage_of(who) + amount,
            r ==> final(self).storage_issued() == old(self).storage_issued() + amount,
            final(self).currency_issued() == old(self).currency_issued(),
            forall|w: u64| w != who ==> final(self).storage_of(w) == old(self).storage_of(w),
            forall|w: u64| final(self).currency_of(w) == old(self).currency_of(w),
            forall|x: u64| final(self).listing_of(x) == old(self).listing_of(x),
            forall|x: u64| final(self).vault_of(x) == old(self).vault_of(x),
            forall|x: u64| final(self).holder_of(x) == old(self).holder_of(x),
            final(self).cost() == old(self).cost(),
            !r ==> *final(self) == *old(self),
    {
        self.storage.fund(who, amount)
    }

    /// Read the listing recorded for `asset`.
    pub fn listing(&self, asset: u64) -> (r: Option<Listing>)
        ensures
            r == self.listing_of(asset),
    {
        match find_key(&self.listings, asset) {
            Some(i) => Some(self.listings[i].1),
            None => None,
        }
    }

    /// Read the vault recorded for `asset`.
    pub fn vault(&self, asset: u64) -> (r: Option<Vault>)
        ensures
            r == self.vault_of(asset),
    {
        match find_key(&self.vaults, asset) {
            Some(i) => Some(self.vaults[i].1),
            None => None,
        }
    }

    /// Read which account directly holds `asset`, if any.
    pub fn asset_holder(&self, asset: u64) -> (r: Option<u64>)
        ensures
            r == self.holder_of(asset),
    {
        match find_key(&self.holdings, asset) {
            Some(i) => Some(self.holdings[i].1),
            None => None,
        }
    }

    /// Read the currency balance of `who`.
    pub fn currency_balance(&self, who: u64) -> (r: u64)
        ensures
            r == self.currency_of(who),
    {
        self.currency.balance(who)
    }

    /// Read the storage-credit balance of `who`.
    pub fn storage_balance(&self, who: u64) -> (r: u64)
        ensures
            r == self.storage_of(who),
    {
        self.storage.balance(who)
    }

    /// Read the per-listing storage cost.
    pub fn storage_cost(&self) -> (r: u64)
        ensures
            r == self.cost(),
    {
        self.storage_cost
    }
}

/// When `list` succeeds: no listing occupies the asset's derived slot, the
/// seller holds the asset, and the seller can fund the records' storage.
pub open spec fn list_ok(m: Market, accounts: List, price: u64) -> bool {
    &&& m.listing_of(accounts.asset) is None
    &&& m.holder_of(accounts.asset) == Some(accounts.seller)
    &&& m.storage_of(accounts.seller) >= m.cost()
}

/// Which error a failing `list` reports.  An occupied slot is checked
/// first: listing over an existing listing is always a precondition
/// failure, whatever else holds.
pub open spec fn list_err(m: Market, accounts: List, price: u64) -> MarketError {
    if m.listing_of(accounts.asset) is Some {
        MarketError::PreconditionError
    } else if m.holder_of(accounts.asset) != Some(accounts.seller) {
        MarketError::AssetStateError
    } else {
        MarketError::InsufficientFundsError
    }
}

/// The full effect of a successful `list`: the listing and its vault exist
/// with exactly the recorded contents, the asset has left the seller's
/// custody for the vault, one storage deposit was charged, no currency
/// moved, and nothing else changed.
pub open spec fn list_post(pre: Market, post: Market, accounts: List, price: u64) -> bool {
    let a = accounts.asset;
    let s = accounts.seller;
    &&& post.listing_of(a) == Some(
        Listing { seller: s, asset: a, price, nonce: nonce_for(Tag::Listing, a) },
    )
    &&& post.vault_of(a) == Some(
        Vault { asset: a, amount: 1, authority: authority_for(Tag::Vault, a) },
    )
    &&& post.vault_amount(a) == 1
    &&& post.holder_of(a) is None
    &&& post.asset_balance(s, a) + 1 == pre.asset_balance(s, a)
    &&& forall|x: u64| x != a ==> post.listing_of(x) == pre.listing_of(x)
    &&& forall|x: u64| x != a ==> post.vault_of(x) == pre.vault_of(x)
    &&& forall|x: u64| x != a ==> post.holder_of(x) == pre.holder_of(x)
    &&& forall|w: u64| post.currency_of(w) == pre.currency_of(w)
    &&& post.storage_of(s) + pre.cost() == pre.storage_of(s)
    &&& forall|w: u64| w != s ==> post.storage_of(w) == pre.storage_of(w)
    &&& post.currency_issued() == pre.currency_issued()
    &&& post.storage_issued() == pre.storage_issued()
    &&& post.cost() == pre.cost()
}

/// Create a listing: record the offer at the asset's derived slot, create
/// the vault under the derived custody authority, move the one unit of the
/// asset from the seller into the vault, and charge the seller one storage
/// deposit.  All of it happens, or none: a failing call reports exactly the
/// error `list_err` gives and leaves the market untouched.
pub fn list(market: &mut Market, accounts: List, price: u64) -> (result: Result<
    (),
    MarketError,
>)
    requires
        old(market).wf(),
    ensures
        final(market).wf(),
        result is Ok <==> list_ok(*old(market), accounts, price),
        result is Ok ==> list_post(*old(market), *final(market), accounts, price),
        result is Err ==> *final(market) == *old(market) && result == Err::<(), MarketError>(
            list_err(*old(market), accounts, price),
        ),
{
    let a = accounts.asset;
    let ghost pre = *market;
    if let Some(i) = find_key(&market.listings, a) {
        proof {
            lemma_lookup_at_index(market.listings@, i as int);
        }
        return Err(MarketError::PreconditionError);
    }
    let holder_idx: usize;
    match find_key(&market.holdings, a) {
        None => {
            return Err(MarketError::AssetStateError);
        },
        Some(i) => {
            if market.holdings[i].1 != accounts.seller {
                return Err(MarketError::AssetStateError);
            }
            holder_idx = i;
        },
    }
    if !market.storage.reserve(accounts.seller, market.storage_cost) {
        return Err(MarketError::InsufficientFundsError);
    }
    let nonce = derive_nonce(Tag::Listing, a);
    let listing = Listing { seller: accounts.seller, asset: a, price, nonce };
    let vault = Vault { asset: a, amount: 1, authority: derive_authority(Tag::Vault, a) };
    proof {
        lemma_has_key_lookup(pre.listings@, a);
        lemma_lookup_push(pre.listings@, a, listing);
        // The vault slot is free too: a vault entry for `a` would force a
        // listing entry for `a`, and there is none.
        assert(!crate::table::has_key(pre.vaults@, a)) by {
            if crate::table::has_key(pre.vaults@, a) {
                let i = choose|i: int|
                    0 <= i < pre.vaults@.len() && (#[trigger] pre.vaults@[i]).0 == a;
                assert(lookup(pre.listings@, a) is Some);
            }
        }
        lemma_lookup_push(pre.vaults@, a, vault);
        lemma_lookup_remove(pre.holdings@, holder_idx as int);
    }
    market.listings.push((a, listing));
    market.vaults.push((a, vault));
    market.holdings.remove(holder_idx);
    proof {
        let m2 = *market;
        assert(m2.listings@ == pre.listings@.push((a, listing)));
        assert(m2.vaults@ == pre.vaults@.push((a, vault)));
        assert(m2.holdings@ == pre.holdings@.remove(holder_idx as int));
        // Every listing entry still meets its conditions.
        assert forall|i: int| 0 <= i < m2.listings@.len() implies {
            let k = (#[trigger] m2.listings@[i]).0;
            let l = m2.listings@[i].1;
            &&& k == l.asset
            &&& l.nonce == nonce_for(Tag::Listing, k)
            &&& lookup(m2.vaults@, k) is Some
            &&& lookup(m2.holdings@, k) is None
        } by {
            if i < pre.listings@.len() {
                assert(m2.listings@[i] == pre.listings@[i]);
                let k = m2.listings@[i].0;
                lemma_lookup_at_index(pre.listings@, i);
                assert(k != a);
                assert(lookup(m2.vaults@, k) == lookup(pre.vaults@, k));
                assert(lookup(m2.holdings@, k) == lookup(pre.holdings@, k));
            } else {
                assert(m2.listings@[i] == (a, listing));
                assert(lookup(m2.vaults@, a) == Some(vault));
                assert(lookup(m2.holdings@, a) is None);
            }
        }
        // Every vault entry still meets its conditions.
        assert forall|i: int| 0 <= i < m2.vaults@.len() implies {
            let k = (#[trigger] m2.vaults@[i]).0;
            let v = m2.vaults@[i].1;
            &&& k == v.asset
            &&& v.amount == 1
            &&& v.authority == authority_for(Tag::Vault, k)
            &&& lookup(m2.listings@, k) is Some
        } by {
            if i < pre.vaults@.len() {
                assert(m2.vaults@[i] == pre.vaults@[i]);
                let k = m2.vaults@[i].0;
                lemma_lookup_at_index(pre.vaults@, i);
                assert(k != a);
                assert(lookup(m2.listings@, k) == lookup(pre.listings@, k));
            } else {
                assert(m2.vaults@[i] == (a, vault));
                assert(lookup(m2.listings@, a) == Some(listing));
            }
        }
        // One more deposit is reserved, one more listing is live.
        assert(m2.storage.reserved_amt() == m2.storage_cost * m2.listings@.len()) by {
            assert(m2.storage.reserved_amt() == pre.storage.reserved_amt() + pre.storage_cost);
            assert(pre.storage_cost * (pre.listings@.len() + 1)
                == pre.storage_cost * pre.listings@.len() + pre.storage_cost)
                by (nonlinear_arith);
        }
        assert(pre.asset_balance(accounts.seller, a) == 1);
    }
    Ok(())
}

/// The pairing invariant, read off the well-formed market: a listing exists
/// exactly when its vault exists; an existing vault holds exactly one unit
/// under the derived vault authority; an escrowed asset is in nobody's
/// direct custody; and the recorded listing carries its own asset and the
/// derived nonce.  Listing and vault are born and die together, never
/// independently.
pub proof fn lemma_listing_vault_paired(m: Market, asset: u64)
    requires
        m.wf(),
    ensures
        m.listing_of(asset) is Some <==> m.vault_of(asset) is Some,
        m.listing_of(asset) is Some ==> {
            &&& m.vault_amount(asset) == 1
            &&& m.holder_of(asset) is None
            &&& m.vault_of(asset)->Some_0.authority == authority_for(Tag::Vault, asset)
            &&& m.listing_of(asset)->Some_0.asset == asset
            &&& m.listing_of(asset)->Some_0.nonce == nonce_for(Tag::Listing, asset)
        },
{
    if m.listing_of(asset) is Some {
        crate::table::lemma_lookup_implies_index(m.listings@, asset);
        let i = choose|i: int|
            0 <= i < m.listings@.len() && (#[trigger] m.listings@[i]).0 == asset
                && m.listings@[i].1 == m.listing_of(asset)->Some_0;
        assert(lookup(m.vaults@, asset) is Some);
        crate::table::lemma_lookup_implies_index(m.vaults@, asset);
        let j = choose|j: int|
            0 <= j < m.vaults@.len() && (#[trigger] m.vaults@[j]).0 == asset && m.vaults@[j].1
                == m.vault_of(asset)->Some_0;
    } else {
        if m.vault_of(asset) is Some {
            crate::table::lemma_lookup_implies_index(m.vaults@, asset);
            let j = choose|j: int|
                0 <= j < m.vaults@.len() && (#[trigger] m.vaults@[j]).0 == asset;
            assert(lookup(m.listings@, asset) is Some);
        }
    }
}

/// When `buy` succeeds: the listing exists, the supplied nonce recomputes,
/// and the buyer can pay the recorded price.
pub open spec fn buy_ok(m: Market, accounts: Buy) -> bool {
    &&& m.listing_of(accounts.asset) is Some
    &&& accounts.nonce == nonce_for(Tag::Listing, accounts.asset)
    &&& m.currency_of(accounts.buyer) >= m.listing_of(accounts.asset)->Some_0.price
}

/// Which error a failing `buy` reports: a missing listing or a stale nonce
/// is a precondition failure; a balance below the price is an insufficient
/// funds failure.
pub open spec fn buy_err(m: Market, accounts: Buy) -> MarketError {
    if m.listing_of(accounts.asset) is None || accounts.nonce != nonce_for(
        Tag::Listing,
        accounts.asset,
    ) {
        MarketError::PreconditionError
    } else {
        MarketError::InsufficientFundsError
    }
}

/// The full effect of a successful `buy`: listing and vault are gone, the
/// buyer holds the asset, exactly the price moved from buyer to seller, the
/// storage deposit went back to the seller, and nothing else changed.  A
/// buyer who is also the seller pays the price to themself, so their
/// currency balance is unchanged.
pub open spec fn buy_post(pre: Market, post: Market, accounts: Buy) -> bool {
    let a = accounts.asset;
    let b = accounts.buyer;
    let listing = pre.listing_of(a)->Some_0;
    let s = listing.seller;
    &&& post.listing_of(a) is None
    &&& post.vault_of(a) is None
    &&& post.vault_amount(a) == 0
    &&& post.holder_of(a) == Some(b)
    &&& post.asset_balance(b, a) == 1
    &&& b != s ==> post.currency_of(b) + listing.price == pre.currency_of(b)
    &&& b != s ==> post.currency_of(s) == pre.currency_of(s) + listing.price
    &&& b == s ==> post.currency_of(b) == pre.currency_of(b)
    &&& forall|x: u64| x != a ==> post.listing_of(x) == pre.listing_of(x)
    &&& forall|x: u64| x != a ==> post.vault_of(x) == pre.vault_of(x)
    &&& forall|x: u64| x != a ==> post.holder_of(x) == pre.holder_of(x)
    &&& forall|w: u64| w != b && w != s ==> post.currency_of(w) == pre.currency_of(w)
    &&& post.storage_of(s) == pre.storage_of(s) + pre.cost()
    &&& forall|w: u64| w != s ==> post.storage_of(w) == pre.storage_of(w)
    &&& post.currency_issued() == pre.currency_issued()
    &&& post.storage_issued() == pre.storage_issued()
    &&& post.cost() == pre.cost()
}

/// Buy a listed asset: pay the recorded seller exactly the recorded price,
/// then move the asset from the vault into the buyer's custody under the
/// derived authority, then destroy vault and listing and refund the storage
/// deposit to the seller.  The whole exchange is one atomic unit, so the
/// payment-then-delivery order is an auditing choice, not a correctness
/// one.  A failing call reports exactly the error `buy_err` gives and
/// leaves the market untouched.
pub fn buy(market: &mut Market, accounts: Buy) -> (result: Result<(), MarketError>)
    requires
        old(market).wf(),
    ensures
        final(market).wf(),
        result is Ok <==> buy_ok(*old(market), accounts),
        result is Ok ==> buy_post(*old(market), *final(market), accounts),
        result is Err ==> *final(market) == *old(market) && result == Err::<(), MarketError>(
            buy_err(*old(market), accounts),
        ),
{
    let a = accounts.asset;
    let ghost pre = *market;
    let listing_idx: usize = match find_key(&market.listings, a) {
        None => {
            return Err(MarketError::PreconditionError);
        },
        Some(i) => i,
    };
    proof {
        lemma_lookup_at_index(pre.listings@, listing_idx as int);
    }
    let listing = market.listings[listing_idx].1;
    if accounts.nonce != derive_nonce(Tag::Listing, a) {
        return Err(MarketError::PreconditionError);
    }
    // Present the derived custody capability; under well-formedness the
    // recorded authority always matches, so these two rejections are
    // provably unreachable.
    let vault_idx: usize = match find_key(&market.vaults, a) {
        None => {
            proof {
                assert(pre.listings@[listing_idx as int].0 == a);
            }
            return Err(MarketError::AuthorizationError);
        },
        Some(i) => i,
    };
    if market.vaults[vault_idx].1.authority != derive_authority(Tag::Vault, a) {
        proof {
            assert(pre.vaults@[vault_idx as int].0 == a);
        }
        return Err(MarketError::AuthorizationError);
    }
    let buyer_balance = market.currency.balance(accounts.buyer);
    if buyer_balance < listing.price {
        return Err(MarketError::InsufficientFundsError);
    }
    // Payment: exactly the price, buyer to recorded seller.
    let paid = market.currency.transfer(accounts.buyer, listing.seller, listing.price);
    proof {
        assert(paid);
        assert(pre.listings@[listing_idx as int].0 == a);
        lemma_has_key_lookup(pre.holdings@, a);
        lemma_lookup_push(pre.holdings@, a, accounts.buyer);
        lemma_lookup_remove(pre.vaults@, vault_idx as int);
        lemma_lookup_remove(pre.listings@, listing_idx as int);
    }
    // Delivery: the vault's unit goes to the buyer, then both records die.
    market.holdings.push((a, accounts.buyer));
    market.vaults.remove(vault_idx);
    market.listings.remove(listing_idx);
    proof {
        assert(pre.storage_cost * pre.listings@.len() >= pre.storage_cost) by (nonlinear_arith)
            requires
                pre.listings@.len() >= 1,
        ;
    }
    market.storage.release(listing.seller, market.storage_cost);
    proof {
        let m2 = *market;
        assert(m2.listings@ == pre.listings@.remove(listing_idx as int));
        assert(m2.vaults@ == pre.vaults@.remove(vault_idx as int));
        assert(m2.holdings@ == pre.holdings@.push((a, accounts.buyer)));
        assert forall|i: int| 0 <= i < m2.listings@.len() implies {
            let k = (#[trigger] m2.listings@[i]).0;
            let l = m2.listings@[i].1;
            &&& k == l.asset
            &&& l.nonce == nonce_for(Tag::Listing, k)
            &&& lookup(m2.vaults@, k) is Some
            &&& lookup(m2.holdings@, k) is None
        } by {
            pre.listings@.remove_ensures(listing_idx as int);
            let j: int = if i < listing_idx as int {
                i
            } else {
                i + 1
            };
            assert(m2.listings@[i] == pre.listings@[j]);
            let k = m2.listings@[i].0;
            assert(k != a);
            assert(lookup(m2.vaults@, k) == lookup(pre.vaults@, k));
            assert(lookup(m2.holdings@, k) == lookup(pre.holdings@, k));
        }
        assert forall|i: int| 0 <= i < m2.vaults@.len() implies {
            let k = (#[trigger] m2.vaults@[i]).0;
            let v = m2.vaults@[i].1;
            &&& k == v.asset
            &&& v.amount == 1
            &&& v.authority == authority_for(Tag::Vault, k)
            &&& lookup(m2.listings@, k) is Some
        } by {
            pre.vaults@.remove_ensures(vault_idx as int);
            let j: int = if i < vault_idx as int {
                i
            } else {
                i + 1
            };
            assert(m2.vaults@[i] == pre.vaults@[j]);
            let k = m2.vaults@[i].0;
            assert(k != a);
            assert(lookup(m2.listings@, k) == lookup(pre.listings@, k));
        }
        assert(m2.storage.reserved_amt() == m2.storage_cost * m2.listings@.len()) by {
            assert(m2.listings@.len() + 1 == pre.listings@.len());
            assert(pre.storage_cost * pre.listings@.len()
                == pre.storage_cost * m2.listings@.len() + pre.storage_cost)
                by (nonlinear_arith)
                requires
                    m2.listings@.len() + 1 == pre.listings@.len(),
            ;
        }
    }
    Ok(())
}

/// When `cancel` succeeds: the listing exists, the supplied nonce
/// recomputes, and the caller is the recorded seller.
pub open spec fn cancel_ok(m: Market, accounts: Cancel) -> bool {
    &&& m.listing_of(accounts.asset) is Some
    &&& accounts.nonce == nonce_for(Tag::Listing, accounts.asset)
    &&& accounts.seller == m.listing_of(accounts.asset)->Some_0.seller
}

/// Which error a failing `cancel` reports: a missing listing or a stale
/// nonce is a precondition failure; a caller other than the recorded
/// seller is an authorization failure.
pub open spec fn cancel_err(m: Market, accounts: Cancel) -> MarketError {
    if m.listing_of(accounts.asset) is None || accounts.nonce != nonce_for(
        Tag::Listing,
        accounts.asset,
    ) {
        MarketError::PreconditionError
    } else {
        MarketError::AuthorizationError
    }
}

/// The full effect of a successful `cancel`: the asset is back in the
/// seller's direct custody, listing and vault are gone, the storage deposit
/// is refunded to the seller, no currency moved, and nothing else changed.
pub open spec fn cancel_post(pre: Market, post: Market, accounts: Cancel) -> bool {
    let a = accounts.asset;
    let s = pre.listing_of(a)->Some_0.seller;
    &&& post.listing_of(a) is None
    &&& post.vault_of(a) is None
    &&& post.vault_amount(a) == 0
    &&& post.holder_of(a) == Some(s)
    &&& post.asset_balance(s, a) == 1
    &&& forall|x: u64| x != a ==> post.listing_of(x) == pre.listing_of(x)
    &&& forall|x: u64| x != a ==> post.vault_of(x) == pre.vault_of(x)
    &&& forall|x: u64| x != a ==> post.holder_of(x) == pre.holder_of(x)
    &&& forall|w: u64| post.currency_of(w) == pre.currency_of(w)
    &&& post.storage_of(s) == pre.storage_of(s) + pre.cost()
    &&& forall|w: u64| w != s ==> post.storage_of(w) == pre.storage_of(w)
    &&& post.currency_issued() == pre.currency_issued()
    &&& post.storage_issued() == pre.storage_issued()
    &&& post.cost() == pre.cost()
}

/// Cancel a listing: after an explicit authorization check against the
/// recorded seller, move the asset from the vault back into the seller's
/// custody under the derived authority, destroy vault and listing, and
/// refund the storage deposit.  No currency moves.  A failing call reports
/// exactly the error `cancel_err` gives and leaves the market untouched.
pub fn cancel(market: &mut Market, accounts: Cancel) -> (result: Result<(), MarketError>)
    requires
        old(market).wf(),
    ensures
        final(market).wf(),
        result is Ok <==> cancel_ok(*old(market), accounts),
        result is Ok ==> cancel_post(*old(market), *final(market), accounts),
        result is Err ==> *final(market) == *old(market) && result == Err::<(), MarketError>(
            cancel_err(*old(market), accounts),
        ),
{
    let a = accounts.asset;
    let ghost pre = *market;
    let listing_idx: usize = match find_key(&market.listings, a) {
        None => {
            return Err(MarketError::PreconditionError);
        },
        Some(i) => i,
    };
    proof {
        lemma_lookup_at_index(pre.listings@, listing_idx as int);
    }
    let listing = market.listings[listing_idx].1;
    if accounts.nonce != derive_nonce(Tag::Listing, a) {
        return Err(MarketError::PreconditionError);
    }
    if accounts.seller != listing.seller {
        return Err(MarketError::AuthorizationError);
    }
    // Present the derived custody capability; under well-formedness the
    // recorded authority always matches, so these two rejections are
    // provably unreachable.
    let vault_idx: usize = match find_key(&market.vaults, a) {
        None => {
            proof {
                assert(pre.listings@[listing_idx as int].0 == a);
            }
            return Err(MarketError::AuthorizationError);
        },
        Some(i) => i,
    };
    if market.vaults[vault_idx].1.authority != derive_authority(Tag::Vault, a) {
        proof {
            assert(pre.vaults@[vault_idx as int].0 == a);
        }
        return Err(MarketError::AuthorizationError);
    }
    proof {
        assert(pre.listings@[listing_idx as int].0 == a);
        lemma_has_key_lookup(pre.holdings@, a);
        lemma_lookup_push(pre.holdings@, a, listing.seller);
        lemma_lookup_remove(pre.vaults@, vault_idx as int);
        lemma_lookup_remove(pre.listings@, listing_idx as int);
    }
    market.holdings.push((a, listing.seller));
    market.vaults.remove(vault_idx);
    market.listings.remove(listing_idx);
    proof {
        assert(pre.storage_cost * pre.listings@.len() >= pre.storage_cost) by (nonlinear_arith)
            requires
                pre.listings@.len() >= 1,
        ;
    }
    market.storage.release(listing.seller, market.storage_cost);
    proof {
        let m2 = *market;
        assert(m2.listings@ == pre.listings@.remove(listing_idx as int));
        assert(m2.vaults@ == pre.vaults@.remove(vault_idx as int));
        assert(m2.holdings@ == pre.holdings@.push((a, listing.seller)));
        assert forall|i: int| 0 <= i < m2.listings@.len() implies {
            let k = (#[trigger] m2.listings@[i]).0;
            let l = m2.listings@[i].1;
            &&& k == l.asset
            &&& l.nonce == nonce_for(Tag::Listing, k)
            &&& lookup(m2.vaults@, k) is Some
            &&& lookup(m2.holdings@, k) is None
        } by {
            pre.listings@.remove_ensures(listing_idx as int);
            let j: int = if i < listing_idx as int {
                i
            } else {
                i + 1
            };
            assert(m2.listings@[i] == pre.listings@[j]);
            let k = m2.listings@[i].0;
            assert(k != a);
            assert(lookup(m2.vaults@, k) == lookup(pre.vaults@, k));
            assert(lookup(m2.holdings@, k) == lookup(pre.holdings@, k));
        }
        assert forall|i: int| 0 <= i < m2.vaults@.len() implies {
            let k = (#[trigger] m2.vaults@[i]).0;
            let v = m2.vaults@[i].1;
            &&& k == v.asset
            &&& v.amount == 1
            &&& v.authority == authority_for(Tag::Vault, k)
            &&& lookup(m2.listings@, k) is Some
        } by {
            pre.vaults@.remove_ensures(vault_idx as int);
            let j: int = if i < vault_idx as int {
                i
            } else {
                i + 1
            };
            assert(m2.vaults@[i] == pre.vaults@[j]);
            let k = m2.vaults@[i].0;
            assert(k != a);
            assert(lookup(m2.listings@, k) == lookup(pre.listings@, k));
        }
        assert(m2.storage.reserved_amt() == m2.storage_cost * m2.listings@.len()) by {
            assert(m2.listings@.len() + 1 == pre.listings@.len());
            assert(pre.storage_cost * pre.listings@.len()
                == pre.storage_cost * m2.listings@.len() + pre.storage_cost)
                by (nonlinear_arith)
                requires
                    m2.listings@.len() + 1 == pre.listings@.len(),
            ;
        }
    }
    Ok(())
}

} // verus!
