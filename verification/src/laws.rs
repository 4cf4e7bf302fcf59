//! Laws relating the marketplace operations across calls.
//!
//! Each proof function here states a property of the state machine that no
//! single operation's contract carries on its own: the list/cancel round
//! trip, the mutual exclusion of the two terminal transitions, and the
//! reusability of an asset's derived slot after a terminal transition.

use vstd::prelude::*;

use crate::derivation::{nonce_for, Tag};
use crate::errors::MarketError;
use crate::market::{buy_err, buy_ok, buy_post, cancel_err, cancel_ok, cancel_post, list_err,
    list_ok, list_post, Buy, Cancel, List, Market};

verus! {

/// Round trip: a successful `list` followed by `cancel` on the same asset
/// leaves the seller exactly where they started.  The cancel is owed
/// success (its preconditions hold in the listed state), and afterwards the
/// seller's asset custody and storage credit are back at their pre-list
/// values, listing and vault are gone, and no currency moved anywhere.
pub proof fn lemma_list_cancel_round_trip(
    m0: Market,
    m1: Market,
    m2: Market,
    accounts: List,
    price: u64,
)
    requires
        list_ok(m0, accounts, price),
        list_post(m0, m1, accounts, price),
        cancel_post(
            m1,
            m2,
            Cancel {
                seller: accounts.seller,
                asset: accounts.asset,
                nonce: nonce_for(Tag::Listing, accounts.asset),
            },
        ),
    ensures
        cancel_ok(
            m1,
            Cancel {
                seller: accounts.seller,
                asset: accounts.asset,
                nonce: nonce_for(Tag::Listing, accounts.asset),
            },
        ),
        m2.holder_of(accounts.asset) == Some(accounts.seller),
        m2.asset_balance(accounts.seller, accounts.asset)
            == m0.asset_balance(accounts.seller, accounts.asset),
        m2.listing_of(accounts.asset) is None,
        m2.vault_of(accounts.asset) is None,
        m2.storage_of(accounts.seller) == m0.storage_of(accounts.seller),
        forall|w: u64| m2.currency_of(w) == m0.currency_of(w),
{
}

/// Terminal transitions are mutually exclusive.  After one successful
/// `buy`, any further `buy` or `cancel` on the same asset finds no listing:
/// its success condition is false and the error it is owed is the
/// precondition failure.  Since a failing operation changes nothing, the
/// loser of the race pays nothing and receives nothing: no double payment.
pub proof fn lemma_buy_excludes_other_terminals(
    m0: Market,
    m1: Market,
    first: Buy,
    second: Buy,
    other: Cancel,
)
    requires
        buy_post(m0, m1, first),
        second.asset == first.asset,
        other.asset == first.asset,
    ensures
        !buy_ok(m1, second),
        buy_err(m1, second) == MarketError::PreconditionError,
        !cancel_ok(m1, other),
        cancel_err(m1, other) == MarketError::PreconditionError,
{
}

/// The mirror image: after one successful `cancel`, any `buy` or `cancel`
/// on the same asset finds no listing and is owed the precondition failure.
pub proof fn lemma_cancel_excludes_other_terminals(
    m0: Market,
    m1: Market,
    first: Cancel,
    second: Buy,
    other: Cancel,
)
    requires
        cancel_post(m0, m1, first),
        second.asset == first.asset,
        other.asset == first.asset,
    ensures
        !buy_ok(m1, second),
        buy_err(m1, second) == MarketError::PreconditionError,
        !cancel_ok(m1, other),
        cancel_err(m1, other) == MarketError::PreconditionError,
{
}

/// Two `list` calls race on one asset's derived slot: after the first
/// succeeds, any further `list` of the same asset finds the slot occupied,
/// whoever calls and at whatever price, and is owed the precondition
/// failure with no state change.
pub proof fn lemma_list_excludes_second_list(
    m0: Market,
    m1: Market,
    first: List,
    price: u64,
    second: List,
    second_price: u64,
)
    requires
        list_post(m0, m1, first, price),
        second.asset == first.asset,
    ensures
        !list_ok(m1, second, second_price),
        list_err(m1, second, second_price) == MarketError::PreconditionError,
{
}

/// After a successful `buy` the asset's derived slot is free again: the new
/// holder can list the asset at any price, provided they can fund the
/// storage deposit.
pub proof fn lemma_relist_after_buy(m0: Market, m1: Market, accounts: Buy, price: u64)
    requires
        buy_post(m0, m1, accounts),
        m1.storage_of(accounts.buyer) >= m1.cost(),
    ensures
        list_ok(m1, List { seller: accounts.buyer, asset: accounts.asset }, price),
{
}

} // verus!
