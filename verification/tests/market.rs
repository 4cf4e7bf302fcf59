use nova_market::derivation::{derive_authority, derive_nonce, Authority, Tag};
use nova_market::errors::MarketError;
use nova_market::market::{buy, cancel, list, Buy, Cancel, List, Listing, Market};

const COST: u64 = 5;
const SELLER: u64 = 7;
const BUYER: u64 = 2;
const ASSET: u64 = 100;

/// A market where `SELLER` holds `ASSET` and can fund one listing's storage.
fn market_with_seller() -> Market {
    let mut m = Market::new(COST);
    assert!(m.mint_asset(SELLER, ASSET));
    assert!(m.fund_storage(SELLER, COST));
    m
}

/// The same market after `SELLER` listed `ASSET` at `price`.
fn listed_market(price: u64) -> Market {
    let mut m = market_with_seller();
    assert!(list(&mut m, List { seller: SELLER, asset: ASSET }, price).is_ok());
    m
}

fn listing_nonce() -> u8 {
    derive_nonce(Tag::Listing, ASSET)
}

#[test]
fn list_escrows_asset_and_records_offer() {
    let mut m = market_with_seller();
    assert_eq!(m.asset_holder(ASSET), Some(SELLER));
    let r = list(&mut m, List { seller: SELLER, asset: ASSET }, 100);
    assert_eq!(r, Ok(()));
    let l = m.listing(ASSET).unwrap();
    assert_eq!(
        l,
        Listing { seller: SELLER, asset: ASSET, price: 100, nonce: listing_nonce() }
    );
    let v = m.vault(ASSET).unwrap();
    assert_eq!(v.amount, 1);
    assert_eq!(v.authority, derive_authority(Tag::Vault, ASSET));
    // The seller's direct balance dropped from one to zero.
    assert_eq!(m.asset_holder(ASSET), None);
    // The storage deposit was charged.
    assert_eq!(m.storage_balance(SELLER), 0);
}

#[test]
fn list_over_existing_listing_fails_with_precondition_error() {
    let mut m = listed_market(100);
    assert!(m.fund_storage(SELLER, COST));
    let before = m.listing(ASSET);
    let r = list(&mut m, List { seller: SELLER, asset: ASSET }, 999);
    assert_eq!(r, Err(MarketError::PreconditionError));
    // No state change: the original offer stands untouched.
    assert_eq!(m.listing(ASSET), before);
    assert_eq!(m.storage_balance(SELLER), COST);
    assert_eq!(m.asset_holder(ASSET), None);
}

#[test]
fn list_without_holding_asset_fails_with_asset_state_error() {
    let mut m = Market::new(COST);
    assert!(m.mint_asset(BUYER, ASSET));
    assert!(m.fund_storage(SELLER, COST));
    let r = list(&mut m, List { seller: SELLER, asset: ASSET }, 100);
    assert_eq!(r, Err(MarketError::AssetStateError));
    assert_eq!(m.asset_holder(ASSET), Some(BUYER));
    assert_eq!(m.listing(ASSET), None);
}

#[test]
fn list_without_storage_credit_fails_with_insufficient_funds_error() {
    let mut m = Market::new(COST);
    assert!(m.mint_asset(SELLER, ASSET));
    assert!(m.fund_storage(SELLER, COST - 1));
    let r = list(&mut m, List { seller: SELLER, asset: ASSET }, 100);
    assert_eq!(r, Err(MarketError::InsufficientFundsError));
    assert_eq!(m.asset_holder(ASSET), Some(SELLER));
    assert_eq!(m.storage_balance(SELLER), COST - 1);
}

#[test]
fn buy_exchanges_price_for_custody() {
    // Scenario: the seller lists the asset at price 100, the buyer buys.
    let mut m = listed_market(100);
    assert!(m.fund_currency(BUYER, 140));
    let r = buy(&mut m, Buy { buyer: BUYER, asset: ASSET, nonce: listing_nonce() });
    assert_eq!(r, Ok(()));
    // The seller received exactly the price, the buyer paid exactly it.
    assert_eq!(m.currency_balance(SELLER), 100);
    assert_eq!(m.currency_balance(BUYER), 40);
    // The buyer holds the asset; listing and vault no longer exist.
    assert_eq!(m.asset_holder(ASSET), Some(BUYER));
    assert_eq!(m.listing(ASSET), None);
    assert_eq!(m.vault(ASSET), None);
    // The storage deposit went back to the seller.
    assert_eq!(m.storage_balance(SELLER), COST);
}

#[test]
fn buy_with_insufficient_balance_changes_nothing() {
    let mut m = listed_market(100);
    assert!(m.fund_currency(BUYER, 99));
    let before_listing = m.listing(ASSET);
    let r = buy(&mut m, Buy { buyer: BUYER, asset: ASSET, nonce: listing_nonce() });
    assert_eq!(r, Err(MarketError::InsufficientFundsError));
    // No currency moved, no asset moved, listing and vault unchanged.
    assert_eq!(m.currency_balance(BUYER), 99);
    assert_eq!(m.currency_balance(SELLER), 0);
    assert_eq!(m.listing(ASSET), before_listing);
    assert_eq!(m.vault(ASSET).unwrap().amount, 1);
    assert_eq!(m.asset_holder(ASSET), None);
}

#[test]
fn buy_with_stale_nonce_fails_with_precondition_error() {
    let mut m = listed_market(100);
    assert!(m.fund_currency(BUYER, 100));
    let bad = listing_nonce().wrapping_add(1);
    let r = buy(&mut m, Buy { buyer: BUYER, asset: ASSET, nonce: bad });
    assert_eq!(r, Err(MarketError::PreconditionError));
    assert_eq!(m.currency_balance(BUYER), 100);
    assert!(m.listing(ASSET).is_some());
}

#[test]
fn buy_of_unlisted_asset_fails_with_precondition_error() {
    let mut m = market_with_seller();
    assert!(m.fund_currency(BUYER, 100));
    let r = buy(&mut m, Buy { buyer: BUYER, asset: ASSET, nonce: listing_nonce() });
    assert_eq!(r, Err(MarketError::PreconditionError));
    assert_eq!(m.asset_holder(ASSET), Some(SELLER));
}

#[test]
fn cancel_by_other_caller_fails_with_authorization_error() {
    let mut m = listed_market(100);
    let r = cancel(&mut m, Cancel { seller: BUYER, asset: ASSET, nonce: listing_nonce() });
    assert_eq!(r, Err(MarketError::AuthorizationError));
    // No state change: the listing still stands, the asset stays escrowed.
    assert!(m.listing(ASSET).is_some());
    assert_eq!(m.asset_holder(ASSET), None);
    // The recorded seller still can cancel.
    let r2 = cancel(&mut m, Cancel { seller: SELLER, asset: ASSET, nonce: listing_nonce() });
    assert_eq!(r2, Ok(()));
}

#[test]
fn cancel_with_stale_nonce_fails_with_precondition_error() {
    let mut m = listed_market(100);
    let bad = listing_nonce().wrapping_add(1);
    let r = cancel(&mut m, Cancel { seller: SELLER, asset: ASSET, nonce: bad });
    assert_eq!(r, Err(MarketError::PreconditionError));
    assert!(m.listing(ASSET).is_some());
}

#[test]
fn list_then_cancel_round_trip_restores_seller() {
    // Scenario: the seller lists the asset at price 50, then cancels.
    let mut m = market_with_seller();
    assert!(list(&mut m, List { seller: SELLER, asset: ASSET }, 50).is_ok());
    let r = cancel(&mut m, Cancel { seller: SELLER, asset: ASSET, nonce: listing_nonce() });
    assert_eq!(r, Ok(()));
    // The seller regained the asset and the storage deposit; listing and
    // vault are gone; no currency moved.
    assert_eq!(m.asset_holder(ASSET), Some(SELLER));
    assert_eq!(m.storage_balance(SELLER), COST);
    assert_eq!(m.listing(ASSET), None);
    assert_eq!(m.vault(ASSET), None);
    assert_eq!(m.currency_balance(SELLER), 0);
}

#[test]
fn racing_buyers_one_wins_one_gets_precondition_error() {
    // Scenario: two buyers attempt to buy the same listing; the host
    // serializes them, so the second finds no listing left.
    let b1: u64 = 21;
    let b2: u64 = 22;
    let mut m = listed_market(100);
    assert!(m.fund_currency(b1, 100));
    assert!(m.fund_currency(b2, 100));
    let r1 = buy(&mut m, Buy { buyer: b1, asset: ASSET, nonce: listing_nonce() });
    assert_eq!(r1, Ok(()));
    let r2 = buy(&mut m, Buy { buyer: b2, asset: ASSET, nonce: listing_nonce() });
    assert_eq!(r2, Err(MarketError::PreconditionError));
    // Exactly one payment happened: the loser keeps their money and the
    // seller was paid once.
    assert_eq!(m.currency_balance(b1), 0);
    assert_eq!(m.currency_balance(b2), 100);
    assert_eq!(m.currency_balance(SELLER), 100);
    assert_eq!(m.asset_holder(ASSET), Some(b1));
}

#[test]
fn cancel_after_buy_fails_with_precondition_error() {
    let mut m = listed_market(100);
    assert!(m.fund_currency(BUYER, 100));
    assert!(buy(&mut m, Buy { buyer: BUYER, asset: ASSET, nonce: listing_nonce() }).is_ok());
    let r = cancel(&mut m, Cancel { seller: SELLER, asset: ASSET, nonce: listing_nonce() });
    assert_eq!(r, Err(MarketError::PreconditionError));
    assert_eq!(m.asset_holder(ASSET), Some(BUYER));
}

#[test]
fn zero_price_listing_is_a_free_transfer() {
    // The source applies no minimum-price check: a zero-price listing is
    // permitted and `buy` moves the asset with no currency at all.
    let mut m = listed_market(0);
    let r = buy(&mut m, Buy { buyer: BUYER, asset: ASSET, nonce: listing_nonce() });
    assert_eq!(r, Ok(()));
    assert_eq!(m.asset_holder(ASSET), Some(BUYER));
    assert_eq!(m.currency_balance(SELLER), 0);
    assert_eq!(m.currency_balance(BUYER), 0);
}

#[test]
fn seller_buying_own_listing_keeps_balance() {
    let mut m = listed_market(100);
    assert!(m.fund_currency(SELLER, 100));
    let r = buy(&mut m, Buy { buyer: SELLER, asset: ASSET, nonce: listing_nonce() });
    assert_eq!(r, Ok(()));
    assert_eq!(m.currency_balance(SELLER), 100);
    assert_eq!(m.asset_holder(ASSET), Some(SELLER));
}

#[test]
fn derived_slot_is_free_again_after_buy() {
    let mut m = listed_market(100);
    assert!(m.fund_currency(BUYER, 100));
    assert!(buy(&mut m, Buy { buyer: BUYER, asset: ASSET, nonce: listing_nonce() }).is_ok());
    // The new holder can list the same asset anew.
    assert!(m.fund_storage(BUYER, COST));
    let r = list(&mut m, List { seller: BUYER, asset: ASSET }, 777);
    assert_eq!(r, Ok(()));
    assert_eq!(m.listing(ASSET).unwrap().seller, BUYER);
}

#[test]
fn mint_asset_refuses_duplicates_and_escrowed_assets() {
    let mut m = market_with_seller();
    assert!(!m.mint_asset(BUYER, ASSET));
    assert!(list(&mut m, List { seller: SELLER, asset: ASSET }, 10).is_ok());
    // While escrowed the asset has no direct holder, but it still exists.
    assert!(!m.mint_asset(BUYER, ASSET));
}

#[test]
fn funding_stops_at_the_issuance_limit() {
    let mut m = Market::new(COST);
    assert!(m.fund_currency(SELLER, u64::MAX));
    assert!(!m.fund_currency(BUYER, 1));
    assert_eq!(m.currency_balance(BUYER), 0);
    assert_eq!(m.currency_balance(SELLER), u64::MAX);
}

#[test]
fn derivation_is_deterministic_and_namespaced() {
    let (a1, n1) = nova_market::derivation::derive(Tag::Listing, ASSET);
    let (a2, n2) = nova_market::derivation::derive(Tag::Listing, ASSET);
    assert_eq!(a1, a2);
    assert_eq!(n1, n2);
    assert_eq!(a1, Authority { tag: Tag::Listing, asset: ASSET });
    // The two namespaces of one asset never collide, nor two assets.
    assert_ne!(derive_authority(Tag::Listing, ASSET), derive_authority(Tag::Vault, ASSET));
    assert_ne!(
        derive_authority(Tag::Listing, ASSET),
        derive_authority(Tag::Listing, ASSET + 1)
    );
}
