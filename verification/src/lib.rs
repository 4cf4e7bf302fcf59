//! Core logic of an asset-escrow marketplace.
//!
//! A seller places a unique, indivisible asset into an escrow vault and
//! advertises a price; a buyer atomically exchanges currency for custody of
//! the asset; the seller may instead cancel the listing and reclaim the
//! asset.  The crate models the marketplace as an explicit state machine:
//! per-asset listings, escrow vaults controlled by derived authorities,
//! account-level asset custody, and two resource ledgers (payment currency
//! and refundable storage credit).  Every operation is all-or-nothing: it
//! either performs its full effect or returns a typed error and leaves the
//! market unchanged.  A listing record also has a persisted byte layout,
//! with a lossless encoder and decoder.

pub mod codec;
pub mod derivation;
pub mod errors;
pub mod laws;
pub mod ledger;
pub mod market;
pub mod table;
