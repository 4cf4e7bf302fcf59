//! The error taxonomy of the marketplace.
//!
//! Every failing operation aborts the whole transaction: the market is left
//! exactly as it was, and the reason surfaces as one of these variants.

use vstd::prelude::*;

verus! {

/// Reason an operation was rejected.
#[derive(Clone, Copy, Debug, PartialEq, Eq, Structural)]
pub enum MarketError {
    /// The caller is not the principal the operation demands, or a presented
    /// custody authority does not match the one derived for the vault.
    AuthorizationError,
    /// A listing already exists where one must not (on `list`), or no
    /// listing exists / the supplied derivation nonce does not recompute
    /// (on `buy` and `cancel`).
    PreconditionError,
    /// The buyer's currency balance is below the price, or the seller cannot
    /// fund the storage cost of the new records.
    InsufficientFundsError,
    /// The seller does not hold the asset at `list` time.
    AssetStateError,
}

} // verus!
