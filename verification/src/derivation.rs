//! The derivation scheme: deterministic, keyless authorities.
//!
//! Given a namespace tag and an asset identifier, the scheme computes a
//! derived authority together with a verification nonce.  No private key
//! exists for a derived authority: it is a capability value that only the
//! program's own operations construct and present, scoped to one namespace
//! and one asset.  Anyone can recompute the same authority and nonce from
//! the same inputs, which makes derived records globally discoverable and
//! collision-free per asset.

use vstd::prelude::*;

verus! {

/// Namespace tag of a derived authority: one for the listing record itself,
/// one for the vault's custody authority.
#[derive(Clone, Copy, Debug, PartialEq, Eq, Structural)]
pub enum Tag {
    Listing,
    Vault,
}

/// A keyless derived authority, bound to one namespace and one asset.
///
/// Possession semantics: the market's operations are the only code that
/// builds the authority recorded on a vault, so custody moves out of a vault
/// only when program logic presents the matching capability.
#[derive(Clone, Copy, Debug, PartialEq, Eq, Structural)]
pub struct Authority {
    pub tag: Tag,
    pub asset: u64,
}

/// Numeric code mixed into the verification nonce, one per namespace.
pub open spec fn tag_code(tag: Tag) -> u64 {
    match tag {
        Tag::Listing => 1,
        Tag::Vault => 2,
    }
}

/// The verification nonce that re-derivation must reproduce: the asset
/// identifier folded modulo the largest prime below 256, shifted by the
/// namespace code, so it always fits one byte and anyone can recompute it.
pub open spec fn nonce_for(tag: Tag, asset: u64) -> u8 {
    (asset % 0xfd + tag_code(tag)) as u8
}

/// The authority derived for `tag` and `asset`.
pub open spec fn authority_for(tag: Tag, asset: u64) -> Authority {
    Authority { tag, asset }
}

/// Recompute the verification nonce for `tag` and `asset`.
pub fn derive_nonce(tag: Tag, asset: u64) -> (nonce: u8)
    ensures
        nonce == nonce_for(tag, asset),
{
    let code: u64 = match tag {
        Tag::Listing => 1,
        Tag::Vault => 2,
    };
    (asset % 0xfd + code) as u8
}

/// Recompute the derived authority for `tag` and `asset`.
pub fn derive_authority(tag: Tag, asset: u64) -> (authority: Authority)
    ensures
        authority == authority_for(tag, asset),
{
    Authority { tag, asset }
}

/// Derive the authority together with its verification nonce, as one step.
pub fn derive(tag: Tag, asset: u64) -> (result: (Authority, u8))
    ensures
        result.0 == authority_for(tag, asset),
        result.1 == nonce_for(tag, asset),
{
    (derive_authority(tag, asset), derive_nonce(tag, asset))
}

/// Derivation is injective: two equal derived authorities can only have come
/// from the same namespace and the same asset, so one asset's listing or
/// vault authority can never collide with another's.
pub proof fn lemma_authority_injective(t1: Tag, a1: u64, t2: Tag, a2: u64)
    ensures
        authority_for(t1, a1) == authority_for(t2, a2) <==> (t1 == t2 && a1 == a2),
{
}

} // verus!
