//! Accounting core of two token registries: a fungible asset registry and a
//! registry of creator-minted unique assets, both built on one balance ledger
//! and one identifier allocator.
use vstd::prelude::*;

pub mod allocator;
pub mod assets;
pub mod ledger;
pub mod nfts;
pub mod support;

verus! {

/// Identifier of an asset, unique within the registry that issued it.
pub type AssetId = u128;

/// Identifier of a ledger participant. The registries only ever compare two
/// of them for equality.
pub type AccountId = u64;

} // verus!
