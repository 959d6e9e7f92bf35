use vstd::prelude::*;

verus! {

/// The rarity object of the skin metadata feed.
pub struct RarityWrapper {
    pub name: String,
}

/// One skin of the skin metadata feed (wear bounds as 32-bit float bit patterns).
pub struct Metadata {
    pub name: String,
    pub min_float_bits: Option<u32>,
    pub max_float_bits: Option<u32>,
    pub rarity: RarityWrapper,
    pub stattrak: bool,
}

} // verus!
