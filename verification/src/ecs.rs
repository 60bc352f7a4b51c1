//! Entity-component system: generational ids with a free-list allocator,
//! sparse-set component storage, and a world with a fixed component roster.

pub mod entity;
pub mod sparse_set;
pub mod world;

use vstd::prelude::*;

verus! {

/// Sprite component: which image asset an entity draws.
#[derive(Debug, Clone)]
pub struct Sprite {
    pub asset_path: String,
}

} // verus!
