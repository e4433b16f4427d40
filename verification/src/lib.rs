//! A texture-set asset library: a declarative document format that names
//! image sources and a tree of tiles, a deferred atlas build that packs the
//! sources into one image and expands grid sources into per-cell entries,
//! and a resolver that turns a tile path plus per-entity runtime state into
//! a concrete atlas index, falling back to a built-in default tile on any
//! miss.
#![verifier::loop_isolation(false)]

pub mod atlas;
pub mod controls;
pub mod dict;
pub mod game;
pub mod load;
pub mod parse;
pub mod resolve;
pub mod tset;

use vstd::prelude::*;

verus! {

/// A frame counter advanced once per scheduling pass while the game runs.
pub struct Tick(pub u64);

impl Tick {
    /// Advance the counter by one pass.
    pub fn update_tick(&mut self)
        requires
            old(self).0 < u64::MAX,
        ensures
            final(self).0 == old(self).0 + 1,
    {
        self.0 = self.0 + 1;
    }
}

} // verus!

