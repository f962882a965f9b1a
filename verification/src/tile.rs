//! The per-cell state primitive: a tile either blocks movement and/or sight,
//! or it does not. The two canonical values are *empty* (fully passable and
//! transparent) and *wall* (fully solid and opaque).

use vstd::prelude::*;

verus! {

/// A tile of the map and its properties.
#[derive(Clone, Copy, Debug, PartialEq, Eq, Structural)]
pub struct Tile {
    /// The cell cannot be occupied or walked through.
    pub blocked: bool,
    /// The cell is opaque to the visibility computation.
    pub block_sight: bool,
}

impl Tile {
    /// A tile is *empty* when it neither blocks movement nor sight.
    pub open spec fn is_empty(self) -> bool {
        !self.blocked && !self.block_sight
    }

    /// A tile is *wall* when it blocks both movement and sight.
    pub open spec fn is_wall(self) -> bool {
        self.blocked && self.block_sight
    }

    /// The value of the canonical passable, transparent tile.
    pub open spec fn empty_tile() -> Tile {
        Tile { blocked: false, block_sight: false }
    }

    /// The value of the canonical solid, opaque tile.
    pub open spec fn wall_tile() -> Tile {
        Tile { blocked: true, block_sight: true }
    }

    /// The canonical passable, transparent tile.
    pub fn empty() -> (t: Tile)
        ensures
            t == Tile::empty_tile(),
            t.is_empty(),
    {
        Tile { blocked: false, block_sight: false }
    }

    /// The canonical solid, opaque tile.
    pub fn wall() -> (t: Tile)
        ensures
            t == Tile::wall_tile(),
            t.is_wall(),
    {
        Tile { blocked: true, block_sight: true }
    }
}

} // verus!
