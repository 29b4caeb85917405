//! The closed set of tile kinds and what each one means for movement.

use vstd::prelude::*;

verus! {

/// What occupies one cell of the grid.
#[derive(Clone, Copy, Debug, PartialEq, Eq, Structural, Hash)]
pub enum TileType {
    Floor,
    Wall,
    DownStairs,
    Road,
    MetalGrate,
    Concrete,
    Footpath,
    RustedMetalFloor,
}

impl TileType {
    /// A wall stops movement; every other tile can be walked on.
    pub open spec fn walkable(self) -> bool {
        self != TileType::Wall
    }

    /// Whether an entity can stand on a tile of this kind.
    pub fn is_walkable(self) -> (r: bool)
        ensures
            r == self.walkable(),
    {
        match self {
            TileType::Wall => false,
            _ => true,
        }
    }
}

} // verus!
