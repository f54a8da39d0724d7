//! What is attached to a tile or to its cover while the board is shown.

use crate::tile::Tile;
use vstd::prelude::*;

verus! {

/// Attached to a tile without a bomb that has bombs around it.
#[derive(Debug, Copy, Clone, PartialOrd, Ord, PartialEq, Eq, Hash)]
pub struct Neighbor {
    /// How many bombs surround the tile.
    pub count: u8,
}

/// Attached to a cover that is about to be taken off.
#[derive(Debug, Copy, Clone, PartialOrd, Ord, PartialEq, Eq, Hash)]
pub struct Uncover;

/// Attached to a cover that carries a mark.
#[derive(Debug, Copy, Clone, PartialOrd, Ord, PartialEq, Eq, Hash)]
pub struct Mark;

impl Neighbor {
    /// What to attach to a tile that holds `tile`: its count, where it has
    /// one.
    pub fn of(tile: Tile) -> (neighbor: Option<Neighbor>)
        ensures
            neighbor == match tile {
                Tile::Neighbor(count) => Some(Neighbor { count }),
                _ => None,
            },
    {
        match tile {
            Tile::Neighbor(count) => Some(Neighbor { count }),
            _ => None,
        }
    }
}

} // verus!
