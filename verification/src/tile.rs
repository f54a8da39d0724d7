//! What a single cell of the mine field holds.

use crate::text::{decimal, push_decimal};
use vstd::prelude::*;
use vstd::string::StringExecFns;

verus! {

/// Content of one cell.
#[derive(Debug, Copy, Clone, Eq, PartialEq, Structural)]
pub enum Tile {
    /// No bomb here and none in the eight surrounding cells.
    Empty,
    /// A bomb.
    Bomb,
    /// No bomb here, but this many in the surrounding cells.
    Neighbor(u8),
}

impl Tile {
    /// How the tile is written on the console: `*` for a bomb, the count of
    /// a tile with bombs around it, a blank for an empty tile.
    pub open spec fn glyphs(self) -> Seq<char> {
        match self {
            Tile::Bomb => seq!['*'],
            Tile::Neighbor(count) => decimal(count as nat),
            Tile::Empty => seq![' '],
        }
    }

    /// The tile as it is written on the console.
    pub fn console_output(&self) -> (text: String)
        ensures
            text@ == self.glyphs(),
    {
        let mut text = String::new();
        match self {
            Tile::Bomb => {
                proof {
                    reveal_strlit("*");
                }
                text.append("*");
                assert(text@ =~= seq!['*']);
            },
            Tile::Neighbor(count) => {
                push_decimal(&mut text, *count as u16);
                assert(text@ =~= decimal(*count as nat));
            },
            Tile::Empty => {
                proof {
                    reveal_strlit(" ");
                }
                text.append(" ");
                assert(text@ =~= seq![' ']);
            },
        }
        text
    }

    /// Whether the cell holds a bomb.
    pub fn is_bomb(&self) -> (b: bool)
        ensures
            b == (*self is Bomb),
    {
        match self {
            Tile::Bomb => true,
            _ => false,
        }
    }
}

} // verus!
