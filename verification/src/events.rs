//! What passes between the board and the layer that shows it: requests that
//! come in from the pointer, and what a reveal reports back.

use crate::coordinates::Coordinates;
use vstd::prelude::*;

verus! {

/// A request to reveal the cell.
#[derive(Debug, Copy, Clone)]
pub struct TileTriggerEvent(pub Coordinates);

/// A request to mark the cell, or to take its mark off.
#[derive(Debug, Copy, Clone)]
pub struct TileMarkEvent(pub Coordinates);

/// Every cell without a bomb is revealed: the game is won.
#[derive(Debug, Copy, Clone)]
pub struct BoardCompletedEvent;

/// A bomb was revealed: the game is lost.
#[derive(Debug, Copy, Clone)]
pub struct BombExplosionEvent;

} // verus!
