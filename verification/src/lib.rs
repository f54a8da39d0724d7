//! Minesweeper board logic: mine field generation, adjacency counts, the
//! covered / marked play state and the cascading reveal.

pub mod app_state;
pub mod board;
pub mod board_assets;
pub mod bounds;
pub mod cascade;
pub mod components;
pub mod coordinates;
pub mod covered;
pub mod events;
mod random;
pub mod systems;
pub mod text;
pub mod tile;
pub mod tile_map;
