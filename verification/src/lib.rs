//! Core board model and movement resolution for a grid-world survival game.
//!
//! The library builds a dense per-turn snapshot of the board (`classes::Board2d`),
//! answers occupancy/hazard/food lookups, and resolves the effect of a move on an
//! entity (`util`), including toroidal wrap-around and health accounting. The
//! decision step that filters fatal directions lives in `logic`.

pub mod classes;
pub mod logic;
pub mod util;
