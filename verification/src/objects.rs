//! The positioned actors of the game: the player and the word-enemies.
//!
//! Positions are workspace units, `UNITS_PER_PIXEL` of them to one pixel of
//! the substrate; the front end converts when it renders.

use vstd::prelude::*;

verus! {

/// The typing player: a named, positioned actor.
pub struct Player {
    pub pos_x: i64,
    pub pos_y: i64,
    pub name: String,
    pub font_size: u32,
}

/// A descending word-enemy; its word shrinks from the front as its letters
/// are matched.
pub struct Enemy {
    pub pos_x: i64,
    pub pos_y: i64,
    /// Downward speed in units per frame, before the level factor.
    pub speed: i64,
    /// The letters still to type.
    pub word: Vec<char>,
    pub font_size: u32,
}

} // verus!
