//! Core engine of a typing-practice arcade game with a companion
//! triangle-art editor: mode management, word streams, and the
//! colored-triangle geometry store.

use vstd::prelude::*;

pub mod codec;
pub mod color;
pub mod game;
pub mod geometry;
pub mod manager;
pub mod objects;
pub mod paint;
pub mod text;
pub mod ui;
pub mod wording;
pub mod xml;

verus! {

/// Identity of one exclusive interactive application mode.
#[derive(PartialEq, Eq, Structural, Clone, Copy, Debug, Hash)]
pub enum States {
    StartScreen,
    Game,
    Pause,
    NextLevel,
    Victory,
    Quit,
    Paint,
}

/// The keys the engine reacts to; every other key arrives as `Other`.
#[derive(PartialEq, Eq, Structural, Clone, Copy, Debug)]
pub enum Key {
    Escape,
    S,
    N,
    W,
    X,
    Q,
    H,
    J,
    K,
    L,
    I,
    O,
    Equals,
    Subtract,
    Other,
}

/// The mouse buttons the engine distinguishes.
#[derive(PartialEq, Eq, Structural, Clone, Copy, Debug)]
pub enum MouseButton {
    Left,
    Right,
    Middle,
    Other,
}

} // verus!
