use vstd::prelude::*;

pub mod grid;
pub mod session;
pub mod tiles;

verus! {

/// Top-level application state. A resolution tick that runs the snake into a
/// game-over tile requests the transition back to `Menu`.
#[derive(Clone, Copy, PartialEq, Eq, Structural, Debug, Hash)]
pub enum GameState {
    Menu,
    Game,
}

} // verus!
