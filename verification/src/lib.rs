use vstd::prelude::*;

pub mod cli;
pub mod food;
pub mod frame;
pub mod game;
pub mod snake;
pub mod speed;

verus! {

/// The error kinds a game component can report.
#[derive(Clone, Copy, Debug, PartialEq, Eq, Structural)]
pub enum GameError {
    /// A render target lies outside the character grid.
    OutOfBounds,
    /// The snake moved into an occupied or off-grid cell.
    Collision,
    /// Food was requested while no cell of the board is free.
    NoFreeCell,
    /// The requested board dimensions cannot host a game.
    StartupConfig,
}

} // verus!
