//! The phases of the game as a whole.

use vstd::prelude::*;

verus! {

#[derive(PartialEq, Eq, Structural, Copy, Clone)]
pub enum GameState {
    Initializing,
    Initialized,
    GeneratingMap,
    LoadingMap,
    InGame,
    Shutdown,
    Error,
}

} // verus!
