//! The level life-cycle state machine.
//!
//! Exactly one state is live at a time and gates every other component:
//! atoms move, collide and score only while the simulation is `Running`;
//! placements are validated only in `Placement`.

use vstd::prelude::*;

verus! {

/// Where the level currently stands in its life cycle.
#[derive(Clone, Copy, Debug, PartialEq, Eq, Structural)]
pub enum GameState {
    /// Accepting placements; the initial state, re-entered on reset.
    Placement,
    /// The simulation is ticking.
    Running,
    /// The goal was met; waiting for the continue signal.
    LevelComplete,
    /// A reset was requested; settles into `Placement` at the next tick.
    RestartLevel,
}

impl GameState {
    /// The state after the external start/stop toggle: it flips between
    /// `Placement` and `Running` and leaves any other state alone.
    pub open spec fn spec_toggled(self) -> GameState {
        match self {
            GameState::Placement => GameState::Running,
            GameState::Running => GameState::Placement,
            GameState::LevelComplete => GameState::LevelComplete,
            GameState::RestartLevel => GameState::RestartLevel,
        }
    }

    /// Applies the external start/stop toggle.
    pub fn toggled(&self) -> (r: GameState)
        ensures
            r == self.spec_toggled(),
    {
        match self {
            GameState::Placement => GameState::Running,
            GameState::Running => GameState::Placement,
            GameState::LevelComplete => GameState::LevelComplete,
            GameState::RestartLevel => GameState::RestartLevel,
        }
    }
}

} // verus!
