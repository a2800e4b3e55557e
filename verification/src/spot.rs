//! A single spot of the field and the moves that change it.

use vstd::prelude::*;

verus! {

/// State of a spot in a minefield.
#[derive(Copy, Clone, PartialEq, Eq, Debug, Structural)]
pub enum SpotState {
    /// This spot has not been visited.
    HiddenEmpty { neighboring_mines: u8 },
    /// This is a hidden mine.
    HiddenMine,
    /// This spot is empty, but was flagged as a mine.
    FlaggedEmpty { neighboring_mines: u8 },
    /// This spot contains a mine which was correctly flagged.
    FlaggedMine,
    /// This spot is empty and was correctly revealed.
    RevealedEmpty { neighboring_mines: u8 },
    /// This spot contains a mine and was incorrectly revealed.
    ExplodedMine,
}

/// The result of stepping on a spot in the minefield.
#[derive(Copy, Clone, PartialEq, Eq, Debug, Structural)]
pub enum StepResult {
    /// Stepped on an empty spot.
    Phew,
    /// Stepped on a mine.
    Boom,
    /// Step not taken.
    Invalid,
}

/// The result of toggling a flag in the minefield.
#[derive(Copy, Clone, PartialEq, Eq, Debug, Structural)]
pub enum FlagToggleResult {
    /// An existing flag was removed.
    Removed,
    /// A flag was added.
    Added,
    /// No flag was placed or removed.
    Unchanged,
}

impl SpotState {
    /// Whether a mine lies under this spot, whatever the player knows of it.
    pub open spec fn is_mine(self) -> bool {
        self is HiddenMine || self is FlaggedMine || self is ExplodedMine
    }

    /// Whether the player has put a flag on this spot.
    pub open spec fn is_flagged(self) -> bool {
        self is FlaggedEmpty || self is FlaggedMine
    }

    /// Whether this spot needs no more attention: a revealed empty spot or a
    /// flagged mine.
    pub open spec fn is_resolved(self) -> bool {
        self is RevealedEmpty || self is FlaggedMine
    }

    /// The number of neighboring mines that an empty spot carries; 0 for a
    /// mine, which carries none.
    pub open spec fn count(self) -> int {
        match self {
            SpotState::HiddenEmpty { neighboring_mines } => neighboring_mines as int,
            SpotState::FlaggedEmpty { neighboring_mines } => neighboring_mines as int,
            SpotState::RevealedEmpty { neighboring_mines } => neighboring_mines as int,
            _ => 0,
        }
    }

    /// The state after a step: a hidden empty spot is revealed with its
    /// count, a hidden mine explodes, anything else stays as it is.
    pub open spec fn stepped(self) -> SpotState {
        match self {
            SpotState::HiddenEmpty { neighboring_mines } => SpotState::RevealedEmpty {
                neighboring_mines,
            },
            SpotState::HiddenMine => SpotState::ExplodedMine,
            _ => self,
        }
    }

    /// What a step on a spot in this state reports.
    pub open spec fn step_result(self) -> StepResult {
        match self {
            SpotState::HiddenEmpty { .. } => StepResult::Phew,
            SpotState::HiddenMine => StepResult::Boom,
            _ => StepResult::Invalid,
        }
    }

    /// The state after toggling the flag: hidden spots gain one, flagged
    /// spots lose it, revealed and exploded spots stay as they are.
    pub open spec fn flag_toggled(self) -> SpotState {
        match self {
            SpotState::HiddenEmpty { neighboring_mines } => SpotState::FlaggedEmpty {
                neighboring_mines,
            },
            SpotState::HiddenMine => SpotState::FlaggedMine,
            SpotState::FlaggedEmpty { neighboring_mines } => SpotState::HiddenEmpty {
                neighboring_mines,
            },
            SpotState::FlaggedMine => SpotState::HiddenMine,
            _ => self,
        }
    }

    /// What toggling the flag of a spot in this state reports.
    pub open spec fn flag_result(self) -> FlagToggleResult {
        match self {
            SpotState::HiddenEmpty { .. } | SpotState::HiddenMine => FlagToggleResult::Added,
            SpotState::FlaggedEmpty { .. } | SpotState::FlaggedMine => FlagToggleResult::Removed,
            _ => FlagToggleResult::Unchanged,
        }
    }

    /// The state of an empty spot once one more mine lies next to it; a mine
    /// carries no count and stays as it is.
    pub open spec fn with_one_more(self) -> SpotState {
        match self {
            SpotState::HiddenEmpty { neighboring_mines } => SpotState::HiddenEmpty {
                neighboring_mines: (neighboring_mines + 1) as u8,
            },
            SpotState::FlaggedEmpty { neighboring_mines } => SpotState::FlaggedEmpty {
                neighboring_mines: (neighboring_mines + 1) as u8,
            },
            SpotState::RevealedEmpty { neighboring_mines } => SpotState::RevealedEmpty {
                neighboring_mines: (neighboring_mines + 1) as u8,
            },
            _ => self,
        }
    }
}

/// A spot of the minefield.
#[derive(Copy, Clone, Debug)]
pub struct Spot {
    pub state: SpotState,
}

impl Spot {
    /// Step on this spot, if possible.
    pub fn step(&mut self) -> (result: StepResult)
        ensures
            final(self).state == old(self).state.stepped(),
            result == old(self).state.step_result(),
    {
        match self.state {
            SpotState::HiddenEmpty { neighboring_mines } => {
                self.state = SpotState::RevealedEmpty { neighboring_mines };
                StepResult::Phew
            },
            SpotState::HiddenMine => {
                self.state = SpotState::ExplodedMine;
                StepResult::Boom
            },
            _ => StepResult::Invalid,
        }
    }

    /// Toggle the flag on this spot, if possible.
    pub fn flag(&mut self) -> (result: FlagToggleResult)
        ensures
            final(self).state == old(self).state.flag_toggled(),
            result == old(self).state.flag_result(),
    {
        match self.state {
            SpotState::HiddenEmpty { neighboring_mines } => {
                self.state = SpotState::FlaggedEmpty { neighboring_mines };
                FlagToggleResult::Added
            },
            SpotState::HiddenMine => {
                self.state = SpotState::FlaggedMine;
                FlagToggleResult::Added
            },
            SpotState::FlaggedEmpty { neighboring_mines } => {
                self.state = SpotState::HiddenEmpty { neighboring_mines };
                FlagToggleResult::Removed
            },
            SpotState::FlaggedMine => {
                self.state = SpotState::HiddenMine;
                FlagToggleResult::Removed
            },
            _ => FlagToggleResult::Unchanged,
        }
    }

    /// Has this spot been dealt with, by a correct flag or a safe reveal?
    pub fn is_resolved(&self) -> (resolved: bool)
        ensures
            resolved == self.state.is_resolved(),
    {
        matches!(self.state, SpotState::FlaggedMine | SpotState::RevealedEmpty { .. })
    }
}

impl Default for Spot {
    /// A hidden empty spot with no mine next to it.
    fn default() -> (spot: Spot)
        ensures
            spot.state == (SpotState::HiddenEmpty { neighboring_mines: 0 }),
    {
        Spot { state: SpotState::HiddenEmpty { neighboring_mines: 0 } }
    }
}

} // verus!
