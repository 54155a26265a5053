//! A single cell of the field and the tile it is drawn with.

use vstd::prelude::*;

verus! {

/// What lies in a cell.
///
/// `DeathBomb` is the bomb that was clicked; it is drawn differently from the
/// other bombs and counts as a bomb everywhere else.
#[derive(Debug, Clone, Copy, PartialEq, Eq, Structural)]
pub enum CellState {
    Value(u8),
    Empty,
    Bomb,
    DeathBomb,
}

/// A cell: what lies in it, and whether the player has uncovered it.
#[derive(Debug, Clone, Copy, PartialEq, Eq, Structural)]
pub struct Cell {
    pub state: CellState,
    pub hidden: bool,
}

impl CellState {
    /// A bomb, whether or not it is the one that ended the game.
    pub open spec fn is_bomb(self) -> bool {
        self == CellState::Bomb || self == CellState::DeathBomb
    }

    /// The index of the tile that shows this state once uncovered.
    pub open spec fn tile(self) -> int {
        match self {
            CellState::DeathBomb => 1,
            CellState::Bomb => 2,
            CellState::Empty => 3,
            CellState::Value(n) => 3 + n,
        }
    }

    /// Tells whether this state is a bomb.
    pub fn holds_bomb(&self) -> (b: bool)
        ensures
            b == self.is_bomb(),
    {
        match self {
            CellState::Bomb => true,
            CellState::DeathBomb => true,
            _ => false,
        }
    }
}

impl Cell {
    /// A covered cell holding `state`.
    pub open spec fn covered_spec(state: CellState) -> Cell {
        Cell { state, hidden: true }
    }

    /// Makes a covered cell holding `state`.
    #[verifier::when_used_as_spec(covered_spec)]
    pub fn covered(state: CellState) -> (c: Cell)
        ensures
            c == Cell::covered_spec(state),
    {
        Cell { state, hidden: true }
    }

    /// The index of the tile this cell is drawn with: 0 while it is covered,
    /// otherwise the tile of its state.
    pub open spec fn tile(self) -> int {
        if self.hidden {
            0
        } else {
            self.state.tile()
        }
    }

    /// Computes the index of the tile this cell is drawn with.
    pub fn visual_index(&self) -> (t: usize)
        ensures
            t == self.tile(),
    {
        if self.hidden {
            0
        } else {
            match self.state {
                CellState::DeathBomb => 1,
                CellState::Bomb => 2,
                CellState::Empty => 3,
                CellState::Value(n) => {
                    let wide: usize = n as usize;
                    3 + wide
                },
            }
        }
    }
}

} // verus!
