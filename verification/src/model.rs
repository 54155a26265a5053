//! The field as contracts see it: a grid of cells with its counters, and what
//! holds of it at all times.

use vstd::prelude::*;
use crate::cell::{Cell, CellState};
use crate::grid::{bomb_weight, count_bombs, count_hidden, in_grid, index_of, neighbors, state_for};

verus! {

/// A field as contracts see it.
pub struct FieldView {
    /// The number of columns.
    pub width: int,
    /// The number of rows.
    pub height: int,
    /// The cells, row by row.
    pub cells: Seq<Cell>,
    /// The number of bombs the field was made with.
    pub n_bombs: int,
    /// The number of cells recorded as still covered.
    pub n_hidden: int,
    /// The last known place of the pointer, in pixels.
    pub mouse: (u32, u32),
}

impl FieldView {
    /// Tells whether `(x, y)` is a cell of the field.
    pub open spec fn inside(self, x: int, y: int) -> bool {
        in_grid(self.width, self.height, x, y)
    }

    /// The cell at column `x` of row `y`.
    pub open spec fn at(self, x: int, y: int) -> Cell {
        self.cells[index_of(self.width, x, y)]
    }

    /// The cells of the field that touch `(x, y)`.
    pub open spec fn around(self, x: int, y: int) -> Seq<(int, int)> {
        neighbors(self.width, self.height, x, y)
    }

    /// How many of `places` hold a bomb.
    pub open spec fn bombs_among(self, places: Seq<(int, int)>) -> nat
        decreases places.len(),
    {
        if places.len() == 0 {
            0
        } else {
            self.bombs_among(places.drop_last()) + bomb_weight(
                self.at(places.last().0, places.last().1),
            )
        }
    }

    /// How many of the cells that touch `(x, y)` hold a bomb.
    pub open spec fn bombs_around(self, x: int, y: int) -> nat {
        self.bombs_among(self.around(x, y))
    }

    /// The grid is fully populated: one cell for each coordinate.
    pub open spec fn shaped(self) -> bool {
        &&& 0 <= self.width
        &&& 0 <= self.height
        &&& self.cells.len() == self.width * self.height
    }

    /// Every cell without a bomb shows how many bombs touch it.
    pub open spec fn numbered(self) -> bool {
        forall|x: int, y: int|
            self.inside(x, y) && !(#[trigger] self.at(x, y)).state.is_bomb() ==> self.at(x, y).state
                == state_for(self.bombs_around(x, y))
    }

    /// The counters and the numbers agree with the cells.
    pub open spec fn sound(self) -> bool {
        &&& self.shaped()
        &&& self.n_bombs == count_bombs(self.cells)
        &&& self.n_hidden == count_hidden(self.cells)
        &&& self.numbered()
    }

    /// At most one bomb is marked as the one that went off.
    pub open spec fn single_mark(self) -> bool {
        forall|i: int, j: int|
            0 <= i < self.cells.len() && 0 <= j < self.cells.len() && (#[trigger] self.cells[i]).state
                == CellState::DeathBomb && (#[trigger] self.cells[j]).state == CellState::DeathBomb
                ==> i == j
    }

    /// A bomb that went off ended the game: none is marked while a cell is
    /// counted as covered.
    pub open spec fn mark_ends(self) -> bool {
        forall|i: int|
            0 <= i < self.cells.len() && (#[trigger] self.cells[i]).state == CellState::DeathBomb
                ==> self.n_hidden == 0
    }

    /// What holds of a field at all times.
    pub open spec fn wf(self) -> bool {
        &&& self.sound()
        &&& self.single_mark()
        &&& self.mark_ends()
    }
}

/// What to draw for one cell: the tile of index `tile` at column `x` of row
/// `y`.
#[derive(Debug, Clone, Copy, PartialEq, Eq, Structural)]
pub struct Sprite {
    pub x: u32,
    pub y: u32,
    pub tile: usize,
}

impl FieldView {
    /// The field with the cell `(x, y)` replaced by `c`.
    pub open spec fn with_cell(self, x: int, y: int, c: Cell) -> FieldView {
        FieldView { cells: self.cells.update(index_of(self.width, x, y), c), ..self }
    }

    /// What to draw for the cell of index `i`.
    pub open spec fn sprite(self, i: int) -> Sprite {
        Sprite {
            x: (i % self.width) as u32,
            y: (i / self.width) as u32,
            tile: self.cells[i].tile() as usize,
        }
    }

    /// What to draw for the whole field, row by row.
    pub open spec fn drawn(self) -> Seq<Sprite> {
        Seq::new(self.cells.len(), |i: int| self.sprite(i))
    }
}

/// A list of coordinates as contracts see it.
pub open spec fn places(v: Seq<(u32, u32)>) -> Seq<(int, int)> {
    Seq::new(v.len(), |i: int| (v[i].0 as int, v[i].1 as int))
}

} // verus!
