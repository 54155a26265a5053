//! The rules of a click: uncover, then lose on a bomb or win when only bombs
//! are left covered.

use vstd::prelude::*;
use crate::cell::{Cell, CellState};
use crate::field::CELL_SIZE;
use crate::flood::{lemma_opening_keeps_sound, lemma_revealed_wf, opens_only};
use crate::grid::{
    index_of, lemma_count_bombs_update, lemma_count_hidden_update, lemma_count_hidden_zero,
    lemma_index_of, state_for,
};
use crate::layout::{fresh, lemma_bombs_around_agree, lemma_fresh_wf, same_bombs};
use crate::model::FieldView;
use crate::sampling::distinct_below;

verus! {

impl FieldView {
    /// The field with every cell uncovered.
    pub open spec fn laid_open(self) -> FieldView {
        FieldView {
            cells: Seq::new(
                self.cells.len(),
                |i: int| Cell { state: self.cells[i].state, hidden: false },
            ),
            n_hidden: 0,
            ..self
        }
    }

    /// The field with the bomb at `(x, y)` marked as the one that went off.
    pub open spec fn blown_at(self, x: int, y: int) -> FieldView {
        FieldView {
            cells: self.cells.update(
                index_of(self.width, x, y),
                Cell { state: CellState::DeathBomb, hidden: self.at(x, y).hidden },
            ),
            ..self
        }
    }

    /// The field after a click on the cell `(x, y)`.
    ///
    /// Once every cell is uncovered the game is over, won or lost, and a
    /// click changes nothing until a new game is started. Before that the
    /// cell is uncovered; if it holds a bomb, that bomb goes off and the game
    /// is lost; if only bombs are left covered, the game is won; either way
    /// every cell is then uncovered.
    pub open spec fn pressed(self, x: int, y: int) -> FieldView {
        let r = self.revealed(x, y);
        if self.is_over() {
            self
        } else if r.at(x, y).state == CellState::Bomb {
            r.blown_at(x, y).laid_open()
        } else if r.n_hidden == r.n_bombs {
            r.laid_open()
        } else {
            r
        }
    }

    /// The cell under the pointer.
    pub open spec fn pointed(self) -> (int, int) {
        (self.mouse.0 as int / CELL_SIZE.0 as int, self.mouse.1 as int / CELL_SIZE.1 as int)
    }

    /// The field after a click where the pointer is. A click beside the grid
    /// does nothing.
    pub open spec fn clicked(self) -> FieldView {
        if self.inside(self.pointed().0, self.pointed().1) {
            self.pressed(self.pointed().0, self.pointed().1)
        } else {
            self
        }
    }

    /// A new game on a grid of the same size, with bombs on the cells whose
    /// indices are in `picks`; the pointer stays where it is.
    pub open spec fn restarted(self, picks: Seq<usize>) -> FieldView {
        FieldView { mouse: self.mouse, ..fresh(self.width, self.height, picks) }
    }

    /// Tells whether the game is over: no cell is counted as covered. In a
    /// well formed field that is when every cell is uncovered.
    pub open spec fn is_over(self) -> bool {
        self.n_hidden == 0
    }

    /// Tells whether no cell is covered.
    pub open spec fn all_open(self) -> bool {
        forall|i: int| 0 <= i < self.cells.len() ==> !(#[trigger] self.cells[i]).hidden
    }

    /// Tells whether the game is lost: a bomb went off.
    pub open spec fn is_lost(self) -> bool {
        exists|i: int| 0 <= i < self.cells.len() && (#[trigger] self.cells[i]).state == CellState::DeathBomb
    }

    /// Tells whether the game is won: every cell is uncovered and no bomb
    /// went off.
    pub open spec fn is_won(self) -> bool {
        self.all_open() && !self.is_lost()
    }
}

/// In a well formed field every cell is uncovered exactly when the count of
/// covered cells is zero.
pub proof fn lemma_all_open(v: FieldView)
    requires
        v.wf(),
    ensures
        v.all_open() <==> v.is_over(),
        v.all_open() ==> v.laid_open() == v,
{
    lemma_count_hidden_zero(v.cells);
    if v.all_open() {
        assert(v.laid_open().cells =~= v.cells);
    }
}

/// Moving the pointer keeps a field well formed.
pub proof fn lemma_pointer_moved_wf(v: FieldView, at: (u32, u32))
    requires
        v.wf(),
    ensures
        (FieldView { mouse: at, ..v }).wf(),
{
    let r = FieldView { mouse: at, ..v };
    assert(same_bombs(v, r));
    assert forall|a: int, b: int|
        r.inside(a, b) && !(#[trigger] r.at(a, b)).state.is_bomb() implies r.at(a, b).state
        == state_for(r.bombs_around(a, b)) by {
        lemma_bombs_around_agree(v, r, a, b);
        assert(r.at(a, b) == v.at(a, b));
    }
}

/// Uncovering every cell of a field in which at most one bomb went off
/// gives a well formed field.
pub proof fn lemma_laid_open_wf(v: FieldView)
    requires
        v.sound(),
        v.single_mark(),
    ensures
        v.laid_open().wf(),
        v.laid_open().all_open(),
        opens_only(v, v.laid_open()),
{
    let r = v.laid_open();
    assert forall|a: int, b: int| v.inside(a, b) implies (#[trigger] r.at(a, b)).state == v.at(
        a,
        b,
    ).state && (r.at(a, b).hidden ==> v.at(a, b).hidden) by {
        lemma_index_of(v.width, v.height, a, b);
    }
    lemma_count_hidden_zero(r.cells);
    lemma_opening_keeps_sound(v, r);
    assert forall|i: int, j: int|
        0 <= i < r.cells.len() && 0 <= j < r.cells.len() && (#[trigger] r.cells[i]).state
            == CellState::DeathBomb && (#[trigger] r.cells[j]).state
            == CellState::DeathBomb implies i == j by {
        assert(v.cells[i].state == CellState::DeathBomb);
        assert(v.cells[j].state == CellState::DeathBomb);
    }
}

/// Marking a bomb as the one that went off keeps the counters and the
/// numbers in agreement with the cells, and changes no other cell.
pub proof fn lemma_blown_at_sound(v: FieldView, x: int, y: int)
    requires
        v.sound(),
        v.inside(x, y),
        v.at(x, y).state.is_bomb(),
    ensures
        v.blown_at(x, y).sound(),
        v.blown_at(x, y).at(x, y).state == CellState::DeathBomb,
        forall|a: int, b: int|
            v.inside(a, b) && (a, b) != (x, y) ==> #[trigger] v.blown_at(x, y).at(a, b) == v.at(a, b),
{
    let r = v.blown_at(x, y);
    let at = index_of(v.width, x, y);
    let c = Cell { state: CellState::DeathBomb, hidden: v.at(x, y).hidden };
    lemma_index_of(v.width, v.height, x, y);
    lemma_count_bombs_update(v.cells, at, c);
    lemma_count_hidden_update(v.cells, at, c);
    assert forall|a: int, b: int| v.inside(a, b) && (a, b) != (x, y) implies #[trigger] r.at(a, b)
        == v.at(a, b) by {
        lemma_index_of(v.width, v.height, a, b);
    }
    assert(same_bombs(v, r));
    assert forall|a: int, b: int|
        r.inside(a, b) && !(#[trigger] r.at(a, b)).state.is_bomb() implies r.at(a, b).state
        == state_for(r.bombs_around(a, b)) by {
        lemma_bombs_around_agree(v, r, a, b);
        assert(r.at(a, b) == v.at(a, b));
    }
}

/// While a game goes on no bomb has gone off, so the bomb that is clicked is
/// the only one that is marked.
pub proof fn lemma_first_mark(v: FieldView, x: int, y: int)
    requires
        v.wf(),
        v.inside(x, y),
        !v.is_over(),
    ensures
        forall|i: int| 0 <= i < v.cells.len() ==> (#[trigger] v.cells[i]).state != CellState::DeathBomb,
        v.revealed(x, y).blown_at(x, y).single_mark(),
{
    let r = v.revealed(x, y);
    let d = r.blown_at(x, y);
    lemma_index_of(v.width, v.height, x, y);
    assert forall|i: int, j: int|
        0 <= i < d.cells.len() && 0 <= j < d.cells.len() && (#[trigger] d.cells[i]).state
            == CellState::DeathBomb && (#[trigger] d.cells[j]).state
            == CellState::DeathBomb implies i == j by {
        if i != index_of(v.width, x, y) {
            assert(v.cells[i].state == CellState::DeathBomb);
        }
        if j != index_of(v.width, x, y) {
            assert(v.cells[j].state == CellState::DeathBomb);
        }
    }
}

/// A click on a cell of the grid keeps a field well formed.
pub proof fn lemma_pressed_wf(v: FieldView, x: int, y: int)
    requires
        v.wf(),
        v.inside(x, y),
    ensures
        v.pressed(x, y).wf(),
{
    let r = v.revealed(x, y);
    lemma_revealed_wf(v, x, y);
    if v.is_over() {
    } else if r.at(x, y).state == CellState::Bomb {
        lemma_blown_at_sound(r, x, y);
        lemma_first_mark(v, x, y);
        lemma_laid_open_wf(r.blown_at(x, y));
    } else if r.n_hidden == r.n_bombs {
        lemma_laid_open_wf(r);
    }
}

/// A new game is well formed, has the size and the number of bombs asked
/// for, every cell covered, and the pointer where it was.
pub proof fn lemma_restarted_wf(v: FieldView, picks: Seq<usize>)
    requires
        0 <= v.width,
        0 <= v.height,
        distinct_below(picks, v.width * v.height),
    ensures
        v.restarted(picks).wf(),
        v.restarted(picks).width == v.width,
        v.restarted(picks).height == v.height,
        v.restarted(picks).n_bombs == picks.len(),
        v.restarted(picks).n_hidden == v.width * v.height,
        v.restarted(picks).mouse == v.mouse,
        !v.restarted(picks).is_lost(),
{
    lemma_fresh_wf(v.width, v.height, picks);
    let f = fresh(v.width, v.height, picks);
    let r = v.restarted(picks);
    assert(r.cells == f.cells);
    assert forall|a: int, b: int|
        r.inside(a, b) && !(#[trigger] r.at(a, b)).state.is_bomb() implies r.at(a, b).state
        == state_for(r.bombs_around(a, b)) by {
        assert(same_bombs(f, r));
        lemma_bombs_around_agree(f, r, a, b);
        assert(f.at(a, b) == r.at(a, b));
    }
}

} // verus!
