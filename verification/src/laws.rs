//! What holds of every reveal and of every click.

use vstd::prelude::*;
use crate::cell::{Cell, CellState};
use crate::flood::{lemma_reaches_start, lemma_revealed_open, lemma_revealed_wf};
use crate::grid::{
    count_hidden, index_of, lemma_count_bombs_bound, lemma_count_hidden_bound, lemma_index_of,
};
use crate::layout::{lemma_bombs_around_agree, same_bombs};
use crate::model::FieldView;
use crate::play::{
    lemma_all_open, lemma_blown_at_sound, lemma_first_mark, lemma_laid_open_wf, lemma_pressed_wf,
};

verus! {

/// A well formed field has no more bombs than cells, and no more covered
/// cells than cells.
pub proof fn lemma_counts_bounded(v: FieldView)
    requires
        v.wf(),
    ensures
        0 <= v.n_bombs <= v.width * v.height,
        0 <= v.n_hidden <= v.width * v.height,
{
    lemma_count_bombs_bound(v.cells);
    lemma_count_hidden_bound(v.cells);
}

/// In a well formed field a cell without a bomb is empty exactly when no
/// bomb touches it, and otherwise shows the number of bombs that touch it,
/// which is between one and eight.
pub proof fn lemma_numbers(v: FieldView, x: int, y: int)
    requires
        v.wf(),
        v.inside(x, y),
        !v.at(x, y).state.is_bomb(),
    ensures
        v.at(x, y).state == CellState::Empty <==> v.bombs_around(x, y) == 0,
        v.at(x, y).state != CellState::Empty ==> 1 <= v.bombs_around(x, y) <= 8 && v.at(x, y).state
            == CellState::Value(v.bombs_around(x, y) as u8),
        forall|n: u8| v.at(x, y).state == CellState::Value(n) ==> n == v.bombs_around(x, y),
{
    assert(same_bombs(v, v));
    lemma_bombs_around_agree(v, v, x, y);
}

/// In a well formed field at most one bomb is marked as the one that went
/// off, and if one is, the game is over: every cell is uncovered.
pub proof fn lemma_one_mark(v: FieldView)
    requires
        v.wf(),
    ensures
        forall|a: int, b: int, c: int, d: int|
            v.inside(a, b) && v.inside(c, d) && (#[trigger] v.at(a, b)).state == CellState::DeathBomb
                && (#[trigger] v.at(c, d)).state == CellState::DeathBomb ==> (a, b) == (c, d),
        v.is_lost() ==> v.all_open() && v.is_over(),
        !v.is_over() ==> forall|a: int, b: int|
            v.inside(a, b) ==> (#[trigger] v.at(a, b)).state != CellState::DeathBomb,
{
    lemma_all_open(v);
    assert forall|a: int, b: int, c: int, d: int|
        v.inside(a, b) && v.inside(c, d) && (#[trigger] v.at(a, b)).state == CellState::DeathBomb && (
        #[trigger] v.at(c, d)).state == CellState::DeathBomb implies (a, b) == (c, d) by {
        lemma_index_of(v.width, v.height, a, b);
        lemma_index_of(v.width, v.height, c, d);
        assert(v.cells[index_of(v.width, a, b)].state == CellState::DeathBomb);
        assert(v.cells[index_of(v.width, c, d)].state == CellState::DeathBomb);
    }
    if !v.is_over() {
        assert forall|a: int, b: int| v.inside(a, b) implies (#[trigger] v.at(a, b)).state
            != CellState::DeathBomb by {
            lemma_index_of(v.width, v.height, a, b);
            assert(v.cells[index_of(v.width, a, b)] == v.at(a, b));
        }
    }
}

/// How many cells are covered in `a` and uncovered in `b`.
pub open spec fn count_opened(a: Seq<Cell>, b: Seq<Cell>) -> nat
    decreases a.len(),
{
    if a.len() == 0 || a.len() != b.len() {
        0
    } else {
        count_opened(a.drop_last(), b.drop_last()) + if a.last().hidden && !b.last().hidden {
            1nat
        } else {
            0nat
        }
    }
}

/// Where cells were uncovered and none covered, the number of covered cells
/// fell by the number of cells that were uncovered.
pub proof fn lemma_count_opened(a: Seq<Cell>, b: Seq<Cell>)
    requires
        a.len() == b.len(),
        forall|i: int| 0 <= i < a.len() ==> ((#[trigger] b[i]).hidden ==> a[i].hidden),
    ensures
        count_hidden(a) == count_hidden(b) + count_opened(a, b),
    decreases a.len(),
{
    if a.len() > 0 {
        let fa = a.drop_last();
        let fb = b.drop_last();
        assert forall|i: int| 0 <= i < fa.len() && (#[trigger] fb[i]).hidden implies fa[i].hidden by {
            assert(b[i].hidden ==> a[i].hidden);
        }
        lemma_count_opened(fa, fb);
        assert(b[b.len() - 1].hidden ==> a[a.len() - 1].hidden);
    }
}

/// A reveal lowers the number of covered cells by the number of cells that
/// it uncovers, each counted once, and covers none.
pub proof fn lemma_reveal_counts(v: FieldView, x: int, y: int)
    requires
        v.wf(),
    ensures
        v.n_hidden - v.revealed(x, y).n_hidden == count_opened(v.cells, v.revealed(x, y).cells),
        v.revealed(x, y).n_hidden <= v.n_hidden,
        forall|i: int|
            0 <= i < v.cells.len() ==> ((#[trigger] v.revealed(x, y).cells[i]).hidden
                ==> v.cells[i].hidden),
{
    lemma_count_opened(v.cells, v.revealed(x, y).cells);
}

/// A reveal uncovers the cell it is asked for, and a second reveal of the
/// same cell changes nothing.
pub proof fn lemma_reveal_twice(v: FieldView, x: int, y: int)
    requires
        v.wf(),
        v.inside(x, y),
    ensures
        !v.revealed(x, y).at(x, y).hidden,
        v.revealed(x, y).revealed(x, y) == v.revealed(x, y),
{
    let r = v.revealed(x, y);
    lemma_index_of(v.width, v.height, x, y);
    if v.at(x, y).hidden {
        lemma_reaches_start(v, x, y);
    }
    lemma_revealed_open(r, x, y);
}

/// A reveal changes no state.
pub proof fn lemma_states_kept(v: FieldView, x: int, y: int)
    requires
        v.wf(),
    ensures
        forall|i: int|
            0 <= i < v.cells.len() ==> (#[trigger] v.revealed(x, y).cells[i]).state == v.cells[i].state,
        forall|a: int, b: int|
            v.inside(a, b) ==> (#[trigger] v.revealed(x, y).at(a, b)).state == v.at(a, b).state,
{
    lemma_revealed_wf(v, x, y);
}

/// A finished game stays as it is: once every cell is uncovered, a click
/// changes nothing, whatever it falls on. No second bomb goes off after a
/// loss, and no bomb goes off after a win.
pub proof fn lemma_finished_stays(v: FieldView, x: int, y: int)
    requires
        v.wf(),
        v.all_open(),
    ensures
        v.pressed(x, y) == v,
        v.clicked() == v,
{
    lemma_all_open(v);
}

/// A click that wins or loses finishes the game: every click after it
/// changes nothing.
pub proof fn lemma_end_is_final(v: FieldView, x: int, y: int, a: int, b: int)
    requires
        v.wf(),
        v.inside(x, y),
        v.pressed(x, y).all_open(),
    ensures
        v.pressed(x, y).pressed(a, b) == v.pressed(x, y),
{
    lemma_pressed_wf(v, x, y);
    lemma_all_open(v.pressed(x, y));
}

/// A bomb that is clicked while the game goes on goes off: it is marked,
/// every cell is uncovered, and every other cell keeps its state.
proof fn lemma_bomb_goes_off(v: FieldView, x: int, y: int)
    requires
        v.wf(),
        v.inside(x, y),
        v.at(x, y).state == CellState::Bomb,
        !v.is_over(),
    ensures
        v.pressed(x, y) == v.revealed(x, y).blown_at(x, y).laid_open(),
        v.pressed(x, y).at(x, y) == (Cell { state: CellState::DeathBomb, hidden: false }),
        v.pressed(x, y).all_open(),
        v.pressed(x, y).n_hidden == 0,
        v.pressed(x, y).is_lost(),
        v.pressed(x, y).wf(),
        v.pressed(x, y).n_bombs == v.n_bombs,
        forall|a: int, b: int|
            v.inside(a, b) && (a, b) != (x, y) ==> (#[trigger] v.pressed(x, y).at(a, b)).state == v.at(
                a,
                b,
            ).state,
{
    let r = v.revealed(x, y);
    let d = r.blown_at(x, y);
    let p = d.laid_open();
    lemma_index_of(v.width, v.height, x, y);
    lemma_states_kept(v, x, y);
    lemma_revealed_wf(v, x, y);
    assert(r.at(x, y).state == CellState::Bomb);
    lemma_blown_at_sound(r, x, y);
    lemma_first_mark(v, x, y);
    lemma_laid_open_wf(d);
    assert(p.cells[index_of(v.width, x, y)].state == CellState::DeathBomb);
    assert forall|a: int, b: int| v.inside(a, b) && (a, b) != (x, y) implies (#[trigger] p.at(
        a,
        b,
    )).state == v.at(a, b).state by {
        lemma_index_of(v.width, v.height, a, b);
        assert(d.at(a, b) == r.at(a, b));
        assert(r.at(a, b).state == v.at(a, b).state);
    }
}

/// Losing: a click on a covered bomb marks that bomb as the one that went
/// off and uncovers every cell; every other cell keeps its state, so the
/// other bombs stay plain bombs, and the number of bombs stays what it was.
pub proof fn lemma_lose(v: FieldView, x: int, y: int)
    requires
        v.wf(),
        v.inside(x, y),
        v.at(x, y).state == CellState::Bomb,
        v.at(x, y).hidden,
    ensures
        v.pressed(x, y) == v.revealed(x, y).blown_at(x, y).laid_open(),
        v.pressed(x, y).at(x, y) == (Cell { state: CellState::DeathBomb, hidden: false }),
        v.pressed(x, y).all_open(),
        v.pressed(x, y).n_hidden == 0,
        v.pressed(x, y).is_lost(),
        v.pressed(x, y).wf(),
        v.pressed(x, y).n_bombs == v.n_bombs,
        forall|a: int, b: int|
            v.inside(a, b) && (a, b) != (x, y) ==> (#[trigger] v.pressed(x, y).at(a, b)).state == v.at(
                a,
                b,
            ).state && v.at(a, b).state != CellState::DeathBomb,
{
    lemma_index_of(v.width, v.height, x, y);
    lemma_all_open(v);
    lemma_one_mark(v);
    lemma_bomb_goes_off(v, x, y);
}

/// Winning: a click on a cell without a bomb, after which only bombs are
/// left covered, leaves every cell uncovered and changes no state; unless a
/// bomb had gone off before, the game is then won.
pub proof fn lemma_win(v: FieldView, x: int, y: int)
    requires
        v.wf(),
        v.inside(x, y),
        v.at(x, y).state != CellState::Bomb,
        v.revealed(x, y).n_hidden == v.n_bombs,
    ensures
        v.pressed(x, y) == v.revealed(x, y).laid_open(),
        v.pressed(x, y).all_open(),
        v.pressed(x, y).n_hidden == 0,
        v.pressed(x, y).wf(),
        forall|a: int, b: int|
            v.inside(a, b) ==> (#[trigger] v.pressed(x, y).at(a, b)).state == v.at(a, b).state,
        !v.is_lost() ==> v.pressed(x, y).is_won(),
{
    let r = v.revealed(x, y);
    let p = r.laid_open();
    lemma_index_of(v.width, v.height, x, y);
    lemma_states_kept(v, x, y);
    lemma_revealed_wf(v, x, y);
    lemma_laid_open_wf(r);
    lemma_all_open(v);
    if v.is_over() {
        lemma_revealed_open(v, x, y);
    }
    assert(v.pressed(x, y) == p);
    assert forall|a: int, b: int| v.inside(a, b) implies (#[trigger] p.at(a, b)).state == v.at(
        a,
        b,
    ).state by {
        lemma_index_of(v.width, v.height, a, b);
        assert(r.at(a, b).state == v.at(a, b).state);
    }
    if p.is_lost() {
        let i = choose|i: int| 0 <= i < p.cells.len() && (#[trigger] p.cells[i]).state == CellState::DeathBomb;
        assert(r.cells[i].state == CellState::DeathBomb);
        assert(v.cells[i].state == CellState::DeathBomb);
    }
}

/// Playing on: a click on a cell without a bomb that leaves more cells
/// covered than there are bombs is a reveal and nothing more.
pub proof fn lemma_play_on(v: FieldView, x: int, y: int)
    requires
        v.wf(),
        v.inside(x, y),
        v.at(x, y).state != CellState::Bomb,
        v.revealed(x, y).n_hidden != v.n_bombs,
    ensures
        v.pressed(x, y) == v.revealed(x, y),
{
    lemma_index_of(v.width, v.height, x, y);
    lemma_states_kept(v, x, y);
    lemma_all_open(v);
    if v.is_over() {
        lemma_revealed_open(v, x, y);
    }
}

/// What a click on a cell of the grid comes to, case by case: nothing once
/// the game is over; a loss on a covered bomb; a win when only bombs are left
/// covered; otherwise a reveal. Whatever the case, the field stays well
/// formed, the clicked cell ends uncovered, and no other cell changes its
/// state.
pub proof fn lemma_click_outcomes(v: FieldView, x: int, y: int)
    requires
        v.wf(),
        v.inside(x, y),
    ensures
        v.pressed(x, y).wf(),
        v.pressed(x, y).width == v.width,
        v.pressed(x, y).height == v.height,
        v.pressed(x, y).n_bombs == v.n_bombs,
        v.pressed(x, y).mouse == v.mouse,
        !v.pressed(x, y).at(x, y).hidden,
        v.all_open() <==> v.is_over(),
        v.all_open() ==> v.pressed(x, y) == v,
        v.at(x, y).state == CellState::Bomb && v.at(x, y).hidden ==> {
            &&& v.pressed(x, y).at(x, y).state == CellState::DeathBomb
            &&& v.pressed(x, y).all_open()
            &&& v.pressed(x, y).n_hidden == 0
        },
        v.at(x, y).state != CellState::Bomb && v.revealed(x, y).n_hidden == v.n_bombs ==> v.pressed(
            x,
            y,
        ).all_open() && v.pressed(x, y).n_hidden == 0,
        v.at(x, y).state != CellState::Bomb && v.revealed(x, y).n_hidden != v.n_bombs ==> v.pressed(
            x,
            y,
        ) == v.revealed(x, y),
        forall|a: int, b: int|
            v.inside(a, b) && (a, b) != (x, y) ==> v.at(a, b).state == (#[trigger] v.pressed(x, y).at(
                a,
                b,
            )).state,
{
    lemma_all_open(v);
    lemma_index_of(v.width, v.height, x, y);
    if v.is_over() {
        assert(!v.cells[index_of(v.width, x, y)].hidden);
        lemma_revealed_open(v, x, y);
    } else if v.at(x, y).state == CellState::Bomb {
        lemma_bomb_goes_off(v, x, y);
    } else if v.revealed(x, y).n_hidden == v.n_bombs {
        lemma_win(v, x, y);
        assert(!v.pressed(x, y).cells[index_of(v.width, x, y)].hidden);
    } else {
        lemma_play_on(v, x, y);
        lemma_states_kept(v, x, y);
        lemma_revealed_wf(v, x, y);
        lemma_reveal_twice(v, x, y);
    }
}

} // verus!
