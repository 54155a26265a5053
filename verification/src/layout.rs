//! How a fresh field is laid out: bombs on the chosen cells, and on every
//! other cell the number of bombs that touch it.

use vstd::prelude::*;
use crate::cell::{Cell, CellState};
use crate::grid::{
    count_bombs, lemma_count_bombs_update, lemma_count_hidden_all, lemma_index_of, lemma_neighbors,
    state_for,
};
use crate::model::FieldView;
use crate::sampling::distinct_below;

verus! {

/// Tells whether the cell of index `i` is among the places chosen for bombs.
pub open spec fn laid_at(bombs: Seq<usize>, i: int) -> bool {
    exists|j: int| 0 <= j < bombs.len() && #[trigger] bombs[j] == i
}

/// The cell of index `i` once the bombs lie and before anything is counted.
pub open spec fn mined_cell(bombs: Seq<usize>, i: int) -> Cell {
    Cell {
        state: if laid_at(bombs, i) {
            CellState::Bomb
        } else {
            CellState::Empty
        },
        hidden: true,
    }
}

/// A grid of `w` columns and `h` rows with bombs on the cells whose indices
/// are in `bombs`, all covered, nothing counted yet.
pub open spec fn mined(w: int, h: int, bombs: Seq<usize>) -> FieldView {
    FieldView {
        width: w,
        height: h,
        cells: Seq::new((w * h) as nat, |i: int| mined_cell(bombs, i)),
        n_bombs: bombs.len() as int,
        n_hidden: w * h,
        mouse: (0, 0),
    }
}

/// The cell of index `i` of a fresh field: a bomb where one was laid,
/// otherwise the number of bombs that touch the cell.
pub open spec fn fresh_cell(w: int, h: int, bombs: Seq<usize>, i: int) -> Cell {
    Cell {
        state: if laid_at(bombs, i) {
            CellState::Bomb
        } else {
            state_for(mined(w, h, bombs).bombs_around(i % w, i / w))
        },
        hidden: true,
    }
}

/// The field at the start of a game: `w` columns and `h` rows, bombs on the
/// cells whose indices are in `bombs`, every cell covered, the pointer in the
/// corner.
pub open spec fn fresh(w: int, h: int, bombs: Seq<usize>) -> FieldView {
    FieldView {
        cells: Seq::new((w * h) as nat, |i: int| fresh_cell(w, h, bombs, i)),
        ..mined(w, h, bombs)
    }
}

/// Tells whether two fields of one shape have their bombs on the same cells.
pub open spec fn same_bombs(a: FieldView, b: FieldView) -> bool {
    &&& a.width == b.width
    &&& a.height == b.height
    &&& a.cells.len() == b.cells.len()
    &&& forall|i: int|
        0 <= i < a.cells.len() ==> (#[trigger] a.cells[i]).state.is_bomb() == b.cells[i].state.is_bomb()
}

/// No more of `places` hold a bomb than there are places.
pub proof fn lemma_bombs_among_bound(v: FieldView, spots: Seq<(int, int)>)
    ensures
        v.bombs_among(spots) <= spots.len(),
    decreases spots.len(),
{
    if spots.len() > 0 {
        lemma_bombs_among_bound(v, spots.drop_last());
    }
}

/// Fields with their bombs on the same cells count the same number of bombs
/// among any cells of the grid.
pub proof fn lemma_bombs_among_agree(a: FieldView, b: FieldView, spots: Seq<(int, int)>)
    requires
        a.shaped(),
        same_bombs(a, b),
        forall|k: int| 0 <= k < spots.len() ==> a.inside((#[trigger] spots[k]).0, spots[k].1),
    ensures
        a.bombs_among(spots) == b.bombs_among(spots),
    decreases spots.len(),
{
    if spots.len() > 0 {
        let front = spots.drop_last();
        assert forall|k: int| 0 <= k < front.len() implies a.inside((#[trigger] front[k]).0, front[k].1) by {
            assert(front[k] == spots[k]);
        }
        lemma_bombs_among_agree(a, b, front);
        let q = spots.last();
        assert(a.inside(q.0, q.1));
        lemma_index_of(a.width, a.height, q.0, q.1);
    }
}

/// Fields with their bombs on the same cells have the same number of bombs
/// around every place.
pub proof fn lemma_bombs_around_agree(a: FieldView, b: FieldView, x: int, y: int)
    requires
        a.shaped(),
        same_bombs(a, b),
    ensures
        a.bombs_around(x, y) == b.bombs_around(x, y),
        a.bombs_around(x, y) <= 8,
{
    lemma_neighbors(a.width, a.height, x, y);
    let spots = a.around(x, y);
    assert forall|k: int| 0 <= k < spots.len() implies a.inside((#[trigger] spots[k]).0, spots[k].1) by {
        assert(spots.contains((spots[k].0, spots[k].1)));
    }
    lemma_bombs_among_agree(a, b, spots);
    lemma_bombs_among_bound(a, spots);
}

/// Cell lists with their bombs at the same indices hold the same number of
/// bombs.
pub proof fn lemma_count_bombs_agree(a: Seq<Cell>, b: Seq<Cell>)
    requires
        a.len() == b.len(),
        forall|i: int| 0 <= i < a.len() ==> (#[trigger] a[i]).state.is_bomb() == b[i].state.is_bomb(),
    ensures
        count_bombs(a) == count_bombs(b),
    decreases a.len(),
{
    if a.len() > 0 {
        let fa = a.drop_last();
        let fb = b.drop_last();
        assert forall|i: int| 0 <= i < fa.len() implies (#[trigger] fa[i]).state.is_bomb()
            == fb[i].state.is_bomb() by {
            assert(a[i].state.is_bomb() == b[i].state.is_bomb());
        }
        lemma_count_bombs_agree(fa, fb);
        assert(a[a.len() - 1].state.is_bomb() == b[a.len() - 1].state.is_bomb());
    }
}

/// A list of cells none of which holds a bomb holds no bomb.
pub proof fn lemma_count_bombs_none(cells: Seq<Cell>)
    requires
        forall|i: int| 0 <= i < cells.len() ==> !(#[trigger] cells[i]).state.is_bomb(),
    ensures
        count_bombs(cells) == 0,
    decreases cells.len(),
{
    if cells.len() > 0 {
        let front = cells.drop_last();
        assert forall|i: int| 0 <= i < front.len() implies !(#[trigger] front[i]).state.is_bomb() by {
            assert(!cells[i].state.is_bomb());
        }
        lemma_count_bombs_none(front);
        assert(!cells[cells.len() - 1].state.is_bomb());
    }
}

/// Laying bombs on different cells of the grid puts as many bombs on it as
/// there are places chosen.
pub proof fn lemma_mined_count(w: int, h: int, bombs: Seq<usize>)
    requires
        0 <= w,
        0 <= h,
        distinct_below(bombs, w * h),
    ensures
        count_bombs(mined(w, h, bombs).cells) == bombs.len(),
    decreases bombs.len(),
{
    let now = mined(w, h, bombs).cells;
    if bombs.len() == 0 {
        lemma_count_bombs_none(now);
    } else {
        let earlier = bombs.drop_last();
        let b = bombs.last() as int;
        assert(distinct_below(earlier, w * h)) by {
            assert(forall|i: int| 0 <= i < earlier.len() ==> earlier[i] == bombs[i]);
        }
        lemma_mined_count(w, h, earlier);
        let before = mined(w, h, earlier).cells;
        assert(bombs[bombs.len() - 1] < w * h);
        assert(!laid_at(earlier, b)) by {
            if laid_at(earlier, b) {
                let j = choose|j: int| 0 <= j < earlier.len() && #[trigger] earlier[j] == b;
                assert(bombs[j] == bombs[bombs.len() - 1]);
            }
        }
        assert(laid_at(bombs, b));
        assert forall|i: int| 0 <= i < now.len() implies now[i] == before.update(b, mined_cell(bombs, b))[i] by {
            if i != b {
                if laid_at(bombs, i) {
                    let j = choose|j: int| 0 <= j < bombs.len() && #[trigger] bombs[j] == i;
                    assert(j < earlier.len());
                    assert(earlier[j] == i);
                }
                if laid_at(earlier, i) {
                    let j = choose|j: int| 0 <= j < earlier.len() && #[trigger] earlier[j] == i;
                    assert(bombs[j] == i);
                }
            }
        }
        assert(now =~= before.update(b, mined_cell(bombs, b)));
        lemma_count_bombs_update(before, b, mined_cell(bombs, b));
    }
}

/// A fresh field is well formed: it holds as many bombs as places were
/// chosen, every cell without a bomb shows the number of bombs that touch
/// it, and every cell is covered.
pub proof fn lemma_fresh_wf(w: int, h: int, bombs: Seq<usize>)
    requires
        0 <= w,
        0 <= h,
        distinct_below(bombs, w * h),
    ensures
        fresh(w, h, bombs).wf(),
        fresh(w, h, bombs).n_bombs == bombs.len(),
        fresh(w, h, bombs).n_hidden == w * h,
        forall|i: int| 0 <= i < w * h ==> (#[trigger] fresh(w, h, bombs).cells[i]).hidden,
        forall|i: int|
            0 <= i < w * h ==> ((#[trigger] fresh(w, h, bombs).cells[i]).state.is_bomb() <==> laid_at(
                bombs,
                i,
            )),
        forall|i: int|
            0 <= i < w * h ==> (#[trigger] fresh(w, h, bombs).cells[i]).state != CellState::DeathBomb,
{
    let f = fresh(w, h, bombs);
    let m = mined(w, h, bombs);
    assert(0 <= w * h) by (nonlinear_arith)
        requires
            0 <= w,
            0 <= h,
    ;
    assert(same_bombs(m, f));
    assert(same_bombs(f, m));
    lemma_mined_count(w, h, bombs);
    lemma_count_bombs_agree(f.cells, m.cells);
    lemma_count_hidden_all(f.cells);
    assert forall|x: int, y: int| f.inside(x, y) && !(#[trigger] f.at(x, y)).state.is_bomb() implies f.at(
        x,
        y,
    ).state == state_for(f.bombs_around(x, y)) by {
        lemma_index_of(w, h, x, y);
        lemma_bombs_around_agree(f, m, x, y);
    }
}

} // verus!
