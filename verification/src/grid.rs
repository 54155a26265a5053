//! The mathematics of the grid: coordinates, adjacency and counting.
//!
//! Cells are kept row by row in one sequence; the cell at column `x` of row
//! `y` has index `y * width + x`.

use vstd::prelude::*;
use vstd::arithmetic::div_mod::{lemma_fundamental_div_mod, lemma_fundamental_div_mod_converse};
use crate::cell::{Cell, CellState};

verus! {

/// Tells whether `(x, y)` lies on a grid of `w` columns and `h` rows.
pub open spec fn in_grid(w: int, h: int, x: int, y: int) -> bool {
    0 <= x < w && 0 <= y < h
}

/// The place of `(x, y)` in the row-by-row sequence of cells.
pub open spec fn index_of(w: int, x: int, y: int) -> int {
    y * w + x
}

/// Every coordinate of the grid has an index of its own below `w * h`, from
/// which the coordinate is recovered by division.
pub proof fn lemma_index_of(w: int, h: int, x: int, y: int)
    requires
        in_grid(w, h, x, y),
    ensures
        0 <= index_of(w, x, y) < w * h,
        index_of(w, x, y) % w == x,
        index_of(w, x, y) / w == y,
{
    assert(0 <= y * w) by (nonlinear_arith)
        requires
            0 <= y,
            0 <= w,
    ;
    assert(y * w + w <= w * h) by (nonlinear_arith)
        requires
            y + 1 <= h,
            0 <= w,
    ;
    lemma_fundamental_div_mod_converse(index_of(w, x, y), w, y, x);
}

/// Every index below `w * h` is the index of one coordinate of the grid.
pub proof fn lemma_coordinate_of(w: int, h: int, i: int)
    requires
        0 <= w,
        0 <= h,
        0 <= i < w * h,
    ensures
        in_grid(w, h, i % w, i / w),
        index_of(w, i % w, i / w) == i,
{
    assert(w > 0) by (nonlinear_arith)
        requires
            0 <= w,
            0 < w * h,
    ;
    lemma_fundamental_div_mod(i, w);
    let q = i / w;
    let r = i % w;
    assert(w * q == q * w) by (nonlinear_arith);
    assert(0 <= r < w);
    assert(0 <= q) by (nonlinear_arith)
        requires
            0 <= q * w + r,
            r < w,
            0 < w,
    ;
    assert(q < h) by (nonlinear_arith)
        requires
            q * w + r < w * h,
            0 <= r,
            0 < w,
    ;
}

/// Tells whether `(qx, qy)` touches `(x, y)` by an edge or a corner.
pub open spec fn adjacent(x: int, y: int, qx: int, qy: int) -> bool {
    &&& x - 1 <= qx <= x + 1
    &&& y - 1 <= qy <= y + 1
    &&& (qx, qy) != (x, y)
}

/// The `k`-th square of the three by three block around `(x, y)`, read row by
/// row from its upper left corner; the fifth one, `k == 4`, is `(x, y)`.
pub open spec fn block_square(x: int, y: int, k: int) -> (int, int) {
    (x - 1 + k % 3, y - 1 + k / 3)
}

/// Tells whether the `k`-th square around `(x, y)` is a neighbour on the grid.
pub open spec fn is_neighbor_square(w: int, h: int, x: int, y: int, k: int) -> bool {
    k != 4 && in_grid(w, h, block_square(x, y, k).0, block_square(x, y, k).1)
}

/// The neighbours of `(x, y)` among the first `k` squares around it.
pub open spec fn neighbors_upto(w: int, h: int, x: int, y: int, k: nat) -> Seq<(int, int)>
    decreases k,
{
    if k == 0 {
        Seq::empty()
    } else {
        let before = neighbors_upto(w, h, x, y, (k - 1) as nat);
        if is_neighbor_square(w, h, x, y, k - 1) {
            before.push(block_square(x, y, k - 1))
        } else {
            before
        }
    }
}

/// The neighbours of `(x, y)` on a grid of `w` columns and `h` rows: the
/// squares around it that lie on the grid, row by row.
pub open spec fn neighbors(w: int, h: int, x: int, y: int) -> Seq<(int, int)> {
    neighbors_upto(w, h, x, y, 9)
}

/// What the neighbours among the first `k` squares are: each square that
/// qualifies occurs, once, and nothing else does.
proof fn lemma_neighbors_upto(w: int, h: int, x: int, y: int, k: nat)
    requires
        k <= 9,
    ensures
        forall|q: (int, int)| #[trigger]
            neighbors_upto(w, h, x, y, k).contains(q) <==> exists|j: int|
                0 <= j < k && is_neighbor_square(w, h, x, y, j) && #[trigger] block_square(x, y, j)
                    == q,
        neighbors_upto(w, h, x, y, k).no_duplicates(),
        neighbors_upto(w, h, x, y, k).len() <= k,
        k > 4 ==> neighbors_upto(w, h, x, y, k).len() < k,
    decreases k,
{
    let now = neighbors_upto(w, h, x, y, k);
    if k > 0 {
        let before = neighbors_upto(w, h, x, y, (k - 1) as nat);
        let last = block_square(x, y, k - 1);
        lemma_neighbors_upto(w, h, x, y, (k - 1) as nat);
        if is_neighbor_square(w, h, x, y, k - 1) {
            assert(now == before.push(last));
            assert(!before.contains(last)) by {
                if before.contains(last) {
                    let j = choose|j: int|
                        0 <= j < k - 1 && is_neighbor_square(w, h, x, y, j) && #[trigger] block_square(
                            x,
                            y,
                            j,
                        ) == last;
                    assert(j % 3 == (k - 1) % 3 && j / 3 == (k - 1) / 3);
                }
            }
            assert forall|a: int, b: int| 0 <= a < now.len() && 0 <= b < now.len() && a != b implies now[a]
                != now[b] by {
                if a == before.len() {
                    assert(before.contains(now[b]));
                }
                if b == before.len() {
                    assert(before.contains(now[a]));
                }
            }
            assert forall|q: (int, int)| #[trigger] now.contains(q) implies exists|j: int|
                0 <= j < k && is_neighbor_square(w, h, x, y, j) && #[trigger] block_square(x, y, j)
                    == q by {
                let i = choose|i: int| 0 <= i < now.len() && now[i] == q;
                if i < before.len() {
                    assert(before.contains(q));
                    let j = choose|j: int|
                        0 <= j < k - 1 && is_neighbor_square(w, h, x, y, j) && #[trigger] block_square(
                            x,
                            y,
                            j,
                        ) == q;
                    assert(0 <= j < k && block_square(x, y, j) == q);
                } else {
                    assert(block_square(x, y, k - 1) == q);
                }
            }
            assert forall|q: (int, int)|
                (exists|j: int|
                    0 <= j < k && is_neighbor_square(w, h, x, y, j) && #[trigger] block_square(x, y, j)
                        == q) implies #[trigger] now.contains(q) by {
                let j = choose|j: int|
                    0 <= j < k && is_neighbor_square(w, h, x, y, j) && #[trigger] block_square(x, y, j)
                        == q;
                if j < k - 1 {
                    assert(before.contains(q));
                    let i = choose|i: int| 0 <= i < before.len() && before[i] == q;
                    assert(now[i] == q);
                } else {
                    assert(now[before.len() as int] == q);
                }
            }
        } else {
            assert(now == before);
            assert forall|q: (int, int)|
                (exists|j: int|
                    0 <= j < k && is_neighbor_square(w, h, x, y, j) && #[trigger] block_square(x, y, j)
                        == q) implies #[trigger] now.contains(q) by {
                let j = choose|j: int|
                    0 <= j < k && is_neighbor_square(w, h, x, y, j) && #[trigger] block_square(x, y, j)
                        == q;
                assert(j < k - 1);
            }
        }
    }
}

/// The neighbours of a square are exactly the squares of the grid that touch
/// it by an edge or a corner; none is listed twice, and there are at most
/// eight.
pub proof fn lemma_neighbors(w: int, h: int, x: int, y: int)
    ensures
        forall|qx: int, qy: int| #[trigger]
            neighbors(w, h, x, y).contains((qx, qy)) <==> in_grid(w, h, qx, qy) && adjacent(
                x,
                y,
                qx,
                qy,
            ),
        neighbors(w, h, x, y).no_duplicates(),
        neighbors(w, h, x, y).len() <= 8,
{
    lemma_neighbors_upto(w, h, x, y, 9);
    assert forall|qx: int, qy: int| #[trigger]
        neighbors(w, h, x, y).contains((qx, qy)) implies in_grid(w, h, qx, qy) && adjacent(
        x,
        y,
        qx,
        qy,
    ) by {
        let j = choose|j: int|
            0 <= j < 9 && is_neighbor_square(w, h, x, y, j) && #[trigger] block_square(x, y, j) == (
                qx,
                qy,
            );
        assert(0 <= j % 3 <= 2 && 0 <= j / 3 <= 2);
    }
    assert forall|qx: int, qy: int| in_grid(w, h, qx, qy) && adjacent(x, y, qx, qy) implies #[trigger]
        neighbors(w, h, x, y).contains((qx, qy)) by {
        let j = (qy - y + 1) * 3 + (qx - x + 1);
        assert(j % 3 == qx - x + 1 && j / 3 == qy - y + 1);
        assert(block_square(x, y, j) == (qx, qy));
        assert(is_neighbor_square(w, h, x, y, j));
    }
}

/// Touching is mutual: a square is a neighbour of each of its neighbours.
pub proof fn lemma_neighbors_mutual(w: int, h: int, x: int, y: int, qx: int, qy: int)
    requires
        in_grid(w, h, x, y),
    ensures
        neighbors(w, h, x, y).contains((qx, qy)) ==> neighbors(w, h, qx, qy).contains((x, y)),
{
    lemma_neighbors(w, h, x, y);
    lemma_neighbors(w, h, qx, qy);
}

/// How many of `cells` hold a bomb.
pub open spec fn count_bombs(cells: Seq<Cell>) -> nat
    decreases cells.len(),
{
    if cells.len() == 0 {
        0
    } else {
        count_bombs(cells.drop_last()) + bomb_weight(cells.last())
    }
}

/// One for a cell that holds a bomb, zero for any other.
pub open spec fn bomb_weight(c: Cell) -> nat {
    if c.state.is_bomb() {
        1
    } else {
        0
    }
}

/// How many of `cells` are still covered.
pub open spec fn count_hidden(cells: Seq<Cell>) -> nat
    decreases cells.len(),
{
    if cells.len() == 0 {
        0
    } else {
        count_hidden(cells.drop_last()) + hidden_weight(cells.last())
    }
}

/// One for a covered cell, zero for an uncovered one.
pub open spec fn hidden_weight(c: Cell) -> nat {
    if c.hidden {
        1
    } else {
        0
    }
}

/// The state of a cell without a bomb that has `n` bombs around it.
pub open spec fn state_for(n: nat) -> CellState {
    if n == 0 {
        CellState::Empty
    } else {
        CellState::Value(n as u8)
    }
}

/// No more cells hold a bomb than there are cells.
pub proof fn lemma_count_bombs_bound(cells: Seq<Cell>)
    ensures
        count_bombs(cells) <= cells.len(),
    decreases cells.len(),
{
    if cells.len() > 0 {
        lemma_count_bombs_bound(cells.drop_last());
    }
}

/// No more cells are covered than there are cells.
pub proof fn lemma_count_hidden_bound(cells: Seq<Cell>)
    ensures
        count_hidden(cells) <= cells.len(),
    decreases cells.len(),
{
    if cells.len() > 0 {
        lemma_count_hidden_bound(cells.drop_last());
    }
}

/// Replacing one cell changes the number of bombs by the difference between
/// the new cell and the old one.
pub proof fn lemma_count_bombs_update(cells: Seq<Cell>, i: int, c: Cell)
    requires
        0 <= i < cells.len(),
    ensures
        count_bombs(cells.update(i, c)) + bomb_weight(cells[i]) == count_bombs(cells) + bomb_weight(
            c,
        ),
    decreases cells.len(),
{
    let after = cells.update(i, c);
    if i == cells.len() - 1 {
        assert(after.drop_last() =~= cells.drop_last());
    } else {
        lemma_count_bombs_update(cells.drop_last(), i, c);
        assert(after.drop_last() =~= cells.drop_last().update(i, c));
    }
}

/// Replacing one cell changes the number of covered cells by the difference
/// between the new cell and the old one.
pub proof fn lemma_count_hidden_update(cells: Seq<Cell>, i: int, c: Cell)
    requires
        0 <= i < cells.len(),
    ensures
        count_hidden(cells.update(i, c)) + hidden_weight(cells[i]) == count_hidden(cells)
            + hidden_weight(c),
    decreases cells.len(),
{
    let after = cells.update(i, c);
    if i == cells.len() - 1 {
        assert(after.drop_last() =~= cells.drop_last());
    } else {
        lemma_count_hidden_update(cells.drop_last(), i, c);
        assert(after.drop_last() =~= cells.drop_last().update(i, c));
    }
}

/// Where no cell is covered, the number of covered cells is zero, and the
/// other way round.
pub proof fn lemma_count_hidden_zero(cells: Seq<Cell>)
    ensures
        count_hidden(cells) == 0 <==> forall|i: int| 0 <= i < cells.len() ==> !(#[trigger] cells[i]).hidden,
    decreases cells.len(),
{
    if cells.len() > 0 {
        let front = cells.drop_last();
        lemma_count_hidden_zero(front);
        assert(forall|i: int| 0 <= i < front.len() ==> front[i] == cells[i]);
        if count_hidden(cells) == 0 {
            assert forall|i: int| 0 <= i < cells.len() implies !(#[trigger] cells[i]).hidden by {
                if i < front.len() {
                    assert(!front[i].hidden);
                }
            }
        }
        if forall|i: int| 0 <= i < cells.len() ==> !(#[trigger] cells[i]).hidden {
            assert forall|i: int| 0 <= i < front.len() implies !(#[trigger] front[i]).hidden by {
                assert(!cells[i].hidden);
            }
            assert(!cells.last().hidden);
        }
    }
}

/// Where every cell is covered, the number of covered cells is the number of
/// cells.
pub proof fn lemma_count_hidden_all(cells: Seq<Cell>)
    requires
        forall|i: int| 0 <= i < cells.len() ==> (#[trigger] cells[i]).hidden,
    ensures
        count_hidden(cells) == cells.len(),
    decreases cells.len(),
{
    if cells.len() > 0 {
        let front = cells.drop_last();
        assert forall|i: int| 0 <= i < front.len() implies (#[trigger] front[i]).hidden by {
            assert(cells[i].hidden);
        }
        lemma_count_hidden_all(front);
        assert(cells.last().hidden);
    }
}

} // verus!
