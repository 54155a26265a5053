//! What uncovering a cell does: the cell is uncovered, and from an empty cell
//! the uncovering spreads to every cell that touches it.

use vstd::prelude::*;
use crate::cell::{Cell, CellState};
use crate::grid::{
    count_hidden, index_of, lemma_coordinate_of, lemma_count_hidden_update,
    lemma_count_hidden_zero, lemma_index_of, lemma_neighbors, state_for,
};
use crate::layout::{lemma_bombs_around_agree, lemma_count_bombs_agree, same_bombs};
use crate::model::FieldView;

verus! {

impl FieldView {
    /// Tells whether `t` is a way along which uncovering spreads: covered
    /// cells of the field, each but the last empty and touching the next.
    pub open spec fn is_trail(self, t: Seq<(int, int)>) -> bool {
        &&& t.len() > 0
        &&& forall|i: int|
            0 <= i < t.len() ==> self.inside((#[trigger] t[i]).0, t[i].1) && self.at(
                t[i].0,
                t[i].1,
            ).hidden
        &&& forall|i: int|
            0 <= i < t.len() - 1 ==> self.at((#[trigger] t[i]).0, t[i].1).state == CellState::Empty
                && self.around(t[i].0, t[i].1).contains(t[i + 1])
    }

    /// Tells whether uncovering `(sx, sy)` spreads to `(tx, ty)`.
    pub open spec fn reaches(self, sx: int, sy: int, tx: int, ty: int) -> bool {
        exists|t: Seq<(int, int)>| #[trigger]
            self.is_trail(t) && t[0] == (sx, sy) && t.last() == (tx, ty)
    }

    /// The cell of index `i` after `(x, y)` was uncovered.
    pub open spec fn revealed_cell(self, x: int, y: int, i: int) -> Cell {
        Cell {
            state: self.cells[i].state,
            hidden: self.cells[i].hidden && !self.reaches(x, y, i % self.width, i / self.width),
        }
    }

    /// The field after `(x, y)` was uncovered: every cell the uncovering
    /// spreads to is uncovered, nothing else changes, and the covered cells
    /// are counted anew.
    pub open spec fn revealed(self, x: int, y: int) -> FieldView {
        let cells = Seq::new(self.cells.len(), |i: int| self.revealed_cell(x, y, i));
        FieldView { cells, n_hidden: count_hidden(cells) as int, ..self }
    }

    /// The field with the covered cell `(x, y)` uncovered and nothing else
    /// changed.
    pub open spec fn opened_at(self, x: int, y: int) -> FieldView {
        FieldView {
            cells: self.cells.update(
                index_of(self.width, x, y),
                Cell { state: self.at(x, y).state, hidden: false },
            ),
            n_hidden: self.n_hidden - 1,
            ..self
        }
    }
}

/// Tells whether `cur` came from `v0` by uncovering cells and nothing else.
pub open spec fn opens_only(v0: FieldView, cur: FieldView) -> bool {
    &&& cur.width == v0.width
    &&& cur.height == v0.height
    &&& cur.cells.len() == v0.cells.len()
    &&& cur.n_bombs == v0.n_bombs
    &&& cur.mouse == v0.mouse
    &&& forall|x: int, y: int|
        v0.inside(x, y) ==> (#[trigger] cur.at(x, y)).state == v0.at(x, y).state && (cur.at(
            x,
            y,
        ).hidden ==> v0.at(x, y).hidden)
}

/// Tells whether `(x, y)` was covered in `v0` and is uncovered in `cur`.
pub open spec fn opened(v0: FieldView, cur: FieldView, x: int, y: int) -> bool {
    v0.at(x, y).hidden && !cur.at(x, y).hidden
}

/// Tells whether every cell uncovered since `v0` is one that uncovering
/// `(sx, sy)` spreads to.
pub open spec fn within_reach(v0: FieldView, cur: FieldView, sx: int, sy: int) -> bool {
    forall|x: int, y: int|
        cur.inside(x, y) && #[trigger] opened(v0, cur, x, y) ==> v0.reaches(sx, sy, x, y)
}

/// Tells whether every cell that touches `(x, y)` is uncovered.
pub open spec fn settled(cur: FieldView, x: int, y: int) -> bool {
    forall|q: (int, int)| #[trigger] cur.around(x, y).contains(q) ==> !cur.at(q.0, q.1).hidden
}

/// Tells whether the uncovering has spread from every empty cell uncovered
/// since `v0`, but for those in `pending`.
pub open spec fn closed_but(v0: FieldView, cur: FieldView, pending: Set<(int, int)>) -> bool {
    forall|x: int, y: int|
        cur.inside(x, y) && #[trigger] opened(v0, cur, x, y) && cur.at(x, y).state
            == CellState::Empty && !pending.contains((x, y)) ==> settled(cur, x, y)
}

/// Uncovering one cell leaves every other cell as it was.
pub proof fn lemma_opened_at(v: FieldView, x: int, y: int)
    requires
        v.shaped(),
        v.inside(x, y),
    ensures
        v.opened_at(x, y).shaped(),
        v.opened_at(x, y).at(x, y) == (Cell { state: v.at(x, y).state, hidden: false }),
        forall|a: int, b: int|
            v.inside(a, b) && (a, b) != (x, y) ==> #[trigger] v.opened_at(x, y).at(a, b) == v.at(
                a,
                b,
            ),
        v.at(x, y).hidden ==> count_hidden(v.opened_at(x, y).cells) == count_hidden(v.cells) - 1,
{
    lemma_index_of(v.width, v.height, x, y);
    assert forall|a: int, b: int| v.inside(a, b) && (a, b) != (x, y) implies #[trigger] v.opened_at(
        x,
        y,
    ).at(a, b) == v.at(a, b) by {
        lemma_index_of(v.width, v.height, a, b);
    }
    lemma_count_hidden_update(
        v.cells,
        index_of(v.width, x, y),
        Cell { state: v.at(x, y).state, hidden: false },
    );
}

/// Uncovering a covered cell reaches that cell.
pub proof fn lemma_reaches_start(v: FieldView, x: int, y: int)
    requires
        v.inside(x, y),
        v.at(x, y).hidden,
    ensures
        v.reaches(x, y, x, y),
{
    let t = seq![(x, y)];
    assert(v.is_trail(t));
    assert(t[0] == (x, y) && t.last() == (x, y));
}

/// From an empty cell that is reached, the uncovering reaches every covered
/// cell that touches it.
pub proof fn lemma_reaches_next(v: FieldView, sx: int, sy: int, px: int, py: int, qx: int, qy: int)
    requires
        v.reaches(sx, sy, px, py),
        v.at(px, py).state == CellState::Empty,
        v.around(px, py).contains((qx, qy)),
        v.inside(qx, qy),
        v.at(qx, qy).hidden,
    ensures
        v.reaches(sx, sy, qx, qy),
{
    let t = choose|t: Seq<(int, int)>| #[trigger]
        v.is_trail(t) && t[0] == (sx, sy) && t.last() == (px, py);
    let u = t.push((qx, qy));
    assert forall|i: int| 0 <= i < u.len() implies v.inside((#[trigger] u[i]).0, u[i].1) && v.at(
        u[i].0,
        u[i].1,
    ).hidden by {
        if i < t.len() {
            assert(u[i] == t[i]);
        }
    }
    assert forall|i: int| 0 <= i < u.len() - 1 implies v.at((#[trigger] u[i]).0, u[i].1).state
        == CellState::Empty && v.around(u[i].0, u[i].1).contains(u[i + 1]) by {
        assert(u[i] == t[i]);
        if i < t.len() - 1 {
            assert(u[i + 1] == t[i + 1]);
        }
    }
    assert(v.is_trail(u));
    assert(u[0] == t[0] && u.last() == (qx, qy));
}

/// Uncovering a cell that is uncovered already reaches nothing.
pub proof fn lemma_reaches_nothing(v: FieldView, x: int, y: int, tx: int, ty: int)
    requires
        !v.at(x, y).hidden,
    ensures
        !v.reaches(x, y, tx, ty),
{
    if v.reaches(x, y, tx, ty) {
        let t = choose|t: Seq<(int, int)>| #[trigger]
            v.is_trail(t) && t[0] == (x, y) && t.last() == (tx, ty);
        assert(v.at(t[0].0, t[0].1).hidden);
    }
}

/// Uncovering an uncovered cell changes nothing.
pub proof fn lemma_revealed_open(v: FieldView, x: int, y: int)
    requires
        v.n_hidden == count_hidden(v.cells),
        !v.at(x, y).hidden,
    ensures
        v.revealed(x, y) == v,
{
    assert forall|i: int| 0 <= i < v.cells.len() implies v.revealed_cell(x, y, i) == v.cells[i] by {
        lemma_reaches_nothing(v, x, y, i % v.width, i / v.width);
    }
    assert(v.revealed(x, y).cells =~= v.cells);
}

/// The first step of a reveal: the clicked cell is uncovered and waits for
/// the uncovering to spread from it.
pub proof fn lemma_open_first(v0: FieldView, sx: int, sy: int)
    requires
        v0.shaped(),
        v0.inside(sx, sy),
        v0.at(sx, sy).hidden,
    ensures
        opens_only(v0, v0.opened_at(sx, sy)),
        within_reach(v0, v0.opened_at(sx, sy), sx, sy),
        closed_but(v0, v0.opened_at(sx, sy), set![(sx, sy)]),
{
    let cur = v0.opened_at(sx, sy);
    lemma_opened_at(v0, sx, sy);
    lemma_reaches_start(v0, sx, sy);
    assert forall|x: int, y: int| v0.inside(x, y) implies (#[trigger] cur.at(x, y)).state == v0.at(
        x,
        y,
    ).state && (cur.at(x, y).hidden ==> v0.at(x, y).hidden) by {
        if (x, y) != (sx, sy) {
            assert(cur.at(x, y) == v0.at(x, y));
        }
    }
    assert forall|x: int, y: int| cur.inside(x, y) && #[trigger] opened(v0, cur, x, y) implies v0.reaches(
        sx,
        sy,
        x,
        y,
    ) by {
        if (x, y) != (sx, sy) {
            assert(cur.at(x, y) == v0.at(x, y));
        }
    }
    assert forall|x: int, y: int|
        cur.inside(x, y) && #[trigger] opened(v0, cur, x, y) && cur.at(x, y).state
            == CellState::Empty && !set![(sx, sy)].contains((x, y)) implies settled(cur, x, y) by {
        assert(cur.at(x, y) == v0.at(x, y));
    }
}

/// A later step of a reveal: a covered cell `(qx, qy)` that touches the
/// uncovered empty cell `(px, py)` is uncovered and waits in its turn.
pub proof fn lemma_open_next(
    v0: FieldView,
    cur: FieldView,
    pending: Set<(int, int)>,
    sx: int,
    sy: int,
    px: int,
    py: int,
    qx: int,
    qy: int,
)
    requires
        v0.shaped(),
        opens_only(v0, cur),
        within_reach(v0, cur, sx, sy),
        closed_but(v0, cur, pending),
        cur.inside(px, py),
        opened(v0, cur, px, py),
        cur.at(px, py).state == CellState::Empty,
        cur.around(px, py).contains((qx, qy)),
        cur.at(qx, qy).hidden,
    ensures
        opens_only(v0, cur.opened_at(qx, qy)),
        within_reach(v0, cur.opened_at(qx, qy), sx, sy),
        closed_but(v0, cur.opened_at(qx, qy), pending.insert((qx, qy))),
        forall|a: int, b: int|
            cur.inside(a, b) && !cur.at(a, b).hidden ==> !(#[trigger] cur.opened_at(qx, qy).at(
                a,
                b,
            )).hidden,
{
    let next = cur.opened_at(qx, qy);
    lemma_neighbors(cur.width, cur.height, px, py);
    assert(cur.inside(qx, qy));
    assert(cur.shaped());
    lemma_opened_at(cur, qx, qy);
    assert forall|x: int, y: int| v0.inside(x, y) implies (#[trigger] next.at(x, y)).state == v0.at(
        x,
        y,
    ).state && (next.at(x, y).hidden ==> v0.at(x, y).hidden) by {
        assert(cur.at(x, y).state == v0.at(x, y).state);
        if (x, y) != (qx, qy) {
            assert(next.at(x, y) == cur.at(x, y));
        }
    }
    assert forall|x: int, y: int| next.inside(x, y) && #[trigger] opened(v0, next, x, y) implies v0.reaches(
        sx,
        sy,
        x,
        y,
    ) by {
        if (x, y) == (qx, qy) {
            assert(cur.at(px, py).state == v0.at(px, py).state);
            assert(cur.at(qx, qy).hidden ==> v0.at(qx, qy).hidden);
            lemma_reaches_next(v0, sx, sy, px, py, qx, qy);
        } else {
            assert(next.at(x, y) == cur.at(x, y));
            assert(opened(v0, cur, x, y));
        }
    }
    assert forall|a: int, b: int| cur.inside(a, b) && !cur.at(a, b).hidden implies !(#[trigger] next.at(
        a,
        b,
    )).hidden by {
        if (a, b) != (qx, qy) {
            assert(next.at(a, b) == cur.at(a, b));
        }
    }
    assert forall|x: int, y: int|
        next.inside(x, y) && #[trigger] opened(v0, next, x, y) && next.at(x, y).state
            == CellState::Empty && !pending.insert((qx, qy)).contains((x, y)) implies settled(
        next,
        x,
        y,
    ) by {
        assert((x, y) != (qx, qy));
        assert(next.at(x, y) == cur.at(x, y));
        assert(opened(v0, cur, x, y));
        assert(settled(cur, x, y));
        lemma_neighbors(cur.width, cur.height, x, y);
        assert forall|q: (int, int)| #[trigger] next.around(x, y).contains(q) implies !next.at(
            q.0,
            q.1,
        ).hidden by {
            assert(cur.around(x, y).contains(q));
            assert(cur.around(x, y).contains((q.0, q.1)));
            assert(!cur.at(q.0, q.1).hidden);
            assert(!next.at(q.0, q.1).hidden);
        }
    }
}

/// Once every cell that touches an uncovered cell is uncovered, or the cell
/// is not empty, that cell waits no longer.
pub proof fn lemma_settle(v0: FieldView, cur: FieldView, pending: Set<(int, int)>, px: int, py: int)
    requires
        closed_but(v0, cur, pending),
        cur.at(px, py).state != CellState::Empty || settled(cur, px, py),
    ensures
        closed_but(v0, cur, pending.remove((px, py))),
{
    assert forall|x: int, y: int|
        cur.inside(x, y) && #[trigger] opened(v0, cur, x, y) && cur.at(x, y).state
            == CellState::Empty && !pending.remove((px, py)).contains((x, y)) implies settled(
        cur,
        x,
        y,
    ) by {
        if (x, y) != (px, py) {
            assert(!pending.contains((x, y)));
        }
    }
}

/// Along a way from the clicked cell, every cell is uncovered once nothing
/// waits any more.
proof fn lemma_trail_opened(v0: FieldView, cur: FieldView, t: Seq<(int, int)>, k: int)
    requires
        opens_only(v0, cur),
        closed_but(v0, cur, Set::empty()),
        v0.is_trail(t),
        !cur.at(t[0].0, t[0].1).hidden,
        0 <= k < t.len(),
    ensures
        !cur.at(t[k].0, t[k].1).hidden,
    decreases k,
{
    if k > 0 {
        lemma_trail_opened(v0, cur, t, k - 1);
        let p = t[k - 1];
        assert(v0.inside(p.0, p.1) && v0.at(p.0, p.1).hidden);
        assert(v0.at(p.0, p.1).state == CellState::Empty && v0.around(p.0, p.1).contains(t[k - 1 + 1]));
        assert(cur.at(p.0, p.1).state == v0.at(p.0, p.1).state);
        assert(opened(v0, cur, p.0, p.1));
        assert(settled(cur, p.0, p.1));
        assert(cur.around(p.0, p.1).contains(t[k]));
    }
}

/// The end of a reveal: once nothing waits any more, the field is the one
/// that the reveal is stated to give.
pub proof fn lemma_flood_complete(v0: FieldView, cur: FieldView, sx: int, sy: int)
    requires
        v0.shaped(),
        opens_only(v0, cur),
        within_reach(v0, cur, sx, sy),
        closed_but(v0, cur, Set::empty()),
        !cur.at(sx, sy).hidden,
        cur.n_hidden == count_hidden(cur.cells),
    ensures
        cur == v0.revealed(sx, sy),
{
    let goal = v0.revealed(sx, sy);
    assert forall|i: int| 0 <= i < cur.cells.len() implies cur.cells[i] == v0.revealed_cell(
        sx,
        sy,
        i,
    ) by {
        lemma_coordinate_of(v0.width, v0.height, i);
        let x = i % v0.width;
        let y = i / v0.width;
        assert(cur.at(x, y) == cur.cells[i]);
        assert(v0.at(x, y) == v0.cells[i]);
        if cur.cells[i].hidden {
            if v0.reaches(sx, sy, x, y) {
                let t = choose|t: Seq<(int, int)>| #[trigger]
                    v0.is_trail(t) && t[0] == (sx, sy) && t.last() == (x, y);
                lemma_trail_opened(v0, cur, t, t.len() - 1);
            }
        } else {
            if v0.cells[i].hidden {
                assert(opened(v0, cur, x, y));
            }
        }
    }
    assert(cur.cells =~= goal.cells);
}

/// Where only cells were uncovered, the cells show the states they showed,
/// and every cell that is covered was covered.
pub proof fn lemma_opens_only_cells(v0: FieldView, cur: FieldView)
    requires
        v0.shaped(),
        opens_only(v0, cur),
    ensures
        forall|i: int|
            0 <= i < v0.cells.len() ==> (#[trigger] cur.cells[i]).state == v0.cells[i].state && (
            cur.cells[i].hidden ==> v0.cells[i].hidden),
{
    assert forall|i: int| 0 <= i < v0.cells.len() implies (#[trigger] cur.cells[i]).state
        == v0.cells[i].state && (cur.cells[i].hidden ==> v0.cells[i].hidden) by {
        lemma_coordinate_of(v0.width, v0.height, i);
        assert(cur.at(i % v0.width, i / v0.width).state == v0.at(i % v0.width, i / v0.width).state);
    }
}

/// Uncovering cells keeps the counters and the numbers in agreement with
/// the cells, as long as the covered cells are counted.
pub proof fn lemma_opening_keeps_sound(v0: FieldView, cur: FieldView)
    requires
        v0.sound(),
        opens_only(v0, cur),
        cur.n_hidden == count_hidden(cur.cells),
    ensures
        cur.sound(),
{
    lemma_opens_only_cells(v0, cur);
    assert(same_bombs(v0, cur));
    lemma_count_bombs_agree(v0.cells, cur.cells);
    assert forall|x: int, y: int|
        cur.inside(x, y) && !(#[trigger] cur.at(x, y)).state.is_bomb() implies cur.at(x, y).state
        == state_for(cur.bombs_around(x, y)) by {
        lemma_bombs_around_agree(v0, cur, x, y);
        assert(cur.at(x, y).state == v0.at(x, y).state);
    }
}

/// Uncovering cells keeps a field well formed, as long as the covered cells
/// are counted.
pub proof fn lemma_opening_keeps_wf(v0: FieldView, cur: FieldView)
    requires
        v0.wf(),
        opens_only(v0, cur),
        cur.n_hidden == count_hidden(cur.cells),
    ensures
        cur.wf(),
{
    lemma_opening_keeps_sound(v0, cur);
    lemma_opens_only_cells(v0, cur);
    assert forall|i: int|
        0 <= i < cur.cells.len() && (#[trigger] cur.cells[i]).state
            == CellState::DeathBomb implies cur.n_hidden == 0 by {
        assert(v0.cells[i].state == CellState::DeathBomb);
        lemma_count_hidden_zero(v0.cells);
        assert forall|j: int| 0 <= j < cur.cells.len() implies !(#[trigger] cur.cells[j]).hidden by {
            assert(!v0.cells[j].hidden);
        }
        lemma_count_hidden_zero(cur.cells);
    }
    assert forall|i: int, j: int|
        0 <= i < cur.cells.len() && 0 <= j < cur.cells.len() && (#[trigger] cur.cells[i]).state
            == CellState::DeathBomb && (#[trigger] cur.cells[j]).state
            == CellState::DeathBomb implies i == j by {
        assert(v0.cells[i].state == CellState::DeathBomb);
        assert(v0.cells[j].state == CellState::DeathBomb);
    }
}

/// A reveal keeps a field well formed.
pub proof fn lemma_revealed_wf(v: FieldView, x: int, y: int)
    requires
        v.wf(),
    ensures
        v.revealed(x, y).wf(),
        opens_only(v, v.revealed(x, y)),
{
    let r = v.revealed(x, y);
    assert forall|a: int, b: int| v.inside(a, b) implies (#[trigger] r.at(a, b)).state == v.at(
        a,
        b,
    ).state && (r.at(a, b).hidden ==> v.at(a, b).hidden) by {
        lemma_index_of(v.width, v.height, a, b);
    }
    lemma_opening_keeps_wf(v, r);
}

} // verus!
