//! The field: a grid of cells with hidden bombs, uncovered click by click.

use vstd::prelude::*;
use crate::cell::{Cell, CellState};
use crate::flood::{
    closed_but, lemma_flood_complete, lemma_open_first, lemma_open_next, lemma_opened_at,
    lemma_opening_keeps_wf, lemma_revealed_open, lemma_revealed_wf, lemma_settle, opened,
    opens_only, settled, within_reach,
};
use crate::grid::{
    adjacent, count_hidden, index_of, lemma_count_bombs_bound, lemma_index_of, lemma_neighbors,
    neighbors_upto,
};
use crate::laws::{lemma_click_outcomes, lemma_reveal_counts, lemma_reveal_twice};
use crate::input::Button;
use crate::layout::{
    fresh, fresh_cell, laid_at, lemma_bombs_around_agree, lemma_fresh_wf, mined, mined_cell,
    same_bombs,
};
use crate::model::{places, FieldView, Sprite};
use crate::play::{lemma_pointer_moved_wf, lemma_restarted_wf};
use crate::sampling::{distinct_below, pick_indices};

verus! {

/// The size of a cell on screen, in pixels.
pub const CELL_SIZE: (u32, u32) = (16, 16);

/// Why a field could not be made.
#[derive(Debug, Clone, Copy, PartialEq, Eq, Structural)]
pub enum FieldError {
    /// More bombs were asked for than the grid has cells, or the places given
    /// for them are not different cells of the grid.
    InvalidConfiguration,
}

/// The field of one game.
pub struct Field {
    cells: Vec<Cell>,
    size: (u32, u32),
    n_bombs: usize,
    n_hidden: usize,
    mouse: (u32, u32),
}

impl View for Field {
    type V = FieldView;

    closed spec fn view(&self) -> FieldView {
        FieldView {
            width: self.size.0 as int,
            height: self.size.1 as int,
            cells: self.cells@,
            n_bombs: self.n_bombs as int,
            n_hidden: self.n_hidden as int,
            mouse: self.mouse,
        }
    }
}

impl Field {
    /// What holds of a field at all times.
    pub open spec fn wf(&self) -> bool {
        self@.wf()
    }

    /// The number of columns and of rows.
    pub fn size(&self) -> (s: (u32, u32))
        ensures
            s.0 == self@.width,
            s.1 == self@.height,
    {
        self.size
    }

    /// The number of bombs in the field.
    pub fn n_bombs(&self) -> (n: usize)
        ensures
            n == self@.n_bombs,
    {
        self.n_bombs
    }

    /// The number of cells that are still covered.
    pub fn n_hidden(&self) -> (n: usize)
        ensures
            n == self@.n_hidden,
    {
        self.n_hidden
    }

    /// The last known place of the pointer, in pixels.
    pub fn mouse(&self) -> (m: (u32, u32))
        ensures
            m == self@.mouse,
    {
        self.mouse
    }

    /// The place of `(x, y)` among the cells.
    fn offset(&self, x: u32, y: u32) -> (i: usize)
        requires
            self@.shaped(),
            self@.inside(x as int, y as int),
        ensures
            i == index_of(self@.width, x as int, y as int),
            i < self@.cells.len(),
    {
        let n: usize = self.cells.len();
        proof {
            lemma_index_of(self@.width, self@.height, x as int, y as int);
            assert(self@.width * self@.height == n);
            assert(index_of(self@.width, x as int, y as int) == y * self.size.0 + x);
        }
        (y as usize) * (self.size.0 as usize) + (x as usize)
    }

    /// The cell at column `x` of row `y`.
    pub fn cell_at(&self, x: u32, y: u32) -> (c: &Cell)
        requires
            self@.shaped(),
            self@.inside(x as int, y as int),
        ensures
            *c == self@.at(x as int, y as int),
    {
        let i = self.offset(x, y);
        &self.cells[i]
    }

    /// The cells of the field that touch `(x, y)`, row by row.
    pub fn adjacent_coords(&self, x: u32, y: u32) -> (v: Vec<(u32, u32)>)
        ensures
            places(v@) == self@.around(x as int, y as int),
            v@.len() <= 8,
            forall|k: int|
                0 <= k < v@.len() ==> self@.inside((#[trigger] v@[k]).0 as int, v@[k].1 as int)
                    && adjacent(x as int, y as int, v@[k].0 as int, v@[k].1 as int),
    {
        proof {
            lemma_neighbors(self@.width, self@.height, x as int, y as int);
        }
        let w: u64 = self.size.0 as u64;
        let h: u64 = self.size.1 as u64;
        let mut v: Vec<(u32, u32)> = Vec::with_capacity(8);
        let mut k: u64 = 0;
        assert(places(v@) =~= neighbors_upto(w as int, h as int, x as int, y as int, 0));
        while k < 9
            invariant
                k <= 9,
                w == self@.width,
                h == self@.height,
                places(v@) == neighbors_upto(w as int, h as int, x as int, y as int, k as nat),
            decreases 9 - k,
        {
            let qx: u64 = x as u64 + k % 3;
            let qy: u64 = y as u64 + k / 3;
            if k != 4 && 1 <= qx && qx <= w && 1 <= qy && qy <= h {
                let ghost before = v@;
                v.push(((qx - 1) as u32, (qy - 1) as u32));
                assert(places(v@) =~= places(before).push((qx - 1, qy - 1)));
            }
            k += 1;
        }
        proof {
            assert forall|k: int| 0 <= k < v@.len() implies self@.inside(
                (#[trigger] v@[k]).0 as int,
                v@[k].1 as int,
            ) && adjacent(x as int, y as int, v@[k].0 as int, v@[k].1 as int) by {
                let q = places(v@)[k];
                assert(self@.around(x as int, y as int).contains((q.0, q.1)));
            }
        }
        v
    }

    /// Counts the bombs on the cells that touch `(x, y)`.
    fn bombs_near(&self, x: u32, y: u32) -> (n: u8)
        requires
            self@.shaped(),
        ensures
            n == self@.bombs_around(x as int, y as int),
            n <= 8,
    {
        let near = self.adjacent_coords(x, y);
        let ghost spots = self@.around(x as int, y as int);
        proof {
            lemma_neighbors(self@.width, self@.height, x as int, y as int);
        }
        let mut n: u8 = 0;
        let mut k: usize = 0;
        while k < near.len()
            invariant
                k <= near.len(),
                near@.len() <= 8,
                self@.shaped(),
                places(near@) == spots,
                forall|q: (int, int)| spots.contains(q) ==> self@.inside(q.0, q.1),
                n == self@.bombs_among(spots.take(k as int)),
                n <= k,
            decreases near.len() - k,
        {
            let (qx, qy) = near[k];
            assert(spots[k as int] == (qx as int, qy as int));
            assert(spots.contains(spots[k as int]));
            assert(spots.take(k + 1).drop_last() =~= spots.take(k as int));
            if self.cell_at(qx, qy).state.holds_bomb() {
                n += 1;
            }
            k += 1;
        }
        assert(spots.take(k as int) =~= spots);
        n
    }

    /// Makes the field of `size.0` columns and `size.1` rows with bombs on the
    /// cells whose indices are in `bombs`, counted row by row.
    ///
    /// Fails when the indices are not different cells of the grid.
    pub fn with_bombs(size: (u32, u32), bombs: &Vec<usize>) -> (r: Result<Field, FieldError>)
        requires
            size.0 * size.1 <= usize::MAX,
        ensures
            r.is_ok() <==> distinct_below(bombs@, size.0 * size.1),
            r.is_ok() ==> r.unwrap()@ == fresh(size.0 as int, size.1 as int, bombs@),
            r.is_ok() ==> r.unwrap().wf(),
    {
        let ghost w = size.0 as int;
        let ghost h = size.1 as int;
        assert(0 <= w * h) by (nonlinear_arith)
            requires
                0 <= w,
                0 <= h,
        ;
        let n: usize = (size.0 as usize) * (size.1 as usize);
        let mut cells: Vec<Cell> = Vec::new();
        let mut i: usize = 0;
        while i < n
            invariant
                i <= n,
                cells@.len() == i,
                forall|j: int| 0 <= j < i ==> cells@[j] == Cell::covered_spec(CellState::Empty),
            decreases n - i,
        {
            cells.push(Cell::covered(CellState::Empty));
            i += 1;
        }
        let mut k: usize = 0;
        while k < bombs.len()
            invariant
                k <= bombs.len(),
                cells@.len() == n,
                n == w * h,
                w == size.0,
                h == size.1,
                distinct_below(bombs@.take(k as int), n as int),
                forall|j: int| 0 <= j < n ==> cells@[j] == mined_cell(bombs@.take(k as int), j),
            decreases bombs.len() - k,
        {
            let b = bombs[k];
            let ghost earlier = bombs@.take(k as int);
            let ghost upto = bombs@.take(k + 1);
            if b >= n {
                assert(!(bombs@[k as int] < n));
                return Err(FieldError::InvalidConfiguration);
            }
            if cells[b].state.holds_bomb() {
                proof {
                    let j = choose|j: int| 0 <= j < earlier.len() && #[trigger] earlier[j] == b;
                    assert(bombs@[j] == bombs@[k as int]);
                }
                return Err(FieldError::InvalidConfiguration);
            }
            cells.set(b, Cell::covered(CellState::Bomb));
            proof {
                assert(upto[k as int] == b);
                assert forall|a: int| 0 <= a < upto.len() implies (#[trigger] upto[a]) < n by {
                    if a < k {
                        assert(earlier[a] < n);
                    }
                }
                assert forall|a: int, c: int| 0 <= a < c < upto.len() implies upto[a] != upto[c] by {
                    if c < k {
                        assert(earlier[a] != earlier[c]);
                    } else {
                        if upto[a] == b {
                            assert(earlier[a] == b);
                            assert(laid_at(earlier, b as int));
                        }
                    }
                }
                assert forall|j: int| 0 <= j < n implies cells@[j] == mined_cell(upto, j) by {
                    if j == b {
                        assert(laid_at(upto, j));
                    } else {
                        if laid_at(upto, j) {
                            let a = choose|a: int| 0 <= a < upto.len() && #[trigger] upto[a] == j;
                            assert(earlier[a] == j);
                        }
                        if laid_at(earlier, j) {
                            let a = choose|a: int| 0 <= a < earlier.len() && #[trigger] earlier[a] == j;
                            assert(upto[a] == j);
                        }
                    }
                }
            }
            k += 1;
        }
        assert(bombs@.take(k as int) =~= bombs@);
        let mut field = Field { cells, size, n_hidden: n, n_bombs: bombs.len(), mouse: (0, 0) };
        assert(field@.cells =~= mined(w, h, bombs@).cells);
        assert(field@ == mined(w, h, bombs@));
        let ghost goal = fresh(w, h, bombs@);
        let ghost done: int = 0;
        let mut y: u32 = 0;
        while y < size.1
            invariant
                y <= size.1,
                done == y * w,
                0 <= done <= w * h,
                w == size.0,
                h == size.1,
                goal == fresh(w, h, bombs@),
                field@.cells.len() == w * h,
                field@ == (FieldView { cells: field@.cells, ..goal }),
                forall|j: int| 0 <= j < done ==> field@.cells[j] == fresh_cell(w, h, bombs@, j),
                forall|j: int| done <= j < w * h ==> field@.cells[j] == mined_cell(bombs@, j),
            decreases size.1 - y,
        {
            let mut x: u32 = 0;
            while x < size.0
                invariant
                    x <= size.0,
                    y < size.1,
                    done == y * w + x,
                    0 <= done <= w * h,
                    w == size.0,
                    h == size.1,
                    goal == fresh(w, h, bombs@),
                    field@.cells.len() == w * h,
                    field@ == (FieldView { cells: field@.cells, ..goal }),
                    forall|j: int| 0 <= j < done ==> field@.cells[j] == fresh_cell(w, h, bombs@, j),
                    forall|j: int| done <= j < w * h ==> field@.cells[j] == mined_cell(bombs@, j),
                decreases size.0 - x,
            {
                let at = field.offset(x, y);
                proof {
                    lemma_index_of(w, h, x as int, y as int);
                    assert(same_bombs(field@, mined(w, h, bombs@)));
                    lemma_bombs_around_agree(field@, mined(w, h, bombs@), x as int, y as int);
                }
                if !field.cells[at].state.holds_bomb() {
                    let near = field.bombs_near(x, y);
                    if near > 0 {
                        field.cells.set(at, Cell::covered(CellState::Value(near)));
                    }
                }
                proof {
                    done = done + 1;
                }
                x += 1;
            }
            proof {
                assert(y * w + w == (y + 1) * w) by (nonlinear_arith);
            }
            y += 1;
        }
        proof {
            assert(done == w * h) by (nonlinear_arith)
                requires
                    done == y * w,
                    y == h,
            ;
            assert(field@.cells =~= goal.cells);
            lemma_fresh_wf(w, h, bombs@);
        }
        Ok(field)
    }

    /// Makes a field of `size.0` columns and `size.1` rows with `bombs` bombs
    /// on cells drawn from `rng`, every cell covered.
    ///
    /// Fails when there are fewer cells than bombs.
    pub fn new(rng: &mut rand::rngs::ThreadRng, size: (u32, u32), bombs: usize) -> (r: Result<
        Field,
        FieldError,
    >)
        requires
            size.0 * size.1 <= usize::MAX,
        ensures
            r.is_ok() <==> bombs <= size.0 * size.1,
            r.is_ok() ==> r.unwrap().wf() && r.unwrap()@.n_bombs == bombs,
            r.is_ok() ==> exists|picks: Seq<usize>|
                picks.len() == bombs && distinct_below(picks, size.0 * size.1) && r.unwrap()@ == fresh(
                    size.0 as int,
                    size.1 as int,
                    picks,
                ),
    {
        assert(0 <= size.0 * size.1) by (nonlinear_arith);
        let n: usize = (size.0 as usize) * (size.1 as usize);
        if bombs > n {
            return Err(FieldError::InvalidConfiguration);
        }
        let picks = pick_indices(rng, n, bombs);
        let r = Field::with_bombs(size, &picks);
        proof {
            lemma_fresh_wf(size.0 as int, size.1 as int, picks@);
        }
        r
    }

    /// Uncovers the covered cell `(x, y)` and counts it.
    fn open(&mut self, x: u32, y: u32)
        requires
            old(self)@.shaped(),
            old(self)@.inside(x as int, y as int),
            old(self)@.at(x as int, y as int).hidden,
            old(self)@.n_hidden == count_hidden(old(self)@.cells),
        ensures
            final(self)@ == old(self)@.opened_at(x as int, y as int),
            final(self)@.n_hidden == count_hidden(final(self)@.cells),
    {
        proof {
            lemma_opened_at(self@, x as int, y as int);
        }
        let at = self.offset(x, y);
        let state = self.cells[at].state;
        self.cells.set(at, Cell { state, hidden: false });
        self.n_hidden = self.n_hidden - 1;
    }

    /// Uncovers the cell `(x, y)`. From an empty cell the uncovering spreads
    /// to every cell that touches it, and so on; a cell that shows a number or
    /// holds a bomb is uncovered and spreads nothing. An uncovered cell is
    /// left alone.
    pub fn uncover(&mut self, x: u32, y: u32)
        requires
            old(self).wf(),
            old(self)@.inside(x as int, y as int),
        ensures
            final(self)@ == old(self)@.revealed(x as int, y as int),
            final(self).wf(),
            opens_only(old(self)@, final(self)@),
            !final(self)@.at(x as int, y as int).hidden,
            final(self)@.n_hidden <= old(self)@.n_hidden,
            !old(self)@.at(x as int, y as int).hidden ==> final(self)@ == old(self)@,
    {
        let ghost v0 = self@;
        let ghost sx = x as int;
        let ghost sy = y as int;
        proof {
            lemma_revealed_wf(v0, sx, sy);
            lemma_reveal_counts(v0, sx, sy);
            lemma_reveal_twice(v0, sx, sy);
        }
        if !self.cell_at(x, y).hidden {
            proof {
                lemma_revealed_open(v0, sx, sy);
            }
            return ;
        }
        self.open(x, y);
        let mut stack: Vec<(u32, u32)> = Vec::new();
        stack.push((x, y));
        let ghost mut pending: Set<(int, int)> = set![(sx, sy)];
        proof {
            lemma_open_first(v0, sx, sy);
            lemma_opened_at(v0, sx, sy);
            assert(places(stack@)[0] == (sx, sy));
        }
        while stack.len() > 0
            invariant
                v0.wf(),
                sx == x,
                sy == y,
                v0.inside(sx, sy),
                opens_only(v0, self@),
                within_reach(v0, self@, sx, sy),
                closed_but(v0, self@, pending),
                !self@.at(sx, sy).hidden,
                self@.n_hidden == count_hidden(self@.cells),
                forall|k: int|
                    0 <= k < stack@.len() ==> self@.inside(
                        (#[trigger] stack@[k]).0 as int,
                        stack@[k].1 as int,
                    ) && opened(v0, self@, stack@[k].0 as int, stack@[k].1 as int),
                forall|c: (int, int)| pending.contains(c) ==> places(stack@).contains(c),
            decreases self@.n_hidden, stack@.len(),
        {
            let ghost before = stack@;
            let ghost hidden_before = self@.n_hidden;
            let (px, py) = stack.pop().unwrap();
            let ghost p = (px as int, py as int);
            assert(before[before.len() - 1] == (px, py));
            assert(self@.inside(p.0, p.1) && opened(v0, self@, p.0, p.1));
            assert forall|c: (int, int)| pending.contains(c) implies places(stack@).contains(c) || c
                == p by {
                let k = choose|k: int| 0 <= k < places(before).len() && places(before)[k] == c;
                if k < stack@.len() {
                    assert(places(stack@)[k] == c);
                }
            }
            if self.cell_at(px, py).state == CellState::Empty {
                let near = self.adjacent_coords(px, py);
                let ghost spots = self@.around(p.0, p.1);
                proof {
                    lemma_neighbors(self@.width, self@.height, p.0, p.1);
                }
                let mut k: usize = 0;
                while k < near.len()
                    invariant
                        k <= near.len(),
                        v0.wf(),
                        sx == x,
                        sy == y,
                        p == (px as int, py as int),
                        v0.inside(sx, sy),
                        opens_only(v0, self@),
                        within_reach(v0, self@, sx, sy),
                        closed_but(v0, self@, pending),
                        !self@.at(sx, sy).hidden,
                        self@.n_hidden == count_hidden(self@.cells),
                        self@.inside(p.0, p.1),
                        opened(v0, self@, p.0, p.1),
                        self@.at(p.0, p.1).state == CellState::Empty,
                        places(near@) == spots,
                        spots == self@.around(p.0, p.1),
                        forall|q: (int, int)| spots.contains(q) ==> self@.inside(q.0, q.1),
                        forall|j: int| 0 <= j < k ==> !self@.at(spots[j].0, spots[j].1).hidden,
                        forall|k: int|
                            0 <= k < stack@.len() ==> self@.inside(
                                (#[trigger] stack@[k]).0 as int,
                                stack@[k].1 as int,
                            ) && opened(v0, self@, stack@[k].0 as int, stack@[k].1 as int),
                        forall|c: (int, int)|
                            pending.contains(c) ==> places(stack@).contains(c) || c == p,
                        self@.n_hidden + stack@.len() == hidden_before + before.len() - 1,
                        stack@.len() >= before.len() - 1,
                    decreases near.len() - k,
                {
                    let (qx, qy) = near[k];
                    let ghost q = (qx as int, qy as int);
                    assert(spots[k as int] == q);
                    assert(spots.contains(q));
                    if self.cell_at(qx, qy).hidden {
                        let ghost cur = self@;
                        let ghost held = stack@;
                        proof {
                            lemma_open_next(v0, cur, pending, sx, sy, p.0, p.1, q.0, q.1);
                            lemma_opened_at(cur, q.0, q.1);
                        }
                        self.open(qx, qy);
                        stack.push((qx, qy));
                        proof {
                            assert(cur.at(q.0, q.1).hidden ==> v0.at(q.0, q.1).hidden);
                            assert forall|c: (int, int)| pending.insert(q).contains(c) implies places(
                                stack@,
                            ).contains(c) || c == p by {
                                if c == q {
                                    assert(places(stack@)[held.len() as int] == q);
                                } else if c != p {
                                    let i = choose|i: int|
                                        0 <= i < places(held).len() && places(held)[i] == c;
                                    assert(places(stack@)[i] == c);
                                }
                            }
                            pending = pending.insert(q);
                            assert forall|j: int| 0 <= j < stack@.len() implies self@.inside(
                                (#[trigger] stack@[j]).0 as int,
                                stack@[j].1 as int,
                            ) && opened(v0, self@, stack@[j].0 as int, stack@[j].1 as int) by {
                                if j < held.len() {
                                    assert(stack@[j] == held[j]);
                                    assert(opened(v0, cur, held[j].0 as int, held[j].1 as int));
                                }
                            }
                            assert forall|j: int| 0 <= j < k + 1 implies !self@.at(
                                spots[j].0,
                                spots[j].1,
                            ).hidden by {
                                assert(spots.contains(spots[j]));
                            }
                        }
                    }
                    k += 1;
                }
                proof {
                    assert forall|q: (int, int)| #[trigger]
                        self@.around(p.0, p.1).contains(q) implies !self@.at(q.0, q.1).hidden by {
                        let j = choose|j: int| 0 <= j < spots.len() && spots[j] == q;
                        assert(!self@.at(spots[j].0, spots[j].1).hidden);
                    }
                    assert(settled(self@, p.0, p.1));
                }
            }
            proof {
                lemma_settle(v0, self@, pending, p.0, p.1);
                pending = pending.remove(p);
            }
        }
        proof {
            assert(pending =~= Set::empty()) by {
                assert forall|c: (int, int)| !pending.contains(c) by {
                    if pending.contains(c) {
                        let i = choose|i: int| 0 <= i < places(stack@).len() && places(stack@)[i] == c;
                    }
                }
            }
            lemma_flood_complete(v0, self@, sx, sy);
            lemma_opening_keeps_wf(v0, self@);
        }
    }

    /// Uncovers every cell.
    fn lay_open(&mut self)
        ensures
            final(self)@ == old(self)@.laid_open(),
    {
        let ghost v0 = self@;
        let n = self.cells.len();
        let mut i: usize = 0;
        while i < n
            invariant
                i <= n,
                n == v0.cells.len(),
                self@ == (FieldView { cells: self@.cells, ..v0 }),
                self@.cells.len() == n,
                forall|j: int| 0 <= j < i ==> self@.cells[j] == v0.laid_open().cells[j],
                forall|j: int| i <= j < n ==> self@.cells[j] == v0.cells[j],
            decreases n - i,
        {
            let state = self.cells[i].state;
            self.cells.set(i, Cell { state, hidden: false });
            i += 1;
        }
        self.n_hidden = 0;
        assert(self@.cells =~= v0.laid_open().cells);
    }

    /// Ends the game as lost: the bomb at `(x, y)` is marked as the one that
    /// went off, and every cell is uncovered.
    fn lose(&mut self, x: u32, y: u32)
        requires
            old(self)@.shaped(),
            old(self)@.inside(x as int, y as int),
        ensures
            final(self)@ == old(self)@.blown_at(x as int, y as int).laid_open(),
    {
        let at = self.offset(x, y);
        let hidden = self.cells[at].hidden;
        self.cells.set(at, Cell { state: CellState::DeathBomb, hidden });
        self.lay_open();
    }

    /// Ends the game as won: every cell is uncovered.
    fn win(&mut self)
        ensures
            final(self)@ == old(self)@.laid_open(),
    {
        self.lay_open();
    }

    /// Handles a click on the cell `(x, y)`: uncovers it, then ends the game
    /// as lost if it holds a bomb, or as won if only bombs are left covered.
    /// Once the game is over, with every cell uncovered, a click changes
    /// nothing.
    pub fn press(&mut self, x: u32, y: u32)
        requires
            old(self).wf(),
            old(self)@.inside(x as int, y as int),
        ensures
            final(self)@ == old(self)@.pressed(x as int, y as int),
            final(self).wf(),
            final(self)@.width == old(self)@.width,
            final(self)@.height == old(self)@.height,
            final(self)@.n_bombs == old(self)@.n_bombs,
            final(self)@.mouse == old(self)@.mouse,
            !final(self)@.at(x as int, y as int).hidden,
            old(self)@.all_open() ==> final(self)@ == old(self)@,
            old(self)@.at(x as int, y as int).state == CellState::Bomb && old(self)@.at(
                x as int,
                y as int,
            ).hidden ==> {
                &&& final(self)@.at(x as int, y as int).state == CellState::DeathBomb
                &&& final(self)@.all_open()
                &&& final(self)@.n_hidden == 0
            },
            old(self)@.at(x as int, y as int).state != CellState::Bomb && old(self)@.revealed(
                x as int,
                y as int,
            ).n_hidden == old(self)@.n_bombs ==> final(self)@.all_open() && final(self)@.n_hidden == 0,
            old(self)@.at(x as int, y as int).state != CellState::Bomb && old(self)@.revealed(
                x as int,
                y as int,
            ).n_hidden != old(self)@.n_bombs ==> final(self)@ == old(self)@.revealed(
                x as int,
                y as int,
            ),
            forall|a: int, b: int|
                old(self)@.inside(a, b) && (a, b) != (x as int, y as int) ==> old(self)@.at(a, b).state
                    == (#[trigger] final(self)@.at(a, b)).state,
    {
        proof {
            lemma_click_outcomes(self@, x as int, y as int);
        }
        if self.n_hidden == 0 {
            return ;
        }
        self.uncover(x, y);
        if self.cell_at(x, y).state == CellState::Bomb {
            self.lose(x, y);
        } else if self.n_hidden == self.n_bombs {
            self.win();
        }
    }

    /// Starts a new game on a grid of the same size with as many bombs,
    /// placed at random. The pointer stays where it is.
    pub fn reset(&mut self)
        requires
            old(self).wf(),
        ensures
            final(self).wf(),
            exists|picks: Seq<usize>|
                picks.len() == old(self)@.n_bombs && distinct_below(
                    picks,
                    old(self)@.width * old(self)@.height,
                ) && final(self)@ == old(self)@.restarted(picks),
    {
        let ghost v0 = self@;
        let n: usize = self.cells.len();
        proof {
            lemma_count_bombs_bound(v0.cells);
        }
        let mut rng = rand::thread_rng();
        let picks = pick_indices(&mut rng, n, self.n_bombs);
        let made = Field::with_bombs(self.size, &picks);
        match made {
            Ok(mut field) => {
                field.mouse = self.mouse;
                proof {
                    lemma_restarted_wf(v0, picks@);
                    assert(field@ == v0.restarted(picks@));
                }
                *self = field;
            },
            Err(_) => {
                assert(false);
            },
        }
    }

    /// Records where the pointer is, in pixels.
    pub fn mouse_move(&mut self, at: (u32, u32))
        ensures
            final(self)@ == (FieldView { mouse: at, ..old(self)@ }),
            old(self).wf() ==> final(self).wf(),
    {
        proof {
            if self.wf() {
                lemma_pointer_moved_wf(self@, at);
            }
        }
        self.mouse = at;
    }

    /// Handles a button press. The primary mouse button clicks the cell under
    /// the pointer; it does nothing when the pointer is beside the grid, and
    /// nothing once the game is over. The reset key starts a new game.
    /// Anything else is ignored.
    pub fn mouse_click(&mut self, b: &Button)
        requires
            old(self).wf(),
        ensures
            final(self).wf(),
            *b == Button::MouseLeft ==> final(self)@ == old(self)@.clicked(),
            *b == Button::MouseLeft && old(self)@.all_open() ==> final(self)@ == old(self)@,
            *b == Button::KeyR ==> exists|picks: Seq<usize>|
                picks.len() == old(self)@.n_bombs && distinct_below(
                    picks,
                    old(self)@.width * old(self)@.height,
                ) && final(self)@ == old(self)@.restarted(picks),
            *b == Button::Other ==> final(self)@ == old(self)@,
    {
        match b {
            Button::MouseLeft => {
                let x: u32 = self.mouse.0 / CELL_SIZE.0;
                let y: u32 = self.mouse.1 / CELL_SIZE.1;
                if x < self.size.0 && y < self.size.1 {
                    self.press(x, y);
                }
            },
            Button::KeyR => {
                self.reset();
            },
            Button::Other => {},
        }
    }

    /// The cell at column `x` of row `y`, to be changed in place.
    ///
    /// Whoever changes the cell has to see that the field stays well formed.
    pub fn cell_mut_at(&mut self, x: u32, y: u32) -> (c: &mut Cell)
        requires
            old(self)@.shaped(),
            old(self)@.inside(x as int, y as int),
        ensures
            *c == old(self)@.at(x as int, y as int),
            final(self)@ == old(self)@.with_cell(x as int, y as int, *final(c)),
    {
        let i = self.offset(x, y);
        &mut self.cells[i]
    }

    /// Lists what to draw: for each cell, row by row, its place on the grid
    /// and the index of its tile.
    pub fn render(&self) -> (v: Vec<Sprite>)
        requires
            self@.shaped(),
        ensures
            v@ == self@.drawn(),
    {
        let ghost w = self@.width;
        let ghost h = self@.height;
        let mut v: Vec<Sprite> = Vec::new();
        let mut y: u32 = 0;
        while y < self.size.1
            invariant
                y <= self.size.1,
                self@.shaped(),
                w == self@.width,
                h == self@.height,
                v@.len() == y * w,
                forall|j: int| 0 <= j < v@.len() ==> v@[j] == self@.sprite(j),
            decreases self.size.1 - y,
        {
            let mut x: u32 = 0;
            while x < self.size.0
                invariant
                    x <= self.size.0,
                    y < self.size.1,
                    self@.shaped(),
                    w == self@.width,
                    h == self@.height,
                    v@.len() == y * w + x,
                    forall|j: int| 0 <= j < v@.len() ==> v@[j] == self@.sprite(j),
                decreases self.size.0 - x,
            {
                proof {
                    lemma_index_of(w, h, x as int, y as int);
                }
                let tile = self.cell_at(x, y).visual_index();
                v.push(Sprite { x, y, tile });
                x += 1;
            }
            proof {
                assert(y * w + w == (y + 1) * w) by (nonlinear_arith);
            }
            y += 1;
        }
        proof {
            assert(v@.len() == w * h) by (nonlinear_arith)
                requires
                    v@.len() == y * w,
                    y == h,
            ;
            assert(v@ =~= self@.drawn());
        }
        v
    }
}

} // verus!
