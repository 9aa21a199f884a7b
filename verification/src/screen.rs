use vstd::prelude::*;

use crate::grid::{Cell, Position};
use crate::render::{op_is_cell, op_is_score, render_cell, render_score, RenderOp};

verus! {

/// The row-major index of `p` in a buffer of width `w`.
pub open spec fn idx_spec(p: Position, w: u16) -> int {
    p.x + p.y * w
}

/// `p` lies on the board: `x` in `[1, w]`, `y` in `[1, h]`.
pub open spec fn in_board(p: Position, w: u16, h: u16) -> bool {
    1 <= p.x <= w && 1 <= p.y <= h
}

/// `p` lies strictly inside the walls: `x` in `[2, w - 1]`, `y` in `[2, h - 1]`.
pub open spec fn interior(p: Position, w: u16, h: u16) -> bool {
    2 <= p.x && p.x < w && 2 <= p.y && p.y < h
}

/// `p` lies on the outer wall ring.
pub open spec fn on_border(p: Position, w: u16, h: u16) -> bool {
    in_board(p, w, h) && (p.x == 1 || p.x == w || p.y == 1 || p.y == h)
}

/// The cell stored at `p` in grid contents `g` of width `w`.
pub open spec fn cell_of(g: Seq<Cell>, w: u16, p: Position) -> Cell {
    g[idx_spec(p, w)]
}

/// How many cells of `g` hold food.
pub open spec fn count_food(g: Seq<Cell>) -> nat
    decreases g.len(),
{
    if g.len() == 0 {
        0
    } else {
        count_food(g.drop_last()) + (if g.last() is Food {
            1nat
        } else {
            0nat
        })
    }
}

/// A board index is in range of a buffer sized for a `w` by `h` board.
pub proof fn lemma_idx_bound(w: u16, h: u16, p: Position)
    requires
        in_board(p, w, h),
    ensures
        0 <= idx_spec(p, w) < (w + 1) * (h + 1),
{
    assert(p.x + p.y * w <= w + h * w) by (nonlinear_arith)
        requires
            p.x <= w,
            p.y <= h,
            w >= 0,
    ;
    assert(w + h * w < (w + 1) * (h + 1)) by (nonlinear_arith);
}

/// Distinct board positions have distinct row-major indices.
pub proof fn lemma_idx_inj(w: u16, h: u16, p: Position, q: Position)
    requires
        in_board(p, w, h),
        in_board(q, w, h),
        p != q,
    ensures
        idx_spec(p, w) != idx_spec(q, w),
{
    if p.y == q.y {
        assert(p.x != q.x);
    } else {
        let a = if p.y < q.y {
            p
        } else {
            q
        };
        let b = if p.y < q.y {
            q
        } else {
            p
        };
        assert(a.y + 1 <= b.y);
        assert((a.y + 1) * w <= b.y * w) by (nonlinear_arith)
            requires
                a.y + 1 <= b.y,
                w >= 1,
        ;
        assert(w + a.y * w == (a.y + 1) * w) by (nonlinear_arith);
        assert(a.x + a.y * w <= w + a.y * w);
        assert(b.y * w < b.x + b.y * w);
    }
}

/// Updating one cell changes the food count by the difference of the old
/// and new cell's contributions.
pub proof fn lemma_count_food_update(g: Seq<Cell>, i: int, c: Cell)
    requires
        0 <= i < g.len(),
    ensures
        count_food(g.update(i, c)) + (if g[i] is Food {
            1nat
        } else {
            0nat
        }) == count_food(g) + (if c is Food {
            1nat
        } else {
            0nat
        }),
    decreases g.len(),
{
    let t = g.update(i, c);
    if i == g.len() - 1 {
        assert(t.drop_last() =~= g.drop_last());
    } else {
        lemma_count_food_update(g.drop_last(), i, c);
        assert(t.drop_last() =~= g.drop_last().update(i, c));
        assert(t.last() == g.last());
    }
}

/// A grid without food cells has a food count of zero.
pub proof fn lemma_count_food_zero(g: Seq<Cell>)
    requires
        forall|i: int| 0 <= i < g.len() ==> !((#[trigger] g[i]) is Food),
    ensures
        count_food(g) == 0,
    decreases g.len(),
{
    if g.len() > 0 {
        lemma_count_food_zero(g.drop_last());
    }
}

/// Write/read consistency of the grid model: after storing `c` at `p`, the
/// cell read back at `p` is exactly `c`, and every other board position
/// reads what it held before.
pub proof fn lemma_set_get(g: Seq<Cell>, w: u16, h: u16, p: Position, q: Position, c: Cell)
    requires
        g.len() == (w + 1) * (h + 1),
        in_board(p, w, h),
        in_board(q, w, h),
    ensures
        cell_of(g.update(idx_spec(p, w), c), w, p) == c,
        q != p ==> cell_of(g.update(idx_spec(p, w), c), w, q) == cell_of(g, w, q),
{
    lemma_idx_bound(w, h, p);
    lemma_idx_bound(w, h, q);
    if q != p {
        lemma_idx_inj(w, h, p, q);
    }
}

/// `new_p` is `old_p` with exactly one update appended.
pub open spec fn appended_one(old_p: Seq<RenderOp>, new_p: Seq<RenderOp>) -> bool {
    &&& new_p.len() == old_p.len() + 1
    &&& new_p.subrange(0, old_p.len() as int) == old_p
}

/// One food item was written at an interior position `p` that held `Empty`,
/// with a value between 1 and 9; nothing else changed.
pub open spec fn placed_food_at(
    before: Seq<Cell>,
    after: Seq<Cell>,
    w: u16,
    h: u16,
    p: Position,
    v: u16,
) -> bool {
    &&& interior(p, w, h)
    &&& cell_of(before, w, p) == Cell::Empty
    &&& 1 <= v <= 9
    &&& after == before.update(idx_spec(p, w), Cell::Food(v))
}

/// Some food item was written somewhere, as `placed_food_at` says.
pub open spec fn placed_food(before: Seq<Cell>, after: Seq<Cell>, w: u16, h: u16) -> bool {
    exists|p: Position, v: u16| placed_food_at(before, after, w, h, p, v)
}

/// Relies on rand::random::<u16>: a sampled integer; nothing is assumed
/// about which value comes back.
#[verifier::external_body]
fn random_u16() -> u16 {
    rand::random::<u16>()
}

/// The play area: a flat buffer of cells addressed row-major by board
/// positions, plus the queue of display updates that mutations produce.
/// Every mutation of a cell appends exactly one display update.
pub struct Screen {
    pub content: Vec<Cell>,
    pub pending: Vec<RenderOp>,
    pub w: u16,
    pub h: u16,
}

impl Screen {
    /// The stored cells.
    pub open spec fn grid(self) -> Seq<Cell> {
        self.content@
    }

    /// The display updates not yet handed out.
    pub open spec fn pend(self) -> Seq<RenderOp> {
        self.pending@
    }

    /// The cell stored at board position `p`.
    pub open spec fn cell(self, p: Position) -> Cell {
        cell_of(self.grid(), self.w, p)
    }

    /// The buffer covers the whole board.
    pub open spec fn wf(self) -> bool {
        &&& self.grid().len() == (self.w + 1) * (self.h + 1)
        &&& self.w >= 1
        &&& self.h >= 1
    }

    /// A fresh, all-empty screen for a `w` by `h` board.
    pub fn new(w: u16, h: u16) -> (s: Screen)
        requires
            1 <= w,
            1 <= h,
            (w + 1) * (h + 1) <= usize::MAX,
        ensures
            s.w == w,
            s.h == h,
            s.wf(),
            forall|i: int| 0 <= i < s.grid().len() ==> s.grid()[i] == Cell::Empty,
            s.pend() == Seq::<RenderOp>::empty(),
    {
        let total: usize = (w as usize + 1) * (h as usize + 1);
        let mut content: Vec<Cell> = Vec::new();
        let mut i: usize = 0;
        while i < total
            invariant
                i <= total,
                content@.len() == i,
                forall|j: int| 0 <= j < i ==> content@[j] == Cell::Empty,
            decreases total - i,
        {
            content.push(Cell::Empty);
            i = i + 1;
        }
        Screen { content, pending: Vec::new(), w, h }
    }

    /// The buffer index of board position `p`.
    pub fn get_index(&self, p: Position) -> (r: usize)
        requires
            self.wf(),
            in_board(p, self.w, self.h),
        ensures
            r == idx_spec(p, self.w),
            r < self.grid().len(),
    {
        proof {
            lemma_idx_bound(self.w, self.h, p);
            assert(p.y * self.w <= 65535 * 65535) by (nonlinear_arith)
                requires
                    p.y <= 65535,
                    self.w <= 65535,
            ;
        }
        p.x as usize + p.y as usize * self.w as usize
    }

    /// The cell at `p`.
    pub fn get(&self, p: Position) -> (c: Cell)
        requires
            self.wf(),
            in_board(p, self.w, self.h),
        ensures
            c == self.cell(p),
    {
        let i = self.get_index(p);
        self.content[i]
    }

    /// Store `c` at `p` and queue the display update that redraws that one
    /// cell; no other cell changes.
    pub fn set(&mut self, p: Position, c: Cell)
        requires
            old(self).wf(),
            in_board(p, old(self).w, old(self).h),
        ensures
            final(self).wf(),
            final(self).w == old(self).w,
            final(self).h == old(self).h,
            final(self).grid() == old(self).grid().update(idx_spec(p, old(self).w), c),
            final(self).cell(p) == c,
            forall|q: Position|
                in_board(q, old(self).w, old(self).h) && q != p ==> #[trigger] final(self).cell(q)
                    == old(self).cell(q),
            appended_one(old(self).pend(), final(self).pend()),
            op_is_cell(final(self).pend().last(), p, c),
    {
        let i = self.get_index(p);
        self.content[i] = c;
        let op = render_cell(p, c);
        self.pending.push(op);
        proof {
            assert(final(self).pend().subrange(0, old(self).pend().len() as int) =~= old(self).pend());
            assert forall|q: Position|
                in_board(q, old(self).w, old(self).h) && q != p implies #[trigger] final(self).cell(q) == old(self).cell(q) by {
                lemma_set_get(old(self).grid(), old(self).w, old(self).h, p, q, c);
            }
        }
    }

    /// Queue the display update that redraws the score banner; the grid is
    /// untouched.
    pub fn display_score(&mut self, score: u32)
        requires
            old(self).wf(),
        ensures
            final(self).wf(),
            final(self).w == old(self).w,
            final(self).h == old(self).h,
            final(self).grid() == old(self).grid(),
            appended_one(old(self).pend(), final(self).pend()),
            op_is_score(final(self).pend().last(), score),
    {
        let op = render_score(score);
        self.pending.push(op);
        proof {
            assert(final(self).pend().subrange(0, old(self).pend().len() as int) =~= old(self).pend());
        }
    }

    /// Hand out the queued display updates, oldest first, leaving the queue
    /// empty. The grid is untouched.
    pub fn take_render_ops(&mut self) -> (ops: Vec<RenderOp>)
        ensures
            ops@ == old(self).pend(),
            final(self).pend() == Seq::<RenderOp>::empty(),
            final(self).grid() == old(self).grid(),
            final(self).w == old(self).w,
            final(self).h == old(self).h,
    {
        let mut ops: Vec<RenderOp> = Vec::new();
        core::mem::swap(&mut ops, &mut self.pending);
        ops
    }

    /// Write a food item with a value drawn from 1 to 9 onto some empty
    /// interior cell: first by sampling random interior positions, then, if
    /// those attempts all hit occupied cells, by scanning the interior for
    /// the first empty cell. Never overwrites a non-empty cell, never
    /// touches the border, and succeeds whenever an empty interior cell
    /// exists; reports whether it placed anything.
    pub fn place_food_random(&mut self) -> (placed: bool)
        requires
            old(self).wf(),
            old(self).w >= 3,
            old(self).h >= 3,
        ensures
            final(self).wf(),
            final(self).w == old(self).w,
            final(self).h == old(self).h,
            placed ==> placed_food(old(self).grid(), final(self).grid(), old(self).w, old(self).h),
            placed ==> count_food(final(self).grid()) == count_food(old(self).grid()) + 1,
            placed ==> appended_one(old(self).pend(), final(self).pend()),
            !placed ==> final(self).grid() == old(self).grid() && final(self).pend() == old(self).pend(),
            !placed ==> forall|q: Position|
                interior(q, old(self).w, old(self).h) ==> #[trigger] cell_of(
                    old(self).grid(),
                    old(self).w,
                    q,
                ) != Cell::Empty,
            (exists|q: Position|
                interior(q, old(self).w, old(self).h) && #[trigger] cell_of(
                    old(self).grid(),
                    old(self).w,
                    q,
                ) == Cell::Empty) ==> placed,
    {
        let food_val = random_u16() % 9 + 1;
        let mut attempts: u16 = 0;
        while attempts < 64
            invariant
                self.wf(),
                *self == *old(self),
                self.w >= 3,
                self.h >= 3,
                1 <= food_val <= 9,
            decreases 64 - attempts,
        {
            let x = random_u16() % (self.w - 2) + 2;
            let y = random_u16() % (self.h - 2) + 2;
            let p = Position { x, y };
            if let Cell::Empty = self.get(p) {
                self.set(p, Cell::Food(food_val));
                proof {
                    self.finish_place(*old(self), p, food_val);
                }
                return true;
            }
            attempts = attempts + 1;
        }
        let mut y: u16 = 2;
        while y < self.h
            invariant
                self.wf(),
                *self == *old(self),
                self.w >= 3,
                self.h >= 3,
                2 <= y <= self.h,
                1 <= food_val <= 9,
                forall|q: Position|
                    interior(q, self.w, self.h) && q.y < y ==> #[trigger] cell_of(
                        self.grid(),
                        self.w,
                        q,
                    ) != Cell::Empty,
            decreases self.h - y,
        {
            let mut x: u16 = 2;
            while x < self.w
                invariant
                    self.wf(),
                    *self == *old(self),
                    self.w >= 3,
                    self.h >= 3,
                    2 <= y < self.h,
                    2 <= x <= self.w,
                    1 <= food_val <= 9,
                    forall|q: Position|
                        interior(q, self.w, self.h) && (q.y < y || (q.y == y && q.x < x))
                            ==> #[trigger] cell_of(self.grid(), self.w, q) != Cell::Empty,
                decreases self.w - x,
            {
                let p = Position { x, y };
                if let Cell::Empty = self.get(p) {
                    self.set(p, Cell::Food(food_val));
                    proof {
                        self.finish_place(*old(self), p, food_val);
                    }
                    return true;
                }
                x = x + 1;
            }
            y = y + 1;
        }
        false
    }

    /// After `set` wrote `Food(v)` over an empty interior cell of `pre`,
    /// the placement postconditions hold.
    proof fn finish_place(self, pre: Screen, p: Position, v: u16)
        requires
            pre.wf(),
            interior(p, pre.w, pre.h),
            cell_of(pre.grid(), pre.w, p) == Cell::Empty,
            1 <= v <= 9,
            self.grid() == pre.grid().update(idx_spec(p, pre.w), Cell::Food(v)),
        ensures
            placed_food(pre.grid(), self.grid(), pre.w, pre.h),
            count_food(self.grid()) == count_food(pre.grid()) + 1,
    {
        assert(placed_food_at(pre.grid(), self.grid(), pre.w, pre.h, p, v));
        lemma_idx_bound(pre.w, pre.h, p);
        lemma_count_food_update(pre.grid(), idx_spec(p, pre.w), Cell::Food(v));
    }
}

} // verus!
