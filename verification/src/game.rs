use vstd::prelude::*;

use crate::grid::{step_spec, Cell, Direction, Position, SnakeRole};
use crate::screen::{
    cell_of, count_food, idx_spec, in_board, interior, lemma_count_food_update,
    lemma_count_food_zero, lemma_idx_bound, lemma_set_get, on_border, placed_food, placed_food_at, Screen,
};

verus! {

/// What one tick reports: the game goes on (and whether this tick ate a
/// food item), or it is over.
#[derive(Copy, Clone, Debug, PartialEq, Eq, Structural)]
pub enum GameStatus {
    Continue(bool),
    GameOver,
}

/// The direction a tick moves in: the newly requested one if any, else the
/// current heading.
pub open spec fn eff_dir(nd: Option<Direction>, cur: Direction) -> Direction {
    match nd {
        Some(d) => d,
        None => cur,
    }
}

/// The interior position numbered `k` when the interior is enumerated
/// row-major.
spec fn enum_pos(w: u16, k: int) -> Position {
    Position { x: (2 + k % (w - 2)) as u16, y: (2 + k / (w - 2)) as u16 }
}

/// The `k`-th enumerated interior position is interior, and `k` can be
/// recovered from its coordinates.
proof fn lemma_enum_pos(w: u16, h: u16, k: int)
    requires
        3 <= w,
        3 <= h,
        0 <= k < (w - 2) * (h - 2),
    ensures
        interior(enum_pos(w, k), w, h),
        (enum_pos(w, k).y - 2) * (w - 2) + (enum_pos(w, k).x - 2) == k,
{
    let d = (w - 2) as int;
    let rows = (h - 2) as int;
    vstd::arithmetic::div_mod::lemma_fundamental_div_mod(k, d);
    vstd::arithmetic::div_mod::lemma_mod_bound(k, d);
    let q = k / d;
    let r = k % d;
    assert(q >= 0 && q < rows) by (nonlinear_arith)
        requires
            d > 0,
            rows > 0,
            0 <= k < d * rows,
            k == d * q + r,
            0 <= r < d,
    ;
    assert(enum_pos(w, k).x == 2 + r);
    assert(enum_pos(w, k).y == 2 + q);
    assert(q * d + r == k) by (nonlinear_arith)
        requires
            k == d * q + r,
    ;
}

/// Distinct numbers enumerate distinct interior positions.
proof fn lemma_enum_pos_inj(w: u16, h: u16, k1: int, k2: int)
    requires
        3 <= w,
        3 <= h,
        0 <= k1 < (w - 2) * (h - 2),
        0 <= k2 < (w - 2) * (h - 2),
        k1 != k2,
    ensures
        enum_pos(w, k1) != enum_pos(w, k2),
{
    lemma_enum_pos(w, h, k1);
    lemma_enum_pos(w, h, k2);
}

/// `c` is a body cell whose stored direction steps `from` onto `to`.
pub open spec fn is_body_link(c: Cell, from: Position, to: Position) -> bool {
    c matches Cell::Snake(d, SnakeRole::Body) && to == step_spec(from, d)
}

/// `c` is a head cell.
pub open spec fn is_head_cell(c: Cell) -> bool {
    c matches Cell::Snake(_, SnakeRole::Head)
}

/// If `c` is food, it sits on an interior position and is worth 1 to 9.
pub open spec fn food_ok(c: Cell, p: Position, w: u16, h: u16) -> bool {
    c matches Cell::Food(v) ==> interior(p, w, h) && 1 <= v <= 9
}


/// The grid after the tail retraction step: unchanged while growth is
/// owed, else with the tail cell blanked.
pub open spec fn grid_after_retract(g: Game) -> Seq<Cell> {
    if g.growing > 0 {
        g.screen.grid()
    } else {
        g.screen.grid().update(idx_spec(g.tail, g.screen.w), Cell::Empty)
    }
}

/// The direction stored in a snake cell.
pub open spec fn snake_dir(c: Cell) -> Direction {
    match c {
        Cell::Snake(d, _) => d,
        _ => Direction::Up,
    }
}

/// The tail after the retraction step: in place while growth is owed, else
/// advanced one step in the direction its cell stored.
pub open spec fn tail_after_retract(g: Game) -> Position {
    if g.growing > 0 {
        g.tail
    } else {
        step_spec(g.tail, snake_dir(g.screen.cell(g.tail)))
    }
}

/// The growth owed after the retraction step.
pub open spec fn growing_after_retract(g: Game) -> u16 {
    if g.growing > 0 {
        (g.growing - 1) as u16
    } else {
        0
    }
}

/// The grid after retraction and after the old head cell was rewritten as
/// a body cell keeping the tick's heading `d`.
pub open spec fn grid_mid(g: Game, d: Direction) -> Seq<Cell> {
    grid_after_retract(g).update(idx_spec(g.head, g.screen.w), Cell::Snake(d, SnakeRole::Body))
}

/// The cell the advancing head lands on, read after retraction and head
/// conversion.
pub open spec fn hit_cell(g: Game, d: Direction) -> Cell {
    cell_of(grid_mid(g, d), g.screen.w, step_spec(g.head, d))
}

/// Either a food item was placed somewhere empty and interior, or nothing
/// changed because no empty interior cell was left.
pub open spec fn food_respawn(before: Seq<Cell>, after: Seq<Cell>, w: u16, h: u16) -> bool {
    ||| placed_food(before, after, w, h)
    ||| (after == before && forall|q: Position|
        interior(q, w, h) ==> #[trigger] cell_of(before, w, q) != Cell::Empty)
}

/// The snake chain after a tick that continues: the new head is appended,
/// and the old tail is dropped unless growth was owed.
pub open spec fn tick_body(pre: Game, nh: Position) -> Seq<Position> {
    if pre.growing > 0 {
        pre.body@.push(nh)
    } else {
        pre.body@.subrange(1, pre.body@.len() as int).push(nh)
    }
}

/// Stepping from an interior position stays on the board and moves.
proof fn lemma_step_in_board(p: Position, d: Direction, w: u16, h: u16)
    requires
        interior(p, w, h),
    ensures
        in_board(step_spec(p, d), w, h),
        step_spec(p, d) != p,
{
}


/// After a tick that continues, the grid and the new snake chain agree
/// again: given the staged grids of one tick (retraction, head conversion,
/// optional food respawn, head draw) and that the head landed on a
/// non-snake cell, the new state is well formed.
#[verifier::rlimit(80)]
proof fn lemma_tick_wf(pre: Game, post: Game, fg: Seq<Cell>)
    requires
        pre.wf(),
        post.screen.w == pre.screen.w,
        post.screen.h == pre.screen.h,
        post.head == step_spec(pre.head, post.direction),
        interior(post.head, pre.screen.w, pre.screen.h),
        post.tail == tail_after_retract(pre),
        fg == grid_mid(pre, post.direction) || placed_food(
            grid_mid(pre, post.direction),
            fg,
            pre.screen.w,
            pre.screen.h,
        ),
        !(cell_of(grid_mid(pre, post.direction), pre.screen.w, post.head) is Snake),
        post.screen.grid() == fg.update(
            idx_spec(post.head, pre.screen.w),
            Cell::Snake(post.direction, SnakeRole::Head),
        ),
        post.body@ == tick_body(pre, post.head),
    ensures
        post.wf(),
{
    let w = pre.screen.w;
    let h = pre.screen.h;
    let d = post.direction;
    let nh = post.head;
    let hd = pre.head;
    let tl = pre.tail;
    let b = pre.body@;
    let n = b.len() as int;
    let skip: int = if pre.growing > 0 {
        0
    } else {
        1
    };
    let bb = post.body@;
    let g0 = pre.screen.grid();
    let g1 = grid_after_retract(pre);
    let g2 = grid_mid(pre, d);
    let g3 = post.screen.grid();
    let hdc = Cell::Snake(d, SnakeRole::Head);
    let bdc = Cell::Snake(d, SnakeRole::Body);
    assert(skip == 1 ==> n >= 2);
    assert(interior(hd, w, h) && interior(tl, w, h)) by {
        assert(b[0] == tl && b[n - 1] == hd);
    }
    lemma_idx_bound(w, h, tl);
    lemma_idx_bound(w, h, hd);
    lemma_idx_bound(w, h, nh);
    assert(bb.len() == n - skip + 1);
    assert(forall|j: int| 0 <= j < bb.len() - 1 ==> bb[j] == b[j + skip]);
    assert(bb[bb.len() - 1] == nh);

    // The invariant of the old state, restated over the raw grid.
    assert forall|p: Position| in_board(p, w, h) implies ((cell_of(g0, w, p) is Snake)
        <==> b.contains(p)) by {
        assert(pre.screen.cell(p) == cell_of(g0, w, p));
    }
    assert forall|p: Position| in_board(p, w, h) implies food_ok(cell_of(g0, w, p), p, w, h) by {
        assert(pre.screen.cell(p) == cell_of(g0, w, p));
    }
    assert forall|i: int| 0 <= i < n - 1 implies is_body_link(
        cell_of(g0, w, b[i]),
        b[i],
        b[i + 1],
    ) by {
        assert(pre.screen.cell(b[i]) == cell_of(g0, w, b[i]));
    }
    assert(is_head_cell(cell_of(g0, w, hd))) by {
        assert(pre.screen.cell(hd) == cell_of(g0, w, hd));
    }

    // Pointwise bridges between the staged grids.
    let placed = fg != g2;
    let (pf, vf): (Position, u16) = if placed {
        choose|pf: Position, vf: u16| placed_food_at(g2, fg, w, h, pf, vf)
    } else {
        (nh, 1u16)
    };
    if placed {
        assert(placed_food(g2, fg, w, h));
        assert(placed_food_at(g2, fg, w, h, pf, vf));
        lemma_idx_bound(w, h, pf);
    }
    assert forall|p: Position|
        in_board(p, w, h) && (skip == 0 || p != tl) implies #[trigger] cell_of(g1, w, p)
        == cell_of(g0, w, p) by {
        if skip == 1 {
            lemma_set_get(g0, w, h, tl, p, Cell::Empty);
        }
    }
    if skip == 1 {
        assert(cell_of(g1, w, tl) == Cell::Empty) by {
            lemma_set_get(g0, w, h, tl, tl, Cell::Empty);
        }
    }
    assert forall|p: Position| in_board(p, w, h) && p != hd implies #[trigger] cell_of(g2, w, p)
        == cell_of(g1, w, p) by {
        lemma_set_get(g1, w, h, hd, p, bdc);
    }
    assert(cell_of(g2, w, hd) == bdc) by {
        lemma_set_get(g1, w, h, hd, hd, bdc);
    }
    assert forall|p: Position|
        in_board(p, w, h) && (!placed || p != pf) implies #[trigger] cell_of(fg, w, p) == cell_of(
        g2,
        w,
        p,
    ) by {
        if placed {
            lemma_set_get(g2, w, h, pf, p, Cell::Food(vf));
        }
    }
    if placed {
        assert(cell_of(fg, w, pf) == Cell::Food(vf)) by {
            lemma_set_get(g2, w, h, pf, pf, Cell::Food(vf));
        }
    }
    assert forall|p: Position| in_board(p, w, h) && p != nh implies #[trigger] cell_of(g3, w, p)
        == cell_of(fg, w, p) by {
        lemma_set_get(fg, w, h, nh, p, hdc);
    }
    assert(cell_of(g3, w, nh) == hdc) by {
        lemma_set_get(fg, w, h, nh, nh, hdc);
    }

    // Every cell the surviving chain runs through is a snake cell of the
    // converted grid, so the new head position is none of them.
    assert forall|i: int| skip <= i < n implies (#[trigger] cell_of(g2, w, b[i]) is Snake) by {
        if i == n - 1 {
        } else {
            assert(is_body_link(cell_of(g0, w, b[i]), b[i], b[i + 1]));
            assert(b[i] != hd);
            if skip == 1 {
                assert(b[i] != tl);
            }
        }
    }
    assert forall|i: int| skip <= i < n implies b[i] != nh by {
        assert(cell_of(g2, w, b[i]) is Snake);
    }

    // The ends of the new chain.
    assert(bb[0] == post.tail) by {
        if skip == 1 {
            assert(is_body_link(cell_of(g0, w, b[0]), b[0], b[1]));
        }
    }

    // The links of the new chain.
    assert forall|j: int| 0 <= j < bb.len() - 1 implies is_body_link(
        #[trigger] cell_of(g3, w, bb[j]),
        bb[j],
        bb[j + 1],
    ) by {
        let i = j + skip;
        let p = bb[j];
        assert(p == b[i]);
        assert(interior(p, w, h));
        assert(cell_of(g2, w, p) is Snake);
        assert(p != nh);
        if placed {
            assert(p != pf);
        }
        if i == n - 1 {
            assert(cell_of(g2, w, p) == bdc);
            assert(bb[j + 1] == nh);
            assert(nh == step_spec(hd, d));
        } else {
            assert(is_body_link(cell_of(g0, w, b[i]), b[i], b[i + 1]));
            assert(p != hd);
            if skip == 1 {
                assert(p != tl);
            }
            assert(cell_of(g3, w, p) == cell_of(g0, w, p));
            assert(bb[j + 1] == b[i + 1]);
        }
    }

    // The chain stays interior and free of repeats.
    assert forall|j: int| 0 <= j < bb.len() implies interior(#[trigger] bb[j], w, h) by {
        if j < bb.len() - 1 {
            assert(bb[j] == b[j + skip]);
        }
    }
    assert forall|j1: int, j2: int| 0 <= j1 < j2 < bb.len() implies bb[j1] != bb[j2] by {
        if j2 == bb.len() - 1 {
            assert(bb[j1] == b[j1 + skip] && bb[j2] == nh);
            assert(b[j1 + skip] != nh);
        } else {
            assert(bb[j1] == b[j1 + skip] && bb[j2] == b[j2 + skip]);
        }
    }

    // A cell holds a snake value exactly when the new chain runs through it.
    assert forall|p: Position| in_board(p, w, h) implies ((#[trigger] post.screen.cell(p))
        is Snake <==> bb.contains(p)) by {
        assert(post.screen.cell(p) == cell_of(g3, w, p));
        if p == nh {
            assert(cell_of(g3, w, p) == hdc);
            assert(bb[bb.len() - 1] == p);
            assert(bb.contains(p));
        } else {
            if cell_of(g3, w, p) is Snake {
                assert(cell_of(fg, w, p) == cell_of(g3, w, p));
                if placed && p == pf {
                    assert(false);
                }
                assert(cell_of(g2, w, p) is Snake);
                if p == hd {
                    assert(bb[n - 1 - skip] == b[n - 1]);
                    assert(bb.contains(p));
                } else {
                    assert(cell_of(g1, w, p) is Snake);
                    if skip == 1 && p == tl {
                        assert(false);
                    }
                    assert(cell_of(g0, w, p) is Snake);
                    assert(b.contains(p));
                    let i = choose|i: int| 0 <= i < n && b[i] == p;
                    assert(i >= skip) by {
                        if skip == 1 && i == 0 {
                            assert(p == tl);
                        }
                    }
                    assert(bb[i - skip] == p);
                    assert(bb.contains(p));
                }
            }
            if bb.contains(p) {
                let j = choose|j: int| 0 <= j < bb.len() && bb[j] == p;
                assert(j < bb.len() - 1);
                assert(p == b[j + skip]);
                assert(cell_of(g2, w, p) is Snake);
                if placed {
                    assert(p != pf);
                }
                assert(cell_of(fg, w, p) is Snake);
                assert(cell_of(g3, w, p) is Snake);
            }
        }
    }

    // Food still sits only on interior cells with small values.
    assert forall|p: Position| in_board(p, w, h) implies food_ok(
        #[trigger] post.screen.cell(p),
        p,
        w,
        h,
    ) by {
        assert(post.screen.cell(p) == cell_of(g3, w, p));
        if p != nh {
            if placed && p == pf {
            } else {
                assert(cell_of(fg, w, p) == cell_of(g2, w, p));
                if p != hd {
                    if skip == 1 && p == tl {
                    } else {
                        assert(cell_of(g2, w, p) == cell_of(g0, w, p));
                        assert(food_ok(cell_of(g0, w, p), p, w, h));
                    }
                }
            }
        }
    }

    assert(is_head_cell(post.screen.cell(nh))) by {
        assert(post.screen.cell(nh) == cell_of(g3, w, nh));
    }
}


/// The inter-tick delay for the next loop iteration: one millisecond
/// shorter after a tick that ate food, never dropping below zero.
pub fn next_delay(delay_ms: u64, food_eaten: bool) -> (r: u64)
    ensures
        r == if food_eaten && delay_ms >= 1 {
            delay_ms - 1
        } else {
            delay_ms as int
        },
{
    if food_eaten && delay_ms >= 1 {
        delay_ms - 1
    } else {
        delay_ms
    }
}

/// The board center, where the snake starts.
pub open spec fn center_spec(w: u16, h: u16) -> Position {
    Position { x: w / 2, y: h / 2 }
}

/// The whole game state: the screen it draws on, the two ends of the
/// snake, its heading, the growth still owed, and the score. The snake's
/// body is never stored as a list; it is the chain of `Snake` cells read
/// off the grid from `tail` to `head` by following each cell's stored
/// direction. The ghost `body` names that chain so contracts can speak of
/// its length.
pub struct Game {
    pub screen: Screen,
    pub head: Position,
    pub tail: Position,
    pub direction: Direction,
    pub growing: u16,
    pub score: u32,
    pub body: Ghost<Seq<Position>>,
}

impl Game {
    /// The grid and the logical snake agree: the ghost chain runs from
    /// `tail` to `head` along stored directions, through distinct interior
    /// cells; a board cell holds a `Snake` value exactly when it is on the
    /// chain; food sits only on interior cells with values 1 through 9; and
    /// a snake that owes no growth is at least two cells long.
    pub open spec fn wf(self) -> bool {
        let w = self.screen.w;
        let h = self.screen.h;
        let b = self.body@;
        &&& self.screen.wf()
        &&& w >= 5
        &&& h >= 5
        &&& b.len() >= 1
        &&& b[0] == self.tail
        &&& b[b.len() - 1] == self.head
        &&& forall|i: int| 0 <= i < b.len() ==> interior(#[trigger] b[i], w, h)
        &&& forall|i: int|
            0 <= i < b.len() - 1 ==> is_body_link(#[trigger] self.screen.cell(b[i]), b[i], b[i + 1])
        &&& is_head_cell(self.screen.cell(self.head))
        &&& forall|i: int, j: int| 0 <= i < j < b.len() ==> b[i] != b[j]
        &&& forall|p: Position|
            in_board(p, w, h) ==> ((#[trigger] self.screen.cell(p)) is Snake <==> b.contains(p))
        &&& forall|p: Position|
            in_board(p, w, h) ==> food_ok(#[trigger] self.screen.cell(p), p, w, h)
        &&& (self.growing == 0 ==> b.len() >= 2)
    }

    /// Steps from tail to head along the chain: the snake's length, less
    /// one.
    pub open spec fn body_len(self) -> int {
        self.body@.len() - 1
    }

    /// A fresh game: the snake is one head cell at the board center,
    /// heading right, owed 5 cells of growth, score 0, and `foods` food
    /// items sit on distinct random empty interior cells. Requires a board
    /// whose interior has room for the head and every food item.
    pub fn new_seeded(w: u16, h: u16, foods: u16) -> (g: Game)
        requires
            5 <= w,
            5 <= h,
            (w + 1) * (h + 1) <= usize::MAX,
            foods + 1 <= (w - 2) * (h - 2),
        ensures
            g.wf(),
            g.screen.w == w,
            g.screen.h == h,
            g.head == center_spec(w, h),
            g.tail == center_spec(w, h),
            g.direction == Direction::Right,
            g.growing == 5,
            g.score == 0,
            g.body@ == seq![center_spec(w, h)],
            g.screen.cell(g.head) == Cell::Snake(Direction::Right, SnakeRole::Head),
            count_food(g.screen.grid()) == foods,
    {
        let mut screen = Screen::new(w, h);
        let center = Position { x: w / 2, y: h / 2 };
        let head_cell = Cell::Snake(Direction::Right, SnakeRole::Head);
        let ghost area = ((w - 2) * (h - 2)) as int;
        let ghost full = Seq::new(area as nat, |k: int| enum_pos(w, k));
        let ghost k0 = (center.y - 2) * (w - 2) + (center.x - 2);
        proof {
            assert(interior(center, w, h));
            assert(0 <= k0 < area) by (nonlinear_arith)
                requires
                    k0 == (center.y - 2) * (w - 2) + (center.x - 2),
                    area == (w - 2) * (h - 2),
                    2 <= center.x < w,
                    2 <= center.y < h,
                    w >= 5,
                    h >= 5,
            ;
            vstd::arithmetic::div_mod::lemma_fundamental_div_mod_converse(
                k0,
                (w - 2) as int,
                (center.y - 2) as int,
                (center.x - 2) as int,
            );
            assert(enum_pos(w, k0) == center);
        }
        let ghost mut avail = full.remove(k0);
        let ghost pre0 = screen;
        screen.set(center, head_cell);
        proof {
            full.remove_ensures(k0);
            lemma_idx_bound(w, h, center);
            lemma_count_food_zero(pre0.grid());
            lemma_count_food_update(pre0.grid(), idx_spec(center, w), head_cell);
            assert(count_food(screen.grid()) == 0);
            assert forall|j: int| 0 <= j < avail.len() implies interior(#[trigger] avail[j], w, h)
                && avail[j] != center && cell_of(screen.grid(), w, avail[j]) == Cell::Empty by {
                let k = if j < k0 {
                    j
                } else {
                    j + 1
                };
                assert(avail[j] == full[k]);
                lemma_enum_pos(w, h, k);
                lemma_enum_pos_inj(w, h, k, k0);
                lemma_idx_bound(w, h, avail[j]);
                lemma_set_get(pre0.grid(), w, h, center, avail[j], head_cell);
            }
            assert forall|j1: int, j2: int|
                0 <= j1 < j2 < avail.len() implies avail[j1] != avail[j2] by {
                let n1 = if j1 < k0 {
                    j1
                } else {
                    j1 + 1
                };
                let n2 = if j2 < k0 {
                    j2
                } else {
                    j2 + 1
                };
                lemma_enum_pos_inj(w, h, n1, n2);
            }
            assert(avail.len() == area - 1);
            assert forall|p: Position| in_board(p, w, h) implies ((#[trigger] screen.cell(p))
                is Snake <==> p == center) by {
                lemma_idx_bound(w, h, p);
                lemma_set_get(pre0.grid(), w, h, center, p, head_cell);
            }
            assert forall|p: Position| in_board(p, w, h) implies food_ok(
                #[trigger] screen.cell(p),
                p,
                w,
                h,
            ) by {
                lemma_idx_bound(w, h, p);
                lemma_set_get(pre0.grid(), w, h, center, p, head_cell);
            }
        }
        let mut i: u16 = 0;
        while i < foods
            invariant
                screen.wf(),
                screen.w == w,
                screen.h == h,
                5 <= w,
                5 <= h,
                i <= foods,
                foods + 1 <= area,
                area == (w - 2) * (h - 2),
                interior(center, w, h),
                avail.len() >= area - 1 - i,
                forall|j: int|
                    0 <= j < avail.len() ==> interior(#[trigger] avail[j], w, h) && avail[j]
                        != center && cell_of(screen.grid(), w, avail[j]) == Cell::Empty,
                forall|j1: int, j2: int| 0 <= j1 < j2 < avail.len() ==> avail[j1] != avail[j2],
                count_food(screen.grid()) == i,
                screen.cell(center) == Cell::Snake(Direction::Right, SnakeRole::Head),
                forall|p: Position|
                    in_board(p, w, h) ==> ((#[trigger] screen.cell(p)) is Snake <==> p == center),
                forall|p: Position|
                    in_board(p, w, h) ==> food_ok(#[trigger] screen.cell(p), p, w, h),
            decreases foods - i,
        {
            let ghost pre = screen;
            let placed = screen.place_food_random();
            proof {
                assert(avail.len() > 0);
                assert(interior(avail[0], w, h) && cell_of(pre.grid(), w, avail[0]) == Cell::Empty);
                assert(placed);
                let (pf, vf): (Position, u16) = choose|pf: Position, vf: u16|
                    placed_food_at(pre.grid(), screen.grid(), w, h, pf, vf);
                lemma_idx_bound(w, h, pf);
                if avail.contains(pf) {
                    let j = avail.index_of(pf);
                    avail.remove_ensures(j);
                    avail = avail.remove(j);
                }
                assert forall|j: int|
                    0 <= j < avail.len() implies interior(#[trigger] avail[j], w, h) && avail[j]
                    != center && cell_of(screen.grid(), w, avail[j]) == Cell::Empty by {
                    assert(avail[j] != pf);
                    lemma_set_get(pre.grid(), w, h, pf, avail[j], Cell::Food(vf));
                }
                assert forall|p: Position| in_board(p, w, h) implies ((#[trigger] screen.cell(p))
                    is Snake <==> p == center) by {
                    lemma_idx_bound(w, h, p);
                    assert(pre.cell(p) == cell_of(pre.grid(), w, p));
                    assert(pre.cell(pf) == Cell::Empty);
                    lemma_set_get(pre.grid(), w, h, pf, p, Cell::Food(vf));
                }
                assert forall|p: Position| in_board(p, w, h) implies food_ok(
                    #[trigger] screen.cell(p),
                    p,
                    w,
                    h,
                ) by {
                    lemma_idx_bound(w, h, p);
                    assert(pre.cell(p) == cell_of(pre.grid(), w, p));
                    assert(food_ok(pre.cell(p), p, w, h));
                    lemma_set_get(pre.grid(), w, h, pf, p, Cell::Food(vf));
                }
                assert(screen.cell(center) == Cell::Snake(Direction::Right, SnakeRole::Head)) by {
                    lemma_set_get(pre.grid(), w, h, pf, center, Cell::Food(vf));
                }
            }
            i = i + 1;
        }
        let ghost b0: Seq<Position> = seq![center];
        let g = Game {
            screen,
            head: center,
            tail: center,
            direction: Direction::Right,
            growing: 5,
            score: 0,
            body: Ghost(b0),
        };
        proof {
            assert(g.body@[0] == center);
            assert forall|p: Position| in_board(p, w, h) implies ((#[trigger] g.screen.cell(p))
                is Snake <==> g.body@.contains(p)) by {
                if g.body@.contains(p) {
                    assert(p == center);
                }
                if p == center {
                    assert(g.body@[0] == p);
                }
            }
        }
        g
    }


    /// Advance the game one step: retract the tail unless growth is owed,
    /// adopt the requested direction, convert the head cell to a body cell,
    /// advance the head, resolve what it landed on (nothing, food, or the
    /// snake itself), draw the new head, and check the walls. Landing on a
    /// snake cell or on the border ends the game; landing on food grows the
    /// snake and the score by the food's value and respawns one food item.
    #[verifier::rlimit(80)]
    pub fn tick(&mut self, new_direction: Option<Direction>) -> (status: GameStatus)
        requires
            old(self).wf(),
            old(self).growing <= u16::MAX - 9,
            old(self).score <= u32::MAX - 9,
        ensures
            final(self).screen.w == old(self).screen.w,
            final(self).screen.h == old(self).screen.h,
            final(self).direction == eff_dir(new_direction, old(self).direction),
            final(self).head == step_spec(old(self).head, final(self).direction),
            final(self).tail == tail_after_retract(*old(self)),
            old(self).screen.pend().is_prefix_of(final(self).screen.pend()),
            (hit_cell(*old(self), final(self).direction) is Snake ==> status == GameStatus::GameOver
                && final(self).screen.grid() == grid_mid(*old(self), final(self).direction)
                && final(self).growing == growing_after_retract(*old(self))
                && final(self).score == old(self).score),
            (hit_cell(*old(self), final(self).direction) is Empty ==> final(self).screen.grid()
                == grid_mid(*old(self), final(self).direction).update(
                idx_spec(final(self).head, old(self).screen.w),
                Cell::Snake(final(self).direction, SnakeRole::Head),
            ) && final(self).growing == growing_after_retract(*old(self)) && final(self).score
                == old(self).score && status == (if on_border(
                final(self).head,
                old(self).screen.w,
                old(self).screen.h,
            ) {
                GameStatus::GameOver
            } else {
                GameStatus::Continue(false)
            })),
            (hit_cell(*old(self), final(self).direction) matches Cell::Food(v)
                ==> final(self).growing == growing_after_retract(*old(self)) + v
                && final(self).score == old(self).score + v
                && status == GameStatus::Continue(true) && exists|mid: Seq<Cell>|
                food_respawn(
                    grid_mid(*old(self), final(self).direction),
                    mid,
                    old(self).screen.w,
                    old(self).screen.h,
                ) && final(self).screen.grid() == mid.update(
                    idx_spec(final(self).head, old(self).screen.w),
                    Cell::Snake(final(self).direction, SnakeRole::Head),
                )),
            on_border(final(self).head, old(self).screen.w, old(self).screen.h) ==> status
                == GameStatus::GameOver,
            (status matches GameStatus::Continue(f) ==> final(self).wf() && final(self).body@.len()
                == old(self).body@.len() + (if old(self).growing > 0 {
                1int
            } else {
                0int
            }) && (f <==> hit_cell(*old(self), final(self).direction) is Food) && interior(
                final(self).head,
                old(self).screen.w,
                old(self).screen.h,
            )),
    {
        let ghost pre = *self;
        let w = self.screen.w;
        let h = self.screen.h;
        if self.growing > 0 {
            self.growing = self.growing - 1;
        } else {
            proof {
                assert(pre.body@[0] == pre.tail);
                assert(pre.body@.contains(pre.tail));
                assert(pre.screen.cell(pre.tail) is Snake);
                assert(interior(pre.tail, w, h));
            }
            let tail_cell = self.screen.get(self.tail);
            let td = match tail_cell {
                Cell::Snake(dir, _) => dir,
                _ => unreached(),
            };
            self.screen.set(self.tail, Cell::Empty);
            self.tail.inc(td);
        }
        if let Some(dir) = new_direction {
            self.direction = dir;
        }
        proof {
            assert(self.direction == eff_dir(new_direction, pre.direction));
            assert(self.screen.grid() == grid_after_retract(pre));
            assert(self.tail == tail_after_retract(pre));
            assert(self.growing == growing_after_retract(pre));
            assert(interior(pre.head, w, h)) by {
                assert(pre.body@[pre.body@.len() - 1] == pre.head);
            }
        }
        let ghost d = self.direction;
        self.screen.set(self.head, Cell::Snake(self.direction, SnakeRole::Body));
        proof {
            assert(self.screen.grid() == grid_mid(pre, d));
        }
        self.head.inc(self.direction);
        proof {
            lemma_step_in_board(pre.head, d, w, h);
            assert(self.head == step_spec(pre.head, d));
        }
        let ghost nh = self.head;
        let hit = self.screen.get(self.head);
        proof {
            assert(hit == hit_cell(pre, d));
        }
        let mut food = false;
        let ghost mut fg = self.screen.grid();
        match hit {
            Cell::Empty => {},
            Cell::Food(v) => {
                proof {
                    lemma_idx_bound(w, h, nh);
                    assert(cell_of(grid_mid(pre, d), w, nh) == Cell::Food(v));
                    assert(cell_of(pre.screen.grid(), w, nh) == Cell::Food(v)) by {
                        if pre.growing == 0 {
                            lemma_idx_bound(w, h, pre.tail);
                            if nh == pre.tail {
                                lemma_set_get(
                                    pre.screen.grid(),
                                    w,
                                    h,
                                    pre.tail,
                                    nh,
                                    Cell::Empty,
                                );
                            }
                        }
                        lemma_idx_bound(w, h, pre.head);
                        lemma_set_get(
                            grid_after_retract(pre),
                            w,
                            h,
                            pre.head,
                            nh,
                            Cell::Snake(d, SnakeRole::Body),
                        );
                        assert(grid_after_retract(pre).len() == pre.screen.grid().len());
                    }
                    assert(food_ok(pre.screen.cell(nh), nh, w, h));
                    assert(1 <= v <= 9);
                    assert(interior(nh, w, h));
                }
                self.growing = self.growing + v;
                self.score = self.score + v as u32;
                let _placed = self.screen.place_food_random();
                proof {
                    fg = self.screen.grid();
                    assert(food_respawn(grid_mid(pre, d), fg, w, h));
                }
                self.screen.display_score(self.score);
                food = true;
            },
            Cell::Snake(_, _) => {
                return GameStatus::GameOver;
            },
        }
        self.screen.set(self.head, Cell::Snake(self.direction, SnakeRole::Head));
        proof {
            assert(self.screen.grid() == fg.update(idx_spec(nh, w), Cell::Snake(d, SnakeRole::Head)));
            if hit matches Cell::Food(v) {
                assert(exists|mid: Seq<Cell>|
                    food_respawn(grid_mid(pre, d), mid, w, h) && self.screen.grid() == mid.update(
                        idx_spec(nh, w),
                        Cell::Snake(d, SnakeRole::Head),
                    ));
            }
        }
        if self.head.x == 1 || self.head.y == 1 || self.head.x == w || self.head.y == h {
            GameStatus::GameOver
        } else {
            proof {
                assert(in_board(nh, w, h));
                assert(!on_border(nh, w, h));
                assert(interior(nh, w, h));
                self.body@ = tick_body(pre, nh);
                assert(fg == grid_mid(pre, d) || placed_food(grid_mid(pre, d), fg, w, h));
                lemma_tick_wf(pre, *self, fg);
                assert(self.body@.len() == pre.body@.len() + (if pre.growing > 0 {
                    1int
                } else {
                    0int
                }));
            }
            GameStatus::Continue(food)
        }
    }


    /// Put a food item of value `v` at `p`, if `p` is an empty interior
    /// cell and `v` is between 1 and 9; otherwise change nothing. Reports
    /// whether the food was placed.
    pub fn place_food_at(&mut self, p: Position, v: u16) -> (placed: bool)
        requires
            old(self).wf(),
        ensures
            final(self).wf(),
            final(self).head == old(self).head,
            final(self).tail == old(self).tail,
            final(self).direction == old(self).direction,
            final(self).growing == old(self).growing,
            final(self).score == old(self).score,
            final(self).body == old(self).body,
            final(self).screen.w == old(self).screen.w,
            final(self).screen.h == old(self).screen.h,
            placed <==> (interior(p, old(self).screen.w, old(self).screen.h) && old(
                self,
            ).screen.cell(p) == Cell::Empty && 1 <= v <= 9),
            placed ==> final(self).screen.grid() == old(self).screen.grid().update(
                idx_spec(p, old(self).screen.w),
                Cell::Food(v),
            ) && count_food(final(self).screen.grid()) == count_food(old(self).screen.grid()) + 1,
            !placed ==> final(self).screen == old(self).screen,
    {
        let w = self.screen.w;
        let h = self.screen.h;
        if v < 1 || v > 9 {
            return false;
        }
        if !(2 <= p.x && p.x < w && 2 <= p.y && p.y < h) {
            return false;
        }
        let c = self.screen.get(p);
        if let Cell::Empty = c {
            let ghost pre = *self;
            self.screen.set(p, Cell::Food(v));
            proof {
                lemma_idx_bound(w, h, p);
                lemma_count_food_update(pre.screen.grid(), idx_spec(p, w), Cell::Food(v));
                let b = pre.body@;
                assert forall|i: int|
                    0 <= i < b.len() - 1 implies is_body_link(
                    #[trigger] self.screen.cell(b[i]),
                    b[i],
                    b[i + 1],
                ) by {
                    assert(is_body_link(pre.screen.cell(b[i]), b[i], b[i + 1]));
                    assert(pre.screen.cell(b[i]) is Snake);
                    assert(b[i] != p);
                    lemma_set_get(pre.screen.grid(), w, h, p, b[i], Cell::Food(v));
                }
                assert(self.screen.cell(pre.head) == pre.screen.cell(pre.head)) by {
                    assert(b[b.len() - 1] == pre.head);
                    assert(pre.screen.cell(pre.head) is Snake);
                    lemma_set_get(pre.screen.grid(), w, h, p, pre.head, Cell::Food(v));
                }
                assert forall|q: Position| in_board(q, w, h) implies ((
                #[trigger] self.screen.cell(q)) is Snake <==> b.contains(q)) by {
                    if q == p {
                        assert(self.screen.cell(p) == Cell::Food(v));
                        if b.contains(p) {
                            assert(pre.screen.cell(p) is Snake);
                        }
                    } else {
                        lemma_set_get(pre.screen.grid(), w, h, p, q, Cell::Food(v));
                        assert(pre.screen.cell(q) == cell_of(pre.screen.grid(), w, q));
                    }
                }
                assert forall|q: Position| in_board(q, w, h) implies food_ok(
                    #[trigger] self.screen.cell(q),
                    q,
                    w,
                    h,
                ) by {
                    if q != p {
                        lemma_set_get(pre.screen.grid(), w, h, p, q, Cell::Food(v));
                        assert(food_ok(pre.screen.cell(q), q, w, h));
                    }
                }
            }
            true
        } else {
            false
        }
    }

    /// A fresh game seeded with the fixed 20 food items.
    pub fn new(w: u16, h: u16) -> (g: Game)
        requires
            5 <= w,
            5 <= h,
            (w + 1) * (h + 1) <= usize::MAX,
            21 <= (w - 2) * (h - 2),
        ensures
            g.wf(),
            g.screen.w == w,
            g.screen.h == h,
            g.head == center_spec(w, h),
            g.tail == center_spec(w, h),
            g.direction == Direction::Right,
            g.growing == 5,
            g.score == 0,
            g.body@ == seq![center_spec(w, h)],
            g.screen.cell(g.head) == Cell::Snake(Direction::Right, SnakeRole::Head),
            count_food(g.screen.grid()) == 20,
    {
        Game::new_seeded(w, h, 20)
    }
}

} // verus!
