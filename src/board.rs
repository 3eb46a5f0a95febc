//! The mathematical model of a grid and of one generation step.

use vstd::arithmetic::div_mod::lemma_fundamental_div_mod_converse;
use vstd::prelude::*;

verus! {

/// A grid as a mathematical value: its dimensions and its cells in row-major order.
pub ghost struct Board {
    pub width: nat,
    pub height: nat,
    pub cells: Seq<bool>,
}

/// The state of a cell in the next generation, given its state and its live-neighbour count.
pub open spec fn rule(alive: bool, n: nat) -> bool {
    if alive {
        n == 2 || n == 3
    } else {
        n == 3
    }
}

/// 1 for a live cell, 0 for a dead one.
pub open spec fn as_count(b: bool) -> nat {
    if b {
        1
    } else {
        0
    }
}

impl Board {
    /// Positive dimensions and one cell per position.
    pub open spec fn valid(self) -> bool {
        &&& self.width > 0
        &&& self.height > 0
        &&& self.cells.len() == self.width * self.height
    }

    pub open spec fn in_bounds(self, x: int, y: int) -> bool {
        0 <= x < self.width && 0 <= y < self.height
    }

    /// Whether the cell at column `x`, row `y` is alive; positions off the grid hold no cell.
    pub open spec fn alive(self, x: int, y: int) -> bool {
        self.in_bounds(x, y) && self.cells[y * self.width + x]
    }

    /// The number of live cells among the eight Moore neighbours of `(x, y)`.
    pub open spec fn live_neighbors(self, x: int, y: int) -> nat {
        as_count(self.alive(x - 1, y - 1)) + as_count(self.alive(x, y - 1)) + as_count(
            self.alive(x + 1, y - 1),
        ) + as_count(self.alive(x - 1, y)) + as_count(self.alive(x + 1, y)) + as_count(
            self.alive(x - 1, y + 1),
        ) + as_count(self.alive(x, y + 1)) + as_count(self.alive(x + 1, y + 1))
    }

    /// The next generation: every cell follows the rule against this generation.
    pub open spec fn next(self) -> Board {
        Board {
            width: self.width,
            height: self.height,
            cells: Seq::new(
                self.width * self.height,
                |i: int|
                    rule(
                        self.cells[i],
                        self.live_neighbors(i % (self.width as int), i / (self.width as int)),
                    ),
            ),
        }
    }

    /// The board after `k` generations.
    pub open spec fn after(self, k: nat) -> Board
        decreases k,
    {
        if k == 0 {
            self
        } else {
            self.next().after((k - 1) as nat)
        }
    }

    /// Every cell is dead.
    pub open spec fn all_dead(self) -> bool {
        forall|i: int| 0 <= i < self.cells.len() ==> !self.cells[i]
    }

    /// Every cell is alive.
    pub open spec fn all_alive(self) -> bool {
        forall|i: int| 0 <= i < self.cells.len() ==> self.cells[i]
    }
}

/// The flat index of a position is in range, and maps back to that position.
pub proof fn lemma_index(w: nat, h: nat, x: int, y: int)
    requires
        0 <= x < w,
        0 <= y < h,
    ensures
        0 <= y * w + x < w * h,
        (y * w + x) % (w as int) == x,
        (y * w + x) / (w as int) == y,
{
    assert(0 <= y * w + x < w * h) by (nonlinear_arith)
        requires
            0 <= x < w,
            0 <= y < h,
    ;
    lemma_fundamental_div_mod_converse(y * w + x, w as int, y, x);
}

/// Every flat index is the index of the position its quotient and remainder name.
pub proof fn lemma_position(w: nat, h: nat, i: int)
    requires
        w > 0,
        0 <= i < w * h,
    ensures
        0 <= i % (w as int) < w,
        0 <= i / (w as int) < h,
        i == (i / (w as int)) * w + i % (w as int),
{
    let q = i / (w as int);
    let r = i % (w as int);
    assert(i == q * w + r && 0 <= r < w) by (nonlinear_arith)
        requires
            w > 0,
            q == i / (w as int),
            r == i % (w as int),
    ;
    assert(0 <= q < h) by (nonlinear_arith)
        requires
            w > 0,
            0 <= i < w * h,
            i == q * w + r,
            0 <= r < w,
    ;
}

/// The next generation keeps the dimensions and the validity of a board.
pub proof fn lemma_next_valid(b: Board)
    requires
        b.valid(),
    ensures
        b.next().valid(),
        b.next().width == b.width,
        b.next().height == b.height,
{
}

/// A board of the given size whose cell at `(x, y)` is alive exactly when `p(x, y)` holds.
pub open spec fn pattern(w: nat, h: nat, p: spec_fn(int, int) -> bool) -> Board {
    Board {
        width: w,
        height: h,
        cells: Seq::new(w * h, |i: int| p(i % (w as int), i / (w as int))),
    }
}

/// On a board built from a predicate, a position is alive exactly when it is on the grid
/// and the predicate holds there.
pub proof fn lemma_pattern_alive(w: nat, h: nat, p: spec_fn(int, int) -> bool)
    requires
        w > 0,
        h > 0,
    ensures
        pattern(w, h, p).valid(),
        forall|x: int, y: int|
            #[trigger] pattern(w, h, p).alive(x, y) == (0 <= x < w && 0 <= y < h && p(x, y)),
{
    let b = pattern(w, h, p);
    assert forall|x: int, y: int|
        #[trigger] b.alive(x, y) == (0 <= x < w && 0 <= y < h && p(x, y)) by {
        if 0 <= x < w && 0 <= y < h {
            lemma_index(w, h, x, y);
        }
    }
}

/// The next generation of a board, read at a position on the grid.
pub proof fn lemma_next_at(b: Board, x: int, y: int)
    requires
        b.valid(),
        b.in_bounds(x, y),
    ensures
        b.next().alive(x, y) == rule(b.alive(x, y), b.live_neighbors(x, y)),
{
    lemma_index(b.width, b.height, x, y);
}

/// Two boards of the same size that agree on every position on the grid are equal.
pub proof fn lemma_boards_equal(a: Board, b: Board)
    requires
        a.valid(),
        b.valid(),
        a.width == b.width,
        a.height == b.height,
        forall|x: int, y: int| a.in_bounds(x, y) ==> #[trigger] a.alive(x, y) == b.alive(x, y),
    ensures
        a == b,
{
    assert forall|i: int| 0 <= i < a.cells.len() implies a.cells[i] == b.cells[i] by {
        let w = a.width as int;
        lemma_position(a.width, a.height, i);
        assert(a.alive(i % w, i / w) == b.alive(i % w, i / w));
    }
    assert(a.cells =~= b.cells);
}

/// A grid with every cell dead stays dead for any number of generations.
pub proof fn lemma_dead_stays_dead(b: Board, k: nat)
    requires
        b.valid(),
        b.all_dead(),
    ensures
        b.after(k).valid(),
        b.after(k).all_dead(),
        b.after(k).width == b.width,
        b.after(k).height == b.height,
    decreases k,
{
    if k > 0 {
        let n = b.next();
        lemma_next_valid(b);
        assert forall|x: int, y: int| !#[trigger] b.alive(x, y) by {
            if b.in_bounds(x, y) {
                lemma_index(b.width, b.height, x, y);
            }
        }
        assert forall|i: int| 0 <= i < n.cells.len() implies !n.cells[i] by {
            let w = b.width as int;
            lemma_position(b.width, b.height, i);
            lemma_next_at(b, i % w, i / w);
            assert(!b.alive(i % w - 1, i / w - 1) && !b.alive(i % w, i / w - 1) && !b.alive(i % w + 1, i / w - 1));
            assert(!b.alive(i % w - 1, i / w) && !b.alive(i % w + 1, i / w));
            assert(!b.alive(i % w - 1, i / w + 1) && !b.alive(i % w, i / w + 1) && !b.alive(i % w + 1, i / w + 1));
            assert(!n.alive(i % w, i / w));
        }
        lemma_dead_stays_dead(n, (k - 1) as nat);
    }
}

/// A cell with no live neighbours is dead in the next generation, whatever its state.
pub proof fn lemma_isolated_cell_dies(b: Board, x: int, y: int)
    requires
        b.valid(),
        b.in_bounds(x, y),
        b.live_neighbors(x, y) == 0,
    ensures
        !b.next().alive(x, y),
{
    lemma_next_at(b, x, y);
}

/// The 2x2 block whose top-left cell is `(bx, by)`.
pub open spec fn in_block(bx: int, by: int, x: int, y: int) -> bool {
    bx <= x <= bx + 1 && by <= y <= by + 1
}

/// The board of the given size holding only the 2x2 block at `(bx, by)`.
pub open spec fn block(w: nat, h: nat, bx: int, by: int) -> Board {
    pattern(w, h, |x: int, y: int| in_block(bx, by, x, y))
}

/// A 2x2 block of live cells, alone on a grid that holds it, is a still life.
pub proof fn lemma_block_still_life(w: nat, h: nat, bx: int, by: int)
    requires
        0 <= bx,
        bx + 1 < w,
        0 <= by,
        by + 1 < h,
    ensures
        block(w, h, bx, by).valid(),
        block(w, h, bx, by).next() == block(w, h, bx, by),
{
    let p = |x: int, y: int| in_block(bx, by, x, y);
    let b = block(w, h, bx, by);
    lemma_pattern_alive(w, h, p);
    lemma_next_valid(b);
    assert forall|x: int, y: int| b.in_bounds(x, y) implies #[trigger] b.next().alive(x, y) == b.alive(x, y) by {
        lemma_next_at(b, x, y);
        assert(b.alive(x - 1, y - 1) == (0 <= x - 1 < w && 0 <= y - 1 < h && p(x - 1, y - 1)));
        assert(b.alive(x, y - 1) == (0 <= x < w && 0 <= y - 1 < h && p(x, y - 1)));
        assert(b.alive(x + 1, y - 1) == (0 <= x + 1 < w && 0 <= y - 1 < h && p(x + 1, y - 1)));
        assert(b.alive(x - 1, y) == (0 <= x - 1 < w && 0 <= y < h && p(x - 1, y)));
        assert(b.alive(x, y) == (0 <= x < w && 0 <= y < h && p(x, y)));
        assert(b.alive(x + 1, y) == (0 <= x + 1 < w && 0 <= y < h && p(x + 1, y)));
        assert(b.alive(x - 1, y + 1) == (0 <= x - 1 < w && 0 <= y + 1 < h && p(x - 1, y + 1)));
        assert(b.alive(x, y + 1) == (0 <= x < w && 0 <= y + 1 < h && p(x, y + 1)));
        assert(b.alive(x + 1, y + 1) == (0 <= x + 1 < w && 0 <= y + 1 < h && p(x + 1, y + 1)));
    }
    lemma_boards_equal(b.next(), b);
}

/// The three-cell row `{(0, 1), (1, 1), (2, 1)}` (column, row) of a blinker.
pub open spec fn in_blinker_row(x: int, y: int) -> bool {
    y == 1 && 0 <= x <= 2
}

/// The three-cell column `{(1, 0), (1, 1), (1, 2)}` (column, row) of a blinker.
pub open spec fn in_blinker_column(x: int, y: int) -> bool {
    x == 1 && 0 <= y <= 2
}

pub open spec fn blinker_row(w: nat, h: nat) -> Board {
    pattern(w, h, |x: int, y: int| in_blinker_row(x, y))
}

pub open spec fn blinker_column(w: nat, h: nat) -> Board {
    pattern(w, h, |x: int, y: int| in_blinker_column(x, y))
}

proof fn lemma_blinker_half(w: nat, h: nat, p: spec_fn(int, int) -> bool, q: spec_fn(int, int) -> bool)
    requires
        w >= 3,
        h >= 3,
        (p == (|x: int, y: int| in_blinker_row(x, y)) && q == (|x: int, y: int| in_blinker_column(x, y)))
            || (p == (|x: int, y: int| in_blinker_column(x, y)) && q == (|x: int, y: int| in_blinker_row(x, y))),
    ensures
        pattern(w, h, p).next() == pattern(w, h, q),
{
    let a = pattern(w, h, p);
    let b = pattern(w, h, q);
    lemma_pattern_alive(w, h, p);
    lemma_pattern_alive(w, h, q);
    lemma_next_valid(a);
    assert forall|x: int, y: int| a.in_bounds(x, y) implies #[trigger] a.next().alive(x, y) == b.alive(x, y) by {
        lemma_next_at(a, x, y);
        assert(a.alive(x - 1, y - 1) == (0 <= x - 1 < w && 0 <= y - 1 < h && p(x - 1, y - 1)));
        assert(a.alive(x, y - 1) == (0 <= x < w && 0 <= y - 1 < h && p(x, y - 1)));
        assert(a.alive(x + 1, y - 1) == (0 <= x + 1 < w && 0 <= y - 1 < h && p(x + 1, y - 1)));
        assert(a.alive(x - 1, y) == (0 <= x - 1 < w && 0 <= y < h && p(x - 1, y)));
        assert(a.alive(x, y) == (0 <= x < w && 0 <= y < h && p(x, y)));
        assert(a.alive(x + 1, y) == (0 <= x + 1 < w && 0 <= y < h && p(x + 1, y)));
        assert(a.alive(x - 1, y + 1) == (0 <= x - 1 < w && 0 <= y + 1 < h && p(x - 1, y + 1)));
        assert(a.alive(x, y + 1) == (0 <= x < w && 0 <= y + 1 < h && p(x, y + 1)));
        assert(a.alive(x + 1, y + 1) == (0 <= x + 1 < w && 0 <= y + 1 < h && p(x + 1, y + 1)));
        assert(b.alive(x, y) == (0 <= x < w && 0 <= y < h && q(x, y)));
    }
    lemma_boards_equal(a.next(), b);
}

/// A blinker on a grid of at least 3x3 with every other cell dead oscillates with period 2:
/// the row becomes the column, and the column becomes the row again.
pub proof fn lemma_blinker_oscillates(w: nat, h: nat)
    requires
        w >= 3,
        h >= 3,
    ensures
        blinker_row(w, h).valid(),
        blinker_row(w, h).next() == blinker_column(w, h),
        blinker_column(w, h).next() == blinker_row(w, h),
        blinker_row(w, h).after(2) == blinker_row(w, h),
{
    let p = |x: int, y: int| in_blinker_row(x, y);
    let q = |x: int, y: int| in_blinker_column(x, y);
    lemma_pattern_alive(w, h, p);
    lemma_blinker_half(w, h, p, q);
    lemma_blinker_half(w, h, q, p);
    let r = blinker_row(w, h);
    assert(r.after(2) == r.next().after(1));
    assert(r.next().after(1) == r.next().next().after(0));
}

/// Neighbours beyond the edge are absent: a corner cell counts at most 3 live neighbours,
/// a cell on an edge at most 5, and any cell at most 8.
pub proof fn lemma_clipped_neighbors(b: Board, x: int, y: int)
    requires
        b.valid(),
        b.in_bounds(x, y),
    ensures
        b.live_neighbors(x, y) <= 8,
        (x == 0 || x == b.width - 1) && (y == 0 || y == b.height - 1) ==> b.live_neighbors(x, y)
            <= 3,
        (x == 0 || x == b.width - 1 || y == 0 || y == b.height - 1) ==> b.live_neighbors(x, y)
            <= 5,
{
}

} // verus!
