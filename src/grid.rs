//! The grid engine: a fixed-size grid of cells with a double-buffered generation step.

use crate::board::{lemma_index, lemma_next_valid, rule, Board};
use vstd::prelude::*;

verus! {

/// Relies on rand::random, which draws a value from the thread-local generator; nothing is
/// known of the value drawn.
pub assume_specification<T>[ rand::random::<T> ]() -> (r: T)
    where
        rand::distributions::Standard: rand::distributions::Distribution<T>,
;

/// Why a grid could not be built or read.
#[derive(Debug, Clone, Copy, PartialEq, Eq, Structural)]
pub enum GridError {
    /// A width or height of zero, or a cell count that does not fit in memory.
    InvalidDimension,
    /// A position outside the grid.
    OutOfBounds,
}

/// A grid of `width * height` cells, stored row-major, with a scratch buffer of the same
/// size that receives the next generation during a step.
///
/// The grid stores no neighbour links: the neighbours of a cell are worked out from its
/// position each time they are counted, so cells off the grid never take part.
pub struct GameOfLife {
    width: usize,
    height: usize,
    cells: Vec<bool>,
    scratch: Vec<bool>,
}

impl View for GameOfLife {
    type V = Board;

    closed spec fn view(&self) -> Board {
        Board { width: self.width as nat, height: self.height as nat, cells: self.cells@ }
    }
}

/// 2^64: the number of values a draw can take.
pub open spec fn draw_range() -> int {
    0x1_0000_0000_0000_0000
}

/// A uniform draw, read as the fraction `draw / 2^64` of the unit interval, lies below the
/// density `num / den`.
pub open spec fn drawn_alive(draw: u64, num: u64, den: u64) -> bool {
    (draw as int) * (den as int) < (num as int) * draw_range()
}

/// Under density zero no draw gives a live cell; under density one every draw does.
pub proof fn lemma_draw_extremes(draw: u64, num: u64, den: u64)
    requires
        den > 0,
        num <= den,
    ensures
        num == 0 ==> !drawn_alive(draw, num, den),
        num == den ==> drawn_alive(draw, num, den),
{
    assert(num == den ==> (draw as int) * (den as int) < (num as int) * draw_range()) by (nonlinear_arith)
        requires
            den > 0,
            0 <= draw < draw_range(),
    ;
    assert(0 <= (draw as int) * (den as int)) by (nonlinear_arith);
}

/// Whether a cell is alive, given its draw and the density `num / den`.
pub fn alive_from_draw(draw: u64, num: u64, den: u64) -> (r: bool)
    ensures
        r == drawn_alive(draw, num, den),
{
    assert((draw as int) * (den as int) <= (u64::MAX as int) * (u64::MAX as int)) by (nonlinear_arith)
        requires
            0 <= draw <= u64::MAX,
            0 <= den <= u64::MAX,
    ;
    (draw as u128) * (den as u128) < (num as u128) * 0x1_0000_0000_0000_0000u128
}

/// The dimensions are accepted: both positive, and their product fits in a `usize`.
pub open spec fn dims_ok(width: usize, height: usize) -> bool {
    width > 0 && height > 0 && width * height <= usize::MAX
}

impl GameOfLife {
    /// The model is a valid board and the scratch buffer has one slot per cell.
    pub closed spec fn wf(&self) -> bool {
        &&& self@.valid()
        &&& self.scratch@.len() == self.cells@.len()
        &&& self.cells@.len() <= usize::MAX
    }

    /// A well-formed grid is a valid board.
    pub proof fn lemma_wf_valid(&self)
        requires
            self.wf(),
        ensures
            self@.valid(),
    {
    }

    /// A grid of the given size with every cell dead.
    pub fn new(width: usize, height: usize) -> (r: Result<GameOfLife, GridError>)
        ensures
            r is Ok <==> dims_ok(width, height),
            r is Err ==> r == Err::<GameOfLife, GridError>(GridError::InvalidDimension),
            r matches Ok(g) ==> {
                &&& g.wf()
                &&& g@.width == width
                &&& g@.height == height
                &&& g@.all_dead()
            },
    {
        if width == 0 || height == 0 {
            return Err(GridError::InvalidDimension);
        }
        let n = match width.checked_mul(height) {
            Some(n) => n,
            None => {
                return Err(GridError::InvalidDimension);
            },
        };
        let cells: Vec<bool> = vec![false; n];
        let scratch: Vec<bool> = vec![false; n];
        Ok(GameOfLife { width, height, cells, scratch })
    }

    /// A grid whose cell with flat index `i` is alive exactly when `draws[i]`, read as a
    /// fraction of 2^64, falls below the density `density_num / density_den`.
    pub fn from_draws(width: usize, height: usize, density_num: u64, density_den: u64, draws: &Vec<u64>) -> (r: Result<GameOfLife, GridError>)
        requires
            density_den > 0,
            density_num <= density_den,
            draws@.len() == width * height,
        ensures
            r is Ok <==> dims_ok(width, height),
            r is Err ==> r == Err::<GameOfLife, GridError>(GridError::InvalidDimension),
            r matches Ok(g) ==> {
                &&& g.wf()
                &&& g@.width == width
                &&& g@.height == height
                &&& forall|i: int|
                    0 <= i < g@.cells.len() ==> g@.cells[i] == drawn_alive(
                        draws@[i],
                        density_num,
                        density_den,
                    )
            },
    {
        if width == 0 || height == 0 || width.checked_mul(height).is_none() {
            return Err(GridError::InvalidDimension);
        }
        let n = draws.len();
        let mut cells: Vec<bool> = Vec::with_capacity(n);
        let mut i: usize = 0;
        while i < n
            invariant
                n == draws@.len(),
                i <= n,
                cells@.len() == i,
                density_den > 0,
                density_num <= density_den,
                forall|j: int|
                    0 <= j < i ==> cells@[j] == drawn_alive(draws@[j], density_num, density_den),
            decreases n - i,
        {
            cells.push(alive_from_draw(draws[i], density_num, density_den));
            i = i + 1;
        }
        let scratch: Vec<bool> = vec![false; n];
        Ok(GameOfLife { width, height, cells, scratch })
    }

    /// A grid whose cells are each alive with probability `density_num / density_den`, drawn
    /// independently from the thread-local random source. A density of zero gives an
    /// all-dead grid and a density of one an all-live grid, whatever is drawn.
    pub fn from_random_grid(width: usize, height: usize, density_num: u64, density_den: u64) -> (r: Result<GameOfLife, GridError>)
        requires
            density_den > 0,
            density_num <= density_den,
        ensures
            r is Ok <==> dims_ok(width, height),
            r is Err ==> r == Err::<GameOfLife, GridError>(GridError::InvalidDimension),
            r matches Ok(g) ==> {
                &&& g.wf()
                &&& g@.width == width
                &&& g@.height == height
                &&& density_num == 0 ==> g@.all_dead()
                &&& density_num == density_den ==> g@.all_alive()
            },
    {
        if width == 0 || height == 0 {
            return Err(GridError::InvalidDimension);
        }
        let n = match width.checked_mul(height) {
            Some(n) => n,
            None => {
                return Err(GridError::InvalidDimension);
            },
        };
        let mut draws: Vec<u64> = Vec::with_capacity(n);
        let mut i: usize = 0;
        while i < n
            invariant
                i <= n,
                draws@.len() == i,
            decreases n - i,
        {
            draws.push(rand::random::<u64>());
            i = i + 1;
        }
        let r = GameOfLife::from_draws(width, height, density_num, density_den, &draws);
        proof {
            if r is Ok {
                let g = r->Ok_0;
                assert forall|j: int| 0 <= j < g@.cells.len() implies {
                    &&& density_num == 0 ==> !g@.cells[j]
                    &&& density_num == density_den ==> g@.cells[j]
                } by {
                    lemma_draw_extremes(draws@[j], density_num, density_den);
                }
            }
        }
        r
    }

    pub fn width(&self) -> (r: usize)
        ensures
            r == self@.width,
    {
        self.width
    }

    pub fn height(&self) -> (r: usize)
        ensures
            r == self@.height,
    {
        self.height
    }

    /// The state of the cell with flat index `id` (`y * width + x`), or `None` past the end.
    pub fn get_cell(&self, id: usize) -> (r: Option<bool>)
        requires
            self.wf(),
        ensures
            id < self@.cells.len() ==> r == Some(self@.cells[id as int]),
            id >= self@.cells.len() ==> r is None,
    {
        if id < self.cells.len() {
            Some(self.cells[id])
        } else {
            None
        }
    }

    /// Every cell as `(x, y, alive)`, in row-major order.
    pub fn cell_states(&self) -> (r: Vec<(usize, usize, bool)>)
        requires
            self.wf(),
        ensures
            r@.len() == self@.cells.len(),
            forall|i: int|
                0 <= i < r@.len() ==> #[trigger] r@[i] == (
                    (i % (self@.width as int)) as usize,
                    (i / (self@.width as int)) as usize,
                    self@.cells[i],
                ),
    {
        let n = self.cells.len();
        let w = self.width;
        let h = self.height;
        let mut r: Vec<(usize, usize, bool)> = Vec::with_capacity(n);
        let mut i: usize = 0;
        let mut x: usize = 0;
        let mut y: usize = 0;
        while i < n
            invariant
                self.wf(),
                n == self@.cells.len(),
                w == self@.width,
                h == self@.height,
                x < w,
                i == y * w + x,
                i <= n,
                i < n ==> y < h,
                r@.len() == i,
                forall|j: int|
                    0 <= j < i ==> #[trigger] r@[j] == (
                        (j % (w as int)) as usize,
                        (j / (w as int)) as usize,
                        self@.cells[j],
                    ),
            decreases n - i,
        {
            proof {
                lemma_index(w as nat, h as nat, x as int, y as int);
            }
            r.push((x, y, self.cells[i]));
            i = i + 1;
            let ghost x_prev = x;
            if x + 1 < w {
                x = x + 1;
            } else {
                x = 0;
                y = y + 1;
                proof {
                    assert(i == y * w && (i < n ==> y < h)) by (nonlinear_arith)
                        requires
                            i == (y - 1) * w + x_prev + 1,
                            x_prev + 1 == w,
                            n == w * h,
                    ;
                }
            }
        }
        r
    }

    fn alive_at(&self, x: usize, y: usize) -> (r: bool)
        requires
            self.wf(),
            x < self@.width,
            y < self@.height,
        ensures
            r == self@.alive(x as int, y as int),
    {
        proof {
            lemma_index(self.width as nat, self.height as nat, x as int, y as int);
            assert(0 <= y * self.width <= y * self.width + x);
        }
        self.cells[y * self.width + x]
    }

    /// The state of the cell at column `x`, row `y`.
    pub fn is_alive(&self, x: usize, y: usize) -> (r: Result<bool, GridError>)
        requires
            self.wf(),
        ensures
            self@.in_bounds(x as int, y as int) ==> r == Ok::<bool, GridError>(
                self@.alive(x as int, y as int),
            ),
            !self@.in_bounds(x as int, y as int) ==> r == Err::<bool, GridError>(
                GridError::OutOfBounds,
            ),
    {
        if x < self.width && y < self.height {
            Ok(self.alive_at(x, y))
        } else {
            Err(GridError::OutOfBounds)
        }
    }

    /// The number of live cells among the eight neighbours of `(x, y)` that lie on the grid.
    pub fn live_neighbor_count(&self, x: usize, y: usize) -> (r: usize)
        requires
            self.wf(),
            x < self@.width,
            y < self@.height,
        ensures
            r == self@.live_neighbors(x as int, y as int),
    {
        let w = self.width;
        let h = self.height;
        let mut c: usize = 0;
        if y > 0 {
            if x > 0 && self.alive_at(x - 1, y - 1) {
                c += 1;
            }
            if self.alive_at(x, y - 1) {
                c += 1;
            }
            if x + 1 < w && self.alive_at(x + 1, y - 1) {
                c += 1;
            }
        }
        if x > 0 && self.alive_at(x - 1, y) {
            c += 1;
        }
        if x + 1 < w && self.alive_at(x + 1, y) {
            c += 1;
        }
        if y + 1 < h {
            if x > 0 && self.alive_at(x - 1, y + 1) {
                c += 1;
            }
            if self.alive_at(x, y + 1) {
                c += 1;
            }
            if x + 1 < w && self.alive_at(x + 1, y + 1) {
                c += 1;
            }
        }
        c
    }

    /// Advances the grid by one generation. Every next state is computed from the current
    /// generation into the scratch buffer, and the two buffers then exchange roles.
    pub fn step(&mut self)
        requires
            old(self).wf(),
        ensures
            final(self).wf(),
            final(self)@ == old(self)@.next(),
            final(self)@.width == old(self)@.width,
            final(self)@.height == old(self)@.height,
    {
        let ghost b = self@;
        let n = self.cells.len();
        let w = self.width;
        let h = self.height;
        let mut i: usize = 0;
        let mut x: usize = 0;
        let mut y: usize = 0;
        while i < n
            invariant
                self.wf(),
                self@ == b,
                b.valid(),
                n == b.cells.len(),
                w == b.width,
                h == b.height,
                x < w,
                i == y * w + x,
                i <= n,
                i < n ==> y < h,
                forall|j: int| 0 <= j < i ==> self.scratch@[j] == b.next().cells[j],
            decreases n - i,
        {
            proof {
                lemma_index(w as nat, h as nat, x as int, y as int);
            }
            let c = self.live_neighbor_count(x, y);
            let alive = self.cells[i];
            let next = if alive {
                c == 2 || c == 3
            } else {
                c == 3
            };
            assert(next == rule(b.cells[i as int], b.live_neighbors(x as int, y as int)));
            self.scratch.set(i, next);
            i = i + 1;
            let ghost x_prev = x;
            if x + 1 < w {
                x = x + 1;
            } else {
                x = 0;
                y = y + 1;
                proof {
                    assert(i == y * w && (i < n ==> y < h)) by (nonlinear_arith)
                        requires
                            i == (y - 1) * w + x_prev + 1,
                            x_prev + 1 == w,
                            n == w * h,
                    ;
                }
            }
        }
        std::mem::swap(&mut self.cells, &mut self.scratch);
        proof {
            lemma_next_valid(b);
            assert(self.cells@ =~= b.next().cells);
        }
    }
}

} // verus!
