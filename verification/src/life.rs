//! A toroidal board of cells stepped by the classic life rule.

use vstd::prelude::*;

verus! {

/// One cell of the board.
#[derive(Debug, Clone, Copy, PartialEq, Eq, Structural)]
pub enum Cell {
    Dead,
    Alive,
}

/// Relies on ftkit::random_number: a value within the given half-open
/// range; the range must not be empty.
#[verifier::external_body]
fn random_in(min: i32, max: i32) -> (n: i32)
    requires
        min < max,
    ensures
        min <= n < max,
{
    ftkit::random_number(min..max)
}

impl Cell {
    /// A cell drawn at random, alive with roughly `percent_alive` chances
    /// out of one hundred.
    pub fn random_cell(percent_alive: u32) -> (r: Self)
        ensures
            percent_alive == 0 ==> r == Cell::Dead,
            percent_alive >= 100 ==> r == Cell::Alive,
    {
        let n = random_in(0, 100) as u32;
        if n < percent_alive {
            Self::Alive
        } else {
            Self::Dead
        }
    }

    /// Whether the cell is alive.
    pub fn is_alive(self) -> (r: bool)
        ensures
            r == (self == Cell::Alive),
    {
        matches!(self, Cell::Alive)
    }

    /// Whether the cell is dead.
    pub fn is_dead(self) -> (r: bool)
        ensures
            r == (self == Cell::Dead),
    {
        matches!(self, Cell::Dead)
    }
}

/// A board of cells that wraps around at its edges.
pub struct Board {
    width: usize,
    height: usize,
    cells: Vec<Cell>,
}

impl Board {
    /// A board is laid out row by row, one cell per position.
    pub closed spec fn wf(self) -> bool {
        &&& 1 <= self.width
        &&& 1 <= self.height
        &&& self.width * self.height <= isize::MAX
        &&& self.cells@.len() == self.width * self.height
    }

    /// The number of columns.
    pub closed spec fn spec_width(self) -> int {
        self.width as int
    }

    /// The number of rows.
    pub closed spec fn spec_height(self) -> int {
        self.height as int
    }

    /// The cell at column `x` and row `y`, both taken modulo the board's
    /// size so that the board wraps around.
    pub closed spec fn spec_get(self, x: int, y: int) -> Cell {
        self.cells@[(x % (self.width as int)) + (y % (self.height as int)) * (self.width as int)]
    }

    /// How many of the eight neighbours of `(x, y)` are alive.
    pub open spec fn spec_neighbors(self, x: int, y: int) -> int {
        count_alive(self.spec_get(x - 1, y)) + count_alive(self.spec_get(x + 1, y)) + count_alive(
            self.spec_get(x, y - 1),
        ) + count_alive(self.spec_get(x, y + 1)) + count_alive(self.spec_get(x + 1, y + 1))
            + count_alive(self.spec_get(x + 1, y - 1)) + count_alive(self.spec_get(x - 1, y + 1))
            + count_alive(self.spec_get(x - 1, y - 1))
    }

    /// The next state of the cell at `(x, y)`: a live cell survives with
    /// two or three live neighbours, a dead cell comes alive with exactly
    /// three, and every other cell is dead.
    pub open spec fn spec_next_cell(self, x: int, y: int) -> Cell {
        let n = self.spec_neighbors(x, y);
        if self.spec_get(x, y) == Cell::Alive && (n == 2 || n == 3) {
            Cell::Alive
        } else if self.spec_get(x, y) == Cell::Dead && n == 3 {
            Cell::Alive
        } else {
            Cell::Dead
        }
    }

    /// A `width` by `height` board whose cells are drawn at random, each
    /// alive with roughly `percentage` chances out of one hundred.
    pub fn new(width: usize, height: usize, percentage: u32) -> (r: Self)
        requires
            1 <= width,
            1 <= height,
            width * height <= isize::MAX,
        ensures
            r.wf(),
            r.spec_width() == width,
            r.spec_height() == height,
    {
        proof {
            assert(width <= width * height) by (nonlinear_arith)
                requires
                    1 <= height && 1 <= width,
            {}
        }
        let total = width * height;
        let mut cells = Vec::new();
        let mut i: usize = 0;
        while i < total
            invariant
                i <= total,
                cells@.len() == i,
            decreases total - i,
        {
            cells.push(Cell::random_cell(percentage));
            i += 1;
        }
        Self { width, height, cells }
    }

    /// A board laid out from the given cells, row by row; nothing when
    /// the dimensions are empty, too large, or do not match the cells.
    pub fn from_cells(width: usize, height: usize, cells: Vec<Cell>) -> (r: Option<Self>)
        ensures
            r.is_some() <==> (1 <= width && 1 <= height && width * height <= isize::MAX
                && cells@.len() == width * height),
            r.is_some() ==> r.unwrap().wf() && r.unwrap().spec_width() == width
                && r.unwrap().spec_height() == height && forall|x: int, y: int|
                0 <= x < width && 0 <= y < height ==> #[trigger] r.unwrap().spec_get(x, y)
                    == cells@[x + y * width],
    {
        if width < 1 || height < 1 {
            proof {
                assert(width * height >= 0) by (nonlinear_arith) {}
            }
            return None;
        }
        match width.checked_mul(height) {
            Some(total) => {
                if total > isize::MAX as usize || cells.len() != total {
                    return None;
                }
                let board = Self { width, height, cells };
                proof {
                    assert forall|x: int, y: int|
                        0 <= x < width && 0 <= y < height implies #[trigger] board.spec_get(x, y)
                        == board.cells@[x + y * width] by {
                        vstd::arithmetic::div_mod::lemma_small_mod(x as nat, width as nat);
                        vstd::arithmetic::div_mod::lemma_small_mod(y as nat, height as nat);
                    }
                }
                Some(board)
            },
            None => {
                proof {
                    assert(width * height > usize::MAX ==> width * height > isize::MAX) by (nonlinear_arith)
                    {}
                }
                None
            },
        }
    }

    /// The width of the board.
    pub fn width(&self) -> (r: usize)
        ensures
            r == self.spec_width(),
    {
        self.width
    }

    /// The height of the board.
    pub fn height(&self) -> (r: usize)
        ensures
            r == self.spec_height(),
    {
        self.height
    }

    /// The cell at column `x` and row `y`, wrapping around the edges.
    pub fn get(&self, x: isize, y: isize) -> (r: Cell)
        requires
            self.wf(),
        ensures
            r == self.spec_get(x as int, y as int),
    {
        proof {
            broadcast use vstd::arithmetic::div_mod::lemma_mod_pos_bound;

            assert(self.width <= self.width * self.height) by (nonlinear_arith)
                requires
                    1 <= self.height && 1 <= self.width,
            {}
            assert(self.height <= self.width * self.height) by (nonlinear_arith)
                requires
                    1 <= self.height && 1 <= self.width,
            {}
        }
        let w = self.width as isize;
        let h = self.height as isize;
        let ghost x0 = x as int;
        let ghost y0 = y as int;
        let mut x = x;
        let mut y = y;
        while x < 0
            invariant
                w == self.width as int,
                1 <= w,
                x as int % (w as int) == x0 % (w as int),
            decreases (if x < 0 { 0 - x as int } else { 0 }),
        {
            proof {
                vstd::arithmetic::div_mod::lemma_mod_add_multiples_vanish(x as int, w as int);
            }
            x += w;
        }
        while y < 0
            invariant
                h == self.height as int,
                1 <= h,
                y as int % (h as int) == y0 % (h as int),
            decreases (if y < 0 { 0 - y as int } else { 0 }),
        {
            proof {
                vstd::arithmetic::div_mod::lemma_mod_add_multiples_vanish(y as int, h as int);
            }
            y += h;
        }
        let xi = (x as usize) % self.width;
        let yi = (y as usize) % self.height;
        proof {
            broadcast use vstd::arithmetic::div_mod::lemma_mod_pos_bound;

            assert(xi < self.width && yi < self.height);
            assert(xi + yi * self.width < self.width * self.height) by (nonlinear_arith)
                requires
                    xi < self.width && yi < self.height && 1 <= self.width && 1 <= self.height,
            {}
            assert(yi * self.width >= 0) by (nonlinear_arith)
                requires
                    yi >= 0 && self.width >= 1,
            {}
        }
        self.cells[xi + yi * self.width]
    }

    /// Advances the whole board one generation: every cell moves to its
    /// next state simultaneously.
    pub fn step(&mut self)
        requires
            old(self).wf(),
        ensures
            final(self).wf(),
            final(self).spec_width() == old(self).spec_width(),
            final(self).spec_height() == old(self).spec_height(),
            forall|x: int, y: int|
                0 <= x < old(self).spec_width() && 0 <= y < old(self).spec_height()
                    ==> final(self).spec_get(x, y) == old(self).spec_next_cell(x, y),
    {
        let ghost orig = *self;
        let w = self.width;
        let h = self.height;
        let mut next: Vec<Cell> = Vec::new();
        let mut y: usize = 0;
        while y < h
            invariant
                *self == orig,
                orig.wf(),
                y <= h,
                w == orig.width,
                h == orig.height,
                next@.len() == y * w,
                forall|x2: int, y2: int|
                    0 <= x2 < w && 0 <= y2 < y ==> next@[x2 + y2 * w] == orig.spec_next_cell(
                        x2,
                        y2,
                    ),
            decreases h - y,
        {
            proof {
                assert(y * w + w <= w * h && (y + 1) * w == y * w + w) by (nonlinear_arith)
                    requires
                        0 <= y < h && 1 <= w,
                {}
            }
            let mut x: usize = 0;
            while x < w
                invariant
                    *self == orig,
                    orig.wf(),
                    y < h,
                    x <= w,
                    w == orig.width,
                    h == orig.height,
                    next@.len() == y * w + x,
                    y * w + w <= w * h,
                    forall|x2: int, y2: int|
                        0 <= x2 < w && 0 <= y2 < y ==> next@[x2 + y2 * w] == orig.spec_next_cell(
                            x2,
                            y2,
                        ),
                    forall|x2: int|
                        0 <= x2 < x ==> next@[x2 + y * w] == orig.spec_next_cell(x2, y as int),
                decreases w - x,
            {
                proof {
                    assert(w <= w * h && h <= w * h) by (nonlinear_arith)
                        requires
                            1 <= w && 1 <= h,
                    {}
                }
                let xi = x as isize;
                let yi = y as isize;
                let here = self.get(xi, yi);
                let neighbors = alive_count(self.get(xi - 1, yi)) + alive_count(
                    self.get(xi + 1, yi),
                ) + alive_count(self.get(xi, yi - 1)) + alive_count(self.get(xi, yi + 1))
                    + alive_count(self.get(xi + 1, yi + 1)) + alive_count(self.get(xi + 1, yi - 1))
                    + alive_count(self.get(xi - 1, yi + 1)) + alive_count(
                    self.get(xi - 1, yi - 1),
                );
                let new_cell = if here.is_alive() && (neighbors == 2 || neighbors == 3) {
                    Cell::Alive
                } else if here.is_dead() && neighbors == 3 {
                    Cell::Alive
                } else {
                    Cell::Dead
                };
                proof {
                    assert(neighbors == orig.spec_neighbors(x as int, y as int));
                    assert(new_cell == orig.spec_next_cell(x as int, y as int));
                }
                let ghost before = next@;
                next.push(new_cell);
                proof {
                    assert forall|x2: int, y2: int|
                        0 <= x2 < w && 0 <= y2 < y implies next@[x2 + y2 * w]
                        == orig.spec_next_cell(x2, y2) by {
                        assert(0 <= x2 + y2 * w && x2 + y2 * w < y * w) by (nonlinear_arith)
                            requires
                                0 <= x2 < w && 0 <= y2 < y && 1 <= w,
                        {}
                        assert(next@[x2 + y2 * w] == before[x2 + y2 * w]);
                    }
                    assert forall|x2: int|
                        0 <= x2 < x + 1 implies next@[x2 + y * w] == orig.spec_next_cell(
                        x2,
                        y as int,
                    ) by {
                        assert(y * w >= 0) by (nonlinear_arith)
                            requires
                                0 <= y && 1 <= w,
                        {}
                        if x2 < x {
                            assert(next@[x2 + y * w] == before[x2 + y * w]);
                        }
                    }
                }
                x += 1;
            }
            y += 1;
        }
        proof {
            assert(h * w == w * h) by (nonlinear_arith) {}
        }
        self.cells = next;
        proof {
            assert forall|x: int, y: int|
                0 <= x < w && 0 <= y < h implies self.spec_get(x, y) == orig.spec_next_cell(
                x,
                y,
            ) by {
                vstd::arithmetic::div_mod::lemma_small_mod(x as nat, w as nat);
                vstd::arithmetic::div_mod::lemma_small_mod(y as nat, h as nat);
            }
        }
    }
}

/// One when the cell is alive, zero when it is dead.
pub open spec fn count_alive(c: Cell) -> int {
    if c == Cell::Alive {
        1
    } else {
        0
    }
}

/// The number of live cells among one: one or zero.
fn alive_count(c: Cell) -> (r: u32)
    ensures
        r == count_alive(c),
{
    if c.is_alive() {
        1
    } else {
        0
    }
}

} // verus!
