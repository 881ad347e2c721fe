//! The parameters of one simulation run.

use vstd::prelude::*;

verus! {

/// Worker count used when a grid is made without one.
pub const N_THREADS: usize = 4;

/// The height a grid really gets: the largest multiple of `2 * workers`
/// that is not above `height`.
pub open spec fn usable_height(height: int, workers: int) -> int {
    height - height % (2 * workers)
}

/// Width, height and worker count of a grid, with the sizes derived from
/// them. A value is made once and never changed.
pub struct Config {
    width: usize,
    height: usize,
    size: usize,
    ribbon_len: usize,
    n_threads: usize,
}

impl Config {
    /// Number of columns.
    pub closed spec fn cols(&self) -> int {
        self.width as int
    }

    /// Number of rows.
    pub closed spec fn rows(&self) -> int {
        self.height as int
    }

    /// Number of cells, `cols * rows`.
    pub closed spec fn cells(&self) -> int {
        self.size as int
    }

    /// Number of cells in the ribbon of one worker.
    pub closed spec fn ribbon(&self) -> int {
        self.ribbon_len as int
    }

    /// Number of workers.
    pub closed spec fn workers(&self) -> int {
        self.n_threads as int
    }

    /// Half a ribbon: the cells whose particles one worker moves in one phase.
    pub open spec fn half(&self) -> int {
        self.ribbon() / 2
    }

    /// What every `Config` made by [`Config::new`] satisfies.
    pub open spec fn wf(&self) -> bool {
        &&& self.workers() > 0
        &&& 0 <= self.cols()
        &&& 0 <= self.rows()
        &&& self.rows() % (2 * self.workers()) == 0
        &&& self.cells() == self.cols() * self.rows()
        &&& self.ribbon() * self.workers() == self.cells()
        &&& self.cells() <= isize::MAX
    }

    /// Makes the parameters of a `width` by `height` grid for `n_threads`
    /// workers (for `N_THREADS` of them where none is given). A height that
    /// is no multiple of twice the worker count is cut down to the nearest
    /// one below it.
    pub fn new(width: usize, height: usize, n_threads: Option<usize>) -> (cfg: Config)
        requires
            n_threads != Some(0usize),
            2 * n_threads.unwrap_or(N_THREADS) <= usize::MAX,
            width * usable_height(height as int, n_threads.unwrap_or(N_THREADS) as int)
                <= isize::MAX,
        ensures
            cfg.wf(),
            cfg.cols() == width,
            cfg.rows() == usable_height(height as int, n_threads.unwrap_or(N_THREADS) as int),
            cfg.workers() == n_threads.unwrap_or(N_THREADS),
    {
        let n_threads: usize = match n_threads {
            Some(n) => n,
            None => N_THREADS,
        };
        let rem: usize = height % (n_threads * 2);
        proof {
            lemma_remainder_removed(height as int, 2 * n_threads as int);
        }
        let height: usize = height - rem;
        let size: usize = width * height;
        let ribbon_len: usize = size / n_threads;
        assert(ribbon_len * n_threads == size) by {
            lemma_divides_product(width as int, height as int, n_threads as int);
        }
        Config { width, height, size, ribbon_len, n_threads }
    }

    pub fn width(&self) -> (r: usize)
        ensures
            r == self.cols(),
    {
        self.width
    }

    pub fn height(&self) -> (r: usize)
        ensures
            r == self.rows(),
    {
        self.height
    }

    /// Number of cells, `width * height`.
    pub fn size(&self) -> (r: usize)
        ensures
            r == self.cells(),
    {
        self.size
    }

    /// Number of cells in the ribbon of one worker.
    pub fn ribbon_len(&self) -> (r: usize)
        ensures
            r == self.ribbon(),
    {
        self.ribbon_len
    }

    pub fn n_threads(&self) -> (r: usize)
        ensures
            r == self.workers(),
    {
        self.n_threads
    }

    pub fn get_dims(&self) -> (dims: (usize, usize))
        ensures
            dims.0 == self.cols(),
            dims.1 == self.rows(),
    {
        (self.width, self.height)
    }

    /// The row of the cell with flat index `i`.
    pub fn index_to_y(&self, i: usize) -> (y: usize)
        requires
            self.cols() > 0,
        ensures
            y == i as int / self.cols(),
    {
        i / self.width
    }

    /// Column and row of the cell with flat index `i`.
    pub fn index_to_coords(&self, i: usize) -> (xy: (usize, usize))
        requires
            self.cols() > 0,
        ensures
            xy.0 == i as int % self.cols(),
            xy.1 == i as int / self.cols(),
    {
        (i % self.width, i / self.width)
    }
}

/// A grid that has a cell has a column.
pub proof fn lemma_cells_need_columns(cfg: &Config)
    requires
        cfg.wf(),
        cfg.cells() > 0,
    ensures
        cfg.cols() > 0,
        cfg.rows() > 0,
        cfg.cols() <= cfg.cells(),
{
    assert(cfg.cols() > 0 && cfg.rows() > 0 && cfg.cols() <= cfg.cols() * cfg.rows())
        by (nonlinear_arith)
        requires
            cfg.cols() * cfg.rows() > 0,
            cfg.cols() >= 0,
            cfg.rows() >= 0,
    ;
}

/// Taking the remainder off a number leaves a multiple of the divisor.
pub proof fn lemma_remainder_removed(a: int, d: int)
    requires
        0 <= a,
        0 < d,
    ensures
        0 <= a % d <= a,
        (a - a % d) % d == 0,
{
    vstd::arithmetic::div_mod::lemma_mod_decreases(a as nat, d as nat);
    vstd::arithmetic::div_mod::lemma_fundamental_div_mod(a, d);
    vstd::arithmetic::div_mod::lemma_mod_multiples_basic(a / d, d);
    assert(a - a % d == (a / d) * d) by (nonlinear_arith)
        requires
            a == d * (a / d) + a % d,
    ;
}

/// Where `h` is a multiple of `2 * n`, the product `w * h` is a multiple of `n`.
pub proof fn lemma_divides_product(w: int, h: int, n: int)
    requires
        0 <= w,
        0 <= h,
        0 < n,
        h % (2 * n) == 0,
    ensures
        ((w * h) / n) * n == w * h,
{
    let q = h / (2 * n);
    vstd::arithmetic::div_mod::lemma_fundamental_div_mod(h, 2 * n);
    assert(w * h == (w * (2 * q)) * n) by (nonlinear_arith)
        requires
            h == (2 * n) * q,
    ;
    vstd::arithmetic::div_mod::lemma_fundamental_div_mod_converse(w * h, n, w * (2 * q), 0);
}

} // verus!
