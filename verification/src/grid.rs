//! The grid: its parameters, its two buffers, and the step from one
//! generation to the next.

use vstd::prelude::*;
use vstd::arithmetic::div_mod::lemma_fundamental_div_mod;
use crate::buffer::DoubleBuffer;
use crate::colour::ColourMap;
use crate::config::{lemma_cells_need_columns, usable_height, Config, N_THREADS};
use crate::phase::{empty_cells, lemma_ribbons_fit, lemma_two_phases, phase};
use crate::ribbon::{generate_target_ribbons, ribbon_fits, run_workers, worked};
use crate::rule::next_generation;
use crate::spawner::{pos_after, spawn_colour, spawn_draws, spawn_step, spawned, Spawner};

verus! {

/// A grid of falling particles.
pub struct Grid {
    cfg: Config,
    buf: DoubleBuffer,
    rng: Spawner,
    convert_colour: ColourMap,
}

impl Grid {
    /// The parameters of the grid.
    pub closed spec fn config(&self) -> Config {
        self.cfg
    }

    /// The cells of the current generation, row by row.
    pub closed spec fn front(&self) -> Seq<u8> {
        self.buf.front()
    }

    /// The cells of the buffer that the next generation is written to.
    pub closed spec fn back(&self) -> Seq<u8> {
        self.buf.back()
    }

    /// The seed of the stream that places new particles.
    pub closed spec fn seed(&self) -> u64 {
        self.rng.seed()
    }

    /// The position in that stream of the next word.
    pub closed spec fn stream_pos(&self) -> u128 {
        self.rng.pos()
    }

    /// The colour map that the grid was made with.
    pub closed spec fn colours(&self) -> ColourMap {
        self.convert_colour
    }

    /// The parameters are well formed and both buffers hold one cell for
    /// each cell of the grid.
    pub open spec fn wf(&self) -> bool {
        &&& self.config().wf()
        &&& self.front().len() == self.config().cells()
        &&& self.back().len() == self.config().cells()
    }

    /// An empty grid of `width` columns and of `height` rows, less what is
    /// cut off to make the rows a multiple of twice the worker count, with
    /// the stream of `seed` at its start.
    pub fn new(
        width: usize,
        height: usize,
        n_threads: Option<usize>,
        seed: u64,
        convert_colour: ColourMap,
    ) -> (grid: Grid)
        requires
            n_threads != Some(0usize),
            2 * n_threads.unwrap_or(N_THREADS) <= usize::MAX,
            width * usable_height(height as int, n_threads.unwrap_or(N_THREADS) as int)
                <= isize::MAX,
        ensures
            grid.wf(),
            grid.config().cols() == width,
            grid.config().rows() == usable_height(
                height as int,
                n_threads.unwrap_or(N_THREADS) as int,
            ),
            grid.config().workers() == n_threads.unwrap_or(N_THREADS),
            grid.front() == empty_cells(grid.config().cells()),
            grid.back() == empty_cells(grid.config().cells()),
            grid.seed() == seed,
            grid.stream_pos() == 0,
            grid.colours() == convert_colour,
    {
        let cfg = Config::new(width, height, n_threads);
        let buf = DoubleBuffer::new(&cfg);
        let rng = Spawner::new(seed);
        Grid { cfg, buf, rng, convert_colour }
    }

    /// The colour map that the grid was made with.
    pub fn colour_map(&self) -> (map: ColourMap)
        ensures
            map == self.colours(),
    {
        self.convert_colour
    }

    /// The cells of the current generation, row by row.
    pub fn get_front(&self) -> (front: &Vec<u8>)
        ensures
            front@ == self.front(),
    {
        self.buf.get_front()
    }

    /// Width and height of the grid.
    pub fn get_dims(&self) -> (dims: (usize, usize))
        ensures
            dims.0 == self.config().cols(),
            dims.1 == self.config().rows(),
    {
        self.cfg.get_dims()
    }

    /// Uses one word of the stream: the cell of the top row in column
    /// `word % width` gets `colour` if it is empty. Nothing else changes.
    pub fn spawn_at(&mut self, word: u32, colour: u8)
        requires
            old(self).wf(),
            old(self).config().cells() > 0,
        ensures
            final(self).wf(),
            final(self).config() == old(self).config(),
            final(self).colours() == old(self).colours(),
            final(self).seed() == old(self).seed(),
            final(self).stream_pos() == old(self).stream_pos(),
            final(self).back() == old(self).back(),
            final(self).front() == spawn_step(
                old(self).front(),
                old(self).config().cols(),
                word,
                colour,
            ),
    {
        let width = self.cfg.width();
        proof {
            lemma_cells_need_columns(&self.cfg);
        }
        let i = word as usize % width;
        let source = self.buf.get_front_mut();
        if source[i] == 0 {
            source[i] = colour;
        }
    }

    /// Puts new particles of frame `frame` in the top row. Each of
    /// `spawn_draws(width)` words of the stream picks a column; a cell that
    /// is empty when it is picked gets the colour of the frame.
    pub fn spawn(&mut self, frame: u32)
        requires
            old(self).wf(),
            old(self).config().cells() > 0,
        ensures
            final(self).wf(),
            final(self).config() == old(self).config(),
            final(self).colours() == old(self).colours(),
            final(self).seed() == old(self).seed(),
            final(self).back() == old(self).back(),
            final(self).stream_pos() == pos_after(
                old(self).stream_pos(),
                spawn_draws(old(self).config().cols()),
            ),
            final(self).front() == spawned(
                old(self).front(),
                old(self).config().cols(),
                spawn_colour(frame),
                old(self).seed(),
                old(self).stream_pos(),
                spawn_draws(old(self).config().cols()),
            ),
    {
        let width = self.cfg.width();
        proof {
            lemma_cells_need_columns(&self.cfg);
        }
        let draws: usize = if width % 20 == 0 {
            width / 20
        } else {
            width / 20 + 1
        };
        let colour: u8 = ((frame / 5) % 254 + 1) as u8;
        let ghost s = self.buf.front();
        let ghost seed = self.rng.seed();
        let ghost pos = self.rng.pos();
        let mut k: usize = 0;
        while k < draws
            invariant
                k <= draws,
                draws == spawn_draws(width as int),
                width == self.cfg.cols(),
                colour == spawn_colour(frame),
                self.wf(),
                self.cfg.cells() > 0,
                self.cfg == old(self).cfg,
                self.convert_colour == old(self).convert_colour,
                self.buf.back() == old(self).buf.back(),
                self.rng.seed() == seed,
                self.rng.pos() == pos_after(pos, k as nat),
                self.buf.front() == spawned(s, width as int, colour, seed, pos, k as nat),
            decreases draws - k,
        {
            let word = self.rng.next_u32();
            self.spawn_at(word, colour);
            k += 1;
        }
    }

    /// One phase of a generation: cuts the back buffer from cell `offset` on
    /// into ribbons and lets one worker write each of them.
    pub fn propagate_half(&mut self, offset: usize)
        requires
            old(self).wf(),
            old(self).config().cols() > 0,
            old(self).config().cells() > 0,
            offset == 0 || offset == old(self).config().half(),
        ensures
            final(self).config() == old(self).config(),
            final(self).colours() == old(self).colours(),
            final(self).seed() == old(self).seed(),
            final(self).stream_pos() == old(self).stream_pos(),
            final(self).front() == old(self).front(),
            final(self).back() == phase(
                &old(self).config(),
                old(self).front(),
                old(self).back(),
                offset as int,
            ),
    {
        let ribbon_len = self.cfg.ribbon_len();
        let ghost cfg = self.cfg;
        let ghost s = self.buf.front();
        let ghost t = self.buf.back();
        let ghost r = cfg.ribbon();
        proof {
            crate::phase::lemma_config_shape(&cfg);
        }
        let (source, target) = self.buf.get_pair();
        let ribbons = generate_target_ribbons(target.as_mut_slice(), offset, ribbon_len);
        let ghost rs = ribbons@;
        proof {
            assert forall|i: int| 0 <= i < rs.len() implies ribbon_fits(
                &cfg,
                rs[i]@.len() as int,
                i * r + offset,
            ) by {
                assert(i * r <= (rs.len() - 1) * r) by (nonlinear_arith)
                    requires
                        i <= rs.len() - 1,
                        0 <= r,
                ;
                lemma_ribbons_fit(&cfg, offset as int, i);
            }
        }
        run_workers(&self.cfg, source.as_slice(), ribbons, offset);
        proof {
            assert forall|i: int| 0 <= i < rs.len() implies final(rs[i])@.len() == rs[i]@.len() by {
                assert(final(rs[i])@ == worked(
                    cfg.cols(),
                    s,
                    rs[i]@,
                    i * r + offset,
                    i * r + offset,
                    i * r + offset + cfg.half(),
                ));
            }
            let p = phase(&cfg, s, t, offset as int);
            assert(target@.len() == t.len());
            assert forall|c: int| 0 <= c < t.len() implies target@[c] == p[c] by {
                if c >= offset {
                    let i = (c - offset) / r;
                    let k = (c - offset) % r;
                    lemma_fundamental_div_mod(c - offset, r);
                    assert(0 <= i) by (nonlinear_arith)
                        requires
                            c - offset == r * i + k,
                            0 <= k < r,
                            0 <= c - offset,
                    ;
                    assert(i < rs.len()) by (nonlinear_arith)
                        requires
                            c - offset == r * i + k,
                            0 <= k,
                            c - offset < t.len() - offset,
                            t.len() - offset <= rs.len() * r,
                            0 < r,
                    ;
                    assert(r * i == i * r) by (nonlinear_arith);
                    assert((i + 1) * r == i * r + r) by (nonlinear_arith);
                    assert(target@[c] == final(rs[i])@[k]);
                    assert(rs[i]@[k] == t[c]);
                }
            }
            assert(target@ =~= p);
        }
    }

    /// Writes the next generation to the back buffer.
    pub fn propagate(&mut self)
        requires
            old(self).wf(),
            old(self).config().cells() > 0,
        ensures
            final(self).wf(),
            final(self).config() == old(self).config(),
            final(self).colours() == old(self).colours(),
            final(self).seed() == old(self).seed(),
            final(self).stream_pos() == old(self).stream_pos(),
            final(self).front() == old(self).front(),
            final(self).back() == next_generation(old(self).config().cols(), old(self).front()),
    {
        proof {
            lemma_cells_need_columns(&self.cfg);
            lemma_two_phases(&self.cfg, self.buf.front());
        }
        self.buf.empty_back();
        assert(self.buf.back() =~= empty_cells(self.cfg.cells()));
        self.propagate_half(self.cfg.ribbon_len() / 2);
        self.propagate_half(0);
    }

    /// Steps to the next generation: every particle falls by the rule of
    /// [`crate::rule::destination`], and the buffers trade places.
    pub fn next(&mut self)
        requires
            old(self).wf(),
            old(self).config().cells() > 0,
        ensures
            final(self).wf(),
            final(self).config() == old(self).config(),
            final(self).colours() == old(self).colours(),
            final(self).seed() == old(self).seed(),
            final(self).stream_pos() == old(self).stream_pos(),
            final(self).front() == next_generation(old(self).config().cols(), old(self).front()),
            final(self).back() == old(self).front(),
    {
        self.propagate();
        self.buf.switch_buffers();
    }

    /// Whether `after` is what the frame `frame` makes of this grid: the
    /// same parameters, seed and colour map, the stream moved on by the words
    /// of one spawn, and the generation that follows the spawn in front.
    pub open spec fn advances_to(&self, frame: u32, after: &Grid) -> bool {
        &&& after.config() == self.config()
        &&& after.colours() == self.colours()
        &&& after.seed() == self.seed()
        &&& after.stream_pos() == pos_after(self.stream_pos(), spawn_draws(self.config().cols()))
        &&& after.front() == next_generation(
            self.config().cols(),
            spawned(
                self.front(),
                self.config().cols(),
                spawn_colour(frame),
                self.seed(),
                self.stream_pos(),
                spawn_draws(self.config().cols()),
            ),
        )
    }

    /// One frame: spawns the particles of frame `frame`, then steps to the
    /// next generation.
    pub fn advance(&mut self, frame: u32)
        requires
            old(self).wf(),
            old(self).config().cells() > 0,
        ensures
            final(self).wf(),
            old(self).advances_to(frame, final(self)),
            final(self).back() == spawned(
                old(self).front(),
                old(self).config().cols(),
                spawn_colour(frame),
                old(self).seed(),
                old(self).stream_pos(),
                spawn_draws(old(self).config().cols()),
            ),
    {
        self.spawn(frame);
        self.next();
    }

    /// Whether `after` is what the frames `0`, `1`, and so on up to
    /// `frames - 1` make of this grid, one after the other.
    pub open spec fn runs_to(&self, frames: nat, after: &Grid) -> bool
        decreases frames,
    {
        if frames == 0 {
            &&& after.config() == self.config()
            &&& after.colours() == self.colours()
            &&& after.seed() == self.seed()
            &&& after.stream_pos() == self.stream_pos()
            &&& after.front() == self.front()
        } else {
            exists|mid: Grid|
                self.runs_to((frames - 1) as nat, &mid) && #[trigger] mid.advances_to(
                    frame_number((frames - 1) as nat),
                    after,
                )
        }
    }

    /// Advances the grid through `n_iterations` frames, numbered from `0`.
    pub fn run(&mut self, n_iterations: usize)
        requires
            old(self).wf(),
            old(self).config().cells() > 0,
        ensures
            final(self).wf(),
            old(self).runs_to(n_iterations as nat, final(self)),
    {
        let mut i: usize = 0;
        while i < n_iterations
            invariant
                i <= n_iterations,
                self.wf(),
                self.config().cells() > 0,
                old(self).runs_to(i as nat, self),
            decreases n_iterations - i,
        {
            let ghost mid = *self;
            self.advance((i as u64 % 0x1_0000_0000u64) as u32);
            proof {
                lemma_run_goes_on(old(self), &mid, self, i as nat);
            }
            i += 1;
        }
    }

    /// Sets the cell in column `x` of row `y` to `v`.
    pub fn set_px(&mut self, x: usize, y: usize, v: u8)
        requires
            old(self).wf(),
            y * old(self).config().cols() + x < old(self).config().cells(),
        ensures
            final(self).wf(),
            final(self).config() == old(self).config(),
            final(self).colours() == old(self).colours(),
            final(self).seed() == old(self).seed(),
            final(self).stream_pos() == old(self).stream_pos(),
            final(self).back() == old(self).back(),
            final(self).front() == old(self).front().update(
                y * old(self).config().cols() + x,
                v,
            ),
    {
        let (w, _) = self.get_dims();
        assert(0 <= y * w) by (nonlinear_arith)
            requires
                0 <= y,
                0 <= w,
        ;
        let buf = self.buf.get_front_mut();
        buf[y * w + x] = v
    }
}

/// The number that frame `i` of a run is spawned with: `i`, which starts
/// again at `0` after the last number of 32 bits.
pub open spec fn frame_number(i: nat) -> u32 {
    (i % 0x1_0000_0000) as u32
}

/// A run of `n` frames and frame `n` after it are a run of `n + 1` frames.
pub proof fn lemma_run_goes_on(start: &Grid, mid: &Grid, after: &Grid, n: nat)
    requires
        start.runs_to(n, mid),
        mid.advances_to(frame_number(n), after),
    ensures
        start.runs_to(n + 1, after),
{
    assert(start.runs_to(((n + 1) - 1) as nat, mid));
}

} // verus!
