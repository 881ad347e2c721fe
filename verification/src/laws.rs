//! What holds of every grid and every step.

use vstd::prelude::*;
use vstd::arithmetic::div_mod::{
    lemma_fundamental_div_mod,
    lemma_fundamental_div_mod_converse,
};
use crate::config::Config;
use crate::grid::Grid;
use crate::phase::{
    lemma_aligned_gap,
    lemma_config_shape,
    lemma_mover_row,
    lemma_row_start,
    row_start,
};
use crate::ribbon::worked_cell;
use crate::rule::{
    after_pixel,
    arrival,
    destination,
    moves_to,
    next_cell,
    next_generation,
};
use crate::spawner::{spawn_colour, spawn_column, spawn_draws, spawn_successes, spawned};
use vstd::relations::injective_on;
use vstd::set_lib::{lemma_int_range, lemma_len_subset, lemma_map_size, lemma_map_size_bound};

verus! {

/// Whether worker `i` of the phase whose ribbons start at cell `offset`
/// writes cell `c`: the cell holds a particle of its half ribbon, or a
/// particle of its half ribbon moves there.
pub open spec fn worker_writes(cfg: &Config, s: Seq<u8>, offset: int, i: int, c: int) -> bool {
    let lo = i * cfg.ribbon() + offset;
    let hi = lo + cfg.half();
    if s[c] != 0 {
        lo <= c < hi
    } else {
        arrival(cfg.cols(), s, c, lo, hi) is Some
    }
}

/// A worker leaves a cell that it does not write as it was.
pub proof fn law_unwritten_cell_is_kept(
    cfg: &Config,
    s: Seq<u8>,
    offset: int,
    i: int,
    c: int,
    before: u8,
)
    requires
        !worker_writes(cfg, s, offset, i, c),
    ensures
        worked_cell(
            cfg.cols(),
            s,
            before,
            c,
            i * cfg.ribbon() + offset,
            i * cfg.ribbon() + offset + cfg.half(),
        ) == before,
{
}

/// The start of the half ribbon of worker `i` in the phase at `offset` is a
/// number of whole half ribbons: twice `i` of them, and one more in the
/// shifted phase.
proof fn lemma_half_band(cfg: &Config, offset: int, i: int) -> (m: int)
    requires
        cfg.wf(),
        cfg.cols() > 0,
        offset == 0 || offset == cfg.half(),
        0 <= i,
    ensures
        i * cfg.ribbon() + offset == m * cfg.half(),
        m == 2 * i + if offset == 0 {
            0int
        } else {
            1int
        },
        (m * cfg.half()) % cfg.cols() == 0,
        ((m + 1) * cfg.half()) % cfg.cols() == 0,
        (m + 1) * cfg.half() == m * cfg.half() + cfg.half(),
{
    lemma_config_shape(cfg);
    let hf = cfg.half();
    let w = cfg.cols();
    let m = 2 * i + if offset == 0 {
        0int
    } else {
        1int
    };
    assert(i * cfg.ribbon() + offset == m * hf) by (nonlinear_arith)
        requires
            cfg.ribbon() == 2 * hf,
            offset == 0 || offset == hf,
            m == 2 * i + if offset == 0 {
                0int
            } else {
                1int
            },
    ;
    lemma_fundamental_div_mod(hf, w);
    assert(m * hf == (m * (hf / w)) * w) by (nonlinear_arith)
        requires
            hf == w * (hf / w),
    ;
    lemma_fundamental_div_mod_converse(m * hf, w, m * (hf / w), 0);
    assert((m + 1) * hf == ((m + 1) * (hf / w)) * w) by (nonlinear_arith)
        requires
            hf == w * (hf / w),
    ;
    lemma_fundamental_div_mod_converse((m + 1) * hf, w, (m + 1) * (hf / w), 0);
    assert((m + 1) * hf == m * hf + hf) by (nonlinear_arith);
    m
}

/// Two half ribbons that are not the same have no cell in common.
proof fn lemma_half_bands_apart(hf: int, m1: int, m2: int)
    requires
        0 <= hf,
        m1 < m2,
    ensures
        (m1 + 1) * hf <= m2 * hf,
{
    assert((m1 + 1) * hf <= m2 * hf) by (nonlinear_arith)
        requires
            m1 + 1 <= m2,
            0 <= hf,
    ;
}

/// Write-uniqueness: in one generation no cell is written by two workers,
/// whether of one phase or of both. A worker also writes inside its own
/// ribbon only.
pub proof fn law_write_uniqueness(
    cfg: &Config,
    s: Seq<u8>,
    c: int,
    offset1: int,
    i1: int,
    offset2: int,
    i2: int,
)
    requires
        cfg.wf(),
        s.len() == cfg.cells(),
        0 <= c < cfg.cells(),
        offset1 == 0 || offset1 == cfg.half(),
        offset2 == 0 || offset2 == cfg.half(),
        0 <= i1 < cfg.workers(),
        0 <= i2 < cfg.workers(),
        worker_writes(cfg, s, offset1, i1, c),
        worker_writes(cfg, s, offset2, i2, c),
    ensures
        offset1 == offset2,
        i1 == i2,
        i1 * cfg.ribbon() + offset1 <= c < i1 * cfg.ribbon() + offset1 + cfg.ribbon(),
{
    crate::config::lemma_cells_need_columns(cfg);
    lemma_config_shape(cfg);
    let w = cfg.cols();
    let hf = cfg.half();
    let m1 = lemma_half_band(cfg, offset1, i1);
    let m2 = lemma_half_band(cfg, offset2, i2);
    let lo1 = m1 * hf;
    let lo2 = m2 * hf;
    // a cell of the row that both workers read from
    let a1 = if s[c] != 0 {
        c
    } else {
        arrival(w, s, c, lo1, lo1 + hf)->Some_0
    };
    let a2 = if s[c] != 0 {
        c
    } else {
        arrival(w, s, c, lo2, lo2 + hf)->Some_0
    };
    assert(lo1 <= a1 < lo1 + hf);
    assert(lo2 <= a2 < lo2 + hf);
    if s[c] == 0 {
        lemma_mover_row(w, s, a1, c);
        lemma_mover_row(w, s, a2, c);
    }
    assert(row_start(w, a1) == row_start(w, a2));
    let r = row_start(w, a1);
    lemma_row_start(w, a1);
    lemma_row_start(w, a2);
    // a half ribbon holds the whole row of each of its cells
    if r < lo1 {
        lemma_aligned_gap(w, r, lo1);
    }
    if r < lo2 {
        lemma_aligned_gap(w, r, lo2);
    }
    if m1 < m2 {
        lemma_half_bands_apart(hf, m1, m2);
    }
    if m2 < m1 {
        lemma_half_bands_apart(hf, m2, m1);
    }
    assert(m1 == m2);
    // what a worker writes lies in the row of a cell that it reads, or in the next
    lemma_aligned_gap(w, r, lo1 + hf);
    lemma_row_start(w, c);
}

/// The cells of `s` that hold a particle.
pub open spec fn occupied(s: Seq<u8>) -> Set<int> {
    Set::new(|c: int| 0 <= c < s.len() && s[c] != 0)
}

/// How many cells of `s` hold a particle.
pub open spec fn occupied_count(s: Seq<u8>) -> nat {
    occupied(s).len()
}

/// No two particles of `s` move to, or stay in, one cell.
pub open spec fn collision_free(w: int, s: Seq<u8>) -> bool {
    forall|a: int, b: int|
        0 <= a < s.len() && 0 <= b < s.len() && s[a] != 0 && s[b] != 0 && a != b
            ==> destination(w, s, a) != destination(w, s, b)
}

/// The occupied cells of a grid are finitely many.
pub proof fn lemma_occupied_finite(s: Seq<u8>)
    ensures
        occupied(s).finite(),
        occupied_count(s) <= s.len(),
{
    let all = Set::new(|c: int| 0 <= c < s.len());
    lemma_int_range(0, s.len() as int);
    assert(all =~= vstd::set_lib::set_int_range(0, s.len() as int));
    assert(occupied(s).subset_of(all));
    lemma_len_subset(occupied(s), all);
}

/// Where a particle goes there is room: the cell is inside the grid, one
/// row down at most, and it is the particle's own or was empty.
pub proof fn lemma_destination_is_free(w: int, s: Seq<u8>, a: int)
    requires
        0 < w,
        s.len() % (w as nat) == 0,
        0 <= a < s.len(),
    ensures
        0 <= destination(w, s, a) < s.len(),
        destination(w, s, a) != a ==> s[destination(w, s, a)] == 0,
        destination(w, s, a) == a || destination(w, s, a) == a + w || destination(w, s, a) == a
            + w + 1 || destination(w, s, a) == a + w - 1,
{
    if a + w < s.len() {
        crate::rule::lemma_next_row_inside(w, s.len() as int, a);
    }
}

/// The cells that hold a particle after a step are the cells that the
/// particles before it go to.
pub proof fn lemma_occupied_after_step(w: int, s: Seq<u8>)
    requires
        0 < w,
        s.len() % (w as nat) == 0,
    ensures
        occupied(next_generation(w, s)) == occupied(s).map(|a: int| destination(w, s, a)),
{
    let g = next_generation(w, s);
    let f = |a: int| destination(w, s, a);
    let image = occupied(s).map(f);
    assert forall|c: int| occupied(g).contains(c) implies image.contains(c) by {
        if s[c] != 0 {
            assert(occupied(s).contains(c) && c == f(c));
        } else {
            let a = arrival(w, s, c, 0, s.len() as int)->Some_0;
            assert(occupied(s).contains(a) && c == f(a));
        }
    }
    assert forall|c: int| image.contains(c) implies occupied(g).contains(c) by {
        let a = choose|a: int| occupied(s).contains(a) && c == f(a);
        lemma_destination_is_free(w, s, a);
        if c != a {
            assert(moves_to(w, s, a, c));
            assert(arrival(w, s, c, 0, s.len() as int) is Some);
        }
        assert(g[c] == next_cell(w, s, c));
    }
    assert(occupied(g) =~= image);
}

/// A step makes no particle: there are at most as many after it as before.
pub proof fn law_step_adds_nothing(w: int, s: Seq<u8>)
    requires
        0 < w,
        s.len() % (w as nat) == 0,
    ensures
        occupied_count(next_generation(w, s)) <= occupied_count(s),
{
    lemma_occupied_finite(s);
    lemma_occupied_after_step(w, s);
    lemma_map_size_bound(
        occupied(s),
        occupied(next_generation(w, s)),
        |a: int| destination(w, s, a),
    );
}

/// Conservation: a step keeps the number of particles exactly when no two
/// of them go to one cell. Where two do, one of them is lost.
pub proof fn law_step_conserves(w: int, s: Seq<u8>)
    requires
        0 < w,
        s.len() % (w as nat) == 0,
    ensures
        collision_free(w, s) <==> occupied_count(next_generation(w, s)) == occupied_count(s),
{
    let g = next_generation(w, s);
    let f = |a: int| destination(w, s, a);
    lemma_occupied_finite(s);
    lemma_occupied_after_step(w, s);
    if collision_free(w, s) {
        assert(injective_on(f, occupied(s))) by {
            assert forall|a: int, b: int|
                occupied(s).contains(a) && occupied(s).contains(b) && #[trigger] f(a)
                    == #[trigger] f(b) implies a == b by {
                if a != b {
                    assert(destination(w, s, a) != destination(w, s, b));
                }
            }
        }
        lemma_map_size(occupied(s), occupied(g), f);
    } else {
        let (a, b) = choose|a: int, b: int|
            0 <= a < s.len() && 0 <= b < s.len() && s[a] != 0 && s[b] != 0 && a != b
                && destination(w, s, a) == destination(w, s, b);
        let rest = occupied(s).remove(b);
        assert(rest.map(f) =~= occupied(g)) by {
            assert forall|c: int| occupied(g).contains(c) implies rest.map(f).contains(c) by {
                let x = choose|x: int| occupied(s).contains(x) && c == f(x);
                if x == b {
                    assert(rest.contains(a) && c == f(a));
                } else {
                    assert(rest.contains(x) && c == f(x));
                }
            }
            assert forall|c: int| rest.map(f).contains(c) implies occupied(g).contains(c) by {
                let x = choose|x: int| rest.contains(x) && c == f(x);
                assert(occupied(s).contains(x) && c == f(x));
            }
        }
        lemma_map_size_bound(rest, occupied(g), f);
    }
}

/// A spawn changes no cell but empty cells of the top row, which it may
/// fill with `colour`.
pub proof fn lemma_spawn_touches_top_row(
    s: Seq<u8>,
    w: int,
    colour: u8,
    seed: u64,
    pos: u128,
    k: nat,
)
    requires
        0 < w <= s.len(),
    ensures
        spawned(s, w, colour, seed, pos, k).len() == s.len(),
        forall|c: int|
            0 <= c < s.len() ==> #[trigger] spawned(s, w, colour, seed, pos, k)[c] == s[c] || (c
                < w && s[c] == 0 && spawned(s, w, colour, seed, pos, k)[c] == colour),
    decreases k,
{
    if k > 0 {
        lemma_spawn_touches_top_row(s, w, colour, seed, pos, (k - 1) as nat);
        let x = spawn_column(w, seed, pos, (k - 1) as nat);
        assert(0 <= x < w) by {
            vstd::arithmetic::div_mod::lemma_mod_bound(
                crate::spawner::chacha8_word(seed, crate::spawner::pos_after(pos, (k - 1) as nat))
                    as int,
                w,
            );
        }
    }
}

/// A spawn adds one particle for each word that picked an empty cell.
pub proof fn lemma_spawn_counts(s: Seq<u8>, w: int, colour: u8, seed: u64, pos: u128, k: nat)
    requires
        0 < w <= s.len(),
        colour != 0,
    ensures
        occupied_count(spawned(s, w, colour, seed, pos, k)) == occupied_count(s) + spawn_successes(
            s,
            w,
            colour,
            seed,
            pos,
            k,
        ),
    decreases k,
{
    if k > 0 {
        let j = (k - 1) as nat;
        lemma_spawn_counts(s, w, colour, seed, pos, j);
        lemma_spawn_touches_top_row(s, w, colour, seed, pos, j);
        let prev = spawned(s, w, colour, seed, pos, j);
        let x = spawn_column(w, seed, pos, j);
        assert(0 <= x < w) by {
            vstd::arithmetic::div_mod::lemma_mod_bound(
                crate::spawner::chacha8_word(seed, crate::spawner::pos_after(pos, j)) as int,
                w,
            );
        }
        lemma_occupied_finite(prev);
        if prev[x] == 0 {
            assert(occupied(prev.update(x, colour)) =~= occupied(prev).insert(x));
        }
    }
}

/// The colour of a spawned particle is never that of an empty cell.
pub proof fn lemma_spawn_colour_occupies(frame: u32)
    ensures
        1 <= spawn_colour(frame) <= 254,
{
}

/// Conservation with injection: after one frame the grid holds the
/// particles that it held before and one more for each word of the spawn
/// that picked an empty cell, provided that no two particles go to one cell
/// in the step.
pub proof fn law_conservation_with_injection(
    w: int,
    s: Seq<u8>,
    frame: u32,
    seed: u64,
    pos: u128,
)
    requires
        0 < w <= s.len(),
        s.len() % (w as nat) == 0,
        collision_free(w, spawned(s, w, spawn_colour(frame), seed, pos, spawn_draws(w))),
    ensures
        occupied_count(
            next_generation(w, spawned(s, w, spawn_colour(frame), seed, pos, spawn_draws(w))),
        ) == occupied_count(s) + spawn_successes(
            s,
            w,
            spawn_colour(frame),
            seed,
            pos,
            spawn_draws(w),
        ),
{
    let k = spawn_draws(w);
    let sp = spawned(s, w, spawn_colour(frame), seed, pos, k);
    lemma_spawn_colour_occupies(frame);
    lemma_spawn_touches_top_row(s, w, spawn_colour(frame), seed, pos, k);
    lemma_spawn_counts(s, w, spawn_colour(frame), seed, pos, k);
    law_step_conserves(w, sp);
}

/// Floor behaviour: a particle in the last row stays where it is, with its
/// value, through a spawn and through a step.
pub proof fn law_floor(w: int, s: Seq<u8>, c: int, frame: u32, seed: u64, pos: u128)
    requires
        0 < w <= s.len(),
        0 <= c < s.len(),
        c + w >= s.len(),
        s[c] != 0,
    ensures
        next_generation(w, s)[c] == s[c],
        spawned(s, w, spawn_colour(frame), seed, pos, spawn_draws(w))[c] == s[c],
        next_generation(w, spawned(s, w, spawn_colour(frame), seed, pos, spawn_draws(w)))[c]
            == s[c],
{
    lemma_spawn_touches_top_row(s, w, spawn_colour(frame), seed, pos, spawn_draws(w));
}

/// Straight fall: a particle above an empty cell leaves its cell in the
/// step, and the cell below it is occupied after the step. The cell below
/// holds this particle's value, unless the particle to the left moves there
/// too, whose value is then seen.
pub proof fn law_straight_fall(w: int, s: Seq<u8>, c: int)
    requires
        0 < w,
        0 <= c,
        c + w < s.len(),
        s[c] != 0,
        s[c + w] == 0,
    ensures
        destination(w, s, c) == c + w,
        next_generation(w, s)[c] == 0,
        next_generation(w, s)[c + w] != 0,
        next_generation(w, s)[c + w] == if moves_to(w, s, c - 1, c + w) {
            s[c - 1]
        } else {
            s[c]
        },
{
    assert(moves_to(w, s, c, c + w));
}

/// Lateral resolution: of two particles side by side in one row that cannot
/// fall straight, the left one can only go left and the right one only
/// right, so they never go to one cell.
pub proof fn law_lateral_pair_apart(w: int, s: Seq<u8>, c: int)
    requires
        0 < w,
        0 <= c,
        c % w + 1 < w,
        c + 1 + w < s.len(),
        s[c] != 0,
        s[c + 1] != 0,
        s[c + w] != 0,
        s[c + 1 + w] != 0,
    ensures
        destination(w, s, c) == c || destination(w, s, c) == c + w - 1,
        destination(w, s, c + 1) == c + 1 || destination(w, s, c + 1) == c + w + 2,
        destination(w, s, c) != destination(w, s, c + 1),
{
}

/// Whether two grids show the same to the simulation: the same width and
/// height, the same cells in front, the same seed and place in its stream.
/// The worker counts may differ, and the back buffers.
pub open spec fn same_state(a: &Grid, b: &Grid) -> bool {
    &&& a.config().cols() == b.config().cols()
    &&& a.config().rows() == b.config().rows()
    &&& a.front() == b.front()
    &&& a.seed() == b.seed()
    &&& a.stream_pos() == b.stream_pos()
}

/// Whether `run` is the grids that one grid goes through in the frames
/// `frames`: the grid before the first frame, then the grid after each.
pub open spec fn is_run(run: Seq<Grid>, frames: Seq<u32>) -> bool {
    &&& run.len() == frames.len() + 1
    &&& forall|k: int| 0 <= k < frames.len() ==> (#[trigger] run[k]).advances_to(frames[k], &run[k + 1])
}

/// Worker-count invariance: two grids that start in the same state and are
/// advanced through the same frames are in the same state after every
/// frame, however many workers each of them has.
pub proof fn law_worker_count_invariance(
    run_a: Seq<Grid>,
    run_b: Seq<Grid>,
    frames: Seq<u32>,
    k: int,
)
    requires
        is_run(run_a, frames),
        is_run(run_b, frames),
        same_state(&run_a[0], &run_b[0]),
        0 <= k <= frames.len(),
    ensures
        same_state(&run_a[k], &run_b[k]),
    decreases k,
{
    if k > 0 {
        law_worker_count_invariance(run_a, run_b, frames, k - 1);
        assert(run_a[k - 1].advances_to(frames[k - 1], &run_a[k - 1 + 1]));
        assert(run_b[k - 1].advances_to(frames[k - 1], &run_b[k - 1 + 1]));
    }
}

/// Whether `grid` is what [`Grid::new`] makes of a width, a height, a worker
/// count and a seed.
pub open spec fn is_new(grid: &Grid, width: int, height: int, workers: int, seed: u64) -> bool {
    &&& grid.config().cols() == width
    &&& grid.config().rows() == crate::config::usable_height(height, workers)
    &&& grid.config().workers() == workers
    &&& grid.front() == crate::phase::empty_cells(grid.config().cells())
    &&& grid.config().cells() == grid.config().cols() * grid.config().rows()
    &&& grid.seed() == seed
    &&& grid.stream_pos() == 0
}

/// Determinism: two grids made with the same width, height, worker count
/// and seed, and advanced through the same frames, hold the same cells
/// after every frame.
pub proof fn law_determinism(
    run_a: Seq<Grid>,
    run_b: Seq<Grid>,
    frames: Seq<u32>,
    width: int,
    height: int,
    workers: int,
    seed: u64,
    k: int,
)
    requires
        is_run(run_a, frames),
        is_run(run_b, frames),
        is_new(&run_a[0], width, height, workers, seed),
        is_new(&run_b[0], width, height, workers, seed),
        0 <= k <= frames.len(),
    ensures
        run_a[k].front() == run_b[k].front(),
        run_a[k].stream_pos() == run_b[k].stream_pos(),
{
    law_worker_count_invariance(run_a, run_b, frames, k);
}

/// What writing one cell's move does to a buffer. An empty cell writes
/// nothing. A particle is written once, to the index `d` that stands for
/// its destination: where it was if it stays, which it does in the last row,
/// and else one of the three indices a row further on, whose cell was empty;
/// the index where it was then gets `0`. No other index changes.
pub proof fn law_pixel_is_written_once(w: int, s: Seq<u8>, t: Seq<u8>, k: int, c: int)
    requires
        0 < w,
        0 <= c < s.len(),
        0 <= k < t.len(),
        k + (destination(w, s, c) - c) < t.len(),
    ensures
        after_pixel(w, s, t, k, c).len() == t.len(),
        s[c] == 0 ==> after_pixel(w, s, t, k, c) == t,
        c + w >= s.len() ==> destination(w, s, c) == c,
        destination(w, s, c) == c || destination(w, s, c) == c + w - 1 || destination(w, s, c)
            == c + w || destination(w, s, c) == c + w + 1,
        destination(w, s, c) != c ==> s[destination(w, s, c)] == 0,
        s[c] != 0 ==> after_pixel(w, s, t, k, c)[k + (destination(w, s, c) - c)] == s[c],
        s[c] != 0 && destination(w, s, c) != c ==> after_pixel(w, s, t, k, c)[k] == 0,
        forall|j: int|
            0 <= j < t.len() && j != k && j != k + (destination(w, s, c) - c) ==> after_pixel(
                w,
                s,
                t,
                k,
                c,
            )[j] == t[j],
{
}

/// Into a buffer of empty cells the move of a particle writes exactly one
/// value that is not `0`: the particle's.
pub proof fn law_pixel_into_empty_buffer(w: int, s: Seq<u8>, t: Seq<u8>, k: int, c: int)
    requires
        0 < w,
        0 <= c < s.len(),
        0 <= k < t.len(),
        k + (destination(w, s, c) - c) < t.len(),
        s[c] != 0,
        forall|j: int| 0 <= j < t.len() ==> t[j] == 0,
    ensures
        forall|j: int|
            0 <= j < t.len() ==> after_pixel(w, s, t, k, c)[j] == if j == k + (destination(
                w,
                s,
                c,
            ) - c) {
                s[c]
            } else {
                0u8
            },
{
    law_pixel_is_written_once(w, s, t, k, c);
}

/// The grid `s` after `n` steps.
pub open spec fn after_steps(w: int, s: Seq<u8>, n: nat) -> Seq<u8>
    decreases n,
{
    if n == 0 {
        s
    } else {
        next_generation(w, after_steps(w, s, (n - 1) as nat))
    }
}

/// Straight fall, step after step: a particle that finds the cell below it
/// empty in each of `n` generations is `n` rows further down after them,
/// and each cell that it left is empty in the generation after.
pub proof fn law_straight_fall_until_blocked(w: int, s: Seq<u8>, c: int, n: nat)
    requires
        0 < w,
        0 <= c,
        c + n * w < s.len(),
        s[c] != 0,
        forall|j: int|
            0 <= j < n ==> (#[trigger] after_steps(w, s, j as nat))[c + (j + 1) * w] == 0,
    ensures
        after_steps(w, s, n).len() == s.len(),
        after_steps(w, s, n)[c + n * w] != 0,
        n > 0 ==> after_steps(w, s, n)[c + (n - 1) * w] == 0,
    decreases n,
{
    if n > 0 {
        let m = (n - 1) as nat;
        assert(m * w + w == n * w) by (nonlinear_arith)
            requires
                m + 1 == n,
        ;
        assert(0 <= m * w) by (nonlinear_arith)
            requires
                0 <= m,
                0 < w,
        ;
        assert((m + 1) * w == n * w) by (nonlinear_arith)
            requires
                m + 1 == n,
        ;
        assert forall|j: int| 0 <= j < m implies (#[trigger] after_steps(w, s, j as nat))[c + (j
            + 1) * w] == 0 by {}
        law_straight_fall_until_blocked(w, s, c, m);
        let g = after_steps(w, s, m);
        assert(g[c + (m + 1) * w] == 0);
        law_straight_fall(w, g, c + m * w);
    } else {
        assert(n * w == 0) by (nonlinear_arith)
            requires
                n == 0,
        ;
    }
}

} // verus!
