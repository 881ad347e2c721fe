//! The two phases of a generation, and why together they write every cell
//! of the next generation once.
//!
//! The grid is a stack of bands, one for each worker, and each band is two
//! half bands of whole rows. In one phase the workers move the particles of
//! the upper half bands, in the other those of the lower half bands. A
//! particle never leaves the row below its own, so a worker that is given its
//! half band and the rows after it writes inside what it was given.

use vstd::prelude::*;
use vstd::arithmetic::div_mod::{
    lemma_fundamental_div_mod,
    lemma_fundamental_div_mod_converse,
};
use crate::config::Config;
use crate::ribbon::{ribbon_fits, ribbon_size, worked_cell};
use crate::rule::{arrival, lateral_free, moves_to, next_generation};

verus! {

/// The first cell of the ribbon that cell `c` lies in, in the phase whose
/// ribbons start at cell `offset`.
pub open spec fn band_base(cfg: &Config, c: int, offset: int) -> int {
    offset + ((c - offset) / cfg.ribbon()) * cfg.ribbon()
}

/// The back buffer `t` after the phase whose ribbons start at cell `offset`:
/// the cells before `offset` are not touched, and every other cell is
/// written by the worker in whose ribbon it lies.
pub open spec fn phase(cfg: &Config, s: Seq<u8>, t: Seq<u8>, offset: int) -> Seq<u8> {
    Seq::new(
        t.len(),
        |c: int|
            if c < offset {
                t[c]
            } else {
                worked_cell(
                    cfg.cols(),
                    s,
                    t[c],
                    c,
                    band_base(cfg, c, offset),
                    band_base(cfg, c, offset) + cfg.half(),
                )
            },
    )
}

/// A ribbon is two half ribbons, and a half ribbon is whole rows, at least
/// one where the grid has a cell.
pub proof fn lemma_config_shape(cfg: &Config)
    requires
        cfg.wf(),
        cfg.cols() > 0,
    ensures
        0 <= cfg.half(),
        cfg.ribbon() == 2 * cfg.half(),
        cfg.half() % cfg.cols() == 0,
        cfg.ribbon() % cfg.cols() == 0,
        cfg.cells() % cfg.cols() == 0,
        cfg.cells() == cfg.workers() * cfg.ribbon(),
        cfg.cells() > 0 ==> cfg.half() >= cfg.cols(),
        cfg.ribbon() <= cfg.cells(),
{
    let w = cfg.cols();
    let n = cfg.workers();
    let h = cfg.rows();
    let r = cfg.ribbon();
    let q = h / (2 * n);
    lemma_fundamental_div_mod(h, 2 * n);
    assert(0 <= q) by (nonlinear_arith)
        requires
            h == (2 * n) * q,
            0 <= h,
            0 < n,
    ;
    assert(r == 2 * (w * q)) by (nonlinear_arith)
        requires
            r * n == w * h,
            h == (2 * n) * q,
            0 < n,
    ;
    assert(0 <= w * q) by (nonlinear_arith)
        requires
            0 <= q,
            0 < w,
    ;
    lemma_fundamental_div_mod_converse(r, 2, w * q, 0);
    lemma_fundamental_div_mod_converse(w * q, w, q, 0);
    assert(r == w * (2 * q)) by (nonlinear_arith)
        requires
            r == 2 * (w * q),
    ;
    lemma_fundamental_div_mod_converse(r, w, 2 * q, 0);
    lemma_fundamental_div_mod_converse(cfg.cells(), w, h, 0);
    assert(cfg.cells() == n * r) by (nonlinear_arith)
        requires
            r * n == cfg.cells(),
    ;
    assert(r <= n * r) by (nonlinear_arith)
        requires
            1 <= n,
            0 <= r,
    ;
    if cfg.cells() > 0 {
        assert(q >= 1) by (nonlinear_arith)
            requires
                cfg.cells() == w * h,
                h == (2 * n) * q,
                cfg.cells() > 0,
                0 <= q,
        ;
        assert(w * q >= w) by (nonlinear_arith)
            requires
                q >= 1,
                0 < w,
        ;
    }
}

/// Every ribbon that the grid is cut into, from `offset` on, fits its worker.
pub proof fn lemma_ribbons_fit(cfg: &Config, offset: int, i: int)
    requires
        cfg.wf(),
        cfg.cols() > 0,
        offset == 0 || offset == cfg.half(),
        0 <= i,
        i * cfg.ribbon() < cfg.cells() - offset,
    ensures
        ribbon_fits(
            cfg,
            ribbon_size(cfg.cells() - offset, cfg.ribbon(), i),
            i * cfg.ribbon() + offset,
        ),
        i < cfg.workers(),
{
    lemma_config_shape(cfg);
    let w = cfg.cols();
    let r = cfg.ribbon();
    let hf = cfg.half();
    let n = cfg.workers();
    let base = i * r + offset;
    assert(0 <= i * r) by (nonlinear_arith)
        requires
            0 <= i,
            0 <= r,
    ;
    assert(i < n) by (nonlinear_arith)
        requires
            i * r < n * r,
            0 <= r,
    ;
    assert((i + 1) * r == i * r + r) by (nonlinear_arith);
    assert((i + 1) * r <= n * r) by (nonlinear_arith)
        requires
            i + 1 <= n,
            0 <= r,
    ;
    if (i + 1) * r > cfg.cells() - offset {
        // only the last ribbon of the shifted phase is short: it is a half ribbon
        if i + 1 < n {
            assert((i + 2) * r <= n * r) by (nonlinear_arith)
                requires
                    i + 2 <= n,
                    0 <= r,
            ;
            assert((i + 2) * r == (i + 1) * r + r) by (nonlinear_arith);
        }
        assert(i + 1 == n);
        assert(offset == hf);
    }
    // base is a number of whole rows
    lemma_fundamental_div_mod(r, w);
    lemma_fundamental_div_mod(hf, w);
    let k = i * (r / w) + offset / w;
    assert(base == w * k) by (nonlinear_arith)
        requires
            base == i * r + offset,
            r == w * (r / w),
            offset == w * (offset / w),
            k == i * (r / w) + offset / w,
    ;
    assert(0 <= k) by (nonlinear_arith)
        requires
            base == w * k,
            0 <= base,
            0 < w,
    ;
    lemma_fundamental_div_mod_converse(base, w, k, 0);
}

/// A particle that moves goes to the row below its own.
pub proof fn lemma_mover_row(w: int, s: Seq<u8>, a: int, c: int)
    requires
        0 < w,
        moves_to(w, s, a, c),
    ensures
        c - c % w == a - a % w + w,
        0 <= a % w < w,
        0 <= c % w < w,
{
    lemma_fundamental_div_mod(a, w);
    let q = a / w;
    let x = a % w;
    assert(w * (q + 1) == w * q + w) by (nonlinear_arith);
    if c == a + w {
        lemma_fundamental_div_mod_converse(c, w, q + 1, x);
    } else if c == a + w + 1 {
        assert(lateral_free(w, s, a, 1));
        lemma_fundamental_div_mod_converse(c, w, q + 1, x + 1);
    } else {
        assert(c == a + w - 1);
        assert(lateral_free(w, s, a, -1));
        lemma_fundamental_div_mod_converse(c, w, q + 1, x - 1);
    }
}

/// A range of cells that holds the whole row above cell `c` holds every
/// particle that moves to `c`; a range that holds none of that row holds
/// none of them.
pub proof fn lemma_arrival_whole_row(w: int, s: Seq<u8>, c: int, lo: int, hi: int)
    requires
        0 < w,
        0 <= c < s.len(),
        0 <= lo <= hi <= s.len(),
    ensures
        lo <= c - c % w - w && c - c % w <= hi ==> arrival(w, s, c, lo, hi) == arrival(
            w,
            s,
            c,
            0,
            s.len() as int,
        ),
        c - c % w <= lo || hi <= c - c % w - w ==> arrival(w, s, c, lo, hi) is None,
{
    if moves_to(w, s, c - w - 1, c) {
        lemma_mover_row(w, s, c - w - 1, c);
    }
    if moves_to(w, s, c - w, c) {
        lemma_mover_row(w, s, c - w, c);
    }
    if moves_to(w, s, c - w + 1, c) {
        lemma_mover_row(w, s, c - w + 1, c);
    }
}

/// Of two numbers of whole rows, the larger is at least a row larger.
pub proof fn lemma_aligned_gap(w: int, x: int, y: int)
    requires
        0 < w,
        x % w == 0,
        y % w == 0,
        x < y,
    ensures
        x + w <= y,
{
    lemma_fundamental_div_mod(x, w);
    lemma_fundamental_div_mod(y, w);
    assert(x / w + 1 <= y / w) by (nonlinear_arith)
        requires
            x == w * (x / w),
            y == w * (y / w),
            x < y,
            0 < w,
    ;
    assert(w * (x / w + 1) <= w * (y / w)) by (nonlinear_arith)
        requires
            x / w + 1 <= y / w,
            0 < w,
    ;
    assert(w * (x / w + 1) == w * (x / w) + w) by (nonlinear_arith);
}

/// The first cell of the row of cell `c`.
pub open spec fn row_start(w: int, c: int) -> int {
    c - c % w
}

/// The row of a cell starts a row, at most `w - 1` cells before the cell.
pub proof fn lemma_row_start(w: int, c: int)
    requires
        0 < w,
    ensures
        row_start(w, c) % w == 0,
        row_start(w, c) <= c < row_start(w, c) + w,
        (row_start(w, c) - w) % w == 0,
{
    lemma_fundamental_div_mod(c, w);
    assert(c - c % w == (c / w) * w) by (nonlinear_arith)
        requires
            c == w * (c / w) + c % w,
    ;
    lemma_fundamental_div_mod_converse(c - c % w, w, c / w, 0);
    assert(c - c % w - w == (c / w - 1) * w) by (nonlinear_arith)
        requires
            c - c % w == (c / w) * w,
    ;
    lemma_fundamental_div_mod_converse(c - c % w - w, w, c / w - 1, 0);
}

/// Where the ribbon of a cell starts in each of the two phases: a cell in
/// the upper half of its band lies, in the shifted phase, in the ribbon that
/// starts half a ribbon before the band; a cell in the lower half, in the
/// ribbon that starts there.
pub proof fn lemma_band_bases(cfg: &Config, c: int)
    requires
        cfg.wf(),
        cfg.cols() > 0,
        0 <= c < cfg.cells(),
    ensures
        band_base(cfg, c, 0) % cfg.cols() == 0,
        0 <= band_base(cfg, c, 0) <= c < band_base(cfg, c, 0) + cfg.ribbon(),
        band_base(cfg, c, 0) + cfg.ribbon() <= cfg.cells(),
        c < band_base(cfg, c, 0) + cfg.half() && c >= cfg.half() ==> band_base(
            cfg,
            c,
            cfg.half(),
        ) == band_base(cfg, c, 0) - cfg.half(),
        c >= band_base(cfg, c, 0) + cfg.half() ==> band_base(cfg, c, cfg.half()) == band_base(
            cfg,
            c,
            0,
        ) + cfg.half(),
        c < cfg.half() ==> band_base(cfg, c, 0) == 0,
{
    lemma_config_shape(cfg);
    let w = cfg.cols();
    let r = cfg.ribbon();
    let hf = cfg.half();
    let n = cfg.workers();
    assert(r > 0);
    let u = c / r;
    lemma_fundamental_div_mod(c, r);
    assert(r * u == u * r) by (nonlinear_arith);
    assert(0 <= u) by (nonlinear_arith)
        requires
            c == r * u + c % r,
            0 <= c % r < r,
            0 <= c,
    ;
    assert(u < n) by (nonlinear_arith)
        requires
            c == r * u + c % r,
            0 <= c % r,
            c < n * r,
            0 < r,
    ;
    assert((u + 1) * r <= n * r) by (nonlinear_arith)
        requires
            u + 1 <= n,
            0 < r,
    ;
    assert((u + 1) * r == u * r + r) by (nonlinear_arith);
    // the band starts a row
    lemma_fundamental_div_mod(r, w);
    assert(u * r == w * (u * (r / w))) by (nonlinear_arith)
        requires
            r == w * (r / w),
    ;
    lemma_fundamental_div_mod_converse(u * r, w, u * (r / w), 0);
    if c >= hf {
        if c % r < hf {
            assert(c - hf == (u - 1) * r + (c % r + hf)) by (nonlinear_arith)
                requires
                    c == r * u + c % r,
                    r == 2 * hf,
            ;
            lemma_fundamental_div_mod_converse(c - hf, r, u - 1, c % r + hf);
            assert((u - 1) * r == u * r - r) by (nonlinear_arith);
        } else {
            assert(c - hf == u * r + (c % r - hf)) by (nonlinear_arith)
                requires
                    c == r * u + c % r,
            ;
            lemma_fundamental_div_mod_converse(c - hf, r, u, c % r - hf);
        }
    }
    if c < hf {
        if u >= 1 {
            assert(u * r >= r) by (nonlinear_arith)
                requires
                    u >= 1,
                    0 < r,
            ;
        }
        assert(u == 0);
        assert(u * r == 0) by (nonlinear_arith)
            requires
                u == 0,
        ;
    }
}

/// A buffer of `n` empty cells.
pub open spec fn empty_cells(n: int) -> Seq<u8> {
    Seq::new(n as nat, |i: int| 0u8)
}

/// The two phases, the shifted one first, write the next generation to an
/// empty back buffer.
pub proof fn lemma_two_phases(cfg: &Config, s: Seq<u8>)
    requires
        cfg.wf(),
        cfg.cols() > 0,
        s.len() == cfg.cells(),
    ensures
        phase(cfg, s, phase(cfg, s, empty_cells(cfg.cells()), cfg.half()), 0) == next_generation(
            cfg.cols(),
            s,
        ),
{
    let w = cfg.cols();
    let hf = cfg.half();
    let len = cfg.cells();
    let t0 = empty_cells(len);
    let t1 = phase(cfg, s, t0, hf);
    let t2 = phase(cfg, s, t1, 0);
    let g = next_generation(w, s);
    lemma_config_shape(cfg);
    assert forall|c: int| 0 <= c < len implies t2[c] == g[c] by {
        lemma_band_bases(cfg, c);
        lemma_row_start(w, c);
        let b0 = band_base(cfg, c, 0);
        let b1 = band_base(cfg, c, hf);
        let rs = row_start(w, c);
        let ra = rs - w;
        // the row of c starts in the half band that c lies in
        if rs < b0 {
            lemma_aligned_gap(w, rs, b0);
        }
        assert((b0 + hf) % w == 0) by {
            lemma_fundamental_div_mod(b0, w);
            lemma_fundamental_div_mod(hf, w);
            assert(b0 + hf == (b0 / w + hf / w) * w) by (nonlinear_arith)
                requires
                    b0 == w * (b0 / w),
                    hf == w * (hf / w),
            ;
            lemma_fundamental_div_mod_converse(b0 + hf, w, b0 / w + hf / w, 0);
        }
        if c >= b0 + hf && rs < b0 + hf {
            lemma_aligned_gap(w, rs, b0 + hf);
        }
        // so does the row above it, or it is the last row of the half band before
        if ra < b0 {
            lemma_aligned_gap(w, ra, b0);
        }
        if ra < b0 + hf {
            lemma_aligned_gap(w, ra, b0 + hf);
        }
        // in each phase the worker of c holds all of the row above c or none of it
        lemma_arrival_whole_row(w, s, c, b0, b0 + hf);
        if c >= hf {
            assert(0 <= b1 && b1 + hf <= len);
            lemma_arrival_whole_row(w, s, c, b1, b1 + hf);
        }
        lemma_arrival_whole_row(w, s, c, 0, len);
        assert(t1[c] == if c < hf {
            0u8
        } else {
            worked_cell(w, s, 0u8, c, b1, b1 + hf)
        });
        assert(t2[c] == worked_cell(w, s, t1[c], c, b0, b0 + hf));
    }
    assert(t2 =~= g);
}

} // verus!
