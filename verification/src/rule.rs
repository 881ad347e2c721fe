//! The rule by which one particle moves, and the cell it is written to.
//!
//! A grid is a row-major sequence of cells, `0` for an empty cell. All reads
//! are made in the previous generation, so the order in which the cells are
//! visited changes nothing but which of several particles that arrive in one
//! cell is seen there.

use vstd::prelude::*;
use vstd::arithmetic::div_mod::{
    lemma_fundamental_div_mod,
    lemma_fundamental_div_mod_converse,
};
use crate::config::{lemma_cells_need_columns, Config};

verus! {

/// Whether the particle in cell `c` finds the cell one row down and `offset`
/// columns aside inside the grid and empty.
pub open spec fn lateral_free(w: int, s: Seq<u8>, c: int, offset: int) -> bool {
    0 <= c % w + offset < w && s[c + w + offset] == 0
}

/// The cell that the particle in cell `c` of grid `s` moves to: straight
/// down, else down and right, else down and left, else `c` itself. A particle
/// in the last row stays.
pub open spec fn destination(w: int, s: Seq<u8>, c: int) -> int {
    if c + w >= s.len() {
        c
    } else if s[c + w] == 0 {
        c + w
    } else if lateral_free(w, s, c, 1) {
        c + w + 1
    } else if lateral_free(w, s, c, -1) {
        c + w - 1
    } else {
        c
    }
}

/// Whether cell `a` holds a particle that moves from there to cell `c`.
pub open spec fn moves_to(w: int, s: Seq<u8>, a: int, c: int) -> bool {
    0 <= a < s.len() && s[a] != 0 && a != c && destination(w, s, a) == c
}

/// The cell, among those from `lo` up to but not including `hi`, whose
/// particle is seen in cell `c` after the step, if any moves there. Only the
/// three cells above `c` can move there; where several do, the one with the
/// lowest index is seen.
pub open spec fn arrival(w: int, s: Seq<u8>, c: int, lo: int, hi: int) -> Option<int> {
    if lo <= c - w - 1 < hi && moves_to(w, s, c - w - 1, c) {
        Some(c - w - 1)
    } else if lo <= c - w < hi && moves_to(w, s, c - w, c) {
        Some(c - w)
    } else if lo <= c - w + 1 < hi && moves_to(w, s, c - w + 1, c) {
        Some(c - w + 1)
    } else {
        None
    }
}

/// What cell `c` holds in the generation after `s`: a particle that stays
/// there, or the particle that arrives there, or nothing.
pub open spec fn next_cell(w: int, s: Seq<u8>, c: int) -> u8 {
    if s[c] != 0 {
        if destination(w, s, c) == c {
            s[c]
        } else {
            0
        }
    } else {
        match arrival(w, s, c, 0, s.len() as int) {
            Some(a) => s[a],
            None => 0,
        }
    }
}

/// The generation after `s`, a grid of rows of `w` cells.
pub open spec fn next_generation(w: int, s: Seq<u8>) -> Seq<u8> {
    Seq::new(s.len(), |c: int| next_cell(w, s, c))
}

/// The buffer `t` after the move of cell `c` of `s` was written to it, where
/// index `k` of `t` stands for cell `c`.
pub open spec fn after_pixel(w: int, s: Seq<u8>, t: Seq<u8>, k: int, c: int) -> Seq<u8> {
    let d = destination(w, s, c);
    if s[c] == 0 {
        t
    } else if d == c {
        t.update(k, s[c])
    } else {
        t.update(k + (d - c), s[c]).update(k, 0)
    }
}

/// In a grid of whole rows, a cell that has a cell below it has the whole
/// next row below it.
pub proof fn lemma_next_row_inside(w: int, len: int, c: int)
    requires
        0 < w,
        0 <= c,
        0 <= len,
        len % w == 0,
        c + w < len,
    ensures
        c - c % w + 2 * w <= len,
        0 <= c % w < w,
{
    lemma_fundamental_div_mod(c, w);
    lemma_fundamental_div_mod(len, w);
    let q = c / w;
    let h = len / w;
    assert(q + 2 <= h) by (nonlinear_arith)
        requires
            c == w * q + c % w,
            len == w * h,
            0 <= c % w < w,
            c + w < len,
            0 < w,
    ;
    assert(w * (q + 2) <= w * h) by (nonlinear_arith)
        requires
            q + 2 <= h,
            0 < w,
    ;
    assert(w * (q + 2) == w * q + 2 * w) by (nonlinear_arith);
}

/// Row `c / w` is above the last of `h` rows exactly when cell `c` has a cell
/// below it.
pub proof fn lemma_row_above_last(w: int, h: int, c: int)
    requires
        0 < w,
        0 <= h,
        0 <= c,
    ensures
        (c / w < h - 1) <==> (c + w < w * h),
{
    lemma_fundamental_div_mod(c, w);
    let q = c / w;
    if q < h - 1 {
        assert(w * q + w <= w * (h - 1)) by (nonlinear_arith)
            requires
                q + 1 <= h - 1,
                0 < w,
        ;
        assert(w * (h - 1) == w * h - w) by (nonlinear_arith);
    } else {
        assert(w * q >= w * (h - 1)) by (nonlinear_arith)
            requires
                q >= h - 1,
                0 < w,
        ;
        assert(w * (h - 1) == w * h - w) by (nonlinear_arith);
    }
}

/// Tries to move the particle in cell `real_i` of `source` one row down and
/// `offset` columns aside. `ribbon_i` is the index in `target` that stands
/// for cell `real_i`, and `x` the column of that cell. One cell of `target`
/// is written if the move is made, and none if it is not.
pub fn move_lateral(
    cfg: &Config,
    x: usize,
    offset: isize,
    source: &[u8],
    target: &mut [u8],
    ribbon_i: usize,
    real_i: usize,
) -> (moved: bool)
    requires
        cfg.wf(),
        source@.len() == cfg.cells(),
        real_i + cfg.cols() < source@.len(),
        x == real_i as int % cfg.cols(),
        x + offset <= isize::MAX,
        lateral_free(cfg.cols(), source@, real_i as int, offset as int) ==> ribbon_i + cfg.cols()
            + offset < old(target)@.len(),
    ensures
        moved == lateral_free(cfg.cols(), source@, real_i as int, offset as int),
        final(target)@ == if moved {
            old(target)@.update(ribbon_i + cfg.cols() + offset, source@[real_i as int])
        } else {
            old(target)@
        },
        moved ==> ribbon_i < ribbon_i + cfg.cols() + offset < old(target)@.len(),
        forall|k: int|
            0 <= k < old(target)@.len() && k != ribbon_i + cfg.cols() + offset ==> final(target)@[k] == old(target)@[k],
{
    let mut moved = false;
    proof {
        lemma_cells_need_columns(cfg);
        lemma_cells_are_whole_rows(cfg);
        lemma_next_row_inside(cfg.cols(), cfg.cells(), real_i as int);
    }
    if x as isize + offset >= 0 && x as isize + offset < cfg.width() as isize {
        let below_lateral_real = ((real_i + cfg.width()) as isize + offset) as usize;
        if source[below_lateral_real] == 0 {
            assert(lateral_free(cfg.cols(), source@, real_i as int, offset as int));
            let target_len: usize = target.len();
            assert(ribbon_i + (below_lateral_real - real_i) < target_len);
            let below_lateral = ribbon_i + (below_lateral_real - real_i);
            target[below_lateral] = source[real_i];
            moved = true;
        }
    }
    moved
}

/// The cells of a well-formed configuration are whole rows.
pub proof fn lemma_cells_are_whole_rows(cfg: &Config)
    requires
        cfg.wf(),
        cfg.cols() > 0,
    ensures
        cfg.cells() % cfg.cols() == 0,
        cfg.cells() / cfg.cols() == cfg.rows(),
{
    assert(cfg.cells() == cfg.cols() * cfg.rows());
    lemma_fundamental_div_mod_converse(cfg.cells(), cfg.cols(), cfg.rows(), 0);
}

/// Writes to `target` what becomes of the particle in cell `real_i` of
/// `source`, if there is one: its value in the cell it moves to and `0` where
/// it was, or its value where it was if it stays. `ribbon_i` is the index in
/// `target` that stands for cell `real_i`. Only a particle above the last row
/// can move; for such a one both indices must lie in one column, and
/// `target` must hold the cells below that it can move to.
pub fn next_pixel(
    cfg: &Config,
    source: &[u8],
    target: &mut [u8],
    ribbon_i: usize,
    real_i: usize,
)
    requires
        cfg.wf(),
        source@.len() == cfg.cells(),
        real_i < source@.len(),
        ribbon_i < old(target)@.len(),
        source@[real_i as int] != 0 && real_i as int / cfg.cols() < cfg.rows() - 1 ==> {
            &&& ribbon_i as int % cfg.cols() == real_i as int % cfg.cols()
            &&& ribbon_i + cfg.cols() < old(target)@.len()
            &&& real_i as int % cfg.cols() + 1 < cfg.cols() ==> ribbon_i + cfg.cols() + 1 < old(target)@.len()
        },
    ensures
        final(target)@ == after_pixel(
            cfg.cols(),
            source@,
            old(target)@,
            ribbon_i as int,
            real_i as int,
        ),
        final(target)@.len() == old(target)@.len(),
        source@[real_i as int] == 0 ==> final(target)@ == old(target)@,
        source@[real_i as int] != 0 && real_i as int / cfg.cols() >= cfg.rows() - 1 ==> final(target)@ == old(target)@.update(ribbon_i as int, source@[real_i as int]),
        forall|k: int|
            0 <= k < old(target)@.len() && k != ribbon_i && k != ribbon_i + cfg.cols() - 1 && k
                != ribbon_i + cfg.cols() && k != ribbon_i + cfg.cols() + 1 ==> final(target)@[k]
                == old(target)@[k],
{
    let mut moved = false;
    proof {
        lemma_cells_need_columns(cfg);
        lemma_cells_are_whole_rows(cfg);
        lemma_row_above_last(cfg.cols(), cfg.rows(), real_i as int);
        lemma_fundamental_div_mod(real_i as int, cfg.cols());
    }
    let (x, _) = cfg.index_to_coords(ribbon_i);
    let real_y = cfg.index_to_y(real_i);
    let within_full = real_y < cfg.height() - 1;
    if within_full && source[real_i] != 0 {
        if source[real_i + cfg.width()] == 0 {
            target[ribbon_i + cfg.width()] = source[real_i];
            moved = true;
        }
        if !moved {
            moved = move_lateral(cfg, x, 1, source, target, ribbon_i, real_i)
        }
        if !moved {
            moved = move_lateral(cfg, x, -1, source, target, ribbon_i, real_i)
        }
    }
    if moved {
        target[ribbon_i] = 0;
    } else if source[real_i] != 0 {
        target[ribbon_i] = source[real_i];
    }
}

} // verus!
