//! Cutting the back buffer into ribbons, one for each worker.

use vstd::prelude::*;
use vstd::arithmetic::div_mod::{
    lemma_fundamental_div_mod,
    lemma_fundamental_div_mod_converse,
};
use crate::config::Config;
use crate::rule::{after_pixel, arrival, destination, next_pixel};

verus! {

/// The length of ribbon `i` where `len` cells are cut into ribbons of
/// `ribbon_len` cells: `ribbon_len`, or what is left for the last one.
pub open spec fn ribbon_size(len: int, ribbon_len: int, i: int) -> int {
    if (i + 1) * ribbon_len <= len {
        ribbon_len
    } else {
        len - i * ribbon_len
    }
}

/// Cuts `target` from index `start` on into ribbons of `ribbon_len` cells,
/// in order; the last one holds what is left. The ribbons are views of
/// `target`, not copies: once every ribbon has got its last value, with the
/// length it had, `target` holds those values side by side behind its first
/// `start` cells, which are left as they were.
pub fn generate_target_ribbons<'a>(target: &'a mut [u8], start: usize, ribbon_len: usize) -> (ribbons:
    Vec<&'a mut [u8]>)
    requires
        start <= old(target)@.len(),
        ribbon_len > 0,
    ensures
        (ribbons@.len() - 1) * ribbon_len < old(target)@.len() - start <= ribbons@.len()
            * ribbon_len,
        forall|i: int|
            0 <= i < ribbons@.len() ==> {
                &&& ribbons@[i]@.len() == ribbon_size(
                    old(target)@.len() - start,
                    ribbon_len as int,
                    i,
                )
                &&& ribbons@[i]@ == old(target)@.subrange(
                    start + i * ribbon_len,
                    start + i * ribbon_len + ribbons@[i]@.len(),
                )
            },
        (forall|i: int| 0 <= i < ribbons@.len() ==> final(ribbons@[i])@.len() == ribbons@[i]@.len())
            ==> {
            &&& final(target)@.len() == old(target)@.len()
            &&& forall|c: int| 0 <= c < start ==> final(target)@[c] == old(target)@[c]
            &&& forall|i: int|
                0 <= i < ribbons@.len() ==> final(ribbons@[i])@ == final(target)@.subrange(
                    start + i * ribbon_len,
                    start + i * ribbon_len + ribbons@[i]@.len(),
                )
        },
{
    let ghost len = target@.len() as int;
    let ghost before = target@;
    let ghost after = final(target)@;
    let (head, rest0) = target.split_at_mut(start);
    let mut rest: &mut [u8] = rest0;
    let mut ribbons: Vec<&mut [u8]> = Vec::new();
    proof {
        assert(0 * ribbon_len == 0) by (nonlinear_arith);
        assert(final(head)@ == head@);
        assert(final(rest)@.len() == rest@.len() ==> {
            &&& after.len() == len
            &&& final(rest)@ == after.subrange(start as int, len)
            &&& forall|c: int| 0 <= c < start ==> after[c] == before[c]
        }) by {
            if final(rest)@.len() == rest@.len() {
                assert(after.subrange(start as int, len) =~= final(rest)@);
                assert forall|c: int| 0 <= c < start implies after[c] == before[c] by {
                    assert(after[c] == final(head)@[c]);
                }
            }
        }
    }
    while rest.len() > 0
        invariant
            ribbon_len > 0,
            start <= len,
            before.len() == len,
            rest@.len() <= len - start,
            len - rest@.len() <= start + ribbons@.len() * ribbon_len,
            rest@.len() > 0 ==> len - rest@.len() == start + ribbons@.len() * ribbon_len,
            ribbons@.len() > 0 ==> start + (ribbons@.len() - 1) * ribbon_len < len - rest@.len(),
            rest@ == before.subrange(len - rest@.len(), len),
            forall|i: int|
                0 <= i < ribbons@.len() ==> {
                    &&& 0 < ribbons@[i]@.len() <= ribbon_len
                    &&& start + i * ribbon_len + ribbons@[i]@.len() <= len - rest@.len()
                    &&& ribbons@[i]@.len() < ribbon_len ==> start + i * ribbon_len
                        + ribbons@[i]@.len() == len
                    &&& ribbons@[i]@ == before.subrange(
                        start + i * ribbon_len,
                        start + i * ribbon_len + ribbons@[i]@.len(),
                    )
                },
            (final(rest)@.len() == rest@.len() && forall|i: int|
                0 <= i < ribbons@.len() ==> final(ribbons@[i])@.len() == ribbons@[i]@.len()) ==> {
                &&& after.len() == len
                &&& forall|c: int| 0 <= c < start ==> after[c] == before[c]
                &&& final(rest)@ == after.subrange(len - rest@.len(), len)
                &&& forall|i: int|
                    0 <= i < ribbons@.len() ==> final(ribbons@[i])@ == after.subrange(
                        start + i * ribbon_len,
                        start + i * ribbon_len + ribbons@[i]@.len(),
                    )
            },
        decreases rest@.len(),
    {
        let k: usize = if ribbon_len < rest.len() { ribbon_len } else { rest.len() };
        let whole = rest;
        let ghost pos = len - whole@.len();
        let ghost whole_final = final(whole)@;
        let (chunk, tail) = whole.split_at_mut(k);
        let ghost n = ribbons@.len() as int;
        let ghost old_ribbons = ribbons@;
        proof {
            assert((n + 1) * ribbon_len == n * ribbon_len + ribbon_len) by (nonlinear_arith);
            assert(chunk@ =~= before.subrange(pos, pos + k));
            assert(tail@ =~= before.subrange(pos + k, len));
        }
        ribbons.push(chunk);
        rest = tail;
        proof {
            assert forall|i: int| 0 <= i < ribbons@.len() implies {
                &&& 0 < ribbons@[i]@.len() <= ribbon_len
                &&& start + i * ribbon_len + ribbons@[i]@.len() <= len - rest@.len()
                &&& ribbons@[i]@.len() < ribbon_len ==> start + i * ribbon_len
                    + ribbons@[i]@.len() == len
                &&& ribbons@[i]@ == before.subrange(
                    start + i * ribbon_len,
                    start + i * ribbon_len + ribbons@[i]@.len(),
                )
            } by {
                if i < n {
                    assert(ribbons@[i] == old_ribbons[i]);
                }
            }
            assert((final(rest)@.len() == rest@.len() && forall|i: int|
                0 <= i < ribbons@.len() ==> final(ribbons@[i])@.len() == ribbons@[i]@.len()) ==> {
                &&& after.len() == len
                &&& forall|c: int| 0 <= c < start ==> after[c] == before[c]
                &&& final(rest)@ == after.subrange(len - rest@.len(), len)
                &&& forall|i: int|
                    0 <= i < ribbons@.len() ==> final(ribbons@[i])@ == after.subrange(
                        start + i * ribbon_len,
                        start + i * ribbon_len + ribbons@[i]@.len(),
                    )
            }) by {
            if final(rest)@.len() == rest@.len() && forall|i: int|
                0 <= i < ribbons@.len() ==> final(ribbons@[i])@.len() == ribbons@[i]@.len() {
                assert(final(ribbons@[n])@.len() == ribbons@[n]@.len());
                assert(whole_final == final(ribbons@[n])@ + final(rest)@);
                assert forall|i: int| 0 <= i < n implies final(old_ribbons[i])@.len()
                    == old_ribbons[i]@.len() by {
                    assert(ribbons@[i] == old_ribbons[i]);
                }
                assert(whole_final.len() == len - pos);
                assert(whole_final == after.subrange(pos, len));
                assert(final(ribbons@[n])@ =~= after.subrange(pos, pos + k));
                assert(final(rest)@ =~= after.subrange(pos + k, len)) by {
                    assert(final(rest)@.len() == len - pos - k);
                    assert forall|j: int| 0 <= j < len - pos - k implies final(rest)@[j]
                        == after[pos + k + j] by {
                        assert(whole_final[k + j] == final(rest)@[j]);
                        assert(whole_final[k + j] == after[pos + (k + j)]);
                    }
                }
                assert forall|i: int| 0 <= i < ribbons@.len() implies final(ribbons@[i])@
                    == after.subrange(
                    start + i * ribbon_len,
                    start + i * ribbon_len + ribbons@[i]@.len(),
                ) by {
                    if i < n {
                        assert(ribbons@[i] == old_ribbons[i]);
                    }
                }
            }
            }
        }
    }
    proof {
        assert forall|i: int| 0 <= i < ribbons@.len() implies ribbons@[i]@.len() == ribbon_size(
            len - start,
            ribbon_len as int,
            i,
        ) by {
            assert((i + 1) * ribbon_len == i * ribbon_len + ribbon_len) by (nonlinear_arith);
        }
        let n = ribbons@.len() as int;
        assert((n - 1) * ribbon_len == n * ribbon_len - ribbon_len) by (nonlinear_arith);
        assert(final(rest)@ == rest@);
    }
    ribbons
}

/// What the cell `c` holds, which held `before`, once a worker has written
/// the moves of the cells of `s` from `lo` up to but not including `hi`.
pub open spec fn worked_cell(w: int, s: Seq<u8>, before: u8, c: int, lo: int, hi: int) -> u8 {
    if s[c] != 0 {
        if lo <= c < hi {
            if destination(w, s, c) == c {
                s[c]
            } else {
                0
            }
        } else {
            before
        }
    } else {
        match arrival(w, s, c, lo, hi) {
            Some(a) => s[a],
            None => before,
        }
    }
}

/// The ribbon `t`, whose first cell is cell `base` of the grid, once a worker
/// has written the moves of the cells of `s` from `lo` up to but not
/// including `hi`.
pub open spec fn worked(w: int, s: Seq<u8>, t: Seq<u8>, base: int, lo: int, hi: int) -> Seq<u8> {
    Seq::new(t.len(), |k: int| worked_cell(w, s, t[k], base + k, lo, hi))
}

/// What a worker needs of a ribbon of `len` cells that starts at cell `base`:
/// it lies inside the grid and starts a row, it holds the half ribbon whose
/// particles the worker moves, and the row after that half unless the grid
/// ends there.
pub open spec fn ribbon_fits(cfg: &Config, len: int, base: int) -> bool {
    &&& cfg.wf()
    &&& cfg.cols() > 0
    &&& 0 <= base
    &&& base % cfg.cols() == 0
    &&& cfg.half() % cfg.cols() == 0
    &&& cfg.half() <= len
    &&& base + len <= cfg.cells()
    &&& base + cfg.half() < cfg.cells() ==> cfg.half() + cfg.cols() <= len
}

/// The work of worker `i` in the phase that starts at cell `offset`: moves
/// the particles of the first half of its ribbon `target`, from the last
/// cell to the first, reading `source` and writing `target` only.
pub fn propagate_ribbon(cfg: &Config, source: &[u8], target: &mut [u8], i: usize, offset: usize)
    requires
        source@.len() == cfg.cells(),
        ribbon_fits(cfg, old(target)@.len() as int, i * cfg.ribbon() + offset),
    ensures
        final(target)@ == worked(
            cfg.cols(),
            source@,
            old(target)@,
            i * cfg.ribbon() + offset,
            i * cfg.ribbon() + offset,
            i * cfg.ribbon() + offset + cfg.half(),
        ),
{
    let ribbon_len = cfg.ribbon_len();
    let half: usize = ribbon_len / 2;
    let ghost w = cfg.cols();
    let ghost base = i * cfg.ribbon() + offset;
    let ghost before = target@;
    let mut j: usize = half;
    assert(target@ =~= worked(w, source@, before, base, base + j, base + half));
    while j > 0
        invariant
            source@.len() == cfg.cells(),
            ribbon_fits(cfg, before.len() as int, base),
            target@.len() == before.len(),
            ribbon_len == cfg.ribbon(),
            half == cfg.half(),
            w == cfg.cols(),
            base == i * cfg.ribbon() + offset,
            j <= half,
            target@ == worked(w, source@, before, base, base + j, base + half),
        decreases j,
    {
        j -= 1;
        let ghost t0 = target@;
        proof {
            assert(i * ribbon_len == i * cfg.ribbon());
            assert(0 <= i * cfg.ribbon()) by (nonlinear_arith)
                requires
                    0 <= i,
                    0 <= cfg.ribbon(),
            ;
            lemma_same_column(w, base, j as int);
            lemma_row_in_half(w, half as int, j as int);
            if j + w < half {
                crate::rule::lemma_next_row_inside(w, half as int, j as int);
            }
            crate::rule::lemma_cells_are_whole_rows(cfg);
            crate::rule::lemma_row_above_last(w, cfg.rows(), base + j);
        }
        let real_index = i * ribbon_len + j + offset;
        next_pixel(cfg, source, target, j, real_index);
        proof {
            lemma_step_worked(w, source@, before, t0, base, j as int, base + half);
        }
    }
}

/// Cell `base + j` is in the column of index `j` where `base` starts a row.
pub proof fn lemma_same_column(w: int, base: int, j: int)
    requires
        0 < w,
        0 <= base,
        0 <= j,
        base % w == 0,
    ensures
        (base + j) % w == j % w,
        0 <= j % w <= j,
{
    vstd::arithmetic::div_mod::lemma_mod_decreases(j as nat, w as nat);
    lemma_fundamental_div_mod(base, w);
    lemma_fundamental_div_mod(j, w);
    assert(base + j == w * (base / w + j / w) + j % w) by (nonlinear_arith)
        requires
            base == w * (base / w) + base % w,
            j == w * (j / w) + j % w,
            base % w == 0,
    ;
    assert(0 <= base / w + j / w) by (nonlinear_arith)
        requires
            0 <= base,
            0 <= j,
            0 < w,
    ;
    lemma_fundamental_div_mod_converse(base + j, w, base / w + j / w, j % w);
}

/// An index below `half`, a number of whole rows, has its whole row below
/// `half`.
pub proof fn lemma_row_in_half(w: int, half: int, j: int)
    requires
        0 < w,
        0 <= j < half,
        half % w == 0,
    ensures
        j - j % w + w <= half,
{
    lemma_fundamental_div_mod(j, w);
    lemma_fundamental_div_mod(half, w);
    let q = j / w;
    let h = half / w;
    assert(q + 1 <= h) by (nonlinear_arith)
        requires
            j == w * q + j % w,
            half == w * h,
            0 <= j % w < w,
            j < half,
            0 < w,
    ;
    assert(w * (q + 1) <= w * h) by (nonlinear_arith)
        requires
            q + 1 <= h,
            0 < w,
    ;
    assert(w * (q + 1) == w * q + w) by (nonlinear_arith);
}

/// Writing the move of cell `base + j` to a ribbon that holds the moves of
/// the cells after it gives the ribbon that holds the moves from that cell on.
pub proof fn lemma_step_worked(
    w: int,
    s: Seq<u8>,
    before: Seq<u8>,
    t: Seq<u8>,
    base: int,
    j: int,
    hi: int,
)
    requires
        0 < w,
        0 <= base,
        0 <= j < before.len(),
        base + j < hi,
        base + before.len() <= s.len(),
        base + j + w < s.len() ==> j - (base + j) % w + 2 * w <= before.len(),
        0 <= (base + j) % w <= j,
        t == worked(w, s, before, base, base + j + 1, hi),
    ensures
        after_pixel(w, s, t, j, base + j) == worked(w, s, before, base, base + j, hi),
{
    let c0 = base + j;
    let d = destination(w, s, c0);
    let a = after_pixel(w, s, t, j, c0);
    let r = worked(w, s, before, base, base + j, hi);
    assert(a.len() == r.len());
    assert forall|k: int| 0 <= k < before.len() implies a[k] == r[k] by {
        let c = base + k;
        assert(t[k] == worked_cell(w, s, before[k], c, c0 + 1, hi));
        assert(r[k] == worked_cell(w, s, before[k], c, c0, hi));
    }
    assert(a =~= r);
}

/// Runs the workers of one phase, each in a thread of its own, and returns
/// when all of them are done.
///
/// This is `crossbeam::scope` with one `Scope::spawn` for each ribbon, in
/// order, so that worker `i` gets ribbon `i`. The contract rests on what
/// crossbeam promises of a scope: every thread spawned in it has run to its
/// end before `scope` returns. Each thread makes one call of
/// [`propagate_ribbon`], so each ribbon ends as that function leaves it. A
/// thread that the system cannot start makes `spawn` panic.
#[verifier::external_body]
pub(crate) fn run_workers(cfg: &Config, source: &[u8], ribbons: Vec<&mut [u8]>, offset: usize)
    requires
        source@.len() == cfg.cells(),
        forall|i: int|
            0 <= i < ribbons@.len() ==> ribbon_fits(
                cfg,
                ribbons@[i]@.len() as int,
                i * cfg.ribbon() + offset,
            ),
    ensures
        forall|i: int|
            0 <= i < ribbons@.len() ==> final(ribbons@[i])@ == worked(
                cfg.cols(),
                source@,
                ribbons@[i]@,
                i * cfg.ribbon() + offset,
                i * cfg.ribbon() + offset,
                i * cfg.ribbon() + offset + cfg.half(),
            ),
{
    crossbeam::scope(|s| {
        for (i, ribbon) in ribbons.into_iter().enumerate() {
            s.spawn(move |_| propagate_ribbon(cfg, source, ribbon, i, offset));
        }
    }).unwrap();
}

} // verus!
