//! CAVLC slices on grids that cannot be told apart.

use super::super::cavlc::block;
use super::super::grids::{block_at, scan_of, GridsV, Seg};
use super::super::mb_cavlc::{
    cbp16, chroma_blocks, chroma_dc, chroma_residual, coded_residual, intra, luma_blocks,
    luma_quadrants, macroblock, mvd, p_8x8, p_inter, p_motion, p_skip, p_tall, p_whole, p_wide,
    partition, pred_modes, quadrant, quadrants, ref_idx, residual, residual16, skips, slice_from,
    sub_part, sub_refs, sub_types, GOLOMB_TO_INTER_CBP, GOLOMB_TO_INTRA_CBP,
};
use super::super::params::{Pps, SliceHeader, SliceType};
use super::relation::{
    alike, alike0, covered, lemma_around, lemma_counts, lemma_counts_c, lemma_dims, lemma_fill,
    lemma_fill_mb, lemma_full_ready, lemma_intra_l0, lemma_less, lemma_pred_skip, lemma_pred_tall,
    lemma_pred_wide, lemma_put_decoded, lemma_put_intra, lemma_put_mb_nnz, lemma_put_mb_nnz_c,
    lemma_put_nnz, lemma_put_nnz_c, lemma_put_shown, lemma_put_slice, lemma_refill, plain, whole,
    Kind,
};
use crate::bits::Bits;
use crate::motion::{mv_sum, zero_mv, Mv};
use vstd::prelude::*;

verus! {

// ---------------------------------------------------------------------------
// Residual

proof fn lemma_luma_blocks(
    a: GridsV,
    b: GridsV,
    k: Kind,
    s: Set<int>,
    r: Bits,
    mb: int,
    sid: i32,
    idx: int,
    end: int,
    max: int,
)
    requires
        alike(a, b, k, mb, s),
    ensures
        ({
            let x = luma_blocks(a, r, mb, sid, idx, end, max);
            let y = luma_blocks(b, r, mb, sid, idx, end, max);
            x.0 == y.0 && x.2 == y.2 && alike(x.1, y.1, k, mb, s)
        }),
    decreases end - idx,
{
    if idx < end {
        let (x, y) = block_at(idx);
        lemma_counts(a, b, k, mb, s, x, y, sid);
        let (count, r1) = block(r, a.nnz_pred(mb, x, y, sid), max);
        if let Some(n) = count {
            lemma_put_nnz(a, b, k, mb, s, x, y, 1, 1, n as u8);
            lemma_luma_blocks(
                a.put_nnz(mb, x, y, 1, 1, n as u8),
                b.put_nnz(mb, x, y, 1, 1, n as u8),
                k,
                s,
                r1,
                mb,
                sid,
                idx + 1,
                end,
                max,
            );
        }
    }
}

proof fn lemma_luma_quadrants(
    a: GridsV,
    b: GridsV,
    k: Kind,
    s: Set<int>,
    r: Bits,
    mb: int,
    sid: i32,
    cbp: u32,
    q: int,
)
    requires
        alike(a, b, k, mb, s),
    ensures
        ({
            let x = luma_quadrants(a, r, mb, sid, cbp, q);
            let y = luma_quadrants(b, r, mb, sid, cbp, q);
            x.0 == y.0 && x.2 == y.2 && alike(x.1, y.1, k, mb, s)
        }),
    decreases 4 - q,
{
    if q < 4 {
        if cbp & (1u32 << (q as u32)) != 0 {
            lemma_luma_blocks(a, b, k, s, r, mb, sid, 4 * q, 4 * q + 4, 16);
            let x = luma_blocks(a, r, mb, sid, 4 * q, 4 * q + 4, 16);
            let y = luma_blocks(b, r, mb, sid, 4 * q, 4 * q + 4, 16);
            if x.0 {
                lemma_luma_quadrants(x.1, y.1, k, s, x.2, mb, sid, cbp, q + 1);
            }
        } else {
            lemma_put_nnz(a, b, k, mb, s, q % 2 * 2, q / 2 * 2, 2, 2, 0);
            lemma_luma_quadrants(
                a.put_nnz(mb, q % 2 * 2, q / 2 * 2, 2, 2, 0),
                b.put_nnz(mb, q % 2 * 2, q / 2 * 2, 2, 2, 0),
                k,
                s,
                r,
                mb,
                sid,
                cbp,
                q + 1,
            );
        }
    }
}

proof fn lemma_chroma_blocks(
    a: GridsV,
    b: GridsV,
    k: Kind,
    s: Set<int>,
    r: Bits,
    c: int,
    mb: int,
    sid: i32,
    i: int,
)
    requires
        alike(a, b, k, mb, s),
    ensures
        ({
            let x = chroma_blocks(a, r, c, mb, sid, i);
            let y = chroma_blocks(b, r, c, mb, sid, i);
            x.0 == y.0 && x.2 == y.2 && alike(x.1, y.1, k, mb, s)
        }),
    decreases 8 - i,
{
    lemma_dims(a, b, k, mb, s);
    if !(i >= 2 * a.cvb || i >= 8) {
        lemma_counts_c(a, b, k, mb, s, c, i % 2, i / 2, sid);
        let (count, r1) = block(r, a.nnz_pred_c(c, mb, i % 2, i / 2, sid), 15);
        if let Some(n) = count {
            lemma_put_nnz_c(a, b, k, s, c, mb, i % 2, i / 2, 1, 1, n as u8);
            lemma_chroma_blocks(
                a.put_nnz_c(c, mb, i % 2, i / 2, 1, 1, n as u8),
                b.put_nnz_c(c, mb, i % 2, i / 2, 1, 1, n as u8),
                k,
                s,
                r1,
                c,
                mb,
                sid,
                i + 1,
            );
        }
    }
}

proof fn lemma_chroma_residual(
    a: GridsV,
    b: GridsV,
    k: Kind,
    s: Set<int>,
    r: Bits,
    mb: int,
    sid: i32,
    cbp: u32,
)
    requires
        alike(a, b, k, mb, s),
    ensures
        ({
            let x = chroma_residual(a, r, mb, sid, cbp);
            let y = chroma_residual(b, r, mb, sid, cbp);
            x.0 == y.0 && x.2 == y.2 && alike(x.1, y.1, k, mb, s)
        }),
{
    reveal(chroma_residual);
    lemma_dims(a, b, k, mb, s);
    let (ok, r) = if cbp & 0x30 != 0 {
        chroma_dc(r, a.cvb)
    } else {
        (true, r)
    };
    if ok {
        if cbp & 0x20 != 0 {
            lemma_chroma_blocks(a, b, k, s, r, 0, mb, sid, 0);
            let x = chroma_blocks(a, r, 0, mb, sid, 0);
            let y = chroma_blocks(b, r, 0, mb, sid, 0);
            if x.0 {
                lemma_chroma_blocks(x.1, y.1, k, s, x.2, 1, mb, sid, 0);
            }
        } else {
            lemma_put_mb_nnz_c(a, b, k, mb, s, 0);
        }
    }
}

proof fn lemma_residual16(
    a: GridsV,
    b: GridsV,
    k: Kind,
    s: Set<int>,
    r: Bits,
    mb: int,
    sid: i32,
    cbp: u32,
)
    requires
        alike(a, b, k, mb, s),
    ensures
        ({
            let x = residual16(a, r, mb, sid, cbp);
            let y = residual16(b, r, mb, sid, cbp);
            x.0 == y.0 && x.2 == y.2 && alike(x.1, y.1, k, mb, s)
        }),
{
    reveal(residual16);
    lemma_counts(a, b, k, mb, s, 0, 0, sid);
    let (dc, r) = block(r, a.nnz_pred(mb, 0, 0, sid), 16);
    if dc is Some {
        if cbp & 15 != 0 {
            lemma_luma_blocks(a, b, k, s, r, mb, sid, 0, 16, 15);
            let x = luma_blocks(a, r, mb, sid, 0, 16, 15);
            let y = luma_blocks(b, r, mb, sid, 0, 16, 15);
            if x.0 {
                lemma_chroma_residual(x.1, y.1, k, s, x.2, mb, sid, cbp);
            }
        } else {
            lemma_put_nnz(a, b, k, mb, s, 0, 0, 4, 4, 0);
            lemma_chroma_residual(
                a.put_nnz(mb, 0, 0, 4, 4, 0),
                b.put_nnz(mb, 0, 0, 4, 4, 0),
                k,
                s,
                r,
                mb,
                sid,
                cbp,
            );
        }
    }
}

proof fn lemma_coded_residual(
    a: GridsV,
    b: GridsV,
    k: Kind,
    s: Set<int>,
    r: Bits,
    mb: int,
    sid: i32,
    cbp: u32,
)
    requires
        alike(a, b, k, mb, s),
    ensures
        ({
            let x = coded_residual(a, r, mb, sid, cbp);
            let y = coded_residual(b, r, mb, sid, cbp);
            x.0 == y.0 && x.2 == y.2 && alike(x.1, y.1, k, mb, s)
        }),
{
    reveal(coded_residual);
    reveal(residual);
    if cbp != 0 {
        let r = r.se().1;
        lemma_luma_quadrants(a, b, k, s, r, mb, sid, cbp, 0);
        let x = luma_quadrants(a, r, mb, sid, cbp, 0);
        let y = luma_quadrants(b, r, mb, sid, cbp, 0);
        if x.0 {
            lemma_chroma_residual(x.1, y.1, k, s, x.2, mb, sid, cbp);
        }
    } else {
        lemma_put_mb_nnz(a, b, k, mb, s, 0);
    }
}

// ---------------------------------------------------------------------------
// Macroblocks

proof fn lemma_intra(
    a: GridsV,
    b: GridsV,
    k: Kind,
    s: Set<int>,
    r: Bits,
    mb: int,
    sid: i32,
    t: u32,
    pps: Pps,
)
    requires
        alike(a, b, k, mb, s),
    ensures
        ({
            let x = intra(a, r, mb, sid, t, pps);
            let y = intra(b, r, mb, sid, t, pps);
            x.0 == y.0 && x.2 == y.2 && alike(x.1, y.1, k, mb, s)
        }),
{
    reveal(intra);
    lemma_put_mb_nnz(a, b, k, mb, s, 16);
    if t == 0 {
        let (big, r) = if pps.transform_8x8_mode_flag {
            r.flag()
        } else {
            (false, r)
        };
        let r = pred_modes(
            r,
            0,
            if big {
                4
            } else {
                1
            },
        );
        let (_, r) = r.ue();
        let (code, r) = r.ue();
        if code < 48 {
            lemma_coded_residual(
                a,
                b,
                k,
                s,
                r,
                mb,
                sid,
                GOLOMB_TO_INTRA_CBP[code as int] as u32,
            );
        }
    } else {
        lemma_residual16(a, b, k, s, r.ue().1.se().1, mb, sid, cbp16(t));
    }
}

pub proof fn lemma_p_skip(a: GridsV, b: GridsV, k: Kind, mb: int, sid: i32)
    requires
        k.b is None,
        k.used.contains(sid),
        alike0(a, b, k),
        0 <= mb < k.mbs(),
    ensures
        alike0(p_skip(a, mb, sid), p_skip(b, mb, sid), k),
{
    reveal(p_skip);
    let none = Set::<int>::empty();
    lemma_less(a, b, k, -1, none, mb, none);
    lemma_put_slice(a, b, k, mb, none, sid);
    let a1 = a.put_slice(mb, sid);
    let b1 = b.put_slice(mb, sid);
    lemma_pred_skip(a1, b1, k, mb, none, sid);
    let v = a1.pred_skip(mb, sid);
    lemma_fill_mb(a1, b1, k, mb, none, v, 0);
    let a2 = a1.fill(0, mb, 0, 0, 4, 4, v, 0);
    let b2 = b1.fill(0, mb, 0, 0, 4, 4, v, 0);
    lemma_put_shown(a2, b2, k, mb, whole(), Seg::Skip);
    lemma_less(
        a2.put_seg(mb, Seg::Skip).put_decoded(mb),
        b2.put_seg(mb, Seg::Skip).put_decoded(mb),
        k,
        mb,
        whole(),
        -1,
        none,
    );
}

proof fn lemma_partition(
    a: GridsV,
    b: GridsV,
    k: Kind,
    r: Bits,
    mb: int,
    bx: int,
    by: int,
    w: int,
    h: int,
    refi: i32,
    pred: Mv,
)
    requires
        alike(a, b, k, mb, whole()),
        0 <= mb < k.mbs(),
        0 <= bx,
        0 <= by,
        0 <= w,
        0 <= h,
        bx + w <= 4,
        by + h <= 4,
    ensures
        ({
            let x = partition(a, r, mb, bx, by, w, h, refi, pred);
            let y = partition(b, r, mb, bx, by, w, h, refi, pred);
            x.1 == y.1 && alike(x.0, y.0, k, mb, whole())
        }),
{
    reveal(partition);
    let (d, _) = mvd(r);
    lemma_refill(a, b, k, mb, whole(), 0, bx, by, w, h, mv_sum(pred, d), refi);
}

proof fn lemma_p_whole(a: GridsV, b: GridsV, k: Kind, r: Bits, mb: int, sid: i32, n0: u32)
    requires
        alike(a, b, k, mb, Set::empty()),
        0 <= mb < k.mbs(),
    ensures
        ({
            let x = p_whole(a, r, mb, sid, n0);
            let y = p_whole(b, r, mb, sid, n0);
            x.1 == y.1 && alike(x.0, y.0, k, mb, whole())
        }),
{
    reveal(p_whole);
    let (refi, r) = ref_idx(r, n0);
    lemma_fill_mb(a, b, k, mb, Set::empty(), zero_mv(), refi);
    let a1 = a.fill(0, mb, 0, 0, 4, 4, zero_mv(), refi);
    let b1 = b.fill(0, mb, 0, 0, 4, 4, zero_mv(), refi);
    lemma_full_ready(whole(), 0, scan_of(0, 0));
    lemma_around(a1, b1, k, whole(), 0, mb, 0, 0, 4, sid);
    lemma_partition(
        a1,
        b1,
        k,
        r,
        mb,
        0,
        0,
        4,
        4,
        refi,
        b1.pred(0, mb, 0, 0, 4, refi, sid),
    );
}

/// Both halves of a macroblock stored in both.
pub proof fn lemma_fill_halves(
    a: GridsV,
    b: GridsV,
    k: Kind,
    mb: int,
    wide: bool,
    r0: i32,
    r1: i32,
)
    requires
        alike(a, b, k, mb, Set::empty()),
        0 <= mb < k.mbs(),
    ensures
        ({
            let (x, y, w, h): (int, int, int, int) = if wide {
                (0, 2, 4, 2)
            } else {
                (2, 0, 2, 4)
            };
            let a1 = a.fill(0, mb, 0, 0, w, h, zero_mv(), r0);
            let b1 = b.fill(0, mb, 0, 0, w, h, zero_mv(), r0);
            let a2 = a1.fill(0, mb, x, y, w, h, zero_mv(), r1);
            let b2 = b1.fill(0, mb, x, y, w, h, zero_mv(), r1);
            &&& alike(a1, b1, k, mb, covered(0, 0, w, h))
            &&& alike(a2, b2, k, mb, whole())
        }),
{
    let (x, y, w, h): (int, int, int, int) = if wide {
        (0, 2, 4, 2)
    } else {
        (2, 0, 2, 4)
    };
    let none = Set::<int>::empty();
    let s = covered(0, 0, w, h);
    lemma_fill(a, b, k, mb, none, 0, 0, 0, w, h, zero_mv(), r0);
    assert(none.union(s) =~= s);
    let a1 = a.fill(0, mb, 0, 0, w, h, zero_mv(), r0);
    let b1 = b.fill(0, mb, 0, 0, w, h, zero_mv(), r0);
    lemma_fill(a1, b1, k, mb, s, 0, x, y, w, h, zero_mv(), r1);
    assert(s.union(covered(x, y, w, h)) =~= whole());
}

proof fn lemma_p_wide(a: GridsV, b: GridsV, k: Kind, r: Bits, mb: int, sid: i32, n0: u32)
    requires
        alike(a, b, k, mb, Set::empty()),
        0 <= mb < k.mbs(),
    ensures
        ({
            let x = p_wide(a, r, mb, sid, n0);
            let y = p_wide(b, r, mb, sid, n0);
            x.1 == y.1 && alike(x.0, y.0, k, mb, whole())
        }),
{
    reveal(p_wide);
    let (r0, r) = ref_idx(r, n0);
    let (r1, r) = ref_idx(r, n0);
    lemma_fill_halves(a, b, k, mb, true, r0, r1);
    let a1 = a.fill(0, mb, 0, 0, 4, 2, zero_mv(), r0).fill(0, mb, 0, 2, 4, 2, zero_mv(), r1);
    let b1 = b.fill(0, mb, 0, 0, 4, 2, zero_mv(), r0).fill(0, mb, 0, 2, 4, 2, zero_mv(), r1);
    lemma_pred_wide(a1, b1, k, whole(), 0, mb, 0, r0, sid);
    let p0 = a1.pred_wide(0, mb, 0, r0, sid);
    lemma_partition(a1, b1, k, r, mb, 0, 0, 4, 2, r0, p0);
    let x = partition(a1, r, mb, 0, 0, 4, 2, r0, p0);
    let y = partition(b1, r, mb, 0, 0, 4, 2, r0, p0);
    lemma_pred_wide(x.0, y.0, k, whole(), 0, mb, 1, r1, sid);
    lemma_partition(x.0, y.0, k, x.1, mb, 0, 2, 4, 2, r1, x.0.pred_wide(0, mb, 1, r1, sid));
}

proof fn lemma_p_tall(a: GridsV, b: GridsV, k: Kind, r: Bits, mb: int, sid: i32, n0: u32)
    requires
        alike(a, b, k, mb, Set::empty()),
        0 <= mb < k.mbs(),
    ensures
        ({
            let x = p_tall(a, r, mb, sid, n0);
            let y = p_tall(b, r, mb, sid, n0);
            x.1 == y.1 && alike(x.0, y.0, k, mb, whole())
        }),
{
    reveal(p_tall);
    let (r0, r) = ref_idx(r, n0);
    let (r1, r) = ref_idx(r, n0);
    lemma_fill_halves(a, b, k, mb, false, r0, r1);
    let a1 = a.fill(0, mb, 0, 0, 2, 4, zero_mv(), r0).fill(0, mb, 2, 0, 2, 4, zero_mv(), r1);
    let b1 = b.fill(0, mb, 0, 0, 2, 4, zero_mv(), r0).fill(0, mb, 2, 0, 2, 4, zero_mv(), r1);
    lemma_pred_tall(a1, b1, k, whole(), 0, mb, 0, r0, sid);
    let p0 = a1.pred_tall(0, mb, 0, r0, sid);
    lemma_partition(a1, b1, k, r, mb, 0, 0, 2, 4, r0, p0);
    let x = partition(a1, r, mb, 0, 0, 2, 4, r0, p0);
    let y = partition(b1, r, mb, 0, 0, 2, 4, r0, p0);
    lemma_pred_tall(x.0, y.0, k, whole(), 0, mb, 1, r1, sid);
    lemma_partition(x.0, y.0, k, x.1, mb, 2, 0, 2, 4, r1, x.0.pred_tall(0, mb, 1, r1, sid));
}

/// Quadrants `0..i`.
pub open spec fn first(i: int) -> Set<int> {
    Set::new(|q: int| 0 <= q < i)
}

/// One more quadrant stored in both.
pub proof fn lemma_fill_next(a: GridsV, b: GridsV, k: Kind, mb: int, i: int, refi: i32)
    requires
        alike(a, b, k, mb, first(i)),
        0 <= mb < k.mbs(),
        0 <= i < 4,
    ensures
        ({
            let a1 = a.fill(0, mb, i % 2 * 2, i / 2 * 2, 2, 2, zero_mv(), refi);
            let b1 = b.fill(0, mb, i % 2 * 2, i / 2 * 2, 2, 2, zero_mv(), refi);
            alike(a1, b1, k, mb, first(i + 1))
        }),
{
    let (x, y) = (i % 2 * 2, i / 2 * 2);
    lemma_fill(a, b, k, mb, first(i), 0, x, y, 2, 2, zero_mv(), refi);
    assert(covered(x, y, 2, 2).contains(i));
    lemma_less(
        a.fill(0, mb, x, y, 2, 2, zero_mv(), refi),
        b.fill(0, mb, x, y, 2, 2, zero_mv(), refi),
        k,
        mb,
        first(i).union(covered(x, y, 2, 2)),
        mb,
        first(i + 1),
    );
}

proof fn lemma_sub_refs(
    a: GridsV,
    b: GridsV,
    k: Kind,
    r: Bits,
    mb: int,
    n0: u32,
    ref0: bool,
    refs: Seq<i32>,
    i: int,
)
    requires
        alike(a, b, k, mb, first(i)),
        0 <= mb < k.mbs(),
        0 <= i <= 4,
    ensures
        ({
            let x = sub_refs(a, r, mb, n0, ref0, refs, i);
            let y = sub_refs(b, r, mb, n0, ref0, refs, i);
            x.0 == y.0 && x.2 == y.2 && alike(x.1, y.1, k, mb, whole())
        }),
    decreases 4 - i,
{
    if i >= 4 {
        assert(first(i) =~= whole());
    } else {
        let (refi, r) = if ref0 {
            (0i32, r)
        } else {
            ref_idx(r, n0)
        };
        lemma_fill_next(a, b, k, mb, i, refi);
        lemma_sub_refs(
            a.fill(0, mb, i % 2 * 2, i / 2 * 2, 2, 2, zero_mv(), refi),
            b.fill(0, mb, i % 2 * 2, i / 2 * 2, 2, 2, zero_mv(), refi),
            k,
            r,
            mb,
            n0,
            ref0,
            refs.push(refi),
            i + 1,
        );
    }
}

proof fn lemma_sub_part(
    a: GridsV,
    b: GridsV,
    k: Kind,
    r: Bits,
    mb: int,
    sid: i32,
    bx: int,
    by: int,
    w: int,
    h: int,
    refi: i32,
)
    requires
        alike(a, b, k, mb, whole()),
        0 <= mb < k.mbs(),
        0 <= bx,
        0 <= by,
        0 <= w,
        0 <= h,
        bx + w <= 4,
        by + h <= 4,
    ensures
        ({
            let x = sub_part(a, r, mb, sid, bx, by, w, h, refi);
            let y = sub_part(b, r, mb, sid, bx, by, w, h, refi);
            x.1 == y.1 && alike(x.0, y.0, k, mb, whole())
        }),
{
    reveal(sub_part);
    lemma_full_ready(whole(), 0, scan_of(bx, by));
    lemma_around(a, b, k, whole(), 0, mb, bx, by, w, sid);
    lemma_partition(
        a,
        b,
        k,
        r,
        mb,
        bx,
        by,
        w,
        h,
        refi,
        b.pred(0, mb, bx, by, w, refi, sid),
    );
}

proof fn lemma_quadrant(
    a: GridsV,
    b: GridsV,
    k: Kind,
    r: Bits,
    mb: int,
    sid: i32,
    x: int,
    y: int,
    t: u32,
    refi: i32,
)
    requires
        alike(a, b, k, mb, whole()),
        0 <= mb < k.mbs(),
        0 <= x <= 2,
        0 <= y <= 2,
    ensures
        ({
            let p = quadrant(a, r, mb, sid, x, y, t, refi);
            let q = quadrant(b, r, mb, sid, x, y, t, refi);
            p.1 == q.1 && alike(p.0, q.0, k, mb, whole())
        }),
{
    reveal(quadrant);
    if t == 0 {
        lemma_sub_part(a, b, k, r, mb, sid, x, y, 2, 2, refi);
    } else if t == 1 {
        lemma_sub_part(a, b, k, r, mb, sid, x, y, 2, 1, refi);
        let p = sub_part(a, r, mb, sid, x, y, 2, 1, refi);
        let q = sub_part(b, r, mb, sid, x, y, 2, 1, refi);
        lemma_sub_part(p.0, q.0, k, p.1, mb, sid, x, y + 1, 2, 1, refi);
    } else if t == 2 {
        lemma_sub_part(a, b, k, r, mb, sid, x, y, 1, 2, refi);
        let p = sub_part(a, r, mb, sid, x, y, 1, 2, refi);
        let q = sub_part(b, r, mb, sid, x, y, 1, 2, refi);
        lemma_sub_part(p.0, q.0, k, p.1, mb, sid, x + 1, y, 1, 2, refi);
    } else {
        lemma_sub_part(a, b, k, r, mb, sid, x, y, 1, 1, refi);
        let p = sub_part(a, r, mb, sid, x, y, 1, 1, refi);
        let q = sub_part(b, r, mb, sid, x, y, 1, 1, refi);
        lemma_sub_part(p.0, q.0, k, p.1, mb, sid, x + 1, y, 1, 1, refi);
        let p1 = sub_part(p.0, p.1, mb, sid, x + 1, y, 1, 1, refi);
        let q1 = sub_part(q.0, q.1, mb, sid, x + 1, y, 1, 1, refi);
        lemma_sub_part(p1.0, q1.0, k, p1.1, mb, sid, x, y + 1, 1, 1, refi);
        let p2 = sub_part(p1.0, p1.1, mb, sid, x, y + 1, 1, 1, refi);
        let q2 = sub_part(q1.0, q1.1, mb, sid, x, y + 1, 1, 1, refi);
        lemma_sub_part(p2.0, q2.0, k, p2.1, mb, sid, x + 1, y + 1, 1, 1, refi);
    }
}

proof fn lemma_quadrants(
    a: GridsV,
    b: GridsV,
    k: Kind,
    r: Bits,
    mb: int,
    sid: i32,
    types: Seq<u32>,
    refs: Seq<i32>,
    i: int,
)
    requires
        alike(a, b, k, mb, whole()),
        0 <= mb < k.mbs(),
        0 <= i <= 4,
    ensures
        ({
            let x = quadrants(a, r, mb, sid, types, refs, i);
            let y = quadrants(b, r, mb, sid, types, refs, i);
            x.1 == y.1 && alike(x.0, y.0, k, mb, whole())
        }),
    decreases 4 - i,
{
    if i < 4 {
        lemma_quadrant(a, b, k, r, mb, sid, i % 2 * 2, i / 2 * 2, types[i], refs[i]);
        let x = quadrant(a, r, mb, sid, i % 2 * 2, i / 2 * 2, types[i], refs[i]);
        let y = quadrant(b, r, mb, sid, i % 2 * 2, i / 2 * 2, types[i], refs[i]);
        lemma_quadrants(x.0, y.0, k, x.1, mb, sid, types, refs, i + 1);
    }
}

proof fn lemma_p_8x8(
    a: GridsV,
    b: GridsV,
    k: Kind,
    r: Bits,
    mb: int,
    sid: i32,
    n0: u32,
    ref0: bool,
)
    requires
        alike(a, b, k, mb, Set::empty()),
        0 <= mb < k.mbs(),
    ensures
        ({
            let x = p_8x8(a, r, mb, sid, n0, ref0);
            let y = p_8x8(b, r, mb, sid, n0, ref0);
            &&& x.0 == y.0
            &&& x.2 == y.2
            &&& x.0 ==> alike(x.1, y.1, k, mb, whole())
            &&& alike(x.1, y.1, k, mb, Set::empty())
        }),
{
    reveal(p_8x8);
    let (types, r) = sub_types(r, Seq::empty(), 0);
    if let Some(types) = types {
        assert(first(0) =~= Set::empty());
        lemma_sub_refs(a, b, k, r, mb, n0, ref0, Seq::empty(), 0);
        let x = sub_refs(a, r, mb, n0, ref0, Seq::empty(), 0);
        let y = sub_refs(b, r, mb, n0, ref0, Seq::empty(), 0);
        lemma_quadrants(x.1, y.1, k, x.2, mb, sid, types, x.0, 0);
        let p = quadrants(x.1, x.2, mb, sid, types, x.0, 0);
        let q = quadrants(y.1, x.2, mb, sid, types, x.0, 0);
        lemma_less(p.0, q.0, k, mb, whole(), mb, Set::empty());
    }
}

proof fn lemma_p_motion(
    a: GridsV,
    b: GridsV,
    k: Kind,
    r: Bits,
    mb: int,
    sid: i32,
    n0: u32,
    t: u32,
)
    requires
        alike(a, b, k, mb, Set::empty()),
        0 <= mb < k.mbs(),
    ensures
        ({
            let x = p_motion(a, r, mb, sid, n0, t);
            let y = p_motion(b, r, mb, sid, n0, t);
            &&& x.0 == y.0
            &&& x.2 == y.2
            &&& x.0 is Some ==> plain(x.0->0) && alike(x.1, y.1, k, mb, whole())
            &&& x.0 is None ==> alike(x.1, y.1, k, mb, Set::empty())
        }),
{
    reveal(p_motion);
    if t == 0 {
        lemma_p_whole(a, b, k, r, mb, sid, n0);
    } else if t == 1 {
        lemma_p_wide(a, b, k, r, mb, sid, n0);
    } else if t == 2 {
        lemma_p_tall(a, b, k, r, mb, sid, n0);
    } else {
        lemma_p_8x8(a, b, k, r, mb, sid, n0, t == 4);
    }
}

proof fn lemma_p_inter(
    a: GridsV,
    b: GridsV,
    k: Kind,
    r: Bits,
    mb: int,
    sid: i32,
    n0: u32,
    t: u32,
    pps: Pps,
)
    requires
        k.b is None,
        alike(a, b, k, mb, Set::empty()),
        0 <= mb < k.mbs(),
    ensures
        ({
            let x = p_inter(a, r, mb, sid, n0, t, pps);
            let y = p_inter(b, r, mb, sid, n0, t, pps);
            x.0 == y.0 && x.2 == y.2 && alike0(x.1, y.1, k)
        }),
{
    reveal(p_inter);
    let none = Set::<int>::empty();
    lemma_p_motion(a, b, k, r, mb, sid, n0, t);
    let x = p_motion(a, r, mb, sid, n0, t);
    let y = p_motion(b, r, mb, sid, n0, t);
    match x.0 {
        None => {
            lemma_less(x.1, y.1, k, mb, none, -1, none);
        },
        Some(seg) => {
            lemma_put_shown(x.1, y.1, k, mb, whole(), seg);
            let a1 = x.1.put_seg(mb, seg).put_decoded(mb);
            let b1 = y.1.put_seg(mb, seg).put_decoded(mb);
            let (code, r) = x.2.ue();
            if code >= 48 {
                lemma_less(a1, b1, k, mb, whole(), -1, none);
            } else {
                let cbp = GOLOMB_TO_INTER_CBP[code as int] as u32;
                let r = if pps.transform_8x8_mode_flag && cbp & 15 != 0 {
                    r.flag().1
                } else {
                    r
                };
                lemma_coded_residual(a1, b1, k, whole(), r, mb, sid, cbp);
                let p = coded_residual(a1, r, mb, sid, cbp);
                let q = coded_residual(b1, r, mb, sid, cbp);
                lemma_less(p.1, q.1, k, mb, whole(), -1, none);
            }
        },
    }
}

proof fn lemma_macroblock(
    a: GridsV,
    b: GridsV,
    k: Kind,
    r: Bits,
    mb: int,
    sid: i32,
    sh: SliceHeader,
    pps: Pps,
)
    requires
        k.b is None,
        k.used.contains(sid),
        alike0(a, b, k),
        0 <= mb < k.mbs(),
    ensures
        ({
            let x = macroblock(a, r, mb, sid, sh, pps);
            let y = macroblock(b, r, mb, sid, sh, pps);
            x.0 == y.0 && x.2 == y.2 && alike0(x.1, y.1, k)
        }),
{
    reveal(macroblock);
    let none = Set::<int>::empty();
    lemma_less(a, b, k, -1, none, mb, none);
    lemma_put_slice(a, b, k, mb, none, sid);
    let a1 = a.put_slice(mb, sid);
    let b1 = b.put_slice(mb, sid);
    let (t, r) = r.ue();
    if !sh.slice_type.intra() && t < 5 {
        lemma_p_inter(a1, b1, k, r, mb, sid, sh.num_ref_idx_l0_active, t, pps);
    } else {
        let t = if sh.slice_type.intra() {
            t
        } else {
            (t - 5) as u32
        };
        lemma_intra(a1, b1, k, none, r, mb, sid, t, pps);
        let x = intra(a1, r, mb, sid, t, pps);
        let y = intra(b1, r, mb, sid, t, pps);
        lemma_less(x.1, y.1, k, mb, none, -1, none);
        if x.0 {
            lemma_intra_l0(x.1, y.1, k, mb, none);
            let a2 = x.1.intra_l0(mb);
            let b2 = y.1.intra_l0(mb);
            lemma_put_intra(a2, b2, k, mb, whole());
            lemma_put_decoded(a2.put_seg(mb, Seg::Intra), b2.put_seg(mb, Seg::Intra), k, mb, whole());
            lemma_less(
                a2.put_seg(mb, Seg::Intra).put_decoded(mb),
                b2.put_seg(mb, Seg::Intra).put_decoded(mb),
                k,
                mb,
                whole(),
                -1,
                none,
            );
        }
    }
}

// ---------------------------------------------------------------------------
// Slices

proof fn lemma_skips(a: GridsV, b: GridsV, k: Kind, mb: int, end: int, sid: i32)
    requires
        k.b is None,
        k.used.contains(sid),
        alike0(a, b, k),
        0 <= mb,
        end <= k.mbs(),
    ensures
        alike0(skips(a, mb, end, sid), skips(b, mb, end, sid), k),
    decreases end - mb,
{
    if mb < end {
        lemma_p_skip(a, b, k, mb, sid);
        lemma_skips(p_skip(a, mb, sid), p_skip(b, mb, sid), k, mb + 1, end, sid);
    }
}

pub proof fn lemma_slice(
    a: GridsV,
    b: GridsV,
    k: Kind,
    r: Bits,
    cur: int,
    n: int,
    sh: SliceHeader,
    pps: Pps,
    sid: i32,
)
    requires
        k.b is None,
        k.used.contains(sid),
        alike0(a, b, k),
        0 <= cur,
        n == k.mbs(),
    ensures
        ({
            let x = slice_from(a, r, cur, n, sh, pps, sid);
            let y = slice_from(b, r, cur, n, sh, pps, sid);
            x.0 == y.0 && x.1 == y.1 && x.3 == y.3 && alike0(x.2, y.2, k)
        }),
    decreases n - cur,
{
    if cur < n {
        let inter = sh.slice_type == SliceType::P || sh.slice_type == SliceType::Sp;
        let (run, r) = if inter {
            r.ue()
        } else {
            (0, r)
        };
        let at = if run <= n - cur {
            cur + run
        } else {
            n
        };
        lemma_skips(a, b, k, cur, at, sid);
        let a1 = skips(a, cur, at, sid);
        let b1 = skips(b, cur, at, sid);
        if !(at >= n || (run > 0 && !r.more_rbsp_data())) {
            lemma_macroblock(a1, b1, k, r, at, sid, sh, pps);
            let x = macroblock(a1, r, at, sid, sh, pps);
            let y = macroblock(b1, r, at, sid, sh, pps);
            if x.0 && x.2.more_rbsp_data() {
                lemma_slice(x.1, y.1, k, x.2, at + 1, n, sh, pps, sid);
            }
        }
    }
}

} // verus!
