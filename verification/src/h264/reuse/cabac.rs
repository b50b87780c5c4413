//! CABAC slices on grids that cannot be told apart.

use super::super::coeff_contexts::Cat;
use super::super::contexts::Cab;
use super::super::grids::{block_at, scan_of, GridsV, Seg};
use super::super::mb_cabac::{
    any_macroblock, cbp, chroma_mode, coded_residual, inter_tail, intra_body, intra_syntax,
    intra_type, kept_cbp, macroblock, mvd_part, own_part, p_8x8, p_inter, p_quadrants, p_sub_refs,
    p_sub_types, p_tall, p_type, p_whole, p_wide, part, pred_modes, qp_delta, quadrant, ref_idx,
    skip_flag, slice_from, transform_ctx,
};
use super::super::mb_cavlc::cbp16;
use super::super::params::{Pps, SliceHeader};
use super::super::residual_cabac::{
    bins, chroma, chroma_blocks, chroma_ctx, dc_block, dc_ctx, flagged, luma, luma_blocks, luma_ctx,
    quads4, quads8,
};
use super::cavlc::{first, lemma_fill_halves, lemma_fill_next, lemma_p_skip};
use super::relation::{
    alike, alike0, covered, lemma_amvd, lemma_around, lemma_counts, lemma_counts_c, lemma_dims,
    lemma_fill_mb, lemma_fill_mvd, lemma_full_ready, lemma_intra_l0, lemma_less, lemma_mb_neighbors,
    lemma_pred_tall, lemma_pred_wide, lemma_put_cbp, lemma_put_chroma_pred, lemma_put_decoded,
    lemma_put_intra, lemma_put_mb_nnz, lemma_put_mb_nnz_c, lemma_put_nnz, lemma_put_nnz_c,
    lemma_put_shown, lemma_put_slice, lemma_ref_ctx, lemma_refill, full, plain, readable, ready_in,
    whole, Kind,
};
use crate::motion::{mv_sum, zero_mv, Mv};
use vstd::prelude::*;

verus! {

// ---------------------------------------------------------------------------
// Residual

proof fn lemma_dc_block(
    a: GridsV,
    b: GridsV,
    k: Kind,
    s: Set<int>,
    c: Cab,
    cat: Cat,
    mask: u16,
    mb: int,
    sid: i32,
)
    requires
        alike(a, b, k, mb, s),
        0 <= mb < k.mbs(),
    ensures
        ({
            let x = dc_block(a, c, cat, mask, mb, sid);
            let y = dc_block(b, c, cat, mask, mb, sid);
            x.1 == y.1 && alike(x.0, y.0, k, mb, s)
        }),
{
    reveal(dc_block);
    reveal(dc_ctx);
    lemma_dims(a, b, k, mb, s);
    lemma_mb_neighbors(a, b, k, mb, s, sid);
    lemma_put_cbp(a, b, k, mb, s, a.cbp[mb] | mask);
}

proof fn lemma_luma_blocks(
    a: GridsV,
    b: GridsV,
    k: Kind,
    s: Set<int>,
    c: Cab,
    cat: Cat,
    mb: int,
    sid: i32,
    idx: int,
    end: int,
)
    requires
        alike(a, b, k, mb, s),
    ensures
        ({
            let x = luma_blocks(a, c, cat, mb, sid, idx, end);
            let y = luma_blocks(b, c, cat, mb, sid, idx, end);
            x.1 == y.1 && alike(x.0, y.0, k, mb, s)
        }),
    decreases end - idx,
{
    if idx < end {
        let (x, y) = block_at(idx);
        lemma_dims(a, b, k, mb, s);
        lemma_counts(a, b, k, mb, s, x, y, sid);
        reveal(luma_ctx);
        let (n, c) = flagged(c, cat, luma_ctx(a, cat, mb, x, y, sid, a.seg[mb] == Seg::Intra));
        lemma_put_nnz(a, b, k, mb, s, x, y, 1, 1, n);
        lemma_luma_blocks(
            a.put_nnz(mb, x, y, 1, 1, n),
            b.put_nnz(mb, x, y, 1, 1, n),
            k,
            s,
            c,
            cat,
            mb,
            sid,
            idx + 1,
            end,
        );
    }
}

proof fn lemma_quads4(
    a: GridsV,
    b: GridsV,
    k: Kind,
    s: Set<int>,
    c: Cab,
    mb: int,
    sid: i32,
    pattern: u32,
    q: int,
)
    requires
        alike(a, b, k, mb, s),
    ensures
        ({
            let x = quads4(a, c, mb, sid, pattern, q);
            let y = quads4(b, c, mb, sid, pattern, q);
            x.1 == y.1 && alike(x.0, y.0, k, mb, s)
        }),
    decreases 4 - q,
{
    if q < 4 {
        if pattern & (1u32 << (q as u32)) != 0 {
            lemma_luma_blocks(a, b, k, s, c, Cat::Luma4x4, mb, sid, 4 * q, 4 * q + 4);
            let x = luma_blocks(a, c, Cat::Luma4x4, mb, sid, 4 * q, 4 * q + 4);
            let y = luma_blocks(b, c, Cat::Luma4x4, mb, sid, 4 * q, 4 * q + 4);
            lemma_quads4(x.0, y.0, k, s, x.1, mb, sid, pattern, q + 1);
        } else {
            lemma_put_nnz(a, b, k, mb, s, q % 2 * 2, q / 2 * 2, 2, 2, 0);
            lemma_quads4(
                a.put_nnz(mb, q % 2 * 2, q / 2 * 2, 2, 2, 0),
                b.put_nnz(mb, q % 2 * 2, q / 2 * 2, 2, 2, 0),
                k,
                s,
                c,
                mb,
                sid,
                pattern,
                q + 1,
            );
        }
    }
}

proof fn lemma_quads8(
    a: GridsV,
    b: GridsV,
    k: Kind,
    s: Set<int>,
    c: Cab,
    mb: int,
    pattern: u32,
    q: int,
)
    requires
        alike(a, b, k, mb, s),
    ensures
        ({
            let x = quads8(a, c, mb, pattern, q);
            let y = quads8(b, c, mb, pattern, q);
            x.1 == y.1 && alike(x.0, y.0, k, mb, s)
        }),
    decreases 4 - q,
{
    if q < 4 {
        let (n, c) = if pattern & (1u32 << (q as u32)) != 0 {
            bins(c, Cat::Luma8x8)
        } else {
            (0, c)
        };
        lemma_put_nnz(a, b, k, mb, s, q % 2 * 2, q / 2 * 2, 2, 2, n);
        lemma_quads8(
            a.put_nnz(mb, q % 2 * 2, q / 2 * 2, 2, 2, n),
            b.put_nnz(mb, q % 2 * 2, q / 2 * 2, 2, 2, n),
            k,
            s,
            c,
            mb,
            pattern,
            q + 1,
        );
    }
}

proof fn lemma_luma(
    a: GridsV,
    b: GridsV,
    k: Kind,
    s: Set<int>,
    c: Cab,
    mb: int,
    sid: i32,
    is16: bool,
    pattern: u32,
)
    requires
        alike(a, b, k, mb, s),
        0 <= mb < k.mbs(),
    ensures
        ({
            let x = luma(a, c, mb, sid, is16, pattern);
            let y = luma(b, c, mb, sid, is16, pattern);
            x.1 == y.1 && alike(x.0, y.0, k, mb, s)
        }),
{
    reveal(luma);
    lemma_dims(a, b, k, mb, s);
    if is16 {
        lemma_dc_block(a, b, k, s, c, Cat::LumaDc16, 0x100, mb, sid);
        let x = dc_block(a, c, Cat::LumaDc16, 0x100, mb, sid);
        let y = dc_block(b, c, Cat::LumaDc16, 0x100, mb, sid);
        lemma_luma_blocks(x.0, y.0, k, s, x.1, Cat::LumaAc16, mb, sid, 0, 16);
        lemma_put_nnz(x.0, y.0, k, mb, s, 0, 0, 4, 4, 0);
    } else {
        lemma_quads8(a, b, k, s, c, mb, pattern, 0);
        lemma_quads4(a, b, k, s, c, mb, sid, pattern, 0);
    }
}

proof fn lemma_chroma_blocks(
    a: GridsV,
    b: GridsV,
    k: Kind,
    s: Set<int>,
    c: Cab,
    p: int,
    mb: int,
    sid: i32,
    i: int,
)
    requires
        alike(a, b, k, mb, s),
    ensures
        ({
            let x = chroma_blocks(a, c, p, mb, sid, i);
            let y = chroma_blocks(b, c, p, mb, sid, i);
            x.1 == y.1 && alike(x.0, y.0, k, mb, s)
        }),
    decreases 8 - i,
{
    lemma_dims(a, b, k, mb, s);
    if !(i >= 2 * a.cvb || i >= 8) {
        lemma_counts_c(a, b, k, mb, s, p, i % 2, i / 2, sid);
        reveal(chroma_ctx);
        let (n, c) = flagged(
            c,
            Cat::ChromaAc,
            chroma_ctx(a, p, mb, i % 2, i / 2, sid, a.seg[mb] == Seg::Intra),
        );
        lemma_put_nnz_c(a, b, k, s, p, mb, i % 2, i / 2, 1, 1, n);
        lemma_chroma_blocks(
            a.put_nnz_c(p, mb, i % 2, i / 2, 1, 1, n),
            b.put_nnz_c(p, mb, i % 2, i / 2, 1, 1, n),
            k,
            s,
            c,
            p,
            mb,
            sid,
            i + 1,
        );
    }
}

proof fn lemma_chroma(
    a: GridsV,
    b: GridsV,
    k: Kind,
    s: Set<int>,
    c: Cab,
    mb: int,
    sid: i32,
    pattern: u32,
)
    requires
        alike(a, b, k, mb, s),
        0 <= mb < k.mbs(),
    ensures
        ({
            let x = chroma(a, c, mb, sid, pattern);
            let y = chroma(b, c, mb, sid, pattern);
            x.1 == y.1 && alike(x.0, y.0, k, mb, s)
        }),
{
    reveal(chroma);
    lemma_dims(a, b, k, mb, s);
    let cat = if a.cvb == 4 {
        Cat::ChromaDc422
    } else {
        Cat::ChromaDc
    };
    lemma_dc_block(a, b, k, s, c, cat, 0x40, mb, sid);
    let x = dc_block(a, c, cat, 0x40, mb, sid);
    let y = dc_block(b, c, cat, 0x40, mb, sid);
    lemma_dc_block(x.0, y.0, k, s, x.1, cat, 0x80, mb, sid);
    let (a1, c1) = if pattern & 0x30 != 0 {
        dc_block(x.0, x.1, cat, 0x80, mb, sid)
    } else {
        (a, c)
    };
    let (b1, _) = if pattern & 0x30 != 0 {
        dc_block(y.0, y.1, cat, 0x80, mb, sid)
    } else {
        (b, c)
    };
    if pattern & 0x20 != 0 {
        lemma_chroma_blocks(a1, b1, k, s, c1, 0, mb, sid, 0);
        let x = chroma_blocks(a1, c1, 0, mb, sid, 0);
        let y = chroma_blocks(b1, c1, 0, mb, sid, 0);
        lemma_chroma_blocks(x.0, y.0, k, s, x.1, 1, mb, sid, 0);
    } else {
        lemma_put_mb_nnz_c(a1, b1, k, mb, s, 0);
    }
}

proof fn lemma_coded_residual(
    a: GridsV,
    b: GridsV,
    k: Kind,
    s: Set<int>,
    c: Cab,
    mb: int,
    sid: i32,
    pattern: u32,
)
    requires
        alike(a, b, k, mb, s),
        0 <= mb < k.mbs(),
    ensures
        ({
            let x = coded_residual(a, c, mb, sid, pattern);
            let y = coded_residual(b, c, mb, sid, pattern);
            x.1 == y.1 && alike(x.0, y.0, k, mb, s)
        }),
{
    reveal(coded_residual);
    if pattern != 0 {
        lemma_luma(a, b, k, s, qp_delta(c), mb, sid, false, pattern);
        let x = luma(a, qp_delta(c), mb, sid, false, pattern);
        let y = luma(b, qp_delta(c), mb, sid, false, pattern);
        lemma_chroma(x.0, y.0, k, s, x.1, mb, sid, pattern);
    } else {
        lemma_put_mb_nnz(a, b, k, mb, s, 0);
    }
}

/// The same coded block pattern and transform context.
proof fn lemma_cbp(
    a: GridsV,
    b: GridsV,
    k: Kind,
    s: Set<int>,
    c: Cab,
    mb: int,
    sid: i32,
    is_intra: bool,
)
    requires
        alike(a, b, k, mb, s),
    ensures
        cbp(a, c, mb, sid, is_intra) == cbp(b, c, mb, sid, is_intra),
        transform_ctx(a, mb, sid) == transform_ctx(b, mb, sid),
{
    reveal(cbp);
    reveal(transform_ctx);
    lemma_dims(a, b, k, mb, s);
    lemma_mb_neighbors(a, b, k, mb, s, sid);
}

pub proof fn lemma_inter_tail(
    a: GridsV,
    b: GridsV,
    k: Kind,
    s: Set<int>,
    c: Cab,
    mb: int,
    sid: i32,
    pps: Pps,
    allow8: bool,
)
    requires
        alike(a, b, k, mb, s),
        0 <= mb < k.mbs(),
    ensures
        ({
            let x = inter_tail(a, c, mb, sid, pps, allow8);
            let y = inter_tail(b, c, mb, sid, pps, allow8);
            x.1 == y.1 && alike(x.0, y.0, k, mb, s)
        }),
{
    reveal(inter_tail);
    lemma_cbp(a, b, k, s, c, mb, sid, false);
    let (pattern, c) = cbp(a, c, mb, sid, false);
    let (dct8, c) = if pps.transform_8x8_mode_flag && allow8 && pattern & 15 != 0 {
        c.flag(transform_ctx(a, mb, sid))
    } else {
        (false, c)
    };
    let v = kept_cbp(pattern, dct8);
    lemma_put_cbp(a, b, k, mb, s, v);
    lemma_coded_residual(a.put_cbp(mb, v), b.put_cbp(mb, v), k, s, c, mb, sid, pattern);
}

// ---------------------------------------------------------------------------
// Intra macroblocks

pub proof fn lemma_intra_type(
    a: GridsV,
    b: GridsV,
    k: Kind,
    s: Set<int>,
    c: Cab,
    mb: int,
    sid: i32,
    base: int,
    intra_slice: bool,
)
    requires
        alike(a, b, k, mb, s),
    ensures
        intra_type(a, c, mb, sid, base, intra_slice) == intra_type(
            b,
            c,
            mb,
            sid,
            base,
            intra_slice,
        ),
{
    reveal(intra_type);
    lemma_dims(a, b, k, mb, s);
    lemma_mb_neighbors(a, b, k, mb, s, sid);
}

proof fn lemma_chroma_mode(
    a: GridsV,
    b: GridsV,
    k: Kind,
    s: Set<int>,
    c: Cab,
    mb: int,
    sid: i32,
)
    requires
        alike(a, b, k, mb, s),
        0 <= mb < k.mbs(),
    ensures
        ({
            let x = chroma_mode(a, c, mb, sid);
            let y = chroma_mode(b, c, mb, sid);
            x.1 == y.1 && alike(x.0, y.0, k, mb, s)
        }),
{
    reveal(chroma_mode);
    lemma_dims(a, b, k, mb, s);
    lemma_mb_neighbors(a, b, k, mb, s, sid);
    lemma_put_chroma_pred(a, b, k, mb, s, 0);
    lemma_put_chroma_pred(a, b, k, mb, s, 1);
    lemma_put_chroma_pred(a, b, k, mb, s, 2);
    lemma_put_chroma_pred(a, b, k, mb, s, 3);
}

proof fn lemma_intra_syntax(
    a: GridsV,
    b: GridsV,
    k: Kind,
    s: Set<int>,
    c: Cab,
    mb: int,
    sid: i32,
    t: u32,
    pps: Pps,
)
    requires
        alike(a, b, k, mb, s),
        0 <= mb < k.mbs(),
    ensures
        ({
            let x = intra_syntax(a, c, mb, sid, t, pps);
            let y = intra_syntax(b, c, mb, sid, t, pps);
            x.1 == y.1 && alike(x.0, y.0, k, mb, s)
        }),
{
    reveal(intra_syntax);
    if t == 0 {
        lemma_cbp(a, b, k, s, c, mb, sid, true);
        let (dct8, c) = if pps.transform_8x8_mode_flag {
            c.flag(transform_ctx(a, mb, sid))
        } else {
            (false, c)
        };
        let c = pred_modes(
            c,
            0,
            if dct8 {
                4
            } else {
                1
            },
        );
        lemma_chroma_mode(a, b, k, s, c, mb, sid);
        let x = chroma_mode(a, c, mb, sid);
        let y = chroma_mode(b, c, mb, sid);
        lemma_cbp(x.0, y.0, k, s, x.1, mb, sid, true);
        let (pattern, c) = cbp(x.0, x.1, mb, sid, true);
        let v = kept_cbp(pattern, dct8);
        lemma_put_cbp(x.0, y.0, k, mb, s, v);
        lemma_coded_residual(x.0.put_cbp(mb, v), y.0.put_cbp(mb, v), k, s, c, mb, sid, pattern);
    } else {
        let pattern = cbp16(t);
        let v = (pattern as u16) | 0x800;
        lemma_put_cbp(a, b, k, mb, s, v);
        let a1 = a.put_cbp(mb, v);
        let b1 = b.put_cbp(mb, v);
        lemma_chroma_mode(a1, b1, k, s, c, mb, sid);
        let x = chroma_mode(a1, c, mb, sid);
        let y = chroma_mode(b1, c, mb, sid);
        let c = qp_delta(x.1);
        lemma_luma(x.0, y.0, k, s, c, mb, sid, true, pattern);
        let p = luma(x.0, c, mb, sid, true, pattern);
        let q = luma(y.0, c, mb, sid, true, pattern);
        lemma_chroma(p.0, q.0, k, s, p.1, mb, sid, pattern);
    }
}

pub proof fn lemma_intra_body(
    a: GridsV,
    b: GridsV,
    k: Kind,
    s: Set<int>,
    c: Cab,
    mb: int,
    sid: i32,
    t: u32,
    pps: Pps,
)
    requires
        alike(a, b, k, mb, s),
        0 <= mb < k.mbs(),
    ensures
        ({
            let x = intra_body(a, c, mb, sid, t, pps);
            let y = intra_body(b, c, mb, sid, t, pps);
            x.1 == y.1 && alike(x.0, y.0, k, mb, s)
        }),
{
    reveal(intra_body);
    if t == 25 {
        lemma_put_mb_nnz(a, b, k, mb, s, 16);
        let a1 = a.put_mb_nnz(mb, 16);
        let b1 = b.put_mb_nnz(mb, 16);
        lemma_put_cbp(a1, b1, k, mb, s, 0xFEF);
        lemma_put_intra(a1.put_cbp(mb, 0xFEF), b1.put_cbp(mb, 0xFEF), k, mb, s);
    } else {
        lemma_put_intra(a, b, k, mb, s);
        lemma_intra_syntax(
            a.put_seg(mb, Seg::Intra),
            b.put_seg(mb, Seg::Intra),
            k,
            s,
            c,
            mb,
            sid,
            t,
            pps,
        );
    }
}

// ---------------------------------------------------------------------------
// Inter macroblocks

pub proof fn lemma_part(
    a: GridsV,
    b: GridsV,
    k: Kind,
    s: Set<int>,
    c: Cab,
    l: int,
    mb: int,
    sid: i32,
    bx: int,
    by: int,
    w: int,
    h: int,
    refi: i32,
    pred: Mv,
)
    requires
        alike(a, b, k, mb, s),
        k.cabac,
        readable(k, l, sid),
        full(s, l),
        0 <= mb < k.mbs(),
        0 <= bx,
        0 <= by,
        0 <= w,
        0 <= h,
        bx + w <= 4,
        by + h <= 4,
    ensures
        ({
            let x = part(a, c, l, mb, sid, bx, by, w, h, refi, pred);
            let y = part(b, c, l, mb, sid, bx, by, w, h, refi, pred);
            x.1 == y.1 && alike(x.0, y.0, k, mb, s)
        }),
{
    reveal(part);
    lemma_amvd(a, b, k, mb, s, l, bx, by, sid);
    let sum = a.amvd(l, mb, bx, by, sid);
    let (dx, ax, c) = mvd_part(c, 40, sum.x);
    let (dy, ay, c) = mvd_part(c, 47, sum.y);
    let v = mv_sum(pred, Mv { x: dx, y: dy });
    lemma_refill(a, b, k, mb, s, l, bx, by, w, h, v, refi);
    lemma_fill_mvd(
        a.fill(l, mb, bx, by, w, h, v, refi),
        b.fill(l, mb, bx, by, w, h, v, refi),
        k,
        mb,
        s,
        l,
        bx,
        by,
        w,
        h,
        Mv { x: ax, y: ay },
    );
}

pub proof fn lemma_own_part(
    a: GridsV,
    b: GridsV,
    k: Kind,
    s: Set<int>,
    c: Cab,
    l: int,
    mb: int,
    sid: i32,
    bx: int,
    by: int,
    w: int,
    h: int,
    refi: i32,
)
    requires
        alike(a, b, k, mb, s),
        k.cabac,
        readable(k, l, sid),
        full(s, l),
        0 <= mb < k.mbs(),
        0 <= bx,
        0 <= by,
        0 <= w,
        0 <= h,
        bx + w <= 4,
        by + h <= 4,
    ensures
        ({
            let x = own_part(a, c, l, mb, sid, bx, by, w, h, refi);
            let y = own_part(b, c, l, mb, sid, bx, by, w, h, refi);
            x.1 == y.1 && alike(x.0, y.0, k, mb, s)
        }),
{
    reveal(own_part);
    lemma_full_ready(s, l, scan_of(bx, by));
    lemma_around(a, b, k, s, l, mb, bx, by, w, sid);
    lemma_part(a, b, k, s, c, l, mb, sid, bx, by, w, h, refi, b.pred(l, mb, bx, by, w, refi, sid));
}

pub proof fn lemma_quadrant(
    a: GridsV,
    b: GridsV,
    k: Kind,
    s: Set<int>,
    c: Cab,
    l: int,
    mb: int,
    sid: i32,
    x: int,
    y: int,
    t: u32,
    refi: i32,
)
    requires
        alike(a, b, k, mb, s),
        k.cabac,
        readable(k, l, sid),
        full(s, l),
        0 <= mb < k.mbs(),
        0 <= x <= 2,
        0 <= y <= 2,
    ensures
        ({
            let p = quadrant(a, c, l, mb, sid, x, y, t, refi);
            let q = quadrant(b, c, l, mb, sid, x, y, t, refi);
            p.1 == q.1 && alike(p.0, q.0, k, mb, s)
        }),
{
    reveal(quadrant);
    if t == 0 {
        lemma_own_part(a, b, k, s, c, l, mb, sid, x, y, 2, 2, refi);
    } else if t == 1 {
        lemma_own_part(a, b, k, s, c, l, mb, sid, x, y, 2, 1, refi);
        let p = own_part(a, c, l, mb, sid, x, y, 2, 1, refi);
        let q = own_part(b, c, l, mb, sid, x, y, 2, 1, refi);
        lemma_own_part(p.0, q.0, k, s, p.1, l, mb, sid, x, y + 1, 2, 1, refi);
    } else if t == 2 {
        lemma_own_part(a, b, k, s, c, l, mb, sid, x, y, 1, 2, refi);
        let p = own_part(a, c, l, mb, sid, x, y, 1, 2, refi);
        let q = own_part(b, c, l, mb, sid, x, y, 1, 2, refi);
        lemma_own_part(p.0, q.0, k, s, p.1, l, mb, sid, x + 1, y, 1, 2, refi);
    } else {
        lemma_own_part(a, b, k, s, c, l, mb, sid, x, y, 1, 1, refi);
        let p = own_part(a, c, l, mb, sid, x, y, 1, 1, refi);
        let q = own_part(b, c, l, mb, sid, x, y, 1, 1, refi);
        lemma_own_part(p.0, q.0, k, s, p.1, l, mb, sid, x + 1, y, 1, 1, refi);
        let p1 = own_part(p.0, p.1, l, mb, sid, x + 1, y, 1, 1, refi);
        let q1 = own_part(q.0, q.1, l, mb, sid, x + 1, y, 1, 1, refi);
        lemma_own_part(p1.0, q1.0, k, s, p1.1, l, mb, sid, x, y + 1, 1, 1, refi);
        let p2 = own_part(p1.0, p1.1, l, mb, sid, x, y + 1, 1, 1, refi);
        let q2 = own_part(q1.0, q1.1, l, mb, sid, x, y + 1, 1, 1, refi);
        lemma_own_part(p2.0, q2.0, k, s, p2.1, l, mb, sid, x + 1, y + 1, 1, 1, refi);
    }
}

pub proof fn lemma_ref_idx(
    a: GridsV,
    b: GridsV,
    k: Kind,
    s: Set<int>,
    c: Cab,
    l: int,
    mb: int,
    sid: i32,
    bx: int,
    by: int,
    active: u32,
    is_b: bool,
)
    requires
        alike(a, b, k, mb, s),
        k.cabac,
        readable(k, l, sid),
        ready_in(s, l, scan_of(bx, by)),
    ensures
        ref_idx(a, c, l, mb, sid, bx, by, active, is_b) == ref_idx(
            b,
            c,
            l,
            mb,
            sid,
            bx,
            by,
            active,
            is_b,
        ),
{
    reveal(ref_idx);
    lemma_ref_ctx(a, b, k, mb, s, l, bx, by, sid, is_b);
}

proof fn lemma_p_whole(a: GridsV, b: GridsV, k: Kind, c: Cab, mb: int, sid: i32, n0: u32)
    requires
        alike(a, b, k, mb, Set::empty()),
        k.cabac,
        0 <= mb < k.mbs(),
    ensures
        ({
            let x = p_whole(a, c, mb, sid, n0);
            let y = p_whole(b, c, mb, sid, n0);
            x.1 == y.1 && alike(x.0, y.0, k, mb, whole())
        }),
{
    reveal(p_whole);
    lemma_ref_idx(a, b, k, Set::empty(), c, 0, mb, sid, 0, 0, n0, false);
    let (refi, c) = ref_idx(a, c, 0, mb, sid, 0, 0, n0, false);
    lemma_fill_mb(a, b, k, mb, Set::empty(), zero_mv(), refi);
    lemma_own_part(
        a.fill(0, mb, 0, 0, 4, 4, zero_mv(), refi),
        b.fill(0, mb, 0, 0, 4, 4, zero_mv(), refi),
        k,
        whole(),
        c,
        0,
        mb,
        sid,
        0,
        0,
        4,
        4,
        refi,
    );
}

proof fn lemma_p_wide(a: GridsV, b: GridsV, k: Kind, c: Cab, mb: int, sid: i32, n0: u32)
    requires
        alike(a, b, k, mb, Set::empty()),
        k.cabac,
        0 <= mb < k.mbs(),
    ensures
        ({
            let x = p_wide(a, c, mb, sid, n0);
            let y = p_wide(b, c, mb, sid, n0);
            x.1 == y.1 && alike(x.0, y.0, k, mb, whole())
        }),
{
    reveal(p_wide);
    lemma_ref_idx(a, b, k, Set::empty(), c, 0, mb, sid, 0, 0, n0, false);
    let (r0, c) = ref_idx(a, c, 0, mb, sid, 0, 0, n0, false);
    lemma_fill_halves(a, b, k, mb, true, r0, 0);
    let a1 = a.fill(0, mb, 0, 0, 4, 2, zero_mv(), r0);
    let b1 = b.fill(0, mb, 0, 0, 4, 2, zero_mv(), r0);
    lemma_ref_idx(a1, b1, k, covered(0, 0, 4, 2), c, 0, mb, sid, 0, 2, n0, false);
    let (r1, c) = ref_idx(a1, c, 0, mb, sid, 0, 2, n0, false);
    lemma_fill_halves(a, b, k, mb, true, r0, r1);
    let a2 = a1.fill(0, mb, 0, 2, 4, 2, zero_mv(), r1);
    let b2 = b1.fill(0, mb, 0, 2, 4, 2, zero_mv(), r1);
    lemma_pred_wide(a2, b2, k, whole(), 0, mb, 0, r0, sid);
    let p0 = a2.pred_wide(0, mb, 0, r0, sid);
    lemma_part(a2, b2, k, whole(), c, 0, mb, sid, 0, 0, 4, 2, r0, p0);
    let x = part(a2, c, 0, mb, sid, 0, 0, 4, 2, r0, p0);
    let y = part(b2, c, 0, mb, sid, 0, 0, 4, 2, r0, p0);
    lemma_pred_wide(x.0, y.0, k, whole(), 0, mb, 1, r1, sid);
    lemma_part(
        x.0,
        y.0,
        k,
        whole(),
        x.1,
        0,
        mb,
        sid,
        0,
        2,
        4,
        2,
        r1,
        x.0.pred_wide(0, mb, 1, r1, sid),
    );
}

proof fn lemma_p_tall(a: GridsV, b: GridsV, k: Kind, c: Cab, mb: int, sid: i32, n0: u32)
    requires
        alike(a, b, k, mb, Set::empty()),
        k.cabac,
        0 <= mb < k.mbs(),
    ensures
        ({
            let x = p_tall(a, c, mb, sid, n0);
            let y = p_tall(b, c, mb, sid, n0);
            x.1 == y.1 && alike(x.0, y.0, k, mb, whole())
        }),
{
    reveal(p_tall);
    lemma_ref_idx(a, b, k, Set::empty(), c, 0, mb, sid, 0, 0, n0, false);
    let (r0, c) = ref_idx(a, c, 0, mb, sid, 0, 0, n0, false);
    lemma_fill_halves(a, b, k, mb, false, r0, 0);
    let a1 = a.fill(0, mb, 0, 0, 2, 4, zero_mv(), r0);
    let b1 = b.fill(0, mb, 0, 0, 2, 4, zero_mv(), r0);
    lemma_ref_idx(a1, b1, k, covered(0, 0, 2, 4), c, 0, mb, sid, 2, 0, n0, false);
    let (r1, c) = ref_idx(a1, c, 0, mb, sid, 2, 0, n0, false);
    lemma_fill_halves(a, b, k, mb, false, r0, r1);
    let a2 = a1.fill(0, mb, 2, 0, 2, 4, zero_mv(), r1);
    let b2 = b1.fill(0, mb, 2, 0, 2, 4, zero_mv(), r1);
    lemma_pred_tall(a2, b2, k, whole(), 0, mb, 0, r0, sid);
    let p0 = a2.pred_tall(0, mb, 0, r0, sid);
    lemma_part(a2, b2, k, whole(), c, 0, mb, sid, 0, 0, 2, 4, r0, p0);
    let x = part(a2, c, 0, mb, sid, 0, 0, 2, 4, r0, p0);
    let y = part(b2, c, 0, mb, sid, 0, 0, 2, 4, r0, p0);
    lemma_pred_tall(x.0, y.0, k, whole(), 0, mb, 1, r1, sid);
    lemma_part(
        x.0,
        y.0,
        k,
        whole(),
        x.1,
        0,
        mb,
        sid,
        2,
        0,
        2,
        4,
        r1,
        x.0.pred_tall(0, mb, 1, r1, sid),
    );
}

proof fn lemma_p_sub_refs(
    a: GridsV,
    b: GridsV,
    k: Kind,
    c: Cab,
    mb: int,
    sid: i32,
    n0: u32,
    refs: Seq<i32>,
    i: int,
)
    requires
        alike(a, b, k, mb, first(i)),
        k.cabac,
        0 <= mb < k.mbs(),
        0 <= i <= 4,
    ensures
        ({
            let x = p_sub_refs(a, c, mb, sid, n0, refs, i);
            let y = p_sub_refs(b, c, mb, sid, n0, refs, i);
            x.0 == y.0 && x.2 == y.2 && alike(x.1, y.1, k, mb, whole())
        }),
    decreases 4 - i,
{
    if i >= 4 {
        assert(first(i) =~= whole());
    } else {
        let (x, y) = (i % 2 * 2, i / 2 * 2);
        assert(scan_of(x, y) == 4 * i);
        lemma_ref_idx(a, b, k, first(i), c, 0, mb, sid, x, y, n0, false);
        let (refi, c) = ref_idx(a, c, 0, mb, sid, x, y, n0, false);
        lemma_fill_next(a, b, k, mb, i, refi);
        lemma_p_sub_refs(
            a.fill(0, mb, x, y, 2, 2, zero_mv(), refi),
            b.fill(0, mb, x, y, 2, 2, zero_mv(), refi),
            k,
            c,
            mb,
            sid,
            n0,
            refs.push(refi),
            i + 1,
        );
    }
}

proof fn lemma_p_quadrants(
    a: GridsV,
    b: GridsV,
    k: Kind,
    c: Cab,
    mb: int,
    sid: i32,
    types: Seq<u32>,
    refs: Seq<i32>,
    i: int,
)
    requires
        alike(a, b, k, mb, whole()),
        k.cabac,
        0 <= mb < k.mbs(),
        0 <= i <= 4,
    ensures
        ({
            let x = p_quadrants(a, c, mb, sid, types, refs, i);
            let y = p_quadrants(b, c, mb, sid, types, refs, i);
            x.1 == y.1 && alike(x.0, y.0, k, mb, whole())
        }),
    decreases 4 - i,
{
    if i < 4 {
        lemma_quadrant(a, b, k, whole(), c, 0, mb, sid, i % 2 * 2, i / 2 * 2, types[i], refs[i]);
        let x = quadrant(a, c, 0, mb, sid, i % 2 * 2, i / 2 * 2, types[i], refs[i]);
        let y = quadrant(b, c, 0, mb, sid, i % 2 * 2, i / 2 * 2, types[i], refs[i]);
        lemma_p_quadrants(x.0, y.0, k, x.1, mb, sid, types, refs, i + 1);
    }
}

proof fn lemma_p_8x8(a: GridsV, b: GridsV, k: Kind, c: Cab, mb: int, sid: i32, n0: u32)
    requires
        alike(a, b, k, mb, Set::empty()),
        k.cabac,
        0 <= mb < k.mbs(),
    ensures
        ({
            let x = p_8x8(a, c, mb, sid, n0);
            let y = p_8x8(b, c, mb, sid, n0);
            x.0 == y.0 && x.2 == y.2 && alike(x.1, y.1, k, mb, whole())
        }),
{
    reveal(p_8x8);
    let (types, c) = p_sub_types(c);
    assert(first(0) =~= Set::empty());
    lemma_p_sub_refs(a, b, k, c, mb, sid, n0, Seq::empty(), 0);
    let x = p_sub_refs(a, c, mb, sid, n0, Seq::empty(), 0);
    let y = p_sub_refs(b, c, mb, sid, n0, Seq::empty(), 0);
    lemma_p_quadrants(x.1, y.1, k, x.2, mb, sid, types, x.0, 0);
}

proof fn lemma_p_inter(
    a: GridsV,
    b: GridsV,
    k: Kind,
    c: Cab,
    mb: int,
    sid: i32,
    n0: u32,
    pps: Pps,
    t: u32,
)
    requires
        alike(a, b, k, mb, Set::empty()),
        k.cabac,
        0 <= mb < k.mbs(),
    ensures
        ({
            let x = p_inter(a, c, mb, sid, n0, pps, t);
            let y = p_inter(b, c, mb, sid, n0, pps, t);
            x.1 == y.1 && alike(x.0, y.0, k, mb, whole())
        }),
{
    reveal(p_inter);
    let (seg, allow8, a1, b1, c1) = if t == 0 {
        lemma_p_whole(a, b, k, c, mb, sid, n0);
        let x = p_whole(a, c, mb, sid, n0);
        (Seg::P16x16, true, x.0, p_whole(b, c, mb, sid, n0).0, x.1)
    } else if t == 1 {
        lemma_p_wide(a, b, k, c, mb, sid, n0);
        let x = p_wide(a, c, mb, sid, n0);
        (Seg::P16x8, true, x.0, p_wide(b, c, mb, sid, n0).0, x.1)
    } else if t == 2 {
        lemma_p_tall(a, b, k, c, mb, sid, n0);
        let x = p_tall(a, c, mb, sid, n0);
        (Seg::P8x16, true, x.0, p_tall(b, c, mb, sid, n0).0, x.1)
    } else {
        lemma_p_8x8(a, b, k, c, mb, sid, n0);
        let x = p_8x8(a, c, mb, sid, n0);
        (Seg::P8x8, x.0, x.1, p_8x8(b, c, mb, sid, n0).1, x.2)
    };
    assert(plain(seg));
    lemma_put_shown(a1, b1, k, mb, whole(), seg);
    lemma_inter_tail(
        a1.put_seg(mb, seg).put_decoded(mb),
        b1.put_seg(mb, seg).put_decoded(mb),
        k,
        whole(),
        c1,
        mb,
        sid,
        pps,
        allow8,
    );
}

// ---------------------------------------------------------------------------
// Slices

proof fn lemma_macroblock(
    a: GridsV,
    b: GridsV,
    k: Kind,
    c: Cab,
    mb: int,
    sid: i32,
    sh: SliceHeader,
    pps: Pps,
)
    requires
        k.b is None,
        k.used.contains(sid),
        alike0(a, b, k),
        k.cabac,
        0 <= mb < k.mbs(),
    ensures
        ({
            let x = macroblock(a, c, mb, sid, sh, pps);
            let y = macroblock(b, c, mb, sid, sh, pps);
            x.1 == y.1 && alike0(x.0, y.0, k)
        }),
{
    reveal(macroblock);
    let none = Set::<int>::empty();
    lemma_less(a, b, k, -1, none, mb, none);
    lemma_put_slice(a, b, k, mb, none, sid);
    let a1 = a.put_slice(mb, sid);
    let b1 = b.put_slice(mb, sid);
    let is_i = sh.slice_type.intra();
    let (p, c) = if is_i {
        (None, c)
    } else {
        p_type(c)
    };
    match p {
        Some(t) => {
            let n0 = sh.num_ref_idx_l0_active;
            lemma_p_inter(a1, b1, k, c, mb, sid, n0, pps, t);
            let x = p_inter(a1, c, mb, sid, n0, pps, t);
            let y = p_inter(b1, c, mb, sid, n0, pps, t);
            lemma_less(x.0, y.0, k, mb, whole(), -1, none);
        },
        None => {
            let base: int = if is_i {
                3
            } else {
                17
            };
            lemma_intra_type(a1, b1, k, none, c, mb, sid, base, is_i);
            let (t, c) = intra_type(a1, c, mb, sid, base, is_i);
            lemma_intra_body(a1, b1, k, none, c, mb, sid, t, pps);
            let x = intra_body(a1, c, mb, sid, t, pps);
            let y = intra_body(b1, c, mb, sid, t, pps);
            lemma_intra_l0(x.0, y.0, k, mb, none);
            lemma_put_decoded(x.0.intra_l0(mb), y.0.intra_l0(mb), k, mb, whole());
            lemma_less(
                x.0.intra_l0(mb).put_decoded(mb),
                y.0.intra_l0(mb).put_decoded(mb),
                k,
                mb,
                whole(),
                -1,
                none,
            );
        },
    }
}

proof fn lemma_any_macroblock(
    a: GridsV,
    b: GridsV,
    k: Kind,
    c: Cab,
    mb: int,
    sid: i32,
    sh: SliceHeader,
    pps: Pps,
)
    requires
        k.b is None,
        k.used.contains(sid),
        alike0(a, b, k),
        k.cabac,
        0 <= mb < k.mbs(),
    ensures
        ({
            let x = any_macroblock(a, c, mb, sid, sh, pps);
            let y = any_macroblock(b, c, mb, sid, sh, pps);
            x.1 == y.1 && alike0(x.0, y.0, k)
        }),
{
    reveal(any_macroblock);
    reveal(skip_flag);
    let none = Set::<int>::empty();
    lemma_less(a, b, k, -1, none, mb, none);
    lemma_dims(a, b, k, mb, none);
    lemma_mb_neighbors(a, b, k, mb, none, sid);
    let (skipped, c) = if sh.slice_type.intra() {
        (false, c)
    } else {
        skip_flag(a, c, mb, sid)
    };
    if skipped {
        lemma_p_skip(a, b, k, mb, sid);
    } else {
        lemma_macroblock(a, b, k, c, mb, sid, sh, pps);
    }
}

pub proof fn lemma_slice(
    a: GridsV,
    b: GridsV,
    k: Kind,
    c: Cab,
    cur: int,
    n: int,
    sh: SliceHeader,
    pps: Pps,
    sid: i32,
)
    requires
        k.b is None,
        k.used.contains(sid),
        alike0(a, b, k),
        k.cabac,
        0 <= cur,
        n == k.mbs(),
    ensures
        ({
            let x = slice_from(a, c, cur, n, sh, pps, sid);
            let y = slice_from(b, c, cur, n, sh, pps, sid);
            x.0 == y.0 && x.2 == y.2 && alike0(x.1, y.1, k)
        }),
    decreases n - cur,
{
    if cur < n {
        lemma_any_macroblock(a, b, k, c, cur, sid, sh, pps);
        let x = any_macroblock(a, c, cur, sid, sh, pps);
        let y = any_macroblock(b, c, cur, sid, sh, pps);
        if cur + 1 < n {
            let (end, c) = x.1.terminate();
            if !end {
                lemma_slice(x.0, y.0, k, c, cur + 1, n, sh, pps, sid);
            }
        }
    }
}

} // verus!
