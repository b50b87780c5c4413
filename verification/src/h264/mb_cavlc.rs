//! Macroblocks and slices of CAVLC streams.

use super::cavlc::{block, residual_block};
use super::grids::{block_at, block_xy, FrameGrids, GridsV, Seg};
use super::params::{Pps, SliceHeader, SliceType, Sps};
use crate::bits::{BitReader, Bits};
use crate::motion::{add_mv, mv_sum, zero_mv, Mv};
use vstd::prelude::*;

verus! {

/// `coded_block_pattern` of an inter macroblock by its code number.
pub const GOLOMB_TO_INTER_CBP: [u8; 48] = [
    0, 16, 1, 2, 4, 8, 32, 3, 5, 10, 12, 15, 47, 7, 11, 13, 14, 6, 9, 31, 35, 37, 42, 44, 33, 34,
    36, 40, 39, 43, 45, 46, 17, 18, 20, 24, 19, 21, 26, 28, 23, 27, 29, 30, 22, 25, 38, 41,
];

/// `coded_block_pattern` of an intra macroblock by its code number.
pub const GOLOMB_TO_INTRA_CBP: [u8; 48] = [
    47, 31, 15, 0, 23, 27, 29, 30, 7, 11, 13, 14, 39, 43, 45, 46, 16, 3, 5, 10, 12, 19, 21, 26, 28,
    35, 37, 42, 44, 1, 2, 4, 8, 17, 18, 20, 24, 6, 9, 22, 25, 32, 33, 34, 36, 40, 38, 41,
];

/// What became of a slice: how many macroblocks were decoded, and whether it stayed parsable.
#[derive(Debug, Clone, Copy)]
pub struct SliceResult {
    pub mbs_decoded: usize,
    pub ok: bool,
}

// ---------------------------------------------------------------------------
// Residual

/// Luma blocks `idx..end` in coding order, with at most `max_coeff` coefficients each. `false`
/// where one of them does not decode.
pub open spec fn luma_blocks(
    g: GridsV,
    b: Bits,
    mb: int,
    sid: i32,
    idx: int,
    end: int,
    max_coeff: int,
) -> (bool, GridsV, Bits)
    decreases end - idx,
{
    if idx >= end {
        (true, g, b)
    } else {
        let (x, y) = block_at(idx);
        let (count, b) = block(b, g.nnz_pred(mb, x, y, sid), max_coeff);
        match count {
            None => (false, g, b),
            Some(n) => luma_blocks(
                g.put_nnz(mb, x, y, 1, 1, n as u8),
                b,
                mb,
                sid,
                idx + 1,
                end,
                max_coeff,
            ),
        }
    }
}

fn read_luma_blocks(
    g: &mut FrameGrids,
    r: &mut BitReader,
    mb: usize,
    sid: i32,
    start: usize,
    end: usize,
    max_coeff: usize,
) -> (ok: bool)
    requires
        old(g)@.wf(),
        mb < old(g)@.mbs(),
        start <= end <= 16,
    ensures
        (ok, final(g)@, final(r)@) == luma_blocks(
            old(g)@,
            old(r)@,
            mb as int,
            sid,
            start as int,
            end as int,
            max_coeff as int,
        ),
        final(g)@.like(old(g)@),
{
    let mut idx: usize = start;
    while idx < end
        invariant
            start <= idx <= end <= 16,
            g@.like(old(g)@),
            mb < g@.mbs(),
            luma_blocks(g@, r@, mb as int, sid, idx as int, end as int, max_coeff as int)
                == luma_blocks(
                old(g)@,
                old(r)@,
                mb as int,
                sid,
                start as int,
                end as int,
                max_coeff as int,
            ),
        decreases end - idx,
    {
        let (x, y) = block_xy(idx);
        let nc = g.nnz_pred_luma(mb, x, y, sid);
        match residual_block(r, nc, max_coeff) {
            None => {
                return false;
            },
            Some(n) => {
                g.put_nnz(mb, x, y, 1, 1, n as u8);
            },
        }
        idx += 1;
    }
    true
}

/// Luma quadrants `q..4`: the blocks of a coded one are decoded, the counts of another are zero.
pub open spec fn luma_quadrants(g: GridsV, b: Bits, mb: int, sid: i32, cbp: u32, q: int) -> (
    bool,
    GridsV,
    Bits,
)
    decreases 4 - q,
{
    if q >= 4 {
        (true, g, b)
    } else if cbp & (1u32 << (q as u32)) != 0 {
        let (ok, g, b) = luma_blocks(g, b, mb, sid, 4 * q, 4 * q + 4, 16);
        if ok {
            luma_quadrants(g, b, mb, sid, cbp, q + 1)
        } else {
            (false, g, b)
        }
    } else {
        luma_quadrants(
            g.put_nnz(mb, q % 2 * 2, q / 2 * 2, 2, 2, 0),
            b,
            mb,
            sid,
            cbp,
            q + 1,
        )
    }
}

fn read_luma_quadrants(
    g: &mut FrameGrids,
    r: &mut BitReader,
    mb: usize,
    sid: i32,
    cbp: u32,
) -> (ok: bool)
    requires
        old(g)@.wf(),
        mb < old(g)@.mbs(),
    ensures
        (ok, final(g)@, final(r)@) == luma_quadrants(old(g)@, old(r)@, mb as int, sid, cbp, 0),
        final(g)@.like(old(g)@),
{
    let mut q: usize = 0;
    while q < 4
        invariant
            q <= 4,
            g@.like(old(g)@),
            mb < g@.mbs(),
            luma_quadrants(g@, r@, mb as int, sid, cbp, q as int) == luma_quadrants(
                old(g)@,
                old(r)@,
                mb as int,
                sid,
                cbp,
                0,
            ),
        decreases 4 - q,
    {
        if cbp & (1u32 << (q as u32)) != 0 {
            if !read_luma_blocks(g, r, mb, sid, 4 * q, 4 * q + 4, 16) {
                return false;
            }
        } else {
            g.put_nnz(mb, q % 2 * 2, q / 2 * 2, 2, 2, 0);
        }
        q += 1;
    }
    true
}

/// Chroma AC blocks `i..2 * cvb` of plane `c`.
pub open spec fn chroma_blocks(g: GridsV, b: Bits, c: int, mb: int, sid: i32, i: int) -> (
    bool,
    GridsV,
    Bits,
)
    decreases 8 - i,
{
    if i >= 2 * g.cvb || i >= 8 {
        (true, g, b)
    } else {
        let (count, b) = block(b, g.nnz_pred_c(c, mb, i % 2, i / 2, sid), 15);
        match count {
            None => (false, g, b),
            Some(n) => chroma_blocks(
                g.put_nnz_c(c, mb, i % 2, i / 2, 1, 1, n as u8),
                b,
                c,
                mb,
                sid,
                i + 1,
            ),
        }
    }
}

fn read_chroma_blocks(
    g: &mut FrameGrids,
    r: &mut BitReader,
    c: usize,
    mb: usize,
    sid: i32,
) -> (ok: bool)
    requires
        old(g)@.wf(),
        mb < old(g)@.mbs(),
    ensures
        (ok, final(g)@, final(r)@) == chroma_blocks(
            old(g)@,
            old(r)@,
            c as int,
            mb as int,
            sid,
            0,
        ),
        final(g)@.like(old(g)@),
{
    let blocks: usize = if g.is_chroma422() {
        8
    } else {
        4
    };
    let mut i: usize = 0;
    while i < blocks
        invariant
            i <= blocks,
            blocks == 2 * g@.cvb,
            blocks <= 8,
            g@.like(old(g)@),
            mb < g@.mbs(),
            chroma_blocks(g@, r@, c as int, mb as int, sid, i as int) == chroma_blocks(
                old(g)@,
                old(r)@,
                c as int,
                mb as int,
                sid,
                0,
            ),
        decreases blocks - i,
    {
        let nc = g.nnz_pred_chroma(c, mb, i % 2, i / 2, sid);
        match residual_block(r, nc, 15) {
            None => {
                return false;
            },
            Some(n) => {
                g.put_nnz_c(c, mb, i % 2, i / 2, 1, 1, n as u8);
            },
        }
        i += 1;
    }
    true
}

/// The two chroma DC blocks; whether both decode.
#[verifier::opaque]
pub open spec fn chroma_dc(b: Bits, cvb: int) -> (bool, Bits) {
    let (n_c, max) = if cvb == 4 {
        (-2i32, 8int)
    } else {
        (-1i32, 4int)
    };
    let (first, b) = block(b, n_c, max);
    match first {
        None => (false, b),
        Some(_) => {
            let (second, b) = block(b, n_c, max);
            (second is Some, b)
        },
    }
}

fn read_chroma_dc(r: &mut BitReader, chroma422: bool) -> (ok: bool)
    ensures
        (ok, final(r)@) == chroma_dc(
            old(r)@,
            if chroma422 {
                4
            } else {
                2
            },
        ),
{
    proof {
        reveal(chroma_dc);
    }
    let (n_c, max): (i32, usize) = if chroma422 {
        (-2, 8)
    } else {
        (-1, 4)
    };
    residual_block(r, n_c, max).is_some() && residual_block(r, n_c, max).is_some()
}

/// The chroma part of a residual.
#[verifier::opaque]
pub open spec fn chroma_residual(g: GridsV, b: Bits, mb: int, sid: i32, cbp: u32) -> (
    bool,
    GridsV,
    Bits,
) {
    let (ok, b) = if cbp & 0x30 != 0 {
        chroma_dc(b, g.cvb)
    } else {
        (true, b)
    };
    if !ok {
        (false, g, b)
    } else if cbp & 0x20 != 0 {
        let (ok, g, b) = chroma_blocks(g, b, 0, mb, sid, 0);
        if ok {
            chroma_blocks(g, b, 1, mb, sid, 0)
        } else {
            (false, g, b)
        }
    } else {
        (true, g.put_mb_nnz_c(mb, 0), b)
    }
}

fn residual_chroma(g: &mut FrameGrids, r: &mut BitReader, mb: usize, sid: i32, cbp: u32) -> (ok:
    bool)
    requires
        old(g)@.wf(),
        mb < old(g)@.mbs(),
    ensures
        (ok, final(g)@, final(r)@) == chroma_residual(old(g)@, old(r)@, mb as int, sid, cbp),
        final(g)@.like(old(g)@),
{
    proof {
        reveal(chroma_residual);
    }
    if cbp & 0x30 != 0 {
        if !read_chroma_dc(r, g.is_chroma422()) {
            return false;
        }
    }
    if cbp & 0x20 != 0 {
        read_chroma_blocks(g, r, 0, mb, sid) && read_chroma_blocks(g, r, 1, mb, sid)
    } else {
        g.put_mb_nnz_c(mb, 0);
        true
    }
}

/// The residual of a macroblock that is not `I_16x16`.
#[verifier::opaque]
pub open spec fn residual(g: GridsV, b: Bits, mb: int, sid: i32, cbp: u32) -> (
    bool,
    GridsV,
    Bits,
) {
    let (ok, g, b) = luma_quadrants(g, b, mb, sid, cbp, 0);
    if ok {
        chroma_residual(g, b, mb, sid, cbp)
    } else {
        (false, g, b)
    }
}

fn residual_non_i16x16(
    g: &mut FrameGrids,
    r: &mut BitReader,
    mb: usize,
    sid: i32,
    cbp: u32,
) -> (ok: bool)
    requires
        old(g)@.wf(),
        mb < old(g)@.mbs(),
    ensures
        (ok, final(g)@, final(r)@) == residual(old(g)@, old(r)@, mb as int, sid, cbp),
        final(g)@.like(old(g)@),
{
    proof {
        reveal(residual);
    }
    read_luma_quadrants(g, r, mb, sid, cbp) && residual_chroma(g, r, mb, sid, cbp)
}

/// The residual of an `I_16x16` macroblock. The count of its DC block is not kept.
#[verifier::opaque]
pub open spec fn residual16(g: GridsV, b: Bits, mb: int, sid: i32, cbp: u32) -> (
    bool,
    GridsV,
    Bits,
) {
    let (dc, b) = block(b, g.nnz_pred(mb, 0, 0, sid), 16);
    match dc {
        None => (false, g, b),
        Some(_) => {
            let (ok, g, b) = if cbp & 15 != 0 {
                luma_blocks(g, b, mb, sid, 0, 16, 15)
            } else {
                (true, g.put_nnz(mb, 0, 0, 4, 4, 0), b)
            };
            if ok {
                chroma_residual(g, b, mb, sid, cbp)
            } else {
                (false, g, b)
            }
        },
    }
}

fn residual_i16x16(g: &mut FrameGrids, r: &mut BitReader, mb: usize, sid: i32, cbp: u32) -> (ok:
    bool)
    requires
        old(g)@.wf(),
        mb < old(g)@.mbs(),
    ensures
        (ok, final(g)@, final(r)@) == residual16(old(g)@, old(r)@, mb as int, sid, cbp),
        final(g)@.like(old(g)@),
{
    proof {
        reveal(residual16);
    }
    let nc = g.nnz_pred_luma(mb, 0, 0, sid);
    if residual_block(r, nc, 16).is_none() {
        return false;
    }
    if cbp & 15 != 0 {
        if !read_luma_blocks(g, r, mb, sid, 0, 16, 15) {
            return false;
        }
    } else {
        g.put_nnz(mb, 0, 0, 4, 4, 0);
    }
    residual_chroma(g, r, mb, sid, cbp)
}

/// The residual behind a coded block pattern that may be zero.
#[verifier::opaque]
pub open spec fn coded_residual(g: GridsV, b: Bits, mb: int, sid: i32, cbp: u32) -> (
    bool,
    GridsV,
    Bits,
) {
    if cbp != 0 {
        residual(g, b.se().1, mb, sid, cbp)
    } else {
        (true, g.put_mb_nnz(mb, 0), b)
    }
}

fn read_coded_residual(
    g: &mut FrameGrids,
    r: &mut BitReader,
    mb: usize,
    sid: i32,
    cbp: u32,
) -> (ok: bool)
    requires
        old(g)@.wf(),
        mb < old(g)@.mbs(),
    ensures
        (ok, final(g)@, final(r)@) == coded_residual(old(g)@, old(r)@, mb as int, sid, cbp),
        final(g)@.like(old(g)@),
{
    proof {
        reveal(coded_residual);
    }
    if cbp != 0 {
        let _mb_qp_delta = r.read_se();
        residual_non_i16x16(g, r, mb, sid, cbp)
    } else {
        g.put_mb_nnz(mb, 0);
        true
    }
}

// ---------------------------------------------------------------------------
// Intra macroblocks

/// Prediction modes of blocks `i..16` in steps of `step`: a flag, and three more bits behind a 0.
pub open spec fn pred_modes(b: Bits, i: int, step: int) -> Bits
    decreases
            (if i < 16 {
                16 - i
            } else {
                0
            }),
{
    if i >= 16 || step <= 0 {
        b
    } else {
        let (same, b) = b.flag();
        pred_modes(
            if same {
                b
            } else {
                b.u(3).1
            },
            i + step,
            step,
        )
    }
}

fn skip_pred_modes(r: &mut BitReader, step: usize)
    requires
        step == 1 || step == 4,
    ensures
        final(r)@ == pred_modes(old(r)@, 0, step as int),
{
    let mut i: usize = 0;
    while i < 16
        invariant
            i <= 16,
            step == 1 || step == 4,
            step == 4 ==> i % 4 == 0,
            pred_modes(r@, i as int, step as int) == pred_modes(old(r)@, 0, step as int),
        decreases 16 - i,
    {
        if !r.read_flag() {
            let _rem = r.read_bits(3);
        }
        i += step;
    }
}

/// The coded block pattern that `I_16x16` type `t` stands for.
#[verifier::opaque]
pub open spec fn cbp16(t: u32) -> u32 {
    let i0 = (t - 1) as u32;
    let luma: u32 = if i0 / 12 != 0 {
        0x0f
    } else {
        0
    };
    luma | (((i0 / 4) % 3) << 4)
}

pub(crate) fn i16x16_cbp(t: u32) -> (cbp: u32)
    requires
        1 <= t,
    ensures
        cbp == cbp16(t),
{
    proof {
        reveal(cbp16);
    }
    let i0: u32 = t - 1;
    let luma: u32 = if i0 / 12 != 0 {
        0x0f
    } else {
        0
    };
    luma | (((i0 / 4) % 3) << 4)
}

/// Samples of an `I_PCM` macroblock: alignment to a byte, then 384 bytes.
#[verifier::opaque]
pub open spec fn pcm(b: Bits) -> Bits {
    let b = if b.pos % 8 != 0 {
        b.seek(8 - b.pos % 8)
    } else {
        b
    };
    b.seek(3072)
}

/// The syntax and coefficient counts of an intra macroblock of type `t`.
#[verifier::opaque]
pub open spec fn intra(g: GridsV, b: Bits, mb: int, sid: i32, t: u32, pps: Pps) -> (
    bool,
    GridsV,
    Bits,
) {
    if t > 25 {
        (false, g, b)
    } else if t == 25 {
        (true, g.put_mb_nnz(mb, 16), pcm(b))
    } else if t == 0 {
        let (big, b) = if pps.transform_8x8_mode_flag {
            b.flag()
        } else {
            (false, b)
        };
        let b = pred_modes(
            b,
            0,
            if big {
                4
            } else {
                1
            },
        );
        let (_, b) = b.ue();
        let (code, b) = b.ue();
        if code >= 48 {
            (false, g, b)
        } else {
            coded_residual(g, b, mb, sid, GOLOMB_TO_INTRA_CBP[code as int] as u32)
        }
    } else {
        residual16(g, b.ue().1.se().1, mb, sid, cbp16(t))
    }
}

fn decode_intra(
    g: &mut FrameGrids,
    r: &mut BitReader,
    mb: usize,
    sid: i32,
    t: u32,
    pps: &Pps,
) -> (ok: bool)
    requires
        old(g)@.wf(),
        mb < old(g)@.mbs(),
    ensures
        (ok, final(g)@, final(r)@) == intra(old(g)@, old(r)@, mb as int, sid, t, *pps),
        final(g)@.like(old(g)@),
{
    proof {
        reveal(intra);
        reveal(pcm);
    }
    if t > 25 {
        return false;
    }
    if t == 25 {
        let rem: usize = r.pos() % 8;
        if rem != 0 {
            r.skip_bits(8 - rem);
        }
        r.skip_bits(3072);
        g.put_mb_nnz(mb, 16);
        return true;
    }
    if t == 0 {
        let big = pps.transform_8x8_mode_flag && r.read_flag();
        skip_pred_modes(
            r,
            if big {
                4
            } else {
                1
            },
        );
        let _chroma_pred_mode = r.read_ue();
        let code = r.read_ue();
        if code >= 48 {
            return false;
        }
        read_coded_residual(g, r, mb, sid, GOLOMB_TO_INTRA_CBP[code as usize] as u32)
    } else {
        let _chroma_pred_mode = r.read_ue();
        let _mb_qp_delta = r.read_se();
        residual_i16x16(g, r, mb, sid, i16x16_cbp(t))
    }
}

// ---------------------------------------------------------------------------
// Inter macroblocks

/// A skipped P macroblock: 16x16 with the predicted vector and reference 0.
#[verifier::opaque]
pub open spec fn p_skip(g: GridsV, mb: int, sid: i32) -> GridsV {
    let g = g.put_slice(mb, sid);
    g.fill(0, mb, 0, 0, 4, 4, g.pred_skip(mb, sid), 0).put_seg(mb, Seg::Skip).put_decoded(mb)
}

pub(crate) fn decode_p_skip(g: &mut FrameGrids, mb: usize, sid: i32)
    requires
        old(g)@.wf(),
        mb < old(g)@.mbs(),
    ensures
        final(g)@ == p_skip(old(g)@, mb as int, sid),
        final(g)@.like(old(g)@),
{
    proof {
        reveal(p_skip);
    }
    g.put_slice(mb, sid);
    let mv = g.pred_pskip(mb, sid);
    g.fill(0, mb, 0, 0, 4, 4, mv, 0);
    g.put_seg(mb, Seg::Skip);
    g.put_decoded(mb);
}

/// `ref_idx`: nothing coded for one reference, an inverted bit for two.
#[verifier::opaque]
pub open spec fn ref_idx(b: Bits, active: u32) -> (i32, Bits) {
    if active <= 1 {
        (0, b)
    } else if active == 2 {
        let (bit, b) = b.bit();
        ((bit ^ 1) as i32, b)
    } else {
        let (v, b) = b.ue();
        (v as i32, b)
    }
}

fn read_ref(r: &mut BitReader, active: u32) -> (v: i32)
    ensures
        (v, final(r)@) == ref_idx(old(r)@, active),
{
    proof {
        reveal(ref_idx);
    }
    if active <= 1 {
        0
    } else if active == 2 {
        (r.read_bit() ^ 1) as i32
    } else {
        r.read_ue() as i32
    }
}

/// A vector difference.
pub open spec fn mvd(b: Bits) -> (Mv, Bits) {
    let (x, b) = b.se();
    let (y, b) = b.se();
    (Mv { x, y }, b)
}

/// A partition: its vector is `pred` plus the coded difference.
#[verifier::opaque]
pub open spec fn partition(
    g: GridsV,
    b: Bits,
    mb: int,
    bx: int,
    by: int,
    w: int,
    h: int,
    refi: i32,
    pred: Mv,
) -> (GridsV, Bits) {
    let (d, b) = mvd(b);
    (g.fill(0, mb, bx, by, w, h, mv_sum(pred, d), refi), b)
}

fn read_partition(
    g: &mut FrameGrids,
    r: &mut BitReader,
    mb: usize,
    bx: usize,
    by: usize,
    w: usize,
    h: usize,
    refi: i32,
    pred: Mv,
)
    requires
        old(g)@.wf(),
        mb < old(g)@.mbs(),
        bx + w <= 4,
        by + h <= 4,
    ensures
        (final(g)@, final(r)@) == partition(
            old(g)@,
            old(r)@,
            mb as int,
            bx as int,
            by as int,
            w as int,
            h as int,
            refi,
            pred,
        ),
        final(g)@.like(old(g)@),
{
    proof {
        reveal(partition);
    }
    let x = r.read_se();
    let y = r.read_se();
    g.fill(0, mb, bx, by, w, h, add_mv(pred, Mv { x, y }), refi);
}

/// An undivided P macroblock.
#[verifier::opaque]
pub open spec fn p_whole(g: GridsV, b: Bits, mb: int, sid: i32, n0: u32) -> (GridsV, Bits) {
    let (refi, b) = ref_idx(b, n0);
    let g = g.fill(0, mb, 0, 0, 4, 4, zero_mv(), refi);
    partition(g, b, mb, 0, 0, 4, 4, refi, g.pred(0, mb, 0, 0, 4, refi, sid))
}

fn read_p_whole(g: &mut FrameGrids, r: &mut BitReader, mb: usize, sid: i32, n0: u32)
    requires
        old(g)@.wf(),
        mb < old(g)@.mbs(),
    ensures
        (final(g)@, final(r)@) == p_whole(old(g)@, old(r)@, mb as int, sid, n0),
        final(g)@.like(old(g)@),
{
    proof {
        reveal(p_whole);
    }
    let refi = read_ref(r, n0);
    g.fill(0, mb, 0, 0, 4, 4, Mv { x: 0, y: 0 }, refi);
    let pred = g.pred_motion(0, mb, 0, 0, 4, refi, sid);
    read_partition(g, r, mb, 0, 0, 4, 4, refi, pred);
}

/// A P macroblock in an upper and a lower half.
#[verifier::opaque]
pub open spec fn p_wide(g: GridsV, b: Bits, mb: int, sid: i32, n0: u32) -> (GridsV, Bits) {
    let (r0, b) = ref_idx(b, n0);
    let (r1, b) = ref_idx(b, n0);
    let g = g.fill(0, mb, 0, 0, 4, 2, zero_mv(), r0).fill(0, mb, 0, 2, 4, 2, zero_mv(), r1);
    let (g, b) = partition(g, b, mb, 0, 0, 4, 2, r0, g.pred_wide(0, mb, 0, r0, sid));
    partition(g, b, mb, 0, 2, 4, 2, r1, g.pred_wide(0, mb, 1, r1, sid))
}

fn read_p_wide(g: &mut FrameGrids, r: &mut BitReader, mb: usize, sid: i32, n0: u32)
    requires
        old(g)@.wf(),
        mb < old(g)@.mbs(),
    ensures
        (final(g)@, final(r)@) == p_wide(old(g)@, old(r)@, mb as int, sid, n0),
        final(g)@.like(old(g)@),
{
    proof {
        reveal(p_wide);
    }
    let r0 = read_ref(r, n0);
    let r1 = read_ref(r, n0);
    g.fill(0, mb, 0, 0, 4, 2, Mv { x: 0, y: 0 }, r0);
    g.fill(0, mb, 0, 2, 4, 2, Mv { x: 0, y: 0 }, r1);
    let pred = g.pred_16x8(0, mb, 0, r0, sid);
    read_partition(g, r, mb, 0, 0, 4, 2, r0, pred);
    let pred = g.pred_16x8(0, mb, 1, r1, sid);
    read_partition(g, r, mb, 0, 2, 4, 2, r1, pred);
}

/// A P macroblock in a left and a right half.
#[verifier::opaque]
pub open spec fn p_tall(g: GridsV, b: Bits, mb: int, sid: i32, n0: u32) -> (GridsV, Bits) {
    let (r0, b) = ref_idx(b, n0);
    let (r1, b) = ref_idx(b, n0);
    let g = g.fill(0, mb, 0, 0, 2, 4, zero_mv(), r0).fill(0, mb, 2, 0, 2, 4, zero_mv(), r1);
    let (g, b) = partition(g, b, mb, 0, 0, 2, 4, r0, g.pred_tall(0, mb, 0, r0, sid));
    partition(g, b, mb, 2, 0, 2, 4, r1, g.pred_tall(0, mb, 1, r1, sid))
}

fn read_p_tall(g: &mut FrameGrids, r: &mut BitReader, mb: usize, sid: i32, n0: u32)
    requires
        old(g)@.wf(),
        mb < old(g)@.mbs(),
    ensures
        (final(g)@, final(r)@) == p_tall(old(g)@, old(r)@, mb as int, sid, n0),
        final(g)@.like(old(g)@),
{
    proof {
        reveal(p_tall);
    }
    let r0 = read_ref(r, n0);
    let r1 = read_ref(r, n0);
    g.fill(0, mb, 0, 0, 2, 4, Mv { x: 0, y: 0 }, r0);
    g.fill(0, mb, 2, 0, 2, 4, Mv { x: 0, y: 0 }, r1);
    let pred = g.pred_8x16(0, mb, 0, r0, sid);
    read_partition(g, r, mb, 0, 0, 2, 4, r0, pred);
    let pred = g.pred_8x16(0, mb, 1, r1, sid);
    read_partition(g, r, mb, 2, 0, 2, 4, r1, pred);
}

/// Sub-macroblock types of quadrants `i..4` appended to `types`; `None` where one is not below 4.
pub open spec fn sub_types(b: Bits, types: Seq<u32>, i: int) -> (Option<Seq<u32>>, Bits)
    decreases 4 - i,
{
    if i >= 4 {
        (Some(types), b)
    } else {
        let (t, b) = b.ue();
        if t >= 4 {
            (None, b)
        } else {
            sub_types(b, types.push(t), i + 1)
        }
    }
}

fn read_sub_types(r: &mut BitReader) -> (types: Option<Vec<u32>>)
    ensures
        sub_types(old(r)@, Seq::empty(), 0).1 == final(r)@,
        types matches Some(t) ==> sub_types(old(r)@, Seq::empty(), 0).0 == Some(t@) && t@.len()
            == 4,
        types is None ==> sub_types(old(r)@, Seq::empty(), 0).0 is None,
{
    let mut types: Vec<u32> = Vec::new();
    assert(types@ =~= Seq::<u32>::empty());
    let mut i: usize = 0;
    while i < 4
        invariant
            i <= 4,
            types@.len() == i,
            sub_types(r@, types@, i as int) == sub_types(old(r)@, Seq::empty(), 0),
        decreases 4 - i,
    {
        let t = r.read_ue();
        if t >= 4 {
            return None;
        }
        types.push(t);
        i += 1;
    }
    Some(types)
}

/// References of quadrants `i..4`, each stored before the next is read.
pub open spec fn sub_refs(
    g: GridsV,
    b: Bits,
    mb: int,
    n0: u32,
    ref0: bool,
    refs: Seq<i32>,
    i: int,
) -> (Seq<i32>, GridsV, Bits)
    decreases 4 - i,
{
    if i >= 4 {
        (refs, g, b)
    } else {
        let (refi, b) = if ref0 {
            (0i32, b)
        } else {
            ref_idx(b, n0)
        };
        sub_refs(
            g.fill(0, mb, i % 2 * 2, i / 2 * 2, 2, 2, zero_mv(), refi),
            b,
            mb,
            n0,
            ref0,
            refs.push(refi),
            i + 1,
        )
    }
}

fn read_sub_refs(g: &mut FrameGrids, r: &mut BitReader, mb: usize, n0: u32, ref0: bool) -> (refs:
    Vec<i32>)
    requires
        old(g)@.wf(),
        mb < old(g)@.mbs(),
    ensures
        (refs@, final(g)@, final(r)@) == sub_refs(
            old(g)@,
            old(r)@,
            mb as int,
            n0,
            ref0,
            Seq::empty(),
            0,
        ),
        refs@.len() == 4,
        final(g)@.like(old(g)@),
{
    let mut refs: Vec<i32> = Vec::new();
    assert(refs@ =~= Seq::<i32>::empty());
    let mut i: usize = 0;
    while i < 4
        invariant
            i <= 4,
            refs@.len() == i,
            g@.like(old(g)@),
            mb < g@.mbs(),
            sub_refs(g@, r@, mb as int, n0, ref0, refs@, i as int) == sub_refs(
                old(g)@,
                old(r)@,
                mb as int,
                n0,
                ref0,
                Seq::empty(),
                0,
            ),
        decreases 4 - i,
    {
        let refi = if ref0 {
            0
        } else {
            read_ref(r, n0)
        };
        g.fill(0, mb, i % 2 * 2, i / 2 * 2, 2, 2, Mv { x: 0, y: 0 }, refi);
        refs.push(refi);
        i += 1;
    }
    refs
}

/// One part of a quadrant, predicted from its own neighbours.
#[verifier::opaque]
pub open spec fn sub_part(
    g: GridsV,
    b: Bits,
    mb: int,
    sid: i32,
    bx: int,
    by: int,
    w: int,
    h: int,
    refi: i32,
) -> (GridsV, Bits) {
    partition(g, b, mb, bx, by, w, h, refi, g.pred(0, mb, bx, by, w, refi, sid))
}

fn read_sub_part(
    g: &mut FrameGrids,
    r: &mut BitReader,
    mb: usize,
    sid: i32,
    bx: usize,
    by: usize,
    w: usize,
    h: usize,
    refi: i32,
)
    requires
        old(g)@.wf(),
        mb < old(g)@.mbs(),
        bx + w <= 4,
        by + h <= 4,
        0 < w,
        0 < h,
    ensures
        (final(g)@, final(r)@) == sub_part(
            old(g)@,
            old(r)@,
            mb as int,
            sid,
            bx as int,
            by as int,
            w as int,
            h as int,
            refi,
        ),
        final(g)@.like(old(g)@),
{
    proof {
        reveal(sub_part);
    }
    let pred = g.pred_motion(0, mb, bx, by, w, refi, sid);
    read_partition(g, r, mb, bx, by, w, h, refi, pred);
}

/// The parts of a quadrant at block `x`, `y`: undivided, two 8x4, two 4x8 or four 4x4.
#[verifier::opaque]
pub open spec fn quadrant(
    g: GridsV,
    b: Bits,
    mb: int,
    sid: i32,
    x: int,
    y: int,
    t: u32,
    refi: i32,
) -> (GridsV, Bits) {
    if t == 0 {
        sub_part(g, b, mb, sid, x, y, 2, 2, refi)
    } else if t == 1 {
        let (g, b) = sub_part(g, b, mb, sid, x, y, 2, 1, refi);
        sub_part(g, b, mb, sid, x, y + 1, 2, 1, refi)
    } else if t == 2 {
        let (g, b) = sub_part(g, b, mb, sid, x, y, 1, 2, refi);
        sub_part(g, b, mb, sid, x + 1, y, 1, 2, refi)
    } else {
        let (g, b) = sub_part(g, b, mb, sid, x, y, 1, 1, refi);
        let (g, b) = sub_part(g, b, mb, sid, x + 1, y, 1, 1, refi);
        let (g, b) = sub_part(g, b, mb, sid, x, y + 1, 1, 1, refi);
        sub_part(g, b, mb, sid, x + 1, y + 1, 1, 1, refi)
    }
}

fn read_quadrant(
    g: &mut FrameGrids,
    r: &mut BitReader,
    mb: usize,
    sid: i32,
    x: usize,
    y: usize,
    t: u32,
    refi: i32,
)
    requires
        old(g)@.wf(),
        mb < old(g)@.mbs(),
        x <= 2,
        y <= 2,
    ensures
        (final(g)@, final(r)@) == quadrant(
            old(g)@,
            old(r)@,
            mb as int,
            sid,
            x as int,
            y as int,
            t,
            refi,
        ),
        final(g)@.like(old(g)@),
{
    proof {
        reveal(quadrant);
    }
    if t == 0 {
        read_sub_part(g, r, mb, sid, x, y, 2, 2, refi);
    } else if t == 1 {
        read_sub_part(g, r, mb, sid, x, y, 2, 1, refi);
        read_sub_part(g, r, mb, sid, x, y + 1, 2, 1, refi);
    } else if t == 2 {
        read_sub_part(g, r, mb, sid, x, y, 1, 2, refi);
        read_sub_part(g, r, mb, sid, x + 1, y, 1, 2, refi);
    } else {
        read_sub_part(g, r, mb, sid, x, y, 1, 1, refi);
        read_sub_part(g, r, mb, sid, x + 1, y, 1, 1, refi);
        read_sub_part(g, r, mb, sid, x, y + 1, 1, 1, refi);
        read_sub_part(g, r, mb, sid, x + 1, y + 1, 1, 1, refi);
    }
}

/// Vectors of quadrants `i..4`.
pub open spec fn quadrants(
    g: GridsV,
    b: Bits,
    mb: int,
    sid: i32,
    types: Seq<u32>,
    refs: Seq<i32>,
    i: int,
) -> (GridsV, Bits)
    decreases 4 - i,
{
    if i >= 4 {
        (g, b)
    } else {
        let (g, b) = quadrant(g, b, mb, sid, i % 2 * 2, i / 2 * 2, types[i], refs[i]);
        quadrants(g, b, mb, sid, types, refs, i + 1)
    }
}

fn read_quadrants(
    g: &mut FrameGrids,
    r: &mut BitReader,
    mb: usize,
    sid: i32,
    types: &Vec<u32>,
    refs: &Vec<i32>,
)
    requires
        old(g)@.wf(),
        mb < old(g)@.mbs(),
        types@.len() == 4,
        refs@.len() == 4,
    ensures
        (final(g)@, final(r)@) == quadrants(
            old(g)@,
            old(r)@,
            mb as int,
            sid,
            types@,
            refs@,
            0,
        ),
        final(g)@.like(old(g)@),
{
    let mut i: usize = 0;
    while i < 4
        invariant
            i <= 4,
            types@.len() == 4,
            refs@.len() == 4,
            g@.like(old(g)@),
            mb < g@.mbs(),
            quadrants(g@, r@, mb as int, sid, types@, refs@, i as int) == quadrants(
                old(g)@,
                old(r)@,
                mb as int,
                sid,
                types@,
                refs@,
                0,
            ),
        decreases 4 - i,
    {
        read_quadrant(g, r, mb, sid, i % 2 * 2, i / 2 * 2, types[i], refs[i]);
        i += 1;
    }
}

/// A P macroblock in four quadrants: all types, all references, then the vectors.
#[verifier::opaque]
pub open spec fn p_8x8(g: GridsV, b: Bits, mb: int, sid: i32, n0: u32, ref0: bool) -> (
    bool,
    GridsV,
    Bits,
) {
    let (types, b) = sub_types(b, Seq::empty(), 0);
    match types {
        None => (false, g, b),
        Some(types) => {
            let (refs, g, b) = sub_refs(g, b, mb, n0, ref0, Seq::empty(), 0);
            let (g, b) = quadrants(g, b, mb, sid, types, refs, 0);
            (true, g, b)
        },
    }
}

fn decode_p_8x8(
    g: &mut FrameGrids,
    r: &mut BitReader,
    mb: usize,
    sid: i32,
    n0: u32,
    ref0: bool,
) -> (ok: bool)
    requires
        old(g)@.wf(),
        mb < old(g)@.mbs(),
    ensures
        (ok, final(g)@, final(r)@) == p_8x8(old(g)@, old(r)@, mb as int, sid, n0, ref0),
        final(g)@.like(old(g)@),
{
    proof {
        reveal(p_8x8);
    }
    match read_sub_types(r) {
        None => false,
        Some(types) => {
            let refs = read_sub_refs(g, r, mb, n0, ref0);
            read_quadrants(g, r, mb, sid, &types, &refs);
            true
        },
    }
}

/// The motion of a P macroblock of type `t`, and how it is divided; `None` where it does not
/// decode.
#[verifier::opaque]
pub open spec fn p_motion(g: GridsV, b: Bits, mb: int, sid: i32, n0: u32, t: u32) -> (
    Option<Seg>,
    GridsV,
    Bits,
) {
    if t == 0 {
        let (g, b) = p_whole(g, b, mb, sid, n0);
        (Some(Seg::P16x16), g, b)
    } else if t == 1 {
        let (g, b) = p_wide(g, b, mb, sid, n0);
        (Some(Seg::P16x8), g, b)
    } else if t == 2 {
        let (g, b) = p_tall(g, b, mb, sid, n0);
        (Some(Seg::P8x16), g, b)
    } else if t <= 4 {
        let (ok, g, b) = p_8x8(g, b, mb, sid, n0, t == 4);
        (
            if ok {
                Some(Seg::P8x8)
            } else {
                None
            },
            g,
            b,
        )
    } else {
        (None, g, b)
    }
}

fn read_p_motion(
    g: &mut FrameGrids,
    r: &mut BitReader,
    mb: usize,
    sid: i32,
    n0: u32,
    t: u32,
) -> (seg: Option<Seg>)
    requires
        old(g)@.wf(),
        mb < old(g)@.mbs(),
    ensures
        (seg, final(g)@, final(r)@) == p_motion(old(g)@, old(r)@, mb as int, sid, n0, t),
        final(g)@.like(old(g)@),
{
    proof {
        reveal(p_motion);
    }
    match t {
        0 => {
            read_p_whole(g, r, mb, sid, n0);
            Some(Seg::P16x16)
        },
        1 => {
            read_p_wide(g, r, mb, sid, n0);
            Some(Seg::P16x8)
        },
        2 => {
            read_p_tall(g, r, mb, sid, n0);
            Some(Seg::P8x16)
        },
        3 | 4 => {
            if decode_p_8x8(g, r, mb, sid, n0, t == 4) {
                Some(Seg::P8x8)
            } else {
                None
            }
        },
        _ => None,
    }
}

/// A P macroblock of type `t`: motion, coded block pattern and residual.
#[verifier::opaque]
pub open spec fn p_inter(g: GridsV, b: Bits, mb: int, sid: i32, n0: u32, t: u32, pps: Pps) -> (
    bool,
    GridsV,
    Bits,
) {
    let (seg, g, b) = p_motion(g, b, mb, sid, n0, t);
    match seg {
        None => (false, g, b),
        Some(seg) => {
            let g = g.put_seg(mb, seg).put_decoded(mb);
            let (code, b) = b.ue();
            if code >= 48 {
                (false, g, b)
            } else {
                let cbp = GOLOMB_TO_INTER_CBP[code as int] as u32;
                let b = if pps.transform_8x8_mode_flag && cbp & 15 != 0 {
                    b.flag().1
                } else {
                    b
                };
                coded_residual(g, b, mb, sid, cbp)
            }
        },
    }
}

fn decode_p_inter(
    g: &mut FrameGrids,
    r: &mut BitReader,
    mb: usize,
    sid: i32,
    n0: u32,
    t: u32,
    pps: &Pps,
) -> (ok: bool)
    requires
        old(g)@.wf(),
        mb < old(g)@.mbs(),
    ensures
        (ok, final(g)@, final(r)@) == p_inter(old(g)@, old(r)@, mb as int, sid, n0, t, *pps),
        final(g)@.like(old(g)@),
{
    proof {
        reveal(p_inter);
    }
    match read_p_motion(g, r, mb, sid, n0, t) {
        None => false,
        Some(seg) => {
            g.put_seg(mb, seg);
            g.put_decoded(mb);
            let code = r.read_ue();
            if code >= 48 {
                return false;
            }
            let cbp = GOLOMB_TO_INTER_CBP[code as usize] as u32;
            if pps.transform_8x8_mode_flag && cbp & 15 != 0 {
                let _transform_size_8x8 = r.read_flag();
            }
            read_coded_residual(g, r, mb, sid, cbp)
        },
    }
}

/// One macroblock that is not skipped.
#[verifier::opaque]
pub open spec fn macroblock(g: GridsV, b: Bits, mb: int, sid: i32, sh: SliceHeader, pps: Pps) -> (
    bool,
    GridsV,
    Bits,
) {
    let g = g.put_slice(mb, sid);
    let (t, b) = b.ue();
    if !sh.slice_type.intra() && t < 5 {
        p_inter(g, b, mb, sid, sh.num_ref_idx_l0_active, t, pps)
    } else {
        let t = if sh.slice_type.intra() {
            t
        } else {
            (t - 5) as u32
        };
        let (ok, g, b) = intra(g, b, mb, sid, t, pps);
        (
            ok,
            if ok {
                g.intra_l0(mb).put_seg(mb, Seg::Intra).put_decoded(mb)
            } else {
                g
            },
            b,
        )
    }
}

fn decode_macroblock(
    g: &mut FrameGrids,
    r: &mut BitReader,
    mb: usize,
    sid: i32,
    sh: &SliceHeader,
    pps: &Pps,
) -> (ok: bool)
    requires
        old(g)@.wf(),
        mb < old(g)@.mbs(),
    ensures
        (ok, final(g)@, final(r)@) == macroblock(old(g)@, old(r)@, mb as int, sid, *sh, *pps),
        final(g)@.like(old(g)@),
{
    proof {
        reveal(macroblock);
    }
    g.put_slice(mb, sid);
    let mut t = r.read_ue();
    if !sh.slice_type.is_intra() {
        if t < 5 {
            return decode_p_inter(g, r, mb, sid, sh.num_ref_idx_l0_active, t, pps);
        }
        t = t - 5;
    }
    let ok = decode_intra(g, r, mb, sid, t, pps);
    if ok {
        g.intra_l0(mb);
        g.put_seg(mb, Seg::Intra);
        g.put_decoded(mb);
    }
    ok
}

// ---------------------------------------------------------------------------
// Slices

/// Macroblocks `mb..end` skipped.
pub open spec fn skips(g: GridsV, mb: int, end: int, sid: i32) -> GridsV
    decreases end - mb,
{
    if mb >= end {
        g
    } else {
        skips(p_skip(g, mb, sid), mb + 1, end, sid)
    }
}

fn decode_skips(g: &mut FrameGrids, mb: usize, end: usize, sid: i32)
    requires
        old(g)@.wf(),
        mb <= end <= old(g)@.mbs(),
    ensures
        final(g)@ == skips(old(g)@, mb as int, end as int, sid),
        final(g)@.like(old(g)@),
{
    let mut cur: usize = mb;
    while cur < end
        invariant
            mb <= cur <= end <= g@.mbs(),
            g@.like(old(g)@),
            skips(g@, cur as int, end as int, sid) == skips(old(g)@, mb as int, end as int, sid),
        decreases end - cur,
    {
        decode_p_skip(g, cur, sid);
        cur += 1;
    }
}

/// Slice data from macroblock `cur` on, in a picture of `n` macroblocks: whether it stays
/// parsable, the macroblock behind the last one decoded, and the state there.
pub open spec fn slice_from(
    g: GridsV,
    b: Bits,
    cur: int,
    n: int,
    sh: SliceHeader,
    pps: Pps,
    sid: i32,
) -> (bool, int, GridsV, Bits)
    decreases n - cur,
{
    if cur >= n {
        (true, cur, g, b)
    } else {
        let inter = sh.slice_type == SliceType::P || sh.slice_type == SliceType::Sp;
        let (run, b) = if inter {
            b.ue()
        } else {
            (0, b)
        };
        let at = if run <= n - cur {
            cur + run
        } else {
            n
        };
        let g = skips(g, cur, at, sid);
        if at >= n || (run > 0 && !b.more_rbsp_data()) {
            (true, at, g, b)
        } else {
            let (ok, g, b) = macroblock(g, b, at, sid, sh, pps);
            if !ok {
                (false, at, g, b)
            } else if !b.more_rbsp_data() {
                (true, at + 1, g, b)
            } else {
                slice_from(g, b, at + 1, n, sh, pps, sid)
            }
        }
    }
}

/// Decodes a CAVLC slice into `g`. The reader stands at the slice data; `sid` numbers the slice
/// within its picture.
pub fn decode_slice(
    g: &mut FrameGrids,
    r: &mut BitReader,
    sh: &SliceHeader,
    _sps: &Sps,
    pps: &Pps,
    sid: i32,
) -> (res: SliceResult)
    requires
        old(g)@.wf(),
    ensures
        (res.ok, res.mbs_decoded + sh.first_mb_in_slice, final(g)@, final(r)@) == slice_from(
            old(g)@,
            old(r)@,
            sh.first_mb_in_slice as int,
            old(g)@.mbs(),
            *sh,
            *pps,
            sid,
        ),
        final(g)@.like(old(g)@),
        res.mbs_decoded > 0 ==> res.mbs_decoded + sh.first_mb_in_slice <= old(g)@.mbs(),
{
    let n = g.mb_count();
    let inter = matches!(sh.slice_type, SliceType::P | SliceType::Sp);
    let first: usize = sh.first_mb_in_slice as usize;
    let ghost whole = slice_from(g@, r@, first as int, n as int, *sh, *pps, sid);
    let mut cur: usize = first;
    while cur < n
        invariant
            first == sh.first_mb_in_slice,
            first <= cur,
            cur == first || cur <= n,
            g@.like(old(g)@),
            n == g@.mbs(),
            inter == (sh.slice_type == SliceType::P || sh.slice_type == SliceType::Sp),
            slice_from(g@, r@, cur as int, n as int, *sh, *pps, sid) == whole,
            whole == slice_from(
                old(g)@,
                old(r)@,
                sh.first_mb_in_slice as int,
                old(g)@.mbs(),
                *sh,
                *pps,
                sid,
            ),
        decreases n - cur,
    {
        let run: usize = if inter {
            r.read_ue() as usize
        } else {
            0
        };
        let at: usize = if run <= n - cur {
            cur + run
        } else {
            n
        };
        decode_skips(g, cur, at, sid);
        if at >= n || (run > 0 && !r.more_rbsp_data()) {
            return SliceResult { mbs_decoded: at - first, ok: true };
        }
        if !decode_macroblock(g, r, at, sid, sh, pps) {
            return SliceResult { mbs_decoded: at - first, ok: false };
        }
        cur = at + 1;
        if !r.more_rbsp_data() {
            return SliceResult { mbs_decoded: cur - first, ok: true };
        }
    }
    SliceResult { mbs_decoded: cur - first, ok: true }
}

} // verus!
