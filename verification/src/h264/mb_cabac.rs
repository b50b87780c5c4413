//! Macroblocks and slices of CABAC streams.

use super::contexts::{Cab, Cabd};
use super::grids::{FrameGrids, GridsV, Seg};
use crate::grid::{one, one_if};
use super::mb_cavlc::{cbp16, decode_p_skip, i16x16_cbp, p_skip, SliceResult};
use super::params::{Pps, SliceHeader, Sps};
use super::residual_cabac::{chroma, luma, residual_chroma_cabac, residual_luma_cabac};
use crate::motion::{add_mv, mv_sum, zero_mv, Mv};
use vstd::prelude::*;

verus! {

// ---------------------------------------------------------------------------
// Vector differences

/// The unary part of a difference, up to 9.
pub open spec fn mvd_prefix(c: Cab, ctx: int, mvd: int) -> (int, Cab)
    decreases 9 - mvd,
{
    if mvd >= 9 {
        (mvd, c)
    } else {
        let (more, c) = c.flag(ctx);
        if more {
            mvd_prefix(
                c,
                if mvd < 4 {
                    ctx + 1
                } else {
                    ctx
                },
                mvd + 1,
            )
        } else {
            (mvd, c)
        }
    }
}

/// The prefix of an escaped difference: each bypass bin of 1 adds a power of two.
pub open spec fn mvd_escape(c: Cab, mvd: i32, k: u32) -> (i32, u32, Cab)
    decreases 25 - k,
{
    if k > 24 {
        (mvd, k, c)
    } else {
        let (bin, c) = c.bypass();
        if bin == 1 {
            mvd_escape(c, mvd.wrapping_add(1i32 << k), (k + 1) as u32)
        } else {
            (mvd, k, c)
        }
    }
}

/// The suffix of an escaped difference: `k` bypass bins.
pub open spec fn mvd_suffix(c: Cab, mvd: i32, k: u32) -> (i32, Cab)
    decreases k,
{
    if k == 0 {
        (mvd, c)
    } else {
        let (bin, c) = c.bypass();
        mvd_suffix(c, mvd.wrapping_add((bin as i32) << ((k - 1) as u32)), (k - 1) as u32)
    }
}

/// The magnitude of a difference that is not zero.
#[verifier::opaque]
pub open spec fn mvd_abs(c: Cab, base: int) -> (i32, Cab) {
    let (n, c) = mvd_prefix(c, base + 3, 1);
    if n >= 9 {
        let (mvd, k, c) = mvd_escape(c, n as i32, 3);
        mvd_suffix(c, mvd, k)
    } else {
        (n as i32, c)
    }
}

fn read_mvd_abs(cd: &mut Cabd, base: usize) -> (mvd: i32)
    requires
        base < 100,
    ensures
        (mvd, final(cd)@) == mvd_abs(old(cd)@, base as int),
{
    proof {
        reveal(mvd_abs);
    }
    let ghost c0 = cd@;
    let ghost prefix = mvd_prefix(c0, base + 3, 1);
    let mut n: i32 = 1;
    let mut ctx: usize = base + 3;
    let mut more = cd.flag(ctx);
    while more && n < 8
        invariant
            1 <= n <= 8,
            ctx <= base + 2 + n,
            base < 100,
            more ==> mvd_prefix(
                cd@,
                if n < 4 {
                    ctx + 1
                } else {
                    ctx as int
                },
                n + 1,
            ) == prefix,
            !more ==> (n as int, cd@) == prefix,
        decreases 9 - n,
    {
        if n < 4 {
            ctx += 1;
        }
        n += 1;
        more = cd.flag(ctx);
    }
    if !more {
        return n;
    }
    assert(prefix == (9int, cd@));
    let ghost c1 = cd@;
    let ghost escape = mvd_escape(c1, 9, 3);
    let mut mvd: i32 = 9;
    let mut k: u32 = 3;
    let mut bin = cd.bypass();
    while bin == 1 && k < 24
        invariant
            3 <= k <= 24,
            bin == 1 ==> mvd_escape(cd@, mvd.wrapping_add(1i32 << k), (k + 1) as u32) == escape,
            bin != 1 ==> (mvd, k, cd@) == escape,
        decreases 25 - k,
    {
        mvd = mvd.wrapping_add(1i32 << k);
        k += 1;
        bin = cd.bypass();
    }
    if bin == 1 {
        mvd = mvd.wrapping_add(1i32 << k);
        k += 1;
    }
    assert((mvd, k, cd@) == escape);
    let ghost suffix = mvd_suffix(cd@, mvd, k);
    while k > 0
        invariant
            k <= 25,
            mvd_suffix(cd@, mvd, k) == suffix,
        decreases k,
    {
        k -= 1;
        mvd = mvd.wrapping_add((cd.bypass() as i32) << k);
    }
    mvd
}

/// One component of a vector difference: its value, and its magnitude up to 70, for the contexts
/// of later differences. `sum` is the magnitude sum of the neighbours.
#[verifier::opaque]
pub open spec fn mvd_part(c: Cab, base: int, sum: i32) -> (i32, i32, Cab) {
    let (some, c) = c.flag(base + one_if(sum > 2) + one_if(sum > 32));
    if !some {
        (0, 0, c)
    } else {
        let (mvd, c) = mvd_abs(c, base);
        let (signed, c) = c.sign(0i32.wrapping_sub(mvd));
        (
            signed,
            if mvd < 70 {
                mvd
            } else {
                70
            },
            c,
        )
    }
}

fn decode_mvd_cabac(cd: &mut Cabd, base: usize, sum: i32) -> (r: (i32, i32))
    requires
        base < 100,
    ensures
        (r.0, r.1, final(cd)@) == mvd_part(old(cd)@, base as int, sum),
{
    proof {
        reveal(mvd_part);
    }
    let ctx: usize = base + one(sum > 2) + one(sum > 32);
    if !cd.flag(ctx) {
        return (0, 0);
    }
    let mvd = read_mvd_abs(cd, base);
    let signed = cd.sign(0i32.wrapping_sub(mvd));
    (
        signed,
        if mvd < 70 {
            mvd
        } else {
            70
        },
    )
}

/// A partition of list `l`: its vector is `pred` plus the coded difference.
#[verifier::opaque]
pub open spec fn part(
    g: GridsV,
    c: Cab,
    l: int,
    mb: int,
    sid: i32,
    bx: int,
    by: int,
    w: int,
    h: int,
    refi: i32,
    pred: Mv,
) -> (GridsV, Cab) {
    let sum = g.amvd(l, mb, bx, by, sid);
    let (dx, ax, c) = mvd_part(c, 40, sum.x);
    let (dy, ay, c) = mvd_part(c, 47, sum.y);
    (
        g.fill(l, mb, bx, by, w, h, mv_sum(pred, Mv { x: dx, y: dy }), refi).fill_mvd(
            l,
            mb,
            bx,
            by,
            w,
            h,
            Mv { x: ax, y: ay },
        ),
        c,
    )
}

pub(crate) fn decode_part(
    g: &mut FrameGrids,
    cd: &mut Cabd,
    l: usize,
    mb: usize,
    sid: i32,
    bx: usize,
    by: usize,
    w: usize,
    h: usize,
    refi: i32,
    pred: Mv,
)
    requires
        old(g)@.wf(),
        mb < old(g)@.mbs(),
        0 < w,
        0 < h,
        bx + w <= 4,
        by + h <= 4,
    ensures
        (final(g)@, final(cd)@) == part(
            old(g)@,
            old(cd)@,
            l as int,
            mb as int,
            sid,
            bx as int,
            by as int,
            w as int,
            h as int,
            refi,
            pred,
        ),
        final(g)@.like(old(g)@),
{
    proof {
        reveal(part);
    }
    let sum = g.amvd(l, mb, bx, by, sid);
    let (dx, ax) = decode_mvd_cabac(cd, 40, sum.x);
    let (dy, ay) = decode_mvd_cabac(cd, 47, sum.y);
    g.fill(l, mb, bx, by, w, h, add_mv(pred, Mv { x: dx, y: dy }), refi);
    g.fill_mvd(l, mb, bx, by, w, h, Mv { x: ax, y: ay });
}

/// A partition that is predicted from its own neighbours.
#[verifier::opaque]
pub open spec fn own_part(
    g: GridsV,
    c: Cab,
    l: int,
    mb: int,
    sid: i32,
    bx: int,
    by: int,
    w: int,
    h: int,
    refi: i32,
) -> (GridsV, Cab) {
    part(g, c, l, mb, sid, bx, by, w, h, refi, g.pred(l, mb, bx, by, w, refi, sid))
}

pub(crate) fn decode_own_part(
    g: &mut FrameGrids,
    cd: &mut Cabd,
    l: usize,
    mb: usize,
    sid: i32,
    bx: usize,
    by: usize,
    w: usize,
    h: usize,
    refi: i32,
)
    requires
        old(g)@.wf(),
        mb < old(g)@.mbs(),
        0 < w,
        0 < h,
        bx + w <= 4,
        by + h <= 4,
    ensures
        (final(g)@, final(cd)@) == own_part(
            old(g)@,
            old(cd)@,
            l as int,
            mb as int,
            sid,
            bx as int,
            by as int,
            w as int,
            h as int,
            refi,
        ),
        final(g)@.like(old(g)@),
{
    proof {
        reveal(own_part);
    }
    let pred = g.pred_motion(l, mb, bx, by, w, refi, sid);
    decode_part(g, cd, l, mb, sid, bx, by, w, h, refi, pred);
}

/// The parts of the quadrant at block `x`, `y`: undivided, two 8x4, two 4x8 or four 4x4.
#[verifier::opaque]
pub open spec fn quadrant(
    g: GridsV,
    c: Cab,
    l: int,
    mb: int,
    sid: i32,
    x: int,
    y: int,
    shape: u32,
    refi: i32,
) -> (GridsV, Cab) {
    if shape == 0 {
        own_part(g, c, l, mb, sid, x, y, 2, 2, refi)
    } else if shape == 1 {
        let (g, c) = own_part(g, c, l, mb, sid, x, y, 2, 1, refi);
        own_part(g, c, l, mb, sid, x, y + 1, 2, 1, refi)
    } else if shape == 2 {
        let (g, c) = own_part(g, c, l, mb, sid, x, y, 1, 2, refi);
        own_part(g, c, l, mb, sid, x + 1, y, 1, 2, refi)
    } else {
        let (g, c) = own_part(g, c, l, mb, sid, x, y, 1, 1, refi);
        let (g, c) = own_part(g, c, l, mb, sid, x + 1, y, 1, 1, refi);
        let (g, c) = own_part(g, c, l, mb, sid, x, y + 1, 1, 1, refi);
        own_part(g, c, l, mb, sid, x + 1, y + 1, 1, 1, refi)
    }
}

pub(crate) fn decode_quadrant(
    g: &mut FrameGrids,
    cd: &mut Cabd,
    l: usize,
    mb: usize,
    sid: i32,
    x: usize,
    y: usize,
    shape: u32,
    refi: i32,
)
    requires
        old(g)@.wf(),
        mb < old(g)@.mbs(),
        x <= 2,
        y <= 2,
    ensures
        (final(g)@, final(cd)@) == quadrant(
            old(g)@,
            old(cd)@,
            l as int,
            mb as int,
            sid,
            x as int,
            y as int,
            shape,
            refi,
        ),
        final(g)@.like(old(g)@),
{
    proof {
        reveal(quadrant);
    }
    if shape == 0 {
        decode_own_part(g, cd, l, mb, sid, x, y, 2, 2, refi);
    } else if shape == 1 {
        decode_own_part(g, cd, l, mb, sid, x, y, 2, 1, refi);
        decode_own_part(g, cd, l, mb, sid, x, y + 1, 2, 1, refi);
    } else if shape == 2 {
        decode_own_part(g, cd, l, mb, sid, x, y, 1, 2, refi);
        decode_own_part(g, cd, l, mb, sid, x + 1, y, 1, 2, refi);
    } else {
        decode_own_part(g, cd, l, mb, sid, x, y, 1, 1, refi);
        decode_own_part(g, cd, l, mb, sid, x + 1, y, 1, 1, refi);
        decode_own_part(g, cd, l, mb, sid, x, y + 1, 1, 1, refi);
        decode_own_part(g, cd, l, mb, sid, x + 1, y + 1, 1, 1, refi);
    }
}

// ---------------------------------------------------------------------------
// Reference indices

/// A reference index in unary, `r` counted before; it ends at 32.
pub open spec fn ref_unary(c: Cab, ctx: int, r: i32) -> (i32, Cab)
    decreases 32 - r,
{
    if r >= 32 {
        (r, c)
    } else {
        let (more, c) = c.flag(54 + ctx);
        if more {
            ref_unary(c, ctx / 4 + 4, (r + 1) as i32)
        } else {
            (r, c)
        }
    }
}

/// A reference index of list `l`, of which `active` are in use.
#[verifier::opaque]
pub open spec fn ref_idx(
    g: GridsV,
    c: Cab,
    l: int,
    mb: int,
    sid: i32,
    bx: int,
    by: int,
    active: u32,
    is_b: bool,
) -> (i32, Cab) {
    if active <= 1 {
        (0, c)
    } else {
        ref_unary(c, g.ref_ctx(l, mb, bx, by, sid, is_b), 0)
    }
}

pub(crate) fn read_ref_cabac(
    g: &FrameGrids,
    cd: &mut Cabd,
    l: usize,
    mb: usize,
    sid: i32,
    bx: usize,
    by: usize,
    active: u32,
    is_b: bool,
) -> (r: i32)
    requires
        g@.wf(),
        mb < g@.mbs(),
        bx < 4,
        by < 4,
    ensures
        (r, final(cd)@) == ref_idx(
            g@,
            old(cd)@,
            l as int,
            mb as int,
            sid,
            bx as int,
            by as int,
            active,
            is_b,
        ),
{
    proof {
        reveal(ref_idx);
    }
    if active <= 1 {
        return 0;
    }
    let mut ctx = g.ref_neighbor(l, mb, bx, by, sid, is_b);
    let ghost whole = ref_unary(cd@, ctx as int, 0);
    let mut r: i32 = 0;
    let mut more = cd.flag(54 + ctx);
    while more && r < 31
        invariant
            0 <= r <= 31,
            ctx <= 5,
            more ==> ref_unary(cd@, ctx as int / 4 + 4, (r + 1) as i32) == whole,
            !more ==> (r, cd@) == whole,
        decreases 32 - r,
    {
        r += 1;
        ctx = ctx / 4 + 4;
        more = cd.flag(54 + ctx);
    }
    if more {
        r += 1;
    }
    r
}

// ---------------------------------------------------------------------------
// Quantiser, coded block pattern, transform size

/// `mb_qp_delta` in unary, `val` counted before; it ends at 113.
pub open spec fn dqp_unary(c: Cab, ctx: int, val: int) -> Cab
    decreases 113 - val,
{
    if val > 112 {
        c
    } else {
        let (more, c) = c.flag(ctx);
        if more {
            dqp_unary(c, 63, val + 1)
        } else {
            c
        }
    }
}

/// `mb_qp_delta`, of which only whether it is zero is kept.
#[verifier::opaque]
pub open spec fn qp_delta(c: Cab) -> Cab {
    let (some, c) = c.flag(60 + one_if(c.dqp));
    if some {
        dqp_unary(c, 62, 1).with_dqp(true)
    } else {
        c.with_dqp(false)
    }
}

fn decode_dqp(cd: &mut Cabd)
    ensures
        final(cd)@ == qp_delta(old(cd)@),
{
    proof {
        reveal(qp_delta);
    }
    let ctx: usize = 60 + one(cd.dqp());
    if !cd.flag(ctx) {
        cd.set_dqp(false);
        return;
    }
    let ghost whole = dqp_unary(cd@, 62, 1);
    let mut val: usize = 1;
    let mut more = cd.flag(62);
    while more && val < 112
        invariant
            1 <= val <= 112,
            more ==> dqp_unary(cd@, 63, val + 1) == whole,
            !more ==> cd@ == whole,
        decreases 113 - val,
    {
        val += 1;
        more = cd.flag(63);
    }
    cd.set_dqp(true);
}

/// Coded block pattern of a neighbouring macroblock; one that is not available has the default for
/// an intra or an inter macroblock.
pub open spec fn neighbor_cbp(g: GridsV, m: Option<int>, is_intra: bool) -> u32 {
    match m {
        Some(m) => g.cbp[m] as u32,
        None => if is_intra {
            0x7CF
        } else {
            0x00F
        },
    }
}

fn ctx_cbp(g: &FrameGrids, m: Option<usize>, is_intra: bool) -> (cbp: u32)
    requires
        g@.wf(),
        m matches Some(n) ==> n < g@.mbs(),
    ensures
        cbp == neighbor_cbp(g@, super::grids::mb_number(m), is_intra),
{
    match m {
        Some(n) => g.cbp_of(n) as u32,
        None => if is_intra {
            0x7CF
        } else {
            0x00F
        },
    }
}

/// Context of a luma bit: whether the left and the upper quadrant are without coefficients.
pub open spec fn luma_bit_ctx(left: bool, top: bool) -> int {
    73 + one_if(!left) + 2 * one_if(!top)
}

/// The chroma part of a coded block pattern, from those of the neighbours.
#[verifier::opaque]
pub open spec fn cbp_chroma(c: Cab, a: u32, b: u32) -> (u32, Cab) {
    let ca = (a >> 4) & 3;
    let cb = (b >> 4) & 3;
    let (some, c) = c.flag(77 + one_if(ca > 0) + 2 * one_if(cb > 0));
    if some {
        let (bin, c) = c.get(81 + one_if(ca == 2) + 2 * one_if(cb == 2));
        (((1 + bin) as u32) << 4, c)
    } else {
        (0, c)
    }
}

fn read_cbp_chroma(cd: &mut Cabd, a: u32, b: u32) -> (v: u32)
    ensures
        (v, final(cd)@) == cbp_chroma(old(cd)@, a, b),
{
    proof {
        reveal(cbp_chroma);
    }
    let ca = (a >> 4) & 3;
    let cb = (b >> 4) & 3;
    let ctx: usize = 77 + one(ca > 0) + 2 * one(cb > 0);
    if cd.flag(ctx) {
        let ctx: usize = 81 + one(ca == 2) + 2 * one(cb == 2);
        (1 + cd.get(ctx)) << 4
    } else {
        0
    }
}

/// A coded block pattern, from those of the neighbours.
#[verifier::opaque]
pub open spec fn cbp_bits(c: Cab, a: u32, b: u32) -> (u32, Cab) {
    let (b0, c) = c.get(luma_bit_ctx(a & 0x02 != 0, b & 0x04 != 0));
    let (b1, c) = c.get(luma_bit_ctx(b0 == 1, b & 0x08 != 0));
    let (b2, c) = c.get(luma_bit_ctx(a & 0x08 != 0, b0 == 1));
    let (b3, c) = c.get(luma_bit_ctx(b2 == 1, b1 == 1));
    let (chroma, c) = cbp_chroma(c, a, b);
    (b0 | (b1 << 1) | (b2 << 2) | (b3 << 3) | chroma, c)
}

fn read_cbp_bits(cd: &mut Cabd, a: u32, b: u32) -> (v: u32)
    ensures
        (v, final(cd)@) == cbp_bits(old(cd)@, a, b),
{
    proof {
        reveal(cbp_bits);
    }
    let b0 = cd.get(73 + one(!(a & 0x02 != 0)) + 2 * one(!(b & 0x04 != 0)));
    let b1 = cd.get(73 + one(!(b0 == 1)) + 2 * one(!(b & 0x08 != 0)));
    let b2 = cd.get(73 + one(!(a & 0x08 != 0)) + 2 * one(!(b0 == 1)));
    let b3 = cd.get(73 + one(!(b2 == 1)) + 2 * one(!(b1 == 1)));
    let chroma = read_cbp_chroma(cd, a, b);
    b0 | (b1 << 1) | (b2 << 2) | (b3 << 3) | chroma
}

/// `coded_block_pattern` of a macroblock.
#[verifier::opaque]
pub open spec fn cbp(g: GridsV, c: Cab, mb: int, sid: i32, is_intra: bool) -> (u32, Cab) {
    cbp_bits(
        c,
        neighbor_cbp(g, g.mb_left(mb, sid), is_intra),
        neighbor_cbp(g, g.mb_top(mb, sid), is_intra),
    )
}

fn decode_cbp_cabac(g: &FrameGrids, cd: &mut Cabd, mb: usize, sid: i32, is_intra: bool) -> (v: u32)
    requires
        g@.wf(),
        mb < g@.mbs(),
    ensures
        (v, final(cd)@) == cbp(g@, old(cd)@, mb as int, sid, is_intra),
{
    proof {
        reveal(cbp);
    }
    let (l, t) = g.ctx_neighbors(mb, sid);
    let a = ctx_cbp(g, l, is_intra);
    let b = ctx_cbp(g, t, is_intra);
    read_cbp_bits(cd, a, b)
}

/// A neighbouring macroblock has an 8x8 transform.
pub open spec fn big_transform(g: GridsV, m: Option<int>) -> bool {
    match m {
        Some(m) => g.cbp[m] & 0x1000 != 0,
        None => false,
    }
}

/// Context of `transform_size_8x8_flag`.
#[verifier::opaque]
pub open spec fn transform_ctx(g: GridsV, mb: int, sid: i32) -> int {
    399 + one_if(big_transform(g, g.mb_left(mb, sid))) + one_if(
        big_transform(g, g.mb_top(mb, sid)),
    )
}

fn transform_size_ctx(g: &FrameGrids, mb: usize, sid: i32) -> (c: usize)
    requires
        g@.wf(),
        mb < g@.mbs(),
    ensures
        c == transform_ctx(g@, mb as int, sid),
        c < 1024,
{
    proof {
        reveal(transform_ctx);
    }
    let (l, t) = g.ctx_neighbors(mb, sid);
    let a = match l {
        Some(m) => g.cbp_of(m) & 0x1000 != 0,
        None => false,
    };
    let b = match t {
        Some(m) => g.cbp_of(m) & 0x1000 != 0,
        None => false,
    };
    399 + one(a) + one(b)
}

/// What is kept of a coded block pattern, with the mark of an 8x8 transform.
pub open spec fn kept_cbp(cbp: u32, dct8: bool) -> u16 {
    let mark: u16 = if dct8 {
        0x1000
    } else {
        0
    };
    ((cbp & 0xFF) as u16) | mark
}

fn keep_cbp(cbp: u32, dct8: bool) -> (r: u16)
    ensures
        r == kept_cbp(cbp, dct8),
{
    let mark: u16 = if dct8 {
        0x1000
    } else {
        0
    };
    ((cbp & 0xFF) as u16) | mark
}

/// The residual behind a coded block pattern that may be zero.
#[verifier::opaque]
pub open spec fn coded_residual(g: GridsV, c: Cab, mb: int, sid: i32, cbp: u32) -> (GridsV, Cab) {
    if cbp != 0 {
        let (g, c) = luma(g, qp_delta(c), mb, sid, false, cbp);
        chroma(g, c, mb, sid, cbp)
    } else {
        (g.put_mb_nnz(mb, 0), c.with_dqp(false))
    }
}

fn decode_coded_residual(g: &mut FrameGrids, cd: &mut Cabd, mb: usize, sid: i32, cbp: u32)
    requires
        old(g)@.wf(),
        mb < old(g)@.mbs(),
    ensures
        (final(g)@, final(cd)@) == coded_residual(old(g)@, old(cd)@, mb as int, sid, cbp),
        final(g)@.like(old(g)@),
{
    proof {
        reveal(coded_residual);
    }
    if cbp != 0 {
        decode_dqp(cd);
        residual_luma_cabac(g, cd, mb, sid, false, cbp);
        residual_chroma_cabac(g, cd, mb, sid, cbp);
    } else {
        cd.set_dqp(false);
        g.put_mb_nnz(mb, 0);
    }
}

/// What follows the motion of an inter macroblock: coded block pattern, transform size where
/// `allow8` and the picture permit a choice, and residual.
#[verifier::opaque]
pub open spec fn inter_tail(g: GridsV, c: Cab, mb: int, sid: i32, pps: Pps, allow8: bool) -> (
    GridsV,
    Cab,
) {
    let (cbp, c) = cbp(g, c, mb, sid, false);
    let (dct8, c) = if pps.transform_8x8_mode_flag && allow8 && cbp & 15 != 0 {
        c.flag(transform_ctx(g, mb, sid))
    } else {
        (false, c)
    };
    coded_residual(g.put_cbp(mb, kept_cbp(cbp, dct8)), c, mb, sid, cbp)
}

pub(crate) fn finish_inter(
    g: &mut FrameGrids,
    cd: &mut Cabd,
    mb: usize,
    sid: i32,
    pps: &Pps,
    allow8: bool,
)
    requires
        old(g)@.wf(),
        mb < old(g)@.mbs(),
    ensures
        (final(g)@, final(cd)@) == inter_tail(
            old(g)@,
            old(cd)@,
            mb as int,
            sid,
            *pps,
            allow8,
        ),
        final(g)@.like(old(g)@),
{
    proof {
        reveal(inter_tail);
    }
    let cbp = decode_cbp_cabac(g, cd, mb, sid, false);
    let dct8 = if pps.transform_8x8_mode_flag && allow8 && cbp & 15 != 0 {
        let ctx = transform_size_ctx(g, mb, sid);
        cd.flag(ctx)
    } else {
        false
    };
    g.put_cbp(mb, keep_cbp(cbp, dct8));
    decode_coded_residual(g, cd, mb, sid, cbp);
}

// ---------------------------------------------------------------------------
// Intra macroblocks

/// Macroblock `m` is `I_16x16` or `I_PCM`.
pub open spec fn big_intra(g: GridsV, m: Option<int>) -> bool {
    match m {
        Some(m) => g.seg[m] == Seg::Intra && g.cbp[m] & 0x800 != 0,
        None => false,
    }
}

fn is_intra16x16_or_pcm(g: &FrameGrids, m: Option<usize>) -> (r: bool)
    requires
        g@.wf(),
        m matches Some(n) ==> n < g@.mbs(),
    ensures
        r == big_intra(g@, super::grids::mb_number(m)),
{
    match m {
        Some(n) => g.seg_of(n) == Seg::Intra && g.cbp_of(n) & 0x800 != 0,
        None => false,
    }
}

/// The type of an `I_16x16` macroblock, with contexts from `base` on.
#[verifier::opaque]
pub open spec fn type16(c: Cab, base: int, intra_slice: bool) -> (u32, Cab) {
    let isl = one_if(intra_slice);
    let (t12, c) = c.get(base + 1);
    let (some, c) = c.flag(base + 2);
    let (t4, c) = if some {
        let (bin, c) = c.get(base + 2 + isl);
        (4 + 4 * bin, c)
    } else {
        (0, c)
    };
    let (t2, c) = c.get(base + 3 + isl);
    let (t1, c) = c.get(base + 3 + 2 * isl);
    ((1 + 12 * t12 + t4 + 2 * t2 + t1) as u32, c)
}

fn read_type16(cd: &mut Cabd, base: usize, intra_slice: bool) -> (t: u32)
    requires
        base < 100,
    ensures
        (t, final(cd)@) == type16(old(cd)@, base as int, intra_slice),
        1 <= t <= 24,
{
    proof {
        reveal(type16);
    }
    let isl = one(intra_slice);
    let t12 = cd.get(base + 1);
    let t4: u32 = if cd.flag(base + 2) {
        4 + 4 * cd.get(base + 2 + isl)
    } else {
        0
    };
    let t2 = cd.get(base + 3 + isl);
    let t1 = cd.get(base + 3 + 2 * isl);
    1 + 12 * t12 + t4 + 2 * t2 + t1
}

/// The type of an intra macroblock: 0 for `I_NxN`, 25 for `I_PCM`, else `I_16x16`. Contexts start
/// at `base`; in an intra slice the first depends on the neighbours.
#[verifier::opaque]
pub open spec fn intra_type(g: GridsV, c: Cab, mb: int, sid: i32, base: int, intra_slice: bool) -> (
    u32,
    Cab,
) {
    let ctx = if intra_slice {
        base + one_if(big_intra(g, g.mb_left(mb, sid))) + one_if(big_intra(g, g.mb_top(mb, sid)))
    } else {
        base
    };
    let (big, c) = c.flag(ctx);
    if !big {
        (0, c)
    } else {
        let (pcm, c) = c.terminate();
        if pcm {
            (25, c)
        } else {
            type16(
                c,
                if intra_slice {
                    base + 2
                } else {
                    base
                },
                intra_slice,
            )
        }
    }
}

pub(crate) fn decode_intra_mb_type_cabac(
    g: &FrameGrids,
    cd: &mut Cabd,
    mb: usize,
    sid: i32,
    base: usize,
    intra_slice: bool,
) -> (t: u32)
    requires
        g@.wf(),
        mb < g@.mbs(),
        base < 90,
    ensures
        (t, final(cd)@) == intra_type(
            g@,
            old(cd)@,
            mb as int,
            sid,
            base as int,
            intra_slice,
        ),
        t <= 25,
{
    proof {
        reveal(intra_type);
    }
    let ctx = if intra_slice {
        let (l, t) = g.ctx_neighbors(mb, sid);
        base + one(is_intra16x16_or_pcm(g, l)) + one(is_intra16x16_or_pcm(g, t))
    } else {
        base
    };
    if !cd.flag(ctx) {
        return 0;
    }
    if cd.terminate() {
        return 25;
    }
    read_type16(
        cd,
        if intra_slice {
            base + 2
        } else {
            base
        },
        intra_slice,
    )
}

/// `intra_chroma_pred_mode` of a neighbouring macroblock is not 0.
pub open spec fn chroma_mode_set(g: GridsV, m: Option<int>) -> bool {
    match m {
        Some(m) => g.chroma_pred[m] != 0,
        None => false,
    }
}

/// `intra_chroma_pred_mode`.
#[verifier::opaque]
pub open spec fn chroma_mode(g: GridsV, c: Cab, mb: int, sid: i32) -> (GridsV, Cab) {
    let (b0, c) = c.flag(
        64 + one_if(chroma_mode_set(g, g.mb_left(mb, sid))) + one_if(
            chroma_mode_set(g, g.mb_top(mb, sid)),
        ),
    );
    if !b0 {
        (g.put_chroma_pred(mb, 0), c)
    } else {
        let (b1, c) = c.flag(67);
        if !b1 {
            (g.put_chroma_pred(mb, 1), c)
        } else {
            let (b2, c) = c.flag(67);
            (
                g.put_chroma_pred(
                    mb,
                    if b2 {
                        3
                    } else {
                        2
                    },
                ),
                c,
            )
        }
    }
}

fn decode_chroma_pred_cabac(g: &mut FrameGrids, cd: &mut Cabd, mb: usize, sid: i32)
    requires
        old(g)@.wf(),
        mb < old(g)@.mbs(),
    ensures
        (final(g)@, final(cd)@) == chroma_mode(old(g)@, old(cd)@, mb as int, sid),
        final(g)@.like(old(g)@),
{
    proof {
        reveal(chroma_mode);
    }
    let (l, t) = g.ctx_neighbors(mb, sid);
    let a = match l {
        Some(m) => g.chroma_pred_of(m) != 0,
        None => false,
    };
    let b = match t {
        Some(m) => g.chroma_pred_of(m) != 0,
        None => false,
    };
    let ctx: usize = 64 + one(a) + one(b);
    let v: u8 = if !cd.flag(ctx) {
        0
    } else if !cd.flag(67) {
        1
    } else if !cd.flag(67) {
        2
    } else {
        3
    };
    g.put_chroma_pred(mb, v);
}

/// Prediction modes of blocks `i..16` in steps of `step`: a flag, and three more bins behind a 0.
pub open spec fn pred_modes(c: Cab, i: int, step: int) -> Cab
    decreases
            (if i < 16 {
                16 - i
            } else {
                0
            }),
{
    if i >= 16 || step <= 0 {
        c
    } else {
        let (same, c) = c.flag(68);
        pred_modes(
            if same {
                c
            } else {
                c.get(69).1.get(69).1.get(69).1
            },
            i + step,
            step,
        )
    }
}

fn skip_pred_modes(cd: &mut Cabd, step: usize)
    requires
        step == 1 || step == 4,
    ensures
        final(cd)@ == pred_modes(old(cd)@, 0, step as int),
{
    let mut i: usize = 0;
    while i < 16
        invariant
            i <= 16,
            step == 1 || step == 4,
            step == 4 ==> i % 4 == 0,
            pred_modes(cd@, i as int, step as int) == pred_modes(old(cd)@, 0, step as int),
        decreases 16 - i,
    {
        if !cd.flag(68) {
            let _b0 = cd.get(69);
            let _b1 = cd.get(69);
            let _b2 = cd.get(69);
        }
        i += step;
    }
}

/// The syntax and coefficient counts of an `I_NxN` or `I_16x16` macroblock of type `t`.
#[verifier::opaque]
pub open spec fn intra_syntax(g: GridsV, c: Cab, mb: int, sid: i32, t: u32, pps: Pps) -> (
    GridsV,
    Cab,
) {
    if t == 0 {
        let (dct8, c) = if pps.transform_8x8_mode_flag {
            c.flag(transform_ctx(g, mb, sid))
        } else {
            (false, c)
        };
        let c = pred_modes(
            c,
            0,
            if dct8 {
                4
            } else {
                1
            },
        );
        let (g, c) = chroma_mode(g, c, mb, sid);
        let (cbp, c) = cbp(g, c, mb, sid, true);
        coded_residual(g.put_cbp(mb, kept_cbp(cbp, dct8)), c, mb, sid, cbp)
    } else {
        let cbp = cbp16(t);
        let (g, c) = chroma_mode(g.put_cbp(mb, (cbp as u16) | 0x800), c, mb, sid);
        let (g, c) = luma(g, qp_delta(c), mb, sid, true, cbp);
        chroma(g, c, mb, sid, cbp)
    }
}

fn decode_intra_residual_cabac(
    g: &mut FrameGrids,
    cd: &mut Cabd,
    mb: usize,
    sid: i32,
    t: u32,
    pps: &Pps,
)
    requires
        old(g)@.wf(),
        mb < old(g)@.mbs(),
    ensures
        (final(g)@, final(cd)@) == intra_syntax(old(g)@, old(cd)@, mb as int, sid, t, *pps),
        final(g)@.like(old(g)@),
{
    proof {
        reveal(intra_syntax);
    }
    if t == 0 {
        let dct8 = if pps.transform_8x8_mode_flag {
            let ctx = transform_size_ctx(g, mb, sid);
            cd.flag(ctx)
        } else {
            false
        };
        skip_pred_modes(
            cd,
            if dct8 {
                4
            } else {
                1
            },
        );
        decode_chroma_pred_cabac(g, cd, mb, sid);
        let cbp = decode_cbp_cabac(g, cd, mb, sid, true);
        g.put_cbp(mb, keep_cbp(cbp, dct8));
        decode_coded_residual(g, cd, mb, sid, cbp);
    } else {
        let cbp = i16x16_cbp(t);
        g.put_cbp(mb, (cbp as u16) | 0x800);
        decode_chroma_pred_cabac(g, cd, mb, sid);
        decode_dqp(cd);
        residual_luma_cabac(g, cd, mb, sid, true, cbp);
        residual_chroma_cabac(g, cd, mb, sid, cbp);
    }
}

/// An intra macroblock of type `t`, but for its reference indices.
#[verifier::opaque]
pub open spec fn intra_body(g: GridsV, c: Cab, mb: int, sid: i32, t: u32, pps: Pps) -> (
    GridsV,
    Cab,
) {
    if t == 25 {
        (
            g.put_mb_nnz(mb, 16).put_cbp(mb, 0xFEF).put_seg(mb, Seg::Intra),
            c.behind_raw(384).with_dqp(false),
        )
    } else {
        intra_syntax(g.put_seg(mb, Seg::Intra), c, mb, sid, t, pps)
    }
}

pub(crate) fn decode_intra_body(
    g: &mut FrameGrids,
    cd: &mut Cabd,
    mb: usize,
    sid: i32,
    t: u32,
    pps: &Pps,
)
    requires
        old(g)@.wf(),
        mb < old(g)@.mbs(),
    ensures
        (final(g)@, final(cd)@) == intra_body(old(g)@, old(cd)@, mb as int, sid, t, *pps),
        final(g)@.like(old(g)@),
{
    proof {
        reveal(intra_body);
    }
    if t == 25 {
        cd.skip_raw(384);
        cd.set_dqp(false);
        g.put_mb_nnz(mb, 16);
        g.put_cbp(mb, 0xFEF);
        g.put_seg(mb, Seg::Intra);
    } else {
        g.put_seg(mb, Seg::Intra);
        decode_intra_residual_cabac(g, cd, mb, sid, t, pps);
    }
}

// ---------------------------------------------------------------------------
// P macroblocks

/// An undivided P macroblock.
#[verifier::opaque]
pub open spec fn p_whole(g: GridsV, c: Cab, mb: int, sid: i32, n0: u32) -> (GridsV, Cab) {
    let (refi, c) = ref_idx(g, c, 0, mb, sid, 0, 0, n0, false);
    let g = g.fill(0, mb, 0, 0, 4, 4, zero_mv(), refi);
    own_part(g, c, 0, mb, sid, 0, 0, 4, 4, refi)
}

fn decode_p_whole(g: &mut FrameGrids, cd: &mut Cabd, mb: usize, sid: i32, n0: u32)
    requires
        old(g)@.wf(),
        mb < old(g)@.mbs(),
    ensures
        (final(g)@, final(cd)@) == p_whole(old(g)@, old(cd)@, mb as int, sid, n0),
        final(g)@.like(old(g)@),
{
    proof {
        reveal(p_whole);
    }
    let refi = read_ref_cabac(g, cd, 0, mb, sid, 0, 0, n0, false);
    g.fill(0, mb, 0, 0, 4, 4, Mv { x: 0, y: 0 }, refi);
    decode_own_part(g, cd, 0, mb, sid, 0, 0, 4, 4, refi);
}

/// A P macroblock in an upper and a lower half.
#[verifier::opaque]
pub open spec fn p_wide(g: GridsV, c: Cab, mb: int, sid: i32, n0: u32) -> (GridsV, Cab) {
    let (r0, c) = ref_idx(g, c, 0, mb, sid, 0, 0, n0, false);
    let g = g.fill(0, mb, 0, 0, 4, 2, zero_mv(), r0);
    let (r1, c) = ref_idx(g, c, 0, mb, sid, 0, 2, n0, false);
    let g = g.fill(0, mb, 0, 2, 4, 2, zero_mv(), r1);
    let (g, c) = part(g, c, 0, mb, sid, 0, 0, 4, 2, r0, g.pred_wide(0, mb, 0, r0, sid));
    part(g, c, 0, mb, sid, 0, 2, 4, 2, r1, g.pred_wide(0, mb, 1, r1, sid))
}

fn decode_p_wide(g: &mut FrameGrids, cd: &mut Cabd, mb: usize, sid: i32, n0: u32)
    requires
        old(g)@.wf(),
        mb < old(g)@.mbs(),
    ensures
        (final(g)@, final(cd)@) == p_wide(old(g)@, old(cd)@, mb as int, sid, n0),
        final(g)@.like(old(g)@),
{
    proof {
        reveal(p_wide);
    }
    let r0 = read_ref_cabac(g, cd, 0, mb, sid, 0, 0, n0, false);
    g.fill(0, mb, 0, 0, 4, 2, Mv { x: 0, y: 0 }, r0);
    let r1 = read_ref_cabac(g, cd, 0, mb, sid, 0, 2, n0, false);
    g.fill(0, mb, 0, 2, 4, 2, Mv { x: 0, y: 0 }, r1);
    let pred = g.pred_16x8(0, mb, 0, r0, sid);
    decode_part(g, cd, 0, mb, sid, 0, 0, 4, 2, r0, pred);
    let pred = g.pred_16x8(0, mb, 1, r1, sid);
    decode_part(g, cd, 0, mb, sid, 0, 2, 4, 2, r1, pred);
}

/// A P macroblock in a left and a right half.
#[verifier::opaque]
pub open spec fn p_tall(g: GridsV, c: Cab, mb: int, sid: i32, n0: u32) -> (GridsV, Cab) {
    let (r0, c) = ref_idx(g, c, 0, mb, sid, 0, 0, n0, false);
    let g = g.fill(0, mb, 0, 0, 2, 4, zero_mv(), r0);
    let (r1, c) = ref_idx(g, c, 0, mb, sid, 2, 0, n0, false);
    let g = g.fill(0, mb, 2, 0, 2, 4, zero_mv(), r1);
    let (g, c) = part(g, c, 0, mb, sid, 0, 0, 2, 4, r0, g.pred_tall(0, mb, 0, r0, sid));
    part(g, c, 0, mb, sid, 2, 0, 2, 4, r1, g.pred_tall(0, mb, 1, r1, sid))
}

fn decode_p_tall(g: &mut FrameGrids, cd: &mut Cabd, mb: usize, sid: i32, n0: u32)
    requires
        old(g)@.wf(),
        mb < old(g)@.mbs(),
    ensures
        (final(g)@, final(cd)@) == p_tall(old(g)@, old(cd)@, mb as int, sid, n0),
        final(g)@.like(old(g)@),
{
    proof {
        reveal(p_tall);
    }
    let r0 = read_ref_cabac(g, cd, 0, mb, sid, 0, 0, n0, false);
    g.fill(0, mb, 0, 0, 2, 4, Mv { x: 0, y: 0 }, r0);
    let r1 = read_ref_cabac(g, cd, 0, mb, sid, 2, 0, n0, false);
    g.fill(0, mb, 2, 0, 2, 4, Mv { x: 0, y: 0 }, r1);
    let pred = g.pred_8x16(0, mb, 0, r0, sid);
    decode_part(g, cd, 0, mb, sid, 0, 0, 2, 4, r0, pred);
    let pred = g.pred_8x16(0, mb, 1, r1, sid);
    decode_part(g, cd, 0, mb, sid, 2, 0, 2, 4, r1, pred);
}

/// A sub-macroblock type of a P macroblock.
#[verifier::opaque]
pub open spec fn p_sub_type(c: Cab) -> (u32, Cab) {
    let (b0, c) = c.flag(21);
    if b0 {
        (0, c)
    } else {
        let (b1, c) = c.flag(22);
        if !b1 {
            (1, c)
        } else {
            let (b2, c) = c.flag(23);
            (
                if b2 {
                    2
                } else {
                    3
                },
                c,
            )
        }
    }
}

fn read_p_sub_type(cd: &mut Cabd) -> (t: u32)
    ensures
        (t, final(cd)@) == p_sub_type(old(cd)@),
{
    proof {
        reveal(p_sub_type);
    }
    if cd.flag(21) {
        0
    } else if !cd.flag(22) {
        1
    } else if cd.flag(23) {
        2
    } else {
        3
    }
}

/// Sub-macroblock types of the four quadrants.
#[verifier::opaque]
pub open spec fn p_sub_types(c: Cab) -> (Seq<u32>, Cab) {
    let (t0, c) = p_sub_type(c);
    let (t1, c) = p_sub_type(c);
    let (t2, c) = p_sub_type(c);
    let (t3, c) = p_sub_type(c);
    (seq![t0, t1, t2, t3], c)
}

fn read_p_sub_types(cd: &mut Cabd) -> (t: [u32; 4])
    ensures
        (t@, final(cd)@) == p_sub_types(old(cd)@),
{
    proof {
        reveal(p_sub_types);
    }
    let t0 = read_p_sub_type(cd);
    let t1 = read_p_sub_type(cd);
    let t2 = read_p_sub_type(cd);
    let t3 = read_p_sub_type(cd);
    let t = [t0, t1, t2, t3];
    assert(t@ =~= seq![t0, t1, t2, t3]);
    t
}

/// References of quadrants `i..4`, each stored before the next is read.
pub open spec fn p_sub_refs(g: GridsV, c: Cab, mb: int, sid: i32, n0: u32, refs: Seq<i32>, i: int) -> (
    Seq<i32>,
    GridsV,
    Cab,
)
    decreases 4 - i,
{
    if i >= 4 {
        (refs, g, c)
    } else {
        let (refi, c) = ref_idx(g, c, 0, mb, sid, i % 2 * 2, i / 2 * 2, n0, false);
        p_sub_refs(
            g.fill(0, mb, i % 2 * 2, i / 2 * 2, 2, 2, zero_mv(), refi),
            c,
            mb,
            sid,
            n0,
            refs.push(refi),
            i + 1,
        )
    }
}

fn read_p_sub_refs(g: &mut FrameGrids, cd: &mut Cabd, mb: usize, sid: i32, n0: u32) -> (refs: Vec<
    i32,
>)
    requires
        old(g)@.wf(),
        mb < old(g)@.mbs(),
    ensures
        (refs@, final(g)@, final(cd)@) == p_sub_refs(
            old(g)@,
            old(cd)@,
            mb as int,
            sid,
            n0,
            Seq::empty(),
            0,
        ),
        refs@.len() == 4,
        final(g)@.like(old(g)@),
{
    let mut refs: Vec<i32> = Vec::new();
    assert(refs@ =~= Seq::<i32>::empty());
    let mut i: usize = 0;
    while i < 4
        invariant
            i <= 4,
            refs@.len() == i,
            g@.like(old(g)@),
            mb < g@.mbs(),
            p_sub_refs(g@, cd@, mb as int, sid, n0, refs@, i as int) == p_sub_refs(
                old(g)@,
                old(cd)@,
                mb as int,
                sid,
                n0,
                Seq::empty(),
                0,
            ),
        decreases 4 - i,
    {
        let refi = read_ref_cabac(g, cd, 0, mb, sid, i % 2 * 2, i / 2 * 2, n0, false);
        g.fill(0, mb, i % 2 * 2, i / 2 * 2, 2, 2, Mv { x: 0, y: 0 }, refi);
        refs.push(refi);
        i += 1;
    }
    refs
}

/// Vectors of quadrants `i..4`.
pub open spec fn p_quadrants(
    g: GridsV,
    c: Cab,
    mb: int,
    sid: i32,
    types: Seq<u32>,
    refs: Seq<i32>,
    i: int,
) -> (GridsV, Cab)
    decreases 4 - i,
{
    if i >= 4 {
        (g, c)
    } else {
        let (g, c) = quadrant(g, c, 0, mb, sid, i % 2 * 2, i / 2 * 2, types[i], refs[i]);
        p_quadrants(g, c, mb, sid, types, refs, i + 1)
    }
}

fn decode_p_quadrants(
    g: &mut FrameGrids,
    cd: &mut Cabd,
    mb: usize,
    sid: i32,
    types: &[u32; 4],
    refs: &Vec<i32>,
)
    requires
        old(g)@.wf(),
        mb < old(g)@.mbs(),
        refs@.len() == 4,
    ensures
        (final(g)@, final(cd)@) == p_quadrants(
            old(g)@,
            old(cd)@,
            mb as int,
            sid,
            types@,
            refs@,
            0,
        ),
        final(g)@.like(old(g)@),
{
    let mut i: usize = 0;
    while i < 4
        invariant
            i <= 4,
            refs@.len() == 4,
            g@.like(old(g)@),
            mb < g@.mbs(),
            p_quadrants(g@, cd@, mb as int, sid, types@, refs@, i as int) == p_quadrants(
                old(g)@,
                old(cd)@,
                mb as int,
                sid,
                types@,
                refs@,
                0,
            ),
        decreases 4 - i,
    {
        decode_quadrant(g, cd, 0, mb, sid, i % 2 * 2, i / 2 * 2, types[i], refs[i]);
        i += 1;
    }
}

/// A P macroblock in four quadrants; whether none of them is divided further.
#[verifier::opaque]
pub open spec fn p_8x8(g: GridsV, c: Cab, mb: int, sid: i32, n0: u32) -> (bool, GridsV, Cab) {
    let (types, c) = p_sub_types(c);
    let (refs, g, c) = p_sub_refs(g, c, mb, sid, n0, Seq::empty(), 0);
    let (g, c) = p_quadrants(g, c, mb, sid, types, refs, 0);
    (types[0] == 0 && types[1] == 0 && types[2] == 0 && types[3] == 0, g, c)
}

fn decode_p_8x8_cabac(g: &mut FrameGrids, cd: &mut Cabd, mb: usize, sid: i32, n0: u32) -> (whole:
    bool)
    requires
        old(g)@.wf(),
        mb < old(g)@.mbs(),
    ensures
        (whole, final(g)@, final(cd)@) == p_8x8(old(g)@, old(cd)@, mb as int, sid, n0),
        final(g)@.like(old(g)@),
{
    proof {
        reveal(p_8x8);
    }
    let types = read_p_sub_types(cd);
    let refs = read_p_sub_refs(g, cd, mb, sid, n0);
    decode_p_quadrants(g, cd, mb, sid, &types, &refs);
    types[0] == 0 && types[1] == 0 && types[2] == 0 && types[3] == 0
}

/// A P macroblock of type `t`.
#[verifier::opaque]
pub open spec fn p_inter(g: GridsV, c: Cab, mb: int, sid: i32, n0: u32, pps: Pps, t: u32) -> (
    GridsV,
    Cab,
) {
    let (seg, allow8, g, c) = if t == 0 {
        let (g, c) = p_whole(g, c, mb, sid, n0);
        (Seg::P16x16, true, g, c)
    } else if t == 1 {
        let (g, c) = p_wide(g, c, mb, sid, n0);
        (Seg::P16x8, true, g, c)
    } else if t == 2 {
        let (g, c) = p_tall(g, c, mb, sid, n0);
        (Seg::P8x16, true, g, c)
    } else {
        let (all, g, c) = p_8x8(g, c, mb, sid, n0);
        (Seg::P8x8, all, g, c)
    };
    inter_tail(g.put_seg(mb, seg).put_decoded(mb), c, mb, sid, pps, allow8)
}

fn decode_p_inter_cabac(
    g: &mut FrameGrids,
    cd: &mut Cabd,
    mb: usize,
    sid: i32,
    n0: u32,
    pps: &Pps,
    t: u32,
)
    requires
        old(g)@.wf(),
        mb < old(g)@.mbs(),
    ensures
        (final(g)@, final(cd)@) == p_inter(old(g)@, old(cd)@, mb as int, sid, n0, *pps, t),
        final(g)@.like(old(g)@),
{
    proof {
        reveal(p_inter);
    }
    let mut allow8 = true;
    let seg = match t {
        0 => {
            decode_p_whole(g, cd, mb, sid, n0);
            Seg::P16x16
        },
        1 => {
            decode_p_wide(g, cd, mb, sid, n0);
            Seg::P16x8
        },
        2 => {
            decode_p_tall(g, cd, mb, sid, n0);
            Seg::P8x16
        },
        _ => {
            allow8 = decode_p_8x8_cabac(g, cd, mb, sid, n0);
            Seg::P8x8
        },
    };
    g.put_seg(mb, seg);
    g.put_decoded(mb);
    finish_inter(g, cd, mb, sid, pps, allow8);
}

/// The type of a P macroblock: 0 undivided, 1 and 2 in halves, 3 in quadrants; `None` for intra.
#[verifier::opaque]
pub open spec fn p_type(c: Cab) -> (Option<u32>, Cab) {
    let (is_intra, c) = c.flag(14);
    if is_intra {
        (None, c)
    } else {
        let (halves, c) = c.flag(15);
        if !halves {
            let (bin, c) = c.get(16);
            (Some((3 * bin) as u32), c)
        } else {
            let (bin, c) = c.get(17);
            (Some((2 - bin) as u32), c)
        }
    }
}

fn read_p_type(cd: &mut Cabd) -> (t: Option<u32>)
    ensures
        (t, final(cd)@) == p_type(old(cd)@),
{
    proof {
        reveal(p_type);
    }
    if cd.flag(14) {
        None
    } else if !cd.flag(15) {
        Some(3 * cd.get(16))
    } else {
        Some(2 - cd.get(17))
    }
}

/// One macroblock of an I or P slice that is not skipped.
#[verifier::opaque]
pub open spec fn macroblock(g: GridsV, c: Cab, mb: int, sid: i32, sh: SliceHeader, pps: Pps) -> (
    GridsV,
    Cab,
) {
    let g = g.put_slice(mb, sid);
    let is_i = sh.slice_type.intra();
    let (p, c) = if is_i {
        (None, c)
    } else {
        p_type(c)
    };
    match p {
        Some(t) => p_inter(g, c, mb, sid, sh.num_ref_idx_l0_active, pps, t),
        None => {
            let (t, c) = intra_type(
                g,
                c,
                mb,
                sid,
                if is_i {
                    3
                } else {
                    17
                },
                is_i,
            );
            let (g, c) = intra_body(g, c, mb, sid, t, pps);
            (g.intra_l0(mb).put_decoded(mb), c)
        },
    }
}

fn decode_mb_cabac(
    g: &mut FrameGrids,
    cd: &mut Cabd,
    mb: usize,
    sid: i32,
    sh: &SliceHeader,
    pps: &Pps,
)
    requires
        old(g)@.wf(),
        mb < old(g)@.mbs(),
    ensures
        (final(g)@, final(cd)@) == macroblock(old(g)@, old(cd)@, mb as int, sid, *sh, *pps),
        final(g)@.like(old(g)@),
{
    proof {
        reveal(macroblock);
    }
    g.put_slice(mb, sid);
    let is_i = sh.slice_type.is_intra();
    let p = if is_i {
        None
    } else {
        read_p_type(cd)
    };
    match p {
        Some(t) => {
            decode_p_inter_cabac(g, cd, mb, sid, sh.num_ref_idx_l0_active, pps, t);
        },
        None => {
            let t = decode_intra_mb_type_cabac(
                g,
                cd,
                mb,
                sid,
                if is_i {
                    3
                } else {
                    17
                },
                is_i,
            );
            decode_intra_body(g, cd, mb, sid, t, pps);
            g.intra_l0(mb);
            g.put_decoded(mb);
        },
    }
}

// ---------------------------------------------------------------------------
// Slices

/// A neighbouring macroblock is there and not skipped.
pub open spec fn not_skipped(g: GridsV, m: Option<int>) -> bool {
    match m {
        Some(m) => g.seg[m] != Seg::Skip,
        None => false,
    }
}

/// `mb_skip_flag` of a macroblock of a P slice.
#[verifier::opaque]
pub open spec fn skip_flag(g: GridsV, c: Cab, mb: int, sid: i32) -> (bool, Cab) {
    c.flag(
        11 + one_if(not_skipped(g, g.mb_left(mb, sid))) + one_if(
            not_skipped(g, g.mb_top(mb, sid)),
        ),
    )
}

fn read_skip_flag(g: &FrameGrids, cd: &mut Cabd, mb: usize, sid: i32) -> (s: bool)
    requires
        g@.wf(),
        mb < g@.mbs(),
    ensures
        (s, final(cd)@) == skip_flag(g@, old(cd)@, mb as int, sid),
{
    proof {
        reveal(skip_flag);
    }
    let (l, t) = g.ctx_neighbors(mb, sid);
    let a = match l {
        Some(m) => g.seg_of(m) != Seg::Skip,
        None => false,
    };
    let b = match t {
        Some(m) => g.seg_of(m) != Seg::Skip,
        None => false,
    };
    cd.flag(11 + one(a) + one(b))
}

/// One macroblock of an I or P slice.
#[verifier::opaque]
pub open spec fn any_macroblock(
    g: GridsV,
    c: Cab,
    mb: int,
    sid: i32,
    sh: SliceHeader,
    pps: Pps,
) -> (GridsV, Cab) {
    let (skipped, c) = if sh.slice_type.intra() {
        (false, c)
    } else {
        skip_flag(g, c, mb, sid)
    };
    if skipped {
        (p_skip(g, mb, sid), c.with_dqp(false))
    } else {
        macroblock(g, c, mb, sid, sh, pps)
    }
}

fn decode_any_mb(
    g: &mut FrameGrids,
    cd: &mut Cabd,
    mb: usize,
    sid: i32,
    sh: &SliceHeader,
    pps: &Pps,
)
    requires
        old(g)@.wf(),
        mb < old(g)@.mbs(),
    ensures
        (final(g)@, final(cd)@) == any_macroblock(
            old(g)@,
            old(cd)@,
            mb as int,
            sid,
            *sh,
            *pps,
        ),
        final(g)@.like(old(g)@),
{
    proof {
        reveal(any_macroblock);
    }
    if !sh.slice_type.is_intra() && read_skip_flag(g, cd, mb, sid) {
        decode_p_skip(g, mb, sid);
        cd.set_dqp(false);
    } else {
        decode_mb_cabac(g, cd, mb, sid, sh, pps);
    }
}

/// Slice data from macroblock `cur` on, in a picture of `n` macroblocks: the macroblock behind the
/// last one decoded, and the state there.
pub open spec fn slice_from(
    g: GridsV,
    c: Cab,
    cur: int,
    n: int,
    sh: SliceHeader,
    pps: Pps,
    sid: i32,
) -> (int, GridsV, Cab)
    decreases n - cur,
{
    if cur >= n {
        (cur, g, c)
    } else {
        let (g, c) = any_macroblock(g, c, cur, sid, sh, pps);
        if cur + 1 >= n {
            (cur + 1, g, c)
        } else {
            let (end, c) = c.terminate();
            if end {
                (cur + 1, g, c)
            } else {
                slice_from(g, c, cur + 1, n, sh, pps, sid)
            }
        }
    }
}

/// Decodes a CABAC I or P slice into `g`. The slice data start at byte `byte_start` of `rbsp`.
pub fn decode_slice_cabac(
    g: &mut FrameGrids,
    rbsp: &[u8],
    byte_start: usize,
    sh: &SliceHeader,
    _sps: &Sps,
    pps: &Pps,
    sid: i32,
) -> (res: SliceResult)
    requires
        old(g)@.wf(),
    ensures
        ({
            let c = Cab::start(
                rbsp@,
                byte_start,
                sh.slice_type.intra(),
                sh.cabac_init_idc,
                sh.slice_qp,
            );
            let (end, g1, _) = slice_from(
                old(g)@,
                c,
                sh.first_mb_in_slice as int,
                old(g)@.mbs(),
                *sh,
                *pps,
                sid,
            );
            res.mbs_decoded + sh.first_mb_in_slice == end && final(g)@ == g1
        }),
        res.ok,
        final(g)@.like(old(g)@),
        res.mbs_decoded > 0 ==> res.mbs_decoded + sh.first_mb_in_slice <= old(g)@.mbs(),
{
    let is_i = sh.slice_type.is_intra();
    let mut cd = Cabd::new(rbsp, byte_start, is_i, sh.cabac_init_idc, sh.slice_qp);
    let n = g.mb_count();
    let first: usize = sh.first_mb_in_slice as usize;
    let ghost whole = slice_from(g@, cd@, first as int, n as int, *sh, *pps, sid);
    let mut cur: usize = first;
    while cur < n
        invariant
            first <= cur,
            cur == first || cur <= n,
            g@.like(old(g)@),
            n == g@.mbs(),
            slice_from(g@, cd@, cur as int, n as int, *sh, *pps, sid) == whole,
            first == sh.first_mb_in_slice,
            whole == slice_from(
                old(g)@,
                Cab::start(
                    rbsp@,
                    byte_start,
                    sh.slice_type.intra(),
                    sh.cabac_init_idc,
                    sh.slice_qp,
                ),
                sh.first_mb_in_slice as int,
                old(g)@.mbs(),
                *sh,
                *pps,
                sid,
            ),
        decreases n - cur,
    {
        decode_any_mb(g, &mut cd, cur, sid, sh, pps);
        cur += 1;
        if cur >= n || cd.terminate() {
            return SliceResult { mbs_decoded: cur - first, ok: true };
        }
    }
    SliceResult { mbs_decoded: cur - first, ok: true }
}

} // verus!
