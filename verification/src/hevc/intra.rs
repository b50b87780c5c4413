//! Intra prediction modes of H.265.

use super::contexts::{
    Bins, Decoder, INTRA_CHROMA_PRED_MODE_OFFSET, PREV_INTRA_LUMA_PRED_FLAG_OFFSET,
};
use super::frame::{Frame, FrameV, Geo};
use super::motion::Ctb;
use vstd::prelude::*;

verus! {

/// Planar prediction.
pub const INTRA_PLANAR: i32 = 0;

/// Prediction of the mean.
pub const INTRA_DC: i32 = 1;

/// The three most probable modes from those of the left and of the upper neighbour.
#[verifier::opaque]
pub open spec fn likely_modes(left: i32, up: i32) -> (i32, i32, i32) {
    if left == up {
        if left < 2 {
            (INTRA_PLANAR, INTRA_DC, 26)
        } else {
            (
                left,
                (2 + (((left + 29) as i32) & 31)) as i32,
                (2 + (((left - 1) as i32) & 31)) as i32,
            )
        }
    } else {
        (
            left,
            up,
            if left != INTRA_PLANAR && up != INTRA_PLANAR {
                INTRA_PLANAR
            } else if left != INTRA_DC && up != INTRA_DC {
                INTRA_DC
            } else {
                26
            },
        )
    }
}

fn find_likely_modes(left: i32, up: i32) -> (m: (i32, i32, i32))
    requires
        0 <= left <= 255,
        0 <= up <= 255,
    ensures
        m == likely_modes(left, up),
        0 <= m.0 <= 255,
        0 <= m.1 <= 255,
        0 <= m.2 <= 255,
{
    proof {
        reveal(likely_modes);
        let a = (left + 29) as i32;
        let b = (left - 1) as i32;
        assert(0 <= a & 31 <= 31) by (bit_vector);
        assert(0 <= b & 31 <= 31) by (bit_vector);
    }
    if left == up {
        if left < 2 {
            (0, 1, 26)
        } else {
            (left, 2 + ((left + 29) & 31), 2 + ((left - 1) & 31))
        }
    } else {
        (
            left,
            up,
            if left != 0 && up != 0 {
                0
            } else if left != 1 && up != 1 {
                1
            } else {
                26
            },
        )
    }
}

/// Three modes in ascending order.
pub open spec fn ascending(m: (i32, i32, i32)) -> (i32, i32, i32) {
    let (a, b, c) = m;
    let (a, b) = if b < a {
        (b, a)
    } else {
        (a, b)
    };
    let (b, c) = if c < b {
        (c, b)
    } else {
        (b, c)
    };
    if b < a {
        (b, a, c)
    } else {
        (a, b, c)
    }
}

/// `m` moved up past `c`.
pub open spec fn past(m: int, c: i32) -> int {
    if m >= c {
        m + 1
    } else {
        m
    }
}

/// The mode that is coded as one of the likely ones, number `idx`, or as the `rem`-th of the others.
#[verifier::opaque]
pub open spec fn coded_mode(likely: (i32, i32, i32), prev: bool, idx: int, rem: int) -> int {
    if prev {
        if idx == 0 {
            likely.0 as int
        } else if idx == 1 {
            likely.1 as int
        } else {
            likely.2 as int
        }
    } else {
        let (a, b, c) = ascending(likely);
        past(past(past(rem, a), b), c)
    }
}

fn find_coded_mode(likely: (i32, i32, i32), prev: bool, idx: u32, rem: i32) -> (m: i32)
    requires
        0 <= rem < 1000,
    ensures
        m == coded_mode(likely, prev, idx as int, rem as int),
{
    proof {
        reveal(coded_mode);
    }
    if prev {
        return if idx == 0 {
            likely.0
        } else if idx == 1 {
            likely.1
        } else {
            likely.2
        };
    }
    let (a, b, c) = likely;
    let (a, b) = if b < a {
        (b, a)
    } else {
        (a, b)
    };
    let (b, c) = if c < b {
        (c, b)
    } else {
        (b, c)
    };
    let (a, b) = if b < a {
        (b, a)
    } else {
        (a, b)
    };
    let mut m: i32 = rem;
    if m >= a {
        m += 1;
    }
    if m >= b {
        m += 1;
    }
    if m >= c {
        m += 1;
    }
    m
}

/// The modes of the left and the upper neighbour of a block. The mean stands in for one that cannot
/// be used; above, nothing outside the coding tree block can.
#[verifier::opaque]
pub open spec fn neighbor_modes(f: FrameV, g: Geo, t: Ctb, x: int, y: int) -> (i32, i32) {
    (
        if t.left || x % (g.ctb as int) != 0 {
            f.ipm_at(g, x - 1, y) as i32
        } else {
            1
        },
        if y % (g.ctb as int) != 0 {
            f.ipm_at(g, x, y - 1) as i32
        } else {
            1
        },
    )
}

/// The mode of a luma block of `n` by `n` samples, stored for its neighbours.
#[verifier::opaque]
pub open spec fn luma_mode(
    f: FrameV,
    g: Geo,
    t: Ctb,
    x: int,
    y: int,
    n: int,
    prev: bool,
    idx: int,
    rem: int,
) -> (u8, FrameV) {
    let (left, up) = neighbor_modes(f, g, t, x, y);
    let mode = coded_mode(likely_modes(left, up), prev, idx, rem) as u8;
    (mode, f.put_ipm(g, x, y, n, mode))
}

#[verifier::truncate]
fn luma_intra_pred_mode(
    f: &mut Frame,
    g: &Geo,
    t: Ctb,
    x: i32,
    y: i32,
    n: i32,
    prev: bool,
    idx: u32,
    rem: i32,
) -> (mode: u8)
    requires
        g.wf(),
        old(f)@.wf(*g),
        g.has_block(x as int, y as int, n as int, n as int),
        t.ok(x as int, y as int),
        0 <= rem < 1000,
    ensures
        (mode, final(f)@) == luma_mode(
            old(f)@,
            *g,
            t,
            x as int,
            y as int,
            n as int,
            prev,
            idx as int,
            rem as int,
        ),
        final(f)@.wf(*g),
{
    proof {
        reveal(luma_mode);
        reveal(neighbor_modes);
        vstd::arithmetic::div_mod::lemma_small_mod(0, g.ctb as nat);
    }
    let left = if t.left || x % g.ctb != 0 {
        f.ipm_at(g, x - 1, y) as i32
    } else {
        INTRA_DC
    };
    let up = if y % g.ctb != 0 {
        f.ipm_at(g, x, y - 1) as i32
    } else {
        INTRA_DC
    };
    let likely = find_likely_modes(left, up);
    let mode = find_coded_mode(likely, prev, idx, rem) as u8;
    f.put_ipm(g, x, y, n, mode);
    mode
}

/// What codes a luma mode behind its flag: the number of a likely mode, or of another in five bits.
#[verifier::opaque]
pub open spec fn mode_code(c: Bins, prev: bool) -> (int, int, Bins) {
    if prev {
        let (idx, c) = c.ones(0, 2);
        (idx, 0, c)
    } else {
        let (rem, c) = c.number(0, 5);
        (0, (rem & 31) as int, c)
    }
}

fn read_mode_code(d: &mut Decoder, prev: bool) -> (r: (u32, i32))
    ensures
        (r.0 as int, r.1 as int, final(d)@) == mode_code(old(d)@, prev),
        0 <= r.1 <= 31,
{
    proof {
        reveal(mode_code);
    }
    if prev {
        (d.ones(0, 2), 0)
    } else {
        let rem = d.number(0, 5);
        proof {
            assert(0 <= rem & 31 <= 31) by (bit_vector);
        }
        (0, rem & 31)
    }
}

/// One luma block: its code and its mode.
#[verifier::opaque]
pub open spec fn luma_block(c: Bins, f: FrameV, g: Geo, t: Ctb, x: int, y: int, n: int, prev: bool) -> (
    u8,
    Bins,
    FrameV,
) {
    let (idx, rem, c) = mode_code(c, prev);
    let (mode, f) = luma_mode(f, g, t, x, y, n, prev, idx, rem);
    (mode, c, f)
}

fn read_luma_block(
    d: &mut Decoder,
    f: &mut Frame,
    g: &Geo,
    t: Ctb,
    x: i32,
    y: i32,
    n: i32,
    prev: bool,
) -> (mode: u8)
    requires
        g.wf(),
        old(f)@.wf(*g),
        g.has_block(x as int, y as int, n as int, n as int),
        t.ok(x as int, y as int),
    ensures
        (mode, final(d)@, final(f)@) == luma_block(
            old(d)@,
            old(f)@,
            *g,
            t,
            x as int,
            y as int,
            n as int,
            prev,
        ),
        final(f)@.wf(*g),
{
    proof {
        reveal(luma_block);
    }
    let (idx, rem) = read_mode_code(d, prev);
    luma_intra_pred_mode(f, g, t, x, y, n, prev, idx, rem)
}

/// The chroma mode of a coding unit whose first luma block has mode `luma`: one of four, or where
/// luma has that one mode 34, or the mode of luma.
#[verifier::opaque]
pub open spec fn chroma_mode(c: Bins, luma: u8) -> (u8, Bins) {
    let (own, c) = c.flag(INTRA_CHROMA_PRED_MODE_OFFSET as int);
    if !own {
        (luma, c)
    } else {
        let (hi, c) = c.bypass();
        let (lo, c) = c.bypass();
        let m: u8 = if hi == 0 {
            if lo == 0 {
                0
            } else {
                26
            }
        } else if lo == 0 {
            10
        } else {
            1
        };
        (
            if luma == m {
                34
            } else {
                m
            },
            c,
        )
    }
}

fn read_chroma_mode(d: &mut Decoder, luma: u8) -> (m: u8)
    ensures
        (m, final(d)@) == chroma_mode(old(d)@, luma),
{
    proof {
        reveal(chroma_mode);
    }
    if !d.flag(INTRA_CHROMA_PRED_MODE_OFFSET) {
        return luma;
    }
    let hi = d.bypass();
    let lo = d.bypass();
    let m: u8 = if hi == 0 {
        if lo == 0 {
            0
        } else {
            26
        }
    } else if lo == 0 {
        10
    } else {
        1
    };
    if luma == m {
        34
    } else {
        m
    }
}

/// The luma modes of a coding unit of `n` by `n` samples, whole or in four: all flags, then the
/// blocks.
#[verifier::opaque]
pub open spec fn luma_modes(c: Bins, f: FrameV, g: Geo, t: Ctb, x: int, y: int, n: int, split: bool) -> (
    [u8; 4],
    Bins,
    FrameV,
) {
    let ctx = PREV_INTRA_LUMA_PRED_FLAG_OFFSET as int;
    if split {
        let h = n / 2;
        let (p0, c) = c.flag(ctx);
        let (p1, c) = c.flag(ctx);
        let (p2, c) = c.flag(ctx);
        let (p3, c) = c.flag(ctx);
        let (m0, c, f) = luma_block(c, f, g, t, x, y, h, p0);
        let (m1, c, f) = luma_block(c, f, g, t, x + h, y, h, p1);
        let (m2, c, f) = luma_block(c, f, g, t, x, y + h, h, p2);
        let (m3, c, f) = luma_block(c, f, g, t, x + h, y + h, h, p3);
        ([m0, m1, m2, m3], c, f)
    } else {
        let (p, c) = c.flag(ctx);
        let (m, c, f) = luma_block(c, f, g, t, x, y, n, p);
        ([m, m, m, m], c, f)
    }
}

fn read_luma_modes(
    d: &mut Decoder,
    f: &mut Frame,
    g: &Geo,
    t: Ctb,
    x: i32,
    y: i32,
    n: i32,
    split: bool,
) -> (m: [u8; 4])
    requires
        g.wf(),
        old(f)@.wf(*g),
        g.has_block(x as int, y as int, n as int, n as int),
        split ==> n == 2 * g.min_pu,
        t.ok(x as int, y as int),
    ensures
        (m, final(d)@, final(f)@) == luma_modes(
            old(d)@,
            old(f)@,
            *g,
            t,
            x as int,
            y as int,
            n as int,
            split,
        ),
        final(f)@.wf(*g),
{
    proof {
        reveal(luma_modes);
    }
    let ctx = PREV_INTRA_LUMA_PRED_FLAG_OFFSET;
    if split {
        let h: i32 = n / 2;
        proof {
            let m = g.min_pu as int;
            vstd::arithmetic::div_mod::lemma_mod_self_0(m);
            vstd::arithmetic::div_mod::lemma_add_mod_noop(x as int, m, m);
            vstd::arithmetic::div_mod::lemma_add_mod_noop(y as int, m, m);
            vstd::arithmetic::div_mod::lemma_small_mod(0, m as nat);
        }
        let p0 = d.flag(ctx);
        let p1 = d.flag(ctx);
        let p2 = d.flag(ctx);
        let p3 = d.flag(ctx);
        let m0 = read_luma_block(d, f, g, t, x, y, h, p0);
        let m1 = read_luma_block(d, f, g, t, x + h, y, h, p1);
        let m2 = read_luma_block(d, f, g, t, x, y + h, h, p2);
        let m3 = read_luma_block(d, f, g, t, x + h, y + h, h, p3);
        [m0, m1, m2, m3]
    } else {
        let p = d.flag(ctx);
        let m = read_luma_block(d, f, g, t, x, y, n, p);
        [m, m, m, m]
    }
}

/// The modes of an intra coding unit: luma, and chroma where the picture has it.
#[verifier::opaque]
pub open spec fn intra_modes(
    c: Bins,
    f: FrameV,
    g: Geo,
    t: Ctb,
    x: int,
    y: int,
    n: int,
    split: bool,
    chroma: bool,
) -> ([u8; 4], u8, Bins, FrameV) {
    let (modes, c, f) = luma_modes(c, f, g, t, x, y, n, split);
    let (mode_c, c) = if chroma {
        chroma_mode(c, modes@[0])
    } else {
        (1, c)
    };
    (modes, mode_c, c, f)
}

/// Decodes the modes of an intra coding unit.
pub fn intra_prediction_unit(
    d: &mut Decoder,
    f: &mut Frame,
    g: &Geo,
    t: Ctb,
    x: i32,
    y: i32,
    n: i32,
    split: bool,
    chroma: bool,
) -> (m: ([u8; 4], u8))
    requires
        g.wf(),
        old(f)@.wf(*g),
        g.has_block(x as int, y as int, n as int, n as int),
        split ==> n == 2 * g.min_pu,
        t.ok(x as int, y as int),
    ensures
        (m.0, m.1, final(d)@, final(f)@) == intra_modes(
            old(d)@,
            old(f)@,
            *g,
            t,
            x as int,
            y as int,
            n as int,
            split,
            chroma,
        ),
        final(f)@.wf(*g),
{
    proof {
        reveal(intra_modes);
    }
    let modes = read_luma_modes(d, f, g, t, x, y, n, split);
    let mode_c = if chroma {
        read_chroma_mode(d, modes[0])
    } else {
        1
    };
    (modes, mode_c)
}

} // verus!
