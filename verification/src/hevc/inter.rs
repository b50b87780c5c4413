//! Prediction units of H.265.

use super::contexts::{
    Bins, Decoder, ABS_MVD_GREATER0_FLAG_OFFSET, ABS_MVD_GREATER1_FLAG_OFFSET,
    INTER_PRED_IDC_OFFSET, MERGE_FLAG_OFFSET, MERGE_IDX_OFFSET, MVP_LX_FLAG_OFFSET,
    REF_IDX_L0_OFFSET,
};
use super::env::{Env, EnvV};
use super::frame::{Frame, FrameV, MvField, MAX_LOG2, PF_BI, PF_L0};
use super::motion::{
    amvp_predictor, derive_merge, merge_cand, predictor, short_vec, Ctb, MergePu, Pu,
};
use super::slice_header::SliceType;
use crate::motion::{add_mv, mv_sum, zero_mv, Mv};
use vstd::prelude::*;

verus! {

// ---------------------------------------------------------------------------
// Vector differences

/// The prefix of a large difference: each bypass bin of 1 adds a power of two.
pub open spec fn mvd_prefix(c: Bins, v: i32, k: u32) -> (i32, u32, Bins)
    decreases 32 - k,
{
    if k >= 32 {
        (v, k, c)
    } else {
        let (bin, c) = c.bypass();
        if bin == 1 {
            mvd_prefix(c, v.wrapping_add(1i32 << k), (k + 1) as u32)
        } else {
            (v, k, c)
        }
    }
}

/// The suffix of a large difference: `k` bypass bins.
pub open spec fn mvd_suffix(c: Bins, v: i32, k: u32) -> (i32, Bins)
    decreases k,
{
    if k == 0 {
        (v, c)
    } else {
        let (bin, c) = c.bypass();
        mvd_suffix(c, v.wrapping_add((bin as i32) << ((k - 1) as u32)), (k - 1) as u32)
    }
}

/// A difference of 2 or more, with its sign.
#[verifier::opaque]
pub open spec fn mvd_large(c: Bins) -> (i32, Bins) {
    let (v, k, c) = mvd_prefix(c, 2, 1);
    let (v, c) = mvd_suffix(c, v, k);
    c.sign(0i32.wrapping_sub(v))
}

fn mvd_decode(d: &mut Decoder) -> (v: i32)
    ensures
        (v, final(d)@) == mvd_large(old(d)@),
{
    proof {
        reveal(mvd_large);
    }
    let ghost prefix = mvd_prefix(d@, 2, 1);
    let mut v: i32 = 2;
    let mut k: u32 = 1;
    let mut bin = d.bypass();
    while bin == 1 && k < 31
        invariant
            1 <= k <= 31,
            bin == 1 ==> mvd_prefix(d@, v.wrapping_add(1i32 << k), (k + 1) as u32) == prefix,
            bin != 1 ==> (v, k, d@) == prefix,
        decreases 32 - k,
    {
        v = v.wrapping_add(1i32 << k);
        k += 1;
        bin = d.bypass();
    }
    if bin == 1 {
        v = v.wrapping_add(1i32 << k);
        k += 1;
    }
    assert((v, k, d@) == prefix);
    let ghost suffix = mvd_suffix(d@, v, k);
    while k > 0
        invariant
            k <= 32,
            mvd_suffix(d@, v, k) == suffix,
        decreases k,
    {
        k -= 1;
        v = v.wrapping_add((d.bypass() as i32) << k);
    }
    d.sign(0i32.wrapping_sub(v))
}

/// A component whose magnitude is at least `class`, up to 2.
#[verifier::opaque]
pub open spec fn mvd_part(c: Bins, class: u32) -> (i32, Bins) {
    if class == 2 {
        mvd_large(c)
    } else if class == 1 {
        c.sign(-1i32)
    } else {
        (0, c)
    }
}

fn read_mvd_part(d: &mut Decoder, class: u32) -> (v: i32)
    ensures
        (v, final(d)@) == mvd_part(old(d)@, class),
{
    proof {
        reveal(mvd_part);
    }
    match class {
        2 => mvd_decode(d),
        1 => d.sign(-1),
        _ => 0,
    }
}

/// A vector difference: whether each component is zero, whether it is one, and the components.
#[verifier::opaque]
pub open spec fn mvd(c: Bins) -> (Mv, Bins) {
    let (gx, c) = c.get(ABS_MVD_GREATER0_FLAG_OFFSET as int);
    let (gy, c) = c.get(ABS_MVD_GREATER0_FLAG_OFFSET as int);
    let (mx, c) = if gx != 0 {
        c.get(ABS_MVD_GREATER1_FLAG_OFFSET + 1)
    } else {
        (0, c)
    };
    let (my, c) = if gy != 0 {
        c.get(ABS_MVD_GREATER1_FLAG_OFFSET + 1)
    } else {
        (0, c)
    };
    let (x, c) = mvd_part(c, (gx + mx) as u32);
    let (y, c) = mvd_part(c, (gy + my) as u32);
    (Mv { x, y }, c)
}

fn mvd_coding(d: &mut Decoder) -> (v: Mv)
    ensures
        (v, final(d)@) == mvd(old(d)@),
{
    proof {
        reveal(mvd);
    }
    let gx = d.get(ABS_MVD_GREATER0_FLAG_OFFSET);
    let gy = d.get(ABS_MVD_GREATER0_FLAG_OFFSET);
    let mx = if gx != 0 {
        d.get(ABS_MVD_GREATER1_FLAG_OFFSET + 1)
    } else {
        0
    };
    let my = if gy != 0 {
        d.get(ABS_MVD_GREATER1_FLAG_OFFSET + 1)
    } else {
        0
    };
    let x = read_mvd_part(d, gx + mx);
    let y = read_mvd_part(d, gy + my);
    Mv { x, y }
}

// ---------------------------------------------------------------------------
// Indices

/// The first bins of a reference index, with a context each, up to `max`.
pub open spec fn ref_prefix(c: Bins, i: int, max: int) -> (int, Bins)
    decreases max - i,
{
    if i >= max {
        (i, c)
    } else {
        let (more, c) = c.flag(REF_IDX_L0_OFFSET + i);
        if more {
            ref_prefix(c, i + 1, max)
        } else {
            (i, c)
        }
    }
}

/// A reference index into a list of `num_ref` pictures: two bins with contexts, then bypass bins.
#[verifier::opaque]
pub open spec fn ref_idx(c: Bins, num_ref: u32) -> (i8, Bins) {
    let max = (num_ref as i32).wrapping_sub(1);
    let (i, c) = ref_prefix(
        c,
        0,
        if max < 2 {
            max as int
        } else {
            2
        },
    );
    let (i, c) = if i == 2 {
        c.ones(2, max as int)
    } else {
        (i, c)
    };
    (i as i8, c)
}

#[verifier::truncate]
fn ref_idx_lx_decode(d: &mut Decoder, num_ref: u32) -> (r: i8)
    ensures
        (r, final(d)@) == ref_idx(old(d)@, num_ref),
{
    proof {
        reveal(ref_idx);
    }
    let max: i32 = (num_ref as i32).wrapping_sub(1);
    let max_ctx: i32 = if max < 2 {
        max
    } else {
        2
    };
    let ghost prefix = ref_prefix(d@, 0, max_ctx as int);
    let mut i: i32 = 0;
    let mut go = true;
    while go && i < max_ctx
        invariant
            0 <= i <= 2,
            max_ctx <= 2,
            i <= max_ctx || i == 0,
            go ==> ref_prefix(d@, i as int, max_ctx as int) == prefix,
            !go ==> (i as int, d@) == prefix,
        decreases
                2 - i,
                (if go {
                    1int
                } else {
                    0int
                }),
    {
        if d.flag(REF_IDX_L0_OFFSET + i as usize) {
            i += 1;
        } else {
            go = false;
        }
    }
    assert((i as int, d@) == prefix);
    if i == 2 {
        let n = d.ones(2, max as u32);
        return n as i8;
    }
    i as i8
}

/// `merge_idx`, for `max` candidates.
#[verifier::opaque]
pub open spec fn merge_idx(c: Bins, max: u32) -> (int, Bins) {
    if max > 1 {
        let (some, c) = c.flag(MERGE_IDX_OFFSET as int);
        if some {
            c.ones(1, max - 1)
        } else {
            (0, c)
        }
    } else {
        (0, c)
    }
}

fn merge_idx_decode(d: &mut Decoder, max: u32) -> (i: u32)
    ensures
        (i as int, final(d)@) == merge_idx(old(d)@, max),
{
    proof {
        reveal(merge_idx);
    }
    if max > 1 && d.flag(MERGE_IDX_OFFSET) {
        d.ones(1, max - 1)
    } else {
        0
    }
}

/// Which lists a block uses: 0 for list 0, 1 for list 1, 2 for both. A block of 8x4 or 4x8 samples
/// does not use both.
#[verifier::opaque]
pub open spec fn pred_idc(c: Bins, p: Pu, depth: int) -> (u32, Bins) {
    if p.w + p.h == 12 {
        c.get(INTER_PRED_IDC_OFFSET + 4)
    } else {
        let (both, c) = c.flag(INTER_PRED_IDC_OFFSET + depth);
        if both {
            (2, c)
        } else {
            c.get(INTER_PRED_IDC_OFFSET + 4)
        }
    }
}

fn inter_pred_idc_decode(d: &mut Decoder, p: Pu, depth: i32) -> (r: u32)
    requires
        0 <= depth <= MAX_LOG2,
    ensures
        (r, final(d)@) == pred_idc(old(d)@, p, depth as int),
{
    proof {
        reveal(pred_idc);
    }
    if p.w as i64 + p.h as i64 == 12 {
        return d.get(INTER_PRED_IDC_OFFSET + 4);
    }
    if d.flag(INTER_PRED_IDC_OFFSET + depth as usize) {
        2
    } else {
        d.get(INTER_PRED_IDC_OFFSET + 4)
    }
}

// ---------------------------------------------------------------------------
// Coded vectors

/// Reference index and vector of one list: index, difference, and predictor by its flag.
#[verifier::opaque]
pub open spec fn coded_list(
    c: Bins,
    f: FrameV,
    e: EnvV,
    t: Ctb,
    p: Pu,
    l: int,
    zero_mvd: bool,
) -> (i8, [i16; 2], Bins) {
    let nb = if l == 0 {
        e.sh.inter.nb0
    } else {
        e.sh.inter.nb1
    };
    let (r, c) = if nb > 0 {
        ref_idx(c, nb)
    } else {
        (0, c)
    };
    let (d, c) = if zero_mvd {
        (zero_mv(), c)
    } else {
        mvd(c)
    };
    let (flag, c) = c.get(MVP_LX_FLAG_OFFSET as int);
    let v = mv_sum(predictor(f, e.g, t, p, l, r, e.sh, e.ri, flag), d);
    (r, short_vec(v), c)
}

#[verifier::truncate]
fn read_coded_list(
    d: &mut Decoder,
    f: &Frame,
    e: &Env,
    t: Ctb,
    p: Pu,
    l: usize,
    zero_mvd: bool,
) -> (r: (i8, [i16; 2]))
    requires
        e@.ok(),
        f@.wf(e.g),
        p.ok(e.g),
        t.ok(p.x as int, p.y as int),
        l < 2,
    ensures
        (r.0, r.1, final(d)@) == coded_list(old(d)@, f@, e@, t, p, l as int, zero_mvd),
{
    proof {
        reveal(coded_list);
    }
    let nb = if l == 0 {
        e.sh.nb_refs[0]
    } else {
        e.sh.nb_refs[1]
    };
    let r = if nb > 0 {
        ref_idx_lx_decode(d, nb)
    } else {
        0
    };
    let diff = if zero_mvd {
        Mv { x: 0, y: 0 }
    } else {
        mvd_coding(d)
    };
    let flag = d.get(MVP_LX_FLAG_OFFSET);
    let pred = amvp_predictor(f, &e.g, t, p, l, r, e.sh, e.ri, flag);
    let v = add_mv(pred, diff);
    (r, [v.x as i16, v.y as i16])
}

/// The motion of a block that does not merge.
#[verifier::opaque]
pub open spec fn coded_motion(c: Bins, f: FrameV, e: EnvV, t: Ctb, p: Pu, depth: int) -> (
    MvField,
    Bins,
) {
    let (idc, c) = if e.sh.slice_type == Some(SliceType::B) {
        pred_idc(c, p, depth)
    } else {
        (0, c)
    };
    let (r0, v0, c) = if idc != 1 {
        coded_list(c, f, e, t, p, 0, false)
    } else {
        (0i8, [0i16, 0i16], c)
    };
    let (r1, v1, c) = if idc != 0 {
        coded_list(c, f, e, t, p, 1, e.sh.inter.mvd_l1_zero && idc == 2)
    } else {
        (0i8, [0i16, 0i16], c)
    };
    let flags: u8 = if idc == 0 {
        1
    } else if idc == 1 {
        2
    } else {
        3
    };
    (MvField { mv: [v0, v1], ref_idx: [r0, r1], pred_flag: flags }, c)
}

fn mvp_mode(d: &mut Decoder, f: &Frame, e: &Env, t: Ctb, p: Pu, depth: i32) -> (m: MvField)
    requires
        e@.ok(),
        f@.wf(e.g),
        p.ok(e.g),
        t.ok(p.x as int, p.y as int),
        0 <= depth <= MAX_LOG2,
    ensures
        (m, final(d)@) == coded_motion(old(d)@, f@, e@, t, p, depth as int),
{
    proof {
        reveal(coded_motion);
    }
    let idc = if matches!(e.sh.slice_type, Some(SliceType::B)) {
        inter_pred_idc_decode(d, p, depth)
    } else {
        0
    };
    let (r0, v0) = if idc != 1 {
        read_coded_list(d, f, e, t, p, 0, false)
    } else {
        (0, [0, 0])
    };
    let (r1, v1) = if idc != 0 {
        read_coded_list(d, f, e, t, p, 1, e.sh.mvd_l1_zero_flag && idc == 2)
    } else {
        (0, [0, 0])
    };
    let flags: u8 = if idc == 0 {
        1
    } else if idc == 1 {
        2
    } else {
        3
    };
    MvField { mv: [v0, v1], ref_idx: [r0, r1], pred_flag: flags }
}

// ---------------------------------------------------------------------------
// Prediction units

/// A prediction unit in its coding unit: the unit, the place and size of the coding unit, and
/// whether it is the second of two halves side by side or one below the other.
#[derive(Clone, Copy)]
pub struct PuPlace {
    pub p: Pu,
    pub cu_x: i32,
    pub cu_y: i32,
    pub cu_n: i32,
    pub second_right: bool,
    pub second_below: bool,
}

/// The block that a unit merges as: the whole coding unit, where it is the smallest and the merge
/// level joins its parts.
pub open spec fn merge_pu(u: PuPlace, level: u32) -> MergePu {
    if level > 2 && u.cu_n == 8 {
        MergePu {
            p: Pu { x: u.cu_x, y: u.cu_y, w: 8, h: 8 },
            level,
            second_right: false,
            second_below: false,
        }
    } else {
        MergePu { p: u.p, level, second_right: u.second_right, second_below: u.second_below }
    }
}

/// The motion of a merged unit. A unit of 8x4 or 4x8 samples keeps list 0 alone of two lists.
#[verifier::opaque]
pub open spec fn merged_motion(c: Bins, f: FrameV, e: EnvV, t: Ctb, u: PuPlace) -> (MvField, Bins) {
    let (idx, c) = merge_idx(c, e.sh.inter.merge_cand);
    let m = merge_cand(
        f,
        e.g,
        t,
        merge_pu(u, e.pps.log2_parallel_merge_level),
        e.sh,
        e.ri,
        idx,
    );
    (
        if m.pred_flag == PF_BI && u.p.w + u.p.h == 12 {
            MvField { pred_flag: PF_L0, ..m }
        } else {
            m
        },
        c,
    )
}

fn luma_mv_merge_mode(d: &mut Decoder, f: &Frame, e: &Env, t: Ctb, u: &PuPlace) -> (m: MvField)
    requires
        e@.ok(),
        f@.wf(e.g),
        u.p.ok(e.g),
        t.ok(u.p.x as int, u.p.y as int),
        (Pu { x: u.cu_x, y: u.cu_y, w: u.cu_n, h: u.cu_n }).ok(e.g),
        t.ok(u.cu_x as int, u.cu_y as int),
    ensures
        (m, final(d)@) == merged_motion(old(d)@, f@, e@, t, *u),
{
    proof {
        reveal(merged_motion);
    }
    let idx = merge_idx_decode(d, e.sh.max_num_merge_cand);
    let level = e.pps.log2_parallel_merge_level;
    let mp = if level > 2 && u.cu_n == 8 {
        MergePu {
            p: Pu { x: u.cu_x, y: u.cu_y, w: 8, h: 8 },
            level,
            second_right: false,
            second_below: false,
        }
    } else {
        MergePu { p: u.p, level, second_right: u.second_right, second_below: u.second_below }
    };
    let m = derive_merge(f, &e.g, t, &mp, e.sh, e.ri, idx as usize);
    if m.pred_flag == PF_BI && u.p.w as i64 + u.p.h as i64 == 12 {
        MvField { mv: m.mv, ref_idx: m.ref_idx, pred_flag: PF_L0 }
    } else {
        m
    }
}

/// `prediction_unit()`: whether it merged, and the motion stored. A skipped unit merges.
#[verifier::opaque]
pub open spec fn pred_unit(
    c: Bins,
    f: FrameV,
    e: EnvV,
    t: Ctb,
    u: PuPlace,
    skipped: bool,
    depth: int,
) -> (bool, Bins, FrameV) {
    let (merge, c) = if skipped {
        (true, c)
    } else {
        c.flag(MERGE_FLAG_OFFSET as int)
    };
    let (m, c) = if merge {
        merged_motion(c, f, e, t, u)
    } else {
        coded_motion(c, f, e, t, u.p, depth)
    };
    (
        merge,
        c,
        f.put_mvf(e.g, u.p.x as int, u.p.y as int, u.p.w as int, u.p.h as int, m),
    )
}

/// Decodes a prediction unit.
pub fn prediction_unit(
    d: &mut Decoder,
    f: &mut Frame,
    e: &Env,
    t: Ctb,
    u: &PuPlace,
    skipped: bool,
    depth: i32,
) -> (merge: bool)
    requires
        e@.ok(),
        old(f)@.wf(e.g),
        u.p.ok(e.g),
        t.ok(u.p.x as int, u.p.y as int),
        (Pu { x: u.cu_x, y: u.cu_y, w: u.cu_n, h: u.cu_n }).ok(e.g),
        t.ok(u.cu_x as int, u.cu_y as int),
        0 <= depth <= MAX_LOG2,
    ensures
        (merge, final(d)@, final(f)@) == pred_unit(
            old(d)@,
            old(f)@,
            e@,
            t,
            *u,
            skipped,
            depth as int,
        ),
        final(f)@.wf(e.g),
{
    proof {
        reveal(pred_unit);
    }
    let merge = skipped || d.flag(MERGE_FLAG_OFFSET);
    let m = if merge {
        luma_mv_merge_mode(d, f, e, t, u)
    } else {
        mvp_mode(d, f, e, t, u.p, depth)
    };
    f.put_mvf(&e.g, u.p.x, u.p.y, u.p.w, u.p.h, m);
    merge
}

} // verus!
