//! What the motion of prediction units and coding units is.

use super::contexts::{
    Bins, ABS_MVD_GREATER0_FLAG_OFFSET, ABS_MVD_GREATER1_FLAG_OFFSET, INTER_PRED_IDC_OFFSET,
    MERGE_FLAG_OFFSET, MERGE_IDX_OFFSET, MVP_LX_FLAG_OFFSET,
};
use super::cu::{four_parts, inter_parts, skipped_unit, two_columns, two_rows, unit_part, CuPlace};
use super::env::EnvV;
use super::frame::{FrameV, Geo, MvField, PF_INTRA};
use super::inter::{
    coded_list, coded_motion, merge_idx, merged_motion, mvd, mvd_large, mvd_part, mvd_prefix,
    mvd_suffix, pred_idc, pred_unit, ref_idx, PuPlace,
};
use super::motion::{merge_cand, predictor, Ctb, MergePu, Pu};
use super::motion_laws::kept_index;
use super::slice_header::SliceType;
use crate::grid::in_run;
use crate::motion::zero_mv;
use vstd::arithmetic::div_mod::{lemma_fundamental_div_mod, lemma_fundamental_div_mod_converse};
use vstd::arithmetic::power2::{lemma2_to64, lemma_pow2_strictly_increases, lemma_pow2_unfold, pow2};
use vstd::bits::lemma_u32_shl_is_mul;
use vstd::prelude::*;

verus! {

// ---------------------------------------------------------------------------
// Storing

/// The sample at `x`, `y` belongs to a block.
pub open spec fn in_block(p: Pu, x: int, y: int) -> bool {
    p.x <= x < p.x + p.w && p.y <= y < p.y + p.h
}

/// A place whose motion is kept.
pub open spec fn is_kept(f: FrameV, g: Geo, x: int, y: int) -> bool {
    0 <= x && 0 <= y && 0 <= kept_index(g, x, y) < f.mvf.len()
}

/// Cells of `m` samples: a sample of a block that starts and ends with cells lies in one of them.
pub proof fn lemma_cell_of(m: int, x: int, w: int, s: int)
    requires
        0 < m,
        0 <= x,
        0 < w,
        x % m == 0,
        w % m == 0,
        0 <= s,
    ensures
        x <= s < x + w <==> x / m <= s / m < x / m + w / m,
{
    lemma_fundamental_div_mod(x, m);
    lemma_fundamental_div_mod(w, m);
    lemma_fundamental_div_mod(s, m);
    let (a, b, c, r) = (x / m, w / m, s / m, s % m);
    assert(x <= s < x + w <==> a <= c < a + b) by (nonlinear_arith)
        requires
            0 < m,
            x == m * a,
            w == m * b,
            s == m * c + r,
            0 <= r < m,
    ;
}

/// Storing the motion of a block gives it to every sample of the block.
pub proof fn law_block_keeps_its_motion(f: FrameV, g: Geo, p: Pu, m: MvField, x: int, y: int)
    requires
        g.wf(),
        p.ok(g),
        in_block(p, x, y),
        is_kept(f, g, x, y),
    ensures
        f.put_mvf(g, p.x as int, p.y as int, p.w as int, p.h as int, m).mvf[kept_index(g, x, y)] == m,
{
    reveal(FrameV::put_mvf);
    let u = g.min_pu as int;
    lemma_cell_of(u, p.x as int, p.w as int, x);
    lemma_cell_of(u, p.y as int, p.h as int, y);
    let i = kept_index(g, x, y);
    assert(in_run(i, g.pu_w as int, p.x as int / u, y / u, p.w as int / u));
}

/// A block inside a picture of whole cells.
pub open spec fn inside(g: Geo, p: Pu) -> bool {
    &&& p.ok(g)
    &&& p.x + p.w <= g.pu_w * g.min_pu
    &&& p.y + p.h <= g.pu_h * g.min_pu
}

/// Storing the motion of a block inside the picture changes that of no sample outside the block.
pub proof fn law_other_blocks_keep_theirs(f: FrameV, g: Geo, p: Pu, m: MvField, x: int, y: int)
    requires
        g.wf(),
        f.wf(g),
        inside(g, p),
        0 <= x < g.pu_w * g.min_pu,
        0 <= y < g.pu_h * g.min_pu,
        !in_block(p, x, y),
    ensures
        f.put_mvf(g, p.x as int, p.y as int, p.w as int, p.h as int, m).mvf[kept_index(g, x, y)]
            == f.mvf[kept_index(g, x, y)],
{
    reveal(FrameV::put_mvf);
    let u = g.min_pu as int;
    let stride = g.pu_w as int;
    lemma_cell_of(u, p.x as int, p.w as int, x);
    lemma_cell_of(u, p.y as int, p.h as int, y);
    let i = kept_index(g, x, y);
    lemma_fundamental_div_mod(x, u);
    lemma_fundamental_div_mod(y, u);
    lemma_fundamental_div_mod(p.x as int, u);
    lemma_fundamental_div_mod(p.w as int, u);
    let (cx, cy, px, pw) = (x / u, y / u, p.x as int / u, p.w as int / u);
    assert(0 <= cx < stride && 0 <= cy < g.pu_h) by (nonlinear_arith)
        requires
            0 <= x < stride * u,
            0 <= y < g.pu_h * u,
            0 < u,
            x == u * cx + x % u,
            y == u * cy + y % u,
            0 <= x % u < u,
            0 <= y % u < u,
    ;
    assert(px + pw <= stride && 0 <= px) by (nonlinear_arith)
        requires
            p.x + p.w <= stride * u,
            0 <= p.x,
            p.x == u * px,
            p.w == u * pw,
            0 < u,
    ;
    crate::grid::lemma_cell(cx, cy, stride, g.pu_h as int);
    assert forall|k: int|
        p.y as int / u <= k < p.y as int / u + p.h as int / u implies !#[trigger] in_run(
        i,
        stride,
        px,
        k,
        pw,
    ) by {
        if in_run(i, stride, px, k, pw) {
            lemma_fundamental_div_mod_converse(i, stride, k, i - k * stride);
        }
    }
}

/// An intra block has no motion that others could use, in any of its samples.
pub proof fn law_intra_block_is_marked(f: FrameV, g: Geo, p: Pu, x: int, y: int)
    requires
        g.wf(),
        p.ok(g),
        p.w == p.h,
        in_block(p, x, y),
        is_kept(f, g, x, y),
    ensures
        f.put_intra(g, p.x as int, p.y as int, p.w as int).mvf[kept_index(g, x, y)].pred_flag
            == PF_INTRA,
{
    reveal(FrameV::put_intra);
    let u = g.min_pu as int;
    lemma_cell_of(u, p.x as int, p.w as int, x);
    lemma_cell_of(u, p.y as int, p.h as int, y);
    let i = kept_index(g, x, y);
    assert(in_run(i, g.pu_w as int, p.x as int / u, y / u, p.w as int / u));
}

// ---------------------------------------------------------------------------
// Merged units

/// The bins of a merge index: the first has a context, the others are bypass bins.
pub open spec fn index_bin(c: Bins, k: int) -> bool
    decreases k,
{
    if k <= 0 {
        c.flag(MERGE_IDX_OFFSET as int).0
    } else {
        index_state(c, k).bypass().0 == 1
    }
}

/// The state behind the first `k` bins of a merge index.
pub open spec fn index_state(c: Bins, k: int) -> Bins
    decreases k,
{
    if k <= 0 {
        c
    } else if k == 1 {
        c.flag(MERGE_IDX_OFFSET as int).1
    } else {
        index_state(c, k - 1).bypass().1
    }
}

proof fn lemma_ones(c: Bins, s: Bins, i: int, max: int)
    requires
        1 <= i,
        s == index_state(c, i),
        forall|k: int| 0 <= k < i ==> #[trigger] index_bin(c, k),
        i <= max,
    ensures
        ({
            let (n, r) = s.ones(i, max);
            &&& i <= n <= max
            &&& forall|k: int| 0 <= k < n ==> #[trigger] index_bin(c, k)
            &&& n < max ==> !index_bin(c, n) && r == index_state(c, n + 1)
            &&& n == max ==> r == index_state(c, n)
        }),
    decreases max - i,
{
    if i < max {
        let (bin, s1) = s.bypass();
        assert(s1 == index_state(c, i + 1));
        if bin == 1 {
            assert(index_bin(c, i));
            lemma_ones(c, s1, i + 1, max);
        }
    }
}

/// A merge index is the number of ones before the first zero. There is no zero behind the last index,
/// and nothing at all is coded where there is but one candidate.
pub proof fn law_merge_index_is_unary(c: Bins, max: u32)
    ensures
        ({
            let (n, r) = merge_idx(c, max);
            &&& max <= 1 ==> n == 0 && r == c
            &&& max > 1 ==> 0 <= n < max
            &&& max > 1 ==> forall|k: int| 0 <= k < n ==> #[trigger] index_bin(c, k)
            &&& 0 <= n < max - 1 ==> !index_bin(c, n) && r == index_state(c, n + 1)
            &&& max > 1 && n == max - 1 ==> r == index_state(c, n)
        }),
{
    reveal(merge_idx);
    if max > 1 {
        let (some, s) = c.flag(MERGE_IDX_OFFSET as int);
        if some {
            assert(index_bin(c, 0));
            assert(s == index_state(c, 1));
            lemma_ones(c, s, 1, max - 1);
        }
    }
}

/// The block that a unit merges as. The parts of a unit of 8 by 8 samples merge as one, where the merge
/// level is more than 4 samples.
pub open spec fn merges_as(u: PuPlace, level: u32) -> MergePu {
    let joined = u.cu_n == 8 && level >= 3;
    MergePu {
        p: if joined {
            Pu { x: u.cu_x, y: u.cu_y, w: u.cu_n, h: u.cu_n }
        } else {
            u.p
        },
        level,
        second_right: u.second_right && !joined,
        second_below: u.second_below && !joined,
    }
}

/// What a unit takes over of a candidate: everything, but list 0 alone of two where it has 8 by 4 or 4
/// by 8 samples.
pub open spec fn takes_over(m: MvField, from: MvField, p: Pu) -> bool {
    if from.pred_flag == 3 && p.w + p.h == 12 {
        m.pred_flag == 1 && m.mv[0] == from.mv[0] && m.ref_idx[0] == from.ref_idx[0]
    } else {
        m == from
    }
}

/// Every sample of a skipped or merged unit has the motion of the merge candidate that its index names.
/// A skipped unit merges without a flag.
pub proof fn law_merged_unit(
    c: Bins,
    f: FrameV,
    e: EnvV,
    t: Ctb,
    u: PuPlace,
    skipped: bool,
    depth: int,
    x: int,
    y: int,
)
    requires
        e.ok(),
        u.p.ok(e.g),
        in_block(u.p, x, y),
        is_kept(f, e.g, x, y),
    ensures
        ({
            let (merged, c2, f2) = pred_unit(c, f, e, t, u, skipped, depth);
            let c1 = if skipped {
                c
            } else {
                c.flag(MERGE_FLAG_OFFSET as int).1
            };
            let (idx, c3) = merge_idx(c1, e.sh.inter.merge_cand);
            let from = merge_cand(
                f,
                e.g,
                t,
                merges_as(u, e.pps.log2_parallel_merge_level),
                e.sh,
                e.ri,
                idx,
            );
            &&& merged == (skipped || c.flag(MERGE_FLAG_OFFSET as int).0)
            &&& merged ==> takes_over(f2.mvf[kept_index(e.g, x, y)], from, u.p) && c2 == c3
        }),
{
    reveal(pred_unit);
    reveal(merged_motion);
    let m = if skipped {
        merged_motion(c, f, e, t, u).0
    } else {
        merged_motion(c.flag(MERGE_FLAG_OFFSET as int).1, f, e, t, u).0
    };
    law_block_keeps_its_motion(f, e.g, u.p, m, x, y);
}

// ---------------------------------------------------------------------------
// Units with motion of their own

/// The vector of a list is its predictor and the coded difference, in 16 bits. The reference comes first,
/// then the difference, then which predictor it is.
pub proof fn law_coded_vector(
    c: Bins,
    f: FrameV,
    e: EnvV,
    t: Ctb,
    p: Pu,
    l: int,
    zero_mvd: bool,
)
    requires
        0 <= l < 2,
    ensures
        ({
            let (r, v, rest) = coded_list(c, f, e, t, p, l, zero_mvd);
            let nb = if l == 0 {
                e.sh.inter.nb0
            } else {
                e.sh.inter.nb1
            };
            let (idx, c1) = if nb == 0 {
                (0i8, c)
            } else {
                ref_idx(c, nb)
            };
            let (d, c2) = if zero_mvd {
                (zero_mv(), c1)
            } else {
                mvd(c1)
            };
            let (flag, c3) = c2.get(MVP_LX_FLAG_OFFSET as int);
            let pred = predictor(f, e.g, t, p, l, idx, e.sh, e.ri, flag);
            &&& r == idx
            &&& rest == c3
            &&& -32768 <= pred.x + d.x <= 32767 ==> v[0] == pred.x + d.x
            &&& -32768 <= pred.y + d.y <= 32767 ==> v[1] == pred.y + d.y
        }),
{
    reveal(coded_list);
}

/// A unit of a P slice that does not merge uses list 0. One of a B slice uses what is coded: list 0, list 1
/// or both, list 0 first. With both, a slice may leave the difference of list 1 out.
pub proof fn law_coded_motion(c: Bins, f: FrameV, e: EnvV, t: Ctb, p: Pu, depth: int)
    ensures
        ({
            let (m, rest) = coded_motion(c, f, e, t, p, depth);
            let is_b = e.sh.slice_type == Some(SliceType::B);
            let (idc, c1) = pred_idc(c, p, depth);
            let (r0, v0, a) = coded_list(
                if is_b {
                    c1
                } else {
                    c
                },
                f,
                e,
                t,
                p,
                0,
                false,
            );
            let (r1, v1, b) = coded_list(c1, f, e, t, p, 1, false);
            let (r2, v2, d) = coded_list(a, f, e, t, p, 1, e.sh.inter.mvd_l1_zero);
            &&& !is_b || idc == 0 ==> m.pred_flag == 1 && m.ref_idx[0] == r0 && m.mv[0] == v0
                && rest == a
            &&& is_b && idc == 1 ==> m.pred_flag == 2 && m.ref_idx[1] == r1 && m.mv[1] == v1
                && rest == b
            &&& is_b && idc == 2 ==> m.pred_flag == 3 && m.ref_idx[0] == r0 && m.mv[0] == v0
                && m.ref_idx[1] == r2 && m.mv[1] == v2 && rest == d
        }),
{
    reveal(coded_motion);
}

/// A unit of 8 by 4 or 4 by 8 samples uses one list.
pub proof fn law_small_units_use_one_list(c: Bins, p: Pu, depth: int)
    ensures
        ({
            let (idc, rest) = pred_idc(c, p, depth);
            let (both, c1) = c.flag(INTER_PRED_IDC_OFFSET + depth);
            &&& p.w + p.h == 12 ==> (idc, rest) == c.get(INTER_PRED_IDC_OFFSET + 4)
            &&& p.w + p.h != 12 && both ==> idc == 2 && rest == c1
            &&& p.w + p.h != 12 && !both ==> (idc, rest) == c1.get(INTER_PRED_IDC_OFFSET + 4)
        }),
{
    reveal(pred_idc);
}

/// Every sample of a unit that does not merge has the motion that is coded for it.
pub proof fn law_unit_of_its_own(
    c: Bins,
    f: FrameV,
    e: EnvV,
    t: Ctb,
    u: PuPlace,
    depth: int,
    x: int,
    y: int,
)
    requires
        e.ok(),
        u.p.ok(e.g),
        in_block(u.p, x, y),
        is_kept(f, e.g, x, y),
        !c.flag(MERGE_FLAG_OFFSET as int).0,
    ensures
        ({
            let (merged, c2, f2) = pred_unit(c, f, e, t, u, false, depth);
            let (m, c3) = coded_motion(c.flag(MERGE_FLAG_OFFSET as int).1, f, e, t, u.p, depth);
            !merged && f2.mvf[kept_index(e.g, x, y)] == m && c2 == c3
        }),
{
    reveal(pred_unit);
    let m = coded_motion(c.flag(MERGE_FLAG_OFFSET as int).1, f, e, t, u.p, depth).0;
    law_block_keeps_its_motion(f, e.g, u.p, m, x, y);
}

// ---------------------------------------------------------------------------
// Parts of coding units

/// A part of a coding unit: where it starts in the unit, its size, and whether it is the second of two
/// side by side, or one below the other.
pub struct Part {
    pub dx: int,
    pub dy: int,
    pub w: int,
    pub h: int,
    pub right: bool,
    pub below: bool,
}

/// Two parts, one below the other, the upper one `k` high.
pub open spec fn rows_of(n: int, k: int) -> Seq<Part> {
    seq![
        Part { dx: 0, dy: 0, w: n, h: k, right: false, below: false },
        Part { dx: 0, dy: k, w: n, h: n - k, right: false, below: true },
    ]
}

/// Two parts side by side, the left one `k` wide.
pub open spec fn columns_of(n: int, k: int) -> Seq<Part> {
    seq![
        Part { dx: 0, dy: 0, w: k, h: n, right: false, below: false },
        Part { dx: k, dy: 0, w: n - k, h: n, right: true, below: false },
    ]
}

/// The parts of a coding unit of `n` samples by its part mode.
pub open spec fn parts_of(n: int, mode: u8) -> Seq<Part> {
    let q = n / 4;
    if mode == 0 {
        seq![Part { dx: 0, dy: 0, w: n, h: n, right: false, below: false }]
    } else if mode == 1 {
        rows_of(n, 2 * q)
    } else if mode == 2 {
        columns_of(n, 2 * q)
    } else if mode == 4 {
        rows_of(n, q)
    } else if mode == 5 {
        rows_of(n, 3 * q)
    } else if mode == 6 {
        columns_of(n, q)
    } else if mode == 7 {
        columns_of(n, 3 * q)
    } else {
        seq![
            Part { dx: 0, dy: 0, w: 2 * q, h: 2 * q, right: false, below: false },
            Part { dx: 2 * q, dy: 0, w: 2 * q, h: 2 * q, right: false, below: false },
            Part { dx: 0, dy: 2 * q, w: 2 * q, h: 2 * q, right: false, below: false },
            Part { dx: 2 * q, dy: 2 * q, w: 2 * q, h: 2 * q, right: false, below: false },
        ]
    }
}

/// A part as a prediction unit.
pub open spec fn unit_of(u: CuPlace, p: Part) -> PuPlace {
    PuPlace {
        p: Pu {
            x: (u.x + p.dx) as i32,
            y: (u.y + p.dy) as i32,
            w: p.w as i32,
            h: p.h as i32,
        },
        cu_x: u.x,
        cu_y: u.y,
        cu_n: u.n,
        second_right: p.right,
        second_below: p.below,
    }
}

/// The first `k` parts decoded one after the other.
pub open spec fn parts_done(
    c: Bins,
    f: FrameV,
    e: EnvV,
    t: Ctb,
    u: CuPlace,
    ps: Seq<Part>,
    k: nat,
) -> (Bins, FrameV)
    decreases k,
{
    if k == 0 {
        (c, f)
    } else {
        let (c, f) = parts_done(c, f, e, t, u, ps, (k - 1) as nat);
        let (_, c, f) = pred_unit(c, f, e, t, unit_of(u, ps[k - 1]), false, u.depth as int);
        (c, f)
    }
}

/// A coding unit is divided by its part mode: not, in halves, in a quarter and three quarters, or in four.
/// Its parts are decoded one after the other.
pub proof fn law_unit_is_divided(c: Bins, f: FrameV, e: EnvV, t: Ctb, u: CuPlace, mode: u8)
    requires
        u.n as int % 4 == 0,
        u.n > 0,
        mode <= 7,
    ensures
        ({
            let (merged, c2, f2) = inter_parts(c, f, e, t, u, mode);
            let ps = parts_of(u.n as int, mode);
            &&& (c2, f2) == parts_done(c, f, e, t, u, ps, ps.len())
            &&& merged == (mode == 0 && pred_unit(
                c,
                f,
                e,
                t,
                unit_of(u, ps[0]),
                false,
                u.depth as int,
            ).0)
        }),
{
    reveal(inter_parts);
    reveal(two_rows);
    reveal(two_columns);
    reveal(four_parts);
    reveal(unit_part);
    reveal_with_fuel(parts_done, 5);
    let n = u.n as int;
    assert(n / 2 == 2 * (n / 4) && n * 3 / 4 == 3 * (n / 4));
}

/// Every sample of a coding unit is in just one of its parts.
pub proof fn law_parts_tile_the_unit(n: int, mode: u8, x: int, y: int)
    requires
        n % 4 == 0,
        n > 0,
        mode <= 7,
        0 <= x < n,
        0 <= y < n,
    ensures
        ({
            let ps = parts_of(n, mode);
            let holds = |i: int|
                ps[i].dx <= x < ps[i].dx + ps[i].w && ps[i].dy <= y < ps[i].dy + ps[i].h;
            exists|i: int|
                0 <= i < ps.len() && #[trigger] holds(i) && forall|j: int|
                    0 <= j < ps.len() && #[trigger] holds(j) ==> j == i
        }),
{
    let ps = parts_of(n, mode);
    let holds = |i: int| ps[i].dx <= x < ps[i].dx + ps[i].w && ps[i].dy <= y < ps[i].dy + ps[i].h;
    let q = n / 4;
    if mode == 0 {
        assert(holds(0));
    } else if mode == 1 || mode == 2 || mode >= 4 {
        if holds(0) {
            assert(!holds(1));
        } else {
            assert(holds(1));
        }
    } else {
        let i = if x < 2 * q {
            0int
        } else {
            1int
        } + if y < 2 * q {
            0int
        } else {
            2int
        };
        assert(holds(i));
    }
}

/// A skipped coding unit is one unit that merges.
pub proof fn law_skipped_unit_merges(c: Bins, f: FrameV, e: EnvV, t: Ctb, u: CuPlace)
    ensures
        ({
            let (c2, f2) = skipped_unit(c, f, e, t, u);
            let whole = Part {
                dx: 0,
                dy: 0,
                w: u.n as int,
                h: u.n as int,
                right: false,
                below: false,
            };
            let (merged, c3, f3) = pred_unit(
                c,
                f,
                e,
                t,
                unit_of(u, whole),
                true,
                u.depth as int,
            );
            c2 == c3 && f2.mvf == f3.mvf
        }),
{
    reveal(skipped_unit);
    reveal(unit_part);
    reveal(FrameV::put_ipm);
}

// ---------------------------------------------------------------------------
// Vector differences

/// A magnitude of 2 or more: as many ones as there are, a zero, and one bit more than ones.
pub open spec fn ones_before(c: Bins, n: nat) -> Bins
    decreases n,
{
    if n == 0 {
        c
    } else {
        ones_before(c, (n - 1) as nat).bypass().1
    }
}

/// The number that the next `n` bypass bins spell, the first the most significant.
pub open spec fn spelled(c: Bins, n: nat) -> int
    decreases n,
{
    if n == 0 {
        0
    } else {
        c.bypass().0 * pow2((n - 1) as nat) + spelled(c.bypass().1, (n - 1) as nat)
    }
}

proof fn lemma_bins_after(c: Bins, n: nat)
    ensures
        ones_before(c.bypass().1, n) == ones_before(c, n + 1),
    decreases n,
{
    if n > 0 {
        lemma_bins_after(c, (n - 1) as nat);
    } else {
        assert(ones_before(c, 1) == ones_before(c, 0).bypass().1);
    }
}

proof fn lemma_shift(k: u32, bin: u32)
    requires
        k <= 20,
        bin <= 1,
    ensures
        1i32 << k == pow2(k as nat),
        (bin as i32) << k == bin * pow2(k as nat),
        pow2(k as nat) <= 0x10_0000,
{
    lemma2_to64();
    lemma_u32_shl_is_mul(1, k);
    assert(1i32 << k == (1u32 << k) as i32 && (0i32 << k) == 0) by (bit_vector)
        requires
            k <= 20,
    ;
    assert(pow2(k as nat) <= 0x10_0000) by {
        if k < 20 {
            lemma_pow2_strictly_increases(k as nat, 20);
        }
    }
}

proof fn lemma_mvd_prefix(c: Bins, s: Bins, v: i32, k: u32, n: nat)
    requires
        1 <= k <= n + 1,
        n <= 14,
        s == ones_before(c, (k - 1) as nat),
        v == pow2(k as nat),
        forall|j: int| 0 <= j < n ==> #[trigger] ones_before(c, j as nat).bypass().0 == 1,
        ones_before(c, n).bypass().0 != 1,
    ensures
        mvd_prefix(s, v, k) == (
            pow2(n + 1) as i32,
            (n + 1) as u32,
            ones_before(c, n + 1),
        ),
    decreases n + 1 - k,
{
    lemma_shift(k, 0);
    let j = (k - 1) as nat;
    assert(ones_before(c, j + 1) == s.bypass().1);
    if k < n + 1 {
        assert(ones_before(c, j as nat).bypass().0 == 1);
        lemma_pow2_unfold((k + 1) as nat);
        lemma_shift((k + 1) as u32, 0);
        lemma_mvd_prefix(c, s.bypass().1, v.wrapping_add(1i32 << k), (k + 1) as u32, n);
    }
}

proof fn lemma_suffix(c: Bins, v: i32, k: u32, most: int)
    requires
        k <= 15,
        0 <= v <= most,
        most + pow2(k as nat) <= 0x10_0000,
        forall|j: int| 0 <= j < k ==> #[trigger] ones_before(c, j as nat).bypass().0 <= 1,
    ensures
        mvd_suffix(c, v, k) == ((v + spelled(c, k as nat)) as i32, ones_before(c, k as nat)),
        0 <= spelled(c, k as nat) < pow2(k as nat),
    decreases k,
{
    lemma2_to64();
    if k > 0 {
        let (bin, c1) = c.bypass();
        let first = 0int;
        assert(ones_before(c, first as nat).bypass().0 <= 1);
        let m = (k - 1) as u32;
        lemma_shift(m, bin);
        lemma_pow2_unfold(k as nat);
        assert forall|j: int| 0 <= j < m implies #[trigger] ones_before(c1, j as nat).bypass().0
            <= 1 by {
            lemma_bins_after(c, j as nat);
            assert(ones_before(c, (j + 1) as nat).bypass().0 <= 1);
        }
        lemma_bins_after(c, m as nat);
        let step = bin * pow2(m as nat);
        assert(0 <= step <= pow2(m as nat)) by (nonlinear_arith)
            requires
                step == bin * pow2(m as nat),
                0 <= bin <= 1,
                0 <= pow2(m as nat),
        ;
        lemma_suffix(c1, (v + step) as i32, m, most + pow2(m as nat));
    }
}

proof fn lemma_sign(c: Bins, v: i32)
    ensures
        ({
            let (bin, rest) = c.bypass();
            c.sign(v) == (
                if bin == 1 {
                    v
                } else {
                    0i32.wrapping_sub(v)
                },
                rest,
            )
        }),
{
    reveal(Bins::sign);
    reveal(Bins::bypass);
    reveal(crate::cabac::Engine::bypass_sign);
}

/// A component of magnitude 2 or more is coded by the number of its binary digits less two, in ones, the digits
/// behind the first, and its sign.
pub proof fn law_large_difference(c: Bins, n: nat)
    requires
        n <= 14,
        forall|j: int| 0 <= j < n ==> #[trigger] ones_before(c, j as nat).bypass().0 == 1,
        ones_before(c, n).bypass().0 != 1,
        forall|j: int|
            0 <= j < n + 1 ==> #[trigger] ones_before(ones_before(c, n + 1), j as nat).bypass().0 <= 1,
    ensures
        ({
            let digits = ones_before(c, n + 1);
            let m = pow2(n + 1) + spelled(digits, n + 1);
            let (bin, rest) = ones_before(digits, n + 1).bypass();
            mvd_large(c) == (
                if bin == 1 {
                    -m
                } else {
                    m
                } as i32,
                rest,
            )
        }),
{
    reveal(mvd_large);
    lemma2_to64();
    lemma_mvd_prefix(c, c, 2, 1, n);
    let digits = ones_before(c, n + 1);
    let k = (n + 1) as u32;
    lemma_shift(k, 0);
    assert(pow2(k as nat) <= 0x8000) by {
        if k < 15 {
            lemma_pow2_strictly_increases(k as nat, 15);
        }
    }
    lemma_suffix(digits, pow2(n + 1) as i32, k, 0x8000);
    let m = (pow2(n + 1) + spelled(digits, n + 1)) as i32;
    lemma_sign(ones_before(digits, n + 1), 0i32.wrapping_sub(m));
}

/// A difference has for both components, columns first, a flag that is set unless it is zero; then, for those
/// that are not, one that is set unless its magnitude is one; and then magnitudes and signs.
pub proof fn law_difference(c: Bins)
    ensures
        ({
            let zero = ABS_MVD_GREATER0_FLAG_OFFSET as int;
            let one = ABS_MVD_GREATER1_FLAG_OFFSET + 1;
            let (gx, c1) = c.get(zero);
            let (gy, c2) = c1.get(zero);
            let (v, rest) = mvd(c);
            &&& gx == 0 && gy == 0 ==> v.x == 0 && v.y == 0 && rest == c2
            &&& gx == 1 && gy == 0 ==> {
                let (mx, c3) = c2.get(one);
                let (sx, c4) = c3.bypass();
                &&& v.y == 0
                &&& mx == 0 ==> v.x == (if sx == 1 {
                    -1int
                } else {
                    1int
                }) && rest == c4
                &&& mx == 1 ==> (v.x, rest) == mvd_large(c3)
            }
            &&& gx == 0 && gy == 1 ==> {
                let (my, c3) = c2.get(one);
                let (sy, c4) = c3.bypass();
                &&& v.x == 0
                &&& my == 0 ==> v.y == (if sy == 1 {
                    -1int
                } else {
                    1int
                }) && rest == c4
                &&& my == 1 ==> (v.y, rest) == mvd_large(c3)
            }
            &&& gx == 1 && gy == 1 ==> {
                let (mx, c3) = c2.get(one);
                let (my, c4) = c3.get(one);
                let (x, c5) = if mx == 1 {
                    mvd_large(c4)
                } else {
                    (
                        if c4.bypass().0 == 1 {
                            -1i32
                        } else {
                            1i32
                        },
                        c4.bypass().1,
                    )
                };
                &&& mx <= 1 ==> v.x == x
                &&& mx <= 1 && my == 1 ==> (v.y, rest) == mvd_large(c5)
                &&& mx <= 1 && my == 0 ==> v.y == (if c5.bypass().0 == 1 {
                    -1int
                } else {
                    1int
                }) && rest == c5.bypass().1
            }
        }),
{
    reveal(mvd);
    reveal(mvd_part);
    let zero = ABS_MVD_GREATER0_FLAG_OFFSET as int;
    let one = ABS_MVD_GREATER1_FLAG_OFFSET + 1;
    let c2 = c.get(zero).1.get(zero).1;
    let c3 = c2.get(one).1;
    let c4 = c3.get(one).1;
    lemma_sign(c3, -1i32);
    lemma_sign(c4, -1i32);
    let c5 = if c3.get(one).0 <= 1 && c2.get(one).0 == 1 {
        mvd_large(c4).1
    } else {
        c4.bypass().1
    };
    lemma_sign(c5, -1i32);
    lemma_sign(mvd_large(c4).1, -1i32);
    lemma_sign(c4.bypass().1, -1i32);
}

} // verus!
