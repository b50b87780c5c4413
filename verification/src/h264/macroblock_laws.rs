//! In what order a macroblock is coded, and what its neighbours tell about it.

use super::mb_cabac;
use super::mb_cavlc;
use super::contexts::Cab;
use super::grids::{count_pred, GridsV, Seg};
use super::mb_b::{
    any_macroblock_b, b_8x8, b_halves, b_mb_info, b_motion, b_skip, b_sub_info, b_sub_type,
    b_sub_types, b_type, b_whole, half_mv, half_refs, list_ref, macroblock_b, skip_flag_b,
    sub_direct, sub_mvs, sub_refs, ColV, Info,
};
use super::motion_laws::{
    at_left, at_top, col_of, done, lemma_avail, lemma_mb, lemma_scan, place, row_of,
};
use super::params::{Pps, SliceHeader, SliceType};
use crate::bits::Bits;
use crate::motion::zero_mv;
use vstd::prelude::*;

verus! {

// ---------------------------------------------------------------------------
// Neighbouring macroblocks

/// The macroblock to the left and the one above can be used where they are in the picture and were decoded
/// in the same slice.
pub proof fn law_neighbouring_macroblocks(g: GridsV, mb: int, sid: i32)
    requires
        g.wf(),
        0 <= mb < g.mbs(),
    ensures
        g.mb_left(mb, sid) == if mb % g.mb_w > 0 && done(g, mb - 1, sid) {
            Some(mb - 1)
        } else {
            None
        },
        g.mb_top(mb, sid) == if mb >= g.mb_w && done(g, mb - g.mb_w, sid) {
            Some(mb - g.mb_w)
        } else {
            None
        },
{
    reveal(GridsV::mb_left);
    reveal(GridsV::mb_top);
    lemma_mb(g, mb);
    let (y, w) = (mb / g.mb_w, g.mb_w);
    assert(y == 0 ==> mb < w) by (nonlinear_arith)
        requires
            mb == y * w + mb % w,
            mb % w < w,
    ;
}

/// How many of two things hold.
pub open spec fn how_many(a: bool, b: bool) -> int {
    if a && b {
        2
    } else if a || b {
        1
    } else {
        0
    }
}

/// The context of a skip flag counts the neighbouring macroblocks that can be used and are not skipped.
pub proof fn law_skip_flags(g: GridsV, c: Cab, mb: int, sid: i32)
    requires
        g.wf(),
        0 <= mb < g.mbs(),
    ensures
        ({
            let left = mb % g.mb_w > 0 && done(g, mb - 1, sid);
            let top = mb >= g.mb_w && done(g, mb - g.mb_w, sid);
            let n = how_many(
                left && g.seg[mb - 1] != Seg::Skip,
                top && g.seg[mb - g.mb_w] != Seg::Skip,
            );
            let b = how_many(left && !g.skip[mb - 1], top && !g.skip[mb - g.mb_w]);
            let (bin, c1) = c.get(11 + n);
            let (bin_b, c2) = c.get(24 + b);
            &&& mb_cabac::skip_flag(g, c, mb, sid) == (bin == 1, c1)
            &&& skip_flag_b(g, c, mb, sid) == (bin_b == 1, c2)
        }),
{
    law_neighbouring_macroblocks(g, mb, sid);
    reveal(mb_cabac::skip_flag);
    reveal(skip_flag_b);
}

/// A macroblock of an I slice has no skip flag. One that is skipped codes nothing more.
pub proof fn law_skipped_macroblocks(
    g: GridsV,
    c: Cab,
    mb: int,
    sid: i32,
    sh: SliceHeader,
    pps: Pps,
    col: ColV,
)
    ensures
        ({
            let r = mb_cabac::any_macroblock(g, c, mb, sid, sh, pps);
            let b = any_macroblock_b(g, c, mb, sid, sh, pps, col);
            let (skipped, c1) = mb_cabac::skip_flag(g, c, mb, sid);
            let (skipped_b, c2) = skip_flag_b(g, c, mb, sid);
            &&& sh.slice_type.intra() ==> r == mb_cabac::macroblock(g, c, mb, sid, sh, pps)
            &&& !sh.slice_type.intra() && skipped ==> r == (
                mb_cavlc::p_skip(g, mb, sid),
                Cab { dqp: false, ..c1 },
            )
            &&& !sh.slice_type.intra() && !skipped ==> r == mb_cabac::macroblock(
                g,
                c1,
                mb,
                sid,
                sh,
                pps,
            )
            &&& skipped_b ==> b == (b_skip(g, mb, sid, col), Cab { dqp: false, ..c2 })
            &&& !skipped_b ==> b == macroblock_b(g, c2, mb, sid, sh, pps, col)
        }),
{
    reveal(mb_cabac::any_macroblock);
    reveal(any_macroblock_b);
}

/// The number of coefficients of a luma block is expected to be the mean of those to the left and above,
/// rounded up, or the one that can be used, or none.
pub proof fn law_expected_coefficients(g: GridsV, mb: int, bx: int, by: int, sid: i32)
    requires
        place(g, mb, bx, by, 1),
        at_left(g, 0, mb, bx, by, sid) is Some ==> g.nnz_l[(row_of(g, mb) + by) * (4 * g.mb_w) + (
        col_of(g, mb) + bx - 1)] <= 16,
        at_top(g, 0, mb, bx, by, sid) is Some ==> g.nnz_l[(row_of(g, mb) + by - 1) * (4 * g.mb_w)
            + (col_of(g, mb) + bx)] <= 16,
    ensures
        ({
            let (x, y) = (col_of(g, mb) + bx, row_of(g, mb) + by);
            let n = |gx: int, gy: int| g.nnz_l[gy * (4 * g.mb_w) + gx] as int;
            let left = at_left(g, 0, mb, bx, by, sid) is Some;
            let top = at_top(g, 0, mb, bx, by, sid) is Some;
            g.nnz_pred(mb, bx, by, sid) == if left && top {
                (n(x - 1, y) + n(x, y - 1) + 1) / 2
            } else if left {
                n(x - 1, y)
            } else if top {
                n(x, y - 1)
            } else {
                0
            }
        }),
{
    reveal(GridsV::nnz_pred);
    reveal(GridsV::luma_counts);
    reveal(GridsV::luma_count);
    reveal(count_pred);
    let scan = super::grids::scan_of(bx, by);
    lemma_avail(g, mb, bx - 1, by, scan, sid);
    lemma_avail(g, mb, bx, by - 1, scan, sid);
    if bx > 0 {
        lemma_scan(bx - 1, by, bx, by);
    }
    if by > 0 {
        lemma_scan(bx, by - 1, bx, by);
    }
    let (x, y) = (col_of(g, mb) + bx, row_of(g, mb) + by);
    let l = g.luma_count(x - 1, y, mb, scan, sid);
    let t = g.luma_count(x, y - 1, mb, scan, sid);
    let a = match l {
        Some(n) => n as i32,
        None => 64,
    };
    let b = match t {
        Some(n) => n as i32,
        None => 64,
    };
    let s = (a + b) as i32;
    assert(s < 64 ==> (((s + 1) as i32) >> 1) == (s + 1) / 2) by (bit_vector)
        requires
            0 <= s <= 200,
    ;
    assert(64 <= s <= 80 ==> (s & 31) == s - 64) by (bit_vector);
    assert(s == 128 ==> (s & 31) == 0) by (bit_vector);
}

// ---------------------------------------------------------------------------
// Quadrants of P macroblocks

/// A P macroblock in quadrants of a CAVLC stream: the four types, the four references, unless all are the
/// first, and then the vectors, quadrant by quadrant and row by row.
pub proof fn law_quadrants_in_order_cavlc(
    g: GridsV,
    b: Bits,
    mb: int,
    sid: i32,
    n0: u32,
    first: bool,
)
    ensures
        ({
            let (t0, b0) = b.ue();
            let (t1, b1) = b0.ue();
            let (t2, b2) = b1.ue();
            let (t3, b3) = b2.ue();
            let read = |b: Bits|
                if first {
                    (0i32, b)
                } else {
                    mb_cavlc::ref_idx(b, n0)
                };
            let (r0, b4) = read(b3);
            let (r1, b5) = read(b4);
            let (r2, b6) = read(b5);
            let (r3, b7) = read(b6);
            let z = zero_mv();
            let h = g.fill(0, mb, 0, 0, 2, 2, z, r0).fill(0, mb, 2, 0, 2, 2, z, r1).fill(
                0,
                mb,
                0,
                2,
                2,
                2,
                z,
                r2,
            ).fill(0, mb, 2, 2, 2, 2, z, r3);
            let (h0, c0) = mb_cavlc::quadrant(h, b7, mb, sid, 0, 0, t0, r0);
            let (h1, c1) = mb_cavlc::quadrant(h0, c0, mb, sid, 2, 0, t1, r1);
            let (h2, c2) = mb_cavlc::quadrant(h1, c1, mb, sid, 0, 2, t2, r2);
            let (h3, c3) = mb_cavlc::quadrant(h2, c2, mb, sid, 2, 2, t3, r3);
            let r = mb_cavlc::p_8x8(g, b, mb, sid, n0, first);
            if t0 < 4 && t1 < 4 && t2 < 4 && t3 < 4 {
                r == (true, h3, c3)
            } else {
                !r.0
            }
        }),
{
    reveal(mb_cavlc::p_8x8);
    reveal_with_fuel(mb_cavlc::sub_types, 5);
    reveal_with_fuel(mb_cavlc::sub_refs, 5);
    reveal_with_fuel(mb_cavlc::quadrants, 5);
}

/// A P macroblock in quadrants of a CABAC stream.
pub proof fn law_quadrants_in_order_cabac(g: GridsV, c: Cab, mb: int, sid: i32, n0: u32)
    ensures
        ({
            let (t0, c0) = mb_cabac::p_sub_type(c);
            let (t1, c1) = mb_cabac::p_sub_type(c0);
            let (t2, c2) = mb_cabac::p_sub_type(c1);
            let (t3, c3) = mb_cabac::p_sub_type(c2);
            let z = zero_mv();
            let (r0, c4) = mb_cabac::ref_idx(g, c3, 0, mb, sid, 0, 0, n0, false);
            let g0 = g.fill(0, mb, 0, 0, 2, 2, z, r0);
            let (r1, c5) = mb_cabac::ref_idx(g0, c4, 0, mb, sid, 2, 0, n0, false);
            let g1 = g0.fill(0, mb, 2, 0, 2, 2, z, r1);
            let (r2, c6) = mb_cabac::ref_idx(g1, c5, 0, mb, sid, 0, 2, n0, false);
            let g2 = g1.fill(0, mb, 0, 2, 2, 2, z, r2);
            let (r3, c7) = mb_cabac::ref_idx(g2, c6, 0, mb, sid, 2, 2, n0, false);
            let g3 = g2.fill(0, mb, 2, 2, 2, 2, z, r3);
            let (h0, d0) = mb_cabac::quadrant(g3, c7, 0, mb, sid, 0, 0, t0, r0);
            let (h1, d1) = mb_cabac::quadrant(h0, d0, 0, mb, sid, 2, 0, t1, r1);
            let (h2, d2) = mb_cabac::quadrant(h1, d1, 0, mb, sid, 0, 2, t2, r2);
            let (h3, d3) = mb_cabac::quadrant(h2, d2, 0, mb, sid, 2, 2, t3, r3);
            mb_cabac::p_8x8(g, c, mb, sid, n0) == (
                t0 == 0 && t1 == 0 && t2 == 0 && t3 == 0,
                h3,
                d3,
            )
        }),
{
    reveal(mb_cabac::p_8x8);
    reveal(mb_cabac::p_sub_types);
    reveal_with_fuel(mb_cabac::p_sub_refs, 5);
    reveal_with_fuel(mb_cabac::p_quadrants, 5);
}

// ---------------------------------------------------------------------------
// B macroblocks

/// The reference of a list that a partition does not use is none, and nothing is coded for it.
pub proof fn law_unused_lists(
    g: GridsV,
    c: Cab,
    l: int,
    mb: int,
    sid: i32,
    bx: int,
    by: int,
    w: int,
    h: int,
    used: bool,
    active: u32,
)
    ensures
        ({
            let (r, g1, rest) = list_ref(g, c, l, mb, sid, bx, by, w, h, used, active);
            let (coded, c1) = mb_cabac::ref_idx(g, c, l, mb, sid, bx, by, active, true);
            &&& g1 == g.fill(l, mb, bx, by, w, h, zero_mv(), r)
            &&& !used ==> r == -1 && rest == c
            &&& used ==> r == coded && rest == c1
        }),
{
    reveal(list_ref);
}

/// An undivided B macroblock has the references of both lists first, and then the vectors of those in use.
pub proof fn law_whole_b_macroblock(
    g: GridsV,
    c: Cab,
    mb: int,
    sid: i32,
    i: Info,
    n0: u32,
    n1: u32,
)
    ensures
        ({
            let (r0, g0, c0) = list_ref(g, c, 0, mb, sid, 0, 0, 4, 4, i.p0l0, n0);
            let (r1, g1, c1) = list_ref(g0, c0, 1, mb, sid, 0, 0, 4, 4, i.p0l1, n1);
            let (h0, d0) = mb_cabac::own_part(g1, c1, 0, mb, sid, 0, 0, 4, 4, r0);
            let r = b_whole(g, c, mb, sid, i, n0, n1);
            &&& i.p0l0 && !i.p0l1 ==> r == (h0, d0)
            &&& !i.p0l0 && i.p0l1 ==> r == mb_cabac::own_part(
                g1,
                c1,
                1,
                mb,
                sid,
                0,
                0,
                4,
                4,
                r1,
            )
            &&& i.p0l0 && i.p0l1 ==> r == mb_cabac::own_part(
                h0,
                d0,
                1,
                mb,
                sid,
                0,
                0,
                4,
                4,
                r1,
            )
        }),
{
    reveal(b_whole);
}

/// A B macroblock in halves has, for both halves, the references of list 0 and then of list 1, and then
/// the vectors of list 0 and of list 1.
pub proof fn law_b_halves_in_order(
    g: GridsV,
    c: Cab,
    mb: int,
    sid: i32,
    i: Info,
    n0: u32,
    n1: u32,
)
    requires
        i.shape == 1 || i.shape == 2,
    ensures
        ({
            let wide = i.shape == 1;
            let (x, y) = if wide {
                (0int, 2int)
            } else {
                (2int, 0int)
            };
            let (w, h) = if wide {
                (4int, 2int)
            } else {
                (2int, 4int)
            };
            let (r00, g0, c0) = list_ref(g, c, 0, mb, sid, 0, 0, w, h, i.p0l0, n0);
            let (r10, g1, c1) = list_ref(g0, c0, 0, mb, sid, x, y, w, h, i.p1l0, n0);
            let (r01, g2, c2) = list_ref(g1, c1, 1, mb, sid, 0, 0, w, h, i.p0l1, n1);
            let (r11, g3, c3) = list_ref(g2, c2, 1, mb, sid, x, y, w, h, i.p1l1, n1);
            let (h0, d0) = half_mv(g3, c3, 0, mb, sid, i, 0, r00);
            let (h1, d1) = half_mv(h0, d0, 0, mb, sid, i, 1, r10);
            let (h2, d2) = half_mv(h1, d1, 1, mb, sid, i, 0, r01);
            b_halves(g, c, mb, sid, i, n0, n1) == half_mv(h2, d2, 1, mb, sid, i, 1, r11)
        }),
{
    reveal(b_halves);
    reveal(half_refs);
}

/// The reference of a list of quadrant `q` of a B macroblock: none is coded for direct mode.
pub open spec fn quadrant_ref(
    g: GridsV,
    c: Cab,
    l: int,
    mb: int,
    sid: i32,
    x: int,
    y: int,
    t: u32,
    active: u32,
) -> (i32, GridsV, Cab) {
    if t == 0 {
        (-1i32, g, c)
    } else {
        let i = b_sub_info(t);
        list_ref(
            g,
            c,
            l,
            mb,
            sid,
            x,
            y,
            2,
            2,
            if l == 0 {
                i.p0l0
            } else {
                i.p0l1
            },
            active,
        )
    }
}

/// The vectors of a list of a quadrant of a B macroblock: none are coded for direct mode, or where it does
/// not use the list.
pub open spec fn quadrant_mvs(
    g: GridsV,
    c: Cab,
    l: int,
    mb: int,
    sid: i32,
    x: int,
    y: int,
    t: u32,
    refi: i32,
) -> (GridsV, Cab) {
    let i = b_sub_info(t);
    if t == 0 || (l == 0 && !i.p0l0) || (l == 1 && !i.p0l1) {
        (g, c)
    } else {
        mb_cabac::quadrant(g, c, l, mb, sid, x, y, i.shape as u32, refi)
    }
}

/// The references of one list of all quadrants, row by row.
pub proof fn law_b_quadrant_references(
    g: GridsV,
    c: Cab,
    l: int,
    mb: int,
    sid: i32,
    types: Seq<u32>,
    active: u32,
)
    requires
        types.len() == 4,
        0 <= l < 2,
    ensures
        ({
            let (r0, g0, c0) = quadrant_ref(g, c, l, mb, sid, 0, 0, types[0], active);
            let (r1, g1, c1) = quadrant_ref(g0, c0, l, mb, sid, 2, 0, types[1], active);
            let (r2, g2, c2) = quadrant_ref(g1, c1, l, mb, sid, 0, 2, types[2], active);
            let (r3, g3, c3) = quadrant_ref(g2, c2, l, mb, sid, 2, 2, types[3], active);
            let (refs, h, d) = sub_refs(g, c, l, mb, sid, types, active, Seq::empty(), 0);
            refs == seq![r0, r1, r2, r3] && h == g3 && d == c3
        }),
{
    reveal_with_fuel(sub_refs, 5);
    let (r0, g0, c0) = quadrant_ref(g, c, l, mb, sid, 0, 0, types[0], active);
    let (r1, g1, c1) = quadrant_ref(g0, c0, l, mb, sid, 2, 0, types[1], active);
    let (r2, g2, c2) = quadrant_ref(g1, c1, l, mb, sid, 0, 2, types[2], active);
    let (r3, g3, c3) = quadrant_ref(g2, c2, l, mb, sid, 2, 2, types[3], active);
    let e = Seq::<i32>::empty();
    assert(e.push(r0).push(r1).push(r2).push(r3) =~= seq![r0, r1, r2, r3]);
}

/// The vectors of one list of all quadrants, row by row.
pub proof fn law_b_quadrant_vectors(
    g: GridsV,
    c: Cab,
    l: int,
    mb: int,
    sid: i32,
    types: Seq<u32>,
    refs: Seq<i32>,
)
    requires
        types.len() == 4,
        refs.len() == 4,
        0 <= l < 2,
    ensures
        ({
            let (g0, c0) = quadrant_mvs(g, c, l, mb, sid, 0, 0, types[0], refs[0]);
            let (g1, c1) = quadrant_mvs(g0, c0, l, mb, sid, 2, 0, types[1], refs[1]);
            let (g2, c2) = quadrant_mvs(g1, c1, l, mb, sid, 0, 2, types[2], refs[2]);
            sub_mvs(g, c, l, mb, sid, types, refs, 0) == quadrant_mvs(
                g2,
                c2,
                l,
                mb,
                sid,
                2,
                2,
                types[3],
                refs[3],
            )
        }),
{
    reveal_with_fuel(sub_mvs, 5);
}

/// A B macroblock in quadrants: the four types, direct prediction, the references of list 0 and of list 1,
/// and the vectors of list 0 and of list 1. An 8x8 transform goes with quadrants that are not divided
/// further.
pub proof fn law_b_quadrants_in_order(
    g: GridsV,
    c: Cab,
    mb: int,
    sid: i32,
    n0: u32,
    n1: u32,
    col: ColV,
)
    ensures
        ({
            let (t0, c0) = b_sub_type(c);
            let (t1, c1) = b_sub_type(c0);
            let (t2, c2) = b_sub_type(c1);
            let (t3, c3) = b_sub_type(c2);
            let types = seq![t0, t1, t2, t3];
            let g0 = sub_direct(g, mb, sid, types, col);
            let (r0, g1, d0) = sub_refs(g0, c3, 0, mb, sid, types, n0, Seq::empty(), 0);
            let (r1, g2, d1) = sub_refs(g1, d0, 1, mb, sid, types, n1, Seq::empty(), 0);
            let (g3, d2) = sub_mvs(g2, d1, 0, mb, sid, types, r0, 0);
            let (g4, d3) = sub_mvs(g3, d2, 1, mb, sid, types, r1, 0);
            let whole = |t: u32| t == 0 || b_sub_info(t).shape == 0;
            b_8x8(g, c, mb, sid, n0, n1, col) == (
                whole(t0) && whole(t1) && whole(t2) && whole(t3),
                g4,
                d3,
            )
        }),
{
    reveal(b_8x8);
    reveal(b_sub_types);
    let types = b_sub_types(c).0;
    let whole = |t: u32| t == 0 || b_sub_info(t).shape == 0;
    assert(types.len() == 4);
    if whole(types[0]) && whole(types[1]) && whole(types[2]) && whole(types[3]) {
        assert forall|q: int| 0 <= q < 4 implies (#[trigger] types[q] == 0 || b_sub_info(
            types[q],
        ).shape == 0) by {
            assert(q == 0 || q == 1 || q == 2 || q == 3);
        }
    }
}

// ---------------------------------------------------------------------------
// Coded block patterns

/// The bits of a coded block pattern come quadrant by quadrant. The context of each counts the quadrants
/// without coefficients: once the one to the left, and twice the one above.
pub proof fn law_coded_block_pattern(c: Cab, a: u32, b: u32)
    ensures
        ({
            let ctx = |left: bool, top: bool|
                if !left && !top {
                    76int
                } else if !top {
                    75
                } else if !left {
                    74
                } else {
                    73
                };
            let bit = |v: u32, k: int| v as int / k % 2 == 1;
            let (b0, c0) = c.get(ctx(bit(a, 2), bit(b, 4)));
            let (b1, c1) = c0.get(ctx(b0 == 1, bit(b, 8)));
            let (b2, c2) = c1.get(ctx(bit(a, 8), b0 == 1));
            let (b3, c3) = c2.get(ctx(b2 == 1, b1 == 1));
            let (v, rest) = mb_cabac::cbp_bits(c, a, b);
            let (chroma, c4) = mb_cabac::cbp_chroma(c3, a, b);
            &&& rest == c4
            &&& b0 <= 1 && b1 <= 1 && b2 <= 1 && b3 <= 1 && chroma < 64 && chroma % 16 == 0 ==> v
                == b0 + 2 * b1 + 4 * b2 + 8 * b3 + chroma
        }),
{
    reveal(mb_cabac::cbp_bits);
    assert((a & 2 != 0) == (a / 2 % 2 == 1) && (a & 8 != 0) == (a / 8 % 2 == 1) && (b & 4 != 0) == (b
        / 4 % 2 == 1) && (b & 8 != 0) == (b / 8 % 2 == 1)) by (bit_vector);
    let (b0, c0) = c.get(mb_cabac::luma_bit_ctx(a & 2 != 0, b & 4 != 0));
    let (b1, c1) = c0.get(mb_cabac::luma_bit_ctx(b0 == 1, b & 8 != 0));
    let (b2, c2) = c1.get(mb_cabac::luma_bit_ctx(a & 8 != 0, b0 == 1));
    let (b3, c3) = c2.get(mb_cabac::luma_bit_ctx(b2 == 1, b1 == 1));
    let (chroma, c4) = mb_cabac::cbp_chroma(c3, a, b);
    assert(b0 <= 1 && b1 <= 1 && b2 <= 1 && b3 <= 1 && chroma < 64 && chroma % 16 == 0 ==> (b0 | (b1
        << 1) | (b2 << 2) | (b3 << 3) | chroma) == b0 + 2 * b1 + 4 * b2 + 8 * b3 + chroma)
        by (bit_vector);
}

/// The chroma part of a coded block pattern: none, mean values only, or all. Its contexts count the
/// neighbours that have some, and then those that have all.
pub proof fn law_chroma_pattern(c: Cab, a: u32, b: u32)
    ensures
        ({
            let (ca, cb) = (a as int / 16 % 4, b as int / 16 % 4);
            let count = |left: bool, top: bool|
                if left && top {
                    3int
                } else if top {
                    2
                } else if left {
                    1
                } else {
                    0
                };
            let (some, c1) = c.get(77 + count(ca > 0, cb > 0));
            let (bin, c2) = c1.get(81 + count(ca == 2, cb == 2));
            let (v, rest) = mb_cabac::cbp_chroma(c, a, b);
            &&& some != 1 ==> v == 0 && rest == c1
            &&& some == 1 && bin == 0 ==> v == 16 && rest == c2
            &&& some == 1 && bin == 1 ==> v == 32 && rest == c2
        }),
{
    reveal(mb_cabac::cbp_chroma);
    assert((a >> 4) & 3 == a / 16 % 4 && (b >> 4) & 3 == b / 16 % 4) by (bit_vector);
    assert(1u32 << 4 == 16 && 2u32 << 4 == 32) by (bit_vector);
}

// ---------------------------------------------------------------------------
// Types

/// A P macroblock of a CAVLC stream is divided by its type: not, in an upper and a lower half, in a left and
/// a right half, in quadrants, or in quadrants that all have the first reference; and it is exported so.
pub proof fn law_p_macroblock_by_type(g: GridsV, b: Bits, mb: int, sid: i32, n0: u32, t: u32)
    ensures
        ({
            let (seg, h, rest) = mb_cavlc::p_motion(g, b, mb, sid, n0, t);
            let q = mb_cavlc::p_8x8(g, b, mb, sid, n0, t == 4);
            &&& t == 0 ==> seg == Some(Seg::P16x16) && (h, rest) == mb_cavlc::p_whole(
                g,
                b,
                mb,
                sid,
                n0,
            )
            &&& t == 1 ==> seg == Some(Seg::P16x8) && (h, rest) == mb_cavlc::p_wide(
                g,
                b,
                mb,
                sid,
                n0,
            )
            &&& t == 2 ==> seg == Some(Seg::P8x16) && (h, rest) == mb_cavlc::p_tall(
                g,
                b,
                mb,
                sid,
                n0,
            )
            &&& (t == 3 || t == 4) && q.0 ==> seg == Some(Seg::P8x8) && h == q.1 && rest == q.2
            &&& (t == 3 || t == 4) && !q.0 ==> seg is None
        }),
{
    reveal(mb_cavlc::p_motion);
}

/// A P macroblock of a CABAC stream is divided by its type, and what follows its motion depends on whether it
/// has parts smaller than quadrants.
pub proof fn law_p_macroblock_by_type_cabac(
    g: GridsV,
    c: Cab,
    mb: int,
    sid: i32,
    n0: u32,
    pps: Pps,
    t: u32,
)
    requires
        t <= 3,
    ensures
        ({
            let r = mb_cabac::p_inter(g, c, mb, sid, n0, pps, t);
            let (g0, c0) = mb_cabac::p_whole(g, c, mb, sid, n0);
            let (g1, c1) = mb_cabac::p_wide(g, c, mb, sid, n0);
            let (g2, c2) = mb_cabac::p_tall(g, c, mb, sid, n0);
            let (whole, g3, c3) = mb_cabac::p_8x8(g, c, mb, sid, n0);
            let tail = |h: GridsV, d: Cab, seg: Seg, allow8: bool|
                mb_cabac::inter_tail(h.put_seg(mb, seg).put_decoded(mb), d, mb, sid, pps, allow8);
            &&& t == 0 ==> r == tail(g0, c0, Seg::P16x16, true)
            &&& t == 1 ==> r == tail(g1, c1, Seg::P16x8, true)
            &&& t == 2 ==> r == tail(g2, c2, Seg::P8x16, true)
            &&& t == 3 ==> r == tail(g3, c3, Seg::P8x8, whole)
        }),
{
    reveal(mb_cabac::p_inter);
}

/// A B macroblock that is not direct is divided by its type, and is exported so.
pub proof fn law_b_macroblock_by_type(
    g: GridsV,
    c: Cab,
    mb: int,
    sid: i32,
    sh: SliceHeader,
    col: ColV,
    t: u32,
)
    requires
        1 <= t <= 22,
    ensures
        ({
            let (seg, allow8, h, rest) = b_motion(g, c, mb, sid, sh, col, t);
            let (n0, n1) = (sh.num_ref_idx_l0_active, sh.num_ref_idx_l1_active);
            let i = b_mb_info(t);
            let (whole, g8, c8) = b_8x8(g, c, mb, sid, n0, n1, col);
            &&& t <= 3 ==> seg == Seg::B16x16 && allow8 && (h, rest) == b_whole(
                g,
                c,
                mb,
                sid,
                i,
                n0,
                n1,
            )
            &&& 4 <= t <= 21 ==> allow8 && (h, rest) == b_halves(g, c, mb, sid, i, n0, n1)
            &&& 4 <= t <= 21 && t % 2 == 0 ==> seg == Seg::B16x8
            &&& 4 <= t <= 21 && t % 2 == 1 ==> seg == Seg::B8x16
            &&& t == 22 ==> seg == Seg::B8x8 && allow8 == whole && h == g8 && rest == c8
        }),
{
    reveal(b_motion);
    reveal(b_mb_info);
}

/// What follows the motion of a macroblock: its coded block pattern, whether it has 8x8 transforms where it
/// may and has luma, and its residual, behind a quantiser. Without a pattern nothing more is coded.
pub proof fn law_what_follows_motion(
    g: GridsV,
    c: Cab,
    mb: int,
    sid: i32,
    pps: Pps,
    allow8: bool,
)
    ensures
        ({
            let (pattern, c1) = mb_cabac::cbp(g, c, mb, sid, false);
            let choice = pps.transform_8x8_mode_flag && allow8 && pattern & 15 != 0;
            let (big, c2) = c1.flag(mb_cabac::transform_ctx(g, mb, sid));
            let h = g.put_cbp(mb, mb_cabac::kept_cbp(pattern, choice && big));
            let rest = if choice {
                c2
            } else {
                c1
            };
            &&& mb_cabac::inter_tail(g, c, mb, sid, pps, allow8) == mb_cabac::coded_residual(
                h,
                rest,
                mb,
                sid,
                pattern,
            )
            &&& mb_cabac::coded_residual(g, c, mb, sid, 0) == (
                g.put_mb_nnz(mb, 0),
                Cab { dqp: false, ..c },
            )
        }),
{
    reveal(mb_cabac::inter_tail);
    reveal(mb_cabac::coded_residual);
}

/// A macroblock belongs to its slice. In an I slice it is intra; in another one its type says so, counted on
/// from those of P macroblocks.
pub proof fn law_macroblock_types_cavlc(
    g: GridsV,
    b: Bits,
    mb: int,
    sid: i32,
    sh: SliceHeader,
    pps: Pps,
)
    ensures
        ({
            let r = mb_cavlc::macroblock(g, b, mb, sid, sh, pps);
            let h = g.put_slice(mb, sid);
            let (t, b1) = b.ue();
            let is_i = sh.slice_type == SliceType::I || sh.slice_type == SliceType::Si;
            let (ok, h2, b2) = mb_cavlc::intra(
                h,
                b1,
                mb,
                sid,
                if is_i {
                    t
                } else {
                    (t - 5) as u32
                },
                pps,
            );
            if !is_i && t < 5 {
                r == mb_cavlc::p_inter(h, b1, mb, sid, sh.num_ref_idx_l0_active, t, pps)
            } else if ok {
                r == (true, h2.intra_l0(mb).put_seg(mb, Seg::Intra).put_decoded(mb), b2)
            } else {
                !r.0
            }
        }),
{
    reveal(mb_cavlc::macroblock);
}

/// The type of an undivided intra macroblock: one of four modes, with no chroma, its mean values or all of it,
/// and without or with luma.
pub proof fn law_whole_intra_types(c: Cab, base: int, intra_slice: bool)
    ensures
        ({
            let more = if intra_slice {
                1int
            } else {
                0int
            };
            let (luma, c1) = c.get(base + 1);
            let (some, c2) = c1.get(base + 2);
            let (all, c3) = c2.get(base + 2 + more);
            let c4 = if some == 1 {
                c3
            } else {
                c2
            };
            let (high, c5) = c4.get(base + 3 + more);
            let (low, c6) = c5.get(base + 3 + 2 * more);
            let (t, rest) = mb_cabac::type16(c, base, intra_slice);
            &&& rest == c6
            &&& luma <= 1 && all <= 1 && high <= 1 && low <= 1 ==> {
                let mode = 2 * high + low;
                let chroma = if some != 1 {
                    0int
                } else if all == 0 {
                    1
                } else {
                    2
                };
                t == 1 + mode + 4 * chroma + 12 * luma
            }
        }),
{
    reveal(mb_cabac::type16);
}

/// The coded block pattern that the type of an undivided intra macroblock stands for.
pub proof fn law_whole_intra_pattern(mode: u32, chroma: u32, luma: u32)
    requires
        mode < 4,
        chroma < 3,
        luma < 2,
    ensures
        mb_cavlc::cbp16((1 + mode + 4 * chroma + 12 * luma) as u32) == 15 * luma + 16 * chroma,
{
    reveal(mb_cavlc::cbp16);
    let i = (mode + 4 * chroma + 12 * luma) as u32;
    assert(i / 12 == luma && i / 4 % 3 == chroma);
    assert((0u32 | (chroma << 4)) == 16 * chroma && (15u32 | (chroma << 4)) == 15 + 16 * chroma)
        by (bit_vector)
        requires
            chroma < 3,
    ;
}

/// A change of the quantiser starts with a bin whose context says whether the last macroblock had one; what is
/// kept is whether there is one.
pub proof fn law_quantiser_changes(c: Cab)
    ensures
        ({
            let (bin, c1) = c.get(
                if c.dqp {
                    61
                } else {
                    60
                },
            );
            let (more, c2) = c1.get(62);
            let r = mb_cabac::qp_delta(c);
            &&& bin != 1 ==> r == (Cab { dqp: false, ..c1 })
            &&& bin == 1 ==> r.dqp
            &&& bin == 1 && more != 1 ==> r == (Cab { dqp: true, ..c2 })
        }),
{
    reveal(mb_cabac::qp_delta);
    reveal_with_fuel(mb_cabac::dqp_unary, 2);
}

/// The type of a B macroblock has a context that counts the neighbouring macroblocks that can be used and are
/// not in direct mode. It belongs to its slice from then on.
pub proof fn law_b_macroblock(
    g: GridsV,
    c: Cab,
    mb: int,
    sid: i32,
    sh: SliceHeader,
    pps: Pps,
    col: ColV,
)
    requires
        g.wf(),
        0 <= mb < g.mbs(),
    ensures
        ({
            let h = g.put_slice(mb, sid);
            let left = mb % g.mb_w > 0 && done(g, mb - 1, sid) && !g.bdirect[mb - 1];
            let top = mb >= g.mb_w && done(g, mb - g.mb_w, sid) && !g.bdirect[mb - g.mb_w];
            let (t, c1) = b_type(c, left, top);
            let r = macroblock_b(g, c, mb, sid, sh, pps, col);
            match t {
                Some(t) => {
                    let (seg, allow8, g1, c2) = b_motion(h, c1, mb, sid, sh, col, t);
                    r == mb_cabac::inter_tail(
                        g1.put_seg(mb, seg).put_decoded(mb),
                        c2,
                        mb,
                        sid,
                        pps,
                        allow8,
                    )
                },
                None => {
                    let (k, c2) = mb_cabac::intra_type(h, c1, mb, sid, 32, false);
                    let (g1, c3) = mb_cabac::intra_body(h, c2, mb, sid, k, pps);
                    r == (g1.intra_both(mb).put_decoded(mb), c3)
                },
            }
        }),
{
    reveal(macroblock_b);
    reveal(GridsV::put_slice);
    let h = g.put_slice(mb, sid);
    law_neighbouring_macroblocks(h, mb, sid);
    lemma_mb(g, mb);
    if mb % g.mb_w > 0 {
        assert(done(h, mb - 1, sid) == done(g, mb - 1, sid));
    }
    if mb >= g.mb_w {
        assert(done(h, mb - g.mb_w, sid) == done(g, mb - g.mb_w, sid));
    }
}

// ---------------------------------------------------------------------------
// Slices

/// In a CAVLC P slice a number of skipped macroblocks comes first, and then one that is not, as long as
/// there are more data.
pub proof fn law_runs_of_skipped_macroblocks(
    g: GridsV,
    b: Bits,
    cur: int,
    n: int,
    sh: SliceHeader,
    pps: Pps,
    sid: i32,
)
    requires
        sh.slice_type == SliceType::P,
        cur < n,
        cur + b.ue().0 < n,
        b.ue().0 == 0 || b.ue().1.more_rbsp_data(),
    ensures
        ({
            let (run, b1) = b.ue();
            let g1 = mb_cavlc::skips(g, cur, cur + run, sid);
            let (ok, g2, b2) = mb_cavlc::macroblock(g1, b1, cur + run, sid, sh, pps);
            mb_cavlc::slice_from(g, b, cur, n, sh, pps, sid) == if !ok {
                (false, cur + run, g2, b2)
            } else if b2.more_rbsp_data() {
                mb_cavlc::slice_from(g2, b2, cur + run + 1, n, sh, pps, sid)
            } else {
                (true, cur + run + 1, g2, b2)
            }
        }),
{
}

} // verus!
