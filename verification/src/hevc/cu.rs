//! Coding units and coding quadtrees of H.265.

use super::contexts::{
    Bins, Decoder, CU_TRANSQUANT_BYPASS_FLAG_OFFSET, NO_RESIDUAL_DATA_FLAG_OFFSET,
    PART_MODE_OFFSET, PRED_MODE_FLAG_OFFSET, SAO_MERGE_FLAG_OFFSET, SAO_TYPE_IDX_OFFSET,
    SKIP_FLAG_OFFSET, SPLIT_CODING_UNIT_FLAG_OFFSET,
};
use super::env::{Env, EnvV};
use super::frame::{
    is_side, lemma_cb_block, lemma_multiple, lemma_side, lemma_side_divides, lemma_side_order, side,
    side_of, Frame, FrameV, Geo, MAX_LOG2,
};
use super::inter::{pred_unit, prediction_unit, PuPlace};
use super::intra::{intra_modes, intra_prediction_unit};
use super::motion::{Ctb, Pu};
use super::params::{Sps, SpsV};
use super::slice_header::{HeaderV, SliceHeader, SliceType};
use super::transform::{transform_tree, tree, Cu};
use crate::grid::{one, one_if};
use vstd::arithmetic::power2::lemma2_to64;
use vstd::prelude::*;

verus! {

// ---------------------------------------------------------------------------
// Sample-adaptive offset

/// The offsets of a component: four magnitudes in unary up to 7, and how many are not zero.
#[verifier::opaque]
pub open spec fn sao_offsets(c: Bins) -> (int, Bins) {
    let (a0, c) = c.ones(0, 7);
    let (a1, c) = c.ones(0, 7);
    let (a2, c) = c.ones(0, 7);
    let (a3, c) = c.ones(0, 7);
    (one_if(a0 != 0) + one_if(a1 != 0) + one_if(a2 != 0) + one_if(a3 != 0), c)
}

fn read_sao_offsets(d: &mut Decoder) -> (n: usize)
    ensures
        (n as int, final(d)@) == sao_offsets(old(d)@),
        n <= 4,
{
    proof {
        reveal(sao_offsets);
    }
    let a0 = d.ones(0, 7);
    let a1 = d.ones(0, 7);
    let a2 = d.ones(0, 7);
    let a3 = d.ones(0, 7);
    one(a0 != 0) + one(a1 != 0) + one(a2 != 0) + one(a3 != 0)
}

/// The parameters of component `c_idx` behind its type: for a band the signs of offsets that are not
/// zero and five bits of position, for an edge two bits of direction, which chroma codes once.
#[verifier::opaque]
pub open spec fn sao_params(c: Bins, kind: u32, c_idx: int) -> Bins {
    if kind == 0 {
        c
    } else {
        let (n, c) = sao_offsets(c);
        if kind == 1 {
            c.skip((n + 5) as nat)
        } else if c_idx != 2 {
            c.skip(2)
        } else {
            c
        }
    }
}

fn skip_sao_params(d: &mut Decoder, kind: u32, c_idx: usize)
    ensures
        final(d)@ == sao_params(old(d)@, kind, c_idx as int),
{
    proof {
        reveal(sao_params);
    }
    if kind != 0 {
        let n = read_sao_offsets(d);
        if kind == 1 {
            d.skip(n + 5);
        } else if c_idx != 2 {
            d.skip(2);
        }
    }
}

/// The type of offset: 0 for none, 1 for band, 2 for edge.
#[verifier::opaque]
pub open spec fn sao_type(c: Bins) -> (u32, Bins) {
    let (some, c) = c.flag(SAO_TYPE_IDX_OFFSET as int);
    if some {
        let (bin, c) = c.bypass();
        (
            if bin == 0 {
                1
            } else {
                2
            },
            c,
        )
    } else {
        (0, c)
    }
}

fn sao_type_idx(d: &mut Decoder) -> (t: u32)
    ensures
        (t, final(d)@) == sao_type(old(d)@),
{
    proof {
        reveal(sao_type);
    }
    if !d.flag(SAO_TYPE_IDX_OFFSET) {
        0
    } else if d.bypass() == 0 {
        1
    } else {
        2
    }
}

/// Whether the offsets are those of the left or of the upper coding tree block.
#[verifier::opaque]
pub open spec fn sao_merge(c: Bins, sh: HeaderV, t: Ctb) -> (bool, Bins) {
    if sh.sao_luma || sh.sao_chroma {
        let (left, c) = if t.left {
            c.flag(SAO_MERGE_FLAG_OFFSET as int)
        } else {
            (false, c)
        };
        if !left && t.up {
            c.flag(SAO_MERGE_FLAG_OFFSET as int)
        } else {
            (left, c)
        }
    } else {
        (false, c)
    }
}

fn read_sao_merge(d: &mut Decoder, sh: &SliceHeader, t: Ctb) -> (m: bool)
    ensures
        (m, final(d)@) == sao_merge(old(d)@, sh@, t),
{
    proof {
        reveal(sao_merge);
    }
    if sh.sao_luma || sh.sao_chroma {
        let left = t.left && d.flag(SAO_MERGE_FLAG_OFFSET);
        if !left && t.up {
            d.flag(SAO_MERGE_FLAG_OFFSET)
        } else {
            left
        }
    } else {
        false
    }
}

/// `sao()` of a coding tree block. The types of both chroma components are the same.
#[verifier::opaque]
pub open spec fn sao(c: Bins, sps: SpsV, sh: HeaderV, t: Ctb) -> Bins {
    let (merge, c) = sao_merge(c, sh, t);
    let c = if sh.sao_luma && !merge {
        let (kind, c) = sao_type(c);
        sao_params(c, kind, 0)
    } else {
        c
    };
    if sps.chroma_format_idc != 0 && sh.sao_chroma && !merge {
        let (kind, c) = sao_type(c);
        sao_params(sao_params(c, kind, 1), kind, 2)
    } else {
        c
    }
}

/// Steps over the sample-adaptive offsets of a coding tree block.
pub fn sao_param(d: &mut Decoder, sps: &Sps, sh: &SliceHeader, t: Ctb)
    ensures
        final(d)@ == sao(old(d)@, sps@, sh@, t),
{
    proof {
        reveal(sao);
    }
    let merge = read_sao_merge(d, sh, t);
    if sh.sao_luma && !merge {
        let kind = sao_type_idx(d);
        skip_sao_params(d, kind, 0);
    }
    if sps.chroma_format_idc != 0 && sh.sao_chroma && !merge {
        let kind = sao_type_idx(d);
        skip_sao_params(d, kind, 1);
        skip_sao_params(d, kind, 2);
    }
}

// ---------------------------------------------------------------------------
// Flags

/// `part_mode`: 0 undivided; 1 and 2 in equal rows or columns; 3 in four; 4 to 7 in rows or columns
/// of a quarter and three quarters. `least` says that the unit has the smallest size.
#[verifier::opaque]
pub open spec fn part_mode(c: Bins, sps: SpsV, log2: u32, is_intra: bool) -> (u8, Bins) {
    let least = log2 == sps.min_cb_log2_size_y;
    let base = PART_MODE_OFFSET as int;
    let (whole, c) = c.flag(base);
    if whole {
        (0, c)
    } else if least && is_intra {
        (3, c)
    } else {
        let (rows, c) = c.flag(base + 1);
        if least {
            if rows {
                (1, c)
            } else if log2 == 3 {
                (2, c)
            } else {
                let (columns, c) = c.flag(base + 2);
                (
                    if columns {
                        2
                    } else {
                        3
                    },
                    c,
                )
            }
        } else if !sps.amp_enabled {
            (
                if rows {
                    1
                } else {
                    2
                },
                c,
            )
        } else {
            let (equal, c) = c.flag(base + 3);
            if equal {
                (
                    if rows {
                        1
                    } else {
                        2
                    },
                    c,
                )
            } else {
                let (late, c) = c.bypass();
                (
                    if rows {
                        if late == 1 {
                            5
                        } else {
                            4
                        }
                    } else if late == 1 {
                        7
                    } else {
                        6
                    },
                    c,
                )
            }
        }
    }
}

fn part_mode_decode(d: &mut Decoder, sps: &Sps, log2: u32, is_intra: bool) -> (m: u8)
    ensures
        (m, final(d)@) == part_mode(old(d)@, sps@, log2, is_intra),
        m <= 7,
        m == 3 ==> log2 == sps.min_cb_log2_size_y,
        m >= 4 ==> log2 != sps.min_cb_log2_size_y,
{
    proof {
        reveal(part_mode);
    }
    let least = log2 == sps.min_cb_log2_size_y;
    if d.flag(PART_MODE_OFFSET) {
        return 0;
    }
    if least && is_intra {
        return 3;
    }
    let rows = d.flag(PART_MODE_OFFSET + 1);
    if least {
        if rows {
            1
        } else if log2 == 3 {
            2
        } else if d.flag(PART_MODE_OFFSET + 2) {
            2
        } else {
            3
        }
    } else if !sps.amp_enabled {
        if rows {
            1
        } else {
            2
        }
    } else if d.flag(PART_MODE_OFFSET + 3) {
        if rows {
            1
        } else {
            2
        }
    } else if d.bypass() == 1 {
        if rows {
            5
        } else {
            7
        }
    } else {
        if rows {
            4
        } else {
            6
        }
    }
}

/// There is a block to the left that can be used.
pub open spec fn has_left(g: Geo, t: Ctb, x: int) -> bool {
    t.left || x % (g.ctb as int) != 0
}

/// There is a block above that can be used.
pub open spec fn has_up(g: Geo, t: Ctb, y: int) -> bool {
    t.up || y % (g.ctb as int) != 0
}

/// `cu_skip_flag`: the context counts skipped neighbours.
#[verifier::opaque]
pub open spec fn skip_flag(c: Bins, f: FrameV, g: Geo, t: Ctb, x: int, y: int) -> (bool, Bins) {
    c.flag(
        SKIP_FLAG_OFFSET + (one_if(has_left(g, t, x) && f.skip_at(g, x - 1, y)) + one_if(
            has_up(g, t, y) && f.skip_at(g, x, y - 1),
        )),
    )
}

fn skip_flag_decode(d: &mut Decoder, f: &Frame, g: &Geo, t: Ctb, x: i32, y: i32) -> (s: bool)
    requires
        g.wf(),
        f@.wf(*g),
        0 <= x < g.w,
        0 <= y < g.h,
        t.ok(x as int, y as int),
    ensures
        (s, final(d)@) == skip_flag(old(d)@, f@, *g, t, x as int, y as int),
{
    proof {
        reveal(skip_flag);
        vstd::arithmetic::div_mod::lemma_small_mod(0, g.ctb as nat);
    }
    let left = (t.left || x % g.ctb != 0) && f.skip_at(g, x - 1, y);
    let up = (t.up || y % g.ctb != 0) && f.skip_at(g, x, y - 1);
    d.flag(SKIP_FLAG_OFFSET + (one(left) + one(up)))
}

/// `split_cu_flag`: the context counts neighbours that are divided deeper.
#[verifier::opaque]
pub open spec fn split_flag(c: Bins, f: FrameV, g: Geo, t: Ctb, x: int, y: int, depth: int) -> (
    bool,
    Bins,
) {
    c.flag(
        SPLIT_CODING_UNIT_FLAG_OFFSET + (one_if(
            has_left(g, t, x) && f.depth_at(g, x - 1, y) > depth,
        ) + one_if(has_up(g, t, y) && f.depth_at(g, x, y - 1) > depth)),
    )
}

fn split_cu_flag(d: &mut Decoder, f: &Frame, g: &Geo, t: Ctb, x: i32, y: i32, depth: i32) -> (s:
    bool)
    requires
        g.wf(),
        f@.wf(*g),
        0 <= x < g.w,
        0 <= y < g.h,
        t.ok(x as int, y as int),
    ensures
        (s, final(d)@) == split_flag(
            old(d)@,
            f@,
            *g,
            t,
            x as int,
            y as int,
            depth as int,
        ),
{
    proof {
        reveal(split_flag);
        vstd::arithmetic::div_mod::lemma_small_mod(0, g.ctb as nat);
    }
    let left = (t.left || x % g.ctb != 0) && f.depth_at(g, x - 1, y) as i32 > depth;
    let up = (t.up || y % g.ctb != 0) && f.depth_at(g, x, y - 1) as i32 > depth;
    d.flag(SPLIT_CODING_UNIT_FLAG_OFFSET + (one(left) + one(up)))
}

// ---------------------------------------------------------------------------
// Inter coding units

/// A coding unit: its place, its size as a logarithm and in samples, and its depth in the tree.
#[derive(Clone, Copy)]
pub struct CuPlace {
    pub x: i32,
    pub y: i32,
    pub log2: u32,
    pub n: i32,
    pub depth: i32,
}

impl CuPlace {
    pub open spec fn ok(self, e: EnvV) -> bool {
        &&& self.n == side(self.log2)
        &&& e.sps.min_cb_log2_size_y <= self.log2 <= e.sps.ctb_log2_size_y
        &&& e.g.has_cb(self.x as int, self.y as int, self.n as int)
        &&& 0 <= self.depth
        &&& self.depth + self.log2 <= MAX_LOG2
    }
}

/// A part of a coding unit, `dx`, `dy` samples from its corner.
pub open spec fn part_of(u: CuPlace, dx: int, dy: int, w: int, h: int, right: bool, below: bool) -> PuPlace {
    PuPlace {
        p: Pu { x: (u.x + dx) as i32, y: (u.y + dy) as i32, w: w as i32, h: h as i32 },
        cu_x: u.x,
        cu_y: u.y,
        cu_n: u.n,
        second_right: right,
        second_below: below,
    }
}

/// A part of a coding unit decoded.
#[verifier::opaque]
pub open spec fn unit_part(
    c: Bins,
    f: FrameV,
    e: EnvV,
    t: Ctb,
    u: CuPlace,
    part: PuPlace,
    skipped: bool,
) -> (bool, Bins, FrameV) {
    pred_unit(c, f, e, t, part, skipped, u.depth as int)
}

/// Sizes of parts lie on the grid of smallest prediction blocks.
proof fn lemma_part(e: EnvV, u: CuPlace, dx: int, dy: int, w: int, h: int)
    requires
        e.ok(),
        u.ok(e),
        0 <= dx,
        0 <= dy,
        0 < w,
        0 < h,
        dx + w <= u.n,
        dy + h <= u.n,
        dx % (e.g.min_pu as int) == 0,
        dy % (e.g.min_pu as int) == 0,
        w % (e.g.min_pu as int) == 0,
        h % (e.g.min_pu as int) == 0,
    ensures
        e.g.has_block(u.x + dx, u.y + dy, w, h),
        e.g.has_block(u.x as int, u.y as int, u.n as int, u.n as int),
{
    lemma_cb_block(e.g, u.x as int, u.y as int, u.n as int);
    let m = e.g.min_pu as int;
    vstd::arithmetic::div_mod::lemma_add_mod_noop(u.x as int, dx, m);
    vstd::arithmetic::div_mod::lemma_add_mod_noop(u.y as int, dy, m);
    vstd::arithmetic::div_mod::lemma_small_mod(0, m as nat);
}

/// Halves and, in larger units, quarters lie on the grid of smallest prediction blocks.
proof fn lemma_fractions(e: EnvV, u: CuPlace)
    requires
        e.ok(),
        u.ok(e),
    ensures
        ({
            let m = e.g.min_pu as int;
            let n = u.n as int;
            &&& 0int % m == 0
            &&& n % m == 0
            &&& (n / 2) % m == 0
            &&& 2 * (n / 2) == n
            &&& u.log2 != e.sps.min_cb_log2_size_y ==> (n / 4) % m == 0 && (n * 3 / 4) % m == 0
                && 4 * (n / 4) == n && n / 4 + n * 3 / 4 == n
            &&& n <= 0x4000_0000
        }),
{
    let m = e.g.min_pu as int;
    let n = u.n as int;
    vstd::arithmetic::div_mod::lemma_small_mod(0, m as nat);
    lemma_side_divides(m, n);
    lemma_side(u.log2);
    lemma_side((u.log2 - 1) as u32);
    lemma_side(e.sps.min_cb_log2_size_y);
    lemma_side(MAX_LOG2);
    lemma_side_order(u.log2, MAX_LOG2);
    lemma2_to64();
    lemma_side_order((u.log2 - 1) as u32, (MAX_LOG2 - 1) as u32);
    lemma_side_order((u.log2 - 1) as u32, (e.sps.min_cb_log2_size_y - 1) as u32);
    lemma_side_divides(m, n / 2);
    if u.log2 != e.sps.min_cb_log2_size_y {
        lemma_side((u.log2 - 2) as u32);
        lemma_side_order((u.log2 - 1) as u32, e.sps.min_cb_log2_size_y);
        assert(n >= 2 * e.g.min_cb);
        assert(is_side(n / 4));
        lemma_side_divides(m, n / 4);
        let q = n / 4;
        assert(n * 3 / 4 == q + (q + q));
        vstd::arithmetic::div_mod::lemma_add_mod_noop(q, q, m);
        vstd::arithmetic::div_mod::lemma_add_mod_noop(q, q + q, m);
    }
}

fn decode_part(
    d: &mut Decoder,
    f: &mut Frame,
    e: &Env,
    t: Ctb,
    u: &CuPlace,
    dx: i32,
    dy: i32,
    w: i32,
    h: i32,
    right: bool,
    below: bool,
    skipped: bool,
) -> (merge: bool)
    requires
        e@.ok(),
        old(f)@.wf(e.g),
        u.ok(e@),
        t.ok(u.x as int, u.y as int),
        0 <= dx,
        0 <= dy,
        0 < w,
        0 < h,
        dx + w <= u.n,
        dy + h <= u.n,
        dx as int % (e.g.min_pu as int) == 0,
        dy as int % (e.g.min_pu as int) == 0,
        w as int % (e.g.min_pu as int) == 0,
        h as int % (e.g.min_pu as int) == 0,
    ensures
        (merge, final(d)@, final(f)@) == unit_part(
            old(d)@,
            old(f)@,
            e@,
            t,
            *u,
            part_of(*u, dx as int, dy as int, w as int, h as int, right, below),
            skipped,
        ),
        final(f)@.wf(e.g),
{
    proof {
        reveal(unit_part);
        lemma_part(e@, *u, dx as int, dy as int, w as int, h as int);
    }
    let place = PuPlace {
        p: Pu { x: u.x + dx, y: u.y + dy, w, h },
        cu_x: u.x,
        cu_y: u.y,
        cu_n: u.n,
        second_right: right,
        second_below: below,
    };
    prediction_unit(d, f, e, t, &place, skipped, u.depth)
}

/// Two parts one below the other, the first `k` samples high.
#[verifier::opaque]
pub open spec fn two_rows(c: Bins, f: FrameV, e: EnvV, t: Ctb, u: CuPlace, k: int) -> (Bins, FrameV) {
    let n = u.n as int;
    let (_, c, f) = unit_part(c, f, e, t, u, part_of(u, 0, 0, n, k, false, false), false);
    let (_, c, f) = unit_part(c, f, e, t, u, part_of(u, 0, k, n, n - k, false, true), false);
    (c, f)
}

fn decode_two_rows(d: &mut Decoder, f: &mut Frame, e: &Env, t: Ctb, u: &CuPlace, k: i32)
    requires
        e@.ok(),
        old(f)@.wf(e.g),
        u.ok(e@),
        t.ok(u.x as int, u.y as int),
        0 < k < u.n,
        k as int % (e.g.min_pu as int) == 0,
        (u.n - k) % (e.g.min_pu as int) == 0,
    ensures
        (final(d)@, final(f)@) == two_rows(old(d)@, old(f)@, e@, t, *u, k as int),
        final(f)@.wf(e.g),
{
    proof {
        reveal(two_rows);
        lemma_fractions(e@, *u);
    }
    let _first = decode_part(d, f, e, t, u, 0, 0, u.n, k, false, false, false);
    let _second = decode_part(d, f, e, t, u, 0, k, u.n, u.n - k, false, true, false);
}

/// Two parts side by side, the first `k` samples wide.
#[verifier::opaque]
pub open spec fn two_columns(c: Bins, f: FrameV, e: EnvV, t: Ctb, u: CuPlace, k: int) -> (
    Bins,
    FrameV,
) {
    let n = u.n as int;
    let (_, c, f) = unit_part(c, f, e, t, u, part_of(u, 0, 0, k, n, false, false), false);
    let (_, c, f) = unit_part(c, f, e, t, u, part_of(u, k, 0, n - k, n, true, false), false);
    (c, f)
}

fn decode_two_columns(d: &mut Decoder, f: &mut Frame, e: &Env, t: Ctb, u: &CuPlace, k: i32)
    requires
        e@.ok(),
        old(f)@.wf(e.g),
        u.ok(e@),
        t.ok(u.x as int, u.y as int),
        0 < k < u.n,
        k as int % (e.g.min_pu as int) == 0,
        (u.n - k) % (e.g.min_pu as int) == 0,
    ensures
        (final(d)@, final(f)@) == two_columns(old(d)@, old(f)@, e@, t, *u, k as int),
        final(f)@.wf(e.g),
{
    proof {
        reveal(two_columns);
        lemma_fractions(e@, *u);
    }
    let _first = decode_part(d, f, e, t, u, 0, 0, k, u.n, false, false, false);
    let _second = decode_part(d, f, e, t, u, k, 0, u.n - k, u.n, true, false, false);
}

/// Four parts.
#[verifier::opaque]
pub open spec fn four_parts(c: Bins, f: FrameV, e: EnvV, t: Ctb, u: CuPlace) -> (Bins, FrameV) {
    let h = u.n as int / 2;
    let (_, c, f) = unit_part(c, f, e, t, u, part_of(u, 0, 0, h, h, false, false), false);
    let (_, c, f) = unit_part(c, f, e, t, u, part_of(u, h, 0, h, h, false, false), false);
    let (_, c, f) = unit_part(c, f, e, t, u, part_of(u, 0, h, h, h, false, false), false);
    let (_, c, f) = unit_part(c, f, e, t, u, part_of(u, h, h, h, h, false, false), false);
    (c, f)
}

fn decode_four_parts(d: &mut Decoder, f: &mut Frame, e: &Env, t: Ctb, u: &CuPlace)
    requires
        e@.ok(),
        old(f)@.wf(e.g),
        u.ok(e@),
        t.ok(u.x as int, u.y as int),
    ensures
        (final(d)@, final(f)@) == four_parts(old(d)@, old(f)@, e@, t, *u),
        final(f)@.wf(e.g),
{
    proof {
        reveal(four_parts);
        lemma_fractions(e@, *u);
    }
    let h: i32 = u.n / 2;
    let _m0 = decode_part(d, f, e, t, u, 0, 0, h, h, false, false, false);
    let _m1 = decode_part(d, f, e, t, u, h, 0, h, h, false, false, false);
    let _m2 = decode_part(d, f, e, t, u, 0, h, h, h, false, false, false);
    let _m3 = decode_part(d, f, e, t, u, h, h, h, h, false, false, false);
}

/// The parts of an inter coding unit; whether it is undivided and merges.
#[verifier::opaque]
pub open spec fn inter_parts(c: Bins, f: FrameV, e: EnvV, t: Ctb, u: CuPlace, part: u8) -> (
    bool,
    Bins,
    FrameV,
) {
    let n = u.n as int;
    if part == 0 {
        unit_part(c, f, e, t, u, part_of(u, 0, 0, n, n, false, false), false)
    } else {
        let (c, f) = if part == 1 {
            two_rows(c, f, e, t, u, n / 2)
        } else if part == 2 {
            two_columns(c, f, e, t, u, n / 2)
        } else if part == 4 {
            two_rows(c, f, e, t, u, n / 4)
        } else if part == 5 {
            two_rows(c, f, e, t, u, n * 3 / 4)
        } else if part == 6 {
            two_columns(c, f, e, t, u, n / 4)
        } else if part == 7 {
            two_columns(c, f, e, t, u, n * 3 / 4)
        } else {
            four_parts(c, f, e, t, u)
        };
        (false, c, f)
    }
}

fn decode_inter_parts(
    d: &mut Decoder,
    f: &mut Frame,
    e: &Env,
    t: Ctb,
    u: &CuPlace,
    part: u8,
) -> (merge: bool)
    requires
        e@.ok(),
        old(f)@.wf(e.g),
        u.ok(e@),
        t.ok(u.x as int, u.y as int),
        4 <= part <= 7 ==> u.log2 != e.sps.min_cb_log2_size_y,
    ensures
        (merge, final(d)@, final(f)@) == inter_parts(old(d)@, old(f)@, e@, t, *u, part),
        final(f)@.wf(e.g),
{
    proof {
        reveal(inter_parts);
        lemma_fractions(e@, *u);
    }
    let n = u.n;
    if part == 0 {
        return decode_part(d, f, e, t, u, 0, 0, n, n, false, false, false);
    }
    match part {
        1 => decode_two_rows(d, f, e, t, u, n / 2),
        2 => decode_two_columns(d, f, e, t, u, n / 2),
        4 => decode_two_rows(d, f, e, t, u, n / 4),
        5 => decode_two_rows(d, f, e, t, u, n - n / 4),
        6 => decode_two_columns(d, f, e, t, u, n / 4),
        7 => decode_two_columns(d, f, e, t, u, n - n / 4),
        _ => decode_four_parts(d, f, e, t, u),
    }
    false
}

// ---------------------------------------------------------------------------
// Coding units

/// The transform tree of a coding unit.
pub open spec fn residual_tree(c: Bins, e: EnvV, u: CuPlace, cu: Cu) -> Bins {
    tree(c, e.sps, e.pps, cu, u.log2, 0, 0, 1, false, false)
}

/// An intra coding unit behind its part mode.
#[verifier::opaque]
pub open spec fn intra_unit(
    c: Bins,
    f: FrameV,
    e: EnvV,
    t: Ctb,
    u: CuPlace,
    part: u8,
    bypass: bool,
) -> (Bins, FrameV) {
    let (x, y, n) = (u.x as int, u.y as int, u.n as int);
    let (pcm, c) = if part == 0 && e.sps.pcm_enabled && e.sps.pcm_log2_min_cb <= u.log2
        <= e.sps.pcm_log2_max_cb {
        c.terminate()
    } else {
        (false, c)
    };
    if pcm {
        (c, f.put_ipm(e.g, x, y, n, 1).put_intra(e.g, x, y, n))
    } else {
        let split = part == 3;
        let (modes, mode_c, c, f) = intra_modes(
            c,
            f,
            e.g,
            t,
            x,
            y,
            n,
            split,
            e.sps.chroma_format_idc != 0,
        );
        let depth = (e.sps.max_transform_hierarchy_depth_intra as i32).wrapping_add(
            if split {
                1
            } else {
                0
            },
        );
        let cu = Cu {
            is_intra: true,
            whole: !split,
            intra_split: split,
            bypass,
            max_depth: depth,
            modes,
            mode_c,
        };
        (residual_tree(c, e, u, cu), f.put_intra(e.g, x, y, n))
    }
}

fn decode_intra_unit(
    d: &mut Decoder,
    f: &mut Frame,
    e: &Env,
    t: Ctb,
    u: &CuPlace,
    part: u8,
    bypass: bool,
)
    requires
        e@.ok(),
        old(f)@.wf(e.g),
        u.ok(e@),
        t.ok(u.x as int, u.y as int),
        part == 3 ==> u.log2 == e.sps.min_cb_log2_size_y,
    ensures
        (final(d)@, final(f)@) == intra_unit(old(d)@, old(f)@, e@, t, *u, part, bypass),
        final(f)@.wf(e.g),
{
    proof {
        reveal(intra_unit);
        lemma_cb_block(e.g, u.x as int, u.y as int, u.n as int);
    }
    let pcm = part == 0 && e.sps.pcm_enabled && e.sps.pcm_log2_min_cb <= u.log2 && u.log2
        <= e.sps.pcm_log2_max_cb && d.terminate();
    if pcm {
        f.put_ipm(&e.g, u.x, u.y, u.n, 1);
    } else {
        let split = part == 3;
        let (modes, mode_c) = intra_prediction_unit(
            d,
            f,
            &e.g,
            t,
            u.x,
            u.y,
            u.n,
            split,
            e.sps.chroma_format_idc != 0,
        );
        let max_depth = (e.sps.max_transform_hierarchy_depth_intra as i32).wrapping_add(
            if split {
                1
            } else {
                0
            },
        );
        let cu = Cu {
            is_intra: true,
            whole: !split,
            intra_split: split,
            bypass,
            max_depth,
            modes,
            mode_c,
        };
        transform_tree(d, e.sps, e.pps, &cu, u.log2, 0, 0, 1, false, false);
    }
    f.put_intra(&e.g, u.x, u.y, u.n);
}

/// An inter coding unit behind its part mode. An undivided one that merges always has a residual.
#[verifier::opaque]
pub open spec fn inter_unit(
    c: Bins,
    f: FrameV,
    e: EnvV,
    t: Ctb,
    u: CuPlace,
    part: u8,
    bypass: bool,
) -> (Bins, FrameV) {
    let f = f.put_ipm(e.g, u.x as int, u.y as int, u.n as int, 1);
    let (merge, c, f) = inter_parts(c, f, e, t, u, part);
    let (coded, c) = if merge {
        (true, c)
    } else {
        c.flag(NO_RESIDUAL_DATA_FLAG_OFFSET as int)
    };
    if coded {
        let cu = Cu {
            is_intra: false,
            whole: part == 0,
            intra_split: false,
            bypass,
            max_depth: e.sps.max_transform_hierarchy_depth_inter as i32,
            modes: [1, 1, 1, 1],
            mode_c: 1,
        };
        (residual_tree(c, e, u, cu), f)
    } else {
        (c, f)
    }
}

fn decode_inter_unit(
    d: &mut Decoder,
    f: &mut Frame,
    e: &Env,
    t: Ctb,
    u: &CuPlace,
    part: u8,
    bypass: bool,
)
    requires
        e@.ok(),
        old(f)@.wf(e.g),
        u.ok(e@),
        t.ok(u.x as int, u.y as int),
        4 <= part <= 7 ==> u.log2 != e.sps.min_cb_log2_size_y,
    ensures
        (final(d)@, final(f)@) == inter_unit(old(d)@, old(f)@, e@, t, *u, part, bypass),
        final(f)@.wf(e.g),
{
    proof {
        reveal(inter_unit);
        lemma_cb_block(e.g, u.x as int, u.y as int, u.n as int);
    }
    f.put_ipm(&e.g, u.x, u.y, u.n, 1);
    let merge = decode_inter_parts(d, f, e, t, u, part);
    let coded = merge || d.flag(NO_RESIDUAL_DATA_FLAG_OFFSET);
    if coded {
        let cu = Cu {
            is_intra: false,
            whole: part == 0,
            intra_split: false,
            bypass,
            max_depth: e.sps.max_transform_hierarchy_depth_inter as i32,
            modes: [1, 1, 1, 1],
            mode_c: 1,
        };
        transform_tree(d, e.sps, e.pps, &cu, u.log2, 0, 0, 1, false, false);
    }
}

/// A coding unit that is not skipped.
#[verifier::opaque]
pub open spec fn coded_unit(c: Bins, f: FrameV, e: EnvV, t: Ctb, u: CuPlace, bypass: bool) -> (
    Bins,
    FrameV,
) {
    let (is_intra, c) = if e.sh.slice_type == Some(SliceType::I) {
        (true, c)
    } else {
        c.flag(PRED_MODE_FLAG_OFFSET as int)
    };
    let (part, c) = if !is_intra || u.log2 == e.sps.min_cb_log2_size_y {
        part_mode(c, e.sps, u.log2, is_intra)
    } else {
        (0, c)
    };
    if is_intra {
        intra_unit(c, f, e, t, u, part, bypass)
    } else {
        inter_unit(c, f, e, t, u, part, bypass)
    }
}

fn decode_coded_unit(d: &mut Decoder, f: &mut Frame, e: &Env, t: Ctb, u: &CuPlace, bypass: bool)
    requires
        e@.ok(),
        old(f)@.wf(e.g),
        u.ok(e@),
        t.ok(u.x as int, u.y as int),
    ensures
        (final(d)@, final(f)@) == coded_unit(old(d)@, old(f)@, e@, t, *u, bypass),
        final(f)@.wf(e.g),
{
    proof {
        reveal(coded_unit);
    }
    let is_i = matches!(e.sh.slice_type, Some(SliceType::I));
    let is_intra = is_i || d.flag(PRED_MODE_FLAG_OFFSET);
    let part = if !is_intra || u.log2 == e.sps.min_cb_log2_size_y {
        part_mode_decode(d, e.sps, u.log2, is_intra)
    } else {
        0
    };
    if is_intra {
        decode_intra_unit(d, f, e, t, u, part, bypass);
    } else {
        decode_inter_unit(d, f, e, t, u, part, bypass);
    }
}

/// A skipped coding unit.
#[verifier::opaque]
pub open spec fn skipped_unit(c: Bins, f: FrameV, e: EnvV, t: Ctb, u: CuPlace) -> (Bins, FrameV) {
    let n = u.n as int;
    let (_, c, f) = unit_part(c, f, e, t, u, part_of(u, 0, 0, n, n, false, false), true);
    (c, f.put_ipm(e.g, u.x as int, u.y as int, n, 1))
}

fn decode_skipped_unit(d: &mut Decoder, f: &mut Frame, e: &Env, t: Ctb, u: &CuPlace)
    requires
        e@.ok(),
        old(f)@.wf(e.g),
        u.ok(e@),
        t.ok(u.x as int, u.y as int),
    ensures
        (final(d)@, final(f)@) == skipped_unit(old(d)@, old(f)@, e@, t, *u),
        final(f)@.wf(e.g),
{
    proof {
        reveal(skipped_unit);
        lemma_fractions(e@, *u);
        lemma_cb_block(e.g, u.x as int, u.y as int, u.n as int);
    }
    let _merge = decode_part(d, f, e, t, u, 0, 0, u.n, u.n, false, false, true);
    f.put_ipm(&e.g, u.x, u.y, u.n, 1);
}

/// `coding_unit()`.
#[verifier::opaque]
pub open spec fn unit(c: Bins, f: FrameV, e: EnvV, t: Ctb, u: CuPlace) -> (Bins, FrameV) {
    let (x, y, n) = (u.x as int, u.y as int, u.n as int);
    let (bypass, c) = if e.pps.transquant_bypass_enabled_flag {
        c.flag(CU_TRANSQUANT_BYPASS_FLAG_OFFSET as int)
    } else {
        (false, c)
    };
    let (skipped, c) = if e.sh.slice_type == Some(SliceType::I) {
        (false, c)
    } else {
        skip_flag(c, f, e.g, t, x, y)
    };
    let f = f.put_skip(
        e.g,
        x,
        y,
        n,
        if skipped {
            1
        } else {
            0
        },
    );
    let (c, f) = if skipped {
        skipped_unit(c, f, e, t, u)
    } else {
        coded_unit(c, f, e, t, u, bypass)
    };
    (c, f.put_depth(e.g, x, y, n, u.depth as u8))
}

/// Decodes a coding unit.
pub fn coding_unit(d: &mut Decoder, f: &mut Frame, e: &Env, t: Ctb, u: &CuPlace)
    requires
        e@.ok(),
        old(f)@.wf(e.g),
        u.ok(e@),
        t.ok(u.x as int, u.y as int),
    ensures
        (final(d)@, final(f)@) == unit(old(d)@, old(f)@, e@, t, *u),
        final(f)@.wf(e.g),
{
    proof {
        reveal(unit);
    }
    let bypass = e.pps.transquant_bypass_enabled_flag && d.flag(CU_TRANSQUANT_BYPASS_FLAG_OFFSET);
    let is_i = matches!(e.sh.slice_type, Some(SliceType::I));
    let skipped = !is_i && skip_flag_decode(d, f, &e.g, t, u.x, u.y);
    f.put_skip(
        &e.g,
        u.x,
        u.y,
        u.n,
        if skipped {
            1
        } else {
            0
        },
    );
    if skipped {
        decode_skipped_unit(d, f, e, t, u);
    } else {
        decode_coded_unit(d, f, e, t, u, bypass);
    }
    f.put_depth(&e.g, u.x, u.y, u.n, u.depth as u8);
}

// ---------------------------------------------------------------------------
// Coding quadtree

/// Whether a node of the coding quadtree is divided: coded where it lies in the picture and has a
/// choice, else forced down to the smallest size.
#[verifier::opaque]
pub open spec fn node_split(
    c: Bins,
    f: FrameV,
    e: EnvV,
    t: Ctb,
    x: int,
    y: int,
    log2: u32,
    depth: int,
) -> (bool, Bins) {
    let n = side(log2);
    if x + n <= e.g.w && y + n <= e.g.h && log2 > e.sps.min_cb_log2_size_y {
        split_flag(c, f, e.g, t, x, y, depth)
    } else {
        (log2 > e.sps.min_cb_log2_size_y, c)
    }
}

fn read_node_split(
    d: &mut Decoder,
    f: &Frame,
    e: &Env,
    t: Ctb,
    x: i32,
    y: i32,
    log2: u32,
    depth: i32,
) -> (s: bool)
    requires
        e@.ok(),
        f@.wf(e.g),
        0 <= x < e.g.w,
        0 <= y < e.g.h,
        t.ok(x as int, y as int),
        log2 <= e.sps.ctb_log2_size_y,
    ensures
        (s, final(d)@) == node_split(
            old(d)@,
            f@,
            e@,
            t,
            x as int,
            y as int,
            log2,
            depth as int,
        ),
{
    proof {
        reveal(node_split);
        lemma_side_order(log2, e.sps.ctb_log2_size_y);
    }
    let n = side_of(log2);
    if x + n <= e.g.w && y + n <= e.g.h && log2 > e.sps.min_cb_log2_size_y {
        split_cu_flag(d, f, &e.g, t, x, y, depth)
    } else {
        log2 > e.sps.min_cb_log2_size_y
    }
}

/// A node starts a quantisation group.
pub open spec fn starts_group(e: EnvV, log2: u32) -> bool {
    e.pps.cu_qp_delta_enabled_flag && log2 >= e.sps.ctb_log2_size_y.wrapping_sub(
        e.pps.diff_cu_qp_delta_depth,
    )
}

/// A node that is not divided: a coding unit, and behind the last of a coding tree block whether the
/// slice goes on.
#[verifier::opaque]
pub open spec fn node_leaf(c: Bins, f: FrameV, e: EnvV, t: Ctb, u: CuPlace) -> (bool, Bins, FrameV) {
    let (c, f) = unit(c, f, e, t, u);
    let (xe, ye, ctb) = (u.x + u.n, u.y + u.n, e.g.ctb as int);
    if (xe % ctb == 0 || xe >= e.g.w) && (ye % ctb == 0 || ye >= e.g.h) {
        let (end, c) = c.terminate();
        (!end, c, f)
    } else {
        (true, c, f)
    }
}

fn decode_node_leaf(d: &mut Decoder, f: &mut Frame, e: &Env, t: Ctb, u: &CuPlace) -> (more: bool)
    requires
        e@.ok(),
        old(f)@.wf(e.g),
        u.ok(e@),
        t.ok(u.x as int, u.y as int),
    ensures
        (more, final(d)@, final(f)@) == node_leaf(old(d)@, old(f)@, e@, t, *u),
        final(f)@.wf(e.g),
{
    proof {
        reveal(node_leaf);
    }
    coding_unit(d, f, e, t, u);
    let xe: i32 = u.x + u.n;
    let ye: i32 = u.y + u.n;
    if (xe % e.g.ctb == 0 || xe >= e.g.w) && (ye % e.g.ctb == 0 || ye >= e.g.h) {
        !d.terminate()
    } else {
        true
    }
}

/// `coding_quadtree()`: whether the slice goes on. Quarters outside the picture are not coded.
pub open spec fn quadtree(
    c: Bins,
    f: FrameV,
    e: EnvV,
    t: Ctb,
    x: int,
    y: int,
    log2: u32,
    depth: int,
) -> (bool, Bins, FrameV)
    decreases log2,
{
    let (divided, c) = node_split(c, f, e, t, x, y, log2, depth);
    let c = if starts_group(e, log2) {
        c.with_qp_coded(false)
    } else {
        c
    };
    if divided && log2 > 0 {
        let k = (log2 - 1) as u32;
        let h = side(log2) / 2;
        let (x1, y1) = (x + h, y + h);
        let (more, c, f) = quadtree(c, f, e, t, x, y, k, depth + 1);
        let (more, c, f) = if more && x1 < e.g.w {
            quadtree(c, f, e, t, x1, y, k, depth + 1)
        } else {
            (more, c, f)
        };
        let (more, c, f) = if more && y1 < e.g.h {
            quadtree(c, f, e, t, x, y1, k, depth + 1)
        } else {
            (more, c, f)
        };
        let (more, c, f) = if more && x1 < e.g.w && y1 < e.g.h {
            quadtree(c, f, e, t, x1, y1, k, depth + 1)
        } else {
            (more, c, f)
        };
        (more && (x1 + h < e.g.w || y1 + h < e.g.h), c, f)
    } else {
        node_leaf(
            c,
            f,
            e,
            t,
            CuPlace {
                x: x as i32,
                y: y as i32,
                log2,
                n: side(log2) as i32,
                depth: depth as i32,
            },
        )
    }
}

/// A node on its grid that starts in the picture.
pub open spec fn node_ok(e: EnvV, x: int, y: int, log2: u32, depth: int) -> bool {
    &&& e.sps.min_cb_log2_size_y <= log2 <= e.sps.ctb_log2_size_y
    &&& 0 <= x < e.g.w
    &&& 0 <= y < e.g.h
    &&& x % side(log2) == 0
    &&& y % side(log2) == 0
    &&& 0 <= depth
    &&& depth + log2 <= MAX_LOG2
}

/// The quarters of a node lie on their grid.
proof fn lemma_quarters(e: EnvV, x: int, y: int, log2: u32, depth: int)
    requires
        e.ok(),
        node_ok(e, x, y, log2, depth),
        log2 > e.sps.min_cb_log2_size_y,
    ensures
        ({
            let h = side(log2) / 2;
            &&& side((log2 - 1) as u32) == h
            &&& x % h == 0 && y % h == 0
            &&& (x + h) % h == 0 && (y + h) % h == 0
            &&& 0 < h <= 0x2000_0000
        }),
{
    let n = side(log2);
    let h = n / 2;
    lemma_side(log2);
    lemma_side((log2 - 1) as u32);
    lemma_side_divides(h, n);
    lemma_multiple(x, h, n);
    lemma_multiple(y, h, n);
    vstd::arithmetic::div_mod::lemma_mod_self_0(h);
    vstd::arithmetic::div_mod::lemma_add_mod_noop(x, h, h);
    vstd::arithmetic::div_mod::lemma_add_mod_noop(y, h, h);
    vstd::arithmetic::div_mod::lemma_small_mod(0, h as nat);
}

/// Decodes a coding quadtree.
pub fn coding_quadtree(
    d: &mut Decoder,
    f: &mut Frame,
    e: &Env,
    t: Ctb,
    x: i32,
    y: i32,
    log2: u32,
    depth: i32,
) -> (more: bool)
    requires
        e@.ok(),
        old(f)@.wf(e.g),
        node_ok(e@, x as int, y as int, log2, depth as int),
        t.ok(x as int, y as int),
    ensures
        (more, final(d)@, final(f)@) == quadtree(
            old(d)@,
            old(f)@,
            e@,
            t,
            x as int,
            y as int,
            log2,
            depth as int,
        ),
        final(f)@.wf(e.g),
    decreases log2,
{
    let ghost c0 = d@;
    let divided = read_node_split(d, f, e, t, x, y, log2, depth);
    if e.pps.cu_qp_delta_enabled_flag && log2 >= e.sps.ctb_log2_size_y.wrapping_sub(
        e.pps.diff_cu_qp_delta_depth,
    ) {
        d.set_qp_coded(false);
    }
    proof {
        reveal(node_split);
    }
    if divided {
        proof {
            lemma_quarters(e@, x as int, y as int, log2, depth as int);
            lemma_side(e.sps.ctb_log2_size_y);
            lemma_side_order(e.sps.ctb_log2_size_y, log2);
        }
        let k: u32 = log2 - 1;
        let h: i32 = side_of(k);
        let x1: i32 = x + h;
        let y1: i32 = y + h;
        let mut more = coding_quadtree(d, f, e, t, x, y, k, depth + 1);
        if more && x1 < e.g.w {
            more = coding_quadtree(d, f, e, t, x1, y, k, depth + 1);
        }
        if more && y1 < e.g.h {
            more = coding_quadtree(d, f, e, t, x, y1, k, depth + 1);
        }
        if more && x1 < e.g.w && y1 < e.g.h {
            more = coding_quadtree(d, f, e, t, x1, y1, k, depth + 1);
        }
        more && (x1 + h < e.g.w || y1 + h < e.g.h)
    } else {
        let n = side_of(log2);
        let u = CuPlace { x, y, log2, n, depth };
        proof {
            lemma_side(log2);
            lemma_side(e.sps.min_cb_log2_size_y);
            lemma_side_order(e.sps.min_cb_log2_size_y, log2);
            lemma_side(e.sps.ctb_log2_size_y);
            lemma_side_order(log2, e.sps.ctb_log2_size_y);
            assert(u.ok(e@));
        }
        decode_node_leaf(d, f, e, t, &u)
    }
}

} // verus!
