//! Motion-vector candidates of H.265: merge lists and vector predictors.

use super::frame::{
    blank_field, is_side, lemma_sample_cell, lemma_side, lemma_side_divides, lemma_side_order,
    no_motion, side, Frame, FrameV, Geo, MvField, MAX_LOG2, PF_BI, PF_INTRA, PF_L0, PF_L1,
};
use super::refs::{derive_temporal_colocated, from_col, mv_scale, scaled_mv, vec_at, vec_of};
use super::refs::{FrameMv, FrameMvV, RefInfo, RefV};
use super::slice_header::{HeaderV, SliceHeader, SliceType};
use crate::motion::{zero_mv, Mv};
use vstd::arithmetic::div_mod::{lemma_div_multiples_vanish, lemma_mod_decreases};
use vstd::arithmetic::power2::lemma_pow2_adds;
use vstd::prelude::*;

verus! {

// ---------------------------------------------------------------------------
// Neighbours

/// Which neighbours of the current coding tree block can be used.
#[derive(Clone, Copy)]
pub struct Ctb {
    pub left: bool,
    pub up: bool,
    pub up_right: bool,
    pub up_left: bool,
}

impl Ctb {
    /// At `x`, `y` in the block, the neighbours that can be used are inside the picture.
    pub open spec fn ok(self, x: int, y: int) -> bool {
        &&& self.left ==> x > 0
        &&& self.up ==> y > 0
        &&& self.up_right ==> y > 0
        &&& self.up_left ==> x > 0 && y > 0
    }
}

/// A prediction block.
#[derive(Clone, Copy)]
pub struct Pu {
    pub x: i32,
    pub y: i32,
    pub w: i32,
    pub h: i32,
}

impl Pu {
    pub open spec fn ok(self, g: Geo) -> bool {
        g.has_block(self.x as int, self.y as int, self.w as int, self.h as int)
    }
}

/// Which neighbours of a prediction block can be used.
#[derive(Clone, Copy)]
pub struct Near {
    pub left: bool,
    pub up: bool,
    pub up_left: bool,
    pub up_right: bool,
    pub bottom_left: bool,
}

/// The neighbours of a prediction block. Above right there is something to use up to the end of the
/// coding tree block, below left up to the end of its rows.
#[verifier::opaque]
pub open spec fn near(g: Geo, t: Ctb, p: Pu) -> Near {
    let ctb = g.ctb as int;
    let (xb, yb) = (p.x as int % ctb, p.y as int % ctb);
    let up = t.up || yb != 0;
    let left = t.left || xb != 0;
    let rows_end = p.y as int / ctb * ctb + ctb;
    let end = if rows_end < g.h {
        rows_end
    } else {
        g.h as int
    };
    Near {
        left,
        up,
        up_left: if xb != 0 || yb != 0 {
            left && up
        } else {
            t.up_left
        },
        up_right: if xb + p.w == ctb {
            t.up_right && yb == 0
        } else {
            up
        },
        bottom_left: p.y + p.h < end && left,
    }
}

fn set_neighbour_available(g: &Geo, t: Ctb, p: Pu) -> (n: Near)
    requires
        g.wf(),
        p.ok(*g),
        t.ok(p.x as int, p.y as int),
    ensures
        n == near(*g, t, p),
        n.left ==> p.x > 0,
        n.up ==> p.y > 0,
        n.up_left ==> p.x > 0 && p.y > 0,
        n.up_right ==> p.y > 0,
        n.bottom_left ==> p.x > 0 && p.y + p.h < g.h,
{
    proof {
        reveal(near);
        vstd::arithmetic::div_mod::lemma_small_mod(0, g.ctb as nat);
        let (y, c) = (p.y as int, g.ctb as int);
        vstd::arithmetic::div_mod::lemma_fundamental_div_mod(y, c);
        assert(c * (y / c) == y / c * c) by (nonlinear_arith);
        lemma_mod_decreases(p.x as nat, c as nat);
    }
    let xb: i32 = p.x % g.ctb;
    let yb: i32 = p.y % g.ctb;
    let up = t.up || yb != 0;
    let left = t.left || xb != 0;
    let rows_end: i64 = (p.y - yb) as i64 + g.ctb as i64;
    let end: i64 = if rows_end < g.h as i64 {
        rows_end
    } else {
        g.h as i64
    };
    Near {
        left,
        up,
        up_left: if xb != 0 || yb != 0 {
            left && up
        } else {
            t.up_left
        },
        up_right: if xb + p.w == g.ctb {
            t.up_right && yb == 0
        } else {
            up
        },
        bottom_left: ((p.y + p.h) as i64) < end && left,
    }
}

/// Place of cell `x`, `y` in the z-order of a square of `n` by `n` cells.
pub open spec fn z_order(x: int, y: int, n: int) -> int
    decreases n,
{
    if n <= 1 {
        0
    } else {
        let h = n / 2;
        (2 * (y / h) + x / h) * (h * h) + z_order(x % h, y % h, h)
    }
}

fn z_index(x: i32, y: i32, n: i32, Ghost(k): Ghost<u32>) -> (z: i64)
    requires
        k <= MAX_LOG2,
        n == side(k),
        0 <= x < n,
        0 <= y < n,
    ensures
        z == z_order(x as int, y as int, n as int),
        0 <= z < n * n,
    decreases n,
{
    proof {
        lemma_side(k);
        assert(n <= 1 ==> n * n == n) by (nonlinear_arith)
            requires
                n == 1 || n > 1,
        ;
    }
    if n <= 1 {
        0
    } else {
        let h: i32 = n / 2;
        proof {
            assert(0 <= x as int / (h as int) <= 1 && 0 <= y as int / (h as int) <= 1)
                by (nonlinear_arith)
                requires
                    0 <= x < 2 * h,
                    0 <= y < 2 * h,
                    0 < h,
            ;
        }
        let q: i64 = (2 * (y / h) + x / h) as i64;
        let rest = z_index(x % h, y % h, h, Ghost((k - 1) as u32));
        proof {
            assert(0 <= q * (h * h) <= 3 * (h * h)) by (nonlinear_arith)
                requires
                    0 <= q <= 3,
                    0 <= h,
            ;
            assert(n * n == 4 * (h * h)) by (nonlinear_arith)
                requires
                    n == 2 * h,
            ;
            assert(0 <= h * h <= 0x2000_0000 * 0x2000_0000) by (nonlinear_arith)
                requires
                    0 <= h <= 0x2000_0000,
            ;
        }
        q * (h as i64 * h as i64) + rest
    }
}

/// The block at `xn`, `yn` comes before the one at `xc`, `yc`, or with it: in coding tree blocks
/// above or to the left, or earlier in the z-order of the same one.
#[verifier::opaque]
pub open spec fn z_avail(g: Geo, xc: int, yc: int, xn: int, yn: int) -> bool {
    let c = g.ctb as int;
    let m = g.min_tb as int;
    ||| yn / c < yc / c
    ||| xn / c < xc / c
    ||| yn / c == yc / c && xn / c == xc / c && z_order(xn % c / m, yn % c / m, c / m) <= z_order(
        xc % c / m,
        yc % c / m,
        c / m,
    )
}

fn z_scan_block_avail(g: &Geo, xc: i32, yc: i32, xn: i32, yn: i32) -> (r: bool)
    requires
        g.wf(),
        0 <= xc,
        0 <= yc,
        0 <= xn,
        0 <= yn,
    ensures
        r == z_avail(*g, xc as int, yc as int, xn as int, yn as int),
{
    proof {
        reveal(z_avail);
    }
    let c = g.ctb;
    let m = g.min_tb;
    if yn / c < yc / c || xn / c < xc / c {
        return true;
    }
    if yn / c != yc / c || xn / c != xc / c {
        return false;
    }
    proof {
        lemma_side_divides(m as int, c as int);
        lemma_sample_cell(m as int, xn as int % (c as int), c as int);
        lemma_sample_cell(m as int, yn as int % (c as int), c as int);
        lemma_sample_cell(m as int, xc as int % (c as int), c as int);
        lemma_sample_cell(m as int, yc as int % (c as int), c as int);
    }
    let n: i32 = c / m;
    let ghost k = lemma_ratio(m as int, c as int);
    z_index(xn % c / m, yn % c / m, n, Ghost(k)) <= z_index(xc % c / m, yc % c / m, n, Ghost(k))
}

/// The ratio of two block sizes is a power of two.
proof fn lemma_ratio(m: int, n: int) -> (k: u32)
    requires
        is_side(m),
        is_side(n),
        m <= n,
    ensures
        k <= MAX_LOG2,
        n / m == side(k),
{
    let i = choose|i: u32| i <= MAX_LOG2 && m == #[trigger] side(i);
    let j = choose|j: u32| j <= MAX_LOG2 && n == #[trigger] side(j);
    lemma_side_order(j, i);
    let k = (j - i) as u32;
    lemma_pow2_adds(i as nat, k as nat);
    lemma_div_multiples_vanish(side(k), m);
    k
}

/// The motion at `x`, `y`, where that place can be used and is not intra.
#[verifier::opaque]
pub open spec fn cand(f: FrameV, g: Geo, usable: bool, x: int, y: int) -> Option<MvField> {
    if usable && f.mvf_at(g, x, y).pred_flag != PF_INTRA {
        Some(f.mvf_at(g, x, y))
    } else {
        None
    }
}

fn candidate(f: &Frame, g: &Geo, usable: bool, x: i32, y: i32) -> (m: Option<MvField>)
    requires
        g.wf(),
        f@.wf(*g),
        usable ==> 0 <= x && 0 <= y,
    ensures
        m == cand(f@, *g, usable, x as int, y as int),
{
    proof {
        reveal(cand);
    }
    if usable {
        let m = f.mvf_at(g, x, y);
        if m.pred_flag != PF_INTRA {
            return Some(m);
        }
    }
    None
}

/// The candidate left of the last row of a block.
pub open spec fn cand_a1(f: FrameV, g: Geo, n: Near, p: Pu) -> Option<MvField> {
    cand(f, g, n.left, p.x - 1, p.y + p.h - 1)
}

/// The candidate above the last column of a block.
pub open spec fn cand_b1(f: FrameV, g: Geo, n: Near, p: Pu) -> Option<MvField> {
    cand(f, g, n.up, p.x + p.w - 1, p.y - 1)
}

/// The candidate above and to the right of a block.
pub open spec fn cand_b0(f: FrameV, g: Geo, n: Near, p: Pu) -> Option<MvField> {
    cand(
        f,
        g,
        n.up_right && p.x + p.w < g.w && z_avail(
            g,
            p.x as int,
            p.y as int,
            p.x + p.w,
            p.y - 1,
        ),
        p.x + p.w,
        p.y - 1,
    )
}

/// The candidate below and to the left of a block.
pub open spec fn cand_a0(f: FrameV, g: Geo, n: Near, p: Pu) -> Option<MvField> {
    cand(
        f,
        g,
        n.bottom_left && p.y + p.h < g.h && z_avail(
            g,
            p.x as int,
            p.y as int,
            p.x - 1,
            p.y + p.h,
        ),
        p.x - 1,
        p.y + p.h,
    )
}

/// The candidate above and to the left of a block.
pub open spec fn cand_b2(f: FrameV, g: Geo, n: Near, p: Pu) -> Option<MvField> {
    cand(f, g, n.up_left, p.x - 1, p.y - 1)
}

/// The five candidates around a block.
pub struct Around {
    pub a0: Option<MvField>,
    pub a1: Option<MvField>,
    pub b0: Option<MvField>,
    pub b1: Option<MvField>,
    pub b2: Option<MvField>,
}

/// The five candidates around a block.
#[verifier::opaque]
pub open spec fn around(f: FrameV, g: Geo, t: Ctb, p: Pu) -> Around {
    let n = near(g, t, p);
    Around {
        a0: cand_a0(f, g, n, p),
        a1: cand_a1(f, g, n, p),
        b0: cand_b0(f, g, n, p),
        b1: cand_b1(f, g, n, p),
        b2: cand_b2(f, g, n, p),
    }
}

fn find_around(f: &Frame, g: &Geo, t: Ctb, p: Pu) -> (a: Around)
    requires
        g.wf(),
        f@.wf(*g),
        p.ok(*g),
        t.ok(p.x as int, p.y as int),
    ensures
        a == around(f@, *g, t, p),
{
    proof {
        reveal(around);
    }
    let n = set_neighbour_available(g, t, p);
    let usable_b0 = n.up_right && p.x + p.w < g.w && z_scan_block_avail(
        g,
        p.x,
        p.y,
        p.x + p.w,
        p.y - 1,
    );
    let usable_a0 = n.bottom_left && p.y + p.h < g.h && z_scan_block_avail(
        g,
        p.x,
        p.y,
        p.x - 1,
        p.y + p.h,
    );
    Around {
        a0: candidate(f, g, usable_a0, p.x - 1, p.y + p.h),
        a1: candidate(f, g, n.left, p.x - 1, p.y + p.h - 1),
        b0: candidate(f, g, usable_b0, p.x + p.w, p.y - 1),
        b1: candidate(f, g, n.up, p.x + p.w - 1, p.y - 1),
        b2: candidate(f, g, n.up_left, p.x - 1, p.y - 1),
    }
}

// ---------------------------------------------------------------------------
// Temporal candidate

/// The candidate from the collocated block at `x`, `y`, rounded down to the grid of 16 samples.
#[verifier::opaque]
pub open spec fn col_at(
    g: Geo,
    x: int,
    y: int,
    ref_idx: i8,
    l: int,
    ri: RefV,
    col: FrameMvV,
    collocated_list: usize,
) -> Option<Mv> {
    let xp = x / 16 * 16 / (g.min_pu as int);
    let yp = y / 16 * 16 / (g.min_pu as int);
    if xp >= col.w || yp >= col.h {
        None
    } else {
        from_col(col.mvf[yp * col.w + xp], ref_idx, l, ri, col, collocated_list)
    }
}

fn try_col(
    g: &Geo,
    x: i32,
    y: i32,
    ref_idx: i8,
    l: usize,
    ri: &RefInfo,
    col: &FrameMv,
    collocated_list: usize,
) -> (r: Option<Mv>)
    requires
        g.wf(),
        0 <= x,
        0 <= y,
        l < 2,
        col@.wf(),
    ensures
        r == col_at(*g, x as int, y as int, ref_idx, l as int, ri@, col@, collocated_list),
{
    proof {
        reveal(col_at);
    }
    let xp: usize = (x / 16 * 16 / g.min_pu) as usize;
    let yp: usize = (y / 16 * 16 / g.min_pu) as usize;
    if xp >= col.min_pu_width || yp >= col.min_pu_height {
        return None;
    }
    proof {
        crate::grid::lemma_cell(
            xp as int,
            yp as int,
            col.min_pu_width as int,
            col.min_pu_height as int,
        );
        assert(col.tab_mvf@.len() == col.min_pu_width * col.min_pu_height);
    }
    let cells: usize = col.tab_mvf.len();
    let t = col.tab_mvf[yp * col.min_pu_width + xp];
    derive_temporal_colocated(&t, ref_idx, l, ri, col, collocated_list)
}

/// The temporal candidate of a block: from the block at its lower right, where that is in the same
/// row of coding tree blocks, or else from the one at its centre.
#[verifier::opaque]
pub open spec fn temporal(
    g: Geo,
    p: Pu,
    ref_idx: i8,
    l: int,
    ri: RefV,
    collocated_list: usize,
) -> Option<Mv> {
    match ri.col {
        None => None,
        Some(col) => {
            let (x, y) = (p.x + p.w, p.y + p.h);
            let corner = if p.y as int / (g.ctb as int) == y / (g.ctb as int) && y < g.h && x < g.w {
                col_at(g, x, y, ref_idx, l, ri, col, collocated_list)
            } else {
                None
            };
            match corner {
                Some(v) => Some(v),
                None => col_at(
                    g,
                    p.x + p.w as int / 2,
                    p.y + p.h as int / 2,
                    ref_idx,
                    l,
                    ri,
                    col,
                    collocated_list,
                ),
            }
        },
    }
}

fn temporal_luma_mv(
    g: &Geo,
    p: Pu,
    ref_idx: i8,
    l: usize,
    ri: &RefInfo,
    collocated_list: usize,
) -> (r: Option<Mv>)
    requires
        g.wf(),
        p.ok(*g),
        l < 2,
        ri@.wf(),
    ensures
        r == temporal(*g, p, ref_idx, l as int, ri@, collocated_list),
{
    proof {
        reveal(temporal);
    }
    match ri.col {
        None => None,
        Some(col) => {
            let x: i32 = p.x + p.w;
            let y: i32 = p.y + p.h;
            if p.y / g.ctb == y / g.ctb && y < g.h && x < g.w {
                let corner = try_col(g, x, y, ref_idx, l, ri, col, collocated_list);
                if corner.is_some() {
                    return corner;
                }
            }
            try_col(g, p.x + p.w / 2, p.y + p.h / 2, ref_idx, l, ri, col, collocated_list)
        },
    }
}

// ---------------------------------------------------------------------------
// Merge candidates

/// Two vectors are the same.
pub open spec fn same_vec(a: [i16; 2], b: [i16; 2]) -> bool {
    a[0] == b[0] && a[1] == b[1]
}

/// Two blocks use the same lists with the same references and vectors.
pub open spec fn same_motion(a: MvField, b: MvField) -> bool {
    let l0 = a.ref_idx[0] == b.ref_idx[0] && same_vec(a.mv[0], b.mv[0]);
    let l1 = a.ref_idx[1] == b.ref_idx[1] && same_vec(a.mv[1], b.mv[1]);
    a.pred_flag == b.pred_flag && if a.pred_flag == PF_BI {
        l0 && l1
    } else if a.pred_flag == PF_L0 {
        l0
    } else {
        a.pred_flag == PF_L1 && l1
    }
}

fn compare_mv_ref_idx(a: &MvField, b: &MvField) -> (r: bool)
    ensures
        r == same_motion(*a, *b),
{
    if a.pred_flag != b.pred_flag {
        return false;
    }
    let l0 = a.ref_idx[0] == b.ref_idx[0] && a.mv[0][0] == b.mv[0][0] && a.mv[0][1] == b.mv[0][1];
    let l1 = a.ref_idx[1] == b.ref_idx[1] && a.mv[1][0] == b.mv[1][0] && a.mv[1][1] == b.mv[1][1];
    if a.pred_flag == PF_BI {
        l0 && l1
    } else if a.pred_flag == PF_L0 {
        l0
    } else {
        a.pred_flag == PF_L1 && l1
    }
}

/// Two candidates are there and the same.
pub open spec fn repeats(a: MvField, b: Option<MvField>) -> bool {
    match b {
        Some(b) => same_motion(a, b),
        None => false,
    }
}

fn is_repeat(a: &MvField, b: &Option<MvField>) -> (r: bool)
    ensures
        r == repeats(*a, *b),
{
    match b {
        Some(b) => compare_mv_ref_idx(a, b),
        None => false,
    }
}

/// Two places lie in the same parallel merge region.
pub open spec fn same_region(level: u32, xn: int, yn: int, xp: int, yp: int) -> bool {
    (xn as i32).wrapping_shr(level) == (xp as i32).wrapping_shr(level) && (yn as i32).wrapping_shr(
        level,
    ) == (yp as i32).wrapping_shr(level)
}

fn is_same_region(level: u32, xn: i32, yn: i32, xp: i32, yp: i32) -> (r: bool)
    ensures
        r == same_region(level, xn as int, yn as int, xp as int, yp as int),
{
    xn.wrapping_shr(level) == xp.wrapping_shr(level) && yn.wrapping_shr(level) == yp.wrapping_shr(
        level,
    )
}

/// Where a merged block stands: the block, its parallel merge level, and whether it is the second
/// of two halves side by side, or of two halves one below the other. Such a half does not merge
/// with the first.
#[derive(Clone, Copy)]
pub struct MergePu {
    pub p: Pu,
    pub level: u32,
    pub second_right: bool,
    pub second_below: bool,
}

/// The candidate at `x`, `y`, unless it lies in the same parallel merge region.
pub open spec fn outside(c: Option<MvField>, m: MergePu, x: int, y: int) -> Option<MvField> {
    if same_region(m.level, x, y, m.p.x as int, m.p.y as int) {
        None
    } else {
        c
    }
}

fn keep_outside(c: Option<MvField>, m: &MergePu, x: i32, y: i32) -> (r: Option<MvField>)
    ensures
        r == outside(c, *m, x as int, y as int),
{
    if is_same_region(m.level, x, y, m.p.x, m.p.y) {
        None
    } else {
        c
    }
}

/// The candidates around a block that it can merge with.
#[verifier::opaque]
pub open spec fn merge_around(a: Around, m: MergePu) -> Around {
    let p = m.p;
    Around {
        a0: outside(a.a0, m, p.x - 1, p.y + p.h),
        a1: if m.second_right {
            None
        } else {
            outside(a.a1, m, p.x - 1, p.y + p.h - 1)
        },
        b0: outside(a.b0, m, p.x + p.w, p.y - 1),
        b1: if m.second_below {
            None
        } else {
            outside(a.b1, m, p.x + p.w - 1, p.y - 1)
        },
        b2: outside(a.b2, m, p.x - 1, p.y - 1),
    }
}

fn find_merge_around(a: &Around, m: &MergePu) -> (r: Around)
    requires
        0 <= m.p.x && 0 <= m.p.w && m.p.x + m.p.w <= i32::MAX,
        0 <= m.p.y && 0 <= m.p.h && m.p.y + m.p.h <= i32::MAX,
    ensures
        r == merge_around(*a, *m),
{
    proof {
        reveal(merge_around);
    }
    let p = m.p;
    Around {
        a0: keep_outside(a.a0, m, p.x - 1, p.y + p.h),
        a1: if m.second_right {
            None
        } else {
            keep_outside(a.a1, m, p.x - 1, p.y + p.h - 1)
        },
        b0: keep_outside(a.b0, m, p.x + p.w, p.y - 1),
        b1: if m.second_below {
            None
        } else {
            keep_outside(a.b1, m, p.x + p.w - 1, p.y - 1)
        },
        b2: keep_outside(a.b2, m, p.x - 1, p.y - 1),
    }
}

/// A candidate appended, where there is one and it does not `repeat` another.
pub open spec fn appended(l: Seq<MvField>, c: Option<MvField>, repeat: bool) -> Seq<MvField> {
    match c {
        Some(m) => if repeat {
            l
        } else {
            l.push(m)
        },
        None => l,
    }
}

/// A candidate repeats `b`.
pub open spec fn opt_repeats(c: Option<MvField>, b: Option<MvField>) -> bool {
    match c {
        Some(m) => repeats(m, b),
        None => false,
    }
}

/// The spatial merge candidates: left, above, above right, below left, and above left where these
/// are not four already. One that repeats its neighbour is left out.
#[verifier::opaque]
pub open spec fn spatial(a: Around) -> Seq<MvField> {
    let l = appended(Seq::empty(), a.a1, false);
    let l = appended(l, a.b1, opt_repeats(a.b1, a.a1));
    let l = appended(l, a.b0, opt_repeats(a.b0, a.b1));
    let l = appended(l, a.a0, opt_repeats(a.a0, a.a1));
    appended(l, a.b2, opt_repeats(a.b2, a.a1) || opt_repeats(a.b2, a.b1) || l.len() == 4)
}

fn push_cand(l: &mut Vec<MvField>, c: &Option<MvField>, repeat: bool)
    ensures
        final(l)@ == appended(old(l)@, *c, repeat),
{
    if let Some(m) = c {
        if !repeat {
            l.push(*m);
        }
    }
}

fn opt_repeat(c: &Option<MvField>, b: &Option<MvField>) -> (r: bool)
    ensures
        r == opt_repeats(*c, *b),
{
    match c {
        Some(m) => is_repeat(m, b),
        None => false,
    }
}

fn spatial_cands(a: &Around) -> (l: Vec<MvField>)
    ensures
        l@ == spatial(*a),
        l@.len() <= 4,
{
    proof {
        reveal(spatial);
    }
    let mut l: Vec<MvField> = Vec::new();
    assert(l@ =~= Seq::<MvField>::empty());
    push_cand(&mut l, &a.a1, false);
    push_cand(&mut l, &a.b1, opt_repeat(&a.b1, &a.a1));
    push_cand(&mut l, &a.b0, opt_repeat(&a.b0, &a.b1));
    push_cand(&mut l, &a.a0, opt_repeat(&a.a0, &a.a1));
    let full = l.len() == 4;
    push_cand(&mut l, &a.b2, opt_repeat(&a.b2, &a.a1) || opt_repeat(&a.b2, &a.b1) || full);
    l
}

/// A vector in 16 bits per component.
pub open spec fn short_vec(v: Mv) -> [i16; 2] {
    [v.x as i16, v.y as i16]
}

#[verifier::truncate]
fn to_short(v: Mv) -> (s: [i16; 2])
    ensures
        s == short_vec(v),
{
    [v.x as i16, v.y as i16]
}

/// The vector of a candidate that may be missing.
pub open spec fn vec_or_zero(v: Option<Mv>) -> Mv {
    match v {
        Some(v) => v,
        None => zero_mv(),
    }
}

/// The temporal merge candidate appended: reference 0 of list 0, and of list 1 in a B slice.
#[verifier::opaque]
pub open spec fn with_temporal(l: Seq<MvField>, g: Geo, p: Pu, sh: HeaderV, ri: RefV) -> Seq<MvField> {
    if sh.slice_temporal_mvp_enabled && l.len() < sh.inter.merge_cand {
        let t0 = temporal(g, p, 0, 0, ri, sh.inter.col_list);
        let t1 = if sh.slice_type == Some(SliceType::B) {
            temporal(g, p, 0, 1, ri, sh.inter.col_list)
        } else {
            None
        };
        if t0 is Some || t1 is Some {
            let l0: u8 = if t0 is Some {
                1
            } else {
                0
            };
            let l1: u8 = if t1 is Some {
                2
            } else {
                0
            };
            l.push(
                MvField {
                    mv: [short_vec(vec_or_zero(t0)), short_vec(vec_or_zero(t1))],
                    ref_idx: [0, 0],
                    pred_flag: (l0 + l1) as u8,
                },
            )
        } else {
            l
        }
    } else {
        l
    }
}

fn push_temporal(l: &mut Vec<MvField>, g: &Geo, p: Pu, sh: &SliceHeader, ri: &RefInfo)
    requires
        g.wf(),
        p.ok(*g),
        ri@.wf(),
    ensures
        final(l)@ == with_temporal(old(l)@, *g, p, sh@, ri@),
        final(l)@.len() <= old(l)@.len() + 1,
{
    proof {
        reveal(with_temporal);
    }
    if sh.slice_temporal_mvp_enabled && l.len() < sh.max_num_merge_cand as usize {
        let t0 = temporal_luma_mv(g, p, 0, 0, ri, sh.collocated_list);
        let t1 = if matches!(sh.slice_type, Some(SliceType::B)) {
            temporal_luma_mv(g, p, 0, 1, ri, sh.collocated_list)
        } else {
            None
        };
        if t0.is_some() || t1.is_some() {
            let l0: u8 = if t0.is_some() {
                1
            } else {
                0
            };
            let l1: u8 = if t1.is_some() {
                2
            } else {
                0
            };
            let v0 = match t0 {
                Some(v) => v,
                None => Mv { x: 0, y: 0 },
            };
            let v1 = match t1 {
                Some(v) => v,
                None => Mv { x: 0, y: 0 },
            };
            l.push(
                MvField {
                    mv: [to_short(v0), to_short(v1)],
                    ref_idx: [0, 0],
                    pred_flag: l0 + l1,
                },
            );
        }
    }
}

/// The pair of candidates that the `i`-th combination takes list 0 and list 1 from.
pub open spec fn pair(i: int) -> (int, int) {
    if i == 0 {
        (0, 1)
    } else if i == 1 {
        (1, 0)
    } else if i == 2 {
        (0, 2)
    } else if i == 3 {
        (2, 0)
    } else if i == 4 {
        (1, 2)
    } else if i == 5 {
        (2, 1)
    } else if i == 6 {
        (0, 3)
    } else if i == 7 {
        (3, 0)
    } else if i == 8 {
        (1, 3)
    } else if i == 9 {
        (3, 1)
    } else if i == 10 {
        (2, 3)
    } else {
        (3, 2)
    }
}

fn pair_of(i: usize) -> (p: (usize, usize))
    ensures
        (p.0 as int, p.1 as int) == pair(i as int),
        p.0 <= 3,
        p.1 <= 3,
        i < 2 ==> p.0 <= 1 && p.1 <= 1,
        i < 6 ==> p.0 <= 2 && p.1 <= 2,
{
    match i {
        0 => (0, 1),
        1 => (1, 0),
        2 => (0, 2),
        3 => (2, 0),
        4 => (1, 2),
        5 => (2, 1),
        6 => (0, 3),
        7 => (3, 0),
        8 => (1, 3),
        9 => (3, 1),
        10 => (2, 3),
        _ => (3, 2),
    }
}

/// List 0 of `a` and list 1 of `b` combined, where they are in use and differ.
#[verifier::opaque]
pub open spec fn combined(a: MvField, b: MvField, ri: RefV) -> Option<MvField> {
    if a.pred_flag & PF_L0 != 0 && b.pred_flag & PF_L1 != 0 && (ri.lists.ref_poc(0, a.ref_idx[0])
        != ri.lists.ref_poc(1, b.ref_idx[1]) || !same_vec(a.mv[0], b.mv[1])) {
        Some(
            MvField {
                mv: [a.mv[0], b.mv[1]],
                ref_idx: [a.ref_idx[0], b.ref_idx[1]],
                pred_flag: PF_BI,
            },
        )
    } else {
        None
    }
}

fn combine(a: &MvField, b: &MvField, ri: &RefInfo) -> (m: Option<MvField>)
    ensures
        m == combined(*a, *b, ri@),
{
    proof {
        reveal(combined);
    }
    let same = a.mv[0][0] == b.mv[1][0] && a.mv[0][1] == b.mv[1][1];
    if a.pred_flag & PF_L0 != 0 && b.pred_flag & PF_L1 != 0 && (ri.poc_at(0, a.ref_idx[0])
        != ri.poc_at(1, b.ref_idx[1]) || !same) {
        Some(
            MvField {
                mv: [a.mv[0], b.mv[1]],
                ref_idx: [a.ref_idx[0], b.ref_idx[1]],
                pred_flag: PF_BI,
            },
        )
    } else {
        None
    }
}

/// Combinations `i..` of the first `n` candidates appended, up to `max` candidates.
pub open spec fn with_combined(l: Seq<MvField>, n: int, ri: RefV, max: int, i: int) -> Seq<MvField>
    decreases n * (n - 1) - i,
{
    if l.len() >= max || i >= n * (n - 1) {
        l
    } else {
        let (a, b) = pair(i);
        with_combined(
            match combined(l[a], l[b], ri) {
                Some(m) => l.push(m),
                None => l,
            },
            n,
            ri,
            max,
            i + 1,
        )
    }
}

fn push_combined(l: &mut Vec<MvField>, ri: &RefInfo, max: usize)
    requires
        2 <= old(l)@.len(),
        max <= 5,
    ensures
        final(l)@ == with_combined(old(l)@, old(l)@.len() as int, ri@, max as int, 0),
{
    let n: usize = l.len();
    let ghost start = l@;
    if n >= max {
        return;
    }
    proof {
        assert(n * (n - 1) <= 12) by (nonlinear_arith)
            requires
                2 <= n <= 4,
        ;
        assert(n == 2 ==> n * (n - 1) == 2) by (nonlinear_arith);
        assert(n == 3 ==> n * (n - 1) == 6) by (nonlinear_arith);
    }
    let pairs: usize = n * (n - 1);
    let mut i: usize = 0;
    while l.len() < max && i < pairs
        invariant
            2 <= n <= 4,
            pairs == n * (n - 1),
            n == 2 ==> pairs == 2,
            n == 3 ==> pairs == 6,
            n <= l@.len(),
            max <= 5,
            with_combined(l@, n as int, ri@, max as int, i as int) == with_combined(
                start,
                n as int,
                ri@,
                max as int,
                0,
            ),
        decreases pairs - i,
    {
        let (a, b) = pair_of(i);
        match combine(&l[a], &l[b], ri) {
            Some(m) => {
                l.push(m);
            },
            None => {},
        }
        i += 1;
    }
}

/// The `i`-th candidate without motion.
pub open spec fn zero_cand(is_b: bool, nb_refs: u32, i: int) -> MvField {
    let r: i8 = if i < nb_refs {
        i as i8
    } else {
        0
    };
    MvField {
        mv: [[0, 0], [0, 0]],
        ref_idx: [r, r],
        pred_flag: if is_b {
            3
        } else {
            1
        },
    }
}

/// Candidates without motion appended, up to `max` candidates.
pub open spec fn with_zeros(l: Seq<MvField>, is_b: bool, nb_refs: u32, max: int, i: int) -> Seq<
    MvField,
>
    decreases max - l.len(),
{
    if l.len() >= max {
        l
    } else {
        with_zeros(l.push(zero_cand(is_b, nb_refs, i)), is_b, nb_refs, max, i + 1)
    }
}

fn push_zeros(l: &mut Vec<MvField>, is_b: bool, nb_refs: u32, max: usize)
    requires
        max <= 5,
    ensures
        final(l)@ == with_zeros(old(l)@, is_b, nb_refs, max as int, 0),
        final(l)@.len() >= max,
{
    let mut i: i8 = 0;
    while l.len() < max
        invariant
            max <= 5,
            0 <= i,
            l@.len() < max ==> i <= l@.len(),
            with_zeros(l@, is_b, nb_refs, max as int, i as int) == with_zeros(
                old(l)@,
                is_b,
                nb_refs,
                max as int,
                0,
            ),
        decreases max - l@.len(),
    {
        let r: i8 = if (i as u32) < nb_refs {
            i
        } else {
            0
        };
        l.push(
            MvField {
                mv: [[0, 0], [0, 0]],
                ref_idx: [r, r],
                pred_flag: if is_b {
                    3
                } else {
                    1
                },
            },
        );
        i += 1;
    }
}

/// The references that candidates without motion can use.
pub open spec fn zero_refs(sh: HeaderV) -> u32 {
    if sh.slice_type == Some(SliceType::P) || sh.inter.nb0 < sh.inter.nb1 {
        sh.inter.nb0
    } else {
        sh.inter.nb1
    }
}

/// The merge candidates of a block: spatial, temporal, combined, and without motion.
#[verifier::opaque]
pub open spec fn merge_list(
    f: FrameV,
    g: Geo,
    t: Ctb,
    m: MergePu,
    sh: HeaderV,
    ri: RefV,
) -> Seq<MvField> {
    let is_b = sh.slice_type == Some(SliceType::B);
    let max = sh.inter.merge_cand as int;
    let l = spatial(merge_around(around(f, g, t, m.p), m));
    let l = with_temporal(l, g, m.p, sh, ri);
    let l = if is_b && l.len() > 1 && l.len() < max {
        with_combined(l, l.len() as int, ri, max, 0)
    } else {
        l
    };
    with_zeros(l, is_b, zero_refs(sh), max, 0)
}

/// The merge candidate number `idx` of a block.
pub open spec fn merge_cand(
    f: FrameV,
    g: Geo,
    t: Ctb,
    m: MergePu,
    sh: HeaderV,
    ri: RefV,
    idx: int,
) -> MvField {
    let l = merge_list(f, g, t, m, sh, ri);
    if idx < l.len() {
        l[idx]
    } else {
        no_motion()
    }
}

/// The merge candidate number `idx` of a block.
pub fn derive_merge(
    f: &Frame,
    g: &Geo,
    t: Ctb,
    m: &MergePu,
    sh: &SliceHeader,
    ri: &RefInfo,
    idx: usize,
) -> (c: MvField)
    requires
        g.wf(),
        f@.wf(*g),
        m.p.ok(*g),
        t.ok(m.p.x as int, m.p.y as int),
        ri@.wf(),
        sh.max_num_merge_cand <= 5,
    ensures
        c == merge_cand(f@, *g, t, *m, sh@, ri@, idx as int),
{
    proof {
        reveal(merge_list);
    }
    let is_b = matches!(sh.slice_type, Some(SliceType::B));
    let is_p = matches!(sh.slice_type, Some(SliceType::P));
    let max: usize = sh.max_num_merge_cand as usize;
    let a = find_around(f, g, t, m.p);
    let a = find_merge_around(&a, m);
    let mut l = spatial_cands(&a);
    push_temporal(&mut l, g, m.p, sh, ri);
    if is_b && l.len() > 1 && l.len() < max {
        push_combined(&mut l, ri, max);
    }
    let nb_refs = if is_p || sh.nb_refs[0] < sh.nb_refs[1] {
        sh.nb_refs[0]
    } else {
        sh.nb_refs[1]
    };
    push_zeros(&mut l, is_b, nb_refs, max);
    if idx < l.len() {
        l[idx]
    } else {
        blank_field()
    }
}

// ---------------------------------------------------------------------------
// Vector predictors

/// The vector of list `k` of a neighbour as predictor for reference `ref_idx` of list `l`: where
/// both point at the same picture or, for a `scaling` predictor, where both are of the same kind,
/// scaled to the distance of the current reference.
#[verifier::opaque]
pub open spec fn from_list(n: MvField, k: int, l: int, ref_idx: i8, ri: RefV, scaling: bool) -> Option<
    Mv,
> {
    let bit: u8 = if k == 0 {
        1
    } else {
        2
    };
    if n.pred_flag & bit == 0 {
        None
    } else {
        let nb_poc = ri.lists.ref_poc(k, n.ref_idx[k]);
        let cur_poc = ri.lists.ref_poc(l, ref_idx);
        let v = vec_of(n, k);
        if !scaling {
            if nb_poc == cur_poc {
                Some(v)
            } else {
                None
            }
        } else {
            let cur_long = ri.lists.ref_long(l, ref_idx);
            if cur_long != ri.lists.ref_long(k, n.ref_idx[k]) {
                None
            } else if !cur_long && nb_poc != cur_poc {
                let d = ri.poc.wrapping_sub(nb_poc);
                let td = if d == 0 {
                    1i32
                } else {
                    d
                };
                Some(scaled_mv(v, td, ri.poc.wrapping_sub(cur_poc)))
            } else {
                Some(v)
            }
        }
    }
}

fn mp_mx(n: &MvField, k: usize, l: usize, ref_idx: i8, ri: &RefInfo, scaling: bool) -> (r: Option<
    Mv,
>)
    requires
        k < 2,
        l < 2,
    ensures
        r == from_list(*n, k as int, l as int, ref_idx, ri@, scaling),
{
    proof {
        reveal(from_list);
    }
    let bit: u8 = if k == 0 {
        1
    } else {
        2
    };
    if n.pred_flag & bit == 0 {
        return None;
    }
    let nb_poc = ri.poc_at(k, n.ref_idx[k]);
    let cur_poc = ri.poc_at(l, ref_idx);
    let v = vec_at(n, k);
    if !scaling {
        return if nb_poc == cur_poc {
            Some(v)
        } else {
            None
        };
    }
    let cur_long = ri.long_at(l, ref_idx);
    if cur_long != ri.long_at(k, n.ref_idx[k]) {
        return None;
    }
    if !cur_long && nb_poc != cur_poc {
        let d = ri.poc.wrapping_sub(nb_poc);
        let td: i32 = if d == 0 {
            1
        } else {
            d
        };
        Some(mv_scale(v, td, ri.poc.wrapping_sub(cur_poc)))
    } else {
        Some(v)
    }
}

/// The first of two that is there.
pub open spec fn or_else(a: Option<Mv>, b: Option<Mv>) -> Option<Mv> {
    match a {
        Some(v) => Some(v),
        None => b,
    }
}

/// The predictor that a neighbour gives: from the same list, or else from the other.
pub open spec fn from_cand(c: Option<MvField>, l: int, ref_idx: i8, ri: RefV, scaling: bool) -> Option<
    Mv,
> {
    match c {
        None => None,
        Some(n) => or_else(
            from_list(n, l, l, ref_idx, ri, scaling),
            from_list(n, 1 - l, l, ref_idx, ri, scaling),
        ),
    }
}

fn cand_pred(c: &Option<MvField>, l: usize, ref_idx: i8, ri: &RefInfo, scaling: bool) -> (r: Option<
    Mv,
>)
    requires
        l < 2,
    ensures
        r == from_cand(*c, l as int, ref_idx, ri@, scaling),
{
    match c {
        None => None,
        Some(n) => {
            let same = mp_mx(n, l, l, ref_idx, ri, scaling);
            if same.is_some() {
                same
            } else {
                mp_mx(n, 1 - l, l, ref_idx, ri, scaling)
            }
        },
    }
}

/// The predictor from the left side.
#[verifier::opaque]
pub open spec fn left_pred(a: Around, l: int, ref_idx: i8, ri: RefV, scaling: bool) -> Option<Mv> {
    or_else(
        from_cand(a.a0, l, ref_idx, ri, scaling),
        from_cand(a.a1, l, ref_idx, ri, scaling),
    )
}

fn find_left(a: &Around, l: usize, ref_idx: i8, ri: &RefInfo, scaling: bool) -> (r: Option<Mv>)
    requires
        l < 2,
    ensures
        r == left_pred(*a, l as int, ref_idx, ri@, scaling),
{
    proof {
        reveal(left_pred);
    }
    let p = cand_pred(&a.a0, l, ref_idx, ri, scaling);
    if p.is_some() {
        p
    } else {
        cand_pred(&a.a1, l, ref_idx, ri, scaling)
    }
}

/// The predictor from above.
#[verifier::opaque]
pub open spec fn up_pred(a: Around, l: int, ref_idx: i8, ri: RefV, scaling: bool) -> Option<Mv> {
    or_else(
        from_cand(a.b0, l, ref_idx, ri, scaling),
        or_else(
            from_cand(a.b1, l, ref_idx, ri, scaling),
            from_cand(a.b2, l, ref_idx, ri, scaling),
        ),
    )
}

fn find_up(a: &Around, l: usize, ref_idx: i8, ri: &RefInfo, scaling: bool) -> (r: Option<Mv>)
    requires
        l < 2,
    ensures
        r == up_pred(*a, l as int, ref_idx, ri@, scaling),
{
    proof {
        reveal(up_pred);
    }
    let p = cand_pred(&a.b0, l, ref_idx, ri, scaling);
    if p.is_some() {
        return p;
    }
    let p = cand_pred(&a.b1, l, ref_idx, ri, scaling);
    if p.is_some() {
        p
    } else {
        cand_pred(&a.b2, l, ref_idx, ri, scaling)
    }
}

/// The predictors from the left and from above. Without usable neighbours on the left, the one from
/// above takes their place and a scaled one from above comes second.
#[verifier::opaque]
pub open spec fn spatial_preds(a: Around, l: int, ref_idx: i8, ri: RefV) -> (
    Option<Mv>,
    Option<Mv>,
) {
    let up = up_pred(a, l, ref_idx, ri, false);
    if a.a0 is Some || a.a1 is Some {
        (
            or_else(left_pred(a, l, ref_idx, ri, false), left_pred(a, l, ref_idx, ri, true)),
            up,
        )
    } else {
        (up, up_pred(a, l, ref_idx, ri, true))
    }
}

fn find_spatial_preds(a: &Around, l: usize, ref_idx: i8, ri: &RefInfo) -> (r: (
    Option<Mv>,
    Option<Mv>,
))
    requires
        l < 2,
    ensures
        r == spatial_preds(*a, l as int, ref_idx, ri@),
{
    proof {
        reveal(spatial_preds);
    }
    let up = find_up(a, l, ref_idx, ri, false);
    if a.a0.is_some() || a.a1.is_some() {
        let plain = find_left(a, l, ref_idx, ri, false);
        let left = if plain.is_some() {
            plain
        } else {
            find_left(a, l, ref_idx, ri, true)
        };
        (left, up)
    } else {
        (up, find_up(a, l, ref_idx, ri, true))
    }
}

/// The list of predictors: from the left, from above where it differs, and the temporal one where
/// number `flag` is still missing.
#[verifier::opaque]
pub open spec fn pred_list(
    f: FrameV,
    g: Geo,
    t: Ctb,
    p: Pu,
    l: int,
    ref_idx: i8,
    sh: HeaderV,
    ri: RefV,
    flag: u32,
) -> Seq<Mv> {
    let (a, b) = spatial_preds(around(f, g, t, p), l, ref_idx, ri);
    let s = match a {
        Some(v) => seq![v],
        None => Seq::empty(),
    };
    let s = match b {
        Some(v) => if a == Some(v) {
            s
        } else {
            s.push(v)
        },
        None => s,
    };
    if s.len() < 2 && sh.slice_temporal_mvp_enabled && flag == s.len() {
        match temporal(g, p, ref_idx, l, ri, sh.inter.col_list) {
            Some(v) => s.push(v),
            None => s,
        }
    } else {
        s
    }
}

/// The vector predictor number `flag` of a block.
pub open spec fn predictor(
    f: FrameV,
    g: Geo,
    t: Ctb,
    p: Pu,
    l: int,
    ref_idx: i8,
    sh: HeaderV,
    ri: RefV,
    flag: u32,
) -> Mv {
    let s = pred_list(f, g, t, p, l, ref_idx, sh, ri, flag);
    if flag < s.len() {
        s[flag as int]
    } else {
        zero_mv()
    }
}

/// The vector predictor number `flag` of a block.
pub fn amvp_predictor(
    f: &Frame,
    g: &Geo,
    t: Ctb,
    p: Pu,
    l: usize,
    ref_idx: i8,
    sh: &SliceHeader,
    ri: &RefInfo,
    flag: u32,
) -> (v: Mv)
    requires
        g.wf(),
        f@.wf(*g),
        p.ok(*g),
        t.ok(p.x as int, p.y as int),
        ri@.wf(),
        l < 2,
    ensures
        v == predictor(f@, *g, t, p, l as int, ref_idx, sh@, ri@, flag),
{
    proof {
        reveal(pred_list);
    }
    let around_p = find_around(f, g, t, p);
    let (a, b) = find_spatial_preds(&around_p, l, ref_idx, ri);
    let mut s: Vec<Mv> = Vec::new();
    if let Some(v) = a {
        s.push(v);
        assert(s@ =~= seq![v]);
    } else {
        assert(s@ =~= Seq::<Mv>::empty());
    }
    if let Some(v) = b {
        let repeat = match a {
            Some(u) => u == v,
            None => false,
        };
        if !repeat {
            s.push(v);
        }
    }
    if s.len() < 2 && sh.slice_temporal_mvp_enabled && flag as usize == s.len() {
        if let Some(v) = temporal_luma_mv(g, p, ref_idx, l, ri, sh.collocated_list) {
            s.push(v);
        }
    }
    if (flag as usize) < s.len() {
        s[flag as usize]
    } else {
        Mv { x: 0, y: 0 }
    }
}

} // verus!
