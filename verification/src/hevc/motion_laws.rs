//! What merged and predicted motion is, in terms of what the picture holds around a block.

use super::frame::{FrameV, Geo, MvField, PF_BI, PF_INTRA, PF_L0};
use super::motion::{
    around, cand, combined, merge_around, merge_cand, merge_list, near, opt_repeats, same_region,
    short_vec, spatial, temporal, with_combined, with_temporal, with_zeros, z_avail, z_order, Ctb,
    MergePu, Pu,
};
use super::refs::RefV;
use super::slice_header::{HeaderV, SliceType};
use crate::motion::Mv;
use vstd::arithmetic::div_mod::{lemma_fundamental_div_mod, lemma_fundamental_div_mod_converse};
use vstd::arithmetic::power2::pow2;
use vstd::prelude::*;

verus! {

// ---------------------------------------------------------------------------
// Around a block

/// Where the motion of the sample at `x`, `y` is kept.
pub open spec fn kept_index(g: Geo, x: int, y: int) -> int {
    y / (g.min_pu as int) * g.pu_w + x / (g.min_pu as int)
}

/// The sample at `x`, `y` has motion in this picture.
pub open spec fn moves_at(f: FrameV, g: Geo, x: int, y: int) -> bool {
    &&& 0 <= x && 0 <= y
    &&& 0 <= kept_index(g, x, y) < f.mvf.len()
    &&& f.mvf[kept_index(g, x, y)].pred_flag != PF_INTRA
}

/// A block lies in one coding tree block.
pub open spec fn in_tree_block(g: Geo, p: Pu) -> bool {
    &&& p.ok(g)
    &&& p.x as int % (g.ctb as int) + p.w <= g.ctb
    &&& p.y as int % (g.ctb as int) + p.h <= g.ctb
}

/// There is something to the left of a block: the rest of its tree block, or one that can be used.
pub open spec fn left_open(g: Geo, t: Ctb, p: Pu) -> bool {
    p.x as int % (g.ctb as int) > 0 || t.left
}

/// There is something above a block.
pub open spec fn up_open(g: Geo, t: Ctb, p: Pu) -> bool {
    p.y as int % (g.ctb as int) > 0 || t.up
}

/// There is something at the upper left corner of a block: in the tree block that the sample there
/// belongs to.
pub open spec fn corner_open(g: Geo, t: Ctb, p: Pu) -> bool {
    let (xb, yb) = (p.x as int % (g.ctb as int), p.y as int % (g.ctb as int));
    if xb > 0 && yb > 0 {
        true
    } else if xb > 0 {
        t.up
    } else if yb > 0 {
        t.left
    } else {
        t.up_left
    }
}

/// Of two places in the same tree block, the one at `xn`, `yn` does not come later.
pub open spec fn no_later(g: Geo, xc: int, yc: int, xn: int, yn: int) -> bool {
    let (c, m) = (g.ctb as int, g.min_tb as int);
    z_order(xn % c / m, yn % c / m, c / m) <= z_order(xc % c / m, yc % c / m, c / m)
}

/// There is something to the right of the row above a block: in the picture, and decoded before. The
/// tree block to the right of the current one is not.
pub open spec fn up_right_open(g: Geo, t: Ctb, p: Pu) -> bool {
    let (xb, yb) = (p.x as int % (g.ctb as int), p.y as int % (g.ctb as int));
    &&& p.x + p.w < g.w
    &&& if yb == 0 {
        if xb + p.w < g.ctb {
            t.up
        } else {
            t.up_right
        }
    } else {
        xb + p.w < g.ctb && no_later(g, p.x as int, p.y as int, p.x + p.w, p.y - 1)
    }
}

/// There is something below the column to the left of a block: in the picture, in the same row of tree
/// blocks, and decoded before.
pub open spec fn below_left_open(g: Geo, t: Ctb, p: Pu) -> bool {
    let (xb, yb) = (p.x as int % (g.ctb as int), p.y as int % (g.ctb as int));
    &&& p.y + p.h < g.h
    &&& yb + p.h < g.ctb
    &&& if xb == 0 {
        t.left
    } else {
        no_later(g, p.x as int, p.y as int, p.x - 1, p.y + p.h)
    }
}

/// What a place offers that may be used.
pub open spec fn offer(f: FrameV, g: Geo, open_there: bool, x: int, y: int) -> Option<MvField> {
    if open_there && moves_at(f, g, x, y) {
        Some(f.mvf[kept_index(g, x, y)])
    } else {
        None
    }
}

/// A place whose motion, if it may be used, is kept.
pub open spec fn in_table(f: FrameV, g: Geo, open_there: bool, x: int, y: int) -> bool {
    open_there ==> 0 <= kept_index(g, x, y) < f.mvf.len()
}

/// All neighbours of a block that may be used are kept. In a picture of whole coding blocks they are.
pub open spec fn neighbours_kept(f: FrameV, g: Geo, t: Ctb, p: Pu) -> bool {
    &&& in_table(f, g, left_open(g, t, p), p.x - 1, p.y + p.h - 1)
    &&& in_table(f, g, up_open(g, t, p), p.x + p.w - 1, p.y - 1)
    &&& in_table(f, g, up_right_open(g, t, p), p.x + p.w, p.y - 1)
    &&& in_table(f, g, below_left_open(g, t, p), p.x - 1, p.y + p.h)
    &&& in_table(f, g, corner_open(g, t, p), p.x - 1, p.y - 1)
}

/// Whole tree blocks before a place, and how far it is into the next.
pub proof fn lemma_step(c: int, x: int, d: int)
    requires
        0 < c,
        0 <= x,
        0 <= d <= c,
        x % c + d <= c,
    ensures
        x % c + d < c ==> (x + d) / c == x / c,
        x % c + d == c ==> (x + d) / c == x / c + 1,
        x % c == 0 && x > 0 ==> (x - 1) / c == x / c - 1,
        x % c > 0 ==> (x - 1) / c == x / c,
{
    lemma_fundamental_div_mod(x, c);
    let q = x / c;
    let r = x % c;
    assert((q + 1) * c == c * q + c && (q - 1) * c == c * q - c && q * c == c * q)
        by (nonlinear_arith);
    if r + d < c {
        lemma_fundamental_div_mod_converse(x + d, c, q, r + d);
    } else {
        lemma_fundamental_div_mod_converse(x + d, c, q + 1, 0);
    }
    if r > 0 {
        lemma_fundamental_div_mod_converse(x - 1, c, q, r - 1);
    } else if x > 0 {
        lemma_fundamental_div_mod_converse(x - 1, c, q - 1, c - 1);
    }
}

/// The candidates around a block are what the five places at its corners offer: those to the left of
/// its last row and above its last column, and the three diagonal ones.
pub proof fn law_neighbours(f: FrameV, g: Geo, t: Ctb, p: Pu)
    requires
        g.wf(),
        f.wf(g),
        in_tree_block(g, p),
        t.ok(p.x as int, p.y as int),
        neighbours_kept(f, g, t, p),
    ensures
        ({
            let a = around(f, g, t, p);
            &&& a.a1 == offer(f, g, left_open(g, t, p), p.x - 1, p.y + p.h - 1)
            &&& a.b1 == offer(f, g, up_open(g, t, p), p.x + p.w - 1, p.y - 1)
            &&& a.b0 == offer(f, g, up_right_open(g, t, p), p.x + p.w, p.y - 1)
            &&& a.a0 == offer(f, g, below_left_open(g, t, p), p.x - 1, p.y + p.h)
            &&& a.b2 == offer(f, g, corner_open(g, t, p), p.x - 1, p.y - 1)
        }),
{
    reveal(around);
    reveal(near);
    reveal(cand);
    reveal(z_avail);
    reveal(FrameV::mvf_at);
    let (c, x, y) = (g.ctb as int, p.x as int, p.y as int);
    lemma_step(c, x, p.w as int);
    lemma_step(c, y, p.h as int);
    lemma_fundamental_div_mod(x, c);
    lemma_fundamental_div_mod(y, c);
    assert(c * (y / c) == y / c * c) by (nonlinear_arith);
    vstd::arithmetic::div_mod::lemma_small_mod(0, c as nat);
}

// ---------------------------------------------------------------------------
// Merging

/// Two places lie in the same square of `2^level` samples.
pub open spec fn merged_together(level: u32, x1: int, y1: int, x2: int, y2: int) -> bool {
    let n = pow2(level as nat) as int;
    x1 / n == x2 / n && y1 / n == y2 / n
}

/// Two blocks move alike: they use the same lists, and in these the same references and vectors.
pub open spec fn moves_alike(a: MvField, b: MvField) -> bool {
    let in_list = |l: int|
        a.ref_idx[l] == b.ref_idx[l] && a.mv[l][0] == b.mv[l][0] && a.mv[l][1] == b.mv[l][1];
    &&& a.pred_flag == b.pred_flag
    &&& a.pred_flag == 1 || a.pred_flag == 2 || a.pred_flag == 3
    &&& a.pred_flag != 2 ==> in_list(0)
    &&& a.pred_flag != 1 ==> in_list(1)
}

/// Both places offer the same.
pub open spec fn both_alike(a: Option<MvField>, b: Option<MvField>) -> bool {
    a is Some && b is Some && moves_alike(a->0, b->0)
}

/// What a place offers to merge with: nothing where it is merged in parallel.
pub open spec fn merge_offer(
    f: FrameV,
    g: Geo,
    m: MergePu,
    open_there: bool,
    x: int,
    y: int,
) -> Option<MvField> {
    if open_there && merged_together(m.level, x, y, m.p.x as int, m.p.y as int) {
        None
    } else {
        offer(f, g, open_there, x, y)
    }
}

/// What is to the left of the last row. The right one of two halves does not merge with the left.
pub open spec fn left_offer(f: FrameV, g: Geo, t: Ctb, m: MergePu) -> Option<MvField> {
    let p = m.p;
    merge_offer(f, g, m, left_open(g, t, p) && !m.second_right, p.x - 1, p.y + p.h - 1)
}

/// What is above the last column. The lower one of two halves does not merge with the upper.
pub open spec fn up_offer(f: FrameV, g: Geo, t: Ctb, m: MergePu) -> Option<MvField> {
    let p = m.p;
    merge_offer(f, g, m, up_open(g, t, p) && !m.second_below, p.x + p.w - 1, p.y - 1)
}

/// What is above right.
pub open spec fn up_right_offer(f: FrameV, g: Geo, t: Ctb, m: MergePu) -> Option<MvField> {
    let p = m.p;
    merge_offer(f, g, m, up_right_open(g, t, p), p.x + p.w, p.y - 1)
}

/// What is below left.
pub open spec fn below_left_offer(f: FrameV, g: Geo, t: Ctb, m: MergePu) -> Option<MvField> {
    let p = m.p;
    merge_offer(f, g, m, below_left_open(g, t, p), p.x - 1, p.y + p.h)
}

/// What is above left.
pub open spec fn corner_offer(f: FrameV, g: Geo, t: Ctb, m: MergePu) -> Option<MvField> {
    let p = m.p;
    merge_offer(f, g, m, corner_open(g, t, p), p.x - 1, p.y - 1)
}

/// 1 for a candidate that counts.
pub open spec fn counts(b: bool) -> int {
    if b {
        1
    } else {
        0
    }
}

/// A merged block on its place, with the motion around it kept.
pub open spec fn merge_place(f: FrameV, g: Geo, t: Ctb, m: MergePu) -> bool {
    &&& g.wf()
    &&& f.wf(g)
    &&& in_tree_block(g, m.p)
    &&& t.ok(m.p.x as int, m.p.y as int)
    &&& neighbours_kept(f, g, t, m.p)
    &&& m.level <= 30
}

proof fn lemma_shifted(level: u32, x: i32)
    requires
        level <= 30,
        0 <= x,
    ensures
        x.wrapping_shr(level) == x as int / (pow2(level as nat) as int),
{
    let u = x as u32;
    vstd::bits::lemma_u32_shr_is_div(u, level);
    assert((x >> level) == (u >> level) as i32) by (bit_vector)
        requires
            0 <= x,
            level <= 30,
            u == x as u32,
    ;
    assert(u >> level <= u) by (bit_vector);
}

proof fn lemma_region(level: u32, x1: int, y1: int, x2: int, y2: int)
    requires
        level <= 30,
        0 <= x1 <= i32::MAX,
        0 <= y1 <= i32::MAX,
        0 <= x2 <= i32::MAX,
        0 <= y2 <= i32::MAX,
    ensures
        same_region(level, x1, y1, x2, y2) == merged_together(level, x1, y1, x2, y2),
{
    lemma_shifted(level, x1 as i32);
    lemma_shifted(level, y1 as i32);
    lemma_shifted(level, x2 as i32);
    lemma_shifted(level, y2 as i32);
}

proof fn lemma_merge_around(f: FrameV, g: Geo, t: Ctb, m: MergePu)
    requires
        merge_place(f, g, t, m),
    ensures
        ({
            let a = merge_around(around(f, g, t, m.p), m);
            &&& a.a1 == left_offer(f, g, t, m)
            &&& a.b1 == up_offer(f, g, t, m)
            &&& a.b0 == up_right_offer(f, g, t, m)
            &&& a.a0 == below_left_offer(f, g, t, m)
            &&& a.b2 == corner_offer(f, g, t, m)
        }),
{
    let p = m.p;
    law_neighbours(f, g, t, p);
    reveal(merge_around);
    vstd::arithmetic::div_mod::lemma_small_mod(0, g.ctb as nat);
    let (x, y) = (p.x as int, p.y as int);
    if left_open(g, t, p) {
        lemma_region(m.level, x - 1, y + p.h - 1, x, y);
    }
    if up_open(g, t, p) {
        lemma_region(m.level, x + p.w - 1, y - 1, x, y);
    }
    if up_right_open(g, t, p) {
        lemma_region(m.level, x + p.w, y - 1, x, y);
    }
    if below_left_open(g, t, p) {
        lemma_region(m.level, x - 1, y + p.h, x, y);
    }
    if corner_open(g, t, p) {
        lemma_region(m.level, x - 1, y - 1, x, y);
    }
}

proof fn lemma_alike(a: Option<MvField>, b: Option<MvField>)
    ensures
        opt_repeats(a, b) == both_alike(a, b),
{
}

/// What is appended stays behind what was there.
proof fn lemma_combined_extends(l: Seq<MvField>, n: int, ri: RefV, max: int, i: int)
    requires
        0 <= i,
    ensures
        l.len() <= with_combined(l, n, ri, max, i).len(),
        forall|k: int| 0 <= k < l.len() ==> with_combined(l, n, ri, max, i)[k] == l[k],
    decreases n * (n - 1) - i,
{
    if l.len() >= max || i >= n * (n - 1) {
    } else {
        let (a, b) = super::motion::pair(i);
        match combined(l[a], l[b], ri) {
            Some(m) => {
                lemma_combined_extends(l.push(m), n, ri, max, i + 1);
                assert forall|k: int| 0 <= k < l.len() implies with_combined(l, n, ri, max, i)[k]
                    == l[k] by {
                    assert(l.push(m)[k] == l[k]);
                }
            },
            None => lemma_combined_extends(l, n, ri, max, i + 1),
        }
    }
}

proof fn lemma_zeros_extend(l: Seq<MvField>, is_b: bool, nb_refs: u32, max: int, i: int)
    ensures
        l.len() <= with_zeros(l, is_b, nb_refs, max, i).len(),
        forall|k: int| 0 <= k < l.len() ==> with_zeros(l, is_b, nb_refs, max, i)[k] == l[k],
        l.len() <= max ==> with_zeros(l, is_b, nb_refs, max, i).len() == max,
        forall|k: int|
            l.len() <= k < max ==> with_zeros(l, is_b, nb_refs, max, i)[k]
                == super::motion::zero_cand(is_b, nb_refs, i + k - l.len()),
    decreases max - l.len(),
{
    if l.len() < max {
        let z = super::motion::zero_cand(is_b, nb_refs, i);
        lemma_zeros_extend(l.push(z), is_b, nb_refs, max, i + 1);
        assert forall|k: int| 0 <= k < l.len() implies with_zeros(l, is_b, nb_refs, max, i)[k]
            == l[k] by {
            assert(l.push(z)[k] == l[k]);
        }
        assert forall|k: int| l.len() <= k < max implies with_zeros(l, is_b, nb_refs, max, i)[k]
            == super::motion::zero_cand(is_b, nb_refs, i + k - l.len()) by {
            if k == l.len() {
                assert(l.push(z)[k] == z);
            } else {
                assert(i + 1 + k - l.push(z).len() == i + k - l.len());
            }
        }
    }
}

proof fn lemma_spatial_first(f: FrameV, g: Geo, t: Ctb, m: MergePu, sh: HeaderV, ri: RefV)
    ensures
        ({
            let l = spatial(merge_around(around(f, g, t, m.p), m));
            forall|k: int|
                0 <= k < l.len() ==> #[trigger] merge_cand(f, g, t, m, sh, ri, k) == l[k]
        }),
{
    reveal(merge_list);
    reveal(with_temporal);
    let is_b = sh.slice_type == Some(SliceType::B);
    let max = sh.inter.merge_cand as int;
    let l = spatial(merge_around(around(f, g, t, m.p), m));
    let l1 = with_temporal(l, g, m.p, sh, ri);
    assert(forall|k: int| 0 <= k < l.len() ==> l1[k] == l[k]);
    let l2 = if is_b && l1.len() > 1 && l1.len() < max {
        with_combined(l1, l1.len() as int, ri, max, 0)
    } else {
        l1
    };
    lemma_combined_extends(l1, l1.len() as int, ri, max, 0);
    lemma_zeros_extend(l2, is_b, super::motion::zero_refs(sh), max, 0);
}

/// The spatial merge candidates come in the order left, above, above right, below left, above left. A
/// place offers none that moves like its neighbour in the row or column (above and below left: like
/// the one to the left; above right: like the one above; above left: like either), and the one above
/// left is a candidate only where one of the others is not.
pub proof fn law_spatial_merge_candidates(
    f: FrameV,
    g: Geo,
    t: Ctb,
    m: MergePu,
    sh: HeaderV,
    ri: RefV,
)
    requires
        merge_place(f, g, t, m),
    ensures
        ({
            let (a1, b1) = (left_offer(f, g, t, m), up_offer(f, g, t, m));
            let (b0, a0) = (up_right_offer(f, g, t, m), below_left_offer(f, g, t, m));
            let b2 = corner_offer(f, g, t, m);
            let has_b1 = b1 is Some && !both_alike(b1, a1);
            let has_b0 = b0 is Some && !both_alike(b0, b1);
            let has_a0 = a0 is Some && !both_alike(a0, a1);
            let n1 = counts(a1 is Some);
            let n2 = n1 + counts(has_b1);
            let n3 = n2 + counts(has_b0);
            let n4 = n3 + counts(has_a0);
            let c = |k: int| merge_cand(f, g, t, m, sh, ri, k);
            &&& a1 is Some ==> c(0) == a1->0
            &&& has_b1 ==> c(n1) == b1->0
            &&& has_b0 ==> c(n2) == b0->0
            &&& has_a0 ==> c(n3) == a0->0
            &&& b2 is Some && !both_alike(b2, a1) && !both_alike(b2, b1) && n4 < 4 ==> c(n4)
                == b2->0
        }),
{
    let a = merge_around(around(f, g, t, m.p), m);
    lemma_merge_around(f, g, t, m);
    lemma_spatial_first(f, g, t, m, sh, ri);
    reveal(spatial);
    lemma_alike(a.b1, a.a1);
    lemma_alike(a.b0, a.b1);
    lemma_alike(a.a0, a.a1);
    lemma_alike(a.b2, a.a1);
    lemma_alike(a.b2, a.b1);
}

/// The first merge candidate is the motion to the left of the last row, where there is some that may
/// be merged with, whatever the other neighbours hold. Where the motion above the last column differs
/// from it, that is the second.
pub proof fn law_left_is_merged_first(
    f: FrameV,
    g: Geo,
    t: Ctb,
    m: MergePu,
    sh: HeaderV,
    ri: RefV,
)
    requires
        merge_place(f, g, t, m),
        left_open(g, t, m.p),
        !m.second_right,
        moves_at(f, g, m.p.x - 1, m.p.y + m.p.h - 1),
        !merged_together(
            m.level,
            m.p.x - 1,
            m.p.y + m.p.h - 1,
            m.p.x as int,
            m.p.y as int,
        ),
    ensures
        ({
            let p = m.p;
            let left = f.mvf[kept_index(g, p.x - 1, p.y + p.h - 1)];
            let up = f.mvf[kept_index(g, p.x + p.w - 1, p.y - 1)];
            &&& merge_cand(f, g, t, m, sh, ri, 0) == left
            &&& up_open(g, t, p) && !m.second_below && moves_at(f, g, p.x + p.w - 1, p.y - 1)
                && !merged_together(m.level, p.x + p.w - 1, p.y - 1, p.x as int, p.y as int)
                && !moves_alike(up, left) ==> merge_cand(f, g, t, m, sh, ri, 1) == up
        }),
{
    law_spatial_merge_candidates(f, g, t, m, sh, ri);
}

/// How many spatial merge candidates a block has.
pub open spec fn spatial_count(f: FrameV, g: Geo, t: Ctb, m: MergePu) -> int {
    let (a1, b1) = (left_offer(f, g, t, m), up_offer(f, g, t, m));
    let (b0, a0) = (up_right_offer(f, g, t, m), below_left_offer(f, g, t, m));
    let b2 = corner_offer(f, g, t, m);
    let n = counts(a1 is Some) + counts(b1 is Some && !both_alike(b1, a1)) + counts(
        b0 is Some && !both_alike(b0, b1),
    ) + counts(a0 is Some && !both_alike(a0, a1));
    n + counts(n < 4 && b2 is Some && !both_alike(b2, a1) && !both_alike(b2, b1))
}

proof fn lemma_spatial_count(f: FrameV, g: Geo, t: Ctb, m: MergePu)
    requires
        merge_place(f, g, t, m),
    ensures
        spatial(merge_around(around(f, g, t, m.p), m)).len() == spatial_count(f, g, t, m),
{
    let a = merge_around(around(f, g, t, m.p), m);
    lemma_merge_around(f, g, t, m);
    reveal(spatial);
    lemma_alike(a.b1, a.a1);
    lemma_alike(a.b0, a.b1);
    lemma_alike(a.a0, a.a1);
    lemma_alike(a.b2, a.a1);
    lemma_alike(a.b2, a.b1);
}

/// In a P slice the temporal candidate comes behind the spatial ones, with the first reference, and
/// then candidates stand still, with one reference after the other, until there are as many as the
/// slice allows.
pub proof fn law_p_merge_candidates_behind_spatial(
    f: FrameV,
    g: Geo,
    t: Ctb,
    m: MergePu,
    sh: HeaderV,
    ri: RefV,
    k: int,
)
    requires
        merge_place(f, g, t, m),
        sh.slice_type == Some(SliceType::P),
        spatial_count(f, g, t, m) <= k < sh.inter.merge_cand <= 5,
    ensures
        ({
            let n = spatial_count(f, g, t, m);
            let v = if sh.slice_temporal_mvp_enabled {
                temporal(g, m.p, 0, 0, ri, sh.inter.col_list)
            } else {
                None
            };
            let c = merge_cand(f, g, t, m, sh, ri, k);
            let still = k - n - counts(v is Some);
            &&& c.pred_flag == PF_L0
            &&& v is Some && k == n ==> c.ref_idx[0] == 0 && c.mv[0] == short_vec(v->0)
            &&& still >= 0 ==> c.mv[0][0] == 0 && c.mv[0][1] == 0
            &&& still >= 0 ==> c.ref_idx[0] == if still < sh.inter.nb0 {
                still
            } else {
                0
            }
        }),
{
    reveal(merge_list);
    reveal(with_temporal);
    lemma_spatial_count(f, g, t, m);
    let max = sh.inter.merge_cand as int;
    let l = spatial(merge_around(around(f, g, t, m.p), m));
    let l1 = with_temporal(l, g, m.p, sh, ri);
    let z = with_zeros(l1, false, super::motion::zero_refs(sh), max, 0);
    lemma_zeros_extend(l1, false, super::motion::zero_refs(sh), max, 0);
    assert(merge_cand(f, g, t, m, sh, ri, k) == z[k]);
    if k < l1.len() {
        assert(z[k] == l1[k]);
    } else {
        assert(z[k] == super::motion::zero_cand(
            false,
            super::motion::zero_refs(sh),
            k - l1.len(),
        ));
    }
}

/// What the collocated picture gives to both lists of a block in a B slice, where there is room for it.
pub open spec fn collocated_offers(
    f: FrameV,
    g: Geo,
    t: Ctb,
    m: MergePu,
    sh: HeaderV,
    ri: RefV,
) -> (Option<Mv>, Option<Mv>) {
    if sh.slice_temporal_mvp_enabled && spatial_count(f, g, t, m) < sh.inter.merge_cand {
        (
            temporal(g, m.p, 0, 0, ri, sh.inter.col_list),
            temporal(g, m.p, 0, 1, ri, sh.inter.col_list),
        )
    } else {
        (None, None)
    }
}

/// How many spatial and temporal candidates a block of a B slice has.
pub open spec fn found_count(
    f: FrameV,
    g: Geo,
    t: Ctb,
    m: MergePu,
    sh: HeaderV,
    ri: RefV,
) -> int {
    let (t0, t1) = collocated_offers(f, g, t, m, sh, ri);
    spatial_count(f, g, t, m) + counts(t0 is Some || t1 is Some)
}

proof fn lemma_found(f: FrameV, g: Geo, t: Ctb, m: MergePu, sh: HeaderV, ri: RefV)
    requires
        merge_place(f, g, t, m),
        sh.slice_type == Some(SliceType::B),
    ensures
        ({
            let l = with_temporal(
                spatial(merge_around(around(f, g, t, m.p), m)),
                g,
                m.p,
                sh,
                ri,
            );
            &&& l.len() == found_count(f, g, t, m, sh, ri)
            &&& forall|k: int|
                0 <= k < l.len() ==> #[trigger] merge_cand(f, g, t, m, sh, ri, k) == l[k]
        }),
{
    reveal(merge_list);
    reveal(with_temporal);
    lemma_spatial_count(f, g, t, m);
    let max = sh.inter.merge_cand as int;
    let l = with_temporal(spatial(merge_around(around(f, g, t, m.p), m)), g, m.p, sh, ri);
    let l2 = if l.len() > 1 && l.len() < max {
        with_combined(l, l.len() as int, ri, max, 0)
    } else {
        l
    };
    lemma_combined_extends(l, l.len() as int, ri, max, 0);
    lemma_zeros_extend(l2, true, super::motion::zero_refs(sh), max, 0);
}

/// In a B slice the temporal candidate comes behind the spatial ones, with the first reference of each list for
/// which the collocated picture gives something.
pub proof fn law_b_temporal_candidate(
    f: FrameV,
    g: Geo,
    t: Ctb,
    m: MergePu,
    sh: HeaderV,
    ri: RefV,
)
    requires
        merge_place(f, g, t, m),
        sh.slice_type == Some(SliceType::B),
    ensures
        ({
            let (t0, t1) = collocated_offers(f, g, t, m, sh, ri);
            let c = merge_cand(f, g, t, m, sh, ri, spatial_count(f, g, t, m));
            t0 is Some || t1 is Some ==> {
                &&& c.pred_flag == counts(t0 is Some) + 2 * counts(t1 is Some)
                &&& c.ref_idx[0] == 0 && c.ref_idx[1] == 0
                &&& t0 is Some ==> c.mv[0] == short_vec(t0->0)
                &&& t1 is Some ==> c.mv[1] == short_vec(t1->0)
            }
        }),
{
    lemma_found(f, g, t, m, sh, ri);
    reveal(with_temporal);
    lemma_spatial_count(f, g, t, m);
}

/// The order in which pairs of candidates are combined: earlier candidates first, and of a pair the
/// earlier one first gives list 0.
pub open spec fn pair_order() -> Seq<(int, int)> {
    seq![
        (0, 1),
        (1, 0),
        (0, 2),
        (2, 0),
        (1, 2),
        (2, 1),
        (0, 3),
        (3, 0),
        (1, 3),
        (3, 1),
        (2, 3),
        (3, 2),
    ]
}

/// List 0 of one candidate goes with list 1 of another: both are in use, and they are not the same
/// vector to the same picture.
pub open spec fn go_together(a: MvField, b: MvField, ri: RefV) -> bool {
    &&& a.pred_flag == 1 || a.pred_flag == 3
    &&& b.pred_flag == 2 || b.pred_flag == 3
    &&& !(a.mv[0][0] == b.mv[1][0] && a.mv[0][1] == b.mv[1][1] && ri.lists.ref_poc(0, a.ref_idx[0])
        == ri.lists.ref_poc(1, b.ref_idx[1]))
}

/// Candidates use list 0, list 1 or both.
pub open spec fn proper(m: MvField) -> bool {
    1 <= m.pred_flag <= 3
}

proof fn lemma_go_together(a: MvField, b: MvField, ri: RefV)
    requires
        proper(a),
        proper(b),
    ensures
        combined(a, b, ri) is Some <==> go_together(a, b, ri),
        combined(a, b, ri) is Some ==> (combined(a, b, ri)->0).mv == [a.mv[0], b.mv[1]] && (
        combined(a, b, ri)->0).ref_idx == [a.ref_idx[0], b.ref_idx[1]] && (combined(
            a,
            b,
            ri,
        )->0).pred_flag == 3,
{
    reveal(combined);
    let (x, y) = (a.pred_flag, b.pred_flag);
    assert((x & 1 != 0) == (x == 1 || x == 3)) by (bit_vector)
        requires
            1 <= x <= 3,
    ;
    assert((y & 2 != 0) == (y == 2 || y == 3)) by (bit_vector)
        requires
            1 <= y <= 3,
    ;
}

proof fn lemma_first_pair(l: Seq<MvField>, n: int, ri: RefV, max: int, i: int, k: int)
    requires
        2 <= n <= 4,
        n == l.len() < max,
        0 <= i <= k < n * (n - 1),
        forall|j: int| 0 <= j < n ==> proper(#[trigger] l[j]),
        go_together(l[pair_order()[k].0], l[pair_order()[k].1], ri),
        forall|j: int|
            0 <= j < k ==> !go_together(
                l[(#[trigger] pair_order()[j]).0],
                l[pair_order()[j].1],
                ri,
            ),
    ensures
        ({
            let r = with_combined(l, n, ri, max, i);
            let (a, b) = (l[pair_order()[k].0], l[pair_order()[k].1]);
            &&& r.len() > n
            &&& r[n].mv == [a.mv[0], b.mv[1]]
            &&& r[n].ref_idx == [a.ref_idx[0], b.ref_idx[1]]
            &&& r[n].pred_flag == 3
        }),
    decreases k - i,
{
    assert(n == 2 ==> n * (n - 1) == 2) by (nonlinear_arith);
    assert(n == 3 ==> n * (n - 1) == 6) by (nonlinear_arith);
    assert(n == 4 ==> n * (n - 1) == 12) by (nonlinear_arith);
    let (a, b) = pair_order()[i];
    assert(super::motion::pair(i) == (a, b));
    assert(0 <= a < n && 0 <= b < n);
    lemma_go_together(l[a], l[b], ri);
    if i < k {
        assert(!go_together(l[pair_order()[i].0], l[pair_order()[i].1], ri));
        lemma_first_pair(l, n, ri, max, i + 1, k);
    } else {
        let c = combined(l[a], l[b], ri)->0;
        lemma_combined_extends(l.push(c), n, ri, max, i + 1);
        assert(l.push(c)[n] == c);
    }
}

/// In a B slice where two to four candidates are found, and there is room for more, the next candidate
/// combines list 0 of one with list 1 of another: the first pair, in the order of
/// pairs, whose parts go together.
pub proof fn law_candidates_are_combined(
    f: FrameV,
    g: Geo,
    t: Ctb,
    m: MergePu,
    sh: HeaderV,
    ri: RefV,
    k: int,
)
    requires
        merge_place(f, g, t, m),
        sh.slice_type == Some(SliceType::B),
        2 <= found_count(f, g, t, m, sh, ri) <= 4,
        found_count(f, g, t, m, sh, ri) < sh.inter.merge_cand <= 5,
        0 <= k < found_count(f, g, t, m, sh, ri) * (found_count(f, g, t, m, sh, ri) - 1),
        forall|j: int|
            0 <= j < found_count(f, g, t, m, sh, ri) ==> proper(
                #[trigger] merge_cand(f, g, t, m, sh, ri, j),
            ),
        go_together(
            merge_cand(f, g, t, m, sh, ri, pair_order()[k].0),
            merge_cand(f, g, t, m, sh, ri, pair_order()[k].1),
            ri,
        ),
        forall|j: int|
            0 <= j < k ==> !go_together(
                merge_cand(f, g, t, m, sh, ri, (#[trigger] pair_order()[j]).0),
                merge_cand(f, g, t, m, sh, ri, pair_order()[j].1),
                ri,
            ),
    ensures
        ({
            let a = merge_cand(f, g, t, m, sh, ri, pair_order()[k].0);
            let b = merge_cand(f, g, t, m, sh, ri, pair_order()[k].1);
            let c = merge_cand(f, g, t, m, sh, ri, found_count(f, g, t, m, sh, ri));
            &&& c.pred_flag == PF_BI
            &&& c.mv == [a.mv[0], b.mv[1]]
            &&& c.ref_idx == [a.ref_idx[0], b.ref_idx[1]]
        }),
{
    reveal(merge_list);
    lemma_found(f, g, t, m, sh, ri);
    let max = sh.inter.merge_cand as int;
    let l = with_temporal(spatial(merge_around(around(f, g, t, m.p), m)), g, m.p, sh, ri);
    let n = l.len() as int;
    assert(n == 2 ==> n * (n - 1) == 2) by (nonlinear_arith);
    assert(n == 3 ==> n * (n - 1) == 6) by (nonlinear_arith);
    assert(n == 4 ==> n * (n - 1) == 12) by (nonlinear_arith);
    assert forall|j: int| 0 <= j < n implies proper(#[trigger] l[j]) by {
        assert(proper(merge_cand(f, g, t, m, sh, ri, j)));
    }
    assert forall|j: int| 0 <= j < k implies !go_together(
        l[(#[trigger] pair_order()[j]).0],
        l[pair_order()[j].1],
        ri,
    ) by {
        assert(!go_together(
            merge_cand(f, g, t, m, sh, ri, pair_order()[j].0),
            merge_cand(f, g, t, m, sh, ri, pair_order()[j].1),
            ri,
        ));
    }
    lemma_first_pair(l, n, ri, max, 0, k);
    lemma_zeros_extend(
        with_combined(l, n, ri, max, 0),
        true,
        super::motion::zero_refs(sh),
        max,
        0,
    );
}

/// In a B slice with less than two other candidates, the rest stand still in both lists, with one
/// reference after the other that both lists have.
pub proof fn law_b_merge_candidates_without_neighbours(
    f: FrameV,
    g: Geo,
    t: Ctb,
    m: MergePu,
    sh: HeaderV,
    ri: RefV,
    k: int,
)
    requires
        merge_place(f, g, t, m),
        sh.slice_type == Some(SliceType::B),
        found_count(f, g, t, m, sh, ri) < 2,
        found_count(f, g, t, m, sh, ri) <= k < sh.inter.merge_cand <= 5,
    ensures
        ({
            let c = merge_cand(f, g, t, m, sh, ri, k);
            let still = k - found_count(f, g, t, m, sh, ri);
            let r = if still < sh.inter.nb0 && still < sh.inter.nb1 {
                still
            } else {
                0
            };
            &&& c.pred_flag == PF_BI
            &&& c.mv == [[0i16, 0i16], [0i16, 0i16]]
            &&& c.ref_idx[0] == r && c.ref_idx[1] == r
        }),
{
    reveal(merge_list);
    lemma_found(f, g, t, m, sh, ri);
    let l = with_temporal(spatial(merge_around(around(f, g, t, m.p), m)), g, m.p, sh, ri);
    lemma_zeros_extend(l, true, super::motion::zero_refs(sh), sh.inter.merge_cand as int, 0);
}

} // verus!
