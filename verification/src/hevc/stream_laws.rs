//! What the rows, reference lists and kept pictures of a stream are.

use super::contexts::{initial, Bins};
use super::env::EnvV;
use super::export::{
    block_step, exported, grown, joins, list_row, max_side, rect_rows, row_joins, run_down,
    run_right, ExportV,
};
use super::frame::{geo_of, FrameV, Geo, MvField};
use super::nal::NalView;
use super::params::{Pps, RpsV, SpsV};
use super::refs::{FrameMvV, RefV};
use super::slice::{ctb_at, ctbs_from, decoded};
use super::slice_header::HeaderV;
use super::stream::{col_number, earlier, find_frame, later, near_slot, pocs, ref_lists, StreamV};
use crate::cabac::Engine;
use crate::motion::MvCompact;
use crate::refs::cycled;
use vstd::prelude::*;

verus! {

// ---------------------------------------------------------------------------
// Rows

/// A row of a list of a rectangle whose centre is at `x`, `y`: from the centre to where a quarter of the
/// vector leads, rounded down. The source counts references from 1, those of list 0 as negative
/// numbers.
pub open spec fn is_row(r: MvCompact, frame: i32, m: MvField, l: int, x: int, y: int) -> bool {
    let (dx, dy) = (m.mv[l][0] as int, m.mv[l][1] as int);
    &&& r.frame == frame
    &&& r.source == if l == 0 {
        -1 - m.ref_idx[0]
    } else {
        1 + m.ref_idx[1]
    }
    &&& 0 <= x < 0x4000 ==> r.src_x == x && 4 * (r.dst_x - x) <= dx < 4 * (r.dst_x - x) + 4
    &&& 0 <= y < 0x4000 ==> r.src_y == y && 4 * (r.dst_y - y) <= dy < 4 * (r.dst_y - y) + 4
}

/// A list is in use and moves by a sample or more.
pub open spec fn shows(m: MvField, l: int) -> bool {
    &&& m.pred_flag == 3 || m.pred_flag == l + 1
    &&& !(0 <= m.mv[l][0] < 4 && 0 <= m.mv[l][1] < 4)
}

proof fn lemma_list_row(frame: i32, m: MvField, l: int, x: int, y: int)
    requires
        0 <= l < 2,
        1 <= m.pred_flag <= 3,
        -128 < m.ref_idx[0] < 127,
        -128 < m.ref_idx[1] < 127,
    ensures
        list_row(frame, m, l, x, y) is Some <==> shows(m, l),
        list_row(frame, m, l, x, y) matches Some(r) ==> is_row(r, frame, m, l, x, y),
{
    reveal(list_row);
    let f = m.pred_flag;
    assert((f & 1 != 0) == (f == 1 || f == 3) && (f & 2 != 0) == (f == 2 || f == 3))
        by (bit_vector)
        requires
            f <= 3,
    ;
}

/// A block that has not been exported gives, with the rectangle that grows from it, a row for each list
/// that shows, list 0 first, and nothing else.
pub proof fn law_rows_of_a_rectangle(s: ExportV, tab: Seq<MvField>, g: Geo, frame: i32, i: int)
    requires
        g.wf(),
        g.min_pu <= 255,
        tab.len() == g.pu_w * g.pu_h,
        s.seen.len() == tab.len(),
        0 <= i < tab.len(),
        !s.seen[i],
        1 <= tab[i].pred_flag <= 3,
        -128 < tab[i].ref_idx[0] < 127,
        -128 < tab[i].ref_idx[1] < 127,
    ensures
        ({
            let r = block_step(s, tab, g, frame, i);
            let (w, h) = grown(s, tab, g, i);
            let u = g.min_pu as int;
            let (x, y) = (
                i % (g.pu_w as int) * u + w * u / 2,
                i / (g.pu_w as int) * u + h * u / 2,
            );
            let (m, n) = (tab[i], s.out.len());
            let first = if shows(m, 0) {
                1int
            } else {
                0int
            };
            let both = first + if shows(m, 1) {
                1int
            } else {
                0int
            };
            &&& r.out.len() == n + both
            &&& r.out.take(n as int) == s.out
            &&& shows(m, 0) ==> is_row(r.out[n as int], frame, m, 0, x, y)
            &&& shows(m, 1) ==> is_row(r.out[n + first], frame, m, 1, x, y)
        }),
{
    reveal(block_step);
    reveal(rect_rows);
    let m = tab[i];
    let f = m.pred_flag;
    assert(f & 3 != 0) by (bit_vector)
        requires
            1 <= f <= 3,
    ;
    let (w, h) = grown(s, tab, g, i);
    let u = g.min_pu as int;
    let (x, y) = (i % (g.pu_w as int) * u + w * u / 2, i / (g.pu_w as int) * u + h * u / 2);
    lemma_list_row(frame, m, 0, x, y);
    lemma_list_row(frame, m, 1, x, y);
    let r = block_step(s, tab, g, frame, i);
    assert(r.out.take(s.out.len() as int) =~= s.out);
}

proof fn lemma_right_is_full(
    tab: Seq<MvField>,
    seen: Seq<bool>,
    i: int,
    m: MvField,
    w: int,
    room: int,
    max: int,
)
    requires
        1 <= w,
    ensures
        ({
            let r = run_right(tab, seen, i, m, w, room, max);
            r >= w && (r >= room || r >= max || !joins(tab, seen, i + r, m))
        }),
    decreases max - w,
{
    if w < max && w < room && joins(tab, seen, i + w, m) {
        lemma_right_is_full(tab, seen, i, m, w + 1, room, max);
    }
}

proof fn lemma_down_is_full(
    tab: Seq<MvField>,
    seen: Seq<bool>,
    stride: int,
    i: int,
    m: MvField,
    w: int,
    h: int,
    room: int,
    max: int,
)
    requires
        1 <= h,
    ensures
        ({
            let r = run_down(tab, seen, stride, i, m, w, h, room, max);
            r >= h && (r >= room || r >= max || !row_joins(tab, seen, i + r * stride, m, w))
        }),
    decreases max - h,
{
    if h < max && h < room && row_joins(tab, seen, i + h * stride, m, w) {
        lemma_down_is_full(tab, seen, stride, i, m, w, h + 1, room, max);
    }
}

/// The rectangle that is exported at a block is as wide as blocks of the same motion, that are not in
/// another one, follow in its row, and then as high as whole rows of them follow below; up to the edge
/// of the picture, or to 255 samples.
pub proof fn law_rectangles_are_largest(s: ExportV, tab: Seq<MvField>, g: Geo, i: int)
    requires
        g.wf(),
        tab.len() == g.pu_w * g.pu_h,
        s.seen.len() == tab.len(),
        0 <= i < tab.len(),
    ensures
        ({
            let stride = g.pu_w as int;
            let (w, h) = grown(s, tab, g, i);
            let free = |j: int|
                !s.seen[j] && tab[j].mv == tab[i].mv && tab[j].ref_idx == tab[i].ref_idx
                    && tab[j].pred_flag == tab[i].pred_flag;
            &&& i % stride + w >= stride || (w + 1) * g.min_pu > 255 || !free(i + w)
            &&& i / stride + h >= g.pu_h || (h + 1) * g.min_pu > 255 || exists|d: int|
                0 <= d < w && !free(#[trigger] (i + h * stride + d))
        }),
{
    let stride = g.pu_w as int;
    let u = g.min_pu as int;
    let max = max_side(u);
    let m = tab[i];
    lemma_right_is_full(tab, s.seen, i, m, 1, stride - i % stride, max);
    let w = run_right(tab, s.seen, i, m, 1, stride - i % stride, max);
    lemma_down_is_full(tab, s.seen, stride, i, m, w, 1, g.pu_h - i / stride, max);
    let h = run_down(tab, s.seen, stride, i, m, w, 1, g.pu_h - i / stride, max);
    vstd::arithmetic::div_mod::lemma_fundamental_div_mod(255, u);
    assert(w >= max ==> (w + 1) * u > 255) by (nonlinear_arith)
        requires
            255 == u * max + 255int % u,
            255int % u < u,
            0 < u,
    ;
    assert(h >= max ==> (h + 1) * u > 255) by (nonlinear_arith)
        requires
            255 == u * max + 255int % u,
            255int % u < u,
            0 < u,
    ;
    let free = |j: int|
        !s.seen[j] && tab[j].mv == tab[i].mv && tab[j].ref_idx == tab[i].ref_idx
            && tab[j].pred_flag == tab[i].pred_flag;
    assert forall|j: int| #[trigger] free(j) implies joins(tab, s.seen, j, m) by {
    }
    if !(i / stride + h >= g.pu_h || h >= max) {
        let k = choose|k: int|
            i + h * stride <= k < i + h * stride + w && !#[trigger] joins(tab, s.seen, k, m);
        let d = k - (i + h * stride);
        assert(i + h * stride + d == k);
        assert(!free(k));
        assert(!free(i + h * stride + d));
    }
}

// ---------------------------------------------------------------------------
// Tree blocks

/// A tree block can use the ones around it that come before it: to its left, above it, and diagonally
/// above it, where the picture has them.
pub proof fn law_tree_block_neighbours(addr: int, w: int)
    requires
        0 < w,
        0 <= addr,
    ensures
        ({
            let t = ctb_at(addr, w);
            let (x, y) = (addr % w, addr / w);
            let there = |cx: int, cy: int| 0 <= cx < w && 0 <= cy;
            &&& t.left == there(x - 1, y)
            &&& t.up == there(x, y - 1)
            &&& t.up_right == there(x + 1, y - 1)
            &&& t.up_left == there(x - 1, y - 1)
        }),
{
    vstd::arithmetic::div_mod::lemma_fundamental_div_mod(addr, w);
    vstd::arithmetic::div_mod::lemma_div_pos_is_pos(addr, w);
}

// ---------------------------------------------------------------------------
// References

proof fn lemma_cycled<T>(s: Seq<T>, n: nat, i: int)
    requires
        0 <= i < n,
        s.len() > 0,
    ensures
        cycled(s, n).len() == n,
        cycled(s, n)[i] == s[i % (s.len() as int)],
{
    crate::refs::law_list_cycles(s, n, i);
}

/// List 0 starts with the earlier pictures, the nearest first, and goes on with the later ones; list 1 has
/// them the other way round. A list that is longer starts again. All references are short-term.
pub proof fn law_reference_lists(sh: HeaderV, poc: i32, i: int)
    requires
        earlier(sh.short_rps, sh.short_rps.delta.len()).len() + later(
            sh.short_rps,
            sh.short_rps.delta.len(),
        ).len() > 0,
    ensures
        ({
            let r = ref_lists(sh, poc);
            let before = earlier(sh.short_rps, sh.short_rps.delta.len());
            let after = later(sh.short_rps, sh.short_rps.delta.len());
            let n = (before.len() + after.len()) as int;
            let k = i % n;
            let nb = before.len() as int;
            let na = after.len() as int;
            &&& r.poc0.len() == sh.inter.nb0 && r.poc1.len() == sh.inter.nb1
            &&& 0 <= i < sh.inter.nb0 ==> r.poc0[i] == poc.wrapping_add(
                if k < nb {
                    before[k]
                } else {
                    after[k - nb]
                },
            )
            &&& 0 <= i < sh.inter.nb1 ==> r.poc1[i] == poc.wrapping_add(
                if k < na {
                    after[k]
                } else {
                    before[k - na]
                },
            )
            &&& forall|l: int, idx: i8| !#[trigger] r.ref_long(l, idx)
        }),
{
    reveal(ref_lists);
    let before = pocs(earlier(sh.short_rps, sh.short_rps.delta.len()), poc);
    let after = pocs(later(sh.short_rps, sh.short_rps.delta.len()), poc);
    if sh.inter.nb0 > 0 {
        lemma_cycled(before + after, sh.inter.nb0 as nat, 0);
    }
    if sh.inter.nb1 > 0 {
        lemma_cycled(after + before, sh.inter.nb1 as nat, 0);
    }
    if 0 <= i < sh.inter.nb0 {
        lemma_cycled(before + after, sh.inter.nb0 as nat, i);
    }
    if 0 <= i < sh.inter.nb1 {
        lemma_cycled(after + before, sh.inter.nb1 as nat, i);
    }
}

/// The first pictures that a set lists are earlier ones and the rest later ones; those that the slice does
/// not use are in neither list.
pub proof fn law_sets_split(r: RpsV, n: nat, d: i32)
    requires
        n <= r.delta.len(),
        r.delta.len() == r.used.len(),
        r.delta.len() <= u32::MAX,
    ensures
        later(r, n).contains(d) <==> exists|i: int|
            0 <= i < n && r.used[i] && i >= r.num_negative && #[trigger] r.delta[i] == d,
        earlier(r, n).contains(d) <==> exists|i: int|
            0 <= i < n && r.used[i] && i < r.num_negative && #[trigger] r.delta[i] == d,
    decreases n,
{
    if n > 0 {
        let m = (n - 1) as nat;
        law_sets_split(r, m, d);
        let x = r.delta[n - 1];
        let s = later(r, m);
        if r.used[n - 1] && m >= r.num_negative {
            if s.contains(d) {
                let j = choose|j: int| 0 <= j < s.len() && s[j] == d;
                assert(s.push(x)[j] == d);
            }
            if x == d {
                assert(s.push(x)[s.len() as int] == d);
            }
            if s.push(x).contains(d) && x != d {
                let j = choose|j: int| 0 <= j < s.push(x).len() && s.push(x)[j] == d;
                assert(s[j] == d);
            }
        }
        let e = earlier(r, m);
        if r.used[n - 1] && m < r.num_negative {
            let k = near_slot(e, x);
            super::stream::lemma_near_slot_bound(e, x);
            let f = e.insert(k, x);
            if e.contains(d) {
                let j = choose|j: int| 0 <= j < e.len() && e[j] == d;
                if j < k {
                    assert(f[j] == d);
                } else {
                    assert(f[j + 1] == d);
                }
            }
            if x == d {
                assert(f[k] == d);
            }
            if f.contains(d) && x != d {
                let j = choose|j: int| 0 <= j < f.len() && f[j] == d;
                if j < k {
                    assert(e[j] == d);
                } else {
                    assert(e[j - 1] == d);
                }
            }
        }
    }
}

proof fn lemma_find_frame(dpb: Seq<FrameMvV>, poc: i32, i: int)
    requires
        0 <= i,
    ensures
        match find_frame(dpb, poc, i) {
            Some(k) => i <= k < dpb.len() && dpb[k].poc == poc,
            None => forall|k: int| i <= k < dpb.len() ==> (#[trigger] dpb[k]).poc != poc,
        },
    decreases dpb.len() - i,
{
    if i < dpb.len() && dpb[i].poc != poc {
        lemma_find_frame(dpb, poc, i + 1);
    }
}

/// The collocated picture of a slice is a kept one with the order count of the reference that the slice
/// names, in the list that it names. There is none without temporal prediction, or where it is not
/// kept.
pub proof fn law_collocated_picture(s: StreamV, sh: HeaderV, poc: i32)
    ensures
        ({
            let r = s.slice_refs(sh, poc);
            let list = if sh.inter.col_list == 0 {
                r.lists.poc0
            } else {
                r.lists.poc1
            };
            let idx = sh.inter.col_idx as int;
            let named = sh.slice_temporal_mvp_enabled && idx < list.len();
            &&& r.poc == poc
            &&& r.lists == ref_lists(sh, poc)
            &&& r.col matches Some(c) ==> named && c.poc == list[idx] && s.dpb.contains(c)
            &&& r.col is None && named ==> forall|k: int|
                0 <= k < s.dpb.len() ==> (#[trigger] s.dpb[k]).poc != list[idx]
        }),
{
    reveal(col_number);
    let l = ref_lists(sh, poc);
    let list = l.poc(sh.inter.col_list as int);
    if sh.slice_temporal_mvp_enabled && sh.inter.col_idx < list.len() {
        lemma_find_frame(s.dpb, list[sh.inter.col_idx as int], 0);
    }
}

/// A decoded slice is kept as the last picture, with its order count, its references and the motion that its
/// rows are exported from, and the oldest of more than 16 goes. Its order count is that of later ones in the
/// lowest temporal layer.
pub proof fn law_slices_are_kept(s: StreamV, n: NalView, sps: SpsV, pps: Pps, sh: HeaderV)
    requires
        s.dpb.len() <= 16,
    ensures
        ({
            let (r, rows) = s.decode(n, sps, pps, sh);
            let poc = s.slice_poc(n, sps, sh);
            let g = geo_of(sps);
            let last = r.dpb.last();
            let gone = if s.dpb.len() == 16 {
                1int
            } else {
                0int
            };
            &&& r.dpb.len() == s.dpb.len() + 1 - gone
            &&& forall|k: int| 0 <= k < r.dpb.len() - 1 ==> #[trigger] r.dpb[k] == s.dpb[k + gone]
            &&& last.poc == poc
            &&& last.lists == ref_lists(sh, poc)
            &&& last.collocated_list == sh.inter.col_list
            &&& last.w == g.pu_w && last.h == g.pu_h
            &&& rows == exported(Seq::empty(), last.mvf, g, s.frame_index)
            &&& r.poc_tid0 == if n.nuh_temporal_id_plus1 == 1 {
                poc
            } else {
                s.poc_tid0
            }
            &&& sh.is_idr ==> poc == 0
        }),
{
    reveal(StreamV::decode);
}

/// A slice starts without motion, at the tree block that its header names, with the contexts of its type and
/// quantiser. What is kept of it, and exported, is the motion behind the last tree block.
pub proof fn law_slice_is_decoded(
    rbsp: Seq<u8>,
    sh: HeaderV,
    sps: SpsV,
    pps: Pps,
    ri: RefV,
    frame: i32,
    out: Seq<MvCompact>,
)
    requires
        sh.slice_type is Some,
    ensures
        ({
            let g = geo_of(sps);
            let e = EnvV { sps, pps, sh, ri, g };
            let n = sps.width_in_ctbs() * sps.height_in_ctbs();
            let c = Bins {
                e: Engine::start(rbsp, sh.data_offset),
                st: initial(sh.slice_type->0, sh.inter.cabac_init, sh.slice_qp),
                qp_coded: false,
            };
            let f0 = FrameV::fresh(g);
            let (end, c1, f) = ctbs_from(c, f0, e, sh.slice_segment_address as int, n);
            let r = decoded(rbsp, sh, sps, pps, ri, frame, out);
            &&& forall|i: int| 0 <= i < f0.mvf.len() ==> (#[trigger] f0.mvf[i]).pred_flag == 0
            &&& forall|i: int| 0 <= i < f0.skip.len() ==> #[trigger] f0.skip[i] == 0
            &&& forall|i: int| 0 <= i < f0.ipm.len() ==> #[trigger] f0.ipm[i] == 1
            &&& r.frame.mvf == f.mvf && r.frame.poc == ri.poc && r.frame.lists == ri.lists
            &&& r.out == exported(out, f.mvf, g, frame)
            &&& r.ok == (end == n)
        }),
{
}

} // verus!
