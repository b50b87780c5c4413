//! What holds of the pictures of a stream and of those that they refer to.

use super::context_tables::slope_offset;
use super::contexts::{initial, Cab};
use super::dpb::{col_pic, lemma_side_list, nearer, on_side, poc_of, side_list, RefFrameV};
use super::grids::{mb_rect, ColShape, GridsV, Seg};
use super::mb_b::{direct, direct_mb, slice_from_b, uniform, ColV};
use super::motion_laws::{in_part, kept, law_storing_is_local, lemma_in_picture};
use super::nal::NalView;
use super::params::{pps_of, slice_header_of, sps_of, Pps, SliceType, Sps};
use super::picture::{b_slice, decoded, job_header, p_slice, slice_step, JobV, PicState, PictureV};
use super::stream::GroupV;
use crate::bits::Bits;
use crate::cabac::{context_state, Engine};
use crate::motion::compact_rows;
use crate::refs::cycled;
use crate::stats::Stats;
use vstd::prelude::*;

verus! {

// ---------------------------------------------------------------------------
// Slices

/// A B slice is not decoded, but counted as not supported, where B slices are not wanted, where it is not
/// CABAC coded, where direct prediction is temporal or not on 8x8 blocks, or where the order count of
/// its picture is not known. It leaves the picture as it is.
pub proof fn law_unsupported_b_slice(
    s: PicState,
    j: JobV,
    sid: i32,
    poc: Option<i32>,
    dpb: Seq<RefFrameV>,
    b_enabled: bool,
)
    requires
        job_header(j).0.slice_type == SliceType::B,
        !b_enabled || !j.pps.entropy_coding_mode_flag || !job_header(j).0.direct_spatial_mv_pred_flag
            || !j.sps.direct_8x8_inference_flag || poc is None,
    ensures
        ({
            let r = slice_step(s, j, sid, poc, dpb, b_enabled);
            &&& r.g == s.g
            &&& r.st == (Stats { unsupported: s.st.unsupported.wrapping_add(1), ..s.st })
        }),
{
    reveal(slice_step);
}

/// A B slice that is supported is decoded with the motion of one reference picture, which the first such slice
/// of a picture chooses. Without reference pictures it is not supported.
pub proof fn law_b_slice_has_a_collocated_picture(
    s: PicState,
    j: JobV,
    sid: i32,
    poc: i32,
    dpb: Seq<RefFrameV>,
)
    requires
        job_header(j).0.slice_type == SliceType::B,
        j.pps.entropy_coding_mode_flag,
        job_header(j).0.direct_spatial_mv_pred_flag,
        j.sps.direct_8x8_inference_flag,
    ensures
        ({
            let h = job_header(j).0;
            let r = slice_step(s, j, sid, Some(poc), dpb, true);
            let c = if s.col is Some {
                s.col->0
            } else {
                col_pic(
                    dpb,
                    poc,
                    h.num_ref_idx_l0_active as usize,
                    h.num_ref_idx_l1_active as usize,
                )
            };
            &&& r.any_b && r.col == Some(c)
            &&& c is Some ==> (r.g, r.st) == b_slice(s.g, s.st, j, sid, dpb[c->0 as int].col)
            &&& c is None ==> r.g == s.g && r.st.unsupported == s.st.unsupported.wrapping_add(1)
        }),
{
    reveal(slice_step);
}

/// The data of a CABAC slice start with the byte behind its header, and its contexts follow from its type, its
/// choice of tables and its quantiser.
pub proof fn law_slice_data(g: GridsV, st: Stats, j: JobV, sid: i32, col: ColV)
    requires
        0 <= job_header(j).1.pos <= usize::MAX - 8,
    ensures
        ({
            let (h, b) = job_header(j);
            let first = h.first_mb_in_slice as int;
            let at = ((b.pos + 7) / 8) as usize;
            let start = |is_i: bool|
                Cab {
                    e: Engine::start(j.nal.rbsp, at),
                    st: initial(is_i, h.cabac_init_idc, h.slice_qp),
                    dqp: false,
                };
            let is_i = h.slice_type == SliceType::I || h.slice_type == SliceType::Si;
            &&& b_slice(g, st, j, sid, col).0 == slice_from_b(
                g,
                start(false),
                first,
                g.mbs(),
                h,
                j.pps,
                sid,
                col,
            ).1
            &&& j.pps.entropy_coding_mode_flag ==> p_slice(g, st, j, sid).0
                == super::mb_cabac::slice_from(
                g,
                start(is_i),
                first,
                g.mbs(),
                h,
                j.pps,
                sid,
            ).1
            &&& !j.pps.entropy_coding_mode_flag ==> p_slice(g, st, j, sid).0
                == super::mb_cavlc::slice_from(g, b, first, g.mbs(), h, j.pps, sid).2
        }),
{
    reveal(b_slice);
    reveal(p_slice);
}

// ---------------------------------------------------------------------------
// Reference pictures

/// How later pictures see a macroblock: in halves, whole, or in quadrants. One without motion is whole.
pub open spec fn seen_as(seg: Seg) -> ColShape {
    match seg {
        Seg::P16x8 => ColShape::Wide16x8,
        Seg::B16x8 => ColShape::Wide16x8,
        Seg::P8x16 => ColShape::Tall8x16,
        Seg::B8x16 => ColShape::Tall8x16,
        Seg::P8x8 => ColShape::Small,
        Seg::B8x8 => ColShape::Small,
        Seg::Unset => ColShape::Small,
        _ => ColShape::Big16x16,
    }
}

/// A picture that others refer to is kept last, with its order count and the motion of its blocks, where B
/// slices are wanted; the oldest of more than 16 goes. Other pictures are not kept.
pub proof fn law_reference_pictures_are_kept(
    p: PictureV,
    grid: Option<GridsV>,
    st: Stats,
    dpb: Seq<RefFrameV>,
    b_enabled: bool,
    l0_only: bool,
)
    requires
        p.jobs.len() > 0,
        dpb.len() <= 16,
    ensures
        ({
            let r = decoded(p, grid, st, dpb, b_enabled, l0_only);
            let g = r.grid->0;
            let keep = b_enabled && p.nal_ref_idc != 0 && p.poc is Some;
            let gone = if dpb.len() == 16 {
                1int
            } else {
                0int
            };
            let last = r.dpb.last();
            &&& r.grid is Some
            &&& r.rows == compact_rows(g.rows(), p.frame_index, l0_only)
            &&& !keep ==> r.dpb == dpb
            &&& keep ==> {
                &&& r.dpb.len() == dpb.len() + 1 - gone
                &&& forall|k: int| 0 <= k < r.dpb.len() - 1 ==> #[trigger] r.dpb[k] == dpb[k + gone]
                &&& last.poc == p.poc->0
                &&& last.col.refi0 == g.l0.refi
                &&& last.col.mv0.len() == g.l0.mv.len()
                &&& forall|i: int|
                    0 <= i < g.l0.mv.len() ==> #[trigger] last.col.mv0[i] == [
                        g.l0.mv[i].x,
                        g.l0.mv[i].y,
                    ]
                &&& last.col.bw == (4 * g.mb_w) as usize
                &&& last.col.mv1 is Some == last.col.refi1 is Some
                &&& last.col.refi1 is Some ==> last.col.refi1->0 == g.l1.refi && (
                last.col.mv1->0).len() == g.l1.mv.len() && forall|i: int|
                    0 <= i < g.l1.mv.len() ==> #[trigger] (last.col.mv1->0)[i] == [
                        g.l1.mv[i].x,
                        g.l1.mv[i].y,
                    ]
                &&& last.col.col_shape.len() == g.seg.len()
                &&& forall|i: int|
                    0 <= i < g.seg.len() ==> #[trigger] last.col.col_shape[i] == seen_as(g.seg[i])
            }
        }),
{
}

/// Where there are earlier reference pictures only, a B picture takes collocated motion from the nearest of
/// them, or from the second nearest where both of its lists are as long as each other and longer than
/// one.
pub proof fn law_col_pic_of_the_past(
    f: Seq<RefFrameV>,
    poc: i32,
    nb_l0: usize,
    nb_l1: usize,
    first: int,
)
    requires
        f.len() <= usize::MAX,
        forall|i: int| 0 <= i < f.len() ==> (#[trigger] f[i]).poc < poc,
        0 <= first < f.len(),
        forall|i: int| 0 <= i < f.len() && i != first ==> (#[trigger] f[i]).poc < f[first].poc,
    ensures
        ({
            let c = col_pic(f, poc, nb_l0, nb_l1);
            &&& c is Some
            &&& 0 <= c->0 < f.len()
            &&& nb_l1 <= 1 || (nb_l0 != nb_l1) ==> c->0 == first
            &&& nb_l1 > 1 && nb_l0 == nb_l1 && f.len() > 1 ==> c->0 != first && forall|i: int|
                0 <= i < f.len() && i != first ==> (#[trigger] f[i]).poc <= f[c->0 as int].poc
        }),
{
    lemma_side_list(f, true, poc, f.len());
    lemma_side_list(f, false, poc, f.len());
    let past = side_list(f, true, poc, f.len());
    let future = side_list(f, false, poc, f.len());
    assert(future =~= Seq::empty()) by {
        if future.len() > 0 {
            assert(on_side(f, false, future[0] as int, poc));
        }
    }
    assert(on_side(f, true, first, poc));
    assert(past.contains(first as usize));
    let k0 = choose|k: int| 0 <= k < past.len() && past[k] == first as usize;
    assert(nearer(f, true, past[0], past[k0]));
    assert(past[0] == first as usize);
    assert(past + future =~= past && future + past =~= past);
    let n0 = if nb_l0 > 1 {
        nb_l0 as nat
    } else {
        1nat
    };
    let n1 = if nb_l1 > 1 {
        nb_l1 as nat
    } else {
        1nat
    };
    let l0 = cycled(past, n0);
    let l1 = cycled(past, n1);
    assert(l0.len() == n0 && l1.len() == n1);
    vstd::arithmetic::div_mod::lemma_small_mod(0, past.len());
    assert(l1[0] == past[0]);
    if nb_l1 > 1 && nb_l0 == nb_l1 && f.len() > 1 {
        let other = if first == 0 {
            1int
        } else {
            0int
        };
        assert(on_side(f, true, other, poc));
        assert(past.contains(other as usize));
        let k1 = choose|k: int| 0 <= k < past.len() && past[k] == other as usize;
        assert(past.len() > 1);
        vstd::arithmetic::div_mod::lemma_small_mod(1, past.len());
        assert(l1[1] == past[1]);
        lemma_second(f, poc, first);
        assert forall|i: int| 0 <= i < f.len() && i != first implies (#[trigger] f[i]).poc
            <= f[past[1] as int].poc by {
            assert(on_side(f, true, i, poc));
            assert(past.contains(i as usize));
            let k = choose|k: int| 0 <= k < past.len() && past[k] == i as usize;
            assert(nearer(f, true, past[1], past[k]));
        }
    }
}

/// The second in a list of pictures is not the first.
proof fn lemma_second(f: Seq<RefFrameV>, poc: i32, first: int)
    requires
        f.len() <= usize::MAX,
        0 <= first < f.len(),
    ensures
        ({
            let past = side_list(f, true, poc, f.len());
            past.len() > 1 ==> past[0] != past[1]
        }),
{
    lemma_distinct(f, true, poc, f.len());
}

proof fn lemma_distinct(f: Seq<RefFrameV>, past: bool, poc: i32, n: nat)
    requires
        n <= f.len(),
        f.len() <= usize::MAX,
    ensures
        ({
            let l = side_list(f, past, poc, n);
            forall|j: int, k: int| 0 <= j < k < l.len() ==> #[trigger] l[j] != #[trigger] l[k]
        }),
    decreases n,
{
    if n > 0 {
        lemma_distinct(f, past, poc, (n - 1) as nat);
        lemma_side_list(f, past, poc, (n - 1) as nat);
        let l = side_list(f, past, poc, (n - 1) as nat);
        lemma_inserted_distinct(f, past, l, (n - 1) as usize);
    }
}

proof fn lemma_inserted_distinct(f: Seq<RefFrameV>, past: bool, l: Seq<usize>, i: usize)
    requires
        forall|k: int| 0 <= k < l.len() ==> #[trigger] l[k] != i,
        forall|j: int, k: int| 0 <= j < k < l.len() ==> #[trigger] l[j] != #[trigger] l[k],
    ensures
        ({
            let m = super::dpb::inserted(f, past, l, i);
            &&& forall|j: int, k: int| 0 <= j < k < m.len() ==> #[trigger] m[j] != #[trigger] m[k]
            &&& forall|k: int| 0 <= k < m.len() ==> m.contains(#[trigger] m[k]) && (m[k] == i
                || l.contains(m[k]))
        }),
    decreases l.len(),
{
    if l.len() == 0 || nearer(f, past, l.last(), i) {
        let m = l.push(i);
        assert forall|k: int| 0 <= k < m.len() implies m.contains(#[trigger] m[k]) && (m[k] == i
            || l.contains(m[k])) by {
            if k < l.len() {
                assert(l.contains(l[k]));
            }
        }
    } else {
        let d = l.drop_last();
        lemma_inserted_distinct(f, past, d, i);
        let s = super::dpb::inserted(f, past, d, i);
        let m = s.push(l.last());
        assert forall|k: int| 0 <= k < s.len() implies #[trigger] s[k] != l.last() by {
            if s[k] != i {
                assert(d.contains(s[k]));
                let x = choose|x: int| 0 <= x < d.len() && d[x] == s[k];
                assert(l[x] == s[k]);
                assert(l[x] != l[l.len() - 1]);
            }
        }
        assert forall|k: int| 0 <= k < m.len() implies m.contains(#[trigger] m[k]) && (m[k] == i
            || l.contains(m[k])) by {
            if k < s.len() {
                assert(m[k] == s[k]);
                if s[k] != i {
                    assert(d.contains(s[k]));
                    let x = choose|x: int| 0 <= x < d.len() && d[x] == s[k];
                    assert(l[x] == s[k]);
                }
            } else {
                assert(l[l.len() - 1] == m[k]);
            }
        }
    }
}

// ---------------------------------------------------------------------------
// Shapes

/// A macroblock in direct mode is exported undivided where its quadrants move alike, and else in the halves
/// of the collocated macroblock, or in quadrants.
pub proof fn law_direct_macroblock_shape(g: GridsV, mb: int, sid: i32, col: ColV)
    requires
        0 <= mb,
    ensures
        ({
            let seg = direct_mb(g, mb, sid, col).0;
            let d = direct(g, mb, sid, col);
            let alike = d.mv0[1] == d.mv0[0] && d.mv0[2] == d.mv0[0] && d.mv0[3] == d.mv0[0]
                && d.mv1[1] == d.mv1[0] && d.mv1[2] == d.mv1[0] && d.mv1[3] == d.mv1[0];
            let wide = mb < col.col_shape.len() && col.col_shape[mb] == ColShape::Wide16x8;
            let tall = mb < col.col_shape.len() && col.col_shape[mb] == ColShape::Tall8x16;
            &&& alike ==> seg == Seg::B16x16
            &&& !alike && wide ==> seg == Seg::B16x8
            &&& !alike && tall ==> seg == Seg::B8x16
            &&& !alike && !wide && !tall ==> seg == Seg::B8x8
        }),
{
    reveal(direct_mb);
    let d = direct(g, mb, sid, col);
    let alike = d.mv0[1] == d.mv0[0] && d.mv0[2] == d.mv0[0] && d.mv0[3] == d.mv0[0] && d.mv1[1]
        == d.mv1[0] && d.mv1[2] == d.mv1[0] && d.mv1[3] == d.mv1[0];
    if alike {
        assert forall|q: int| 0 <= q < 4 implies #[trigger] d.mv0[q] == d.mv0[0] && d.mv1[q]
            == d.mv1[0] by {
            assert(q == 0 || q == 1 || q == 2 || q == 3);
        }
        assert(uniform(d));
    } else {
        let q = if d.mv0[1] != d.mv0[0] || d.mv1[1] != d.mv1[0] {
            1int
        } else if d.mv0[2] != d.mv0[0] || d.mv1[2] != d.mv1[0] {
            2
        } else {
            3
        };
        assert(!(d.mv0[q] == d.mv0[0] && d.mv1[q] == d.mv1[0]));
        assert(!uniform(d));
    }
}

/// A macroblock without motion refers to nothing in any of its blocks.
pub proof fn law_intra_macroblock_refers_to_nothing(g: GridsV, mb: int, gx: int, gy: int)
    requires
        g.wf(),
        0 <= mb < g.mbs(),
        in_part(g, mb, 0, 0, 4, 4, gx, gy),
    ensures
        kept(g.intra_l0(mb), 0, gx, gy).refi == -1,
        kept(g.intra_both(mb), 0, gx, gy).refi == -1,
        kept(g.intra_both(mb), 1, gx, gy).refi == -1,
{
    reveal(GridsV::intra_l0);
    reveal(GridsV::intra_both);
    lemma_in_picture(g, mb);
    let z = crate::motion::zero_mv();
    law_storing_is_local(g, 0, mb, 0, 0, 4, 4, z, -1i32, 0, gx, gy);
    let h = g.intra_l0(mb);
    assert(h.wf() && h.mb_w == g.mb_w && h.mb_h == g.mb_h) by {
        reveal(GridsV::fill);
        reveal(mb_rect);
    }
    law_storing_is_local(h, 1, mb, 0, 0, 4, 4, z, -1i32, 0, gx, gy);
    law_storing_is_local(h, 1, mb, 0, 0, 4, 4, z, -1i32, 1, gx, gy);
}

// ---------------------------------------------------------------------------
// Grouping

/// A slice that starts at the first macroblock completes the picture before it, and starts another one with
/// the next number, of the size of its sequence, whose order count starts anew at an IDR picture. Other
/// slices join the picture. B slices are left out and counted where they are not wanted.
pub proof fn law_slices_make_pictures(s: GroupV, n: NalView, sps: Sps, pps: Pps)
    requires
        s.sets_of(n) == Some((sps, pps)),
    ensures
        ({
            let (h, b) = slice_header_of(
                Bits { data: n.rbsp, pos: 0 },
                n.nal_ref_idc,
                n.nal_unit_type,
                sps,
                pps,
            );
            let (r, done) = s.slice(n);
            let first = h.first_mb_in_slice == 0;
            let left_out = h.slice_type == SliceType::B && !s.decode_b;
            let job = JobV { nal: n, sps, pps };
            let (msb, lsb) = if h.is_idr {
                (0i32, 0i32)
            } else {
                (s.prev_msb, s.prev_lsb)
            };
            let (poc, msb2, lsb2) = poc_of(sps, h.pic_order_cnt_lsb, n.nal_ref_idc, msb, lsb);
            let jobs = if left_out {
                Seq::empty()
            } else {
                seq![job]
            };
            &&& r.sps == s.sps && r.pps == s.pps && r.decode_b == s.decode_b
            &&& r.b_skipped == if left_out {
                s.b_skipped.wrapping_add(1)
            } else {
                s.b_skipped
            }
            &&& first ==> {
                &&& done == s.cur
                &&& r.next_index == s.next_index.wrapping_add(1)
                &&& r.prev_msb == msb2 && r.prev_lsb == lsb2
                &&& r.cur matches Some(p) && p.frame_index == s.next_index && p.mb_w
                    == sps.pic_width_in_mbs as usize && p.mb_h == sps.frame_height() as usize && p.poc
                    == poc && p.nal_ref_idc == n.nal_ref_idc && p.jobs =~= jobs
            }
            &&& !first ==> {
                &&& done is None
                &&& r.next_index == s.next_index && r.prev_msb == s.prev_msb && r.prev_lsb
                    == s.prev_lsb
                &&& r.cur is Some == s.cur is Some
                &&& s.cur matches Some(p) ==> r.cur->0.jobs =~= p.jobs + jobs && r.cur->0.frame_index
                    == p.frame_index && r.cur->0.poc == p.poc
            }
        }),
{
    reveal(GroupV::slice);
    reveal(GroupV::opened);
    reveal(GroupV::joined);
}

/// A later parameter set takes the place of an earlier one with the same number, and completes no picture.
pub proof fn law_parameter_sets_are_replaced(s: GroupV, n: NalView)
    ensures
        ({
            let (r, done) = s.step(n);
            &&& n.nal_unit_type == 7 ==> done is None && r.cur == s.cur && r.pps == s.pps && r.sps
                == s.sps.insert(sps_of(n.rbsp).sps_id, sps_of(n.rbsp))
            &&& n.nal_unit_type == 8 ==> done is None && r.cur == s.cur && r.sps == s.sps && r.pps
                == s.pps.insert(pps_of(n.rbsp).pps_id, pps_of(n.rbsp))
            &&& n.nal_unit_type == 1 || n.nal_unit_type == 5 ==> (r, done) == s.slice(n)
            &&& n.nal_unit_type != 1 && n.nal_unit_type != 5 && n.nal_unit_type != 7
                && n.nal_unit_type != 8 ==> r == s && done is None
        }),
{
    reveal(GroupV::step);
}

// ---------------------------------------------------------------------------
// Contexts

/// The contexts of an I slice start by a table of their own, and those of other slices by one of three tables,
/// which the slice chooses.
pub proof fn law_initial_contexts(is_i: bool, idc: u32, qp: i32, ctx: int)
    requires
        0 <= ctx < 1024,
        idc <= 2,
    ensures
        ({
            let table: usize = if is_i {
                0
            } else {
                (1 + idc) as usize
            };
            initial(is_i, idc, qp)[ctx] == match slope_offset(table, ctx as usize) {
                Some((m, n)) => context_state(m as i32, n as i32, qp),
                None => 0,
            }
        }),
{
}

} // verus!
