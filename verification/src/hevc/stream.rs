//! Decoding the slices of an H.265 stream, in order.

use super::nal::{
    hvcc_of, is_vcl, nal_views, nals_of, parse_hvcc, split_annexb, split_length_prefixed, vcl, Nal,
    NalView, NAL_PPS, NAL_SPS,
};
use super::params::{parse_pps, parse_sps, pps_of, sps_of, Pps, RpsV, ShortRps, Sps, SpsV};
use super::refs::{FrameMv, FrameMvV, ListsV, RefInfo, RefV};
use super::slice::{decode_slice, decoded, HevcScratch};
use super::slice_header::{
    header_of, parse_slice_header_with, read_slice_pps_id, slice_pps_id, HeaderV, SliceHeader,
    SliceType,
};
use crate::framing;
use crate::grid::all;
use crate::motion::MvCompact;
use crate::refs::{build_ref_list, cycled, law_poc_is_nearest, next_poc_msb, poc_msb};
use crate::stats::Stats;
use std::collections::HashMap;
use vstd::arithmetic::div_mod::{lemma_fundamental_div_mod, lemma_mod_multiples_basic};
use vstd::prelude::*;

verus! {

broadcast use vstd::std_specs::hash::group_hash_axioms;

// ---------------------------------------------------------------------------
// Picture order

/// The remainder of `a` by the magnitude of `m`, with the sign of `a`.
pub open spec fn signed_rem(a: i32, m: i32) -> int {
    let n = if m < 0 {
        -m
    } else {
        m as int
    };
    if a >= 0 {
        a as int % n
    } else {
        -((-a) % n)
    }
}

fn signed_remainder(a: i32, m: i32) -> (r: i32)
    requires
        m != 0,
    ensures
        r == signed_rem(a, m),
{
    let n: i64 = if m < 0 {
        0 - m as i64
    } else {
        m as i64
    };
    if a >= 0 {
        (a as i64 % n) as i32
    } else {
        proof {
            let (b, k) = (-a, n as int);
            assert(0 <= b % k <= b) by (nonlinear_arith)
                requires
                    0 <= b,
                    0 < k,
            ;
        }
        (0 - (0 - a as i64) % n) as i32
    }
}

/// The picture order count of a picture with least significant part `lsb`, where the previous
/// picture of the lowest temporal layer has `tid0`. A broken-link picture starts anew.
pub open spec fn poc_of(log2_max: u32, tid0: i32, lsb: i32, nal_type: u8) -> i32 {
    let max = 1i32.wrapping_shl(log2_max);
    let prev_lsb = signed_rem(tid0, max) as i32;
    let msb = poc_msb(max, lsb, tid0.wrapping_sub(prev_lsb), prev_lsb);
    if 16 <= nal_type <= 18 {
        lsb
    } else {
        msb.wrapping_add(lsb)
    }
}

/// The picture order count of a picture.
pub fn hevc_compute_poc(log2_max_poc_lsb: u32, poc_tid0: i32, poc_lsb: i32, nal_type: u8) -> (poc:
    i32)
    ensures
        poc == poc_of(log2_max_poc_lsb, poc_tid0, poc_lsb, nal_type),
{
    proof {
        let k: u32 = log2_max_poc_lsb % 32;
        assert(k < 32 ==> 1i32 << k != 0) by (bit_vector);
    }
    let max = 1i32.wrapping_shl(log2_max_poc_lsb);
    let prev_lsb = signed_remainder(poc_tid0, max);
    let msb = next_poc_msb(max, poc_lsb, poc_tid0.wrapping_sub(prev_lsb), prev_lsb);
    if nal_type == 16 || nal_type == 17 || nal_type == 18 {
        poc_lsb
    } else {
        msb.wrapping_add(poc_lsb)
    }
}

// ---------------------------------------------------------------------------
// References

/// Where distance `d` goes in a list of distances that starts with the greatest: behind the last that
/// is not less.
pub open spec fn near_slot(s: Seq<i32>, d: i32) -> int
    decreases s.len(),
{
    if s.len() == 0 || s.last() >= d {
        s.len() as int
    } else {
        near_slot(s.drop_last(), d)
    }
}

/// The distances of the earlier pictures in use among the first `n` entries of a short-term set, the
/// nearest first.
pub open spec fn earlier(r: RpsV, n: nat) -> Seq<i32>
    decreases n,
{
    if n == 0 {
        Seq::empty()
    } else {
        let s = earlier(r, (n - 1) as nat);
        let d = r.delta[n - 1];
        if r.used[n - 1] && ((n - 1) as u32) < r.num_negative {
            s.insert(near_slot(s, d), d)
        } else {
            s
        }
    }
}

/// The distances of the later pictures in use among the first `n` entries of a short-term set, in
/// their order there.
pub open spec fn later(r: RpsV, n: nat) -> Seq<i32>
    decreases n,
{
    if n == 0 {
        Seq::empty()
    } else {
        let s = later(r, (n - 1) as nat);
        if r.used[n - 1] && !(((n - 1) as u32) < r.num_negative) {
            s.push(r.delta[n - 1])
        } else {
            s
        }
    }
}

proof fn lemma_near_slot(s: Seq<i32>, d: i32, k: int)
    requires
        0 <= k <= s.len(),
        k > 0 ==> s[k - 1] >= d,
        forall|j: int| k <= j < s.len() ==> s[j] < d,
    ensures
        near_slot(s, d) == k,
    decreases s.len(),
{
    if k < s.len() {
        lemma_near_slot(s.drop_last(), d, k);
    }
}

pub proof fn lemma_near_slot_bound(s: Seq<i32>, d: i32)
    ensures
        0 <= near_slot(s, d) <= s.len(),
        near_slot(s, d) > 0 ==> s[near_slot(s, d) - 1] >= d,
        forall|j: int| near_slot(s, d) <= j < s.len() ==> s[j] < d,
    decreases s.len(),
{
    if !(s.len() == 0 || s.last() >= d) {
        lemma_near_slot_bound(s.drop_last(), d);
        assert forall|j: int| near_slot(s, d) <= j < s.len() implies s[j] < d by {
            if j < s.len() - 1 {
                assert(s.drop_last()[j] == s[j]);
            }
        }
    }
}

/// The earlier pictures of a set come nearest first, in whatever order the set has them.
pub proof fn law_earlier_nearest_first(r: RpsV, n: nat)
    ensures
        forall|i: int, j: int|
            0 <= i <= j < earlier(r, n).len() ==> earlier(r, n)[i] >= earlier(r, n)[j],
    decreases n,
{
    if n > 0 {
        law_earlier_nearest_first(r, (n - 1) as nat);
        lemma_near_slot_bound(earlier(r, (n - 1) as nat), r.delta[n - 1]);
    }
}

fn find_earlier(r: &ShortRps) -> (s: Vec<i32>)
    requires
        r@.wf(),
    ensures
        s@ == earlier(r@, r@.delta.len()),
{
    let mut s: Vec<i32> = Vec::new();
    assert(s@ =~= Seq::<i32>::empty());
    let mut i: usize = 0;
    while i < r.delta_poc.len()
        invariant
            r@.wf(),
            i <= r.delta_poc@.len(),
            s@ == earlier(r@, i as nat),
        decreases r.delta_poc@.len() - i,
    {
        if r.used[i] && (i as u32) < r.num_negative {
            let d = r.delta_poc[i];
            let mut k: usize = s.len();
            let mut go = true;
            while go && k > 0
                invariant
                    k <= s@.len(),
                    !go ==> k > 0 && s@[k - 1] >= d,
                    forall|j: int| k <= j < s@.len() ==> s@[j] < d,
                decreases
                        k,
                        (if go {
                            1int
                        } else {
                            0int
                        }),
            {
                if s[k - 1] >= d {
                    go = false;
                } else {
                    k -= 1;
                }
            }
            proof {
                lemma_near_slot(s@, d, k as int);
            }
            s.insert(k, d);
        }
        i += 1;
    }
    s
}

fn find_later(r: &ShortRps) -> (s: Vec<i32>)
    requires
        r@.wf(),
    ensures
        s@ == later(r@, r@.delta.len()),
{
    let mut s: Vec<i32> = Vec::new();
    assert(s@ =~= Seq::<i32>::empty());
    let mut i: usize = 0;
    while i < r.delta_poc.len()
        invariant
            r@.wf(),
            i <= r.delta_poc@.len(),
            s@ == later(r@, i as nat),
        decreases r.delta_poc@.len() - i,
    {
        if r.used[i] && !((i as u32) < r.num_negative) {
            s.push(r.delta_poc[i]);
        }
        i += 1;
    }
    s
}

/// The picture order counts of pictures at distances `s` from `poc`.
pub open spec fn pocs(s: Seq<i32>, poc: i32) -> Seq<i32> {
    s.map_values(|d: i32| poc.wrapping_add(d))
}

fn to_pocs(s: &Vec<i32>, poc: i32) -> (p: Vec<i32>)
    ensures
        p@ == pocs(s@, poc),
{
    let mut p: Vec<i32> = Vec::new();
    let mut i: usize = 0;
    while i < s.len()
        invariant
            i <= s@.len(),
            p@ == pocs(s@.take(i as int), poc),
        decreases s@.len() - i,
    {
        p.push(poc.wrapping_add(s[i]));
        i += 1;
        assert(p@ =~= pocs(s@.take(i as int), poc));
    }
    assert(s@.take(i as int) =~= s@);
    p
}

/// The reference lists of a slice: earlier pictures first in list 0, later ones first in list 1. All
/// are short-term.
#[verifier::opaque]
pub open spec fn ref_lists(sh: HeaderV, poc: i32) -> ListsV {
    let r = sh.short_rps;
    let before = pocs(earlier(r, r.delta.len()), poc);
    let after = pocs(later(r, r.delta.len()), poc);
    let l0 = cycled(before + after, sh.inter.nb0 as nat);
    let l1 = cycled(after + before, sh.inter.nb1 as nat);
    ListsV { poc0: l0, poc1: l1, long0: all(l0.len(), false), long1: all(l1.len(), false) }
}

fn build_lists(sh: &SliceHeader, poc: i32) -> (r: ([Vec<i32>; 2], [Vec<bool>; 2]))
    requires
        sh.short_rps@.wf(),
    ensures
        super::refs::lists_of(r.0, r.1) == ref_lists(sh@, poc),
{
    proof {
        reveal(ref_lists);
    }
    let before = to_pocs(&find_earlier(&sh.short_rps), poc);
    let after = to_pocs(&find_later(&sh.short_rps), poc);
    let l0 = build_ref_list(before.as_slice(), after.as_slice(), sh.nb_refs[0] as usize);
    let l1 = build_ref_list(after.as_slice(), before.as_slice(), sh.nb_refs[1] as usize);
    let long0 = crate::grid::new_grid(l0.len(), false);
    let long1 = crate::grid::new_grid(l1.len(), false);
    ([l0, l1], [long0, long1])
}

/// The first of the kept pictures with picture order count `poc`, from number `i` on.
pub open spec fn find_frame(dpb: Seq<FrameMvV>, poc: i32, i: int) -> Option<int>
    decreases dpb.len() - i,
{
    if i >= dpb.len() {
        None
    } else if dpb[i].poc == poc {
        Some(i)
    } else {
        find_frame(dpb, poc, i + 1)
    }
}

/// Kept pictures as they are modelled.
pub open spec fn frames(dpb: Seq<FrameMv>) -> Seq<FrameMvV> {
    Seq::new(dpb.len(), |i: int| dpb[i]@)
}

fn find_kept(dpb: &Vec<FrameMv>, poc: i32) -> (i: Option<usize>)
    ensures
        match i {
            Some(k) => find_frame(frames(dpb@), poc, 0) == Some(k as int) && k < dpb@.len(),
            None => find_frame(frames(dpb@), poc, 0) is None,
        },
{
    let mut i: usize = 0;
    while i < dpb.len()
        invariant
            i <= dpb@.len(),
            find_frame(frames(dpb@), poc, i as int) == find_frame(frames(dpb@), poc, 0),
        decreases dpb@.len() - i,
    {
        assert(frames(dpb@)[i as int] == dpb@[i as int]@);
        if dpb[i].poc == poc {
            return Some(i);
        }
        i += 1;
    }
    None
}

/// The number of the collocated picture of a slice with lists `l` among the kept pictures.
#[verifier::opaque]
pub open spec fn col_number(sh: HeaderV, l: ListsV, dpb: Seq<FrameMvV>) -> Option<int> {
    let list = l.poc(sh.inter.col_list as int);
    let idx = sh.inter.col_idx as int;
    if sh.slice_temporal_mvp_enabled && idx < list.len() {
        find_frame(dpb, list[idx], 0)
    } else {
        None
    }
}

fn find_col(sh: &SliceHeader, lists: &[Vec<i32>; 2], dpb: &Vec<FrameMv>) -> (i: Option<usize>)
    ensures
        forall|l: ListsV|
            l.poc0 == lists[0]@ && l.poc1 == lists[1]@ ==> match i {
                Some(k) => #[trigger] col_number(sh@, l, frames(dpb@)) == Some(k as int),
                None => col_number(sh@, l, frames(dpb@)) is None,
            },
        i matches Some(k) ==> k < dpb@.len(),
{
    proof {
        reveal(col_number);
    }
    if !sh.slice_temporal_mvp_enabled {
        return None;
    }
    let idx = sh.collocated_ref_idx as usize;
    let poc = if sh.collocated_list == 0 {
        if idx >= lists[0].len() {
            return None;
        }
        lists[0][idx]
    } else {
        if idx >= lists[1].len() {
            return None;
        }
        lists[1][idx]
    };
    find_kept(dpb, poc)
}

// ---------------------------------------------------------------------------
// Counters

/// The first parameter set seen is reported.
pub open spec fn noted(st: Stats, s: SpsV) -> Stats {
    if st.width == 0 {
        Stats {
            width: s.pic_width_in_luma_samples,
            height: s.pic_height_in_luma_samples,
            ctb: s.ctb_size(),
            profile_idc: s.profile_idc,
            ..st
        }
    } else {
        st
    }
}

fn note_sps(st: Stats, s: &Sps) -> (r: Stats)
    ensures
        r == noted(st, s@),
{
    if st.width == 0 {
        Stats {
            width: s.pic_width_in_luma_samples,
            height: s.pic_height_in_luma_samples,
            ctb: s.ctb_size_y(),
            profile_idc: s.profile_idc,
            ..st
        }
    } else {
        st
    }
}

/// The slice type counted.
pub open spec fn typed(st: Stats, t: Option<SliceType>) -> Stats {
    match t {
        Some(SliceType::I) => Stats { i_slices: st.i_slices.wrapping_add(1), ..st },
        Some(SliceType::P) => Stats { p_slices: st.p_slices.wrapping_add(1), ..st },
        Some(SliceType::B) => Stats { b_slices: st.b_slices.wrapping_add(1), ..st },
        None => Stats { dependent: st.dependent.wrapping_add(1), ..st },
    }
}

/// A counter one higher, where `b` holds.
pub open spec fn bumped(n: u64, b: bool) -> u64 {
    if b {
        n.wrapping_add(1)
    } else {
        n
    }
}

fn bump(n: u64, b: bool) -> (r: u64)
    ensures
        r == bumped(n, b),
{
    if b {
        n.wrapping_add(1)
    } else {
        n
    }
}

/// A slice header counted. It is bad where the slice data would start behind the end, or the
/// quantiser is out of range.
#[verifier::opaque]
pub open spec fn counted(st: Stats, sh: HeaderV, len: nat) -> Stats {
    let st = typed(st, sh.slice_type);
    Stats {
        frames: bumped(st.frames, sh.first_slice_segment_in_pic_flag),
        qp_min: if sh.slice_qp < st.qp_min {
            sh.slice_qp
        } else {
            st.qp_min
        },
        qp_max: if sh.slice_qp > st.qp_max {
            sh.slice_qp
        } else {
            st.qp_max
        },
        unsupported: bumped(st.unsupported, sh.unsupported),
        bad_header: bumped(
            st.bad_header,
            sh.data_offset > len || sh.slice_qp < 0 || sh.slice_qp > 51,
        ),
        ..st
    }
}

fn count_header(st: Stats, sh: &SliceHeader, len: usize) -> (r: Stats)
    ensures
        r == counted(st, sh@, len as nat),
{
    proof {
        reveal(counted);
    }
    let st = match sh.slice_type {
        Some(SliceType::I) => Stats { i_slices: st.i_slices.wrapping_add(1), ..st },
        Some(SliceType::P) => Stats { p_slices: st.p_slices.wrapping_add(1), ..st },
        Some(SliceType::B) => Stats { b_slices: st.b_slices.wrapping_add(1), ..st },
        None => Stats { dependent: st.dependent.wrapping_add(1), ..st },
    };
    Stats {
        frames: bump(st.frames, sh.first_slice_segment_in_pic_flag),
        qp_min: if sh.slice_qp < st.qp_min {
            sh.slice_qp
        } else {
            st.qp_min
        },
        qp_max: if sh.slice_qp > st.qp_max {
            sh.slice_qp
        } else {
            st.qp_max
        },
        unsupported: bump(st.unsupported, sh.unsupported),
        bad_header: bump(
            st.bad_header,
            sh.data_offset > len || sh.slice_qp < 0 || sh.slice_qp > 51,
        ),
        ..st
    }
}

// ---------------------------------------------------------------------------
// The stream

/// Where decoding a stream stands: the parameter sets, the picture order count of the lowest
/// temporal layer, the pictures kept, the number of the current picture, and the counters.
pub struct StreamV {
    pub nal_length_size: Option<usize>,
    pub sps: Map<u32, SpsV>,
    pub pps: Map<u32, Pps>,
    pub poc_tid0: i32,
    pub dpb: Seq<FrameMvV>,
    pub frame_index: i32,
    pub st: Stats,
}

/// The pictures kept with one more, the oldest dropped beyond 16.
pub open spec fn kept(dpb: Seq<FrameMvV>, f: FrameMvV) -> Seq<FrameMvV> {
    let d = dpb.push(f);
    if d.len() > 16 {
        d.drop_first()
    } else {
        d
    }
}

impl StreamV {
    /// Before the first unit.
    pub open spec fn empty() -> StreamV {
        StreamV {
            nal_length_size: None,
            sps: Map::empty(),
            pps: Map::empty(),
            poc_tid0: 0,
            dpb: Seq::empty(),
            frame_index: -1i32,
            st: Stats { hevc: true, qp_min: 999, ..Stats::zero() },
        }
    }

    /// A parameter set entered, where the unit is one.
    pub open spec fn with_set(self, n: NalView) -> StreamV {
        if n.nal_unit_type == NAL_SPS {
            let s = sps_of(n.rbsp);
            StreamV { sps: self.sps.insert(s.sps_id, s), st: noted(self.st, s), ..self }
        } else if n.nal_unit_type == NAL_PPS {
            let p = pps_of(n.rbsp);
            StreamV { pps: self.pps.insert(p.pps_id, p), ..self }
        } else {
            self
        }
    }

    /// Parameter sets `i..` entered.
    pub open spec fn with_sets(self, nals: Seq<NalView>, i: int) -> StreamV
        decreases nals.len() - i,
    {
        if i >= nals.len() {
            self
        } else {
            self.with_set(nals[i]).with_sets(nals, i + 1)
        }
    }

    /// Before the first packet: the parameter sets of an hvcC record, if `extradata` is one.
    pub open spec fn start(extradata: Seq<u8>) -> StreamV {
        match hvcc_of(extradata) {
            None => StreamV::empty(),
            Some(h) => StreamV {
                nal_length_size: Some(h.nal_length_size as usize),
                ..StreamV::empty()
            }.with_sets(h.param_sets, 0),
        }
    }

    /// The parameter sets that a slice refers to.
    pub open spec fn sets_of(self, n: NalView) -> Option<(SpsV, Pps)> {
        let id = slice_pps_id(n);
        if self.pps.contains_key(id) && self.sps.contains_key(self.pps[id].sps_id) {
            Some((self.sps[self.pps[id].sps_id], self.pps[id]))
        } else {
            None
        }
    }

    /// The picture order count of a slice.
    pub open spec fn slice_poc(self, n: NalView, sps: SpsV, sh: HeaderV) -> i32 {
        if sh.is_idr {
            0
        } else {
            poc_of(sps.log2_max_poc_lsb, self.poc_tid0, sh.poc_lsb as i32, n.nal_unit_type)
        }
    }

    /// The references of a slice.
    pub open spec fn slice_refs(self, sh: HeaderV, poc: i32) -> RefV {
        let lists = ref_lists(sh, poc);
        RefV {
            poc,
            lists,
            col: match col_number(sh, lists, self.dpb) {
                Some(i) => Some(self.dpb[i]),
                None => None,
            },
        }
    }

    /// A slice whose header has been counted decoded: its rows.
    #[verifier::opaque]
    pub open spec fn decode(self, n: NalView, sps: SpsV, pps: Pps, sh: HeaderV) -> (
        StreamV,
        Seq<MvCompact>,
    ) {
        let poc = self.slice_poc(n, sps, sh);
        let s = decoded(
            n.rbsp,
            sh,
            sps,
            pps,
            self.slice_refs(sh, poc),
            self.frame_index,
            Seq::empty(),
        );
        (
            StreamV {
                dpb: kept(self.dpb, s.frame),
                poc_tid0: if n.nuh_temporal_id_plus1 == 1 {
                    poc
                } else {
                    self.poc_tid0
                },
                st: Stats {
                    sync_attempt: self.st.sync_attempt.wrapping_add(1),
                    sync_ok: bumped(self.st.sync_ok, s.ok),
                    ..self.st
                },
                ..self
            },
            s.out,
        )
    }

    /// A slice: its rows. One whose header does not parse, or without parameter sets, changes
    /// nothing. One with tiles or wavefronts, or a dependent segment, is only counted. Of one with
    /// block sizes that do not go together, with sizes past the range of machine words, or with more
    /// merge candidates than there can be, the attempt is counted too.
    #[verifier::opaque]
    pub open spec fn slice(self, n: NalView) -> (StreamV, Seq<MvCompact>) {
        match self.sets_of(n) {
            None => (self, Seq::empty()),
            Some((sps, pps)) => match header_of(n, sps, pps) {
                None => (self, Seq::empty()),
                Some(sh) => {
                    let s = StreamV {
                        st: counted(self.st, sh, n.rbsp.len()),
                        frame_index: if sh.first_slice_segment_in_pic_flag {
                            self.frame_index.wrapping_add(1)
                        } else {
                            self.frame_index
                        },
                        ..self
                    };
                    if sh.unsupported || sh.slice_type is None {
                        (s, Seq::empty())
                    } else if !sps.decodable() || sh.inter.merge_cand > 5 {
                        (
                            StreamV {
                                st: Stats {
                                    sync_attempt: s.st.sync_attempt.wrapping_add(1),
                                    ..s.st
                                },
                                ..s
                            },
                            Seq::empty(),
                        )
                    } else {
                        s.decode(n, sps, pps, sh)
                    }
                },
            },
        }
    }

    /// One NAL unit: its rows.
    pub open spec fn step(self, n: NalView) -> (StreamV, Seq<MvCompact>) {
        if vcl(n.nal_unit_type) {
            self.slice(n)
        } else {
            (self.with_set(n), Seq::empty())
        }
    }

    /// NAL units `i..`: their rows behind those in `out`.
    pub open spec fn steps(self, nals: Seq<NalView>, i: int, out: Seq<MvCompact>) -> (
        StreamV,
        Seq<MvCompact>,
    )
        decreases nals.len() - i,
    {
        if i >= nals.len() {
            (self, out)
        } else {
            let (s, rows) = self.step(nals[i]);
            s.steps(nals, i + 1, out + rows)
        }
    }

    /// The NAL units of a packet, framed as the stream frames them.
    pub open spec fn units(self, data: Seq<u8>) -> Seq<NalView> {
        match self.nal_length_size {
            Some(n) => nals_of(framing::prefixed_units(data, n as nat, 0)),
            None => nals_of(framing::annexb_units(data)),
        }
    }

    /// One packet: its rows.
    pub open spec fn packet(self, data: Seq<u8>) -> (StreamV, Seq<MvCompact>) {
        self.steps(self.units(data), 0, Seq::empty())
    }
}

/// Decodes an H.265 stream packet by packet.
pub struct HevcStream {
    nal_length_size: Option<usize>,
    sps: HashMap<u32, Sps>,
    pps: HashMap<u32, Pps>,
    poc_tid0: i32,
    dpb: Vec<FrameMv>,
    frame_index: i32,
    st: Stats,
    scratch: HevcScratch,
}

/// Parameter sets as they are modelled.
pub open spec fn sps_views(m: Map<u32, Sps>) -> Map<u32, SpsV> {
    m.map_values(|s: Sps| s@)
}

impl View for HevcStream {
    type V = StreamV;

    closed spec fn view(&self) -> StreamV {
        StreamV {
            nal_length_size: self.nal_length_size,
            sps: sps_views(self.sps@),
            pps: self.pps@,
            poc_tid0: self.poc_tid0,
            dpb: frames(self.dpb@),
            frame_index: self.frame_index,
            st: self.st,
        }
    }
}

impl HevcStream {
    /// Parameter sets and kept pictures are well-formed.
    pub closed spec fn wf(self) -> bool {
        &&& forall|id: u32| self.sps@.contains_key(id) ==> (#[trigger] self.sps@[id]).wf()
        &&& forall|i: int| 0 <= i < self.dpb@.len() ==> (#[trigger] self.dpb@[i])@.wf()
    }

    /// Starts a stream. `extradata` is the hvcC record of the container, or anything else for a
    /// stream with start codes.
    pub fn new(extradata: &[u8]) -> (s: HevcStream)
        ensures
            s@ == StreamV::start(extradata@),
            s.wf(),
    {
        let zero: Stats = Stats::default();
        let mut s = HevcStream {
            nal_length_size: None,
            sps: HashMap::new(),
            pps: HashMap::new(),
            poc_tid0: 0,
            dpb: Vec::new(),
            frame_index: -1,
            st: Stats { hevc: true, qp_min: 999, ..zero },
            scratch: HevcScratch::default(),
        };
        assert(s@.dpb =~= Seq::<FrameMvV>::empty());
        assert(s@.sps =~= Map::<u32, SpsV>::empty());
        match parse_hvcc(extradata) {
            None => s,
            Some(h) => {
                s.nal_length_size = Some(h.nal_length_size);
                let ghost start = s@;
                let ghost nals = nal_views(h.param_sets@);
                let mut i: usize = 0;
                while i < h.param_sets.len()
                    invariant
                        s.wf(),
                        nals == nal_views(h.param_sets@),
                        i <= h.param_sets@.len(),
                        s@.with_sets(nals, i as int) == start.with_sets(nals, 0),
                    decreases h.param_sets@.len() - i,
                {
                    assert(nals[i as int] == h.param_sets@[i as int]@);
                    s.enter_set(&h.param_sets[i]);
                    i += 1;
                }
                s
            },
        }
    }

    fn enter_set(&mut self, n: &Nal)
        requires
            old(self).wf(),
        ensures
            final(self)@ == old(self)@.with_set(n@),
            final(self).wf(),
    {
        match n.nal_unit_type {
            NAL_SPS => {
                let s = parse_sps(n.rbsp.as_slice());
                self.st = note_sps(self.st, &s);
                let id = s.sps_id;
                let ghost before = self.sps@;
                self.sps.insert(id, s);
                assert(sps_views(self.sps@) =~= sps_views(before).insert(id, s@));
            },
            NAL_PPS => {
                let p = parse_pps(n.rbsp.as_slice());
                self.pps.insert(p.pps_id, p);
            },
            _ => {},
        }
    }

    fn keep(&mut self, f: FrameMv)
        requires
            old(self).wf(),
            f@.wf(),
        ensures
            final(self)@ == (StreamV { dpb: kept(old(self)@.dpb, f@), ..old(self)@ }),
            final(self).wf(),
    {
        let ghost before = self.dpb@;
        self.dpb.push(f);
        assert(frames(self.dpb@) =~= frames(before).push(f@));
        if self.dpb.len() > 16 {
            let ghost full = self.dpb@;
            let oldest = self.dpb.remove(0);
            assert(frames(self.dpb@) =~= frames(full).drop_first());
            self.scratch.mvf_pool.push(oldest.tab_mvf);
        }
    }

    fn decode(&mut self, n: &Nal, sps: &Sps, pps: &Pps, sh: &SliceHeader) -> (rows: Vec<MvCompact>)
        requires
            old(self).wf(),
            sps@.decodable(),
            sh.max_num_merge_cand <= 5,
            sh.short_rps@.wf(),
        ensures
            (final(self)@, rows@) == old(self)@.decode(n@, sps@, *pps, sh@),
            final(self).wf(),
    {
        proof {
            reveal(StreamV::decode);
        }
        let poc = if sh.is_idr {
            0
        } else {
            hevc_compute_poc(
                sps.log2_max_poc_lsb,
                self.poc_tid0,
                sh.poc_lsb as i32,
                n.nal_unit_type,
            )
        };
        let (ref_poc, ref_long) = build_lists(sh, poc);
        let col_idx = find_col(sh, &ref_poc, &self.dpb);
        let ghost lists = super::refs::lists_of(ref_poc, ref_long);
        let col = match col_idx {
            Some(i) => Some(&self.dpb[i]),
            None => None,
        };
        let ri = RefInfo { poc, ref_poc, ref_long, col };
        proof {
            if let Some(i) = col_idx {
                assert(col_number(sh@, lists, frames(self.dpb@)) == Some(i as int));
                assert(frames(self.dpb@)[i as int] == self.dpb@[i as int]@);
            } else {
                assert(col_number(sh@, lists, frames(self.dpb@)) is None);
            }
            assert(ri@ == old(self)@.slice_refs(sh@, poc));
        }
        let none: Vec<MvCompact> = Vec::new();
        assert(none@ =~= Seq::<MvCompact>::empty());
        let (res, frame, rows) = decode_slice(
            n.rbsp.as_slice(),
            sh,
            sps,
            pps,
            &ri,
            self.frame_index,
            none,
            &mut self.scratch,
        );
        self.st = Stats {
            sync_attempt: self.st.sync_attempt.wrapping_add(1),
            sync_ok: bump(self.st.sync_ok, res.ok),
            ..self.st
        };
        if n.nuh_temporal_id_plus1 == 1 {
            self.poc_tid0 = poc;
        }
        self.keep(frame);
        rows
    }

    fn slice(&mut self, n: &Nal) -> (rows: Vec<MvCompact>)
        requires
            old(self).wf(),
        ensures
            (final(self)@, rows@) == old(self)@.slice(n@),
            final(self).wf(),
    {
        proof {
            reveal(StreamV::slice);
        }
        let none: Vec<MvCompact> = Vec::new();
        assert(none@ =~= Seq::<MvCompact>::empty());
        let id = read_slice_pps_id(n);
        let pps = match self.pps.get(&id) {
            None => {
                return none;
            },
            Some(p) => *p,
        };
        let sps = match self.sps.get(&pps.sps_id) {
            None => {
                return none;
            },
            Some(s) => copy_sps(s),
        };
        match parse_slice_header_with(n, &sps, &pps) {
            None => none,
            Some(sh) => {
                self.st = count_header(self.st, &sh, n.rbsp.len());
                if sh.first_slice_segment_in_pic_flag {
                    self.frame_index = self.frame_index.wrapping_add(1);
                }
                if sh.unsupported || sh.slice_type.is_none() {
                    return none;
                }
                if !sps.is_decodable() || sh.max_num_merge_cand > 5 {
                    self.st = Stats {
                        sync_attempt: self.st.sync_attempt.wrapping_add(1),
                        ..self.st
                    };
                    return none;
                }
                self.decode(n, &sps, &pps, &sh)
            },
        }
    }

    fn step(&mut self, n: &Nal) -> (rows: Vec<MvCompact>)
        requires
            old(self).wf(),
        ensures
            (final(self)@, rows@) == old(self)@.step(n@),
            final(self).wf(),
    {
        if is_vcl(n.nal_unit_type) {
            self.slice(n)
        } else {
            self.enter_set(n);
            let none: Vec<MvCompact> = Vec::new();
            assert(none@ =~= Seq::<MvCompact>::empty());
            none
        }
    }

    /// Decodes one packet; returns its motion vectors.
    pub fn packet(&mut self, data: &[u8]) -> (rows: Vec<MvCompact>)
        requires
            old(self).wf(),
        ensures
            (final(self)@, rows@) == old(self)@.packet(data@),
            final(self).wf(),
    {
        let nals = match self.nal_length_size {
            Some(n) => split_length_prefixed(data, n),
            None => split_annexb(data),
        };
        let ghost all_units = nal_views(nals@);
        let mut rows: Vec<MvCompact> = Vec::new();
        assert(rows@ =~= Seq::<MvCompact>::empty());
        let mut i: usize = 0;
        while i < nals.len()
            invariant
                self.wf(),
                i <= nals@.len(),
                all_units == nal_views(nals@),
                self@.steps(all_units, i as int, rows@) == old(self)@.packet(data@),
            decreases nals@.len() - i,
        {
            assert(all_units[i as int] == nals@[i as int]@);
            let mut more = self.step(&nals[i]);
            rows.append(&mut more);
            i += 1;
        }
        rows
    }

    /// The counters so far.
    pub fn stats(&self) -> (s: Stats)
        ensures
            s == self@.st,
    {
        self.st
    }
}

fn copy_sps(s: &Sps) -> (r: Sps)
    requires
        s.wf(),
    ensures
        r@ == s@,
        r.wf(),
{
    let mut st_rps: Vec<ShortRps> = Vec::new();
    let mut i: usize = 0;
    while i < s.st_rps.len()
        invariant
            s.wf(),
            i <= s.st_rps@.len(),
            st_rps@.len() == i,
            forall|k: int| 0 <= k < i ==> (#[trigger] st_rps@[k])@ == s.st_rps@[k]@,
        decreases s.st_rps@.len() - i,
    {
        st_rps.push(s.st_rps[i].copy());
        i += 1;
    }
    let r = Sps {
        sps_id: s.sps_id,
        profile_idc: s.profile_idc,
        chroma_format_idc: s.chroma_format_idc,
        separate_colour_plane_flag: s.separate_colour_plane_flag,
        pic_width_in_luma_samples: s.pic_width_in_luma_samples,
        pic_height_in_luma_samples: s.pic_height_in_luma_samples,
        log2_max_poc_lsb: s.log2_max_poc_lsb,
        ctb_log2_size_y: s.ctb_log2_size_y,
        min_cb_log2_size_y: s.min_cb_log2_size_y,
        min_tb_log2_size_y: s.min_tb_log2_size_y,
        max_tb_log2_size_y: s.max_tb_log2_size_y,
        max_transform_hierarchy_depth_inter: s.max_transform_hierarchy_depth_inter,
        max_transform_hierarchy_depth_intra: s.max_transform_hierarchy_depth_intra,
        scaling_list_enabled: s.scaling_list_enabled,
        amp_enabled: s.amp_enabled,
        sao_enabled: s.sao_enabled,
        pcm_enabled: s.pcm_enabled,
        pcm_log2_min_cb: s.pcm_log2_min_cb,
        pcm_log2_max_cb: s.pcm_log2_max_cb,
        num_long_term_ref_pics_sps: s.num_long_term_ref_pics_sps,
        long_term_ref_pics_present: s.long_term_ref_pics_present,
        temporal_mvp_enabled: s.temporal_mvp_enabled,
        st_rps,
    };
    assert(r@.st_rps =~= s@.st_rps);
    r
}

// ---------------------------------------------------------------------------
// Laws

impl StreamV {
    /// At most 16 pictures are kept, and the pictures counted are those numbered.
    pub open spec fn consistent(self) -> bool {
        &&& self.dpb.len() <= 16
        &&& -1 <= self.frame_index
        &&& self.st.frames == self.frame_index + 1
    }
}

proof fn lemma_step(s: StreamV, n: NalView)
    requires
        s.consistent(),
        s.frame_index < i32::MAX,
    ensures
        s.step(n).0.consistent(),
        s.frame_index <= s.step(n).0.frame_index <= s.frame_index + 1,
{
    reveal(StreamV::slice);
    reveal(StreamV::decode);
    reveal(counted);
}

proof fn lemma_steps(s: StreamV, nals: Seq<NalView>, i: int, out: Seq<MvCompact>)
    requires
        s.consistent(),
        0 <= i <= nals.len(),
        s.frame_index + (nals.len() - i) <= i32::MAX,
    ensures
        s.steps(nals, i, out).0.consistent(),
        s.frame_index <= s.steps(nals, i, out).0.frame_index,
    decreases nals.len() - i,
{
    if i < nals.len() {
        lemma_step(s, nals[i]);
        let (t, rows) = s.step(nals[i]);
        lemma_steps(t, nals, i + 1, out + rows);
    }
}

/// Over any packet at most 16 pictures are kept, picture numbers never go back, and the count of
/// pictures stays one more than the number of the latest.
pub proof fn law_stream_stays_consistent(s: StreamV, data: Seq<u8>)
    requires
        s.consistent(),
        s.frame_index + s.units(data).len() <= i32::MAX,
    ensures
        s.packet(data).0.consistent(),
        s.frame_index <= s.packet(data).0.frame_index,
{
    lemma_steps(s, s.units(data), 0, Seq::empty());
}

proof fn lemma_sets_consistent(s: StreamV, nals: Seq<NalView>, i: int)
    requires
        s.consistent(),
    ensures
        s.with_sets(nals, i).consistent(),
    decreases nals.len() - i,
{
    if i < nals.len() {
        lemma_sets_consistent(s.with_set(nals[i]), nals, i + 1);
    }
}

/// A stream starts with no picture kept and none counted.
pub proof fn law_stream_starts_consistent(extradata: Seq<u8>)
    ensures
        StreamV::start(extradata).consistent(),
{
    if let Some(h) = hvcc_of(extradata) {
        lemma_sets_consistent(
            StreamV { nal_length_size: Some(h.nal_length_size as usize), ..StreamV::empty() },
            h.param_sets,
            0,
        );
    }
}

/// The picture order count of a picture agrees with its least significant part, and lies from less
/// than half of the period before that of the previous picture of the lowest temporal layer to half of
/// it behind, where that one is not negative.
pub proof fn law_order_count_is_nearest(log2_max: u32, tid0: i32, lsb: i32, nal_type: u8)
    requires
        1 <= log2_max <= 16,
        0 <= lsb < 1i32.wrapping_shl(log2_max),
        0 <= tid0 <= 0x4000_0000,
        !(16 <= nal_type <= 18),
    ensures
        ({
            let max = 1i32.wrapping_shl(log2_max);
            let poc = poc_of(log2_max, tid0, lsb, nal_type) as int;
            &&& poc % (max as int) == lsb
            &&& -(max / 2) < poc - tid0 <= max / 2
        }),
{
    let k = log2_max % 32;
    assert(1 <= k <= 16 ==> 2 <= 1i32 << k <= 0x10000 && (1i32 << k) % 2 == 0) by (bit_vector);
    let max = 1i32.wrapping_shl(log2_max);
    let m = max as int;
    let prev_lsb = tid0 as int % m;
    let prev_msb = tid0 - prev_lsb;
    lemma_fundamental_div_mod(tid0 as int, m);
    assert(0 <= prev_lsb < m && prev_lsb <= tid0) by (nonlinear_arith)
        requires
            0 <= tid0,
            0 < m,
            prev_lsb == tid0 as int % m,
    ;
    lemma_mod_multiples_basic(tid0 as int / m, m);
    assert(prev_msb == (tid0 as int / m) * m) by (nonlinear_arith)
        requires
            tid0 == m * (tid0 as int / m) + prev_lsb,
            prev_msb == tid0 - prev_lsb,
    ;
    law_poc_is_nearest(max, lsb, prev_msb as i32, prev_lsb as i32);
}

impl StreamV {
    /// The header of a slice, where it parses with the parameter sets seen so far.
    pub open spec fn header(self, n: NalView) -> Option<HeaderV> {
        if vcl(n.nal_unit_type) {
            match self.sets_of(n) {
                None => None,
                Some((sps, pps)) => header_of(n, sps, pps),
            }
        } else {
            None
        }
    }

    /// The headers of the slices among NAL units `i..`.
    pub open spec fn headers(self, nals: Seq<NalView>, i: int) -> Seq<HeaderV>
        decreases nals.len() - i,
    {
        if i >= nals.len() {
            Seq::empty()
        } else {
            let rest = self.step(nals[i]).0.headers(nals, i + 1);
            match self.header(nals[i]) {
                Some(h) => seq![h] + rest,
                None => rest,
            }
        }
    }
}

/// How many of the headers `p` holds of.
pub open spec fn tally(hs: Seq<HeaderV>, p: spec_fn(HeaderV) -> bool) -> nat
    decreases hs.len(),
{
    if hs.len() == 0 {
        0
    } else {
        tally(hs.drop_first(), p) + if p(hs[0]) {
            1nat
        } else {
            0nat
        }
    }
}

/// A slice of type `t`, or a dependent segment for `None`.
pub open spec fn has_type(t: Option<SliceType>) -> spec_fn(HeaderV) -> bool {
    |h: HeaderV| h.slice_type == t
}

/// The first slice of a picture.
pub open spec fn is_first() -> spec_fn(HeaderV) -> bool {
    |h: HeaderV| h.first_slice_segment_in_pic_flag
}

/// A slice with tiles or wavefronts.
pub open spec fn is_unsupported() -> spec_fn(HeaderV) -> bool {
    |h: HeaderV| h.unsupported
}

/// A slice whose decoding is tried.
pub open spec fn is_tried() -> spec_fn(HeaderV) -> bool {
    |h: HeaderV| !h.unsupported && h.slice_type is Some
}

/// The counters `b` count the slices with headers `hs` on top of `a`.
pub open spec fn counts(a: Stats, b: Stats, hs: Seq<HeaderV>) -> bool {
    &&& b.frames == a.frames + tally(hs, is_first())
    &&& b.i_slices == a.i_slices + tally(hs, has_type(Some(SliceType::I)))
    &&& b.p_slices == a.p_slices + tally(hs, has_type(Some(SliceType::P)))
    &&& b.b_slices == a.b_slices + tally(hs, has_type(Some(SliceType::B)))
    &&& b.dependent == a.dependent + tally(hs, has_type(None))
    &&& b.unsupported == a.unsupported + tally(hs, is_unsupported())
    &&& b.sync_attempt == a.sync_attempt + tally(hs, is_tried())
    &&& a.sync_ok <= b.sync_ok
    &&& b.sync_ok - a.sync_ok <= b.sync_attempt - a.sync_attempt
}

/// The counters can count `n` more slices.
pub open spec fn has_room(st: Stats, n: int) -> bool {
    &&& st.frames + n <= u64::MAX
    &&& st.i_slices + n <= u64::MAX
    &&& st.p_slices + n <= u64::MAX
    &&& st.b_slices + n <= u64::MAX
    &&& st.dependent + n <= u64::MAX
    &&& st.unsupported + n <= u64::MAX
    &&& st.sync_attempt + n <= u64::MAX
    &&& st.sync_ok + n <= u64::MAX
}

proof fn lemma_step_counts(s: StreamV, n: NalView)
    requires
        has_room(s.st, 1),
    ensures
        ({
            let t = s.step(n).0;
            match s.header(n) {
                Some(h) => counts(s.st, t.st, seq![h]),
                None => counts(s.st, t.st, Seq::empty()),
            }
        }),
{
    reveal(StreamV::slice);
    reveal(StreamV::decode);
    reveal(counted);
    if let Some(h) = s.header(n) {
        let hs = seq![h];
        assert(hs.drop_first() =~= Seq::empty());
        assert forall|p: spec_fn(HeaderV) -> bool| #[trigger] tally(hs, p) == if p(h) {
            1nat
        } else {
            0nat
        } by {
            assert(tally(hs.drop_first(), p) == 0);
        }
    }
}

proof fn lemma_steps_count(s: StreamV, nals: Seq<NalView>, i: int, out: Seq<MvCompact>)
    requires
        0 <= i <= nals.len(),
        has_room(s.st, nals.len() - i),
    ensures
        counts(s.st, s.steps(nals, i, out).0.st, s.headers(nals, i)),
        s.headers(nals, i).len() <= nals.len() - i,
    decreases nals.len() - i,
{
    if i < nals.len() {
        lemma_step_counts(s, nals[i]);
        let (t, rows) = s.step(nals[i]);
        if let Some(h) = s.header(nals[i]) {
            let hs = seq![h];
            assert(hs.drop_first() =~= Seq::empty());
            let rest = t.headers(nals, i + 1);
            assert((hs + rest).drop_first() =~= rest);
            assert forall|p: spec_fn(HeaderV) -> bool| #[trigger]
                tally(hs + rest, p) == tally(hs, p) + tally(rest, p) by {
                assert(tally(hs.drop_first(), p) == 0);
            }
            lemma_tally_one(h);
        }
        lemma_steps_count(t, nals, i + 1, out + rows);
    }
}

/// One header counts at most once.
proof fn lemma_tally_one(h: HeaderV)
    ensures
        forall|p: spec_fn(HeaderV) -> bool| #[trigger] tally(seq![h], p) <= 1,
{
    assert forall|p: spec_fn(HeaderV) -> bool| #[trigger] tally(seq![h], p) <= 1 by {
        assert(seq![h].drop_first() =~= Seq::empty());
        assert(tally(seq![h].drop_first(), p) == 0);
    }
}

/// Over any packet each slice whose header parses is counted by its type, first slices as pictures,
/// slices with tiles or wavefronts as unsupported, and just the others that are not dependent segments
/// as attempts to decode, of which some succeed.
pub proof fn law_slices_are_counted(s: StreamV, data: Seq<u8>)
    requires
        has_room(s.st, s.units(data).len() as int),
    ensures
        counts(s.st, s.packet(data).0.st, s.headers(s.units(data), 0)),
{
    lemma_steps_count(s, s.units(data), 0, Seq::empty());
}

proof fn lemma_types(hs: Seq<HeaderV>)
    ensures
        tally(hs, has_type(Some(SliceType::I))) + tally(hs, has_type(Some(SliceType::P))) + tally(
            hs,
            has_type(Some(SliceType::B)),
        ) + tally(hs, has_type(None)) == hs.len(),
    decreases hs.len(),
{
    if hs.len() > 0 {
        lemma_types(hs.drop_first());
        match hs[0].slice_type {
            None => {},
            Some(SliceType::I) => {},
            Some(SliceType::P) => {},
            Some(SliceType::B) => {},
        }
    }
}

/// The slices counted by type are all whose header parses.
pub proof fn law_every_header_is_counted(s: StreamV, data: Seq<u8>)
    requires
        has_room(s.st, s.units(data).len() as int),
    ensures
        ({
            let (a, b) = (s.st, s.packet(data).0.st);
            (b.i_slices - a.i_slices) + (b.p_slices - a.p_slices) + (b.b_slices - a.b_slices) + (
            b.dependent - a.dependent) == s.headers(s.units(data), 0).len()
        }),
{
    law_slices_are_counted(s, data);
    lemma_types(s.headers(s.units(data), 0));
}

} // verus!
