//! What the fields of a slice header are, and where they stand.

use super::nal::NalView;
use super::params::{pps_head, pps_tail, pps_tools, short_rps, sps_sizes, sps_tools, Pps, SpsV};
use super::slice_header::{
    collocated, filter_fields, flag_list, header_end, header_of, header_start, inter_fields,
    list_modification, log2_up, own_fields, ref_counts, segment_fields, slice_refs, slice_rps,
    type_fields, weights, SliceType,
};
use crate::bits::Bits;
use crate::syntax::{before, is_set, value, Element};
use vstd::prelude::*;

verus! {

/// The number of active references is the default of the picture or an override. List 1 of a P slice is
/// empty.
pub proof fn law_reference_counts(b: Bits, pps: Pps, is_b: bool)
    ensures
        ({
            let (n0, n1, rest) = ref_counts(b, pps, is_b);
            let (own, b1) = b.flag();
            let (c0, b2) = b1.ue();
            let (c1, b3) = b2.ue();
            &&& !is_b ==> n1 == 0
            &&& !own ==> n0 == pps.num_ref_idx_l0_default_active && rest == b1
            &&& !own && is_b ==> n1 == pps.num_ref_idx_l1_default_active
            &&& own && c0 < u32::MAX ==> n0 == c0 + 1
            &&& own && is_b && c1 < u32::MAX ==> n1 == c1 + 1
            &&& own ==> rest == if is_b {
                b3
            } else {
                b2
            }
        }),
{
    reveal(ref_counts);
}

/// The collocated picture is one of list 0, unless a B slice says list 1, and the first of the list, unless
/// that has more than one and says which.
pub proof fn law_collocated_reference(b: Bits, tmvp: bool, nb0: u32, nb1: u32, is_b: bool)
    ensures
        ({
            let (list, idx, rest) = collocated(b, tmvp, nb0, nb1, is_b);
            let (from_l0, b1) = b.flag();
            let (p, c) = b.ue();
            let (q, d) = b1.ue();
            &&& !tmvp ==> list == 0 && idx == 0 && rest == b
            &&& tmvp && !is_b ==> list == 0
            &&& tmvp && is_b ==> list == if from_l0 {
                0usize
            } else {
                1usize
            }
            &&& tmvp && !is_b && nb0 > 1 ==> idx == p && rest == c
            &&& tmvp && !is_b && nb0 <= 1 ==> idx == 0 && rest == b
            &&& tmvp && is_b && (if from_l0 {
                nb0
            } else {
                nb1
            }) > 1 ==> idx == q && rest == d
            &&& tmvp && is_b && (if from_l0 {
                nb0
            } else {
                nb1
            }) <= 1 ==> idx == 0 && rest == b1
        }),
{
    reveal(collocated);
}

/// The fields of a P or B slice without weights: reference counts, order of the lists, whether list 1 has
/// zero differences, which contexts, the collocated picture, and how many merge candidates there are
/// less than five.
pub proof fn law_inter_fields(b: Bits, sps: SpsV, pps: Pps, is_b: bool, total: u32, tmvp: bool)
    requires
        !pps.weighted_pred_flag,
        !pps.weighted_bipred_flag,
    ensures
        ({
            let (n0, n1, b1) = ref_counts(b, pps, is_b);
            let b2 = list_modification(b1, pps, total, n0, n1, is_b);
            let (zero, b3) = if is_b {
                b2.flag()
            } else {
                (false, b2)
            };
            let (init, b4) = if pps.cabac_init_present_flag {
                b3.flag()
            } else {
                (false, b3)
            };
            let (list, idx, b5) = collocated(b4, tmvp, n0, n1, is_b);
            let (fewer, b6) = b5.ue();
            inter_fields(b, sps, pps, is_b, total, tmvp) matches Some((f, rest)) && f.nb0 == n0 && f.nb1
                == n1 && f.mvd_l1_zero == zero && f.cabac_init == init && f.col_list == list
                && f.col_idx == idx && rest == b6 && (fewer <= 5 ==> f.merge_cand == 5 - fewer)
        }),
{
    reveal(inter_fields);
}

/// Lists are in their own order, unless the picture allows another one and there is more than one picture.
pub proof fn law_lists_in_their_order(b: Bits, pps: Pps, total: u32, nb0: u32, nb1: u32, is_b: bool)
    ensures
        ({
            let rest = list_modification(b, pps, total, nb0, nb1, is_b);
            let (m0, b1) = b.flag();
            let (m1, b2) = b1.flag();
            &&& !pps.lists_modification_present_flag || total <= 1 ==> rest == b
            &&& pps.lists_modification_present_flag && total > 1 && !m0 && !is_b ==> rest == b1
            &&& pps.lists_modification_present_flag && total > 1 && !m0 && is_b && !m1 ==> rest == b2
        }),
{
    reveal(list_modification);
}

/// The reference pictures of a slice are a set of its own, or one of the parameter set, by its number, for
/// which there are as many bits as the greatest number needs.
pub proof fn law_slice_reference_set(b: Bits, sps: SpsV)
    requires
        sps.st_rps.len() <= 64,
    ensures
        ({
            let (set, rest) = slice_rps(b, sps);
            let (named, b1) = b.flag();
            let n = sps.st_rps.len() as u32;
            let (idx, b2) = b1.u(log2_up(n));
            &&& !named ==> (set, rest) == short_rps(b1, n as int, sps.st_rps, true, n)
            &&& named && n > 1 && idx < n ==> set == Some(sps.st_rps[idx as int]) && rest == b2
            &&& named && n == 1 ==> set == Some(sps.st_rps[0]) && rest == b1
        }),
{
    reveal(slice_rps);
    vstd::arithmetic::power2::lemma2_to64();
    if sps.st_rps.len() > 1 {
        super::slice_header::law_log2_up_is_smallest(sps.st_rps.len() as u32, 0);
    }
}

/// The reference fields of a slice without long-term references: its order count, its set, and whether it
/// predicts from a collocated picture, where the sequence allows that.
pub proof fn law_slice_references(b: Bits, sps: SpsV)
    requires
        !sps.long_term_ref_pics_present,
    ensures
        ({
            let (lsb, b1) = b.u(sps.log2_max_poc_lsb);
            let (set, b2) = slice_rps(b1, sps);
            let (bit, b3) = b2.flag();
            let (f, rest) = slice_refs(b, sps);
            &&& set is None ==> f is None
            &&& set is Some ==> f is Some && f->0.poc_lsb == lsb && f->0.rps == set->0 && f->0.total
                == set->0.uses() as u32
            &&& set is Some && sps.temporal_mvp_enabled ==> f->0.tmvp == bit && rest == b3
            &&& set is Some && !sps.temporal_mvp_enabled ==> !f->0.tmvp && rest == b2
        }),
{
    reveal(slice_refs);
}

/// An independent slice has its type, its references unless it is of an IDR picture, the flags of
/// sample-adaptive offset, the fields of P and B slices, and the distance of its quantiser to that of the
/// picture.
pub proof fn law_slice_fields(b: Bits, sps: SpsV, pps: Pps, is_idr: bool)
    requires
        own_fields(b, sps, pps, is_idr) is Some,
        is_idr || slice_refs(type_fields(b, sps, pps).1, sps).0 is Some,
    ensures
        ({
            let (t, b1) = type_fields(b, sps, pps);
            let (refs, r2) = slice_refs(b1, sps);
            let b2 = if is_idr {
                b1
            } else {
                r2
            };
            let (luma, b3) = if sps.sao_enabled {
                b2.flag()
            } else {
                (false, b2)
            };
            let (chroma, b4) = if sps.sao_enabled && sps.chroma_format_idc != 0 {
                b3.flag()
            } else {
                (false, b3)
            };
            let inter = inter_fields(
                b4,
                sps,
                pps,
                t == SliceType::B,
                if is_idr {
                    0
                } else {
                    refs->0.total
                },
                !is_idr && refs->0.tmvp,
            );
            let b5 = if t == SliceType::I {
                b4
            } else {
                (inter->0).1
            };
            let (dqp, b6) = b5.se();
            let (f, rest) = own_fields(b, sps, pps, is_idr)->0;
            &&& f.slice_type == t
            &&& f.sao_luma == luma && f.sao_chroma == chroma
            &&& f.slice_qp == pps.pic_init_qp.wrapping_add(dqp)
            &&& t != SliceType::I ==> f.inter == (inter->0).0
            &&& !is_idr ==> f.refs == refs->0
            &&& is_idr ==> f.refs.poc_lsb == 0 && !f.refs.tmvp
            &&& rest == filter_fields(b6, pps, luma || chroma)
        }),
{
    reveal(own_fields);
}

/// The code of a slice type stands behind the extra bits of the picture.
pub proof fn law_slice_types(b: Bits, sps: SpsV, pps: Pps)
    requires
        pps.num_extra_slice_header_bits == 0,
    ensures
        ({
            let (t, rest) = type_fields(b, sps, pps);
            let (code, b1) = b.ue();
            &&& code == 0 ==> t == SliceType::B
            &&& code == 1 ==> t == SliceType::P
            &&& code == 2 ==> t == SliceType::I
            &&& !pps.output_flag_present_flag && !sps.separate_colour_plane_flag ==> rest == b1
        }),
{
    reveal(type_fields);
    reveal_with_fuel(crate::bits::skip_u, 1);
}

/// The first segment of a picture starts at tree block 0 and depends on none.
pub proof fn law_segment_address(b: Bits, sps: SpsV, pps: Pps, first: bool)
    ensures
        ({
            let (dependent, address, rest) = segment_fields(b, sps, pps, first);
            let (bit, b1) = b.flag();
            let b2 = if pps.dependent_slice_segments_enabled_flag {
                b1
            } else {
                b
            };
            let (v, b3) = b2.u(log2_up(sps.size_in_ctbs()));
            &&& first ==> !dependent && address == 0 && rest == b
            &&& !first ==> dependent == (pps.dependent_slice_segments_enabled_flag && bit) && address
                == v && rest == b3
        }),
{
    reveal(segment_fields);
}

/// A slice is supported unless its picture has several tiles, or rows of tree blocks that start anew. Its data
/// start with the byte behind the header.
pub proof fn law_slice_header(nal: NalView, sps: SpsV, pps: Pps)
    requires
        header_of(nal, sps, pps) is Some,
    ensures
        ({
            let h = header_of(nal, sps, pps)->0;
            let start = Bits { data: nal.rbsp, pos: 0 };
            let (first, id, b1) = header_start(start, nal.nal_unit_type);
            let (dependent, address, b2) = segment_fields(b1, sps, pps, first);
            let is_idr = nal.nal_unit_type == 19 || nal.nal_unit_type == 20;
            let own = own_fields(b2, sps, pps, is_idr);
            let (f, b3) = own->0;
            let end = header_end(
                if dependent {
                    b2
                } else {
                    b3
                },
                pps,
            );
            &&& h.first_slice_segment_in_pic_flag == first && h.slice_segment_address == address
            &&& h.dependent_slice_segment_flag == dependent
            &&& h.is_idr == is_idr
            &&& h.unsupported == (pps.entropy_coding_sync_enabled_flag || (pps.tiles_enabled_flag && (
            pps.num_tile_columns > 1 || pps.num_tile_rows > 1)))
            &&& dependent ==> h.slice_type is None
            &&& !dependent ==> own is Some && h.slice_type == Some(f.slice_type) && h.inter == f.inter
                && h.slice_qp == f.slice_qp && h.poc_lsb == f.refs.poc_lsb && h.short_rps
                == f.refs.rps && h.slice_temporal_mvp_enabled == f.refs.tmvp && h.sao_luma
                == f.sao_luma && h.sao_chroma == f.sao_chroma
            &&& 0 <= end.pos <= usize::MAX ==> 8 * h.data_offset - 8 < end.pos <= 8 * h.data_offset
        }),
{
    reveal(header_of);
}

/// The weights of a reference: a scale and an offset where its luma is flagged, and two of each where its chroma
/// is. All flags of a list come before its weights.
pub proof fn law_weights(b: Bits, luma: Seq<bool>, chroma: Seq<bool>, i: int)
    requires
        0 <= i < luma.len(),
        chroma.len() == luma.len() || chroma.len() == 0,
    ensures
        ({
            let b1 = if luma[i] {
                b.se().1.se().1
            } else {
                b
            };
            let b2 = if i < chroma.len() && chroma[i] {
                b1.se().1.se().1.se().1.se().1
            } else {
                b1
            };
            weights(b, luma, chroma, i) == weights(b2, luma, chroma, i + 1)
        }),
{
    reveal_with_fuel(crate::bits::skip_se, 5);
}

/// Flags are in the order of the references.
pub proof fn law_flags_in_order(b: Bits, flags: Seq<bool>, n: nat, k: int)
    requires
        0 <= k < n,
        0 <= b.pos,
        b.pos + n <= usize::MAX,
    ensures
        ({
            let (r, rest) = flag_list(b, flags, n);
            &&& r.len() == flags.len() + n
            &&& forall|j: int| 0 <= j < flags.len() ==> #[trigger] r[j] == flags[j]
            &&& r[flags.len() + k] == b.seek(k).flag().0
        }),
    decreases n,
{
    reveal(Bits::flag);
    let (f, b1) = b.flag();
    let more = flags.push(f);
    if n > 1 {
        law_flags_in_order(
            b1,
            more,
            (n - 1) as nat,
            if k > 0 {
                k - 1
            } else {
                0
            },
        );
        let r = flag_list(b1, more, (n - 1) as nat).0;
        assert forall|j: int| 0 <= j < flags.len() implies #[trigger] r[j] == flags[j] by {
            assert(r[j] == more[j]);
        }
        assert(r[flags.len() as int] == more[flags.len() as int]);
    } else {
        assert(flag_list(b1, more, 0) == (more, b1));
    }
}

// ---------------------------------------------------------------------------
// Parameter sets

/// The first fields of a picture parameter set, one behind the other. Counts of references are coded less one,
/// and the quantiser as its distance to 26.
pub proof fn law_picture_parameter_set(b: Bits)
    ensures
        ({
            let row = seq![
                Element::Ue,
                Element::Ue,
                Element::Flag,
                Element::Flag,
                Element::U(3),
                Element::Flag,
                Element::Flag,
                Element::Ue,
                Element::Ue,
                Element::Se,
            ];
            let (p, rest) = pps_head(b);
            &&& p.pps_id == value(b, row, 0) && p.sps_id == value(b, row, 1)
            &&& p.dependent_slice_segments_enabled_flag == is_set(b, row, 2)
            &&& p.output_flag_present_flag == is_set(b, row, 3)
            &&& p.num_extra_slice_header_bits == value(b, row, 4)
            &&& p.sign_data_hiding_enabled == is_set(b, row, 5)
            &&& p.cabac_init_present_flag == is_set(b, row, 6)
            &&& value(b, row, 7) < u32::MAX ==> p.num_ref_idx_l0_default_active == value(b, row, 7)
                + 1
            &&& value(b, row, 8) < u32::MAX ==> p.num_ref_idx_l1_default_active == value(b, row, 8)
                + 1
            &&& value(b, row, 9) <= i32::MAX - 26 ==> p.pic_init_qp == 26 + value(b, row, 9)
            &&& rest == before(b, row, 10)
        }),
{
    reveal(pps_head);
    reveal_with_fuel(before, 11);
}

/// The fields of a picture parameter set on quantisers, weights and tiles.
pub proof fn law_picture_tools(p: Pps, b: Bits)
    ensures
        ({
            let head = seq![Element::Flag, Element::Flag, Element::Flag, Element::Ue];
            let tail = seq![
                Element::Se,
                Element::Se,
                Element::Flag,
                Element::Flag,
                Element::Flag,
                Element::Flag,
                Element::Flag,
                Element::Flag,
            ];
            let (r, rest) = pps_tools(p, b);
            let deltas = is_set(b, head, 2);
            let c = before(
                b,
                head,
                if deltas {
                    4
                } else {
                    3
                },
            );
            &&& r.transform_skip_enabled_flag == is_set(b, head, 1)
            &&& r.cu_qp_delta_enabled_flag == deltas
            &&& r.diff_cu_qp_delta_depth == if deltas {
                value(b, head, 3)
            } else {
                0
            }
            &&& r.pic_slice_chroma_qp_offsets_present == is_set(c, tail, 2)
            &&& r.weighted_pred_flag == is_set(c, tail, 3)
            &&& r.weighted_bipred_flag == is_set(c, tail, 4)
            &&& r.transquant_bypass_enabled_flag == is_set(c, tail, 5)
            &&& r.tiles_enabled_flag == is_set(c, tail, 6)
            &&& r.entropy_coding_sync_enabled_flag == is_set(c, tail, 7)
            &&& rest == before(c, tail, 8)
        }),
{
    reveal(pps_tools);
    reveal_with_fuel(before, 9);
}

/// The last fields of a picture parameter set with one tile and without control of the filter or scaling lists:
/// whether lists may have another order, and the level of parallel merging, which is coded less two.
pub proof fn law_picture_merge_level(p: Pps, b: Bits)
    requires
        !p.tiles_enabled_flag,
        !b.flag().1.flag().0,
        !b.flag().1.flag().1.flag().0,
    ensures
        ({
            let row = seq![
                Element::Flag,
                Element::Flag,
                Element::Flag,
                Element::Flag,
                Element::Ue,
                Element::Flag,
            ];
            let r = pps_tail(p, b);
            &&& r.num_tile_columns == 1 && r.num_tile_rows == 1
            &&& !r.deblocking_filter_control_present_flag
            &&& r.lists_modification_present_flag == is_set(b, row, 3)
            &&& value(b, row, 4) < 100 ==> r.log2_parallel_merge_level == value(b, row, 4) + 2
            &&& r.slice_header_extension_present_flag == is_set(b, row, 5)
        }),
{
    reveal(pps_tail);
    reveal(super::params::tiles);
    reveal(super::params::deblocking);
    reveal_with_fuel(before, 7);
}

/// The block sizes of a sequence parameter set: the smallest coding block is coded less three, the smallest
/// transform block less two, and the largest of each as its distance to the smallest.
pub proof fn law_block_sizes(s: SpsV, b: Bits)
    ensures
        ({
            let row = seq![
                Element::Ue,
                Element::Ue,
                Element::Ue,
                Element::Ue,
                Element::Ue,
                Element::Ue,
            ];
            let (r, rest) = sps_sizes(s, b);
            let small = value(b, row, 0) < 100 && value(b, row, 1) < 100 && value(b, row, 2) < 100
                && value(b, row, 3) < 100;
            &&& small ==> {
                &&& r.min_cb_log2_size_y == value(b, row, 0) + 3
                &&& r.ctb_log2_size_y == value(b, row, 0) + 3 + value(b, row, 1)
                &&& r.min_tb_log2_size_y == value(b, row, 2) + 2
                &&& r.max_tb_log2_size_y == value(b, row, 2) + 2 + value(b, row, 3)
            }
            &&& r.max_transform_hierarchy_depth_inter == value(b, row, 4)
            &&& r.max_transform_hierarchy_depth_intra == value(b, row, 5)
            &&& rest == before(b, row, 6)
        }),
{
    reveal(sps_sizes);
    reveal_with_fuel(before, 7);
}

/// The coding tools of a sequence parameter set without scaling lists: unequal parts, sample-adaptive offset,
/// and raw samples with the sizes of blocks that may have them.
pub proof fn law_sequence_tools(s: SpsV, b: Bits)
    requires
        !b.flag().0,
    ensures
        ({
            let row = seq![Element::Flag, Element::Flag, Element::Flag, Element::Flag];
            let raw = seq![
                Element::U(4),
                Element::U(4),
                Element::Ue,
                Element::Ue,
                Element::Flag,
            ];
            let (r, rest) = sps_tools(s, b);
            let c = before(b, row, 4);
            let pcm = is_set(b, row, 3);
            &&& r.amp_enabled == is_set(b, row, 1)
            &&& r.sao_enabled == is_set(b, row, 2)
            &&& r.pcm_enabled == pcm
            &&& pcm && value(c, raw, 2) < 100 && value(c, raw, 3) < 100 ==> r.pcm_log2_min_cb == value(
                c,
                raw,
                2,
            ) + 3 && r.pcm_log2_max_cb == value(c, raw, 2) + 3 + value(c, raw, 3)
            &&& rest == if pcm {
                before(c, raw, 5)
            } else {
                c
            }
        }),
{
    reveal(sps_tools);
    reveal_with_fuel(before, 6);
}

/// A picture has as many tree blocks in a row, and in a column, as cover it.
pub proof fn law_tree_blocks_cover_the_picture(s: SpsV)
    requires
        s.ctb_log2_size_y <= 30,
        s.pic_width_in_luma_samples <= 0x4000_0000,
        s.pic_height_in_luma_samples <= 0x4000_0000,
    ensures
        ({
            let n = vstd::arithmetic::power2::pow2(s.ctb_log2_size_y as nat) as int;
            let (w, h) = (s.width_in_ctbs() as int, s.height_in_ctbs() as int);
            &&& (w - 1) * n < s.pic_width_in_luma_samples <= w * n
            &&& (h - 1) * n < s.pic_height_in_luma_samples <= h * n
        }),
{
    let k = s.ctb_log2_size_y;
    vstd::arithmetic::power2::lemma2_to64();
    vstd::bits::lemma_u32_shl_is_mul(1, k);
    super::frame::lemma_side(k);
    let n = vstd::arithmetic::power2::pow2(k as nat) as int;
    lemma_covers(s.pic_width_in_luma_samples as int, n);
    lemma_covers(s.pic_height_in_luma_samples as int, n);
}

proof fn lemma_covers(w: int, n: int)
    requires
        0 <= w,
        0 < n,
    ensures
        ({
            let q = (w + n - 1) / n;
            (q - 1) * n < w <= q * n && 0 <= q
        }),
{
    vstd::arithmetic::div_mod::lemma_fundamental_div_mod(w + n - 1, n);
    let q = (w + n - 1) / n;
    let r = (w + n - 1) % n;
    assert((q - 1) * n == n * q - n && q * n == n * q) by (nonlinear_arith);
    assert(0 <= q) by (nonlinear_arith)
        requires
            n * q + r == w + n - 1,
            0 <= r < n,
            0 <= w,
            0 < n,
    ;
}

} // verus!
