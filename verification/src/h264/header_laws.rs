//! What the fields of a slice header are, and where they stand.

use super::params::{
    high_profile, list_modification, marking_operands, pps_of, ref_counts, ref_marking,
    slice_header_of, slice_poc, slice_type_of, sps_of, weights, Pps, SliceType, Sps,
};
use crate::bits::{skip_se, Bits};
use crate::syntax::{before, is_set, value, Element};
use vstd::prelude::*;

verus! {

/// Slice types come round every five codes.
pub proof fn law_slice_types(v: u32)
    requires
        v <= 9,
    ensures
        ({
            let five: Seq<SliceType> = seq![
                SliceType::P,
                SliceType::B,
                SliceType::I,
                SliceType::Sp,
                SliceType::Si,
            ];
            slice_type_of(v) == if v < 5 {
                five[v as int]
            } else {
                five[v - 5]
            }
        }),
{
}

/// The number of active references is the default of the picture or an override. I slices do not code one.
pub proof fn law_reference_counts(b: Bits, st: SliceType, pps: Pps)
    ensures
        ({
            let (n0, n1, rest) = ref_counts(b, st, pps);
            let (own, b1) = b.flag();
            let (c0, b2) = b1.ue();
            let (c1, b3) = b2.ue();
            let inter = st == SliceType::P || st == SliceType::B || st == SliceType::Sp;
            let is_b = st == SliceType::B;
            &&& !inter ==> rest == b
            &&& inter && !own ==> n0 == pps.num_ref_idx_l0_default_active && n1
                == pps.num_ref_idx_l1_default_active && rest == b1
            &&& inter && own && c0 < u32::MAX ==> n0 == c0 + 1
            &&& inter && own && is_b && c1 < u32::MAX ==> n1 == c1 + 1
            &&& inter && own ==> rest == if is_b {
                b3
            } else {
                b2
            }
        }),
{
}

/// Marking of reference pictures: nothing for a picture that is not one; two flags for an IDR picture; and
/// else a flag, behind which commands may come.
pub proof fn law_reference_marking(b: Bits, nal_ref_idc: u8, is_idr: bool)
    ensures
        ({
            let rest = ref_marking(b, nal_ref_idc, is_idr);
            let (adaptive, b1) = b.flag();
            &&& nal_ref_idc == 0 ==> rest == b
            &&& nal_ref_idc != 0 && is_idr ==> rest == b1.flag().1
            &&& nal_ref_idc != 0 && !is_idr && !adaptive ==> rest == b1
        }),
{
}

/// The header of a slice of a frame picture without weights, for sequences and pictures that have no more
/// fields than the usual ones: place, type, parameter set, frame number, for an IDR picture its number,
/// order count, for a B slice how direct mode predicts, reference counts, order of the lists, marking,
/// contexts and quantiser.
pub proof fn law_slice_header(b: Bits, nal_ref_idc: u8, nal_unit_type: u8, sps: Sps, pps: Pps)
    requires
        !sps.separate_colour_plane_flag,
        sps.frame_mbs_only_flag,
        !pps.redundant_pic_cnt_present_flag,
        !pps.weighted_pred_flag,
        pps.weighted_bipred_idc != 1,
    ensures
        ({
            let (h, rest) = slice_header_of(b, nal_ref_idc, nal_unit_type, sps, pps);
            let is_idr = nal_unit_type == 5;
            let (first, b1) = b.ue();
            let (code, b2) = b1.ue();
            let (id, b3) = b2.ue();
            let st = slice_type_of(code);
            let is_b = st == SliceType::B;
            let inter = st == SliceType::P || st == SliceType::Sp || is_b;
            let (num, b4) = b3.u(sps.log2_max_frame_num);
            let b5 = if is_idr {
                b4.ue().1
            } else {
                b4
            };
            let (lsb, b6) = slice_poc(b5, sps, pps, false);
            let (spatial, b7) = if is_b {
                b6.flag()
            } else {
                (false, b6)
            };
            let (n0, n1, b8) = ref_counts(b7, st, pps);
            let b9 = if inter {
                list_modification(b8)
            } else {
                b8
            };
            let b10 = if is_b {
                list_modification(b9)
            } else {
                b9
            };
            let b11 = ref_marking(b10, nal_ref_idc, is_idr);
            let (init, b12) = if pps.entropy_coding_mode_flag && inter {
                b11.ue()
            } else {
                (0, b11)
            };
            let (dqp, b13) = b12.se();
            &&& h.first_mb_in_slice == first
            &&& h.slice_type == st
            &&& h.frame_num == num
            &&& h.is_idr == is_idr
            &&& h.pic_order_cnt_lsb == lsb
            &&& h.direct_spatial_mv_pred_flag == spatial
            &&& h.num_ref_idx_l0_active == n0 && h.num_ref_idx_l1_active == n1
            &&& h.cabac_init_idc == init
            &&& h.slice_qp == pps.pic_init_qp.wrapping_add(dqp)
            &&& !pps.deblocking_filter_control_present_flag && st != SliceType::Sp && st
                != SliceType::Si ==> rest == b13
            &&& pps.deblocking_filter_control_present_flag && st != SliceType::Sp && st
                != SliceType::Si ==> {
                let (idc, b14) = b13.ue();
                rest == if idc == 1 {
                    b14
                } else {
                    b14.se().1.se().1
                }
            }
        }),
{
}

/// How many numbers a command on reference pictures has: two where it gives one of them a long-term index, none
/// where it forgets all of them, and else one.
pub proof fn law_marking_commands(b: Bits, command: u32)
    requires
        1 <= command <= 6,
    ensures
        marking_operands(b, command) == if command == 3 {
            b.ue().1.ue().1
        } else if command == 5 {
            b
        } else {
            b.ue().1
        },
{
}

/// The weights of a reference: a flag for luma, and for a picture with chroma another, each with a scale and an
/// offset for a plane where it is set.
pub proof fn law_weights(b: Bits, has_chroma: bool, n: nat)
    requires
        n > 0,
    ensures
        ({
            let (luma, b1) = b.flag();
            let b2 = if luma {
                b1.se().1.se().1
            } else {
                b1
            };
            let (chroma, b3) = b2.flag();
            let b4 = if !has_chroma {
                b2
            } else if chroma {
                b3.se().1.se().1.se().1.se().1
            } else {
                b3
            };
            &&& weights(b, has_chroma, n) == weights(b4, has_chroma, (n - 1) as nat)
            &&& weights(b, has_chroma, 0) == b
        }),
{
    reveal_with_fuel(skip_se, 5);
}

// ---------------------------------------------------------------------------
// Parameter sets

/// The fields of a picture parameter set, one behind the other. Counts of references are coded less one, and
/// the quantiser as its distance to 26.
pub proof fn law_picture_parameter_set(rbsp: Seq<u8>)
    ensures
        ({
            let b = Bits { data: rbsp, pos: 0 };
            let row = seq![
                Element::Ue,
                Element::Ue,
                Element::Flag,
                Element::Flag,
                Element::Ue,
                Element::Ue,
                Element::Ue,
                Element::Flag,
                Element::U(2),
                Element::Se,
                Element::Se,
                Element::Se,
                Element::Flag,
                Element::Flag,
                Element::Flag,
            ];
            let p = pps_of(rbsp);
            let end = before(b, row, 15);
            &&& p.pps_id == value(b, row, 0) && p.sps_id == value(b, row, 1)
            &&& p.entropy_coding_mode_flag == is_set(b, row, 2)
            &&& p.bottom_field_pic_order_in_frame_present_flag == is_set(b, row, 3)
            &&& value(b, row, 5) < u32::MAX ==> p.num_ref_idx_l0_default_active == value(b, row, 5)
                + 1
            &&& value(b, row, 6) < u32::MAX ==> p.num_ref_idx_l1_default_active == value(b, row, 6)
                + 1
            &&& p.weighted_pred_flag == is_set(b, row, 7)
            &&& p.weighted_bipred_idc == value(b, row, 8)
            &&& value(b, row, 9) <= i32::MAX - 26 ==> p.pic_init_qp == 26 + value(b, row, 9)
            &&& p.deblocking_filter_control_present_flag == is_set(b, row, 12)
            &&& p.redundant_pic_cnt_present_flag == is_set(b, row, 14)
            &&& p.transform_8x8_mode_flag == (end.more_rbsp_data() && end.flag().0)
        }),
{
    reveal_with_fuel(before, 16);
}

/// The fields of a sequence parameter set whose pictures are ordered by coded counts, and which has no scaling
/// matrix: sizes are coded less one, and numbers of bits less four.
pub proof fn law_sequence_parameter_set(rbsp: Seq<u8>)
    ensures
        ({
            let b = Bits { data: rbsp, pos: 0 };
            let head = seq![Element::U(8), Element::U(8), Element::U(8), Element::Ue];
            let chroma = seq![
                Element::Ue,
                Element::Ue,
                Element::Ue,
                Element::Flag,
                Element::Flag,
            ];
            let tail = seq![
                Element::Ue,
                Element::Ue,
                Element::Ue,
                Element::Ue,
                Element::Flag,
                Element::Ue,
                Element::Ue,
                Element::Flag,
                Element::Flag,
                Element::Flag,
            ];
            let s = sps_of(rbsp);
            let c = before(b, head, 4);
            let high = high_profile(value(b, head, 0) as u8);
            let d = if high {
                before(c, chroma, 5)
            } else {
                c
            };
            let plain = (!high || (value(c, chroma, 0) != 3 && !is_set(c, chroma, 4))) && value(
                d,
                tail,
                1,
            ) == 0;
            let frames = is_set(d, tail, 7);
            plain ==> {
                &&& s.profile_idc == value(b, head, 0) as u8 && s.sps_id == value(b, head, 3)
                &&& s.chroma_format_idc == if high {
                    value(c, chroma, 0)
                } else {
                    1
                }
                &&& value(d, tail, 0) < 100 ==> s.log2_max_frame_num == value(d, tail, 0) + 4
                &&& s.pic_order_cnt_type == 0
                &&& value(d, tail, 2) < 100 ==> s.log2_max_pic_order_cnt_lsb == value(d, tail, 2) + 4
                &&& s.max_num_ref_frames == value(d, tail, 3)
                &&& value(d, tail, 5) < u32::MAX ==> s.pic_width_in_mbs == value(d, tail, 5) + 1
                &&& value(d, tail, 6) < u32::MAX ==> s.pic_height_in_map_units == value(d, tail, 6)
                    + 1
                &&& s.frame_mbs_only_flag == frames
                &&& frames ==> s.direct_8x8_inference_flag == is_set(d, tail, 8)
                &&& !frames ==> s.mb_adaptive_frame_field_flag == is_set(d, tail, 8)
                    && s.direct_8x8_inference_flag == is_set(d, tail, 9)
            }
        }),
{
    reveal_with_fuel(before, 11);
}

/// A picture of fields counts rows of macroblocks in pairs.
pub proof fn law_frame_height(s: Sps)
    requires
        s.pic_height_in_map_units < 0x8000_0000,
    ensures
        s.frame_height() == if s.frame_mbs_only_flag {
            s.pic_height_in_map_units as int
        } else {
            2 * s.pic_height_in_map_units
        },
{
}

} // verus!
