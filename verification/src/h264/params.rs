//! H.264 parameter sets and the slice header.

use super::nal::Nal;
use crate::bits::{lemma_ue_progress, skip_se, BitReader, Bits};
use vstd::prelude::*;

verus! {

// ---------------------------------------------------------------------------
// Sequence parameter set

/// The fields of a sequence parameter set that decoding needs.
#[derive(Debug, Clone, Copy, Default)]
pub struct Sps {
    pub sps_id: u32,
    pub profile_idc: u8,
    pub chroma_format_idc: u32,
    pub separate_colour_plane_flag: bool,
    pub log2_max_frame_num: u32,
    pub pic_order_cnt_type: u32,
    pub log2_max_pic_order_cnt_lsb: u32,
    pub delta_pic_order_always_zero_flag: bool,
    pub max_num_ref_frames: u32,
    pub frame_mbs_only_flag: bool,
    pub mb_adaptive_frame_field_flag: bool,
    pub direct_8x8_inference_flag: bool,
    pub pic_width_in_mbs: u32,
    pub pic_height_in_map_units: u32,
}

impl Sps {
    /// Frame height in macroblocks: map units are frame rows or, in field-capable streams,
    /// half of them.
    pub open spec fn frame_height(self) -> u32 {
        if self.frame_mbs_only_flag {
            self.pic_height_in_map_units
        } else {
            self.pic_height_in_map_units.wrapping_mul(2)
        }
    }

    /// Frame height in macroblocks, accounting for field coding.
    pub fn frame_height_in_mbs(&self) -> (h: u32)
        ensures
            h == self.frame_height(),
            self.frame_mbs_only_flag ==> h == self.pic_height_in_map_units,
            !self.frame_mbs_only_flag && 2 * self.pic_height_in_map_units <= u32::MAX ==> h == 2
                * self.pic_height_in_map_units,
    {
        if self.frame_mbs_only_flag {
            self.pic_height_in_map_units
        } else {
            self.pic_height_in_map_units.wrapping_mul(2)
        }
    }
}

/// Profiles whose parameter sets carry the chroma format and scaling lists.
pub open spec fn high_profile(profile_idc: u8) -> bool {
    ||| profile_idc == 100
    ||| profile_idc == 110
    ||| profile_idc == 122
    ||| profile_idc == 244
    ||| profile_idc == 44
    ||| profile_idc == 83
    ||| profile_idc == 86
    ||| profile_idc == 118
    ||| profile_idc == 128
    ||| profile_idc == 138
    ||| profile_idc == 139
    ||| profile_idc == 134
    ||| profile_idc == 135
}

fn is_high_profile(profile_idc: u8) -> (r: bool)
    ensures
        r == high_profile(profile_idc),
{
    matches!(profile_idc, 100 | 110 | 122 | 244 | 44 | 83 | 86 | 118 | 128 | 138 | 139 | 134 | 135)
}

/// `n` entries of a scaling list skipped. A delta is coded until the next scale, kept modulo
/// 256, is zero; the last nonzero scale is what the next delta adds to.
pub open spec fn scaling_list(b: Bits, last: int, next: int, n: nat) -> Bits
    decreases n,
{
    if n == 0 {
        b
    } else if next == 0 {
        scaling_list(b, last, 0, (n - 1) as nat)
    } else {
        let (delta, b) = b.se();
        let scale = (last + delta) % 256;
        scaling_list(
            b,
            if scale == 0 {
                last
            } else {
                scale
            },
            scale,
            (n - 1) as nat,
        )
    }
}

fn skip_scaling_list(r: &mut BitReader, size: usize)
    ensures
        final(r)@ == scaling_list(old(r)@, 8, 8, size as nat),
{
    let mut last: i64 = 8;
    let mut next: i64 = 8;
    let mut left: usize = size;
    while left > 0
        invariant
            0 <= last < 256,
            0 <= next < 256,
            scaling_list(r@, last as int, next as int, left as nat) == scaling_list(
                old(r)@,
                8,
                8,
                size as nat,
            ),
        decreases left,
    {
        if next != 0 {
            let delta = r.read_se();
            assert((last + delta + 0x1_0000_0000) % 256 == (last + delta) % 256);
            next = (last + delta as i64 + 0x1_0000_0000) % 256;
            if next != 0 {
                last = next;
            }
        }
        left -= 1;
    }
}

/// Scaling lists `i..count` of a scaling matrix: a presence flag each, then 16 entries for
/// the first six lists and 64 for the others.
pub open spec fn scaling_matrix(b: Bits, i: int, count: int) -> Bits
    decreases count - i,
{
    if i >= count {
        b
    } else {
        let (present, b) = b.flag();
        let b = if present {
            scaling_list(
                b,
                8,
                8,
                if i < 6 {
                    16
                } else {
                    64
                },
            )
        } else {
            b
        };
        scaling_matrix(b, i + 1, count)
    }
}

fn skip_scaling_matrix(r: &mut BitReader, count: usize)
    ensures
        final(r)@ == scaling_matrix(old(r)@, 0, count as int),
{
    let mut i: usize = 0;
    while i < count
        invariant
            i <= count,
            scaling_matrix(r@, i as int, count as int) == scaling_matrix(old(r)@, 0, count as int),
        decreases count - i,
    {
        if r.read_flag() {
            skip_scaling_list(
                r,
                if i < 6 {
                    16
                } else {
                    64
                },
            );
        }
        i += 1;
    }
}

/// The chroma format, the separate-plane flag and the reader behind the high-profile fields.
pub open spec fn sps_chroma(b: Bits, profile_idc: u8) -> (u32, bool, Bits) {
    if high_profile(profile_idc) {
        let (format, b) = b.ue();
        let (separate, b) = if format == 3 {
            b.flag()
        } else {
            (false, b)
        };
        let (_, b) = b.ue();
        let (_, b) = b.ue();
        let (_, b) = b.flag();
        let (matrix, b) = b.flag();
        let b = if matrix {
            scaling_matrix(
                b,
                0,
                if format != 3 {
                    8
                } else {
                    12
                },
            )
        } else {
            b
        };
        (format, separate, b)
    } else {
        (1, false, b)
    }
}

fn read_sps_chroma(r: &mut BitReader, profile_idc: u8) -> (c: (u32, bool))
    ensures
        (c.0, c.1, final(r)@) == sps_chroma(old(r)@, profile_idc),
{
    if !is_high_profile(profile_idc) {
        return (1, false);
    }
    let format = r.read_ue();
    let separate = if format == 3 {
        r.read_flag()
    } else {
        false
    };
    let _bit_depth_luma = r.read_ue();
    let _bit_depth_chroma = r.read_ue();
    let _transform_bypass = r.read_flag();
    if r.read_flag() {
        skip_scaling_matrix(
            r,
            if format != 3 {
                8
            } else {
                12
            },
        );
    }
    (format, separate)
}

/// `log2_max_pic_order_cnt_lsb`, `delta_pic_order_always_zero_flag` and the reader behind the
/// picture-order fields.
pub open spec fn sps_poc(b: Bits, poc_type: u32) -> (u32, bool, Bits) {
    if poc_type == 0 {
        let (lsb, b) = b.ue();
        (lsb.wrapping_add(4), false, b)
    } else if poc_type == 1 {
        let (zero, b) = b.flag();
        let (_, b) = b.se();
        let (_, b) = b.se();
        let (n, b) = b.ue();
        (0, zero, skip_se(b, n as nat))
    } else {
        (0, false, b)
    }
}

fn read_sps_poc(r: &mut BitReader, poc_type: u32) -> (c: (u32, bool))
    ensures
        (c.0, c.1, final(r)@) == sps_poc(old(r)@, poc_type),
{
    if poc_type == 0 {
        (r.read_ue().wrapping_add(4), false)
    } else if poc_type == 1 {
        let zero = r.read_flag();
        let _offset_for_non_ref_pic = r.read_se();
        let _offset_for_top_to_bottom_field = r.read_se();
        let n = r.read_ue();
        r.drop_se(n);
        (0, zero)
    } else {
        (0, false)
    }
}

/// The sequence parameter set in `rbsp`.
pub open spec fn sps_of(rbsp: Seq<u8>) -> Sps {
    let b = Bits { data: rbsp, pos: 0 };
    let (profile, b) = b.u(8);
    let profile_idc = profile as u8;
    let (_, b) = b.u(8);
    let (_, b) = b.u(8);
    let (sps_id, b) = b.ue();
    let (chroma_format_idc, separate, b) = sps_chroma(b, profile_idc);
    let (frame_num, b) = b.ue();
    let (poc_type, b) = b.ue();
    let (poc_lsb, always_zero, b) = sps_poc(b, poc_type);
    let (max_refs, b) = b.ue();
    let (_, b) = b.flag();
    let (width, b) = b.ue();
    let (height, b) = b.ue();
    let (frame_only, b) = b.flag();
    let (mbaff, b) = if frame_only {
        (false, b)
    } else {
        b.flag()
    };
    let (direct8, b) = b.flag();
    Sps {
        sps_id,
        profile_idc,
        chroma_format_idc,
        separate_colour_plane_flag: separate,
        log2_max_frame_num: frame_num.wrapping_add(4),
        pic_order_cnt_type: poc_type,
        log2_max_pic_order_cnt_lsb: poc_lsb,
        delta_pic_order_always_zero_flag: always_zero,
        max_num_ref_frames: max_refs,
        frame_mbs_only_flag: frame_only,
        mb_adaptive_frame_field_flag: mbaff,
        direct_8x8_inference_flag: direct8,
        pic_width_in_mbs: width.wrapping_add(1),
        pic_height_in_map_units: height.wrapping_add(1),
    }
}

/// Parses `seq_parameter_set_rbsp` up to the fields that decoding needs.
pub fn parse_sps(rbsp: &[u8]) -> (s: Sps)
    ensures
        s == sps_of(rbsp@),
{
    let mut r = BitReader::new(rbsp);
    let profile_idc = r.read_bits(8) as u8;
    let _constraint_flags = r.read_bits(8);
    let _level_idc = r.read_bits(8);
    let sps_id = r.read_ue();
    let (chroma_format_idc, separate_colour_plane_flag) = read_sps_chroma(&mut r, profile_idc);
    let log2_max_frame_num = r.read_ue().wrapping_add(4);
    let pic_order_cnt_type = r.read_ue();
    let (log2_max_pic_order_cnt_lsb, delta_pic_order_always_zero_flag) = read_sps_poc(
        &mut r,
        pic_order_cnt_type,
    );
    let max_num_ref_frames = r.read_ue();
    let _gaps_in_frame_num_allowed = r.read_flag();
    let pic_width_in_mbs = r.read_ue().wrapping_add(1);
    let pic_height_in_map_units = r.read_ue().wrapping_add(1);
    let frame_mbs_only_flag = r.read_flag();
    let mb_adaptive_frame_field_flag = if frame_mbs_only_flag {
        false
    } else {
        r.read_flag()
    };
    let direct_8x8_inference_flag = r.read_flag();
    Sps {
        sps_id,
        profile_idc,
        chroma_format_idc,
        separate_colour_plane_flag,
        log2_max_frame_num,
        pic_order_cnt_type,
        log2_max_pic_order_cnt_lsb,
        delta_pic_order_always_zero_flag,
        max_num_ref_frames,
        frame_mbs_only_flag,
        mb_adaptive_frame_field_flag,
        direct_8x8_inference_flag,
        pic_width_in_mbs,
        pic_height_in_map_units,
    }
}

// ---------------------------------------------------------------------------
// Picture parameter set

/// The fields of a picture parameter set that slice decoding needs.
#[derive(Debug, Clone, Copy, Default)]
pub struct Pps {
    pub pps_id: u32,
    pub sps_id: u32,
    pub entropy_coding_mode_flag: bool,
    pub bottom_field_pic_order_in_frame_present_flag: bool,
    pub num_slice_groups: u32,
    pub num_ref_idx_l0_default_active: u32,
    pub num_ref_idx_l1_default_active: u32,
    pub weighted_pred_flag: bool,
    pub weighted_bipred_idc: u32,
    pub pic_init_qp: i32,
    pub deblocking_filter_control_present_flag: bool,
    pub redundant_pic_cnt_present_flag: bool,
    pub transform_8x8_mode_flag: bool,
}

/// The picture parameter set in `rbsp`. The 8x8-transform flag is there only if payload
/// follows the fixed fields.
pub open spec fn pps_of(rbsp: Seq<u8>) -> Pps {
    let b = Bits { data: rbsp, pos: 0 };
    let (pps_id, b) = b.ue();
    let (sps_id, b) = b.ue();
    let (entropy, b) = b.flag();
    let (bottom, b) = b.flag();
    let (groups, b) = b.ue();
    let (n0, b) = b.ue();
    let (n1, b) = b.ue();
    let (weighted, b) = b.flag();
    let (bipred, b) = b.u(2);
    let (qp, b) = b.se();
    let (_, b) = b.se();
    let (_, b) = b.se();
    let (deblock, b) = b.flag();
    let (_, b) = b.flag();
    let (redundant, b) = b.flag();
    Pps {
        pps_id,
        sps_id,
        entropy_coding_mode_flag: entropy,
        bottom_field_pic_order_in_frame_present_flag: bottom,
        num_slice_groups: groups.wrapping_add(1),
        num_ref_idx_l0_default_active: n0.wrapping_add(1),
        num_ref_idx_l1_default_active: n1.wrapping_add(1),
        weighted_pred_flag: weighted,
        weighted_bipred_idc: bipred,
        pic_init_qp: qp.wrapping_add(26),
        deblocking_filter_control_present_flag: deblock,
        redundant_pic_cnt_present_flag: redundant,
        transform_8x8_mode_flag: b.more_rbsp_data() && b.flag().0,
    }
}

/// Parses `pic_parameter_set_rbsp`.
pub fn parse_pps(rbsp: &[u8]) -> (p: Pps)
    ensures
        p == pps_of(rbsp@),
{
    let mut r = BitReader::new(rbsp);
    let pps_id = r.read_ue();
    let sps_id = r.read_ue();
    let entropy_coding_mode_flag = r.read_flag();
    let bottom_field_pic_order_in_frame_present_flag = r.read_flag();
    let num_slice_groups = r.read_ue().wrapping_add(1);
    let num_ref_idx_l0_default_active = r.read_ue().wrapping_add(1);
    let num_ref_idx_l1_default_active = r.read_ue().wrapping_add(1);
    let weighted_pred_flag = r.read_flag();
    let weighted_bipred_idc = r.read_bits(2);
    let pic_init_qp = r.read_se().wrapping_add(26);
    let _pic_init_qs = r.read_se();
    let _chroma_qp_index_offset = r.read_se();
    let deblocking_filter_control_present_flag = r.read_flag();
    let _constrained_intra_pred_flag = r.read_flag();
    let redundant_pic_cnt_present_flag = r.read_flag();
    let transform_8x8_mode_flag = if r.more_rbsp_data() {
        r.read_flag()
    } else {
        false
    };
    Pps {
        pps_id,
        sps_id,
        entropy_coding_mode_flag,
        bottom_field_pic_order_in_frame_present_flag,
        num_slice_groups,
        num_ref_idx_l0_default_active,
        num_ref_idx_l1_default_active,
        weighted_pred_flag,
        weighted_bipred_idc,
        pic_init_qp,
        deblocking_filter_control_present_flag,
        redundant_pic_cnt_present_flag,
        transform_8x8_mode_flag,
    }
}

// ---------------------------------------------------------------------------
// Slice header

#[derive(Debug, Clone, Copy, PartialEq, Eq, Structural)]
pub enum SliceType {
    P,
    B,
    I,
    Sp,
    Si,
}

/// The slice type that `slice_type` code `v` stands for; codes 5 to 9 repeat 0 to 4.
pub open spec fn slice_type_of(v: u32) -> SliceType {
    if v % 5 == 0 {
        SliceType::P
    } else if v % 5 == 1 {
        SliceType::B
    } else if v % 5 == 2 {
        SliceType::I
    } else if v % 5 == 3 {
        SliceType::Sp
    } else {
        SliceType::Si
    }
}

impl SliceType {
    /// The slice type of code `v`.
    pub fn from_ue(v: u32) -> (t: SliceType)
        ensures
            t == slice_type_of(v),
    {
        match v % 5 {
            0 => SliceType::P,
            1 => SliceType::B,
            2 => SliceType::I,
            3 => SliceType::Sp,
            _ => SliceType::Si,
        }
    }

    /// I and SI slices hold intra macroblocks only.
    pub open spec fn intra(self) -> bool {
        self == SliceType::I || self == SliceType::Si
    }

    pub fn is_intra(self) -> (r: bool)
        ensures
            r == self.intra(),
    {
        matches!(self, SliceType::I | SliceType::Si)
    }
}

/// The fields of a slice header that slice decoding needs.
#[derive(Debug, Clone, Copy)]
pub struct SliceHeader {
    pub first_mb_in_slice: u32,
    pub slice_type: SliceType,
    pub pps_id: u32,
    pub frame_num: u32,
    pub field_pic_flag: bool,
    pub bottom_field_flag: bool,
    pub idr_pic_id: u32,
    pub pic_order_cnt_lsb: u32,
    pub is_idr: bool,
    /// Active reference counts of lists 0 and 1, after any override.
    pub num_ref_idx_l0_active: u32,
    pub num_ref_idx_l1_active: u32,
    pub direct_spatial_mv_pred_flag: bool,
    pub cabac_init_idc: u32,
    /// `pic_init_qp + slice_qp_delta`.
    pub slice_qp: i32,
    pub disable_deblocking_filter_idc: u32,
}

/// `field_pic_flag` and `bottom_field_flag`, present only where field coding is allowed.
pub open spec fn field_flags(b: Bits, frame_only: bool) -> (bool, bool, Bits) {
    if frame_only {
        (false, false, b)
    } else {
        let (field, b) = b.flag();
        let (bottom, b) = if field {
            b.flag()
        } else {
            (false, b)
        };
        (field, bottom, b)
    }
}

fn read_field_flags(r: &mut BitReader, frame_only: bool) -> (f: (bool, bool))
    ensures
        (f.0, f.1, final(r)@) == field_flags(old(r)@, frame_only),
{
    if frame_only {
        return (false, false);
    }
    let field = r.read_flag();
    let bottom = if field {
        r.read_flag()
    } else {
        false
    };
    (field, bottom)
}

/// `pic_order_cnt_lsb` (0 where it is not coded) and the reader behind the picture-order fields.
pub open spec fn slice_poc(b: Bits, sps: Sps, pps: Pps, field: bool) -> (u32, Bits) {
    let bottom = pps.bottom_field_pic_order_in_frame_present_flag && !field;
    if sps.pic_order_cnt_type == 0 {
        let (lsb, b) = b.u(sps.log2_max_pic_order_cnt_lsb);
        (
            lsb,
            if bottom {
                b.se().1
            } else {
                b
            },
        )
    } else if sps.pic_order_cnt_type == 1 && !sps.delta_pic_order_always_zero_flag {
        let (_, b) = b.se();
        (
            0,
            if bottom {
                b.se().1
            } else {
                b
            },
        )
    } else {
        (0, b)
    }
}

fn read_slice_poc(r: &mut BitReader, sps: &Sps, pps: &Pps, field: bool) -> (lsb: u32)
    ensures
        (lsb, final(r)@) == slice_poc(old(r)@, *sps, *pps, field),
{
    let bottom = pps.bottom_field_pic_order_in_frame_present_flag && !field;
    if sps.pic_order_cnt_type == 0 {
        let lsb = r.read_bits(sps.log2_max_pic_order_cnt_lsb);
        if bottom {
            let _delta_pic_order_cnt_bottom = r.read_se();
        }
        lsb
    } else if sps.pic_order_cnt_type == 1 && !sps.delta_pic_order_always_zero_flag {
        let _delta0 = r.read_se();
        if bottom {
            let _delta1 = r.read_se();
        }
        0
    } else {
        0
    }
}

/// Active reference counts: the picture defaults, or the override that P, SP and B slices
/// may code (list 1 only for B).
pub open spec fn ref_counts(b: Bits, st: SliceType, pps: Pps) -> (u32, u32, Bits) {
    let d0 = pps.num_ref_idx_l0_default_active;
    let d1 = pps.num_ref_idx_l1_default_active;
    if st.intra() {
        (d0, d1, b)
    } else {
        let (over, b) = b.flag();
        if over {
            let (n0, b) = b.ue();
            if st == SliceType::B {
                let (n1, b) = b.ue();
                (n0.wrapping_add(1), n1.wrapping_add(1), b)
            } else {
                (n0.wrapping_add(1), d1, b)
            }
        } else {
            (d0, d1, b)
        }
    }
}

fn read_ref_counts(r: &mut BitReader, st: SliceType, pps: &Pps) -> (n: (u32, u32))
    ensures
        (n.0, n.1, final(r)@) == ref_counts(old(r)@, st, *pps),
{
    let mut n0 = pps.num_ref_idx_l0_default_active;
    let mut n1 = pps.num_ref_idx_l1_default_active;
    if matches!(st, SliceType::P | SliceType::Sp | SliceType::B) {
        if r.read_flag() {
            n0 = r.read_ue().wrapping_add(1);
            if st == SliceType::B {
                n1 = r.read_ue().wrapping_add(1);
            }
        }
    }
    (n0, n1)
}

/// The commands of one reference list modification: each of codes 0, 1 and 2 takes an
/// operand, any other code ends the list, and so does the end of the data.
pub open spec fn list_commands(b: Bits) -> Bits
    decreases b.left(),
{
    if b.left() <= 0 || b.pos < 0 {
        b
    } else {
        let (idc, b1) = b.ue();
        if idc <= 2 {
            proof {
                lemma_ue_progress(b);
                lemma_ue_progress(b1);
            }
            list_commands(b1.ue().1)
        } else {
            b1
        }
    }
}

/// `ref_pic_list_modification()` for one list.
pub open spec fn list_modification(b: Bits) -> Bits {
    let (modified, b) = b.flag();
    if modified {
        list_commands(b)
    } else {
        b
    }
}

fn ref_pic_list_modification(r: &mut BitReader)
    ensures
        final(r)@ == list_modification(old(r)@),
{
    if r.read_flag() {
        let ghost b0 = r@;
        while r.bits_left() > 0
            invariant_except_break
                list_commands(r@) == list_commands(b0),
            invariant
                0 <= r@.pos,
            ensures
                r@ == list_commands(b0),
            decreases r@.left(),
        {
            let ghost before = r@;
            proof {
                lemma_ue_progress(before);
                lemma_ue_progress(before.ue().1);
            }
            let idc = r.read_ue();
            if idc > 2 {
                break;
            }
            let _operand = r.read_ue();
        }
    }
}

/// Weights of `n` references of one list skipped.
pub open spec fn weights(b: Bits, has_chroma: bool, n: nat) -> Bits
    decreases n,
{
    if n == 0 {
        b
    } else {
        let (luma, b) = b.flag();
        let b = if luma {
            skip_se(b, 2)
        } else {
            b
        };
        let b = if has_chroma {
            let (chroma, b) = b.flag();
            if chroma {
                skip_se(b, 4)
            } else {
                b
            }
        } else {
            b
        };
        weights(b, has_chroma, (n - 1) as nat)
    }
}

fn skip_weights(r: &mut BitReader, has_chroma: bool, n: u32)
    ensures
        final(r)@ == weights(old(r)@, has_chroma, n as nat),
{
    let mut left: u32 = n;
    while left > 0
        invariant
            weights(r@, has_chroma, left as nat) == weights(old(r)@, has_chroma, n as nat),
        decreases left,
    {
        if r.read_flag() {
            r.drop_se(2);
        }
        if has_chroma {
            if r.read_flag() {
                r.drop_se(4);
            }
        }
        left -= 1;
    }
}

/// `pred_weight_table()`.
pub open spec fn weight_table(b: Bits, has_chroma: bool, n0: u32, n1: u32, is_b: bool) -> Bits {
    let (_, b) = b.ue();
    let b = if has_chroma {
        b.ue().1
    } else {
        b
    };
    let b = weights(b, has_chroma, n0 as nat);
    if is_b {
        weights(b, has_chroma, n1 as nat)
    } else {
        b
    }
}

fn pred_weight_table(r: &mut BitReader, has_chroma: bool, n0: u32, n1: u32, is_b: bool)
    ensures
        final(r)@ == weight_table(old(r)@, has_chroma, n0, n1, is_b),
{
    let _luma_log2_weight_denom = r.read_ue();
    if has_chroma {
        let _chroma_log2_weight_denom = r.read_ue();
    }
    skip_weights(r, has_chroma, n0);
    if is_b {
        skip_weights(r, has_chroma, n1);
    }
}

/// The operands of memory-management command `mmco`: one for 1, 2, 4 and 6, two for 3.
pub open spec fn marking_operands(b: Bits, mmco: u32) -> Bits {
    let b = if mmco == 1 || mmco == 3 {
        b.ue().1
    } else {
        b
    };
    let b = if mmco == 2 {
        b.ue().1
    } else {
        b
    };
    let b = if mmco == 3 || mmco == 6 {
        b.ue().1
    } else {
        b
    };
    if mmco == 4 {
        b.ue().1
    } else {
        b
    }
}

pub proof fn lemma_operands_left(b: Bits, mmco: u32)
    requires
        0 <= b.pos,
    ensures
        0 <= marking_operands(b, mmco).pos,
        marking_operands(b, mmco).left() <= b.left(),
{
    lemma_ue_progress(b);
    lemma_ue_progress(b.ue().1);
}

/// Memory-management commands up to the closing 0.
pub open spec fn marking_commands(b: Bits) -> Bits
    decreases b.left(),
{
    let (mmco, b1) = b.ue();
    if mmco == 0 || b.pos < 0 {
        b1
    } else {
        proof {
            lemma_ue_progress(b);
            lemma_operands_left(b1, mmco);
        }
        marking_commands(marking_operands(b1, mmco))
    }
}

/// `dec_ref_pic_marking()`.
pub open spec fn ref_marking(b: Bits, nal_ref_idc: u8, is_idr: bool) -> Bits {
    if nal_ref_idc == 0 {
        b
    } else if is_idr {
        b.flag().1.flag().1
    } else {
        let (adaptive, b) = b.flag();
        if adaptive {
            marking_commands(b)
        } else {
            b
        }
    }
}

fn dec_ref_pic_marking(r: &mut BitReader, nal_ref_idc: u8, is_idr: bool)
    ensures
        final(r)@ == ref_marking(old(r)@, nal_ref_idc, is_idr),
{
    if nal_ref_idc == 0 {
        return;
    }
    if is_idr {
        let _no_output_of_prior_pics = r.read_flag();
        let _long_term_reference = r.read_flag();
        return;
    }
    if r.read_flag() {
        let ghost b0 = r@;
        let mut mmco = r.read_ue();
        proof {
            lemma_ue_progress(b0);
        }
        while mmco != 0
            invariant
                0 <= r@.pos,
                mmco == 0 ==> r@ == marking_commands(b0),
                mmco != 0 ==> marking_commands(marking_operands(r@, mmco)) == marking_commands(b0),
            decreases
                    r@.left(),
                    (if mmco != 0 {
                        1int
                    } else {
                        0int
                    }),
        {
            let ghost before = r@;
            proof {
                lemma_operands_left(before, mmco);
            }
            if mmco == 1 || mmco == 3 {
                let _difference_of_pic_nums_minus1 = r.read_ue();
            }
            if mmco == 2 {
                let _long_term_pic_num = r.read_ue();
            }
            if mmco == 3 || mmco == 6 {
                let _long_term_frame_idx = r.read_ue();
            }
            if mmco == 4 {
                let _max_long_term_frame_idx_plus1 = r.read_ue();
            }
            let ghost mid = r@;
            proof {
                assert(mid == marking_operands(before, mmco));
                lemma_ue_progress(mid);
            }
            mmco = r.read_ue();
        }
    }
}

/// The slice header at the front of slice data: its fields, and the reader at `slice_data()`.
pub open spec fn slice_header_of(
    b: Bits,
    nal_ref_idc: u8,
    nal_unit_type: u8,
    sps: Sps,
    pps: Pps,
) -> (SliceHeader, Bits) {
    let is_idr = nal_unit_type == 5;
    let (first_mb, b) = b.ue();
    let (type_code, b) = b.ue();
    let st = slice_type_of(type_code);
    let (_, b) = b.ue();
    let b = if sps.separate_colour_plane_flag {
        b.u(2).1
    } else {
        b
    };
    let (frame_num, b) = b.u(sps.log2_max_frame_num);
    let (field, bottom, b) = field_flags(b, sps.frame_mbs_only_flag);
    let (idr_pic_id, b) = if is_idr {
        b.ue()
    } else {
        (0, b)
    };
    let (lsb, b) = slice_poc(b, sps, pps, field);
    let b = if pps.redundant_pic_cnt_present_flag {
        b.ue().1
    } else {
        b
    };
    let (spatial, b) = if st == SliceType::B {
        b.flag()
    } else {
        (false, b)
    };
    let (n0, n1, b) = ref_counts(b, st, pps);
    let b = if st.intra() {
        b
    } else {
        list_modification(b)
    };
    let b = if st == SliceType::B {
        list_modification(b)
    } else {
        b
    };
    let has_chroma = !sps.separate_colour_plane_flag && sps.chroma_format_idc != 0;
    let b = if (pps.weighted_pred_flag && (st == SliceType::P || st == SliceType::Sp)) || (
    pps.weighted_bipred_idc == 1 && st == SliceType::B) {
        weight_table(b, has_chroma, n0, n1, st == SliceType::B)
    } else {
        b
    };
    let b = ref_marking(b, nal_ref_idc, is_idr);
    let (cabac_idc, b) = if pps.entropy_coding_mode_flag && !st.intra() {
        b.ue()
    } else {
        (0, b)
    };
    let (qp_delta, b) = b.se();
    let b = if st == SliceType::Sp {
        b.flag().1
    } else {
        b
    };
    let b = if st == SliceType::Sp || st == SliceType::Si {
        b.se().1
    } else {
        b
    };
    let (deblock, b) = if pps.deblocking_filter_control_present_flag {
        b.ue()
    } else {
        (0, b)
    };
    let b = if pps.deblocking_filter_control_present_flag && deblock != 1 {
        b.se().1.se().1
    } else {
        b
    };
    (
        SliceHeader {
            first_mb_in_slice: first_mb,
            slice_type: st,
            pps_id: pps.pps_id,
            frame_num,
            field_pic_flag: field,
            bottom_field_flag: bottom,
            idr_pic_id,
            pic_order_cnt_lsb: lsb,
            is_idr,
            num_ref_idx_l0_active: n0,
            num_ref_idx_l1_active: n1,
            direct_spatial_mv_pred_flag: spatial,
            cabac_init_idc: cabac_idc,
            slice_qp: pps.pic_init_qp.wrapping_add(qp_delta),
            disable_deblocking_filter_idc: deblock,
        },
        b,
    )
}

/// Parses `slice_header()` and leaves the reader at `slice_data()`.
pub fn parse_slice_header_into(r: &mut BitReader, nal: &Nal, sps: &Sps, pps: &Pps) -> (sh:
    SliceHeader)
    ensures
        (sh, final(r)@) == slice_header_of(
            old(r)@,
            nal.nal_ref_idc,
            nal.nal_unit_type,
            *sps,
            *pps,
        ),
{
    let is_idr = nal.nal_unit_type == 5;
    let first_mb_in_slice = r.read_ue();
    let slice_type = SliceType::from_ue(r.read_ue());
    let _pps_id = r.read_ue();
    if sps.separate_colour_plane_flag {
        let _colour_plane_id = r.read_bits(2);
    }
    let frame_num = r.read_bits(sps.log2_max_frame_num);
    let (field_pic_flag, bottom_field_flag) = read_field_flags(r, sps.frame_mbs_only_flag);
    let idr_pic_id = if is_idr {
        r.read_ue()
    } else {
        0
    };
    let pic_order_cnt_lsb = read_slice_poc(r, sps, pps, field_pic_flag);
    if pps.redundant_pic_cnt_present_flag {
        let _redundant_pic_cnt = r.read_ue();
    }
    let is_b = slice_type == SliceType::B;
    let direct_spatial_mv_pred_flag = if is_b {
        r.read_flag()
    } else {
        false
    };
    let (num_ref_idx_l0_active, num_ref_idx_l1_active) = read_ref_counts(r, slice_type, pps);
    if !slice_type.is_intra() {
        ref_pic_list_modification(r);
        if is_b {
            ref_pic_list_modification(r);
        }
    }
    let has_chroma = !sps.separate_colour_plane_flag && sps.chroma_format_idc != 0;
    if (pps.weighted_pred_flag && matches!(slice_type, SliceType::P | SliceType::Sp)) || (
    pps.weighted_bipred_idc == 1 && is_b) {
        pred_weight_table(r, has_chroma, num_ref_idx_l0_active, num_ref_idx_l1_active, is_b);
    }
    dec_ref_pic_marking(r, nal.nal_ref_idc, is_idr);
    let cabac_init_idc = if pps.entropy_coding_mode_flag && !slice_type.is_intra() {
        r.read_ue()
    } else {
        0
    };
    let slice_qp_delta = r.read_se();
    if slice_type == SliceType::Sp {
        let _sp_for_switch_flag = r.read_flag();
    }
    if matches!(slice_type, SliceType::Sp | SliceType::Si) {
        let _slice_qs_delta = r.read_se();
    }
    let mut disable_deblocking_filter_idc: u32 = 0;
    if pps.deblocking_filter_control_present_flag {
        disable_deblocking_filter_idc = r.read_ue();
        if disable_deblocking_filter_idc != 1 {
            let _slice_alpha_c0_offset_div2 = r.read_se();
            let _slice_beta_offset_div2 = r.read_se();
        }
    }
    SliceHeader {
        first_mb_in_slice,
        slice_type,
        pps_id: pps.pps_id,
        frame_num,
        field_pic_flag,
        bottom_field_flag,
        idr_pic_id,
        pic_order_cnt_lsb,
        is_idr,
        num_ref_idx_l0_active,
        num_ref_idx_l1_active,
        direct_spatial_mv_pred_flag,
        cabac_init_idc,
        slice_qp: pps.pic_init_qp.wrapping_add(slice_qp_delta),
        disable_deblocking_filter_idc,
    }
}

/// `pic_parameter_set_id` of the slice in `rbsp`.
pub open spec fn slice_pps_id(rbsp: Seq<u8>) -> u32 {
    Bits { data: rbsp, pos: 0 }.ue().1.ue().1.ue().0
}

/// Parses the slice header of `nal`. `None` if the parameter set that the slice refers to, or
/// the one that this refers to in turn, cannot be had.
pub fn parse_slice_header(
    nal: &Nal,
    sps_for: &impl Fn(u32) -> Option<Sps>,
    pps_for: &impl Fn(u32) -> Option<Pps>,
) -> (r: Option<SliceHeader>)
    requires
        forall|id: u32| call_requires(sps_for, (id,)),
        forall|id: u32| call_requires(pps_for, (id,)),
    ensures
        match r {
            None => {
                ||| call_ensures(pps_for, (slice_pps_id(nal.rbsp@),), None::<Pps>)
                ||| exists|p: Pps|
                    {
                        &&& #[trigger] call_ensures(
                            pps_for,
                            (slice_pps_id(nal.rbsp@),),
                            Some(p),
                        )
                        &&& call_ensures(sps_for, (p.sps_id,), None::<Sps>)
                    }
            },
            Some(h) => exists|p: Pps, s: Sps|
                {
                    &&& call_ensures(pps_for, (slice_pps_id(nal.rbsp@),), Some(p))
                    &&& #[trigger] call_ensures(sps_for, (p.sps_id,), Some(s))
                    &&& h == slice_header_of(
                        Bits { data: nal.rbsp@, pos: 0 },
                        nal.nal_ref_idc,
                        nal.nal_unit_type,
                        s,
                        p,
                    ).0
                },
        },
{
    let mut peek = BitReader::new(&nal.rbsp);
    let _first = peek.read_ue();
    let _stype = peek.read_ue();
    let pps_id = peek.read_ue();
    match pps_for(pps_id) {
        None => None,
        Some(pps) => match sps_for(pps.sps_id) {
            None => None,
            Some(sps) => {
                let mut r = BitReader::new(&nal.rbsp);
                Some(parse_slice_header_into(&mut r, nal, &sps, &pps))
            },
        },
    }
}

} // verus!
