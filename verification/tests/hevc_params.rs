//! H.265 parameter sets, headers and contexts.

use mv_extract::hevc::contexts::{init_states, HEVC_CONTEXTS};
use mv_extract::hevc::nal::Nal;
use mv_extract::hevc::params::{parse_pps, parse_sps, Pps, Sps};
use mv_extract::hevc::slice_header::{ceil_log2, parse_slice_header, SliceType};

#[test]
fn ceil_log2_known() {
    assert_eq!(ceil_log2(0), 0);
    assert_eq!(ceil_log2(1), 0);
    assert_eq!(ceil_log2(2), 1);
    assert_eq!(ceil_log2(3), 2);
    assert_eq!(ceil_log2(4), 2);
    assert_eq!(ceil_log2(8160), 13);
}

#[test]
fn ceil_log2_is_smallest() {
    for n in 2..5000u32 {
        let k = ceil_log2(n);
        assert!(1u64 << k >= n as u64 && (1u64 << (k - 1)) < n as u64);
    }
    assert_eq!(ceil_log2(u32::MAX), 32);
    assert_eq!(ceil_log2(1 << 31), 31);
}

#[test]
fn slice_type_mapping() {
    assert_eq!(SliceType::from_ue(0), SliceType::B);
    assert_eq!(SliceType::from_ue(1), SliceType::P);
    assert_eq!(SliceType::from_ue(2), SliceType::I);
}

#[test]
fn init_formula_known_value() {
    let mut st = [0u8; HEVC_CONTEXTS];
    init_states(&mut st, SliceType::I, false, 26);
    assert_eq!(st[0], 14);
    assert!(st.iter().all(|&s| s <= 125));
}

#[test]
fn cabac_init_flag_swaps_p_b() {
    let mut p_plain = [0u8; HEVC_CONTEXTS];
    let mut p_swapped = [0u8; HEVC_CONTEXTS];
    let mut b_plain = [0u8; HEVC_CONTEXTS];
    init_states(&mut p_plain, SliceType::P, false, 32);
    init_states(&mut p_swapped, SliceType::P, true, 32);
    init_states(&mut b_plain, SliceType::B, false, 32);
    assert_eq!(p_swapped, b_plain);
    assert_ne!(p_plain, b_plain);
}

#[test]
fn init_flag_swaps_at_every_quantiser() {
    for qp in -5..60 {
        let mut a = [0u8; HEVC_CONTEXTS];
        let mut b = [0u8; HEVC_CONTEXTS];
        init_states(&mut a, SliceType::B, true, qp);
        init_states(&mut b, SliceType::P, false, qp);
        assert_eq!(a, b);
        init_states(&mut a, SliceType::I, true, qp);
        init_states(&mut b, SliceType::I, false, qp);
        assert_eq!(a, b);
        assert!(a.iter().all(|&s| s <= 125));
    }
}

struct Writer {
    bits: Vec<u8>,
}

impl Writer {
    fn new() -> Writer {
        Writer { bits: Vec::new() }
    }
    fn u(&mut self, n: u32, v: u32) {
        for i in (0..n).rev() {
            self.bits.push(((v >> i) & 1) as u8);
        }
    }
    fn ue(&mut self, v: u32) {
        let w = v as u64 + 1;
        let z = 63 - w.leading_zeros();
        for _ in 0..z {
            self.bits.push(0);
        }
        for i in (0..=z).rev() {
            self.bits.push(((w >> i) & 1) as u8);
        }
    }
    fn se(&mut self, v: i32) {
        self.ue(if v > 0 { 2 * v as u32 - 1 } else { (-2 * v) as u32 });
    }
    fn bytes(&self) -> Vec<u8> {
        let mut out = Vec::new();
        for c in self.bits.chunks(8) {
            let mut b = 0u8;
            for (i, &x) in c.iter().enumerate() {
                b |= x << (7 - i);
            }
            out.push(b);
        }
        out
    }
}

fn sps_bits() -> Writer {
    let mut w = Writer::new();
    w.u(4, 0);
    w.u(3, 1); // one sub-layer below the highest
    w.u(1, 1);
    w.u(2, 0);
    w.u(1, 0);
    w.u(5, 2); // profile
    w.u(32, 0);
    w.u(32, 0);
    w.u(16, 0);
    w.u(8, 93);
    w.u(2, 0b11); // profile and level of the sub-layer present
    w.u(14, 0);
    w.u(32, 0);
    w.u(32, 0);
    w.u(32, 0);
    w.ue(3); // id
    w.ue(1); // 4:2:0
    w.ue(64);
    w.ue(48);
    w.u(1, 1);
    w.ue(0);
    w.ue(1);
    w.ue(2);
    w.ue(3);
    w.ue(0);
    w.ue(0);
    w.ue(4); // 8 bits of picture order
    w.u(1, 1);
    for _ in 0..6 {
        w.ue(1);
    }
    w.ue(0); // coding blocks of 8
    w.ue(1); // tree blocks of 16
    w.ue(0);
    w.ue(2);
    w.ue(1);
    w.ue(2);
    w.u(1, 0);
    w.u(1, 1); // amp
    w.u(1, 0);
    w.u(1, 0);
    w.ue(2); // two reference picture sets
    w.ue(2);
    w.ue(1);
    w.ue(0);
    w.u(1, 1);
    w.ue(1);
    w.u(1, 0);
    w.ue(3);
    w.u(1, 1);
    w.u(1, 1); // predicted from the one before
    w.u(1, 1);
    w.ue(0); // moved by -1
    w.u(1, 1);
    w.u(1, 0);
    w.u(1, 1);
    w.u(1, 0);
    w.u(1, 0);
    w.u(1, 1);
    w.u(1, 0); // no long-term pictures
    w.u(1, 1);
    w.u(1, 0);
    w
}

#[test]
fn sequence_parameter_set() {
    let s = parse_sps(&sps_bits().bytes());
    assert_eq!(s.profile_idc, 2);
    assert_eq!(s.sps_id, 3);
    assert_eq!((s.pic_width_in_luma_samples, s.pic_height_in_luma_samples), (64, 48));
    assert_eq!(s.log2_max_poc_lsb, 8);
    assert_eq!((s.min_cb_log2_size_y, s.ctb_log2_size_y), (3, 4));
    assert_eq!((s.min_tb_log2_size_y, s.max_tb_log2_size_y), (2, 4));
    assert_eq!(s.max_transform_hierarchy_depth_inter, 1);
    assert_eq!(s.max_transform_hierarchy_depth_intra, 2);
    assert!(s.amp_enabled && !s.sao_enabled && s.temporal_mvp_enabled);
    assert_eq!((s.ctb_size_y(), s.pic_size_in_ctbs()), (16, 12));
    assert!(s.is_decodable());
    assert_eq!(s.st_rps.len(), 2);
    assert_eq!(s.st_rps[0].delta_poc, vec![-1, -3, 4]);
    assert_eq!(s.st_rps[0].used, vec![true, false, true]);
    assert_eq!(s.st_rps[0].num_negative, 2);
    assert_eq!(s.st_rps[0].num_delta_pocs(), 3);
    assert_eq!(s.st_rps[0].num_used(), 2);
    // -1 - 1, (-3 - 1 in the set but not used), (4 - 1 left out), -1 itself; in ascending order.
    assert_eq!(s.st_rps[1].delta_poc, vec![-4, -2, -1]);
    assert_eq!(s.st_rps[1].used, vec![false, true, true]);
    assert_eq!(s.st_rps[1].num_negative, 3);
}

fn pps_bits(tiles: bool) -> Vec<u8> {
    let mut w = Writer::new();
    w.ue(5);
    w.ue(3);
    w.u(1, 1); // dependent segments
    w.u(1, 0);
    w.u(3, 2); // two more header bits
    w.u(1, 1);
    w.u(1, 1);
    w.ue(1);
    w.ue(0);
    w.se(-4);
    w.u(1, 0);
    w.u(1, 1);
    w.u(1, 1);
    w.ue(1);
    w.se(2);
    w.se(-2);
    w.u(1, 0);
    w.u(1, 0);
    w.u(1, 1); // weights in B slices
    w.u(1, 0);
    w.u(1, tiles as u32);
    w.u(1, 0);
    if tiles {
        w.ue(1);
        w.ue(0);
        w.u(1, 0);
        w.ue(7);
        w.u(1, 1);
    }
    w.u(1, 1);
    w.u(1, 1);
    w.u(1, 0);
    w.u(1, 0);
    w.se(1);
    w.se(1);
    w.u(1, 0);
    w.u(1, 1); // list modification
    w.ue(1);
    w.u(1, 1); // header extension
    w.bytes()
}

#[test]
fn picture_parameter_set() {
    let p = parse_pps(&pps_bits(true));
    assert_eq!((p.pps_id, p.sps_id), (5, 3));
    assert_eq!(p.num_extra_slice_header_bits, 2);
    assert_eq!((p.num_ref_idx_l0_default_active, p.num_ref_idx_l1_default_active), (2, 1));
    assert_eq!(p.pic_init_qp, 22);
    assert_eq!(p.diff_cu_qp_delta_depth, 1);
    assert_eq!((p.cb_qp_offset, p.cr_qp_offset), (2, -2));
    assert_eq!((p.num_tile_columns, p.num_tile_rows), (2, 1));
    assert!(p.weighted_bipred_flag && !p.weighted_pred_flag);
    assert!(p.deblocking_filter_control_present_flag && !p.deblocking_filter_disabled_flag);
    assert!(p.lists_modification_present_flag && p.slice_header_extension_present_flag);
    assert_eq!(p.log2_parallel_merge_level, 3);
    let p = parse_pps(&pps_bits(false));
    assert_eq!((p.num_tile_columns, p.num_tile_rows), (1, 1));
}

fn b_slice_bits() -> Vec<u8> {
    let mut w = Writer::new();
    w.u(1, 0); // not the first segment
    w.ue(5);
    w.u(1, 0); // not dependent
    w.u(4, 7); // address among 12 blocks
    w.u(2, 0);
    w.ue(0); // B
    w.u(8, 0x2A);
    w.u(1, 1); // set of the parameter set
    w.u(1, 0);
    w.u(1, 1); // temporal prediction
    w.u(1, 1); // other reference counts
    w.ue(2);
    w.ue(1);
    w.u(1, 1); // list 0 is modified
    w.u(3, 0);
    w.u(1, 0);
    w.u(1, 1); // list 1 differences are zero
    w.u(1, 0); // context tables not swapped
    w.u(1, 0); // collocated picture from list 1
    w.ue(1);
    w.ue(0); // weights
    w.se(0);
    w.u(3, 0b100);
    w.u(3, 0b001);
    w.se(1);
    w.se(2);
    w.se(1);
    w.se(1);
    w.se(1);
    w.se(1);
    w.u(2, 0);
    w.u(2, 0);
    w.ue(2); // three merge candidates
    w.se(3);
    w.u(1, 1);
    w.ue(2); // extension
    w.u(16, 0xABCD);
    w.u(1, 1);
    w.bytes()
}

#[test]
fn slice_header_of_a_b_slice() {
    let sps = || parse_sps(&sps_bits().bytes());
    let pps = parse_pps(&pps_bits(false));
    let nal = Nal {
        nal_unit_type: 1,
        nuh_layer_id: 0,
        nuh_temporal_id_plus1: 1,
        rbsp: b_slice_bits(),
    };
    let sps_for = |id: u32| -> Option<Sps> { if id == 3 { Some(sps()) } else { None } };
    let pps_for = |id: u32| -> Option<Pps> { if id == 5 { Some(pps) } else { None } };
    let h = parse_slice_header(&nal, &sps_for, &pps_for).unwrap();
    assert!(!h.first_slice_segment_in_pic_flag && !h.dependent_slice_segment_flag);
    assert_eq!(h.slice_segment_address, 7);
    assert_eq!(h.slice_type, Some(SliceType::B));
    assert_eq!(h.poc_lsb, 0x2A);
    assert_eq!(h.short_rps.delta_poc, vec![-1, -3, 4]);
    assert_eq!(h.nb_refs, [3, 2]);
    assert!(h.slice_temporal_mvp_enabled && h.mvd_l1_zero_flag && !h.cabac_init_flag);
    assert_eq!((h.collocated_list, h.collocated_ref_idx), (1, 1));
    assert_eq!(h.max_num_merge_cand, 3);
    assert_eq!(h.slice_qp, 25);
    assert!(!h.unsupported && !h.is_idr);
    assert_eq!(h.data_offset, b_slice_bits().len());
    let no_sps = |_: u32| -> Option<Sps> { None };
    assert!(parse_slice_header(&nal, &no_sps, &pps_for).is_none());
    let no_pps = |_: u32| -> Option<Pps> { None };
    assert!(parse_slice_header(&nal, &sps_for, &no_pps).is_none());
    let tiled = parse_pps(&pps_bits(true));
    let tiled_for = |_: u32| -> Option<Pps> { Some(tiled) };
    assert!(parse_slice_header(&nal, &sps_for, &tiled_for).unwrap().unsupported);
}

#[test]
fn a_set_that_is_not_there_refuses_the_header() {
    let sps = || parse_sps(&sps_bits().bytes());
    let pps = parse_pps(&pps_bits(false));
    let mut w = Writer::new();
    w.u(1, 1);
    w.ue(5);
    w.u(2, 0);
    w.ue(1);
    w.u(8, 1);
    w.u(1, 0); // coded in the header
    w.u(1, 1); // predicted
    w.ue(2); // from the third set from the end, of two
    w.u(32, 0xFFFF_FFFF);
    let nal =
        Nal { nal_unit_type: 1, nuh_layer_id: 0, nuh_temporal_id_plus1: 1, rbsp: w.bytes() };
    let sps_for = |_: u32| -> Option<Sps> { Some(sps()) };
    let pps_for = |_: u32| -> Option<Pps> { Some(pps) };
    assert!(parse_slice_header(&nal, &sps_for, &pps_for).is_none());
}

#[test]
fn dependent_segments_have_no_type() {
    let sps = || parse_sps(&sps_bits().bytes());
    let pps = parse_pps(&pps_bits(false));
    let mut w = Writer::new();
    w.u(1, 0);
    w.ue(5);
    w.u(1, 1);
    w.u(4, 9);
    w.ue(0);
    w.u(1, 1);
    let nal =
        Nal { nal_unit_type: 0, nuh_layer_id: 0, nuh_temporal_id_plus1: 2, rbsp: w.bytes() };
    let sps_for = |_: u32| -> Option<Sps> { Some(sps()) };
    let pps_for = |_: u32| -> Option<Pps> { Some(pps) };
    let h = parse_slice_header(&nal, &sps_for, &pps_for).unwrap();
    assert!(h.dependent_slice_segment_flag && h.slice_type.is_none());
    assert_eq!(h.slice_segment_address, 9);
    assert_eq!(h.slice_qp, 22);
}
