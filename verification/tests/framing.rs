//! NAL framing of both codecs.

use mv_extract::framing::ebsp_to_rbsp;
use mv_extract::h264::nal::{parse_avcc, split_annexb, split_avcc};
use mv_extract::hevc::nal as hevc;

#[test]
fn emulation_prevention_removed() {
    assert_eq!(ebsp_to_rbsp(&[0, 0, 3, 1]), vec![0, 0, 1]);
    assert_eq!(ebsp_to_rbsp(&[0, 0, 3, 0, 0, 3, 2]), vec![0, 0, 0, 0, 2]);
    assert_eq!(ebsp_to_rbsp(&[1, 3, 4]), vec![1, 3, 4]);
}

#[test]
fn annexb_split_two_nals() {
    let stream = [
        0, 0, 0, 1, 0x67, 0x42, 0x00, //
        0, 0, 1, 0x68, 0xCE, //
    ];
    let nals = split_annexb(&stream);
    assert_eq!(nals.len(), 2);
    assert_eq!(nals[0].nal_unit_type, 7);
    assert_eq!(nals[1].nal_unit_type, 8);
}

#[test]
fn avcc_split_roundtrip() {
    let data = [0, 0, 0, 3, 0x61, 0xAA, 0xBB];
    let nals = split_avcc(&data, 4);
    assert_eq!(nals.len(), 1);
    assert_eq!(nals[0].nal_unit_type, 1);
    assert_eq!(nals[0].rbsp, vec![0xAA, 0xBB]);
}

fn escape(rbsp: &[u8]) -> Vec<u8> {
    let mut out = Vec::new();
    let mut zeros = 0;
    for &b in rbsp {
        if zeros >= 2 && b <= 3 {
            out.push(3);
            zeros = 0;
        }
        zeros = if b == 0 { zeros + 1 } else { 0 };
        out.push(b);
    }
    out
}

#[test]
fn stripping_undoes_escaping() {
    let cases: [&[u8]; 5] = [
        &[],
        &[0, 0, 0, 0, 0],
        &[0, 0, 1, 0, 0, 2, 0, 0, 3],
        &[3, 0, 3, 0, 0, 3, 3],
        &[9, 0, 0, 4, 0, 0, 0, 1],
    ];
    for c in cases {
        assert_eq!(ebsp_to_rbsp(&escape(c)), c.to_vec());
    }
}

#[test]
fn splitting_undoes_start_codes() {
    let payloads: [&[u8]; 4] = [&[1], &[0, 0, 1, 0, 0, 0, 9], &[0, 0, 3], &[7, 0, 0, 2, 5]];
    let mut stream = Vec::new();
    for (i, p) in payloads.iter().enumerate() {
        stream.extend(std::iter::repeat(0).take(2 + i));
        stream.push(1);
        stream.push(0x41);
        stream.extend(escape(p));
    }
    let nals = split_annexb(&stream);
    assert_eq!(nals.len(), 4);
    for (n, p) in nals.iter().zip(payloads) {
        assert_eq!((n.nal_ref_idc, n.nal_unit_type), (2, 1));
        assert_eq!(n.rbsp, p.to_vec());
    }
}

#[test]
fn a_forbidden_bit_drops_a_unit() {
    let stream = [0, 0, 1, 0xE7, 1, 2, 0, 0, 1, 0x65, 9];
    let nals = split_annexb(&stream);
    assert_eq!(nals.len(), 1);
    assert_eq!(nals[0].nal_unit_type, 5);
    assert_eq!(nals[0].nal_ref_idc, 3);
    assert_eq!(nals[0].rbsp, vec![9]);
}

#[test]
fn a_length_beyond_the_data_ends_the_list() {
    assert_eq!(split_avcc(&[0, 2, 0x41, 7, 0, 9, 0x41], 2).len(), 1);
    assert_eq!(split_avcc(&[0, 0, 0x41, 7], 2).len(), 0);
}

#[test]
fn avcc_record() {
    let rec = [1, 66, 0, 30, 0xFF, 0xE1, 0, 3, 0x67, 1, 2, 1, 0, 2, 0x68, 5];
    let a = parse_avcc(&rec).unwrap();
    assert_eq!(a.nal_length_size, 4);
    assert_eq!(a.sps.len(), 1);
    assert_eq!(a.sps[0].rbsp, vec![1, 2]);
    assert_eq!(a.pps.len(), 1);
    assert_eq!(a.pps[0].rbsp, vec![5]);
    assert!(parse_avcc(&rec[..6]).is_none());
    assert!(parse_avcc(&[0, 0, 0, 1, 0x67, 1, 2, 3]).is_none());
    assert!(parse_avcc(&rec[..9]).is_none());
    let cut = parse_avcc(&rec[..14]).unwrap();
    assert_eq!(cut.pps.len(), 0);
}

#[test]
fn nal_header_2_byte() {
    let n = hevc::Nal::from_ebsp(&[0x42, 0x01, 0xAA]).unwrap();
    assert_eq!(n.nal_unit_type, hevc::NAL_SPS);
    assert_eq!(n.nuh_temporal_id_plus1, 1);
    assert_eq!(n.rbsp, vec![0xAA]);
}

#[test]
fn annexb_finds_hevc_nals() {
    let s = [0, 0, 0, 1, 0x40, 0x01, 0x0c, 0, 0, 1, 0x42, 0x01, 0x01];
    let nals = hevc::split_annexb(&s);
    assert_eq!(nals.len(), 2);
    assert_eq!(nals[0].nal_unit_type, hevc::NAL_VPS);
    assert_eq!(nals[1].nal_unit_type, hevc::NAL_SPS);
}

#[test]
fn hevc_header_fields() {
    let n = hevc::Nal::from_ebsp(&[0x27, 0xAC]).unwrap();
    assert_eq!(n.nal_unit_type, 19);
    assert_eq!(n.nuh_layer_id, 53);
    assert_eq!(n.nuh_temporal_id_plus1, 4);
    assert!(n.rbsp.is_empty());
    assert!(hevc::Nal::from_ebsp(&[0x42]).is_none());
    assert!(hevc::Nal::from_ebsp(&[0xC2, 1]).is_none());
    assert!(hevc::is_vcl(31) && !hevc::is_vcl(32));
    assert!(hevc::is_irap(16) && hevc::is_irap(23) && !hevc::is_irap(15) && !hevc::is_irap(24));
}

#[test]
fn hvcc_record() {
    let mut rec = vec![0u8; 23];
    rec[0] = 1;
    rec[21] = 0xFB;
    rec[22] = 2;
    rec.extend_from_slice(&[0x21, 0, 1, 0, 3, 0x42, 1, 7]);
    rec.extend_from_slice(&[0x22, 0, 2, 0, 2, 0x44, 1, 0, 9, 0x44, 1]);
    let h = hevc::parse_hvcc(&rec).unwrap();
    assert_eq!(h.nal_length_size, 4);
    assert_eq!(h.param_sets.len(), 2);
    assert_eq!(h.param_sets[0].nal_unit_type, hevc::NAL_SPS);
    assert_eq!(h.param_sets[0].rbsp, vec![7]);
    assert_eq!(h.param_sets[1].nal_unit_type, hevc::NAL_PPS);
    assert!(hevc::parse_hvcc(&rec[..22]).is_none());
    assert_eq!(hevc::split_length_prefixed(&[2, 0x42, 1, 3, 0x44, 1, 5], 1).len(), 2);
}
