//! CAVLC residual blocks.

use mv_extract::bits::BitReader;
use mv_extract::h264::cavlc::{coeff_token, residual_block};

fn reader(bits: &str) -> Vec<u8> {
    let mut out = Vec::new();
    let mut cur = 0u8;
    let mut n = 0u8;
    for c in bits.chars().filter(|c| *c == '0' || *c == '1') {
        cur = (cur << 1) | (c == '1') as u8;
        n += 1;
        if n == 8 {
            out.push(cur);
            cur = 0;
            n = 0;
        }
    }
    if n > 0 {
        out.push(cur << (8 - n));
    }
    out
}

#[test]
fn coeff_token_trivial_entries() {
    let d = reader("1");
    assert_eq!(coeff_token(&mut BitReader::new(&d), 0), Some((0, 0)));
    let d = reader("01");
    assert_eq!(coeff_token(&mut BitReader::new(&d), 0), Some((1, 1)));
    let d = reader("001");
    assert_eq!(coeff_token(&mut BitReader::new(&d), 0), Some((2, 2)));
}

#[test]
fn empty_block_consumes_one_bit() {
    let d = reader("1100000000");
    let mut r = BitReader::new(&d);
    assert_eq!(residual_block(&mut r, 0, 16), Some(0));
    assert_eq!(r.read_bit(), 1);
}

#[test]
fn single_trailing_one_block() {
    let d = reader("01011111");
    let mut r = BitReader::new(&d);
    assert_eq!(residual_block(&mut r, 0, 16), Some(1));
    assert_eq!(r.read_bits(4), 0b1111);
}

#[test]
fn thesis_worked_example() {
    let d = reader("000010001110010111101101");
    let mut r = BitReader::new(&d);
    let tc = residual_block(&mut r, 1, 16).expect("should decode");
    assert_eq!(tc, 5, "TotalCoeff");
    assert_eq!(r.bits_left(), 0, "must consume exactly 24 bits");
}

#[test]
fn nc8_fixed_length_empty() {
    let d = reader("000011");
    assert_eq!(coeff_token(&mut BitReader::new(&d), 8), Some((0, 0)));
}

#[test]
fn chroma_dc_codes() {
    // Two trailing ones: token "001", two signs, total_zeros "00", run_before "1".
    let d = reader("001 10 00 1 1010");
    let mut r = BitReader::new(&d);
    assert_eq!(residual_block(&mut r, -1, 4), Some(2));
    assert_eq!(r.pos(), 8);
    // 2x4: "01" is one trailing one, then a sign and total_zeros "1".
    let d = reader("01 0 1 1111");
    let mut r = BitReader::new(&d);
    assert_eq!(residual_block(&mut r, -2, 8), Some(1));
    assert_eq!(r.pos(), 4);
}

#[test]
fn desync_is_reported() {
    // No token of the first class has so many leading zeros.
    let d = [0u8; 8];
    let mut r = BitReader::new(&d);
    assert_eq!(residual_block(&mut r, 0, 16), None);
    // A full set of 16 coefficients does not fit in a block of 15.
    let d = reader("111111 000 1111111111111 1111111111111111111111111111111111111111");
    let mut r = BitReader::new(&d);
    assert_eq!(coeff_token(&mut BitReader::new(&d), 8), Some((16, 3)));
    assert_eq!(residual_block(&mut r, 8, 15), None);
    // Neither does it in a chroma DC block.
    let mut r = BitReader::new(&d);
    assert_eq!(residual_block(&mut r, 8, 4), None);
}

#[test]
fn predictor_classes() {
    let d = reader("11");
    assert_eq!(coeff_token(&mut BitReader::new(&d), 1), Some((0, 0)));
    assert_eq!(coeff_token(&mut BitReader::new(&d), 2), Some((0, 0)));
    let d = reader("1111");
    let mut r = BitReader::new(&d);
    assert_eq!(coeff_token(&mut r, 4), Some((0, 0)));
    assert_eq!(r.pos(), 4);
}
