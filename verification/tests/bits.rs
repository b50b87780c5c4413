//! Bit reading and Exp-Golomb codes.

use mv_extract::bits::BitReader;

fn bits(s: &str) -> Vec<u8> {
    let mut out = Vec::new();
    let mut cur = 0u8;
    let mut n = 0u8;
    for c in s.chars().filter(|c| *c == '0' || *c == '1') {
        cur = (cur << 1) | (c == '1') as u8;
        n += 1;
        if n == 8 {
            out.push(cur);
            cur = 0;
            n = 0;
        }
    }
    if n > 0 {
        out.push(cur << (8 - n));
    }
    out
}

#[test]
fn read_bits_msb_first() {
    let d = bits("10110010");
    let mut r = BitReader::new(&d);
    assert_eq!(r.read_bits(4), 0b1011);
    assert_eq!(r.read_bits(4), 0b0010);
}

#[test]
fn ue_golomb_known_vectors() {
    let cases = [
        ("1", 0u32),
        ("010", 1),
        ("011", 2),
        ("00100", 3),
        ("00101", 4),
        ("00110", 5),
        ("00111", 6),
        ("0001000", 7),
    ];
    for (s, want) in cases {
        let d = bits(s);
        let mut r = BitReader::new(&d);
        assert_eq!(r.read_ue(), want, "ue({s})");
    }
}

#[test]
fn se_golomb_known_vectors() {
    let cases = [
        ("1", 0i32),
        ("010", 1),
        ("011", -1),
        ("00100", 2),
        ("00101", -2),
        ("00110", 3),
    ];
    for (s, want) in cases {
        let d = bits(s);
        let mut r = BitReader::new(&d);
        assert_eq!(r.read_se(), want, "se({s})");
    }
}

#[test]
fn reads_concatenate() {
    let d = [0xA5, 0x3C, 0xF0, 0x0F, 0x81];
    for a in 0..=16u32 {
        for b in 0..=16u32 {
            let mut whole = BitReader::new(&d);
            let mut parts = BitReader::new(&d);
            let w = whole.read_bits(a + b);
            let x = parts.read_bits(a);
            let y = parts.read_bits(b);
            assert_eq!(w as u64, ((x as u64) << b) | y as u64);
            assert_eq!(whole.pos(), parts.pos());
        }
    }
}

#[test]
fn every_ue_code_reads_back() {
    for code in [0u32, 1, 2, 3, 6, 7, 8, 100, 255, 256, 65534, 65535, 1_000_000] {
        let v = code as u64 + 1;
        let z = 63 - v.leading_zeros();
        let s = format!("{}{:b}", "0".repeat(z as usize), v);
        let d = bits(&s);
        let mut r = BitReader::new(&d);
        assert_eq!(r.read_ue(), code);
        assert_eq!(r.pos(), 2 * z as usize + 1);
    }
}

#[test]
fn bits_past_the_end_are_zero() {
    let d = [0xFF];
    let mut r = BitReader::new(&d);
    assert_eq!(r.read_bits(12), 0xFF0);
    assert_eq!(r.bits_left(), 0);
    assert_eq!(r.read_bit(), 0);
    assert_eq!(r.read_ue(), 0);
    assert_eq!(r.read_se(), 0);
}

#[test]
fn peeking_does_not_advance() {
    let d = [0b1100_1010, 0b0101_0000];
    let mut r = BitReader::new(&d);
    r.skip_bits(3);
    assert_eq!(r.peek_bits(5), 0b01010);
    assert_eq!(r.pos(), 3);
    assert!(!r.byte_aligned());
    assert_eq!(r.read_bits(5), 0b01010);
    assert!(r.byte_aligned());
}

#[test]
fn peeking_at_more_than_32_bits_gives_the_last_ones() {
    let d = [0xFF, 0x12, 0x34, 0x56, 0x78, 0x9A];
    let mut r = BitReader::new(&d);
    assert_eq!(r.peek_bits(32), 0xFF12_3456);
    assert_eq!(r.peek_bits(40), 0x1234_5678);
    assert_eq!(r.peek_bits(36), 0xF123_4567);
    r.skip_bits(24);
    assert_eq!(r.peek_bits(40), 0x789A_0000);
    assert_eq!(r.pos(), 24);
}

#[test]
fn payload_ends_at_the_stop_bit() {
    let d = bits("1011 0000 1000 0000");
    let mut r = BitReader::new(&d);
    assert!(r.more_rbsp_data());
    r.skip_bits(7);
    assert!(r.more_rbsp_data());
    r.skip_bits(1);
    assert!(!r.more_rbsp_data());
    let zero = [0u8, 0];
    assert!(!BitReader::new(&zero).more_rbsp_data());
}
