//! H.264 from packets to rows.

use mv_extract::h264::contexts::init_states;
use mv_extract::h264::dpb::{h264_col_pic, h264_compute_poc, H264RefFrame};
use mv_extract::h264::grids::FrameGrids;
use mv_extract::h264::nal::split_annexb;
use mv_extract::h264::params::{parse_pps, parse_slice_header, parse_sps, Pps, SliceType, Sps};
use mv_extract::h264::picture::{decode_picture, Picture};
use mv_extract::h264::stream::PictureGrouper;
use mv_extract::motion::{MotionVector, MvCompact};
use mv_extract::reorder::Reorder;
use mv_extract::stats::Stats;

struct Writer {
    bits: Vec<u8>,
}

impl Writer {
    fn new() -> Writer {
        Writer { bits: Vec::new() }
    }
    fn u(&mut self, n: u32, v: u32) {
        for i in (0..n).rev() {
            self.bits.push(((v >> i) & 1) as u8);
        }
    }
    fn ue(&mut self, v: u32) {
        let w = v as u64 + 1;
        let z = 63 - w.leading_zeros();
        for _ in 0..z {
            self.bits.push(0);
        }
        for i in (0..=z).rev() {
            self.bits.push(((w >> i) & 1) as u8);
        }
    }
    fn se(&mut self, v: i32) {
        self.ue(if v > 0 { 2 * v as u32 - 1 } else { (-2 * v) as u32 });
    }
    fn align(&mut self, bit: u8) {
        while self.bits.len() % 8 != 0 {
            self.bits.push(bit);
        }
    }
    fn bytes(&self) -> Vec<u8> {
        let mut out = Vec::new();
        for c in self.bits.chunks(8) {
            let mut b = 0u8;
            for (i, &x) in c.iter().enumerate() {
                b |= x << (7 - i);
            }
            out.push(b);
        }
        out
    }
}

const RANGE_LPS: [[u32; 4]; 63] = [
    [128, 176, 208, 240],
    [128, 167, 197, 227],
    [128, 158, 187, 216],
    [123, 150, 178, 205],
    [116, 142, 169, 195],
    [111, 135, 160, 185],
    [105, 128, 152, 175],
    [100, 122, 144, 166],
    [95, 116, 137, 158],
    [90, 110, 130, 150],
    [85, 104, 123, 142],
    [81, 99, 117, 135],
    [77, 94, 111, 128],
    [73, 89, 105, 122],
    [69, 85, 100, 116],
    [66, 80, 95, 110],
    [62, 76, 90, 104],
    [59, 72, 86, 99],
    [56, 69, 81, 94],
    [53, 65, 77, 89],
    [51, 62, 73, 85],
    [48, 59, 69, 80],
    [46, 56, 66, 76],
    [43, 53, 63, 72],
    [41, 50, 59, 69],
    [39, 48, 56, 65],
    [37, 45, 54, 62],
    [35, 43, 51, 59],
    [33, 41, 48, 56],
    [32, 39, 46, 53],
    [30, 37, 43, 50],
    [29, 35, 41, 48],
    [27, 33, 39, 45],
    [26, 31, 37, 43],
    [24, 30, 35, 41],
    [23, 28, 33, 39],
    [22, 27, 32, 37],
    [21, 26, 30, 35],
    [20, 24, 29, 33],
    [19, 23, 27, 31],
    [18, 22, 26, 30],
    [17, 21, 25, 28],
    [16, 20, 23, 27],
    [15, 19, 22, 25],
    [14, 18, 21, 24],
    [14, 17, 20, 23],
    [13, 16, 19, 22],
    [12, 15, 18, 21],
    [12, 14, 17, 20],
    [11, 14, 16, 19],
    [11, 13, 15, 18],
    [10, 12, 15, 17],
    [10, 12, 14, 16],
    [9, 11, 13, 15],
    [9, 11, 12, 14],
    [8, 10, 12, 14],
    [8, 9, 11, 13],
    [7, 9, 11, 12],
    [7, 9, 10, 12],
    [7, 8, 10, 11],
    [6, 8, 9, 11],
    [6, 7, 9, 10],
    [6, 7, 8, 9],
];

const NEXT_LPS: [u8; 63] = [
    0, 0, 1, 2, 2, 4, 4, 5, 6, 7, 8, 9, 9, 11, 11, 12, 13, 13, 15, 15, 16, 16, 18, 18, 19, 19, 21,
    21, 22, 22, 23, 24, 24, 25, 26, 26, 27, 27, 28, 29, 29, 30, 30, 30, 31, 32, 32, 33, 33, 33, 34,
    34, 35, 35, 35, 36, 36, 36, 37, 37, 37, 38, 38,
];

/// The arithmetic encoder.
struct Encoder {
    st: [u8; 1024],
    low: u32,
    range: u32,
    first: bool,
    outstanding: u32,
    out: Writer,
}

impl Encoder {
    fn new(out: Writer, st: [u8; 1024]) -> Encoder {
        Encoder { st, low: 0, range: 510, first: true, outstanding: 0, out }
    }
    fn put(&mut self, b: u8) {
        if self.first {
            self.first = false;
        } else {
            self.out.bits.push(b);
        }
        while self.outstanding > 0 {
            self.out.bits.push(1 - b);
            self.outstanding -= 1;
        }
    }
    fn step(&mut self) {
        if self.low < 256 {
            self.put(0);
        } else if self.low >= 512 {
            self.low -= 512;
            self.put(1);
        } else {
            self.low -= 256;
            self.outstanding += 1;
        }
    }
    fn renorm(&mut self) {
        while self.range < 256 {
            self.step();
            self.range <<= 1;
            self.low <<= 1;
        }
    }
    fn bin(&mut self, ctx: usize, b: u8) {
        let (p, mps) = (self.st[ctx] >> 1, self.st[ctx] & 1);
        let lps = RANGE_LPS[p as usize][(self.range as usize >> 6) & 3];
        self.range -= lps;
        if b != mps {
            self.low += self.range;
            self.range = lps;
            let m = if p == 0 { 1 - mps } else { mps };
            self.st[ctx] = NEXT_LPS[p as usize] << 1 | m;
        } else {
            self.st[ctx] = (if p < 62 { p + 1 } else { p }) << 1 | mps;
        }
        self.renorm();
    }
    fn bypass(&mut self, b: u8) {
        self.low <<= 1;
        if b != 0 {
            self.low += self.range;
        }
        if self.low >= 1024 {
            self.put(1);
            self.low -= 1024;
        } else if self.low < 512 {
            self.put(0);
        } else {
            self.low -= 512;
            self.outstanding += 1;
        }
    }
    fn terminate(&mut self, b: u8) {
        self.range -= 2;
        if b != 0 {
            self.low += self.range;
            self.range = 2;
            self.renorm();
            self.put((self.low >> 9 & 1) as u8);
            self.out.u(2, (self.low >> 7 & 3) | 1);
        } else {
            self.renorm();
        }
    }
    fn mvd(&mut self, base: usize, sum: i32, v: i32) {
        let inc = if sum < 3 {
            0
        } else if sum > 32 {
            2
        } else {
            1
        };
        let a = v.abs();
        if a == 0 {
            self.bin(base + inc, 0);
            return;
        }
        self.bin(base + inc, 1);
        let mut i = 1;
        while i < 9 && i < a {
            self.bin(base + (2 + i as usize).min(6), 1);
            i += 1;
        }
        if a < 9 {
            self.bin(base + (2 + i as usize).min(6), 0);
        } else {
            let mut rest = (a - 9) as u32;
            let mut k = 3;
            while rest >= 1 << k {
                self.bypass(1);
                rest -= 1 << k;
                k += 1;
            }
            self.bypass(0);
            while k > 0 {
                k -= 1;
                self.bypass((rest >> k & 1) as u8);
            }
        }
        self.bypass((v < 0) as u8);
    }
    /// A coded block pattern of zero; the luma contexts follow from what the neighbours have.
    fn no_residual(&mut self, left_zero: usize, top_zero: usize) {
        self.bin(73 + left_zero + 2 * top_zero, 0);
        self.bin(73 + 1 + 2 * top_zero, 0);
        self.bin(73 + left_zero + 2, 0);
        self.bin(73 + 3, 0);
        self.bin(77, 0);
    }
}

fn unit(header: u8, body: &[u8]) -> Vec<u8> {
    let mut out = vec![0, 0, 0, 1, header];
    let mut zeros = 0;
    for &b in body {
        if zeros >= 2 && b <= 3 {
            out.push(3);
            zeros = 0;
        }
        zeros = if b == 0 { zeros + 1 } else { 0 };
        out.push(b);
    }
    out
}

fn sps(profile: u32, w: u32, h: u32) -> Vec<u8> {
    let mut b = Writer::new();
    b.u(8, profile);
    b.u(8, 0);
    b.u(8, 30);
    b.ue(0);
    if profile == 100 {
        b.ue(1);
        b.ue(0);
        b.ue(0);
        b.u(1, 0);
        b.u(1, 0);
    }
    b.ue(0); // 4 bits of frame number
    b.ue(0);
    b.ue(0); // 4 bits of picture order
    b.ue(2);
    b.u(1, 0);
    b.ue(w - 1);
    b.ue(h - 1);
    b.u(1, 1);
    b.u(1, 1); // direct_8x8_inference
    b.u(1, 0);
    b.u(1, 0);
    b.u(1, 1);
    unit(0x67, &b.bytes())
}

fn pps(cabac: bool) -> Vec<u8> {
    pps_with(0, cabac)
}

fn pps_with(id: u32, cabac: bool) -> Vec<u8> {
    let mut b = Writer::new();
    b.ue(id);
    b.ue(0);
    b.u(1, cabac as u32);
    b.u(1, 0);
    b.ue(0);
    b.ue(0);
    b.ue(0);
    b.u(1, 0);
    b.u(2, 0);
    b.se(0);
    b.se(0);
    b.se(0);
    b.u(1, 0);
    b.u(1, 0);
    b.u(1, 0);
    b.u(1, 1);
    unit(0x68, &b.bytes())
}

fn header(first: u32, kind: u32, frame: u32, poc: u32, reference: bool, cabac: bool) -> Writer {
    header_with(0, first, kind, frame, poc, reference, cabac)
}

fn header_with(
    pps: u32,
    first: u32,
    kind: u32,
    frame: u32,
    poc: u32,
    reference: bool,
    cabac: bool,
) -> Writer {
    let mut b = Writer::new();
    b.ue(first);
    b.ue(kind);
    b.ue(pps);
    b.u(4, frame);
    b.u(4, poc);
    if kind == 1 {
        b.u(1, 1); // spatial direct prediction
    }
    if kind % 5 < 2 {
        b.u(1, 0);
        b.u(1, 0);
    }
    if kind == 1 {
        b.u(1, 0);
    }
    if reference {
        b.u(1, 0);
    }
    if cabac && kind != 2 {
        b.ue(0);
    }
    b.se(0);
    b
}

fn row(frame: i32, source: i32, src: (i16, i16), dst: (i16, i16)) -> MvCompact {
    MvCompact { frame, source, src_x: src.0, src_y: src.1, dst_x: dst.0, dst_y: dst.1 }
}

fn decode_all(packets: &[Vec<u8>], b: bool, l0_only: bool) -> (Vec<MvCompact>, Stats, u64, u64) {
    let mut grouper = PictureGrouper::new(&[], b);
    let mut pictures: Vec<Picture> = Vec::new();
    for p in packets {
        pictures.extend(grouper.packet(p));
    }
    pictures.extend(grouper.finish());
    let mut grid = None;
    let mut out = Vec::new();
    let mut st = Stats::default();
    let mut dpb = Vec::new();
    for p in &pictures {
        assert!(p.fits());
        decode_picture(p, &mut grid, &mut out, &mut st, &mut dpb, b, l0_only);
    }
    (out, st, grouper.picture_count(), grouper.b_skipped())
}

/// Two by two macroblocks: one vector, a skip, two halves, a skip.
fn cavlc_p(frame: u32) -> Vec<u8> {
    let mut b = header(0, 0, frame, 2 * frame, true, false);
    b.ue(0);
    b.ue(0); // 16x16
    b.se(8);
    b.se(-4);
    b.ue(0); // nothing coded
    b.ue(1); // one skipped
    b.ue(1); // 16x8
    b.se(0);
    b.se(0);
    b.se(1);
    b.se(-1);
    b.ue(0);
    b.ue(1);
    b.u(1, 1);
    unit(0x41, &b.bytes())
}

#[test]
fn cavlc_picture() {
    let packets = [sps(66, 2, 2), pps(false), cavlc_p(0), cavlc_p(1)];
    let (rows, st, pictures, skipped) = decode_all(&packets, false, false);
    assert_eq!((pictures, skipped), (2, 0));
    assert_eq!((st.cavlc_decoded, st.parse_errors, st.incomplete), (2, 0, 0));
    let mut want = Vec::new();
    for f in 0..2 {
        want.push(row(f, -1, (10, 7), (8, 8)));
        want.push(row(f, -1, (10, 19), (8, 20)));
        want.push(row(f, -1, (10, 27), (8, 28)));
    }
    assert_eq!(rows, want);
}

#[test]
fn cavlc_sub_blocks() {
    let mut b = header(0, 0, 0, 0, true, false);
    b.ue(0);
    b.ue(3); // 8x8
    b.ue(0);
    b.ue(1); // 8x4
    b.ue(2); // 4x8
    b.ue(3); // 4x4
    for v in [(4, 4), (0, 4), (4, 0), (0, 0), (8, 0), (0, 0), (0, 0), (0, 0), (20, 0)] {
        b.se(v.0);
        b.se(v.1);
    }
    b.ue(0);
    b.u(1, 1);
    let packets = [sps(66, 1, 1), pps(false), unit(0x41, &b.bytes())];
    let (rows, st, _, _) = decode_all(&packets, false, false);
    assert_eq!((st.parse_errors, st.incomplete), (0, 0));
    assert_eq!(
        rows,
        vec![
            row(0, -1, (5, 5), (4, 4)),
            row(0, -1, (13, 6), (12, 4)),
            row(0, -1, (5, 13), (4, 12)),
            row(0, -1, (14, 13), (12, 12)),
        ]
    );
}

#[test]
fn cavlc_intra_with_residual() {
    let mut b = header(0, 7, 0, 0, true, false);
    // I_16x16 with no AC, then I_PCM.
    b.ue(1);
    b.ue(0);
    b.se(0);
    b.u(1, 1);
    b.ue(25);
    b.align(0);
    for i in 0..384 {
        b.u(8, i & 255);
    }
    b.u(1, 1);
    let mut p = header(0, 5, 1, 2, true, false);
    p.ue(1);
    p.ue(0);
    p.se(-20);
    p.se(0);
    p.ue(2); // the first luma quadrant is coded
    p.se(3);
    p.u(1, 1); // its first block, beside a full one
    p.u(4, 0b1111);
    p.u(4, 0b1111);
    p.u(4, 0b1111);
    p.u(1, 1);
    let packets = [
        sps(66, 2, 1),
        pps(false),
        unit(0x65, &b.bytes()),
        unit(0x41, &p.bytes()),
    ];
    let (rows, st, pictures, _) = decode_all(&packets, false, false);
    assert_eq!(pictures, 2);
    assert_eq!(st.parse_errors, 0);
    assert_eq!(rows, vec![row(1, -1, (19, 8), (24, 8))]);
}

/// One row of two macroblocks, each with one vector.
fn cabac_p(frame: u32, poc: u32) -> Vec<u8> {
    let mut w = header(0, 0, frame, poc, true, true);
    w.align(1);
    let mut e = Encoder::new(w, init_states(false, 0, 26));
    e.bin(11, 0);
    e.bin(14, 0);
    e.bin(15, 0);
    e.bin(16, 0);
    e.mvd(40, 0, 8);
    e.mvd(47, 0, -4);
    e.no_residual(0, 0);
    e.terminate(0);
    e.bin(12, 0);
    e.bin(14, 0);
    e.bin(15, 0);
    e.bin(16, 0);
    e.mvd(40, 8, 43);
    e.mvd(47, 4, 0);
    e.no_residual(1, 0);
    e.terminate(1);
    unit(0x41, &e.out.bytes())
}

#[test]
fn cabac_picture() {
    let packets = [sps(100, 2, 1), pps(true), cabac_p(0, 0)];
    let (rows, st, _, _) = decode_all(&packets, false, false);
    assert_eq!((st.cabac_decoded, st.parse_errors, st.incomplete), (1, 0, 0));
    assert_eq!(rows, vec![row(0, -1, (10, 7), (8, 8)), row(0, -1, (36, 7), (24, 8))]);
}

#[test]
fn cabac_halves_and_skip() {
    let mut w = header(0, 0, 0, 0, true, true);
    w.align(1);
    let mut e = Encoder::new(w, init_states(false, 0, 26));
    // The left and the right half.
    e.bin(11, 0);
    e.bin(14, 0);
    e.bin(15, 1);
    e.bin(17, 0);
    e.mvd(40, 0, 4);
    e.mvd(47, 0, 0);
    e.mvd(40, 4, 4);
    e.mvd(47, 0, 4);
    e.no_residual(0, 0);
    e.terminate(0);
    // Below it a skip: the left neighbour is missing.
    e.bin(12, 1);
    e.terminate(1);
    let packets = [sps(100, 1, 2), pps(true), unit(0x41, &e.out.bytes())];
    let (rows, st, _, _) = decode_all(&packets, false, false);
    assert_eq!((st.parse_errors, st.incomplete), (0, 0));
    assert_eq!(rows, vec![row(0, -1, (5, 8), (4, 8)), row(0, -1, (14, 9), (12, 8))]);
}

#[test]
fn cabac_samples_as_they_are() {
    let mut w = header(0, 2, 0, 0, true, true);
    w.align(1);
    let mut e = Encoder::new(w, init_states(true, 0, 26));
    e.bin(3, 1);
    e.terminate(1);
    let mut w = e.out;
    w.align(0);
    for i in 0..384u32 {
        w.u(8, (i * 7) & 255);
    }
    let mut e = Encoder::new(w, e.st);
    e.terminate(0);
    // Behind it an I_4x4 macroblock that codes nothing.
    e.bin(4, 0);
    for _ in 0..16 {
        e.bin(68, 1);
    }
    e.bin(64, 0);
    // The other one has all blocks coded.
    e.bin(73, 0);
    e.bin(74, 0);
    e.bin(75, 0);
    e.bin(76, 0);
    e.bin(78, 0);
    e.terminate(1);
    let packets = [sps(100, 2, 1), pps(true), unit(0x65, &e.out.bytes())];
    let (rows, st, _, _) = decode_all(&packets, false, false);
    assert_eq!((st.cabac_decoded, st.parse_errors, st.incomplete), (1, 0, 0));
    assert!(rows.is_empty());
}

#[test]
fn cabac_residual_keeps_in_step() {
    let mut w = header(0, 0, 0, 0, true, true);
    w.align(1);
    let mut e = Encoder::new(w, init_states(false, 0, 26));
    e.bin(11, 0);
    e.bin(14, 0);
    e.bin(15, 0);
    e.bin(16, 0);
    e.mvd(40, 0, 0);
    e.mvd(47, 0, 4);
    // The first luma quadrant is coded, and both chroma planes with all coefficients.
    e.bin(73, 1);
    e.bin(73, 0);
    e.bin(73, 0);
    e.bin(76, 0);
    e.bin(77, 1);
    e.bin(81, 1);
    e.bin(60, 0);
    // Its first block has a 1 and a -2, its second none, its third one coefficient at the end.
    e.bin(93, 1);
    e.bin(134, 1);
    e.bin(195, 0);
    e.bin(135, 0);
    e.bin(136, 1);
    e.bin(197, 1);
    e.bin(248, 1);
    e.bin(252, 0);
    e.bypass(1);
    e.bin(247, 0);
    e.bypass(0);
    e.bin(94, 0);
    e.bin(95, 1);
    for i in 0..15 {
        e.bin(134 + i, 0);
    }
    e.bin(248, 0);
    e.bypass(0);
    e.bin(94, 0);
    // Chroma: one DC coefficient in the first plane, AC nowhere.
    e.bin(97, 1);
    e.bin(149, 1);
    e.bin(210, 1);
    e.bin(258, 0);
    e.bypass(0);
    e.bin(97, 0);
    for _ in 0..8 {
        e.bin(101, 0);
    }
    e.terminate(0);
    e.bin(12, 0);
    e.bin(14, 0);
    e.bin(15, 0);
    e.bin(16, 0);
    e.mvd(40, 0, 16);
    e.mvd(47, 4, 0);
    // Beside it: the left quadrants of the second row and the right ones have none.
    e.bin(74, 0);
    e.bin(74, 0);
    e.bin(76, 0);
    e.bin(76, 0);
    e.bin(78, 0);
    e.terminate(1);
    let packets = [sps(100, 2, 1), pps(true), unit(0x41, &e.out.bytes())];
    let (rows, st, _, _) = decode_all(&packets, false, false);
    assert_eq!((st.parse_errors, st.incomplete), (0, 0));
    assert_eq!(rows, vec![row(0, -1, (8, 9), (8, 8)), row(0, -1, (28, 9), (24, 8))]);
}

/// Predicted from both sides, then a skip in direct mode.
fn cabac_b(frame: u32, poc: u32) -> Vec<u8> {
    let mut w = header(0, 1, frame, poc, false, true);
    w.align(1);
    let mut e = Encoder::new(w, init_states(false, 0, 26));
    e.bin(24, 0);
    e.bin(27, 1);
    e.bin(30, 1);
    e.bin(31, 0);
    e.bin(32, 0);
    e.bin(32, 0);
    e.bin(32, 0);
    e.mvd(40, 0, 4);
    e.mvd(47, 0, 0);
    e.mvd(40, 0, -4);
    e.mvd(47, 0, 8);
    e.no_residual(0, 0);
    e.terminate(0);
    e.bin(25, 1);
    e.terminate(1);
    unit(0x01, &e.out.bytes())
}

#[test]
fn b_pictures() {
    let packets = [sps(100, 2, 1), pps(true), cabac_p(0, 0), cabac_p(1, 8), cabac_b(2, 4)];
    let (rows, st, pictures, skipped) = decode_all(&packets, true, false);
    assert_eq!((pictures, skipped), (3, 0));
    assert_eq!((st.b_decoded, st.unsupported, st.parse_errors, st.incomplete), (1, 0, 0, 0));
    let b: Vec<MvCompact> = rows.iter().copied().filter(|r| r.frame == 2).collect();
    assert_eq!(b[0], row(2, -1, (9, 8), (8, 8)));
    assert_eq!(b[1], row(2, 1, (7, 10), (8, 8)));
    // The skipped one takes both vectors over.
    assert_eq!(b[2..], [row(2, -1, (25, 8), (24, 8)), row(2, 1, (23, 10), (24, 8))]);
    let (l0, _, _, _) = decode_all(&packets, true, true);
    let want: Vec<MvCompact> = rows.iter().copied().filter(|r| r.source < 0).collect();
    assert_eq!(l0, want);
    // Without B pictures the others are as they were.
    let (p, st, pictures, skipped) = decode_all(&packets, false, false);
    assert_eq!((pictures, skipped, st.b_decoded), (3, 1, 0));
    let want: Vec<MvCompact> = rows.iter().copied().filter(|r| r.frame < 2).collect();
    assert_eq!(p, want);
}

#[test]
fn a_b_picture_without_references_is_not_supported() {
    let packets = [sps(100, 2, 1), pps(true), cabac_b(2, 4)];
    let (rows, st, pictures, _) = decode_all(&packets, true, false);
    assert_eq!((pictures, st.b_decoded, st.unsupported), (1, 0, 1));
    assert!(rows.is_empty());
}

#[test]
fn pictures_decode_alike_alone_and_in_a_row() {
    for cabac in [false, true] {
        let packets: Vec<Vec<u8>> = if cabac {
            vec![sps(100, 2, 1), pps(true), cabac_p(0, 0), cabac_p(1, 2)]
        } else {
            vec![sps(66, 2, 2), pps(false), cavlc_p(0), cavlc_p(1)]
        };
        let mut grouper = PictureGrouper::new(&[], false);
        let mut pictures: Vec<Picture> = Vec::new();
        for p in &packets {
            pictures.extend(grouper.packet(p));
        }
        pictures.extend(grouper.finish());
        let mut kept = None;
        let (mut a, mut b) = (Vec::new(), Vec::new());
        let mut st = Stats::default();
        for p in pictures.iter().chain(pictures.iter().rev()) {
            decode_picture(p, &mut kept, &mut a, &mut st, &mut Vec::new(), false, false);
            let mut own = None;
            decode_picture(p, &mut own, &mut b, &mut st, &mut Vec::new(), false, false);
        }
        assert_eq!(a, b);
        assert!(!a.is_empty());
    }
}

/// The start of a CABAC slice that uses the second picture parameter set.
fn cabac_slice(first: u32, frame: u32) -> Encoder {
    let mut w = header_with(1, first, 0, frame, 2 * frame, true, true);
    w.align(1);
    Encoder::new(w, init_states(false, 0, 26))
}

#[test]
fn pictures_of_both_entropy_modes_start_afresh() {
    // Two CABAC slices: the first macroblock, and the one to its right.
    let mut e = cabac_slice(0, 0);
    for ctx in [11, 14, 15, 16] {
        e.bin(ctx, 0);
    }
    e.mvd(40, 0, 8);
    e.mvd(47, 0, 0);
    e.no_residual(0, 0);
    e.terminate(1);
    let mut one = unit(0x41, &e.out.bytes());
    let mut e = cabac_slice(1, 0);
    for ctx in [11, 14, 15, 16] {
        e.bin(ctx, 0);
    }
    e.mvd(40, 0, 43);
    e.mvd(47, 0, 0);
    e.no_residual(0, 0);
    e.terminate(1);
    one.extend(unit(0x41, &e.out.bytes()));
    // A CAVLC slice of the first macroblock, and a CABAC slice of the lower row. The macroblock in
    // the upper right corner is missing, and nothing is left of the one before.
    let mut b = header_with(0, 0, 0, 1, 2, true, false);
    b.ue(0);
    b.ue(0);
    b.se(4);
    b.se(0);
    b.ue(0);
    b.u(1, 1);
    let mut two = unit(0x41, &b.bytes());
    let mut e = cabac_slice(2, 1);
    for ctx in [11, 14, 15, 16] {
        e.bin(ctx, 0);
    }
    e.mvd(40, 0, 8);
    e.mvd(47, 0, 0);
    e.no_residual(0, 0);
    e.terminate(0);
    for ctx in [12, 14, 15, 16] {
        e.bin(ctx, 0);
    }
    e.mvd(40, 8, 4);
    e.mvd(47, 0, 0);
    e.no_residual(1, 0);
    e.terminate(1);
    two.extend(unit(0x41, &e.out.bytes()));
    let packets = [sps(100, 2, 2), pps(false), pps_with(1, true), one, two];
    let (rows, st, pictures, _) = decode_all(&packets, false, false);
    assert_eq!((pictures, st.cabac_decoded, st.cavlc_decoded, st.parse_errors), (2, 3, 1, 0));
    assert_eq!(
        rows,
        vec![
            row(0, -1, (10, 8), (8, 8)),
            row(0, -1, (34, 8), (24, 8)),
            row(1, -1, (9, 8), (8, 8)),
            row(1, -1, (10, 24), (8, 24)),
            row(1, -1, (27, 24), (24, 24)),
        ]
    );
}

#[test]
fn noise_in_both_entropy_modes_decodes_alike_on_new_grids() {
    for seed in 0..40u64 {
        let mut packets = vec![sps(100, 5, 4), pps(false), pps_with(1, true)];
        for i in 0..6u32 {
            let mut data = Vec::new();
            for (k, first) in [0u32, 3, 7, 12].into_iter().enumerate() {
                let id = (seed >> (i as usize + k) & 1) as u32;
                let mut b = header_with(id, first, 0, i, 2 * i, true, id == 1);
                b.align(1);
                let mut body = b.bytes();
                body.extend(noise(seed * 32 + i as u64 * 4 + k as u64, 60));
                data.extend(unit(0x41, &body));
            }
            packets.push(data);
        }
        let mut grouper = PictureGrouper::new(&[], false);
        let mut pictures: Vec<Picture> = Vec::new();
        for p in &packets {
            pictures.extend(grouper.packet(p));
        }
        pictures.extend(grouper.finish());
        assert_eq!(pictures.len(), 6);
        let mut kept = None;
        let (mut a, mut b) = (Vec::new(), Vec::new());
        let (mut sa, mut sb) = (Stats::default(), Stats::default());
        for p in pictures.iter() {
            decode_picture(p, &mut kept, &mut a, &mut sa, &mut Vec::new(), false, false);
            let mut own = None;
            decode_picture(p, &mut own, &mut b, &mut sb, &mut Vec::new(), false, false);
        }
        assert_eq!(a, b);
        assert!(sa == sb);
    }
}

#[test]
fn b_pictures_decode_alike_on_new_grids() {
    let packets = [sps(100, 2, 1), pps(true), cabac_p(0, 0), cabac_p(1, 8), cabac_b(2, 4)];
    let mut grouper = PictureGrouper::new(&[], true);
    let mut pictures: Vec<Picture> = Vec::new();
    for p in &packets {
        pictures.extend(grouper.packet(p));
    }
    pictures.extend(grouper.finish());
    let mut kept = None;
    let (mut a, mut b) = (Vec::new(), Vec::new());
    let (mut sa, mut sb) = (Stats::default(), Stats::default());
    let (mut da, mut db) = (Vec::new(), Vec::new());
    for p in [0, 1, 2, 2, 1, 2].map(|i| &pictures[i]) {
        decode_picture(p, &mut kept, &mut a, &mut sa, &mut da, true, false);
        let mut own = None;
        decode_picture(p, &mut own, &mut b, &mut sb, &mut db, true, false);
    }
    assert_eq!(a, b);
    assert!(sa == sb);
    assert_eq!(sa.b_decoded, 3);
    assert_eq!(da.len(), 3);
}

#[test]
fn workers_write_what_one_decoder_writes() {
    for cabac in [false, true] {
        let mut packets = vec![sps(100, 5, 4), pps(cabac)];
        for i in 0..6u32 {
            let mut b = header(0, 0, i, 2 * i, true, cabac);
            b.align(1);
            let mut body = b.bytes();
            body.extend(noise(77 + i as u64, 300));
            packets.push(unit(0x41, &body));
        }
        let mut grouper = PictureGrouper::new(&[], false);
        let mut pictures: Vec<Picture> = Vec::new();
        for p in &packets {
            pictures.extend(grouper.packet(p));
        }
        pictures.extend(grouper.finish());
        let (mut grid, mut serial, mut total) = (None, Vec::new(), Stats::default());
        for p in &pictures {
            decode_picture(p, &mut grid, &mut serial, &mut total, &mut Vec::new(), false, false);
        }
        let mut grids = [None, None];
        let mut order = Reorder::new();
        let (mut written, mut merged) = (Vec::new(), Stats::default());
        for (k, i) in [3usize, 0, 5, 1, 4, 2].into_iter().enumerate() {
            let (mut out, mut st) = (Vec::new(), Stats::default());
            let g = &mut grids[k % 2];
            decode_picture(&pictures[i], g, &mut out, &mut st, &mut Vec::new(), false, false);
            merged.merge(&st);
            written.extend(order.take(pictures[i].frame_index, out));
        }
        assert_eq!(written, serial);
        assert!(merged == total);
    }
}

#[test]
fn slices_of_one_picture() {
    // The second slice does not predict from the first.
    let mut b = header(0, 0, 0, 0, true, false);
    b.ue(0);
    b.ue(0);
    b.se(8);
    b.se(8);
    b.ue(0);
    b.u(1, 1);
    let mut c = header(1, 0, 0, 0, true, false);
    c.ue(0);
    c.ue(0);
    c.se(4);
    c.se(4);
    c.ue(0);
    c.u(1, 1);
    let mut data = unit(0x41, &b.bytes());
    data.extend(unit(0x41, &c.bytes()));
    let packets = [sps(66, 2, 1), pps(false), data];
    let (rows, st, pictures, _) = decode_all(&packets, false, false);
    assert_eq!((pictures, st.cavlc_decoded, st.incomplete), (1, 2, 1));
    assert_eq!(rows, vec![row(0, -1, (10, 10), (8, 8)), row(0, -1, (25, 9), (24, 8))]);
}

#[test]
fn length_prefixed_packets() {
    let s = &sps(66, 2, 2)[4..];
    let p = &pps(false)[4..];
    let mut rec = vec![1, 66, 0, 30, 0xFF, 0xE1, 0, s.len() as u8];
    rec.extend_from_slice(s);
    rec.extend_from_slice(&[1, 0, p.len() as u8]);
    rec.extend_from_slice(p);
    let mut g = PictureGrouper::new(&rec, false);
    let slice = &cavlc_p(0)[4..];
    let mut packet = vec![0, 0, 0, slice.len() as u8];
    packet.extend_from_slice(slice);
    assert!(g.packet(&packet).is_empty());
    let done = g.packet(&packet);
    assert_eq!(done.len(), 1);
    assert_eq!((done[0].frame_index, done[0].mb_w, done[0].mb_h), (0, 2, 2));
    assert_eq!(g.finish().unwrap().frame_index, 1);
    assert!(g.finish().is_none());
    assert_eq!(g.picture_count(), 2);
}

#[test]
fn a_slice_without_parameter_sets_is_dropped() {
    let mut g = PictureGrouper::new(&[], false);
    assert!(g.packet(&cavlc_p(0)).is_empty());
    assert!(g.packet(&pps(false)).is_empty());
    assert!(g.packet(&cavlc_p(0)).is_empty());
    assert!(g.finish().is_none());
    assert_eq!(g.picture_count(), 0);
}

fn poc_sps() -> Sps {
    parse_sps(&split_annexb(&sps(66, 2, 2))[0].rbsp)
}

#[test]
fn picture_order_counts() {
    let s = poc_sps();
    let (mut msb, mut lsb) = (0, 0);
    let mut got = Vec::new();
    for v in [0u32, 8, 4, 14, 2, 12, 6, 15] {
        got.push(h264_compute_poc(&s, v, 1, &mut msb, &mut lsb).unwrap());
    }
    assert_eq!(got, vec![0, 8, 4, -2, 2, -4, -10, -17]);
    let mut s = poc_sps();
    s.pic_order_cnt_type = 2;
    assert_eq!(h264_compute_poc(&s, 3, 1, &mut msb, &mut lsb), None);
    // A picture that is no reference leaves the state.
    let s = poc_sps();
    let (mut msb, mut lsb) = (16, 14);
    assert_eq!(h264_compute_poc(&s, 1, 0, &mut msb, &mut lsb), Some(33));
    assert_eq!((msb, lsb), (16, 14));
    assert_eq!(h264_compute_poc(&s, 1, 2, &mut msb, &mut lsb), Some(33));
    assert_eq!((msb, lsb), (32, 1));
}

#[test]
fn order_counts_start_again_at_an_idr_picture() {
    let mut g = PictureGrouper::new(&[], false);
    let mut pocs = Vec::new();
    let mut packets = vec![sps(66, 2, 2), pps(false)];
    for (idr, poc) in [(true, 0u32), (false, 8), (false, 15), (true, 2), (false, 4)] {
        let mut b = Writer::new();
        b.ue(0);
        b.ue(2);
        b.ue(0);
        b.u(4, 0);
        if idr {
            b.ue(0);
        }
        b.u(4, poc);
        if idr {
            b.u(2, 0);
        } else {
            b.u(1, 0);
        }
        b.se(0);
        b.u(8, 0x80);
        packets.push(unit(if idr { 0x65 } else { 0x41 }, &b.bytes()));
    }
    for p in &packets {
        pocs.extend(g.packet(p).iter().map(|p| p.poc.unwrap()));
    }
    pocs.extend(g.finish().iter().map(|p| p.poc.unwrap()));
    assert_eq!(pocs, vec![0, 8, 15, 2, 4]);
}

fn reference(poc: i32) -> H264RefFrame {
    H264RefFrame {
        poc,
        bw: 0,
        mv: Vec::new(),
        refi: Vec::new(),
        mv1: None,
        refi1: None,
        col_shape: Vec::new(),
    }
}

#[test]
fn collocated_picture() {
    let dpb: Vec<H264RefFrame> = [0, 8, 4, 16].into_iter().map(reference).collect();
    assert_eq!(h264_col_pic(&dpb, 6, 1, 1), Some(1));
    assert_eq!(h264_col_pic(&dpb, 12, 2, 2), Some(3));
    // Nothing after it: the nearest before, or the second where the lists agree.
    assert_eq!(h264_col_pic(&dpb, 20, 1, 1), Some(3));
    assert_eq!(h264_col_pic(&dpb, 20, 2, 2), Some(1));
    assert_eq!(h264_col_pic(&dpb, 20, 2, 3), Some(3));
    assert_eq!(h264_col_pic(&dpb, -4, 1, 1), Some(0));
    assert_eq!(h264_col_pic(&dpb[..1], 0, 1, 1), None);
    assert_eq!(h264_col_pic(&[], 0, 1, 1), None);
}

#[test]
fn slice_header_fields() {
    let s = parse_sps(&split_annexb(&sps(100, 120, 68))[0].rbsp);
    assert_eq!((s.profile_idc, s.chroma_format_idc), (100, 1));
    assert_eq!((s.pic_width_in_mbs, s.frame_height_in_mbs()), (120, 68));
    assert_eq!((s.log2_max_frame_num, s.log2_max_pic_order_cnt_lsb), (4, 4));
    assert!(s.frame_mbs_only_flag && s.direct_8x8_inference_flag);
    let p = parse_pps(&split_annexb(&pps(true))[0].rbsp);
    assert!(p.entropy_coding_mode_flag && !p.transform_8x8_mode_flag);
    assert_eq!((p.num_ref_idx_l0_default_active, p.pic_init_qp), (1, 26));
    let mut b = Writer::new();
    b.ue(7);
    b.ue(6); // B
    b.ue(0);
    b.u(4, 9);
    b.u(4, 5);
    b.u(1, 0);
    b.u(1, 1);
    b.ue(2);
    b.ue(1);
    b.u(1, 1);
    b.ue(0);
    b.ue(4);
    b.ue(2);
    b.ue(1);
    b.ue(3);
    b.u(1, 0);
    b.u(1, 1); // marking
    b.ue(1);
    b.ue(3);
    b.ue(0);
    b.ue(2);
    b.se(-6);
    b.u(1, 1);
    let nal = &split_annexb(&unit(0x41, &b.bytes()))[0];
    let sps_for = |id: u32| -> Option<Sps> { if id == 0 { Some(s) } else { None } };
    let pps_for = |id: u32| -> Option<Pps> { if id == 0 { Some(p) } else { None } };
    let h = parse_slice_header(nal, &sps_for, &pps_for).unwrap();
    assert_eq!((h.first_mb_in_slice, h.frame_num, h.pic_order_cnt_lsb), (7, 9, 5));
    assert_eq!(h.slice_type, SliceType::B);
    assert!(!h.direct_spatial_mv_pred_flag && !h.is_idr);
    assert_eq!((h.num_ref_idx_l0_active, h.num_ref_idx_l1_active), (3, 2));
    assert_eq!((h.cabac_init_idc, h.slice_qp), (2, 20));
    let missing = |_: u32| -> Option<Pps> { None };
    assert!(parse_slice_header(nal, &sps_for, &missing).is_none());
    assert!(SliceType::from_ue(7).is_intra() && SliceType::from_ue(4).is_intra());
    assert!(!SliceType::from_ue(3).is_intra());
}

#[test]
fn both_formats_hold_the_same_rows() {
    let packets = [sps(66, 2, 2), pps(false), cavlc_p(0)];
    let mut grouper = PictureGrouper::new(&[], false);
    for p in &packets {
        assert!(grouper.packet(p).is_empty());
    }
    let p = grouper.finish().unwrap();
    let mut grid = None;
    let mut compact = Vec::new();
    let mut st = Stats::default();
    decode_picture(&p, &mut grid, &mut compact, &mut st, &mut Vec::new(), false, false);
    let g: FrameGrids = grid.unwrap();
    assert_eq!((g.dims(), g.mb_count(), g.is_chroma422()), ((2, 2), 4, false));
    let mut full: Vec<MotionVector> = Vec::new();
    g.export_mvs(0, false, &mut full);
    assert_eq!(full.len(), 3);
    assert_eq!(
        full[2],
        MotionVector {
            frame: 0,
            source: -1,
            w: 16,
            h: 8,
            src_x: 10,
            src_y: 27,
            dst_x: 8,
            dst_y: 28,
            flags: 0,
            motion_x: 9,
            motion_y: -5,
            motion_scale: 4,
        }
    );
    let again: Vec<MvCompact> = full
        .iter()
        .map(|m| {
            row(
                m.frame,
                m.source,
                (m.src_x as i16, m.src_y as i16),
                (m.dst_x as i16, m.dst_y as i16),
            )
        })
        .collect();
    assert_eq!(again, compact);
}

#[test]
fn rows_tile_their_macroblock() {
    // Whole, in two ways of halves, and in quarters.
    for (kind, parts) in [(0u32, 1usize), (1, 2), (2, 2), (3, 4)] {
        let mut b = header(0, 0, 0, 0, true, false);
        for _ in 0..2 {
            b.ue(0);
            b.ue(kind);
            if kind == 3 {
                for _ in 0..4 {
                    b.ue(0);
                }
            }
            for _ in 0..parts {
                b.se(100);
                b.se(100);
            }
            b.ue(0);
        }
        b.u(1, 1);
        let mut grouper = PictureGrouper::new(&[], false);
        for p in [sps(66, 2, 1), pps(false), unit(0x41, &b.bytes())] {
            assert!(grouper.packet(&p).is_empty());
        }
        let p = grouper.finish().unwrap();
        let (mut grid, mut st) = (None, Stats::default());
        decode_picture(&p, &mut grid, &mut Vec::new(), &mut st, &mut Vec::new(), false, false);
        let mut rows: Vec<MotionVector> = Vec::new();
        grid.unwrap().export_mvs(0, false, &mut rows);
        assert_eq!(rows.len(), 2 * parts);
        for x in 0..32 {
            for y in 0..16 {
                let over = |r: &MotionVector| {
                    let (left, top) = (r.dst_x - r.w / 2, r.dst_y - r.h / 2);
                    left <= x && x < left + r.w && top <= y && y < top + r.h
                };
                let found: Vec<usize> = (0..rows.len()).filter(|&i| over(&rows[i])).collect();
                assert_eq!(found.len(), 1);
                // Those of the left macroblock come first.
                assert_eq!(found[0] < parts, x < 16);
            }
        }
    }
}

fn noise(seed: u64, n: usize) -> Vec<u8> {
    let mut s = seed;
    (0..n)
        .map(|_| {
            s = s.wrapping_mul(6364136223846793005).wrapping_add(1442695040888963407);
            (s >> 33) as u8
        })
        .collect()
}

#[test]
fn noise_never_stops_the_decoder() {
    for seed in 0..60u64 {
        for cabac in [false, true] {
            let mut packets = vec![sps(100, 5, 4), pps(cabac)];
            for (i, kind) in [2u32, 0, 0, 1, 0, 1].into_iter().enumerate() {
                let mut b = header(0, kind, i as u32, 2 * i as u32, true, cabac);
                b.align(1);
                let mut body = b.bytes();
                body.extend(noise(seed * 16 + i as u64, 600));
                packets.push(unit(0x41, &body));
            }
            let (rows, st, pictures, _) = decode_all(&packets, true, false);
            assert_eq!(pictures, 6);
            assert!(st.cavlc_decoded + st.cabac_decoded + st.b_decoded + st.unsupported == 6);
            assert!(rows.iter().all(|r| r.src_x != r.dst_x || r.src_y != r.dst_y));
        }
    }
}

#[test]
fn noise_decodes_alike_alone_and_in_a_row() {
    for seed in 0..40u64 {
        for cabac in [false, true] {
            let mut packets = vec![sps(100, 5, 4), pps(cabac)];
            for i in 0..4u32 {
                let mut b = header(0, 0, i, 2 * i, true, cabac);
                b.align(1);
                let mut body = b.bytes();
                body.extend(noise(seed * 8 + i as u64, 300));
                packets.push(unit(0x41, &body));
            }
            let mut grouper = PictureGrouper::new(&[], false);
            let mut pictures: Vec<Picture> = Vec::new();
            for p in &packets {
                pictures.extend(grouper.packet(p));
            }
            pictures.extend(grouper.finish());
            let mut kept = None;
            let (mut a, mut b) = (Vec::new(), Vec::new());
            let (mut sa, mut sb) = (Stats::default(), Stats::default());
            for p in pictures.iter() {
                decode_picture(p, &mut kept, &mut a, &mut sa, &mut Vec::new(), false, false);
                let mut own = None;
                decode_picture(p, &mut own, &mut b, &mut sb, &mut Vec::new(), false, false);
            }
            assert_eq!(a, b);
            assert_eq!(sa.parse_errors, sb.parse_errors);
        }
    }
}

#[test]
fn noise_as_a_stream() {
    for seed in 0..50u64 {
        let data = noise(seed, 3000);
        let mut g = PictureGrouper::new(&noise(seed + 99, 60), seed % 2 == 0);
        let _ = g.packet(&data);
        let mut body = Vec::new();
        for c in data.chunks(97) {
            body.extend(unit(c[0] & 0x7F, c));
        }
        let _ = g.packet(&body);
        let _ = g.finish();
    }
}
