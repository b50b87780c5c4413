//! H.265 from packets to rows.

use mv_extract::hevc::contexts::{
    init_states, ABS_MVD_GREATER0_FLAG_OFFSET, ABS_MVD_GREATER1_FLAG_OFFSET, CBF_CB_CR_OFFSET,
    CBF_LUMA_OFFSET, COEFF_ABS_LEVEL_GREATER1_FLAG_OFFSET, COEFF_ABS_LEVEL_GREATER2_FLAG_OFFSET,
    HEVC_CONTEXTS, INTRA_CHROMA_PRED_MODE_OFFSET, LAST_SIGNIFICANT_COEFF_X_PREFIX_OFFSET,
    LAST_SIGNIFICANT_COEFF_Y_PREFIX_OFFSET, MERGE_FLAG_OFFSET, MVP_LX_FLAG_OFFSET,
    NO_RESIDUAL_DATA_FLAG_OFFSET, PART_MODE_OFFSET, PRED_MODE_FLAG_OFFSET,
    PREV_INTRA_LUMA_PRED_FLAG_OFFSET, REF_IDX_L0_OFFSET, SIGNIFICANT_COEFF_FLAG_OFFSET,
    SKIP_FLAG_OFFSET, SPLIT_CODING_UNIT_FLAG_OFFSET,
};
use mv_extract::hevc::refs::mv_scale;
use mv_extract::hevc::slice_header::SliceType;
use mv_extract::hevc::stream::{hevc_compute_poc, HevcStream};
use mv_extract::motion::{Mv, MvCompact};

struct Writer {
    bits: Vec<u8>,
}

impl Writer {
    fn new() -> Writer {
        Writer { bits: Vec::new() }
    }
    fn u(&mut self, n: u32, v: u32) {
        for i in (0..n).rev() {
            self.bits.push(((v >> i) & 1) as u8);
        }
    }
    fn ue(&mut self, v: u32) {
        let w = v as u64 + 1;
        let z = 63 - w.leading_zeros();
        for _ in 0..z {
            self.bits.push(0);
        }
        for i in (0..=z).rev() {
            self.bits.push(((w >> i) & 1) as u8);
        }
    }
    fn se(&mut self, v: i32) {
        self.ue(if v > 0 { 2 * v as u32 - 1 } else { (-2 * v) as u32 });
    }
    fn align(&mut self, bit: u8) {
        while self.bits.len() % 8 != 0 {
            self.bits.push(bit);
        }
    }
    fn bytes(&self) -> Vec<u8> {
        let mut out = Vec::new();
        for c in self.bits.chunks(8) {
            let mut b = 0u8;
            for (i, &x) in c.iter().enumerate() {
                b |= x << (7 - i);
            }
            out.push(b);
        }
        out
    }
}

const RANGE_LPS: [[u32; 4]; 63] = [
    [128, 176, 208, 240],
    [128, 167, 197, 227],
    [128, 158, 187, 216],
    [123, 150, 178, 205],
    [116, 142, 169, 195],
    [111, 135, 160, 185],
    [105, 128, 152, 175],
    [100, 122, 144, 166],
    [95, 116, 137, 158],
    [90, 110, 130, 150],
    [85, 104, 123, 142],
    [81, 99, 117, 135],
    [77, 94, 111, 128],
    [73, 89, 105, 122],
    [69, 85, 100, 116],
    [66, 80, 95, 110],
    [62, 76, 90, 104],
    [59, 72, 86, 99],
    [56, 69, 81, 94],
    [53, 65, 77, 89],
    [51, 62, 73, 85],
    [48, 59, 69, 80],
    [46, 56, 66, 76],
    [43, 53, 63, 72],
    [41, 50, 59, 69],
    [39, 48, 56, 65],
    [37, 45, 54, 62],
    [35, 43, 51, 59],
    [33, 41, 48, 56],
    [32, 39, 46, 53],
    [30, 37, 43, 50],
    [29, 35, 41, 48],
    [27, 33, 39, 45],
    [26, 31, 37, 43],
    [24, 30, 35, 41],
    [23, 28, 33, 39],
    [22, 27, 32, 37],
    [21, 26, 30, 35],
    [20, 24, 29, 33],
    [19, 23, 27, 31],
    [18, 22, 26, 30],
    [17, 21, 25, 28],
    [16, 20, 23, 27],
    [15, 19, 22, 25],
    [14, 18, 21, 24],
    [14, 17, 20, 23],
    [13, 16, 19, 22],
    [12, 15, 18, 21],
    [12, 14, 17, 20],
    [11, 14, 16, 19],
    [11, 13, 15, 18],
    [10, 12, 15, 17],
    [10, 12, 14, 16],
    [9, 11, 13, 15],
    [9, 11, 12, 14],
    [8, 10, 12, 14],
    [8, 9, 11, 13],
    [7, 9, 11, 12],
    [7, 9, 10, 12],
    [7, 8, 10, 11],
    [6, 8, 9, 11],
    [6, 7, 9, 10],
    [6, 7, 8, 9],
];

const NEXT_LPS: [u8; 63] = [
    0, 0, 1, 2, 2, 4, 4, 5, 6, 7, 8, 9, 9, 11, 11, 12, 13, 13, 15, 15, 16, 16, 18, 18, 19, 19, 21,
    21, 22, 22, 23, 24, 24, 25, 26, 26, 27, 27, 28, 29, 29, 30, 30, 30, 31, 32, 32, 33, 33, 33, 34,
    34, 35, 35, 35, 36, 36, 36, 37, 37, 37, 38, 38,
];

/// The arithmetic encoder.
struct Encoder {
    st: [u8; HEVC_CONTEXTS],
    low: u32,
    range: u32,
    first: bool,
    outstanding: u32,
    out: Writer,
}

impl Encoder {
    fn new(out: Writer, st: [u8; HEVC_CONTEXTS]) -> Encoder {
        Encoder { st, low: 0, range: 510, first: true, outstanding: 0, out }
    }
    fn put(&mut self, b: u8) {
        if self.first {
            self.first = false;
        } else {
            self.out.bits.push(b);
        }
        while self.outstanding > 0 {
            self.out.bits.push(1 - b);
            self.outstanding -= 1;
        }
    }
    fn step(&mut self) {
        if self.low < 256 {
            self.put(0);
        } else if self.low >= 512 {
            self.low -= 512;
            self.put(1);
        } else {
            self.low -= 256;
            self.outstanding += 1;
        }
    }
    fn renorm(&mut self) {
        while self.range < 256 {
            self.step();
            self.range <<= 1;
            self.low <<= 1;
        }
    }
    fn bin(&mut self, ctx: usize, b: u8) {
        let (p, mps) = (self.st[ctx] >> 1, self.st[ctx] & 1);
        let lps = RANGE_LPS[p as usize][(self.range as usize >> 6) & 3];
        self.range -= lps;
        if b != mps {
            self.low += self.range;
            self.range = lps;
            let m = if p == 0 { 1 - mps } else { mps };
            self.st[ctx] = NEXT_LPS[p as usize] << 1 | m;
        } else {
            self.st[ctx] = (if p < 62 { p + 1 } else { p }) << 1 | mps;
        }
        self.renorm();
    }
    fn bypass(&mut self, b: u8) {
        self.low <<= 1;
        if b != 0 {
            self.low += self.range;
        }
        if self.low >= 1024 {
            self.put(1);
            self.low -= 1024;
        } else if self.low < 512 {
            self.put(0);
        } else {
            self.low -= 512;
            self.outstanding += 1;
        }
    }
    fn terminate(&mut self, b: u8) {
        self.range -= 2;
        if b != 0 {
            self.low += self.range;
            self.range = 2;
            self.renorm();
            self.put((self.low >> 9 & 1) as u8);
            self.out.u(2, (self.low >> 7 & 3) | 1);
        } else {
            self.renorm();
        }
    }
}

fn unit(kind: u8, tid: u8, body: &[u8]) -> Vec<u8> {
    let mut out = vec![0, 0, 0, 1, kind << 1, tid];
    let mut zeros = 0;
    for &b in body {
        if zeros >= 2 && b <= 3 {
            out.push(3);
            zeros = 0;
        }
        zeros = if b == 0 { zeros + 1 } else { 0 };
        out.push(b);
    }
    out
}

fn sps(w: u32, h: u32) -> Vec<u8> {
    sps_with(w, h, 1, 2)
}

/// Tree blocks of `8 << ctb` and transforms up to `4 << tb`.
fn sps_with(w: u32, h: u32, ctb: u32, tb: u32) -> Vec<u8> {
    sps_sizes(w, h, ctb, 0, tb)
}

/// Transforms from `4 << min_tb` up to `4 << (min_tb + tb)`.
fn sps_sizes(w: u32, h: u32, ctb: u32, min_tb: u32, tb: u32) -> Vec<u8> {
    let mut b = Writer::new();
    b.u(4, 0);
    b.u(3, 0);
    b.u(1, 1);
    b.u(8, 1);
    b.u(32, 0);
    b.u(32, 0);
    b.u(16, 0);
    b.u(8, 93);
    b.ue(0);
    b.ue(1);
    b.ue(w);
    b.ue(h);
    b.u(1, 0);
    b.ue(0);
    b.ue(0);
    b.ue(4); // 8 bits of picture order
    b.u(1, 1);
    b.ue(1);
    b.ue(0);
    b.ue(0);
    b.ue(0); // coding blocks of 8
    b.ue(ctb);
    b.ue(min_tb);
    b.ue(tb);
    b.ue(0);
    b.ue(0);
    b.u(1, 0);
    b.u(1, 0);
    b.u(1, 0);
    b.u(1, 0);
    b.ue(1);
    b.ue(1); // one picture before
    b.ue(0);
    b.ue(0);
    b.u(1, 1);
    b.u(1, 0);
    b.u(1, 1); // temporal prediction
    b.u(1, 0);
    b.u(1, 0);
    b.u(1, 0);
    b.u(1, 1);
    unit(33, 1, &b.bytes())
}

fn pps() -> Vec<u8> {
    let mut b = Writer::new();
    b.ue(0);
    b.ue(0);
    b.u(1, 0);
    b.u(1, 0);
    b.u(3, 0);
    b.u(1, 0);
    b.u(1, 0);
    b.ue(0);
    b.ue(0);
    b.se(0);
    b.u(1, 0);
    b.u(1, 0);
    b.u(1, 0);
    b.se(0);
    b.se(0);
    b.u(1, 0);
    b.u(1, 0);
    b.u(1, 0);
    b.u(1, 0);
    b.u(1, 0);
    b.u(1, 0);
    b.u(1, 0);
    b.u(1, 0);
    b.u(1, 0);
    b.u(1, 0);
    b.ue(0);
    b.u(1, 0);
    b.u(1, 0);
    b.u(1, 1);
    unit(34, 1, &b.bytes())
}

/// A P header with one merge candidate; with the aligning bits.
fn p_header(poc: u32, temporal: bool) -> Writer {
    let mut b = Writer::new();
    b.u(1, 1);
    b.ue(0);
    b.ue(1);
    b.u(8, poc);
    b.u(1, 1);
    b.u(1, temporal as u32);
    b.u(1, 0);
    b.ue(4);
    b.se(0);
    b.u(1, 1);
    b.align(0);
    b
}

fn states(t: SliceType) -> [u8; HEVC_CONTEXTS] {
    let mut st = [0u8; HEVC_CONTEXTS];
    init_states(&mut st, t, false, 26);
    st
}

fn row(frame: i32, source: i32, src: (i16, i16), dst: (i16, i16)) -> MvCompact {
    MvCompact { frame, source, src_x: src.0, src_y: src.1, dst_x: dst.0, dst_y: dst.1 }
}

/// An IDR picture of two intra blocks.
fn i_picture() -> Vec<u8> {
    let mut b = Writer::new();
    b.u(1, 1);
    b.u(1, 0);
    b.ue(0);
    b.ue(2);
    b.se(0);
    b.u(1, 1);
    b.align(0);
    let mut e = Encoder::new(b, states(SliceType::I));
    for i in 0..2 {
        e.bin(SPLIT_CODING_UNIT_FLAG_OFFSET, 0);
        e.bin(PREV_INTRA_LUMA_PRED_FLAG_OFFSET, 1);
        e.bypass(0); // planar
        e.bin(INTRA_CHROMA_PRED_MODE_OFFSET, 0);
        e.bin(CBF_CB_CR_OFFSET, 0);
        e.bin(CBF_CB_CR_OFFSET, 0);
        e.bin(CBF_LUMA_OFFSET + 1, 0);
        e.terminate(i);
    }
    unit(19, 1, &e.out.bytes())
}

fn mvd(e: &mut Encoder, x: i32, y: i32) {
    e.bin(ABS_MVD_GREATER0_FLAG_OFFSET, (x != 0) as u8);
    e.bin(ABS_MVD_GREATER0_FLAG_OFFSET, (y != 0) as u8);
    for v in [x, y] {
        if v != 0 {
            e.bin(ABS_MVD_GREATER1_FLAG_OFFSET + 1, (v.abs() > 1) as u8);
        }
    }
    for v in [x, y] {
        if v.abs() > 1 {
            let mut rest = v.unsigned_abs() - 2;
            let mut k = 1;
            while rest >= 1 << k {
                e.bypass(1);
                rest -= 1 << k;
                k += 1;
            }
            e.bypass(0);
            while k > 0 {
                k -= 1;
                e.bypass((rest >> k & 1) as u8);
            }
        }
        if v != 0 {
            e.bypass((v < 0) as u8);
        }
    }
}

/// A block with a vector of its own, then a skipped one that takes it over or not.
fn p_picture(poc: u32, x: i32, y: i32, temporal: bool) -> Vec<u8> {
    let mut e = Encoder::new(p_header(poc, temporal), states(SliceType::P));
    e.bin(SPLIT_CODING_UNIT_FLAG_OFFSET, 0);
    e.bin(SKIP_FLAG_OFFSET, 0);
    e.bin(PRED_MODE_FLAG_OFFSET, 0);
    e.bin(PART_MODE_OFFSET, 1);
    e.bin(MERGE_FLAG_OFFSET, 0);
    mvd(&mut e, x, y);
    e.bin(MVP_LX_FLAG_OFFSET, 0);
    e.bin(NO_RESIDUAL_DATA_FLAG_OFFSET, 0);
    e.terminate(0);
    e.bin(SPLIT_CODING_UNIT_FLAG_OFFSET, 0);
    e.bin(SKIP_FLAG_OFFSET, 1);
    e.terminate(1);
    unit(1, 1, &e.out.bytes())
}

#[test]
fn hevc_pictures() {
    let mut s = HevcStream::new(&[]);
    assert!(s.packet(&sps(32, 16)).is_empty());
    assert!(s.packet(&pps()).is_empty());
    assert!(s.packet(&i_picture()).is_empty());
    // Both blocks have the vector (5, -9), and make one rectangle.
    assert_eq!(s.packet(&p_picture(1, 5, -9, false)), vec![row(1, -1, (16, 8), (17, 5))]);
    // The second takes the one of the picture before over, whose distance is the same.
    let rows = s.packet(&p_picture(2, 0, 0, true));
    assert_eq!(rows, vec![row(2, -1, (16, 8), (17, 5))]);
    let st = s.stats();
    assert!(st.hevc);
    assert_eq!((st.frames, st.i_slices, st.p_slices, st.b_slices), (3, 1, 2, 0));
    assert_eq!((st.sync_attempt, st.sync_ok), (3, 3));
    assert_eq!((st.width, st.height, st.ctb), (32, 16, 16));
    assert_eq!((st.qp_min, st.qp_max, st.bad_header, st.unsupported), (26, 26, 0, 0));
}

#[test]
fn hevc_residual_keeps_in_step() {
    let mut b = Writer::new();
    b.u(1, 1);
    b.u(1, 0);
    b.ue(0);
    b.ue(2);
    b.se(0);
    b.u(1, 1);
    b.align(0);
    let mut e = Encoder::new(b, states(SliceType::I));
    for i in 0..2 {
        e.bin(SPLIT_CODING_UNIT_FLAG_OFFSET, 0);
        e.bin(PREV_INTRA_LUMA_PRED_FLAG_OFFSET, 1);
        e.bypass(0);
        e.bin(INTRA_CHROMA_PRED_MODE_OFFSET, 0);
        e.bin(CBF_CB_CR_OFFSET, 0);
        e.bin(CBF_CB_CR_OFFSET, 1);
        e.bin(CBF_LUMA_OFFSET + 1, 1);
        // Luma: the last coefficient lies at (1, 0); both levels are 1.
        e.bin(LAST_SIGNIFICANT_COEFF_X_PREFIX_OFFSET + 6, 1);
        e.bin(LAST_SIGNIFICANT_COEFF_X_PREFIX_OFFSET + 6, 0);
        e.bin(LAST_SIGNIFICANT_COEFF_Y_PREFIX_OFFSET + 6, 0);
        e.bin(SIGNIFICANT_COEFF_FLAG_OFFSET + 21 + 1, 0);
        e.bin(SIGNIFICANT_COEFF_FLAG_OFFSET, 1);
        e.bin(COEFF_ABS_LEVEL_GREATER1_FLAG_OFFSET + 1, 0);
        e.bin(COEFF_ABS_LEVEL_GREATER1_FLAG_OFFSET + 2, 0);
        e.bypass(0);
        e.bypass(1);
        // The second chroma plane: one coefficient of 5.
        e.bin(LAST_SIGNIFICANT_COEFF_X_PREFIX_OFFSET + 15, 0);
        e.bin(LAST_SIGNIFICANT_COEFF_Y_PREFIX_OFFSET + 15, 0);
        e.bin(COEFF_ABS_LEVEL_GREATER1_FLAG_OFFSET + 17, 1);
        e.bin(COEFF_ABS_LEVEL_GREATER2_FLAG_OFFSET + 4, 1);
        e.bypass(1);
        e.bypass(1);
        e.bypass(1);
        e.bypass(0);
        e.terminate(i);
    }
    let mut s = HevcStream::new(&[]);
    for p in [sps(32, 16), pps(), unit(19, 1, &e.out.bytes())] {
        assert!(s.packet(&p).is_empty());
    }
    assert_eq!((s.stats().sync_attempt, s.stats().sync_ok), (1, 1));
}

#[test]
fn hevc_tree_blocks_larger_than_the_picture() {
    // A root that does not fit is divided without a flag.
    for ctb in [4, 5, 9] {
        let mut s = HevcStream::new(&[]);
        for p in [sps_with(64, 64, ctb, 3), pps()] {
            assert!(s.packet(&p).is_empty());
        }
        let mut b = Writer::new();
        b.u(1, 1);
        b.u(1, 0);
        b.ue(0);
        b.ue(2);
        b.se(0);
        b.u(1, 1);
        b.align(0);
        let mut e = Encoder::new(b, states(SliceType::I));
        e.bin(SPLIT_CODING_UNIT_FLAG_OFFSET, 0);
        e.bin(PREV_INTRA_LUMA_PRED_FLAG_OFFSET, 1);
        e.bypass(0);
        e.bin(INTRA_CHROMA_PRED_MODE_OFFSET, 0);
        e.bin(CBF_CB_CR_OFFSET, 0);
        e.bin(CBF_CB_CR_OFFSET, 0);
        for _ in 0..4 {
            e.bin(CBF_LUMA_OFFSET, 0);
        }
        e.terminate(1);
        assert!(s.packet(&unit(19, 1, &e.out.bytes())).is_empty());
        let mut e = Encoder::new(p_header(1, false), states(SliceType::P));
        e.bin(SPLIT_CODING_UNIT_FLAG_OFFSET, 0);
        e.bin(SKIP_FLAG_OFFSET, 0);
        e.bin(PRED_MODE_FLAG_OFFSET, 0);
        e.bin(PART_MODE_OFFSET, 1);
        e.bin(MERGE_FLAG_OFFSET, 0);
        mvd(&mut e, 12, -8);
        e.bin(MVP_LX_FLAG_OFFSET, 0);
        e.bin(NO_RESIDUAL_DATA_FLAG_OFFSET, 0);
        e.terminate(1);
        let rows = s.packet(&unit(1, 1, &e.out.bytes()));
        assert_eq!(rows, vec![row(1, -1, (32, 32), (35, 30))]);
        let st = s.stats();
        assert_eq!((st.sync_attempt, st.sync_ok, st.unsupported), (2, 2, 0));
        assert_eq!(st.ctb, 8 << ctb);
    }
}

#[test]
fn hevc_transforms_larger_than_tree_blocks_are_tried_in_vain() {
    let mut s = HevcStream::new(&[]);
    for p in [sps_sizes(32, 16, 1, 3, 0), pps(), i_picture(), p_picture(1, 8, 8, false)] {
        assert!(s.packet(&p).is_empty());
    }
    let st = s.stats();
    assert_eq!((st.frames, st.i_slices, st.p_slices), (2, 1, 1));
    assert_eq!((st.sync_attempt, st.sync_ok, st.unsupported), (2, 0, 0));
}

/// A block with a vector of its own.
fn p_block(e: &mut Encoder, x: i32, y: i32) {
    e.bin(SPLIT_CODING_UNIT_FLAG_OFFSET, 0);
    e.bin(SKIP_FLAG_OFFSET, 0);
    e.bin(PRED_MODE_FLAG_OFFSET, 0);
    e.bin(PART_MODE_OFFSET, 1);
    e.bin(MERGE_FLAG_OFFSET, 0);
    mvd(e, x, y);
    e.bin(MVP_LX_FLAG_OFFSET, 0);
    e.bin(NO_RESIDUAL_DATA_FLAG_OFFSET, 0);
}

#[test]
fn hevc_pictures_need_not_be_whole_coding_blocks() {
    // The slice ends before the edge.
    let mut e = Encoder::new(p_header(1, false), states(SliceType::P));
    p_block(&mut e, 5, -9);
    e.terminate(1);
    let mut s = HevcStream::new(&[]);
    for p in [sps(36, 18), pps()] {
        assert!(s.packet(&p).is_empty());
    }
    assert_eq!(s.packet(&unit(1, 1, &e.out.bytes())), vec![row(0, -1, (8, 8), (9, 5))]);
    assert_eq!((s.stats().sync_attempt, s.stats().sync_ok), (1, 0));
}

#[test]
fn hevc_blocks_past_the_right_edge_run_on_in_the_next_row() {
    // Of the second tree block only the left half starts in the picture: two skipped blocks, which
    // are half outside. What they keep past the edge is found in the row below.
    let mut e = Encoder::new(p_header(1, false), states(SliceType::P));
    p_block(&mut e, 8, 0);
    e.terminate(0);
    e.bin(SKIP_FLAG_OFFSET, 1);
    e.bin(SKIP_FLAG_OFFSET + 1, 1);
    e.terminate(1);
    let mut s = HevcStream::new(&[]);
    for p in [sps(20, 32), pps()] {
        assert!(s.packet(&p).is_empty());
    }
    let rows = s.packet(&unit(1, 1, &e.out.bytes()));
    assert_eq!(rows, vec![row(0, -1, (10, 8), (12, 8)), row(0, -1, (2, 18), (4, 18))]);
    assert_eq!((s.stats().sync_attempt, s.stats().sync_ok), (1, 0));
}

#[test]
fn hevc_earlier_pictures_come_nearest_first() {
    // The set of the slice is predicted: -2 - 1 and -2, in ascending order.
    let mut b = Writer::new();
    b.u(1, 1);
    b.ue(0);
    b.ue(1);
    b.u(8, 9);
    b.u(1, 0);
    b.u(1, 1);
    b.ue(0);
    b.u(1, 1);
    b.ue(1);
    b.u(1, 1);
    b.u(1, 1);
    b.u(1, 0);
    b.u(1, 1);
    b.ue(1); // two references
    b.ue(4);
    b.se(0);
    b.u(1, 1);
    b.align(0);
    let mut e = Encoder::new(b, states(SliceType::P));
    for i in 0..2u8 {
        e.bin(SPLIT_CODING_UNIT_FLAG_OFFSET, 0);
        e.bin(SKIP_FLAG_OFFSET, 0);
        e.bin(PRED_MODE_FLAG_OFFSET, 0);
        e.bin(PART_MODE_OFFSET, 1);
        e.bin(MERGE_FLAG_OFFSET, 0);
        e.bin(REF_IDX_L0_OFFSET, i);
        mvd(&mut e, if i == 0 { 8 } else { 0 }, 0);
        e.bin(MVP_LX_FLAG_OFFSET, 0);
        e.bin(NO_RESIDUAL_DATA_FLAG_OFFSET, 0);
        e.terminate(i);
    }
    let mut s = HevcStream::new(&[]);
    for p in [sps(32, 16), pps()] {
        assert!(s.packet(&p).is_empty());
    }
    // The second vector is the first one, scaled from distance 2 to distance 3.
    let rows = s.packet(&unit(1, 1, &e.out.bytes()));
    assert_eq!(rows, vec![row(0, -1, (8, 8), (10, 8)), row(0, -2, (24, 8), (27, 8))]);
    assert_eq!(s.stats().sync_ok, 1);
}

#[test]
fn hevc_vector_without_displacement_is_left_out() {
    let mut s = HevcStream::new(&[]);
    for p in [sps(32, 16), pps(), i_picture()] {
        assert!(s.packet(&p).is_empty());
    }
    assert!(s.packet(&p_picture(1, 3, 1, false)).is_empty());
    // Rounding is downwards.
    assert_eq!(s.packet(&p_picture(2, -1, 0, false)), vec![row(2, -1, (16, 8), (15, 8))]);
}

#[test]
fn hevc_slices_need_their_parameter_sets() {
    let mut s = HevcStream::new(&[]);
    assert!(s.packet(&i_picture()).is_empty());
    assert!(s.packet(&pps()).is_empty());
    assert!(s.packet(&i_picture()).is_empty());
    assert_eq!(s.stats().frames, 0);
    assert!(s.packet(&sps(32, 16)).is_empty());
    assert!(s.packet(&i_picture()).is_empty());
    assert_eq!((s.stats().frames, s.stats().sync_ok), (1, 1));
}

#[test]
fn hevc_in_length_prefixed_packets() {
    let mut rec = vec![0u8; 23];
    rec[0] = 1;
    rec[21] = 3;
    rec[22] = 2;
    for (kind, u) in [(33u8, sps(32, 16)), (34, pps())] {
        rec.extend_from_slice(&[kind, 0, 1, 0, u.len() as u8 - 4]);
        rec.extend_from_slice(&u[4..]);
    }
    let mut s = HevcStream::new(&rec);
    assert_eq!((s.stats().width, s.stats().height), (32, 16));
    let mut packet = Vec::new();
    for u in [i_picture(), p_picture(1, 8, 4, false)] {
        packet.extend_from_slice(&[0, 0, 0, u.len() as u8 - 4]);
        packet.extend_from_slice(&u[4..]);
    }
    assert_eq!(s.packet(&packet), vec![row(1, -1, (16, 8), (18, 9))]);
}

#[test]
fn hevc_order_counts() {
    assert_eq!(hevc_compute_poc(4, 0, 5, 1), 5);
    assert_eq!(hevc_compute_poc(4, 14, 2, 1), 18);
    assert_eq!(hevc_compute_poc(4, 17, 14, 1), 14);
    assert_eq!(hevc_compute_poc(4, 17, 9, 1), 25);
    assert_eq!(hevc_compute_poc(4, 17, 9, 16), 9);
    assert_eq!(hevc_compute_poc(4, 17, 9, 18), 9);
    assert_eq!(hevc_compute_poc(4, 17, 9, 19), 25);
}

#[test]
fn vectors_scale_with_the_distance() {
    let v = Mv { x: 8, y: -8 };
    assert_eq!(mv_scale(v, 2, 2), Mv { x: 8, y: -8 });
    assert_eq!(mv_scale(v, 4, 2), Mv { x: 4, y: -4 });
    assert_eq!(mv_scale(v, 2, -2), Mv { x: -8, y: 8 });
    assert_eq!(mv_scale(v, 1, 3), Mv { x: 24, y: -24 });
    assert_eq!(mv_scale(Mv { x: 32767, y: -32768 }, 1, 8), Mv { x: 32767, y: -32768 });
}

fn noise(seed: u64, n: usize) -> Vec<u8> {
    let mut s = seed;
    (0..n)
        .map(|_| {
            s = s.wrapping_mul(6364136223846793005).wrapping_add(1442695040888963407);
            (s >> 33) as u8
        })
        .collect()
}

#[test]
fn noise_never_stops_the_hevc_decoder() {
    for seed in 0..60u64 {
        let mut s = HevcStream::new(&[]);
        let _ = s.packet(&sps(72 + seed as u32 % 9, 56 + seed as u32 % 5));
        let _ = s.packet(&pps());
        for i in 0..4u32 {
            let mut body = p_header(i, i > 0).bytes();
            body.extend(noise(seed * 4 + i as u64, 500));
            let rows = s.packet(&unit(1, 1, &body));
            assert!(rows.iter().all(|r| r.frame == i as i32));
            assert!(rows.iter().all(|r| r.src_x != r.dst_x || r.src_y != r.dst_y));
        }
        assert_eq!(s.stats().sync_attempt, 4);
    }
}

#[test]
fn noise_as_an_hevc_stream() {
    for seed in 0..50u64 {
        let data = noise(seed, 4000);
        let mut s = HevcStream::new(&noise(seed + 7, 80));
        let _ = s.packet(&data);
        let mut body = Vec::new();
        for c in data.chunks(131) {
            body.extend(unit(c[0] & 0x3F, 1, c));
        }
        let _ = s.packet(&body);
        assert!(s.stats().frames <= 64);
    }
}
