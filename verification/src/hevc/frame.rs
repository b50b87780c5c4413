//! The geometry of a picture and the block state that decoding a slice keeps.

use super::params::{Sps, SpsV};
use super::transform::transforms_ok;
use crate::grid::{all, entry, fill_runs, in_runs, lemma_run_bound, lemma_runs_step, runs};
use vstd::arithmetic::div_mod::{
    lemma_div_is_ordered_by_denominator, lemma_fundamental_div_mod, lemma_mod_mod,
    lemma_mod_multiples_basic,
};
use vstd::arithmetic::power2::{
    lemma2_to64, lemma_pow2_adds, lemma_pow2_strictly_increases, lemma_pow2_unfold, pow2,
};
use vstd::bits::lemma_u32_shl_is_mul;
use vstd::prelude::*;

verus! {

// ---------------------------------------------------------------------------
// Geometry

/// Blocks have sides of less than `2^31` samples.
pub const MAX_LOG2: u32 = 30;

/// `2^k`, for the sizes of blocks.
pub open spec fn side(k: u32) -> int {
    pow2(k as nat) as int
}

/// How the sizes of blocks grow.
pub proof fn lemma_side(k: u32)
    requires
        k <= MAX_LOG2,
    ensures
        1 <= side(k) <= 0x4000_0000,
        k == 0 ==> side(k) == 1,
        k > 0 ==> side(k) == 2 * side((k - 1) as u32),
        k >= 2 ==> is_side(side(k)),
    decreases k,
{
    lemma2_to64();
    lemma_side_bound(k);
    if k > 0 {
        lemma_side((k - 1) as u32);
        lemma_pow2_unfold(k as nat);
    }
    if k > 2 {
        lemma_pow2_strictly_increases(2, k as nat);
    }
}

proof fn lemma_side_bound(k: u32)
    requires
        k <= MAX_LOG2,
    ensures
        side(k) <= 0x4000_0000,
{
    lemma2_to64();
    if k < 30 {
        lemma_pow2_strictly_increases(k as nat, 30);
    }
}

/// A larger size has a larger logarithm.
pub proof fn lemma_side_order(j: u32, k: u32)
    ensures
        j < k <==> side(j) < side(k),
        j == k <==> side(j) == side(k),
{
    if j < k {
        lemma_pow2_strictly_increases(j as nat, k as nat);
    } else if k < j {
        lemma_pow2_strictly_increases(k as nat, j as nat);
    }
}

/// `2^k`, for the sizes of blocks.
pub fn side_of(k: u32) -> (n: i32)
    requires
        k <= MAX_LOG2,
    ensures
        n == side(k),
        1 <= n <= 0x4000_0000,
{
    proof {
        lemma_side(k);
        lemma_u32_shl_is_mul(1, k);
    }
    (1u32 << k) as i32
}

impl SpsV {
    /// Block and picture sizes are such that slices can be decoded: coding blocks of 8 samples or
    /// more, smallest transform blocks that fit in coding tree blocks, and coordinates and block
    /// numbers that fit in machine words. The picture need not be one of whole coding blocks.
    pub open spec fn decodable(self) -> bool {
        &&& 3 <= self.min_cb_log2_size_y <= self.ctb_log2_size_y <= MAX_LOG2
        &&& transforms_ok(self)
        &&& self.min_tb_log2_size_y <= self.ctb_log2_size_y
        &&& self.pic_width_in_luma_samples + side(self.ctb_log2_size_y) <= i32::MAX
        &&& self.pic_height_in_luma_samples + side(self.ctb_log2_size_y) <= i32::MAX
        &&& self.width_in_ctbs() * self.height_in_ctbs() <= u32::MAX
        &&& pu_cells(self) <= usize::MAX
    }
}

/// Number of prediction blocks of the smallest size.
pub open spec fn pu_cells(sps: SpsV) -> int {
    (sps.pic_width_in_luma_samples as int / (side(sps.min_cb_log2_size_y) / 2)) * (
    sps.pic_height_in_luma_samples as int / (side(sps.min_cb_log2_size_y) / 2))
}

impl Sps {
    /// Whether slices with this parameter set can be decoded.
    pub fn is_decodable(&self) -> (r: bool)
        ensures
            r == self@.decodable(),
    {
        if !(3 <= self.min_cb_log2_size_y && self.min_cb_log2_size_y <= self.ctb_log2_size_y
            && self.ctb_log2_size_y <= MAX_LOG2) {
            return false;
        }
        if !(2 <= self.min_tb_log2_size_y && 2 <= self.max_tb_log2_size_y
            && self.min_tb_log2_size_y <= self.ctb_log2_size_y) {
            return false;
        }
        let w = self.pic_width_in_luma_samples;
        let h = self.pic_height_in_luma_samples;
        let m = side_of(self.min_cb_log2_size_y) as u32;
        let ctb = side_of(self.ctb_log2_size_y) as u32;
        let limit: u32 = i32::MAX as u32 - ctb;
        if w > limit || h > limit {
            return false;
        }
        let ctbs_w = self.pic_width_in_ctbs();
        let ctbs_h = self.pic_height_in_ctbs();
        let ctbs: u64 = {
            proof {
                assert(ctbs_w as int * ctbs_h as int <= 0xffff_ffff * 0xffff_ffff)
                    by (nonlinear_arith)
                    requires
                        0 <= ctbs_w <= 0xffff_ffff,
                        0 <= ctbs_h <= 0xffff_ffff,
                ;
                assert(0 <= ctbs_w as int * ctbs_h as int) by (nonlinear_arith)
                    requires
                        0 <= ctbs_w,
                        0 <= ctbs_h,
                ;
            }
            ctbs_w as u64 * ctbs_h as u64
        };
        if ctbs > u32::MAX as u64 {
            return false;
        }
        proof {
            lemma_side(self.min_cb_log2_size_y);
            lemma_side((self.min_cb_log2_size_y - 1) as u32);
        }
        let pu: u32 = m / 2;
        match ((w / pu) as usize).checked_mul((h / pu) as usize) {
            Some(_) => true,
            None => false,
        }
    }
}

/// Sizes that follow from a parameter set: the picture, the coding tree block, and the smallest
/// coding, prediction and transform blocks, in samples; the picture in smallest coding and
/// prediction blocks, and its width in coding tree blocks.
#[derive(Clone, Copy)]
pub struct Geo {
    pub w: i32,
    pub h: i32,
    pub ctb: i32,
    pub min_cb: i32,
    pub min_pu: i32,
    pub min_tb: i32,
    pub cb_w: usize,
    pub cb_h: usize,
    pub pu_w: usize,
    pub pu_h: usize,
    pub ctb_w: u32,
}

/// The sizes that follow from `sps`.
pub open spec fn geo_of(sps: SpsV) -> Geo {
    let min_cb = side(sps.min_cb_log2_size_y);
    let w = sps.pic_width_in_luma_samples as int;
    let h = sps.pic_height_in_luma_samples as int;
    Geo {
        w: w as i32,
        h: h as i32,
        ctb: side(sps.ctb_log2_size_y) as i32,
        min_cb: min_cb as i32,
        min_pu: (min_cb / 2) as i32,
        min_tb: side(sps.min_tb_log2_size_y) as i32,
        cb_w: (w / min_cb) as usize,
        cb_h: (h / min_cb) as usize,
        pu_w: (w / (min_cb / 2)) as usize,
        pu_h: (h / (min_cb / 2)) as usize,
        ctb_w: sps.width_in_ctbs(),
    }
}

/// A size that blocks can have.
pub open spec fn is_side(n: int) -> bool {
    4 <= n <= 0x4000_0000 && exists|k: u32| k <= MAX_LOG2 && n == #[trigger] side(k)
}

impl Geo {
    pub open spec fn wf(self) -> bool {
        &&& 0 <= self.w && self.w + self.ctb <= i32::MAX
        &&& 0 <= self.h && self.h + self.ctb <= i32::MAX
        &&& is_side(self.ctb as int)
        &&& is_side(self.min_cb as int)
        &&& is_side(self.min_pu as int)
        &&& is_side(self.min_tb as int)
        &&& self.min_cb == 2 * self.min_pu
        &&& self.min_cb <= self.ctb
        &&& self.min_tb <= self.ctb
        &&& self.cb_w == self.w as int / self.min_cb as int
        &&& self.cb_h == self.h as int / self.min_cb as int
        &&& self.pu_w == self.w as int / self.min_pu as int
        &&& self.pu_h == self.h as int / self.min_pu as int
        &&& self.cb_w * self.cb_h <= usize::MAX
        &&& self.pu_w * self.pu_h <= usize::MAX
    }

    pub fn new(sps: &Sps) -> (g: Geo)
        requires
            sps@.decodable(),
        ensures
            g == geo_of(sps@),
            g.wf(),
    {
        let w = sps.pic_width_in_luma_samples as i32;
        let h = sps.pic_height_in_luma_samples as i32;
        let min_cb = side_of(sps.min_cb_log2_size_y);
        let min_pu: i32 = min_cb / 2;
        proof {
            lemma_side(sps.min_cb_log2_size_y);
            lemma_side((sps.min_cb_log2_size_y - 1) as u32);
            lemma_side(sps.ctb_log2_size_y);
            lemma_side(sps.min_tb_log2_size_y);
            lemma_side_order(sps.ctb_log2_size_y, sps.min_cb_log2_size_y);
            lemma_side_order(sps.ctb_log2_size_y, sps.min_tb_log2_size_y);
            let (cw, ch) = (w as int / min_cb as int, h as int / min_cb as int);
            let (pw, ph) = (w as int / min_pu as int, h as int / min_pu as int);
            lemma_div_is_ordered_by_denominator(w as int, min_pu as int, min_cb as int);
            lemma_div_is_ordered_by_denominator(h as int, min_pu as int, min_cb as int);
            assert(0 <= cw && 0 <= ch);
            assert(0 <= cw * ch <= pw * ph) by (nonlinear_arith)
                requires
                    0 <= cw <= pw,
                    0 <= ch <= ph,
            ;
        }
        Geo {
            w,
            h,
            ctb: side_of(sps.ctb_log2_size_y),
            min_cb,
            min_pu,
            min_tb: side_of(sps.min_tb_log2_size_y),
            cb_w: (w / min_cb) as usize,
            cb_h: (h / min_cb) as usize,
            pu_w: (w / min_pu) as usize,
            pu_h: (h / min_pu) as usize,
            ctb_w: sps.pic_width_in_ctbs(),
        }
    }

    /// A block of `bw` by `bh` samples at `x`, `y`, on the grid of smallest prediction blocks. It may
    /// reach past the right and lower edges of the picture.
    pub open spec fn has_block(self, x: int, y: int, bw: int, bh: int) -> bool {
        &&& 0 <= x && 0 <= y && 0 < bw && 0 < bh
        &&& x + bw <= i32::MAX && y + bh <= i32::MAX
        &&& x % (self.min_pu as int) == 0 && y % (self.min_pu as int) == 0
        &&& bw % (self.min_pu as int) == 0 && bh % (self.min_pu as int) == 0
    }

    /// A coding block of `n` by `n` samples at `x`, `y` starts in the picture, on the grid of coding
    /// blocks of its size.
    pub open spec fn has_cb(self, x: int, y: int, n: int) -> bool {
        &&& 0 <= x < self.w && 0 <= y < self.h
        &&& is_side(n) && self.min_cb <= n <= self.ctb
        &&& x % n == 0 && y % n == 0
    }
}

/// A block size divides every larger one.
pub proof fn lemma_side_divides(m: int, n: int)
    requires
        is_side(m),
        is_side(n),
        m <= n,
    ensures
        n % m == 0,
{
    let j = choose|j: u32| j <= MAX_LOG2 && m == #[trigger] side(j);
    let k = choose|k: u32| k <= MAX_LOG2 && n == #[trigger] side(k);
    lemma_side_order(k, j);
    lemma_pow2_adds(j as nat, (k - j) as nat);
    lemma_mod_multiples_basic(side((k - j) as u32), m);
    assert(n == side((k - j) as u32) * m) by (nonlinear_arith)
        requires
            n == m * side((k - j) as u32),
    ;
}

/// A multiple of a multiple of `m` is a multiple of `m`.
pub proof fn lemma_multiple(x: int, m: int, n: int)
    requires
        0 < m,
        0 < n,
        n % m == 0,
        x % n == 0,
    ensures
        x % m == 0,
{
    lemma_fundamental_div_mod(n, m);
    let k = n / m;
    assert(0 < k) by (nonlinear_arith)
        requires
            n == m * k,
            0 < n,
            0 < m,
    ;
    lemma_mod_mod(x, m, k);
    vstd::arithmetic::div_mod::lemma_small_mod(0, m as nat);
}

/// A coding block lies on the grid of smallest prediction blocks too.
pub proof fn lemma_cb_block(g: Geo, x: int, y: int, n: int)
    requires
        g.wf(),
        g.has_cb(x, y, n),
    ensures
        g.has_block(x, y, n, n),
{
    let p = g.min_pu as int;
    lemma_side_divides(p, n);
    lemma_multiple(x, p, n);
    lemma_multiple(y, p, n);
}

// ---------------------------------------------------------------------------
// Motion

/// Prediction from list 0.
pub const PF_L0: u8 = 1;

/// Prediction from list 1.
pub const PF_L1: u8 = 2;

/// Prediction from both lists.
pub const PF_BI: u8 = 3;

/// Intra prediction.
pub const PF_INTRA: u8 = 4;

/// The motion of a smallest prediction block: vector and reference index per list, and which lists
/// are in use.
#[derive(Clone, Copy, Default)]
pub struct MvField {
    pub mv: [[i16; 2]; 2],
    pub ref_idx: [i8; 2],
    pub pred_flag: u8,
}

/// No motion.
pub open spec fn no_motion() -> MvField {
    MvField { mv: [[0, 0], [0, 0]], ref_idx: [0, 0], pred_flag: 0 }
}

/// No motion.
pub fn blank_field() -> (m: MvField)
    ensures
        m == no_motion(),
{
    MvField { mv: [[0, 0], [0, 0]], ref_idx: [0, 0], pred_flag: 0 }
}

// ---------------------------------------------------------------------------
// State

/// Skip flags and tree depths per smallest coding block, intra modes and motion per smallest
/// prediction block. A grid has a column and a row for each whole block of the picture. What lies
/// past its last column is found at the start of the next row; nothing is kept of what lies past its
/// last row.
pub struct FrameV {
    pub skip: Seq<u8>,
    pub depth: Seq<u8>,
    pub ipm: Seq<u8>,
    pub mvf: Seq<MvField>,
}

impl FrameV {
    pub open spec fn wf(self, g: Geo) -> bool {
        &&& self.skip.len() == g.cb_w * g.cb_h
        &&& self.depth.len() == g.cb_w * g.cb_h
        &&& self.ipm.len() == g.pu_w * g.pu_h
        &&& self.mvf.len() == g.pu_w * g.pu_h
    }

    /// The state before anything of a slice is decoded.
    pub open spec fn fresh(g: Geo) -> FrameV {
        FrameV {
            skip: all((g.cb_w * g.cb_h) as nat, 0u8),
            depth: all((g.cb_w * g.cb_h) as nat, 0u8),
            ipm: all((g.pu_w * g.pu_h) as nat, 1u8),
            mvf: all((g.pu_w * g.pu_h) as nat, no_motion()),
        }
    }

    #[verifier::opaque]
    pub open spec fn skip_at(self, g: Geo, x: int, y: int) -> bool {
        entry(self.skip, (y / (g.min_cb as int)) * g.cb_w + x / (g.min_cb as int), 0u8) != 0
    }

    #[verifier::opaque]
    pub open spec fn depth_at(self, g: Geo, x: int, y: int) -> u8 {
        entry(self.depth, (y / (g.min_cb as int)) * g.cb_w + x / (g.min_cb as int), 0u8)
    }

    #[verifier::opaque]
    pub open spec fn ipm_at(self, g: Geo, x: int, y: int) -> u8 {
        entry(self.ipm, (y / (g.min_pu as int)) * g.pu_w + x / (g.min_pu as int), 1u8)
    }

    #[verifier::opaque]
    pub open spec fn mvf_at(self, g: Geo, x: int, y: int) -> MvField {
        entry(self.mvf, (y / (g.min_pu as int)) * g.pu_w + x / (g.min_pu as int), no_motion())
    }

    #[verifier::opaque]
    pub open spec fn put_skip(self, g: Geo, x: int, y: int, n: int, v: u8) -> FrameV {
        let m = g.min_cb as int;
        FrameV { skip: runs(self.skip, g.cb_w as int, x / m, y / m, n / m, n / m, v), ..self }
    }

    #[verifier::opaque]
    pub open spec fn put_depth(self, g: Geo, x: int, y: int, n: int, v: u8) -> FrameV {
        let m = g.min_cb as int;
        FrameV { depth: runs(self.depth, g.cb_w as int, x / m, y / m, n / m, n / m, v), ..self }
    }

    #[verifier::opaque]
    pub open spec fn put_ipm(self, g: Geo, x: int, y: int, n: int, v: u8) -> FrameV {
        let m = g.min_pu as int;
        FrameV { ipm: runs(self.ipm, g.pu_w as int, x / m, y / m, n / m, n / m, v), ..self }
    }

    #[verifier::opaque]
    pub open spec fn put_mvf(self, g: Geo, x: int, y: int, w: int, h: int, v: MvField) -> FrameV {
        let m = g.min_pu as int;
        FrameV { mvf: runs(self.mvf, g.pu_w as int, x / m, y / m, w / m, h / m, v), ..self }
    }

    /// A block marked as intra; its vectors stay.
    #[verifier::opaque]
    pub open spec fn put_intra(self, g: Geo, x: int, y: int, n: int) -> FrameV {
        let m = g.min_pu as int;
        FrameV { mvf: marked(self.mvf, g.pu_w as int, x / m, y / m, n / m, n / m), ..self }
    }
}

/// The block state of the slice being decoded.
pub struct Frame {
    pub skip: Vec<u8>,
    pub depth: Vec<u8>,
    pub ipm: Vec<u8>,
    pub mvf: Vec<MvField>,
}

impl View for Frame {
    type V = FrameV;

    open spec fn view(&self) -> FrameV {
        FrameV { skip: self.skip@, depth: self.depth@, ipm: self.ipm@, mvf: self.mvf@ }
    }
}

/// A sample of a block of `w` samples lies in one of its cells.
pub proof fn lemma_sample_cell(m: int, x: int, w: int)
    requires
        0 < m,
        0 <= x < w,
        w % m == 0,
    ensures
        0 <= x / m < w / m,
{
    vstd::arithmetic::div_mod::lemma_fundamental_div_mod(x, m);
    vstd::arithmetic::div_mod::lemma_fundamental_div_mod(w, m);
    let (a, b, r) = (x / m, w / m, x % m);
    assert(0 <= a < b) by (nonlinear_arith)
        requires
            0 < m,
            0 <= x < w,
            x == m * a + r,
            0 <= r < m,
            w == m * b,
    ;
}

/// The number of a cell, in rows of `stride` cells of `m` samples.
fn cell_of(m: i32, stride: usize, x: i32, y: i32) -> (i: u64)
    requires
        0 < m,
        stride <= 0x8000_0000,
        0 <= x,
        0 <= y,
    ensures
        i == (y as int / (m as int)) * stride + x as int / (m as int),
{
    proof {
        lemma_cell_range(m as int, x as int);
        lemma_cell_range(m as int, y as int);
        lemma_run_bound(stride as int, x as int / (m as int), y as int / (m as int));
    }
    (y / m) as u64 * (stride as u64) + (x / m) as u64
}

/// Cells have smaller numbers than samples.
proof fn lemma_cell_range(m: int, x: int)
    requires
        0 < m,
        0 <= x,
    ensures
        0 <= x / m <= x,
{
    vstd::arithmetic::div_mod::lemma_div_pos_is_pos(x, m);
    vstd::arithmetic::div_mod::lemma_div_is_ordered_by_denominator(x, 1, m);
}

/// Entry `i` of a grid, or `v` where there is none.
fn entry_of<T: Copy>(s: &Vec<T>, i: u64, v: T) -> (r: T)
    ensures
        r == entry(s@, i as int, v),
{
    if i < s.len() as u64 {
        s[i as usize]
    } else {
        v
    }
}

impl Geo {
    /// A row has no more cells than samples.
    proof fn lemma_strides(self)
        requires
            self.wf(),
        ensures
            self.cb_w <= 0x8000_0000,
            self.pu_w <= 0x8000_0000,
    {
        lemma_cell_range(self.min_cb as int, self.w as int);
        lemma_cell_range(self.min_pu as int, self.w as int);
    }
}

impl Frame {
    pub fn skip_at(&self, g: &Geo, x: i32, y: i32) -> (r: bool)
        requires
            g.wf(),
            self@.wf(*g),
            0 <= x,
            0 <= y,
        ensures
            r == self@.skip_at(*g, x as int, y as int),
    {
        proof {
            reveal(FrameV::skip_at);
            g.lemma_strides();
        }
        entry_of(&self.skip, cell_of(g.min_cb, g.cb_w, x, y), 0u8) != 0
    }

    pub fn depth_at(&self, g: &Geo, x: i32, y: i32) -> (r: u8)
        requires
            g.wf(),
            self@.wf(*g),
            0 <= x,
            0 <= y,
        ensures
            r == self@.depth_at(*g, x as int, y as int),
    {
        proof {
            reveal(FrameV::depth_at);
            g.lemma_strides();
        }
        entry_of(&self.depth, cell_of(g.min_cb, g.cb_w, x, y), 0u8)
    }

    pub fn ipm_at(&self, g: &Geo, x: i32, y: i32) -> (r: u8)
        requires
            g.wf(),
            self@.wf(*g),
            0 <= x,
            0 <= y,
        ensures
            r == self@.ipm_at(*g, x as int, y as int),
    {
        proof {
            reveal(FrameV::ipm_at);
            g.lemma_strides();
        }
        entry_of(&self.ipm, cell_of(g.min_pu, g.pu_w, x, y), 1u8)
    }

    pub fn mvf_at(&self, g: &Geo, x: i32, y: i32) -> (r: MvField)
        requires
            g.wf(),
            self@.wf(*g),
            0 <= x,
            0 <= y,
        ensures
            r == self@.mvf_at(*g, x as int, y as int),
    {
        proof {
            reveal(FrameV::mvf_at);
            g.lemma_strides();
        }
        entry_of(&self.mvf, cell_of(g.min_pu, g.pu_w, x, y), blank_field())
    }

    pub fn put_skip(&mut self, g: &Geo, x: i32, y: i32, n: i32, v: u8)
        requires
            g.wf(),
            old(self)@.wf(*g),
            g.has_cb(x as int, y as int, n as int),
        ensures
            final(self)@ == old(self)@.put_skip(*g, x as int, y as int, n as int, v),
            final(self)@.wf(*g),
    {
        proof {
            reveal(FrameV::put_skip);
            g.lemma_strides();
            lemma_cell_range(g.min_cb as int, x as int);
            lemma_cell_range(g.min_cb as int, y as int);
            lemma_cell_range(g.min_cb as int, n as int);
        }
        let m = g.min_cb;
        fill_runs(
            &mut self.skip,
            g.cb_w,
            (x / m) as u32,
            (y / m) as u32,
            (n / m) as u32,
            (n / m) as u32,
            v,
        );
    }

    pub fn put_depth(&mut self, g: &Geo, x: i32, y: i32, n: i32, v: u8)
        requires
            g.wf(),
            old(self)@.wf(*g),
            g.has_cb(x as int, y as int, n as int),
        ensures
            final(self)@ == old(self)@.put_depth(*g, x as int, y as int, n as int, v),
            final(self)@.wf(*g),
    {
        proof {
            reveal(FrameV::put_depth);
            g.lemma_strides();
            lemma_cell_range(g.min_cb as int, x as int);
            lemma_cell_range(g.min_cb as int, y as int);
            lemma_cell_range(g.min_cb as int, n as int);
        }
        let m = g.min_cb;
        fill_runs(
            &mut self.depth,
            g.cb_w,
            (x / m) as u32,
            (y / m) as u32,
            (n / m) as u32,
            (n / m) as u32,
            v,
        );
    }

    pub fn put_ipm(&mut self, g: &Geo, x: i32, y: i32, n: i32, v: u8)
        requires
            g.wf(),
            old(self)@.wf(*g),
            g.has_block(x as int, y as int, n as int, n as int),
        ensures
            final(self)@ == old(self)@.put_ipm(*g, x as int, y as int, n as int, v),
            final(self)@.wf(*g),
    {
        proof {
            reveal(FrameV::put_ipm);
            g.lemma_strides();
            lemma_cell_range(g.min_pu as int, x as int);
            lemma_cell_range(g.min_pu as int, y as int);
            lemma_cell_range(g.min_pu as int, n as int);
        }
        let m = g.min_pu;
        fill_runs(
            &mut self.ipm,
            g.pu_w,
            (x / m) as u32,
            (y / m) as u32,
            (n / m) as u32,
            (n / m) as u32,
            v,
        );
    }

    pub fn put_mvf(&mut self, g: &Geo, x: i32, y: i32, w: i32, h: i32, v: MvField)
        requires
            g.wf(),
            old(self)@.wf(*g),
            g.has_block(x as int, y as int, w as int, h as int),
        ensures
            final(self)@ == old(self)@.put_mvf(
                *g,
                x as int,
                y as int,
                w as int,
                h as int,
                v,
            ),
            final(self)@.wf(*g),
    {
        proof {
            reveal(FrameV::put_mvf);
            g.lemma_strides();
            lemma_cell_range(g.min_pu as int, x as int);
            lemma_cell_range(g.min_pu as int, y as int);
            lemma_cell_range(g.min_pu as int, w as int);
            lemma_cell_range(g.min_pu as int, h as int);
        }
        let m = g.min_pu;
        fill_runs(
            &mut self.mvf,
            g.pu_w,
            (x / m) as u32,
            (y / m) as u32,
            (w / m) as u32,
            (h / m) as u32,
            v,
        );
    }

    pub fn put_intra(&mut self, g: &Geo, x: i32, y: i32, n: i32)
        requires
            g.wf(),
            old(self)@.wf(*g),
            g.has_block(x as int, y as int, n as int, n as int),
        ensures
            final(self)@ == old(self)@.put_intra(*g, x as int, y as int, n as int),
            final(self)@.wf(*g),
    {
        proof {
            reveal(FrameV::put_intra);
            g.lemma_strides();
            lemma_cell_range(g.min_pu as int, x as int);
            lemma_cell_range(g.min_pu as int, y as int);
            lemma_cell_range(g.min_pu as int, n as int);
        }
        let m = g.min_pu;
        mark_runs(&mut self.mvf, g.pu_w, (x / m) as u32, (y / m) as u32, (n / m) as u32);
    }
}

/// The motion grid with runs of `w` blocks, in `h` rows, marked as intra.
pub open spec fn marked(s: Seq<MvField>, stride: int, x: int, y: int, w: int, h: int) -> Seq<
    MvField,
> {
    Seq::new(
        s.len(),
        |i: int|
            if in_runs(i, stride, x, y, w, h) {
                MvField { pred_flag: PF_INTRA, ..s[i] }
            } else {
                s[i]
            },
    )
}

fn mark_runs(v: &mut Vec<MvField>, stride: usize, x: u32, y: u32, n: u32)
    requires
        stride <= 0x8000_0000,
        x <= 0x8000_0000,
        y <= 0x8000_0000,
        n <= 0x8000_0000,
    ensures
        final(v)@ == marked(old(v)@, stride as int, x as int, y as int, n as int, n as int),
{
    let ghost before = v@;
    let cells: usize = v.len();
    let mut dy: u64 = 0;
    assert(v@ =~= marked(before, stride as int, x as int, y as int, n as int, 0));
    while dy < n as u64
        invariant
            stride <= 0x8000_0000,
            x <= 0x8000_0000,
            y <= 0x8000_0000,
            n <= 0x8000_0000,
            before.len() == cells,
            dy <= n,
            v@ == marked(before, stride as int, x as int, y as int, n as int, dy as int),
        decreases n - dy,
    {
        proof {
            lemma_run_bound(stride as int, x + n, y + dy);
        }
        let row: u64 = (y as u64 + dy) * (stride as u64) + x as u64;
        let ghost done = v@;
        let mut dx: u64 = 0;
        while dx < n as u64 && row + dx < cells as u64
            invariant
                dx <= n,
                n <= 0x8000_0000,
                row + n <= 0x8000_0001_0000_0000,
                before.len() == cells,
                v@.len() == cells,
                done.len() == cells,
                forall|i: int|
                    0 <= i < cells ==> #[trigger] v@[i] == (if row <= i < row + dx {
                        MvField { pred_flag: PF_INTRA, ..done[i] }
                    } else {
                        done[i]
                    }),
            decreases n - dx,
        {
            let i: usize = (row + dx) as usize;
            let m = v[i];
            v[i] = MvField { mv: m.mv, ref_idx: m.ref_idx, pred_flag: PF_INTRA };
            dx += 1;
        }
        assert forall|i: int| 0 <= i < cells implies #[trigger] v@[i] == marked(
            before,
            stride as int,
            x as int,
            y as int,
            n as int,
            dy + 1,
        )[i] by {
            lemma_runs_step(i, stride as int, x as int, y as int, n as int, dy as int);
        }
        assert(v@ =~= marked(before, stride as int, x as int, y as int, n as int, dy + 1));
        dy += 1;
    }
}

} // verus!
