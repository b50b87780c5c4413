//! Per-picture macroblock and block state.

use crate::grid::{
    all, copy_vec, fill_all, fill_rect, lemma_cell, lemma_place, new_grid, one, one_if, rect,
};
use crate::motion::{add_mv, median_mv, mid_mv, mv_sum, zero_mv, Mv};
use vstd::prelude::*;

verus! {

/// Reference index of a block that is not available.
pub const PART_NA: i32 = -2;

/// Reference index of a block that does not use the list: intra, or predicted from the other list.
pub const INTRA: i32 = -1;

/// Motion that a later B picture reads from a picture that it uses as collocated picture.
///
/// `mv1` and `refi1` are there only if that picture is itself a B picture. All grids hold 4x4
/// blocks in raster order, `bw` per row; `col_shape` holds macroblocks.
pub struct ColPic<'a> {
    pub bw: usize,
    pub mv0: &'a [[i32; 2]],
    pub refi0: &'a [i32],
    pub mv1: Option<&'a [[i32; 2]]>,
    pub refi1: Option<&'a [i32]>,
    pub col_shape: &'a [ColShape],
}

/// How a macroblock of a collocated picture is divided: undivided or intra, in two halves, or in
/// 8x8 quadrants or finer.
#[derive(Debug, Clone, Copy, PartialEq, Eq, Structural)]
pub enum ColShape {
    Small,
    Big16x16,
    Wide16x8,
    Tall8x16,
}

impl Default for ColShape {
    fn default() -> (s: ColShape)
        ensures
            s == ColShape::Small,
    {
        ColShape::Small
    }
}

/// How a macroblock is divided for export.
#[derive(Debug, Clone, Copy, PartialEq, Eq, Structural)]
pub enum Seg {
    Unset,
    Intra,
    P16x16,
    P16x8,
    P8x16,
    P8x8,
    Skip,
    B16x16,
    B16x8,
    B8x16,
    B8x8,
}

impl Seg {
    /// The shape that a later picture sees.
    pub open spec fn shape(self) -> ColShape {
        match self {
            Seg::Intra | Seg::P16x16 | Seg::Skip | Seg::B16x16 => ColShape::Big16x16,
            Seg::P16x8 | Seg::B16x8 => ColShape::Wide16x8,
            Seg::P8x16 | Seg::B8x16 => ColShape::Tall8x16,
            Seg::Unset | Seg::P8x8 | Seg::B8x8 => ColShape::Small,
        }
    }

    fn col_shape(self) -> (s: ColShape)
        ensures
            s == self.shape(),
    {
        match self {
            Seg::Intra | Seg::P16x16 | Seg::Skip | Seg::B16x16 => ColShape::Big16x16,
            Seg::P16x8 | Seg::B16x8 => ColShape::Wide16x8,
            Seg::P8x16 | Seg::B8x16 => ColShape::Tall8x16,
            Seg::Unset | Seg::P8x8 | Seg::B8x8 => ColShape::Small,
        }
    }
}

// ---------------------------------------------------------------------------
// Geometry

/// Column and row, in units inside macroblocks, of the `idx`-th 4x4 block in coding order.
pub open spec fn block_at(idx: int) -> (int, int) {
    let (q, s) = (idx / 4, idx % 4);
    (q % 2 * 2 + s % 2, q / 2 * 2 + s / 2)
}

pub fn block_xy(idx: usize) -> (p: (usize, usize))
    requires
        idx < 16,
    ensures
        (p.0 as int, p.1 as int) == block_at(idx as int),
        p.0 < 4,
        p.1 < 4,
{
    let q: usize = idx / 4;
    let s: usize = idx % 4;
    (q % 2 * 2 + s % 2, q / 2 * 2 + s / 2)
}

/// Place in coding order of the 4x4 block at column `bx` and row `by` of a macroblock.
pub open spec fn scan_of(bx: int, by: int) -> int {
    (bx / 2 + by / 2 * 2) * 4 + (bx % 2 + by % 2 * 2)
}

pub fn xy_scan(bx: usize, by: usize) -> (s: usize)
    requires
        bx < 4,
        by < 4,
    ensures
        s == scan_of(bx as int, by as int),
        s < 16,
{
    (bx / 2 + by / 2 * 2) * 4 + (bx % 2 + by % 2 * 2)
}

/// The coding order of blocks and their places are inverse to each other.
pub proof fn law_block_order(idx: int)
    requires
        0 <= idx < 16,
    ensures
        ({
            let (x, y) = block_at(idx);
            0 <= x < 4 && 0 <= y < 4 && scan_of(x, y) == idx
        }),
{
}

/// A plane of `ux` by `uy` cells per macroblock, with a rectangle inside macroblock `mb` filled.
#[verifier::opaque]
pub open spec fn mb_rect<T>(
    s: Seq<T>,
    mb_w: int,
    ux: int,
    uy: int,
    mb: int,
    bx: int,
    by: int,
    w: int,
    h: int,
    v: T,
) -> Seq<T> {
    rect(s, ux * mb_w, (mb % mb_w) * ux + bx, (mb / mb_w) * uy + by, w, h, v)
}

/// A rectangle inside macroblock `mb` lies inside the plane.
pub proof fn lemma_inside(
    mb_w: int,
    mb_h: int,
    ux: int,
    uy: int,
    mb: int,
    bx: int,
    by: int,
    w: int,
    h: int,
)
    requires
        0 <= mb < mb_w * mb_h,
        0 <= mb_w,
        0 <= mb_h,
        0 < ux,
        0 < uy,
        0 <= bx,
        0 <= w,
        bx + w <= ux,
        0 <= by,
        0 <= h,
        by + h <= uy,
    ensures
        0 < mb_w,
        0 < mb_h,
        0 <= mb % mb_w < mb_w,
        0 <= mb / mb_w < mb_h,
        0 <= (mb % mb_w) * ux,
        (mb % mb_w) * ux + bx + w <= ux * mb_w,
        0 <= (mb / mb_w) * uy,
        (mb / mb_w) * uy + by + h <= uy * mb_h,
        ((mb / mb_w) * uy + by + h) * (ux * mb_w) <= (ux * mb_w) * (uy * mb_h),
        0 < ux * mb_w,
        0 < uy * mb_h,
        mb == (mb / mb_w) * mb_w + mb % mb_w,
{
    lemma_place(mb, mb_w, mb_h);
    let x = mb % mb_w;
    let y = mb / mb_w;
    assert(0 <= x * ux && x * ux + ux <= ux * mb_w) by (nonlinear_arith)
        requires
            0 <= x < mb_w,
            0 < ux,
    ;
    assert(0 <= y * uy && y * uy + uy <= uy * mb_h) by (nonlinear_arith)
        requires
            0 <= y < mb_h,
            0 < uy,
    ;
    let low = y * uy + by + h;
    let stride = ux * mb_w;
    let rows = uy * mb_h;
    assert(low * stride <= stride * rows) by (nonlinear_arith)
        requires
            low <= rows,
            0 <= stride,
    ;
}

fn put<T: Copy>(
    s: &mut Vec<T>,
    mb_w: usize,
    mb_h: usize,
    ux: usize,
    uy: usize,
    mb: usize,
    bx: usize,
    by: usize,
    w: usize,
    h: usize,
    v: T,
)
    requires
        mb < mb_w * mb_h,
        mb_w < 0x800_0000,
        mb_h < 0x800_0000,
        0 < ux <= 4,
        0 < uy <= 4,
        bx + w <= ux,
        by + h <= uy,
        old(s)@.len() == (ux * mb_w) * (uy * mb_h),
    ensures
        final(s)@ == mb_rect(
            old(s)@,
            mb_w as int,
            ux as int,
            uy as int,
            mb as int,
            bx as int,
            by as int,
            w as int,
            h as int,
            v,
        ),
        final(s)@.len() == old(s)@.len(),
{
    proof {
        reveal(mb_rect);
    }
    proof {
        lemma_inside(
            mb_w as int,
            mb_h as int,
            ux as int,
            uy as int,
            mb as int,
            bx as int,
            by as int,
            w as int,
            h as int,
        );
        assert(ux * mb_w <= 4 * mb_w && uy * mb_h <= 4 * mb_h) by (nonlinear_arith)
            requires
                0 < ux <= 4,
                0 < uy <= 4,
                0 <= mb_w,
                0 <= mb_h,
        ;
    }
    let x: usize = mb % mb_w * ux + bx;
    let y: usize = mb / mb_w * uy + by;
    fill_rect(s, ux * mb_w, x, y, w, h, v);
}

// ---------------------------------------------------------------------------
// State

/// Motion of one reference list, per 4x4 block.
pub struct ListV {
    pub mv: Seq<Mv>,
    pub refi: Seq<i32>,
    pub mvd: Seq<Mv>,
}

impl ListV {
    /// Reset to a list that no block uses.
    pub open spec fn fresh(n: nat) -> ListV {
        ListV { mv: all(n, zero_mv()), refi: all(n, PART_NA), mvd: all(n, zero_mv()) }
    }

    pub open spec fn wf(self, n: int) -> bool {
        self.mv.len() == n && self.refi.len() == n && self.mvd.len() == n
    }
}

/// A neighbouring block: its reference index, or `PART_NA`, and its vector.
#[derive(Clone, Copy)]
pub struct Nb {
    pub refi: i32,
    pub mv: Mv,
}

/// What decoding a picture reads and writes. Planes of 4x4 blocks hold luma or chroma blocks in
/// raster order; the others hold one entry per macroblock.
pub struct GridsV {
    pub mb_w: int,
    pub mb_h: int,
    pub cvb: int,
    pub l0: ListV,
    pub l1: ListV,
    pub nnz_l: Seq<u8>,
    pub nnz_cb: Seq<u8>,
    pub nnz_cr: Seq<u8>,
    pub direct: Seq<bool>,
    pub seg: Seq<Seg>,
    pub slice_id: Seq<i32>,
    pub decoded: Seq<bool>,
    pub cbp: Seq<u16>,
    pub chroma_pred: Seq<u8>,
    pub skip: Seq<bool>,
    pub bdirect: Seq<bool>,
}

impl GridsV {
    pub open spec fn mbs(self) -> int {
        self.mb_w * self.mb_h
    }

    pub open spec fn cells(self) -> int {
        (4 * self.mb_w) * (4 * self.mb_h)
    }

    pub open spec fn chroma_cells(self) -> int {
        (2 * self.mb_w) * (self.cvb * self.mb_h)
    }

    /// Every plane has the size that the picture dimensions give it.
    pub open spec fn wf(self) -> bool {
        &&& 0 <= self.mb_w < 0x800_0000
        &&& 0 <= self.mb_h < 0x800_0000
        &&& self.cvb == 2 || self.cvb == 4
        &&& self.cells() <= usize::MAX
        &&& self.chroma_cells() <= usize::MAX
        &&& self.mbs() <= usize::MAX
        &&& self.l0.wf(self.cells())
        &&& self.l1.wf(self.cells())
        &&& self.nnz_l.len() == self.cells()
        &&& self.direct.len() == self.cells()
        &&& self.nnz_cb.len() == self.chroma_cells()
        &&& self.nnz_cr.len() == self.chroma_cells()
        &&& self.seg.len() == self.mbs()
        &&& self.slice_id.len() == self.mbs()
        &&& self.decoded.len() == self.mbs()
        &&& self.cbp.len() == self.mbs()
        &&& self.chroma_pred.len() == self.mbs()
        &&& self.skip.len() == self.mbs()
        &&& self.bdirect.len() == self.mbs()
    }

    /// Well-formed grids of the same dimensions as `o`.
    pub open spec fn like(self, o: GridsV) -> bool {
        self.wf() && self.mb_w == o.mb_w && self.mb_h == o.mb_h && self.cvb == o.cvb
    }

    /// The state before anything of a picture is decoded.
    pub open spec fn fresh(mb_w: int, mb_h: int, chroma422: bool) -> GridsV {
        let cvb = if chroma422 {
            4int
        } else {
            2int
        };
        let n = ((4 * mb_w) * (4 * mb_h)) as nat;
        let c = ((2 * mb_w) * (cvb * mb_h)) as nat;
        let m = (mb_w * mb_h) as nat;
        GridsV {
            mb_w,
            mb_h,
            cvb,
            l0: ListV::fresh(n),
            l1: ListV::fresh(n),
            nnz_l: all(n, 0u8),
            nnz_cb: all(c, 0u8),
            nnz_cr: all(c, 0u8),
            direct: all(n, false),
            seg: all(m, Seg::Unset),
            slice_id: all(m, -1i32),
            decoded: all(m, false),
            cbp: all(m, 0u16),
            chroma_pred: all(m, 0u8),
            skip: all(m, false),
            bdirect: all(m, false),
        }
    }

    /// The state made ready for another picture. List 0 motion stays: it is read only of
    /// macroblocks decoded before. What only CABAC reads is reset for CABAC pictures alone.
    pub open spec fn after_reset(self, cabac: bool) -> GridsV {
        let n = self.nnz_l.len();
        let c = self.nnz_cb.len();
        let m = self.seg.len();
        let base = GridsV {
            nnz_l: all(n, 0u8),
            nnz_cb: all(c, 0u8),
            nnz_cr: all(self.nnz_cr.len(), 0u8),
            seg: all(m, Seg::Unset),
            slice_id: all(self.slice_id.len(), -1i32),
            decoded: all(self.decoded.len(), false),
            cbp: all(self.cbp.len(), 0u16),
            chroma_pred: all(self.chroma_pred.len(), 0u8),
            ..self
        };
        if cabac {
            GridsV {
                l0: ListV { mvd: all(self.l0.mvd.len(), zero_mv()), ..self.l0 },
                l1: ListV {
                    mvd: all(self.l1.mvd.len(), zero_mv()),
                    refi: all(self.l1.refi.len(), PART_NA),
                    ..self.l1
                },
                direct: all(self.direct.len(), false),
                skip: all(self.skip.len(), false),
                bdirect: all(self.bdirect.len(), false),
                ..base
            }
        } else {
            base
        }
    }

    pub open spec fn list(self, l: int) -> ListV {
        if l == 0 {
            self.l0
        } else {
            self.l1
        }
    }

    pub open spec fn with_list(self, l: int, v: ListV) -> GridsV {
        if l == 0 {
            GridsV { l0: v, ..self }
        } else {
            GridsV { l1: v, ..self }
        }
    }

    pub open spec fn nnz_c(self, c: int) -> Seq<u8> {
        if c == 0 {
            self.nnz_cb
        } else {
            self.nnz_cr
        }
    }

    pub open spec fn with_nnz_c(self, c: int, s: Seq<u8>) -> GridsV {
        if c == 0 {
            GridsV { nnz_cb: s, ..self }
        } else {
            GridsV { nnz_cr: s, ..self }
        }
    }

    // -- writes

    /// Motion of a rectangle of 4x4 blocks of a macroblock.
    #[verifier::opaque]
    pub open spec fn fill(
        self,
        l: int,
        mb: int,
        bx: int,
        by: int,
        w: int,
        h: int,
        mv: Mv,
        refi: i32,
    ) -> GridsV {
        let was = self.list(l);
        self.with_list(
            l,
            ListV {
                mv: mb_rect(was.mv, self.mb_w, 4, 4, mb, bx, by, w, h, mv),
                refi: mb_rect(was.refi, self.mb_w, 4, 4, mb, bx, by, w, h, refi),
                ..was
            },
        )
    }

    /// Absolute vector differences of a rectangle of 4x4 blocks of a macroblock.
    #[verifier::opaque]
    pub open spec fn fill_mvd(
        self,
        l: int,
        mb: int,
        bx: int,
        by: int,
        w: int,
        h: int,
        mvd: Mv,
    ) -> GridsV {
        let was = self.list(l);
        self.with_list(
            l,
            ListV { mvd: mb_rect(was.mvd, self.mb_w, 4, 4, mb, bx, by, w, h, mvd), ..was },
        )
    }

    /// An 8x8 quadrant marked as predicted in direct mode.
    #[verifier::opaque]
    pub open spec fn mark_direct(self, mb: int, bx: int, by: int) -> GridsV {
        GridsV {
            direct: mb_rect(self.direct, self.mb_w, 4, 4, mb, bx, by, 2, 2, true),
            ..self
        }
    }

    /// Coefficient counts of a rectangle of luma blocks of a macroblock.
    #[verifier::opaque]
    pub open spec fn put_nnz(self, mb: int, bx: int, by: int, w: int, h: int, v: u8) -> GridsV {
        GridsV { nnz_l: mb_rect(self.nnz_l, self.mb_w, 4, 4, mb, bx, by, w, h, v), ..self }
    }

    /// Coefficient counts of a rectangle of chroma blocks of a macroblock.
    #[verifier::opaque]
    pub open spec fn put_nnz_c(
        self,
        c: int,
        mb: int,
        bx: int,
        by: int,
        w: int,
        h: int,
        v: u8,
    ) -> GridsV {
        self.with_nnz_c(
            c,
            mb_rect(self.nnz_c(c), self.mb_w, 2, self.cvb, mb, bx, by, w, h, v),
        )
    }

    /// Chroma coefficient counts of a whole macroblock.
    #[verifier::opaque]
    pub open spec fn put_mb_nnz_c(self, mb: int, v: u8) -> GridsV {
        self.put_nnz_c(0, mb, 0, 0, 2, self.cvb, v).put_nnz_c(1, mb, 0, 0, 2, self.cvb, v)
    }

    /// Coefficient counts of a whole macroblock.
    #[verifier::opaque]
    pub open spec fn put_mb_nnz(self, mb: int, v: u8) -> GridsV {
        self.put_nnz(mb, 0, 0, 4, 4, v).put_mb_nnz_c(mb, v)
    }

    /// A macroblock that does not use list 0.
    #[verifier::opaque]
    pub open spec fn intra_l0(self, mb: int) -> GridsV {
        self.fill(0, mb, 0, 0, 4, 4, zero_mv(), INTRA)
    }

    /// A macroblock that uses neither list.
    #[verifier::opaque]
    pub open spec fn intra_both(self, mb: int) -> GridsV {
        self.intra_l0(mb).fill(1, mb, 0, 0, 4, 4, zero_mv(), INTRA)
    }

    #[verifier::opaque]
    pub open spec fn put_slice(self, mb: int, sid: i32) -> GridsV {
        GridsV { slice_id: self.slice_id.update(mb, sid), ..self }
    }

    #[verifier::opaque]
    pub open spec fn put_seg(self, mb: int, seg: Seg) -> GridsV {
        GridsV { seg: self.seg.update(mb, seg), ..self }
    }

    #[verifier::opaque]
    pub open spec fn put_decoded(self, mb: int) -> GridsV {
        GridsV { decoded: self.decoded.update(mb, true), ..self }
    }

    #[verifier::opaque]
    pub open spec fn put_cbp(self, mb: int, cbp: u16) -> GridsV {
        GridsV { cbp: self.cbp.update(mb, cbp), ..self }
    }

    #[verifier::opaque]
    pub open spec fn put_chroma_pred(self, mb: int, v: u8) -> GridsV {
        GridsV { chroma_pred: self.chroma_pred.update(mb, v), ..self }
    }

    #[verifier::opaque]
    pub open spec fn put_skip(self, mb: int) -> GridsV {
        GridsV { skip: self.skip.update(mb, true), ..self }
    }

    #[verifier::opaque]
    pub open spec fn put_bdirect(self, mb: int) -> GridsV {
        GridsV { bdirect: self.bdirect.update(mb, true), ..self }
    }

    // -- reads

    /// Macroblock `m` precedes in the same slice.
    pub open spec fn before(self, m: int, sid: i32) -> bool {
        self.decoded[m] && self.slice_id[m] == sid
    }

    /// The 4x4 block at column `gx` and row `gy` of the picture is available to the block at place
    /// `scan` of macroblock `mb`: it comes earlier in coding order and in the same slice.
    #[verifier::opaque]
    pub open spec fn avail(self, gx: int, gy: int, mb: int, scan: int, sid: i32) -> bool {
        &&& 0 <= gx < 4 * self.mb_w
        &&& 0 <= gy < 4 * self.mb_h
        &&& ({
            let m = gx / 4 + gy / 4 * self.mb_w;
            if m == mb {
                scan_of(gx % 4, gy % 4) < scan
            } else {
                m < mb && self.before(m, sid)
            }
        })
    }

    pub open spec fn cell(self, gx: int, gy: int) -> int {
        gy * (4 * self.mb_w) + gx
    }

    /// The neighbour at column `gx` and row `gy`.
    #[verifier::opaque]
    pub open spec fn nb(self, l: int, gx: int, gy: int, mb: int, scan: int, sid: i32) -> Nb {
        if self.avail(gx, gy, mb, scan, sid) {
            Nb {
                refi: self.list(l).refi[self.cell(gx, gy)],
                mv: self.list(l).mv[self.cell(gx, gy)],
            }
        } else {
            Nb { refi: PART_NA, mv: zero_mv() }
        }
    }

    pub open spec fn x0(self, mb: int, bx: int) -> int {
        (mb % self.mb_w) * 4 + bx
    }

    pub open spec fn y0(self, mb: int, by: int) -> int {
        (mb / self.mb_w) * 4 + by
    }

    #[verifier::opaque]
    pub open spec fn left(self, l: int, mb: int, bx: int, by: int, sid: i32) -> Nb {
        self.nb(l, self.x0(mb, bx) - 1, self.y0(mb, by), mb, scan_of(bx, by), sid)
    }

    #[verifier::opaque]
    pub open spec fn top(self, l: int, mb: int, bx: int, by: int, sid: i32) -> Nb {
        self.nb(l, self.x0(mb, bx), self.y0(mb, by) - 1, mb, scan_of(bx, by), sid)
    }

    /// The diagonal neighbour of a partition `pw` blocks wide: top right, or top left where that
    /// one is not available.
    #[verifier::opaque]
    pub open spec fn diag(self, l: int, mb: int, bx: int, by: int, pw: int, sid: i32) -> Nb {
        let right = self.nb(
            l,
            self.x0(mb, bx) + pw,
            self.y0(mb, by) - 1,
            mb,
            scan_of(bx, by),
            sid,
        );
        if right.refi != PART_NA {
            right
        } else {
            self.nb(l, self.x0(mb, bx) - 1, self.y0(mb, by) - 1, mb, scan_of(bx, by), sid)
        }
    }

    /// The vector predicted for a partition with reference `refi`.
    #[verifier::opaque]
    pub open spec fn pred(
        self,
        l: int,
        mb: int,
        bx: int,
        by: int,
        pw: int,
        refi: i32,
        sid: i32,
    ) -> Mv {
        predict(
            self.left(l, mb, bx, by, sid),
            self.top(l, mb, bx, by, sid),
            self.diag(l, mb, bx, by, pw, sid),
            refi,
        )
    }

    /// The vector of a skipped P macroblock.
    #[verifier::opaque]
    pub open spec fn pred_skip(self, mb: int, sid: i32) -> Mv {
        let a = self.left(0, mb, 0, 0, sid);
        let b = self.top(0, mb, 0, 0, sid);
        if a.refi == PART_NA || (a.refi == 0 && a.mv == zero_mv()) || b.refi == PART_NA || (b.refi
            == 0 && b.mv == zero_mv()) {
            zero_mv()
        } else {
            predict(a, b, self.diag(0, mb, 0, 0, 4, sid), 0)
        }
    }

    /// The vector predicted for the upper or lower half of a macroblock: from the top and the left
    /// neighbour, where it has the same reference.
    #[verifier::opaque]
    pub open spec fn pred_wide(self, l: int, mb: int, part: int, refi: i32, sid: i32) -> Mv {
        if part == 0 {
            let b = self.top(l, mb, 0, 0, sid);
            if b.refi == refi {
                b.mv
            } else {
                self.pred(l, mb, 0, 0, 4, refi, sid)
            }
        } else {
            let a = self.left(l, mb, 0, 2, sid);
            if a.refi == refi {
                a.mv
            } else {
                self.pred(l, mb, 0, 2, 4, refi, sid)
            }
        }
    }

    /// The vector predicted for the left or right half of a macroblock: from the left and the
    /// diagonal neighbour, where it has the same reference.
    #[verifier::opaque]
    pub open spec fn pred_tall(self, l: int, mb: int, part: int, refi: i32, sid: i32) -> Mv {
        if part == 0 {
            let a = self.left(l, mb, 0, 0, sid);
            if a.refi == refi {
                a.mv
            } else {
                self.pred(l, mb, 0, 0, 2, refi, sid)
            }
        } else {
            let c = self.diag(l, mb, 2, 0, 2, sid);
            if c.refi == refi {
                c.mv
            } else {
                self.pred(l, mb, 2, 0, 2, refi, sid)
            }
        }
    }

    /// Coefficient count of a luma block, `None` where it is not available.
    #[verifier::opaque]
    pub open spec fn luma_count(
        self,
        gx: int,
        gy: int,
        mb: int,
        scan: int,
        sid: i32,
    ) -> Option<u8> {
        if self.avail(gx, gy, mb, scan, sid) {
            Some(self.nnz_l[self.cell(gx, gy)])
        } else {
            None
        }
    }

    /// Coefficient count of a chroma block, `None` where it is not available.
    #[verifier::opaque]
    pub open spec fn chroma_count(self, c: int, cx: int, cy: int, mb: int, sid: i32) -> Option<u8> {
        if 0 <= cx < 2 * self.mb_w && 0 <= cy < self.cvb * self.mb_h && ({
            let m = cx / 2 + cy / self.cvb * self.mb_w;
            m == mb || (m < mb && self.before(m, sid))
        }) {
            Some(self.nnz_c(c)[cy * (2 * self.mb_w) + cx])
        } else {
            None
        }
    }

    /// Coefficient counts of the left and the top luma block.
    #[verifier::opaque]
    pub open spec fn luma_counts(self, mb: int, bx: int, by: int, sid: i32) -> (
        Option<u8>,
        Option<u8>,
    ) {
        let (x, y, s) = (self.x0(mb, bx), self.y0(mb, by), scan_of(bx, by));
        (self.luma_count(x - 1, y, mb, s, sid), self.luma_count(x, y - 1, mb, s, sid))
    }

    /// Coefficient counts of the left and the top chroma block.
    #[verifier::opaque]
    pub open spec fn chroma_counts(self, c: int, mb: int, bx: int, by: int, sid: i32) -> (
        Option<u8>,
        Option<u8>,
    ) {
        let (x, y) = ((mb % self.mb_w) * 2 + bx, (mb / self.mb_w) * self.cvb + by);
        (self.chroma_count(c, x - 1, y, mb, sid), self.chroma_count(c, x, y - 1, mb, sid))
    }

    /// Predicted coefficient count of a luma block.
    #[verifier::opaque]
    pub open spec fn nnz_pred(self, mb: int, bx: int, by: int, sid: i32) -> i32 {
        let (a, b) = self.luma_counts(mb, bx, by, sid);
        count_pred(a, b)
    }

    /// Predicted coefficient count of a chroma block.
    #[verifier::opaque]
    pub open spec fn nnz_pred_c(self, c: int, mb: int, bx: int, by: int, sid: i32) -> i32 {
        let (a, b) = self.chroma_counts(c, mb, bx, by, sid);
        count_pred(a, b)
    }

    /// Vector and reference index of a block of a macroblock.
    #[verifier::opaque]
    pub open spec fn block(self, l: int, mb: int, bx: int, by: int) -> Nb {
        let i = self.cell(self.x0(mb, bx), self.y0(mb, by));
        Nb { refi: self.list(l).refi[i], mv: self.list(l).mv[i] }
    }

    /// The left macroblock, where context selection may read it.
    #[verifier::opaque]
    pub open spec fn mb_left(self, mb: int, sid: i32) -> Option<int> {
        if mb % self.mb_w > 0 && self.before(mb - 1, sid) {
            Some(mb - 1)
        } else {
            None
        }
    }

    /// The macroblock above, where context selection may read it.
    #[verifier::opaque]
    pub open spec fn mb_top(self, mb: int, sid: i32) -> Option<int> {
        if mb / self.mb_w > 0 && self.before(mb - self.mb_w, sid) {
            Some(mb - self.mb_w)
        } else {
            None
        }
    }

    /// Sum of the vector differences of the left and the top block.
    #[verifier::opaque]
    pub open spec fn amvd(self, l: int, mb: int, bx: int, by: int, sid: i32) -> Mv {
        let (x, y, s) = (self.x0(mb, bx), self.y0(mb, by), scan_of(bx, by));
        let a = if self.avail(x - 1, y, mb, s, sid) {
            self.list(l).mvd[self.cell(x - 1, y)]
        } else {
            zero_mv()
        };
        let b = if self.avail(x, y - 1, mb, s, sid) {
            self.list(l).mvd[self.cell(x, y - 1)]
        } else {
            zero_mv()
        };
        mv_sum(a, b)
    }

    /// Context of a reference index: whether the left and the top block have a positive one.
    /// For B slices, a block predicted in direct mode does not count.
    #[verifier::opaque]
    pub open spec fn ref_ctx(
        self,
        l: int,
        mb: int,
        bx: int,
        by: int,
        sid: i32,
        skip_direct: bool,
    ) -> int {
        let (x, y, s) = (self.x0(mb, bx), self.y0(mb, by), scan_of(bx, by));
        let a = self.left(l, mb, bx, by, sid).refi > 0 && !(skip_direct && self.avail(
            x - 1,
            y,
            mb,
            s,
            sid,
        ) && self.direct[self.cell(x - 1, y)]);
        let b = self.top(l, mb, bx, by, sid).refi > 0 && !(skip_direct && self.avail(
            x,
            y - 1,
            mb,
            s,
            sid,
        ) && self.direct[self.cell(x, y - 1)]);
        one_if(a) + 2 * one_if(b)
    }
}

/// The vector predicted from the left, top and diagonal neighbour: that of the only one with the
/// same reference; that of the left one where it alone is available; else the median.
#[verifier::opaque]
pub open spec fn predict(a: Nb, b: Nb, c: Nb, refi: i32) -> Mv {
    let same = one_if(a.refi == refi) + one_if(b.refi == refi) + one_if(c.refi == refi);
    if same == 1 {
        if a.refi == refi {
            a.mv
        } else if b.refi == refi {
            b.mv
        } else {
            c.mv
        }
    } else if same == 0 && b.refi == PART_NA && c.refi == PART_NA && a.refi != PART_NA {
        a.mv
    } else {
        median_mv(a.mv, b.mv, c.mv)
    }
}

/// Predicted coefficient count from the counts of the left and top neighbour: their mean rounded
/// up, or the one that is available.
#[verifier::opaque]
pub open spec fn count_pred(a: Option<u8>, b: Option<u8>) -> i32 {
    let l = match a {
        Some(n) => n as i32,
        None => 64,
    };
    let t = match b {
        Some(n) => n as i32,
        None => 64,
    };
    let sum = (l + t) as i32;
    if sum < 64 {
        ((sum + 1) as i32) >> 1
    } else {
        sum & 31
    }
}

// ---------------------------------------------------------------------------
// Execution

struct ListGrid {
    mv: Vec<Mv>,
    refi: Vec<i32>,
    mvd: Vec<Mv>,
}

impl ListGrid {
    spec fn model(self) -> ListV {
        ListV { mv: self.mv@, refi: self.refi@, mvd: self.mvd@ }
    }

    fn new(n: usize) -> (l: ListGrid)
        ensures
            l.model() == ListV::fresh(n as nat),
    {
        let zero = Mv { x: 0, y: 0 };
        ListGrid { mv: new_grid(n, zero), refi: new_grid(n, PART_NA), mvd: new_grid(n, zero) }
    }
}

/// The decoding state of one picture, reusable for the next of the same size.
pub struct FrameGrids {
    mb_w: usize,
    mb_h: usize,
    cvb: usize,
    l0: ListGrid,
    l1: ListGrid,
    nnz_l: Vec<u8>,
    nnz_cb: Vec<u8>,
    nnz_cr: Vec<u8>,
    direct: Vec<bool>,
    seg: Vec<Seg>,
    slice_id: Vec<i32>,
    decoded: Vec<bool>,
    cbp: Vec<u16>,
    chroma_pred: Vec<u8>,
    skip: Vec<bool>,
    bdirect: Vec<bool>,
}

impl View for FrameGrids {
    type V = GridsV;

    closed spec fn view(&self) -> GridsV {
        GridsV {
            mb_w: self.mb_w as int,
            mb_h: self.mb_h as int,
            cvb: self.cvb as int,
            l0: self.l0.model(),
            l1: self.l1.model(),
            nnz_l: self.nnz_l@,
            nnz_cb: self.nnz_cb@,
            nnz_cr: self.nnz_cr@,
            direct: self.direct@,
            seg: self.seg@,
            slice_id: self.slice_id@,
            decoded: self.decoded@,
            cbp: self.cbp@,
            chroma_pred: self.chroma_pred@,
            skip: self.skip@,
            bdirect: self.bdirect@,
        }
    }
}

/// Vectors as pairs of components.
pub open spec fn mv_pairs(s: Seq<Mv>) -> Seq<[i32; 2]> {
    Seq::new(s.len(), |i: int| [s[i].x, s[i].y])
}

fn to_pairs(v: &Vec<Mv>) -> (r: Vec<[i32; 2]>)
    ensures
        r@ == mv_pairs(v@),
{
    let mut r: Vec<[i32; 2]> = Vec::new();
    let mut i: usize = 0;
    while i < v.len()
        invariant
            i <= v@.len(),
            r@ == mv_pairs(v@).subrange(0, i as int),
        decreases v@.len() - i,
    {
        let pair = [v[i].x, v[i].y];
        assert(pair == mv_pairs(v@)[i as int]);
        r.push(pair);
        i += 1;
        assert(r@ =~= mv_pairs(v@).subrange(0, i as int));
    }
    assert(r@ =~= mv_pairs(v@));
    r
}

impl FrameGrids {
    /// Grids for pictures of `mb_w` by `mb_h` macroblocks. `chroma422` selects 2x4 chroma blocks
    /// per macroblock; any other format is laid out as 2x2.
    pub fn new(mb_w: usize, mb_h: usize, chroma422: bool) -> (g: FrameGrids)
        requires
            mb_w < 0x800_0000,
            mb_h < 0x800_0000,
            16 * mb_w * mb_h <= usize::MAX,
        ensures
            g@ == GridsV::fresh(mb_w as int, mb_h as int, chroma422),
            g@.wf(),
    {
        let cvb: usize = if chroma422 {
            4
        } else {
            2
        };
        proof {
            assert((4 * mb_w) * (4 * mb_h) == 16 * mb_w * mb_h) by (nonlinear_arith);
            assert((2 * mb_w) * (cvb * mb_h) <= 16 * mb_w * mb_h) by (nonlinear_arith)
                requires
                    cvb == 2 || cvb == 4,
                    0 <= mb_w,
                    0 <= mb_h,
            ;
            assert(0 <= mb_w * mb_h <= 16 * mb_w * mb_h) by (nonlinear_arith)
                requires
                    0 <= mb_w,
                    0 <= mb_h,
            ;
            assert(0 <= (2 * mb_w) * (cvb * mb_h)) by (nonlinear_arith)
                requires
                    0 <= mb_w,
                    0 <= mb_h,
                    0 <= cvb,
            ;
        }
        let n: usize = (4 * mb_w) * (4 * mb_h);
        let c: usize = (2 * mb_w) * (cvb * mb_h);
        let m: usize = mb_w * mb_h;
        let g = FrameGrids {
            mb_w,
            mb_h,
            cvb,
            l0: ListGrid::new(n),
            l1: ListGrid::new(n),
            nnz_l: new_grid(n, 0),
            nnz_cb: new_grid(c, 0),
            nnz_cr: new_grid(c, 0),
            direct: new_grid(n, false),
            seg: new_grid(m, Seg::Unset),
            slice_id: new_grid(m, -1),
            decoded: new_grid(m, false),
            cbp: new_grid(m, 0),
            chroma_pred: new_grid(m, 0),
            skip: new_grid(m, false),
            bdirect: new_grid(m, false),
        };
        g
    }

    /// Blocks per row, and list 0 vectors and reference indices of all 4x4 blocks.
    pub fn mv_refi_snapshot(&self) -> (r: (usize, Vec<[i32; 2]>, Vec<i32>))
        requires
            self@.wf(),
        ensures
            r.0 == 4 * self@.mb_w,
            r.1@ == mv_pairs(self@.l0.mv),
            r.2@ == self@.l0.refi,
    {
        (4 * self.mb_w, to_pairs(&self.l0.mv), copy_vec(&self.l0.refi))
    }

    /// List 1 vectors and reference indices of all 4x4 blocks.
    pub fn mv_refi1_snapshot(&self) -> (r: (Vec<[i32; 2]>, Vec<i32>))
        ensures
            r.0@ == mv_pairs(self@.l1.mv),
            r.1@ == self@.l1.refi,
    {
        (to_pairs(&self.l1.mv), copy_vec(&self.l1.refi))
    }

    /// How each macroblock is divided.
    pub fn col_shape_snapshot(&self) -> (r: Vec<ColShape>)
        ensures
            r@ == self@.seg.map_values(|s: Seg| s.shape()),
    {
        let mut r: Vec<ColShape> = Vec::new();
        let mut i: usize = 0;
        let ghost shapes = self@.seg.map_values(|s: Seg| s.shape());
        while i < self.seg.len()
            invariant
                i <= self.seg@.len(),
                shapes == self.seg@.map_values(|s: Seg| s.shape()),
                r@ == shapes.subrange(0, i as int),
            decreases self.seg@.len() - i,
        {
            r.push(self.seg[i].col_shape());
            i += 1;
            assert(r@ =~= shapes.subrange(0, i as int));
        }
        assert(r@ =~= shapes);
        r
    }

    /// Number of macroblocks.
    pub fn mb_count(&self) -> (n: usize)
        requires
            self@.wf(),
        ensures
            n == self@.mbs(),
    {
        proof {
            assert(self.mb_w * self.mb_h == self.seg@.len());
        }
        self.seg.len()
    }

    /// Width and height in macroblocks.
    pub fn dims(&self) -> (d: (usize, usize))
        ensures
            d.0 == self@.mb_w,
            d.1 == self@.mb_h,
    {
        (self.mb_w, self.mb_h)
    }

    /// Whether chroma is laid out as 4:2:2.
    pub fn is_chroma422(&self) -> (r: bool)
        ensures
            r == (self@.cvb == 4),
    {
        self.cvb == 4
    }

    /// Makes the grids ready for the next picture.
    pub fn reset(&mut self, cabac: bool)
        requires
            old(self)@.wf(),
        ensures
            final(self)@ == old(self)@.after_reset(cabac),
            final(self)@.like(old(self)@),
    {
        fill_all(&mut self.decoded, false);
        fill_all(&mut self.slice_id, -1);
        fill_all(&mut self.seg, Seg::Unset);
        fill_all(&mut self.cbp, 0);
        fill_all(&mut self.chroma_pred, 0);
        fill_all(&mut self.nnz_l, 0);
        fill_all(&mut self.nnz_cb, 0);
        fill_all(&mut self.nnz_cr, 0);
        if cabac {
            let zero = Mv { x: 0, y: 0 };
            fill_all(&mut self.l0.mvd, zero);
            fill_all(&mut self.l1.mvd, zero);
            fill_all(&mut self.l1.refi, PART_NA);
            fill_all(&mut self.direct, false);
            fill_all(&mut self.skip, false);
            fill_all(&mut self.bdirect, false);
        }
    }

    // -- writes

    pub(crate) fn fill(
        &mut self,
        l: usize,
        mb: usize,
        bx: usize,
        by: usize,
        w: usize,
        h: usize,
        mv: Mv,
        refi: i32,
    )
        requires
            old(self)@.wf(),
            mb < old(self)@.mbs(),
            bx + w <= 4,
            by + h <= 4,
        ensures
            final(self)@ == old(self)@.fill(
                l as int,
                mb as int,
                bx as int,
                by as int,
                w as int,
                h as int,
                mv,
                refi,
            ),
            final(self)@.like(old(self)@),
    {
        proof {
            reveal(GridsV::fill);
        }
        if l == 0 {
            put(&mut self.l0.mv, self.mb_w, self.mb_h, 4, 4, mb, bx, by, w, h, mv);
            put(&mut self.l0.refi, self.mb_w, self.mb_h, 4, 4, mb, bx, by, w, h, refi);
        } else {
            put(&mut self.l1.mv, self.mb_w, self.mb_h, 4, 4, mb, bx, by, w, h, mv);
            put(&mut self.l1.refi, self.mb_w, self.mb_h, 4, 4, mb, bx, by, w, h, refi);
        }
    }

    pub(crate) fn fill_mvd(
        &mut self,
        l: usize,
        mb: usize,
        bx: usize,
        by: usize,
        w: usize,
        h: usize,
        mvd: Mv,
    )
        requires
            old(self)@.wf(),
            mb < old(self)@.mbs(),
            bx + w <= 4,
            by + h <= 4,
        ensures
            final(self)@ == old(self)@.fill_mvd(
                l as int,
                mb as int,
                bx as int,
                by as int,
                w as int,
                h as int,
                mvd,
            ),
            final(self)@.like(old(self)@),
    {
        proof {
            reveal(GridsV::fill_mvd);
        }
        if l == 0 {
            put(&mut self.l0.mvd, self.mb_w, self.mb_h, 4, 4, mb, bx, by, w, h, mvd);
        } else {
            put(&mut self.l1.mvd, self.mb_w, self.mb_h, 4, 4, mb, bx, by, w, h, mvd);
        }
    }

    pub(crate) fn mark_direct(&mut self, mb: usize, bx: usize, by: usize)
        requires
            old(self)@.wf(),
            mb < old(self)@.mbs(),
            bx + 2 <= 4,
            by + 2 <= 4,
        ensures
            final(self)@ == old(self)@.mark_direct(mb as int, bx as int, by as int),
            final(self)@.like(old(self)@),
    {
        proof {
            reveal(GridsV::mark_direct);
        }
        put(&mut self.direct, self.mb_w, self.mb_h, 4, 4, mb, bx, by, 2, 2, true);
    }

    pub(crate) fn put_nnz(&mut self, mb: usize, bx: usize, by: usize, w: usize, h: usize, v: u8)
        requires
            old(self)@.wf(),
            mb < old(self)@.mbs(),
            bx + w <= 4,
            by + h <= 4,
        ensures
            final(self)@ == old(self)@.put_nnz(
                mb as int,
                bx as int,
                by as int,
                w as int,
                h as int,
                v,
            ),
            final(self)@.like(old(self)@),
    {
        proof {
            reveal(GridsV::put_nnz);
        }
        put(&mut self.nnz_l, self.mb_w, self.mb_h, 4, 4, mb, bx, by, w, h, v);
    }

    pub(crate) fn put_nnz_c(
        &mut self,
        c: usize,
        mb: usize,
        bx: usize,
        by: usize,
        w: usize,
        h: usize,
        v: u8,
    )
        requires
            old(self)@.wf(),
            mb < old(self)@.mbs(),
            bx + w <= 2,
            by + h <= old(self)@.cvb,
        ensures
            final(self)@ == old(self)@.put_nnz_c(
                c as int,
                mb as int,
                bx as int,
                by as int,
                w as int,
                h as int,
                v,
            ),
            final(self)@.like(old(self)@),
    {
        proof {
            reveal(GridsV::put_nnz_c);
        }
        if c == 0 {
            put(&mut self.nnz_cb, self.mb_w, self.mb_h, 2, self.cvb, mb, bx, by, w, h, v);
        } else {
            put(&mut self.nnz_cr, self.mb_w, self.mb_h, 2, self.cvb, mb, bx, by, w, h, v);
        }
    }

    pub(crate) fn put_mb_nnz_c(&mut self, mb: usize, v: u8)
        requires
            old(self)@.wf(),
            mb < old(self)@.mbs(),
        ensures
            final(self)@ == old(self)@.put_mb_nnz_c(mb as int, v),
            final(self)@.like(old(self)@),
    {
        proof {
            reveal(GridsV::put_mb_nnz_c);
        }
        let cvb = self.cvb;
        self.put_nnz_c(0, mb, 0, 0, 2, cvb, v);
        self.put_nnz_c(1, mb, 0, 0, 2, cvb, v);
    }

    pub(crate) fn put_mb_nnz(&mut self, mb: usize, v: u8)
        requires
            old(self)@.wf(),
            mb < old(self)@.mbs(),
        ensures
            final(self)@ == old(self)@.put_mb_nnz(mb as int, v),
            final(self)@.like(old(self)@),
    {
        proof {
            reveal(GridsV::put_mb_nnz);
        }
        self.put_nnz(mb, 0, 0, 4, 4, v);
        self.put_mb_nnz_c(mb, v);
    }

    pub(crate) fn intra_l0(&mut self, mb: usize)
        requires
            old(self)@.wf(),
            mb < old(self)@.mbs(),
        ensures
            final(self)@ == old(self)@.intra_l0(mb as int),
            final(self)@.like(old(self)@),
    {
        proof {
            reveal(GridsV::intra_l0);
        }
        self.fill(0, mb, 0, 0, 4, 4, Mv { x: 0, y: 0 }, INTRA);
    }

    pub(crate) fn intra_both(&mut self, mb: usize)
        requires
            old(self)@.wf(),
            mb < old(self)@.mbs(),
        ensures
            final(self)@ == old(self)@.intra_both(mb as int),
            final(self)@.like(old(self)@),
    {
        proof {
            reveal(GridsV::intra_both);
        }
        self.intra_l0(mb);
        self.fill(1, mb, 0, 0, 4, 4, Mv { x: 0, y: 0 }, INTRA);
    }

    pub(crate) fn put_slice(&mut self, mb: usize, sid: i32)
        requires
            old(self)@.wf(),
            mb < old(self)@.mbs(),
        ensures
            final(self)@ == old(self)@.put_slice(mb as int, sid),
            final(self)@.like(old(self)@),
    {
        proof {
            reveal(GridsV::put_slice);
        }
        self.slice_id[mb] = sid;
    }

    pub(crate) fn put_seg(&mut self, mb: usize, seg: Seg)
        requires
            old(self)@.wf(),
            mb < old(self)@.mbs(),
        ensures
            final(self)@ == old(self)@.put_seg(mb as int, seg),
            final(self)@.like(old(self)@),
    {
        proof {
            reveal(GridsV::put_seg);
        }
        self.seg[mb] = seg;
    }

    pub(crate) fn put_decoded(&mut self, mb: usize)
        requires
            old(self)@.wf(),
            mb < old(self)@.mbs(),
        ensures
            final(self)@ == old(self)@.put_decoded(mb as int),
            final(self)@.like(old(self)@),
    {
        proof {
            reveal(GridsV::put_decoded);
        }
        self.decoded[mb] = true;
    }

    pub(crate) fn put_cbp(&mut self, mb: usize, cbp: u16)
        requires
            old(self)@.wf(),
            mb < old(self)@.mbs(),
        ensures
            final(self)@ == old(self)@.put_cbp(mb as int, cbp),
            final(self)@.like(old(self)@),
    {
        proof {
            reveal(GridsV::put_cbp);
        }
        self.cbp[mb] = cbp;
    }

    pub(crate) fn put_chroma_pred(&mut self, mb: usize, v: u8)
        requires
            old(self)@.wf(),
            mb < old(self)@.mbs(),
        ensures
            final(self)@ == old(self)@.put_chroma_pred(mb as int, v),
            final(self)@.like(old(self)@),
    {
        proof {
            reveal(GridsV::put_chroma_pred);
        }
        self.chroma_pred[mb] = v;
    }

    pub(crate) fn put_skip(&mut self, mb: usize)
        requires
            old(self)@.wf(),
            mb < old(self)@.mbs(),
        ensures
            final(self)@ == old(self)@.put_skip(mb as int),
            final(self)@.like(old(self)@),
    {
        proof {
            reveal(GridsV::put_skip);
        }
        self.skip[mb] = true;
    }

    pub(crate) fn put_bdirect(&mut self, mb: usize)
        requires
            old(self)@.wf(),
            mb < old(self)@.mbs(),
        ensures
            final(self)@ == old(self)@.put_bdirect(mb as int),
            final(self)@.like(old(self)@),
    {
        proof {
            reveal(GridsV::put_bdirect);
        }
        self.bdirect[mb] = true;
    }

    // -- reads

    pub(crate) fn seg_of(&self, m: usize) -> (v: Seg)
        requires
            self@.wf(),
            m < self@.mbs(),
        ensures
            v == self@.seg[m as int],
    {
        self.seg[m]
    }

    pub(crate) fn cbp_of(&self, m: usize) -> (v: u16)
        requires
            self@.wf(),
            m < self@.mbs(),
        ensures
            v == self@.cbp[m as int],
    {
        self.cbp[m]
    }

    pub(crate) fn chroma_pred_of(&self, m: usize) -> (v: u8)
        requires
            self@.wf(),
            m < self@.mbs(),
        ensures
            v == self@.chroma_pred[m as int],
    {
        self.chroma_pred[m]
    }

    pub(crate) fn skip_of(&self, m: usize) -> (v: bool)
        requires
            self@.wf(),
            m < self@.mbs(),
        ensures
            v == self@.skip[m as int],
    {
        self.skip[m]
    }

    pub(crate) fn bdirect_of(&self, m: usize) -> (v: bool)
        requires
            self@.wf(),
            m < self@.mbs(),
        ensures
            v == self@.bdirect[m as int],
    {
        self.bdirect[m]
    }

    /// Vector and reference index of a block of a macroblock.
    pub(crate) fn block(&self, l: usize, mb: usize, bx: usize, by: usize) -> (n: Nb)
        requires
            self@.wf(),
            mb < self@.mbs(),
            bx < 4,
            by < 4,
        ensures
            n == self@.block(l as int, mb as int, bx as int, by as int),
    {
        proof {
            reveal(GridsV::block);
        }
        let (x, y) = self.origin(mb, bx, by);
        let i = self.luma_cell(x, y);
        if l == 0 {
            Nb { refi: self.l0.refi[i], mv: self.l0.mv[i] }
        } else {
            Nb { refi: self.l1.refi[i], mv: self.l1.mv[i] }
        }
    }

    /// Column and row of a block of a macroblock.
    pub(crate) fn origin(&self, mb: usize, bx: usize, by: usize) -> (p: (usize, usize))
        requires
            self@.wf(),
            mb < self@.mbs(),
            bx < 4,
            by < 4,
        ensures
            p.0 == self@.x0(mb as int, bx as int),
            p.1 == self@.y0(mb as int, by as int),
            p.0 < 4 * self@.mb_w,
            p.1 < 4 * self@.mb_h,
    {
        proof {
            lemma_inside(
                self@.mb_w,
                self@.mb_h,
                4,
                4,
                mb as int,
                bx as int,
                by as int,
                1,
                1,
            );
        }
        (mb % self.mb_w * 4 + bx, mb / self.mb_w * 4 + by)
    }

    fn luma_cell(&self, gx: usize, gy: usize) -> (i: usize)
        requires
            self@.wf(),
            gx < 4 * self@.mb_w,
            gy < 4 * self@.mb_h,
        ensures
            i == self@.cell(gx as int, gy as int),
            i < self@.cells(),
    {
        proof {
            lemma_cell(gx as int, gy as int, 4 * self@.mb_w, 4 * self@.mb_h);
        }
        gy * (4 * self.mb_w) + gx
    }

    fn before(&self, m: usize, sid: i32) -> (r: bool)
        requires
            self@.wf(),
            m < self@.mbs(),
        ensures
            r == self@.before(m as int, sid),
    {
        self.decoded[m] && self.slice_id[m] == sid
    }

    fn avail(&self, gx: i32, gy: i32, mb: usize, scan: usize, sid: i32) -> (r: bool)
        requires
            self@.wf(),
        ensures
            r == self@.avail(gx as int, gy as int, mb as int, scan as int, sid),
    {
        proof {
            reveal(GridsV::avail);
        }
        if gx < 0 || gy < 0 {
            return false;
        }
        let x: usize = gx as usize;
        let y: usize = gy as usize;
        if x >= 4 * self.mb_w || y >= 4 * self.mb_h {
            return false;
        }
        proof {
            lemma_cell(gx as int / 4, gy as int / 4, self@.mb_w, self@.mb_h);
        }
        let m: usize = y / 4 * self.mb_w + x / 4;
        if m == mb {
            xy_scan(x % 4, y % 4) < scan
        } else {
            m < mb && self.before(m, sid)
        }
    }

    fn nb(&self, l: usize, gx: i32, gy: i32, mb: usize, scan: usize, sid: i32) -> (n: Nb)
        requires
            self@.wf(),
        ensures
            n == self@.nb(l as int, gx as int, gy as int, mb as int, scan as int, sid),
    {
        proof {
            reveal(GridsV::nb);
            reveal(GridsV::avail);
        }
        if self.avail(gx, gy, mb, scan, sid) {
            let i = self.luma_cell(gx as usize, gy as usize);
            if l == 0 {
                Nb { refi: self.l0.refi[i], mv: self.l0.mv[i] }
            } else {
                Nb { refi: self.l1.refi[i], mv: self.l1.mv[i] }
            }
        } else {
            Nb { refi: PART_NA, mv: Mv { x: 0, y: 0 } }
        }
    }

    pub(crate) fn left(&self, l: usize, mb: usize, bx: usize, by: usize, sid: i32) -> (n: Nb)
        requires
            self@.wf(),
            mb < self@.mbs(),
            bx < 4,
            by < 4,
        ensures
            n == self@.left(l as int, mb as int, bx as int, by as int, sid),
    {
        proof {
            reveal(GridsV::left);
        }
        let (x, y) = self.origin(mb, bx, by);
        self.nb(l, x as i32 - 1, y as i32, mb, xy_scan(bx, by), sid)
    }

    pub(crate) fn top(&self, l: usize, mb: usize, bx: usize, by: usize, sid: i32) -> (n: Nb)
        requires
            self@.wf(),
            mb < self@.mbs(),
            bx < 4,
            by < 4,
        ensures
            n == self@.top(l as int, mb as int, bx as int, by as int, sid),
    {
        proof {
            reveal(GridsV::top);
        }
        let (x, y) = self.origin(mb, bx, by);
        self.nb(l, x as i32, y as i32 - 1, mb, xy_scan(bx, by), sid)
    }

    pub(crate) fn diag(
        &self,
        l: usize,
        mb: usize,
        bx: usize,
        by: usize,
        pw: usize,
        sid: i32,
    ) -> (n: Nb)
        requires
            self@.wf(),
            mb < self@.mbs(),
            bx < 4,
            by < 4,
            pw <= 4,
        ensures
            n == self@.diag(l as int, mb as int, bx as int, by as int, pw as int, sid),
    {
        proof {
            reveal(GridsV::diag);
        }
        let (x, y) = self.origin(mb, bx, by);
        let scan = xy_scan(bx, by);
        let right = self.nb(l, x as i32 + pw as i32, y as i32 - 1, mb, scan, sid);
        if right.refi != PART_NA {
            right
        } else {
            self.nb(l, x as i32 - 1, y as i32 - 1, mb, scan, sid)
        }
    }

    pub(crate) fn pred_motion(
        &self,
        l: usize,
        mb: usize,
        bx: usize,
        by: usize,
        pw: usize,
        refi: i32,
        sid: i32,
    ) -> (m: Mv)
        requires
            self@.wf(),
            mb < self@.mbs(),
            bx < 4,
            by < 4,
            pw <= 4,
        ensures
            m == self@.pred(l as int, mb as int, bx as int, by as int, pw as int, refi, sid),
    {
        proof {
            reveal(GridsV::pred);
        }
        let a = self.left(l, mb, bx, by, sid);
        let b = self.top(l, mb, bx, by, sid);
        let c = self.diag(l, mb, bx, by, pw, sid);
        predict_mv(a, b, c, refi)
    }

    pub(crate) fn pred_pskip(&self, mb: usize, sid: i32) -> (m: Mv)
        requires
            self@.wf(),
            mb < self@.mbs(),
        ensures
            m == self@.pred_skip(mb as int, sid),
    {
        proof {
            reveal(GridsV::pred_skip);
        }
        let zero = Mv { x: 0, y: 0 };
        let a = self.left(0, mb, 0, 0, sid);
        if a.refi == PART_NA || (a.refi == 0 && a.mv == zero) {
            return zero;
        }
        let b = self.top(0, mb, 0, 0, sid);
        if b.refi == PART_NA || (b.refi == 0 && b.mv == zero) {
            return zero;
        }
        let c = self.diag(0, mb, 0, 0, 4, sid);
        predict_mv(a, b, c, 0)
    }

    pub(crate) fn pred_16x8(&self, l: usize, mb: usize, part: usize, refi: i32, sid: i32) -> (m: Mv)
        requires
            self@.wf(),
            mb < self@.mbs(),
        ensures
            m == self@.pred_wide(l as int, mb as int, part as int, refi, sid),
    {
        proof {
            reveal(GridsV::pred_wide);
        }
        if part == 0 {
            let b = self.top(l, mb, 0, 0, sid);
            if b.refi == refi {
                return b.mv;
            }
            self.pred_motion(l, mb, 0, 0, 4, refi, sid)
        } else {
            let a = self.left(l, mb, 0, 2, sid);
            if a.refi == refi {
                return a.mv;
            }
            self.pred_motion(l, mb, 0, 2, 4, refi, sid)
        }
    }

    pub(crate) fn pred_8x16(&self, l: usize, mb: usize, part: usize, refi: i32, sid: i32) -> (m: Mv)
        requires
            self@.wf(),
            mb < self@.mbs(),
        ensures
            m == self@.pred_tall(l as int, mb as int, part as int, refi, sid),
    {
        proof {
            reveal(GridsV::pred_tall);
        }
        if part == 0 {
            let a = self.left(l, mb, 0, 0, sid);
            if a.refi == refi {
                return a.mv;
            }
            self.pred_motion(l, mb, 0, 0, 2, refi, sid)
        } else {
            let c = self.diag(l, mb, 2, 0, 2, sid);
            if c.refi == refi {
                return c.mv;
            }
            self.pred_motion(l, mb, 2, 0, 2, refi, sid)
        }
    }

    /// Coefficient counts of the left and the top luma block.
    pub(crate) fn luma_counts(&self, mb: usize, bx: usize, by: usize, sid: i32) -> (r: (
        Option<u8>,
        Option<u8>,
    ))
        requires
            self@.wf(),
            mb < self@.mbs(),
            bx < 4,
            by < 4,
        ensures
            r == self@.luma_counts(mb as int, bx as int, by as int, sid),
    {
        proof {
            reveal(GridsV::luma_counts);
            reveal(GridsV::luma_count);
            reveal(GridsV::avail);
        }
        let (x, y) = self.origin(mb, bx, by);
        let scan = xy_scan(bx, by);
        let a = if self.avail(x as i32 - 1, y as i32, mb, scan, sid) {
            Some(self.nnz_l[self.luma_cell(x - 1, y)])
        } else {
            None
        };
        let b = if self.avail(x as i32, y as i32 - 1, mb, scan, sid) {
            Some(self.nnz_l[self.luma_cell(x, y - 1)])
        } else {
            None
        };
        (a, b)
    }

    fn chroma_count(&self, c: usize, cx: i32, cy: i32, mb: usize, sid: i32) -> (n: Option<u8>)
        requires
            self@.wf(),
        ensures
            n == self@.chroma_count(c as int, cx as int, cy as int, mb as int, sid),
    {
        proof {
            reveal(GridsV::chroma_count);
        }
        if cx < 0 || cy < 0 {
            return None;
        }
        let x: usize = cx as usize;
        let y: usize = cy as usize;
        proof {
            assert(self.cvb * self.mb_h <= 4 * self.mb_h) by (nonlinear_arith)
                requires
                    self.cvb <= 4,
                    0 <= self.mb_h,
            ;
        }
        if x >= 2 * self.mb_w || y >= self.cvb * self.mb_h {
            return None;
        }
        proof {
            let cvb = self.cvb as int;
            let mb_h = self.mb_h as int;
            assert(0 <= y as int / cvb < mb_h) by (nonlinear_arith)
                requires
                    0 <= y < cvb * mb_h,
                    cvb == 2 || cvb == 4,
            ;
            lemma_cell(x as int / 2, y as int / cvb, self@.mb_w, self@.mb_h);
            lemma_cell(x as int, y as int, 2 * self@.mb_w, self@.cvb * self@.mb_h);
        }
        let m: usize = y / self.cvb * self.mb_w + x / 2;
        if m == mb || (m < mb && self.before(m, sid)) {
            let i: usize = y * (2 * self.mb_w) + x;
            if c == 0 {
                Some(self.nnz_cb[i])
            } else {
                Some(self.nnz_cr[i])
            }
        } else {
            None
        }
    }

    /// Coefficient counts of the left and the top chroma block.
    pub(crate) fn chroma_counts(
        &self,
        c: usize,
        mb: usize,
        bx: usize,
        by: usize,
        sid: i32,
    ) -> (r: (Option<u8>, Option<u8>))
        requires
            self@.wf(),
            mb < self@.mbs(),
            bx < 2,
            by < self@.cvb,
        ensures
            r == self@.chroma_counts(c as int, mb as int, bx as int, by as int, sid),
    {
        proof {
            reveal(GridsV::chroma_counts);
        }
        proof {
            lemma_inside(
                self@.mb_w,
                self@.mb_h,
                2,
                self@.cvb,
                mb as int,
                bx as int,
                by as int,
                1,
                1,
            );
            assert(self.cvb * self.mb_h <= 4 * self.mb_h) by (nonlinear_arith)
                requires
                    self.cvb <= 4,
                    0 <= self.mb_h,
            ;
        }
        let x: i32 = (mb % self.mb_w * 2 + bx) as i32;
        let y: i32 = (mb / self.mb_w * self.cvb + by) as i32;
        (self.chroma_count(c, x - 1, y, mb, sid), self.chroma_count(c, x, y - 1, mb, sid))
    }

    pub(crate) fn nnz_pred_luma(&self, mb: usize, bx: usize, by: usize, sid: i32) -> (n: i32)
        requires
            self@.wf(),
            mb < self@.mbs(),
            bx < 4,
            by < 4,
        ensures
            n == self@.nnz_pred(mb as int, bx as int, by as int, sid),
    {
        proof {
            reveal(GridsV::nnz_pred);
        }
        let (a, b) = self.luma_counts(mb, bx, by, sid);
        predict_count(a, b)
    }

    pub(crate) fn nnz_pred_chroma(
        &self,
        c: usize,
        mb: usize,
        bx: usize,
        by: usize,
        sid: i32,
    ) -> (n: i32)
        requires
            self@.wf(),
            mb < self@.mbs(),
            bx < 2,
            by < self@.cvb,
        ensures
            n == self@.nnz_pred_c(c as int, mb as int, bx as int, by as int, sid),
    {
        proof {
            reveal(GridsV::nnz_pred_c);
        }
        let (a, b) = self.chroma_counts(c, mb, bx, by, sid);
        predict_count(a, b)
    }

    /// The left and the upper macroblock, where context selection may read them.
    pub(crate) fn ctx_neighbors(&self, mb: usize, sid: i32) -> (r: (Option<usize>, Option<usize>))
        requires
            self@.wf(),
            mb < self@.mbs(),
        ensures
            mb_number(r.0) == self@.mb_left(mb as int, sid),
            mb_number(r.1) == self@.mb_top(mb as int, sid),
            r.0 matches Some(m) ==> m < mb,
            r.1 matches Some(m) ==> m < mb,
    {
        proof {
            reveal(GridsV::mb_left);
            reveal(GridsV::mb_top);
        }
        proof {
            lemma_place(mb as int, self@.mb_w, self@.mb_h);
            let (x, y, w) = (mb as int % self@.mb_w, mb as int / self@.mb_w, self@.mb_w);
            if y > 0 {
                assert(y * w >= w) by (nonlinear_arith)
                    requires
                        y >= 1,
                        w >= 0,
                ;
            }
        }
        let left = if mb % self.mb_w > 0 && self.before(mb - 1, sid) {
            Some(mb - 1)
        } else {
            None
        };
        let top = if mb / self.mb_w > 0 && self.before(mb - self.mb_w, sid) {
            Some(mb - self.mb_w)
        } else {
            None
        };
        (left, top)
    }

    pub(crate) fn amvd(&self, l: usize, mb: usize, bx: usize, by: usize, sid: i32) -> (m: Mv)
        requires
            self@.wf(),
            mb < self@.mbs(),
            bx < 4,
            by < 4,
        ensures
            m == self@.amvd(l as int, mb as int, bx as int, by as int, sid),
    {
        proof {
            reveal(GridsV::amvd);
            reveal(GridsV::avail);
        }
        let (x, y) = self.origin(mb, bx, by);
        let scan = xy_scan(bx, by);
        let a = if self.avail(x as i32 - 1, y as i32, mb, scan, sid) {
            let i = self.luma_cell(x - 1, y);
            if l == 0 {
                self.l0.mvd[i]
            } else {
                self.l1.mvd[i]
            }
        } else {
            Mv { x: 0, y: 0 }
        };
        let b = if self.avail(x as i32, y as i32 - 1, mb, scan, sid) {
            let i = self.luma_cell(x, y - 1);
            if l == 0 {
                self.l0.mvd[i]
            } else {
                self.l1.mvd[i]
            }
        } else {
            Mv { x: 0, y: 0 }
        };
        add_mv(a, b)
    }

    pub(crate) fn ref_neighbor(
        &self,
        l: usize,
        mb: usize,
        bx: usize,
        by: usize,
        sid: i32,
        skip_direct: bool,
    ) -> (c: usize)
        requires
            self@.wf(),
            mb < self@.mbs(),
            bx < 4,
            by < 4,
        ensures
            c == self@.ref_ctx(l as int, mb as int, bx as int, by as int, sid, skip_direct),
            c <= 3,
    {
        proof {
            reveal(GridsV::ref_ctx);
            reveal(GridsV::avail);
        }
        let (x, y) = self.origin(mb, bx, by);
        let scan = xy_scan(bx, by);
        let mut a = self.left(l, mb, bx, by, sid).refi > 0;
        let mut b = self.top(l, mb, bx, by, sid).refi > 0;
        if skip_direct {
            if self.avail(x as i32 - 1, y as i32, mb, scan, sid) {
                a = a && !self.direct[self.luma_cell(x - 1, y)];
            }
            if self.avail(x as i32, y as i32 - 1, mb, scan, sid) {
                b = b && !self.direct[self.luma_cell(x, y - 1)];
            }
        }
        one(a) + 2 * one(b)
    }
}

/// A macroblock number as a mathematical integer.
pub open spec fn mb_number(m: Option<usize>) -> Option<int> {
    match m {
        Some(n) => Some(n as int),
        None => None,
    }
}

fn predict_mv(a: Nb, b: Nb, c: Nb, refi: i32) -> (m: Mv)
    ensures
        m == predict(a, b, c, refi),
{
    proof {
        reveal(predict);
    }
    let same: usize = one(a.refi == refi) + one(b.refi == refi) + one(c.refi == refi);
    if same == 1 {
        if a.refi == refi {
            a.mv
        } else if b.refi == refi {
            b.mv
        } else {
            c.mv
        }
    } else if same == 0 && b.refi == PART_NA && c.refi == PART_NA && a.refi != PART_NA {
        a.mv
    } else {
        mid_mv(a.mv, b.mv, c.mv)
    }
}

fn predict_count(a: Option<u8>, b: Option<u8>) -> (n: i32)
    ensures
        n == count_pred(a, b),
{
    proof {
        reveal(count_pred);
    }
    let l = match a {
        Some(n) => n as i32,
        None => 64,
    };
    let t = match b {
        Some(n) => n as i32,
        None => 64,
    };
    let sum: i32 = l + t;
    if sum < 64 {
        (sum + 1) >> 1
    } else {
        sum & 31
    }
}

} // verus!
