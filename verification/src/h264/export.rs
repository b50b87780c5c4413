//! Motion vectors of a decoded picture as rows.

use super::grids::{FrameGrids, GridsV, Seg};
use crate::grid::one_if;
use crate::motion::{
    compact_rows, full_rows, push_compact, push_full, MotionVector, MvCompact, Row,
};
use vstd::prelude::*;

verus! {

impl GridsV {
    /// The row of list `l` of a partition of `w` by `h` blocks: around its centre, with the vector
    /// of its first block.
    #[verifier::opaque]
    pub open spec fn row(self, l: int, mb: int, bx: int, by: int, w: int, h: int) -> Row {
        Row {
            x: (4 * self.x0(mb, bx) + 2 * w) as i32,
            y: (4 * self.y0(mb, by) + 2 * h) as i32,
            w: (4 * w) as i32,
            h: (4 * h) as i32,
            source: if l == 0 {
                -1i32
            } else {
                1i32
            },
            mv: self.block(l, mb, bx, by).mv,
        }
    }

    /// A block uses list `l`.
    pub open spec fn used(self, l: int, mb: int, bx: int, by: int) -> bool {
        self.block(l, mb, bx, by).refi >= 0
    }

    /// The rows of list `l` of both halves.
    pub open spec fn half_rows(self, rows: Seq<Row>, l: int, mb: int, wide: bool) -> Seq<Row> {
        if wide {
            rows.push(self.row(l, mb, 0, 0, 4, 2)).push(self.row(l, mb, 0, 2, 4, 2))
        } else {
            rows.push(self.row(l, mb, 0, 0, 2, 4)).push(self.row(l, mb, 2, 0, 2, 4))
        }
    }

    /// One of the halves uses list `l`.
    pub open spec fn half_used(self, l: int, mb: int, wide: bool) -> bool {
        ||| self.used(l, mb, 0, 0)
        ||| if wide {
            self.used(l, mb, 0, 2)
        } else {
            self.used(l, mb, 2, 0)
        }
    }

    /// The rows of a B macroblock in halves. A list that one half uses is exported for both.
    #[verifier::opaque]
    pub open spec fn b_half_rows(self, rows: Seq<Row>, mb: int, wide: bool) -> Seq<Row> {
        let rows = if self.half_used(0, mb, wide) {
            self.half_rows(rows, 0, mb, wide)
        } else {
            rows
        };
        if self.half_used(1, mb, wide) {
            self.half_rows(rows, 1, mb, wide)
        } else {
            rows
        }
    }

    /// One of the quadrants uses list `l`.
    #[verifier::opaque]
    pub open spec fn quad_used(self, l: int, mb: int) -> bool {
        self.used(l, mb, 0, 0) || self.used(l, mb, 2, 0) || self.used(l, mb, 0, 2) || self.used(
            l,
            mb,
            2,
            2,
        )
    }

    /// The rows of quadrants `q..4`, for the lists that are in use, list 0 first.
    pub open spec fn quad_rows(
        self,
        rows: Seq<Row>,
        mb: int,
        l0: bool,
        l1: bool,
        q: int,
    ) -> Seq<Row>
        decreases 4 - q,
    {
        if q >= 4 {
            rows
        } else {
            let rows = if l0 {
                rows.push(self.row(0, mb, q % 2 * 2, q / 2 * 2, 2, 2))
            } else {
                rows
            };
            let rows = if l1 {
                rows.push(self.row(1, mb, q % 2 * 2, q / 2 * 2, 2, 2))
            } else {
                rows
            };
            self.quad_rows(rows, mb, l0, l1, q + 1)
        }
    }

    /// The rows of macroblock `mb` appended.
    #[verifier::opaque]
    pub open spec fn mb_rows(self, rows: Seq<Row>, mb: int) -> Seq<Row> {
        match self.seg[mb] {
            Seg::Skip | Seg::P16x16 => rows.push(self.row(0, mb, 0, 0, 4, 4)),
            Seg::P16x8 => self.half_rows(rows, 0, mb, true),
            Seg::P8x16 => self.half_rows(rows, 0, mb, false),
            Seg::P8x8 => self.quad_rows(rows, mb, true, false, 0),
            Seg::B16x16 => {
                let rows = if self.used(0, mb, 0, 0) {
                    rows.push(self.row(0, mb, 0, 0, 4, 4))
                } else {
                    rows
                };
                if self.used(1, mb, 0, 0) {
                    rows.push(self.row(1, mb, 0, 0, 4, 4))
                } else {
                    rows
                }
            },
            Seg::B16x8 => self.b_half_rows(rows, mb, true),
            Seg::B8x16 => self.b_half_rows(rows, mb, false),
            Seg::B8x8 => self.quad_rows(
                rows,
                mb,
                self.quad_used(0, mb),
                self.quad_used(1, mb),
                0,
            ),
            Seg::Intra | Seg::Unset => rows,
        }
    }

    /// The rows of macroblocks `mb..n` appended.
    pub open spec fn rows_from(self, rows: Seq<Row>, mb: int, n: int) -> Seq<Row>
        decreases n - mb,
    {
        if mb >= n {
            rows
        } else {
            self.rows_from(self.mb_rows(rows, mb), mb + 1, n)
        }
    }

    /// All rows of the picture, by macroblock in raster order.
    pub open spec fn rows(self) -> Seq<Row> {
        self.rows_from(Seq::empty(), 0, self.mbs())
    }
}

impl FrameGrids {
    fn push_row(
        &self,
        out: &mut Vec<Row>,
        l: usize,
        mb: usize,
        bx: usize,
        by: usize,
        w: usize,
        h: usize,
    )
        requires
            self@.wf(),
            mb < self@.mbs(),
            bx + w <= 4,
            by + h <= 4,
            0 < w,
            0 < h,
        ensures
            final(out)@ == old(out)@.push(
                self@.row(l as int, mb as int, bx as int, by as int, w as int, h as int),
            ),
    {
        proof {
            reveal(GridsV::row);
        }
        let (x, y) = self.origin(mb, bx, by);
        let b = self.block(l, mb, bx, by);
        out.push(
            Row {
                x: (4 * x + 2 * w) as i32,
                y: (4 * y + 2 * h) as i32,
                w: (4 * w) as i32,
                h: (4 * h) as i32,
                source: if l == 0 {
                    -1
                } else {
                    1
                },
                mv: b.mv,
            },
        );
    }

    fn used(&self, l: usize, mb: usize, bx: usize, by: usize) -> (r: bool)
        requires
            self@.wf(),
            mb < self@.mbs(),
            bx < 4,
            by < 4,
        ensures
            r == self@.used(l as int, mb as int, bx as int, by as int),
    {
        self.block(l, mb, bx, by).refi >= 0
    }

    fn push_halves(&self, out: &mut Vec<Row>, l: usize, mb: usize, wide: bool)
        requires
            self@.wf(),
            mb < self@.mbs(),
        ensures
            final(out)@ == self@.half_rows(old(out)@, l as int, mb as int, wide),
    {
        if wide {
            self.push_row(out, l, mb, 0, 0, 4, 2);
            self.push_row(out, l, mb, 0, 2, 4, 2);
        } else {
            self.push_row(out, l, mb, 0, 0, 2, 4);
            self.push_row(out, l, mb, 2, 0, 2, 4);
        }
    }

    fn half_used(&self, l: usize, mb: usize, wide: bool) -> (r: bool)
        requires
            self@.wf(),
            mb < self@.mbs(),
        ensures
            r == self@.half_used(l as int, mb as int, wide),
    {
        self.used(l, mb, 0, 0) || if wide {
            self.used(l, mb, 0, 2)
        } else {
            self.used(l, mb, 2, 0)
        }
    }

    fn push_b_halves(&self, out: &mut Vec<Row>, mb: usize, wide: bool)
        requires
            self@.wf(),
            mb < self@.mbs(),
        ensures
            final(out)@ == self@.b_half_rows(old(out)@, mb as int, wide),
    {
        proof {
            reveal(GridsV::b_half_rows);
        }
        if self.half_used(0, mb, wide) {
            self.push_halves(out, 0, mb, wide);
        }
        if self.half_used(1, mb, wide) {
            self.push_halves(out, 1, mb, wide);
        }
    }

    fn quad_used(&self, l: usize, mb: usize) -> (r: bool)
        requires
            self@.wf(),
            mb < self@.mbs(),
        ensures
            r == self@.quad_used(l as int, mb as int),
    {
        proof {
            reveal(GridsV::quad_used);
        }
        self.used(l, mb, 0, 0) || self.used(l, mb, 2, 0) || self.used(l, mb, 0, 2) || self.used(
            l,
            mb,
            2,
            2,
        )
    }

    fn push_quads(&self, out: &mut Vec<Row>, mb: usize, l0: bool, l1: bool)
        requires
            self@.wf(),
            mb < self@.mbs(),
        ensures
            final(out)@ == self@.quad_rows(old(out)@, mb as int, l0, l1, 0),
    {
        let mut q: usize = 0;
        while q < 4
            invariant
                q <= 4,
                self@.wf(),
                mb < self@.mbs(),
                self@.quad_rows(out@, mb as int, l0, l1, q as int) == self@.quad_rows(
                    old(out)@,
                    mb as int,
                    l0,
                    l1,
                    0,
                ),
            decreases 4 - q,
        {
            if l0 {
                self.push_row(out, 0, mb, q % 2 * 2, q / 2 * 2, 2, 2);
            }
            if l1 {
                self.push_row(out, 1, mb, q % 2 * 2, q / 2 * 2, 2, 2);
            }
            q += 1;
        }
    }

    fn push_mb(&self, out: &mut Vec<Row>, mb: usize)
        requires
            self@.wf(),
            mb < self@.mbs(),
        ensures
            final(out)@ == self@.mb_rows(old(out)@, mb as int),
    {
        proof {
            reveal(GridsV::mb_rows);
        }
        match self.seg_of(mb) {
            Seg::Skip | Seg::P16x16 => self.push_row(out, 0, mb, 0, 0, 4, 4),
            Seg::P16x8 => self.push_halves(out, 0, mb, true),
            Seg::P8x16 => self.push_halves(out, 0, mb, false),
            Seg::P8x8 => self.push_quads(out, mb, true, false),
            Seg::B16x16 => {
                if self.used(0, mb, 0, 0) {
                    self.push_row(out, 0, mb, 0, 0, 4, 4);
                }
                if self.used(1, mb, 0, 0) {
                    self.push_row(out, 1, mb, 0, 0, 4, 4);
                }
            },
            Seg::B16x8 => self.push_b_halves(out, mb, true),
            Seg::B8x16 => self.push_b_halves(out, mb, false),
            Seg::B8x8 => {
                let l0 = self.quad_used(0, mb);
                let l1 = self.quad_used(1, mb);
                self.push_quads(out, mb, l0, l1);
            },
            Seg::Intra | Seg::Unset => {},
        }
    }

    /// All rows of the picture. Both exports go through it.
    fn mv_rows(&self) -> (rows: Vec<Row>)
        requires
            self@.wf(),
        ensures
            rows@ == self@.rows(),
    {
        let mut rows: Vec<Row> = Vec::new();
        assert(rows@ =~= Seq::<Row>::empty());
        let n = self.mb_count();
        let mut mb: usize = 0;
        while mb < n
            invariant
                mb <= n,
                n == self@.mbs(),
                self@.wf(),
                self@.rows_from(rows@, mb as int, n as int) == self@.rows(),
            decreases n - mb,
        {
            self.push_mb(&mut rows, mb);
            mb += 1;
        }
        rows
    }

    /// Appends the motion vectors of the picture in all columns, without those that do not move.
    /// `l0_only` leaves list 1 out.
    pub fn export_mvs(&self, frame: i32, l0_only: bool, out: &mut Vec<MotionVector>)
        requires
            self@.wf(),
        ensures
            final(out)@ == old(out)@ + full_rows(self@.rows(), frame, l0_only),
    {
        let rows = self.mv_rows();
        push_full(&rows, frame, l0_only, out);
    }

    /// Appends the motion vectors of the picture in six columns, without those that do not move.
    /// `l0_only` leaves list 1 out.
    pub fn export_mvs_compact(&self, frame: i32, l0_only: bool, out: &mut Vec<MvCompact>)
        requires
            self@.wf(),
        ensures
            final(out)@ == old(out)@ + compact_rows(self@.rows(), frame, l0_only),
    {
        let rows = self.mv_rows();
        push_compact(&rows, frame, l0_only, out);
    }
}

// ---------------------------------------------------------------------------
// Laws

/// A sample lies in the block that a row stands for.
pub open spec fn covers(r: Row, px: int, py: int) -> bool {
    &&& r.x - r.w as int / 2 <= px < r.x + r.w as int / 2
    &&& r.y - r.h as int / 2 <= py < r.y + r.h as int / 2
}

/// The blocks of the rows of list `source` lie in the macroblock whose first sample is at `x`, `y`, and
/// each of its samples in just one of them.
pub open spec fn tiles(rs: Seq<Row>, source: i32, x: int, y: int) -> bool {
    &&& forall|k: int, px: int, py: int|
        0 <= k < rs.len() && rs[k].source == source && #[trigger] covers(rs[k], px, py) ==> x <= px
            < x + 16 && y <= py < y + 16
    &&& forall|px: int, py: int|
        #![trigger in_mb(x, y, px, py)]
        in_mb(x, y, px, py) ==> exists|k: int|
            0 <= k < rs.len() && rs[k].source == source && #[trigger] covers(rs[k], px, py)
    &&& forall|i: int, j: int, px: int, py: int|
        0 <= i < j < rs.len() && rs[i].source == source && rs[j].source == source
            && #[trigger] covers(rs[i], px, py) ==> !#[trigger] covers(rs[j], px, py)
}

/// A sample lies in the macroblock whose first sample is at `x`, `y`.
pub open spec fn in_mb(x: int, y: int, px: int, py: int) -> bool {
    x <= px < x + 16 && y <= py < y + 16
}

/// A row covers the samples of its partition.
proof fn lemma_row_place(g: GridsV, l: int, mb: int, bx: int, by: int, w: int, h: int)
    requires
        g.wf(),
        0 <= mb < g.mbs(),
        0 <= bx,
        0 <= by,
        0 < w,
        0 < h,
        bx + w <= 4,
        by + h <= 4,
    ensures
        ({
            let r = g.row(l, mb, bx, by, w, h);
            let (x, y) = (16 * (mb % g.mb_w), 16 * (mb / g.mb_w));
            &&& r.source == if l == 0 {
                -1i32
            } else {
                1i32
            }
            &&& r.x - r.w as int / 2 == x + 4 * bx
            &&& r.x + r.w as int / 2 == x + 4 * (bx + w)
            &&& r.y - r.h as int / 2 == y + 4 * by
            &&& r.y + r.h as int / 2 == y + 4 * (by + h)
        }),
{
    reveal(GridsV::row);
    crate::grid::lemma_place(mb, g.mb_w, g.mb_h);
}

/// In every macroblock, each list either has no rows, or the blocks of its rows fill the macroblock
/// without gap or overlap: where one partition uses a list, all are exported for it. Rows are of list
/// 0 or 1; intra macroblocks and those that were not decoded have none.
pub proof fn law_rows_tile_the_macroblock(g: GridsV, mb: int, source: i32)
    requires
        g.wf(),
        0 <= mb < g.mbs(),
        source == -1 || source == 1,
    ensures
        ({
            let rs = g.mb_rows(Seq::empty(), mb);
            let (x, y) = (16 * (mb % g.mb_w), 16 * (mb / g.mb_w));
            &&& (forall|k: int| 0 <= k < rs.len() ==> (#[trigger] rs[k]).source != source) || tiles(
                rs,
                source,
                x,
                y,
            )
            &&& forall|k: int|
                0 <= k < rs.len() ==> (#[trigger] rs[k]).source == -1 || rs[k].source == 1
            &&& (g.seg[mb] == Seg::Intra || g.seg[mb] == Seg::Unset) ==> rs.len() == 0
        }),
{
    reveal(GridsV::mb_rows);
    reveal(GridsV::b_half_rows);
    let rs = g.mb_rows(Seq::empty(), mb);
    match g.seg[mb] {
        Seg::Skip | Seg::P16x16 | Seg::B16x16 => {
            lemma_row_place(g, 0, mb, 0, 0, 4, 4);
            lemma_row_place(g, 1, mb, 0, 0, 4, 4);
            lemma_whole(rs, source, 16 * (mb % g.mb_w), 16 * (mb / g.mb_w));
        },
        Seg::P16x8 | Seg::B16x8 => {
            lemma_row_place(g, 0, mb, 0, 0, 4, 2);
            lemma_row_place(g, 0, mb, 0, 2, 4, 2);
            lemma_row_place(g, 1, mb, 0, 0, 4, 2);
            lemma_row_place(g, 1, mb, 0, 2, 4, 2);
            lemma_halves(rs, source, 16 * (mb % g.mb_w), 16 * (mb / g.mb_w), true);
        },
        Seg::P8x16 | Seg::B8x16 => {
            lemma_row_place(g, 0, mb, 0, 0, 2, 4);
            lemma_row_place(g, 0, mb, 2, 0, 2, 4);
            lemma_row_place(g, 1, mb, 0, 0, 2, 4);
            lemma_row_place(g, 1, mb, 2, 0, 2, 4);
            lemma_halves(rs, source, 16 * (mb % g.mb_w), 16 * (mb / g.mb_w), false);
        },
        Seg::P8x8 => {
            lemma_quads(g, mb, true, false, source);
        },
        Seg::B8x8 => {
            lemma_quads(g, mb, g.quad_used(0, mb), g.quad_used(1, mb), source);
        },
        Seg::Intra | Seg::Unset => {},
    }
}

/// The block of a row is that from `x0`, `y0` to `x1`, `y1`.
spec fn spans(r: Row, source: i32, x0: int, y0: int, x1: int, y1: int) -> bool {
    &&& r.source == source
    &&& r.x - r.w as int / 2 == x0
    &&& r.x + r.w as int / 2 == x1
    &&& r.y - r.h as int / 2 == y0
    &&& r.y + r.h as int / 2 == y1
}

/// An undivided macroblock: at most one row per list, over all of it.
proof fn lemma_whole(rs: Seq<Row>, source: i32, x: int, y: int)
    requires
        rs.len() <= 2,
        source == -1 || source == 1,
        rs.len() == 2 ==> rs[0].source != rs[1].source,
        forall|k: int|
            0 <= k < rs.len() ==> spans(#[trigger] rs[k], rs[k].source, x, y, x + 16, y + 16),
    ensures
        (forall|k: int| 0 <= k < rs.len() ==> (#[trigger] rs[k]).source != source) || tiles(
            rs,
            source,
            x,
            y,
        ),
{
    if exists|k: int| 0 <= k < rs.len() && (#[trigger] rs[k]).source == source {
        let k = choose|k: int| 0 <= k < rs.len() && (#[trigger] rs[k]).source == source;
        assert forall|px: int, py: int| #[trigger] in_mb(x, y, px, py) implies exists|k: int|
            0 <= k < rs.len() && rs[k].source == source && #[trigger] covers(rs[k], px, py) by {
            assert(covers(rs[k], px, py));
        }
        assert(tiles(rs, source, x, y));
    }
}

/// A macroblock in halves: per list two rows, one behind the other, or none.
proof fn lemma_halves(rs: Seq<Row>, source: i32, x: int, y: int, wide: bool)
    requires
        rs.len() == 0 || rs.len() == 2 || rs.len() == 4,
        source == -1 || source == 1,
        rs.len() >= 2 ==> halves(rs[0], rs[1], x, y, wide),
        rs.len() == 4 ==> halves(rs[2], rs[3], x, y, wide) && rs[0].source != rs[2].source,
    ensures
        (forall|k: int| 0 <= k < rs.len() ==> (#[trigger] rs[k]).source != source) || tiles(
            rs,
            source,
            x,
            y,
        ),
{
    if exists|k: int| 0 <= k < rs.len() && (#[trigger] rs[k]).source == source {
        let i: int = if rs[0].source == source {
            0
        } else {
            2
        };
        assert forall|px: int, py: int| #[trigger] in_mb(x, y, px, py) implies exists|k: int|
            0 <= k < rs.len() && rs[k].source == source && #[trigger] covers(rs[k], px, py) by {
            assert(covers(rs[i], px, py) || covers(rs[i + 1], px, py));
        }
        assert(tiles(rs, source, x, y));
    }
}

/// Two rows of one list over the halves of a macroblock.
spec fn halves(a: Row, b: Row, x: int, y: int, wide: bool) -> bool {
    &&& a.source == -1 || a.source == 1
    &&& if wide {
        spans(a, a.source, x, y, x + 16, y + 8) && spans(b, a.source, x, y + 8, x + 16, y + 16)
    } else {
        spans(a, a.source, x, y, x + 8, y + 16) && spans(b, a.source, x + 8, y, x + 16, y + 16)
    }
}

/// A row over quadrant `q` of a macroblock.
spec fn on_quad(r: Row, source: i32, x: int, y: int, q: int) -> bool {
    spans(
        r,
        source,
        x + q % 2 * 8,
        y + q / 2 * 8,
        x + q % 2 * 8 + 8,
        y + q / 2 * 8 + 8,
    )
}

/// A macroblock in quadrants: the rows of the lists in use, quadrant by quadrant.
proof fn lemma_quads(g: GridsV, mb: int, l0: bool, l1: bool, source: i32)
    requires
        g.wf(),
        0 <= mb < g.mbs(),
        source == -1 || source == 1,
    ensures
        ({
            let rs = g.quad_rows(Seq::empty(), mb, l0, l1, 0);
            let (x, y) = (16 * (mb % g.mb_w), 16 * (mb / g.mb_w));
            &&& (forall|k: int| 0 <= k < rs.len() ==> (#[trigger] rs[k]).source != source) || tiles(
                rs,
                source,
                x,
                y,
            )
            &&& forall|k: int|
                0 <= k < rs.len() ==> (#[trigger] rs[k]).source == -1 || rs[k].source == 1
        }),
{
    let rs = g.quad_rows(Seq::empty(), mb, l0, l1, 0);
    let (x, y) = (16 * (mb % g.mb_w), 16 * (mb / g.mb_w));
    lemma_quad_list(g, Seq::empty(), mb, l0, l1, 0);
    let per: int = one_if(l0) + one_if(l1);
    assert forall|k: int| 0 <= k < rs.len() implies (#[trigger] rs[k]).source == -1 || rs[k].source
        == 1 by {
        lemma_quad_index(k, per);
        assert(on_quad(rs[k], quad_source(l0, l1, k % per), x, y, k / per));
    }
    let used = if source == -1 {
        l0
    } else {
        l1
    };
    if used {
        let o: int = if source == 1 && l0 {
            1
        } else {
            0
        };
        assert forall|q: int| 0 <= q < 4 implies on_quad(
            #[trigger] rs[q * per + o],
            source,
            x,
            y,
            q,
        ) by {
            lemma_quad_at(q, per, o);
        }
        assert forall|px: int, py: int| #[trigger] in_mb(x, y, px, py) implies exists|k: int|
            0 <= k < rs.len() && rs[k].source == source && #[trigger] covers(rs[k], px, py) by {
            let q: int = (if px < x + 8 {
                0int
            } else {
                1int
            }) + (if py < y + 8 {
                0int
            } else {
                2int
            });
            lemma_quad_at(q, per, o);
            assert(on_quad(rs[q * per + o], source, x, y, q));
            assert(covers(rs[q * per + o], px, py));
        }
        assert forall|k: int, px: int, py: int|
            0 <= k < rs.len() && rs[k].source == source && #[trigger] covers(
                rs[k],
                px,
                py,
            ) implies x <= px < x + 16 && y <= py < y + 16 by {
            lemma_quad_index(k, per);
            assert(on_quad(rs[k], quad_source(l0, l1, k % per), x, y, k / per));
        }
        assert forall|i: int, j: int, px: int, py: int|
            0 <= i < j < rs.len() && rs[i].source == source && rs[j].source == source
                && #[trigger] covers(rs[i], px, py) implies !#[trigger] covers(rs[j], px, py) by {
            lemma_quad_index(i, per);
            lemma_quad_index(j, per);
            assert(on_quad(rs[i], quad_source(l0, l1, i % per), x, y, i / per));
            assert(on_quad(rs[j], quad_source(l0, l1, j % per), x, y, j / per));
        }
        assert(tiles(rs, source, x, y));
    } else {
        assert forall|k: int| 0 <= k < rs.len() implies (#[trigger] rs[k]).source != source by {
            lemma_quad_index(k, per);
            assert(on_quad(rs[k], quad_source(l0, l1, k % per), x, y, k / per));
        }
    }
}

/// The list of row `o` of a quadrant.
spec fn quad_source(l0: bool, l1: bool, o: int) -> i32 {
    if o == 0 && l0 {
        -1i32
    } else {
        1i32
    }
}

/// Row `k` is row `k % per` of quadrant `k / per`.
proof fn lemma_quad_index(k: int, per: int)
    requires
        0 <= k < 4 * per,
        0 <= per <= 2,
    ensures
        1 <= per <= 2,
        0 <= k / per < 4,
        0 <= k % per < per,
        k == k / per * per + k % per,
{
    assert(per == 1 || per == 2);
}

proof fn lemma_quad_at(q: int, per: int, o: int)
    requires
        0 <= q < 4,
        0 <= o < per <= 2,
    ensures
        0 <= q * per + o < 4 * per,
        (q * per + o) / per == q,
        (q * per + o) % per == o,
{
    assert(per == 1 || per == 2);
}

/// The rows of quadrants, one by one.
proof fn lemma_quad_list(g: GridsV, rows: Seq<Row>, mb: int, l0: bool, l1: bool, q: int)
    requires
        g.wf(),
        0 <= mb < g.mbs(),
        0 <= q <= 4,
        ({
            let per = one_if(l0) + one_if(l1);
            let (x, y) = (16 * (mb % g.mb_w), 16 * (mb / g.mb_w));
            &&& rows.len() == q * per
            &&& forall|k: int|
                0 <= k < rows.len() ==> on_quad(
                    #[trigger] rows[k],
                    quad_source(l0, l1, k % per),
                    x,
                    y,
                    k / per,
                )
        }),
    ensures
        ({
            let per = one_if(l0) + one_if(l1);
            let (x, y) = (16 * (mb % g.mb_w), 16 * (mb / g.mb_w));
            let rs = g.quad_rows(rows, mb, l0, l1, q);
            &&& rs.len() == 4 * per
            &&& forall|k: int|
                0 <= k < rs.len() ==> on_quad(
                    #[trigger] rs[k],
                    quad_source(l0, l1, k % per),
                    x,
                    y,
                    k / per,
                )
        }),
    decreases 4 - q,
{
    if q < 4 {
        let per = one_if(l0) + one_if(l1);
        let (x, y) = (16 * (mb % g.mb_w), 16 * (mb / g.mb_w));
        lemma_row_place(g, 0, mb, q % 2 * 2, q / 2 * 2, 2, 2);
        lemma_row_place(g, 1, mb, q % 2 * 2, q / 2 * 2, 2, 2);
        let a = if l0 {
            rows.push(g.row(0, mb, q % 2 * 2, q / 2 * 2, 2, 2))
        } else {
            rows
        };
        let b = if l1 {
            a.push(g.row(1, mb, q % 2 * 2, q / 2 * 2, 2, 2))
        } else {
            a
        };
        if per > 0 {
            lemma_quad_at(q, per, 0);
        }
        if per == 2 {
            lemma_quad_at(q, per, 1);
        }
        assert forall|k: int| 0 <= k < b.len() implies on_quad(
            #[trigger] b[k],
            quad_source(l0, l1, k % per),
            x,
            y,
            k / per,
        ) by {
            if k < rows.len() {
                assert(b[k] == rows[k]);
            }
        }
        assert((q + 1) * per == q * per + per) by (nonlinear_arith);
        lemma_quad_list(g, b, mb, l0, l1, q + 1);
    }
}

/// The rows of macroblocks `0..n`, one macroblock behind the other.
pub open spec fn picture_rows(g: GridsV, n: int) -> Seq<Row>
    decreases n,
{
    if n <= 0 {
        Seq::empty()
    } else {
        picture_rows(g, n - 1) + g.mb_rows(Seq::empty(), n - 1)
    }
}

proof fn lemma_quad_rows_append(
    g: GridsV,
    rows: Seq<Row>,
    mb: int,
    l0: bool,
    l1: bool,
    q: int,
    e: Seq<Row>,
)
    ensures
        g.quad_rows(rows + e, mb, l0, l1, q) == rows + g.quad_rows(e, mb, l0, l1, q),
    decreases 4 - q,
{
    if q < 4 {
        let r0 = g.row(0, mb, q % 2 * 2, q / 2 * 2, 2, 2);
        let r1 = g.row(1, mb, q % 2 * 2, q / 2 * 2, 2, 2);
        let a = if l0 {
            e.push(r0)
        } else {
            e
        };
        let b = if l1 {
            a.push(r1)
        } else {
            a
        };
        assert((rows + e).push(r0) =~= rows + e.push(r0));
        assert((rows + a).push(r1) =~= rows + a.push(r1));
        lemma_quad_rows_append(g, rows, mb, l0, l1, q + 1, b);
    }
}

proof fn lemma_mb_rows_append(g: GridsV, rows: Seq<Row>, mb: int)
    ensures
        g.mb_rows(rows, mb) == rows + g.mb_rows(Seq::empty(), mb),
{
    reveal(GridsV::mb_rows);
    reveal(GridsV::b_half_rows);
    let none = Seq::<Row>::empty();
    assert(rows + none =~= rows);
    lemma_quad_rows_append(g, rows, mb, true, false, 0, none);
    lemma_quad_rows_append(g, rows, mb, g.quad_used(0, mb), g.quad_used(1, mb), 0, none);
    assert(g.mb_rows(rows, mb) =~= rows + g.mb_rows(none, mb));
}

proof fn lemma_rows_from(g: GridsV, mb: int, n: int)
    requires
        0 <= mb <= n,
    ensures
        g.rows_from(picture_rows(g, mb), mb, n) == picture_rows(g, n),
    decreases n - mb,
{
    if mb < n {
        lemma_mb_rows_append(g, picture_rows(g, mb), mb);
        lemma_rows_from(g, mb + 1, n);
    }
}

/// The rows of a picture are those of its macroblocks, in raster order.
pub proof fn law_rows_in_raster_order(g: GridsV)
    requires
        g.wf(),
    ensures
        g.rows() == picture_rows(g, g.mbs()),
{
    assert(0 <= g.mbs()) by (nonlinear_arith)
        requires
            0 <= g.mb_w,
            0 <= g.mb_h,
            g.mbs() == g.mb_w * g.mb_h,
    ;
    lemma_rows_from(g, 0, g.mbs());
}

} // verus!
