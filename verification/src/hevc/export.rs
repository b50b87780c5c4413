//! Motion vectors of a decoded H.265 picture as rows.

use super::frame::{Geo, MvField};
use crate::grid::{fill_rect, in_rect, lemma_place, new_grid, rect};
use crate::motion::MvCompact;
use vstd::prelude::*;

verus! {

/// Two blocks have the same motion.
pub open spec fn same_field(a: MvField, b: MvField) -> bool {
    &&& a.mv[0][0] == b.mv[0][0] && a.mv[0][1] == b.mv[0][1]
    &&& a.mv[1][0] == b.mv[1][0] && a.mv[1][1] == b.mv[1][1]
    &&& a.ref_idx[0] == b.ref_idx[0] && a.ref_idx[1] == b.ref_idx[1]
    &&& a.pred_flag == b.pred_flag
}

fn is_same_field(a: &MvField, b: &MvField) -> (r: bool)
    ensures
        r == same_field(*a, *b),
{
    a.mv[0][0] == b.mv[0][0] && a.mv[0][1] == b.mv[0][1] && a.mv[1][0] == b.mv[1][0] && a.mv[1][1]
        == b.mv[1][1] && a.ref_idx[0] == b.ref_idx[0] && a.ref_idx[1] == b.ref_idx[1]
        && a.pred_flag == b.pred_flag
}

/// Block `i` has the motion `m` and has not been exported.
pub open spec fn joins(tab: Seq<MvField>, seen: Seq<bool>, i: int, m: MvField) -> bool {
    !seen[i] && same_field(tab[i], m)
}

/// How many blocks to the right of block `i` join it, from `w` on, up to `max` blocks and to the end
/// of the row, which is `room` blocks away.
pub open spec fn run_right(
    tab: Seq<MvField>,
    seen: Seq<bool>,
    i: int,
    m: MvField,
    w: int,
    room: int,
    max: int,
) -> int
    decreases room - w,
{
    if w < max && w < room && joins(tab, seen, i + w, m) {
        run_right(tab, seen, i, m, w + 1, room, max)
    } else {
        w
    }
}

/// All of the `w` blocks from block `i` on join.
pub open spec fn row_joins(tab: Seq<MvField>, seen: Seq<bool>, i: int, m: MvField, w: int) -> bool {
    forall|k: int| i <= k < i + w ==> #[trigger] joins(tab, seen, k, m)
}

/// How many rows of `w` blocks from block `i` down join it, from `h` on, up to `max` rows and to the
/// end of the picture, which is `room` rows away.
pub open spec fn run_down(
    tab: Seq<MvField>,
    seen: Seq<bool>,
    stride: int,
    i: int,
    m: MvField,
    w: int,
    h: int,
    room: int,
    max: int,
) -> int
    decreases room - h,
{
    if h < max && h < room && row_joins(tab, seen, i + h * stride, m, w) {
        run_down(tab, seen, stride, i, m, w, h + 1, room, max)
    } else {
        h
    }
}

/// A quarter of `v`, rounded down.
pub open spec fn quarter_down(v: i16) -> int {
    v as int / 4
}

fn floor_quarter(v: i16) -> (q: i32)
    ensures
        q == quarter_down(v),
        -0x2000 <= q <= 0x2000,
{
    if v >= 0 {
        v as i32 / 4
    } else {
        0 - (0 - v as i32 + 3) / 4
    }
}

/// The row of one list of a rectangle centred at `x`, `y`, where it moves by a whole sample or more.
#[verifier::opaque]
pub open spec fn list_row(frame: i32, m: MvField, l: int, x: int, y: int) -> Option<MvCompact> {
    let used = if l == 0 {
        m.pred_flag & 1 != 0
    } else {
        m.pred_flag & 2 != 0
    };
    let dx = quarter_down(m.mv[l][0]);
    let dy = quarter_down(m.mv[l][1]);
    if !used || (dx == 0 && dy == 0) {
        None
    } else {
        Some(
            MvCompact {
                frame,
                source: if l == 0 {
                    (-(m.ref_idx[0] + 1)) as i32
                } else {
                    (m.ref_idx[1] + 1) as i32
                },
                src_x: x as i16,
                src_y: y as i16,
                dst_x: (x + dx) as i16,
                dst_y: (y + dy) as i16,
            },
        )
    }
}

#[verifier::truncate]
fn make_list_row(frame: i32, m: &MvField, l: usize, x: i64, y: i64) -> (r: Option<MvCompact>)
    requires
        l < 2,
        0 <= x < 0x1_0000_0000,
        0 <= y < 0x1_0000_0000,
    ensures
        r == list_row(frame, *m, l as int, x as int, y as int),
{
    proof {
        reveal(list_row);
    }
    let used = if l == 0 {
        m.pred_flag & 1 != 0
    } else {
        m.pred_flag & 2 != 0
    };
    let dx = floor_quarter(m.mv[l][0]);
    let dy = floor_quarter(m.mv[l][1]);
    if !used || (dx == 0 && dy == 0) {
        return None;
    }
    let source = if l == 0 {
        0 - (m.ref_idx[0] as i32 + 1)
    } else {
        m.ref_idx[1] as i32 + 1
    };
    Some(
        MvCompact {
            frame,
            source,
            src_x: x as i16,
            src_y: y as i16,
            dst_x: (x + dx as i64) as i16,
            dst_y: (y + dy as i64) as i16,
        },
    )
}

/// A row appended, where there is one.
pub open spec fn with_row(out: Seq<MvCompact>, r: Option<MvCompact>) -> Seq<MvCompact> {
    match r {
        Some(r) => out.push(r),
        None => out,
    }
}

/// The rows of a rectangle of `w` by `h` blocks at block column `x` and row `y`.
#[verifier::opaque]
pub open spec fn rect_rows(
    out: Seq<MvCompact>,
    frame: i32,
    m: MvField,
    unit: int,
    x: int,
    y: int,
    w: int,
    h: int,
) -> Seq<MvCompact> {
    let cx = x * unit + w * unit / 2;
    let cy = y * unit + h * unit / 2;
    with_row(with_row(out, list_row(frame, m, 0, cx, cy)), list_row(frame, m, 1, cx, cy))
}

/// Where exporting stands: the blocks dealt with, and the rows.
pub struct ExportV {
    pub seen: Seq<bool>,
    pub out: Seq<MvCompact>,
}

/// Largest side of a rectangle in blocks: it has less than 256 samples, unless a single block has
/// more.
pub open spec fn max_side(unit: int) -> int {
    255int / unit
}

/// Block `i` exported: with the largest rectangle of blocks of the same motion that grows from it to
/// the right and then down, unless it is part of one before it or has no motion. A block of 256
/// samples or more gives no row.
#[verifier::opaque]
pub open spec fn block_step(s: ExportV, tab: Seq<MvField>, g: Geo, frame: i32, i: int) -> ExportV {
    let stride = g.pu_w as int;
    let unit = g.min_pu as int;
    let (x, y) = (i % stride, i / stride);
    let m = tab[i];
    if s.seen[i] {
        s
    } else if m.pred_flag & 3 == 0 {
        ExportV { seen: s.seen.update(i, true), ..s }
    } else {
        let w = run_right(tab, s.seen, i, m, 1, stride - x, max_side(unit));
        let h = run_down(tab, s.seen, stride, i, m, w, 1, g.pu_h - y, max_side(unit));
        ExportV {
            seen: rect(s.seen, stride, x, y, w, h, true),
            out: if unit > 255 {
                s.out
            } else {
                rect_rows(s.out, frame, m, unit, x, y, w, h)
            },
        }
    }
}

/// Blocks `i..` exported.
pub open spec fn export_from(s: ExportV, tab: Seq<MvField>, g: Geo, frame: i32, i: int) -> ExportV
    decreases tab.len() - i,
{
    if i >= tab.len() {
        s
    } else {
        export_from(block_step(s, tab, g, frame, i), tab, g, frame, i + 1)
    }
}

/// A picture with motion `tab` exported behind the rows `out`.
pub open spec fn finished(out: Seq<MvCompact>, tab: Seq<MvField>, g: Geo, frame: i32) -> ExportV {
    export_from(
        ExportV { seen: Seq::new(tab.len(), |i: int| false), out },
        tab,
        g,
        frame,
        0,
    )
}

/// The rows of a picture with motion `tab` appended to `out`.
pub open spec fn exported(out: Seq<MvCompact>, tab: Seq<MvField>, g: Geo, frame: i32) -> Seq<
    MvCompact,
> {
    finished(out, tab, g, frame).out
}

fn does_row_join(tab: &Vec<MvField>, seen: &Vec<bool>, i: usize, m: &MvField, w: usize) -> (r: bool)
    requires
        tab@.len() == seen@.len(),
        i + w <= tab@.len(),
    ensures
        r == row_joins(tab@, seen@, i as int, *m, w as int),
{
    let cells: usize = tab.len();
    let mut k: usize = i;
    while k < i + w
        invariant
            cells == tab@.len(),
            tab@.len() == seen@.len(),
            i <= k <= i + w <= tab@.len(),
            forall|j: int| i <= j < k ==> #[trigger] joins(tab@, seen@, j, *m),
        decreases i + w - k,
    {
        if seen[k] || !is_same_field(&tab[k], m) {
            assert(!joins(tab@, seen@, k as int, *m));
            return false;
        }
        k += 1;
    }
    true
}

fn find_width(
    tab: &Vec<MvField>,
    seen: &Vec<bool>,
    i: usize,
    m: &MvField,
    room: usize,
    max: usize,
) -> (w: usize)
    requires
        tab@.len() == seen@.len(),
        i + room <= tab@.len(),
        1 <= room,
    ensures
        w == run_right(tab@, seen@, i as int, *m, 1, room as int, max as int),
        1 <= w <= room,
        w <= max || w == 1,
{
    let cells: usize = tab.len();
    let mut w: usize = 1;
    while w < max && w < room && !seen[i + w] && is_same_field(&tab[i + w], m)
        invariant
            cells == tab@.len(),
            tab@.len() == seen@.len(),
            i + room <= tab@.len(),
            1 <= w <= room,
            w <= max || w == 1,
            run_right(tab@, seen@, i as int, *m, w as int, room as int, max as int) == run_right(
                tab@,
                seen@,
                i as int,
                *m,
                1,
                room as int,
                max as int,
            ),
        decreases room - w,
    {
        w += 1;
    }
    w
}

fn find_height(
    tab: &Vec<MvField>,
    seen: &Vec<bool>,
    stride: usize,
    rows: usize,
    i: usize,
    x: usize,
    y: usize,
    m: &MvField,
    w: usize,
    max: usize,
) -> (h: usize)
    requires
        tab@.len() == seen@.len(),
        tab@.len() == stride * rows,
        i == y * stride + x,
        x + w <= stride,
        y < rows,
    ensures
        h == run_down(
            tab@,
            seen@,
            stride as int,
            i as int,
            *m,
            w as int,
            1,
            rows - y,
            max as int,
        ),
        1 <= h <= rows - y,
        h <= max || h == 1,
{
    let cells: usize = tab.len();
    let room: usize = rows - y;
    let mut h: usize = 1;
    while h < max && h < room
        invariant
            cells == tab@.len(),
            tab@.len() == seen@.len(),
            tab@.len() == stride * rows,
            i == y * stride + x,
            x + w <= stride,
            y < rows,
            room == rows - y,
            1 <= h <= room,
            h <= max || h == 1,
            run_down(
                tab@,
                seen@,
                stride as int,
                i as int,
                *m,
                w as int,
                h as int,
                room as int,
                max as int,
            ) == run_down(
                tab@,
                seen@,
                stride as int,
                i as int,
                *m,
                w as int,
                1,
                rows - y,
                max as int,
            ),
        decreases room - h,
    {
        proof {
            assert((y + h + 1) * stride <= stride * rows) by (nonlinear_arith)
                requires
                    y + h + 1 <= rows,
                    0 <= stride,
            ;
            assert((y + h + 1) * stride == y * stride + h * stride + stride) by (nonlinear_arith);
            assert(0 <= h * stride && 0 <= y * stride) by (nonlinear_arith)
                requires
                    0 <= h,
                    0 <= y,
                    0 <= stride,
            ;
        }
        if !does_row_join(tab, seen, i + h * stride, m, w) {
            return h;
        }
        h += 1;
    }
    h
}

fn push_list_row(out: &mut Vec<MvCompact>, frame: i32, m: &MvField, l: usize, x: i64, y: i64)
    requires
        l < 2,
        0 <= x < 0x1_0000_0000,
        0 <= y < 0x1_0000_0000,
    ensures
        final(out)@ == with_row(old(out)@, list_row(frame, *m, l as int, x as int, y as int)),
{
    match make_list_row(frame, m, l, x, y) {
        Some(r) => out.push(r),
        None => {},
    }
}

fn push_rect(
    out: &mut Vec<MvCompact>,
    frame: i32,
    m: &MvField,
    g: &Geo,
    x: usize,
    y: usize,
    w: usize,
    h: usize,
)
    requires
        g.wf(),
        x < g.pu_w,
        y < g.pu_h,
        1 <= w <= max_side(g.min_pu as int),
        1 <= h <= max_side(g.min_pu as int),
    ensures
        final(out)@ == rect_rows(
            old(out)@,
            frame,
            *m,
            g.min_pu as int,
            x as int,
            y as int,
            w as int,
            h as int,
        ),
{
    proof {
        reveal(rect_rows);
        let u = g.min_pu as int;
        let (pw, ph) = (g.w as int / u, g.h as int / u);
        vstd::arithmetic::div_mod::lemma_fundamental_div_mod(g.w as int, u);
        vstd::arithmetic::div_mod::lemma_fundamental_div_mod(g.h as int, u);
        assert(0 <= x * u < g.w) by (nonlinear_arith)
            requires
                0 <= x < pw,
                0 < u,
                g.w == u * pw + g.w as int % u,
                0 <= g.w as int % u,
        ;
        assert(0 <= y * u < g.h) by (nonlinear_arith)
            requires
                0 <= y < ph,
                0 < u,
                g.h == u * ph + g.h as int % u,
                0 <= g.h as int % u,
        ;
        let max = max_side(u);
        vstd::arithmetic::div_mod::lemma_fundamental_div_mod(255, u);
        assert(0 <= w * u <= 255 && 0 <= h * u <= 255) by (nonlinear_arith)
            requires
                0 <= w <= max,
                0 <= h <= max,
                0 < u,
                255 == u * max + 255int % u,
                0 <= 255int % u,
        ;
    }
    let u = g.min_pu as i64;
    let cx: i64 = x as i64 * u + w as i64 * u / 2;
    let cy: i64 = y as i64 * u + h as i64 * u / 2;
    push_list_row(out, frame, m, 0, cx, cy);
    push_list_row(out, frame, m, 1, cx, cy);
}

fn export_block(
    tab: &Vec<MvField>,
    seen: &mut Vec<bool>,
    out: &mut Vec<MvCompact>,
    g: &Geo,
    frame: i32,
    i: usize,
)
    requires
        g.wf(),
        tab@.len() == g.pu_w * g.pu_h,
        old(seen)@.len() == tab@.len(),
        i < tab@.len(),
    ensures
        (ExportV { seen: final(seen)@, out: final(out)@ }) == block_step(
            ExportV { seen: old(seen)@, out: old(out)@ },
            tab@,
            *g,
            frame,
            i as int,
        ),
        final(seen)@.len() == tab@.len(),
{
    proof {
        reveal(block_step);
        lemma_place(i as int, g.pu_w as int, g.pu_h as int);
    }
    if seen[i] {
        return;
    }
    let m = tab[i];
    if m.pred_flag & 3 == 0 {
        seen[i] = true;
        return;
    }
    let stride = g.pu_w;
    let x: usize = i % stride;
    let y: usize = i / stride;
    let max: usize = (255 / g.min_pu) as usize;
    proof {
        assert((y + 1) * stride <= stride * g.pu_h) by (nonlinear_arith)
            requires
                y + 1 <= g.pu_h,
                0 <= stride,
        ;
        assert((y + 1) * stride == y * stride + stride) by (nonlinear_arith);
    }
    let w = find_width(tab, seen, i, &m, stride - x, max);
    let h = find_height(tab, seen, stride, g.pu_h, i, x, y, &m, w, max);
    proof {
        assert((y + h) * stride <= stride * g.pu_h) by (nonlinear_arith)
            requires
                y + h <= g.pu_h,
                0 <= stride,
        ;
    }
    fill_rect(seen, stride, x, y, w, h, true);
    if g.min_pu <= 255 {
        proof {
            let u = g.min_pu as int;
            assert(255int / u >= 1) by (nonlinear_arith)
                requires
                    0 < u <= 255,
            ;
        }
        push_rect(out, frame, &m, g, x, y, w, h);
    }
}

/// Appends the motion vectors of a picture: blocks of the same motion are joined to rectangles, and
/// each list in use gives a row from the centre of the rectangle to where it moves, unless it does
/// not move.
pub fn export_frame_mvs(tab: &Vec<MvField>, g: &Geo, frame: i32, out: &mut Vec<MvCompact>)
    requires
        g.wf(),
        tab@.len() == g.pu_w * g.pu_h,
    ensures
        final(out)@ == exported(old(out)@, tab@, *g, frame),
{
    let n: usize = tab.len();
    let mut seen = new_grid(n, false);
    let ghost start = ExportV { seen: Seq::new(tab@.len(), |i: int| false), out: out@ };
    assert(seen@ =~= start.seen);
    let mut i: usize = 0;
    while i < n
        invariant
            g.wf(),
            n == tab@.len(),
            tab@.len() == g.pu_w * g.pu_h,
            seen@.len() == tab@.len(),
            i <= n,
            export_from(ExportV { seen: seen@, out: out@ }, tab@, *g, frame, i as int)
                == export_from(start, tab@, *g, frame, 0),
        decreases n - i,
    {
        export_block(tab, &mut seen, out, g, frame, i);
        i += 1;
    }
}

// ---------------------------------------------------------------------------
// Laws

/// How far a rectangle reaches to the right.
proof fn lemma_run_right(
    tab: Seq<MvField>,
    seen: Seq<bool>,
    i: int,
    m: MvField,
    w: int,
    room: int,
    max: int,
)
    requires
        1 <= w <= max || w == 1,
        w <= room,
        forall|k: int| i <= k < i + w ==> #[trigger] joins(tab, seen, k, m),
    ensures
        ({
            let r = run_right(tab, seen, i, m, w, room, max);
            &&& w <= r <= room
            &&& r <= max || r == 1
            &&& row_joins(tab, seen, i, m, r)
        }),
    decreases room - w,
{
    if w < max && w < room && joins(tab, seen, i + w, m) {
        lemma_run_right(tab, seen, i, m, w + 1, room, max);
    }
}

/// How far a rectangle reaches down.
proof fn lemma_run_down(
    tab: Seq<MvField>,
    seen: Seq<bool>,
    stride: int,
    i: int,
    m: MvField,
    w: int,
    h: int,
    room: int,
    max: int,
)
    requires
        1 <= h <= max || h == 1,
        h <= room,
        forall|k: int| 0 <= k < h ==> row_joins(tab, seen, #[trigger] (i + k * stride), m, w),
    ensures
        ({
            let r = run_down(tab, seen, stride, i, m, w, h, room, max);
            &&& h <= r <= room
            &&& r <= max || r == 1
            &&& forall|k: int|
                0 <= k < r ==> row_joins(tab, seen, #[trigger] (i + k * stride), m, w)
        }),
    decreases room - h,
{
    if h < max && h < room && row_joins(tab, seen, i + h * stride, m, w) {
        lemma_run_down(tab, seen, stride, i, m, w, h + 1, room, max);
    }
}

/// The rectangle that is exported at block `i`: its width and height in blocks.
pub open spec fn grown(s: ExportV, tab: Seq<MvField>, g: Geo, i: int) -> (int, int) {
    let stride = g.pu_w as int;
    let max = max_side(g.min_pu as int);
    let w = run_right(tab, s.seen, i, tab[i], 1, stride - i % stride, max);
    (w, run_down(tab, s.seen, stride, i, tab[i], w, 1, g.pu_h - i / stride, max))
}

/// The rectangle that is exported at a block lies inside the picture and has sides of less than 256
/// samples, unless a single block has more; all of its blocks have the motion of the first, and none
/// has been exported before.
pub proof fn law_rectangles_are_uniform(s: ExportV, tab: Seq<MvField>, g: Geo, i: int)
    requires
        g.wf(),
        tab.len() == g.pu_w * g.pu_h,
        s.seen.len() == tab.len(),
        0 <= i < tab.len(),
        !s.seen[i],
    ensures
        ({
            let stride = g.pu_w as int;
            let (x, y) = (i % stride, i / stride);
            let (w, h) = grown(s, tab, g, i);
            &&& 1 <= w && 1 <= h
            &&& g.min_pu <= 255 ==> w * g.min_pu <= 255 && h * g.min_pu <= 255
            &&& x + w <= g.pu_w && y + h <= g.pu_h
            &&& forall|j: int|
                0 <= j < tab.len() && in_rect(j, stride, x, y, w, h) ==> #[trigger] joins(
                    tab,
                    s.seen,
                    j,
                    tab[i],
                )
        }),
{
    let stride = g.pu_w as int;
    let (x, y) = (i % stride, i / stride);
    let m = tab[i];
    let u = g.min_pu as int;
    let max = max_side(u);
    lemma_place(i, g.pu_w as int, g.pu_h as int);
    assert(joins(tab, s.seen, i, m));
    lemma_run_right(tab, s.seen, i, m, 1, stride - x, max);
    let (w, h) = grown(s, tab, g, i);
    assert forall|k: int| 0 <= k < 1 implies row_joins(
        tab,
        s.seen,
        #[trigger] (i + k * stride),
        m,
        w,
    ) by {
        assert(i + k * stride == i) by (nonlinear_arith)
            requires
                k == 0,
        ;
    }
    lemma_run_down(tab, s.seen, stride, i, m, w, 1, g.pu_h - y, max);
    if u <= 255 {
        assert(255int / u >= 1) by (nonlinear_arith)
            requires
                0 < u <= 255,
        ;
        vstd::arithmetic::div_mod::lemma_fundamental_div_mod(255, u);
        assert(w * u <= 255 && h * u <= 255) by (nonlinear_arith)
            requires
                0 <= w <= max,
                0 <= h <= max,
                0 < u,
                255 == u * max + 255int % u,
                0 <= 255int % u,
        ;
    }
    assert forall|j: int| 0 <= j < tab.len() && in_rect(j, stride, x, y, w, h) implies #[trigger] joins(
        tab,
        s.seen,
        j,
        m,
    ) by {
        lemma_place(j, g.pu_w as int, g.pu_h as int);
        let k = j / stride - y;
        assert(row_joins(tab, s.seen, i + k * stride, m, w));
        assert((j / stride) * stride == y * stride + k * stride) by (nonlinear_arith)
            requires
                k == j / stride - y,
        ;
    }
}

/// Exporting a block marks it, keeps what was marked, and adds rows of the picture alone.
proof fn lemma_block_step(s: ExportV, tab: Seq<MvField>, g: Geo, frame: i32, i: int)
    requires
        g.wf(),
        tab.len() == g.pu_w * g.pu_h,
        s.seen.len() == tab.len(),
        0 <= i < tab.len(),
    ensures
        ({
            let t = block_step(s, tab, g, frame, i);
            &&& t.seen.len() == tab.len()
            &&& t.seen[i]
            &&& forall|j: int| 0 <= j < tab.len() && s.seen[j] ==> #[trigger] t.seen[j]
        }),
{
    reveal(block_step);
    if !s.seen[i] && tab[i].pred_flag & 3 != 0 {
        law_rectangles_are_uniform(s, tab, g, i);
    }
}

proof fn lemma_all_seen(s: ExportV, tab: Seq<MvField>, g: Geo, frame: i32, i: int)
    requires
        g.wf(),
        tab.len() == g.pu_w * g.pu_h,
        s.seen.len() == tab.len(),
        0 <= i <= tab.len(),
        forall|j: int| 0 <= j < i ==> #[trigger] s.seen[j],
    ensures
        forall|j: int|
            0 <= j < tab.len() ==> #[trigger] export_from(s, tab, g, frame, i).seen[j],
    decreases tab.len() - i,
{
    if i < tab.len() {
        lemma_block_step(s, tab, g, frame, i);
        let t = block_step(s, tab, g, frame, i);
        lemma_all_seen(t, tab, g, frame, i + 1);
        assert(export_from(s, tab, g, frame, i) == export_from(t, tab, g, frame, i + 1));
    } else {
        assert(export_from(s, tab, g, frame, i) == s);
    }
}

/// In the end every block has been dealt with. As a rectangle takes in only blocks that were not,
/// each block with motion is in just one of them.
pub proof fn law_every_block_is_exported(out: Seq<MvCompact>, tab: Seq<MvField>, g: Geo, frame: i32)
    requires
        g.wf(),
        tab.len() == g.pu_w * g.pu_h,
    ensures
        forall|j: int|
            0 <= j < tab.len() ==> #[trigger] finished(out, tab, g, frame).seen[j],
{
    lemma_all_seen(
        ExportV { seen: Seq::new(tab.len(), |i: int| false), out },
        tab,
        g,
        frame,
        0,
    );
}

/// A row of picture `frame` that moves.
pub open spec fn moves(r: MvCompact, frame: i32) -> bool {
    r.frame == frame && !(r.src_x == r.dst_x && r.src_y == r.dst_y)
}

/// `out` with rows of picture `frame` that move behind it.
pub open spec fn extended(out: Seq<MvCompact>, more: Seq<MvCompact>, frame: i32) -> bool {
    &&& out.len() <= more.len()
    &&& more.take(out.len() as int) == out
    &&& forall|k: int| out.len() <= k < more.len() ==> moves(#[trigger] more[k], frame)
}

proof fn lemma_rect_rows(
    out: Seq<MvCompact>,
    frame: i32,
    m: MvField,
    u: int,
    x: int,
    y: int,
    w: int,
    h: int,
)
    requires
        0 <= x * u + w * u / 2 < 0x6000,
        0 <= y * u + h * u / 2 < 0x6000,
    ensures
        extended(out, rect_rows(out, frame, m, u, x, y, w, h), frame),
{
    reveal(rect_rows);
    reveal(list_row);
    let more = rect_rows(out, frame, m, u, x, y, w, h);
    assert(more.take(out.len() as int) =~= out);
}

proof fn lemma_extends(s: ExportV, tab: Seq<MvField>, g: Geo, frame: i32, i: int)
    requires
        g.wf(),
        g.w < 0x5F00,
        g.h < 0x5F00,
        tab.len() == g.pu_w * g.pu_h,
        s.seen.len() == tab.len(),
        0 <= i <= tab.len(),
    ensures
        extended(s.out, export_from(s, tab, g, frame, i).out, frame),
    decreases tab.len() - i,
{
    if i < tab.len() {
        let t = block_step(s, tab, g, frame, i);
        lemma_block_step(s, tab, g, frame, i);
        assert(extended(s.out, t.out, frame)) by {
            reveal(block_step);
            if !s.seen[i] && tab[i].pred_flag & 3 != 0 && g.min_pu <= 255 {
                law_rectangles_are_uniform(s, tab, g, i);
                let u = g.min_pu as int;
                let (x, y) = (i % g.pu_w as int, i / g.pu_w as int);
                let (w, h) = grown(s, tab, g, i);
                lemma_place(i, g.pu_w as int, g.pu_h as int);
                lemma_inside(g.w as int, u, x);
                lemma_inside(g.h as int, u, y);
                assert(0 <= w * u && 0 <= h * u) by (nonlinear_arith)
                    requires
                        0 <= w,
                        0 <= h,
                        0 < u,
                ;
                lemma_rect_rows(s.out, frame, tab[i], u, x, y, w, h);
            } else {
                assert(s.out.take(s.out.len() as int) =~= s.out);
            }
        }
        lemma_extends(t, tab, g, frame, i + 1);
        let all = export_from(s, tab, g, frame, i).out;
        assert(all.take(s.out.len() as int) =~= all.take(t.out.len() as int).take(
            s.out.len() as int,
        ));
        assert forall|k: int| s.out.len() <= k < all.len() implies moves(
            #[trigger] all[k],
            frame,
        ) by {
            if k < t.out.len() {
                assert(all.take(t.out.len() as int)[k] == t.out[k]);
            }
        }
    } else {
        assert(s.out.take(s.out.len() as int) =~= s.out);
    }
}

/// Where a block of `u` samples starts.
proof fn lemma_inside(n: int, u: int, x: int)
    requires
        0 < u,
        0 <= x < n / u,
    ensures
        0 <= x * u < n,
{
    vstd::arithmetic::div_mod::lemma_fundamental_div_mod(n, u);
    assert(0 <= n % u) by (nonlinear_arith)
        requires
            0 < u,
    ;
    assert(0 <= x * u < n) by (nonlinear_arith)
        requires
            0 <= x < n / u,
            0 < u,
            n == u * (n / u) + n % u,
            0 <= n % u,
    ;
}

/// Exporting appends to the rows before, and every row that it appends is one of the picture that
/// moves by a sample or more. Coordinates of larger pictures do not fit in a row.
pub proof fn law_exported_rows_move(out: Seq<MvCompact>, tab: Seq<MvField>, g: Geo, frame: i32)
    requires
        g.wf(),
        g.w < 0x5F00,
        g.h < 0x5F00,
        tab.len() == g.pu_w * g.pu_h,
    ensures
        extended(out, exported(out, tab, g, frame), frame),
{
    lemma_extends(
        ExportV { seen: Seq::new(tab.len(), |i: int| false), out },
        tab,
        g,
        frame,
        0,
    );
}

} // verus!
