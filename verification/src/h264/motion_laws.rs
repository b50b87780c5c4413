//! What the vectors of macroblocks are, in terms of the blocks around them.

use super::contexts::Cab;
use super::grids::{mb_rect, predict, scan_of, GridsV, Nb, Seg, PART_NA};
use super::mb_b::{
    b_motion, b_skip, direct, direct_from, direct_list, direct_mb, direct_quadrant,
    direct_quadrants, sub_direct, ColV, DirectV,
};
use super::mb_cavlc::p_skip;
use super::params::SliceHeader;
use crate::grid::{lemma_cell, lemma_place};
use crate::motion::{zero_mv, Mv, Row};
use vstd::prelude::*;

verus! {

// ---------------------------------------------------------------------------
// Around a block

/// Reference and vector kept of the 4x4 block in column `gx` and row `gy` of the picture.
pub open spec fn kept(g: GridsV, l: int, gx: int, gy: int) -> Nb {
    let i = gy * (4 * g.mb_w) + gx;
    if l == 0 {
        Nb { refi: g.l0.refi[i], mv: g.l0.mv[i] }
    } else {
        Nb { refi: g.l1.refi[i], mv: g.l1.mv[i] }
    }
}

/// A macroblock was decoded in slice `sid`.
pub open spec fn done(g: GridsV, m: int, sid: i32) -> bool {
    g.decoded[m] && g.slice_id[m] == sid
}

/// Column of the first block of a macroblock.
pub open spec fn col_of(g: GridsV, mb: int) -> int {
    4 * (mb % g.mb_w)
}

/// Row of the first block of a macroblock.
pub open spec fn row_of(g: GridsV, mb: int) -> int {
    4 * (mb / g.mb_w)
}

/// What is to the left of the block at `bx`, `by` of a macroblock: the same macroblock, or the one
/// before it in the same row of the same slice.
pub open spec fn at_left(g: GridsV, l: int, mb: int, bx: int, by: int, sid: i32) -> Option<Nb> {
    if bx > 0 || (mb % g.mb_w > 0 && done(g, mb - 1, sid)) {
        Some(kept(g, l, col_of(g, mb) + bx - 1, row_of(g, mb) + by))
    } else {
        None
    }
}

/// What is above the block at `bx`, `by`.
pub open spec fn at_top(g: GridsV, l: int, mb: int, bx: int, by: int, sid: i32) -> Option<Nb> {
    if by > 0 || (mb / g.mb_w > 0 && done(g, mb - g.mb_w, sid)) {
        Some(kept(g, l, col_of(g, mb) + bx, row_of(g, mb) + by - 1))
    } else {
        None
    }
}

/// A block of a macroblock is coded before another: in an earlier quadrant, or earlier in the same
/// one. Quadrants, and blocks in a quadrant, come row by row.
pub open spec fn coded_before(x1: int, y1: int, x2: int, y2: int) -> bool {
    let (q1, q2) = (x1 / 2 + 2 * (y1 / 2), x2 / 2 + 2 * (y2 / 2));
    q1 < q2 || (q1 == q2 && x1 % 2 + 2 * (y1 % 2) < x2 % 2 + 2 * (y2 % 2))
}

/// What is to the right of the row above a partition `pw` blocks wide: in the macroblock above, in the
/// one right of that, or in the same one where it is coded before. Right of the macroblock there is
/// nothing yet.
pub open spec fn at_top_right(
    g: GridsV,
    l: int,
    mb: int,
    bx: int,
    by: int,
    pw: int,
    sid: i32,
) -> Option<Nb> {
    let there = if by > 0 {
        bx + pw < 4 && coded_before(bx + pw, by - 1, bx, by)
    } else if bx + pw < 4 {
        mb / g.mb_w > 0 && done(g, mb - g.mb_w, sid)
    } else {
        mb / g.mb_w > 0 && mb % g.mb_w + 1 < g.mb_w && done(g, mb - g.mb_w + 1, sid)
    };
    let n = kept(g, l, col_of(g, mb) + bx + pw, row_of(g, mb) + by - 1);
    if there && n.refi != PART_NA {
        Some(n)
    } else {
        None
    }
}

/// What is above left of the block at `bx`, `by`.
pub open spec fn at_top_left(g: GridsV, l: int, mb: int, bx: int, by: int, sid: i32) -> Option<Nb> {
    let there = if bx > 0 && by > 0 {
        true
    } else if bx > 0 {
        mb / g.mb_w > 0 && done(g, mb - g.mb_w, sid)
    } else if by > 0 {
        mb % g.mb_w > 0 && done(g, mb - 1, sid)
    } else {
        mb / g.mb_w > 0 && mb % g.mb_w > 0 && done(g, mb - g.mb_w - 1, sid)
    };
    if there {
        Some(kept(g, l, col_of(g, mb) + bx - 1, row_of(g, mb) + by - 1))
    } else {
        None
    }
}

/// The diagonal neighbour of a partition: above right, or else above left.
pub open spec fn at_diagonal(
    g: GridsV,
    l: int,
    mb: int,
    bx: int,
    by: int,
    pw: int,
    sid: i32,
) -> Option<Nb> {
    let right = at_top_right(g, l, mb, bx, by, pw, sid);
    if right is Some {
        right
    } else {
        at_top_left(g, l, mb, bx, by, sid)
    }
}

/// A neighbour as prediction sees it: one that is missing has no reference and does not move.
pub open spec fn seen(n: Option<Nb>) -> Nb {
    match n {
        Some(n) => n,
        None => Nb { refi: PART_NA, mv: zero_mv() },
    }
}

/// A macroblock, and a partition in it.
pub open spec fn place(g: GridsV, mb: int, bx: int, by: int, pw: int) -> bool {
    &&& g.wf()
    &&& 0 <= mb < g.mbs()
    &&& 0 <= bx && 0 < pw && bx + pw <= 4
    &&& 0 <= by < 4
}

pub proof fn lemma_mb(g: GridsV, mb: int)
    requires
        g.wf(),
        0 <= mb < g.mbs(),
    ensures
        0 < g.mb_w,
        0 <= mb % g.mb_w < g.mb_w,
        0 <= mb / g.mb_w < g.mb_h,
        mb == (mb / g.mb_w) * g.mb_w + mb % g.mb_w,
        (mb / g.mb_w - 1) * g.mb_w == (mb / g.mb_w) * g.mb_w - g.mb_w,
        mb / g.mb_w > 0 ==> g.mb_w <= mb - mb % g.mb_w,
{
    lemma_place(mb, g.mb_w, g.mb_h);
    let (y, w) = (mb / g.mb_w, g.mb_w);
    assert((y - 1) * w == y * w - w) by (nonlinear_arith);
    assert(y > 0 ==> y * w >= w) by (nonlinear_arith)
        requires
            w > 0,
    ;
}

/// Whether the block `dx`, `dy` from the first one of a macroblock can be read: it lies in the macroblock
/// itself or in one around it.
pub proof fn lemma_avail(g: GridsV, mb: int, dx: int, dy: int, scan: int, sid: i32)
    requires
        g.wf(),
        0 <= mb < g.mbs(),
        -1 <= dx <= 4,
        -1 <= dy < 4,
    ensures
        ({
            let (mx, my, w) = (mb % g.mb_w, mb / g.mb_w, g.mb_w);
            g.avail(4 * mx + dx, 4 * my + dy, mb, scan, sid) == if dy >= 0 {
                if dx < 0 {
                    mx > 0 && done(g, mb - 1, sid)
                } else {
                    dx < 4 && scan_of(dx, dy) < scan
                }
            } else {
                my > 0 && if dx < 0 {
                    mx > 0 && done(g, mb - w - 1, sid)
                } else if dx < 4 {
                    done(g, mb - w, sid)
                } else {
                    mx + 1 < w && done(g, mb - w + 1, sid)
                }
            }
        }),
{
    reveal(GridsV::avail);
    lemma_mb(g, mb);
    let (mx, my, w) = (mb % g.mb_w, mb / g.mb_w, g.mb_w);
    let (gx, gy) = (4 * mx + dx, 4 * my + dy);
    let cx = if dx < 0 {
        mx - 1
    } else if dx < 4 {
        mx
    } else {
        mx + 1
    };
    assert(gx / 4 == cx);
    assert(0 <= dx < 4 ==> gx % 4 == dx);
    if dy < 0 {
        assert(gy / 4 == my - 1);
        assert(gy / 4 * w == my * w - w);
    } else {
        assert(gy / 4 == my);
        assert(gy % 4 == dy);
    }
}

pub proof fn lemma_scan(x1: int, y1: int, x2: int, y2: int)
    requires
        0 <= x1 < 4,
        0 <= y1 < 4,
        0 <= x2 < 4,
        0 <= y2 < 4,
    ensures
        scan_of(x1, y1) < scan_of(x2, y2) <==> coded_before(x1, y1, x2, y2),
        x1 + 1 == x2 && y1 == y2 ==> coded_before(x1, y1, x2, y2),
        x1 == x2 && y1 + 1 == y2 ==> coded_before(x1, y1, x2, y2),
        x1 + 1 == x2 && y1 + 1 == y2 ==> coded_before(x1, y1, x2, y2),
{
}

/// What prediction reads at a place that is there or not.
proof fn lemma_nb(g: GridsV, l: int, mb: int, dx: int, dy: int, scan: int, sid: i32)
    requires
        g.wf(),
        0 <= mb < g.mbs(),
        0 <= l < 2,
        -1 <= dx <= 4,
        -1 <= dy < 4,
    ensures
        ({
            let (gx, gy) = (col_of(g, mb) + dx, row_of(g, mb) + dy);
            g.nb(l, gx, gy, mb, scan, sid) == if g.avail(gx, gy, mb, scan, sid) {
                kept(g, l, gx, gy)
            } else {
                Nb { refi: PART_NA, mv: zero_mv() }
            }
        }),
{
    reveal(GridsV::nb);
}

/// The neighbours that prediction reads are those next to a partition, as far as they are decoded
/// before it in the same slice.
pub proof fn law_neighbours(g: GridsV, l: int, mb: int, bx: int, by: int, pw: int, sid: i32)
    requires
        place(g, mb, bx, by, pw),
        0 <= l < 2,
    ensures
        g.left(l, mb, bx, by, sid) == seen(at_left(g, l, mb, bx, by, sid)),
        g.top(l, mb, bx, by, sid) == seen(at_top(g, l, mb, bx, by, sid)),
        g.diag(l, mb, bx, by, pw, sid) == seen(at_diagonal(g, l, mb, bx, by, pw, sid)),
{
    reveal(GridsV::left);
    reveal(GridsV::top);
    reveal(GridsV::diag);
    let scan = scan_of(bx, by);
    lemma_nb(g, l, mb, bx - 1, by, scan, sid);
    lemma_avail(g, mb, bx - 1, by, scan, sid);
    lemma_nb(g, l, mb, bx, by - 1, scan, sid);
    lemma_avail(g, mb, bx, by - 1, scan, sid);
    lemma_nb(g, l, mb, bx + pw, by - 1, scan, sid);
    lemma_avail(g, mb, bx + pw, by - 1, scan, sid);
    lemma_nb(g, l, mb, bx - 1, by - 1, scan, sid);
    lemma_avail(g, mb, bx - 1, by - 1, scan, sid);
    if bx > 0 {
        lemma_scan(bx - 1, by, bx, by);
    }
    if by > 0 {
        lemma_scan(bx, by - 1, bx, by);
    }
    if bx > 0 && by > 0 {
        lemma_scan(bx - 1, by - 1, bx, by);
    }
    if by > 0 && bx + pw < 4 {
        lemma_scan(bx + pw, by - 1, bx, by);
    }
}

// ---------------------------------------------------------------------------
// Prediction

/// `m` is the middle one of three numbers: two of them are at most it, and two at least it.
pub open spec fn is_middle(m: i32, a: i32, b: i32, c: i32) -> bool {
    &&& m == a || m == b || m == c
    &&& (a <= m && b <= m) || (a <= m && c <= m) || (b <= m && c <= m)
    &&& (a >= m && b >= m) || (a >= m && c >= m) || (b >= m && c >= m)
}

/// `v` is the middle one of three vectors in each component.
pub open spec fn is_middle_mv(v: Mv, a: Mv, b: Mv, c: Mv) -> bool {
    is_middle(v.x, a.x, b.x, c.x) && is_middle(v.y, a.y, b.y, c.y)
}

/// A neighbour is there and has reference `refi`.
pub open spec fn refers(n: Option<Nb>, refi: i32) -> bool {
    n is Some && n->0.refi == refi
}

/// A vector is the one that the neighbours of a partition with reference `refi` predict: that of the
/// only one that has the same reference; that of the left one where there is nothing above; and else
/// the one in the middle, where a neighbour that is missing does not move.
pub open spec fn is_predicted(
    v: Mv,
    left: Option<Nb>,
    top: Option<Nb>,
    diagonal: Option<Nb>,
    refi: i32,
) -> bool {
    let (a, b, c) = (refers(left, refi), refers(top, refi), refers(diagonal, refi));
    &&& a && !b && !c ==> v == left->0.mv
    &&& !a && b && !c ==> v == top->0.mv
    &&& !a && !b && c ==> v == diagonal->0.mv
    &&& left is Some && top is None && diagonal is None ==> v == left->0.mv
    &&& (a && b) || (a && c) || (b && c) || (!a && !b && !c && (left is None || top is Some
        || diagonal is Some)) ==> is_middle_mv(v, seen(left).mv, seen(top).mv, seen(diagonal).mv)
}

/// Every neighbour that is there has been given a reference, or none.
pub open spec fn settled(n: Option<Nb>) -> bool {
    n is Some ==> n->0.refi != PART_NA
}

proof fn lemma_predict(left: Option<Nb>, top: Option<Nb>, diagonal: Option<Nb>, refi: i32)
    requires
        refi >= 0,
        settled(left),
        settled(top),
        settled(diagonal),
    ensures
        is_predicted(predict(seen(left), seen(top), seen(diagonal), refi), left, top, diagonal, refi),
{
    reveal(predict);
}

/// The neighbours of a partition that are there have been given references.
pub open spec fn all_settled(g: GridsV, l: int, mb: int, bx: int, by: int, pw: int, sid: i32) -> bool {
    &&& settled(at_left(g, l, mb, bx, by, sid))
    &&& settled(at_top(g, l, mb, bx, by, sid))
    &&& settled(at_diagonal(g, l, mb, bx, by, pw, sid))
}

/// A partition is predicted from the blocks to its left, above it and at its diagonal.
pub proof fn law_partition_is_predicted(
    g: GridsV,
    l: int,
    mb: int,
    bx: int,
    by: int,
    pw: int,
    refi: i32,
    sid: i32,
)
    requires
        place(g, mb, bx, by, pw),
        0 <= l < 2,
        0 <= refi,
        all_settled(g, l, mb, bx, by, pw, sid),
    ensures
        is_predicted(
            g.pred(l, mb, bx, by, pw, refi, sid),
            at_left(g, l, mb, bx, by, sid),
            at_top(g, l, mb, bx, by, sid),
            at_diagonal(g, l, mb, bx, by, pw, sid),
            refi,
        ),
{
    reveal(GridsV::pred);
    law_neighbours(g, l, mb, bx, by, pw, sid);
    lemma_predict(
        at_left(g, l, mb, bx, by, sid),
        at_top(g, l, mb, bx, by, sid),
        at_diagonal(g, l, mb, bx, by, pw, sid),
        refi,
    );
}

// ---------------------------------------------------------------------------
// Storing

/// The block in column `gx` and row `gy` belongs to the `w` by `h` blocks from `bx`, `by` on of a
/// macroblock.
pub open spec fn in_part(g: GridsV, mb: int, bx: int, by: int, w: int, h: int, gx: int, gy: int) -> bool {
    &&& col_of(g, mb) + bx <= gx < col_of(g, mb) + bx + w
    &&& row_of(g, mb) + by <= gy < row_of(g, mb) + by + h
}

/// A block of the picture.
pub open spec fn in_picture(g: GridsV, gx: int, gy: int) -> bool {
    0 <= gx < 4 * g.mb_w && 0 <= gy < 4 * g.mb_h
}

/// Storing the motion of a partition changes the motion of its blocks in its list, and of no others.
pub proof fn law_storing_is_local(
    g: GridsV,
    l: int,
    mb: int,
    bx: int,
    by: int,
    w: int,
    h: int,
    mv: Mv,
    refi: i32,
    k: int,
    gx: int,
    gy: int,
)
    requires
        g.wf(),
        0 <= l < 2,
        0 <= k < 2,
        in_picture(g, gx, gy),
    ensures
        kept(g.fill(l, mb, bx, by, w, h, mv, refi), k, gx, gy) == if k == l && in_part(
            g,
            mb,
            bx,
            by,
            w,
            h,
            gx,
            gy,
        ) {
            Nb { refi, mv }
        } else {
            kept(g, k, gx, gy)
        },
{
    reveal(GridsV::fill);
    reveal(mb_rect);
    lemma_cell(gx, gy, 4 * g.mb_w, 4 * g.mb_h);
}

// ---------------------------------------------------------------------------
// Skipped P macroblocks

/// All blocks of a macroblock have the same motion in a list.
pub open spec fn whole_is(g: GridsV, l: int, mb: int, n: Nb) -> bool {
    forall|gx: int, gy: int|
        in_part(g, mb, 0, 0, 4, 4, gx, gy) ==> #[trigger] kept(g, l, gx, gy) == n
}

/// The motion of all other macroblocks is the same.
pub open spec fn others_stay(before: GridsV, after: GridsV, mb: int) -> bool {
    forall|k: int, gx: int, gy: int|
        0 <= k < 2 && in_picture(before, gx, gy) && !in_part(before, mb, 0, 0, 4, 4, gx, gy)
            ==> #[trigger] kept(after, k, gx, gy) == kept(before, k, gx, gy)
}

/// A neighbour stands still at the first reference.
pub open spec fn stands_still(n: Option<Nb>) -> bool {
    refers(n, 0) && n->0.mv.x == 0 && n->0.mv.y == 0
}

/// A skipped P macroblock has the first reference. It stands still where the left or the top neighbour
/// is missing or stands still, and else it has the vector that is predicted for an undivided
/// macroblock with that reference.
pub proof fn law_skipped_macroblock(g: GridsV, mb: int, sid: i32)
    requires
        place(g, mb, 0, 0, 4),
        all_settled(g, 0, mb, 0, 0, 4, sid),
    ensures
        ({
            let r = p_skip(g, mb, sid);
            let v = kept(r, 0, col_of(g, mb), row_of(g, mb)).mv;
            let (left, top) = (at_left(g, 0, mb, 0, 0, sid), at_top(g, 0, mb, 0, 0, sid));
            let diagonal = at_diagonal(g, 0, mb, 0, 0, 4, sid);
            &&& whole_is(r, 0, mb, Nb { refi: 0, mv: v })
            &&& others_stay(g, r, mb)
            &&& if left is None || top is None || stands_still(left) || stands_still(top) {
                v == zero_mv()
            } else {
                is_predicted(v, left, top, diagonal, 0)
            }
        }),
{
    reveal(p_skip);
    reveal(GridsV::put_slice);
    reveal(GridsV::put_seg);
    reveal(GridsV::put_decoded);
    reveal(GridsV::pred_skip);
    lemma_mb(g, mb);
    let s = g.put_slice(mb, sid);
    assert(forall|k: int, gx: int, gy: int| kept(s, k, gx, gy) == kept(g, k, gx, gy));
    assert(forall|m: int|
        0 <= m < g.mbs() && m != mb ==> #[trigger] done(s, m, sid) == done(g, m, sid));
    law_neighbours(s, 0, mb, 0, 0, 4, sid);
    assert(at_left(s, 0, mb, 0, 0, sid) == at_left(g, 0, mb, 0, 0, sid));
    assert(at_top(s, 0, mb, 0, 0, sid) == at_top(g, 0, mb, 0, 0, sid));
    assert(at_diagonal(s, 0, mb, 0, 0, 4, sid) == at_diagonal(g, 0, mb, 0, 0, 4, sid));
    lemma_predict(
        at_left(g, 0, mb, 0, 0, sid),
        at_top(g, 0, mb, 0, 0, sid),
        at_diagonal(g, 0, mb, 0, 0, 4, sid),
        0,
    );
    let v = s.pred_skip(mb, sid);
    let f = s.fill(0, mb, 0, 0, 4, 4, v, 0);
    let r = p_skip(g, mb, sid);
    assert(r.mb_w == g.mb_w && r.mb_h == g.mb_h) by {
        reveal(GridsV::fill);
    }
    assert forall|k: int, gx: int, gy: int| 0 <= k < 2 && in_picture(g, gx, gy) implies kept(
        r,
        k,
        gx,
        gy,
    ) == if k == 0 && in_part(g, mb, 0, 0, 4, 4, gx, gy) {
        Nb { refi: 0, mv: v }
    } else {
        kept(g, k, gx, gy)
    } by {
        law_storing_is_local(s, 0, mb, 0, 0, 4, 4, v, 0, k, gx, gy);
        assert(kept(r, k, gx, gy) == kept(f, k, gx, gy));
    }
    lemma_in_picture(g, mb);
    assert(in_part(g, mb, 0, 0, 4, 4, col_of(g, mb), row_of(g, mb)));
}

/// The blocks of a macroblock are blocks of the picture.
pub proof fn lemma_in_picture(g: GridsV, mb: int)
    requires
        g.wf(),
        0 <= mb < g.mbs(),
    ensures
        forall|gx: int, gy: int| #[trigger]
            in_part(g, mb, 0, 0, 4, 4, gx, gy) ==> in_picture(g, gx, gy),
{
    lemma_mb(g, mb);
}

/// Where the neighbours of a skipped P macroblock move alike and refer to the first reference, it moves
/// with them.
pub proof fn law_skipped_macroblock_moves_along(g: GridsV, mb: int, sid: i32, v: Mv)
    requires
        place(g, mb, 0, 0, 4),
        at_left(g, 0, mb, 0, 0, sid) == Some(Nb { refi: 0i32, mv: v }),
        at_top(g, 0, mb, 0, 0, sid) == Some(Nb { refi: 0i32, mv: v }),
        at_diagonal(g, 0, mb, 0, 0, 4, sid) == Some(Nb { refi: 0i32, mv: v }),
    ensures
        whole_is(p_skip(g, mb, sid), 0, mb, Nb { refi: 0, mv: v }),
{
    law_skipped_macroblock(g, mb, sid);
}

// ---------------------------------------------------------------------------
// Direct mode

/// `r` is the least reference of three neighbours, where one that is missing or has none does not
/// count; negative where none counts.
pub open spec fn is_least_ref(r: i32, a: Nb, b: Nb, c: Nb) -> bool {
    if a.refi < 0 && b.refi < 0 && c.refi < 0 {
        r == -1
    } else {
        &&& r >= 0
        &&& r == a.refi || r == b.refi || r == c.refi
        &&& a.refi >= 0 ==> r <= a.refi
        &&& b.refi >= 0 ==> r <= b.refi
        &&& c.refi >= 0 ==> r <= c.refi
    }
}

/// `v` is the vector that goes with the least reference `r`: that of the only neighbour that has it, or
/// else the one in the middle.
pub open spec fn is_direct_mv(v: Mv, r: i32, a: Nb, b: Nb, c: Nb) -> bool {
    let (sa, sb, sc) = (a.refi == r, b.refi == r, c.refi == r);
    &&& sa && !sb && !sc ==> v == a.mv
    &&& !sa && sb && !sc ==> v == b.mv
    &&& !sa && !sb && sc ==> v == c.mv
    &&& (sa && sb) || (sa && sc) || (sb && sc) ==> is_middle_mv(v, a.mv, b.mv, c.mv)
}

/// The block of the collocated picture at the outer corner of quadrant `q` of a macroblock.
pub open spec fn col_corner(g: GridsV, col: ColV, mb: int, q: int) -> int {
    let (x, y) = (
        col_of(g, mb) + if q == 1 || q == 3 {
            3int
        } else {
            0int
        },
        row_of(g, mb) + if q >= 2 {
            3int
        } else {
            0int
        },
    );
    y * col.bw + x
}

/// A vector moves by no more than a quarter of a sample in each direction.
pub open spec fn hardly_moves(v: [i32; 2]) -> bool {
    -1 <= v[0] <= 1 && -1 <= v[1] <= 1
}

/// The collocated block stands still: it refers to the first reference, in list 0 or where it does not
/// use that in list 1, and hardly moves.
pub open spec fn col_still(col: ColV, i: int) -> bool {
    if col.refi0[i] >= 0 {
        col.refi0[i] == 0 && hardly_moves(col.mv0[i])
    } else {
        col.refi1 is Some && col.mv1 is Some && (col.refi1->0)[i] == 0 && hardly_moves(
            (col.mv1->0)[i],
        )
    }
}

/// The collocated picture has motion for block `i`, in the range that vectors of a stream have.
pub open spec fn col_has(col: ColV, i: int) -> bool {
    &&& 0 <= i <= usize::MAX
    &&& i < col.refi0.len() && i < col.mv0.len()
    &&& col.mv0[i][0] != i32::MIN && col.mv0[i][1] != i32::MIN
    &&& col.refi1 is Some ==> i < (col.refi1->0).len()
    &&& col.mv1 is Some ==> i < (col.mv1->0).len() && (col.mv1->0)[i][0] != i32::MIN && (
    col.mv1->0)[i][1] != i32::MIN
}

/// What direct mode gives list `l` of quadrant `q`: references are predicted per list, and where none
/// of both lists has one, the first of each is taken, without motion. With the first reference, a
/// quadrant whose collocated block stands still does not move.
pub open spec fn is_direct(
    n: Nb,
    g: GridsV,
    l: int,
    mb: int,
    sid: i32,
    still: bool,
) -> bool {
    let near = |k: int|
        (
            seen(at_left(g, k, mb, 0, 0, sid)),
            seen(at_top(g, k, mb, 0, 0, sid)),
            seen(at_diagonal(g, k, mb, 0, 0, 4, sid)),
        );
    let none = |k: int| near(k).0.refi < 0 && near(k).1.refi < 0 && near(k).2.refi < 0;
    let (a, b, c) = near(l);
    if none(0) && none(1) {
        n.refi == 0 && n.mv == zero_mv()
    } else if none(l) {
        n.refi == -1
    } else {
        &&& is_least_ref(n.refi, a, b, c)
        &&& if still && n.refi == 0 {
            n.mv == zero_mv()
        } else {
            is_direct_mv(n.mv, n.refi, a, b, c)
        }
    }
}

proof fn lemma_direct_from(a: Nb, b: Nb, c: Nb)
    ensures
        ({
            let n = direct_from(a, b, c);
            &&& is_least_ref(n.refi, a, b, c)
            &&& n.refi >= 0 ==> is_direct_mv(n.mv, n.refi, a, b, c)
            &&& n.refi < 0 ==> n.mv == zero_mv()
        }),
{
    reveal(direct_from);
}

proof fn lemma_col_corner(g: GridsV, col: ColV, mb: int, q: int)
    requires
        g.wf(),
        0 <= mb < g.mbs(),
        0 <= q < 4,
        col_has(col, col_corner(g, col, mb, q)),
    ensures
        col.corner(g, mb, q) == col_corner(g, col, mb, q),
        col.zero(col.corner(g, mb, q)) == col_still(col, col_corner(g, col, mb, q)),
{
    reveal(ColV::zero);
    lemma_mb(g, mb);
    let x = g.x0(mb, q % 2 * 3);
    let y = g.y0(mb, q / 2 * 3);
    let i = col_corner(g, col, mb, q);
    assert(0 <= y * col.bw <= i) by (nonlinear_arith)
        requires
            0 <= y,
            0 <= x,
            0 <= col.bw,
            i == y * col.bw + x,
    ;
    vstd::arithmetic::div_mod::lemma_small_mod((y * col.bw) as nat, (usize::MAX + 1) as nat);
    assert((y as usize).wrapping_mul(col.bw) == y * col.bw);
}

/// The prediction of quadrant `q` in direct mode.
proof fn lemma_direct(g: GridsV, mb: int, sid: i32, col: ColV, q: int)
    requires
        place(g, mb, 0, 0, 4),
        0 <= q < 4,
        col_has(col, col_corner(g, col, mb, q)),
    ensures
        ({
            let d = direct(g, mb, sid, col);
            let still = col_still(col, col_corner(g, col, mb, q));
            &&& is_direct(Nb { refi: d.ref0, mv: d.mv0[q] }, g, 0, mb, sid, still)
            &&& is_direct(Nb { refi: d.ref1, mv: d.mv1[q] }, g, 1, mb, sid, still)
        }),
{
    reveal(direct);
    reveal(direct_list);
    lemma_col_corner(g, col, mb, q);
    law_neighbours(g, 0, mb, 0, 0, 4, sid);
    law_neighbours(g, 1, mb, 0, 0, 4, sid);
    lemma_direct_from(
        g.left(0, mb, 0, 0, sid),
        g.top(0, mb, 0, 0, sid),
        g.diag(0, mb, 0, 0, 4, sid),
    );
    lemma_direct_from(
        g.left(1, mb, 0, 0, sid),
        g.top(1, mb, 0, 0, sid),
        g.diag(1, mb, 0, 0, 4, sid),
    );
}

/// The blocks of quadrant `q`.
pub open spec fn in_quadrant(g: GridsV, mb: int, q: int, gx: int, gy: int) -> bool {
    in_part(
        g,
        mb,
        if q == 1 || q == 3 {
            2
        } else {
            0
        },
        if q >= 2 {
            2
        } else {
            0
        },
        2,
        2,
        gx,
        gy,
    )
}

proof fn lemma_direct_quadrant(g: GridsV, mb: int, q: int, d: DirectV, k: int, gx: int, gy: int)
    requires
        g.wf(),
        0 <= mb < g.mbs(),
        0 <= q < 4,
        0 <= k < 2,
        in_picture(g, gx, gy),
    ensures
        ({
            let r = direct_quadrant(g, mb, q, d);
            &&& r.wf()
            &&& r.mb_w == g.mb_w && r.mb_h == g.mb_h
            &&& kept(r, k, gx, gy) == if in_quadrant(g, mb, q, gx, gy) {
                if k == 0 {
                    Nb { refi: d.ref0, mv: d.mv0[q] }
                } else {
                    Nb { refi: d.ref1, mv: d.mv1[q] }
                }
            } else {
                kept(g, k, gx, gy)
            }
        }),
{
    reveal(direct_quadrant);
    let (x, y) = (q % 2 * 2, q / 2 * 2);
    let g1 = g.fill(0, mb, x, y, 2, 2, d.mv0[q], d.ref0);
    assert(g1.wf() && g1.mb_w == g.mb_w && g1.mb_h == g.mb_h) by {
        reveal(GridsV::fill);
        reveal(mb_rect);
    }
    let g2 = g1.fill(1, mb, x, y, 2, 2, d.mv1[q], d.ref1);
    assert(g2.wf() && g2.mb_w == g.mb_w && g2.mb_h == g.mb_h) by {
        reveal(GridsV::fill);
        reveal(mb_rect);
    }
    law_storing_is_local(g, 0, mb, x, y, 2, 2, d.mv0[q], d.ref0, k, gx, gy);
    law_storing_is_local(g1, 1, mb, x, y, 2, 2, d.mv1[q], d.ref1, k, gx, gy);
    let r = direct_quadrant(g, mb, q, d);
    assert(r.wf() && r.mb_w == g.mb_w && r.mb_h == g.mb_h && r.l0 == g2.l0 && r.l1 == g2.l1) by {
        reveal(GridsV::mark_direct);
        reveal(mb_rect);
    }
}

proof fn lemma_direct_mb(g: GridsV, mb: int, sid: i32, col: ColV, q: int, k: int, gx: int, gy: int)
    requires
        g.wf(),
        0 <= mb < g.mbs(),
        0 <= q < 4,
        0 <= k < 2,
        in_picture(g, gx, gy),
    ensures
        ({
            let r = direct_mb(g, mb, sid, col).1;
            let d = direct(g, mb, sid, col);
            &&& r.wf()
            &&& r.mb_w == g.mb_w && r.mb_h == g.mb_h
            &&& in_quadrant(g, mb, q, gx, gy) ==> kept(r, k, gx, gy) == if k == 0 {
                Nb { refi: d.ref0, mv: d.mv0[q] }
            } else {
                Nb { refi: d.ref1, mv: d.mv1[q] }
            }
            &&& !in_part(g, mb, 0, 0, 4, 4, gx, gy) ==> kept(r, k, gx, gy) == kept(g, k, gx, gy)
        }),
{
    reveal(direct_mb);
    let d = direct(g, mb, sid, col);
    let g0 = direct_quadrant(g, mb, 0, d);
    lemma_direct_quadrant(g, mb, 0, d, k, gx, gy);
    let g1 = direct_quadrant(g0, mb, 1, d);
    lemma_direct_quadrant(g0, mb, 1, d, k, gx, gy);
    let g2 = direct_quadrant(g1, mb, 2, d);
    lemma_direct_quadrant(g1, mb, 2, d, k, gx, gy);
    lemma_direct_quadrant(g2, mb, 3, d, k, gx, gy);
}

/// Every block of a skipped B macroblock has the motion of direct mode, and other macroblocks keep
/// theirs.
pub proof fn law_skipped_b_macroblock_is_direct(
    g: GridsV,
    mb: int,
    sid: i32,
    col: ColV,
    q: int,
    l: int,
    gx: int,
    gy: int,
)
    requires
        place(g, mb, 0, 0, 4),
        0 <= q < 4,
        0 <= l < 2,
        in_picture(g, gx, gy),
        col_has(col, col_corner(g, col, mb, q)),
    ensures
        ({
            let r = b_skip(g, mb, sid, col);
            let still = col_still(col, col_corner(g, col, mb, q));
            &&& in_quadrant(g, mb, q, gx, gy) ==> is_direct(
                kept(r, l, gx, gy),
                g,
                l,
                mb,
                sid,
                still,
            )
            &&& !in_part(g, mb, 0, 0, 4, 4, gx, gy) ==> kept(r, l, gx, gy) == kept(g, l, gx, gy)
        }),
{
    reveal(b_skip);
    reveal(GridsV::put_bdirect);
    reveal(GridsV::put_skip);
    reveal(GridsV::put_seg);
    reveal(GridsV::put_slice);
    reveal(GridsV::put_decoded);
    reveal(GridsV::put_mb_nnz);
    reveal(GridsV::put_mb_nnz_c);
    reveal(GridsV::put_nnz);
    reveal(GridsV::put_nnz_c);
    lemma_direct_mb(g, mb, sid, col, q, l, gx, gy);
    lemma_direct(g, mb, sid, col, q);
    let (seg, m) = direct_mb(g, mb, sid, col);
    let r = b_skip(g, mb, sid, col);
    assert(r.l0 == m.l0 && r.l1 == m.l1 && r.mb_w == m.mb_w);
    assert(kept(r, l, gx, gy) == kept(m, l, gx, gy));
}

/// Where the collocated block of a quadrant stands still, a list with the first reference does not move
/// there in direct mode, whatever the neighbours do.
pub proof fn law_still_background_stays_still(
    g: GridsV,
    mb: int,
    sid: i32,
    col: ColV,
    q: int,
    l: int,
    gx: int,
    gy: int,
)
    requires
        place(g, mb, 0, 0, 4),
        0 <= q < 4,
        0 <= l < 2,
        in_picture(g, gx, gy),
        in_quadrant(g, mb, q, gx, gy),
        col_has(col, col_corner(g, col, mb, q)),
        col.refi0[col_corner(g, col, mb, q)] == 0,
        hardly_moves(col.mv0[col_corner(g, col, mb, q)]),
        kept(b_skip(g, mb, sid, col), l, gx, gy).refi == 0,
    ensures
        kept(b_skip(g, mb, sid, col), l, gx, gy).mv == zero_mv(),
{
    law_skipped_b_macroblock_is_direct(g, mb, sid, col, q, l, gx, gy);
}

/// A B macroblock of direct type has the motion of direct mode.
pub proof fn law_direct_macroblock_is_direct(
    g: GridsV,
    c: Cab,
    mb: int,
    sid: i32,
    sh: SliceHeader,
    col: ColV,
    q: int,
    l: int,
    gx: int,
    gy: int,
)
    requires
        place(g, mb, 0, 0, 4),
        0 <= q < 4,
        0 <= l < 2,
        in_picture(g, gx, gy),
        in_quadrant(g, mb, q, gx, gy),
        col_has(col, col_corner(g, col, mb, q)),
    ensures
        is_direct(
            kept(b_motion(g, c, mb, sid, sh, col, 0).2, l, gx, gy),
            g,
            l,
            mb,
            sid,
            col_still(col, col_corner(g, col, mb, q)),
        ),
        b_motion(g, c, mb, sid, sh, col, 0).3 == c,
{
    reveal(b_motion);
    reveal(GridsV::put_bdirect);
    lemma_direct_mb(g, mb, sid, col, q, l, gx, gy);
    lemma_direct(g, mb, sid, col, q);
    let (seg, m) = direct_mb(g, mb, sid, col);
    assert(kept(m.put_bdirect(mb), l, gx, gy) == kept(m, l, gx, gy));
}

/// Of a B macroblock in quadrants, those in direct mode have its motion before anything else of the
/// macroblock is known, and the others are left alone.
pub proof fn law_direct_quadrants(
    g: GridsV,
    mb: int,
    sid: i32,
    types: Seq<u32>,
    col: ColV,
    q: int,
    l: int,
    gx: int,
    gy: int,
)
    requires
        place(g, mb, 0, 0, 4),
        types.len() == 4,
        0 <= q < 4,
        0 <= l < 2,
        in_picture(g, gx, gy),
        in_quadrant(g, mb, q, gx, gy),
        col_has(col, col_corner(g, col, mb, q)),
    ensures
        ({
            let r = sub_direct(g, mb, sid, types, col);
            if types[q] == 0 {
                is_direct(
                    kept(r, l, gx, gy),
                    g,
                    l,
                    mb,
                    sid,
                    col_still(col, col_corner(g, col, mb, q)),
                )
            } else {
                kept(r, l, gx, gy) == kept(g, l, gx, gy)
            }
        }),
{
    reveal(sub_direct);
    lemma_direct(g, mb, sid, col, q);
    let d = direct(g, mb, sid, col);
    reveal_with_fuel(direct_quadrants, 5);
    let g0 = if types[0] == 0 {
        direct_quadrant(g, mb, 0, d)
    } else {
        g
    };
    lemma_direct_quadrant(g, mb, 0, d, l, gx, gy);
    let g1 = if types[1] == 0 {
        direct_quadrant(g0, mb, 1, d)
    } else {
        g0
    };
    lemma_direct_quadrant(g0, mb, 1, d, l, gx, gy);
    let g2 = if types[2] == 0 {
        direct_quadrant(g1, mb, 2, d)
    } else {
        g1
    };
    lemma_direct_quadrant(g1, mb, 2, d, l, gx, gy);
    lemma_direct_quadrant(g2, mb, 3, d, l, gx, gy);
}

// ---------------------------------------------------------------------------
// Rows

/// Sides in samples of the rectangles that a macroblock is exported in.
pub open spec fn sides(seg: Seg) -> (int, int) {
    match seg {
        Seg::P16x8 | Seg::B16x8 => (16, 8),
        Seg::P8x16 | Seg::B8x16 => (8, 16),
        Seg::P8x8 | Seg::B8x8 => (8, 8),
        _ => (16, 16),
    }
}

/// A row shows the motion of the first block of its rectangle, in the list that it is of.
pub open spec fn shows_motion(g: GridsV, mb: int, r: Row) -> bool {
    let (w, h) = sides(g.seg[mb]);
    let l = if r.source < 0 {
        0int
    } else {
        1int
    };
    let (gx, gy) = ((r.x - w / 2) / 4, (r.y - h / 2) / 4);
    &&& r.w == w && r.h == h
    &&& in_part(g, mb, 0, 0, 4, 4, gx, gy)
    &&& r.mv == kept(g, l, gx, gy).mv
}

proof fn lemma_row(g: GridsV, l: int, mb: int, bx: int, by: int, w: int, h: int)
    requires
        g.wf(),
        0 <= mb < g.mbs(),
        0 <= l < 2,
        0 <= bx < 4,
        0 <= by < 4,
        (4 * w, 4 * h) == sides(g.seg[mb]),
    ensures
        shows_motion(g, mb, g.row(l, mb, bx, by, w, h)),
{
    reveal(GridsV::row);
    reveal(GridsV::block);
    lemma_mb(g, mb);
}

/// Every row of a macroblock shows the motion of its rectangle, and rectangles are as the macroblock is
/// divided.
pub proof fn law_rows_show_the_motion(g: GridsV, mb: int, k: int)
    requires
        g.wf(),
        0 <= mb < g.mbs(),
        0 <= k < g.mb_rows(Seq::empty(), mb).len(),
    ensures
        shows_motion(g, mb, g.mb_rows(Seq::empty(), mb)[k]),
{
    reveal(GridsV::mb_rows);
    reveal(GridsV::b_half_rows);
    reveal_with_fuel(GridsV::quad_rows, 5);
    match g.seg[mb] {
        Seg::Skip | Seg::P16x16 | Seg::B16x16 => {
            lemma_row(g, 0, mb, 0, 0, 4, 4);
            lemma_row(g, 1, mb, 0, 0, 4, 4);
        },
        Seg::P16x8 | Seg::B16x8 => {
            lemma_row(g, 0, mb, 0, 0, 4, 2);
            lemma_row(g, 0, mb, 0, 2, 4, 2);
            lemma_row(g, 1, mb, 0, 0, 4, 2);
            lemma_row(g, 1, mb, 0, 2, 4, 2);
        },
        Seg::P8x16 | Seg::B8x16 => {
            lemma_row(g, 0, mb, 0, 0, 2, 4);
            lemma_row(g, 0, mb, 2, 0, 2, 4);
            lemma_row(g, 1, mb, 0, 0, 2, 4);
            lemma_row(g, 1, mb, 2, 0, 2, 4);
        },
        Seg::P8x8 | Seg::B8x8 => {
            lemma_row(g, 0, mb, 0, 0, 2, 2);
            lemma_row(g, 0, mb, 2, 0, 2, 2);
            lemma_row(g, 0, mb, 0, 2, 2, 2);
            lemma_row(g, 0, mb, 2, 2, 2, 2);
            lemma_row(g, 1, mb, 0, 0, 2, 2);
            lemma_row(g, 1, mb, 2, 0, 2, 2);
            lemma_row(g, 1, mb, 0, 2, 2, 2);
            lemma_row(g, 1, mb, 2, 2, 2, 2);
        },
        Seg::Intra | Seg::Unset => {},
    }
}

/// A list of a macroblock is shown: list 0 of a P macroblock, and of a B macroblock the lists that the
/// first block of one of its parts uses.
pub open spec fn list_shown(g: GridsV, mb: int, l: int) -> bool {
    let (x, y) = (col_of(g, mb), row_of(g, mb));
    let (w, h) = sides(g.seg[mb]);
    let (dx, dy) = (if w == 8 {
        2int
    } else {
        0int
    }, if h == 8 {
        2int
    } else {
        0int
    });
    match g.seg[mb] {
        Seg::Intra | Seg::Unset => false,
        Seg::Skip | Seg::P16x16 | Seg::P16x8 | Seg::P8x16 | Seg::P8x8 => l == 0,
        _ => {
            ||| kept(g, l, x, y).refi >= 0
            ||| kept(g, l, x + dx, y).refi >= 0
            ||| kept(g, l, x, y + dy).refi >= 0
            ||| kept(g, l, x + dx, y + dy).refi >= 0
        },
    }
}

/// The rows of a macroblock: as many as it has parts for each list that is shown.
pub proof fn law_lists_that_are_shown(g: GridsV, mb: int)
    requires
        g.wf(),
        0 <= mb < g.mbs(),
    ensures
        ({
            let rs = g.mb_rows(Seq::empty(), mb);
            let (w, h) = sides(g.seg[mb]);
            let parts = (16int / w) * (16int / h);
            let n0 = if list_shown(g, mb, 0) {
                parts
            } else {
                0
            };
            let n1 = if list_shown(g, mb, 1) {
                parts
            } else {
                0
            };
            &&& rs.len() == n0 + n1
            &&& n1 == 0 ==> forall|k: int| 0 <= k < rs.len() ==> (#[trigger] rs[k]).source == -1
            &&& n0 == 0 ==> forall|k: int| 0 <= k < rs.len() ==> (#[trigger] rs[k]).source == 1
        }),
{
    reveal(GridsV::mb_rows);
    reveal(GridsV::b_half_rows);
    reveal(GridsV::quad_used);
    reveal(GridsV::block);
    reveal(GridsV::row);
    reveal_with_fuel(GridsV::quad_rows, 5);
    assert((16int / 16) * (16int / 16) == 1);
    assert((16int / 16) * (16int / 8) == 2);
    assert((16int / 8) * (16int / 16) == 2);
    assert((16int / 8) * (16int / 8) == 4);
}

} // verus!
