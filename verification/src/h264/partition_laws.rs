//! What the vectors of the partitions of a macroblock are: what its surroundings predict, and the coded
//! difference.

use super::mb_cabac;
use super::mb_cavlc;
use super::contexts::Cab;
use super::grids::{mb_rect, GridsV, Nb};
use super::mb_b::{b_mb_info, b_sub_info, half_mv, uses, Info};
use super::motion_laws::{
    all_settled, at_diagonal, at_left, at_top, at_top_left, col_of, in_part, in_picture,
    is_predicted, kept, law_neighbours, law_partition_is_predicted, law_storing_is_local,
    lemma_in_picture, lemma_mb, others_stay, place, refers, row_of, settled, whole_is,
};
use crate::bits::Bits;
use crate::motion::{mv_sum, zero_mv, Mv};
use vstd::prelude::*;

verus! {

// ---------------------------------------------------------------------------
// Predictions of halves

/// What the surroundings predict for the upper half of a macroblock: the vector above it where that has
/// the same reference.
pub open spec fn predicts_upper(p: Mv, g: GridsV, l: int, mb: int, refi: i32, sid: i32) -> bool {
    let top = at_top(g, l, mb, 0, 0, sid);
    if refers(top, refi) {
        p == top->0.mv
    } else {
        is_predicted(
            p,
            at_left(g, l, mb, 0, 0, sid),
            top,
            at_diagonal(g, l, mb, 0, 0, 4, sid),
            refi,
        )
    }
}

/// What is predicted for the lower half below `upper`: the vector to its left where that has the same
/// reference.
pub open spec fn predicts_lower(
    p: Mv,
    g: GridsV,
    l: int,
    mb: int,
    refi: i32,
    sid: i32,
    upper: Nb,
) -> bool {
    let left = at_left(g, l, mb, 0, 2, sid);
    if refers(left, refi) {
        p == left->0.mv
    } else {
        is_predicted(p, left, Some(upper), at_top_left(g, l, mb, 0, 2, sid), refi)
    }
}

/// What is predicted for the left half: the vector to its left where that has the same reference.
pub open spec fn predicts_left(p: Mv, g: GridsV, l: int, mb: int, refi: i32, sid: i32) -> bool {
    let left = at_left(g, l, mb, 0, 0, sid);
    if refers(left, refi) {
        p == left->0.mv
    } else {
        is_predicted(
            p,
            left,
            at_top(g, l, mb, 0, 0, sid),
            at_diagonal(g, l, mb, 0, 0, 2, sid),
            refi,
        )
    }
}

/// What is predicted for the right half beside `left`: the vector at its diagonal where that has the same
/// reference.
pub open spec fn predicts_right(
    p: Mv,
    g: GridsV,
    l: int,
    mb: int,
    refi: i32,
    sid: i32,
    left: Nb,
) -> bool {
    let diagonal = at_diagonal(g, l, mb, 2, 0, 2, sid);
    if refers(diagonal, refi) {
        p == diagonal->0.mv
    } else {
        is_predicted(p, Some(left), at_top(g, l, mb, 2, 0, sid), diagonal, refi)
    }
}

/// All that surrounds a macroblock has been given references.
pub open spec fn surroundings_settled(g: GridsV, l: int, mb: int, sid: i32) -> bool {
    &&& settled(at_left(g, l, mb, 0, 0, sid)) && settled(at_left(g, l, mb, 0, 2, sid))
    &&& settled(at_top(g, l, mb, 0, 0, sid)) && settled(at_top(g, l, mb, 2, 0, sid))
    &&& settled(at_top_left(g, l, mb, 0, 0, sid)) && settled(at_top_left(g, l, mb, 0, 2, sid))
    &&& settled(at_top_left(g, l, mb, 2, 0, sid))
}

/// Grids that differ in the motion of one macroblock only.
pub open spec fn same_around(g: GridsV, h: GridsV, mb: int) -> bool {
    &&& h.wf()
    &&& h.mb_w == g.mb_w && h.mb_h == g.mb_h
    &&& h.decoded == g.decoded && h.slice_id == g.slice_id
    &&& others_stay(g, h, mb)
}

proof fn lemma_around(g: GridsV, h: GridsV, l: int, mb: int, sid: i32)
    requires
        g.wf(),
        0 <= mb < g.mbs(),
        0 <= l < 2,
        same_around(g, h, mb),
    ensures
        at_left(h, l, mb, 0, 0, sid) == at_left(g, l, mb, 0, 0, sid),
        at_left(h, l, mb, 0, 2, sid) == at_left(g, l, mb, 0, 2, sid),
        at_top(h, l, mb, 0, 0, sid) == at_top(g, l, mb, 0, 0, sid),
        at_top(h, l, mb, 2, 0, sid) == at_top(g, l, mb, 2, 0, sid),
        at_diagonal(h, l, mb, 0, 0, 4, sid) == at_diagonal(g, l, mb, 0, 0, 4, sid),
        at_diagonal(h, l, mb, 0, 0, 2, sid) == at_diagonal(g, l, mb, 0, 0, 2, sid),
        at_diagonal(h, l, mb, 2, 0, 2, sid) == at_diagonal(g, l, mb, 2, 0, 2, sid),
        at_diagonal(h, l, mb, 0, 2, 4, sid) == at_top_left(g, l, mb, 0, 2, sid),
{
    lemma_mb(g, mb);
    let (x, y) = (col_of(g, mb), row_of(g, mb));
    if mb % g.mb_w > 0 {
        assert(kept(h, l, x - 1, y) == kept(g, l, x - 1, y));
        assert(kept(h, l, x - 1, y + 2) == kept(g, l, x - 1, y + 2));
        assert(kept(h, l, x - 1, y + 2 - 1) == kept(g, l, x - 1, y + 2 - 1));
    }
    if mb / g.mb_w > 0 {
        assert(kept(h, l, x, y - 1) == kept(g, l, x, y - 1));
        assert(kept(h, l, x + 2, y - 1) == kept(g, l, x + 2, y - 1));
        assert(kept(h, l, x + 2 - 1, y - 1) == kept(g, l, x + 2 - 1, y - 1));
        if mb % g.mb_w + 1 < g.mb_w {
            assert(kept(h, l, x + 4, y - 1) == kept(g, l, x + 4, y - 1));
            assert(kept(h, l, x + 2 + 2, y - 1) == kept(g, l, x + 2 + 2, y - 1));
        }
        if mb % g.mb_w > 0 {
            assert(kept(h, l, x - 1, y - 1) == kept(g, l, x - 1, y - 1));
        }
    }
}

/// The halves of a macroblock are predicted from what surrounds it: the upper one from above and the
/// lower one from the left, the left one from the left and the right one from the diagonal. The second
/// half sees the first one.
pub proof fn law_halves_are_predicted(
    g: GridsV,
    h: GridsV,
    l: int,
    mb: int,
    refi: i32,
    sid: i32,
    first: Nb,
)
    requires
        place(g, mb, 0, 0, 4),
        0 <= l < 2,
        0 <= refi,
        same_around(g, h, mb),
        surroundings_settled(g, l, mb, sid),
        first.refi >= 0,
    ensures
        predicts_upper(h.pred_wide(l, mb, 0, refi, sid), g, l, mb, refi, sid),
        predicts_left(h.pred_tall(l, mb, 0, refi, sid), g, l, mb, refi, sid),
        kept(h, l, col_of(g, mb), row_of(g, mb) + 1) == first ==> predicts_lower(
            h.pred_wide(l, mb, 1, refi, sid),
            g,
            l,
            mb,
            refi,
            sid,
            first,
        ),
        kept(h, l, col_of(g, mb) + 1, row_of(g, mb)) == first ==> predicts_right(
            h.pred_tall(l, mb, 1, refi, sid),
            g,
            l,
            mb,
            refi,
            sid,
            first,
        ),
{
    reveal(GridsV::pred_wide);
    reveal(GridsV::pred_tall);
    lemma_around(g, h, l, mb, sid);
    law_neighbours(h, l, mb, 0, 0, 4, sid);
    law_neighbours(h, l, mb, 0, 0, 2, sid);
    law_neighbours(h, l, mb, 0, 2, 4, sid);
    law_neighbours(h, l, mb, 2, 0, 2, sid);
    law_partition_is_predicted(h, l, mb, 0, 0, 4, refi, sid);
    law_partition_is_predicted(h, l, mb, 0, 0, 2, refi, sid);
    if kept(h, l, col_of(g, mb), row_of(g, mb) + 1) == first {
        assert(at_top(h, l, mb, 0, 2, sid) == Some(first));
        law_partition_is_predicted(h, l, mb, 0, 2, 4, refi, sid);
    }
    if kept(h, l, col_of(g, mb) + 1, row_of(g, mb)) == first {
        assert(at_left(h, l, mb, 2, 0, sid) == Some(first));
        law_partition_is_predicted(h, l, mb, 2, 0, 2, refi, sid);
    }
}

// ---------------------------------------------------------------------------
// Storing

/// One partition of a macroblock has the motion `n` in list `l`, and all other blocks of the picture have
/// what they had.
pub open spec fn stored(
    g: GridsV,
    h: GridsV,
    l: int,
    mb: int,
    bx: int,
    by: int,
    w: int,
    h4: int,
    n: Nb,
) -> bool {
    &&& same_around(g, h, mb)
    &&& forall|k: int, gx: int, gy: int|
        0 <= k < 2 && in_picture(g, gx, gy) ==> #[trigger] kept(h, k, gx, gy) == if k == l
            && in_part(g, mb, bx, by, w, h4, gx, gy) {
            n
        } else {
            kept(g, k, gx, gy)
        }
}

/// A partition inside a macroblock.
pub open spec fn part_ok(bx: int, by: int, w: int, h: int) -> bool {
    0 <= bx && 0 <= by && 0 < w && 0 < h && bx + w <= 4 && by + h <= 4
}

proof fn lemma_fill(
    g: GridsV,
    l: int,
    mb: int,
    bx: int,
    by: int,
    w: int,
    h: int,
    mv: Mv,
    refi: i32,
)
    requires
        g.wf(),
        0 <= mb < g.mbs(),
        0 <= l < 2,
        part_ok(bx, by, w, h),
    ensures
        stored(g, g.fill(l, mb, bx, by, w, h, mv, refi), l, mb, bx, by, w, h, Nb { refi, mv }),
{
    let f = g.fill(l, mb, bx, by, w, h, mv, refi);
    assert(f.wf() && f.mb_w == g.mb_w && f.mb_h == g.mb_h && f.decoded == g.decoded && f.slice_id
        == g.slice_id) by {
        reveal(GridsV::fill);
        reveal(mb_rect);
    }
    assert forall|k: int, gx: int, gy: int|
        0 <= k < 2 && in_picture(g, gx, gy) implies #[trigger] kept(f, k, gx, gy) == if k == l
        && in_part(g, mb, bx, by, w, h, gx, gy) {
        Nb { refi, mv }
    } else {
        kept(g, k, gx, gy)
    } by {
        law_storing_is_local(g, l, mb, bx, by, w, h, mv, refi, k, gx, gy);
    }
}

proof fn lemma_same_around(a: GridsV, b: GridsV, c: GridsV, mb: int)
    requires
        same_around(a, b, mb),
        same_around(b, c, mb),
    ensures
        same_around(a, c, mb),
{
    assert forall|k: int, gx: int, gy: int|
        0 <= k < 2 && in_picture(a, gx, gy) && !in_part(a, mb, 0, 0, 4, 4, gx, gy) implies #[trigger] kept(
        c,
        k,
        gx,
        gy,
    ) == kept(a, k, gx, gy) by {
        assert(kept(c, k, gx, gy) == kept(b, k, gx, gy));
    }
}

/// The rest of a vector without a difference.
pub open spec fn minus(v: Mv, d: Mv) -> Mv {
    Mv { x: v.x.wrapping_sub(d.x), y: v.y.wrapping_sub(d.y) }
}

proof fn lemma_minus(p: Mv, d: Mv)
    ensures
        minus(mv_sum(p, d), d) == p,
{
}

/// All blocks of a partition have the same motion.
pub open spec fn part_is(g: GridsV, l: int, mb: int, bx: int, by: int, w: int, h: int, n: Nb) -> bool {
    forall|gx: int, gy: int|
        in_part(g, mb, bx, by, w, h, gx, gy) ==> #[trigger] kept(g, l, gx, gy) == n
}

proof fn lemma_stored(
    g: GridsV,
    h: GridsV,
    l: int,
    mb: int,
    bx: int,
    by: int,
    w: int,
    h4: int,
    n: Nb,
)
    requires
        g.wf(),
        0 <= mb < g.mbs(),
        0 <= l < 2,
        part_ok(bx, by, w, h4),
        stored(g, h, l, mb, bx, by, w, h4, n),
    ensures
        part_is(h, l, mb, bx, by, w, h4, n),
{
    lemma_in_picture(g, mb);
    assert forall|gx: int, gy: int| in_part(h, mb, bx, by, w, h4, gx, gy) implies #[trigger] kept(
        h,
        l,
        gx,
        gy,
    ) == n by {
        assert(in_part(g, mb, 0, 0, 4, 4, gx, gy));
    }
}

// ---------------------------------------------------------------------------
// P macroblocks of CAVLC streams

proof fn lemma_partition(
    g: GridsV,
    b: Bits,
    mb: int,
    bx: int,
    by: int,
    w: int,
    h: int,
    refi: i32,
    pred: Mv,
)
    requires
        g.wf(),
        0 <= mb < g.mbs(),
        part_ok(bx, by, w, h),
    ensures
        ({
            let (r, rest) = mb_cavlc::partition(g, b, mb, bx, by, w, h, refi, pred);
            let d = Mv { x: b.se().0, y: b.se().1.se().0 };
            &&& stored(g, r, 0, mb, bx, by, w, h, Nb { refi, mv: mv_sum(pred, d) })
            &&& rest == b.se().1.se().1
        }),
{
    reveal(mb_cavlc::partition);
    let d = mb_cavlc::mvd(b).0;
    lemma_fill(g, 0, mb, bx, by, w, h, mv_sum(pred, d), refi);
}

/// An undivided P macroblock moves by what its surroundings predict and the coded difference, columns
/// first.
pub proof fn law_whole_macroblock(g: GridsV, b: Bits, mb: int, sid: i32, n0: u32)
    requires
        place(g, mb, 0, 0, 4),
        all_settled(g, 0, mb, 0, 0, 4, sid),
        mb_cavlc::ref_idx(b, n0).0 >= 0,
    ensures
        ({
            let r = mb_cavlc::p_whole(g, b, mb, sid, n0).0;
            let (refi, b) = mb_cavlc::ref_idx(b, n0);
            let d = Mv { x: b.se().0, y: b.se().1.se().0 };
            let n = kept(r, 0, col_of(g, mb), row_of(g, mb));
            &&& same_around(g, r, mb)
            &&& whole_is(r, 0, mb, n)
            &&& n.refi == refi
            &&& is_predicted(
                minus(n.mv, d),
                at_left(g, 0, mb, 0, 0, sid),
                at_top(g, 0, mb, 0, 0, sid),
                at_diagonal(g, 0, mb, 0, 0, 4, sid),
                refi,
            )
        }),
{
    reveal(mb_cavlc::p_whole);
    let (refi, b1) = mb_cavlc::ref_idx(b, n0);
    let h = g.fill(0, mb, 0, 0, 4, 4, zero_mv(), refi);
    lemma_fill(g, 0, mb, 0, 0, 4, 4, zero_mv(), refi);
    lemma_around(g, h, 0, mb, sid);
    law_partition_is_predicted(h, 0, mb, 0, 0, 4, refi, sid);
    let pred = h.pred(0, mb, 0, 0, 4, refi, sid);
    lemma_partition(h, b1, mb, 0, 0, 4, 4, refi, pred);
    let r = mb_cavlc::p_whole(g, b, mb, sid, n0).0;
    let d = Mv { x: b1.se().0, y: b1.se().1.se().0 };
    lemma_minus(pred, d);
    lemma_same_around(g, h, r, mb);
    lemma_stored(h, r, 0, mb, 0, 0, 4, 4, Nb { refi, mv: mv_sum(pred, d) });
    lemma_in_picture(g, mb);
    assert(in_part(r, mb, 0, 0, 4, 4, col_of(g, mb), row_of(g, mb)));
}

/// The upper half of a P macroblock moves by the vector above it, where that has the same reference, and
/// the lower half by the one to its left, each with its coded difference. Both references are coded
/// before the differences.
pub proof fn law_upper_and_lower_half(g: GridsV, b: Bits, mb: int, sid: i32, n0: u32)
    requires
        place(g, mb, 0, 0, 4),
        surroundings_settled(g, 0, mb, sid),
        mb_cavlc::ref_idx(b, n0).0 >= 0,
        mb_cavlc::ref_idx(mb_cavlc::ref_idx(b, n0).1, n0).0 >= 0,
    ensures
        ({
            let r = mb_cavlc::p_wide(g, b, mb, sid, n0).0;
            let (r0, b) = mb_cavlc::ref_idx(b, n0);
            let (r1, b) = mb_cavlc::ref_idx(b, n0);
            let d0 = Mv { x: b.se().0, y: b.se().1.se().0 };
            let b = b.se().1.se().1;
            let d1 = Mv { x: b.se().0, y: b.se().1.se().0 };
            let upper = kept(r, 0, col_of(g, mb), row_of(g, mb));
            let lower = kept(r, 0, col_of(g, mb), row_of(g, mb) + 2);
            &&& same_around(g, r, mb)
            &&& part_is(r, 0, mb, 0, 0, 4, 2, upper) && part_is(r, 0, mb, 0, 2, 4, 2, lower)
            &&& upper.refi == r0 && lower.refi == r1
            &&& predicts_upper(minus(upper.mv, d0), g, 0, mb, r0, sid)
            &&& predicts_lower(minus(lower.mv, d1), g, 0, mb, r1, sid, upper)
        }),
{
    reveal(mb_cavlc::p_wide);
    let (r0, b1) = mb_cavlc::ref_idx(b, n0);
    let (r1, b2) = mb_cavlc::ref_idx(b1, n0);
    let g1 = g.fill(0, mb, 0, 0, 4, 2, zero_mv(), r0);
    lemma_fill(g, 0, mb, 0, 0, 4, 2, zero_mv(), r0);
    let h = g1.fill(0, mb, 0, 2, 4, 2, zero_mv(), r1);
    lemma_fill(g1, 0, mb, 0, 2, 4, 2, zero_mv(), r1);
    lemma_same_around(g, g1, h, mb);
    let p0 = h.pred_wide(0, mb, 0, r0, sid);
    let d0 = Mv { x: b2.se().0, y: b2.se().1.se().0 };
    let upper = Nb { refi: r0, mv: mv_sum(p0, d0) };
    law_halves_are_predicted(g, h, 0, mb, r0, sid, upper);
    lemma_partition(h, b2, mb, 0, 0, 4, 2, r0, p0);
    let (i, b3) = mb_cavlc::partition(h, b2, mb, 0, 0, 4, 2, r0, p0);
    lemma_same_around(g, h, i, mb);
    lemma_in_picture(g, mb);
    let (x, y) = (col_of(g, mb), row_of(g, mb));
    assert(in_part(g, mb, 0, 0, 4, 4, x, y) && in_part(g, mb, 0, 0, 4, 4, x, y + 1) && in_part(
        g,
        mb,
        0,
        0,
        4,
        4,
        x,
        y + 2,
    ));
    assert(kept(i, 0, x, y + 1) == upper);
    law_halves_are_predicted(g, i, 0, mb, r1, sid, upper);
    let p1 = i.pred_wide(0, mb, 1, r1, sid);
    let d1 = Mv { x: b3.se().0, y: b3.se().1.se().0 };
    lemma_partition(i, b3, mb, 0, 2, 4, 2, r1, p1);
    let (r, b4) = mb_cavlc::partition(i, b3, mb, 0, 2, 4, 2, r1, p1);
    lemma_same_around(g, i, r, mb);
    lemma_minus(p0, d0);
    lemma_minus(p1, d1);
    let lower = Nb { refi: r1, mv: mv_sum(p1, d1) };
    lemma_stored(i, r, 0, mb, 0, 2, 4, 2, lower);
    lemma_stored(h, i, 0, mb, 0, 0, 4, 2, upper);
    assert(kept(r, 0, x, y) == upper);
    assert(kept(r, 0, x, y + 2) == lower);
    assert forall|gx: int, gy: int| in_part(r, mb, 0, 0, 4, 2, gx, gy) implies #[trigger] kept(
        r,
        0,
        gx,
        gy,
    ) == upper by {
        assert(in_part(g, mb, 0, 0, 4, 4, gx, gy));
        assert(kept(i, 0, gx, gy) == upper);
    }
}

/// The left half of a P macroblock moves by the vector to its left, where that has the same reference,
/// and the right half by the one at its diagonal, each with its coded difference.
pub proof fn law_left_and_right_half(g: GridsV, b: Bits, mb: int, sid: i32, n0: u32)
    requires
        place(g, mb, 0, 0, 4),
        surroundings_settled(g, 0, mb, sid),
        mb_cavlc::ref_idx(b, n0).0 >= 0,
        mb_cavlc::ref_idx(mb_cavlc::ref_idx(b, n0).1, n0).0 >= 0,
    ensures
        ({
            let r = mb_cavlc::p_tall(g, b, mb, sid, n0).0;
            let (r0, b) = mb_cavlc::ref_idx(b, n0);
            let (r1, b) = mb_cavlc::ref_idx(b, n0);
            let d0 = Mv { x: b.se().0, y: b.se().1.se().0 };
            let b = b.se().1.se().1;
            let d1 = Mv { x: b.se().0, y: b.se().1.se().0 };
            let left = kept(r, 0, col_of(g, mb), row_of(g, mb));
            let right = kept(r, 0, col_of(g, mb) + 2, row_of(g, mb));
            &&& same_around(g, r, mb)
            &&& part_is(r, 0, mb, 0, 0, 2, 4, left) && part_is(r, 0, mb, 2, 0, 2, 4, right)
            &&& left.refi == r0 && right.refi == r1
            &&& predicts_left(minus(left.mv, d0), g, 0, mb, r0, sid)
            &&& predicts_right(minus(right.mv, d1), g, 0, mb, r1, sid, left)
        }),
{
    reveal(mb_cavlc::p_tall);
    let (r0, b1) = mb_cavlc::ref_idx(b, n0);
    let (r1, b2) = mb_cavlc::ref_idx(b1, n0);
    let g1 = g.fill(0, mb, 0, 0, 2, 4, zero_mv(), r0);
    lemma_fill(g, 0, mb, 0, 0, 2, 4, zero_mv(), r0);
    let h = g1.fill(0, mb, 2, 0, 2, 4, zero_mv(), r1);
    lemma_fill(g1, 0, mb, 2, 0, 2, 4, zero_mv(), r1);
    lemma_same_around(g, g1, h, mb);
    let p0 = h.pred_tall(0, mb, 0, r0, sid);
    let d0 = Mv { x: b2.se().0, y: b2.se().1.se().0 };
    let left = Nb { refi: r0, mv: mv_sum(p0, d0) };
    law_halves_are_predicted(g, h, 0, mb, r0, sid, left);
    lemma_partition(h, b2, mb, 0, 0, 2, 4, r0, p0);
    let (i, b3) = mb_cavlc::partition(h, b2, mb, 0, 0, 2, 4, r0, p0);
    lemma_same_around(g, h, i, mb);
    lemma_in_picture(g, mb);
    let (x, y) = (col_of(g, mb), row_of(g, mb));
    assert(in_part(g, mb, 0, 0, 4, 4, x, y) && in_part(g, mb, 0, 0, 4, 4, x + 1, y) && in_part(
        g,
        mb,
        0,
        0,
        4,
        4,
        x + 2,
        y,
    ));
    assert(kept(i, 0, x + 1, y) == left);
    law_halves_are_predicted(g, i, 0, mb, r1, sid, left);
    let p1 = i.pred_tall(0, mb, 1, r1, sid);
    let d1 = Mv { x: b3.se().0, y: b3.se().1.se().0 };
    lemma_partition(i, b3, mb, 2, 0, 2, 4, r1, p1);
    let (r, b4) = mb_cavlc::partition(i, b3, mb, 2, 0, 2, 4, r1, p1);
    lemma_same_around(g, i, r, mb);
    lemma_minus(p0, d0);
    lemma_minus(p1, d1);
    let right = Nb { refi: r1, mv: mv_sum(p1, d1) };
    lemma_stored(i, r, 0, mb, 2, 0, 2, 4, right);
    lemma_stored(h, i, 0, mb, 0, 0, 2, 4, left);
    assert(kept(r, 0, x, y) == left);
    assert(kept(r, 0, x + 2, y) == right);
    assert forall|gx: int, gy: int| in_part(r, mb, 0, 0, 2, 4, gx, gy) implies #[trigger] kept(
        r,
        0,
        gx,
        gy,
    ) == left by {
        assert(in_part(g, mb, 0, 0, 4, 4, gx, gy));
        assert(kept(i, 0, gx, gy) == left);
    }
}

// ---------------------------------------------------------------------------
// Macroblocks of CABAC streams

/// A coded difference, columns first. The sums of the differences around it choose its contexts.
pub open spec fn difference(c: Cab, sum: Mv) -> (Mv, Cab) {
    let (dx, ax, c) = mb_cabac::mvd_part(c, 40, sum.x);
    let (dy, ay, c) = mb_cabac::mvd_part(c, 47, sum.y);
    (Mv { x: dx, y: dy }, c)
}

proof fn lemma_part(
    g: GridsV,
    c: Cab,
    l: int,
    mb: int,
    sid: i32,
    bx: int,
    by: int,
    w: int,
    h: int,
    refi: i32,
    pred: Mv,
)
    requires
        g.wf(),
        0 <= mb < g.mbs(),
        0 <= l < 2,
        part_ok(bx, by, w, h),
    ensures
        ({
            let (r, rest) = mb_cabac::part(g, c, l, mb, sid, bx, by, w, h, refi, pred);
            let (d, c1) = difference(c, g.amvd(l, mb, bx, by, sid));
            &&& stored(g, r, l, mb, bx, by, w, h, Nb { refi, mv: mv_sum(pred, d) })
            &&& rest == c1
        }),
{
    reveal(mb_cabac::part);
    let (d, c1) = difference(c, g.amvd(l, mb, bx, by, sid));
    let f = g.fill(l, mb, bx, by, w, h, mv_sum(pred, d), refi);
    lemma_fill(g, l, mb, bx, by, w, h, mv_sum(pred, d), refi);
    let r = mb_cabac::part(g, c, l, mb, sid, bx, by, w, h, refi, pred).0;
    assert(r.wf() && r.mb_w == f.mb_w && r.mb_h == f.mb_h && r.decoded == f.decoded && r.slice_id
        == f.slice_id && r.l0.mv == f.l0.mv && r.l0.refi == f.l0.refi && r.l1.mv == f.l1.mv
        && r.l1.refi == f.l1.refi) by {
        reveal(GridsV::fill_mvd);
        reveal(mb_rect);
    }
    assert forall|k: int, gx: int, gy: int| #[trigger] kept(r, k, gx, gy) == kept(f, k, gx, gy) by {
    }
}

/// The contexts of a difference follow from what is kept of the differences to the left and above.
pub proof fn law_difference_contexts(g: GridsV, l: int, mb: int, bx: int, by: int, sid: i32)
    requires
        place(g, mb, bx, by, 1),
        0 <= l < 2,
    ensures
        ({
            let of = |gx: int, gy: int|
                if l == 0 {
                    g.l0.mvd[gy * (4 * g.mb_w) + gx]
                } else {
                    g.l1.mvd[gy * (4 * g.mb_w) + gx]
                };
            let (x, y) = (col_of(g, mb) + bx, row_of(g, mb) + by);
            let a = if at_left(g, l, mb, bx, by, sid) is Some {
                of(x - 1, y)
            } else {
                zero_mv()
            };
            let b = if at_top(g, l, mb, bx, by, sid) is Some {
                of(x, y - 1)
            } else {
                zero_mv()
            };
            g.amvd(l, mb, bx, by, sid) == mv_sum(a, b)
        }),
{
    reveal(GridsV::amvd);
    let scan = super::grids::scan_of(bx, by);
    super::motion_laws::lemma_avail(g, mb, bx - 1, by, scan, sid);
    super::motion_laws::lemma_avail(g, mb, bx, by - 1, scan, sid);
    if bx > 0 {
        super::motion_laws::lemma_scan(bx - 1, by, bx, by);
    }
    if by > 0 {
        super::motion_laws::lemma_scan(bx, by - 1, bx, by);
    }
}

/// An undivided partition of list `l`, as P and B macroblocks have it: predicted from its surroundings.
pub proof fn law_own_partition(
    g: GridsV,
    c: Cab,
    l: int,
    mb: int,
    sid: i32,
    bx: int,
    by: int,
    w: int,
    h: int,
    refi: i32,
)
    requires
        place(g, mb, bx, by, w),
        part_ok(bx, by, w, h),
        0 <= l < 2,
        0 <= refi,
        all_settled(g, l, mb, bx, by, w, sid),
    ensures
        ({
            let r = mb_cabac::own_part(g, c, l, mb, sid, bx, by, w, h, refi).0;
            let d = difference(c, g.amvd(l, mb, bx, by, sid)).0;
            let v = kept(r, l, col_of(g, mb) + bx, row_of(g, mb) + by).mv;
            &&& stored(g, r, l, mb, bx, by, w, h, Nb { refi, mv: v })
            &&& is_predicted(
                minus(v, d),
                at_left(g, l, mb, bx, by, sid),
                at_top(g, l, mb, bx, by, sid),
                at_diagonal(g, l, mb, bx, by, w, sid),
                refi,
            )
        }),
{
    reveal(mb_cabac::own_part);
    let pred = g.pred(l, mb, bx, by, w, refi, sid);
    law_partition_is_predicted(g, l, mb, bx, by, w, refi, sid);
    lemma_part(g, c, l, mb, sid, bx, by, w, h, refi, pred);
    lemma_minus(pred, difference(c, g.amvd(l, mb, bx, by, sid)).0);
    lemma_in_picture(g, mb);
    assert(in_part(g, mb, 0, 0, 4, 4, col_of(g, mb) + bx, row_of(g, mb) + by));
}

/// A half of a B macroblock in one list: the upper one is predicted from above and the lower one from the
/// left, the left one from the left and the right one from the diagonal, as far as references agree.
/// `g` is the picture before the macroblock, and `h` with what is known of it.
pub proof fn law_half_of_b_macroblock(
    g: GridsV,
    h: GridsV,
    c: Cab,
    l: int,
    mb: int,
    sid: i32,
    i: Info,
    p: int,
    refi: i32,
)
    requires
        place(g, mb, 0, 0, 4),
        0 <= l < 2,
        0 <= p < 2,
        0 <= refi,
        same_around(g, h, mb),
        surroundings_settled(g, l, mb, sid),
        i.shape == 1 || i.shape == 2,
        kept(h, l, col_of(g, mb), row_of(g, mb) + 1).refi >= 0,
        kept(h, l, col_of(g, mb) + 1, row_of(g, mb)).refi >= 0,
    ensures
        ({
            let r = half_mv(h, c, l, mb, sid, i, p, refi).0;
            let wide = i.shape == 1;
            let (bx, by) = if wide {
                (0, 2 * p)
            } else {
                (2 * p, 0)
            };
            let (w, h4) = if wide {
                (4int, 2int)
            } else {
                (2int, 4int)
            };
            let d = difference(c, h.amvd(l, mb, bx, by, sid)).0;
            let v = kept(r, l, col_of(g, mb) + bx, row_of(g, mb) + by).mv;
            let upper = kept(h, l, col_of(g, mb), row_of(g, mb) + 1);
            let left = kept(h, l, col_of(g, mb) + 1, row_of(g, mb));
            if !uses(i, p, l) {
                r == h
            } else {
                &&& stored(h, r, l, mb, bx, by, w, h4, Nb { refi, mv: v })
                &&& wide && p == 0 ==> predicts_upper(minus(v, d), g, l, mb, refi, sid)
                &&& wide && p == 1 ==> predicts_lower(minus(v, d), g, l, mb, refi, sid, upper)
                &&& !wide && p == 0 ==> predicts_left(minus(v, d), g, l, mb, refi, sid)
                &&& !wide && p == 1 ==> predicts_right(minus(v, d), g, l, mb, refi, sid, left)
            }
        }),
{
    reveal(half_mv);
    let (x, y) = (col_of(g, mb), row_of(g, mb));
    law_halves_are_predicted(g, h, l, mb, refi, sid, kept(h, l, x, y + 1));
    law_halves_are_predicted(g, h, l, mb, refi, sid, kept(h, l, x + 1, y));
    lemma_in_picture(g, mb);
    if uses(i, p, l) {
        if i.shape == 1 {
            let pred = h.pred_wide(l, mb, p, refi, sid);
            lemma_part(h, c, l, mb, sid, 0, 2 * p, 4, 2, refi, pred);
            lemma_minus(pred, difference(c, h.amvd(l, mb, 0, 2 * p, sid)).0);
            assert(in_part(g, mb, 0, 0, 4, 4, x, y + 2 * p));
        } else {
            let pred = h.pred_tall(l, mb, p, refi, sid);
            lemma_part(h, c, l, mb, sid, 2 * p, 0, 2, 4, refi, pred);
            lemma_minus(pred, difference(c, h.amvd(l, mb, 2 * p, 0, sid)).0);
            assert(in_part(g, mb, 0, 0, 4, 4, x + 2 * p, y));
        }
    }
}

/// An undivided P macroblock.
pub proof fn law_whole_macroblock_cabac(g: GridsV, c: Cab, mb: int, sid: i32, n0: u32)
    requires
        place(g, mb, 0, 0, 4),
        all_settled(g, 0, mb, 0, 0, 4, sid),
        mb_cabac::ref_idx(g, c, 0, mb, sid, 0, 0, n0, false).0 >= 0,
    ensures
        ({
            let r = mb_cabac::p_whole(g, c, mb, sid, n0).0;
            let (refi, c) = mb_cabac::ref_idx(g, c, 0, mb, sid, 0, 0, n0, false);
            let n = kept(r, 0, col_of(g, mb), row_of(g, mb));
            &&& same_around(g, r, mb)
            &&& whole_is(r, 0, mb, n)
            &&& n.refi == refi
            &&& exists|sum: Mv|
                is_predicted(
                    minus(n.mv, #[trigger] difference(c, sum).0),
                    at_left(g, 0, mb, 0, 0, sid),
                    at_top(g, 0, mb, 0, 0, sid),
                    at_diagonal(g, 0, mb, 0, 0, 4, sid),
                    refi,
                )
        }),
{
    reveal(mb_cabac::p_whole);
    let (refi, c1) = mb_cabac::ref_idx(g, c, 0, mb, sid, 0, 0, n0, false);
    let h = g.fill(0, mb, 0, 0, 4, 4, zero_mv(), refi);
    lemma_fill(g, 0, mb, 0, 0, 4, 4, zero_mv(), refi);
    lemma_around(g, h, 0, mb, sid);
    law_own_partition(h, c1, 0, mb, sid, 0, 0, 4, 4, refi);
    let r = mb_cabac::p_whole(g, c, mb, sid, n0).0;
    lemma_same_around(g, h, r, mb);
    let n = kept(r, 0, col_of(g, mb), row_of(g, mb));
    lemma_stored(h, r, 0, mb, 0, 0, 4, 4, Nb { refi, mv: n.mv });
    lemma_in_picture(g, mb);
    assert(in_part(r, mb, 0, 0, 4, 4, col_of(g, mb), row_of(g, mb)));
    let sum = h.amvd(0, mb, 0, 0, sid);
    assert(is_predicted(
        minus(n.mv, difference(c1, sum).0),
        at_left(g, 0, mb, 0, 0, sid),
        at_top(g, 0, mb, 0, 0, sid),
        at_diagonal(g, 0, mb, 0, 0, 4, sid),
        refi,
    ));
}

/// The upper half of a P macroblock moves by the vector above it, where that has the same reference, and
/// the lower half by the one to its left.
pub proof fn law_upper_and_lower_half_cabac(g: GridsV, c: Cab, mb: int, sid: i32, n0: u32)
    requires
        place(g, mb, 0, 0, 4),
        surroundings_settled(g, 0, mb, sid),
        mb_cabac::ref_idx(g, c, 0, mb, sid, 0, 0, n0, false).0 >= 0,
        ({
            let (r0, c) = mb_cabac::ref_idx(g, c, 0, mb, sid, 0, 0, n0, false);
            let g1 = g.fill(0, mb, 0, 0, 4, 2, zero_mv(), r0);
            mb_cabac::ref_idx(g1, c, 0, mb, sid, 0, 2, n0, false).0 >= 0
        }),
    ensures
        ({
            let r = mb_cabac::p_wide(g, c, mb, sid, n0).0;
            let (r0, c) = mb_cabac::ref_idx(g, c, 0, mb, sid, 0, 0, n0, false);
            let g1 = g.fill(0, mb, 0, 0, 4, 2, zero_mv(), r0);
            let (r1, c) = mb_cabac::ref_idx(g1, c, 0, mb, sid, 0, 2, n0, false);
            let upper = kept(r, 0, col_of(g, mb), row_of(g, mb));
            let lower = kept(r, 0, col_of(g, mb) + 0, row_of(g, mb) + 2);
            &&& same_around(g, r, mb)
            &&& part_is(r, 0, mb, 0, 0, 4, 2, upper)
            &&& part_is(r, 0, mb, 0, 2, 4, 2, lower)
            &&& upper.refi == r0 && lower.refi == r1
            &&& exists|s0: Mv, s1: Mv|
                {
                    &&& predicts_upper(
                        minus(upper.mv, (#[trigger] difference(c, s0)).0),
                        g,
                        0,
                        mb,
                        r0,
                        sid,
                    )
                    &&& predicts_lower(
                        minus(lower.mv, (#[trigger] difference(difference(c, s0).1, s1)).0),
                        g,
                        0,
                        mb,
                        r1,
                        sid,
                        upper,
                    )
                }
        }),
{
    reveal(mb_cabac::p_wide);
    let (r0, c1) = mb_cabac::ref_idx(g, c, 0, mb, sid, 0, 0, n0, false);
    let g1 = g.fill(0, mb, 0, 0, 4, 2, zero_mv(), r0);
    lemma_fill(g, 0, mb, 0, 0, 4, 2, zero_mv(), r0);
    let (r1, c2) = mb_cabac::ref_idx(g1, c1, 0, mb, sid, 0, 2, n0, false);
    let h = g1.fill(0, mb, 0, 2, 4, 2, zero_mv(), r1);
    lemma_fill(g1, 0, mb, 0, 2, 4, 2, zero_mv(), r1);
    lemma_same_around(g, g1, h, mb);
    let p0 = h.pred_wide(0, mb, 0, r0, sid);
    let s0 = h.amvd(0, mb, 0, 0, sid);
    let d0 = difference(c2, s0).0;
    let upper = Nb { refi: r0, mv: mv_sum(p0, d0) };
    law_halves_are_predicted(g, h, 0, mb, r0, sid, upper);
    lemma_part(h, c2, 0, mb, sid, 0, 0, 4, 2, r0, p0);
    let (i, c3) = mb_cabac::part(h, c2, 0, mb, sid, 0, 0, 4, 2, r0, p0);
    lemma_same_around(g, h, i, mb);
    lemma_in_picture(g, mb);
    let (x, y) = (col_of(g, mb), row_of(g, mb));
    assert(in_part(g, mb, 0, 0, 4, 4, x, y));
    assert(in_part(g, mb, 0, 0, 4, 4, x, y + 1));
    assert(in_part(g, mb, 0, 0, 4, 4, x + 0, y + 2));
    assert(kept(i, 0, x, y + 1) == upper);
    law_halves_are_predicted(g, i, 0, mb, r1, sid, upper);
    let p1 = i.pred_wide(0, mb, 1, r1, sid);
    let s1 = i.amvd(0, mb, 0, 2, sid);
    let d1 = difference(c3, s1).0;
    lemma_part(i, c3, 0, mb, sid, 0, 2, 4, 2, r1, p1);
    let (r, c4) = mb_cabac::part(i, c3, 0, mb, sid, 0, 2, 4, 2, r1, p1);
    lemma_same_around(g, i, r, mb);
    lemma_minus(p0, d0);
    lemma_minus(p1, d1);
    let lower = Nb { refi: r1, mv: mv_sum(p1, d1) };
    lemma_stored(i, r, 0, mb, 0, 2, 4, 2, lower);
    lemma_stored(h, i, 0, mb, 0, 0, 4, 2, upper);
    assert(kept(r, 0, x, y) == upper);
    assert(kept(r, 0, x + 0, y + 2) == lower);
    assert forall|gx: int, gy: int| in_part(r, mb, 0, 0, 4, 2, gx, gy) implies #[trigger] kept(
        r,
        0,
        gx,
        gy,
    ) == upper by {
        assert(in_part(g, mb, 0, 0, 4, 4, gx, gy));
        assert(kept(i, 0, gx, gy) == upper);
    }
    assert(predicts_upper(minus(upper.mv, difference(c2, s0).0), g, 0, mb, r0, sid));
    assert(predicts_lower(
        minus(lower.mv, difference(difference(c2, s0).1, s1).0),
        g,
        0,
        mb,
        r1,
        sid,
        upper,
    ));
}

/// The left half of a P macroblock moves by the vector to its left, where that has the same reference,
/// and the right half by the one at its diagonal.
pub proof fn law_left_and_right_half_cabac(g: GridsV, c: Cab, mb: int, sid: i32, n0: u32)
    requires
        place(g, mb, 0, 0, 4),
        surroundings_settled(g, 0, mb, sid),
        mb_cabac::ref_idx(g, c, 0, mb, sid, 0, 0, n0, false).0 >= 0,
        ({
            let (r0, c) = mb_cabac::ref_idx(g, c, 0, mb, sid, 0, 0, n0, false);
            let g1 = g.fill(0, mb, 0, 0, 2, 4, zero_mv(), r0);
            mb_cabac::ref_idx(g1, c, 0, mb, sid, 2, 0, n0, false).0 >= 0
        }),
    ensures
        ({
            let r = mb_cabac::p_tall(g, c, mb, sid, n0).0;
            let (r0, c) = mb_cabac::ref_idx(g, c, 0, mb, sid, 0, 0, n0, false);
            let g1 = g.fill(0, mb, 0, 0, 2, 4, zero_mv(), r0);
            let (r1, c) = mb_cabac::ref_idx(g1, c, 0, mb, sid, 2, 0, n0, false);
            let left = kept(r, 0, col_of(g, mb), row_of(g, mb));
            let right = kept(r, 0, col_of(g, mb) + 2, row_of(g, mb) + 0);
            &&& same_around(g, r, mb)
            &&& part_is(r, 0, mb, 0, 0, 2, 4, left)
            &&& part_is(r, 0, mb, 2, 0, 2, 4, right)
            &&& left.refi == r0 && right.refi == r1
            &&& exists|s0: Mv, s1: Mv|
                {
                    &&& predicts_left(
                        minus(left.mv, (#[trigger] difference(c, s0)).0),
                        g,
                        0,
                        mb,
                        r0,
                        sid,
                    )
                    &&& predicts_right(
                        minus(right.mv, (#[trigger] difference(difference(c, s0).1, s1)).0),
                        g,
                        0,
                        mb,
                        r1,
                        sid,
                        left,
                    )
                }
        }),
{
    reveal(mb_cabac::p_tall);
    let (r0, c1) = mb_cabac::ref_idx(g, c, 0, mb, sid, 0, 0, n0, false);
    let g1 = g.fill(0, mb, 0, 0, 2, 4, zero_mv(), r0);
    lemma_fill(g, 0, mb, 0, 0, 2, 4, zero_mv(), r0);
    let (r1, c2) = mb_cabac::ref_idx(g1, c1, 0, mb, sid, 2, 0, n0, false);
    let h = g1.fill(0, mb, 2, 0, 2, 4, zero_mv(), r1);
    lemma_fill(g1, 0, mb, 2, 0, 2, 4, zero_mv(), r1);
    lemma_same_around(g, g1, h, mb);
    let p0 = h.pred_tall(0, mb, 0, r0, sid);
    let s0 = h.amvd(0, mb, 0, 0, sid);
    let d0 = difference(c2, s0).0;
    let left = Nb { refi: r0, mv: mv_sum(p0, d0) };
    law_halves_are_predicted(g, h, 0, mb, r0, sid, left);
    lemma_part(h, c2, 0, mb, sid, 0, 0, 2, 4, r0, p0);
    let (i, c3) = mb_cabac::part(h, c2, 0, mb, sid, 0, 0, 2, 4, r0, p0);
    lemma_same_around(g, h, i, mb);
    lemma_in_picture(g, mb);
    let (x, y) = (col_of(g, mb), row_of(g, mb));
    assert(in_part(g, mb, 0, 0, 4, 4, x, y));
    assert(in_part(g, mb, 0, 0, 4, 4, x + 1, y));
    assert(in_part(g, mb, 0, 0, 4, 4, x + 2, y + 0));
    assert(kept(i, 0, x + 1, y) == left);
    law_halves_are_predicted(g, i, 0, mb, r1, sid, left);
    let p1 = i.pred_tall(0, mb, 1, r1, sid);
    let s1 = i.amvd(0, mb, 2, 0, sid);
    let d1 = difference(c3, s1).0;
    lemma_part(i, c3, 0, mb, sid, 2, 0, 2, 4, r1, p1);
    let (r, c4) = mb_cabac::part(i, c3, 0, mb, sid, 2, 0, 2, 4, r1, p1);
    lemma_same_around(g, i, r, mb);
    lemma_minus(p0, d0);
    lemma_minus(p1, d1);
    let right = Nb { refi: r1, mv: mv_sum(p1, d1) };
    lemma_stored(i, r, 0, mb, 2, 0, 2, 4, right);
    lemma_stored(h, i, 0, mb, 0, 0, 2, 4, left);
    assert(kept(r, 0, x, y) == left);
    assert(kept(r, 0, x + 2, y + 0) == right);
    assert forall|gx: int, gy: int| in_part(r, mb, 0, 0, 2, 4, gx, gy) implies #[trigger] kept(
        r,
        0,
        gx,
        gy,
    ) == left by {
        assert(in_part(g, mb, 0, 0, 4, 4, gx, gy));
        assert(kept(i, 0, gx, gy) == left);
    }
    assert(predicts_left(minus(left.mv, difference(c2, s0).0), g, 0, mb, r0, sid));
    assert(predicts_right(
        minus(right.mv, difference(difference(c2, s0).1, s1).0),
        g,
        0,
        mb,
        r1,
        sid,
        left,
    ));
}

// ---------------------------------------------------------------------------
// Quadrants

/// From `g` to `h` a partition of list `l` has got a reference and the vector that its surroundings
/// predict, and a difference `d`.
pub open spec fn moved(
    g: GridsV,
    h: GridsV,
    l: int,
    mb: int,
    sid: i32,
    bx: int,
    by: int,
    w: int,
    h4: int,
    refi: i32,
    d: Mv,
) -> bool {
    let v = kept(h, l, col_of(g, mb) + bx, row_of(g, mb) + by).mv;
    &&& stored(g, h, l, mb, bx, by, w, h4, Nb { refi, mv: v })
    &&& refi >= 0 && all_settled(g, l, mb, bx, by, w, sid) ==> is_predicted(
        minus(v, d),
        at_left(g, l, mb, bx, by, sid),
        at_top(g, l, mb, bx, by, sid),
        at_diagonal(g, l, mb, bx, by, w, sid),
        refi,
    )
}

proof fn lemma_sub_part(
    g: GridsV,
    b: Bits,
    mb: int,
    sid: i32,
    bx: int,
    by: int,
    w: int,
    h: int,
    refi: i32,
)
    requires
        g.wf(),
        0 <= mb < g.mbs(),
        part_ok(bx, by, w, h),
    ensures
        ({
            let (r, rest) = mb_cavlc::sub_part(g, b, mb, sid, bx, by, w, h, refi);
            &&& moved(g, r, 0, mb, sid, bx, by, w, h, refi, mb_cavlc::mvd(b).0)
            &&& rest == mb_cavlc::mvd(b).1
        }),
{
    reveal(mb_cavlc::sub_part);
    let pred = g.pred(0, mb, bx, by, w, refi, sid);
    lemma_partition(g, b, mb, bx, by, w, h, refi, pred);
    lemma_minus(pred, mb_cavlc::mvd(b).0);
    lemma_in_picture(g, mb);
    assert(in_part(g, mb, 0, 0, 4, 4, col_of(g, mb) + bx, row_of(g, mb) + by));
    if refi >= 0 && all_settled(g, 0, mb, bx, by, w, sid) {
        law_partition_is_predicted(g, 0, mb, bx, by, w, refi, sid);
    }
}

proof fn lemma_own_part(
    g: GridsV,
    c: Cab,
    l: int,
    mb: int,
    sid: i32,
    bx: int,
    by: int,
    w: int,
    h: int,
    refi: i32,
)
    requires
        g.wf(),
        0 <= mb < g.mbs(),
        0 <= l < 2,
        part_ok(bx, by, w, h),
    ensures
        ({
            let (r, rest) = mb_cabac::own_part(g, c, l, mb, sid, bx, by, w, h, refi);
            let (d, c1) = difference(c, g.amvd(l, mb, bx, by, sid));
            &&& moved(g, r, l, mb, sid, bx, by, w, h, refi, d)
            &&& rest == c1
        }),
{
    reveal(mb_cabac::own_part);
    let pred = g.pred(l, mb, bx, by, w, refi, sid);
    lemma_part(g, c, l, mb, sid, bx, by, w, h, refi, pred);
    lemma_minus(pred, difference(c, g.amvd(l, mb, bx, by, sid)).0);
    lemma_in_picture(g, mb);
    assert(in_part(g, mb, 0, 0, 4, 4, col_of(g, mb) + bx, row_of(g, mb) + by));
    if refi >= 0 && all_settled(g, l, mb, bx, by, w, sid) {
        law_partition_is_predicted(g, l, mb, bx, by, w, refi, sid);
    }
}

/// How a quadrant at block `x`, `y` is divided, from the first grids to the last: not, in an upper and a
/// lower part, in a left and a right one, or in four, row by row. Each part has the vector that is
/// predicted for it where it stands, with the parts before it, and the next coded difference.
pub open spec fn divides_cavlc(
    g: GridsV,
    i: GridsV,
    j: GridsV,
    k: GridsV,
    r: GridsV,
    c: Bits,
    mb: int,
    sid: i32,
    x: int,
    y: int,
    t: u32,
    refi: i32,
) -> bool {
    let (d0, c1) = mb_cavlc::mvd(c);
    let (d1, c2) = mb_cavlc::mvd(c1);
    let (d2, c3) = mb_cavlc::mvd(c2);
    let d3 = mb_cavlc::mvd(c3).0;
    if t == 0 {
        moved(g, r, 0, mb, sid, x, y, 2, 2, refi, d0)
    } else if t == 1 {
        &&& moved(g, i, 0, mb, sid, x, y, 2, 1, refi, d0)
        &&& moved(i, r, 0, mb, sid, x, y + 1, 2, 1, refi, d1)
    } else if t == 2 {
        &&& moved(g, i, 0, mb, sid, x, y, 1, 2, refi, d0)
        &&& moved(i, r, 0, mb, sid, x + 1, y, 1, 2, refi, d1)
    } else {
        &&& moved(g, i, 0, mb, sid, x, y, 1, 1, refi, d0)
        &&& moved(i, j, 0, mb, sid, x + 1, y, 1, 1, refi, d1)
        &&& moved(j, k, 0, mb, sid, x, y + 1, 1, 1, refi, d2)
        &&& moved(k, r, 0, mb, sid, x + 1, y + 1, 1, 1, refi, d3)
    }
}

/// A quadrant is divided by its type.
pub proof fn law_quadrant_cavlc(
    g: GridsV,
    c: Bits,
    mb: int,
    sid: i32,
    x: int,
    y: int,
    t: u32,
    refi: i32,
)
    requires
        g.wf(),
        0 <= mb < g.mbs(),
        0 <= x <= 2,
        0 <= y <= 2,
    ensures
        exists|i: GridsV, j: GridsV, k: GridsV| #[trigger]
            divides_cavlc(
                g,
                i,
                j,
                k,
                mb_cavlc::quadrant(g, c, mb, sid, x, y, t, refi).0,
                c,
                mb,
                sid,
                x,
                y,
                t,
                refi,
            ),
{
    reveal(mb_cavlc::quadrant);
    let r = mb_cavlc::quadrant(g, c, mb, sid, x, y, t, refi).0;
    if t == 0 {
        lemma_sub_part(g, c, mb, sid, x, y, 2, 2, refi);
        assert(divides_cavlc(g, g, g, g, r, c, mb, sid, x, y, t, refi));
    } else if t == 1 {
        let (i, c1) = mb_cavlc::sub_part(g, c, mb, sid, x, y, 2, 1, refi);
        lemma_sub_part(g, c, mb, sid, x, y, 2, 1, refi);
        lemma_sub_part(i, c1, mb, sid, x, y + 1, 2, 1, refi);
        assert(divides_cavlc(g, i, g, g, r, c, mb, sid, x, y, t, refi));
    } else if t == 2 {
        let (i, c1) = mb_cavlc::sub_part(g, c, mb, sid, x, y, 1, 2, refi);
        lemma_sub_part(g, c, mb, sid, x, y, 1, 2, refi);
        lemma_sub_part(i, c1, mb, sid, x + 1, y, 1, 2, refi);
        assert(divides_cavlc(g, i, g, g, r, c, mb, sid, x, y, t, refi));
    } else {
        let (i, c1) = mb_cavlc::sub_part(g, c, mb, sid, x, y, 1, 1, refi);
        lemma_sub_part(g, c, mb, sid, x, y, 1, 1, refi);
        let (j, c2) = mb_cavlc::sub_part(i, c1, mb, sid, x + 1, y, 1, 1, refi);
        lemma_sub_part(i, c1, mb, sid, x + 1, y, 1, 1, refi);
        let (k, c3) = mb_cavlc::sub_part(j, c2, mb, sid, x, y + 1, 1, 1, refi);
        lemma_sub_part(j, c2, mb, sid, x, y + 1, 1, 1, refi);
        lemma_sub_part(k, c3, mb, sid, x + 1, y + 1, 1, 1, refi);
        assert(divides_cavlc(g, i, j, k, r, c, mb, sid, x, y, t, refi));
    }
}

/// How a quadrant at block `x`, `y` is divided, from the first grids to the last: not, in an upper and a
/// lower part, in a left and a right one, or in four, row by row. Each part has the vector that is
/// predicted for it where it stands, with the parts before it, and the next coded difference.
pub open spec fn divides_cabac(
    g: GridsV,
    i: GridsV,
    j: GridsV,
    k: GridsV,
    r: GridsV,
    c: Cab,
    l: int,
    mb: int,
    sid: i32,
    x: int,
    y: int,
    t: u32,
    refi: i32,
    s0: Mv,
    s1: Mv,
    s2: Mv,
    s3: Mv,
) -> bool {
    let (d0, c1) = difference(c, s0);
    let (d1, c2) = difference(c1, s1);
    let (d2, c3) = difference(c2, s2);
    let d3 = difference(c3, s3).0;
    if t == 0 {
        moved(g, r, l, mb, sid, x, y, 2, 2, refi, d0)
    } else if t == 1 {
        &&& moved(g, i, l, mb, sid, x, y, 2, 1, refi, d0)
        &&& moved(i, r, l, mb, sid, x, y + 1, 2, 1, refi, d1)
    } else if t == 2 {
        &&& moved(g, i, l, mb, sid, x, y, 1, 2, refi, d0)
        &&& moved(i, r, l, mb, sid, x + 1, y, 1, 2, refi, d1)
    } else {
        &&& moved(g, i, l, mb, sid, x, y, 1, 1, refi, d0)
        &&& moved(i, j, l, mb, sid, x + 1, y, 1, 1, refi, d1)
        &&& moved(j, k, l, mb, sid, x, y + 1, 1, 1, refi, d2)
        &&& moved(k, r, l, mb, sid, x + 1, y + 1, 1, 1, refi, d3)
    }
}

/// A quadrant is divided by its type.
pub proof fn law_quadrant_cabac(
    g: GridsV,
    c: Cab,
    l: int,
    mb: int,
    sid: i32,
    x: int,
    y: int,
    t: u32,
    refi: i32,
)
    requires
        g.wf(),
        0 <= mb < g.mbs(),
        0 <= x <= 2,
        0 <= y <= 2,
        0 <= l < 2,
    ensures
        exists|i: GridsV, j: GridsV, k: GridsV, s0: Mv, s1: Mv, s2: Mv, s3: Mv| #[trigger]
            divides_cabac(
                g,
                i,
                j,
                k,
                mb_cabac::quadrant(g, c, l, mb, sid, x, y, t, refi).0,
                c,
                l, mb,
                sid,
                x,
                y,
                t,
                refi, s0, s1, s2, s3,
            ),
{
    reveal(mb_cabac::quadrant);
    let r = mb_cabac::quadrant(g, c, l, mb, sid, x, y, t, refi).0;
    let z = zero_mv();
    if t == 0 {
        lemma_own_part(g, c, l, mb, sid, x, y, 2, 2, refi);
        assert(divides_cabac(
            g,
            g,
            g,
            g,
            r,
            c,
            l,
            mb,
            sid,
            x,
            y,
            t,
            refi,
            g.amvd(l, mb, x, y, sid),
            z,
            z,
            z,
        ));
    } else if t == 1 {
        let (i, c1) = mb_cabac::own_part(g, c, l, mb, sid, x, y, 2, 1, refi);
        lemma_own_part(g, c, l, mb, sid, x, y, 2, 1, refi);
        lemma_own_part(i, c1, l, mb, sid, x, y + 1, 2, 1, refi);
        assert(divides_cabac(
            g,
            i,
            g,
            g,
            r,
            c,
            l,
            mb,
            sid,
            x,
            y,
            t,
            refi,
            g.amvd(l, mb, x, y, sid),
            i.amvd(l, mb, x, y + 1, sid),
            z,
            z,
        ));
    } else if t == 2 {
        let (i, c1) = mb_cabac::own_part(g, c, l, mb, sid, x, y, 1, 2, refi);
        lemma_own_part(g, c, l, mb, sid, x, y, 1, 2, refi);
        lemma_own_part(i, c1, l, mb, sid, x + 1, y, 1, 2, refi);
        assert(divides_cabac(
            g,
            i,
            g,
            g,
            r,
            c,
            l,
            mb,
            sid,
            x,
            y,
            t,
            refi,
            g.amvd(l, mb, x, y, sid),
            i.amvd(l, mb, x + 1, y, sid),
            z,
            z,
        ));
    } else {
        let (i, c1) = mb_cabac::own_part(g, c, l, mb, sid, x, y, 1, 1, refi);
        lemma_own_part(g, c, l, mb, sid, x, y, 1, 1, refi);
        let (j, c2) = mb_cabac::own_part(i, c1, l, mb, sid, x + 1, y, 1, 1, refi);
        lemma_own_part(i, c1, l, mb, sid, x + 1, y, 1, 1, refi);
        let (k, c3) = mb_cabac::own_part(j, c2, l, mb, sid, x, y + 1, 1, 1, refi);
        lemma_own_part(j, c2, l, mb, sid, x, y + 1, 1, 1, refi);
        lemma_own_part(k, c3, l, mb, sid, x + 1, y + 1, 1, 1, refi);
        assert(divides_cabac(
            g,
            i,
            j,
            k,
            r,
            c,
            l,
            mb,
            sid,
            x,
            y,
            t,
            refi,
            g.amvd(l, mb, x, y, sid),
            i.amvd(l, mb, x + 1, y, sid),
            j.amvd(l, mb, x, y + 1, sid),
            k.amvd(l, mb, x + 1, y + 1, sid),
        ));
    }
}

// ---------------------------------------------------------------------------
// Types of B macroblocks

/// Lists by number: 1 for list 0, 2 for list 1, 3 for both.
pub open spec fn has_lists(n: int, l0: bool, l1: bool) -> bool {
    l0 == (n == 1 || n == 3) && l1 == (n == 2 || n == 3)
}

/// The types of B macroblocks: undivided ones with list 0, list 1 or both; then, for each pair of lists,
/// an upper and a lower half and a left and a right half; and quadrants. First both halves have the
/// same single list, then different ones, then one of them has both lists, and last both.
pub proof fn law_b_macroblock_types(t: u32)
    requires
        1 <= t <= 22,
    ensures
        ({
            let i = b_mb_info(t);
            let pairs: Seq<(int, int)> = seq![
                (1, 1),
                (2, 2),
                (1, 2),
                (2, 1),
                (1, 3),
                (2, 3),
                (3, 1),
                (3, 2),
                (3, 3),
            ];
            let (first, second) = pairs[(t - 4) / 2];
            &&& t <= 3 ==> i.shape == 0 && has_lists(t as int, i.p0l0, i.p0l1)
            &&& 4 <= t <= 21 ==> i.shape == 1 + t % 2 && has_lists(first, i.p0l0, i.p0l1)
                && has_lists(second, i.p1l0, i.p1l1)
            &&& t == 22 ==> i.shape == 3
        }),
{
    reveal(b_mb_info);
}

/// The types of quadrants of a B macroblock: undivided ones with list 0, list 1 or both, then in halves
/// with each of these, and then in four.
pub proof fn law_b_quadrant_types(t: u32)
    requires
        1 <= t <= 12,
    ensures
        ({
            let i = b_sub_info(t);
            let lists = if t <= 3 {
                t as int
            } else if t <= 9 {
                1 + (t - 4) / 2
            } else {
                t - 9
            };
            &&& has_lists(lists, i.p0l0, i.p0l1)
            &&& i.shape == if t <= 3 {
                0int
            } else if t <= 9 {
                1 + t % 2
            } else {
                3
            }
        }),
{
    reveal(b_sub_info);
}

} // verus!
