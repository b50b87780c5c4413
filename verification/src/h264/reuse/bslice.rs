//! B slices on grids that cannot be told apart.

use super::super::contexts::Cab;
use super::super::grids::{scan_of, GridsV, Seg, INTRA};
use super::super::mb_b::{
    any_macroblock_b, b_8x8, b_halves, b_mb_info, b_motion, b_skip, b_sub_info, b_sub_types, b_type,
    b_whole, direct, direct_list, direct_mb, direct_quadrant, direct_quadrants, half_mv, half_refs,
    list_ref, macroblock_b, not_direct, skip_flag_b, slice_from_b, sub_direct, sub_mvs, sub_refs,
    uses, ColV, DirectV, Info,
};
use super::super::mb_cabac::{inter_tail, intra_body, intra_type, own_part, quadrant, ref_idx};
use super::super::params::{Pps, SliceHeader};
use super::cabac::{
    lemma_inter_tail, lemma_intra_body, lemma_intra_type, lemma_own_part, lemma_part,
    lemma_quadrant, lemma_ref_idx,
};
use super::relation::{
    alike, alike0, bipred, both, covered, covered1, covers, full, has1, lemma_around, lemma_dims,
    lemma_fill, lemma_less, lemma_mark_direct, lemma_mb_neighbors, lemma_pred_tall, lemma_pred_wide,
    lemma_put_decoded, lemma_put_mb_nnz, lemma_put_shown, lemma_put_skip, lemma_put_slice, ready_in,
    whole, Kind,
};
use crate::motion::zero_mv;
use vstd::prelude::*;

verus! {

// ---------------------------------------------------------------------------
// Direct prediction

/// B slices read what CABAC keeps, and slice `sid` is the one being decoded.
pub open spec fn in_b(k: Kind, sid: i32) -> bool {
    k.cabac && k.b == Some(sid) && k.used.contains(sid)
}

proof fn lemma_direct(
    a: GridsV,
    b: GridsV,
    k: Kind,
    s: Set<int>,
    mb: int,
    sid: i32,
    col: ColV,
)
    requires
        alike(a, b, k, mb, s),
        in_b(k, sid),
    ensures
        direct(a, mb, sid, col) == direct(b, mb, sid, col),
{
    reveal(direct);
    reveal(direct_list);
    lemma_dims(a, b, k, mb, s);
    lemma_around(a, b, k, s, 0, mb, 0, 0, 4, sid);
    lemma_around(a, b, k, s, 1, mb, 0, 0, 4, sid);
    let x = direct(a, mb, sid, col);
    let y = direct(b, mb, sid, col);
    assert forall|q: int| 0 <= q < 4 implies col.corner(a, mb, q) == #[trigger] col.corner(
        b,
        mb,
        q,
    ) by {}
    assert(x.mv0 =~= y.mv0);
    assert(x.mv1 =~= y.mv1);
}

/// Quadrants with their place in both lists.
pub open spec fn twice(q: int) -> Set<int> {
    Set::new(|x: int| x == q || x == q + 4)
}

proof fn lemma_direct_quadrant(
    a: GridsV,
    b: GridsV,
    k: Kind,
    s: Set<int>,
    mb: int,
    q: int,
    d: DirectV,
)
    requires
        alike(a, b, k, mb, s),
        0 <= mb < k.mbs(),
        0 <= q < 4,
    ensures
        alike(
            direct_quadrant(a, mb, q, d),
            direct_quadrant(b, mb, q, d),
            k,
            mb,
            s.union(twice(q)),
        ),
{
    reveal(direct_quadrant);
    let (x, y) = (q % 2 * 2, q / 2 * 2);
    lemma_fill(a, b, k, mb, s, 0, x, y, 2, 2, d.mv0[q], d.ref0);
    let s1 = s.union(covers(0, x, y, 2, 2));
    let a1 = a.fill(0, mb, x, y, 2, 2, d.mv0[q], d.ref0);
    let b1 = b.fill(0, mb, x, y, 2, 2, d.mv0[q], d.ref0);
    lemma_fill(a1, b1, k, mb, s1, 1, x, y, 2, 2, d.mv1[q], d.ref1);
    let s2 = s1.union(covers(1, x, y, 2, 2));
    let a2 = a1.fill(1, mb, x, y, 2, 2, d.mv1[q], d.ref1);
    let b2 = b1.fill(1, mb, x, y, 2, 2, d.mv1[q], d.ref1);
    assert(covered(x, y, 2, 2).contains(q));
    assert(covered1(x, y, 2, 2).contains(q + 4));
    assert(s.union(twice(q)).subset_of(s2));
    lemma_less(a2, b2, k, mb, s2, mb, s.union(twice(q)));
    lemma_mark_direct(a2, b2, k, mb, s.union(twice(q)), x, y);
}

proof fn lemma_direct_mb(
    a: GridsV,
    b: GridsV,
    k: Kind,
    s: Set<int>,
    mb: int,
    sid: i32,
    col: ColV,
)
    requires
        alike(a, b, k, mb, s),
        in_b(k, sid),
        0 <= mb < k.mbs(),
    ensures
        ({
            let x = direct_mb(a, mb, sid, col);
            let y = direct_mb(b, mb, sid, col);
            x.0 == y.0 && bipred(x.0) && alike(x.1, y.1, k, mb, both())
        }),
{
    reveal(direct_mb);
    lemma_direct(a, b, k, s, mb, sid, col);
    let d = direct(a, mb, sid, col);
    lemma_direct_quadrant(a, b, k, s, mb, 0, d);
    let a0 = direct_quadrant(a, mb, 0, d);
    let b0 = direct_quadrant(b, mb, 0, d);
    let s0 = s.union(twice(0));
    lemma_direct_quadrant(a0, b0, k, s0, mb, 1, d);
    let a1 = direct_quadrant(a0, mb, 1, d);
    let b1 = direct_quadrant(b0, mb, 1, d);
    let s1 = s0.union(twice(1));
    lemma_direct_quadrant(a1, b1, k, s1, mb, 2, d);
    let a2 = direct_quadrant(a1, mb, 2, d);
    let b2 = direct_quadrant(b1, mb, 2, d);
    let s2 = s1.union(twice(2));
    lemma_direct_quadrant(a2, b2, k, s2, mb, 3, d);
    let a3 = direct_quadrant(a2, mb, 3, d);
    let b3 = direct_quadrant(b2, mb, 3, d);
    let s3 = s2.union(twice(3));
    assert forall|x: int| both().contains(x) implies s3.contains(x) by {
        assert(twice(0).contains(x) || twice(1).contains(x) || twice(2).contains(x) || twice(
            3,
        ).contains(x));
    }
    lemma_less(a3, b3, k, mb, s3, mb, both());
}

// ---------------------------------------------------------------------------
// References

proof fn lemma_list_ref(
    a: GridsV,
    b: GridsV,
    k: Kind,
    s: Set<int>,
    c: Cab,
    l: int,
    mb: int,
    sid: i32,
    bx: int,
    by: int,
    w: int,
    h: int,
    used: bool,
    active: u32,
)
    requires
        alike(a, b, k, mb, s),
        in_b(k, sid),
        l == 0 || l == 1,
        ready_in(s, l, scan_of(bx, by)),
        0 <= mb < k.mbs(),
        0 <= bx,
        0 <= by,
        0 <= w,
        0 <= h,
        bx + w <= 4,
        by + h <= 4,
    ensures
        ({
            let x = list_ref(a, c, l, mb, sid, bx, by, w, h, used, active);
            let y = list_ref(b, c, l, mb, sid, bx, by, w, h, used, active);
            x.0 == y.0 && x.2 == y.2 && alike(x.1, y.1, k, mb, s.union(covers(l, bx, by, w, h)))
        }),
{
    reveal(list_ref);
    lemma_ref_idx(a, b, k, s, c, l, mb, sid, bx, by, active, true);
    let refi = if used {
        ref_idx(a, c, l, mb, sid, bx, by, active, true).0
    } else {
        INTRA
    };
    lemma_fill(a, b, k, mb, s, l, bx, by, w, h, zero_mv(), refi);
}

proof fn lemma_b_whole(
    a: GridsV,
    b: GridsV,
    k: Kind,
    c: Cab,
    mb: int,
    sid: i32,
    i: Info,
    n0: u32,
    n1: u32,
)
    requires
        alike(a, b, k, mb, Set::empty()),
        in_b(k, sid),
        0 <= mb < k.mbs(),
    ensures
        ({
            let x = b_whole(a, c, mb, sid, i, n0, n1);
            let y = b_whole(b, c, mb, sid, i, n0, n1);
            x.1 == y.1 && alike(x.0, y.0, k, mb, both())
        }),
{
    reveal(b_whole);
    let none = Set::<int>::empty();
    lemma_list_ref(a, b, k, none, c, 0, mb, sid, 0, 0, 4, 4, i.p0l0, n0);
    let x = list_ref(a, c, 0, mb, sid, 0, 0, 4, 4, i.p0l0, n0);
    let y = list_ref(b, c, 0, mb, sid, 0, 0, 4, 4, i.p0l0, n0);
    let s = none.union(covers(0, 0, 0, 4, 4));
    lemma_list_ref(x.1, y.1, k, s, x.2, 1, mb, sid, 0, 0, 4, 4, i.p0l1, n1);
    let x1 = list_ref(x.1, x.2, 1, mb, sid, 0, 0, 4, 4, i.p0l1, n1);
    let y1 = list_ref(y.1, y.2, 1, mb, sid, 0, 0, 4, 4, i.p0l1, n1);
    let t = s.union(covers(1, 0, 0, 4, 4));
    assert(both().subset_of(t));
    lemma_less(x1.1, y1.1, k, mb, t, mb, both());
    lemma_own_part(x1.1, y1.1, k, both(), x1.2, 0, mb, sid, 0, 0, 4, 4, x.0);
    let (a2, c2) = if i.p0l0 {
        own_part(x1.1, x1.2, 0, mb, sid, 0, 0, 4, 4, x.0)
    } else {
        (x1.1, x1.2)
    };
    let (b2, _) = if i.p0l0 {
        own_part(y1.1, y1.2, 0, mb, sid, 0, 0, 4, 4, x.0)
    } else {
        (y1.1, y1.2)
    };
    lemma_own_part(a2, b2, k, both(), c2, 1, mb, sid, 0, 0, 4, 4, x1.0);
}

/// The quadrants of list `l`.
pub open spec fn list_quads(l: int) -> Set<int> {
    Set::new(
        |q: int|
            if l == 0 {
                0 <= q < 4
            } else {
                4 <= q < 8
            },
    )
}

proof fn lemma_half_refs(
    a: GridsV,
    b: GridsV,
    k: Kind,
    s: Set<int>,
    c: Cab,
    l: int,
    mb: int,
    sid: i32,
    i: Info,
    active: u32,
)
    requires
        alike(a, b, k, mb, s),
        in_b(k, sid),
        l == 0 || l == 1,
        0 <= mb < k.mbs(),
    ensures
        ({
            let x = half_refs(a, c, l, mb, sid, i, active);
            let y = half_refs(b, c, l, mb, sid, i, active);
            &&& x.0 == y.0 && x.1 == y.1 && x.3 == y.3
            &&& alike(x.2, y.2, k, mb, s.union(list_quads(l)))
        }),
{
    reveal(half_refs);
    let (x1, y1, w, h): (int, int, int, int) = if i.shape == 1 {
        (0, 2, 4, 2)
    } else {
        (2, 0, 2, 4)
    };
    lemma_list_ref(a, b, k, s, c, l, mb, sid, 0, 0, w, h, uses(i, 0, l), active);
    let x = list_ref(a, c, l, mb, sid, 0, 0, w, h, uses(i, 0, l), active);
    let y = list_ref(b, c, l, mb, sid, 0, 0, w, h, uses(i, 0, l), active);
    let s1 = s.union(covers(l, 0, 0, w, h));
    assert(ready_in(s1, l, scan_of(x1, y1))) by {
        assert forall|q: int| 0 <= q < 4 && 4 * q < scan_of(x1, y1) implies covered(
            0,
            0,
            w,
            h,
        ).contains(q) by {}
        if l == 0 {
            assert forall|q: int| 0 <= q < 4 && 4 * q < scan_of(x1, y1) implies #[trigger] s1.contains(
                q,
            ) by {
                assert(covered(0, 0, w, h).contains(q));
            }
        } else {
            assert forall|q: int| 0 <= q < 4 && 4 * q < scan_of(x1, y1) implies #[trigger] has1(
                s1,
                q,
            ) by {
                assert(covered(0, 0, w, h).contains(q));
                assert(covered1(0, 0, w, h).contains(4 + q));
            }
        }
    }
    lemma_list_ref(x.1, y.1, k, s1, x.2, l, mb, sid, x1, y1, w, h, uses(i, 1, l), active);
    let p = list_ref(x.1, x.2, l, mb, sid, x1, y1, w, h, uses(i, 1, l), active);
    let q = list_ref(y.1, y.2, l, mb, sid, x1, y1, w, h, uses(i, 1, l), active);
    let s2 = s1.union(covers(l, x1, y1, w, h));
    assert(s.union(list_quads(l)).subset_of(s2));
    lemma_less(p.1, q.1, k, mb, s2, mb, s.union(list_quads(l)));
}

proof fn lemma_half_mv(
    a: GridsV,
    b: GridsV,
    k: Kind,
    c: Cab,
    l: int,
    mb: int,
    sid: i32,
    i: Info,
    p: int,
    refi: i32,
)
    requires
        alike(a, b, k, mb, both()),
        in_b(k, sid),
        l == 0 || l == 1,
        p == 0 || p == 1,
        0 <= mb < k.mbs(),
    ensures
        ({
            let x = half_mv(a, c, l, mb, sid, i, p, refi);
            let y = half_mv(b, c, l, mb, sid, i, p, refi);
            x.1 == y.1 && alike(x.0, y.0, k, mb, both())
        }),
{
    reveal(half_mv);
    assert(full(both(), l));
    if uses(i, p, l) {
        if i.shape == 1 {
            lemma_pred_wide(a, b, k, both(), l, mb, p, refi, sid);
            let v = a.pred_wide(l, mb, p, refi, sid);
            lemma_part(a, b, k, both(), c, l, mb, sid, 0, 2 * p, 4, 2, refi, v);
        } else {
            lemma_pred_tall(a, b, k, both(), l, mb, p, refi, sid);
            let v = a.pred_tall(l, mb, p, refi, sid);
            lemma_part(a, b, k, both(), c, l, mb, sid, 2 * p, 0, 2, 4, refi, v);
        }
    }
}

proof fn lemma_b_halves(
    a: GridsV,
    b: GridsV,
    k: Kind,
    c: Cab,
    mb: int,
    sid: i32,
    i: Info,
    n0: u32,
    n1: u32,
)
    requires
        alike(a, b, k, mb, Set::empty()),
        in_b(k, sid),
        0 <= mb < k.mbs(),
    ensures
        ({
            let x = b_halves(a, c, mb, sid, i, n0, n1);
            let y = b_halves(b, c, mb, sid, i, n0, n1);
            x.1 == y.1 && alike(x.0, y.0, k, mb, both())
        }),
{
    reveal(b_halves);
    let none = Set::<int>::empty();
    lemma_half_refs(a, b, k, none, c, 0, mb, sid, i, n0);
    let x = half_refs(a, c, 0, mb, sid, i, n0);
    let y = half_refs(b, c, 0, mb, sid, i, n0);
    let s = none.union(list_quads(0));
    lemma_half_refs(x.2, y.2, k, s, x.3, 1, mb, sid, i, n1);
    let x1 = half_refs(x.2, x.3, 1, mb, sid, i, n1);
    let y1 = half_refs(y.2, y.3, 1, mb, sid, i, n1);
    assert(s.union(list_quads(1)) =~= both());
    lemma_half_mv(x1.2, y1.2, k, x1.3, 0, mb, sid, i, 0, x.0);
    let x2 = half_mv(x1.2, x1.3, 0, mb, sid, i, 0, x.0);
    let y2 = half_mv(y1.2, y1.3, 0, mb, sid, i, 0, x.0);
    lemma_half_mv(x2.0, y2.0, k, x2.1, 0, mb, sid, i, 1, x.1);
    let x3 = half_mv(x2.0, x2.1, 0, mb, sid, i, 1, x.1);
    let y3 = half_mv(y2.0, y2.1, 0, mb, sid, i, 1, x.1);
    lemma_half_mv(x3.0, y3.0, k, x3.1, 1, mb, sid, i, 0, x1.0);
    let x4 = half_mv(x3.0, x3.1, 1, mb, sid, i, 0, x1.0);
    let y4 = half_mv(y3.0, y3.1, 1, mb, sid, i, 0, x1.0);
    lemma_half_mv(x4.0, y4.0, k, x4.1, 1, mb, sid, i, 1, x1.1);
}

// ---------------------------------------------------------------------------
// Quadrants

/// The quadrants in direct mode of both lists; those before `n0` of list 0 and those before `n1` of
/// list 1.
pub open spec fn stored(types: Seq<u32>, n0: int, n1: int) -> Set<int> {
    Set::new(
        |x: int|
            0 <= x < 8 && (types[x % 4] == 0 || (if x < 4 {
                x < n0
            } else {
                x - 4 < n1
            })),
    )
}

/// The quadrants in direct mode before `q`, of both lists.
pub open spec fn direct_before(types: Seq<u32>, q: int) -> Set<int> {
    Set::new(|x: int| 0 <= x < 8 && x % 4 < q && types[x % 4] == 0)
}

proof fn lemma_direct_quadrants(
    a: GridsV,
    b: GridsV,
    k: Kind,
    mb: int,
    types: Seq<u32>,
    d: DirectV,
    q: int,
)
    requires
        alike(a, b, k, mb, direct_before(types, q)),
        0 <= mb < k.mbs(),
        0 <= q <= 4,
    ensures
        alike(
            direct_quadrants(a, mb, types, d, q),
            direct_quadrants(b, mb, types, d, q),
            k,
            mb,
            stored(types, 0, 0),
        ),
    decreases 4 - q,
{
    if q >= 4 {
        assert(direct_before(types, q) =~= stored(types, 0, 0));
    } else if types[q] == 0 {
        lemma_direct_quadrant(a, b, k, direct_before(types, q), mb, q, d);
        assert(direct_before(types, q).union(twice(q)) =~= direct_before(types, q + 1));
        lemma_direct_quadrants(
            direct_quadrant(a, mb, q, d),
            direct_quadrant(b, mb, q, d),
            k,
            mb,
            types,
            d,
            q + 1,
        );
    } else {
        assert(direct_before(types, q) =~= direct_before(types, q + 1));
        lemma_direct_quadrants(a, b, k, mb, types, d, q + 1);
    }
}

/// What is stored with the first `q` quadrants of list `l`, where list 1 follows list 0.
pub open spec fn stored_in(types: Seq<u32>, l: int, q: int) -> Set<int> {
    if l == 0 {
        stored(types, q, 0)
    } else {
        stored(types, 4, q)
    }
}

proof fn lemma_sub_refs(
    a: GridsV,
    b: GridsV,
    k: Kind,
    c: Cab,
    l: int,
    mb: int,
    sid: i32,
    types: Seq<u32>,
    active: u32,
    refs: Seq<i32>,
    q: int,
)
    requires
        alike(a, b, k, mb, stored_in(types, l, q)),
        in_b(k, sid),
        l == 0 || l == 1,
        0 <= mb < k.mbs(),
        0 <= q <= 4,
    ensures
        ({
            let x = sub_refs(a, c, l, mb, sid, types, active, refs, q);
            let y = sub_refs(b, c, l, mb, sid, types, active, refs, q);
            x.0 == y.0 && x.2 == y.2 && alike(x.1, y.1, k, mb, stored_in(types, l, 4))
        }),
    decreases 4 - q,
{
    let s = stored_in(types, l, q);
    if q >= 4 {
    } else if types[q] == 0 {
        assert(s =~= stored_in(types, l, q + 1));
        lemma_sub_refs(a, b, k, c, l, mb, sid, types, active, refs.push(INTRA), q + 1);
    } else {
        let (x, y) = (q % 2 * 2, q / 2 * 2);
        let used = uses(b_sub_info(types[q]), 0, l);
        assert(scan_of(x, y) == 4 * q);
        assert(ready_in(s, l, 4 * q)) by {
            assert forall|p: int| 0 <= p < 4 && 4 * p < 4 * q implies s.contains(p) || l == 1 by {}
            assert forall|p: int| 0 <= p < 4 && 4 * p < 4 * q implies #[trigger] has1(s, p) || l
                == 0 by {}
        }
        lemma_list_ref(a, b, k, s, c, l, mb, sid, x, y, 2, 2, used, active);
        let p = list_ref(a, c, l, mb, sid, x, y, 2, 2, used, active);
        let r = list_ref(b, c, l, mb, sid, x, y, 2, 2, used, active);
        let t = stored_in(types, l, q + 1);
        assert(covered(x, y, 2, 2).contains(q));
        assert(covered1(x, y, 2, 2).contains(q + 4));
        assert(t.subset_of(s.union(covers(l, x, y, 2, 2))));
        lemma_less(p.1, r.1, k, mb, s.union(covers(l, x, y, 2, 2)), mb, t);
        lemma_sub_refs(p.1, r.1, k, p.2, l, mb, sid, types, active, refs.push(p.0), q + 1);
    }
}

proof fn lemma_sub_mvs(
    a: GridsV,
    b: GridsV,
    k: Kind,
    c: Cab,
    l: int,
    mb: int,
    sid: i32,
    types: Seq<u32>,
    refs: Seq<i32>,
    q: int,
)
    requires
        alike(a, b, k, mb, both()),
        in_b(k, sid),
        l == 0 || l == 1,
        0 <= mb < k.mbs(),
        0 <= q <= 4,
    ensures
        ({
            let x = sub_mvs(a, c, l, mb, sid, types, refs, q);
            let y = sub_mvs(b, c, l, mb, sid, types, refs, q);
            x.1 == y.1 && alike(x.0, y.0, k, mb, both())
        }),
    decreases 4 - q,
{
    if q >= 4 {
    } else if types[q] == 0 || !uses(b_sub_info(types[q]), 0, l) {
        lemma_sub_mvs(a, b, k, c, l, mb, sid, types, refs, q + 1);
    } else {
        let (x, y) = (q % 2 * 2, q / 2 * 2);
        let shape = b_sub_info(types[q]).shape as u32;
        assert(full(both(), l));
        lemma_quadrant(a, b, k, both(), c, l, mb, sid, x, y, shape, refs[q]);
        let p = quadrant(a, c, l, mb, sid, x, y, shape, refs[q]);
        let r = quadrant(b, c, l, mb, sid, x, y, shape, refs[q]);
        lemma_sub_mvs(p.0, r.0, k, p.1, l, mb, sid, types, refs, q + 1);
    }
}

proof fn lemma_b_8x8(
    a: GridsV,
    b: GridsV,
    k: Kind,
    c: Cab,
    mb: int,
    sid: i32,
    n0: u32,
    n1: u32,
    col: ColV,
)
    requires
        alike(a, b, k, mb, Set::empty()),
        in_b(k, sid),
        0 <= mb < k.mbs(),
    ensures
        ({
            let x = b_8x8(a, c, mb, sid, n0, n1, col);
            let y = b_8x8(b, c, mb, sid, n0, n1, col);
            x.0 == y.0 && x.2 == y.2 && alike(x.1, y.1, k, mb, both())
        }),
{
    reveal(b_8x8);
    reveal(sub_direct);
    let (types, c) = b_sub_types(c);
    lemma_direct(a, b, k, Set::empty(), mb, sid, col);
    let d = direct(a, mb, sid, col);
    assert(direct_before(types, 0) =~= Set::empty());
    lemma_direct_quadrants(a, b, k, mb, types, d, 0);
    let a1 = sub_direct(a, mb, sid, types, col);
    let b1 = sub_direct(b, mb, sid, types, col);
    lemma_sub_refs(a1, b1, k, c, 0, mb, sid, types, n0, Seq::empty(), 0);
    let x = sub_refs(a1, c, 0, mb, sid, types, n0, Seq::empty(), 0);
    let y = sub_refs(b1, c, 0, mb, sid, types, n0, Seq::empty(), 0);
    assert(stored_in(types, 0, 4) =~= stored_in(types, 1, 0));
    lemma_sub_refs(x.1, y.1, k, x.2, 1, mb, sid, types, n1, Seq::empty(), 0);
    let x1 = sub_refs(x.1, x.2, 1, mb, sid, types, n1, Seq::empty(), 0);
    let y1 = sub_refs(y.1, y.2, 1, mb, sid, types, n1, Seq::empty(), 0);
    assert(stored_in(types, 1, 4) =~= both());
    lemma_sub_mvs(x1.1, y1.1, k, x1.2, 0, mb, sid, types, x.0, 0);
    let x2 = sub_mvs(x1.1, x1.2, 0, mb, sid, types, x.0, 0);
    let y2 = sub_mvs(y1.1, y1.2, 0, mb, sid, types, x.0, 0);
    lemma_sub_mvs(x2.0, y2.0, k, x2.1, 1, mb, sid, types, x1.0, 0);
}

// ---------------------------------------------------------------------------
// Macroblocks

proof fn lemma_b_motion(
    a: GridsV,
    b: GridsV,
    k: Kind,
    c: Cab,
    mb: int,
    sid: i32,
    sh: SliceHeader,
    col: ColV,
    t: u32,
)
    requires
        alike(a, b, k, mb, Set::empty()),
        in_b(k, sid),
        0 <= mb < k.mbs(),
    ensures
        ({
            let x = b_motion(a, c, mb, sid, sh, col, t);
            let y = b_motion(b, c, mb, sid, sh, col, t);
            &&& x.0 == y.0 && x.1 == y.1 && x.3 == y.3
            &&& bipred(x.0)
            &&& alike(x.2, y.2, k, mb, both())
        }),
{
    reveal(b_motion);
    let n0 = sh.num_ref_idx_l0_active;
    let n1 = sh.num_ref_idx_l1_active;
    if t == 0 {
        lemma_direct_mb(a, b, k, Set::empty(), mb, sid, col);
        let x = direct_mb(a, mb, sid, col);
        let y = direct_mb(b, mb, sid, col);
        lemma_put_skip(x.1, y.1, k, mb, both());
    } else if t == 22 {
        lemma_b_8x8(a, b, k, c, mb, sid, n0, n1, col);
    } else {
        let i = b_mb_info(t);
        lemma_b_whole(a, b, k, c, mb, sid, i, n0, n1);
        lemma_b_halves(a, b, k, c, mb, sid, i, n0, n1);
    }
}

proof fn lemma_intra_both(a: GridsV, b: GridsV, k: Kind, mb: int, s: Set<int>)
    requires
        alike(a, b, k, mb, s),
        0 <= mb < k.mbs(),
    ensures
        alike(a.intra_both(mb), b.intra_both(mb), k, mb, both()),
{
    reveal(GridsV::intra_both);
    reveal(GridsV::intra_l0);
    lemma_fill(a, b, k, mb, s, 0, 0, 0, 4, 4, zero_mv(), INTRA);
    let s1 = s.union(covers(0, 0, 0, 4, 4));
    let a1 = a.intra_l0(mb);
    let b1 = b.intra_l0(mb);
    lemma_fill(a1, b1, k, mb, s1, 1, 0, 0, 4, 4, zero_mv(), INTRA);
    let s2 = s1.union(covers(1, 0, 0, 4, 4));
    assert(both().subset_of(s2));
    lemma_less(a.intra_both(mb), b.intra_both(mb), k, mb, s2, mb, both());
}

proof fn lemma_macroblock_b(
    a: GridsV,
    b: GridsV,
    k: Kind,
    c: Cab,
    mb: int,
    sid: i32,
    sh: SliceHeader,
    pps: Pps,
    col: ColV,
)
    requires
        alike0(a, b, k),
        in_b(k, sid),
        0 <= mb < k.mbs(),
    ensures
        ({
            let x = macroblock_b(a, c, mb, sid, sh, pps, col);
            let y = macroblock_b(b, c, mb, sid, sh, pps, col);
            x.1 == y.1 && alike0(x.0, y.0, k)
        }),
{
    reveal(macroblock_b);
    let none = Set::<int>::empty();
    lemma_less(a, b, k, -1, none, mb, none);
    lemma_put_slice(a, b, k, mb, none, sid);
    let a1 = a.put_slice(mb, sid);
    let b1 = b.put_slice(mb, sid);
    lemma_mb_neighbors(a1, b1, k, mb, none, sid);
    assert(a1.bdirect == b1.bdirect) by {
        reveal(alike);
    }
    let (t, c) = b_type(
        c,
        not_direct(a1, a1.mb_left(mb, sid)),
        not_direct(a1, a1.mb_top(mb, sid)),
    );
    match t {
        None => {
            lemma_intra_type(a1, b1, k, none, c, mb, sid, 32, false);
            let (t, c) = intra_type(a1, c, mb, sid, 32, false);
            lemma_intra_body(a1, b1, k, none, c, mb, sid, t, pps);
            let x = intra_body(a1, c, mb, sid, t, pps);
            let y = intra_body(b1, c, mb, sid, t, pps);
            lemma_intra_both(x.0, y.0, k, mb, none);
            let a2 = x.0.intra_both(mb);
            let b2 = y.0.intra_both(mb);
            assert(whole().subset_of(both()));
            lemma_put_decoded(a2, b2, k, mb, both());
            lemma_less(a2.put_decoded(mb), b2.put_decoded(mb), k, mb, both(), -1, none);
        },
        Some(t) => {
            lemma_b_motion(a1, b1, k, c, mb, sid, sh, col, t);
            let x = b_motion(a1, c, mb, sid, sh, col, t);
            let y = b_motion(b1, c, mb, sid, sh, col, t);
            lemma_put_shown(x.2, y.2, k, mb, both(), x.0);
            let a2 = x.2.put_seg(mb, x.0).put_decoded(mb);
            let b2 = y.2.put_seg(mb, x.0).put_decoded(mb);
            lemma_inter_tail(a2, b2, k, both(), x.3, mb, sid, pps, x.1);
            let p = inter_tail(a2, x.3, mb, sid, pps, x.1);
            let q = inter_tail(b2, x.3, mb, sid, pps, x.1);
            lemma_less(p.0, q.0, k, mb, both(), -1, none);
        },
    }
}

proof fn lemma_b_skip(a: GridsV, b: GridsV, k: Kind, mb: int, sid: i32, col: ColV)
    requires
        alike0(a, b, k),
        in_b(k, sid),
        0 <= mb < k.mbs(),
    ensures
        alike0(b_skip(a, mb, sid, col), b_skip(b, mb, sid, col), k),
{
    reveal(b_skip);
    let none = Set::<int>::empty();
    lemma_less(a, b, k, -1, none, mb, none);
    lemma_direct_mb(a, b, k, none, mb, sid, col);
    let (seg, a1) = direct_mb(a, mb, sid, col);
    let (_, b1) = direct_mb(b, mb, sid, col);
    lemma_put_skip(a1, b1, k, mb, both());
    let a2 = a1.put_bdirect(mb);
    let b2 = b1.put_bdirect(mb);
    lemma_put_skip(a2, b2, k, mb, both());
    let a3 = a2.put_skip(mb);
    let b3 = b2.put_skip(mb);
    lemma_put_slice(a3, b3, k, mb, both(), sid);
    lemma_put_shown(a3.put_slice(mb, sid), b3.put_slice(mb, sid), k, mb, both(), seg);
    lemma_order(a3, mb, seg, sid);
    lemma_order(b3, mb, seg, sid);
    let a4 = a3.put_seg(mb, seg).put_slice(mb, sid).put_decoded(mb);
    let b4 = b3.put_seg(mb, seg).put_slice(mb, sid).put_decoded(mb);
    lemma_put_mb_nnz(a4, b4, k, mb, both(), 0);
    lemma_less(a4.put_mb_nnz(mb, 0), b4.put_mb_nnz(mb, 0), k, mb, both(), -1, none);
}

/// The kind and the slice of a macroblock can be noted in either order.
proof fn lemma_order(g: GridsV, mb: int, seg: Seg, sid: i32)
    ensures
        g.put_seg(mb, seg).put_slice(mb, sid) == g.put_slice(mb, sid).put_seg(mb, seg),
{
    reveal(GridsV::put_seg);
    reveal(GridsV::put_slice);
}

// ---------------------------------------------------------------------------
// Slices

proof fn lemma_any_macroblock_b(
    a: GridsV,
    b: GridsV,
    k: Kind,
    c: Cab,
    mb: int,
    sid: i32,
    sh: SliceHeader,
    pps: Pps,
    col: ColV,
)
    requires
        alike0(a, b, k),
        in_b(k, sid),
        0 <= mb < k.mbs(),
    ensures
        ({
            let x = any_macroblock_b(a, c, mb, sid, sh, pps, col);
            let y = any_macroblock_b(b, c, mb, sid, sh, pps, col);
            x.1 == y.1 && alike0(x.0, y.0, k)
        }),
{
    reveal(any_macroblock_b);
    reveal(skip_flag_b);
    let none = Set::<int>::empty();
    lemma_less(a, b, k, -1, none, mb, none);
    lemma_mb_neighbors(a, b, k, mb, none, sid);
    assert(a.skip == b.skip) by {
        reveal(alike);
    }
    let (skipped, c) = skip_flag_b(a, c, mb, sid);
    if skipped {
        lemma_b_skip(a, b, k, mb, sid, col);
    } else {
        lemma_macroblock_b(a, b, k, c, mb, sid, sh, pps, col);
    }
}

pub proof fn lemma_slice(
    a: GridsV,
    b: GridsV,
    k: Kind,
    c: Cab,
    cur: int,
    n: int,
    sh: SliceHeader,
    pps: Pps,
    sid: i32,
    col: ColV,
)
    requires
        alike0(a, b, k),
        in_b(k, sid),
        0 <= cur,
        n == k.mbs(),
    ensures
        ({
            let x = slice_from_b(a, c, cur, n, sh, pps, sid, col);
            let y = slice_from_b(b, c, cur, n, sh, pps, sid, col);
            x.0 == y.0 && x.2 == y.2 && alike0(x.1, y.1, k)
        }),
    decreases n - cur,
{
    if cur < n {
        lemma_any_macroblock_b(a, b, k, c, cur, sid, sh, pps, col);
        let x = any_macroblock_b(a, c, cur, sid, sh, pps, col);
        let y = any_macroblock_b(b, c, cur, sid, sh, pps, col);
        if cur + 1 < n {
            let (end, c) = x.1.terminate();
            if !end {
                lemma_slice(x.0, y.0, k, c, cur + 1, n, sh, pps, sid, col);
            }
        }
    }
}

} // verus!
