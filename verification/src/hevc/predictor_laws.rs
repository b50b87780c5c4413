//! What vector predictors are: scaled vectors, vectors of an earlier picture, and vectors of
//! neighbours.

use super::frame::{FrameV, Geo, MvField, PF_INTRA};
use super::motion::{
    around, col_at, from_cand, from_list, left_pred, pred_list, predictor, spatial_preds, temporal,
    up_pred, Ctb, Pu,
};
use super::motion_laws::{
    below_left_open, corner_open, in_tree_block, law_neighbours, left_open, neighbours_kept, offer,
    up_open, up_right_open,
};
use super::refs::{
    col_list, from_col, quotient, scale_factor, scaled, scaled_mv, vec_of, FrameMvV, RefV,
};
use super::slice_header::HeaderV;
use crate::motion::{zero_mv, Mv};
use vstd::arithmetic::div_mod::lemma_fundamental_div_mod;
use vstd::prelude::*;

verus! {

// ---------------------------------------------------------------------------
// Scaling

pub open spec fn magnitude(v: int) -> int {
    if v < 0 {
        -v
    } else {
        v
    }
}

/// A number whose product with the distance is `2^14`, but for half of the distance.
spec fn inverse(td: int) -> int {
    quotient(0x4000 + magnitude(td) / 2, td)
}

proof fn lemma_inverse(td: int)
    requires
        -128 <= td <= 127,
        td != 0,
    ensures
        16384 - magnitude(td) / 2 <= td * inverse(td) <= 16384 + magnitude(td) / 2,
        td % 2 == 0 ==> 16384 - magnitude(td) / 2 < td * inverse(td),
{
    let d = magnitude(td);
    let n = 0x4000 + d / 2;
    lemma_fundamental_div_mod(n, d);
    let q = n / d;
    if td < 0 {
        assert(td * (-q) == d * q) by (nonlinear_arith)
            requires
                d == -td,
        ;
    }
}

/// A scaled component is the component times the ratio of the distances, but for half a unit and one
/// part in 128, where the ratio is below 15 and neither is cut.
pub proof fn law_scaling_is_proportional(v: Mv, td: i32, tb: i32)
    requires
        -128 <= td <= 127,
        td != 0,
        -128 <= tb <= 127,
        magnitude(tb as int) < 15 * magnitude(td as int),
        magnitude(v.x as int) <= 2047,
        magnitude(v.y as int) <= 2047,
    ensures
        ({
            let r = scaled_mv(v, td, tb);
            &&& 128 * magnitude(r.x * td - v.x * tb) <= magnitude(td as int) * (64 + magnitude(
                v.x as int,
            ))
            &&& 128 * magnitude(r.y * td - v.y * tb) <= magnitude(td as int) * (64 + magnitude(
                v.y as int,
            ))
        }),
{
    reveal(scaled_mv);
    let f = scale_factor(td, tb);
    let (d, b) = (td as int, tb as int);
    let tx = inverse(d);
    lemma_inverse(d);
    let whole = (b * tx + 32) / 64;
    let m = magnitude(d);
    assert(-32 <= 64 * whole - b * tx <= 32);
    assert(-64 * m <= b * (d * tx) - 16384 * b <= 64 * m) by (nonlinear_arith)
        requires
            -128 <= b <= 127,
            2 * (d * tx - 16384) <= m,
            -m <= 2 * (d * tx - 16384),
            0 < m,
    ;
    assert(b * (d * tx) == d * (b * tx)) by (nonlinear_arith);
    assert(-32 * m <= d * (64 * whole - b * tx) <= 32 * m) by (nonlinear_arith)
        requires
            -32 <= 64 * whole - b * tx <= 32,
            d == m || d == -m,
            0 < m,
    ;
    assert(d * (64 * whole - b * tx) == 64 * (d * whole) - d * (b * tx)) by (nonlinear_arith);
    let e = d * whole - 256 * b;
    assert(-96 * m <= 64 * e <= 96 * m);
    assert(-4096 < whole < 4095) by (nonlinear_arith)
        requires
            -96 * m <= 64 * (d * whole - 256 * b) <= 96 * m,
            d == m || d == -m,
            0 < m,
            -15 * m < b < 15 * m,
    ;
    assert(f == whole);
    lemma_proportional_part(f, v.x as int, d, b);
    lemma_proportional_part(f, v.y as int, d, b);
}

proof fn lemma_proportional_part(f: int, v: int, d: int, b: int)
    requires
        -4096 < f < 4095,
        d != 0,
        magnitude(v) <= 2047,
        -96 * magnitude(d) <= 64 * (d * f - 256 * b) <= 96 * magnitude(d),
    ensures
        128 * magnitude(scaled(f, v) * d - v * b) <= magnitude(d) * (64 + magnitude(v)),
        -32768 <= scaled(f, v) <= 32767,
{
    let p = f * v;
    let r = scaled(f, v);
    let (m, a) = (magnitude(d), magnitude(v));
    assert(-4096 * 2047 <= p <= 4096 * 2047) by (nonlinear_arith)
        requires
            p == f * v,
            -4096 < f < 4095,
            -2047 <= v <= 2047,
    ;
    assert(-128 <= 256 * r - p <= 128);
    assert(-128 * m <= d * (256 * r - p) <= 128 * m) by (nonlinear_arith)
        requires
            -128 <= 256 * r - p <= 128,
            d == m || d == -m,
            0 < m,
    ;
    let e = d * f - 256 * b;
    assert(-2 * (m * a) <= v * e <= 2 * (m * a)) by (nonlinear_arith)
        requires
            -96 * m <= 64 * e <= 96 * m,
            v == a || v == -a,
            0 <= a,
            0 < m,
    ;
    assert(v * e == d * p - 256 * (v * b)) by (nonlinear_arith)
        requires
            e == d * f - 256 * b,
            p == f * v,
    ;
    assert(d * (256 * r - p) == 256 * (r * d) - d * p) by (nonlinear_arith);
    assert(m * (64 + a) == 64 * m + m * a) by (nonlinear_arith);
}

/// Scaling to the same distance in the other direction turns a vector round.
pub proof fn law_scaling_turns_round(v: Mv, td: i32, tb: i32)
    requires
        -64 <= td <= 64,
        td != 0,
        tb == -td,
        -32768 < v.x <= 32767,
        -32768 < v.y <= 32767,
    ensures
        scaled_mv(v, td, tb) == (Mv { x: (-v.x) as i32, y: (-v.y) as i32 }),
{
    reveal(scaled_mv);
    let (d, tx) = (td as int, inverse(td as int));
    lemma_inverse(d);
    assert((-d) * tx == -(d * tx)) by (nonlinear_arith);
    assert(scale_factor(td, tb) == -256);
}

/// Scaling to twice the distance doubles a vector.
pub proof fn law_scaling_doubles(v: Mv, td: i32, tb: i32)
    requires
        -31 <= td <= 31,
        td != 0,
        tb == 2 * td,
        magnitude(v.x as int) <= 16383,
        magnitude(v.y as int) <= 16383,
    ensures
        scaled_mv(v, td, tb) == (Mv { x: (2 * v.x) as i32, y: (2 * v.y) as i32 }),
{
    reveal(scaled_mv);
    let (d, tx) = (td as int, inverse(td as int));
    lemma_inverse(d);
    assert((2 * d) * tx == 2 * (d * tx)) by (nonlinear_arith);
    assert(scale_factor(td, tb) == 512);
}

/// Scaling to half the distance halves a vector, rounded towards zero.
pub proof fn law_scaling_halves(v: Mv, td: i32, tb: i32)
    requires
        -63 <= tb <= 63,
        tb != 0,
        td == 2 * tb,
        -32768 <= v.x <= 32767,
        -32768 <= v.y <= 32767,
    ensures
        ({
            let r = scaled_mv(v, td, tb);
            &&& magnitude(r.x as int) == magnitude(v.x as int) / 2
            &&& magnitude(r.y as int) == magnitude(v.y as int) / 2
            &&& r.x == 0 || (r.x < 0) == (v.x < 0)
            &&& r.y == 0 || (r.y < 0) == (v.y < 0)
        }),
{
    reveal(scaled_mv);
    let (d, b, tx) = (td as int, tb as int, inverse(td as int));
    lemma_inverse(d);
    assert(d * tx == 2 * (b * tx)) by (nonlinear_arith)
        requires
            d == 2 * b,
    ;
    assert(scale_factor(td, tb) == 128);
}

// ---------------------------------------------------------------------------
// Vectors of an earlier picture

/// The list that a collocated block gives its vector from: the one it uses. Of two, the list asked for
/// where no reference comes later than the current picture, and else the one that does not hold the
/// collocated picture.
pub open spec fn gives_from(t: MvField, k: int, l: int, ri: RefV, collocated_list: usize) -> bool {
    let later = (exists|i: int| 0 <= i < ri.lists.poc0.len() && ri.poc < #[trigger] ri.lists.poc0[i])
        || (exists|i: int| 0 <= i < ri.lists.poc1.len() && ri.poc < #[trigger] ri.lists.poc1[i]);
    ||| t.pred_flag == 1 && k == 0
    ||| t.pred_flag == 2 && k == 1
    ||| t.pred_flag == 3 && !later && k == l
    ||| t.pred_flag == 3 && later && k == 1 - collocated_list
}

proof fn lemma_gives_from(t: MvField, k: int, l: int, ri: RefV, collocated_list: usize)
    requires
        gives_from(t, k, l, ri, collocated_list),
        collocated_list < 2,
        0 <= l < 2,
    ensures
        col_list(t, l, ri, collocated_list) == k,
        0 <= k < 2,
{
    reveal(col_list);
    let x = t.pred_flag;
    assert(1u8 & 1 == 1 && 2u8 & 1 == 0 && 3u8 & 1 == 1) by (bit_vector);
}

/// A collocated block gives its vector scaled from the distance that it spans to the one of the current
/// reference. The vector stays as it is just where the distances agree, is doubled over twice the
/// distance, and turned round for a reference on the other side.
pub proof fn law_collocated_vector_is_scaled(
    t: MvField,
    k: int,
    ref_idx: i8,
    l: int,
    ri: RefV,
    col: FrameMvV,
    collocated_list: usize,
)
    requires
        gives_from(t, k, l, ri, collocated_list),
        collocated_list < 2,
        0 <= l < 2,
        !ri.lists.ref_long(l, ref_idx),
        !col.lists.ref_long(k, t.ref_idx[k]),
        i32::MIN <= col.poc - col.lists.ref_poc(k, t.ref_idx[k]) <= i32::MAX,
        i32::MIN <= ri.poc - ri.lists.ref_poc(l, ref_idx) <= i32::MAX,
    ensures
        ({
            let r = from_col(t, ref_idx, l, ri, col, collocated_list);
            let (x, y) = (t.mv[k][0] as int, t.mv[k][1] as int);
            let spanned = col.poc - col.lists.ref_poc(k, t.ref_idx[k]);
            let wanted = ri.poc - ri.lists.ref_poc(l, ref_idx);
            &&& r is Some
            &&& wanted == spanned ==> r->0.x == x && r->0.y == y
            &&& wanted == 2 * spanned && 0 < magnitude(spanned) <= 31 && magnitude(x) <= 16383
                && magnitude(y) <= 16383 ==> r->0.x == 2 * x && r->0.y == 2 * y
            &&& wanted == -spanned && 0 < magnitude(spanned) <= 64 && x > -32768 && y > -32768
                ==> r->0.x == -x && r->0.y == -y
            &&& spanned == 2 * wanted && 0 < magnitude(wanted) <= 63 ==> magnitude(r->0.x as int)
                == magnitude(x) / 2 && magnitude(r->0.y as int) == magnitude(y) / 2
            &&& wanted != spanned && spanned != 0 && magnitude(spanned) <= 127 && magnitude(wanted)
                <= 127 && magnitude(wanted) < 15 * magnitude(spanned) && magnitude(x) <= 2047
                && magnitude(y) <= 2047 ==> {
                &&& 128 * magnitude(r->0.x * spanned - x * wanted) <= magnitude(spanned) * (64
                    + magnitude(x))
                &&& 128 * magnitude(r->0.y * spanned - y * wanted) <= magnitude(spanned) * (64
                    + magnitude(y))
            }
        }),
{
    reveal(from_col);
    lemma_gives_from(t, k, l, ri, collocated_list);
    let v = vec_of(t, k);
    let (x, y) = (v.x as int, v.y as int);
    let spanned = (col.poc - col.lists.ref_poc(k, t.ref_idx[k])) as i32;
    let wanted = (ri.poc - ri.lists.ref_poc(l, ref_idx)) as i32;
    if spanned != 0 && wanted != spanned {
        if wanted == 2 * spanned && magnitude(spanned as int) <= 31 && magnitude(x) <= 16383
            && magnitude(y) <= 16383 {
            law_scaling_doubles(v, spanned, wanted);
        }
        if wanted == -spanned && magnitude(spanned as int) <= 64 && x > -32768 && y > -32768 {
            law_scaling_turns_round(v, spanned, wanted);
        }
        if spanned == 2 * wanted && 0 < magnitude(wanted as int) <= 63 {
            law_scaling_halves(v, spanned, wanted);
        }
        if magnitude(spanned as int) <= 127 && magnitude(wanted as int) <= 127 && magnitude(
            wanted as int,
        ) < 15 * magnitude(spanned as int) && magnitude(x) <= 2047 && magnitude(y) <= 2047 {
            law_scaling_is_proportional(v, spanned, wanted);
        }
    }
}

/// A collocated block gives nothing where it is intra or was not decoded, or where just one of its
/// reference and the current one is long-term. Where both are, its vector stays as it is.
pub proof fn law_long_term_is_not_scaled(
    t: MvField,
    k: int,
    ref_idx: i8,
    l: int,
    ri: RefV,
    col: FrameMvV,
    collocated_list: usize,
)
    requires
        collocated_list < 2,
        0 <= l < 2,
    ensures
        ({
            let r = from_col(t, ref_idx, l, ri, col, collocated_list);
            let cur_long = ri.lists.ref_long(l, ref_idx);
            let col_long = col.lists.ref_long(k, t.ref_idx[k]);
            &&& t.pred_flag == PF_INTRA || t.pred_flag == 0 ==> r is None
            &&& gives_from(t, k, l, ri, collocated_list) && cur_long != col_long ==> r is None
            &&& gives_from(t, k, l, ri, collocated_list) && cur_long && col_long ==> r is Some
                && r->0.x == t.mv[k][0] && r->0.y == t.mv[k][1]
        }),
{
    reveal(from_col);
    if gives_from(t, k, l, ri, collocated_list) {
        lemma_gives_from(t, k, l, ri, collocated_list);
    }
}

/// The block of an earlier picture that stands for the square of 16 by 16 samples around `x`, `y`: the
/// one at the upper left corner of that square.
pub open spec fn col_place(g: Geo, x: int, y: int) -> (int, int) {
    ((x - x % 16) / (g.min_pu as int), (y - y % 16) / (g.min_pu as int))
}

/// What the earlier picture gives for `x`, `y`.
pub open spec fn given_at(
    g: Geo,
    x: int,
    y: int,
    ref_idx: i8,
    l: int,
    ri: RefV,
    col: FrameMvV,
    collocated_list: usize,
) -> Option<Mv> {
    let (cx, cy) = col_place(g, x, y);
    if cx < col.w && cy < col.h {
        from_col(col.mvf[cy * col.w + cx], ref_idx, l, ri, col, collocated_list)
    } else {
        None
    }
}

/// The temporal candidate is what the collocated picture gives at the lower right corner of a block,
/// where that lies in the picture and in the same row of tree blocks, and else what it gives at the
/// centre. Without a collocated picture there is none.
pub proof fn law_temporal_candidate_place(
    g: Geo,
    p: Pu,
    ref_idx: i8,
    l: int,
    ri: RefV,
    collocated_list: usize,
)
    requires
        g.wf(),
        in_tree_block(g, p),
        0 <= l < 2,
        ri.wf(),
    ensures
        ({
            let r = temporal(g, p, ref_idx, l, ri, collocated_list);
            let (x, y) = (p.x + p.w, p.y + p.h);
            let inside = x < g.w && y < g.h && p.y as int % (g.ctb as int) + p.h < g.ctb;
            match ri.col {
                None => r is None,
                Some(c) => {
                    let corner = given_at(g, x, y, ref_idx, l, ri, c, collocated_list);
                    let centre = given_at(
                        g,
                        p.x + p.w as int / 2,
                        p.y + p.h as int / 2,
                        ref_idx,
                        l,
                        ri,
                        c,
                        collocated_list,
                    );
                    &&& inside && corner is Some ==> r == corner
                    &&& !inside || corner is None ==> r == centre
                },
            }
        }),
{
    reveal(temporal);
    reveal(col_at);
    let (c, y, h) = (g.ctb as int, p.y as int, p.h as int);
    super::motion_laws::lemma_step(c, y, h);
    lemma_fundamental_div_mod(y, c);
}

// ---------------------------------------------------------------------------
// Vectors of neighbours

/// The vector by which a neighbour points at the picture `poc`: that of list `l`, or else that of the
/// other list.
pub open spec fn points_by(n: Option<MvField>, l: int, poc: i32, ri: RefV) -> Option<Mv> {
    let at = |k: int|
        {
            let m = n->0;
            &&& m.pred_flag == 3 || m.pred_flag == k + 1
            &&& ri.lists.ref_poc(k, m.ref_idx[k]) == poc
        };
    if n is None {
        None
    } else if at(l) {
        Some(Mv { x: n->0.mv[l][0] as i32, y: n->0.mv[l][1] as i32 })
    } else if at(1 - l) {
        Some(Mv { x: n->0.mv[1 - l][0] as i32, y: n->0.mv[1 - l][1] as i32 })
    } else {
        None
    }
}

/// A neighbour that is inter coded uses list 0, list 1 or both, or was not decoded.
pub open spec fn plain(n: Option<MvField>) -> bool {
    n is Some ==> n->0.pred_flag <= 3
}

proof fn lemma_points_by(n: Option<MvField>, l: int, ref_idx: i8, ri: RefV)
    requires
        plain(n),
        0 <= l < 2,
    ensures
        from_cand(n, l, ref_idx, ri, false) == points_by(n, l, ri.lists.ref_poc(l, ref_idx), ri),
{
    reveal(from_list);
    if n is Some {
        let x = n->0.pred_flag;
        assert((x & 1 != 0) == (x == 1 || x == 3) && (x & 2 != 0) == (x == 2 || x == 3))
            by (bit_vector)
            requires
                x <= 3,
        ;
    }
}

/// A block with its neighbours, all of them usable as predictors.
pub open spec fn predictor_place(f: FrameV, g: Geo, t: Ctb, p: Pu) -> bool {
    &&& g.wf()
    &&& f.wf(g)
    &&& in_tree_block(g, p)
    &&& t.ok(p.x as int, p.y as int)
    &&& neighbours_kept(f, g, t, p)
    &&& plain(below_left(f, g, t, p)) && plain(left(f, g, t, p))
    &&& plain(up_right(f, g, t, p)) && plain(up(f, g, t, p)) && plain(corner(f, g, t, p))
}

pub open spec fn below_left(f: FrameV, g: Geo, t: Ctb, p: Pu) -> Option<MvField> {
    offer(f, g, below_left_open(g, t, p), p.x - 1, p.y + p.h)
}

pub open spec fn left(f: FrameV, g: Geo, t: Ctb, p: Pu) -> Option<MvField> {
    offer(f, g, left_open(g, t, p), p.x - 1, p.y + p.h - 1)
}

pub open spec fn up_right(f: FrameV, g: Geo, t: Ctb, p: Pu) -> Option<MvField> {
    offer(f, g, up_right_open(g, t, p), p.x + p.w, p.y - 1)
}

pub open spec fn up(f: FrameV, g: Geo, t: Ctb, p: Pu) -> Option<MvField> {
    offer(f, g, up_open(g, t, p), p.x + p.w - 1, p.y - 1)
}

pub open spec fn corner(f: FrameV, g: Geo, t: Ctb, p: Pu) -> Option<MvField> {
    offer(f, g, corner_open(g, t, p), p.x - 1, p.y - 1)
}

/// The vector by which the left side points at a picture: below left before left.
pub open spec fn left_points(f: FrameV, g: Geo, t: Ctb, p: Pu, l: int, poc: i32, ri: RefV) -> Option<
    Mv,
> {
    let a0 = points_by(below_left(f, g, t, p), l, poc, ri);
    if a0 is Some {
        a0
    } else {
        points_by(left(f, g, t, p), l, poc, ri)
    }
}

/// The vector by which the row above points at a picture: above right before above before above left.
pub open spec fn up_points(f: FrameV, g: Geo, t: Ctb, p: Pu, l: int, poc: i32, ri: RefV) -> Option<Mv> {
    let b0 = points_by(up_right(f, g, t, p), l, poc, ri);
    let b1 = points_by(up(f, g, t, p), l, poc, ri);
    if b0 is Some {
        b0
    } else if b1 is Some {
        b1
    } else {
        points_by(corner(f, g, t, p), l, poc, ri)
    }
}

proof fn lemma_points(f: FrameV, g: Geo, t: Ctb, p: Pu, l: int, ref_idx: i8, ri: RefV)
    requires
        predictor_place(f, g, t, p),
        0 <= l < 2,
    ensures
        ({
            let (a, poc) = (around(f, g, t, p), ri.lists.ref_poc(l, ref_idx));
            &&& left_pred(a, l, ref_idx, ri, false) == left_points(f, g, t, p, l, poc, ri)
            &&& up_pred(a, l, ref_idx, ri, false) == up_points(f, g, t, p, l, poc, ri)
            &&& a.a0 == below_left(f, g, t, p)
            &&& a.a1 == left(f, g, t, p)
            &&& a.b0 == up_right(f, g, t, p)
            &&& a.b1 == up(f, g, t, p)
            &&& a.b2 == corner(f, g, t, p)
        }),
{
    law_neighbours(f, g, t, p);
    reveal(left_pred);
    reveal(up_pred);
    let a = around(f, g, t, p);
    lemma_points_by(a.a0, l, ref_idx, ri);
    lemma_points_by(a.a1, l, ref_idx, ri);
    lemma_points_by(a.b0, l, ref_idx, ri);
    lemma_points_by(a.b1, l, ref_idx, ri);
    lemma_points_by(a.b2, l, ref_idx, ri);
}

/// Where the left side points at the picture of the current reference, predictor 0 is its vector,
/// whatever stands above. A different vector from above is predictor 1. Where there is none, predictor
/// 1 is the temporal candidate, or zero where there is none either.
pub proof fn law_left_predictor_comes_first(
    f: FrameV,
    g: Geo,
    t: Ctb,
    p: Pu,
    l: int,
    ref_idx: i8,
    sh: HeaderV,
    ri: RefV,
)
    requires
        predictor_place(f, g, t, p),
        0 <= l < 2,
        left_points(f, g, t, p, l, ri.lists.ref_poc(l, ref_idx), ri) is Some,
    ensures
        ({
            let poc = ri.lists.ref_poc(l, ref_idx);
            let v = left_points(f, g, t, p, l, poc, ri)->0;
            let u = up_points(f, g, t, p, l, poc, ri);
            let second = predictor(f, g, t, p, l, ref_idx, sh, ri, 1);
            let tc = temporal(g, p, ref_idx, l, ri, sh.inter.col_list);
            &&& predictor(f, g, t, p, l, ref_idx, sh, ri, 0) == v
            &&& u is Some && u->0 != v ==> second == u->0
            &&& (u is None || u->0 == v) && sh.slice_temporal_mvp_enabled && tc is Some ==> second
                == tc->0
            &&& (u is None || u->0 == v) && (!sh.slice_temporal_mvp_enabled || tc is None) ==> second
                == zero_mv()
        }),
{
    lemma_points(f, g, t, p, l, ref_idx, ri);
    reveal(pred_list);
    reveal(spatial_preds);
}

/// Without neighbours on the left, predictor 0 is the vector by which the row above points at the
/// picture of the current reference.
pub proof fn law_upper_predictor_takes_the_left_place(
    f: FrameV,
    g: Geo,
    t: Ctb,
    p: Pu,
    l: int,
    ref_idx: i8,
    sh: HeaderV,
    ri: RefV,
)
    requires
        predictor_place(f, g, t, p),
        0 <= l < 2,
        below_left(f, g, t, p) is None,
        left(f, g, t, p) is None,
        up_points(f, g, t, p, l, ri.lists.ref_poc(l, ref_idx), ri) is Some,
    ensures
        predictor(f, g, t, p, l, ref_idx, sh, ri, 0) == up_points(
            f,
            g,
            t,
            p,
            l,
            ri.lists.ref_poc(l, ref_idx),
            ri,
        )->0,
{
    lemma_points(f, g, t, p, l, ref_idx, ri);
    reveal(pred_list);
    reveal(spatial_preds);
}

/// A block without neighbours is predicted from the collocated picture alone: its candidate is
/// predictor 0, and there is no other.
pub proof fn law_predictor_without_neighbours(
    f: FrameV,
    g: Geo,
    t: Ctb,
    p: Pu,
    l: int,
    ref_idx: i8,
    sh: HeaderV,
    ri: RefV,
)
    requires
        predictor_place(f, g, t, p),
        0 <= l < 2,
        below_left(f, g, t, p) is None,
        left(f, g, t, p) is None,
        up_right(f, g, t, p) is None,
        up(f, g, t, p) is None,
        corner(f, g, t, p) is None,
    ensures
        ({
            let tc = temporal(g, p, ref_idx, l, ri, sh.inter.col_list);
            &&& sh.slice_temporal_mvp_enabled && tc is Some ==> predictor(
                f,
                g,
                t,
                p,
                l,
                ref_idx,
                sh,
                ri,
                0,
            ) == tc->0
            &&& !sh.slice_temporal_mvp_enabled || tc is None ==> predictor(
                f,
                g,
                t,
                p,
                l,
                ref_idx,
                sh,
                ri,
                0,
            ) == zero_mv()
            &&& predictor(f, g, t, p, l, ref_idx, sh, ri, 1) == zero_mv()
        }),
{
    lemma_points(f, g, t, p, l, ref_idx, ri);
    reveal(pred_list);
    reveal(spatial_preds);
    reveal(left_pred);
    reveal(up_pred);
}

/// A vector is another one over a different distance.
pub open spec fn in_ratio(r: Mv, v: Mv, spanned: int, wanted: int) -> bool {
    let (x, y) = (v.x as int, v.y as int);
    &&& wanted == 2 * spanned && magnitude(spanned) <= 31 && magnitude(x) <= 16383 && magnitude(y)
        <= 16383 ==> r.x == 2 * x && r.y == 2 * y
    &&& wanted == -spanned && magnitude(spanned) <= 64 && x > -32768 && y > -32768 ==> r.x == -x
        && r.y == -y
    &&& spanned == 2 * wanted && magnitude(wanted) <= 63 ==> magnitude(r.x as int) == magnitude(x)
        / 2 && magnitude(r.y as int) == magnitude(y) / 2
    &&& magnitude(spanned) <= 127 && magnitude(wanted) <= 127 && magnitude(wanted) < 15 * magnitude(
        spanned,
    ) && magnitude(x) <= 2047 && magnitude(y) <= 2047 ==> {
        &&& 128 * magnitude(r.x * spanned - x * wanted) <= magnitude(spanned) * (64 + magnitude(x))
        &&& 128 * magnitude(r.y * spanned - y * wanted) <= magnitude(spanned) * (64 + magnitude(y))
    }
}

proof fn lemma_in_ratio(v: Mv, spanned: i32, wanted: i32)
    requires
        spanned != 0,
        -32768 <= v.x <= 32767,
        -32768 <= v.y <= 32767,
    ensures
        in_ratio(scaled_mv(v, spanned, wanted), v, spanned as int, wanted as int),
{
    let (x, y) = (v.x as int, v.y as int);
    if wanted == 2 * spanned && magnitude(spanned as int) <= 31 && magnitude(x) <= 16383
        && magnitude(y) <= 16383 {
        law_scaling_doubles(v, spanned, wanted);
    }
    if wanted == -spanned && magnitude(spanned as int) <= 64 && x > -32768 && y > -32768 {
        law_scaling_turns_round(v, spanned, wanted);
    }
    if spanned == 2 * wanted && magnitude(wanted as int) <= 63 {
        law_scaling_halves(v, spanned, wanted);
    }
    if magnitude(spanned as int) <= 127 && magnitude(wanted as int) <= 127 && magnitude(
        wanted as int,
    ) < 15 * magnitude(spanned as int) && magnitude(x) <= 2047 && magnitude(y) <= 2047 {
        law_scaling_is_proportional(v, spanned, wanted);
    }
}

/// The list of a neighbour that a predictor for list `l` is taken from: `l` where the neighbour uses it.
pub open spec fn taken_from(n: MvField, l: int) -> int {
    if n.pred_flag == 3 || n.pred_flag == l + 1 {
        l
    } else {
        1 - l
    }
}

/// The reference of a neighbour and the current one are short-term, and its vector spans some distance.
pub open spec fn can_scale(n: MvField, l: int, ref_idx: i8, ri: RefV) -> bool {
    let k = taken_from(n, l);
    let nb_poc = ri.lists.ref_poc(k, n.ref_idx[k]);
    let poc = ri.lists.ref_poc(l, ref_idx);
    &&& 1 <= n.pred_flag <= 3
    &&& !ri.lists.ref_long(l, ref_idx)
    &&& !ri.lists.ref_long(k, n.ref_idx[k])
    &&& nb_poc != poc
    &&& nb_poc != ri.poc
    &&& i32::MIN <= ri.poc - nb_poc <= i32::MAX
    &&& i32::MIN <= ri.poc - poc <= i32::MAX
}

/// A predictor is the vector of a neighbour over the distance of the current reference.
pub open spec fn predicts(v: Mv, n: MvField, l: int, ref_idx: i8, ri: RefV) -> bool {
    let k = taken_from(n, l);
    in_ratio(
        v,
        Mv { x: n.mv[k][0] as i32, y: n.mv[k][1] as i32 },
        ri.poc - ri.lists.ref_poc(k, n.ref_idx[k]),
        ri.poc - ri.lists.ref_poc(l, ref_idx),
    )
}

proof fn lemma_can_scale(n: MvField, l: int, ref_idx: i8, ri: RefV)
    requires
        can_scale(n, l, ref_idx, ri),
        0 <= l < 2,
    ensures
        ({
            let r = from_cand(Some(n), l, ref_idx, ri, true);
            r is Some && predicts(r->0, n, l, ref_idx, ri)
        }),
{
    reveal(from_list);
    let x = n.pred_flag;
    assert((x & 1 != 0) == (x == 1 || x == 3) && (x & 2 != 0) == (x == 2 || x == 3))
        by (bit_vector)
        requires
            x <= 3,
    ;
    let k = taken_from(n, l);
    let spanned = (ri.poc - ri.lists.ref_poc(k, n.ref_idx[k])) as i32;
    let wanted = (ri.poc - ri.lists.ref_poc(l, ref_idx)) as i32;
    lemma_in_ratio(vec_of(n, k), spanned, wanted);
}

/// Where the left side has motion, but none that points at the picture of the current reference,
/// predictor 0 is the vector of the first neighbour there, over the distance of the current
/// reference.
pub proof fn law_left_predictor_is_scaled(
    f: FrameV,
    g: Geo,
    t: Ctb,
    p: Pu,
    l: int,
    ref_idx: i8,
    sh: HeaderV,
    ri: RefV,
    n: MvField,
)
    requires
        predictor_place(f, g, t, p),
        0 <= l < 2,
        left_points(f, g, t, p, l, ri.lists.ref_poc(l, ref_idx), ri) is None,
        below_left(f, g, t, p) == Some(n) || (below_left(f, g, t, p) is None && left(f, g, t, p)
            == Some(n)),
        can_scale(n, l, ref_idx, ri),
    ensures
        predicts(predictor(f, g, t, p, l, ref_idx, sh, ri, 0), n, l, ref_idx, ri),
{
    lemma_points(f, g, t, p, l, ref_idx, ri);
    lemma_can_scale(n, l, ref_idx, ri);
    reveal(pred_list);
    reveal(spatial_preds);
    reveal(left_pred);
}

/// Where there is no motion on the left, and none above that points at the picture of the current
/// reference, predictor 0 is the vector of the first neighbour above, over the distance of the
/// current reference.
pub proof fn law_upper_predictor_is_scaled(
    f: FrameV,
    g: Geo,
    t: Ctb,
    p: Pu,
    l: int,
    ref_idx: i8,
    sh: HeaderV,
    ri: RefV,
    n: MvField,
)
    requires
        predictor_place(f, g, t, p),
        0 <= l < 2,
        below_left(f, g, t, p) is None,
        left(f, g, t, p) is None,
        up_points(f, g, t, p, l, ri.lists.ref_poc(l, ref_idx), ri) is None,
        up_right(f, g, t, p) == Some(n) || (up_right(f, g, t, p) is None && (up(f, g, t, p) == Some(
            n,
        ) || (up(f, g, t, p) is None && corner(f, g, t, p) == Some(n)))),
        can_scale(n, l, ref_idx, ri),
    ensures
        predicts(predictor(f, g, t, p, l, ref_idx, sh, ri, 0), n, l, ref_idx, ri),
{
    lemma_points(f, g, t, p, l, ref_idx, ri);
    lemma_can_scale(n, l, ref_idx, ri);
    reveal(pred_list);
    reveal(spatial_preds);
    reveal(up_pred);
}

} // verus!
