//! What intra modes are, and the order of blocks in a tree block.

use super::contexts::{Bins, INTRA_CHROMA_PRED_MODE_OFFSET};
use super::frame::{FrameV, Geo};
use super::intra::{chroma_mode, coded_mode, likely_modes, neighbor_modes};
use super::motion::{z_order, Ctb};
use vstd::arithmetic::div_mod::{lemma_fundamental_div_mod, lemma_fundamental_div_mod_converse};
use vstd::arithmetic::power2::{
    lemma2_to64, lemma_pow2_adds, lemma_pow2_pos, lemma_pow2_unfold, pow2,
};
use vstd::prelude::*;

verus! {

// ---------------------------------------------------------------------------
// Intra modes

/// Directions come in a circle: those from 2 to 33, and 34 is 2 from the other side.
pub open spec fn same_direction(a: int, b: int) -> bool {
    a % 32 == b % 32
}

/// The three most probable modes are different. They are those of the two neighbours where these differ,
/// and then planar, mean or vertical prediction, the first of these that is not among them. Neighbours
/// with the same direction make it and the next ones on both sides probable, and without a direction
/// planar, mean and vertical prediction.
pub proof fn law_likely_modes(left: i32, up: i32)
    requires
        0 <= left <= 34,
        0 <= up <= 34,
    ensures
        ({
            let (a, b, c) = likely_modes(left, up);
            &&& a != b && b != c && a != c
            &&& 0 <= a <= 34 && 0 <= b <= 34 && 0 <= c <= 34
            &&& left != up ==> a == left && b == up && (c == 0 || c == 1 || c == 26)
            &&& left != up && left != 0 && up != 0 ==> c == 0
            &&& left != up && (left == 0 || up == 0) && left != 1 && up != 1 ==> c == 1
            &&& left == up && left < 2 ==> a == 0 && b == 1 && c == 26
            &&& left == up && left >= 2 ==> {
                &&& a == left
                &&& 2 <= b <= 33 && same_direction(b as int, left - 1)
                &&& 2 <= c <= 33 && same_direction(c as int, left + 1)
            }
        }),
{
    reveal(likely_modes);
    let (x, y) = ((left + 29) as i32, (left - 1) as i32);
    if left >= 2 {
        assert((x & 31) == x % 32 && (y & 31) == y % 32) by (bit_vector)
            requires
                0 <= x <= 100,
                0 <= y <= 100,
        ;
    }
}

/// A mode that is not a probable one is coded by its number among the others: numbers go through the others
/// in ascending order and leave none out.
pub proof fn law_other_modes(likely: (i32, i32, i32), r1: int, r2: int)
    requires
        likely.0 != likely.1,
        likely.1 != likely.2,
        likely.0 != likely.2,
        0 <= likely.0 <= 34,
        0 <= likely.1 <= 34,
        0 <= likely.2 <= 34,
        0 <= r1 < r2 <= 31,
    ensures
        ({
            let m = |r: int| coded_mode(likely, false, 0, r);
            let other = |x: int| x != likely.0 && x != likely.1 && x != likely.2;
            &&& 0 <= m(r1) < m(r2) <= 34
            &&& other(m(r1)) && other(m(r2))
        }),
{
    reveal(coded_mode);
}

/// A probable mode is coded by its place.
pub proof fn law_probable_modes(likely: (i32, i32, i32), rem: int)
    ensures
        coded_mode(likely, true, 0, rem) == likely.0,
        coded_mode(likely, true, 1, rem) == likely.1,
        coded_mode(likely, true, 2, rem) == likely.2,
{
    reveal(coded_mode);
}

/// The neighbours of a block are the samples to the left and above its first one, where these can be used;
/// above, only in the same tree block. The mean stands in for them.
pub proof fn law_neighbour_modes(f: FrameV, g: Geo, t: Ctb, x: int, y: int)
    requires
        g.wf(),
    ensures
        ({
            let (left, up) = neighbor_modes(f, g, t, x, y);
            let at = |sx: int, sy: int| sy / (g.min_pu as int) * g.pu_w + sx / (g.min_pu as int);
            let (i, j) = (at(x - 1, y), at(x, y - 1));
            &&& (t.left || x % (g.ctb as int) != 0) && 0 <= i < f.ipm.len() ==> left == f.ipm[i]
            &&& !t.left && x % (g.ctb as int) == 0 ==> left == 1
            &&& y % (g.ctb as int) != 0 && 0 <= j < f.ipm.len() ==> up == f.ipm[j]
            &&& y % (g.ctb as int) == 0 ==> up == 1
        }),
{
    reveal(neighbor_modes);
    reveal(FrameV::ipm_at);
}

/// Chroma has the mode of luma, or one of its own that is different.
pub proof fn law_chroma_mode(c: Bins, luma: u8)
    requires
        luma <= 34,
    ensures
        ({
            let (m, rest) = chroma_mode(c, luma);
            let (own, c1) = c.flag(INTRA_CHROMA_PRED_MODE_OFFSET as int);
            let (hi, c2) = c1.bypass();
            let (lo, c3) = c2.bypass();
            let four: Seq<u8> = seq![0, 26, 10, 1];
            &&& !own ==> m == luma && rest == c1
            &&& own ==> m != luma && rest == c3
            &&& own && hi <= 1 && lo <= 1 && luma != four[2 * hi + lo] ==> m == four[2 * hi + lo]
            &&& own && hi <= 1 && lo <= 1 && luma == four[2 * hi + lo] ==> m == 34
        }),
{
    reveal(chroma_mode);
}

// ---------------------------------------------------------------------------
// The order of blocks

proof fn lemma_z_bound(x: int, y: int, k: nat)
    requires
        0 <= x < pow2(k),
        0 <= y < pow2(k),
    ensures
        0 <= z_order(x, y, pow2(k) as int) < pow2(k) * pow2(k),
    decreases k,
{
    let n = pow2(k) as int;
    lemma2_to64();
    if k > 0 {
        lemma_pow2_unfold(k);
        lemma_pow2_pos((k - 1) as nat);
        let h = pow2((k - 1) as nat) as int;
        assert(n / 2 == h);
        lemma_fundamental_div_mod(x, h);
        lemma_fundamental_div_mod(y, h);
        let (a, b) = (x / h, y / h);
        assert(0 <= a <= 1 && 0 <= b <= 1) by (nonlinear_arith)
            requires
                0 <= x < 2 * h,
                0 <= y < 2 * h,
                x == h * a + x % h,
                y == h * b + y % h,
                0 <= x % h < h,
                0 <= y % h < h,
        ;
        lemma_z_bound(x % h, y % h, (k - 1) as nat);
        let q = 2 * b + a;
        assert(0 <= q * (h * h) <= 3 * (h * h)) by (nonlinear_arith)
            requires
                0 <= q <= 3,
        ;
        assert(n * n == 4 * (h * h)) by (nonlinear_arith)
            requires
                n == 2 * h,
        ;
    } else {
        assert(n == 1);
    }
}

/// Cells of `s` in cells of `s * m`.
proof fn lemma_split(x: int, s: int, m: int)
    requires
        0 < s,
        0 < m,
        0 <= x,
    ensures
        (x % (s * m)) / s == x / s - (x / (s * m)) * m,
        x / (s * m) == (x / s) / m,
{
    let h = s * m;
    assert(0 < h) by (nonlinear_arith)
        requires
            0 < s,
            0 < m,
            h == s * m,
    ;
    lemma_fundamental_div_mod(x, h);
    let (q, r) = (x / h, x % h);
    lemma_fundamental_div_mod(r, s);
    let (a, b) = (r / s, r % s);
    assert(x == (m * q + a) * s + b) by (nonlinear_arith)
        requires
            x == h * q + r,
            h == s * m,
            r == s * a + b,
    ;
    lemma_fundamental_div_mod_converse(x, s, m * q + a, b);
    assert(m * q == q * m) by (nonlinear_arith);
    assert(0 <= a < m) by (nonlinear_arith)
        requires
            0 <= r < s * m,
            r == s * a + b,
            0 <= b < s,
            0 < s,
    ;
    lemma_fundamental_div_mod_converse(x / s, m, q, a);
}

/// Blocks in a square of `2^k` cells come quarter by quarter, row by row, and so do the blocks of each
/// quarter: of two that lie in the same square of `2^(j + 1)` cells, but in different quarters of it, the
/// one in the earlier quarter comes first.
pub proof fn law_blocks_come_quarter_by_quarter(
    x1: int,
    y1: int,
    x2: int,
    y2: int,
    j: nat,
    k: nat,
)
    requires
        j < k,
        0 <= x1 < pow2(k),
        0 <= y1 < pow2(k),
        0 <= x2 < pow2(k),
        0 <= y2 < pow2(k),
        x1 / (2 * pow2(j) as int) == x2 / (2 * pow2(j) as int),
        y1 / (2 * pow2(j) as int) == y2 / (2 * pow2(j) as int),
        x1 / (pow2(j) as int) != x2 / (pow2(j) as int) || y1 / (pow2(j) as int) != y2 / (pow2(
            j,
        ) as int),
    ensures
        z_order(x1, y1, pow2(k) as int) < z_order(x2, y2, pow2(k) as int) <==> {
            ||| y1 / (pow2(j) as int) < y2 / (pow2(j) as int)
            ||| y1 / (pow2(j) as int) == y2 / (pow2(j) as int) && x1 / (pow2(j) as int) < x2 / (
            pow2(j) as int)
        },
        z_order(x1, y1, pow2(k) as int) != z_order(x2, y2, pow2(k) as int),
    decreases k,
{
    lemma2_to64();
    lemma_pow2_unfold(k);
    lemma_pow2_pos((k - 1) as nat);
    lemma_pow2_pos(j);
    let n = pow2(k) as int;
    let h = pow2((k - 1) as nat) as int;
    let s = pow2(j) as int;
    assert(n / 2 == h);
    lemma_fundamental_div_mod(x1, h);
    lemma_fundamental_div_mod(y1, h);
    lemma_fundamental_div_mod(x2, h);
    lemma_fundamental_div_mod(y2, h);
    let (a1, b1, a2, b2) = (x1 / h, y1 / h, x2 / h, y2 / h);
    assert(0 <= a1 <= 1 && 0 <= b1 <= 1 && 0 <= a2 <= 1 && 0 <= b2 <= 1) by (nonlinear_arith)
        requires
            0 <= x1 < 2 * h,
            0 <= y1 < 2 * h,
            0 <= x2 < 2 * h,
            0 <= y2 < 2 * h,
            x1 == h * a1 + x1 % h,
            y1 == h * b1 + y1 % h,
            x2 == h * a2 + x2 % h,
            y2 == h * b2 + y2 % h,
            0 <= x1 % h < h,
            0 <= y1 % h < h,
            0 <= x2 % h < h,
            0 <= y2 % h < h,
    ;
    let (r1, r2) = (z_order(x1 % h, y1 % h, h), z_order(x2 % h, y2 % h, h));
    lemma_z_bound(x1 % h, y1 % h, (k - 1) as nat);
    lemma_z_bound(x2 % h, y2 % h, (k - 1) as nat);
    let (q1, q2) = (2 * b1 + a1, 2 * b2 + a2);
    let hh = h * h;
    assert(z_order(x1, y1, n) == q1 * hh + r1);
    assert(z_order(x2, y2, n) == q2 * hh + r2);
    if j == k - 1 {
        assert(q1 < q2 ==> q1 * hh + r1 < q2 * hh + r2) by (nonlinear_arith)
            requires
                0 <= r1 < hh,
                0 <= r2 < hh,
        ;
        assert(q2 < q1 ==> q2 * hh + r2 < q1 * hh + r1) by (nonlinear_arith)
            requires
                0 <= r1 < hh,
                0 <= r2 < hh,
        ;
    } else {
        let m = pow2((k - 1 - j) as nat) as int;
        let m2 = pow2((k - 2 - j) as nat) as int;
        lemma_pow2_adds(j, (k - 1 - j) as nat);
        lemma_pow2_unfold((k - 1 - j) as nat);
        lemma_pow2_pos((k - 2 - j) as nat);
        lemma_pow2_pos((k - 1 - j) as nat);
        assert(h == s * m);
        assert(h == (2 * s) * m2) by (nonlinear_arith)
            requires
                h == s * m,
                m == 2 * m2,
        ;
        lemma_split(x1, s, m);
        lemma_split(y1, s, m);
        lemma_split(x2, s, m);
        lemma_split(y2, s, m);
        lemma_split(x1, 2 * s, m2);
        lemma_split(y1, 2 * s, m2);
        lemma_split(x2, 2 * s, m2);
        lemma_split(y2, 2 * s, m2);
        assert(a1 == a2 && b1 == b2);
        law_blocks_come_quarter_by_quarter(
            x1 % h,
            y1 % h,
            x2 % h,
            y2 % h,
            j,
            (k - 1) as nat,
        );
    }
}

} // verus!
