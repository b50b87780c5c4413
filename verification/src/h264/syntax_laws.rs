//! Code words of macroblock types and reference indices.

use super::mb_cavlc;
use super::contexts::Cab;
use super::grids::GridsV;
use super::mb_b::{b_sub_type, b_type};
use super::mb_cabac::{p_sub_type, p_type, ref_idx, ref_unary};
use super::motion_laws::{at_left, at_top, col_of, law_neighbours, place, row_of};
use crate::bits::Bits;
use vstd::prelude::*;

verus! {

// ---------------------------------------------------------------------------
// Words of bins

/// The decoder behind the first `k` bins that are read with contexts `ctx`.
pub open spec fn behind(c: Cab, ctx: Seq<int>, k: nat) -> Cab
    decreases k,
{
    if k == 0 {
        c
    } else {
        behind(c, ctx, (k - 1) as nat).get(ctx[k - 1]).1
    }
}

/// Bin `k` of those that are read with contexts `ctx`.
pub open spec fn bin_at(c: Cab, ctx: Seq<int>, k: int) -> u32 {
    behind(c, ctx, k as nat).get(ctx[k]).0
}

/// The next bins are those of `word`.
pub open spec fn spells(c: Cab, ctx: Seq<int>, word: Seq<u32>) -> bool {
    forall|k: int| 0 <= k < word.len() ==> #[trigger] bin_at(c, ctx, k) == word[k]
}

proof fn lemma_word(c: Cab, ctx: Seq<int>, word: Seq<u32>)
    requires
        spells(c, ctx, word),
    ensures
        word.len() > 0 ==> c.get(ctx[0]).0 == word[0],
        word.len() > 1 ==> behind(c, ctx, 1).get(ctx[1]).0 == word[1],
        word.len() > 2 ==> behind(c, ctx, 2).get(ctx[2]).0 == word[2],
        word.len() > 3 ==> behind(c, ctx, 3).get(ctx[3]).0 == word[3],
        word.len() > 4 ==> behind(c, ctx, 4).get(ctx[4]).0 == word[4],
        word.len() > 5 ==> behind(c, ctx, 5).get(ctx[5]).0 == word[5],
        word.len() > 6 ==> behind(c, ctx, 6).get(ctx[6]).0 == word[6],
        behind(c, ctx, 0) == c,
        behind(c, ctx, 1) == c.get(ctx[0]).1,
        behind(c, ctx, 2) == behind(c, ctx, 1).get(ctx[1]).1,
        behind(c, ctx, 3) == behind(c, ctx, 2).get(ctx[2]).1,
        behind(c, ctx, 4) == behind(c, ctx, 3).get(ctx[3]).1,
        behind(c, ctx, 5) == behind(c, ctx, 4).get(ctx[4]).1,
        behind(c, ctx, 6) == behind(c, ctx, 5).get(ctx[5]).1,
        behind(c, ctx, 7) == behind(c, ctx, 6).get(ctx[6]).1,
{
    reveal_with_fuel(behind, 2);
    let n = word.len();
    if n > 0 {
        assert(bin_at(c, ctx, 0) == word[0]);
    }
    if n > 1 {
        assert(bin_at(c, ctx, 1) == word[1]);
    }
    if n > 2 {
        assert(bin_at(c, ctx, 2) == word[2]);
    }
    if n > 3 {
        assert(bin_at(c, ctx, 3) == word[3]);
    }
    if n > 4 {
        assert(bin_at(c, ctx, 4) == word[4]);
    }
    if n > 5 {
        assert(bin_at(c, ctx, 5) == word[5]);
    }
    if n > 6 {
        assert(bin_at(c, ctx, 6) == word[6]);
    }
}

// ---------------------------------------------------------------------------
// P macroblocks

/// The code word of a P macroblock: undivided, an upper and a lower half, a left and a right half, or
/// quadrants.
pub open spec fn p_word(t: u32) -> Seq<u32> {
    if t == 0 {
        seq![0, 0, 0]
    } else if t == 1 {
        seq![0, 1, 1]
    } else if t == 2 {
        seq![0, 1, 0]
    } else {
        seq![0, 0, 1]
    }
}

/// A P macroblock has the type whose code word comes; one that starts with a 1 is intra.
pub proof fn law_p_types(c: Cab, t: u32)
    requires
        t <= 3,
    ensures
        ({
            let ctx: Seq<int> = seq![
                14,
                15,
                if t == 1 || t == 2 {
                    17
                } else {
                    16
                },
            ];
            &&& spells(c, ctx, p_word(t)) ==> p_type(c) == (Some(t), behind(c, ctx, 3))
            &&& c.get(14).0 == 1 ==> p_type(c) == (None::<u32>, c.get(14).1)
        }),
{
    reveal(p_type);
    let ctx: Seq<int> = seq![
        14,
        15,
        if t == 1 || t == 2 {
            17
        } else {
            16
        },
    ];
    if spells(c, ctx, p_word(t)) {
        lemma_word(c, ctx, p_word(t));
    }
}

/// The code word of a quadrant of a P macroblock: undivided, an upper and a lower part, a left and a right
/// part, or four.
pub open spec fn p_sub_word(t: u32) -> Seq<u32> {
    if t == 0 {
        seq![1]
    } else if t == 1 {
        seq![0, 0]
    } else if t == 2 {
        seq![0, 1, 1]
    } else {
        seq![0, 1, 0]
    }
}

/// A quadrant of a P macroblock has the type whose code word comes.
pub proof fn law_p_quadrant_types(c: Cab, t: u32)
    requires
        t <= 3,
        spells(c, seq![21, 22, 23], p_sub_word(t)),
    ensures
        p_sub_type(c) == (t, behind(c, seq![21, 22, 23], p_sub_word(t).len())),
{
    reveal(p_sub_type);
    lemma_word(c, seq![21, 22, 23], p_sub_word(t));
}

// ---------------------------------------------------------------------------
// B macroblocks

/// The code word of a B macroblock: direct; undivided with one list; then the others, but for one, in six
/// bins and in seven.
pub open spec fn b_word(t: u32) -> Seq<u32> {
    let bit = |v: int, k: int| (v / k % 2) as u32;
    if t == 0 {
        seq![0]
    } else if t <= 2 {
        seq![1, 0, (t - 1) as u32]
    } else if t <= 10 {
        seq![1, 1, 0, bit(t - 3, 4), bit(t - 3, 2), bit(t - 3, 1)]
    } else if t == 11 {
        seq![1, 1, 1, 1, 1, 0]
    } else if t == 22 {
        seq![1, 1, 1, 1, 1, 1]
    } else {
        seq![1, 1, 1, bit(t - 12, 8), bit(t - 12, 4), bit(t - 12, 2), bit(t - 12, 1)]
    }
}

/// The contexts of the type of a B macroblock. The first counts the neighbours, to the left and above, that
/// are there and not in direct mode.
pub open spec fn b_contexts(left: bool, top: bool, t: u32) -> Seq<int> {
    let first = if left && top {
        29int
    } else if left || top {
        28
    } else {
        27
    };
    if t == 1 || t == 2 {
        seq![first, 30, 32]
    } else {
        seq![first, 30, 31, 32, 32, 32, 32]
    }
}

/// A B macroblock has the type whose code word comes.
pub proof fn law_b_types(c: Cab, left: bool, top: bool, t: u32)
    requires
        t <= 22,
        spells(c, b_contexts(left, top, t), b_word(t)),
    ensures
        b_type(c, left, top) == (Some(t), behind(c, b_contexts(left, top, t), b_word(t).len())),
{
    reveal(b_type);
    lemma_word(c, b_contexts(left, top, t), b_word(t));
}

/// A B macroblock is intra where its own code word comes.
pub proof fn law_b_intra(c: Cab, left: bool, top: bool)
    requires
        spells(c, b_contexts(left, top, 3), seq![1, 1, 1, 1, 0, 1]),
    ensures
        b_type(c, left, top) == (None::<u32>, behind(c, b_contexts(left, top, 3), 6)),
{
    reveal(b_type);
    lemma_word(c, b_contexts(left, top, 3), seq![1, 1, 1, 1, 0, 1]);
}

/// The code word of a quadrant of a B macroblock: direct; undivided with one list; then four types in five
/// bins, four in six, and two in five.
pub open spec fn b_sub_word(t: u32) -> Seq<u32> {
    let bit = |v: int, k: int| (v / k % 2) as u32;
    if t == 0 {
        seq![0]
    } else if t <= 2 {
        seq![1, 0, (t - 1) as u32]
    } else if t <= 6 {
        seq![1, 1, 0, bit(t - 3, 2), bit(t - 3, 1)]
    } else if t <= 10 {
        seq![1, 1, 1, 0, bit(t - 7, 2), bit(t - 7, 1)]
    } else {
        seq![1, 1, 1, 1, (t - 11) as u32]
    }
}

pub open spec fn b_sub_contexts(t: u32) -> Seq<int> {
    if t == 1 || t == 2 {
        seq![36, 37, 39]
    } else {
        seq![36, 37, 38, 39, 39, 39]
    }
}

/// A quadrant of a B macroblock has the type whose code word comes.
pub proof fn law_b_quadrant_words(c: Cab, t: u32)
    requires
        t <= 12,
        spells(c, b_sub_contexts(t), b_sub_word(t)),
    ensures
        b_sub_type(c) == (t, behind(c, b_sub_contexts(t), b_sub_word(t).len())),
{
    reveal(b_sub_type);
    lemma_word(c, b_sub_contexts(t), b_sub_word(t));
}

// ---------------------------------------------------------------------------
// Reference indices

/// The contexts of a reference index: the first follows from the neighbours, the second is the fifth, and
/// all others the sixth.
pub open spec fn ref_contexts(first: int, n: int) -> Seq<int> {
    Seq::new(
        (n + 1) as nat,
        |i: int|
            if i == 0 {
                54 + first
            } else if i == 1 {
                58int
            } else {
                59int
            },
    )
}

proof fn lemma_ref_unary(c: Cab, s: Cab, first: int, r: i32, n: i32)
    requires
        0 <= first < 4,
        0 <= r <= n < 32,
        s == behind(c, ref_contexts(first, n as int), r as nat),
        forall|k: int| 0 <= k < n ==> #[trigger] bin_at(c, ref_contexts(first, n as int), k) == 1,
        bin_at(c, ref_contexts(first, n as int), n as int) != 1,
    ensures
        ref_unary(
            s,
            if r == 0 {
                first
            } else if r == 1 {
                4
            } else {
                5
            },
            r,
        ) == (n, behind(c, ref_contexts(first, n as int), (n + 1) as nat)),
    decreases n - r,
{
    let ctx = ref_contexts(first, n as int);
    let at = if r == 0 {
        first
    } else if r == 1 {
        4
    } else {
        5
    };
    assert(ctx[r as int] == 54 + at);
    assert(behind(c, ctx, (r + 1) as nat) == s.get(54 + at).1);
    assert(bin_at(c, ctx, r as int) == s.get(54 + at).0);
    if r < n {
        assert(bin_at(c, ctx, r as int) == 1);
        lemma_ref_unary(c, s.get(54 + at).1, first, (r + 1) as i32, n);
    }
}

/// A reference index of a CABAC stream is the number of ones before the first zero. Nothing is coded where
/// there is but one reference.
pub proof fn law_reference_index_cabac(
    g: GridsV,
    c: Cab,
    l: int,
    mb: int,
    sid: i32,
    bx: int,
    by: int,
    active: u32,
    is_b: bool,
    n: i32,
)
    requires
        0 <= n < 32,
    ensures
        active <= 1 ==> ref_idx(g, c, l, mb, sid, bx, by, active, is_b) == (0i32, c),
        ({
            let ctx = ref_contexts(g.ref_ctx(l, mb, bx, by, sid, is_b), n as int);
            active > 1 && (forall|k: int| 0 <= k < n ==> #[trigger] bin_at(c, ctx, k) == 1) && bin_at(
                c,
                ctx,
                n as int,
            ) != 1 ==> ref_idx(g, c, l, mb, sid, bx, by, active, is_b) == (
                n,
                behind(c, ctx, (n + 1) as nat),
            )
        }),
{
    reveal(ref_idx);
    reveal(GridsV::ref_ctx);
    let first = g.ref_ctx(l, mb, bx, by, sid, is_b);
    let ctx = ref_contexts(first, n as int);
    if active > 1 && (forall|k: int| 0 <= k < n ==> #[trigger] bin_at(c, ctx, k) == 1) && bin_at(
        c,
        ctx,
        n as int,
    ) != 1 {
        lemma_ref_unary(c, c, first, 0, n);
    }
}

/// The first context of a reference index counts the neighbours, the left one once and the top one twice,
/// that do not refer to the first reference. In a B slice those in direct mode do not count.
pub proof fn law_reference_contexts(
    g: GridsV,
    l: int,
    mb: int,
    bx: int,
    by: int,
    sid: i32,
    is_b: bool,
)
    requires
        place(g, mb, bx, by, 1),
        0 <= l < 2,
    ensures
        ({
            let (left, top) = (at_left(g, l, mb, bx, by, sid), at_top(g, l, mb, bx, by, sid));
            let (x, y) = (col_of(g, mb) + bx, row_of(g, mb) + by);
            let direct = |gx: int, gy: int| is_b && g.direct[gy * (4 * g.mb_w) + gx];
            let a = left is Some && left->0.refi > 0 && !direct(x - 1, y);
            let b = top is Some && top->0.refi > 0 && !direct(x, y - 1);
            g.ref_ctx(l, mb, bx, by, sid, is_b) == if a && b {
                3int
            } else if b {
                2
            } else if a {
                1
            } else {
                0
            }
        }),
{
    reveal(GridsV::ref_ctx);
    law_neighbours(g, l, mb, bx, by, 1, sid);
    let scan = super::grids::scan_of(bx, by);
    super::motion_laws::lemma_avail(g, mb, bx - 1, by, scan, sid);
    super::motion_laws::lemma_avail(g, mb, bx, by - 1, scan, sid);
    if bx > 0 {
        super::motion_laws::lemma_scan(bx - 1, by, bx, by);
    }
    if by > 0 {
        super::motion_laws::lemma_scan(bx, by - 1, bx, by);
    }
}

/// A reference index of a CAVLC stream: nothing for one reference, a bit that is 0 for the second of two,
/// and else an Exp-Golomb code.
pub proof fn law_reference_index_cavlc(b: Bits, active: u32)
    ensures
        ({
            let (r, rest) = mb_cavlc::ref_idx(b, active);
            let (bit, b1) = b.bit();
            let (code, b2) = b.ue();
            &&& active <= 1 ==> r == 0 && rest == b
            &&& active == 2 && bit == 0 ==> r == 1 && rest == b1
            &&& active == 2 && bit == 1 ==> r == 0 && rest == b1
            &&& active > 2 && code <= i32::MAX ==> r == code && rest == b2
        }),
{
    reveal(mb_cavlc::ref_idx);
    assert(0u32 ^ 1 == 1 && 1u32 ^ 1 == 0) by (bit_vector);
}

} // verus!
