//! In what order coefficients are coded, and what codes them.

use super::contexts::{
    Bins, COEFF_ABS_LEVEL_GREATER1_FLAG_OFFSET, COEFF_ABS_LEVEL_GREATER2_FLAG_OFFSET,
    SIGNIFICANT_COEFF_FLAG_OFFSET, SIGNIFICANT_COEFF_GROUP_FLAG_OFFSET, TRANSFORM_SKIP_FLAG_OFFSET,
};
use super::params::Pps;
use super::residual::{
    greater1, group, group_coeffs, group_flag, group_levels, groups_down, last_coord, last_of,
    last_place, levels, next_rice, prefix_ctx, remaining, residual, sig_base, sig_group, sig_offset,
    sig_run, skip_flag, Block, GroupsV, Last, Sig,
};
use super::scan::{coeff_index, coeff_place, group_place, Scan};
use super::transform::intra_scan;
use vstd::arithmetic::power2::{lemma2_to64, lemma_pow2_unfold, pow2};
use vstd::prelude::*;

verus! {

// ---------------------------------------------------------------------------
// Scans

/// One place comes before another in a scan: by diagonals from the upper left, each from the lower left up,
/// by rows, or by columns.
pub open spec fn scanned_before(scan: Scan, a: (int, int), b: (int, int)) -> bool {
    match scan {
        Scan::Diag => a.0 + a.1 < b.0 + b.1 || (a.0 + a.1 == b.0 + b.1 && a.0 < b.0),
        Scan::Horiz => a.1 < b.1 || (a.1 == b.1 && a.0 < b.0),
        Scan::Vert => a.0 < b.0 || (a.0 == b.0 && a.1 < b.1),
    }
}

/// The coefficients of a group come in the order of the scan, and all of them do.
pub proof fn law_coefficients_in_order(scan: Scan, i: int)
    requires
        0 <= i < 16,
    ensures
        ({
            let (x, y) = coeff_place(scan, i);
            &&& 0 <= x < 4 && 0 <= y < 4
            &&& i < 15 ==> scanned_before(scan, (x, y), coeff_place(scan, i + 1))
        }),
{
}

/// The groups of a block come in the order of the scan. A block that is scanned by rows or columns has four.
pub proof fn law_groups_in_order(scan: Scan, log2: u32, i: int)
    requires
        scan == Scan::Diag ==> 3 <= log2 <= 5,
        scan != Scan::Diag ==> log2 == 3,
        0 <= i,
        i + 1 < (if log2 == 3 {
            4int
        } else if log2 == 4 {
            16int
        } else {
            64int
        }),
    ensures
        ({
            let n = if log2 == 3 {
                2int
            } else if log2 == 4 {
                4
            } else {
                8
            };
            let (a, b) = (group_place(scan, log2, i), group_place(scan, log2, i + 1));
            &&& 0 <= a.0 < n && 0 <= a.1 < n && 0 <= b.0 < n && 0 <= b.1 < n
            &&& scanned_before(scan, a, b)
        }),
{
    assert(i < 16 ==> i % 16 == i);
    assert(i < 64 ==> i % 64 == i);
    assert(i < 63 ==> (i + 1) % 64 == i + 1);
    assert(i < 15 ==> (i + 1) % 16 == i + 1);
}

proof fn lemma_before_trans(scan: Scan, a: (int, int), b: (int, int), c: (int, int))
    requires
        scanned_before(scan, a, b),
        scanned_before(scan, b, c),
    ensures
        scanned_before(scan, a, c),
{
}

proof fn lemma_places_differ(scan: Scan, i: int, j: int)
    requires
        0 <= i < j < 16,
    ensures
        scanned_before(scan, coeff_place(scan, i), coeff_place(scan, j)),
    decreases j - i,
{
    law_coefficients_in_order(scan, i);
    if i + 1 < j {
        lemma_places_differ(scan, i + 1, j);
        lemma_before_trans(
            scan,
            coeff_place(scan, i),
            coeff_place(scan, i + 1),
            coeff_place(scan, j),
        );
    }
}

/// The number of a coefficient in the scan is found again from its place.
pub proof fn law_coefficients_are_found(scan: Scan, i: int, k: int)
    requires
        0 <= k <= i < 16,
    ensures
        ({
            let (x, y) = coeff_place(scan, i);
            coeff_index(scan, x, y, k) == i
        }),
    decreases i - k,
{
    if k < i {
        lemma_places_differ(scan, k, i);
        law_coefficients_are_found(scan, i, k + 1);
    }
}

/// The contexts of the significance of coefficients of a 4x4 block, by rows.
pub proof fn law_small_block_contexts(x: int, y: int)
    requires
        0 <= x < 4,
        0 <= y < 4,
        !(x == 3 && y == 3),
    ensures
        ({
            let map: Seq<int> = seq![0, 1, 4, 5, 2, 3, 4, 5, 6, 6, 8, 8, 7, 7, 8];
            sig_offset(0, x, y) == map[4 * y + x]
        }),
{
}

/// The contexts of the significance of coefficients of larger blocks: greater the nearer a coefficient is to
/// groups that have some, to the right (1), below (2) or both (3); without such, to the first one.
pub proof fn law_large_block_contexts(x: int, y: int)
    requires
        0 <= x < 4,
        0 <= y < 4,
    ensures
        sig_offset(1, x, y) == if x + y == 0 {
            1int
        } else if x + y < 3 {
            1
        } else {
            0
        },
        sig_offset(2, x, y) == if y == 0 {
            2int
        } else if y == 1 {
            1
        } else {
            0
        },
        sig_offset(3, x, y) == if x == 0 {
            2int
        } else if x == 1 {
            1
        } else {
            0
        },
        sig_offset(4, x, y) == 2,
{
}

// ---------------------------------------------------------------------------
// Numbers

/// The first coordinate that a prefix of a last place stands for. Prefixes up to 3 are coordinates; behind
/// them each stands for a range, as long as its suffix has numbers.
pub open spec fn coord_start(p: nat) -> int
    decreases p,
{
    if p == 0 {
        0
    } else {
        coord_start((p - 1) as nat) + pow2(coord_bits((p - 1) as nat))
    }
}

/// How many bits are behind a prefix.
pub open spec fn coord_bits(p: nat) -> nat {
    if p <= 3 {
        0
    } else {
        (p / 2 - 1) as nat
    }
}

/// A coordinate of the last coefficient is the first one that its prefix stands for, and the suffix. The
/// ranges of prefixes follow each other.
pub proof fn law_last_coordinates(c: Bins, p: u32)
    requires
        p <= 9,
        0 <= c.number(0, coord_bits(p as nat)).0 <= 7,
    ensures
        ({
            let (v, rest) = last_coord(c, p);
            let (suffix, c1) = c.number(0, coord_bits(p as nat));
            v == coord_start(p as nat) + suffix && rest == c1
        }),
{
    reveal(last_coord);
    lemma2_to64();
    assert(coord_start(1) == 1 && coord_start(2) == 2 && coord_start(3) == 3) by {
        reveal_with_fuel(coord_start, 4);
    }
    assert(coord_start(4) == 4);
    assert(coord_bits(4) == 1 && coord_start(5) == 6);
    assert(coord_bits(5) == 1 && coord_start(6) == 8);
    assert(coord_bits(6) == 2 && coord_start(7) == 12);
    assert(coord_bits(7) == 2 && coord_start(8) == 16);
    assert(coord_bits(8) == 3 && coord_start(9) == 24);
    assert(1i32 << 1u32 == 2 && 1i32 << 2u32 == 4 && 1i32 << 3u32 == 8) by (bit_vector);
    let (suffix, c1) = c.number(0, coord_bits(p as nat));
    if p > 3 {
        let k = (p / 2 - 1) as u32;
        assert(coord_bits(p as nat) == k);
        assert(((1i32 << k) * (2 + p % 2)) == coord_start(p as nat)) by {
            assert(p == 4 || p == 5 || p == 6 || p == 7 || p == 8 || p == 9);
        }
    } else {
        assert(p == 0 || p == 1 || p == 2 || p == 3);
        assert(c.number(0, 0) == (0i32, c));
    }
}

/// The first remainder that a prefix of ones stands for, with a Rice parameter.
pub open spec fn rest_start(rice: nat, p: nat) -> int
    decreases p,
{
    if p == 0 {
        0
    } else {
        rest_start(rice, (p - 1) as nat) + pow2(rest_bits(rice, (p - 1) as nat))
    }
}

/// How many bits are behind a prefix: as many as the parameter says, and one more with each one from the
/// fourth on.
pub open spec fn rest_bits(rice: nat, p: nat) -> nat {
    if p <= 3 {
        rice
    } else {
        (rice + p - 3) as nat
    }
}

proof fn lemma_rest_start(rice: nat, p: nat)
    ensures
        p <= 3 ==> rest_start(rice, p) == p * pow2(rice),
        p > 3 ==> rest_start(rice, p) == pow2(rice) * (pow2((p - 3) as nat) + 2),
    decreases p,
{
    lemma2_to64();
    let r = pow2(rice) as int;
    if p > 0 {
        lemma_rest_start(rice, (p - 1) as nat);
        let q = (p - 1) as nat;
        if p <= 3 {
            assert(q * r + r == p * r) by (nonlinear_arith)
                requires
                    q == p - 1,
            ;
        } else if p == 4 {
            assert(q == 3);
            assert(pow2(1) == 2);
            assert(3 * r + r == r * (2 + 2)) by (nonlinear_arith);
            assert((p - 3) as nat == 1);
        } else {
            let k = (p - 4) as nat;
            lemma_pow2_unfold((p - 3) as nat);
            vstd::arithmetic::power2::lemma_pow2_adds(rice, k);
            let e = pow2(k) as int;
            assert(r * (e + 2) + r * e == r * (2 * e + 2)) by (nonlinear_arith);
        }
    } else {
        assert(0 * r == 0);
    }
}

/// A remainder is the first one that its prefix stands for, and the suffix. The ranges of prefixes follow
/// each other.
pub proof fn law_remainders(c: Bins, rice: u32)
    requires
        rice <= 4,
        c.ones(0, 32).0 <= 15,
        ({
            let (n, c1) = c.ones(0, 32);
            0 <= n && 0 <= c1.number(0, rest_bits(rice as nat, n as nat)).0 < 0x1_0000
        }),
    ensures
        ({
            let (n, c1) = c.ones(0, 32);
            let (suffix, c2) = c1.number(0, rest_bits(rice as nat, n as nat));
            let (v, rest) = remaining(c, rice);
            v == rest_start(rice as nat, n as nat) + suffix && rest == c2
        }),
{
    reveal(remaining);
    let (n, c1) = c.ones(0, 32);
    let p = n as u32;
    lemma_rest_start(rice as nat, n as nat);
    lemma2_to64();
    let r = pow2(rice as nat) as int;
    assert(1 <= r <= 16);
    if p < 3 {
        assert(p * r <= 3 * 16) by (nonlinear_arith)
            requires
                p <= 3,
                1 <= r <= 16,
        ;
        vstd::bits::lemma_u32_shl_is_mul(p, rice);
    } else {
        let k = (p - 3) as u32;
        assert(1 <= pow2(k as nat) <= 4096);
        vstd::bits::lemma_u32_shl_is_mul(1, k);
        let e = (1u32 << k).wrapping_add(2);
        assert(e == pow2(k as nat) + 2);
        assert(e * r <= 4098 * 16) by (nonlinear_arith)
            requires
                0 <= e <= 4098,
                1 <= r <= 16,
        ;
        vstd::bits::lemma_u32_shl_is_mul(e, rice);
        assert(e * r == r * e) by (nonlinear_arith);
        if p == 3 {
            assert(pow2(0) == 1);
            assert(r * 3 == 3 * r) by (nonlinear_arith);
        }
    }
}

/// The Rice parameter grows by one, up to 4, behind a level of more than three times its power of two.
pub proof fn law_rice_parameter(rice: u32, v: i32)
    requires
        rice <= 4,
    ensures
        next_rice(rice, v) == if rice < 4 && v > 3 * pow2(rice as nat) {
            rice + 1
        } else {
            rice as int
        },
{
    lemma2_to64();
    assert(3i32 << 0u32 == 3 && 3i32 << 1u32 == 6 && 3i32 << 2u32 == 12 && 3i32 << 3u32 == 24)
        by (bit_vector);
}

// ---------------------------------------------------------------------------
// Levels

/// The context of the flag of coefficient `m` of a group that says it is greater than one: 0 behind a flag
/// that is set, and else one more for each coefficient, up to 3.
pub open spec fn flag_context(bins: Seq<u32>, m: int) -> int {
    if exists|j: int| 0 <= j < m && bins[j] != 0 {
        0
    } else if m < 2 {
        m + 1
    } else {
        3
    }
}

/// The decoder behind the flags of the first `m` coefficients, and the flags.
pub open spec fn flags_read(c: Bins, b: Block, set: int, m: nat) -> (Seq<u32>, Bins)
    decreases m,
{
    if m == 0 {
        (Seq::empty(), c)
    } else {
        let (bins, s) = flags_read(c, b, set, (m - 1) as nat);
        let (bin, s) = s.get(
            COEFF_ABS_LEVEL_GREATER1_FLAG_OFFSET + (4 * set + flag_context(bins, m - 1) + if b.c_idx
                > 0 {
                16int
            } else {
                0int
            }),
        );
        (bins.push(bin), s)
    }
}

/// The first of some flags that is set, or 8.
pub open spec fn first_set(bins: Seq<u32>, first: int) -> bool {
    &&& 0 <= first < bins.len() ==> bins[first] != 0
    &&& forall|j: int| 0 <= j < bins.len() && j < first ==> bins[j] == 0
    &&& 0 <= first < bins.len() || first == 8
}

proof fn lemma_flags(
    c: Bins,
    b: Block,
    set: int,
    s: Bins,
    g: Seq<u32>,
    first: int,
    ctx: int,
    m: int,
    n: int,
)
    requires
        0 <= m <= n <= 8,
        g.len() == 8,
        s == flags_read(c, b, set, m as nat).1,
        flags_read(c, b, set, m as nat).0.len() == m,
        forall|j: int| 0 <= j < m ==> g[j] == #[trigger] flags_read(c, b, set, m as nat).0[j],
        forall|j: int| m <= j < 8 ==> g[j] == 0,
        first_set(flags_read(c, b, set, m as nat).0, first),
        ctx == flag_context(flags_read(c, b, set, m as nat).0, m),
    ensures
        ({
            let (h, f, x, r) = greater1(s, b, set, g, first, ctx, m, n);
            let (bins, t) = flags_read(c, b, set, n as nat);
            &&& r == t
            &&& bins.len() == n
            &&& h.len() == 8
            &&& forall|j: int| 0 <= j < n ==> #[trigger] h[j] == bins[j]
            &&& forall|j: int| n <= j < 8 ==> h[j] == 0
            &&& first_set(bins, f)
            &&& x == flag_context(bins, n)
        }),
    decreases n - m,
{
    if m < n {
        let bins = flags_read(c, b, set, m as nat).0;
        let (bin, s1) = s.get(
            COEFF_ABS_LEVEL_GREATER1_FLAG_OFFSET + (4 * set + ctx + if b.c_idx > 0 {
                16int
            } else {
                0int
            }),
        );
        let next = flags_read(c, b, set, (m + 1) as nat);
        assert(next == (bins.push(bin), s1));
        let more = bins.push(bin);
        assert(more.len() == m + 1);
        let g1 = g.update(m, bin);
        let first1 = if bin != 0 && first == 8 {
            m
        } else {
            first
        };
        assert(first_set(more, first1)) by {
            assert(forall|j: int| 0 <= j < m ==> more[j] == bins[j]);
            assert(more[m] == bin);
        }
        let ctx1 = if bin != 0 {
            0
        } else if 0 < ctx < 3 {
            ctx + 1
        } else {
            ctx
        };
        assert(ctx1 == flag_context(more, m + 1)) by {
            if bin != 0 {
                assert(more[m] != 0);
            } else if exists|j: int| 0 <= j < m && bins[j] != 0 {
                let j = choose|j: int| 0 <= j < m && bins[j] != 0;
                assert(more[j] != 0);
            } else {
                assert forall|j: int| 0 <= j < m + 1 implies more[j] == 0 by {
                    if j < m {
                        assert(more[j] == bins[j]);
                    }
                }
            }
        }
        assert forall|j: int| 0 <= j < m + 1 implies g1[j] == #[trigger] next.0[j] by {
            if j < m {
                assert(g[j] == flags_read(c, b, set, m as nat).0[j]);
            }
        }
        lemma_flags(c, b, set, s1, g1, first1, ctx1, m + 1, n);
    }
}

/// Flags of eight coefficients; those that are not coded are not set.
pub open spec fn padded(bins: Seq<u32>) -> Seq<u32> {
    Seq::new(
        8,
        |j: int|
            if j < bins.len() {
                bins[j]
            } else {
                0
            },
    )
}

/// Of a group, the first eight coefficients have a flag that says they are greater than one, and the first
/// of these another that it is greater than two. Then come the signs of all, but for one that is hidden
/// where the first and the last coefficient are four places apart or more, and then what remains of the
/// levels.
pub proof fn law_levels_of_a_group(
    c: Bins,
    s: Sig,
    b: Block,
    set: int,
    hiding: bool,
    n: nat,
    f: int,
)
    requires
        1 <= s.count <= 16,
        n == if s.count < 8 {
            s.count as int
        } else {
            8
        },
        first_set(flags_read(c, b, set, n).0, f),
    ensures
        ({
            let (bins, c1) = flags_read(c, b, set, n);
            let hidden = hiding && !b.bypass && s.first - s.last > 3;
            let signs = if hidden {
                (s.count - 1) as nat
            } else {
                s.count as nat
            };
            let (ctx, rest) = group_levels(c, s, b, set, hiding);
            let (bin, c2) = c1.get(
                COEFF_ABS_LEVEL_GREATER2_FLAG_OFFSET + (set + if b.c_idx > 0 {
                    4int
                } else {
                    0int
                }),
            );
            &&& ctx == flag_context(bins, n as int)
            &&& f == 8 ==> rest == levels(
                c1.skip(signs),
                padded(bins),
                8,
                0,
                0,
                s.count as int,
            )
            &&& f < 8 ==> rest == levels(
                c2.skip(signs),
                padded(bins).update(f, (bins[f] + bin) as u32),
                f,
                0,
                0,
                s.count as int,
            )
        }),
{
    reveal(group_levels);
    let g0 = Seq::new(8, |i: int| 0u32);
    lemma_flags(c, b, set, c, g0, 8, 1, 0, n as int);
    let (bins, c1) = flags_read(c, b, set, n);
    let (g, first, ctx, c1b) = greater1(c, b, set, g0, 8, 1, 0, n as int);
    assert(f == first) by {
        if f < first {
            assert(bins[f] == 0);
        }
        if first < f {
            assert(bins[first] == 0);
        }
    }
    assert(g =~= padded(bins));
}

/// Whether a group has coefficients is coded for those between the first and the last one with some, which
/// have. The context says whether the group to the right or the one below has some.
pub proof fn law_group_flags(c: Bins, b: Block, last: Last, sig: Seq<u8>, i: int)
    requires
        3 <= b.log2 <= 5,
        0 <= i <= last.group,
        sig.len() == 64,
    ensures
        ({
            let (coded, has, rest) = group_flag(c, b, last, sig, i);
            let (x, y) = group_place(b.scan, b.log2, i);
            let n = pow2((b.log2 - 2) as nat) as int;
            let some = |gx: int, gy: int| gx < n && gy < n && sig[8 * gx + gy] != 0;
            let (bin, c1) = c.get(
                SIGNIFICANT_COEFF_GROUP_FLAG_OFFSET + (if some(x + 1, y) || some(x, y + 1) {
                    1int
                } else {
                    0int
                } + if b.c_idx > 0 {
                    2int
                } else {
                    0int
                }),
            );
            &&& coded == (0 < i < last.group)
            &&& 0 < i < last.group ==> has == bin as u8 && rest == c1
            &&& !(0 < i < last.group) ==> rest == c
        }),
{
    reveal(group_flag);
    lemma2_to64();
}

/// A residual is the place of its last coefficient and then the groups, from the one with that coefficient
/// down to the first. Blocks of 4 samples may have a flag before that.
pub proof fn law_residual(c: Bins, b: Block, pps: Pps)
    ensures
        ({
            let flagged = !b.bypass && pps.transform_skip_enabled_flag && b.log2 <= 2;
            let c1 = if flagged {
                c.get(
                    TRANSFORM_SKIP_FLAG_OFFSET + if b.c_idx > 0 {
                        1int
                    } else {
                        0int
                    },
                ).1
            } else {
                c
            };
            let (x, y, c2) = last_place(c1, b);
            let last = last_of(b, x, y);
            let g = GroupsV { sig: Seq::new(64, |i: int| 0u8), ctx: 1 };
            residual(c, b, pps) == groups_down(
                c2,
                b,
                pps.sign_data_hiding_enabled,
                last,
                g,
                last.group as int,
            )
        }),
{
    reveal(residual);
    reveal(skip_flag);
}

/// The contexts of the levels of a group: one of two sets for the first group and for chroma, and one of two
/// others behind; the second of each where the group before it ended with a level greater than one.
pub proof fn law_level_contexts(
    c: Bins,
    b: Block,
    hiding: bool,
    last: Last,
    g: GroupsV,
    i: int,
)
    ensures
        ({
            let (x, y) = group_place(b.scan, b.log2, i);
            let (implied, has, c1) = group_flag(c, b, last, g.sig, i);
            let sig = g.sig.update(8 * x + y, has);
            let (s, c2) = group_coeffs(c1, b, last, sig, i, implied, has);
            let low = i == 0 || b.c_idx > 0;
            let again = i != last.group && g.ctx == 0;
            let set = if low && !again {
                0int
            } else if low {
                1
            } else if !again {
                2
            } else {
                3
            };
            let (ctx, c3) = group_levels(c2, s, b, set, hiding);
            let (r, rest) = group(c, b, hiding, last, g, i);
            &&& r.sig == sig
            &&& i >= 0 && s.count > 0 ==> r.ctx == ctx && rest == c3
            &&& s.count == 0 ==> r.ctx == g.ctx && rest == c2
        }),
{
    reveal(group);
}

// ---------------------------------------------------------------------------
// Contexts by size

/// The contexts of the place of the last coefficient: those of luma blocks of 4, 8, 16 and 32 samples follow
/// each other, one for each bin of the smallest and for each two bins of the others; chroma has three of its
/// own, shared by as many bins as the block is times larger than 4.
pub proof fn law_last_place_contexts(b: Block)
    requires
        2 <= b.log2 <= 5,
    ensures
        ({
            let (first, shift) = prefix_ctx(b);
            let start: Seq<int> = seq![0, 3, 6, 10];
            &&& b.c_idx == 0 ==> first == start[b.log2 - 2] && shift == if b.log2 == 2 {
                0int
            } else {
                1int
            }
            &&& b.c_idx > 0 ==> first == 15 && shift == b.log2 - 2
        }),
{
}

/// The contexts of the significance of coefficients by the size of a block: luma blocks of 4 samples, of 8,
/// scanned by diagonals or not, and larger ones; and chroma blocks likewise. Groups of luma but the first have
/// others.
pub proof fn law_significance_contexts(b: Block, inner: bool)
    requires
        2 <= b.log2 <= 5,
    ensures
        ({
            let n = sig_base(b, inner);
            let more = if inner {
                3int
            } else {
                0int
            };
            &&& b.c_idx == 0 && b.log2 == 2 ==> n == 0
            &&& b.c_idx == 0 && b.log2 == 3 && b.scan == Scan::Diag ==> n == 9 + more
            &&& b.c_idx == 0 && b.log2 == 3 && b.scan != Scan::Diag ==> n == 15 + more
            &&& b.c_idx == 0 && b.log2 > 3 ==> n == 21 + more
            &&& b.c_idx > 0 ==> n == 27 + if b.log2 == 2 {
                0int
            } else if b.log2 == 3 {
                9
            } else {
                12
            }
        }),
{
}

/// Intra blocks predicted within four directions of horizontal are scanned by columns, those within four of
/// vertical by rows, and the others by diagonals.
pub proof fn law_intra_scan(mode: u8)
    requires
        mode <= 34,
    ensures
        intra_scan(mode) == if -4 <= mode - 10 <= 4 {
            Scan::Vert
        } else if -4 <= mode - 26 <= 4 {
            Scan::Horiz
        } else {
            Scan::Diag
        },
{
}

/// The coefficients of a group: the one at the first place is sure where the group is said to have some and no
/// other was found, and else has a flag, whose context in the first group of a block is the first of all.
pub proof fn law_first_coefficient(
    c: Bins,
    s: Sig,
    b: Block,
    row: int,
    inner: bool,
    group: int,
    n_end: int,
)
    ensures
        ({
            let base = sig_base(b, inner);
            let (s1, c1) = sig_run(c, s, b, row, base, n_end);
            let (r, rest) = sig_group(c, s, b, row, inner, group, n_end);
            let ctx = if group != 0 {
                base + 2
            } else if b.c_idx > 0 {
                27
            } else {
                0
            };
            let (bin, c2) = c1.get(SIGNIFICANT_COEFF_FLAG_OFFSET + ctx);
            &&& s1.implied ==> r.count == (s1.count + 1) as usize && r.last == 0 && rest == c1
            &&& !s1.implied && bin == 1 ==> r.count == (s1.count + 1) as usize && r.last == 0 && rest
                == c2
            &&& !s1.implied && bin != 1 ==> r == s1 && rest == c2
        }),
{
    reveal(sig_group);
}

} // verus!
