//! What codes the coefficients of a block.

use super::cavlc::{level_code, next_suffix_length, suffix_size, zeros_code};
use super::coeff_contexts::Cat;
use super::contexts::Cab;
use super::grids::GridsV;
use super::motion_laws::{at_left, at_top, col_of, lemma_avail, lemma_scan, place, row_of};
use super::residual_cabac::{
    bins, coeff_count, level, level_prefix, levels, luma_ctx, more_ctx, node_more, node_one,
    one_ctx, sig_map,
};
use vstd::arithmetic::power2::{lemma2_to64, pow2};
use vstd::prelude::*;

verus! {

// ---------------------------------------------------------------------------
// Levels of CABAC streams

/// The state of level decoding behind `ones` levels of one and `more` greater ones.
pub open spec fn state_behind(ones: nat, more: nat) -> int {
    if more == 0 {
        if ones < 3 {
            ones as int
        } else {
            3
        }
    } else if more < 4 {
        3 + more as int
    } else {
        7
    }
}

/// The contexts of a level follow from the levels before it. The first bin: 0 behind a level greater than one,
/// and else one more than there were levels of one, up to 4. The others: 5 and as many as there were greater
/// levels, up to 4; up to 3 in the eight mean values of chroma.
pub proof fn law_level_contexts(cat: Cat, ones: nat, more: nat)
    ensures
        ({
            let n = state_behind(ones, more);
            let most = if cat == Cat::ChromaDc422 {
                3int
            } else {
                4int
            };
            &&& one_ctx(n) == if more > 0 {
                0int
            } else if ones < 3 {
                ones as int + 1
            } else {
                4
            }
            &&& more_ctx(cat, n) == 5 + if more < most {
                more as int
            } else {
                most
            }
            &&& node_one(n) == state_behind(ones + 1, more)
            &&& node_more(n) == state_behind(ones, more + 1)
            &&& state_behind(0, 0) == 0
        }),
{
}

/// A level is a bin, and for one that is greater than one more of them, up to 15, behind which an escape
/// comes; and last its sign.
pub proof fn law_level(c: Cab, cat: Cat, node: int)
    ensures
        ({
            let (next, rest) = level(c, cat, node);
            let (bin, c1) = c.get(cat.abs_base() + one_ctx(node));
            let (abs, c2) = level_prefix(c1, cat.abs_base() + more_ctx(cat, node), 2);
            &&& bin != 1 ==> next == node_one(node) && rest == c1.sign(-1i32).1
            &&& bin == 1 && abs < 15 ==> next == node_more(node) && rest == c2.sign(-1i32).1
            &&& bin == 1 && abs >= 15 ==> next == node_more(node) && rest
                == super::residual_cabac::escape(c2).sign(-1i32).1
        }),
{
    reveal(level);
}

proof fn lemma_map(c: Cab, cat: Cat, pos: int, count: int)
    requires
        0 <= pos <= cat.coeffs() - 1,
        0 <= count <= pos,
    ensures
        ({
            let (n, p, r) = sig_map(c, cat, pos, count);
            &&& pos <= p <= cat.coeffs() - 1
            &&& count <= n <= p + 1
            &&& p == cat.coeffs() - 1 ==> n <= p
            &&& p < cat.coeffs() - 1 ==> n >= 1
        }),
    decreases cat.coeffs() - pos,
{
    if pos < cat.coeffs() - 1 {
        let (sig, last) = cat.map_contexts(pos);
        let (s, c1) = c.flag(sig);
        if s {
            let (l, c2) = c1.flag(last);
            if !l {
                lemma_map(c2, cat, pos + 1, count + 1);
            }
        } else {
            lemma_map(c1, cat, pos + 1, count);
        }
    }
}

/// A block that is coded has a coefficient, and no more than there are places. Its levels follow the map of
/// their places.
pub proof fn law_block_of_coefficients(c: Cab, cat: Cat)
    ensures
        ({
            let (n, c1) = coeff_count(c, cat);
            &&& 1 <= n <= cat.coeffs()
            &&& bins(c, cat) == (n as u8, levels(c1, cat, 0, n as nat))
        }),
{
    reveal(coeff_count);
    reveal(bins);
    lemma_map(c, cat, 0, 0);
}

/// The flag that a luma block is coded has a context that counts the neighbours with coefficients: the left
/// one once, and the one above twice. Neighbours that cannot be used have some for an intra macroblock.
pub proof fn law_coded_flag_context(
    g: GridsV,
    cat: Cat,
    mb: int,
    bx: int,
    by: int,
    sid: i32,
    is_intra: bool,
)
    requires
        place(g, mb, bx, by, 1),
    ensures
        ({
            let (x, y) = (col_of(g, mb) + bx, row_of(g, mb) + by);
            let some = |gx: int, gy: int| g.nnz_l[gy * (4 * g.mb_w) + gx] > 0;
            let a = if at_left(g, 0, mb, bx, by, sid) is Some {
                some(x - 1, y)
            } else {
                is_intra
            };
            let b = if at_top(g, 0, mb, bx, by, sid) is Some {
                some(x, y - 1)
            } else {
                is_intra
            };
            luma_ctx(g, cat, mb, bx, by, sid, is_intra) == cat.cbf_base() + if a && b {
                3int
            } else if b {
                2
            } else if a {
                1
            } else {
                0
            }
        }),
{
    reveal(luma_ctx);
    reveal(GridsV::luma_counts);
    reveal(GridsV::luma_count);
    let scan = super::grids::scan_of(bx, by);
    lemma_avail(g, mb, bx - 1, by, scan, sid);
    lemma_avail(g, mb, bx, by - 1, scan, sid);
    if bx > 0 {
        lemma_scan(bx - 1, by, bx, by);
    }
    if by > 0 {
        lemma_scan(bx, by - 1, bx, by);
    }
}

/// The kinds of blocks have as many coefficients as their name says: the mean values and blocks of luma have
/// 16, one less where the mean is coded apart, chroma has 4 or 8 mean values, and a large block has 64.
pub proof fn law_kinds_of_blocks(cat: Cat)
    ensures
        cat.coeffs() == match cat {
            Cat::LumaDc16 => 4 * 4int,
            Cat::Luma4x4 => 4 * 4int,
            Cat::LumaAc16 => 4 * 4int - 1,
            Cat::ChromaAc => 4 * 4int - 1,
            Cat::ChromaDc => 2 * 2int,
            Cat::ChromaDc422 => 2 * 4int,
            Cat::Luma8x8 => 8 * 8int,
        },
{
}

// ---------------------------------------------------------------------------
// Levels of CAVLC streams

/// How many bits are behind the prefix of a level: as many as the length says; none, and then 4, without a
/// length; and from the 15th prefix on three less than the prefix.
pub proof fn law_suffix_size(prefix: u32, length: u32)
    requires
        length <= 6,
        prefix <= 60,
    ensures
        suffix_size(prefix, length) == if prefix >= 15 {
            prefix - 3
        } else if length > 0 {
            length as int
        } else if prefix == 14 {
            4
        } else {
            0
        },
{
}

/// The code of a level: the prefix counts in steps of the length, and the suffix goes on. Without a length the
/// range behind prefix 15 starts where that of prefix 14 ends. The first level behind less than three ones is
/// never one.
pub proof fn law_level_code(prefix: u32, length: u32, suffix: u32)
    requires
        length <= 6,
        prefix <= 15,
        suffix < 0x1000,
    ensures
        ({
            let n = level_code(prefix, length, suffix, false);
            &&& length > 0 || prefix < 15 ==> n == prefix * pow2(length as nat) + suffix
            &&& length == 0 && prefix == 15 ==> n == 14 + 16 + suffix
            &&& level_code(prefix, length, suffix, true) == n + 2
        }),
{
    lemma2_to64();
    let p = pow2(length as nat) as int;
    assert(1 <= p <= 64);
    assert(prefix * p <= 15 * 64) by (nonlinear_arith)
        requires
            prefix <= 15,
            1 <= p <= 64,
    ;
    vstd::bits::lemma_u32_shl_is_mul(prefix, length);
    if length == 0 {
        assert(prefix * 1 == prefix);
    }
}

/// The length grows from none to one behind the first level, and by one, up to six, behind a level of more than
/// three times the half of its power of two.
pub proof fn law_suffix_length(length: u32, abs: u32)
    requires
        length <= 6,
    ensures
        ({
            let now = if length == 0 {
                1int
            } else {
                length as int
            };
            next_suffix_length(length, abs) == if now < 6 && 2 * abs > 3 * pow2(now as nat) {
                now + 1
            } else {
                now
            }
        }),
{
    lemma2_to64();
    let now: u32 = if length == 0 {
        1
    } else {
        length
    };
    let k = (now - 1) as u32;
    assert(1 <= pow2(k as nat) <= 32 && pow2(now as nat) == 2 * pow2(k as nat));
    vstd::bits::lemma_u32_shl_is_mul(3, k);
}

/// The number of zeros is not coded for a full block, and the tables of its rows follow from the number of
/// coefficients and from how many a block can have.
pub proof fn law_tables_of_zeros(total: int, max_coeff: int)
    requires
        1 <= total < max_coeff,
        max_coeff == 4 || max_coeff == 8 || max_coeff == 15 || max_coeff == 16,
    ensures
        ({
            let c = zeros_code(total, max_coeff);
            let row = (total - 1) as usize;
            &&& max_coeff == 4 ==> c == Some(super::vlc::Code::ChromaDcZeros(row))
            &&& max_coeff == 8 ==> c == Some(super::vlc::Code::Chroma422DcZeros(row))
            &&& max_coeff >= 15 ==> c == Some(super::vlc::Code::Zeros(row))
        }),
{
}

} // verus!
