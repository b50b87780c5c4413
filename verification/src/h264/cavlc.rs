//! CAVLC residual blocks, for synchronisation only.
//!
//! Motion vectors do not depend on coefficient values. A residual block is decoded to step over
//! exactly its bits and to learn `TotalCoeff`, from which the predictor of later blocks follows.

use super::vlc::{read_vlc, vlc_read, Code};
use crate::bits::{BitReader, Bits};
use vstd::prelude::*;

verus! {

// ---------------------------------------------------------------------------
// coeff_token

/// The class of luma code table that the neighbour predictor `n_c` selects.
pub open spec fn token_class(n_c: i32) -> usize {
    if n_c < 2 {
        0
    } else if n_c < 4 {
        1
    } else if n_c < 8 {
        2
    } else {
        3
    }
}

/// The code of `coeff_token` that `n_c` selects.
pub open spec fn token_code(n_c: i32) -> Code {
    if n_c == -1 {
        Code::ChromaDcToken
    } else if n_c == -2 {
        Code::Chroma422DcToken
    } else {
        Code::Token(token_class(n_c))
    }
}

/// `TotalCoeff` and `TrailingOnes` of the next block.
pub open spec fn token(b: Bits, n_c: i32) -> (Option<(i32, i32)>, Bits) {
    let (k, b) = vlc_read(b, token_code(n_c));
    match k {
        None => (None, b),
        Some(k) => (Some(((k / 4) as i32, (k % 4) as i32)), b),
    }
}

/// `coeff_token`: `(TotalCoeff, TrailingOnes)`. The predictor `n_c` is that of the neighbours,
/// -1 for 2x2 chroma DC or -2 for 2x4 chroma DC.
pub fn coeff_token(r: &mut BitReader, n_c: i32) -> (t: Option<(i32, i32)>)
    ensures
        (t, final(r)@) == token(old(r)@, n_c),
        t matches Some(p) ==> 0 <= p.0 <= 16 && 0 <= p.1 <= 3,
{
    let code = if n_c == -1 {
        Code::ChromaDcToken
    } else if n_c == -2 {
        Code::Chroma422DcToken
    } else if n_c < 2 {
        Code::Token(0)
    } else if n_c < 4 {
        Code::Token(1)
    } else if n_c < 8 {
        Code::Token(2)
    } else {
        Code::Token(3)
    };
    match read_vlc(r, code) {
        None => None,
        Some(k) => Some(((k / 4) as i32, (k % 4) as i32)),
    }
}

// ---------------------------------------------------------------------------
// Levels

/// Zero bits up to the closing 1, `n` of them counted before; a run ends at 64.
pub open spec fn prefix_run(b: Bits, n: u32) -> (u32, Bits)
    decreases 64 - n,
{
    let (bit, b) = b.bit();
    if bit != 0 {
        (n, b)
    } else if n >= 63 {
        ((n + 1) as u32, b)
    } else {
        prefix_run(b, (n + 1) as u32)
    }
}

/// `level_prefix`: zero bits up to the closing 1.
fn level_prefix(r: &mut BitReader) -> (n: u32)
    ensures
        (n, final(r)@) == prefix_run(old(r)@, 0),
        n <= 64,
{
    let mut n: u32 = 0;
    let mut bit = r.read_bit();
    while bit == 0
        invariant
            n <= 63,
            bit != 0 ==> (n, r@) == prefix_run(old(r)@, 0),
            bit == 0 && n >= 63 ==> ((n + 1) as u32, r@) == prefix_run(old(r)@, 0),
            bit == 0 && n < 63 ==> prefix_run(r@, (n + 1) as u32) == prefix_run(old(r)@, 0),
        decreases 64 - n, 1 - bit,
    {
        if n >= 63 {
            return n + 1;
        }
        n += 1;
        bit = r.read_bit();
    }
    n
}

/// Bits of `level_suffix`.
pub open spec fn suffix_size(prefix: u32, suffix_length: u32) -> u32 {
    if prefix == 14 && suffix_length == 0 {
        4
    } else if prefix >= 15 {
        (prefix - 3) as u32
    } else {
        suffix_length
    }
}

/// `levelCode`, in 32-bit arithmetic.
pub open spec fn level_code(prefix: u32, suffix_length: u32, suffix: u32, first: bool) -> u32 {
    let capped: u32 = if prefix < 15 {
        prefix
    } else {
        15
    };
    let code = (capped << suffix_length).wrapping_add(suffix);
    let code = if prefix >= 15 && suffix_length == 0 {
        code.wrapping_add(15)
    } else {
        code
    };
    let code = if prefix >= 16 {
        code.wrapping_add(1u32.wrapping_shl((prefix - 3) as u32).wrapping_sub(4096))
    } else {
        code
    };
    if first {
        code.wrapping_add(2)
    } else {
        code
    }
}

/// The suffix length after a level of magnitude `abs_level`.
pub open spec fn next_suffix_length(suffix_length: u32, abs_level: u32) -> u32 {
    let length: u32 = if suffix_length == 0 {
        1
    } else {
        suffix_length
    };
    if abs_level > (3u32 << ((length - 1) as u32)) && length < 6 {
        (length + 1) as u32
    } else {
        length
    }
}

/// One level: the suffix length that follows, and the reader behind it. `first` says that this
/// is the first level behind fewer than three trailing ones.
pub open spec fn level(b: Bits, suffix_length: u32, first: bool) -> (u32, Bits) {
    let (prefix, b) = prefix_run(b, 0);
    let (suffix, b) = b.u(suffix_size(prefix, suffix_length));
    let code = level_code(prefix, suffix_length, suffix, first);
    (next_suffix_length(suffix_length, (code / 2 + 1) as u32), b)
}

fn read_level(r: &mut BitReader, suffix_length: u32, first: bool) -> (next: u32)
    requires
        suffix_length <= 6,
    ensures
        (next, final(r)@) == level(old(r)@, suffix_length, first),
        1 <= next <= 6,
{
    let prefix = level_prefix(r);
    let size = if prefix == 14 && suffix_length == 0 {
        4
    } else if prefix >= 15 {
        prefix - 3
    } else {
        suffix_length
    };
    let suffix = r.read_bits(size);
    let capped: u32 = if prefix < 15 {
        prefix
    } else {
        15
    };
    let mut code: u32 = (capped << suffix_length).wrapping_add(suffix);
    if prefix >= 15 && suffix_length == 0 {
        code = code.wrapping_add(15);
    }
    if prefix >= 16 {
        code = code.wrapping_add(1u32.wrapping_shl(prefix - 3).wrapping_sub(4096));
    }
    if first {
        code = code.wrapping_add(2);
    }
    let abs_level: u32 = code / 2 + 1;
    let length: u32 = if suffix_length == 0 {
        1
    } else {
        suffix_length
    };
    if abs_level > (3u32 << (length - 1)) && length < 6 {
        length + 1
    } else {
        length
    }
}

/// Levels `i..total` of a block whose first `ones` coefficients are trailing ones.
pub open spec fn levels(b: Bits, suffix_length: u32, i: int, ones: int, total: int) -> Bits
    decreases total - i,
{
    if i >= total {
        b
    } else {
        let (next, b) = level(b, suffix_length, i == ones && ones < 3);
        levels(b, next, i + 1, ones, total)
    }
}

fn skip_levels(r: &mut BitReader, ones: i32, total: i32)
    requires
        0 <= ones <= 3,
        0 <= total <= 16,
    ensures
        final(r)@ == levels(
            old(r)@,
            if total > 10 && ones < 3 {
                1
            } else {
                0
            },
            ones as int,
            ones as int,
            total as int,
        ),
{
    let mut suffix_length: u32 = if total > 10 && ones < 3 {
        1
    } else {
        0
    };
    let ghost start = levels(r@, suffix_length, ones as int, ones as int, total as int);
    let mut i: i32 = ones;
    while i < total
        invariant
            total <= 16,
            suffix_length <= 6,
            levels(r@, suffix_length, i as int, ones as int, total as int) == start,
        decreases total - i,
    {
        suffix_length = read_level(r, suffix_length, i == ones && ones < 3);
        i += 1;
    }
}

// ---------------------------------------------------------------------------
// Zeros and runs

/// The code of `total_zeros` of a block of `total` nonzero coefficients out of `max_coeff`, where
/// the block type can hold that many.
pub open spec fn zeros_code(total: int, max_coeff: int) -> Option<Code> {
    let row = (total - 1) as usize;
    if max_coeff == 4 {
        if total <= 3 {
            Some(Code::ChromaDcZeros(row))
        } else {
            None
        }
    } else if max_coeff <= 8 {
        if total <= 7 {
            Some(Code::Chroma422DcZeros(row))
        } else {
            None
        }
    } else if total <= 15 {
        Some(Code::Zeros(row))
    } else {
        None
    }
}

/// `total_zeros`, which a full block does not code.
pub open spec fn zeros(b: Bits, total: int, max_coeff: int) -> (Option<usize>, Bits) {
    if total == max_coeff {
        (Some(0), b)
    } else {
        match zeros_code(total, max_coeff) {
            None => (None, b),
            Some(code) => vlc_read(b, code),
        }
    }
}

fn read_zeros(r: &mut BitReader, total: usize, max_coeff: usize) -> (z: Option<usize>)
    requires
        1 <= total,
    ensures
        (z, final(r)@) == zeros(old(r)@, total as int, max_coeff as int),
        z matches Some(n) ==> n < 16,
{
    if total == max_coeff {
        return Some(0);
    }
    let row: usize = total - 1;
    let code = if max_coeff == 4 && row < 3 {
        Code::ChromaDcZeros(row)
    } else if max_coeff != 4 && max_coeff <= 8 && row < 7 {
        Code::Chroma422DcZeros(row)
    } else if max_coeff > 8 && row < 15 {
        Code::Zeros(row)
    } else {
        return None;
    };
    read_vlc(r, code)
}

/// The row of the `run_before` code for `zeros_left` zeros.
pub open spec fn run_row(zeros_left: int) -> usize {
    if zeros_left < 7 {
        (zeros_left - 1) as usize
    } else {
        6
    }
}

/// `run_before` of coefficients `i..total`; whether all of them had a code word.
pub open spec fn runs(b: Bits, i: int, total: int, zeros_left: int) -> (bool, Bits)
    decreases total - i,
{
    if i >= total || zeros_left <= 0 {
        (true, b)
    } else {
        let (run, b) = vlc_read(b, Code::Run(run_row(zeros_left)));
        match run {
            None => (false, b),
            Some(run) => runs(
                b,
                i + 1,
                total,
                if run <= zeros_left {
                    zeros_left - run
                } else {
                    0
                },
            ),
        }
    }
}

fn skip_runs(r: &mut BitReader, total: i32, zeros: usize) -> (ok: bool)
    ensures
        (ok, final(r)@) == runs(old(r)@, 1, total as int, zeros as int),
{
    let mut zeros_left: usize = zeros;
    let mut i: i32 = 1;
    while i < total && zeros_left > 0
        invariant
            1 <= i,
            runs(r@, i as int, total as int, zeros_left as int) == runs(
                old(r)@,
                1,
                total as int,
                zeros as int,
            ),
        decreases total - i,
    {
        let row: usize = if zeros_left < 7 {
            zeros_left - 1
        } else {
            6
        };
        match read_vlc(r, Code::Run(row)) {
            None => {
                return false;
            },
            Some(run) => {
                zeros_left = if run <= zeros_left {
                    zeros_left - run
                } else {
                    0
                };
            },
        }
        i += 1;
    }
    true
}

// ---------------------------------------------------------------------------
// Residual block

/// One residual block: `TotalCoeff`, or `None` where the bits hold no such block.
pub open spec fn block(b: Bits, n_c: i32, max_coeff: int) -> (Option<i32>, Bits) {
    let (tok, b) = token(b, n_c);
    match tok {
        None => (None, b),
        Some((total, ones)) => if total == 0 {
            (Some(0i32), b)
        } else {
            let length: u32 = if total > 10 && ones < 3 {
                1
            } else {
                0
            };
            let b = levels(b.seek(ones as int), length, ones as int, ones as int, total as int);
            let (z, b) = zeros(b, total as int, max_coeff);
            match z {
                None => (None, b),
                Some(z) => {
                    let (ok, b) = runs(b, 1, total as int, z as int);
                    (
                        if ok {
                            Some(total)
                        } else {
                            None
                        },
                        b,
                    )
                },
            }
        },
    }
}

/// Steps over one residual block and returns its `TotalCoeff`. `max_coeff` is the number of
/// coefficients that the block type holds: 16 or 15 for luma and chroma AC, 4 for chroma DC,
/// 8 for 4:2:2 chroma DC. On desync the result is `None`.
pub fn residual_block(r: &mut BitReader, n_c: i32, max_coeff: usize) -> (t: Option<i32>)
    ensures
        (t, final(r)@) == block(old(r)@, n_c, max_coeff as int),
        t matches Some(total) ==> 0 <= total <= 16,
{
    match coeff_token(r, n_c) {
        None => None,
        Some((total, ones)) => {
            if total == 0 {
                return Some(0);
            }
            r.skip_bits(ones as usize);
            skip_levels(r, ones, total);
            match read_zeros(r, total as usize, max_coeff) {
                None => None,
                Some(zeros) => {
                    if skip_runs(r, total, zeros) {
                        Some(total)
                    } else {
                        None
                    }
                },
            }
        },
    }
}

} // verus!
