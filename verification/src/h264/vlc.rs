//! The variable-length codes of CAVLC residual syntax.
//!
//! Each code is two rows: the lengths of its code words and the code words themselves. A length of
//! 0 marks a symbol without a code word.

use crate::bits::{BitReader, Bits};
use vstd::prelude::*;

verus! {

/// A code: `coeff_token` by class of the neighbour predictor, and for chroma DC blocks of 2x2 and
/// of 2x4 coefficients; `total_zeros` by `TotalCoeff - 1`, likewise; `run_before` by the zeros left
/// less one, at most 6. A `coeff_token` symbol is `4 * TotalCoeff + TrailingOnes`.
#[derive(Clone, Copy)]
pub enum Code {
    Token(usize),
    ChromaDcToken,
    Chroma422DcToken,
    Zeros(usize),
    ChromaDcZeros(usize),
    Chroma422DcZeros(usize),
    Run(usize),
}

impl Code {
    pub open spec fn valid(self) -> bool {
        match self {
            Code::Token(k) => k < 4,
            Code::Zeros(k) => k < 15,
            Code::ChromaDcZeros(k) => k < 3,
            Code::Chroma422DcZeros(k) => k < 7,
            Code::Run(k) => k < 7,
            _ => true,
        }
    }

    /// Number of symbols.
    pub open spec fn symbols(self) -> nat {
        match self {
            Code::Token(_) => 68,
            Code::ChromaDcToken => 20,
            Code::Chroma422DcToken => 36,
            Code::Zeros(_) => 16,
            Code::ChromaDcZeros(_) => 4,
            Code::Chroma422DcZeros(_) => 8,
            Code::Run(_) => 16,
        }
    }

    /// Lengths of the code words.
    pub open spec fn lens(self) -> Seq<u8> {
        match self {
            Code::Token(k) => COEFF_TOKEN_LEN[k as int]@,
            Code::ChromaDcToken => CHROMA_DC_COEFF_TOKEN_LEN@,
            Code::Chroma422DcToken => CHROMA422_DC_COEFF_TOKEN_LEN@,
            Code::Zeros(k) => TOTAL_ZEROS_LEN[k as int]@,
            Code::ChromaDcZeros(k) => CHROMA_DC_TOTAL_ZEROS_LEN[k as int]@,
            Code::Chroma422DcZeros(k) => CHROMA422_DC_TOTAL_ZEROS_LEN[k as int]@,
            Code::Run(k) => RUN_LEN[k as int]@,
        }
    }

    /// The code words.
    pub open spec fn words(self) -> Seq<u8> {
        match self {
            Code::Token(k) => COEFF_TOKEN_BITS[k as int]@,
            Code::ChromaDcToken => CHROMA_DC_COEFF_TOKEN_BITS@,
            Code::Chroma422DcToken => CHROMA422_DC_COEFF_TOKEN_BITS@,
            Code::Zeros(k) => TOTAL_ZEROS_BITS[k as int]@,
            Code::ChromaDcZeros(k) => CHROMA_DC_TOTAL_ZEROS_BITS[k as int]@,
            Code::Chroma422DcZeros(k) => CHROMA422_DC_TOTAL_ZEROS_BITS[k as int]@,
            Code::Run(k) => RUN_BITS[k as int]@,
        }
    }
}

/// The upcoming bits start with the code word `word` of `len` bits.
pub open spec fn code_word_next(b: Bits, len: u8, word: u8) -> bool {
    len != 0 && b.u(len as u32).0 == word
}

/// The last of the first `n` symbols whose code word comes next.
pub open spec fn vlc_symbol(b: Bits, len: Seq<u8>, word: Seq<u8>, n: nat) -> Option<usize>
    decreases n,
{
    if n == 0 {
        None
    } else if code_word_next(b, len[n - 1], word[n - 1]) {
        Some((n - 1) as usize)
    } else {
        vlc_symbol(b, len, word, (n - 1) as nat)
    }
}

/// One symbol read. Without a matching code word nothing is consumed.
#[verifier::opaque]
pub open spec fn vlc_read(b: Bits, code: Code) -> (Option<usize>, Bits) {
    match vlc_symbol(b, code.lens(), code.words(), code.symbols()) {
        None => (None, b),
        Some(k) => (Some(k), b.seek(code.lens()[k as int] as int)),
    }
}

fn read_rows<const N: usize>(r: &mut BitReader, len: &[u8; N], word: &[u8; N]) -> (k: Option<usize>)
    ensures
        k == vlc_symbol(old(r)@, len@, word@, N as nat),
        k matches Some(s) ==> s < N && final(r)@ == old(r)@.seek(len@[s as int] as int),
        k is None ==> final(r)@ == old(r)@,
{
    let mut n: usize = N;
    while n > 0
        invariant
            n <= N,
            len@.len() == N,
            word@.len() == N,
            r@ == old(r)@,
            vlc_symbol(r@, len@, word@, n as nat) == vlc_symbol(r@, len@, word@, N as nat),
        decreases n,
    {
        n -= 1;
        if len[n] != 0 && r.next_bits(len[n] as u32) == word[n] as u32 {
            r.skip_bits(len[n] as usize);
            return Some(n);
        }
    }
    None
}

/// Reads one symbol of a code.
pub fn read_vlc(r: &mut BitReader, code: Code) -> (k: Option<usize>)
    requires
        code.valid(),
    ensures
        (k, final(r)@) == vlc_read(old(r)@, code),
        k matches Some(s) ==> s < code.symbols(),
{
    proof {
        reveal(vlc_read);
    }
    match code {
        Code::Token(k) => read_rows(r, &COEFF_TOKEN_LEN[k], &COEFF_TOKEN_BITS[k]),
        Code::ChromaDcToken => read_rows(
            r,
            &CHROMA_DC_COEFF_TOKEN_LEN,
            &CHROMA_DC_COEFF_TOKEN_BITS,
        ),
        Code::Chroma422DcToken => read_rows(
            r,
            &CHROMA422_DC_COEFF_TOKEN_LEN,
            &CHROMA422_DC_COEFF_TOKEN_BITS,
        ),
        Code::Zeros(k) => read_rows(r, &TOTAL_ZEROS_LEN[k], &TOTAL_ZEROS_BITS[k]),
        Code::ChromaDcZeros(k) => read_rows(
            r,
            &CHROMA_DC_TOTAL_ZEROS_LEN[k],
            &CHROMA_DC_TOTAL_ZEROS_BITS[k],
        ),
        Code::Chroma422DcZeros(k) => read_rows(
            r,
            &CHROMA422_DC_TOTAL_ZEROS_LEN[k],
            &CHROMA422_DC_TOTAL_ZEROS_BITS[k],
        ),
        Code::Run(k) => read_rows(r, &RUN_LEN[k], &RUN_BITS[k]),
    }
}

/// `coeff_token` of a 2x2 chroma DC block: code lengths.
pub const CHROMA_DC_COEFF_TOKEN_LEN: [u8; 20] = [
    2, 0, 0, 0, 6, 1, 0, 0, 6, 6, 3, 0, 6, 7, 7, 6, 6, 8, 8, 7,
];
/// `coeff_token` of a 2x2 chroma DC block: code words.
pub const CHROMA_DC_COEFF_TOKEN_BITS: [u8; 20] = [
    1, 0, 0, 0, 7, 1, 0, 0, 4, 6, 1, 0, 3, 3, 2, 5, 2, 3, 2, 0,
];

/// `coeff_token` of a 2x4 chroma DC block: code lengths.
pub const CHROMA422_DC_COEFF_TOKEN_LEN: [u8; 36] = [
    1, 0, 0, 0, 7, 2, 0, 0, 7, 7, 3, 0, 9, 7, 7, 5, 9, 9, 7, 6,
    10, 10, 9, 7, 11, 11, 10, 7, 12, 12, 11, 10, 13, 12, 12, 11,
];
/// `coeff_token` of a 2x4 chroma DC block: code words.
pub const CHROMA422_DC_COEFF_TOKEN_BITS: [u8; 36] = [
    1, 0, 0, 0, 15, 1, 0, 0, 14, 13, 1, 0, 7, 12, 11, 1, 6, 5, 10, 1,
    7, 6, 4, 9, 7, 6, 5, 8, 7, 6, 5, 4, 7, 5, 4, 4,
];

/// `coeff_token` by class of the neighbour predictor: code lengths.
pub const COEFF_TOKEN_LEN: [[u8; 68]; 4] = [
    [
        1, 0, 0, 0,
        6, 2, 0, 0,  8, 6, 3, 0,  9, 8, 7, 5,  10, 9, 8, 6,
        11, 10, 9, 7, 13, 11, 10, 8, 13, 13, 11, 9, 13, 13, 13, 10,
        14, 14, 13, 11, 14, 14, 14, 13, 15, 15, 14, 14, 15, 15, 15, 14,
        16, 15, 15, 15, 16, 16, 16, 15, 16, 16, 16, 16, 16, 16, 16, 16,
    ],
    [
        2, 0, 0, 0,
        6, 2, 0, 0,  6, 5, 3, 0,  7, 6, 6, 4,  8, 6, 6, 4,
        8, 7, 7, 5,  9, 8, 8, 6,  11, 9, 9, 6, 11, 11, 11, 7,
        12, 11, 11, 9, 12, 12, 12, 11, 12, 12, 12, 11, 13, 13, 13, 12,
        13, 13, 13, 13, 13, 14, 13, 13, 14, 14, 14, 13, 14, 14, 14, 14,
    ],
    [
        4, 0, 0, 0,
        6, 4, 0, 0,  6, 5, 4, 0,  6, 5, 5, 4,  7, 5, 5, 4,
        7, 5, 5, 4,  7, 6, 6, 4,  7, 6, 6, 4,  8, 7, 7, 5,
        8, 8, 7, 6,  9, 8, 8, 7,  9, 9, 8, 8,  9, 9, 9, 8,
        10, 9, 9, 9, 10, 10, 10, 10, 10, 10, 10, 10, 10, 10, 10, 10,
    ],
    [
        6, 0, 0, 0,
        6, 6, 0, 0,  6, 6, 6, 0,  6, 6, 6, 6,  6, 6, 6, 6,
        6, 6, 6, 6,  6, 6, 6, 6,  6, 6, 6, 6,  6, 6, 6, 6,
        6, 6, 6, 6,  6, 6, 6, 6,  6, 6, 6, 6,  6, 6, 6, 6,
        6, 6, 6, 6,  6, 6, 6, 6,  6, 6, 6, 6,  6, 6, 6, 6,
    ],
];
/// `coeff_token` by class of the neighbour predictor: code words.
pub const COEFF_TOKEN_BITS: [[u8; 68]; 4] = [
    [
        1, 0, 0, 0,
        5, 1, 0, 0,  7, 4, 1, 0,  7, 6, 5, 3,  7, 6, 5, 3,
        7, 6, 5, 4,  15, 6, 5, 4, 11, 14, 5, 4, 8, 10, 13, 4,
        15, 14, 9, 4, 11, 10, 13, 12, 15, 14, 9, 12, 11, 10, 13, 8,
        15, 1, 9, 12, 11, 14, 13, 8, 7, 10, 9, 12, 4, 6, 5, 8,
    ],
    [
        3, 0, 0, 0,
        11, 2, 0, 0, 7, 7, 3, 0,  7, 10, 9, 5, 7, 6, 5, 4,
        4, 6, 5, 6,  7, 6, 5, 8,  15, 6, 5, 4, 11, 14, 13, 4,
        15, 10, 9, 4, 11, 14, 13, 12, 8, 10, 9, 8, 15, 14, 13, 12,
        11, 10, 9, 12, 7, 11, 6, 8, 9, 8, 10, 1, 7, 6, 5, 4,
    ],
    [
        15, 0, 0, 0,
        15, 14, 0, 0, 11, 15, 13, 0, 8, 12, 14, 12, 15, 10, 11, 11,
        11, 8, 9, 10, 9, 14, 13, 9, 8, 10, 9, 8, 15, 14, 13, 13,
        11, 14, 10, 12, 15, 10, 13, 12, 11, 14, 9, 12, 8, 10, 13, 8,
        13, 7, 9, 12, 9, 12, 11, 10, 5, 8, 7, 6, 1, 4, 3, 2,
    ],
    [
        3, 0, 0, 0,
        0, 1, 0, 0,  4, 5, 6, 0,  8, 9, 10, 11, 12, 13, 14, 15,
        16, 17, 18, 19, 20, 21, 22, 23, 24, 25, 26, 27, 28, 29, 30, 31,
        32, 33, 34, 35, 36, 37, 38, 39, 40, 41, 42, 43, 44, 45, 46, 47,
        48, 49, 50, 51, 52, 53, 54, 55, 56, 57, 58, 59, 60, 61, 62, 63,
    ],
];

/// `total_zeros` by `TotalCoeff - 1`: code lengths.
pub const TOTAL_ZEROS_LEN: [[u8; 16]; 15] = [
    [1, 3, 3, 4, 4, 5, 5, 6, 6, 7, 7, 8, 8, 9, 9, 9],
    [3, 3, 3, 3, 3, 4, 4, 4, 4, 5, 5, 6, 6, 6, 6, 0],
    [4, 3, 3, 3, 4, 4, 3, 3, 4, 5, 5, 6, 5, 6, 0, 0],
    [5, 3, 4, 4, 3, 3, 3, 4, 3, 4, 5, 5, 5, 0, 0, 0],
    [4, 4, 4, 3, 3, 3, 3, 3, 4, 5, 4, 5, 0, 0, 0, 0],
    [6, 5, 3, 3, 3, 3, 3, 3, 4, 3, 6, 0, 0, 0, 0, 0],
    [6, 5, 3, 3, 3, 2, 3, 4, 3, 6, 0, 0, 0, 0, 0, 0],
    [6, 4, 5, 3, 2, 2, 3, 3, 6, 0, 0, 0, 0, 0, 0, 0],
    [6, 6, 4, 2, 2, 3, 2, 5, 0, 0, 0, 0, 0, 0, 0, 0],
    [5, 5, 3, 2, 2, 2, 4, 0, 0, 0, 0, 0, 0, 0, 0, 0],
    [4, 4, 3, 3, 1, 3, 0, 0, 0, 0, 0, 0, 0, 0, 0, 0],
    [4, 4, 2, 1, 3, 0, 0, 0, 0, 0, 0, 0, 0, 0, 0, 0],
    [3, 3, 1, 2, 0, 0, 0, 0, 0, 0, 0, 0, 0, 0, 0, 0],
    [2, 2, 1, 0, 0, 0, 0, 0, 0, 0, 0, 0, 0, 0, 0, 0],
    [1, 1, 0, 0, 0, 0, 0, 0, 0, 0, 0, 0, 0, 0, 0, 0],
];
/// `total_zeros` by `TotalCoeff - 1`: code words.
pub const TOTAL_ZEROS_BITS: [[u8; 16]; 15] = [
    [1, 3, 2, 3, 2, 3, 2, 3, 2, 3, 2, 3, 2, 3, 2, 1],
    [7, 6, 5, 4, 3, 5, 4, 3, 2, 3, 2, 3, 2, 1, 0, 0],
    [5, 7, 6, 5, 4, 3, 4, 3, 2, 3, 2, 1, 1, 0, 0, 0],
    [3, 7, 5, 4, 6, 5, 4, 3, 3, 2, 2, 1, 0, 0, 0, 0],
    [5, 4, 3, 7, 6, 5, 4, 3, 2, 1, 1, 0, 0, 0, 0, 0],
    [1, 1, 7, 6, 5, 4, 3, 2, 1, 1, 0, 0, 0, 0, 0, 0],
    [1, 1, 5, 4, 3, 3, 2, 1, 1, 0, 0, 0, 0, 0, 0, 0],
    [1, 1, 1, 3, 3, 2, 2, 1, 0, 0, 0, 0, 0, 0, 0, 0],
    [1, 0, 1, 3, 2, 1, 1, 1, 0, 0, 0, 0, 0, 0, 0, 0],
    [1, 0, 1, 3, 2, 1, 1, 0, 0, 0, 0, 0, 0, 0, 0, 0],
    [0, 1, 1, 2, 1, 3, 0, 0, 0, 0, 0, 0, 0, 0, 0, 0],
    [0, 1, 1, 1, 1, 0, 0, 0, 0, 0, 0, 0, 0, 0, 0, 0],
    [0, 1, 1, 1, 0, 0, 0, 0, 0, 0, 0, 0, 0, 0, 0, 0],
    [0, 1, 1, 0, 0, 0, 0, 0, 0, 0, 0, 0, 0, 0, 0, 0],
    [0, 1, 0, 0, 0, 0, 0, 0, 0, 0, 0, 0, 0, 0, 0, 0],
];

/// `total_zeros` of a 2x2 chroma DC block: code lengths.
pub const CHROMA_DC_TOTAL_ZEROS_LEN: [[u8; 4]; 3] = [
    [1, 2, 3, 3],
    [1, 2, 2, 0],
    [1, 1, 0, 0],
];
/// `total_zeros` of a 2x2 chroma DC block: code words.
pub const CHROMA_DC_TOTAL_ZEROS_BITS: [[u8; 4]; 3] = [
    [1, 1, 1, 0],
    [1, 1, 0, 0],
    [1, 0, 0, 0],
];

/// `total_zeros` of a 2x4 chroma DC block: code lengths.
pub const CHROMA422_DC_TOTAL_ZEROS_LEN: [[u8; 8]; 7] = [
    [1, 3, 3, 4, 4, 4, 5, 5],
    [3, 2, 3, 3, 3, 3, 3, 0],
    [3, 3, 2, 2, 3, 3, 0, 0],
    [3, 2, 2, 2, 3, 0, 0, 0],
    [2, 2, 2, 2, 0, 0, 0, 0],
    [2, 2, 1, 0, 0, 0, 0, 0],
    [1, 1, 0, 0, 0, 0, 0, 0],
];
/// `total_zeros` of a 2x4 chroma DC block: code words.
pub const CHROMA422_DC_TOTAL_ZEROS_BITS: [[u8; 8]; 7] = [
    [1, 2, 3, 2, 3, 1, 1, 0],
    [0, 1, 1, 4, 5, 6, 7, 0],
    [0, 1, 1, 2, 6, 7, 0, 0],
    [6, 0, 1, 2, 7, 0, 0, 0],
    [0, 1, 2, 3, 0, 0, 0, 0],
    [0, 1, 1, 0, 0, 0, 0, 0],
    [0, 1, 0, 0, 0, 0, 0, 0],
];

/// `run_before` by the zeros left, less one, at most 6: code lengths.
pub const RUN_LEN: [[u8; 16]; 7] = [
    [1, 1, 0, 0, 0, 0, 0, 0, 0, 0, 0, 0, 0, 0, 0, 0],
    [1, 2, 2, 0, 0, 0, 0, 0, 0, 0, 0, 0, 0, 0, 0, 0],
    [2, 2, 2, 2, 0, 0, 0, 0, 0, 0, 0, 0, 0, 0, 0, 0],
    [2, 2, 2, 3, 3, 0, 0, 0, 0, 0, 0, 0, 0, 0, 0, 0],
    [2, 2, 3, 3, 3, 3, 0, 0, 0, 0, 0, 0, 0, 0, 0, 0],
    [2, 3, 3, 3, 3, 3, 3, 0, 0, 0, 0, 0, 0, 0, 0, 0],
    [3, 3, 3, 3, 3, 3, 3, 4, 5, 6, 7, 8, 9, 10, 11, 0],
];
/// `run_before` by the zeros left, less one, at most 6: code words.
pub const RUN_BITS: [[u8; 16]; 7] = [
    [1, 0, 0, 0, 0, 0, 0, 0, 0, 0, 0, 0, 0, 0, 0, 0],
    [1, 1, 0, 0, 0, 0, 0, 0, 0, 0, 0, 0, 0, 0, 0, 0],
    [3, 2, 1, 0, 0, 0, 0, 0, 0, 0, 0, 0, 0, 0, 0, 0],
    [3, 2, 1, 1, 0, 0, 0, 0, 0, 0, 0, 0, 0, 0, 0, 0],
    [3, 2, 3, 2, 1, 0, 0, 0, 0, 0, 0, 0, 0, 0, 0, 0],
    [3, 0, 1, 3, 2, 5, 4, 0, 0, 0, 0, 0, 0, 0, 0, 0],
    [7, 6, 5, 4, 3, 2, 1, 1, 1, 1, 1, 1, 1, 1, 1, 0],
];

} // verus!
