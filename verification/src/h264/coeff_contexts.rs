//! Contexts of CABAC residual syntax.

use vstd::prelude::*;

verus! {

/// Offset of the significance context by position in an 8x8 block.
pub const SIG_8X8: [u8; 63] = [
    0, 1, 2, 3, 4, 5, 5, 4, 4, 3, 3, 4, 4, 4, 5, 5, 4, 4, 4, 4, 3, 3, 6, 7, 7, 7, 8, 9, 10, 9, 8, 7,
    7, 6, 11, 12, 13, 11, 6, 7, 8, 9, 14, 10, 9, 8, 6, 11, 12, 13, 11, 6, 9, 14, 10, 9, 11, 12, 13,
    11, 14, 10, 12,
];

/// Offset of the last-coefficient context by position in an 8x8 block.
pub const LAST_8X8: [u8; 63] = [
    0, 1, 1, 1, 1, 1, 1, 1, 1, 1, 1, 1, 1, 1, 1, 1, 2, 2, 2, 2, 2, 2, 2, 2, 2, 2, 2, 2, 2, 2, 2, 2,
    3, 3, 3, 3, 3, 3, 3, 3, 4, 4, 4, 4, 4, 4, 4, 4, 5, 5, 5, 5, 6, 6, 6, 6, 7, 7, 7, 7, 8, 8, 8,
];

/// A kind of residual block: luma DC and AC of `I_16x16`, luma 4x4, chroma DC, chroma AC, luma 8x8.
/// Chroma DC blocks of 4:2:2 pictures have contexts of their own.
#[derive(Clone, Copy, PartialEq, Eq, Structural)]
pub enum Cat {
    LumaDc16,
    LumaAc16,
    Luma4x4,
    ChromaDc,
    ChromaDc422,
    ChromaAc,
    Luma8x8,
}

impl Cat {
    /// Number of coefficients.
    pub open spec fn coeffs(self) -> int {
        match self {
            Cat::LumaDc16 | Cat::Luma4x4 => 16,
            Cat::LumaAc16 | Cat::ChromaAc => 15,
            Cat::ChromaDc => 4,
            Cat::ChromaDc422 => 8,
            Cat::Luma8x8 => 64,
        }
    }

    pub fn max_coeff(self) -> (n: usize)
        ensures
            n == self.coeffs(),
            4 <= n <= 64,
    {
        match self {
            Cat::LumaDc16 | Cat::Luma4x4 => 16,
            Cat::LumaAc16 | Cat::ChromaAc => 15,
            Cat::ChromaDc => 4,
            Cat::ChromaDc422 => 8,
            Cat::Luma8x8 => 64,
        }
    }

    /// First context of `coded_block_flag`.
    pub open spec fn cbf_base(self) -> int {
        match self {
            Cat::LumaDc16 => 85,
            Cat::LumaAc16 => 89,
            Cat::Luma4x4 => 93,
            Cat::ChromaDc | Cat::ChromaDc422 => 97,
            _ => 101,
        }
    }

    pub fn cbf_ctx(self, left: bool, top: bool) -> (c: usize)
        ensures
            c == self.cbf_base() + crate::grid::one_if(left) + 2 * crate::grid::one_if(top),
            c < 1024,
    {
        let base: usize = match self {
            Cat::LumaDc16 => 85,
            Cat::LumaAc16 => 89,
            Cat::Luma4x4 => 93,
            Cat::ChromaDc | Cat::ChromaDc422 => 97,
            _ => 101,
        };
        base + crate::grid::one(left) + 2 * crate::grid::one(top)
    }

    /// Contexts of `significant_coeff_flag` and `last_significant_coeff_flag` at position `pos`.
    pub open spec fn map_contexts(self, pos: int) -> (int, int) {
        let wide = pos / 2;
        let dc = if wide < 2 {
            wide
        } else {
            2
        };
        match self {
            Cat::LumaDc16 => (105 + pos, 166 + pos),
            Cat::LumaAc16 => (120 + pos, 181 + pos),
            Cat::Luma4x4 => (134 + pos, 195 + pos),
            Cat::ChromaDc => (149 + pos, 210 + pos),
            Cat::ChromaDc422 => (149 + dc, 210 + dc),
            Cat::ChromaAc => (152 + pos, 213 + pos),
            Cat::Luma8x8 => (402 + SIG_8X8[pos], 417 + LAST_8X8[pos]),
        }
    }

    pub fn map_ctx(self, pos: usize) -> (c: (usize, usize))
        requires
            pos < self.coeffs() - 1,
        ensures
            c.0 == self.map_contexts(pos as int).0,
            c.1 == self.map_contexts(pos as int).1,
            c.0 < 1024,
            c.1 < 1024,
    {
        match self {
            Cat::LumaDc16 => (105 + pos, 166 + pos),
            Cat::LumaAc16 => (120 + pos, 181 + pos),
            Cat::Luma4x4 => (134 + pos, 195 + pos),
            Cat::ChromaDc => (149 + pos, 210 + pos),
            Cat::ChromaDc422 => {
                let dc: usize = if pos / 2 < 2 {
                    pos / 2
                } else {
                    2
                };
                (149 + dc, 210 + dc)
            },
            Cat::ChromaAc => (152 + pos, 213 + pos),
            Cat::Luma8x8 => (402 + SIG_8X8[pos] as usize, 417 + LAST_8X8[pos] as usize),
        }
    }

    /// First context of `coeff_abs_level_minus1`.
    pub open spec fn abs_base(self) -> int {
        match self {
            Cat::LumaDc16 => 227,
            Cat::LumaAc16 => 237,
            Cat::Luma4x4 => 247,
            Cat::ChromaDc | Cat::ChromaDc422 => 257,
            Cat::ChromaAc => 266,
            Cat::Luma8x8 => 426,
        }
    }

    pub fn abs_ctx(self) -> (c: usize)
        ensures
            c == self.abs_base(),
            c < 1000,
    {
        match self {
            Cat::LumaDc16 => 227,
            Cat::LumaAc16 => 237,
            Cat::Luma4x4 => 247,
            Cat::ChromaDc | Cat::ChromaDc422 => 257,
            Cat::ChromaAc => 266,
            Cat::Luma8x8 => 426,
        }
    }
}

} // verus!
