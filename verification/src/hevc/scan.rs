//! Coefficient scan orders.

use vstd::prelude::*;

verus! {

/// Places of the diagonal scan of a 4x4 square, row by row.
pub const DIAG4: [u8; 16] = [
    0, 4, 1, 8, 5, 2, 12, 9, 6, 3, 13, 10, 7, 14, 11, 15,
];

/// Places of the diagonal scan of an 8x8 square, row by row.
pub const DIAG8: [u8; 64] = [
    0, 8, 1, 16, 9, 2, 24, 17, 10, 3, 32, 25, 18, 11, 4, 40, 33, 26, 19, 12, 5, 48, 41, 34, 27, 20,
    13, 6, 56, 49, 42, 35, 28, 21, 14, 7, 57, 50, 43, 36, 29, 22, 15, 58, 51, 44, 37, 30, 23, 59,
    52, 45, 38, 31, 60, 53, 46, 39, 61, 54, 47, 62, 55, 63,
];

/// The order in which the coefficients of a block are coded.
#[derive(Clone, Copy, PartialEq, Eq, Structural)]
pub enum Scan {
    Diag,
    Horiz,
    Vert,
}

/// Column and row of the `i`-th coefficient of a 4x4 group.
pub open spec fn coeff_place(scan: Scan, i: int) -> (int, int) {
    match scan {
        Scan::Diag => (DIAG4[i] as int % 4, DIAG4[i] as int / 4 % 4),
        Scan::Horiz => (i % 4, i / 4 % 4),
        Scan::Vert => (i / 4 % 4, i % 4),
    }
}

/// Column and row of the `i`-th group of a block of `2^log2` by `2^log2` coefficients.
pub open spec fn group_place(scan: Scan, log2: u32, i: int) -> (int, int) {
    match scan {
        Scan::Diag => if log2 == 2 {
            (0, 0)
        } else if log2 == 3 {
            (i / 2 % 2, i % 2)
        } else if log2 == 4 {
            (DIAG4[i % 16] as int % 4, DIAG4[i % 16] as int / 4 % 4)
        } else {
            (DIAG8[i % 64] as int % 8, DIAG8[i % 64] as int / 8 % 8)
        },
        Scan::Horiz => (i % 2, i / 2 % 2),
        Scan::Vert => (i / 2 % 2, i % 2),
    }
}

/// Number of groups of a block.
pub open spec fn groups(scan: Scan, log2: u32) -> int {
    if scan != Scan::Diag || log2 == 3 {
        4
    } else if log2 == 2 {
        1
    } else if log2 == 4 {
        16
    } else {
        64
    }
}

/// Column and row of a coefficient in its group.
pub fn coeff_xy(scan: Scan, i: usize) -> (p: (usize, usize))
    requires
        i < 16,
    ensures
        (p.0 as int, p.1 as int) == coeff_place(scan, i as int),
        p.0 < 4,
        p.1 < 4,
{
    match scan {
        Scan::Diag => (DIAG4[i] as usize % 4, DIAG4[i] as usize / 4 % 4),
        Scan::Horiz => (i % 4, i / 4 % 4),
        Scan::Vert => (i / 4 % 4, i % 4),
    }
}

/// Column and row of a group in its block.
pub fn group_xy(scan: Scan, log2: u32, i: usize) -> (p: (usize, usize))
    ensures
        (p.0 as int, p.1 as int) == group_place(scan, log2, i as int),
        p.0 < 8,
        p.1 < 8,
{
    match scan {
        Scan::Diag => if log2 == 2 {
            (0, 0)
        } else if log2 == 3 {
            (i / 2 % 2, i % 2)
        } else if log2 == 4 {
            (DIAG4[i % 16] as usize % 4, DIAG4[i % 16] as usize / 4 % 4)
        } else {
            (DIAG8[i % 64] as usize % 8, DIAG8[i % 64] as usize / 8 % 8)
        },
        Scan::Horiz => (i % 2, i / 2 % 2),
        Scan::Vert => (i / 2 % 2, i % 2),
    }
}

/// The place in the scan of the coefficient at column `x` and row `y` of a group: the first from
/// `i` on that lies there, or the last.
pub open spec fn coeff_index(scan: Scan, x: int, y: int, i: int) -> int
    decreases 15 - i,
{
    if i >= 15 || coeff_place(scan, i) == (x, y) {
        i
    } else {
        coeff_index(scan, x, y, i + 1)
    }
}

/// The place in the scan of the group at column `x` and row `y`: the first from `i` on that lies
/// there, or the last.
pub open spec fn group_index(scan: Scan, log2: u32, x: int, y: int, i: int) -> int
    decreases groups(scan, log2) - 1 - i,
{
    if i >= groups(scan, log2) - 1 || group_place(scan, log2, i) == (x, y) {
        i
    } else {
        group_index(scan, log2, x, y, i + 1)
    }
}

/// The place in the scan of a coefficient of a group.
pub fn find_coeff(scan: Scan, x: usize, y: usize) -> (i: usize)
    ensures
        i == coeff_index(scan, x as int, y as int, 0),
        i < 16,
{
    let mut i: usize = 0;
    while i < 15
        invariant
            i <= 15,
            coeff_index(scan, x as int, y as int, i as int) == coeff_index(
                scan,
                x as int,
                y as int,
                0,
            ),
        decreases 15 - i,
    {
        let (cx, cy) = coeff_xy(scan, i);
        if cx == x && cy == y {
            return i;
        }
        i += 1;
    }
    i
}

/// The place in the scan of a group of a block.
pub fn find_group(scan: Scan, log2: u32, x: usize, y: usize) -> (i: usize)
    ensures
        i == group_index(scan, log2, x as int, y as int, 0),
        i < groups(scan, log2),
{
    let last: usize = if scan != Scan::Diag || log2 == 3 {
        3
    } else if log2 == 2 {
        0
    } else if log2 == 4 {
        15
    } else {
        63
    };
    let mut i: usize = 0;
    while i < last
        invariant
            i <= last,
            last == groups(scan, log2) - 1,
            group_index(scan, log2, x as int, y as int, i as int) == group_index(
                scan,
                log2,
                x as int,
                y as int,
                0,
            ),
        decreases last - i,
    {
        let (gx, gy) = group_xy(scan, log2, i);
        if gx == x && gy == y {
            return i;
        }
        i += 1;
    }
    i
}

} // verus!
