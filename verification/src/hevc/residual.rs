//! Residual blocks of H.265, for synchronisation only.

use super::contexts::{
    Bins, Decoder, COEFF_ABS_LEVEL_GREATER1_FLAG_OFFSET, COEFF_ABS_LEVEL_GREATER2_FLAG_OFFSET,
    LAST_SIGNIFICANT_COEFF_X_PREFIX_OFFSET, LAST_SIGNIFICANT_COEFF_Y_PREFIX_OFFSET,
    SIGNIFICANT_COEFF_FLAG_OFFSET, SIGNIFICANT_COEFF_GROUP_FLAG_OFFSET, TRANSFORM_SKIP_FLAG_OFFSET,
};
use super::frame::MAX_LOG2;
use super::params::Pps;
use super::scan::{
    coeff_index, coeff_place, coeff_xy, find_coeff, find_group, group_index, group_place, group_xy,
    Scan,
};
use crate::grid::{one, one_if};
use vstd::prelude::*;

verus! {

/// What a residual block is coded under: the size of its transform as a logarithm, the scan, the
/// colour component, and whether transform and quantisation are bypassed.
#[derive(Clone, Copy)]
pub struct Block {
    pub log2: u32,
    pub scan: Scan,
    pub c_idx: usize,
    pub bypass: bool,
}

impl Block {
    pub open spec fn valid(self) -> bool {
        1 <= self.log2 <= MAX_LOG2
    }

    pub open spec fn chroma(self) -> bool {
        self.c_idx > 0
    }
}

// ---------------------------------------------------------------------------
// The last coefficient

/// A prefix in unary with contexts from `base` on, `n` counted before; `shift` bits of the count
/// share a context.
pub open spec fn last_prefix(c: Bins, base: int, shift: u32, n: u32, max: u32) -> (u32, Bins)
    decreases max - n,
{
    if n >= max {
        (n, c)
    } else {
        let (more, c) = c.flag(base + (n >> shift));
        if more {
            last_prefix(c, base, shift, (n + 1) as u32, max)
        } else {
            (n, c)
        }
    }
}

fn read_last_prefix(d: &mut Decoder, base: usize, shift: u32, max: u32) -> (n: u32)
    requires
        base < 120 || (base < 163 && 2 <= shift),
        shift < 32,
        max < 60,
    ensures
        (n, final(d)@) == last_prefix(old(d)@, base as int, shift, 0, max),
        n <= max,
{
    let mut n: u32 = 0;
    while n < max
        invariant
            base < 120 || (base < 163 && 2 <= shift),
            shift < 32,
            n <= max < 60,
            last_prefix(d@, base as int, shift, n, max) == last_prefix(
                old(d)@,
                base as int,
                shift,
                0,
                max,
            ),
        decreases max - n,
    {
        proof {
            assert(shift < 32 ==> n >> shift <= n) by (bit_vector);
            assert(n < 60 && 2 <= shift < 32 ==> n >> shift <= 14) by (bit_vector);
        }
        if !d.flag(base + (n >> shift) as usize) {
            return n;
        }
        n += 1;
    }
    n
}

/// First context and shift of the last-coefficient prefixes.
pub open spec fn prefix_ctx(b: Block) -> (int, u32) {
    if !b.chroma() {
        (3 * (b.log2 - 2) + (b.log2 - 1) / 4, ((b.log2 + 1) / 4) as u32)
    } else if b.log2 >= 2 {
        (15, (b.log2 - 2) as u32)
    } else {
        (15, 0)
    }
}

/// A coordinate of the last coefficient behind its prefix `p`.
#[verifier::opaque]
pub open spec fn last_coord(c: Bins, p: u32) -> (i32, Bins) {
    if p > 3 {
        let (suffix, c) = c.number(0, ((p / 2) - 1) as nat);
        ((((1i32 << ((p / 2 - 1) as u32)) * (2 + p % 2)) as i32).wrapping_add(suffix), c)
    } else {
        (p as i32, c)
    }
}

fn read_last_coord(d: &mut Decoder, p: u32) -> (v: i32)
    requires
        p < 60,
    ensures
        (v, final(d)@) == last_coord(old(d)@, p),
{
    proof {
        reveal(last_coord);
    }
    if p > 3 {
        let k: u32 = p / 2 - 1;
        let suffix = d.number(0, k);
        proof {
            assert(k <= 28 ==> 1 <= 1i32 << k <= 0x1000_0000) by (bit_vector);
            assert(2 <= (1i32 << k) * (2 + p % 2) <= 0x3000_0000) by (nonlinear_arith)
                requires
                    1 <= 1i32 << k <= 0x1000_0000,
                    0 <= p % 2 <= 1,
            ;
        }
        ((1i32 << k) * (2 + (p % 2) as i32)).wrapping_add(suffix)
    } else {
        p as i32
    }
}

/// Column and row of the last coefficient. A vertical scan codes them exchanged.
#[verifier::opaque]
pub open spec fn last_place(c: Bins, b: Block) -> (i32, i32, Bins) {
    let (offset, shift) = prefix_ctx(b);
    let max = (2 * b.log2 - 1) as u32;
    let (px, c) = last_prefix(
        c,
        LAST_SIGNIFICANT_COEFF_X_PREFIX_OFFSET + offset,
        shift,
        0,
        max,
    );
    let (py, c) = last_prefix(
        c,
        LAST_SIGNIFICANT_COEFF_Y_PREFIX_OFFSET + offset,
        shift,
        0,
        max,
    );
    let (x, c) = last_coord(c, px);
    let (y, c) = last_coord(c, py);
    if b.scan == Scan::Vert {
        (y, x, c)
    } else {
        (x, y, c)
    }
}

fn read_last_place(d: &mut Decoder, b: Block) -> (p: (i32, i32))
    requires
        b.valid(),
        !b.chroma() ==> b.log2 >= 2,
    ensures
        (p.0, p.1, final(d)@) == last_place(old(d)@, b),
{
    proof {
        reveal(last_place);
    }
    let (offset, shift): (usize, u32) = if b.c_idx == 0 {
        ((3 * (b.log2 - 2) + (b.log2 - 1) / 4) as usize, (b.log2 + 1) / 4)
    } else if b.log2 >= 2 {
        (15, b.log2 - 2)
    } else {
        (15, 0)
    };
    let max: u32 = 2 * b.log2 - 1;
    let px = read_last_prefix(d, LAST_SIGNIFICANT_COEFF_X_PREFIX_OFFSET + offset, shift, max);
    let py = read_last_prefix(d, LAST_SIGNIFICANT_COEFF_Y_PREFIX_OFFSET + offset, shift, max);
    let x = read_last_coord(d, px);
    let y = read_last_coord(d, py);
    if b.scan == Scan::Vert {
        (y, x)
    } else {
        (x, y)
    }
}

// ---------------------------------------------------------------------------
// Significance

/// Offset of a significance context by the place of the coefficient: for a 4x4 block by itself,
/// else by which of the right and the lower group have coefficients.
pub open spec fn sig_offset(row: int, x: int, y: int) -> int {
    if row == 0 {
        if y < 2 {
            if x < 2 {
                2 * y + x
            } else {
                x + 2
            }
        } else if x < 2 {
            if y == 2 {
                6
            } else {
                7
            }
        } else {
            8
        }
    } else if row == 1 {
        if x + y < 3 {
            1
        } else {
            0
        }
    } else if row == 2 {
        if y == 0 {
            2
        } else if y == 1 {
            1
        } else {
            0
        }
    } else if row == 3 {
        if x == 0 {
            2
        } else if x == 1 {
            1
        } else {
            0
        }
    } else {
        2
    }
}

fn sig_ctx_offset(row: usize, x: usize, y: usize) -> (o: usize)
    requires
        x < 4,
        y < 4,
    ensures
        o == sig_offset(row as int, x as int, y as int),
        o <= 8,
{
    if row == 0 {
        if y < 2 {
            if x < 2 {
                2 * y + x
            } else {
                x + 2
            }
        } else if x < 2 {
            if y == 2 {
                6
            } else {
                7
            }
        } else {
            8
        }
    } else if row == 1 {
        if x + y < 3 {
            1
        } else {
            0
        }
    } else if row == 2 {
        if y == 0 {
            2
        } else if y == 1 {
            1
        } else {
            0
        }
    } else if row == 3 {
        if x == 0 {
            2
        } else if x == 1 {
            1
        } else {
            0
        }
    } else {
        2
    }
}

/// First significance context of a group. `inner` says that the group is not the first one.
pub open spec fn sig_base(b: Block, inner: bool) -> int {
    if b.chroma() {
        if b.log2 == 2 {
            27
        } else if b.log2 == 3 {
            36
        } else {
            39
        }
    } else if b.log2 == 2 {
        0
    } else {
        one_if(inner) * 3 + if b.log2 == 3 {
            if b.scan == Scan::Diag {
                9int
            } else {
                15int
            }
        } else {
            21int
        }
    }
}

fn sig_ctx_base(b: Block, inner: bool) -> (o: usize)
    requires
        b.valid(),
    ensures
        o == sig_base(b, inner),
        o <= 39,
{
    if b.c_idx > 0 {
        if b.log2 == 2 {
            27
        } else if b.log2 == 3 {
            36
        } else {
            39
        }
    } else if b.log2 == 2 {
        0
    } else {
        let size: usize = if b.log2 == 3 {
            if b.scan == Scan::Diag {
                9
            } else {
                15
            }
        } else {
            21
        };
        if inner {
            size + 3
        } else {
            size
        }
    }
}

/// The significant coefficients of a group: how many, and the first and the last of them found,
/// and whether the one at place 0 is implied.
#[derive(Clone, Copy)]
pub struct Sig {
    pub count: usize,
    pub first: i32,
    pub last: i32,
    pub implied: bool,
}

/// One more coefficient, at place `n`.
pub open spec fn sig_add(s: Sig, n: i32) -> Sig {
    Sig {
        count: (s.count + 1) as usize,
        first: if s.count == 0 {
            n
        } else {
            s.first
        },
        last: n,
        implied: false,
    }
}

fn add_sig(s: Sig, n: i32) -> (r: Sig)
    requires
        s.count < 1000,
    ensures
        r == sig_add(s, n),
{
    Sig {
        count: s.count + 1,
        first: if s.count == 0 {
            n
        } else {
            s.first
        },
        last: n,
        implied: false,
    }
}

/// Coefficients at places `n` down to 1.
pub open spec fn sig_run(c: Bins, s: Sig, b: Block, row: int, base: int, n: int) -> (Sig, Bins)
    decreases n,
{
    if n <= 0 {
        (s, c)
    } else {
        let (x, y) = coeff_place(b.scan, n);
        let (f, c) = c.flag(SIGNIFICANT_COEFF_FLAG_OFFSET + (sig_offset(row, x, y) + base));
        sig_run(
            c,
            if f {
                sig_add(s, n as i32)
            } else {
                s
            },
            b,
            row,
            base,
            n - 1,
        )
    }
}

/// The coefficients of a group from place `n_end` down; `group` is its place in the scan.
#[verifier::opaque]
pub open spec fn sig_group(
    c: Bins,
    s: Sig,
    b: Block,
    row: int,
    inner: bool,
    group: int,
    n_end: int,
) -> (Sig, Bins) {
    let base = sig_base(b, inner);
    let (s, c) = sig_run(c, s, b, row, base, n_end);
    if s.implied {
        (sig_add(s, 0), c)
    } else {
        let ctx = if group == 0 {
            if b.chroma() {
                27
            } else {
                0
            }
        } else {
            2 + base
        };
        let (f, c) = c.flag(SIGNIFICANT_COEFF_FLAG_OFFSET + ctx);
        (
            if f {
                sig_add(s, 0)
            } else {
                s
            },
            c,
        )
    }
}

fn read_sig_group(
    d: &mut Decoder,
    start: Sig,
    b: Block,
    row: usize,
    inner: bool,
    group: usize,
    n_end: usize,
) -> (s: Sig)
    requires
        b.valid(),
        n_end < 16,
        start.count <= 1,
    ensures
        (s, final(d)@) == sig_group(
            old(d)@,
            start,
            b,
            row as int,
            inner,
            group as int,
            n_end as int,
        ),
        s.count <= start.count + n_end + 1,
{
    proof {
        reveal(sig_group);
    }
    let base = sig_ctx_base(b, inner);
    let ghost whole = sig_run(d@, start, b, row as int, base as int, n_end as int);
    let mut s = start;
    let mut n: usize = n_end;
    while n > 0
        invariant
            b.valid(),
            n <= n_end < 16,
            base <= 39,
            start.count <= 1,
            s.count <= start.count + (n_end - n),
            sig_run(d@, s, b, row as int, base as int, n as int) == whole,
        decreases n,
    {
        let (x, y) = coeff_xy(b.scan, n);
        let ctx: usize = sig_ctx_offset(row, x, y) + base;
        if d.flag(SIGNIFICANT_COEFF_FLAG_OFFSET + ctx) {
            s = add_sig(s, n as i32);
        }
        n -= 1;
    }
    if s.implied {
        s = add_sig(s, 0);
    } else {
        let ctx: usize = if group == 0 {
            if b.c_idx > 0 {
                27
            } else {
                0
            }
        } else {
            2 + base
        };
        if d.flag(SIGNIFICANT_COEFF_FLAG_OFFSET + ctx) {
            s = add_sig(s, 0);
        }
    }
    s
}

// ---------------------------------------------------------------------------
// Levels

/// `coeff_abs_level_remaining`, in 32-bit arithmetic.
#[verifier::opaque]
pub open spec fn remaining(c: Bins, rice: u32) -> (i32, Bins) {
    let (n, c) = c.ones(0, 32);
    let prefix = n as u32;
    if prefix < 3 {
        let (suffix, c) = c.number(0, rice as nat);
        (((prefix << rice) as i32).wrapping_add(suffix), c)
    } else {
        let k = (prefix - 3) as u32;
        let (suffix, c) = c.number(0, (k + rice) as nat);
        (((((1u32 << k).wrapping_add(2)) << rice) as i32).wrapping_add(suffix), c)
    }
}

fn coeff_abs_level_remaining(d: &mut Decoder, rice: u32) -> (v: i32)
    requires
        rice <= 4,
    ensures
        (v, final(d)@) == remaining(old(d)@, rice),
{
    proof {
        reveal(remaining);
    }
    let prefix = d.ones(0, 32);
    if prefix < 3 {
        let suffix = d.number(0, rice);
        ((prefix << rice) as i32).wrapping_add(suffix)
    } else {
        let k: u32 = prefix - 3;
        let suffix = d.number(0, k + rice);
        ((((1u32 << k).wrapping_add(2)) << rice) as i32).wrapping_add(suffix)
    }
}

/// Greater-than-one flags of coefficients `m..n` of a group: the levels known so far less one, the
/// first coefficient with a flag set (8 for none), and the context.
pub open spec fn greater1(
    c: Bins,
    b: Block,
    set: int,
    g: Seq<u32>,
    first: int,
    ctx: int,
    m: int,
    n: int,
) -> (Seq<u32>, int, int, Bins)
    decreases n - m,
{
    if m >= n {
        (g, first, ctx, c)
    } else {
        let inc = 4 * set + ctx + if b.chroma() {
            16int
        } else {
            0int
        };
        let (bin, c) = c.get(COEFF_ABS_LEVEL_GREATER1_FLAG_OFFSET + inc);
        greater1(
            c,
            b,
            set,
            g.update(m, bin),
            if bin != 0 && first == 8 {
                m
            } else {
                first
            },
            if bin != 0 {
                0
            } else if 0 < ctx < 3 {
                ctx + 1
            } else {
                ctx
            },
            m + 1,
            n,
        )
    }
}

fn read_greater1(d: &mut Decoder, b: Block, set: usize, n: usize) -> (r: ([u32; 8], usize, usize))
    requires
        set <= 3,
        n <= 8,
    ensures
        greater1(
            old(d)@,
            b,
            set as int,
            Seq::new(8, |i: int| 0u32),
            8,
            1,
            0,
            n as int,
        ) == (r.0@, r.1 as int, r.2 as int, final(d)@),
        r.1 <= 8,
        r.2 <= 3,
        forall|i: int| 0 <= i < 8 ==> #[trigger] r.0@[i] <= 1,
{
    let mut g: [u32; 8] = [0;8];
    let mut first: usize = 8;
    let mut ctx: usize = 1;
    let mut m: usize = 0;
    let ghost zeros = Seq::new(8, |i: int| 0u32);
    assert(g@ =~= zeros);
    while m < n
        invariant
            m <= n <= 8,
            set <= 3,
            first <= 8,
            ctx <= 3,
            g@.len() == 8,
            forall|i: int| 0 <= i < 8 ==> #[trigger] g@[i] <= 1,
            greater1(
                d@,
                b,
                set as int,
                g@,
                first as int,
                ctx as int,
                m as int,
                n as int,
            ) == greater1(old(d)@, b, set as int, zeros, 8, 1, 0, n as int),
        decreases n - m,
    {
        let inc: usize = 4 * set + ctx + if b.c_idx > 0 {
            16
        } else {
            0
        };
        let bin = d.get(COEFF_ABS_LEVEL_GREATER1_FLAG_OFFSET + inc);
        g[m] = bin;
        if bin != 0 {
            ctx = 0;
            if first == 8 {
                first = m;
            }
        } else if 0 < ctx && ctx < 3 {
            ctx += 1;
        }
        m += 1;
    }
    (g, first, ctx)
}

/// The Rice parameter behind a level `v`.
pub open spec fn next_rice(rice: u32, v: i32) -> u32 {
    if v > (3i32 << rice) && rice < 4 {
        (rice + 1) as u32
    } else {
        rice
    }
}

/// Remaining levels of coefficients `m..n`. One of the first eight has more to come where its
/// flags say all they can.
pub open spec fn levels(c: Bins, g: Seq<u32>, first: int, rice: u32, m: int, n: int) -> Bins
    decreases n - m,
{
    if m >= n {
        c
    } else if m < 8 {
        let level = (1 + g[m]) as i32;
        if level == (if m == first {
            3i32
        } else {
            2i32
        }) {
            let (rem, c) = remaining(c, rice);
            levels(c, g, first, next_rice(rice, level.wrapping_add(rem)), m + 1, n)
        } else {
            levels(c, g, first, rice, m + 1, n)
        }
    } else {
        let (rem, c) = remaining(c, rice);
        levels(c, g, first, next_rice(rice, 1i32.wrapping_add(rem)), m + 1, n)
    }
}

fn skip_levels(d: &mut Decoder, g: &[u32; 8], first: usize, n: usize)
    requires
        forall|i: int| 0 <= i < 8 ==> #[trigger] g@[i] <= 2,
    ensures
        final(d)@ == levels(old(d)@, g@, first as int, 0, 0, n as int),
{
    let mut rice: u32 = 0;
    let mut m: usize = 0;
    while m < n
        invariant
            m <= n,
            rice <= 4,
            g@.len() == 8,
            forall|i: int| 0 <= i < 8 ==> #[trigger] g@[i] <= 2,
            levels(d@, g@, first as int, rice, m as int, n as int) == levels(
                old(d)@,
                g@,
                first as int,
                0,
                0,
                n as int,
            ),
        decreases n - m,
    {
        let level: i32 = if m < 8 {
            (1 + g[m]) as i32
        } else {
            1
        };
        let threshold: i32 = if m == first {
            3
        } else {
            2
        };
        if m >= 8 || level == threshold {
            let rem = coeff_abs_level_remaining(d, rice);
            if level.wrapping_add(rem) > (3i32 << rice) && rice < 4 {
                rice += 1;
            }
        }
        m += 1;
    }
}

/// The levels of a group with significant coefficients `s`; `set` chooses the contexts. The context
/// behind them is handed on.
#[verifier::opaque]
pub open spec fn group_levels(c: Bins, s: Sig, b: Block, set: int, hiding: bool) -> (int, Bins) {
    let n = if s.count < 8 {
        s.count as int
    } else {
        8
    };
    let (g, first, ctx, c) = greater1(c, b, set, Seq::new(8, |i: int| 0u32), 8, 1, 0, n);
    let (g, c) = if first < 8 {
        let inc = set + if b.chroma() {
            4int
        } else {
            0int
        };
        let (bin, c) = c.get(COEFF_ABS_LEVEL_GREATER2_FLAG_OFFSET + inc);
        (g.update(first, (g[first] + bin) as u32), c)
    } else {
        (g, c)
    };
    let hidden = !b.bypass && s.first - s.last >= 4;
    let signs = s.count - one_if(hiding && hidden);
    let c = c.skip(signs as nat);
    (ctx, levels(c, g, first, 0, 0, s.count as int))
}

fn skip_group_levels(d: &mut Decoder, s: Sig, b: Block, set: usize, hiding: bool) -> (ctx: usize)
    requires
        set <= 3,
        1 <= s.count <= 17,
        -1000 <= s.first <= 1000,
        -1000 <= s.last <= 1000,
    ensures
        group_levels(old(d)@, s, b, set as int, hiding) == (ctx as int, final(d)@),
        ctx <= 3,
{
    proof {
        reveal(group_levels);
    }
    let n: usize = if s.count < 8 {
        s.count
    } else {
        8
    };
    let (g1, first, ctx) = read_greater1(d, b, set, n);
    let mut g = g1;
    if first < 8 {
        let inc: usize = set + if b.c_idx > 0 {
            4
        } else {
            0
        };
        let bin = d.get(COEFF_ABS_LEVEL_GREATER2_FLAG_OFFSET + inc);
        let v: u32 = g[first] + bin;
        g[first] = v;
    }
    let hidden = !b.bypass && s.first - s.last >= 4;
    let signs: usize = s.count - one(hiding && hidden);
    d.skip(signs);
    skip_levels(d, &g, first, s.count);
    ctx
}

// ---------------------------------------------------------------------------
// Groups

/// Number of the last column or row of groups.
pub open spec fn group_limit(log2: u32) -> int {
    if log2 <= 2 {
        0
    } else if log2 == 3 {
        1
    } else if log2 == 4 {
        3
    } else {
        7
    }
}

/// Whether the group at column `x` and row `y` has coefficients; `sig` holds groups by column.
pub open spec fn group_sig(sig: Seq<u8>, log2: u32, x: int, y: int) -> int {
    if x <= group_limit(log2) && y <= group_limit(log2) && sig[8 * x + y] != 0 {
        1
    } else {
        0
    }
}

/// Where decoding the groups of a block stands: which of them have coefficients, and the context of
/// the last greater-than-one flag.
pub struct GroupsV {
    pub sig: Seq<u8>,
    pub ctx: int,
}

fn read_group_sig(sig: &[u8; 64], log2: u32, x: usize, y: usize) -> (r: usize)
    requires
        x <= 8,
        y <= 8,
    ensures
        r == group_sig(sig@, log2, x as int, y as int),
        r <= 1,
{
    let limit: usize = if log2 <= 2 {
        0
    } else if log2 == 3 {
        1
    } else if log2 == 4 {
        3
    } else {
        7
    };
    if x <= limit && y <= limit && sig[8 * x + y] != 0 {
        1
    } else {
        0
    }
}

/// Place of the last coefficient: its group in the scan, that group's column and row, and its place
/// in the group.
#[derive(Clone, Copy)]
pub struct Last {
    pub group: usize,
    pub x: i32,
    pub y: i32,
    pub pos: usize,
}

/// Whether group `i` has coefficients, and whether that was coded.
#[verifier::opaque]
pub open spec fn group_flag(c: Bins, b: Block, last: Last, sig: Seq<u8>, i: int) -> (bool, u8, Bins) {
    let (x, y) = group_place(b.scan, b.log2, i);
    if 0 < i < last.group {
        let near = group_sig(sig, b.log2, x + 1, y) + group_sig(sig, b.log2, x, y + 1);
        let inc = one_if(near > 0) + if b.chroma() {
            2int
        } else {
            0int
        };
        let (bin, c) = c.get(SIGNIFICANT_COEFF_GROUP_FLAG_OFFSET + inc);
        (true, bin as u8, c)
    } else {
        (
            false,
            if (x == last.x && y == last.y) || (x == 0 && y == 0) {
                1
            } else {
                0
            },
            c,
        )
    }
}

fn read_group_flag(d: &mut Decoder, b: Block, last: Last, sig: &[u8; 64], i: usize) -> (r: (
    bool,
    u8,
))
    ensures
        (r.0, r.1, final(d)@) == group_flag(old(d)@, b, last, sig@, i as int),
{
    proof {
        reveal(group_flag);
    }
    let (x, y) = group_xy(b.scan, b.log2, i);
    if 0 < i && i < last.group {
        let near: usize = read_group_sig(sig, b.log2, x + 1, y) + read_group_sig(
            sig,
            b.log2,
            x,
            y + 1,
        );
        let inc: usize = one(near > 0) + if b.c_idx > 0 {
            2
        } else {
            0
        };
        (true, d.get(SIGNIFICANT_COEFF_GROUP_FLAG_OFFSET + inc) as u8)
    } else {
        (
            false,
            if (x as i32 == last.x && y as i32 == last.y) || (x == 0 && y == 0) {
                1
            } else {
                0
            },
        )
    }
}

/// The significant coefficients of group `i`.
#[verifier::opaque]
pub open spec fn group_coeffs(
    c: Bins,
    b: Block,
    last: Last,
    sig: Seq<u8>,
    i: int,
    implied: bool,
    has: u8,
) -> (Sig, Bins) {
    let (x, y) = group_place(b.scan, b.log2, i);
    let (s, n_end) = if i == last.group {
        (
            Sig { count: 1, first: last.pos as i32, last: last.pos as i32, implied },
            last.pos - 1,
        )
    } else {
        (Sig { count: 0, first: 0, last: 0, implied }, 15)
    };
    if has != 0 && n_end >= 0 {
        let row = if b.log2 == 2 {
            0
        } else {
            1 + group_sig(sig, b.log2, x + 1, y) + 2 * group_sig(sig, b.log2, x, y + 1)
        };
        sig_group(c, s, b, row, x > 0 || y > 0, i, n_end)
    } else {
        (s, c)
    }
}

fn read_group_coeffs(
    d: &mut Decoder,
    b: Block,
    last: Last,
    sig: &[u8; 64],
    i: usize,
    implied: bool,
    has: u8,
) -> (s: Sig)
    requires
        b.valid(),
        last.pos < 16,
    ensures
        (s, final(d)@) == group_coeffs(old(d)@, b, last, sig@, i as int, implied, has),
        s.count <= 17,
{
    proof {
        reveal(group_coeffs);
    }
    let (x, y) = group_xy(b.scan, b.log2, i);
    let start = if i == last.group {
        Sig { count: 1, first: last.pos as i32, last: last.pos as i32, implied }
    } else {
        Sig { count: 0, first: 0, last: 0, implied }
    };
    if has == 0 || (i == last.group && last.pos == 0) {
        return start;
    }
    let n_end: usize = if i == last.group {
        last.pos - 1
    } else {
        15
    };
    let row: usize = if b.log2 == 2 {
        0
    } else {
        1 + read_group_sig(sig, b.log2, x + 1, y) + 2 * read_group_sig(sig, b.log2, x, y + 1)
    };
    read_sig_group(d, start, b, row, x > 0 || y > 0, i, n_end)
}

/// One group of a block.
#[verifier::opaque]
pub open spec fn group(c: Bins, b: Block, hiding: bool, last: Last, g: GroupsV, i: int) -> (
    GroupsV,
    Bins,
) {
    let (x, y) = group_place(b.scan, b.log2, i);
    let (implied, has, c) = group_flag(c, b, last, g.sig, i);
    let sig = g.sig.update(8 * x + y, has);
    let (s, c) = group_coeffs(c, b, last, sig, i, implied, has);
    if s.count == 0 {
        (GroupsV { sig, ctx: g.ctx }, c)
    } else {
        let set = if i > 0 && !b.chroma() {
            2int
        } else {
            0int
        } + one_if(i != last.group && g.ctx == 0);
        let (ctx, c) = group_levels(c, s, b, set, hiding);
        (GroupsV { sig, ctx }, c)
    }
}

/// Groups `i` down to 0.
pub open spec fn groups_down(c: Bins, b: Block, hiding: bool, last: Last, g: GroupsV, i: int) -> Bins
    decreases i + 1,
{
    if i < 0 {
        c
    } else {
        let (g, c) = group(c, b, hiding, last, g, i);
        groups_down(c, b, hiding, last, g, i - 1)
    }
}

proof fn lemma_sig_range(c: Bins, s: Sig, b: Block, row: int, base: int, n: int)
    requires
        n <= 15,
        -1000 <= s.first <= 1000,
        -1000 <= s.last <= 1000,
    ensures
        ({
            let r = sig_run(c, s, b, row, base, n).0;
            -1000 <= r.first <= 1000 && -1000 <= r.last <= 1000
        }),
    decreases n,
{
    if n > 0 {
        let (x, y) = coeff_place(b.scan, n);
        let (f, c1) = c.flag(SIGNIFICANT_COEFF_FLAG_OFFSET + (sig_offset(row, x, y) + base));
        let s1 = if f {
            sig_add(s, n as i32)
        } else {
            s
        };
        lemma_sig_range(c1, s1, b, row, base, n - 1);
    }
}

proof fn lemma_group_sig_range(
    c: Bins,
    b: Block,
    last: Last,
    sig: Seq<u8>,
    i: int,
    implied: bool,
    has: u8,
)
    requires
        last.pos < 16,
    ensures
        ({
            let r = group_coeffs(c, b, last, sig, i, implied, has).0;
            -1000 <= r.first <= 1000 && -1000 <= r.last <= 1000
        }),
{
    reveal(group_coeffs);
    reveal(sig_group);
    let (x, y) = group_place(b.scan, b.log2, i);
    let (s, n_end) = if i == last.group {
        (
            Sig { count: 1, first: last.pos as i32, last: last.pos as i32, implied },
            last.pos - 1,
        )
    } else {
        (Sig { count: 0, first: 0, last: 0, implied }, 15)
    };
    let row = if b.log2 == 2 {
        0
    } else {
        1 + group_sig(sig, b.log2, x + 1, y) + 2 * group_sig(sig, b.log2, x, y + 1)
    };
    lemma_sig_range(c, s, b, row, sig_base(b, x > 0 || y > 0), n_end);
}

fn skip_group(
    d: &mut Decoder,
    b: Block,
    hiding: bool,
    last: Last,
    sig: &mut [u8; 64],
    ctx: usize,
    i: usize,
) -> (next: usize)
    requires
        b.valid(),
        last.pos < 16,
    ensures
        group(
            old(d)@,
            b,
            hiding,
            last,
            GroupsV { sig: old(sig)@, ctx: ctx as int },
            i as int,
        ) == (GroupsV { sig: final(sig)@, ctx: next as int }, final(d)@),
{
    proof {
        reveal(group);
    }
    let (x, y) = group_xy(b.scan, b.log2, i);
    let (implied, has) = read_group_flag(d, b, last, sig, i);
    sig[8 * x + y] = has;
    proof {
        lemma_group_sig_range(d@, b, last, sig@, i as int, implied, has);
    }
    let s = read_group_coeffs(d, b, last, sig, i, implied, has);
    if s.count == 0 {
        return ctx;
    }
    let set: usize = if i > 0 && b.c_idx == 0 {
        2
    } else {
        0
    } + one(i != last.group && ctx == 0);
    skip_group_levels(d, s, b, set, hiding)
}

/// The transform-skip flag, where a block can have one.
#[verifier::opaque]
pub open spec fn skip_flag(c: Bins, b: Block, pps: Pps) -> Bins {
    if !b.bypass && pps.transform_skip_enabled_flag && b.log2 <= 2 {
        c.get(TRANSFORM_SKIP_FLAG_OFFSET + one_if(b.chroma())).1
    } else {
        c
    }
}

/// The place of the last coefficient in the scan.
pub open spec fn last_of(b: Block, x: i32, y: i32) -> Last {
    Last {
        group: group_index(b.scan, b.log2, (x >> 2) as usize as int, (y >> 2) as usize as int, 0)
            as usize,
        x: x >> 2,
        y: y >> 2,
        pos: coeff_index(b.scan, (x & 3) as usize as int, (y & 3) as usize as int, 0) as usize,
    }
}

fn find_last(b: Block, x: i32, y: i32) -> (l: Last)
    ensures
        l == last_of(b, x, y),
        l.pos < 16,
        l.group < 64,
{
    let group = find_group(b.scan, b.log2, (x >> 2) as usize, (y >> 2) as usize);
    let pos = find_coeff(b.scan, (x & 3) as usize, (y & 3) as usize);
    Last { group, x: x >> 2, y: y >> 2, pos }
}

/// `residual_coding()`: the last coefficient, then the groups from its group down to the first.
#[verifier::opaque]
pub open spec fn residual(c: Bins, b: Block, pps: Pps) -> Bins {
    let (x, y, c) = last_place(skip_flag(c, b, pps), b);
    let last = last_of(b, x, y);
    groups_down(
        c,
        b,
        pps.sign_data_hiding_enabled,
        last,
        GroupsV { sig: Seq::new(64, |i: int| 0u8), ctx: 1 },
        last.group as int,
    )
}

/// Steps over a residual block.
pub fn residual_coding(d: &mut Decoder, b: Block, pps: &Pps)
    requires
        b.valid(),
        !b.chroma() ==> b.log2 >= 2,
    ensures
        final(d)@ == residual(old(d)@, b, *pps),
{
    proof {
        reveal(residual);
        reveal(skip_flag);
    }
    if !b.bypass && pps.transform_skip_enabled_flag && b.log2 <= 2 {
        let _transform_skip = d.get(TRANSFORM_SKIP_FLAG_OFFSET + one(b.c_idx > 0));
    }
    let (x, y) = read_last_place(d, b);
    let last = find_last(b, x, y);
    let hiding = pps.sign_data_hiding_enabled;
    let mut sig: [u8; 64] = [0;64];
    let ghost zeros = Seq::new(64, |i: int| 0u8);
    assert(sig@ =~= zeros);
    let ghost whole = groups_down(
        d@,
        b,
        hiding,
        last,
        GroupsV { sig: zeros, ctx: 1 },
        last.group as int,
    );
    let mut ctx: usize = 1;
    let mut left: usize = last.group + 1;
    while left > 0
        invariant
            b.valid(),
            last.pos < 16,
            left <= last.group + 1,
            groups_down(
                d@,
                b,
                hiding,
                last,
                GroupsV { sig: sig@, ctx: ctx as int },
                left - 1,
            ) == whole,
        decreases left,
    {
        left -= 1;
        ctx = skip_group(d, b, hiding, last, &mut sig, ctx, left);
    }
}

} // verus!
