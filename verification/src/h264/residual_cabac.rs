//! CABAC residual blocks, for synchronisation only.

use super::coeff_contexts::Cat;
use super::contexts::{Cab, Cabd};
use super::grids::{block_at, block_xy, FrameGrids, GridsV, Seg};
use crate::grid::one_if;
use vstd::prelude::*;

verus! {

// ---------------------------------------------------------------------------
// One block

/// The significance map from position `pos` on, with `count` coefficients found before: the
/// number of coefficients, and where the map ended.
pub open spec fn sig_map(c: Cab, cat: Cat, pos: int, count: int) -> (int, int, Cab)
    decreases cat.coeffs() - pos,
{
    if pos >= cat.coeffs() - 1 {
        (count, pos, c)
    } else {
        let (sig, last) = cat.map_contexts(pos);
        let (s, c) = c.flag(sig);
        if s {
            let (l, c) = c.flag(last);
            if l {
                (count + 1, pos, c)
            } else {
                sig_map(c, cat, pos + 1, count + 1)
            }
        } else {
            sig_map(c, cat, pos + 1, count)
        }
    }
}

/// The number of coefficients. A map that runs to its end implies the last one.
#[verifier::opaque]
pub open spec fn coeff_count(c: Cab, cat: Cat) -> (int, Cab) {
    let (count, pos, c) = sig_map(c, cat, 0, 0);
    (
        if pos == cat.coeffs() - 1 {
            count + 1
        } else {
            count
        },
        c,
    )
}

fn read_coeff_count(cd: &mut Cabd, cat: Cat) -> (n: usize)
    ensures
        coeff_count(old(cd)@, cat) == (n as int, final(cd)@),
        n <= 64,
{
    proof {
        reveal(coeff_count);
    }
    let end: usize = cat.max_coeff() - 1;
    let mut count: usize = 0;
    let mut pos: usize = 0;
    let ghost whole = sig_map(cd@, cat, 0, 0);
    while pos < end
        invariant
            end == cat.coeffs() - 1,
            end <= 63,
            count <= pos <= end,
            sig_map(cd@, cat, pos as int, count as int) == whole,
            whole == sig_map(old(cd)@, cat, 0, 0),
            coeff_count(old(cd)@, cat) == (
                if whole.1 == end {
                    whole.0 + 1
                } else {
                    whole.0
                },
                whole.2,
            ),
        decreases end - pos,
    {
        let (sig, last) = cat.map_ctx(pos);
        if cd.flag(sig) {
            count += 1;
            if cd.flag(last) {
                return count;
            }
        }
        pos += 1;
    }
    count + 1
}

/// `n` bypass bins skipped.
pub open spec fn skip_bypass(c: Cab, n: nat) -> Cab
    decreases n,
{
    if n == 0 {
        c
    } else {
        skip_bypass(c.bypass().1, (n - 1) as nat)
    }
}

/// Bypass bins of 1, `j` of them counted before, up to a 0 or to the 24th.
pub open spec fn escape_prefix(c: Cab, j: nat) -> (nat, Cab)
    decreases 24 - j,
{
    let (bin, c) = c.bypass();
    if bin == 1 && j < 23 {
        escape_prefix(c, j + 1)
    } else {
        (j, c)
    }
}

/// The escape part of a level.
#[verifier::opaque]
pub open spec fn escape(c: Cab) -> Cab {
    let (j, c) = escape_prefix(c, 0);
    skip_bypass(c, j)
}

fn skip_escape(cd: &mut Cabd)
    ensures
        final(cd)@ == escape(old(cd)@),
{
    proof {
        reveal(escape);
    }
    let ghost c0 = cd@;
    let mut j: usize = 0;
    let mut bin = cd.bypass();
    while bin == 1 && j < 23
        invariant
            j <= 23,
            bin == 1 && j < 23 ==> escape_prefix(cd@, (j + 1) as nat) == escape_prefix(c0, 0),
            !(bin == 1 && j < 23) ==> escape_prefix(c0, 0) == (j as nat, cd@),
        decreases 24 - j,
    {
        j += 1;
        bin = cd.bypass();
    }
    let ghost c1 = cd@;
    let ghost n = j as nat;
    while j > 0
        invariant
            skip_bypass(cd@, j as nat) == skip_bypass(c1, n),
        decreases j,
    {
        let _bin = cd.bypass();
        j -= 1;
    }
}

/// Bins of 1 with context `ctx`, starting from a level of `abs`, up to a 0 or to level 15.
pub open spec fn level_prefix(c: Cab, ctx: int, abs: int) -> (int, Cab)
    decreases 15 - abs,
{
    if abs >= 15 {
        (abs, c)
    } else {
        let (more, c) = c.flag(ctx);
        if more {
            level_prefix(c, ctx, abs + 1)
        } else {
            (abs, c)
        }
    }
}

/// Context offset of the first bin of a level at node `node`.
pub open spec fn one_ctx(node: int) -> int {
    if node < 4 {
        node + 1
    } else {
        0
    }
}

/// Context offset of the other bins of a level at node `node`.
pub open spec fn more_ctx(cat: Cat, node: int) -> int {
    if node < 4 {
        5
    } else if cat == Cat::ChromaDc422 && node > 6 {
        8
    } else {
        node + 2
    }
}

/// The node behind a level of 1.
pub open spec fn node_one(node: int) -> int {
    if node < 3 {
        node + 1
    } else {
        node
    }
}

/// The node behind a greater level.
pub open spec fn node_more(node: int) -> int {
    if node < 4 {
        4
    } else if node < 7 {
        node + 1
    } else {
        7
    }
}

/// One level: the node behind it.
#[verifier::opaque]
pub open spec fn level(c: Cab, cat: Cat, node: int) -> (int, Cab) {
    let (more, c) = c.flag(cat.abs_base() + one_ctx(node));
    if !more {
        (node_one(node), c.sign(-1i32).1)
    } else {
        let (abs, c) = level_prefix(c, cat.abs_base() + more_ctx(cat, node), 2);
        let c = if abs >= 15 {
            escape(c)
        } else {
            c
        };
        (node_more(node), c.sign(-1i32).1)
    }
}

fn skip_level(cd: &mut Cabd, cat: Cat, node: usize) -> (next: usize)
    requires
        node < 8,
    ensures
        level(old(cd)@, cat, node as int) == (next as int, final(cd)@),
        next < 8,
{
    proof {
        reveal(level);
    }
    let base = cat.abs_ctx();
    let first: usize = if node < 4 {
        node + 1
    } else {
        0
    };
    if !cd.flag(base + first) {
        let _sign = cd.sign(-1);
        if node < 3 {
            node + 1
        } else {
            node
        }
    } else {
        let more: usize = if node < 4 {
            5
        } else if cat == Cat::ChromaDc422 && node > 6 {
            8
        } else {
            node + 2
        };
        let ctx: usize = base + more;
        let ghost c0 = cd@;
        let ghost whole = level_prefix(c0, ctx as int, 2);
        let mut abs: usize = 2;
        let mut go = cd.flag(ctx);
        while go && abs < 14
            invariant
                2 <= abs <= 14,
                ctx < 1024,
                go ==> level_prefix(cd@, ctx as int, abs + 1) == whole,
                !go ==> (abs as int, cd@) == whole,
            decreases 15 - abs,
        {
            abs += 1;
            go = cd.flag(ctx);
        }
        if go {
            assert(level_prefix(cd@, ctx as int, 15) == (15int, cd@));
            skip_escape(cd);
        }
        let _sign = cd.sign(-1);
        if node < 4 {
            4
        } else if node < 7 {
            node + 1
        } else {
            7
        }
    }
}

/// `n` levels.
pub open spec fn levels(c: Cab, cat: Cat, node: int, n: nat) -> Cab
    decreases n,
{
    if n == 0 {
        c
    } else {
        let (node, c) = level(c, cat, node);
        levels(c, cat, node, (n - 1) as nat)
    }
}

/// One residual block: the number of its coefficients.
#[verifier::opaque]
pub open spec fn bins(c: Cab, cat: Cat) -> (u8, Cab) {
    let (n, c) = coeff_count(c, cat);
    (n as u8, levels(c, cat, 0, n as nat))
}

fn residual_bins(cd: &mut Cabd, cat: Cat) -> (n: u8)
    ensures
        (n, final(cd)@) == bins(old(cd)@, cat),
{
    proof {
        reveal(bins);
    }
    let count = read_coeff_count(cd, cat);
    let ghost c0 = cd@;
    let mut node: usize = 0;
    let mut left: usize = count;
    while left > 0
        invariant
            node < 8,
            levels(cd@, cat, node as int, left as nat) == levels(c0, cat, 0, count as nat),
        decreases left,
    {
        node = skip_level(cd, cat, node);
        left -= 1;
    }
    count as u8
}

/// A block behind its `coded_block_flag` with context `ctx`; 0 coefficients where it is not coded.
#[verifier::opaque]
pub open spec fn flagged(c: Cab, cat: Cat, ctx: int) -> (u8, Cab) {
    let (coded, c) = c.flag(ctx);
    if coded {
        bins(c, cat)
    } else {
        (0, c)
    }
}

fn residual_flagged(cd: &mut Cabd, cat: Cat, ctx: usize) -> (n: u8)
    requires
        ctx < 1024,
    ensures
        (n, final(cd)@) == flagged(old(cd)@, cat, ctx as int),
{
    proof {
        reveal(flagged);
    }
    if cd.flag(ctx) {
        residual_bins(cd, cat)
    } else {
        0
    }
}

// ---------------------------------------------------------------------------
// Contexts from neighbours

/// Whether a neighbouring block has coefficients; one that is not available counts as having some
/// for an intra macroblock.
pub open spec fn coded(count: Option<u8>, is_intra: bool) -> bool {
    match count {
        Some(n) => n > 0,
        None => is_intra,
    }
}

fn is_coded(count: Option<u8>, is_intra: bool) -> (r: bool)
    ensures
        r == coded(count, is_intra),
{
    match count {
        Some(n) => n > 0,
        None => is_intra,
    }
}

/// Context of the `coded_block_flag` of a luma block.
#[verifier::opaque]
pub open spec fn luma_ctx(
    g: GridsV,
    cat: Cat,
    mb: int,
    bx: int,
    by: int,
    sid: i32,
    is_intra: bool,
) -> int {
    let (a, b) = g.luma_counts(mb, bx, by, sid);
    cat.cbf_base() + one_if(coded(a, is_intra)) + 2 * one_if(coded(b, is_intra))
}

fn cbf_ctx_luma(
    g: &FrameGrids,
    cat: Cat,
    mb: usize,
    bx: usize,
    by: usize,
    sid: i32,
    is_intra: bool,
) -> (c: usize)
    requires
        g@.wf(),
        mb < g@.mbs(),
        bx < 4,
        by < 4,
    ensures
        c == luma_ctx(g@, cat, mb as int, bx as int, by as int, sid, is_intra),
        c < 1024,
{
    proof {
        reveal(luma_ctx);
    }
    let (a, b) = g.luma_counts(mb, bx, by, sid);
    cat.cbf_ctx(is_coded(a, is_intra), is_coded(b, is_intra))
}

/// Context of the `coded_block_flag` of a chroma AC block.
#[verifier::opaque]
pub open spec fn chroma_ctx(
    g: GridsV,
    c: int,
    mb: int,
    bx: int,
    by: int,
    sid: i32,
    is_intra: bool,
) -> int {
    let (a, b) = g.chroma_counts(c, mb, bx, by, sid);
    Cat::ChromaAc.cbf_base() + one_if(coded(a, is_intra)) + 2 * one_if(coded(b, is_intra))
}

fn cbf_ctx_chroma(
    g: &FrameGrids,
    c: usize,
    mb: usize,
    bx: usize,
    by: usize,
    sid: i32,
    is_intra: bool,
) -> (x: usize)
    requires
        g@.wf(),
        mb < g@.mbs(),
        bx < 2,
        by < g@.cvb,
    ensures
        x == chroma_ctx(g@, c as int, mb as int, bx as int, by as int, sid, is_intra),
        x < 1024,
{
    proof {
        reveal(chroma_ctx);
    }
    let (a, b) = g.chroma_counts(c, mb, bx, by, sid);
    Cat::ChromaAc.cbf_ctx(is_coded(a, is_intra), is_coded(b, is_intra))
}

/// Whether the DC block that `mask` stands for was coded in a neighbouring macroblock.
pub open spec fn dc_coded(g: GridsV, m: Option<int>, mask: u16, is_intra: bool) -> bool {
    match m {
        Some(m) => g.cbp[m] & mask != 0,
        None => is_intra,
    }
}

/// Context of the `coded_block_flag` of a DC block, which is noted under `mask`.
#[verifier::opaque]
pub open spec fn dc_ctx(
    g: GridsV,
    cat: Cat,
    mask: u16,
    mb: int,
    sid: i32,
    is_intra: bool,
) -> int {
    cat.cbf_base() + one_if(dc_coded(g, g.mb_left(mb, sid), mask, is_intra)) + 2 * one_if(
        dc_coded(g, g.mb_top(mb, sid), mask, is_intra),
    )
}

fn cbf_ctx_dc(
    g: &FrameGrids,
    cat: Cat,
    mask: u16,
    mb: usize,
    sid: i32,
    is_intra: bool,
) -> (c: usize)
    requires
        g@.wf(),
        mb < g@.mbs(),
    ensures
        c == dc_ctx(g@, cat, mask, mb as int, sid, is_intra),
        c < 1024,
{
    proof {
        reveal(dc_ctx);
    }
    let (l, t) = g.ctx_neighbors(mb, sid);
    let a = match l {
        Some(m) => g.cbp_of(m) & mask != 0,
        None => is_intra,
    };
    let b = match t {
        Some(m) => g.cbp_of(m) & mask != 0,
        None => is_intra,
    };
    cat.cbf_ctx(a, b)
}

/// A DC block; whether it is coded is noted under `mask`.
#[verifier::opaque]
pub open spec fn dc_block(g: GridsV, c: Cab, cat: Cat, mask: u16, mb: int, sid: i32) -> (
    GridsV,
    Cab,
) {
    let (is_coded, c) = c.flag(dc_ctx(g, cat, mask, mb, sid, g.seg[mb] == Seg::Intra));
    if is_coded {
        (g.put_cbp(mb, g.cbp[mb] | mask), bins(c, cat).1)
    } else {
        (g, c)
    }
}

fn residual_dc(g: &mut FrameGrids, cd: &mut Cabd, cat: Cat, mask: u16, mb: usize, sid: i32)
    requires
        old(g)@.wf(),
        mb < old(g)@.mbs(),
    ensures
        (final(g)@, final(cd)@) == dc_block(old(g)@, old(cd)@, cat, mask, mb as int, sid),
        final(g)@.like(old(g)@),
{
    proof {
        reveal(dc_block);
    }
    let is_intra = g.seg_of(mb) == Seg::Intra;
    let ctx = cbf_ctx_dc(g, cat, mask, mb, sid, is_intra);
    if cd.flag(ctx) {
        g.put_cbp(mb, g.cbp_of(mb) | mask);
        let _count = residual_bins(cd, cat);
    }
}

// ---------------------------------------------------------------------------
// Luma

/// Luma 4x4 blocks `idx..end` in coding order.
pub open spec fn luma_blocks(g: GridsV, c: Cab, cat: Cat, mb: int, sid: i32, idx: int, end: int) -> (
    GridsV,
    Cab,
)
    decreases end - idx,
{
    if idx >= end {
        (g, c)
    } else {
        let (x, y) = block_at(idx);
        let (n, c) = flagged(c, cat, luma_ctx(g, cat, mb, x, y, sid, g.seg[mb] == Seg::Intra));
        luma_blocks(g.put_nnz(mb, x, y, 1, 1, n), c, cat, mb, sid, idx + 1, end)
    }
}

fn residual_luma_blocks(
    g: &mut FrameGrids,
    cd: &mut Cabd,
    cat: Cat,
    mb: usize,
    sid: i32,
    start: usize,
    end: usize,
)
    requires
        old(g)@.wf(),
        mb < old(g)@.mbs(),
        start <= end <= 16,
    ensures
        (final(g)@, final(cd)@) == luma_blocks(
            old(g)@,
            old(cd)@,
            cat,
            mb as int,
            sid,
            start as int,
            end as int,
        ),
        final(g)@.like(old(g)@),
{
    let mut idx: usize = start;
    while idx < end
        invariant
            start <= idx <= end <= 16,
            g@.like(old(g)@),
            mb < g@.mbs(),
            luma_blocks(g@, cd@, cat, mb as int, sid, idx as int, end as int) == luma_blocks(
                old(g)@,
                old(cd)@,
                cat,
                mb as int,
                sid,
                start as int,
                end as int,
            ),
        decreases end - idx,
    {
        let (x, y) = block_xy(idx);
        let is_intra = g.seg_of(mb) == Seg::Intra;
        let ctx = cbf_ctx_luma(g, cat, mb, x, y, sid, is_intra);
        let n = residual_flagged(cd, cat, ctx);
        g.put_nnz(mb, x, y, 1, 1, n);
        idx += 1;
    }
}

/// Luma quadrants `q..4` coded in 4x4 blocks.
pub open spec fn quads4(g: GridsV, c: Cab, mb: int, sid: i32, cbp: u32, q: int) -> (GridsV, Cab)
    decreases 4 - q,
{
    if q >= 4 {
        (g, c)
    } else if cbp & (1u32 << (q as u32)) != 0 {
        let (g, c) = luma_blocks(g, c, Cat::Luma4x4, mb, sid, 4 * q, 4 * q + 4);
        quads4(g, c, mb, sid, cbp, q + 1)
    } else {
        quads4(g.put_nnz(mb, q % 2 * 2, q / 2 * 2, 2, 2, 0), c, mb, sid, cbp, q + 1)
    }
}

fn residual_quads4(g: &mut FrameGrids, cd: &mut Cabd, mb: usize, sid: i32, cbp: u32)
    requires
        old(g)@.wf(),
        mb < old(g)@.mbs(),
    ensures
        (final(g)@, final(cd)@) == quads4(old(g)@, old(cd)@, mb as int, sid, cbp, 0),
        final(g)@.like(old(g)@),
{
    let mut q: usize = 0;
    while q < 4
        invariant
            q <= 4,
            g@.like(old(g)@),
            mb < g@.mbs(),
            quads4(g@, cd@, mb as int, sid, cbp, q as int) == quads4(
                old(g)@,
                old(cd)@,
                mb as int,
                sid,
                cbp,
                0,
            ),
        decreases 4 - q,
    {
        if cbp & (1u32 << (q as u32)) != 0 {
            residual_luma_blocks(g, cd, Cat::Luma4x4, mb, sid, 4 * q, 4 * q + 4);
        } else {
            g.put_nnz(mb, q % 2 * 2, q / 2 * 2, 2, 2, 0);
        }
        q += 1;
    }
}

/// Luma quadrants `q..4` coded as one 8x8 block each.
pub open spec fn quads8(g: GridsV, c: Cab, mb: int, cbp: u32, q: int) -> (GridsV, Cab)
    decreases 4 - q,
{
    if q >= 4 {
        (g, c)
    } else {
        let (n, c) = if cbp & (1u32 << (q as u32)) != 0 {
            bins(c, Cat::Luma8x8)
        } else {
            (0, c)
        };
        quads8(g.put_nnz(mb, q % 2 * 2, q / 2 * 2, 2, 2, n), c, mb, cbp, q + 1)
    }
}

fn residual_quads8(g: &mut FrameGrids, cd: &mut Cabd, mb: usize, cbp: u32)
    requires
        old(g)@.wf(),
        mb < old(g)@.mbs(),
    ensures
        (final(g)@, final(cd)@) == quads8(old(g)@, old(cd)@, mb as int, cbp, 0),
        final(g)@.like(old(g)@),
{
    let mut q: usize = 0;
    while q < 4
        invariant
            q <= 4,
            g@.like(old(g)@),
            mb < g@.mbs(),
            quads8(g@, cd@, mb as int, cbp, q as int) == quads8(
                old(g)@,
                old(cd)@,
                mb as int,
                cbp,
                0,
            ),
        decreases 4 - q,
    {
        let n = if cbp & (1u32 << (q as u32)) != 0 {
            residual_bins(cd, Cat::Luma8x8)
        } else {
            0
        };
        g.put_nnz(mb, q % 2 * 2, q / 2 * 2, 2, 2, n);
        q += 1;
    }
}

/// The luma part of a residual. A macroblock with 8x8 transform has been marked so.
#[verifier::opaque]
pub open spec fn luma(g: GridsV, c: Cab, mb: int, sid: i32, is16: bool, cbp: u32) -> (GridsV, Cab) {
    if is16 {
        let (g, c) = dc_block(g, c, Cat::LumaDc16, 0x100, mb, sid);
        if cbp & 15 != 0 {
            luma_blocks(g, c, Cat::LumaAc16, mb, sid, 0, 16)
        } else {
            (g.put_nnz(mb, 0, 0, 4, 4, 0), c)
        }
    } else if g.cbp[mb] & 0x1000 != 0 {
        quads8(g, c, mb, cbp, 0)
    } else {
        quads4(g, c, mb, sid, cbp, 0)
    }
}

pub(crate) fn residual_luma_cabac(
    g: &mut FrameGrids,
    cd: &mut Cabd,
    mb: usize,
    sid: i32,
    is16: bool,
    cbp: u32,
)
    requires
        old(g)@.wf(),
        mb < old(g)@.mbs(),
    ensures
        (final(g)@, final(cd)@) == luma(old(g)@, old(cd)@, mb as int, sid, is16, cbp),
        final(g)@.like(old(g)@),
{
    proof {
        reveal(luma);
    }
    if is16 {
        residual_dc(g, cd, Cat::LumaDc16, 0x100, mb, sid);
        if cbp & 15 != 0 {
            residual_luma_blocks(g, cd, Cat::LumaAc16, mb, sid, 0, 16);
        } else {
            g.put_nnz(mb, 0, 0, 4, 4, 0);
        }
    } else if g.cbp_of(mb) & 0x1000 != 0 {
        residual_quads8(g, cd, mb, cbp);
    } else {
        residual_quads4(g, cd, mb, sid, cbp);
    }
}

// ---------------------------------------------------------------------------
// Chroma

/// Chroma AC blocks `i..2 * cvb` of plane `p`.
pub open spec fn chroma_blocks(g: GridsV, c: Cab, p: int, mb: int, sid: i32, i: int) -> (
    GridsV,
    Cab,
)
    decreases 8 - i,
{
    if i >= 2 * g.cvb || i >= 8 {
        (g, c)
    } else {
        let (n, c) = flagged(
            c,
            Cat::ChromaAc,
            chroma_ctx(g, p, mb, i % 2, i / 2, sid, g.seg[mb] == Seg::Intra),
        );
        chroma_blocks(g.put_nnz_c(p, mb, i % 2, i / 2, 1, 1, n), c, p, mb, sid, i + 1)
    }
}

fn residual_chroma_blocks(g: &mut FrameGrids, cd: &mut Cabd, p: usize, mb: usize, sid: i32)
    requires
        old(g)@.wf(),
        mb < old(g)@.mbs(),
    ensures
        (final(g)@, final(cd)@) == chroma_blocks(
            old(g)@,
            old(cd)@,
            p as int,
            mb as int,
            sid,
            0,
        ),
        final(g)@.like(old(g)@),
{
    let blocks: usize = if g.is_chroma422() {
        8
    } else {
        4
    };
    let mut i: usize = 0;
    while i < blocks
        invariant
            i <= blocks,
            blocks == 2 * g@.cvb,
            blocks <= 8,
            g@.like(old(g)@),
            mb < g@.mbs(),
            chroma_blocks(g@, cd@, p as int, mb as int, sid, i as int) == chroma_blocks(
                old(g)@,
                old(cd)@,
                p as int,
                mb as int,
                sid,
                0,
            ),
        decreases blocks - i,
    {
        let is_intra = g.seg_of(mb) == Seg::Intra;
        let ctx = cbf_ctx_chroma(g, p, mb, i % 2, i / 2, sid, is_intra);
        let n = residual_flagged(cd, Cat::ChromaAc, ctx);
        g.put_nnz_c(p, mb, i % 2, i / 2, 1, 1, n);
        i += 1;
    }
}

/// The chroma part of a residual.
#[verifier::opaque]
pub open spec fn chroma(g: GridsV, c: Cab, mb: int, sid: i32, cbp: u32) -> (GridsV, Cab) {
    let cat = if g.cvb == 4 {
        Cat::ChromaDc422
    } else {
        Cat::ChromaDc
    };
    let (g, c) = if cbp & 0x30 != 0 {
        let (g, c) = dc_block(g, c, cat, 0x40, mb, sid);
        dc_block(g, c, cat, 0x80, mb, sid)
    } else {
        (g, c)
    };
    if cbp & 0x20 != 0 {
        let (g, c) = chroma_blocks(g, c, 0, mb, sid, 0);
        chroma_blocks(g, c, 1, mb, sid, 0)
    } else {
        (g.put_mb_nnz_c(mb, 0), c)
    }
}

pub(crate) fn residual_chroma_cabac(
    g: &mut FrameGrids,
    cd: &mut Cabd,
    mb: usize,
    sid: i32,
    cbp: u32,
)
    requires
        old(g)@.wf(),
        mb < old(g)@.mbs(),
    ensures
        (final(g)@, final(cd)@) == chroma(old(g)@, old(cd)@, mb as int, sid, cbp),
        final(g)@.like(old(g)@),
{
    proof {
        reveal(chroma);
    }
    let cat = if g.is_chroma422() {
        Cat::ChromaDc422
    } else {
        Cat::ChromaDc
    };
    if cbp & 0x30 != 0 {
        residual_dc(g, cd, cat, 0x40, mb, sid);
        residual_dc(g, cd, cat, 0x80, mb, sid);
    }
    if cbp & 0x20 != 0 {
        residual_chroma_blocks(g, cd, 0, mb, sid);
        residual_chroma_blocks(g, cd, 1, mb, sid);
    } else {
        g.put_mb_nnz_c(mb, 0);
    }
}

} // verus!
