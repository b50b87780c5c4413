//! Transform trees of H.265, for synchronisation only.

use super::contexts::{
    Bins, Decoder, CBF_CB_CR_OFFSET, CBF_LUMA_OFFSET, CU_QP_DELTA_OFFSET,
    SPLIT_TRANSFORM_FLAG_OFFSET,
};
use super::frame::MAX_LOG2;
use super::params::{Pps, Sps, SpsV};
use super::residual::{residual, residual_coding, Block};
use super::scan::Scan;
use crate::grid::{one, one_if};
use vstd::prelude::*;

verus! {

/// What the transform tree of a coding unit depends on: whether the unit is intra, undivided, or
/// intra in four parts, whether transform and quantisation are bypassed, how deep the tree may be,
/// and the prediction modes of its luma parts and of chroma.
#[derive(Clone, Copy)]
pub struct Cu {
    pub is_intra: bool,
    pub whole: bool,
    pub intra_split: bool,
    pub bypass: bool,
    pub max_depth: i32,
    pub modes: [u8; 4],
    pub mode_c: u8,
}

// ---------------------------------------------------------------------------
// Quantiser

/// The unary part of `cu_qp_delta_abs`, `n` counted before; only the first bin has its own context.
pub open spec fn qp_prefix(c: Bins, n: int) -> (int, Bins)
    decreases 5 - n,
{
    if n >= 5 {
        (n, c)
    } else {
        let (more, c) = c.flag(CU_QP_DELTA_OFFSET + one_if(n > 0));
        if more {
            qp_prefix(c, n + 1)
        } else {
            (n, c)
        }
    }
}

/// `cu_qp_delta_abs` and its sign.
#[verifier::opaque]
pub open spec fn qp_delta(c: Bins) -> Bins {
    let (n, c) = qp_prefix(c, 0);
    let c = if n >= 5 {
        let (k, c) = c.ones(0, 7);
        c.skip(k as nat)
    } else {
        c
    };
    if n >= 1 {
        c.bypass().1
    } else {
        c
    }
}

fn cu_qp_delta_abs(d: &mut Decoder)
    ensures
        final(d)@ == qp_delta(old(d)@),
{
    proof {
        reveal(qp_delta);
    }
    let ghost whole = qp_prefix(d@, 0);
    let mut n: usize = 0;
    let mut more = d.flag(CU_QP_DELTA_OFFSET);
    while more && n < 4
        invariant
            n <= 4,
            more ==> qp_prefix(d@, n + 1) == whole,
            !more ==> (n as int, d@) == whole,
        decreases 5 - n,
    {
        n += 1;
        more = d.flag(CU_QP_DELTA_OFFSET + 1);
    }
    if more {
        n += 1;
    }
    assert((n as int, d@) == whole);
    if n >= 5 {
        let k = d.ones(0, 7);
        d.skip(k as usize);
    }
    if n >= 1 {
        let _sign = d.bypass();
    }
}

// ---------------------------------------------------------------------------
// Transform unit

/// The scan of an intra block with prediction mode `mode`: nearly horizontal modes scan by columns,
/// nearly vertical ones by rows.
pub open spec fn intra_scan(mode: u8) -> Scan {
    if 6 <= mode <= 14 {
        Scan::Vert
    } else if 22 <= mode <= 30 {
        Scan::Horiz
    } else {
        Scan::Diag
    }
}

fn scan_of_mode(mode: u8) -> (s: Scan)
    ensures
        s == intra_scan(mode),
{
    if 6 <= mode && mode <= 14 {
        Scan::Vert
    } else if 22 <= mode && mode <= 30 {
        Scan::Horiz
    } else {
        Scan::Diag
    }
}

/// Chroma blocks of this unit size are coded with the unit itself.
pub open spec fn own_chroma(sps: SpsV, log2: u32) -> bool {
    sps.chroma_format_idc != 0 && (log2 > 2 || sps.chroma_format_idc == 3)
}

/// The residual blocks of a transform unit: luma, and chroma of the unit itself or, with the last of
/// four small units, of all of them.
#[verifier::opaque]
pub open spec fn unit_blocks(
    c: Bins,
    sps: SpsV,
    pps: Pps,
    cu: Cu,
    log2: u32,
    blk: int,
    mode: u8,
    luma: bool,
    cb: bool,
    cr: bool,
) -> Bins {
    let scanned = cu.is_intra && log2 < 4;
    let scan = if scanned {
        intra_scan(mode)
    } else {
        Scan::Diag
    };
    let scan_c = if scanned {
        intra_scan(cu.mode_c)
    } else {
        Scan::Diag
    };
    let c = if luma {
        residual(c, Block { log2, scan, c_idx: 0, bypass: cu.bypass }, pps)
    } else {
        c
    };
    if own_chroma(sps, log2) || (sps.chroma_format_idc != 0 && blk == 3) {
        let log2_c = if own_chroma(sps, log2) {
            (log2 - 1) as u32
        } else {
            log2
        };
        let c = if cb {
            residual(c, Block { log2: log2_c, scan: scan_c, c_idx: 1, bypass: cu.bypass }, pps)
        } else {
            c
        };
        if cr {
            residual(c, Block { log2: log2_c, scan: scan_c, c_idx: 2, bypass: cu.bypass }, pps)
        } else {
            c
        }
    } else {
        c
    }
}

fn read_unit_blocks(
    d: &mut Decoder,
    sps: &Sps,
    pps: &Pps,
    cu: &Cu,
    log2: u32,
    blk: usize,
    mode: u8,
    luma: bool,
    cb: bool,
    cr: bool,
)
    requires
        2 <= log2 <= MAX_LOG2,
    ensures
        final(d)@ == unit_blocks(
            old(d)@,
            sps@,
            *pps,
            *cu,
            log2,
            blk as int,
            mode,
            luma,
            cb,
            cr,
        ),
{
    proof {
        reveal(unit_blocks);
    }
    let scanned = cu.is_intra && log2 < 4;
    let scan = if scanned {
        scan_of_mode(mode)
    } else {
        Scan::Diag
    };
    let scan_c = if scanned {
        scan_of_mode(cu.mode_c)
    } else {
        Scan::Diag
    };
    if luma {
        residual_coding(d, Block { log2, scan, c_idx: 0, bypass: cu.bypass }, pps);
    }
    let own = sps.chroma_format_idc != 0 && (log2 > 2 || sps.chroma_format_idc == 3);
    if own || (sps.chroma_format_idc != 0 && blk == 3) {
        let log2_c: u32 = if own {
            log2 - 1
        } else {
            log2
        };
        if cb {
            residual_coding(
                d,
                Block { log2: log2_c, scan: scan_c, c_idx: 1, bypass: cu.bypass },
                pps,
            );
        }
        if cr {
            residual_coding(
                d,
                Block { log2: log2_c, scan: scan_c, c_idx: 2, bypass: cu.bypass },
                pps,
            );
        }
    }
}

/// `transform_unit()`: the quantiser, once per quantisation group, and the blocks; nothing where no
/// block is coded.
#[verifier::opaque]
pub open spec fn unit(
    c: Bins,
    sps: SpsV,
    pps: Pps,
    cu: Cu,
    log2: u32,
    blk: int,
    mode: u8,
    luma: bool,
    cb: bool,
    cr: bool,
) -> Bins {
    if luma || cb || cr {
        let c = if pps.cu_qp_delta_enabled_flag && !c.qp_coded {
            qp_delta(c).with_qp_coded(true)
        } else {
            c
        };
        unit_blocks(c, sps, pps, cu, log2, blk, mode, luma, cb, cr)
    } else {
        c
    }
}

fn transform_unit(
    d: &mut Decoder,
    sps: &Sps,
    pps: &Pps,
    cu: &Cu,
    log2: u32,
    blk: usize,
    mode: u8,
    luma: bool,
    cb: bool,
    cr: bool,
)
    requires
        2 <= log2 <= MAX_LOG2,
    ensures
        final(d)@ == unit(old(d)@, sps@, *pps, *cu, log2, blk as int, mode, luma, cb, cr),
{
    proof {
        reveal(unit);
    }
    if luma || cb || cr {
        if pps.cu_qp_delta_enabled_flag && !d.qp_coded() {
            cu_qp_delta_abs(d);
            d.set_qp_coded(true);
        }
        read_unit_blocks(d, sps, pps, cu, log2, blk, mode, luma, cb, cr);
    }
}

// ---------------------------------------------------------------------------
// Transform tree

/// Context of the flag that a block is divided: one per size, where those of 32 samples and more
/// share the first.
pub open spec fn split_ctx(log2: u32) -> int {
    if log2 < 5 {
        5 - log2
    } else {
        0
    }
}

/// Whether a tree node is divided: coded where there is a choice, else forced by its size or by the
/// division of the coding unit.
#[verifier::opaque]
pub open spec fn split(c: Bins, sps: SpsV, cu: Cu, log2: u32, depth: int) -> (bool, Bins) {
    if log2 <= sps.max_tb_log2_size_y && log2 > sps.min_tb_log2_size_y && depth < cu.max_depth && !(
    cu.intra_split && depth == 0) {
        c.flag(SPLIT_TRANSFORM_FLAG_OFFSET + split_ctx(log2))
    } else {
        let inter_split = sps.max_transform_hierarchy_depth_inter == 0 && !cu.is_intra && !cu.whole
            && depth == 0;
        (log2 > sps.max_tb_log2_size_y || (cu.intra_split && depth == 0) || inter_split, c)
    }
}

fn read_split(d: &mut Decoder, sps: &Sps, cu: &Cu, log2: u32, depth: i32) -> (s: bool)
    ensures
        (s, final(d)@) == split(old(d)@, sps@, *cu, log2, depth as int),
{
    proof {
        reveal(split);
    }
    if log2 <= sps.max_tb_log2_size_y && log2 > sps.min_tb_log2_size_y && depth < cu.max_depth && !(
    cu.intra_split && depth == 0) {
        d.flag(SPLIT_TRANSFORM_FLAG_OFFSET + (if log2 < 5 {
            (5 - log2) as usize
        } else {
            0
        }))
    } else {
        let inter_split = sps.max_transform_hierarchy_depth_inter == 0 && !cu.is_intra && !cu.whole
            && depth == 0;
        log2 > sps.max_tb_log2_size_y || (cu.intra_split && depth == 0) || inter_split
    }
}

/// The chroma coded-block flags of a tree node, below a node with flags `cb` and `cr`.
#[verifier::opaque]
pub open spec fn chroma_flags(c: Bins, sps: SpsV, log2: u32, depth: int, cb: bool, cr: bool) -> (
    bool,
    bool,
    Bins,
) {
    if own_chroma(sps, log2) {
        let (cb, c) = if depth == 0 || cb {
            c.flag(CBF_CB_CR_OFFSET + depth)
        } else {
            (cb, c)
        };
        let (cr, c) = if depth == 0 || cr {
            c.flag(CBF_CB_CR_OFFSET + depth)
        } else {
            (cr, c)
        };
        (cb, cr, c)
    } else {
        (cb, cr, c)
    }
}

fn read_chroma_flags(d: &mut Decoder, sps: &Sps, log2: u32, depth: i32, cb: bool, cr: bool) -> (f: (
    bool,
    bool,
))
    requires
        0 <= depth <= MAX_LOG2,
    ensures
        (f.0, f.1, final(d)@) == chroma_flags(old(d)@, sps@, log2, depth as int, cb, cr),
{
    proof {
        reveal(chroma_flags);
    }
    let mut cb = cb;
    let mut cr = cr;
    if sps.chroma_format_idc != 0 && (log2 > 2 || sps.chroma_format_idc == 3) {
        if depth == 0 || cb {
            cb = d.flag(CBF_CB_CR_OFFSET + depth as usize);
        }
        if depth == 0 || cr {
            cr = d.flag(CBF_CB_CR_OFFSET + depth as usize);
        }
    }
    (cb, cr)
}

/// The prediction mode that scans the blocks of a tree node: that of the quarter of the coding unit
/// it lies in, or that of the whole unit.
pub open spec fn node_mode(cu: Cu, depth: int, blk: int, mode: u8) -> u8 {
    if cu.intra_split && depth == 1 {
        cu.modes@[blk]
    } else if !cu.intra_split {
        cu.modes@[0]
    } else {
        mode
    }
}

/// A node that is not divided.
#[verifier::opaque]
pub open spec fn leaf(
    c: Bins,
    sps: SpsV,
    pps: Pps,
    cu: Cu,
    log2: u32,
    depth: int,
    blk: int,
    mode: u8,
    cb: bool,
    cr: bool,
) -> Bins {
    let (luma, c) = if cu.is_intra || depth != 0 || cb || cr {
        c.flag(CBF_LUMA_OFFSET + one_if(depth == 0))
    } else {
        (true, c)
    };
    unit(c, sps, pps, cu, log2, blk, mode, luma, cb, cr)
}

fn read_leaf(
    d: &mut Decoder,
    sps: &Sps,
    pps: &Pps,
    cu: &Cu,
    log2: u32,
    depth: i32,
    blk: usize,
    mode: u8,
    cb: bool,
    cr: bool,
)
    requires
        2 <= log2 <= MAX_LOG2,
    ensures
        final(d)@ == leaf(
            old(d)@,
            sps@,
            *pps,
            *cu,
            log2,
            depth as int,
            blk as int,
            mode,
            cb,
            cr,
        ),
{
    proof {
        reveal(leaf);
    }
    let luma = if cu.is_intra || depth != 0 || cb || cr {
        d.flag(CBF_LUMA_OFFSET + one(depth == 0))
    } else {
        true
    };
    transform_unit(d, sps, pps, cu, log2, blk, mode, luma, cb, cr);
}

/// `transform_tree()`.
pub open spec fn tree(
    c: Bins,
    sps: SpsV,
    pps: Pps,
    cu: Cu,
    log2: u32,
    depth: int,
    blk: int,
    mode: u8,
    cb: bool,
    cr: bool,
) -> Bins
    decreases log2,
{
    let mode = node_mode(cu, depth, blk, mode);
    let (divided, c) = split(c, sps, cu, log2, depth);
    let (cb, cr, c) = chroma_flags(c, sps, log2, depth, cb, cr);
    if divided && log2 > 0 {
        let half = (log2 - 1) as u32;
        let c = tree(c, sps, pps, cu, half, depth + 1, 0, mode, cb, cr);
        let c = tree(c, sps, pps, cu, half, depth + 1, 1, mode, cb, cr);
        let c = tree(c, sps, pps, cu, half, depth + 1, 2, mode, cb, cr);
        tree(c, sps, pps, cu, half, depth + 1, 3, mode, cb, cr)
    } else {
        leaf(c, sps, pps, cu, log2, depth, blk, mode, cb, cr)
    }
}

/// Transform blocks have four samples or more on a side.
pub open spec fn transforms_ok(sps: SpsV) -> bool {
    &&& 2 <= sps.min_tb_log2_size_y
    &&& 2 <= sps.max_tb_log2_size_y
}

/// Steps over a transform tree.
pub fn transform_tree(
    d: &mut Decoder,
    sps: &Sps,
    pps: &Pps,
    cu: &Cu,
    log2: u32,
    depth: i32,
    blk: usize,
    mode: u8,
    cb: bool,
    cr: bool,
)
    requires
        transforms_ok(sps@),
        2 <= log2 <= sps.ctb_log2_size_y <= MAX_LOG2,
        0 <= depth,
        depth + log2 <= MAX_LOG2,
        depth == 0 ==> log2 >= 3,
        blk < 4,
    ensures
        final(d)@ == tree(
            old(d)@,
            sps@,
            *pps,
            *cu,
            log2,
            depth as int,
            blk as int,
            mode,
            cb,
            cr,
        ),
    decreases log2,
{
    let mode = if cu.intra_split && depth == 1 {
        cu.modes[blk]
    } else if !cu.intra_split {
        cu.modes[0]
    } else {
        mode
    };
    let ghost c0 = d@;
    let divided = read_split(d, sps, cu, log2, depth);
    proof {
        reveal(split);
        assert((divided, d@) == split(c0, sps@, *cu, log2, depth as int));
    }
    let (cb, cr) = read_chroma_flags(d, sps, log2, depth, cb, cr);
    if divided {
        let half: u32 = log2 - 1;
        transform_tree(d, sps, pps, cu, half, depth + 1, 0, mode, cb, cr);
        transform_tree(d, sps, pps, cu, half, depth + 1, 1, mode, cb, cr);
        transform_tree(d, sps, pps, cu, half, depth + 1, 2, mode, cb, cr);
        transform_tree(d, sps, pps, cu, half, depth + 1, 3, mode, cb, cr);
    } else {
        read_leaf(d, sps, pps, cu, log2, depth, blk, mode, cb, cr);
    }
}

} // verus!
