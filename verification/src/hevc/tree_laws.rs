//! How coding trees and transform trees go through their blocks.

use super::contexts::{Bins, CBF_CB_CR_OFFSET, CBF_LUMA_OFFSET, SPLIT_TRANSFORM_FLAG_OFFSET};
use super::cu::{
    coded_unit, node_leaf, node_ok, node_split, quadtree, sao, starts_group, unit, CuPlace,
};
use super::env::EnvV;
use super::export::{block_step, export_from, ExportV};
use super::frame::{
    lemma_multiple, lemma_side, lemma_side_divides, lemma_side_order, side, FrameV, Geo, MvField,
    MAX_LOG2, PF_INTRA,
};
use super::motion::Ctb;
use super::motion_laws::kept_index;
use super::params::{Pps, SpsV};
use super::refs::RefV;
use super::residual::{residual, Block};
use super::scan::Scan;
use super::slice::{ctb_at, ctb_step, ctbs_from, decoded};
use super::slice_header::{HeaderV, SliceType};
use super::transform::{
    chroma_flags, intra_scan, leaf, node_mode, qp_delta, split, tree, unit_blocks, Cu,
};
use crate::motion::MvCompact;
use vstd::prelude::*;

verus! {

// ---------------------------------------------------------------------------
// Coding trees

/// The quarters of a node from number `k` on, row by row: those that start in the picture, as long as the
/// slice goes on.
pub open spec fn quarters_from(
    more: bool,
    c: Bins,
    f: FrameV,
    e: EnvV,
    t: Ctb,
    x: int,
    y: int,
    log2: u32,
    depth: int,
    k: nat,
) -> (bool, Bins, FrameV)
    decreases 4 - k,
{
    if k >= 4 {
        (more, c, f)
    } else {
        let half = side((log2 - 1) as u32);
        let (qx, qy) = (x + (k as int % 2) * half, y + (k as int / 2) * half);
        let (more, c, f) = if more && qx < e.g.w && qy < e.g.h {
            quadtree(c, f, e, t, qx, qy, (log2 - 1) as u32, depth + 1)
        } else {
            (more, c, f)
        };
        quarters_from(more, c, f, e, t, x, y, log2, depth, k + 1)
    }
}

/// A coding tree goes through the quarters of a divided node row by row, and at the lower right corner of
/// the picture it ends. A node that is not divided is a coding unit. The quantiser may be coded again in
/// each node that starts a group.
pub proof fn law_tree_goes_row_by_row(
    c: Bins,
    f: FrameV,
    e: EnvV,
    t: Ctb,
    x: int,
    y: int,
    log2: u32,
    depth: int,
)
    requires
        0 < log2 <= MAX_LOG2,
        0 <= x < e.g.w,
        0 <= y < e.g.h,
    ensures
        ({
            let (divided, c1) = node_split(c, f, e, t, x, y, log2, depth);
            let c2 = if e.pps.cu_qp_delta_enabled_flag && log2 >= e.sps.ctb_log2_size_y.wrapping_sub(
                e.pps.diff_cu_qp_delta_depth,
            ) {
                Bins { qp_coded: false, ..c1 }
            } else {
                c1
            };
            let (more, c3, f3) = quarters_from(true, c2, f, e, t, x, y, log2, depth, 0);
            let n = side(log2);
            let u = CuPlace {
                x: x as i32,
                y: y as i32,
                log2,
                n: n as i32,
                depth: depth as i32,
            };
            quadtree(c, f, e, t, x, y, log2, depth) == if divided {
                (more && !(x + n >= e.g.w && y + n >= e.g.h), c3, f3)
            } else {
                node_leaf(c2, f, e, t, u)
            }
        }),
{
    lemma_side(log2);
    reveal_with_fuel(quarters_from, 5);
    let h = side((log2 - 1) as u32);
    assert(side(log2) / 2 == h);
    assert(0int % 2 == 0 && 1int % 2 == 1 && 2int % 2 == 0 && 3int % 2 == 1);
    assert(0int / 2 == 0 && 1int / 2 == 0 && 2int / 2 == 1 && 3int / 2 == 1);
    assert(0 * h == 0 && 1 * h == h);
}

/// Tree blocks are in raster order, each with its sample-adaptive offsets before it.
pub proof fn law_tree_blocks_in_raster_order(c: Bins, f: FrameV, e: EnvV, addr: int, n: int)
    requires
        addr < n,
    ensures
        ({
            let w = e.g.ctb_w as int;
            let t = ctb_at(addr, w);
            let (more, c1, f1) = quadtree(
                sao(c, e.sps, e.sh, t),
                f,
                e,
                t,
                addr % w * e.g.ctb,
                addr / w * e.g.ctb,
                e.sps.ctb_log2_size_y,
                0,
            );
            ctbs_from(c, f, e, addr, n) == if more {
                ctbs_from(c1, f1, e, addr + 1, n)
            } else {
                (addr + 1, c1, f1)
            }
        }),
{
    reveal(ctb_step);
}

// ---------------------------------------------------------------------------
// Intra slices

/// The part of a node that lies in the picture.
pub open spec fn in_node(g: Geo, x: int, y: int, n: int, sx: int, sy: int) -> bool {
    x <= sx < x + n && y <= sy < y + n && sx < g.w && sy < g.h
}

/// All samples of a node that have a place in the tables are intra.
pub open spec fn all_intra(f: FrameV, g: Geo, x: int, y: int, n: int) -> bool {
    forall|sx: int, sy: int|
        in_node(g, x, y, n, sx, sy) && 0 <= kept_index(g, sx, sy) < f.mvf.len()
            ==> #[trigger] f.mvf[kept_index(g, sx, sy)].pred_flag == PF_INTRA
}

/// What is intra in one state is so in another.
pub open spec fn intra_stays(f: FrameV, h: FrameV) -> bool {
    &&& f.mvf.len() == h.mvf.len()
    &&& forall|i: int|
        0 <= i < f.mvf.len() && f.mvf[i].pred_flag == PF_INTRA ==> (#[trigger] h.mvf[i]).pred_flag
            == PF_INTRA
}

proof fn lemma_leaf_is_intra(c: Bins, f: FrameV, e: EnvV, t: Ctb, u: CuPlace)
    requires
        e.ok(),
        u.ok(e),
        e.sh.slice_type == Some(SliceType::I),
    ensures
        ({
            let h = node_leaf(c, f, e, t, u).2;
            &&& all_intra(h, e.g, u.x as int, u.y as int, u.n as int)
            &&& intra_stays(f, h)
        }),
{
    reveal(node_leaf);
    let h = node_leaf(c, f, e, t, u).2;
    assert forall|sx: int, sy: int|
        in_node(e.g, u.x as int, u.y as int, u.n as int, sx, sy) && 0 <= kept_index(e.g, sx, sy)
            < h.mvf.len() implies #[trigger] h.mvf[kept_index(e.g, sx, sy)].pred_flag == PF_INTRA by {
        lemma_unit_stays(c, f, e, t, u);
        super::syntax_laws::law_intra_units_have_no_motion(c, f, e, t, u, sx, sy);
    }
    lemma_unit_stays(c, f, e, t, u);
}

proof fn lemma_unit_stays(c: Bins, f: FrameV, e: EnvV, t: Ctb, u: CuPlace)
    requires
        e.sh.slice_type == Some(SliceType::I),
    ensures
        intra_stays(f, unit(c, f, e, t, u).1),
{
    reveal(unit);
    reveal(coded_unit);
    reveal(FrameV::put_skip);
    reveal(FrameV::put_depth);
    reveal(FrameV::put_intra);
    assert forall|b: Bins, h: FrameV, part: u8, bypass: bool| h.mvf == f.mvf implies intra_stays(
        f,
        (#[trigger] super::cu::intra_unit(b, h, e, t, u, part, bypass)).1,
    ) by {
        super::syntax_laws::lemma_intra_unit(b, h, e, t, u, part, bypass);
    }
}

/// The part of a coding tree that comes before the end of a slice: in an intra slice, every sample of a
/// node that lies in the picture is intra when the node has been decoded, and the slice can end in it only
/// at the lower right corner of its tree block or of the picture.
pub proof fn law_tree_covers_its_node(
    c: Bins,
    f: FrameV,
    e: EnvV,
    t: Ctb,
    x: int,
    y: int,
    log2: u32,
    depth: int,
)
    requires
        e.ok(),
        node_ok(e, x, y, log2, depth),
        e.sh.slice_type == Some(SliceType::I),
    ensures
        ({
            let (more, c2, h) = quadtree(c, f, e, t, x, y, log2, depth);
            let (n, ctb) = (side(log2), e.g.ctb as int);
            &&& all_intra(h, e.g, x, y, n)
            &&& intra_stays(f, h)
            &&& !more ==> ((x + n) % ctb == 0 || x + n >= e.g.w) && ((y + n) % ctb == 0 || y + n
                >= e.g.h)
        }),
    decreases log2,
{
    let n = side(log2);
    let ctb = e.g.ctb as int;
    lemma_side(log2);
    lemma_side(e.sps.ctb_log2_size_y);
    lemma_side(e.sps.min_cb_log2_size_y);
    lemma_side_order(log2, e.sps.ctb_log2_size_y);
    lemma_side_order(e.sps.min_cb_log2_size_y, log2);
    let (divided, c1) = node_split(c, f, e, t, x, y, log2, depth);
    let c2 = if starts_group(e, log2) {
        c1.with_qp_coded(false)
    } else {
        c1
    };
    reveal(node_split);
    if divided {
        let k = (log2 - 1) as u32;
        let h = side(k);
        lemma_side(k);
        lemma_side_divides(h, n);
        lemma_multiple(x, h, n);
        lemma_multiple(y, h, n);
        lemma_side_divides(n, ctb);
        vstd::arithmetic::div_mod::lemma_mod_self_0(h);
        vstd::arithmetic::div_mod::lemma_add_mod_noop(x, h, h);
        vstd::arithmetic::div_mod::lemma_add_mod_noop(y, h, h);
        vstd::arithmetic::div_mod::lemma_small_mod(0, h as nat);
        lemma_middle(x, h, n, ctb);
        lemma_middle(y, h, n, ctb);
        let (x1, y1) = (x + h, y + h);
        law_tree_covers_its_node(c2, f, e, t, x, y, k, depth + 1);
        let (m0, d0, f0) = quadtree(c2, f, e, t, x, y, k, depth + 1);
        let (m1, d1, f1) = if m0 && x1 < e.g.w {
            law_tree_covers_its_node(d0, f0, e, t, x1, y, k, depth + 1);
            quadtree(d0, f0, e, t, x1, y, k, depth + 1)
        } else {
            (m0, d0, f0)
        };
        let (m2, d2, f2) = if m1 && y1 < e.g.h {
            law_tree_covers_its_node(d1, f1, e, t, x, y1, k, depth + 1);
            quadtree(d1, f1, e, t, x, y1, k, depth + 1)
        } else {
            (m1, d1, f1)
        };
        let (m3, d3, f3) = if m2 && x1 < e.g.w && y1 < e.g.h {
            law_tree_covers_its_node(d2, f2, e, t, x1, y1, k, depth + 1);
            quadtree(d2, f2, e, t, x1, y1, k, depth + 1)
        } else {
            (m2, d2, f2)
        };
        let r = quadtree(c, f, e, t, x, y, log2, depth).2;
        assert(r == f3);
        assert forall|sx: int, sy: int|
            in_node(e.g, x, y, n, sx, sy) && 0 <= kept_index(e.g, sx, sy) < r.mvf.len() implies
            #[trigger] r.mvf[kept_index(e.g, sx, sy)].pred_flag == PF_INTRA by {
            let i = kept_index(e.g, sx, sy);
            if sx < x1 && sy < y1 {
                assert(in_node(e.g, x, y, h, sx, sy));
                assert(f0.mvf[i].pred_flag == PF_INTRA);
            } else if sy < y1 {
                assert(in_node(e.g, x1, y, h, sx, sy));
                assert(f1.mvf[i].pred_flag == PF_INTRA);
            } else if sx < x1 {
                assert(in_node(e.g, x, y1, h, sx, sy));
                assert(f2.mvf[i].pred_flag == PF_INTRA);
            } else {
                assert(in_node(e.g, x1, y1, h, sx, sy));
                assert(f3.mvf[i].pred_flag == PF_INTRA);
            }
        }
    } else {
        let u = CuPlace { x: x as i32, y: y as i32, log2, n: n as i32, depth: depth as i32 };
        assert(u.ok(e));
        lemma_leaf_is_intra(c2, f, e, t, u);
        reveal(node_leaf);
    }
}

/// No block has motion.
pub open spec fn motionless(f: FrameV) -> bool {
    forall|i: int|
        0 <= i < f.mvf.len() ==> (#[trigger] f.mvf[i]).pred_flag == 0 || f.mvf[i].pred_flag
            == PF_INTRA
}

proof fn lemma_tree_motionless(
    c: Bins,
    f: FrameV,
    e: EnvV,
    t: Ctb,
    x: int,
    y: int,
    log2: u32,
    depth: int,
)
    requires
        motionless(f),
        e.sh.slice_type == Some(SliceType::I),
    ensures
        motionless(quadtree(c, f, e, t, x, y, log2, depth).2),
        quadtree(c, f, e, t, x, y, log2, depth).2.mvf.len() == f.mvf.len(),
    decreases log2,
{
    let (divided, c1) = node_split(c, f, e, t, x, y, log2, depth);
    let c2 = if starts_group(e, log2) {
        c1.with_qp_coded(false)
    } else {
        c1
    };
    if divided && log2 > 0 {
        let k = (log2 - 1) as u32;
        let h = side(log2) / 2;
        let (x1, y1) = (x + h, y + h);
        lemma_tree_motionless(c2, f, e, t, x, y, k, depth + 1);
        let (m0, d0, f0) = quadtree(c2, f, e, t, x, y, k, depth + 1);
        lemma_tree_motionless(d0, f0, e, t, x1, y, k, depth + 1);
        let (m1, d1, f1) = if m0 && x1 < e.g.w {
            quadtree(d0, f0, e, t, x1, y, k, depth + 1)
        } else {
            (m0, d0, f0)
        };
        lemma_tree_motionless(d1, f1, e, t, x, y1, k, depth + 1);
        let (m2, d2, f2) = if m1 && y1 < e.g.h {
            quadtree(d1, f1, e, t, x, y1, k, depth + 1)
        } else {
            (m1, d1, f1)
        };
        lemma_tree_motionless(d2, f2, e, t, x1, y1, k, depth + 1);
    } else {
        let u = CuPlace {
            x: x as i32,
            y: y as i32,
            log2,
            n: side(log2) as i32,
            depth: depth as i32,
        };
        reveal(node_leaf);
        reveal(unit);
        reveal(coded_unit);
        reveal(FrameV::put_skip);
        reveal(FrameV::put_depth);
        reveal(FrameV::put_intra);
        assert forall|b: Bins, h: FrameV, part: u8, bypass: bool| h.mvf == f.mvf implies motionless(
            (#[trigger] super::cu::intra_unit(b, h, e, t, u, part, bypass)).1,
        ) && super::cu::intra_unit(b, h, e, t, u, part, bypass).1.mvf.len() == f.mvf.len() by {
            super::syntax_laws::lemma_intra_unit(b, h, e, t, u, part, bypass);
        }
    }
}

proof fn lemma_ctbs_motionless(c: Bins, f: FrameV, e: EnvV, addr: int, n: int)
    requires
        motionless(f),
        e.sh.slice_type == Some(SliceType::I),
    ensures
        motionless(ctbs_from(c, f, e, addr, n).2),
        ctbs_from(c, f, e, addr, n).2.mvf.len() == f.mvf.len(),
    decreases n - addr,
{
    if addr < n {
        reveal(ctb_step);
        let w = e.g.ctb_w as int;
        let t = ctb_at(addr, w);
        lemma_tree_motionless(
            sao(c, e.sps, e.sh, t),
            f,
            e,
            t,
            (addr % w) * e.g.ctb,
            (addr / w) * e.g.ctb,
            e.sps.ctb_log2_size_y,
            0,
        );
        let (more, c1, f1) = ctb_step(c, f, e, addr);
        if more {
            lemma_ctbs_motionless(c1, f1, e, addr + 1, n);
        }
    }
}

proof fn lemma_nothing_to_export(s: ExportV, tab: Seq<MvField>, g: Geo, frame: i32, i: int)
    requires
        0 <= i,
        s.seen.len() == tab.len(),
        forall|k: int|
            0 <= k < tab.len() ==> (#[trigger] tab[k]).pred_flag == 0 || tab[k].pred_flag
                == PF_INTRA,
    ensures
        export_from(s, tab, g, frame, i).out == s.out,
    decreases tab.len() - i,
{
    if i < tab.len() {
        reveal(block_step);
        assert(0u8 & 3 == 0 && 4u8 & 3 == 0) by (bit_vector);
        assert(tab[i].pred_flag & 3 == 0);
        lemma_nothing_to_export(block_step(s, tab, g, frame, i), tab, g, frame, i + 1);
    }
}

/// An I slice gives no rows.
pub proof fn law_intra_slices_give_no_rows(
    rbsp: Seq<u8>,
    sh: HeaderV,
    sps: SpsV,
    pps: Pps,
    ri: RefV,
    frame_index: i32,
    out: Seq<MvCompact>,
)
    requires
        sh.slice_type == Some(SliceType::I),
    ensures
        decoded(rbsp, sh, sps, pps, ri, frame_index, out).out == out,
{
    let g = super::frame::geo_of(sps);
    let e = EnvV { sps, pps, sh, ri, g };
    let c = Bins::start(
        rbsp,
        sh.data_offset,
        super::slice::type_or_i(sh.slice_type),
        sh.inter.cabac_init,
        sh.slice_qp,
    );
    let n = sps.width_in_ctbs() * sps.height_in_ctbs();
    lemma_ctbs_motionless(c, FrameV::fresh(g), e, sh.slice_segment_address as int, n);
    let f = ctbs_from(c, FrameV::fresh(g), e, sh.slice_segment_address as int, n).2;
    lemma_nothing_to_export(
        ExportV { seen: Seq::new(f.mvf.len(), |i: int| false), out },
        f.mvf,
        g,
        frame_index,
        0,
    );
}

/// The middle of a node is not the end of a tree block.
proof fn lemma_middle(x: int, h: int, n: int, ctb: int)
    requires
        0 < h,
        n == 2 * h,
        0 < ctb,
        ctb % n == 0,
        x % n == 0,
    ensures
        (x + h) % ctb != 0,
{
    if (x + h) % ctb == 0 {
        lemma_multiple(x + h, n, ctb);
        vstd::arithmetic::div_mod::lemma_add_mod_noop(x, h, n);
        vstd::arithmetic::div_mod::lemma_small_mod(h as nat, n as nat);
    }
}

// ---------------------------------------------------------------------------
// Transform trees

/// A transform block that is too large is divided, and so is a unit in four parts at the top, and an inter
/// unit in parts where the tree has no depth of its own. One of the smallest size, or of the greatest
/// depth, is not. Otherwise a flag says so, whose context is the size.
pub proof fn law_transform_blocks_are_divided(c: Bins, sps: SpsV, cu: Cu, log2: u32, depth: int)
    requires
        sps.min_tb_log2_size_y <= sps.max_tb_log2_size_y,
        2 <= log2 <= 5 || log2 > sps.max_tb_log2_size_y,
    ensures
        ({
            let r = split(c, sps, cu, log2, depth);
            let large = log2 > sps.max_tb_log2_size_y;
            let four = cu.intra_split && depth == 0;
            let parts = sps.max_transform_hierarchy_depth_inter == 0 && !cu.is_intra && !cu.whole
                && depth == 0;
            let choice = !large && !four && log2 > sps.min_tb_log2_size_y && depth < cu.max_depth;
            let (bin, c1) = c.get(SPLIT_TRANSFORM_FLAG_OFFSET + (5 - log2));
            &&& choice ==> r == (bin == 1, c1)
            &&& !choice ==> r == (large || four || parts, c)
        }),
{
    reveal(split);
}

/// Chroma flags are coded at the top, and below a node that has the flag, for both components; not for
/// luma blocks of 4 samples, which take those of the node above them.
pub proof fn law_chroma_flags(c: Bins, sps: SpsV, log2: u32, depth: int, cb: bool, cr: bool)
    requires
        sps.chroma_format_idc == 1,
        log2 >= 2,
    ensures
        ({
            let (b, r, rest) = chroma_flags(c, sps, log2, depth, cb, cr);
            let ctx = CBF_CB_CR_OFFSET + depth;
            let (bin, c1) = c.get(ctx);
            let (bin2, c2) = c1.get(ctx);
            &&& log2 == 2 ==> b == cb && r == cr && rest == c
            &&& log2 > 2 && (depth == 0 || (cb && cr)) ==> b == (bin == 1) && r == (bin2 == 1)
                && rest == c2
            &&& log2 > 2 && depth != 0 && cb && !cr ==> b == (bin == 1) && !r && rest == c1
            &&& log2 > 2 && depth != 0 && !cb && cr ==> !b && r == (bin == 1) && rest == c1
            &&& log2 > 2 && depth != 0 && !cb && !cr ==> !b && !r && rest == c
        }),
{
    reveal(chroma_flags);
}

/// The quarters of a transform block from number `k` on.
pub open spec fn blocks_from(
    c: Bins,
    sps: SpsV,
    pps: Pps,
    cu: Cu,
    log2: u32,
    depth: int,
    mode: u8,
    cb: bool,
    cr: bool,
    k: int,
) -> Bins
    decreases 4 - k,
{
    if k >= 4 {
        c
    } else {
        blocks_from(
            tree(c, sps, pps, cu, (log2 - 1) as u32, depth + 1, k, mode, cb, cr),
            sps,
            pps,
            cu,
            log2,
            depth,
            mode,
            cb,
            cr,
            k + 1,
        )
    }
}

/// A transform tree has the flags of a node first, and then its quarters in order, or its luma flag and
/// its blocks. An inter unit that is not divided and has no chroma has luma.
pub proof fn law_transform_tree(
    c: Bins,
    sps: SpsV,
    pps: Pps,
    cu: Cu,
    log2: u32,
    depth: int,
    blk: int,
    mode: u8,
    cb: bool,
    cr: bool,
)
    requires
        log2 > 0,
    ensures
        ({
            let (divided, c1) = split(c, sps, cu, log2, depth);
            let (b, r, c2) = chroma_flags(c1, sps, log2, depth, cb, cr);
            let m = node_mode(cu, depth, blk, mode);
            let (bin, c3) = c2.get(
                CBF_LUMA_OFFSET + if depth == 0 {
                    1int
                } else {
                    0int
                },
            );
            let sure = !cu.is_intra && depth == 0 && !b && !r;
            tree(c, sps, pps, cu, log2, depth, blk, mode, cb, cr) == if divided {
                blocks_from(c2, sps, pps, cu, log2, depth, m, b, r, 0)
            } else if sure {
                super::transform::unit(c2, sps, pps, cu, log2, blk, m, true, b, r)
            } else {
                super::transform::unit(c3, sps, pps, cu, log2, blk, m, bin == 1, b, r)
            }
        }),
{
    reveal(leaf);
    reveal_with_fuel(blocks_from, 5);
}

/// A transform unit has nothing where no block is coded. Its quantiser comes first, once in a group, then luma,
/// and then both chroma planes, of half the size. Four luma blocks of 4 samples share the chroma blocks behind
/// the last of them. Small intra blocks are scanned by their mode.
pub proof fn law_transform_unit(
    c: Bins,
    sps: SpsV,
    pps: Pps,
    cu: Cu,
    log2: u32,
    blk: int,
    mode: u8,
    luma: bool,
    cb: bool,
    cr: bool,
)
    requires
        sps.chroma_format_idc == 1,
        log2 >= 2,
    ensures
        ({
            let rest = super::transform::unit(c, sps, pps, cu, log2, blk, mode, luma, cb, cr);
            let c1 = if pps.cu_qp_delta_enabled_flag && !c.qp_coded {
                Bins { qp_coded: true, ..qp_delta(c) }
            } else {
                c
            };
            let by_mode = cu.is_intra && (log2 == 2 || log2 == 3);
            let scan = |m: u8|
                if by_mode {
                    intra_scan(m)
                } else {
                    Scan::Diag
                };
            let block = |d: Bins, on: bool, k: u32, m: u8, c_idx: u32|
                if on {
                    residual(
                        d,
                        Block { log2: k, scan: scan(m), c_idx: c_idx as usize, bypass: cu.bypass },
                        pps,
                    )
                } else {
                    d
                };
            let c2 = block(c1, luma, log2, mode, 0);
            let k = if log2 == 2 {
                2u32
            } else {
                (log2 - 1) as u32
            };
            let chroma = log2 > 2 || blk == 3;
            let c3 = block(block(c2, cb, k, cu.mode_c, 1), cr, k, cu.mode_c, 2);
            &&& !luma && !cb && !cr ==> rest == c
            &&& (luma || cb || cr) && chroma ==> rest == c3
            &&& (luma || cb || cr) && !chroma ==> rest == c2
        }),
{
    reveal(super::transform::unit);
    reveal(unit_blocks);
}

} // verus!
