//! Slices of H.265.

use super::contexts::{Bins, Decoder};
use super::cu::{coding_quadtree, node_ok, quadtree, sao, sao_param};
use super::env::{Env, EnvV};
use super::export::{export_frame_mvs, exported};
use super::frame::{
    blank_field, geo_of, lemma_side, side, Frame, FrameV, Geo, MvField, MAX_LOG2,
};
use super::motion::Ctb;
use super::params::{ceil_div, Pps, Sps, SpsV};
use super::refs::{FrameMv, FrameMvV, RefInfo, RefV};
use super::slice_header::{HeaderV, SliceHeader, SliceType};
use crate::grid::{all, copy_vec};
use crate::motion::MvCompact;
use vstd::bits::lemma_u32_shl_is_mul;
use vstd::prelude::*;

verus! {

/// How far a slice was decoded: the number of coding tree blocks, and whether they reach the end of
/// the picture.
#[derive(Debug, Clone, Copy)]
pub struct SyncResult {
    pub ctbs: u32,
    pub ok: bool,
}

/// Buffers that are used again from slice to slice. What they hold does not matter.
pub struct HevcScratch {
    pub skip_flag: Vec<u8>,
    pub ct_depth: Vec<u8>,
    pub ipm: Vec<u8>,
    pub mvf_pool: Vec<Vec<MvField>>,
}

impl Default for HevcScratch {
    fn default() -> (s: HevcScratch)
        ensures
            s.mvf_pool@.len() == 0,
    {
        HevcScratch {
            skip_flag: Vec::new(),
            ct_depth: Vec::new(),
            ipm: Vec::new(),
            mvf_pool: Vec::new(),
        }
    }
}

// ---------------------------------------------------------------------------
// Coding tree blocks

/// The neighbours of coding tree block `addr` in a picture `w` blocks wide.
pub open spec fn ctb_at(addr: int, w: int) -> Ctb {
    let (rx, ry) = (addr % w, addr / w);
    Ctb {
        left: rx > 0,
        up: ry > 0,
        up_right: ry > 0 && rx + 1 < w,
        up_left: rx > 0 && ry > 0,
    }
}

/// One coding tree block: whether the slice goes on.
#[verifier::opaque]
pub open spec fn ctb_step(c: Bins, f: FrameV, e: EnvV, addr: int) -> (bool, Bins, FrameV) {
    let w = e.g.ctb_w as int;
    let t = ctb_at(addr, w);
    let c = sao(c, e.sps, e.sh, t);
    quadtree(
        c,
        f,
        e,
        t,
        (addr % w) * e.g.ctb,
        (addr / w) * e.g.ctb,
        e.sps.ctb_log2_size_y,
        0,
    )
}

/// Coding tree block `addr` starts in the picture.
proof fn lemma_ctb_place(e: EnvV, addr: int)
    requires
        e.ok(),
        0 <= addr < e.sps.width_in_ctbs() * e.sps.height_in_ctbs(),
    ensures
        0 < e.g.ctb_w,
        0 <= addr % (e.g.ctb_w as int) < e.g.ctb_w,
        0 <= addr / (e.g.ctb_w as int),
        node_ok(
            e,
            (addr % (e.g.ctb_w as int)) * e.g.ctb,
            (addr / (e.g.ctb_w as int)) * e.g.ctb,
            e.sps.ctb_log2_size_y,
            0,
        ),
{
    let cw = e.sps.width_in_ctbs() as int;
    let ch = e.sps.height_in_ctbs() as int;
    crate::grid::lemma_place(addr, cw, ch);
    let n = e.g.ctb as int;
    let size = e.sps.ctb_size();
    lemma_ctb_size(e.sps.ctb_log2_size_y);
    lemma_last_ctb(e.sps.pic_width_in_luma_samples, size, addr % cw);
    lemma_last_ctb(e.sps.pic_height_in_luma_samples, size, addr / cw);
    vstd::arithmetic::div_mod::lemma_mod_multiples_basic(addr % cw, n);
    vstd::arithmetic::div_mod::lemma_mod_multiples_basic(addr / cw, n);
    assert(0 <= (addr % cw) * n && 0 <= (addr / cw) * n) by (nonlinear_arith)
        requires
            0 <= addr % cw,
            0 <= addr / cw,
            0 < n,
    ;
}

proof fn lemma_ctb_size(k: u32)
    requires
        k <= MAX_LOG2,
    ensures
        1u32.wrapping_shl(k) == side(k),
        1 <= side(k) <= 0x4000_0000,
{
    lemma_side(k);
    lemma_u32_shl_is_mul(1, k);
}

/// A block of a row of blocks that covers `n` samples starts inside them.
proof fn lemma_last_ctb(n: u32, d: u32, i: int)
    requires
        0 < d,
        n + d - 1 <= u32::MAX,
        0 <= i < ceil_div(n, d),
    ensures
        i * d < n,
{
    let q = (n + d - 1) / (d as int);
    vstd::arithmetic::div_mod::lemma_fundamental_div_mod(n + d - 1, d as int);
    assert(0 <= q <= n + d - 1) by (nonlinear_arith)
        requires
            q == (n + d - 1) / (d as int),
            0 < d,
            0 <= n,
    ;
    assert(i * d < n) by (nonlinear_arith)
        requires
            i <= q - 1,
            n + d - 1 == d * q + (n + d - 1) % (d as int),
            0 <= (n + d - 1) % (d as int),
            0 < d,
    ;
}

fn decode_ctb(d: &mut Decoder, f: &mut Frame, e: &Env, addr: u32) -> (more: bool)
    requires
        e@.ok(),
        old(f)@.wf(e.g),
        addr < e@.sps.width_in_ctbs() * e@.sps.height_in_ctbs(),
    ensures
        (more, final(d)@, final(f)@) == ctb_step(old(d)@, old(f)@, e@, addr as int),
        final(f)@.wf(e.g),
{
    proof {
        reveal(ctb_step);
        lemma_ctb_place(e@, addr as int);
    }
    let w = e.g.ctb_w;
    let rx: u32 = addr % w;
    let ry: u32 = addr / w;
    let t = Ctb {
        left: rx > 0,
        up: ry > 0,
        up_right: ry > 0 && rx < w - 1,
        up_left: rx > 0 && ry > 0,
    };
    proof {
        let n = e.g.ctb as int;
        assert(rx > 0 ==> rx * n > 0) by (nonlinear_arith)
            requires
                0 < n,
        ;
        assert(ry > 0 ==> ry * n > 0) by (nonlinear_arith)
            requires
                0 < n,
        ;
        assert(rx <= rx * n && ry <= ry * n) by (nonlinear_arith)
            requires
                1 <= n,
                0 <= rx,
                0 <= ry,
        ;
    }
    sao_param(d, e.sps, e.sh, t);
    let x: i32 = rx as i32 * e.g.ctb;
    let y: i32 = ry as i32 * e.g.ctb;
    coding_quadtree(d, f, e, t, x, y, e.sps.ctb_log2_size_y, 0)
}

/// Coding tree blocks from `addr` on, of `n` in the picture: the one behind the last decoded, and
/// the state there.
pub open spec fn ctbs_from(c: Bins, f: FrameV, e: EnvV, addr: int, n: int) -> (int, Bins, FrameV)
    decreases n - addr,
{
    if addr >= n {
        (addr, c, f)
    } else {
        let (more, c, f) = ctb_step(c, f, e, addr);
        if more {
            ctbs_from(c, f, e, addr + 1, n)
        } else {
            (addr + 1, c, f)
        }
    }
}

fn decode_ctbs(d: &mut Decoder, f: &mut Frame, e: &Env, first: u32, n: u32) -> (end: u32)
    requires
        e@.ok(),
        old(f)@.wf(e.g),
        n == e@.sps.width_in_ctbs() * e@.sps.height_in_ctbs(),
    ensures
        (end as int, final(d)@, final(f)@) == ctbs_from(
            old(d)@,
            old(f)@,
            e@,
            first as int,
            n as int,
        ),
        final(f)@.wf(e.g),
        first <= end,
{
    let mut addr: u32 = first;
    while addr < n
        invariant
            e@.ok(),
            f@.wf(e.g),
            n == e@.sps.width_in_ctbs() * e@.sps.height_in_ctbs(),
            first <= addr,
            ctbs_from(d@, f@, e@, addr as int, n as int) == ctbs_from(
                old(d)@,
                old(f)@,
                e@,
                first as int,
                n as int,
            ),
        decreases n - addr,
    {
        let more = decode_ctb(d, f, e, addr);
        addr += 1;
        if !more {
            return addr;
        }
    }
    addr
}

// ---------------------------------------------------------------------------
// Slices

/// A slice decoded: how far, the state of its blocks, the motion kept of it, and its rows behind
/// those in `out`.
pub struct SliceV {
    pub ctbs: u32,
    pub ok: bool,
    pub f: FrameV,
    pub frame: FrameMvV,
    pub out: Seq<MvCompact>,
}

/// The type of a slice; a dependent segment counts as an I slice.
pub open spec fn type_or_i(t: Option<SliceType>) -> SliceType {
    match t {
        Some(t) => t,
        None => SliceType::I,
    }
}

/// A slice decoded.
pub open spec fn decoded(
    rbsp: Seq<u8>,
    sh: HeaderV,
    sps: SpsV,
    pps: Pps,
    ri: RefV,
    frame_index: i32,
    out: Seq<MvCompact>,
) -> SliceV {
    let g = geo_of(sps);
    let e = EnvV { sps, pps, sh, ri, g };
    let n = sps.width_in_ctbs() * sps.height_in_ctbs();
    let c = Bins::start(
        rbsp,
        sh.data_offset,
        type_or_i(sh.slice_type),
        sh.inter.cabac_init,
        sh.slice_qp,
    );
    let (end, _, f) = ctbs_from(c, FrameV::fresh(g), e, sh.slice_segment_address as int, n);
    SliceV {
        ctbs: (end - sh.slice_segment_address) as u32,
        ok: end == n,
        f,
        frame: FrameMvV {
            poc: ri.poc,
            mvf: f.mvf,
            w: g.pu_w,
            h: g.pu_h,
            lists: ri.lists,
            collocated_list: sh.inter.col_list,
        },
        out: exported(out, f.mvf, g, frame_index),
    }
}

/// A buffer emptied and filled with `n` cells of `value`.
fn refill<T: Copy>(v: &mut Vec<T>, n: usize, value: T)
    ensures
        final(v)@ == all(n as nat, value),
{
    v.clear();
    let mut i: usize = 0;
    while i < n
        invariant
            i <= n,
            v@.len() == i,
            forall|k: int| 0 <= k < i ==> #[trigger] v@[k] == value,
        decreases n - i,
    {
        v.push(value);
        i += 1;
    }
    assert(v@ =~= all(n as nat, value));
}

fn fresh_frame(g: &Geo, scratch: &mut HevcScratch) -> (f: Frame)
    requires
        g.wf(),
    ensures
        f@ == FrameV::fresh(*g),
        f@.wf(*g),
        final(scratch).mvf_pool@ == (if old(scratch).mvf_pool@.len() > 0 {
            old(scratch).mvf_pool@.drop_last()
        } else {
            old(scratch).mvf_pool@
        }),
{
    proof {
        let (cw, ch) = (g.cb_w as int, g.cb_h as int);
        let (pw, ph) = (g.pu_w as int, g.pu_h as int);
        assert(0 <= cw * ch && 0 <= pw * ph) by (nonlinear_arith)
            requires
                0 <= cw,
                0 <= ch,
                0 <= pw,
                0 <= ph,
        ;
    }
    let cbs: usize = g.cb_w * g.cb_h;
    let pus: usize = g.pu_w * g.pu_h;
    let mut skip: Vec<u8> = Vec::new();
    let mut depth: Vec<u8> = Vec::new();
    let mut ipm: Vec<u8> = Vec::new();
    std::mem::swap(&mut skip, &mut scratch.skip_flag);
    std::mem::swap(&mut depth, &mut scratch.ct_depth);
    std::mem::swap(&mut ipm, &mut scratch.ipm);
    let mut mvf: Vec<MvField> = match scratch.mvf_pool.pop() {
        Some(v) => v,
        None => Vec::new(),
    };
    refill(&mut skip, cbs, 0);
    refill(&mut depth, cbs, 0);
    refill(&mut ipm, pus, 1);
    refill(&mut mvf, pus, blank_field());
    Frame { skip, depth, ipm, mvf }
}

/// Decodes a slice and appends its motion vectors to `out`. Returns how far it was decoded, the
/// motion of its picture, and the rows. `scratch` lends buffers.
pub fn decode_slice(
    rbsp: &[u8],
    sh: &SliceHeader,
    sps: &Sps,
    pps: &Pps,
    ri: &RefInfo,
    frame_index: i32,
    out: Vec<MvCompact>,
    scratch: &mut HevcScratch,
) -> (r: (SyncResult, FrameMv, Vec<MvCompact>))
    requires
        sps@.decodable(),
        sh.max_num_merge_cand <= 5,
        ri@.wf(),
    ensures
        ({
            let s = decoded(rbsp@, sh@, sps@, *pps, ri@, frame_index, out@);
            &&& r.0.ctbs == s.ctbs && r.0.ok == s.ok
            &&& r.1@ == s.frame
            &&& r.2@ == s.out
            &&& final(scratch).skip_flag@ == s.f.skip
            &&& final(scratch).ct_depth@ == s.f.depth
            &&& final(scratch).ipm@ == s.f.ipm
        }),
        r.1@.wf(),
        final(scratch).mvf_pool@ == (if old(scratch).mvf_pool@.len() > 0 {
            old(scratch).mvf_pool@.drop_last()
        } else {
            old(scratch).mvf_pool@
        }),
{
    let g = Geo::new(sps);
    let slice_type = match sh.slice_type {
        Some(t) => t,
        None => SliceType::I,
    };
    let mut f = fresh_frame(&g, scratch);
    let e = Env { sps, pps, sh, ri, g };
    let mut d = Decoder::new(rbsp, sh.data_offset, slice_type, sh.cabac_init_flag, sh.slice_qp);
    proof {
        let (a, b) = (sps@.width_in_ctbs() as int, sps@.height_in_ctbs() as int);
        assert(0 <= a * b) by (nonlinear_arith)
            requires
                0 <= a,
                0 <= b,
        ;
    }
    let n: u32 = sps.pic_width_in_ctbs() * sps.pic_height_in_ctbs();
    let end = decode_ctbs(&mut d, &mut f, &e, sh.slice_segment_address, n);
    let mut rows = out;
    export_frame_mvs(&f.mvf, &g, frame_index, &mut rows);
    let Frame { skip, depth, ipm, mvf } = f;
    scratch.skip_flag = skip;
    scratch.ct_depth = depth;
    scratch.ipm = ipm;
    let frame = FrameMv {
        poc: ri.poc,
        tab_mvf: mvf,
        min_pu_width: g.pu_w,
        min_pu_height: g.pu_h,
        ref_poc: [copy_vec(&ri.ref_poc[0]), copy_vec(&ri.ref_poc[1])],
        ref_long: [copy_vec(&ri.ref_long[0]), copy_vec(&ri.ref_long[1])],
        collocated_list: sh.collocated_list,
    };
    (SyncResult { ctbs: end - sh.slice_segment_address, ok: end == n }, frame, rows)
}

} // verus!
