//! Coded pictures and their decoding.

use super::dpb::{col_pic, frames, h264_col_pic, H264RefFrame, RefFrameV};
use super::grids::{mv_pairs, FrameGrids, GridsV, Seg};
use super::mb_b::{decode_slice_cabac_b, slice_from_b, ColV};
use super::mb_cabac::decode_slice_cabac;
use super::mb_cavlc::{decode_slice, SliceResult};
use super::nal::{Nal, NalView};
use super::params::{
    parse_slice_header_into, slice_header_of, Pps, SliceHeader, SliceType, Sps,
};
use crate::bits::{BitReader, Bits};
use crate::motion::{compact_rows, MvCompact};
use crate::stats::Stats;
use vstd::prelude::*;

verus! {

// ---------------------------------------------------------------------------
// Pictures

/// A coded slice with its parameter sets.
pub struct SliceJob {
    pub nal: Nal,
    pub sps: Sps,
    pub pps: Pps,
}

/// A coded slice with its parameter sets.
pub struct JobV {
    pub nal: NalView,
    pub sps: Sps,
    pub pps: Pps,
}

impl View for SliceJob {
    type V = JobV;

    open spec fn view(&self) -> JobV {
        JobV { nal: self.nal@, sps: self.sps, pps: self.pps }
    }
}

/// The slices of a coded picture that are to be decoded, its number and its size in macroblocks.
/// `poc` is there only where the stream codes it; `nal_ref_idc` is 0 for a picture that is never a
/// reference.
pub struct Picture {
    pub frame_index: i32,
    pub mb_w: usize,
    pub mb_h: usize,
    pub jobs: Vec<SliceJob>,
    pub poc: Option<i32>,
    pub nal_ref_idc: u8,
}

/// A coded picture.
pub struct PictureV {
    pub frame_index: i32,
    pub mb_w: usize,
    pub mb_h: usize,
    pub jobs: Seq<JobV>,
    pub poc: Option<i32>,
    pub nal_ref_idc: u8,
}

/// Slices as they are modelled.
pub open spec fn jobs_of(jobs: Seq<SliceJob>) -> Seq<JobV> {
    Seq::new(jobs.len(), |i: int| jobs[i]@)
}

impl View for Picture {
    type V = PictureV;

    open spec fn view(&self) -> PictureV {
        PictureV {
            frame_index: self.frame_index,
            mb_w: self.mb_w,
            mb_h: self.mb_h,
            jobs: jobs_of(self.jobs@),
            poc: self.poc,
            nal_ref_idc: self.nal_ref_idc,
        }
    }
}

impl PictureV {
    /// The size of the picture can be worked with: sample coordinates fit in 32 bits and block
    /// numbers in a machine word.
    pub open spec fn fits(self) -> bool {
        &&& self.mb_w < 0x800_0000
        &&& self.mb_h < 0x800_0000
        &&& 16 * self.mb_w * self.mb_h <= usize::MAX
    }
}

impl Picture {
    /// Whether the size of the picture can be worked with.
    pub fn fits(&self) -> (r: bool)
        ensures
            r == self@.fits(),
    {
        if self.mb_w >= 0x800_0000 || self.mb_h >= 0x800_0000 {
            return false;
        }
        if self.mb_w == 0 || self.mb_h == 0 {
            assert(16 * self.mb_w * self.mb_h == 0) by (nonlinear_arith)
                requires
                    self.mb_w == 0 || self.mb_h == 0,
            ;
            return true;
        }
        match (16 * self.mb_w).checked_mul(self.mb_h) {
            Some(_) => true,
            None => false,
        }
    }
}

// ---------------------------------------------------------------------------
// Slices

/// Where decoding a picture stands: the grids, the counters, the collocated picture once a B slice
/// has asked for it, and whether there was a B slice.
pub struct PicState {
    pub g: GridsV,
    pub st: Stats,
    pub col: Option<Option<usize>>,
    pub any_b: bool,
}

/// The counters after a slice that ended with `ok` at macroblock `end` of `n`.
pub open spec fn counted(st: Stats, ok: bool, end: int, n: int) -> Stats {
    Stats {
        parse_errors: if ok {
            st.parse_errors
        } else {
            st.parse_errors.wrapping_add(1)
        },
        incomplete: if end != n {
            st.incomplete.wrapping_add(1)
        } else {
            st.incomplete
        },
        ..st
    }
}

fn count_result(st: &mut Stats, res: &SliceResult, first: u32, n: usize)
    requires
        res.mbs_decoded > 0 ==> res.mbs_decoded + first <= n,
    ensures
        *final(st) == counted(*old(st), res.ok, first + res.mbs_decoded, n as int),
{
    if !res.ok {
        st.parse_errors = st.parse_errors.wrapping_add(1);
    }
    if first as usize + res.mbs_decoded != n {
        st.incomplete = st.incomplete.wrapping_add(1);
    }
}

/// The byte at which CABAC slice data start behind a header that ends at bit `pos`.
pub open spec fn byte_behind(pos: int) -> usize {
    ((pos + 7) / 8) as usize
}

fn next_byte(pos: usize) -> (b: usize)
    ensures
        b == byte_behind(pos as int),
{
    pos / 8 + (if pos % 8 != 0 {
        1usize
    } else {
        0
    })
}

/// A B slice can be decoded: decoding them is enabled, and it is CABAC coded with spatial direct
/// prediction on 8x8 blocks in a picture whose order count is known.
pub open spec fn b_supported(j: JobV, sh: SliceHeader, poc: Option<i32>, b_enabled: bool) -> bool {
    b_enabled && j.pps.entropy_coding_mode_flag && sh.direct_spatial_mv_pred_flag
        && j.sps.direct_8x8_inference_flag && poc is Some
}

/// The header of a slice and the reader behind it.
pub open spec fn job_header(j: JobV) -> (SliceHeader, Bits) {
    slice_header_of(
        Bits { data: j.nal.rbsp, pos: 0 },
        j.nal.nal_ref_idc,
        j.nal.nal_unit_type,
        j.sps,
        j.pps,
    )
}

/// A B slice decoded with collocated picture `col`.
#[verifier::opaque]
pub open spec fn b_slice(g: GridsV, st: Stats, j: JobV, sid: i32, col: ColV) -> (GridsV, Stats) {
    let (sh, b) = job_header(j);
    let c = super::contexts::Cab::start(
        j.nal.rbsp,
        byte_behind(b.pos),
        false,
        sh.cabac_init_idc,
        sh.slice_qp,
    );
    let (end, g1, _) = slice_from_b(
        g,
        c,
        sh.first_mb_in_slice as int,
        g.mbs(),
        sh,
        j.pps,
        sid,
        col,
    );
    let st = Stats { b_decoded: st.b_decoded.wrapping_add(1), ..st };
    (g1, counted(st, true, end, g.mbs()))
}

/// A slice that is not a B slice decoded.
#[verifier::opaque]
pub open spec fn p_slice(g: GridsV, st: Stats, j: JobV, sid: i32) -> (GridsV, Stats) {
    let (sh, b) = job_header(j);
    if j.pps.entropy_coding_mode_flag {
        let c = super::contexts::Cab::start(
            j.nal.rbsp,
            byte_behind(b.pos),
            sh.slice_type.intra(),
            sh.cabac_init_idc,
            sh.slice_qp,
        );
        let (end, g1, _) = super::mb_cabac::slice_from(
            g,
            c,
            sh.first_mb_in_slice as int,
            g.mbs(),
            sh,
            j.pps,
            sid,
        );
        let st = Stats { cabac_decoded: st.cabac_decoded.wrapping_add(1), ..st };
        (g1, counted(st, true, end, g.mbs()))
    } else {
        let (ok, end, g1, _) = super::mb_cavlc::slice_from(
            g,
            b,
            sh.first_mb_in_slice as int,
            g.mbs(),
            sh,
            j.pps,
            sid,
        );
        let st = Stats { cavlc_decoded: st.cavlc_decoded.wrapping_add(1), ..st };
        (g1, counted(st, ok, end, g.mbs()))
    }
}

/// The collocated picture: the one found before, or else the one that this slice's counts give.
pub open spec fn found_col(
    s: PicState,
    sh: SliceHeader,
    poc: i32,
    dpb: Seq<RefFrameV>,
) -> Option<usize> {
    match s.col {
        Some(c) => c,
        None => col_pic(
            dpb,
            poc,
            sh.num_ref_idx_l0_active as usize,
            sh.num_ref_idx_l1_active as usize,
        ),
    }
}

/// One slice decoded. A B slice that cannot be decoded is counted.
#[verifier::opaque]
pub open spec fn slice_step(
    s: PicState,
    j: JobV,
    sid: i32,
    poc: Option<i32>,
    dpb: Seq<RefFrameV>,
    b_enabled: bool,
) -> PicState {
    let (sh, _) = job_header(j);
    if sh.slice_type != SliceType::B {
        let (g, st) = p_slice(s.g, s.st, j, sid);
        PicState { g, st, ..s }
    } else {
        let s = PicState { any_b: true, ..s };
        let refused = Stats { unsupported: s.st.unsupported.wrapping_add(1), ..s.st };
        if !b_supported(j, sh, poc, b_enabled) {
            PicState { st: refused, ..s }
        } else {
            let c = found_col(s, sh, poc->0, dpb);
            let s = PicState { col: Some(c), ..s };
            match c {
                None => PicState { st: refused, ..s },
                Some(i) => {
                    let (g, st) = b_slice(s.g, s.st, j, sid, dpb[i as int].col);
                    PicState { g, st, ..s }
                },
            }
        }
    }
}

fn decode_b_job(g: &mut FrameGrids, st: &mut Stats, job: &SliceJob, sid: i32, col: &H264RefFrame)
    requires
        old(g)@.wf(),
    ensures
        (final(g)@, *final(st)) == b_slice(old(g)@, *old(st), job@, sid, col@.col),
        final(g)@.like(old(g)@),
{
    proof {
        reveal(b_slice);
    }
    let mut r = BitReader::new(job.nal.rbsp.as_slice());
    let sh = parse_slice_header_into(&mut r, &job.nal, &job.sps, &job.pps);
    let byte_start = next_byte(r.pos());
    st.b_decoded = st.b_decoded.wrapping_add(1);
    let n = g.mb_count();
    let pic = col.as_col_pic();
    let res = decode_slice_cabac_b(
        g,
        job.nal.rbsp.as_slice(),
        byte_start,
        &sh,
        &job.pps,
        sid,
        &pic,
    );
    count_result(st, &res, sh.first_mb_in_slice, n);
}

fn decode_p_job(g: &mut FrameGrids, st: &mut Stats, job: &SliceJob, sid: i32)
    requires
        old(g)@.wf(),
    ensures
        (final(g)@, *final(st)) == p_slice(old(g)@, *old(st), job@, sid),
        final(g)@.like(old(g)@),
{
    proof {
        reveal(p_slice);
    }
    let mut r = BitReader::new(job.nal.rbsp.as_slice());
    let sh = parse_slice_header_into(&mut r, &job.nal, &job.sps, &job.pps);
    let n = g.mb_count();
    let res = if job.pps.entropy_coding_mode_flag {
        let byte_start = next_byte(r.pos());
        st.cabac_decoded = st.cabac_decoded.wrapping_add(1);
        decode_slice_cabac(
            g,
            job.nal.rbsp.as_slice(),
            byte_start,
            &sh,
            &job.sps,
            &job.pps,
            sid,
        )
    } else {
        st.cavlc_decoded = st.cavlc_decoded.wrapping_add(1);
        decode_slice(g, &mut r, &sh, &job.sps, &job.pps, sid)
    };
    count_result(st, &res, sh.first_mb_in_slice, n);
}

fn decode_job(
    g: &mut FrameGrids,
    st: &mut Stats,
    col: &mut Option<Option<usize>>,
    any_b: &mut bool,
    job: &SliceJob,
    sid: i32,
    poc: Option<i32>,
    dpb: &[H264RefFrame],
    b_enabled: bool,
)
    requires
        old(g)@.wf(),
        *old(col) matches Some(Some(i)) ==> i < dpb@.len(),
    ensures
        (PicState { g: final(g)@, st: *final(st), col: *final(col), any_b: *final(any_b) })
            == slice_step(
            PicState { g: old(g)@, st: *old(st), col: *old(col), any_b: *old(any_b) },
            job@,
            sid,
            poc,
            frames(dpb@),
            b_enabled,
        ),
        final(g)@.like(old(g)@),
        *final(col) matches Some(Some(i)) ==> i < dpb@.len(),
{
    proof {
        reveal(slice_step);
    }
    let mut r = BitReader::new(job.nal.rbsp.as_slice());
    let sh = parse_slice_header_into(&mut r, &job.nal, &job.sps, &job.pps);
    if sh.slice_type != SliceType::B {
        decode_p_job(g, st, job, sid);
        return;
    }
    *any_b = true;
    let supported = b_enabled && job.pps.entropy_coding_mode_flag && sh.direct_spatial_mv_pred_flag
        && job.sps.direct_8x8_inference_flag;
    match poc {
        Some(cur_poc) => {
            if !supported {
                st.unsupported = st.unsupported.wrapping_add(1);
                return;
            }
            let found = match *col {
                Some(c) => c,
                None => h264_col_pic(
                    dpb,
                    cur_poc,
                    sh.num_ref_idx_l0_active as usize,
                    sh.num_ref_idx_l1_active as usize,
                ),
            };
            *col = Some(found);
            match found {
                None => {
                    st.unsupported = st.unsupported.wrapping_add(1);
                },
                Some(i) => {
                    decode_b_job(g, st, job, sid, &dpb[i]);
                },
            }
        },
        None => {
            st.unsupported = st.unsupported.wrapping_add(1);
        },
    }
}

/// Slices `i..` of a picture decoded, numbered by their place.
pub open spec fn slices_from(
    s: PicState,
    jobs: Seq<JobV>,
    i: int,
    poc: Option<i32>,
    dpb: Seq<RefFrameV>,
    b_enabled: bool,
) -> PicState
    decreases jobs.len() - i,
{
    if i >= jobs.len() {
        s
    } else {
        slices_from(
            slice_step(s, jobs[i], i as i32, poc, dpb, b_enabled),
            jobs,
            i + 1,
            poc,
            dpb,
            b_enabled,
        )
    }
}

fn decode_jobs(
    g: &mut FrameGrids,
    st: &mut Stats,
    p: &Picture,
    dpb: &[H264RefFrame],
    b_enabled: bool,
) -> (any_b: bool)
    requires
        old(g)@.wf(),
    ensures
        ({
            let s = slices_from(
                PicState { g: old(g)@, st: *old(st), col: None, any_b: false },
                p@.jobs,
                0,
                p.poc,
                frames(dpb@),
                b_enabled,
            );
            s.g == final(g)@ && s.st == *final(st) && s.any_b == any_b
        }),
        final(g)@.like(old(g)@),
{
    let mut col: Option<Option<usize>> = None;
    let mut any_b = false;
    let mut i: usize = 0;
    let ghost start = PicState { g: g@, st: *st, col, any_b };
    while i < p.jobs.len()
        invariant
            i <= p.jobs@.len(),
            g@.like(old(g)@),
            col matches Some(Some(k)) ==> k < dpb@.len(),
            slices_from(
                PicState { g: g@, st: *st, col, any_b },
                p@.jobs,
                i as int,
                p.poc,
                frames(dpb@),
                b_enabled,
            ) == slices_from(start, p@.jobs, 0, p.poc, frames(dpb@), b_enabled),
        decreases p.jobs@.len() - i,
    {
        assert(p@.jobs[i as int] == p.jobs@[i as int]@);
        decode_job(g, st, &mut col, &mut any_b, &p.jobs[i], i as i32, p.poc, dpb, b_enabled);
        i += 1;
    }
    any_b
}

// ---------------------------------------------------------------------------
// Pictures

/// Some of the slices are CABAC coded.
pub open spec fn any_cabac(jobs: Seq<JobV>) -> bool {
    exists|i: int| 0 <= i < jobs.len() && (#[trigger] jobs[i]).pps.entropy_coding_mode_flag
}

fn has_cabac(jobs: &Vec<SliceJob>) -> (r: bool)
    ensures
        r == any_cabac(jobs_of(jobs@)),
{
    let mut i: usize = 0;
    while i < jobs.len()
        invariant
            i <= jobs@.len(),
            forall|k: int|
                0 <= k < i ==> !(#[trigger] jobs_of(jobs@)[k]).pps.entropy_coding_mode_flag,
        decreases jobs@.len() - i,
    {
        assert(jobs_of(jobs@)[i as int] == jobs@[i as int]@);
        if jobs[i].pps.entropy_coding_mode_flag {
            return true;
        }
        i += 1;
    }
    false
}

/// Grids for a picture: those of the previous one made ready, where they have the same size and
/// chroma format, or else new ones.
pub open spec fn prepared(
    grid: Option<GridsV>,
    mb_w: int,
    mb_h: int,
    chroma422: bool,
    cabac: bool,
) -> GridsV {
    match grid {
        Some(g) => if g.mb_w == mb_w && g.mb_h == mb_h && (g.cvb == 4) == chroma422 {
            g.after_reset(cabac)
        } else {
            GridsV::fresh(mb_w, mb_h, chroma422)
        },
        None => GridsV::fresh(mb_w, mb_h, chroma422),
    }
}

/// The grids that are kept between pictures.
pub open spec fn grid_of(g: Option<FrameGrids>) -> Option<GridsV> {
    match g {
        Some(g) => Some(g@),
        None => None,
    }
}

fn prepare(
    grid: Option<FrameGrids>,
    mb_w: usize,
    mb_h: usize,
    chroma422: bool,
    cabac: bool,
) -> (g: FrameGrids)
    requires
        grid matches Some(g) ==> g@.wf(),
        mb_w < 0x800_0000,
        mb_h < 0x800_0000,
        16 * mb_w * mb_h <= usize::MAX,
    ensures
        g@ == prepared(grid_of(grid), mb_w as int, mb_h as int, chroma422, cabac),
        g@.wf(),
{
    match grid {
        Some(g) => {
            let mut g = g;
            let (w, h) = g.dims();
            if w == mb_w && h == mb_h && g.is_chroma422() == chroma422 {
                g.reset(cabac);
                g
            } else {
                FrameGrids::new(mb_w, mb_h, chroma422)
            }
        },
        None => FrameGrids::new(mb_w, mb_h, chroma422),
    }
}

/// What is kept of a reference picture. List 1 is kept of a picture with B slices.
pub open spec fn ref_frame(g: GridsV, poc: i32, any_b: bool) -> RefFrameV {
    RefFrameV {
        poc,
        col: ColV {
            bw: (4 * g.mb_w) as usize,
            mv0: mv_pairs(g.l0.mv),
            refi0: g.l0.refi,
            mv1: if any_b {
                Some(mv_pairs(g.l1.mv))
            } else {
                None
            },
            refi1: if any_b {
                Some(g.l1.refi)
            } else {
                None
            },
            col_shape: g.seg.map_values(|s: Seg| s.shape()),
        },
    }
}

fn keep_frame(g: &FrameGrids, poc: i32, any_b: bool) -> (f: H264RefFrame)
    requires
        g@.wf(),
    ensures
        f@ == ref_frame(g@, poc, any_b),
{
    let (bw, mv, refi) = g.mv_refi_snapshot();
    let col_shape = g.col_shape_snapshot();
    let (mv1, refi1) = if any_b {
        let (mv1, refi1) = g.mv_refi1_snapshot();
        (Some(mv1), Some(refi1))
    } else {
        (None, None)
    };
    H264RefFrame { poc, bw, mv, refi, mv1, refi1, col_shape }
}

/// The reference pictures with one more, the oldest dropped beyond 16.
pub open spec fn retained<T>(dpb: Seq<T>, f: T) -> Seq<T> {
    let d = dpb.push(f);
    if d.len() > 16 {
        d.drop_first()
    } else {
        d
    }
}

/// The state after decoding a picture: counters, reference pictures, grids; and the rows exported.
pub struct Decoded {
    pub st: Stats,
    pub dpb: Seq<RefFrameV>,
    pub grid: Option<GridsV>,
    pub rows: Seq<MvCompact>,
}

/// A picture decoded. One without slices to decode changes nothing and exports nothing.
pub open spec fn decoded(
    p: PictureV,
    grid: Option<GridsV>,
    st: Stats,
    dpb: Seq<RefFrameV>,
    b_enabled: bool,
    l0_only: bool,
) -> Decoded {
    if p.jobs.len() == 0 {
        Decoded { st, dpb, grid, rows: Seq::empty() }
    } else {
        let g = prepared(
            grid,
            p.mb_w as int,
            p.mb_h as int,
            p.jobs[0].sps.chroma_format_idc == 2,
            any_cabac(p.jobs),
        );
        let s = slices_from(
            PicState { g, st, col: None, any_b: false },
            p.jobs,
            0,
            p.poc,
            dpb,
            b_enabled,
        );
        Decoded {
            st: s.st,
            dpb: if b_enabled && p.nal_ref_idc != 0 && p.poc is Some {
                retained(dpb, ref_frame(s.g, p.poc->0, s.any_b))
            } else {
                dpb
            },
            grid: Some(s.g),
            rows: compact_rows(s.g.rows(), p.frame_index, l0_only),
        }
    }
}

fn retain(dpb: &mut Vec<H264RefFrame>, f: H264RefFrame)
    ensures
        frames(final(dpb)@) == retained(frames(old(dpb)@), f@),
{
    let ghost before = dpb@;
    dpb.push(f);
    assert(frames(dpb@) =~= frames(before).push(f@));
    if dpb.len() > 16 {
        let ghost full = dpb@;
        let _oldest = dpb.remove(0);
        assert(frames(dpb@) =~= frames(full).drop_first());
    }
}

/// Decodes the slices of a picture and appends its motion vectors to `out`. `grid` and `dpb` carry
/// the grids and the reference pictures from picture to picture.
pub fn decode_picture(
    p: &Picture,
    grid: &mut Option<FrameGrids>,
    out: &mut Vec<MvCompact>,
    st: &mut Stats,
    dpb: &mut Vec<H264RefFrame>,
    b_enabled: bool,
    l0_only: bool,
)
    requires
        p@.fits(),
        *old(grid) matches Some(g) ==> g@.wf(),
    ensures
        ({
            let d = decoded(
                p@,
                grid_of(*old(grid)),
                *old(st),
                frames(old(dpb)@),
                b_enabled,
                l0_only,
            );
            &&& *final(st) == d.st
            &&& frames(final(dpb)@) == d.dpb
            &&& grid_of(*final(grid)) == d.grid
            &&& final(out)@ == old(out)@ + d.rows
        }),
        *final(grid) matches Some(g) ==> g@.wf(),
{
    if p.jobs.len() == 0 {
        assert(out@ =~= old(out)@ + Seq::<MvCompact>::empty());
        return;
    }
    assert(p@.jobs[0] == p.jobs@[0]@);
    let cabac = has_cabac(&p.jobs);
    let chroma422 = p.jobs[0].sps.chroma_format_idc == 2;
    let mut g = prepare(grid.take(), p.mb_w, p.mb_h, chroma422, cabac);
    let any_b = decode_jobs(&mut g, st, p, dpb, b_enabled);
    g.export_mvs_compact(p.frame_index, l0_only, out);
    if b_enabled && p.nal_ref_idc != 0 {
        if let Some(poc) = p.poc {
            let f = keep_frame(&g, poc, any_b);
            retain(dpb, f);
        }
    }
    *grid = Some(g);
}

// ---------------------------------------------------------------------------
// Laws

/// Decoding keeps at most 16 reference pictures, the latest ones in decoding order.
pub proof fn law_few_references(
    p: PictureV,
    grid: Option<GridsV>,
    st: Stats,
    dpb: Seq<RefFrameV>,
    b_enabled: bool,
    l0_only: bool,
)
    requires
        dpb.len() <= 16,
    ensures
        ({
            let d = decoded(p, grid, st, dpb, b_enabled, l0_only).dpb;
            &&& d.len() <= 16
            &&& d == dpb || (d.len() > 0 && (d.drop_last() == dpb || d.drop_last()
                == dpb.drop_first()))
        }),
{
    let d = decoded(p, grid, st, dpb, b_enabled, l0_only).dpb;
    if d != dpb {
        if dpb.len() < 16 {
            assert(d.drop_last() =~= dpb);
        } else {
            assert(d.drop_last() =~= dpb.drop_first());
        }
    }
}

} // verus!
