//! Pictures decode alike, whatever was decoded before them.

use super::super::contexts::Cab;
use super::super::dpb::RefFrameV;
use super::super::grids::{GridsV, Seg};
use super::super::mb_b::{slice_from_b, ColV};
use super::super::params::SliceType;
use super::super::picture::{
    any_cabac, b_slice, b_supported, byte_behind, decoded, found_col, job_header, p_slice, prepared,
    slice_step, slices_from, JobV, PicState, PictureV,
};
use super::super::stream::numbered;
use super::super::{mb_cabac, mb_cavlc};
use super::bslice::in_b;
use super::relation::{
    alike, alike0, bipred, known, known1, lemma_block_place, lemma_dims, lemma_mb_of, motion, shown,
    vector1, Kind,
};
use super::{bslice, cabac, cavlc};
use crate::motion::{MvCompact, Row};
use crate::reorder::{
    all_rows, arrived, is_order, law_any_order_is_put_right, lemma_order_is_full,
};
use crate::stats::{law_merge_order, Stats};
use vstd::prelude::*;

verus! {

// ---------------------------------------------------------------------------
// Rows

/// The same rows of a macroblock.
proof fn lemma_mb_rows(a: GridsV, b: GridsV, k: Kind, rows: Seq<Row>, mb: int)
    requires
        alike0(a, b, k),
        0 <= mb < k.mbs(),
    ensures
        a.mb_rows(rows, mb) == b.mb_rows(rows, mb),
{
    reveal(GridsV::mb_rows);
    lemma_dims(a, b, k, -1, Set::empty());
    assert(shown(a)) by {
        reveal(alike);
    }
    if a.seg[mb] != Seg::Unset && a.seg[mb] != Seg::Intra {
        lemma_rows_at(a, b, k, mb, 0, 0);
        lemma_rows_at(a, b, k, mb, 0, 2);
        lemma_rows_at(a, b, k, mb, 2, 0);
        lemma_rows_at(a, b, k, mb, 2, 2);
        reveal(GridsV::b_half_rows);
        reveal(GridsV::quad_used);
        lemma_quad_rows(a, b, k, rows, mb);
    }
}

/// The same rows of the quadrants.
proof fn lemma_quad_rows(a: GridsV, b: GridsV, k: Kind, rows: Seq<Row>, mb: int)
    requires
        alike0(a, b, k),
        0 <= mb < k.mbs(),
        a.decoded[mb],
    ensures
        a.quad_rows(rows, mb, true, false, 0) == b.quad_rows(rows, mb, true, false, 0),
        bipred(a.seg[mb]) ==> forall|l0: bool, l1: bool|
            #[trigger] a.quad_rows(rows, mb, l0, l1, 0) == b.quad_rows(rows, mb, l0, l1, 0),
{
    lemma_rows_at(a, b, k, mb, 0, 0);
    lemma_rows_at(a, b, k, mb, 0, 2);
    lemma_rows_at(a, b, k, mb, 2, 0);
    lemma_rows_at(a, b, k, mb, 2, 2);
    reveal_with_fuel(GridsV::quad_rows, 5);
}

/// The same rows of the partitions that start at a block.
proof fn lemma_rows_at(a: GridsV, b: GridsV, k: Kind, mb: int, bx: int, by: int)
    requires
        alike0(a, b, k),
        0 <= mb < k.mbs(),
        a.decoded[mb],
        0 <= bx < 4,
        0 <= by < 4,
    ensures
        forall|w: int, h: int|
            #[trigger] a.row(0, mb, bx, by, w, h) == b.row(0, mb, bx, by, w, h),
        a.used(0, mb, bx, by) == b.used(0, mb, bx, by),
        bipred(a.seg[mb]) ==> forall|w: int, h: int|
            #[trigger] a.row(1, mb, bx, by, w, h) == b.row(1, mb, bx, by, w, h),
        bipred(a.seg[mb]) ==> a.used(1, mb, bx, by) == b.used(1, mb, bx, by),
{
    reveal(alike);
    reveal(GridsV::row);
    reveal(GridsV::block);
    lemma_block_place(a, mb, bx, by);
    let (x, y) = (a.x0(mb, bx), a.y0(mb, by));
    assert(known(a, -1, Set::empty(), x, y));
    assert(motion(a, x, y) == motion(b, x, y));
    if bipred(a.seg[mb]) {
        assert(known1(a, k, -1, Set::empty(), x, y));
        assert(vector1(a, x, y) == vector1(b, x, y));
    }
}

proof fn lemma_rows(a: GridsV, b: GridsV, k: Kind, rows: Seq<Row>, mb: int)
    requires
        alike0(a, b, k),
        0 <= mb,
    ensures
        a.rows_from(rows, mb, k.mbs()) == b.rows_from(rows, mb, k.mbs()),
    decreases k.mbs() - mb,
{
    if mb < k.mbs() {
        lemma_mb_rows(a, b, k, rows, mb);
        lemma_rows(a, b, k, a.mb_rows(rows, mb), mb + 1);
    }
}

// ---------------------------------------------------------------------------
// Preparation

/// New grids are well-formed.
proof fn lemma_fresh_wf(mb_w: int, mb_h: int, chroma422: bool)
    requires
        0 <= mb_w < 0x800_0000,
        0 <= mb_h < 0x800_0000,
        16 * mb_w * mb_h <= usize::MAX,
    ensures
        GridsV::fresh(mb_w, mb_h, chroma422).wf(),
{
    let cvb: int = if chroma422 {
        4
    } else {
        2
    };
    assert((4 * mb_w) * (4 * mb_h) == 16 * mb_w * mb_h) by (nonlinear_arith);
    assert(0 <= (2 * mb_w) * (cvb * mb_h) <= 16 * mb_w * mb_h) by (nonlinear_arith)
        requires
            cvb == 2 || cvb == 4,
            0 <= mb_w,
            0 <= mb_h,
    ;
    assert(0 <= mb_w * mb_h <= 16 * mb_w * mb_h) by (nonlinear_arith)
        requires
            0 <= mb_w,
            0 <= mb_h,
    ;
}

/// Grids made ready are as new ones.
proof fn lemma_prepared(g: Option<GridsV>, k: Kind, chroma422: bool)
    requires
        0 <= k.w < 0x800_0000,
        0 <= k.h < 0x800_0000,
        16 * k.w * k.h <= usize::MAX,
        g matches Some(g) ==> g.wf(),
    ensures
        alike0(
            prepared(g, k.w, k.h, chroma422, k.cabac),
            GridsV::fresh(k.w, k.h, chroma422),
            k,
        ),
{
    lemma_fresh_wf(k.w, k.h, chroma422);
    let a = prepared(g, k.w, k.h, chroma422, k.cabac);
    let b = GridsV::fresh(k.w, k.h, chroma422);
    reveal(alike);
    assert(a.wf());
    assert(a.nnz_l =~= b.nnz_l && a.nnz_cb =~= b.nnz_cb && a.nnz_cr =~= b.nnz_cr);
    assert(a.seg =~= b.seg && a.slice_id =~= b.slice_id && a.decoded =~= b.decoded);
    assert(a.cbp =~= b.cbp && a.chroma_pred =~= b.chroma_pred);
    if k.cabac {
        assert(a.l0.mvd =~= b.l0.mvd && a.l1.mvd =~= b.l1.mvd && a.l1.refi =~= b.l1.refi);
        assert(a.direct =~= b.direct && a.skip =~= b.skip && a.bdirect =~= b.bdirect);
    }
    assert forall|gx: int, gy: int| #[trigger] known(a, -1, Set::empty(), gx, gy) implies motion(
        a,
        gx,
        gy,
    ) == motion(b, gx, gy) by {
        lemma_mb_of(a, gx, gy);
    }
    assert forall|gx: int, gy: int| #[trigger] known1(a, k, -1, Set::empty(), gx, gy) implies vector1(
        a,
        gx,
        gy,
    ) == vector1(b, gx, gy) by {
        lemma_mb_of(a, gx, gy);
    }
}

// ---------------------------------------------------------------------------
// Slices

/// A slice can be decoded on grids that were made ready for this kind of picture.
pub open spec fn suits(j: JobV, k: Kind) -> bool {
    j.pps.entropy_coding_mode_flag ==> k.cabac
}

/// The next slice, which is a B slice where `b` says so.
proof fn lemma_turn(a: GridsV, b: GridsV, k: Kind, k2: Kind)
    requires
        alike0(a, b, k),
        k2.w == k.w && k2.h == k.h && k2.cabac == k.cabac,
        k.used.subset_of(k2.used),
        k2.b matches Some(n) ==> n != -1 && !k.used.contains(n),
    ensures
        alike0(a, b, k2),
{
    reveal(alike);
    assert forall|gx: int, gy: int| #[trigger] known1(a, k2, -1, Set::empty(), gx, gy) implies vector1(
        a,
        gx,
        gy,
    ) == vector1(b, gx, gy) by {
        lemma_mb_of(a, gx, gy);
        assert(known1(a, k, -1, Set::empty(), gx, gy));
    }
}

proof fn lemma_p_slice(a: GridsV, b: GridsV, k: Kind, st: Stats, j: JobV, sid: i32)
    requires
        alike0(a, b, k),
        k.b is None,
        k.used.contains(sid),
        suits(j, k),
    ensures
        ({
            let x = p_slice(a, st, j, sid);
            let y = p_slice(b, st, j, sid);
            x.1 == y.1 && alike0(x.0, y.0, k)
        }),
{
    reveal(p_slice);
    lemma_dims(a, b, k, -1, Set::empty());
    let (sh, r) = job_header(j);
    if j.pps.entropy_coding_mode_flag {
        let c = Cab::start(
            j.nal.rbsp,
            byte_behind(r.pos),
            sh.slice_type.intra(),
            sh.cabac_init_idc,
            sh.slice_qp,
        );
        cabac::lemma_slice(a, b, k, c, sh.first_mb_in_slice as int, k.mbs(), sh, j.pps, sid);
    } else {
        cavlc::lemma_slice(a, b, k, r, sh.first_mb_in_slice as int, k.mbs(), sh, j.pps, sid);
    }
}

proof fn lemma_b_slice(a: GridsV, b: GridsV, k: Kind, st: Stats, j: JobV, sid: i32, col: ColV)
    requires
        alike0(a, b, k),
        in_b(k, sid),
    ensures
        ({
            let x = b_slice(a, st, j, sid, col);
            let y = b_slice(b, st, j, sid, col);
            x.1 == y.1 && alike0(x.0, y.0, k)
        }),
{
    reveal(b_slice);
    lemma_dims(a, b, k, -1, Set::empty());
    let (sh, r) = job_header(j);
    let c = Cab::start(j.nal.rbsp, byte_behind(r.pos), false, sh.cabac_init_idc, sh.slice_qp);
    bslice::lemma_slice(a, b, k, c, sh.first_mb_in_slice as int, k.mbs(), sh, j.pps, sid, col);
}

proof fn lemma_slice_step(
    a: PicState,
    b: PicState,
    k: Kind,
    j: JobV,
    sid: i32,
    poc: Option<i32>,
    da: Seq<RefFrameV>,
    db: Seq<RefFrameV>,
    b_enabled: bool,
)
    requires
        alike0(a.g, b.g, k),
        k.b is None,
        b_enabled ==> sid != -1 && !k.used.contains(sid),
        a.st == b.st,
        a.col == b.col,
        b_enabled ==> da == db,
        suits(j, k),
    ensures
        ({
            let x = slice_step(a, j, sid, poc, da, b_enabled);
            let y = slice_step(b, j, sid, poc, db, b_enabled);
            &&& x.st == y.st
            &&& x.col == y.col
            &&& alike0(x.g, y.g, Kind { used: k.used.insert(sid), ..k })
        }),
{
    reveal(slice_step);
    let k2 = Kind { used: k.used.insert(sid), ..k };
    lemma_turn(a.g, b.g, k, k2);
    let (sh, _) = job_header(j);
    if sh.slice_type != SliceType::B {
        lemma_p_slice(a.g, b.g, k2, a.st, j, sid);
    } else if b_supported(j, sh, poc, b_enabled) {
        let c = found_col(PicState { any_b: true, ..a }, sh, poc->0, da);
        if let Some(i) = c {
            let kb = Kind { b: Some(sid), ..k2 };
            let col = da[i as int].col;
            lemma_turn(a.g, b.g, k, kb);
            lemma_b_slice(a.g, b.g, kb, a.st, j, sid, col);
            let x = b_slice(a.g, a.st, j, sid, col);
            let y = b_slice(b.g, a.st, j, sid, col);
            lemma_turn(x.0, y.0, kb, k2);
        }
    }
}

/// The numbers that the first `i` slices of a picture have had, as far as they matter.
spec fn numbers(i: int, b_enabled: bool) -> Set<i32> {
    if b_enabled {
        Set::new(|n: i32| 0 <= n < i)
    } else {
        Set::full()
    }
}

proof fn lemma_slices(
    a: PicState,
    b: PicState,
    k: Kind,
    jobs: Seq<JobV>,
    i: int,
    poc: Option<i32>,
    da: Seq<RefFrameV>,
    db: Seq<RefFrameV>,
    b_enabled: bool,
)
    requires
        alike0(a.g, b.g, Kind { used: numbers(i, b_enabled), ..k }),
        k.b is None,
        a.st == b.st,
        a.col == b.col,
        b_enabled ==> da == db,
        forall|n: int| 0 <= n < jobs.len() ==> suits(#[trigger] jobs[n], k),
        0 <= i <= jobs.len(),
        b_enabled ==> jobs.len() <= i32::MAX,
    ensures
        ({
            let x = slices_from(a, jobs, i, poc, da, b_enabled);
            let y = slices_from(b, jobs, i, poc, db, b_enabled);
            x.st == y.st && alike0(
                x.g,
                y.g,
                Kind { used: numbers(jobs.len() as int, b_enabled), ..k },
            )
        }),
    decreases jobs.len() - i,
{
    if i < jobs.len() {
        let ki = Kind { used: numbers(i, b_enabled), ..k };
        assert(suits(jobs[i], ki));
        lemma_slice_step(a, b, ki, jobs[i], i as i32, poc, da, db, b_enabled);
        assert(numbers(i, b_enabled).insert(i as i32) =~= numbers(i + 1, b_enabled));
        lemma_slices(
            slice_step(a, jobs[i], i as i32, poc, da, b_enabled),
            slice_step(b, jobs[i], i as i32, poc, db, b_enabled),
            k,
            jobs,
            i + 1,
            poc,
            da,
            db,
            b_enabled,
        );
    }
}

// ---------------------------------------------------------------------------
// Pictures

/// A picture without B slices.
pub open spec fn without_b(p: PictureV) -> bool {
    forall|n: int|
        0 <= n < p.jobs.len() ==> job_header(#[trigger] p.jobs[n]).0.slice_type != SliceType::B
}

/// A picture gives the same rows and the same counts whatever grids it is decoded on, new ones or
/// those of any earlier picture; and without decoding of B slices, whatever reference pictures there
/// are.
pub proof fn law_grids_do_not_matter(
    p: PictureV,
    g1: Option<GridsV>,
    g2: Option<GridsV>,
    st: Stats,
    d1: Seq<RefFrameV>,
    d2: Seq<RefFrameV>,
    b_enabled: bool,
    l0_only: bool,
)
    requires
        p.fits(),
        b_enabled ==> d1 == d2 && p.jobs.len() <= i32::MAX,
        g1 matches Some(g) ==> g.wf(),
        g2 matches Some(g) ==> g.wf(),
    ensures
        ({
            let x = decoded(p, g1, st, d1, b_enabled, l0_only);
            let y = decoded(p, g2, st, d2, b_enabled, l0_only);
            x.rows == y.rows && x.st == y.st
        }),
{
    lemma_as_new(p, g1, st, d1, d2, b_enabled, l0_only);
    lemma_as_new(p, g2, st, d2, d2, b_enabled, l0_only);
}

/// A picture decodes as on new grids, and leaves well-formed ones.
proof fn lemma_as_new(
    p: PictureV,
    g: Option<GridsV>,
    st: Stats,
    d: Seq<RefFrameV>,
    d2: Seq<RefFrameV>,
    b_enabled: bool,
    l0_only: bool,
)
    requires
        p.fits(),
        b_enabled ==> d == d2 && p.jobs.len() <= i32::MAX,
        g matches Some(g) ==> g.wf(),
    ensures
        ({
            let x = decoded(p, g, st, d, b_enabled, l0_only);
            let y = decoded(p, None, st, d2, b_enabled, l0_only);
            &&& x.rows == y.rows && x.st == y.st
            &&& x.grid matches Some(g) ==> g.wf()
        }),
{
    if p.jobs.len() > 0 {
        let chroma422 = p.jobs[0].sps.chroma_format_idc == 2;
        let k = Kind {
            w: p.mb_w as int,
            h: p.mb_h as int,
            cabac: any_cabac(p.jobs),
            used: numbers(0, b_enabled),
            b: None,
        };
        assert forall|n: int| 0 <= n < p.jobs.len() implies suits(#[trigger] p.jobs[n], k) by {}
        assert(Kind { used: numbers(0, b_enabled), ..k } == k);
        lemma_prepared(g, k, chroma422);
        let a = prepared(g, k.w, k.h, chroma422, k.cabac);
        let b = GridsV::fresh(k.w, k.h, chroma422);
        let sa = PicState { g: a, st, col: None, any_b: false };
        let sb = PicState { g: b, st, col: None, any_b: false };
        lemma_slices(sa, sb, k, p.jobs, 0, p.poc, d, d2, b_enabled);
        let x = slices_from(sa, p.jobs, 0, p.poc, d, b_enabled);
        let y = slices_from(sb, p.jobs, 0, p.poc, d2, b_enabled);
        let k2 = Kind { used: numbers(p.jobs.len() as int, b_enabled), ..k };
        lemma_dims(x.g, y.g, k2, -1, Set::empty());
        lemma_rows(x.g, y.g, k2, Seq::empty(), 0);
    }
}

// ---------------------------------------------------------------------------
// Slice by slice

/// A slice decoded, as a B slice where a collocated picture is given: whether it stayed parsable, the
/// macroblock behind the last one decoded, and the grids after it.
pub open spec fn outcome(g: GridsV, j: JobV, col: Option<ColV>, sid: i32) -> (bool, int, GridsV) {
    let (sh, r) = job_header(j);
    let first = sh.first_mb_in_slice as int;
    match col {
        Some(col) => {
            let c = Cab::start(j.nal.rbsp, byte_behind(r.pos), false, sh.cabac_init_idc, sh.slice_qp);
            let (end, g1, _) = slice_from_b(g, c, first, g.mbs(), sh, j.pps, sid, col);
            (true, end, g1)
        },
        None => if j.pps.entropy_coding_mode_flag {
            let c = Cab::start(
                j.nal.rbsp,
                byte_behind(r.pos),
                sh.slice_type.intra(),
                sh.cabac_init_idc,
                sh.slice_qp,
            );
            let (end, g1, _) = mb_cabac::slice_from(g, c, first, g.mbs(), sh, j.pps, sid);
            (true, end, g1)
        } else {
            let (ok, end, g1, _) = mb_cavlc::slice_from(g, r, first, g.mbs(), sh, j.pps, sid);
            (ok, end, g1)
        },
    }
}

/// A slice with its number, and a collocated picture for a B slice.
pub struct NumberedJob {
    pub job: JobV,
    pub col: Option<ColV>,
    pub sid: i32,
}

/// The outcomes of slices `i..`, and the grids after them.
pub open spec fn outcomes(g: GridsV, jobs: Seq<NumberedJob>, i: int) -> (Seq<(bool, int)>, GridsV)
    decreases jobs.len() - i,
{
    if i >= jobs.len() {
        (Seq::empty(), g)
    } else {
        let (ok, end, g1) = outcome(g, jobs[i].job, jobs[i].col, jobs[i].sid);
        let (rest, g2) = outcomes(g1, jobs, i + 1);
        (seq![(ok, end)] + rest, g2)
    }
}

/// Some of the slices are CABAC coded only where `cabac` says so; B slices are.
pub open spec fn of_mode(jobs: Seq<NumberedJob>, cabac: bool) -> bool {
    forall|n: int|
        0 <= n < jobs.len() ==> ((#[trigger] jobs[n]).job.pps.entropy_coding_mode_flag
            || jobs[n].col is Some ==> cabac)
}

/// A B slice has a number that no slice before it has, and not the one that stands for none.
pub open spec fn told_apart(jobs: Seq<NumberedJob>) -> bool {
    &&& forall|n: int|
        0 <= n < jobs.len() && (#[trigger] jobs[n]).col is Some ==> jobs[n].sid != -1
    &&& forall|n: int, m: int|
        0 <= m < n < jobs.len() && (#[trigger] jobs[n]).col is Some ==> (#[trigger] jobs[m]).sid
            != jobs[n].sid
}

/// The numbers of the first `i` slices.
spec fn numbers_of(jobs: Seq<NumberedJob>, i: int) -> Set<i32> {
    Set::new(|n: i32| exists|j: int| 0 <= j < i && (#[trigger] jobs[j]).sid == n)
}

proof fn lemma_outcomes(a: GridsV, b: GridsV, k: Kind, jobs: Seq<NumberedJob>, i: int)
    requires
        alike0(a, b, Kind { used: numbers_of(jobs, i), ..k }),
        k.b is None,
        of_mode(jobs, k.cabac),
        told_apart(jobs),
        0 <= i <= jobs.len(),
    ensures
        outcomes(a, jobs, i).0 == outcomes(b, jobs, i).0,
        alike0(
            outcomes(a, jobs, i).1,
            outcomes(b, jobs, i).1,
            Kind { used: numbers_of(jobs, jobs.len() as int), ..k },
        ),
    decreases jobs.len() - i,
{
    if i < jobs.len() {
        let (j, col, sid) = (jobs[i].job, jobs[i].col, jobs[i].sid);
        let ki = Kind { used: numbers_of(jobs, i), ..k };
        let k2 = Kind { used: numbers_of(jobs, i + 1), ..k };
        assert(numbers_of(jobs, i).subset_of(numbers_of(jobs, i + 1)));
        assert(numbers_of(jobs, i + 1).contains(sid));
        lemma_dims(a, b, ki, -1, Set::empty());
        lemma_turn(a, b, ki, k2);
        let (sh, r) = job_header(j);
        let first = sh.first_mb_in_slice as int;
        let x = outcome(a, j, col, sid);
        let y = outcome(b, j, col, sid);
        assert(x.0 == y.0 && x.1 == y.1 && alike0(x.2, y.2, k2)) by {
            match col {
                Some(col) => {
                    let kb = Kind { b: Some(sid), ..k2 };
                    assert(!numbers_of(jobs, i).contains(sid));
                    lemma_turn(a, b, ki, kb);
                    let c = Cab::start(
                        j.nal.rbsp,
                        byte_behind(r.pos),
                        false,
                        sh.cabac_init_idc,
                        sh.slice_qp,
                    );
                    bslice::lemma_slice(a, b, kb, c, first, k.mbs(), sh, j.pps, sid, col);
                    lemma_turn(x.2, y.2, kb, k2);
                },
                None => if j.pps.entropy_coding_mode_flag {
                    let c = Cab::start(
                        j.nal.rbsp,
                        byte_behind(r.pos),
                        sh.slice_type.intra(),
                        sh.cabac_init_idc,
                        sh.slice_qp,
                    );
                    cabac::lemma_slice(a, b, k2, c, first, k.mbs(), sh, j.pps, sid);
                } else {
                    cavlc::lemma_slice(a, b, k2, r, first, k.mbs(), sh, j.pps, sid);
                },
            }
        }
        lemma_outcomes(x.2, y.2, k, jobs, i + 1);
    }
}

/// Nothing of an earlier picture leaks through a reset: every slice of a new picture comes out on grids
/// that were reset as on new ones of the same size, and so do the rows. The slices can be of both
/// entropy coding modes, where the reset is one for CABAC.
pub proof fn law_reset_leaks_nothing(g: GridsV, jobs: Seq<NumberedJob>, cabac: bool)
    requires
        g.wf(),
        of_mode(jobs, cabac),
        told_apart(jobs),
    ensures
        ({
            let (x, a) = outcomes(g.after_reset(cabac), jobs, 0);
            let (y, b) = outcomes(GridsV::fresh(g.mb_w, g.mb_h, g.cvb == 4), jobs, 0);
            x == y && a.rows() == b.rows()
        }),
{
    let k = Kind { w: g.mb_w, h: g.mb_h, cabac, used: numbers_of(jobs, 0), b: None };
    assert(16 * g.mb_w * g.mb_h == g.cells()) by (nonlinear_arith)
        requires
            g.cells() == (4 * g.mb_w) * (4 * g.mb_h),
    ;
    lemma_prepared(Some(g), k, g.cvb == 4);
    let a = g.after_reset(cabac);
    let b = GridsV::fresh(g.mb_w, g.mb_h, g.cvb == 4);
    lemma_outcomes(a, b, k, jobs, 0);
    let k2 = Kind { used: numbers_of(jobs, jobs.len() as int), ..k };
    let (x, y) = (outcomes(a, jobs, 0).1, outcomes(b, jobs, 0).1);
    lemma_dims(x, y, k2, -1, Set::empty());
    lemma_rows(x, y, k2, Seq::empty(), 0);
}

/// A second reset changes nothing, and a reset keeps size and chroma format.
pub proof fn law_reset_is_idempotent(g: GridsV, cabac: bool)
    ensures
        g.after_reset(cabac).after_reset(cabac) == g.after_reset(cabac),
        g.after_reset(cabac).mb_w == g.mb_w,
        g.after_reset(cabac).mb_h == g.mb_h,
        g.after_reset(cabac).cvb == g.cvb,
{
    let a = g.after_reset(cabac);
    let b = a.after_reset(cabac);
    assert(a.nnz_l =~= b.nnz_l && a.nnz_cb =~= b.nnz_cb && a.nnz_cr =~= b.nnz_cr);
    assert(a.seg =~= b.seg && a.slice_id =~= b.slice_id && a.decoded =~= b.decoded);
    assert(a.cbp =~= b.cbp && a.chroma_pred =~= b.chroma_pred);
    assert(a.l0.mvd =~= b.l0.mvd && a.l1.mvd =~= b.l1.mvd && a.l1.refi =~= b.l1.refi);
    assert(a.direct =~= b.direct && a.skip =~= b.skip && a.bdirect =~= b.bdirect);
    assert(a.l0 == b.l0 && a.l1 == b.l1);
}

// ---------------------------------------------------------------------------
// Counters

/// The counters of a slice add up.
proof fn lemma_slice_counts(g: GridsV, st: Stats, o: Stats, j: JobV, sid: i32)
    ensures
        p_slice(g, st.merged(o), j, sid).0 == p_slice(g, o, j, sid).0,
        p_slice(g, st.merged(o), j, sid).1 == st.merged(p_slice(g, o, j, sid).1),
{
    reveal(p_slice);
}

proof fn lemma_slices_counts(
    s: PicState,
    st: Stats,
    jobs: Seq<JobV>,
    i: int,
    poc: Option<i32>,
    d: Seq<RefFrameV>,
)
    requires
        forall|n: int|
            0 <= n < jobs.len() ==> job_header(#[trigger] jobs[n]).0.slice_type != SliceType::B,
        0 <= i,
    ensures
        ({
            let t = PicState { st: st.merged(s.st), ..s };
            let x = slices_from(s, jobs, i, poc, d, false);
            let y = slices_from(t, jobs, i, poc, d, false);
            x.g == y.g && y.st == st.merged(x.st)
        }),
    decreases jobs.len() - i,
{
    if i < jobs.len() {
        reveal(slice_step);
        let t = PicState { st: st.merged(s.st), ..s };
        lemma_slice_counts(s.g, st, s.st, jobs[i], i as i32);
        let s1 = slice_step(s, jobs[i], i as i32, poc, d, false);
        let t1 = slice_step(t, jobs[i], i as i32, poc, d, false);
        assert(t1 == PicState { st: st.merged(s1.st), ..s1 });
        lemma_slices_counts(s1, st, jobs, i + 1, poc, d);
    }
}

/// The counters of a picture without B slices, added to those before it, are what decoding it
/// counts on top of them.
pub proof fn law_counters_add_up(
    p: PictureV,
    g: Option<GridsV>,
    st: Stats,
    d: Seq<RefFrameV>,
    l0_only: bool,
)
    requires
        without_b(p),
    ensures
        decoded(p, g, st, d, false, l0_only).st == st.merged(
            decoded(p, g, Stats::zero(), d, false, l0_only).st,
        ),
        decoded(p, g, st, d, false, l0_only).rows == decoded(
            p,
            g,
            Stats::zero(),
            d,
            false,
            l0_only,
        ).rows,
{
    assert(st.merged(Stats::zero()) == st);
    if p.jobs.len() > 0 {
        let a = prepared(
            g,
            p.mb_w as int,
            p.mb_h as int,
            p.jobs[0].sps.chroma_format_idc == 2,
            any_cabac(p.jobs),
        );
        let s = PicState { g: a, st: Stats::zero(), col: None, any_b: false };
        lemma_slices_counts(s, st, p.jobs, 0, p.poc, d);
    }
}

// ---------------------------------------------------------------------------
// Sequences of pictures

/// Pictures decoded one after the other on one set of grids: the counters and the rows.
pub open spec fn in_a_row(
    ps: Seq<PictureV>,
    grid: Option<GridsV>,
    st: Stats,
    l0_only: bool,
) -> (Stats, Seq<MvCompact>)
    decreases ps.len(),
{
    if ps.len() == 0 {
        (st, Seq::empty())
    } else {
        let d = decoded(ps[0], grid, st, Seq::empty(), false, l0_only);
        let (st, rows) = in_a_row(ps.drop_first(), d.grid, d.st, l0_only);
        (st, d.rows + rows)
    }
}

/// Pictures decoded apart from each other, each on its own grids: the merged counters and the rows
/// in the order of the pictures.
pub open spec fn apart(
    ps: Seq<PictureV>,
    grids: Seq<Option<GridsV>>,
    st: Stats,
    l0_only: bool,
) -> (Stats, Seq<MvCompact>)
    decreases ps.len(),
{
    if ps.len() == 0 {
        (st, Seq::empty())
    } else {
        let d = decoded(ps[0], grids[0], Stats::zero(), Seq::empty(), false, l0_only);
        let (st, rows) = apart(ps.drop_first(), grids.drop_first(), st.merged(d.st), l0_only);
        (st, d.rows + rows)
    }
}

/// Pictures without B slices give the same rows and counts whether they are decoded one after the
/// other on the same grids, or apart from each other on any grids with the results put in order.
pub proof fn law_order_of_work_does_not_matter(
    ps: Seq<PictureV>,
    grid: Option<GridsV>,
    grids: Seq<Option<GridsV>>,
    st: Stats,
    l0_only: bool,
)
    requires
        forall|i: int|
            0 <= i < ps.len() ==> (#[trigger] ps[i]).fits() && without_b(ps[i]),
        grid matches Some(g) ==> g.wf(),
        grids.len() == ps.len(),
        forall|i: int| 0 <= i < grids.len() ==> (#[trigger] grids[i] matches Some(g) ==> g.wf()),
    ensures
        in_a_row(ps, grid, st, l0_only) == apart(ps, grids, st, l0_only),
    decreases ps.len(),
{
    if ps.len() > 0 {
        let p = ps[0];
        assert(p.fits() && without_b(p));
        assert(grids[0] matches Some(g) ==> g.wf());
        law_counters_add_up(p, grid, st, Seq::empty(), l0_only);
        law_grids_do_not_matter(
            p,
            grid,
            grids[0],
            Stats::zero(),
            Seq::empty(),
            Seq::empty(),
            false,
            l0_only,
        );
        lemma_as_new(p, grid, st, Seq::empty(), Seq::empty(), false, l0_only);
        let d = decoded(p, grid, st, Seq::empty(), false, l0_only);
        let rest = ps.drop_first();
        assert forall|i: int| 0 <= i < rest.len() implies (#[trigger] rest[i]).fits() && without_b(
            rest[i],
        ) by {
            assert(rest[i] == ps[i + 1]);
        }
        let others = grids.drop_first();
        assert forall|i: int| 0 <= i < others.len() implies (#[trigger] others[i] matches Some(g)
            ==> g.wf()) by {
            assert(others[i] == grids[i + 1]);
        }
        law_order_of_work_does_not_matter(rest, d.grid, others, d.st, l0_only);
    }
}

// ---------------------------------------------------------------------------
// Workers

/// The rows of pictures that workers decode apart from each other, each on its own grids.
pub open spec fn worker_rows(
    ps: Seq<PictureV>,
    grids: Seq<Option<GridsV>>,
    l0_only: bool,
) -> Seq<Seq<MvCompact>> {
    Seq::new(
        ps.len(),
        |i: int|
            decoded(ps[i], grids[i], Stats::zero(), Seq::empty(), false, l0_only).rows,
    )
}

/// The counters of pictures that workers decode apart from each other, each on its own grids.
pub open spec fn worker_counts(
    ps: Seq<PictureV>,
    grids: Seq<Option<GridsV>>,
    l0_only: bool,
) -> Seq<Stats> {
    Seq::new(
        ps.len(),
        |i: int| decoded(ps[i], grids[i], Stats::zero(), Seq::empty(), false, l0_only).st,
    )
}

/// The counters `counts[order[0]]`, `counts[order[1]]`, ... up to the `k`-th merged in turn.
pub open spec fn merged_in(counts: Seq<Stats>, order: Seq<int>, k: int, st: Stats) -> Stats
    decreases k,
{
    if k <= 0 {
        st
    } else {
        merged_in(counts, order, k - 1, st).merged(counts[order[k - 1]])
    }
}

/// Those of the first `n` counters that are in `s` merged.
spec fn merged_of(counts: Seq<Stats>, s: Set<int>, n: int, st: Stats) -> Stats
    decreases n,
{
    if n <= 0 {
        st
    } else if s.contains(n - 1) {
        merged_of(counts, s, n - 1, st).merged(counts[n - 1])
    } else {
        merged_of(counts, s, n - 1, st)
    }
}

proof fn lemma_merge_one_more(counts: Seq<Stats>, s: Set<int>, n: int, st: Stats, i: int)
    requires
        !s.contains(i),
        0 <= i,
    ensures
        merged_of(counts, s.insert(i), n, st) == if i < n {
            merged_of(counts, s, n, st).merged(counts[i])
        } else {
            merged_of(counts, s, n, st)
        },
    decreases n,
{
    if n > 0 {
        lemma_merge_one_more(counts, s, n - 1, st, i);
        if i < n - 1 && s.contains(n - 1) {
            law_merge_order(merged_of(counts, s, n - 1, st), counts[i], counts[n - 1]);
        }
    }
}

proof fn lemma_merged_in(counts: Seq<Stats>, order: Seq<int>, k: int, st: Stats)
    requires
        is_order(order, counts.len() as int),
        0 <= k <= order.len(),
    ensures
        merged_in(counts, order, k, st) == merged_of(
            counts,
            order.take(k).to_set(),
            counts.len() as int,
            st,
        ),
    decreases k,
{
    let n = counts.len() as int;
    if k == 0 {
        assert(order.take(0).to_set() =~= Set::empty());
        lemma_merge_none(counts, n, st);
    } else {
        lemma_merged_in(counts, order, k - 1, st);
        let short = order.take(k - 1);
        let long = order.take(k);
        let s = short.to_set();
        let i = order[k - 1];
        assert(!s.contains(i)) by {
            if s.contains(i) {
                let j = choose|j: int| 0 <= j < short.len() && short[j] == i;
                assert(order[j] == order[k - 1]);
            }
        }
        assert(long.to_set() =~= s.insert(i)) by {
            assert forall|x: int| s.insert(i).contains(x) implies long.to_set().contains(x) by {
                if x == i {
                    assert(long[k - 1] == i);
                } else {
                    let j = choose|j: int| 0 <= j < short.len() && short[j] == x;
                    assert(long[j] == x);
                }
            }
            assert forall|x: int| long.to_set().contains(x) implies s.insert(i).contains(x) by {
                let j = choose|j: int| 0 <= j < long.len() && long[j] == x;
                if j < k - 1 {
                    assert(short[j] == x);
                }
            }
        }
        lemma_merge_one_more(counts, s, n, st, i);
    }
}

proof fn lemma_merge_none(counts: Seq<Stats>, n: int, st: Stats)
    ensures
        merged_of(counts, Set::empty(), n, st) == st,
    decreases n,
{
    if n > 0 {
        lemma_merge_none(counts, n - 1, st);
    }
}

/// The counters merged in the order of the pictures.
proof fn lemma_merge_all(counts: Seq<Stats>, s: Set<int>, order: Seq<int>, n: int, st: Stats)
    requires
        forall|i: int| 0 <= i < n ==> s.contains(i),
        forall|i: int| 0 <= i < n ==> #[trigger] order[i] == i,
    ensures
        merged_of(counts, s, n, st) == merged_in(counts, order, n, st),
    decreases n,
{
    if n > 0 {
        lemma_merge_all(counts, s, order, n - 1, st);
        assert(order[n - 1] == n - 1);
    }
}

/// The numbers `0..n` in order.
pub open spec fn ascending(n: nat) -> Seq<int> {
    Seq::new(n, |i: int| i)
}

/// What pictures decoded apart give with one more at the end.
proof fn lemma_apart_last(
    ps: Seq<PictureV>,
    grids: Seq<Option<GridsV>>,
    st: Stats,
    l0_only: bool,
)
    requires
        ps.len() > 0,
        grids.len() == ps.len(),
    ensures
        ({
            let d = decoded(ps.last(), grids.last(), Stats::zero(), Seq::empty(), false, l0_only);
            let (before, rows) = apart(ps.drop_last(), grids.drop_last(), st, l0_only);
            apart(ps, grids, st, l0_only) == (before.merged(d.st), rows + d.rows)
        }),
    decreases ps.len(),
{
    let d0 = decoded(ps[0], grids[0], Stats::zero(), Seq::empty(), false, l0_only);
    let d = decoded(ps.last(), grids.last(), Stats::zero(), Seq::empty(), false, l0_only);
    if ps.len() == 1 {
        assert(ps.drop_first() =~= Seq::empty());
        assert(ps.drop_last() =~= Seq::empty());
        assert(apart(ps.drop_first(), grids.drop_first(), st.merged(d0.st), l0_only) == (
            st.merged(d0.st),
            Seq::<MvCompact>::empty(),
        ));
        assert(d0.rows + Seq::<MvCompact>::empty() =~= Seq::<MvCompact>::empty() + d.rows);
    } else {
        let (p1, g1) = (ps.drop_first(), grids.drop_first());
        lemma_apart_last(p1, g1, st.merged(d0.st), l0_only);
        assert(p1.drop_last() =~= ps.drop_last().drop_first());
        assert(g1.drop_last() =~= grids.drop_last().drop_first());
        assert(ps.drop_last()[0] == ps[0] && grids.drop_last()[0] == grids[0]);
        assert(p1.last() == ps.last() && g1.last() == grids.last());
        let (between, rows) = apart(p1.drop_last(), g1.drop_last(), st.merged(d0.st), l0_only);
        assert(apart(ps.drop_last(), grids.drop_last(), st, l0_only) == (between, d0.rows + rows));
        assert(d0.rows + (rows + d.rows) =~= (d0.rows + rows) + d.rows);
    }
}

proof fn lemma_apart(ps: Seq<PictureV>, grids: Seq<Option<GridsV>>, st: Stats, l0_only: bool, n: int)
    requires
        grids.len() == ps.len(),
        0 <= n <= ps.len(),
    ensures
        apart(ps.take(n), grids.take(n), st, l0_only) == (
            merged_in(worker_counts(ps, grids, l0_only), ascending(ps.len()), n, st),
            all_rows(worker_rows(ps, grids, l0_only), n),
        ),
    decreases n,
{
    if n > 0 {
        lemma_apart(ps, grids, st, l0_only, n - 1);
        lemma_apart_last(ps.take(n), grids.take(n), st, l0_only);
        assert(ps.take(n).drop_last() =~= ps.take(n - 1));
        assert(grids.take(n).drop_last() =~= grids.take(n - 1));
    }
}

/// Workers that decode numbered pictures apart from each other, each on any grids, give what one
/// decoder gives that takes one picture after the other: the rows that are handed on as results
/// arrive, whatever order they arrive in, and the counters merged in that order.
pub proof fn law_workers_give_the_serial_output(
    ps: Seq<PictureV>,
    grid: Option<GridsV>,
    grids: Seq<Option<GridsV>>,
    order: Seq<int>,
    st: Stats,
    l0_only: bool,
)
    requires
        numbered(ps, 0, false),
        forall|i: int| 0 <= i < ps.len() ==> (#[trigger] ps[i]).fits(),
        ps.len() <= i32::MAX,
        grid matches Some(g) ==> g.wf(),
        grids.len() == ps.len(),
        forall|i: int| 0 <= i < grids.len() ==> (#[trigger] grids[i] matches Some(g) ==> g.wf()),
        is_order(order, ps.len() as int),
    ensures
        ({
            let n = ps.len() as int;
            let (serial, rows) = in_a_row(ps, grid, st, l0_only);
            &&& arrived(worker_rows(ps, grids, l0_only), order, n).1 == rows
            &&& merged_in(worker_counts(ps, grids, l0_only), order, n, st) == serial
        }),
{
    let n = ps.len() as int;
    assert forall|i: int| 0 <= i < ps.len() implies (#[trigger] ps[i]).fits() && without_b(ps[i]) by {
        assert(ps[i].frame_index == i && without_b(ps[i]));
    }
    law_order_of_work_does_not_matter(ps, grid, grids, st, l0_only);
    lemma_apart(ps, grids, st, l0_only, n);
    assert(ps.take(n) =~= ps && grids.take(n) =~= grids);
    law_any_order_is_put_right(worker_rows(ps, grids, l0_only), order);
    let counts = worker_counts(ps, grids, l0_only);
    lemma_merged_in(counts, order, n, st);
    let s = order.take(n).to_set();
    assert forall|i: int| 0 <= i < n implies s.contains(i) by {
        lemma_order_is_full(order, n, i);
        let j = choose|j: int| 0 <= j < order.len() && order[j] == i;
        assert(order.take(n)[j] == i);
    }
    lemma_merge_all(counts, s, ascending(ps.len()), n, st);
}

} // verus!
