//! Grids that no decoder can tell apart.

use super::super::grids::{mb_rect, scan_of, GridsV, Nb, Seg, INTRA};
use crate::grid::{in_rect, lemma_cell, lemma_place};
use crate::motion::{zero_mv, Mv};
use vstd::prelude::*;

verus! {

// ---------------------------------------------------------------------------
// The relation

/// List 0 motion of the 4x4 block at column `gx` and row `gy`.
pub open spec fn motion(g: GridsV, gx: int, gy: int) -> Nb {
    Nb { refi: g.l0.refi[g.cell(gx, gy)], mv: g.l0.mv[g.cell(gx, gy)] }
}

/// The macroblock of the block at column `gx` and row `gy`.
pub open spec fn mb_of(g: GridsV, gx: int, gy: int) -> int {
    gx / 4 + gy / 4 * g.mb_w
}

/// The quadrant of its macroblock that the block at column `gx` and row `gy` lies in.
pub open spec fn quad_of(gx: int, gy: int) -> int {
    gx % 4 / 2 + gy % 4 / 2 * 2
}

/// The block at column `gx` and row `gy` has motion: its macroblock is decoded, or it lies in one of
/// the quadrants `s` of macroblock `mb`.
pub open spec fn known(g: GridsV, mb: int, s: Set<int>, gx: int, gy: int) -> bool {
    &&& 0 <= gx < 4 * g.mb_w
    &&& 0 <= gy < 4 * g.mb_h
    &&& g.decoded[mb_of(g, gx, gy)] || (mb_of(g, gx, gy) == mb && s.contains(quad_of(gx, gy)))
}

/// List 1 vector of the 4x4 block at column `gx` and row `gy`.
pub open spec fn vector1(g: GridsV, gx: int, gy: int) -> Mv {
    g.l1.mv[g.cell(gx, gy)]
}

/// The block at column `gx` and row `gy` has a vector of list 1: it is shown with one; it lies in one
/// of the quadrants of macroblock `mb` for which `s` holds 4 and the quadrant's number; or its
/// macroblock is another one of the B slice being decoded.
pub open spec fn known1(g: GridsV, k: Kind, mb: int, s: Set<int>, gx: int, gy: int) -> bool {
    let m = mb_of(g, gx, gy);
    &&& 0 <= gx < 4 * g.mb_w
    &&& 0 <= gy < 4 * g.mb_h
    &&& {
        ||| bipred(g.seg[m])
        ||| m == mb && s.contains(4 + quad_of(gx, gy))
        ||| m != mb && g.decoded[m] && k.b == Some(g.slice_id[m])
    }
}

/// A macroblock of this kind has rows of list 0 alone.
pub open spec fn plain(seg: Seg) -> bool {
    seg == Seg::Skip || seg == Seg::P16x16 || seg == Seg::P16x8 || seg == Seg::P8x16 || seg
        == Seg::P8x8
}

/// A macroblock of this kind can have rows of both lists.
pub open spec fn bipred(seg: Seg) -> bool {
    seg == Seg::B16x16 || seg == Seg::B16x8 || seg == Seg::B8x16 || seg == Seg::B8x8
}

/// Macroblocks with rows are decoded.
pub open spec fn shown(g: GridsV) -> bool {
    forall|m: int|
        0 <= m < g.mbs() ==> (#[trigger] g.seg[m] == Seg::Unset || g.seg[m] == Seg::Intra
            || g.decoded[m])
}

/// The size of a picture in macroblocks, whether what CABAC reads is kept, the numbers that slices have
/// had, and the number of the slice being decoded where it is a B slice.
pub struct Kind {
    pub w: int,
    pub h: int,
    pub cabac: bool,
    pub used: Set<i32>,
    pub b: Option<i32>,
}

impl Kind {
    pub open spec fn mbs(self) -> int {
        self.w * self.h
    }
}

/// Both grids hold the same, but for vectors and, in list 0, reference indices of blocks that have
/// none yet, and but for what CABAC alone reads where that is not kept.
#[verifier::opaque]
pub open spec fn alike(a: GridsV, b: GridsV, k: Kind, mb: int, s: Set<int>) -> bool {
    &&& a.wf()
    &&& b.wf()
    &&& a.mb_w == k.w && a.mb_h == k.h
    &&& b.mb_w == k.w && b.mb_h == k.h
    &&& a.cvb == b.cvb
    &&& a.nnz_l == b.nnz_l && a.nnz_cb == b.nnz_cb && a.nnz_cr == b.nnz_cr
    &&& a.seg == b.seg && a.slice_id == b.slice_id && a.decoded == b.decoded
    &&& a.cbp == b.cbp && a.chroma_pred == b.chroma_pred
    &&& k.cabac ==> a.l0.mvd == b.l0.mvd && a.l1.mvd == b.l1.mvd && a.l1.refi == b.l1.refi
    &&& k.cabac ==> a.direct == b.direct && a.skip == b.skip && a.bdirect == b.bdirect
    &&& shown(a)
    &&& forall|m: int|
        0 <= m < a.mbs() ==> (#[trigger] a.slice_id[m] == -1 || k.used.contains(a.slice_id[m]))
    &&& forall|m: int| 0 <= m < a.mbs() && bipred(#[trigger] a.seg[m]) ==> k.cabac
    &&& forall|gx: int, gy: int|
        #[trigger] known1(a, k, mb, s, gx, gy) ==> vector1(a, gx, gy) == vector1(b, gx, gy)
    &&& forall|gx: int, gy: int|
        #[trigger] known(a, mb, s, gx, gy) ==> motion(a, gx, gy) == motion(b, gx, gy)
}

/// No macroblock is being decoded.
pub open spec fn alike0(a: GridsV, b: GridsV, k: Kind) -> bool {
    alike(a, b, k, -1, Set::empty())
}

/// The quadrants before those that a block at place `scan` can follow.
pub open spec fn ready(s: Set<int>, scan: int) -> bool {
    forall|q: int| 0 <= q < 4 && 4 * q < scan ==> #[trigger] s.contains(q)
}

/// All four quadrants, of list 0.
pub open spec fn whole() -> Set<int> {
    Set::new(|q: int| 0 <= q < 4)
}

/// All four quadrants, of both lists.
pub open spec fn both() -> Set<int> {
    Set::new(|q: int| 0 <= q < 8)
}

/// Quadrant `q` of list 1 is among `s`.
pub open spec fn has1(s: Set<int>, q: int) -> bool {
    s.contains(4 + q)
}

/// The quadrants before those that a block at place `scan` can follow, of list `l`.
pub open spec fn ready_in(s: Set<int>, l: int, scan: int) -> bool {
    if l == 0 {
        ready(s, scan)
    } else {
        forall|q: int| 0 <= q < 4 && 4 * q < scan ==> #[trigger] has1(s, q)
    }
}

/// The quadrants that a rectangle of blocks covers.
pub open spec fn covered(bx: int, by: int, w: int, h: int) -> Set<int> {
    Set::new(
        |q: int|
            0 <= q < 4 && bx <= q % 2 * 2 && q % 2 * 2 + 2 <= bx + w && by <= q / 2 * 2 && q / 2 * 2
                + 2 <= by + h,
    )
}

/// Fewer blocks can be looked at.
pub proof fn lemma_less(a: GridsV, b: GridsV, k: Kind, mb: int, s: Set<int>, mb2: int, t: Set<int>)
    requires
        alike(a, b, k, mb, s),
        t.subset_of(s),
        mb2 != mb ==> t.subset_of(Set::empty()) && (k.b is None || mb == -1 || both().subset_of(s)),
    ensures
        alike(a, b, k, mb2, t),
{
    reveal(alike);
    assert forall|gx: int, gy: int| #[trigger] known(a, mb2, t, gx, gy) implies motion(a, gx, gy)
        == motion(b, gx, gy) by {
        assert(known(a, mb, s, gx, gy));
    }
    assert forall|gx: int, gy: int| #[trigger] known1(a, k, mb2, t, gx, gy) implies vector1(
        a,
        gx,
        gy,
    ) == vector1(b, gx, gy) by {
        lemma_mb_of(a, gx, gy);
        if mb2 != mb && mb_of(a, gx, gy) == mb && !bipred(a.seg[mb]) {
            assert(both().contains(4 + quad_of(gx, gy)));
        }
        assert(known1(a, k, mb, s, gx, gy));
    }
}

pub proof fn lemma_dims(a: GridsV, b: GridsV, k: Kind, mb: int, s: Set<int>)
    requires
        alike(a, b, k, mb, s),
    ensures
        a.wf(),
        b.wf(),
        a.mb_w == b.mb_w,
        a.mb_h == b.mb_h,
        a.cvb == b.cvb,
        a.mbs() == k.mbs(),
        a.seg == b.seg,
        a.cbp == b.cbp,
        a.chroma_pred == b.chroma_pred,
{
    reveal(alike);
}

// ---------------------------------------------------------------------------
// Writes beside motion

pub proof fn lemma_put_nnz(
    a: GridsV,
    b: GridsV,
    k: Kind,
    mb: int,
    s: Set<int>,
    bx: int,
    by: int,
    w: int,
    h: int,
    v: u8,
)
    requires
        alike(a, b, k, mb, s),
    ensures
        alike(a.put_nnz(mb, bx, by, w, h, v), b.put_nnz(mb, bx, by, w, h, v), k, mb, s),
{
    reveal(alike);
    reveal(GridsV::put_nnz);
    reveal(mb_rect);
    lemma_same(a, a.put_nnz(mb, bx, by, w, h, v), k, mb, s);
    lemma_same(b, b.put_nnz(mb, bx, by, w, h, v), k, mb, s);
}

/// Where what is known rests on stays, so does what is known.
proof fn lemma_same(a: GridsV, b: GridsV, k: Kind, mb: int, s: Set<int>)
    requires
        a.mb_w == b.mb_w,
        a.mb_h == b.mb_h,
        a.decoded == b.decoded,
        a.slice_id == b.slice_id,
        a.seg == b.seg,
        a.l0.mv == b.l0.mv,
        a.l0.refi == b.l0.refi,
        a.l1.mv == b.l1.mv,
    ensures
        forall|gx: int, gy: int|
            #[trigger] known(b, mb, s, gx, gy) ==> known(a, mb, s, gx, gy),
        forall|gx: int, gy: int| #[trigger] motion(b, gx, gy) == motion(a, gx, gy),
        forall|gx: int, gy: int|
            #[trigger] known1(b, k, mb, s, gx, gy) ==> known1(a, k, mb, s, gx, gy),
        forall|gx: int, gy: int| #[trigger] vector1(b, gx, gy) == vector1(a, gx, gy),
{
}

pub proof fn lemma_put_nnz_c(
    a: GridsV,
    b: GridsV,
    k: Kind,
    s: Set<int>,
    c: int,
    mb: int,
    bx: int,
    by: int,
    w: int,
    h: int,
    v: u8,
)
    requires
        alike(a, b, k, mb, s),
    ensures
        alike(
            a.put_nnz_c(c, mb, bx, by, w, h, v),
            b.put_nnz_c(c, mb, bx, by, w, h, v),
            k,
            mb,
            s,
        ),
{
    reveal(alike);
    reveal(GridsV::put_nnz_c);
    reveal(mb_rect);
    lemma_same(a, a.put_nnz_c(c, mb, bx, by, w, h, v), k, mb, s);
    lemma_same(b, b.put_nnz_c(c, mb, bx, by, w, h, v), k, mb, s);
}

pub proof fn lemma_put_mb_nnz_c(a: GridsV, b: GridsV, k: Kind, mb: int, s: Set<int>, v: u8)
    requires
        alike(a, b, k, mb, s),
    ensures
        alike(a.put_mb_nnz_c(mb, v), b.put_mb_nnz_c(mb, v), k, mb, s),
{
    reveal(GridsV::put_mb_nnz_c);
    lemma_dims(a, b, k, mb, s);
    lemma_put_nnz_c(a, b, k, s, 0, mb, 0, 0, 2, a.cvb, v);
    lemma_put_nnz_c(
        a.put_nnz_c(0, mb, 0, 0, 2, a.cvb, v),
        b.put_nnz_c(0, mb, 0, 0, 2, a.cvb, v),
        k,
        s,
        1,
        mb,
        0,
        0,
        2,
        a.cvb,
        v,
    );
}

pub proof fn lemma_put_mb_nnz(a: GridsV, b: GridsV, k: Kind, mb: int, s: Set<int>, v: u8)
    requires
        alike(a, b, k, mb, s),
    ensures
        alike(a.put_mb_nnz(mb, v), b.put_mb_nnz(mb, v), k, mb, s),
{
    reveal(GridsV::put_mb_nnz);
    lemma_put_nnz(a, b, k, mb, s, 0, 0, 4, 4, v);
    lemma_put_mb_nnz_c(
        a.put_nnz(mb, 0, 0, 4, 4, v),
        b.put_nnz(mb, 0, 0, 4, 4, v),
        k,
        mb,
        s,
        v,
    );
}

pub proof fn lemma_put_slice(a: GridsV, b: GridsV, k: Kind, mb: int, s: Set<int>, sid: i32)
    requires
        alike(a, b, k, mb, s),
        0 <= mb < k.mbs(),
        k.used.contains(sid),
    ensures
        alike(a.put_slice(mb, sid), b.put_slice(mb, sid), k, mb, s),
{
    reveal(alike);
    reveal(GridsV::put_slice);
    let a1 = a.put_slice(mb, sid);
    let b1 = b.put_slice(mb, sid);
    assert forall|gx: int, gy: int| #[trigger] known(a1, mb, s, gx, gy) implies motion(a1, gx, gy)
        == motion(b1, gx, gy) by {
        assert(known(a, mb, s, gx, gy));
        assert(motion(a, gx, gy) == motion(b, gx, gy));
    }
    assert forall|gx: int, gy: int| #[trigger] known1(a1, k, mb, s, gx, gy) implies vector1(
        a1,
        gx,
        gy,
    ) == vector1(b1, gx, gy) by {
        lemma_mb_of(a, gx, gy);
        assert(known1(a, k, mb, s, gx, gy));
        assert(vector1(a, gx, gy) == vector1(b, gx, gy));
    }
}

pub proof fn lemma_put_cbp(a: GridsV, b: GridsV, k: Kind, mb: int, s: Set<int>, v: u16)
    requires
        alike(a, b, k, mb, s),
        0 <= mb < k.mbs(),
    ensures
        alike(a.put_cbp(mb, v), b.put_cbp(mb, v), k, mb, s),
{
    reveal(alike);
    reveal(GridsV::put_cbp);
    lemma_same(a, a.put_cbp(mb, v), k, mb, s);
    lemma_same(b, b.put_cbp(mb, v), k, mb, s);
}

pub proof fn lemma_put_chroma_pred(a: GridsV, b: GridsV, k: Kind, mb: int, s: Set<int>, v: u8)
    requires
        alike(a, b, k, mb, s),
        0 <= mb < k.mbs(),
    ensures
        alike(a.put_chroma_pred(mb, v), b.put_chroma_pred(mb, v), k, mb, s),
{
    reveal(alike);
    reveal(GridsV::put_chroma_pred);
    lemma_same(a, a.put_chroma_pred(mb, v), k, mb, s);
    lemma_same(b, b.put_chroma_pred(mb, v), k, mb, s);
}

pub proof fn lemma_put_skip(a: GridsV, b: GridsV, k: Kind, mb: int, s: Set<int>)
    requires
        alike(a, b, k, mb, s),
        0 <= mb < k.mbs(),
    ensures
        alike(a.put_skip(mb), b.put_skip(mb), k, mb, s),
        alike(a.put_bdirect(mb), b.put_bdirect(mb), k, mb, s),
{
    reveal(alike);
    reveal(GridsV::put_skip);
    reveal(GridsV::put_bdirect);
    lemma_same(a, a.put_skip(mb), k, mb, s);
    lemma_same(b, b.put_skip(mb), k, mb, s);
    lemma_same(a, a.put_bdirect(mb), k, mb, s);
    lemma_same(b, b.put_bdirect(mb), k, mb, s);
}

pub proof fn lemma_mark_direct(
    a: GridsV,
    b: GridsV,
    k: Kind,
    mb: int,
    s: Set<int>,
    bx: int,
    by: int,
)
    requires
        alike(a, b, k, mb, s),
    ensures
        alike(a.mark_direct(mb, bx, by), b.mark_direct(mb, bx, by), k, mb, s),
{
    reveal(alike);
    reveal(GridsV::mark_direct);
    reveal(mb_rect);
    lemma_same(a, a.mark_direct(mb, bx, by), k, mb, s);
    lemma_same(b, b.mark_direct(mb, bx, by), k, mb, s);
}

pub proof fn lemma_put_intra(a: GridsV, b: GridsV, k: Kind, mb: int, s: Set<int>)
    requires
        alike(a, b, k, mb, s),
        0 <= mb < k.mbs(),
    ensures
        alike(a.put_seg(mb, Seg::Intra), b.put_seg(mb, Seg::Intra), k, mb, s),
{
    reveal(alike);
    reveal(GridsV::put_seg);
    let a1 = a.put_seg(mb, Seg::Intra);
    let b1 = b.put_seg(mb, Seg::Intra);
    assert forall|gx: int, gy: int| #[trigger] known(a1, mb, s, gx, gy) implies motion(a1, gx, gy)
        == motion(b1, gx, gy) by {
        assert(known(a, mb, s, gx, gy));
        assert(motion(a, gx, gy) == motion(b, gx, gy));
    }
    assert forall|gx: int, gy: int| #[trigger] known1(a1, k, mb, s, gx, gy) implies vector1(
        a1,
        gx,
        gy,
    ) == vector1(b1, gx, gy) by {
        lemma_mb_of(a, gx, gy);
        assert(known1(a, k, mb, s, gx, gy));
        assert(vector1(a, gx, gy) == vector1(b, gx, gy));
    }
}

pub proof fn lemma_put_decoded(a: GridsV, b: GridsV, k: Kind, mb: int, s: Set<int>)
    requires
        alike(a, b, k, mb, s),
        whole().subset_of(s),
        0 <= mb < k.mbs(),
    ensures
        alike(a.put_decoded(mb), b.put_decoded(mb), k, mb, s),
{
    reveal(alike);
    reveal(GridsV::put_decoded);
    let a1 = a.put_decoded(mb);
    let b1 = b.put_decoded(mb);
    assert forall|gx: int, gy: int| #[trigger] known(a1, mb, s, gx, gy) implies motion(a1, gx, gy)
        == motion(b1, gx, gy) by {
        lemma_mb_of(a, gx, gy);
        assert(whole().contains(quad_of(gx, gy)));
        assert(known(a, mb, s, gx, gy));
        assert(motion(a, gx, gy) == motion(b, gx, gy));
    }
    assert forall|gx: int, gy: int| #[trigger] known1(a1, k, mb, s, gx, gy) implies vector1(
        a1,
        gx,
        gy,
    ) == vector1(b1, gx, gy) by {
        lemma_mb_of(a, gx, gy);
        assert(known1(a, k, mb, s, gx, gy));
        assert(vector1(a, gx, gy) == vector1(b, gx, gy));
    }
}

pub proof fn lemma_put_shown(a: GridsV, b: GridsV, k: Kind, mb: int, s: Set<int>, seg: Seg)
    requires
        alike(a, b, k, mb, s),
        0 <= mb < k.mbs(),
        plain(seg) && whole().subset_of(s) || bipred(seg) && both().subset_of(s) && k.cabac,
    ensures
        alike(a.put_seg(mb, seg).put_decoded(mb), b.put_seg(mb, seg).put_decoded(mb), k, mb, s),
{
    reveal(alike);
    reveal(GridsV::put_decoded);
    reveal(GridsV::put_seg);
    let a1 = a.put_seg(mb, seg).put_decoded(mb);
    let b1 = b.put_seg(mb, seg).put_decoded(mb);
    assert forall|gx: int, gy: int| #[trigger] known(a1, mb, s, gx, gy) implies motion(a1, gx, gy)
        == motion(b1, gx, gy) by {
        lemma_mb_of(a, gx, gy);
        assert(whole().contains(quad_of(gx, gy)) && both().contains(quad_of(gx, gy)));
        assert(known(a, mb, s, gx, gy));
        assert(motion(a, gx, gy) == motion(b, gx, gy));
    }
    assert forall|gx: int, gy: int| #[trigger] known1(a1, k, mb, s, gx, gy) implies vector1(
        a1,
        gx,
        gy,
    ) == vector1(b1, gx, gy) by {
        lemma_mb_of(a, gx, gy);
        assert(both().contains(4 + quad_of(gx, gy)));
        assert(known1(a, k, mb, s, gx, gy));
        assert(vector1(a, gx, gy) == vector1(b, gx, gy));
    }
}

// ---------------------------------------------------------------------------
// Places

/// Where a block lies.
pub proof fn lemma_mb_of(g: GridsV, gx: int, gy: int)
    requires
        g.wf(),
        0 <= gx < 4 * g.mb_w,
        0 <= gy < 4 * g.mb_h,
    ensures
        0 <= mb_of(g, gx, gy) < g.mbs(),
        mb_of(g, gx, gy) % g.mb_w == gx / 4,
        mb_of(g, gx, gy) / g.mb_w == gy / 4,
        0 <= g.cell(gx, gy) < g.cells(),
        g.cell(gx, gy) % (4 * g.mb_w) == gx,
        g.cell(gx, gy) / (4 * g.mb_w) == gy,
        0 <= quad_of(gx, gy) < 4,
{
    lemma_cell(gx / 4, gy / 4, g.mb_w, g.mb_h);
    lemma_cell(gx, gy, 4 * g.mb_w, 4 * g.mb_h);
    assert(gx / 4 + gy / 4 * g.mb_w == gy / 4 * g.mb_w + gx / 4);
}

/// Where a block of macroblock `mb` lies.
pub proof fn lemma_block_place(g: GridsV, mb: int, bx: int, by: int)
    requires
        g.wf(),
        0 <= mb < g.mbs(),
        0 <= bx < 4,
        0 <= by < 4,
    ensures
        0 <= g.x0(mb, bx) < 4 * g.mb_w,
        0 <= g.y0(mb, by) < 4 * g.mb_h,
        mb_of(g, g.x0(mb, bx), g.y0(mb, by)) == mb,
{
    lemma_place(mb, g.mb_w, g.mb_h);
    assert(g.x0(mb, bx) / 4 == mb % g.mb_w && g.y0(mb, by) / 4 == mb / g.mb_w);
}

// ---------------------------------------------------------------------------
// Motion

/// The quadrants of list 1 that a rectangle of blocks covers.
pub open spec fn covered1(bx: int, by: int, w: int, h: int) -> Set<int> {
    Set::new(|q: int| covered(bx, by, w, h).contains(q - 4))
}

/// The quadrants of list `l` that a rectangle of blocks covers.
pub open spec fn covers(l: int, bx: int, by: int, w: int, h: int) -> Set<int> {
    if l == 0 {
        covered(bx, by, w, h)
    } else {
        covered1(bx, by, w, h)
    }
}

/// The same list 0 motion stored in both.
proof fn lemma_fill0(
    a: GridsV,
    b: GridsV,
    k: Kind,
    mb: int,
    s: Set<int>,
    bx: int,
    by: int,
    w: int,
    h: int,
    mv: Mv,
    refi: i32,
)
    requires
        alike(a, b, k, mb, s),
        0 <= mb < k.mbs(),
        0 <= bx,
        0 <= by,
        0 <= w,
        0 <= h,
        bx + w <= 4,
        by + h <= 4,
    ensures
        alike(
            a.fill(0, mb, bx, by, w, h, mv, refi),
            b.fill(0, mb, bx, by, w, h, mv, refi),
            k,
            mb,
            s.union(covered(bx, by, w, h)),
        ),
{
    reveal(alike);
    reveal(GridsV::fill);
    reveal(mb_rect);
    let a1 = a.fill(0, mb, bx, by, w, h, mv, refi);
    let b1 = b.fill(0, mb, bx, by, w, h, mv, refi);
    let t = s.union(covered(bx, by, w, h));
    assert forall|gx: int, gy: int| #[trigger] known(a1, mb, t, gx, gy) implies motion(a1, gx, gy)
        == motion(b1, gx, gy) by {
        lemma_mb_of(a, gx, gy);
        lemma_place(mb, a.mb_w, a.mb_h);
        let x = mb % a.mb_w * 4 + bx;
        let y = mb / a.mb_w * 4 + by;
        let i = a.cell(gx, gy);
        if !in_rect(i, 4 * a.mb_w, x, y, w, h) {
            if !a.decoded[mb_of(a, gx, gy)] {
                assert(mb_of(a, gx, gy) == mb);
                assert(gx == mb % a.mb_w * 4 + gx % 4);
                assert(gy == mb / a.mb_w * 4 + gy % 4);
                let q = quad_of(gx, gy);
                assert(q % 2 == gx % 4 / 2 && q / 2 == gy % 4 / 2);
                assert(!covered(bx, by, w, h).contains(q));
            }
            assert(known(a, mb, s, gx, gy));
            assert(motion(a, gx, gy) == motion(b, gx, gy));
        }
    }
    assert forall|gx: int, gy: int| #[trigger] known1(a1, k, mb, t, gx, gy) implies vector1(
        a1,
        gx,
        gy,
    ) == vector1(b1, gx, gy) by {
        lemma_mb_of(a, gx, gy);
        assert(known1(a, k, mb, s, gx, gy));
        assert(vector1(a, gx, gy) == vector1(b, gx, gy));
    }
}

/// The same list 1 motion stored in both.
proof fn lemma_fill1(
    a: GridsV,
    b: GridsV,
    k: Kind,
    mb: int,
    s: Set<int>,
    bx: int,
    by: int,
    w: int,
    h: int,
    mv: Mv,
    refi: i32,
)
    requires
        alike(a, b, k, mb, s),
        0 <= mb < k.mbs(),
        0 <= bx,
        0 <= by,
        0 <= w,
        0 <= h,
        bx + w <= 4,
        by + h <= 4,
    ensures
        alike(
            a.fill(1, mb, bx, by, w, h, mv, refi),
            b.fill(1, mb, bx, by, w, h, mv, refi),
            k,
            mb,
            s.union(covered1(bx, by, w, h)),
        ),
{
    reveal(alike);
    reveal(GridsV::fill);
    reveal(mb_rect);
    let a1 = a.fill(1, mb, bx, by, w, h, mv, refi);
    let b1 = b.fill(1, mb, bx, by, w, h, mv, refi);
    let t = s.union(covered1(bx, by, w, h));
    assert forall|gx: int, gy: int| #[trigger] known1(a1, k, mb, t, gx, gy) implies vector1(
        a1,
        gx,
        gy,
    ) == vector1(b1, gx, gy) by {
        lemma_mb_of(a, gx, gy);
        lemma_place(mb, a.mb_w, a.mb_h);
        let x = mb % a.mb_w * 4 + bx;
        let y = mb / a.mb_w * 4 + by;
        let i = a.cell(gx, gy);
        if !in_rect(i, 4 * a.mb_w, x, y, w, h) {
            if mb_of(a, gx, gy) == mb {
                assert(gx == mb % a.mb_w * 4 + gx % 4);
                assert(gy == mb / a.mb_w * 4 + gy % 4);
                let q = quad_of(gx, gy);
                assert(q % 2 == gx % 4 / 2 && q / 2 == gy % 4 / 2);
                assert(!covered(bx, by, w, h).contains(q));
            }
            assert(known1(a, k, mb, s, gx, gy));
            assert(vector1(a, gx, gy) == vector1(b, gx, gy));
        }
    }
    assert forall|gx: int, gy: int| #[trigger] known(a1, mb, t, gx, gy) implies motion(a1, gx, gy)
        == motion(b1, gx, gy) by {
        lemma_mb_of(a, gx, gy);
        assert(known(a, mb, s, gx, gy));
        assert(motion(a, gx, gy) == motion(b, gx, gy));
    }
}

/// The same motion of list `l` stored in both.
pub proof fn lemma_fill(
    a: GridsV,
    b: GridsV,
    k: Kind,
    mb: int,
    s: Set<int>,
    l: int,
    bx: int,
    by: int,
    w: int,
    h: int,
    mv: Mv,
    refi: i32,
)
    requires
        alike(a, b, k, mb, s),
        l == 0 || l == 1,
        0 <= mb < k.mbs(),
        0 <= bx,
        0 <= by,
        0 <= w,
        0 <= h,
        bx + w <= 4,
        by + h <= 4,
    ensures
        alike(
            a.fill(l, mb, bx, by, w, h, mv, refi),
            b.fill(l, mb, bx, by, w, h, mv, refi),
            k,
            mb,
            s.union(covers(l, bx, by, w, h)),
        ),
{
    if l == 0 {
        lemma_fill0(a, b, k, mb, s, bx, by, w, h, mv, refi);
    } else {
        lemma_fill1(a, b, k, mb, s, bx, by, w, h, mv, refi);
    }
}

/// The same motion stored over what is known already.
pub proof fn lemma_refill(
    a: GridsV,
    b: GridsV,
    k: Kind,
    mb: int,
    s: Set<int>,
    l: int,
    bx: int,
    by: int,
    w: int,
    h: int,
    mv: Mv,
    refi: i32,
)
    requires
        alike(a, b, k, mb, s),
        l == 0 || l == 1,
        0 <= mb < k.mbs(),
        0 <= bx,
        0 <= by,
        0 <= w,
        0 <= h,
        bx + w <= 4,
        by + h <= 4,
    ensures
        alike(
            a.fill(l, mb, bx, by, w, h, mv, refi),
            b.fill(l, mb, bx, by, w, h, mv, refi),
            k,
            mb,
            s,
        ),
{
    lemma_fill(a, b, k, mb, s, l, bx, by, w, h, mv, refi);
    lemma_less(
        a.fill(l, mb, bx, by, w, h, mv, refi),
        b.fill(l, mb, bx, by, w, h, mv, refi),
        k,
        mb,
        s.union(covers(l, bx, by, w, h)),
        mb,
        s,
    );
}

/// A whole macroblock stored in both.
pub proof fn lemma_fill_mb(
    a: GridsV,
    b: GridsV,
    k: Kind,
    mb: int,
    s: Set<int>,
    mv: Mv,
    refi: i32,
)
    requires
        alike(a, b, k, mb, s),
        0 <= mb < k.mbs(),
    ensures
        alike(
            a.fill(0, mb, 0, 0, 4, 4, mv, refi),
            b.fill(0, mb, 0, 0, 4, 4, mv, refi),
            k,
            mb,
            whole(),
        ),
{
    lemma_fill(a, b, k, mb, s, 0, 0, 0, 4, 4, mv, refi);
    lemma_less(
        a.fill(0, mb, 0, 0, 4, 4, mv, refi),
        b.fill(0, mb, 0, 0, 4, 4, mv, refi),
        k,
        mb,
        s.union(covered(0, 0, 4, 4)),
        mb,
        whole(),
    );
}

/// The same vector differences stored in both.
pub proof fn lemma_fill_mvd(
    a: GridsV,
    b: GridsV,
    k: Kind,
    mb: int,
    s: Set<int>,
    l: int,
    bx: int,
    by: int,
    w: int,
    h: int,
    mvd: Mv,
)
    requires
        alike(a, b, k, mb, s),
        l == 0 || l == 1,
    ensures
        alike(
            a.fill_mvd(l, mb, bx, by, w, h, mvd),
            b.fill_mvd(l, mb, bx, by, w, h, mvd),
            k,
            mb,
            s,
        ),
{
    reveal(alike);
    reveal(GridsV::fill_mvd);
    reveal(mb_rect);
    lemma_same(a, a.fill_mvd(l, mb, bx, by, w, h, mvd), k, mb, s);
    lemma_same(b, b.fill_mvd(l, mb, bx, by, w, h, mvd), k, mb, s);
}

pub proof fn lemma_intra_l0(a: GridsV, b: GridsV, k: Kind, mb: int, s: Set<int>)
    requires
        alike(a, b, k, mb, s),
        0 <= mb < k.mbs(),
    ensures
        alike(a.intra_l0(mb), b.intra_l0(mb), k, mb, whole()),
{
    reveal(GridsV::intra_l0);
    lemma_fill_mb(a, b, k, mb, s, zero_mv(), INTRA);
}

/// List `l` can be read in slice `sid`.
pub open spec fn readable(k: Kind, l: int, sid: i32) -> bool {
    l == 0 || (l == 1 && k.cabac && k.b == Some(sid))
}

/// All quadrants of list `l` are among `s`.
pub open spec fn full(s: Set<int>, l: int) -> bool {
    if l == 0 {
        whole().subset_of(s)
    } else {
        both().subset_of(s)
    }
}

/// Where all quadrants are known, any block can be next.
pub proof fn lemma_full_ready(s: Set<int>, l: int, scan: int)
    requires
        full(s, l),
    ensures
        ready_in(s, l, scan),
{
    assert forall|q: int| 0 <= q < 4 implies s.contains(q) || l != 0 by {
        assert(whole().contains(q));
    }
    assert forall|q: int| 0 <= q < 4 implies #[trigger] has1(s, q) || l == 0 by {
        assert(both().contains(4 + q));
    }
}

/// The same neighbour.
proof fn lemma_nb(
    a: GridsV,
    b: GridsV,
    k: Kind,
    s: Set<int>,
    l: int,
    gx: int,
    gy: int,
    mb: int,
    scan: int,
    sid: i32,
)
    requires
        alike(a, b, k, mb, s),
        readable(k, l, sid),
        ready_in(s, l, scan),
    ensures
        a.nb(l, gx, gy, mb, scan, sid) == b.nb(l, gx, gy, mb, scan, sid),
        a.avail(gx, gy, mb, scan, sid) == b.avail(gx, gy, mb, scan, sid),
{
    reveal(alike);
    reveal(GridsV::nb);
    reveal(GridsV::avail);
    if a.avail(gx, gy, mb, scan, sid) {
        lemma_mb_of(a, gx, gy);
        let q = quad_of(gx, gy);
        assert(scan_of(gx % 4, gy % 4) >= 4 * q);
        if l == 0 {
            assert(mb_of(a, gx, gy) == mb ==> s.contains(q));
            assert(known(a, mb, s, gx, gy));
            assert(motion(a, gx, gy) == motion(b, gx, gy));
        } else {
            assert(mb_of(a, gx, gy) == mb ==> has1(s, q));
            assert(known1(a, k, mb, s, gx, gy));
            assert(vector1(a, gx, gy) == vector1(b, gx, gy));
        }
    }
}

/// The same three neighbours.
pub proof fn lemma_around(
    a: GridsV,
    b: GridsV,
    k: Kind,
    s: Set<int>,
    l: int,
    mb: int,
    bx: int,
    by: int,
    pw: int,
    sid: i32,
)
    requires
        alike(a, b, k, mb, s),
        readable(k, l, sid),
        ready_in(s, l, scan_of(bx, by)),
    ensures
        a.left(l, mb, bx, by, sid) == b.left(l, mb, bx, by, sid),
        a.top(l, mb, bx, by, sid) == b.top(l, mb, bx, by, sid),
        a.diag(l, mb, bx, by, pw, sid) == b.diag(l, mb, bx, by, pw, sid),
        forall|refi: i32|
            a.pred(l, mb, bx, by, pw, refi, sid) == #[trigger] b.pred(l, mb, bx, by, pw, refi, sid),
{
    lemma_dims(a, b, k, mb, s);
    reveal(GridsV::left);
    reveal(GridsV::top);
    reveal(GridsV::diag);
    reveal(GridsV::pred);
    let x = a.x0(mb, bx);
    let y = a.y0(mb, by);
    let scan = scan_of(bx, by);
    lemma_nb(a, b, k, s, l, x - 1, y, mb, scan, sid);
    lemma_nb(a, b, k, s, l, x, y - 1, mb, scan, sid);
    lemma_nb(a, b, k, s, l, x + pw, y - 1, mb, scan, sid);
    lemma_nb(a, b, k, s, l, x - 1, y - 1, mb, scan, sid);
}

pub proof fn lemma_pred_skip(a: GridsV, b: GridsV, k: Kind, mb: int, s: Set<int>, sid: i32)
    requires
        alike(a, b, k, mb, s),
    ensures
        a.pred_skip(mb, sid) == b.pred_skip(mb, sid),
{
    reveal(GridsV::pred_skip);
    lemma_around(a, b, k, s, 0, mb, 0, 0, 4, sid);
}

pub proof fn lemma_pred_wide(
    a: GridsV,
    b: GridsV,
    k: Kind,
    s: Set<int>,
    l: int,
    mb: int,
    part: int,
    refi: i32,
    sid: i32,
)
    requires
        alike(a, b, k, mb, s),
        readable(k, l, sid),
        full(s, l),
    ensures
        a.pred_wide(l, mb, part, refi, sid) == b.pred_wide(l, mb, part, refi, sid),
{
    reveal(GridsV::pred_wide);
    lemma_full_ready(s, l, scan_of(0, 0));
    lemma_full_ready(s, l, scan_of(0, 2));
    lemma_around(a, b, k, s, l, mb, 0, 0, 4, sid);
    lemma_around(a, b, k, s, l, mb, 0, 2, 4, sid);
}

pub proof fn lemma_pred_tall(
    a: GridsV,
    b: GridsV,
    k: Kind,
    s: Set<int>,
    l: int,
    mb: int,
    part: int,
    refi: i32,
    sid: i32,
)
    requires
        alike(a, b, k, mb, s),
        readable(k, l, sid),
        full(s, l),
    ensures
        a.pred_tall(l, mb, part, refi, sid) == b.pred_tall(l, mb, part, refi, sid),
{
    reveal(GridsV::pred_tall);
    lemma_full_ready(s, l, scan_of(0, 0));
    lemma_full_ready(s, l, scan_of(2, 0));
    lemma_around(a, b, k, s, l, mb, 0, 0, 2, sid);
    lemma_around(a, b, k, s, l, mb, 2, 0, 2, sid);
}

/// The same sum of vector differences.
pub proof fn lemma_amvd(
    a: GridsV,
    b: GridsV,
    k: Kind,
    mb: int,
    s: Set<int>,
    l: int,
    bx: int,
    by: int,
    sid: i32,
)
    requires
        alike(a, b, k, mb, s),
        k.cabac,
        l == 0 || l == 1,
    ensures
        a.amvd(l, mb, bx, by, sid) == b.amvd(l, mb, bx, by, sid),
{
    reveal(GridsV::amvd);
    reveal(GridsV::avail);
    reveal(alike);
}

/// The same context of a reference index.
pub proof fn lemma_ref_ctx(
    a: GridsV,
    b: GridsV,
    k: Kind,
    mb: int,
    s: Set<int>,
    l: int,
    bx: int,
    by: int,
    sid: i32,
    is_b: bool,
)
    requires
        alike(a, b, k, mb, s),
        k.cabac,
        readable(k, l, sid),
        ready_in(s, l, scan_of(bx, by)),
    ensures
        a.ref_ctx(l, mb, bx, by, sid, is_b) == b.ref_ctx(l, mb, bx, by, sid, is_b),
{
    reveal(GridsV::ref_ctx);
    lemma_around(a, b, k, s, l, mb, bx, by, 2, sid);
    reveal(alike);
    reveal(GridsV::avail);
}

// ---------------------------------------------------------------------------
// Other reads

/// The same counts of the neighbours.
pub proof fn lemma_counts(
    a: GridsV,
    b: GridsV,
    k: Kind,
    mb: int,
    s: Set<int>,
    bx: int,
    by: int,
    sid: i32,
)
    requires
        alike(a, b, k, mb, s),
    ensures
        a.luma_counts(mb, bx, by, sid) == b.luma_counts(mb, bx, by, sid),
        a.nnz_pred(mb, bx, by, sid) == b.nnz_pred(mb, bx, by, sid),
{
    reveal(alike);
    reveal(GridsV::luma_counts);
    reveal(GridsV::luma_count);
    reveal(GridsV::avail);
    reveal(GridsV::nnz_pred);
}

/// The same counts of the neighbours.
pub proof fn lemma_counts_c(
    a: GridsV,
    b: GridsV,
    k: Kind,
    mb: int,
    s: Set<int>,
    c: int,
    bx: int,
    by: int,
    sid: i32,
)
    requires
        alike(a, b, k, mb, s),
    ensures
        a.chroma_counts(c, mb, bx, by, sid) == b.chroma_counts(c, mb, bx, by, sid),
        a.nnz_pred_c(c, mb, bx, by, sid) == b.nnz_pred_c(c, mb, bx, by, sid),
{
    reveal(alike);
    reveal(GridsV::chroma_counts);
    reveal(GridsV::chroma_count);
    reveal(GridsV::nnz_pred_c);
}

/// The same neighbouring macroblocks.
pub proof fn lemma_mb_neighbors(
    a: GridsV,
    b: GridsV,
    k: Kind,
    mb: int,
    s: Set<int>,
    sid: i32,
)
    requires
        alike(a, b, k, mb, s),
    ensures
        a.mb_left(mb, sid) == b.mb_left(mb, sid),
        a.mb_top(mb, sid) == b.mb_top(mb, sid),
{
    reveal(alike);
    reveal(GridsV::mb_left);
    reveal(GridsV::mb_top);
}

} // verus!
