//! B macroblocks and slices of CABAC streams, with spatial direct prediction.

use super::contexts::{Cab, Cabd};
use super::grids::{ColPic, ColShape, FrameGrids, GridsV, Nb, Seg, INTRA};
use crate::grid::{one, one_if};
use super::mb_cabac::{
    decode_intra_body, decode_intra_mb_type_cabac, decode_own_part, decode_part, decode_quadrant,
    finish_inter, inter_tail, intra_body, intra_type, own_part, part, quadrant, read_ref_cabac,
    ref_idx,
};
use super::mb_cavlc::SliceResult;
use super::params::{Pps, SliceHeader};
use crate::motion::{median_mv, mid_mv, zero_mv, Mv};
use vstd::prelude::*;

verus! {

// ---------------------------------------------------------------------------
// The collocated picture

/// Motion that direct prediction reads from the collocated picture.
pub struct ColV {
    pub bw: usize,
    pub mv0: Seq<[i32; 2]>,
    pub refi0: Seq<i32>,
    pub mv1: Option<Seq<[i32; 2]>>,
    pub refi1: Option<Seq<i32>>,
    pub col_shape: Seq<ColShape>,
}

impl<'a> View for ColPic<'a> {
    type V = ColV;

    open spec fn view(&self) -> ColV {
        ColV {
            bw: self.bw,
            mv0: self.mv0@,
            refi0: self.refi0@,
            mv1: match self.mv1 {
                Some(s) => Some(s@),
                None => None,
            },
            refi1: match self.refi1 {
                Some(s) => Some(s@),
                None => None,
            },
            col_shape: self.col_shape@,
        }
    }
}

/// A magnitude of at most 1, where the magnitude of the most negative number is that number.
pub open spec fn tiny(v: i32) -> bool {
    -1 <= v <= 1 || v == i32::MIN
}

fn is_tiny(v: i32) -> (r: bool)
    ensures
        r == tiny(v),
{
    (-1 <= v && v <= 1) || v == i32::MIN
}

/// Block `i` of a list refers to the nearest picture with next to no motion. Blocks outside the
/// grids are not available and do not move.
pub open spec fn still(mv: Seq<[i32; 2]>, refi: Seq<i32>, i: usize) -> bool {
    &&& i < refi.len() && refi[i as int] == 0
    &&& i < mv.len() ==> tiny(mv[i as int][0]) && tiny(mv[i as int][1])
}

fn is_still(mv: &[[i32; 2]], refi: &[i32], i: usize) -> (r: bool)
    ensures
        r == still(mv@, refi@, i),
{
    if i < refi.len() && refi[i] == 0 {
        if i < mv.len() {
            is_tiny(mv[i][0]) && is_tiny(mv[i][1])
        } else {
            true
        }
    } else {
        false
    }
}

impl ColV {
    /// Block `i` does not move: in list 0, or in list 1 where it does not use list 0.
    #[verifier::opaque]
    pub open spec fn zero(self, i: usize) -> bool {
        if i < self.refi0.len() && self.refi0[i as int] >= 0 {
            still(self.mv0, self.refi0, i)
        } else {
            match (self.refi1, self.mv1) {
                (Some(refi1), Some(mv1)) => still(mv1, refi1, i),
                _ => false,
            }
        }
    }

    /// The collocated block that quadrant `q` of macroblock `mb` samples: the one at the outer
    /// corner of the macroblock.
    pub open spec fn corner(self, g: GridsV, mb: int, q: int) -> usize {
        let x = g.x0(mb, q % 2 * 3) as usize;
        let y = g.y0(mb, q / 2 * 3) as usize;
        y.wrapping_mul(self.bw).wrapping_add(x)
    }

    /// The shape of the collocated macroblock.
    pub open spec fn shape(self, mb: int) -> ColShape {
        if mb < self.col_shape.len() {
            self.col_shape[mb]
        } else {
            ColShape::Small
        }
    }
}

fn col_zero(col: &ColPic, i: usize) -> (r: bool)
    ensures
        r == col@.zero(i),
{
    proof {
        reveal(ColV::zero);
    }
    if i < col.refi0.len() && col.refi0[i] >= 0 {
        is_still(col.mv0, col.refi0, i)
    } else {
        match (col.refi1, col.mv1) {
            (Some(refi1), Some(mv1)) => is_still(mv1, refi1, i),
            _ => false,
        }
    }
}

// ---------------------------------------------------------------------------
// Spatial direct prediction

/// The smaller of two reference indices, where a negative one does not count.
pub open spec fn min_ref(a: i32, b: i32) -> i32 {
    if a < 0 || (0 <= b && b < a) {
        b
    } else {
        a
    }
}

/// The smallest of three reference indices, where a negative one does not count; -1 for none.
pub open spec fn min_ref3(a: i32, b: i32, c: i32) -> i32 {
    let m = min_ref(min_ref(a, b), c);
    if m < 0 {
        -1i32
    } else {
        m
    }
}

fn min_nonneg3(a: i32, b: i32, c: i32) -> (m: i32)
    ensures
        m == min_ref3(a, b, c),
{
    let ab = if a < 0 || (0 <= b && b < a) {
        b
    } else {
        a
    };
    let m = if ab < 0 || (0 <= c && c < ab) {
        c
    } else {
        ab
    };
    if m < 0 {
        -1
    } else {
        m
    }
}

/// Reference and vector that the neighbours of a macroblock predict: the smallest reference, and
/// the vector of the only neighbour that has it or else the median.
#[verifier::opaque]
pub open spec fn direct_from(a: Nb, b: Nb, c: Nb) -> Nb {
    let r = min_ref3(a.refi, b.refi, c.refi);
    if r < 0 {
        Nb { refi: -1i32, mv: zero_mv() }
    } else {
        let same = one_if(a.refi == r) + one_if(b.refi == r) + one_if(c.refi == r);
        Nb {
            refi: r,
            mv: if same > 1 {
                median_mv(a.mv, b.mv, c.mv)
            } else if a.refi == r {
                a.mv
            } else if b.refi == r {
                b.mv
            } else {
                c.mv
            },
        }
    }
}

fn direct_pred(a: Nb, b: Nb, c: Nb) -> (n: Nb)
    ensures
        n == direct_from(a, b, c),
{
    proof {
        reveal(direct_from);
    }
    let r = min_nonneg3(a.refi, b.refi, c.refi);
    if r < 0 {
        return Nb { refi: -1, mv: Mv { x: 0, y: 0 } };
    }
    let same: usize = one(a.refi == r) + one(b.refi == r) + one(c.refi == r);
    Nb {
        refi: r,
        mv: if same > 1 {
            mid_mv(a.mv, b.mv, c.mv)
        } else if a.refi == r {
            a.mv
        } else if b.refi == r {
            b.mv
        } else {
            c.mv
        },
    }
}

/// What list `l` of a macroblock in direct mode is predicted as.
#[verifier::opaque]
pub open spec fn direct_list(g: GridsV, l: int, mb: int, sid: i32) -> Nb {
    direct_from(g.left(l, mb, 0, 0, sid), g.top(l, mb, 0, 0, sid), g.diag(l, mb, 0, 0, 4, sid))
}

fn direct_list_pred(g: &FrameGrids, l: usize, mb: usize, sid: i32) -> (n: Nb)
    requires
        g@.wf(),
        mb < g@.mbs(),
    ensures
        n == direct_list(g@, l as int, mb as int, sid),
{
    proof {
        reveal(direct_list);
    }
    let a = g.left(l, mb, 0, 0, sid);
    let b = g.top(l, mb, 0, 0, sid);
    let c = g.diag(l, mb, 0, 0, 4, sid);
    direct_pred(a, b, c)
}

/// Direct prediction of a macroblock: a reference per list, and the vectors of the quadrants.
pub struct DirectV {
    pub ref0: i32,
    pub ref1: i32,
    pub mv0: Seq<Mv>,
    pub mv1: Seq<Mv>,
}

/// The vector of a list in a quadrant: `n`'s, or zero where the quadrant stands still and the
/// reference is the nearest one.
pub open spec fn direct_mv(refi: i32, mv: Mv, zero: bool) -> Mv {
    if zero && refi == 0 {
        zero_mv()
    } else {
        mv
    }
}

/// Direct prediction of macroblock `mb`. A macroblock without a reference in either list takes
/// the nearest one of both.
#[verifier::opaque]
pub open spec fn direct(g: GridsV, mb: int, sid: i32, col: ColV) -> DirectV {
    let n0 = direct_list(g, 0, mb, sid);
    let n1 = direct_list(g, 1, mb, sid);
    let none = n0.refi < 0 && n1.refi < 0;
    let ref0 = if none {
        0
    } else {
        n0.refi
    };
    let ref1 = if none {
        0
    } else {
        n1.refi
    };
    DirectV {
        ref0,
        ref1,
        mv0: Seq::new(4, |q: int| direct_mv(ref0, n0.mv, col.zero(col.corner(g, mb, q)))),
        mv1: Seq::new(4, |q: int| direct_mv(ref1, n1.mv, col.zero(col.corner(g, mb, q)))),
    }
}

/// Direct prediction of a macroblock.
pub struct Direct {
    ref0: i32,
    ref1: i32,
    mv0: [Mv; 4],
    mv1: [Mv; 4],
}

impl View for Direct {
    type V = DirectV;

    closed spec fn view(&self) -> DirectV {
        DirectV { ref0: self.ref0, ref1: self.ref1, mv0: self.mv0@, mv1: self.mv1@ }
    }
}

fn spatial_direct_quadrants(g: &FrameGrids, mb: usize, sid: i32, col: &ColPic) -> (d: Direct)
    requires
        g@.wf(),
        mb < g@.mbs(),
    ensures
        d@ == direct(g@, mb as int, sid, col@),
{
    proof {
        reveal(direct);
    }
    let n0 = direct_list_pred(g, 0, mb, sid);
    let n1 = direct_list_pred(g, 1, mb, sid);
    let none = n0.refi < 0 && n1.refi < 0;
    let ref0 = if none {
        0
    } else {
        n0.refi
    };
    let ref1 = if none {
        0
    } else {
        n1.refi
    };
    let zero = Mv { x: 0, y: 0 };
    let mut mv0 = [n0.mv;4];
    let mut mv1 = [n1.mv;4];
    let mut q: usize = 0;
    while q < 4
        invariant
            q <= 4,
            g@.wf(),
            mb < g@.mbs(),
            zero == zero_mv(),
            mv0@.len() == 4,
            mv1@.len() == 4,
            forall|i: int|
                0 <= i < 4 ==> #[trigger] mv0@[i] == (if i < q {
                    direct_mv(ref0, n0.mv, col@.zero(col@.corner(g@, mb as int, i)))
                } else {
                    n0.mv
                }),
            forall|i: int|
                0 <= i < 4 ==> #[trigger] mv1@[i] == (if i < q {
                    direct_mv(ref1, n1.mv, col@.zero(col@.corner(g@, mb as int, i)))
                } else {
                    n1.mv
                }),
        decreases 4 - q,
    {
        let (x, y) = g.origin(mb, q % 2 * 3, q / 2 * 3);
        let i: usize = y.wrapping_mul(col.bw).wrapping_add(x);
        assert(i == col@.corner(g@, mb as int, q as int));
        if col_zero(col, i) {
            if ref0 == 0 {
                mv0[q] = zero;
            }
            if ref1 == 0 {
                mv1[q] = zero;
            }
        }
        q += 1;
    }
    let d = Direct { ref0, ref1, mv0, mv1 };
    let ghost want = direct(g@, mb as int, sid, col@);
    assert(d@.mv0 =~= want.mv0);
    assert(d@.mv1 =~= want.mv1);
    d
}

/// Quadrant `q` takes its direct prediction.
#[verifier::opaque]
pub open spec fn direct_quadrant(g: GridsV, mb: int, q: int, d: DirectV) -> GridsV {
    let (x, y) = (q % 2 * 2, q / 2 * 2);
    g.fill(0, mb, x, y, 2, 2, d.mv0[q], d.ref0).fill(1, mb, x, y, 2, 2, d.mv1[q], d.ref1)
        .mark_direct(mb, x, y)
}

fn fill_direct_quadrant(g: &mut FrameGrids, mb: usize, q: usize, d: &Direct)
    requires
        old(g)@.wf(),
        mb < old(g)@.mbs(),
        q < 4,
    ensures
        final(g)@ == direct_quadrant(old(g)@, mb as int, q as int, d@),
        final(g)@.like(old(g)@),
{
    proof {
        reveal(direct_quadrant);
    }
    let x: usize = q % 2 * 2;
    let y: usize = q / 2 * 2;
    g.fill(0, mb, x, y, 2, 2, d.mv0[q], d.ref0);
    g.fill(1, mb, x, y, 2, 2, d.mv1[q], d.ref1);
    g.mark_direct(mb, x, y);
}

/// All quadrants have the same vectors.
pub open spec fn uniform(d: DirectV) -> bool {
    forall|q: int| 0 <= q < 4 ==> #[trigger] d.mv0[q] == d.mv0[0] && d.mv1[q] == d.mv1[0]
}

fn is_uniform(d: &Direct) -> (r: bool)
    ensures
        r == uniform(d@),
{
    let r = d.mv0[1] == d.mv0[0] && d.mv0[2] == d.mv0[0] && d.mv0[3] == d.mv0[0] && d.mv1[1]
        == d.mv1[0] && d.mv1[2] == d.mv1[0] && d.mv1[3] == d.mv1[0];
    proof {
        let v = d@;
        if uniform(v) {
            assert(v.mv0[1] == v.mv0[0] && v.mv0[2] == v.mv0[0] && v.mv0[3] == v.mv0[0]);
        }
    }
    r
}

/// How a macroblock in direct mode is exported: undivided where its quadrants agree, else in the
/// halves of the collocated macroblock, if it has such, or in quadrants.
pub open spec fn direct_seg(d: DirectV, shape: ColShape) -> Seg {
    if uniform(d) {
        Seg::B16x16
    } else {
        match shape {
            ColShape::Wide16x8 => Seg::B16x8,
            ColShape::Tall8x16 => Seg::B8x16,
            _ => Seg::B8x8,
        }
    }
}

/// A whole macroblock in direct mode.
#[verifier::opaque]
pub open spec fn direct_mb(g: GridsV, mb: int, sid: i32, col: ColV) -> (Seg, GridsV) {
    let d = direct(g, mb, sid, col);
    let g = direct_quadrant(g, mb, 0, d);
    let g = direct_quadrant(g, mb, 1, d);
    let g = direct_quadrant(g, mb, 2, d);
    let g = direct_quadrant(g, mb, 3, d);
    (direct_seg(d, col.shape(mb)), g)
}

fn decode_b_direct_whole_mb(g: &mut FrameGrids, mb: usize, sid: i32, col: &ColPic) -> (seg: Seg)
    requires
        old(g)@.wf(),
        mb < old(g)@.mbs(),
    ensures
        (seg, final(g)@) == direct_mb(old(g)@, mb as int, sid, col@),
        final(g)@.like(old(g)@),
{
    proof {
        reveal(direct_mb);
    }
    let d = spatial_direct_quadrants(g, mb, sid, col);
    fill_direct_quadrant(g, mb, 0, &d);
    fill_direct_quadrant(g, mb, 1, &d);
    fill_direct_quadrant(g, mb, 2, &d);
    fill_direct_quadrant(g, mb, 3, &d);
    if is_uniform(&d) {
        return Seg::B16x16;
    }
    let shape = if mb < col.col_shape.len() {
        col.col_shape[mb]
    } else {
        ColShape::Small
    };
    match shape {
        ColShape::Wide16x8 => Seg::B16x8,
        ColShape::Tall8x16 => Seg::B8x16,
        _ => Seg::B8x8,
    }
}

// ---------------------------------------------------------------------------
// Types

/// How a B macroblock or quadrant is divided (0 not, 1 in rows, 2 in columns, 3 in four), and which
/// lists its first and its second part use.
#[derive(Clone, Copy)]
pub struct Info {
    pub shape: u8,
    pub p0l0: bool,
    pub p0l1: bool,
    pub p1l0: bool,
    pub p1l1: bool,
}

/// Whether part 0 or part 1 uses list `l`.
pub open spec fn uses(i: Info, p: int, l: int) -> bool {
    if p == 0 {
        if l == 0 {
            i.p0l0
        } else {
            i.p0l1
        }
    } else {
        if l == 0 {
            i.p1l0
        } else {
            i.p1l1
        }
    }
}

fn part_uses(i: &Info, p: usize, l: usize) -> (r: bool)
    ensures
        r == uses(*i, p as int, l as int),
{
    if p == 0 {
        if l == 0 {
            i.p0l0
        } else {
            i.p0l1
        }
    } else {
        if l == 0 {
            i.p1l0
        } else {
            i.p1l1
        }
    }
}

/// An `Info` in the order of its fields.
pub open spec fn info(shape: u8, p0l0: bool, p0l1: bool, p1l0: bool, p1l1: bool) -> Info {
    Info { shape, p0l0, p0l1, p1l0, p1l1 }
}

fn make_info(shape: u8, p0l0: bool, p0l1: bool, p1l0: bool, p1l1: bool) -> (i: Info)
    ensures
        i == info(shape, p0l0, p0l1, p1l0, p1l1),
{
    Info { shape, p0l0, p0l1, p1l0, p1l1 }
}

/// The B macroblock types other than direct.
#[verifier::opaque]
pub open spec fn b_mb_info(t: u32) -> Info {
    if t == 1 {
        info(0, true, false, false, false)
    } else if t == 2 {
        info(0, false, true, false, false)
    } else if t == 3 {
        info(0, true, true, false, false)
    } else if t == 4 {
        info(1, true, false, true, false)
    } else if t == 5 {
        info(2, true, false, true, false)
    } else if t == 6 {
        info(1, false, true, false, true)
    } else if t == 7 {
        info(2, false, true, false, true)
    } else if t == 8 {
        info(1, true, false, false, true)
    } else if t == 9 {
        info(2, true, false, false, true)
    } else if t == 10 {
        info(1, false, true, true, false)
    } else if t == 11 {
        info(2, false, true, true, false)
    } else if t == 12 {
        info(1, true, false, true, true)
    } else if t == 13 {
        info(2, true, false, true, true)
    } else if t == 14 {
        info(1, false, true, true, true)
    } else if t == 15 {
        info(2, false, true, true, true)
    } else if t == 16 {
        info(1, true, true, true, false)
    } else if t == 17 {
        info(2, true, true, true, false)
    } else if t == 18 {
        info(1, true, true, false, true)
    } else if t == 19 {
        info(2, true, true, false, true)
    } else if t == 20 {
        info(1, true, true, true, true)
    } else if t == 21 {
        info(2, true, true, true, true)
    } else if t == 22 {
        info(3, true, true, true, true)
    } else {
        info(0, false, false, false, false)
    }
}

fn b_mb_type_info(t: u32) -> (i: Info)
    ensures
        i == b_mb_info(t),
{
    proof {
        reveal(b_mb_info);
    }
    match t {
        1 => make_info(0, true, false, false, false),
        2 => make_info(0, false, true, false, false),
        3 => make_info(0, true, true, false, false),
        4 => make_info(1, true, false, true, false),
        5 => make_info(2, true, false, true, false),
        6 => make_info(1, false, true, false, true),
        7 => make_info(2, false, true, false, true),
        8 => make_info(1, true, false, false, true),
        9 => make_info(2, true, false, false, true),
        10 => make_info(1, false, true, true, false),
        11 => make_info(2, false, true, true, false),
        12 => make_info(1, true, false, true, true),
        13 => make_info(2, true, false, true, true),
        14 => make_info(1, false, true, true, true),
        15 => make_info(2, false, true, true, true),
        16 => make_info(1, true, true, true, false),
        17 => make_info(2, true, true, true, false),
        18 => make_info(1, true, true, false, true),
        19 => make_info(2, true, true, false, true),
        20 => make_info(1, true, true, true, true),
        21 => make_info(2, true, true, true, true),
        22 => make_info(3, true, true, true, true),
        _ => make_info(0, false, false, false, false),
    }
}

/// The B sub-macroblock types other than direct.
#[verifier::opaque]
pub open spec fn b_sub_info(t: u32) -> Info {
    if t == 1 {
        info(0, true, false, false, false)
    } else if t == 2 {
        info(0, false, true, false, false)
    } else if t == 3 {
        info(0, true, true, false, false)
    } else if t == 4 {
        info(1, true, false, true, false)
    } else if t == 5 {
        info(2, true, false, true, false)
    } else if t == 6 {
        info(1, false, true, false, true)
    } else if t == 7 {
        info(2, false, true, false, true)
    } else if t == 8 {
        info(1, true, true, true, true)
    } else if t == 9 {
        info(2, true, true, true, true)
    } else if t == 10 {
        info(3, true, false, true, false)
    } else if t == 11 {
        info(3, false, true, false, true)
    } else if t == 12 {
        info(3, true, true, true, true)
    } else {
        info(0, false, false, false, false)
    }
}

fn b_sub_mb_type_info(t: u32) -> (i: Info)
    ensures
        i == b_sub_info(t),
{
    proof {
        reveal(b_sub_info);
    }
    match t {
        1 => make_info(0, true, false, false, false),
        2 => make_info(0, false, true, false, false),
        3 => make_info(0, true, true, false, false),
        4 => make_info(1, true, false, true, false),
        5 => make_info(2, true, false, true, false),
        6 => make_info(1, false, true, false, true),
        7 => make_info(2, false, true, false, true),
        8 => make_info(1, true, true, true, true),
        9 => make_info(2, true, true, true, true),
        10 => make_info(3, true, false, true, false),
        11 => make_info(3, false, true, false, true),
        12 => make_info(3, true, true, true, true),
        _ => make_info(0, false, false, false, false),
    }
}

/// The type of a B macroblock, `None` for intra. `left` and `top` say that the neighbour is there
/// and not in direct mode.
#[verifier::opaque]
pub open spec fn b_type(c: Cab, left: bool, top: bool) -> (Option<u32>, Cab) {
    let (coded, c) = c.flag(27 + one_if(left) + one_if(top));
    if !coded {
        (Some(0), c)
    } else {
        let (long, c) = c.flag(30);
        if !long {
            let (bin, c) = c.get(32);
            (Some((1 + bin) as u32), c)
        } else {
            let (b3, c) = c.get(31);
            let (b2, c) = c.get(32);
            let (b1, c) = c.get(32);
            let (b0, c) = c.get(32);
            let bits = 8 * b3 + 4 * b2 + 2 * b1 + b0;
            if bits < 8 {
                (Some((bits + 3) as u32), c)
            } else if bits == 13 {
                (None, c)
            } else if bits == 14 {
                (Some(11), c)
            } else if bits == 15 {
                (Some(22), c)
            } else {
                let (bin, c) = c.get(32);
                (Some((2 * bits + bin - 4) as u32), c)
            }
        }
    }
}

fn decode_b_mb_type_cabac(cd: &mut Cabd, left: bool, top: bool) -> (t: Option<u32>)
    ensures
        (t, final(cd)@) == b_type(old(cd)@, left, top),
{
    proof {
        reveal(b_type);
    }
    let ctx: usize = 27 + one(left) + one(top);
    if !cd.flag(ctx) {
        return Some(0);
    }
    if !cd.flag(30) {
        return Some(1 + cd.get(32));
    }
    let b3 = cd.get(31);
    let b2 = cd.get(32);
    let b1 = cd.get(32);
    let b0 = cd.get(32);
    let bits: u32 = 8 * b3 + 4 * b2 + 2 * b1 + b0;
    if bits < 8 {
        Some(bits + 3)
    } else if bits == 13 {
        None
    } else if bits == 14 {
        Some(11)
    } else if bits == 15 {
        Some(22)
    } else {
        Some(2 * bits + cd.get(32) - 4)
    }
}

/// A sub-macroblock type of a B macroblock.
#[verifier::opaque]
pub open spec fn b_sub_type(c: Cab) -> (u32, Cab) {
    let (coded, c) = c.flag(36);
    if !coded {
        (0, c)
    } else {
        let (long, c) = c.flag(37);
        if !long {
            let (bin, c) = c.get(39);
            ((1 + bin) as u32, c)
        } else {
            let (b0, c) = c.flag(38);
            let (b1, c) = if b0 {
                c.flag(39)
            } else {
                (false, c)
            };
            if b1 {
                let (bin, c) = c.get(39);
                ((11 + bin) as u32, c)
            } else {
                let (t2, c) = c.get(39);
                let (t1, c) = c.get(39);
                ((3 + 4 * one_if(b0) + 2 * t2 + t1) as u32, c)
            }
        }
    }
}

fn decode_b_sub_mb_type_cabac(cd: &mut Cabd) -> (t: u32)
    ensures
        (t, final(cd)@) == b_sub_type(old(cd)@),
{
    proof {
        reveal(b_sub_type);
    }
    if !cd.flag(36) {
        return 0;
    }
    if !cd.flag(37) {
        return 1 + cd.get(39);
    }
    let mut t: u32 = 3;
    if cd.flag(38) {
        if cd.flag(39) {
            return 11 + cd.get(39);
        }
        t += 4;
    }
    t += 2 * cd.get(39);
    t += cd.get(39);
    t
}

// ---------------------------------------------------------------------------
// Undivided B macroblocks and halves

/// The reference of one list of a partition, stored with a zero vector; `INTRA` where the
/// partition does not use the list.
#[verifier::opaque]
pub open spec fn list_ref(
    g: GridsV,
    c: Cab,
    l: int,
    mb: int,
    sid: i32,
    bx: int,
    by: int,
    w: int,
    h: int,
    used: bool,
    active: u32,
) -> (i32, GridsV, Cab) {
    let (refi, c) = if used {
        ref_idx(g, c, l, mb, sid, bx, by, active, true)
    } else {
        (INTRA, c)
    };
    (refi, g.fill(l, mb, bx, by, w, h, zero_mv(), refi), c)
}

fn decode_list_ref(
    g: &mut FrameGrids,
    cd: &mut Cabd,
    l: usize,
    mb: usize,
    sid: i32,
    bx: usize,
    by: usize,
    w: usize,
    h: usize,
    used: bool,
    active: u32,
) -> (refi: i32)
    requires
        old(g)@.wf(),
        mb < old(g)@.mbs(),
        0 < w,
        0 < h,
        bx + w <= 4,
        by + h <= 4,
    ensures
        (refi, final(g)@, final(cd)@) == list_ref(
            old(g)@,
            old(cd)@,
            l as int,
            mb as int,
            sid,
            bx as int,
            by as int,
            w as int,
            h as int,
            used,
            active,
        ),
        final(g)@.like(old(g)@),
{
    proof {
        reveal(list_ref);
    }
    let refi = if used {
        read_ref_cabac(g, cd, l, mb, sid, bx, by, active, true)
    } else {
        INTRA
    };
    g.fill(l, mb, bx, by, w, h, Mv { x: 0, y: 0 }, refi);
    refi
}

/// An undivided B macroblock: both references, then both vectors.
#[verifier::opaque]
pub open spec fn b_whole(g: GridsV, c: Cab, mb: int, sid: i32, i: Info, n0: u32, n1: u32) -> (
    GridsV,
    Cab,
) {
    let (r0, g, c) = list_ref(g, c, 0, mb, sid, 0, 0, 4, 4, i.p0l0, n0);
    let (r1, g, c) = list_ref(g, c, 1, mb, sid, 0, 0, 4, 4, i.p0l1, n1);
    let (g, c) = if i.p0l0 {
        own_part(g, c, 0, mb, sid, 0, 0, 4, 4, r0)
    } else {
        (g, c)
    };
    if i.p0l1 {
        own_part(g, c, 1, mb, sid, 0, 0, 4, 4, r1)
    } else {
        (g, c)
    }
}

fn decode_b_whole(
    g: &mut FrameGrids,
    cd: &mut Cabd,
    mb: usize,
    sid: i32,
    i: &Info,
    n0: u32,
    n1: u32,
)
    requires
        old(g)@.wf(),
        mb < old(g)@.mbs(),
    ensures
        (final(g)@, final(cd)@) == b_whole(old(g)@, old(cd)@, mb as int, sid, *i, n0, n1),
        final(g)@.like(old(g)@),
{
    proof {
        reveal(b_whole);
    }
    let r0 = decode_list_ref(g, cd, 0, mb, sid, 0, 0, 4, 4, i.p0l0, n0);
    let r1 = decode_list_ref(g, cd, 1, mb, sid, 0, 0, 4, 4, i.p0l1, n1);
    if i.p0l0 {
        decode_own_part(g, cd, 0, mb, sid, 0, 0, 4, 4, r0);
    }
    if i.p0l1 {
        decode_own_part(g, cd, 1, mb, sid, 0, 0, 4, 4, r1);
    }
}

/// References of one list of both halves.
#[verifier::opaque]
pub open spec fn half_refs(
    g: GridsV,
    c: Cab,
    l: int,
    mb: int,
    sid: i32,
    i: Info,
    active: u32,
) -> (i32, i32, GridsV, Cab) {
    if i.shape == 1 {
        let (r0, g, c) = list_ref(g, c, l, mb, sid, 0, 0, 4, 2, uses(i, 0, l), active);
        let (r1, g, c) = list_ref(g, c, l, mb, sid, 0, 2, 4, 2, uses(i, 1, l), active);
        (r0, r1, g, c)
    } else {
        let (r0, g, c) = list_ref(g, c, l, mb, sid, 0, 0, 2, 4, uses(i, 0, l), active);
        let (r1, g, c) = list_ref(g, c, l, mb, sid, 2, 0, 2, 4, uses(i, 1, l), active);
        (r0, r1, g, c)
    }
}

fn decode_half_refs(
    g: &mut FrameGrids,
    cd: &mut Cabd,
    l: usize,
    mb: usize,
    sid: i32,
    i: &Info,
    active: u32,
) -> (r: (i32, i32))
    requires
        old(g)@.wf(),
        mb < old(g)@.mbs(),
    ensures
        (r.0, r.1, final(g)@, final(cd)@) == half_refs(
            old(g)@,
            old(cd)@,
            l as int,
            mb as int,
            sid,
            *i,
            active,
        ),
        final(g)@.like(old(g)@),
{
    proof {
        reveal(half_refs);
    }
    let u0 = part_uses(i, 0, l);
    let u1 = part_uses(i, 1, l);
    if i.shape == 1 {
        let r0 = decode_list_ref(g, cd, l, mb, sid, 0, 0, 4, 2, u0, active);
        let r1 = decode_list_ref(g, cd, l, mb, sid, 0, 2, 4, 2, u1, active);
        (r0, r1)
    } else {
        let r0 = decode_list_ref(g, cd, l, mb, sid, 0, 0, 2, 4, u0, active);
        let r1 = decode_list_ref(g, cd, l, mb, sid, 2, 0, 2, 4, u1, active);
        (r0, r1)
    }
}

/// The vector of one list of half `p`.
#[verifier::opaque]
pub open spec fn half_mv(
    g: GridsV,
    c: Cab,
    l: int,
    mb: int,
    sid: i32,
    i: Info,
    p: int,
    refi: i32,
) -> (GridsV, Cab) {
    if !uses(i, p, l) {
        (g, c)
    } else if i.shape == 1 {
        part(g, c, l, mb, sid, 0, 2 * p, 4, 2, refi, g.pred_wide(l, mb, p, refi, sid))
    } else {
        part(g, c, l, mb, sid, 2 * p, 0, 2, 4, refi, g.pred_tall(l, mb, p, refi, sid))
    }
}

fn decode_half_mv(
    g: &mut FrameGrids,
    cd: &mut Cabd,
    l: usize,
    mb: usize,
    sid: i32,
    i: &Info,
    p: usize,
    refi: i32,
)
    requires
        old(g)@.wf(),
        mb < old(g)@.mbs(),
        p < 2,
    ensures
        (final(g)@, final(cd)@) == half_mv(
            old(g)@,
            old(cd)@,
            l as int,
            mb as int,
            sid,
            *i,
            p as int,
            refi,
        ),
        final(g)@.like(old(g)@),
{
    proof {
        reveal(half_mv);
    }
    if part_uses(i, p, l) {
        if i.shape == 1 {
            let pred = g.pred_16x8(l, mb, p, refi, sid);
            decode_part(g, cd, l, mb, sid, 0, 2 * p, 4, 2, refi, pred);
        } else {
            let pred = g.pred_8x16(l, mb, p, refi, sid);
            decode_part(g, cd, l, mb, sid, 2 * p, 0, 2, 4, refi, pred);
        }
    }
}

/// A B macroblock in halves: all references by list, then all vectors by list.
#[verifier::opaque]
pub open spec fn b_halves(g: GridsV, c: Cab, mb: int, sid: i32, i: Info, n0: u32, n1: u32) -> (
    GridsV,
    Cab,
) {
    let (r00, r10, g, c) = half_refs(g, c, 0, mb, sid, i, n0);
    let (r01, r11, g, c) = half_refs(g, c, 1, mb, sid, i, n1);
    let (g, c) = half_mv(g, c, 0, mb, sid, i, 0, r00);
    let (g, c) = half_mv(g, c, 0, mb, sid, i, 1, r10);
    let (g, c) = half_mv(g, c, 1, mb, sid, i, 0, r01);
    half_mv(g, c, 1, mb, sid, i, 1, r11)
}

fn decode_b_halves(
    g: &mut FrameGrids,
    cd: &mut Cabd,
    mb: usize,
    sid: i32,
    i: &Info,
    n0: u32,
    n1: u32,
)
    requires
        old(g)@.wf(),
        mb < old(g)@.mbs(),
    ensures
        (final(g)@, final(cd)@) == b_halves(old(g)@, old(cd)@, mb as int, sid, *i, n0, n1),
        final(g)@.like(old(g)@),
{
    proof {
        reveal(b_halves);
    }
    let (r00, r10) = decode_half_refs(g, cd, 0, mb, sid, i, n0);
    let (r01, r11) = decode_half_refs(g, cd, 1, mb, sid, i, n1);
    decode_half_mv(g, cd, 0, mb, sid, i, 0, r00);
    decode_half_mv(g, cd, 0, mb, sid, i, 1, r10);
    decode_half_mv(g, cd, 1, mb, sid, i, 0, r01);
    decode_half_mv(g, cd, 1, mb, sid, i, 1, r11);
}

// ---------------------------------------------------------------------------
// B macroblocks in quadrants

/// Sub-macroblock types of the four quadrants.
#[verifier::opaque]
pub open spec fn b_sub_types(c: Cab) -> (Seq<u32>, Cab) {
    let (t0, c) = b_sub_type(c);
    let (t1, c) = b_sub_type(c);
    let (t2, c) = b_sub_type(c);
    let (t3, c) = b_sub_type(c);
    (seq![t0, t1, t2, t3], c)
}

fn read_b_sub_types(cd: &mut Cabd) -> (t: [u32; 4])
    ensures
        (t@, final(cd)@) == b_sub_types(old(cd)@),
{
    proof {
        reveal(b_sub_types);
    }
    let t0 = decode_b_sub_mb_type_cabac(cd);
    let t1 = decode_b_sub_mb_type_cabac(cd);
    let t2 = decode_b_sub_mb_type_cabac(cd);
    let t3 = decode_b_sub_mb_type_cabac(cd);
    let t = [t0, t1, t2, t3];
    assert(t@ =~= seq![t0, t1, t2, t3]);
    t
}

/// Those of quadrants `q..4` that are in direct mode take their prediction.
pub open spec fn direct_quadrants(g: GridsV, mb: int, types: Seq<u32>, d: DirectV, q: int) -> GridsV
    decreases 4 - q,
{
    if q >= 4 {
        g
    } else {
        direct_quadrants(
            if types[q] == 0 {
                direct_quadrant(g, mb, q, d)
            } else {
                g
            },
            mb,
            types,
            d,
            q + 1,
        )
    }
}

/// The quadrants in direct mode. The prediction is that of the whole macroblock before any of its
/// quadrants is stored.
#[verifier::opaque]
pub open spec fn sub_direct(g: GridsV, mb: int, sid: i32, types: Seq<u32>, col: ColV) -> GridsV {
    direct_quadrants(g, mb, types, direct(g, mb, sid, col), 0)
}

fn fill_sub_direct(g: &mut FrameGrids, mb: usize, sid: i32, types: &[u32; 4], col: &ColPic)
    requires
        old(g)@.wf(),
        mb < old(g)@.mbs(),
    ensures
        final(g)@ == sub_direct(old(g)@, mb as int, sid, types@, col@),
        final(g)@.like(old(g)@),
{
    proof {
        reveal(sub_direct);
    }
    let ghost g0 = g@;
    if types[0] != 0 && types[1] != 0 && types[2] != 0 && types[3] != 0 {
        proof {
            let d = direct(g0, mb as int, sid, col@);
            let m = mb as int;
            assert(direct_quadrants(g0, m, types@, d, 4) == g0);
            assert(direct_quadrants(g0, m, types@, d, 3) == g0);
            assert(direct_quadrants(g0, m, types@, d, 2) == g0);
            assert(direct_quadrants(g0, m, types@, d, 1) == g0);
        }
        return;
    }
    let d = spatial_direct_quadrants(g, mb, sid, col);
    let mut q: usize = 0;
    while q < 4
        invariant
            q <= 4,
            g@.like(old(g)@),
            mb < g@.mbs(),
            direct_quadrants(g@, mb as int, types@, d@, q as int) == direct_quadrants(
                old(g)@,
                mb as int,
                types@,
                d@,
                0,
            ),
        decreases 4 - q,
    {
        if types[q] == 0 {
            fill_direct_quadrant(g, mb, q, &d);
        }
        q += 1;
    }
}

/// References of list `l` of quadrants `q..4`. A quadrant in direct mode keeps its own.
pub open spec fn sub_refs(
    g: GridsV,
    c: Cab,
    l: int,
    mb: int,
    sid: i32,
    types: Seq<u32>,
    active: u32,
    refs: Seq<i32>,
    q: int,
) -> (Seq<i32>, GridsV, Cab)
    decreases 4 - q,
{
    if q >= 4 {
        (refs, g, c)
    } else if types[q] == 0 {
        sub_refs(g, c, l, mb, sid, types, active, refs.push(INTRA), q + 1)
    } else {
        let (refi, g, c) = list_ref(
            g,
            c,
            l,
            mb,
            sid,
            q % 2 * 2,
            q / 2 * 2,
            2,
            2,
            uses(b_sub_info(types[q]), 0, l),
            active,
        );
        sub_refs(g, c, l, mb, sid, types, active, refs.push(refi), q + 1)
    }
}

fn decode_sub_refs(
    g: &mut FrameGrids,
    cd: &mut Cabd,
    l: usize,
    mb: usize,
    sid: i32,
    types: &[u32; 4],
    active: u32,
) -> (refs: Vec<i32>)
    requires
        old(g)@.wf(),
        mb < old(g)@.mbs(),
    ensures
        (refs@, final(g)@, final(cd)@) == sub_refs(
            old(g)@,
            old(cd)@,
            l as int,
            mb as int,
            sid,
            types@,
            active,
            Seq::empty(),
            0,
        ),
        refs@.len() == 4,
        final(g)@.like(old(g)@),
{
    let mut refs: Vec<i32> = Vec::new();
    assert(refs@ =~= Seq::<i32>::empty());
    let mut q: usize = 0;
    while q < 4
        invariant
            q <= 4,
            refs@.len() == q,
            g@.like(old(g)@),
            mb < g@.mbs(),
            sub_refs(g@, cd@, l as int, mb as int, sid, types@, active, refs@, q as int)
                == sub_refs(
                old(g)@,
                old(cd)@,
                l as int,
                mb as int,
                sid,
                types@,
                active,
                Seq::empty(),
                0,
            ),
        decreases 4 - q,
    {
        if types[q] == 0 {
            refs.push(INTRA);
        } else {
            let i = b_sub_mb_type_info(types[q]);
            let used = part_uses(&i, 0, l);
            let refi = decode_list_ref(
                g,
                cd,
                l,
                mb,
                sid,
                q % 2 * 2,
                q / 2 * 2,
                2,
                2,
                used,
                active,
            );
            refs.push(refi);
        }
        q += 1;
    }
    refs
}

/// Vectors of list `l` of quadrants `q..4` that are not in direct mode and use the list.
pub open spec fn sub_mvs(
    g: GridsV,
    c: Cab,
    l: int,
    mb: int,
    sid: i32,
    types: Seq<u32>,
    refs: Seq<i32>,
    q: int,
) -> (GridsV, Cab)
    decreases 4 - q,
{
    if q >= 4 {
        (g, c)
    } else if types[q] == 0 || !uses(b_sub_info(types[q]), 0, l) {
        sub_mvs(g, c, l, mb, sid, types, refs, q + 1)
    } else {
        let (g, c) = quadrant(
            g,
            c,
            l,
            mb,
            sid,
            q % 2 * 2,
            q / 2 * 2,
            b_sub_info(types[q]).shape as u32,
            refs[q],
        );
        sub_mvs(g, c, l, mb, sid, types, refs, q + 1)
    }
}

fn decode_sub_mvs(
    g: &mut FrameGrids,
    cd: &mut Cabd,
    l: usize,
    mb: usize,
    sid: i32,
    types: &[u32; 4],
    refs: &Vec<i32>,
)
    requires
        old(g)@.wf(),
        mb < old(g)@.mbs(),
        refs@.len() == 4,
    ensures
        (final(g)@, final(cd)@) == sub_mvs(
            old(g)@,
            old(cd)@,
            l as int,
            mb as int,
            sid,
            types@,
            refs@,
            0,
        ),
        final(g)@.like(old(g)@),
{
    let mut q: usize = 0;
    while q < 4
        invariant
            q <= 4,
            refs@.len() == 4,
            g@.like(old(g)@),
            mb < g@.mbs(),
            sub_mvs(g@, cd@, l as int, mb as int, sid, types@, refs@, q as int) == sub_mvs(
                old(g)@,
                old(cd)@,
                l as int,
                mb as int,
                sid,
                types@,
                refs@,
                0,
            ),
        decreases 4 - q,
    {
        if types[q] != 0 {
            let i = b_sub_mb_type_info(types[q]);
            if part_uses(&i, 0, l) {
                decode_quadrant(
                    g,
                    cd,
                    l,
                    mb,
                    sid,
                    q % 2 * 2,
                    q / 2 * 2,
                    i.shape as u32,
                    refs[q],
                );
            }
        }
        q += 1;
    }
}

/// No quadrant of these types is divided further.
pub open spec fn whole_quadrants(types: Seq<u32>) -> bool {
    forall|q: int| 0 <= q < 4 ==> (#[trigger] types[q] == 0 || b_sub_info(types[q]).shape == 0)
}

fn are_whole_quadrants(types: &[u32; 4]) -> (r: bool)
    ensures
        r == whole_quadrants(types@),
{
    let mut q: usize = 0;
    while q < 4
        invariant
            q <= 4,
            forall|i: int|
                0 <= i < q ==> (#[trigger] types@[i] == 0 || b_sub_info(types@[i]).shape == 0),
        decreases 4 - q,
    {
        if types[q] != 0 && b_sub_mb_type_info(types[q]).shape != 0 {
            assert(!(types@[q as int] == 0 || b_sub_info(types@[q as int]).shape == 0));
            return false;
        }
        q += 1;
    }
    true
}

/// A B macroblock in quadrants: types, direct prediction, references by list, vectors by list.
/// Whether no quadrant is divided further.
#[verifier::opaque]
pub open spec fn b_8x8(g: GridsV, c: Cab, mb: int, sid: i32, n0: u32, n1: u32, col: ColV) -> (
    bool,
    GridsV,
    Cab,
) {
    let (types, c) = b_sub_types(c);
    let g = sub_direct(g, mb, sid, types, col);
    let (refs0, g, c) = sub_refs(g, c, 0, mb, sid, types, n0, Seq::empty(), 0);
    let (refs1, g, c) = sub_refs(g, c, 1, mb, sid, types, n1, Seq::empty(), 0);
    let (g, c) = sub_mvs(g, c, 0, mb, sid, types, refs0, 0);
    let (g, c) = sub_mvs(g, c, 1, mb, sid, types, refs1, 0);
    (whole_quadrants(types), g, c)
}

fn decode_b_8x8_cabac(
    g: &mut FrameGrids,
    cd: &mut Cabd,
    mb: usize,
    sid: i32,
    n0: u32,
    n1: u32,
    col: &ColPic,
) -> (whole: bool)
    requires
        old(g)@.wf(),
        mb < old(g)@.mbs(),
    ensures
        (whole, final(g)@, final(cd)@) == b_8x8(
            old(g)@,
            old(cd)@,
            mb as int,
            sid,
            n0,
            n1,
            col@,
        ),
        final(g)@.like(old(g)@),
{
    proof {
        reveal(b_8x8);
    }
    let types = read_b_sub_types(cd);
    fill_sub_direct(g, mb, sid, &types, col);
    let refs0 = decode_sub_refs(g, cd, 0, mb, sid, &types, n0);
    let refs1 = decode_sub_refs(g, cd, 1, mb, sid, &types, n1);
    decode_sub_mvs(g, cd, 0, mb, sid, &types, &refs0);
    decode_sub_mvs(g, cd, 1, mb, sid, &types, &refs1);
    are_whole_quadrants(&types)
}

// ---------------------------------------------------------------------------
// Macroblocks and slices

/// A neighbouring macroblock is there and not in direct mode.
pub open spec fn not_direct(g: GridsV, m: Option<int>) -> bool {
    match m {
        Some(m) => !g.bdirect[m],
        None => false,
    }
}

/// An inter macroblock of type `t`: how it is divided, whether an 8x8 transform is allowed.
#[verifier::opaque]
pub open spec fn b_motion(
    g: GridsV,
    c: Cab,
    mb: int,
    sid: i32,
    sh: SliceHeader,
    col: ColV,
    t: u32,
) -> (Seg, bool, GridsV, Cab) {
    let n0 = sh.num_ref_idx_l0_active;
    let n1 = sh.num_ref_idx_l1_active;
    if t == 0 {
        let (seg, g) = direct_mb(g, mb, sid, col);
        (seg, true, g.put_bdirect(mb), c)
    } else if t == 22 {
        let (whole, g, c) = b_8x8(g, c, mb, sid, n0, n1, col);
        (Seg::B8x8, whole, g, c)
    } else {
        let i = b_mb_info(t);
        if i.shape == 0 {
            let (g, c) = b_whole(g, c, mb, sid, i, n0, n1);
            (Seg::B16x16, true, g, c)
        } else {
            let (g, c) = b_halves(g, c, mb, sid, i, n0, n1);
            (
                if i.shape == 1 {
                    Seg::B16x8
                } else {
                    Seg::B8x16
                },
                true,
                g,
                c,
            )
        }
    }
}

fn decode_b_motion(
    g: &mut FrameGrids,
    cd: &mut Cabd,
    mb: usize,
    sid: i32,
    sh: &SliceHeader,
    col: &ColPic,
    t: u32,
) -> (r: (Seg, bool))
    requires
        old(g)@.wf(),
        mb < old(g)@.mbs(),
    ensures
        (r.0, r.1, final(g)@, final(cd)@) == b_motion(
            old(g)@,
            old(cd)@,
            mb as int,
            sid,
            *sh,
            col@,
            t,
        ),
        final(g)@.like(old(g)@),
{
    proof {
        reveal(b_motion);
    }
    let n0 = sh.num_ref_idx_l0_active;
    let n1 = sh.num_ref_idx_l1_active;
    if t == 0 {
        let seg = decode_b_direct_whole_mb(g, mb, sid, col);
        g.put_bdirect(mb);
        (seg, true)
    } else if t == 22 {
        let whole = decode_b_8x8_cabac(g, cd, mb, sid, n0, n1, col);
        (Seg::B8x8, whole)
    } else {
        let i = b_mb_type_info(t);
        if i.shape == 0 {
            decode_b_whole(g, cd, mb, sid, &i, n0, n1);
            (Seg::B16x16, true)
        } else {
            decode_b_halves(g, cd, mb, sid, &i, n0, n1);
            (
                if i.shape == 1 {
                    Seg::B16x8
                } else {
                    Seg::B8x16
                },
                true,
            )
        }
    }
}

/// One macroblock of a B slice that is not skipped.
#[verifier::opaque]
pub open spec fn macroblock_b(
    g: GridsV,
    c: Cab,
    mb: int,
    sid: i32,
    sh: SliceHeader,
    pps: Pps,
    col: ColV,
) -> (GridsV, Cab) {
    let g = g.put_slice(mb, sid);
    let (t, c) = b_type(
        c,
        not_direct(g, g.mb_left(mb, sid)),
        not_direct(g, g.mb_top(mb, sid)),
    );
    match t {
        None => {
            let (t, c) = intra_type(g, c, mb, sid, 32, false);
            let (g, c) = intra_body(g, c, mb, sid, t, pps);
            (g.intra_both(mb).put_decoded(mb), c)
        },
        Some(t) => {
            let (seg, allow8, g, c) = b_motion(g, c, mb, sid, sh, col, t);
            inter_tail(g.put_seg(mb, seg).put_decoded(mb), c, mb, sid, pps, allow8)
        },
    }
}

fn decode_mb_cabac_b(
    g: &mut FrameGrids,
    cd: &mut Cabd,
    mb: usize,
    sid: i32,
    sh: &SliceHeader,
    pps: &Pps,
    col: &ColPic,
)
    requires
        old(g)@.wf(),
        mb < old(g)@.mbs(),
    ensures
        (final(g)@, final(cd)@) == macroblock_b(
            old(g)@,
            old(cd)@,
            mb as int,
            sid,
            *sh,
            *pps,
            col@,
        ),
        final(g)@.like(old(g)@),
{
    proof {
        reveal(macroblock_b);
    }
    g.put_slice(mb, sid);
    let (l, t) = g.ctx_neighbors(mb, sid);
    let left = match l {
        Some(m) => !g.bdirect_of(m),
        None => false,
    };
    let top = match t {
        Some(m) => !g.bdirect_of(m),
        None => false,
    };
    match decode_b_mb_type_cabac(cd, left, top) {
        None => {
            let t = decode_intra_mb_type_cabac(g, cd, mb, sid, 32, false);
            decode_intra_body(g, cd, mb, sid, t, pps);
            g.intra_both(mb);
            g.put_decoded(mb);
        },
        Some(t) => {
            let (seg, allow8) = decode_b_motion(g, cd, mb, sid, sh, col, t);
            g.put_seg(mb, seg);
            g.put_decoded(mb);
            finish_inter(g, cd, mb, sid, pps, allow8);
        },
    }
}

/// A neighbouring macroblock is there and not skipped.
pub open spec fn not_skipped_b(g: GridsV, m: Option<int>) -> bool {
    match m {
        Some(m) => !g.skip[m],
        None => false,
    }
}

/// `mb_skip_flag` of a macroblock of a B slice.
#[verifier::opaque]
pub open spec fn skip_flag_b(g: GridsV, c: Cab, mb: int, sid: i32) -> (bool, Cab) {
    c.flag(
        24 + one_if(not_skipped_b(g, g.mb_left(mb, sid))) + one_if(
            not_skipped_b(g, g.mb_top(mb, sid)),
        ),
    )
}

fn read_skip_flag_b(g: &FrameGrids, cd: &mut Cabd, mb: usize, sid: i32) -> (s: bool)
    requires
        g@.wf(),
        mb < g@.mbs(),
    ensures
        (s, final(cd)@) == skip_flag_b(g@, old(cd)@, mb as int, sid),
{
    proof {
        reveal(skip_flag_b);
    }
    let (l, t) = g.ctx_neighbors(mb, sid);
    let a = match l {
        Some(m) => !g.skip_of(m),
        None => false,
    };
    let b = match t {
        Some(m) => !g.skip_of(m),
        None => false,
    };
    cd.flag(24 + one(a) + one(b))
}

/// A skipped B macroblock: direct mode without residual.
#[verifier::opaque]
pub open spec fn b_skip(g: GridsV, mb: int, sid: i32, col: ColV) -> GridsV {
    let (seg, g) = direct_mb(g, mb, sid, col);
    g.put_bdirect(mb).put_skip(mb).put_seg(mb, seg).put_slice(mb, sid).put_decoded(mb).put_mb_nnz(
        mb,
        0,
    )
}

fn decode_b_skip(g: &mut FrameGrids, mb: usize, sid: i32, col: &ColPic)
    requires
        old(g)@.wf(),
        mb < old(g)@.mbs(),
    ensures
        final(g)@ == b_skip(old(g)@, mb as int, sid, col@),
        final(g)@.like(old(g)@),
{
    proof {
        reveal(b_skip);
    }
    let seg = decode_b_direct_whole_mb(g, mb, sid, col);
    g.put_bdirect(mb);
    g.put_skip(mb);
    g.put_seg(mb, seg);
    g.put_slice(mb, sid);
    g.put_decoded(mb);
    g.put_mb_nnz(mb, 0);
}

/// One macroblock of a B slice.
#[verifier::opaque]
pub open spec fn any_macroblock_b(
    g: GridsV,
    c: Cab,
    mb: int,
    sid: i32,
    sh: SliceHeader,
    pps: Pps,
    col: ColV,
) -> (GridsV, Cab) {
    let (skipped, c) = skip_flag_b(g, c, mb, sid);
    if skipped {
        (b_skip(g, mb, sid, col), c.with_dqp(false))
    } else {
        macroblock_b(g, c, mb, sid, sh, pps, col)
    }
}

fn decode_any_mb_b(
    g: &mut FrameGrids,
    cd: &mut Cabd,
    mb: usize,
    sid: i32,
    sh: &SliceHeader,
    pps: &Pps,
    col: &ColPic,
)
    requires
        old(g)@.wf(),
        mb < old(g)@.mbs(),
    ensures
        (final(g)@, final(cd)@) == any_macroblock_b(
            old(g)@,
            old(cd)@,
            mb as int,
            sid,
            *sh,
            *pps,
            col@,
        ),
        final(g)@.like(old(g)@),
{
    proof {
        reveal(any_macroblock_b);
    }
    if read_skip_flag_b(g, cd, mb, sid) {
        decode_b_skip(g, mb, sid, col);
        cd.set_dqp(false);
    } else {
        decode_mb_cabac_b(g, cd, mb, sid, sh, pps, col);
    }
}

/// Slice data from macroblock `cur` on, in a picture of `n` macroblocks: the macroblock behind the
/// last one decoded, and the state there.
pub open spec fn slice_from_b(
    g: GridsV,
    c: Cab,
    cur: int,
    n: int,
    sh: SliceHeader,
    pps: Pps,
    sid: i32,
    col: ColV,
) -> (int, GridsV, Cab)
    decreases n - cur,
{
    if cur >= n {
        (cur, g, c)
    } else {
        let (g, c) = any_macroblock_b(g, c, cur, sid, sh, pps, col);
        if cur + 1 >= n {
            (cur + 1, g, c)
        } else {
            let (end, c) = c.terminate();
            if end {
                (cur + 1, g, c)
            } else {
                slice_from_b(g, c, cur + 1, n, sh, pps, sid, col)
            }
        }
    }
}

/// Decodes a CABAC B slice into `g`. The slice data start at byte `byte_start` of `rbsp`; `col` is
/// the collocated picture.
pub fn decode_slice_cabac_b(
    g: &mut FrameGrids,
    rbsp: &[u8],
    byte_start: usize,
    sh: &SliceHeader,
    pps: &Pps,
    sid: i32,
    col: &ColPic,
) -> (res: SliceResult)
    requires
        old(g)@.wf(),
    ensures
        ({
            let c = Cab::start(rbsp@, byte_start, false, sh.cabac_init_idc, sh.slice_qp);
            let (end, g1, _) = slice_from_b(
                old(g)@,
                c,
                sh.first_mb_in_slice as int,
                old(g)@.mbs(),
                *sh,
                *pps,
                sid,
                col@,
            );
            res.mbs_decoded + sh.first_mb_in_slice == end && final(g)@ == g1
        }),
        res.ok,
        final(g)@.like(old(g)@),
        res.mbs_decoded > 0 ==> res.mbs_decoded + sh.first_mb_in_slice <= old(g)@.mbs(),
{
    let mut cd = Cabd::new(rbsp, byte_start, false, sh.cabac_init_idc, sh.slice_qp);
    let n = g.mb_count();
    let first: usize = sh.first_mb_in_slice as usize;
    let ghost whole = slice_from_b(g@, cd@, first as int, n as int, *sh, *pps, sid, col@);
    let mut cur: usize = first;
    while cur < n
        invariant
            first <= cur,
            cur == first || cur <= n,
            g@.like(old(g)@),
            n == g@.mbs(),
            slice_from_b(g@, cd@, cur as int, n as int, *sh, *pps, sid, col@) == whole,
            first == sh.first_mb_in_slice,
            whole == slice_from_b(
                old(g)@,
                Cab::start(rbsp@, byte_start, false, sh.cabac_init_idc, sh.slice_qp),
                sh.first_mb_in_slice as int,
                old(g)@.mbs(),
                *sh,
                *pps,
                sid,
                col@,
            ),
        decreases n - cur,
    {
        decode_any_mb_b(g, &mut cd, cur, sid, sh, pps, col);
        cur += 1;
        if cur >= n || cd.terminate() {
            return SliceResult { mbs_decoded: cur - first, ok: true };
        }
    }
    SliceResult { mbs_decoded: cur - first, ok: true }
}

} // verus!
