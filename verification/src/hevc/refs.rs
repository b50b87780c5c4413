//! Reference pictures of H.265 slices, and vectors taken from them.

use super::frame::{MvField, PF_INTRA, PF_L0};
use crate::motion::Mv;
use vstd::prelude::*;

verus! {

// ---------------------------------------------------------------------------
// References

/// The reference pictures of a slice: picture order counts of the current picture and of both lists,
/// which of them are long-term, and the collocated picture.
pub struct RefInfo<'a> {
    pub poc: i32,
    pub ref_poc: [Vec<i32>; 2],
    pub ref_long: [Vec<bool>; 2],
    pub col: Option<&'a FrameMv>,
}

/// The motion of a decoded picture, with the references that its vectors point at.
pub struct FrameMv {
    pub poc: i32,
    pub tab_mvf: Vec<MvField>,
    pub min_pu_width: usize,
    pub min_pu_height: usize,
    pub ref_poc: [Vec<i32>; 2],
    pub ref_long: [Vec<bool>; 2],
    pub collocated_list: usize,
}

/// Both reference lists of a picture.
pub struct ListsV {
    pub poc0: Seq<i32>,
    pub poc1: Seq<i32>,
    pub long0: Seq<bool>,
    pub long1: Seq<bool>,
}

impl ListsV {
    pub open spec fn poc(self, l: int) -> Seq<i32> {
        if l == 0 {
            self.poc0
        } else {
            self.poc1
        }
    }

    pub open spec fn long(self, l: int) -> Seq<bool> {
        if l == 0 {
            self.long0
        } else {
            self.long1
        }
    }

    /// Picture order count of reference `idx` of list `l`; 0 where the list has no such entry. A
    /// negative index counts as 0.
    pub open spec fn ref_poc(self, l: int, idx: i8) -> i32 {
        let i = if idx < 0 {
            0
        } else {
            idx as int
        };
        if i < self.poc(l).len() {
            self.poc(l)[i]
        } else {
            0
        }
    }

    /// Whether reference `idx` of list `l` is long-term.
    pub open spec fn ref_long(self, l: int, idx: i8) -> bool {
        let i = if idx < 0 {
            0
        } else {
            idx as int
        };
        i < self.long(l).len() && self.long(l)[i]
    }
}

/// The motion of a decoded picture.
pub struct FrameMvV {
    pub poc: i32,
    pub mvf: Seq<MvField>,
    pub w: usize,
    pub h: usize,
    pub lists: ListsV,
    pub collocated_list: usize,
}

impl View for FrameMv {
    type V = FrameMvV;

    open spec fn view(&self) -> FrameMvV {
        FrameMvV {
            poc: self.poc,
            mvf: self.tab_mvf@,
            w: self.min_pu_width,
            h: self.min_pu_height,
            lists: lists_of(self.ref_poc, self.ref_long),
            collocated_list: self.collocated_list,
        }
    }
}

impl FrameMvV {
    /// There is motion for every block.
    pub open spec fn wf(self) -> bool {
        self.mvf.len() == self.w * self.h
    }
}

/// Reference lists as they are modelled.
pub open spec fn lists_of(poc: [Vec<i32>; 2], long: [Vec<bool>; 2]) -> ListsV {
    ListsV { poc0: poc[0]@, poc1: poc[1]@, long0: long[0]@, long1: long[1]@ }
}

/// The reference pictures of a slice.
pub struct RefV {
    pub poc: i32,
    pub lists: ListsV,
    pub col: Option<FrameMvV>,
}

impl<'a> View for RefInfo<'a> {
    type V = RefV;

    open spec fn view(&self) -> RefV {
        RefV {
            poc: self.poc,
            lists: lists_of(self.ref_poc, self.ref_long),
            col: match self.col {
                Some(c) => Some(c@),
                None => None,
            },
        }
    }
}

impl RefV {
    /// The collocated picture, if there is one, has motion for every block.
    pub open spec fn wf(self) -> bool {
        self.col matches Some(c) ==> c.wf()
    }

    /// A reference comes after the current picture.
    pub open spec fn has_future(self) -> bool {
        ||| exists|i: int| 0 <= i < self.lists.poc0.len() && #[trigger] self.lists.poc0[i] > self.poc
        ||| exists|i: int| 0 <= i < self.lists.poc1.len() && #[trigger] self.lists.poc1[i] > self.poc
    }
}

fn list_poc(lists: &[Vec<i32>; 2], l: usize, idx: i8) -> (p: i32)
    requires
        l < 2,
    ensures
        forall|long: [Vec<bool>; 2]| #[trigger]
            lists_of(*lists, long).ref_poc(l as int, idx) == p,
{
    let i: usize = if idx < 0 {
        0
    } else {
        idx as usize
    };
    if l == 0 {
        if i < lists[0].len() {
            lists[0][i]
        } else {
            0
        }
    } else {
        if i < lists[1].len() {
            lists[1][i]
        } else {
            0
        }
    }
}

fn list_long(lists: &[Vec<bool>; 2], l: usize, idx: i8) -> (p: bool)
    requires
        l < 2,
    ensures
        forall|poc: [Vec<i32>; 2]| #[trigger]
            lists_of(poc, *lists).ref_long(l as int, idx) == p,
{
    let i: usize = if idx < 0 {
        0
    } else {
        idx as usize
    };
    if l == 0 {
        i < lists[0].len() && lists[0][i]
    } else {
        i < lists[1].len() && lists[1][i]
    }
}

fn any_after(s: &Vec<i32>, poc: i32) -> (r: bool)
    ensures
        r == (exists|i: int| 0 <= i < s@.len() && #[trigger] s@[i] > poc),
{
    let mut i: usize = 0;
    while i < s.len()
        invariant
            i <= s@.len(),
            forall|k: int| 0 <= k < i ==> #[trigger] s@[k] <= poc,
        decreases s@.len() - i,
    {
        if s[i] > poc {
            return true;
        }
        i += 1;
    }
    false
}

impl<'a> RefInfo<'a> {
    pub(crate) fn poc_at(&self, l: usize, idx: i8) -> (p: i32)
        requires
            l < 2,
        ensures
            p == self@.lists.ref_poc(l as int, idx),
    {
        list_poc(&self.ref_poc, l, idx)
    }

    pub(crate) fn long_at(&self, l: usize, idx: i8) -> (p: bool)
        requires
            l < 2,
        ensures
            p == self@.lists.ref_long(l as int, idx),
    {
        list_long(&self.ref_long, l, idx)
    }

    fn has_future(&self) -> (r: bool)
        ensures
            r == self@.has_future(),
    {
        let ghost lists = self@.lists;
        assert(lists.poc0 == self.ref_poc[0]@ && lists.poc1 == self.ref_poc[1]@);
        let a = any_after(&self.ref_poc[0], self.poc);
        let b = any_after(&self.ref_poc[1], self.poc);
        a || b
    }
}

// ---------------------------------------------------------------------------
// Scaling

/// `v` moved into `low..=high`.
pub open spec fn clamp(v: int, low: int, high: int) -> int {
    if v < low {
        low
    } else if v > high {
        high
    } else {
        v
    }
}

fn clip(v: i32, low: i32, high: i32) -> (r: i32)
    requires
        low <= high,
    ensures
        r == clamp(v as int, low as int, high as int),
        low <= r <= high,
{
    if v < low {
        low
    } else if v > high {
        high
    } else {
        v
    }
}

/// `a / b` rounded towards zero.
pub open spec fn quotient(a: int, b: int) -> int {
    if b >= 0 {
        a / b
    } else {
        -(a / (-b))
    }
}

/// The factor, in 256ths, by which a vector over distance `td` is scaled to distance `tb`.
pub open spec fn scale_factor(td: i32, tb: i32) -> int {
    let td = clamp(td as int, -128, 127);
    let tb = clamp(tb as int, -128, 127);
    let half = if td < 0 {
        (-td) / 2
    } else {
        td / 2
    };
    let tx = quotient(0x4000 + half, td);
    clamp((tb * tx + 32) / 64, -4096, 4095)
}

/// A component scaled by `factor` 256ths, rounded to the nearest whole one, halves towards zero, in
/// 16 bits.
pub open spec fn scaled(factor: int, v: int) -> int {
    let p = factor * v;
    clamp(
        (p + 127 + if p < 0 {
            1int
        } else {
            0int
        }) / 256,
        -32768,
        32767,
    )
}

/// A vector over distance `td` scaled to distance `tb`.
#[verifier::opaque]
pub open spec fn scaled_mv(v: Mv, td: i32, tb: i32) -> Mv {
    let f = scale_factor(td, tb);
    Mv { x: scaled(f, v.x as int) as i32, y: scaled(f, v.y as int) as i32 }
}

fn floor_div(v: i32, d: i32) -> (q: i32)
    requires
        d == 64 || d == 256,
        -0x4000_0000 < v < 0x4000_0000,
    ensures
        q == v as int / (d as int),
{
    if v >= 0 {
        v / d
    } else {
        let up: i32 = (0 - v + (d - 1)) / d;
        proof {
            if d == 64 {
                assert(-((-v + 63) / 64) == v as int / 64);
            } else {
                assert(-((-v + 255) / 256) == v as int / 256);
            }
        }
        0 - up
    }
}

fn factor_of(td: i32, tb: i32) -> (f: i32)
    requires
        td != 0,
    ensures
        f == scale_factor(td, tb),
        -4096 <= f <= 4095,
{
    let td = clip(td, -128, 127);
    let tb = clip(tb, -128, 127);
    let tx: i32 = if td < 0 {
        0 - (0x4000 + (0 - td) / 2) / (0 - td)
    } else {
        (0x4000 + td / 2) / td
    };
    proof {
        let (n, m) = if td < 0 {
            (0x4000 + (-td) / 2, -td)
        } else {
            (0x4000 + td as int / 2, td as int)
        };
        assert(0 <= n / m <= n) by (nonlinear_arith)
            requires
                0 <= n,
                0 < m,
        ;
        assert(-16448 <= tx <= 16448);
        assert(-0x30_0000 <= tb * tx <= 0x30_0000) by (nonlinear_arith)
            requires
                -16448 <= tx <= 16448,
                -128 <= tb <= 127,
        ;
    }
    clip(floor_div(tb * tx + 32, 64), -4096, 4095)
}

fn scale_part(f: i32, v: i32) -> (r: i32)
    requires
        -4096 <= f <= 4095,
        -32768 <= v <= 32767,
    ensures
        r == scaled(f as int, v as int),
{
    proof {
        assert(-0x800_0000 <= f * v <= 0x800_0000) by (nonlinear_arith)
            requires
                -4096 <= f <= 4095,
                -32768 <= v <= 32767,
        ;
    }
    let p: i32 = f * v;
    let round: i32 = if p < 0 {
        128
    } else {
        127
    };
    clip(floor_div(p + round, 256), -32768, 32767)
}

/// Scales a vector over distance `td` to distance `tb`.
pub fn mv_scale(v: Mv, td: i32, tb: i32) -> (r: Mv)
    requires
        td != 0,
        -32768 <= v.x <= 32767,
        -32768 <= v.y <= 32767,
    ensures
        r == scaled_mv(v, td, tb),
{
    proof {
        reveal(scaled_mv);
    }
    let f = factor_of(td, tb);
    Mv { x: scale_part(f, v.x), y: scale_part(f, v.y) }
}

// ---------------------------------------------------------------------------
// Temporal candidates

/// A vector of a list, in 32 bits.
pub open spec fn vec_of(m: MvField, l: int) -> Mv {
    Mv { x: m.mv[l][0] as i32, y: m.mv[l][1] as i32 }
}

pub(crate) fn vec_at(m: &MvField, l: usize) -> (v: Mv)
    requires
        l < 2,
    ensures
        v == vec_of(*m, l as int),
        -32768 <= v.x <= 32767,
        -32768 <= v.y <= 32767,
{
    Mv { x: m.mv[l][0] as i32, y: m.mv[l][1] as i32 }
}

/// The list of a collocated block that a candidate for list `l` is taken from.
#[verifier::opaque]
pub open spec fn col_list(t: MvField, l: int, ri: RefV, collocated_list: usize) -> int {
    if t.pred_flag & PF_L0 == 0 {
        1
    } else if t.pred_flag == PF_L0 {
        0
    } else if !ri.has_future() {
        l
    } else if collocated_list == 1 {
        0
    } else {
        1
    }
}

/// The candidate that a collocated block `t` gives for reference `ref_idx` of list `l`.
#[verifier::opaque]
pub open spec fn from_col(
    t: MvField,
    ref_idx: i8,
    l: int,
    ri: RefV,
    col: FrameMvV,
    collocated_list: usize,
) -> Option<Mv> {
    if t.pred_flag == PF_INTRA || t.pred_flag == 0 {
        None
    } else {
        let k = col_list(t, l, ri, collocated_list);
        let cur_long = ri.lists.ref_long(l, ref_idx);
        let idx = t.ref_idx[k];
        if cur_long != col.lists.ref_long(k, idx) {
            None
        } else {
            let col_diff = col.poc.wrapping_sub(col.lists.ref_poc(k, idx));
            let cur_diff = ri.poc.wrapping_sub(ri.lists.ref_poc(l, ref_idx));
            if cur_long || col_diff == cur_diff || col_diff == 0 {
                Some(vec_of(t, k))
            } else {
                Some(scaled_mv(vec_of(t, k), col_diff, cur_diff))
            }
        }
    }
}

pub(crate) fn derive_temporal_colocated(
    t: &MvField,
    ref_idx: i8,
    l: usize,
    ri: &RefInfo,
    col: &FrameMv,
    collocated_list: usize,
) -> (r: Option<Mv>)
    requires
        l < 2,
    ensures
        r == from_col(*t, ref_idx, l as int, ri@, col@, collocated_list),
{
    proof {
        reveal(from_col);
        reveal(col_list);
    }
    if t.pred_flag == PF_INTRA || t.pred_flag == 0 {
        return None;
    }
    let k: usize = if t.pred_flag & PF_L0 == 0 {
        1
    } else if t.pred_flag == PF_L0 {
        0
    } else if !ri.has_future() {
        l
    } else if collocated_list == 1 {
        0
    } else {
        1
    };
    let cur_long = ri.long_at(l, ref_idx);
    let idx = t.ref_idx[k];
    if cur_long != list_long(&col.ref_long, k, idx) {
        return None;
    }
    let col_diff = col.poc.wrapping_sub(list_poc(&col.ref_poc, k, idx));
    let cur_diff = ri.poc.wrapping_sub(ri.poc_at(l, ref_idx));
    let v = vec_at(t, k);
    if cur_long || col_diff == cur_diff || col_diff == 0 {
        Some(v)
    } else {
        Some(mv_scale(v, col_diff, cur_diff))
    }
}

} // verus!
