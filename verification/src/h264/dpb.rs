//! Reference pictures that B pictures take their collocated motion from.

use super::grids::{ColPic, ColShape};
use super::mb_b::ColV;
use super::params::Sps;
use crate::refs::{cycled, law_poc_is_nearest, next_poc_msb, pad_ref_list, poc_msb};
use vstd::arithmetic::div_mod::{lemma_fundamental_div_mod, lemma_mod_multiples_basic};
use vstd::prelude::*;

verus! {

// ---------------------------------------------------------------------------
// Picture order count

/// The picture order count of a picture: `None` where the stream does not code its least
/// significant part; and the parts to compare the next picture with, which only a reference picture
/// changes.
pub open spec fn poc_of(
    sps: Sps,
    lsb: u32,
    nal_ref_idc: u8,
    prev_msb: i32,
    prev_lsb: i32,
) -> (Option<i32>, i32, i32) {
    if sps.pic_order_cnt_type != 0 {
        (None, prev_msb, prev_lsb)
    } else {
        let max = 1i32.wrapping_shl(sps.log2_max_pic_order_cnt_lsb);
        let msb = poc_msb(max, lsb as i32, prev_msb, prev_lsb);
        (
            Some(msb.wrapping_add(lsb as i32)),
            if nal_ref_idc != 0 {
                msb
            } else {
                prev_msb
            },
            if nal_ref_idc != 0 {
                lsb as i32
            } else {
                prev_lsb
            },
        )
    }
}

/// The picture order count of a picture with `pic_order_cnt_type` 0. `prev_msb` and `prev_lsb` are
/// those of the previous reference picture; the caller sets them to 0 at an IDR picture.
pub fn h264_compute_poc(
    sps: &Sps,
    pic_order_cnt_lsb: u32,
    nal_ref_idc: u8,
    prev_msb: &mut i32,
    prev_lsb: &mut i32,
) -> (poc: Option<i32>)
    ensures
        (poc, *final(prev_msb), *final(prev_lsb)) == poc_of(
            *sps,
            pic_order_cnt_lsb,
            nal_ref_idc,
            *old(prev_msb),
            *old(prev_lsb),
        ),
{
    if sps.pic_order_cnt_type != 0 {
        return None;
    }
    let max = 1i32.wrapping_shl(sps.log2_max_pic_order_cnt_lsb);
    let lsb = pic_order_cnt_lsb as i32;
    let msb = next_poc_msb(max, lsb, *prev_msb, *prev_lsb);
    if nal_ref_idc != 0 {
        *prev_msb = msb;
        *prev_lsb = lsb;
    }
    Some(msb.wrapping_add(lsb))
}

// ---------------------------------------------------------------------------
// Reference pictures

/// The motion of a reference picture. List 1 is there only for B pictures.
pub struct H264RefFrame {
    pub poc: i32,
    pub bw: usize,
    pub mv: Vec<[i32; 2]>,
    pub refi: Vec<i32>,
    pub mv1: Option<Vec<[i32; 2]>>,
    pub refi1: Option<Vec<i32>>,
    pub col_shape: Vec<ColShape>,
}

/// The motion of a reference picture.
pub struct RefFrameV {
    pub poc: i32,
    pub col: ColV,
}

impl View for H264RefFrame {
    type V = RefFrameV;

    open spec fn view(&self) -> RefFrameV {
        RefFrameV {
            poc: self.poc,
            col: ColV {
                bw: self.bw,
                mv0: self.mv@,
                refi0: self.refi@,
                mv1: match self.mv1 {
                    Some(v) => Some(v@),
                    None => None,
                },
                refi1: match self.refi1 {
                    Some(v) => Some(v@),
                    None => None,
                },
                col_shape: self.col_shape@,
            },
        }
    }
}

impl H264RefFrame {
    /// The picture as a collocated picture.
    pub fn as_col_pic(&self) -> (c: ColPic<'_>)
        ensures
            c@ == self@.col,
    {
        ColPic {
            bw: self.bw,
            mv0: self.mv.as_slice(),
            refi0: self.refi.as_slice(),
            mv1: match &self.mv1 {
                Some(v) => Some(v.as_slice()),
                None => None,
            },
            refi1: match &self.refi1 {
                Some(v) => Some(v.as_slice()),
                None => None,
            },
            col_shape: self.col_shape.as_slice(),
        }
    }
}

/// The reference pictures as they are modelled.
pub open spec fn frames(dpb: Seq<H264RefFrame>) -> Seq<RefFrameV> {
    Seq::new(dpb.len(), |i: int| dpb[i]@)
}

// ---------------------------------------------------------------------------
// The collocated picture

/// Picture `j` comes before picture `i` in a list of earlier (`past`) or later pictures: it is
/// nearer to the current one, or as near.
pub open spec fn nearer(f: Seq<RefFrameV>, past: bool, j: usize, i: usize) -> bool {
    if past {
        f[j as int].poc >= f[i as int].poc
    } else {
        f[j as int].poc <= f[i as int].poc
    }
}

/// Picture `i` put into the ordered list `l`, behind those that are as near.
pub open spec fn inserted(f: Seq<RefFrameV>, past: bool, l: Seq<usize>, i: usize) -> Seq<usize>
    decreases l.len(),
{
    if l.len() == 0 || nearer(f, past, l.last(), i) {
        l.push(i)
    } else {
        inserted(f, past, l.drop_last(), i).push(l.last())
    }
}

/// Picture `i` is an earlier or a later one than the current picture.
pub open spec fn on_side(f: Seq<RefFrameV>, past: bool, i: int, poc: i32) -> bool {
    if past {
        f[i].poc < poc
    } else {
        f[i].poc > poc
    }
}

/// Those of the first `n` reference pictures that are earlier (`past`) or later than the current
/// one, the nearest first.
pub open spec fn side_list(f: Seq<RefFrameV>, past: bool, poc: i32, n: nat) -> Seq<usize>
    decreases n,
{
    if n == 0 {
        Seq::empty()
    } else {
        let l = side_list(f, past, poc, (n - 1) as nat);
        if on_side(f, past, n - 1, poc) {
            inserted(f, past, l, (n - 1) as usize)
        } else {
            l
        }
    }
}

proof fn lemma_inserted_at(f: Seq<RefFrameV>, past: bool, l: Seq<usize>, i: usize, k: int)
    requires
        0 <= k <= l.len(),
        k > 0 ==> nearer(f, past, l[k - 1], i),
        forall|j: int| k <= j < l.len() ==> !nearer(f, past, #[trigger] l[j], i),
    ensures
        inserted(f, past, l, i) == l.insert(k, i),
    decreases l.len(),
{
    if l.len() == k {
        assert(l.insert(k, i) =~= l.push(i));
    } else {
        assert(!nearer(f, past, l[l.len() - 1], i));
        lemma_inserted_at(f, past, l.drop_last(), i, k);
        assert(l.insert(k, i) =~= l.drop_last().insert(k, i).push(l.last()));
    }
}

pub proof fn lemma_side_list(f: Seq<RefFrameV>, past: bool, poc: i32, n: nat)
    requires
        n <= f.len(),
        f.len() <= usize::MAX,
    ensures
        ({
            let l = side_list(f, past, poc, n);
            &&& forall|k: int|
                0 <= k < l.len() ==> 0 <= (#[trigger] l[k]) < n && on_side(
                    f,
                    past,
                    l[k] as int,
                    poc,
                )
            &&& forall|i: int|
                0 <= i < n && #[trigger] on_side(f, past, i, poc) ==> l.contains(i as usize)
            &&& forall|j: int, k: int|
                0 <= j <= k < l.len() ==> nearer(f, past, #[trigger] l[j], #[trigger] l[k])
        }),
    decreases n,
{
    if n > 0 {
        lemma_side_list(f, past, poc, (n - 1) as nat);
        let l = side_list(f, past, poc, (n - 1) as nat);
        let i = (n - 1) as usize;
        if on_side(f, past, n - 1, poc) {
            lemma_inserted_sorted(f, past, l, i);
            let m = inserted(f, past, l, i);
            assert forall|x: int| 0 <= x < n && #[trigger] on_side(f, past, x, poc) implies
                m.contains(x as usize) by {
                if x != n - 1 {
                    assert(l.contains(x as usize));
                }
            }
            assert forall|k: int| 0 <= k < m.len() implies 0 <= (#[trigger] m[k]) < n && on_side(
                f,
                past,
                m[k] as int,
                poc,
            ) by {
                assert(m.contains(m[k]));
                if m[k] != i {
                    assert(l.contains(m[k]));
                }
            }
        }
    }
}

proof fn lemma_inserted_sorted(f: Seq<RefFrameV>, past: bool, l: Seq<usize>, i: usize)
    requires
        forall|j: int, k: int|
            0 <= j <= k < l.len() ==> nearer(f, past, #[trigger] l[j], #[trigger] l[k]),
    ensures
        ({
            let m = inserted(f, past, l, i);
            &&& forall|j: int, k: int|
                0 <= j <= k < m.len() ==> nearer(f, past, #[trigger] m[j], #[trigger] m[k])
            &&& m.contains(i)
            &&& forall|x: usize| #[trigger] l.contains(x) ==> m.contains(x)
            &&& forall|x: usize| #[trigger] m.contains(x) ==> x == i || l.contains(x)
        }),
    decreases l.len(),
{
    let m = inserted(f, past, l, i);
    if l.len() == 0 || nearer(f, past, l.last(), i) {
        assert(m == l.push(i));
        assert(m[l.len() as int] == i);
        assert forall|x: usize| #[trigger] l.contains(x) implies m.contains(x) by {
            let k = choose|k: int| 0 <= k < l.len() && l[k] == x;
            assert(m[k] == x);
        }
        assert forall|j: int, k: int| 0 <= j <= k < m.len() implies nearer(
            f,
            past,
            #[trigger] m[j],
            #[trigger] m[k],
        ) by {
            if k == l.len() && j < l.len() {
                assert(nearer(f, past, l[j], l[l.len() - 1]));
            }
        }
    } else {
        let rest = l.drop_last();
        lemma_inserted_sorted(f, past, rest, i);
        let r = inserted(f, past, rest, i);
        assert(m == r.push(l.last()));
        assert(m[r.len() as int] == l.last());
        assert(m.contains(i)) by {
            let k = choose|k: int| 0 <= k < r.len() && r[k] == i;
            assert(m[k] == i);
        }
        assert forall|x: usize| #[trigger] l.contains(x) implies m.contains(x) by {
            let k = choose|k: int| 0 <= k < l.len() && l[k] == x;
            if k < rest.len() {
                assert(rest[k] == x);
                assert(rest.contains(x));
                let k2 = choose|k2: int| 0 <= k2 < r.len() && r[k2] == x;
                assert(m[k2] == x);
            }
        }
        assert forall|x: usize| #[trigger] m.contains(x) implies x == i || l.contains(x) by {
            let k = choose|k: int| 0 <= k < m.len() && m[k] == x;
            if k < r.len() {
                assert(r[k] == x);
                assert(r.contains(x));
                if x != i {
                    let k2 = choose|k2: int| 0 <= k2 < rest.len() && rest[k2] == x;
                    assert(l[k2] == x);
                }
            } else {
                assert(l[l.len() - 1] == x);
            }
        }
        assert forall|j: int, k: int| 0 <= j <= k < m.len() implies nearer(
            f,
            past,
            #[trigger] m[j],
            #[trigger] m[k],
        ) by {
            if k == r.len() && j < r.len() {
                assert(r.contains(r[j]));
                if r[j] != i {
                    let k2 = choose|k2: int| 0 <= k2 < rest.len() && rest[k2] == r[j];
                    assert(nearer(f, past, l[k2], l[l.len() - 1]));
                }
            }
        }
    }
}

fn side(dpb: &[H264RefFrame], past: bool, poc: i32) -> (l: Vec<usize>)
    ensures
        l@ == side_list(frames(dpb@), past, poc, dpb@.len()),
        forall|k: int| 0 <= k < l@.len() ==> #[trigger] l@[k] < dpb@.len(),
{
    let ghost f = frames(dpb@);
    let mut l: Vec<usize> = Vec::new();
    assert(l@ =~= Seq::<usize>::empty());
    let mut i: usize = 0;
    while i < dpb.len()
        invariant
            i <= dpb@.len(),
            f == frames(dpb@),
            l@ == side_list(f, past, poc, i as nat),
            forall|k: int| 0 <= k < l@.len() ==> #[trigger] l@[k] < i,
        decreases dpb@.len() - i,
    {
        let p = dpb[i].poc;
        if (past && p < poc) || (!past && p > poc) {
            let mut k: usize = l.len();
            let mut go = true;
            while go && k > 0
                invariant
                    i < dpb@.len(),
                    f == frames(dpb@),
                    p == dpb@[i as int].poc,
                    k <= l@.len(),
                    forall|j: int| 0 <= j < l@.len() ==> #[trigger] l@[j] < i,
                    forall|j: int| k <= j < l@.len() ==> !nearer(f, past, #[trigger] l@[j], i),
                    !go ==> k > 0 && nearer(f, past, l@[k - 1], i),
                decreases
                        k,
                        (if go {
                            1int
                        } else {
                            0int
                        }),
            {
                let q = dpb[l[k - 1]].poc;
                assert(q == f[l@[k - 1] as int].poc);
                if (past && q >= p) || (!past && q <= p) {
                    go = false;
                } else {
                    k -= 1;
                }
            }
            proof {
                lemma_inserted_at(f, past, l@, i, k as int);
            }
            l.insert(k, i);
        }
        i += 1;
    }
    l
}

/// The first entry of list 1 of a B picture: list 0 starts with the nearest earlier picture, list 1
/// with the nearest later one, and where both lists are the same and longer than one entry, list 1
/// starts with the second.
pub open spec fn col_pic(f: Seq<RefFrameV>, poc: i32, nb_l0: usize, nb_l1: usize) -> Option<usize> {
    let past = side_list(f, true, poc, f.len());
    let future = side_list(f, false, poc, f.len());
    let n0 = if nb_l0 > 1 {
        nb_l0 as nat
    } else {
        1nat
    };
    let n1 = if nb_l1 > 1 {
        nb_l1 as nat
    } else {
        1nat
    };
    let l0 = cycled(past + future, n0);
    let l1 = cycled(future + past, n1);
    if l1.len() == 0 {
        None
    } else if l1.len() > 1 && l0 == l1 {
        Some(l1[1])
    } else {
        Some(l1[0])
    }
}

fn same(a: &Vec<usize>, b: &Vec<usize>) -> (r: bool)
    ensures
        r == (a@ == b@),
{
    if a.len() != b.len() {
        return false;
    }
    let mut i: usize = 0;
    while i < a.len()
        invariant
            i <= a@.len(),
            a@.len() == b@.len(),
            forall|k: int| 0 <= k < i ==> #[trigger] a@[k] == b@[k],
        decreases a@.len() - i,
    {
        if a[i] != b[i] {
            return false;
        }
        i += 1;
    }
    assert(a@ =~= b@);
    true
}

/// The collocated picture of a B picture with picture order count `cur_poc`; `None` where there is
/// no reference picture.
pub fn h264_col_pic(
    dpb: &[H264RefFrame],
    cur_poc: i32,
    nb_l0: usize,
    nb_l1: usize,
) -> (i: Option<usize>)
    ensures
        i == col_pic(frames(dpb@), cur_poc, nb_l0, nb_l1),
        i matches Some(k) ==> k < dpb@.len(),
{
    let past = side(dpb, true, cur_poc);
    let future = side(dpb, false, cur_poc);
    let n0: usize = if nb_l0 > 1 {
        nb_l0
    } else {
        1
    };
    let n1: usize = if nb_l1 > 1 {
        nb_l1
    } else {
        1
    };
    let l0 = pad_ref_list(past.as_slice(), future.as_slice(), n0);
    let l1 = pad_ref_list(future.as_slice(), past.as_slice(), n1);
    proof {
        let all = future@ + past@;
        if all.len() > 0 {
            assert forall|k: int| 0 <= k < l1@.len() implies #[trigger] l1@[k] < dpb@.len() by {
                let j = k % (all.len() as int);
                assert(0 <= j < all.len());
                assert(l1@[k] == all[j]);
                if j < future@.len() {
                    assert(all[j] == future@[j]);
                } else {
                    assert(all[j] == past@[j - future@.len()]);
                }
            }
        }
    }
    if l1.len() == 0 {
        None
    } else if l1.len() > 1 && same(&l0, &l1) {
        Some(l1[1])
    } else {
        Some(l1[0])
    }
}

/// With reference pictures on both sides, the collocated picture is the nearest later one.
pub proof fn law_col_pic_is_nearest_future(
    f: Seq<RefFrameV>,
    poc: i32,
    nb_l0: usize,
    nb_l1: usize,
    earlier: int,
    later: int,
)
    requires
        f.len() <= usize::MAX,
        0 <= earlier < f.len(),
        f[earlier].poc < poc,
        0 <= later < f.len(),
        f[later].poc > poc,
    ensures
        ({
            let c = col_pic(f, poc, nb_l0, nb_l1);
            &&& c is Some
            &&& 0 <= c->0 < f.len()
            &&& poc < f[c->0 as int].poc <= f[later].poc
        }),
{
    lemma_side_list(f, true, poc, f.len());
    lemma_side_list(f, false, poc, f.len());
    let past = side_list(f, true, poc, f.len());
    let future = side_list(f, false, poc, f.len());
    assert(on_side(f, true, earlier, poc));
    assert(on_side(f, false, later, poc));
    assert(past.contains(earlier as usize));
    assert(future.contains(later as usize));
    let n0 = if nb_l0 > 1 {
        nb_l0 as nat
    } else {
        1nat
    };
    let n1 = if nb_l1 > 1 {
        nb_l1 as nat
    } else {
        1nat
    };
    let l0 = cycled(past + future, n0);
    let l1 = cycled(future + past, n1);
    vstd::arithmetic::div_mod::lemma_small_mod(0, (past + future).len());
    assert(l0[0] == past[0]);
    assert(l1[0] == future[0]);
    assert(on_side(f, true, past[0] as int, poc));
    assert(on_side(f, false, future[0] as int, poc));
    assert(l0 != l1);
    let k = choose|k: int| 0 <= k < future.len() && future[k] == later as usize;
    assert(nearer(f, false, future[0], future[k]));
}

/// The parts of a picture order count with period `max`: a multiple of it and what is below it.
pub open spec fn poc_parts(max: i32, msb: i32, lsb: i32) -> bool {
    0 <= lsb < max && msb as int % max as int == 0
}

/// The picture order count of a picture agrees with its least significant part and lies from less
/// than half of the period before that of the previous reference picture to half of it behind. A
/// reference picture hands its own parts on, another one those that it got.
pub proof fn law_order_count_is_nearest(
    sps: Sps,
    lsb: u32,
    nal_ref_idc: u8,
    prev_msb: i32,
    prev_lsb: i32,
)
    requires
        sps.pic_order_cnt_type == 0,
        1 <= sps.log2_max_pic_order_cnt_lsb <= 16,
        lsb < 1i32.wrapping_shl(sps.log2_max_pic_order_cnt_lsb),
        poc_parts(1i32.wrapping_shl(sps.log2_max_pic_order_cnt_lsb), prev_msb, prev_lsb),
        -0x4000_0000 <= prev_msb <= 0x4000_0000,
    ensures
        ({
            let max = 1i32.wrapping_shl(sps.log2_max_pic_order_cnt_lsb);
            let (poc, msb, low) = poc_of(sps, lsb, nal_ref_idc, prev_msb, prev_lsb);
            let prev = prev_msb + prev_lsb;
            &&& poc is Some
            &&& poc->0 as int % max as int == lsb
            &&& -(max / 2) < poc->0 - prev <= max / 2
            &&& poc_parts(max, msb, low)
            &&& msb + low == if nal_ref_idc != 0 {
                poc->0 as int
            } else {
                prev
            }
        }),
{
    let k = sps.log2_max_pic_order_cnt_lsb % 32;
    assert(1 <= k <= 16 ==> 2 <= 1i32 << k <= 0x10000 && (1i32 << k) % 2 == 0) by (bit_vector);
    let max = 1i32.wrapping_shl(sps.log2_max_pic_order_cnt_lsb);
    law_poc_is_nearest(max, lsb as i32, prev_msb, prev_lsb);
    let m = max as int;
    let msb = poc_msb(max, lsb as i32, prev_msb, prev_lsb) as int;
    lemma_fundamental_div_mod(msb + lsb, m);
    assert(msb == m * ((msb + lsb) / m));
    lemma_mod_multiples_basic((msb + lsb) / m, m);
    assert(m * ((msb + lsb) / m) == ((msb + lsb) / m) * m) by (nonlinear_arith);
}

} // verus!
