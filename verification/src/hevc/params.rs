//! H.265 parameter sets and short-term reference picture sets.

use crate::bits::{lemma_u_bound, skip_se, skip_ue, BitReader, Bits};
use vstd::prelude::*;

verus! {

// ---------------------------------------------------------------------------
// profile_tier_level

/// Presence flags of the profile and the level of `n` sub-layers, behind those in `flags`.
pub open spec fn sub_layer_flags(b: Bits, flags: Seq<(bool, bool)>, n: nat) -> (
    Seq<(bool, bool)>,
    Bits,
)
    decreases n,
{
    if n == 0 {
        (flags, b)
    } else {
        let (profile, b) = b.flag();
        let (level, b) = b.flag();
        sub_layer_flags(b, flags.push((profile, level)), (n - 1) as nat)
    }
}

fn read_sub_layer_flags(r: &mut BitReader, n: u32) -> (flags: Vec<(bool, bool)>)
    ensures
        (flags@, final(r)@) == sub_layer_flags(old(r)@, Seq::empty(), n as nat),
{
    let mut flags: Vec<(bool, bool)> = Vec::new();
    assert(flags@ =~= Seq::<(bool, bool)>::empty());
    let mut left: u32 = n;
    while left > 0
        invariant
            sub_layer_flags(r@, flags@, left as nat) == sub_layer_flags(
                old(r)@,
                Seq::empty(),
                n as nat,
            ),
        decreases left,
    {
        let profile = r.read_flag();
        let level = r.read_flag();
        flags.push((profile, level));
        left -= 1;
    }
    flags
}

/// Sub-layers `i..`: 88 bits of profile and 8 bits of level, where present.
pub open spec fn sub_layers(b: Bits, flags: Seq<(bool, bool)>, i: int) -> Bits
    decreases flags.len() - i,
{
    if i >= flags.len() {
        b
    } else {
        let (profile, level) = flags[i];
        let b = if profile {
            b.seek(88)
        } else {
            b
        };
        let b = if level {
            b.seek(8)
        } else {
            b
        };
        sub_layers(b, flags, i + 1)
    }
}

fn skip_sub_layers(r: &mut BitReader, flags: &Vec<(bool, bool)>)
    ensures
        final(r)@ == sub_layers(old(r)@, flags@, 0),
{
    let mut i: usize = 0;
    while i < flags.len()
        invariant
            i <= flags@.len(),
            sub_layers(r@, flags@, i as int) == sub_layers(old(r)@, flags@, 0),
        decreases flags@.len() - i,
    {
        let (profile, level) = flags[i];
        if profile {
            r.skip_bits(88);
        }
        if level {
            r.skip_bits(8);
        }
        i += 1;
    }
}

/// `profile_tier_level()` with `n` sub-layers below the highest: `general_profile_idc`. The general
/// part takes 96 bits; the flags of present sub-layers are padded to eight pairs.
#[verifier::opaque]
pub open spec fn profile_tier(b: Bits, n: u32) -> (u8, Bits) {
    let (_, b) = b.u(2);
    let (_, b) = b.flag();
    let (idc, b) = b.u(5);
    let b = b.seek(80);
    let (_, b) = b.u(8);
    let (flags, b) = sub_layer_flags(b, Seq::empty(), n as nat);
    let b = if n > 0 {
        b.seek(2 * (8 - n))
    } else {
        b
    };
    (idc as u8, sub_layers(b, flags, 0))
}

fn profile_tier_level(r: &mut BitReader, n: u32) -> (idc: u8)
    requires
        n <= 8,
    ensures
        (idc, final(r)@) == profile_tier(old(r)@, n),
{
    proof {
        reveal(profile_tier);
    }
    let _profile_space = r.read_bits(2);
    let _tier = r.read_flag();
    let idc = r.read_bits(5);
    r.skip_bits(80);
    let _level_idc = r.read_bits(8);
    let flags = read_sub_layer_flags(r, n);
    if n > 0 {
        r.skip_bits(2 * (8 - n as usize));
    }
    skip_sub_layers(r, &flags);
    idc as u8
}

// ---------------------------------------------------------------------------
// scaling_list_data

/// Scaling list `matrix` of size class `size`.
#[verifier::opaque]
pub open spec fn scaling_list(b: Bits, size: int) -> Bits {
    let (coded, b) = b.flag();
    if !coded {
        b.ue().1
    } else {
        let b = if size > 1 {
            b.se().1
        } else {
            b
        };
        skip_se(
            b,
            if size == 0 {
                16
            } else {
                64
            },
        )
    }
}

fn skip_scaling_list(r: &mut BitReader, size: u32)
    ensures
        final(r)@ == scaling_list(old(r)@, size as int),
{
    proof {
        reveal(scaling_list);
    }
    if !r.read_flag() {
        let _pred_matrix_id_delta = r.read_ue();
    } else {
        if size > 1 {
            let _dc_coef = r.read_se();
        }
        r.drop_se(
            if size == 0 {
                16
            } else {
                64
            },
        );
    }
}

/// Scaling lists from list `matrix` of size class `size` on: six of each of the first three
/// classes, two of the last.
pub open spec fn scaling_lists(b: Bits, size: int, matrix: int) -> Bits
    decreases 4 - size, 6 - matrix,
{
    if size >= 4 {
        b
    } else if matrix >= 6 {
        scaling_lists(b, size + 1, 0)
    } else if size == 3 && matrix >= 3 {
        scaling_list(b, size)
    } else {
        scaling_lists(
            scaling_list(b, size),
            size,
            if size == 3 {
                3
            } else {
                matrix + 1
            },
        )
    }
}

fn skip_scaling_list_data(r: &mut BitReader)
    ensures
        final(r)@ == scaling_lists(old(r)@, 0, 0),
{
    let mut size: u32 = 0;
    while size < 3
        invariant
            size <= 3,
            scaling_lists(r@, size as int, 0) == scaling_lists(old(r)@, 0, 0),
        decreases 3 - size,
    {
        let mut matrix: u32 = 0;
        while matrix < 6
            invariant
                size < 3,
                matrix <= 6,
                scaling_lists(r@, size as int, matrix as int) == scaling_lists(old(r)@, 0, 0),
            decreases 6 - matrix,
        {
            skip_scaling_list(r, size);
            matrix += 1;
        }
        size += 1;
    }
    let ghost b3 = r@;
    skip_scaling_list(r, 3);
    let ghost b4 = r@;
    skip_scaling_list(r, 3);
    assert(scaling_lists(b4, 3, 3) == scaling_list(b4, 3));
    assert(scaling_lists(b3, 3, 0) == scaling_lists(b4, 3, 3));
}

// ---------------------------------------------------------------------------
// Short-term reference picture sets

/// A short-term reference picture set: distances in picture order from the current picture, the
/// negative ones first, and whether the current picture uses each.
#[derive(Debug, Clone, Default)]
pub struct ShortRps {
    pub delta_poc: Vec<i32>,
    pub used: Vec<bool>,
    pub num_negative: u32,
}

/// The model of a [`ShortRps`].
pub struct RpsV {
    pub delta: Seq<i32>,
    pub used: Seq<bool>,
    pub num_negative: u32,
}

impl View for ShortRps {
    type V = RpsV;

    open spec fn view(&self) -> RpsV {
        RpsV { delta: self.delta_poc@, used: self.used@, num_negative: self.num_negative }
    }
}

/// How many of the first `n` flags are set.
pub open spec fn set_flags(s: Seq<bool>, n: nat) -> nat
    decreases n,
{
    if n == 0 {
        0
    } else {
        set_flags(s, (n - 1) as nat) + if s[n - 1] {
            1nat
        } else {
            0nat
        }
    }
}

impl RpsV {
    /// The set without pictures.
    pub open spec fn none() -> RpsV {
        RpsV { delta: Seq::empty(), used: Seq::empty(), num_negative: 0 }
    }

    /// There is a flag for each distance.
    pub open spec fn wf(self) -> bool {
        self.delta.len() == self.used.len()
    }

    /// Number of pictures that the current picture uses.
    pub open spec fn uses(self) -> nat {
        set_flags(self.used, self.used.len())
    }
}

impl ShortRps {
    /// The set without pictures.
    pub fn none() -> (s: ShortRps)
        ensures
            s@ == RpsV::none(),
    {
        let s = ShortRps { delta_poc: Vec::new(), used: Vec::new(), num_negative: 0 };
        assert(s@.delta =~= RpsV::none().delta);
        assert(s@.used =~= RpsV::none().used);
        s
    }

    /// Number of pictures in the set.
    pub fn num_delta_pocs(&self) -> (n: u32)
        ensures
            n == self@.delta.len() as u32,
    {
        self.delta_poc.len() as u32
    }

    /// Number of pictures that the current picture uses.
    pub fn num_used(&self) -> (n: u32)
        ensures
            n == self@.uses() as u32,
    {
        let mut n: usize = 0;
        let mut i: usize = 0;
        while i < self.used.len()
            invariant
                n <= i <= self.used@.len(),
                n == set_flags(self.used@, i as nat),
            decreases self.used@.len() - i,
        {
            if self.used[i] {
                n += 1;
            }
            i += 1;
        }
        n as u32
    }

    /// A copy of the set.
    pub fn copy(&self) -> (s: ShortRps)
        ensures
            s@ == self@,
    {
        ShortRps {
            delta_poc: crate::grid::copy_vec(&self.delta_poc),
            used: crate::grid::copy_vec(&self.used),
            num_negative: self.num_negative,
        }
    }
}

/// The models of a list of sets.
pub open spec fn rps_views(s: Seq<ShortRps>) -> Seq<RpsV> {
    Seq::new(s.len(), |i: int| s[i]@)
}

/// Where distance `d` goes in a list of distances: behind the last that is not greater.
pub open spec fn slot(delta: Seq<i32>, d: i32) -> int
    decreases delta.len(),
{
    if delta.len() == 0 || delta.last() <= d {
        delta.len() as int
    } else {
        slot(delta.drop_last(), d)
    }
}

/// The set with one more distance, in order.
pub open spec fn rps_insert(s: RpsV, d: i32, used: bool) -> RpsV {
    let k = slot(s.delta, d);
    RpsV {
        delta: s.delta.insert(k, d),
        used: s.used.insert(k, used),
        num_negative: if d < 0 {
            s.num_negative.wrapping_add(1)
        } else {
            s.num_negative
        },
    }
}

proof fn lemma_slot(delta: Seq<i32>, d: i32, k: int)
    requires
        0 <= k <= delta.len(),
        k > 0 ==> delta[k - 1] <= d,
        forall|j: int| k <= j < delta.len() ==> delta[j] > d,
    ensures
        slot(delta, d) == k,
    decreases delta.len(),
{
    if k < delta.len() {
        lemma_slot(delta.drop_last(), d, k);
    }
}

pub proof fn lemma_slot_bound(delta: Seq<i32>, d: i32)
    ensures
        0 <= slot(delta, d) <= delta.len(),
        slot(delta, d) > 0 ==> delta[slot(delta, d) - 1] <= d,
        forall|j: int| slot(delta, d) <= j < delta.len() ==> delta[j] > d,
    decreases delta.len(),
{
    if !(delta.len() == 0 || delta.last() <= d) {
        lemma_slot_bound(delta.drop_last(), d);
        assert forall|j: int| slot(delta, d) <= j < delta.len() implies delta[j] > d by {
            if j < delta.len() - 1 {
                assert(delta.drop_last()[j] == delta[j]);
            }
        }
    }
}

fn insert_delta(s: &mut ShortRps, d: i32, used: bool)
    requires
        old(s)@.wf(),
    ensures
        final(s)@ == rps_insert(old(s)@, d, used),
        final(s)@.wf(),
{
    let mut k: usize = s.delta_poc.len();
    let mut go = true;
    while go && k > 0
        invariant
            k <= s.delta_poc@.len(),
            s.delta_poc@ == old(s).delta_poc@,
            s.used@ == old(s).used@,
            s.num_negative == old(s).num_negative,
            !go ==> k > 0 && s.delta_poc@[k - 1] <= d,
            forall|j: int| k <= j < s.delta_poc@.len() ==> s.delta_poc@[j] > d,
        decreases
                k,
                (if go {
                    1int
                } else {
                    0int
                }),
    {
        if s.delta_poc[k - 1] <= d {
            go = false;
        } else {
            k -= 1;
        }
    }
    proof {
        lemma_slot(s.delta_poc@, d, k as int);
    }
    s.delta_poc.insert(k, d);
    s.used.insert(k, used);
    if d < 0 {
        s.num_negative = s.num_negative.wrapping_add(1);
    }
}

/// Entries `i..` of a set that is predicted from the distances `from`, each of them and zero moved
/// by `by`: a used flag, and for an entry that is not used whether it is in the set at all.
pub open spec fn rps_predicted(b: Bits, s: RpsV, from: Seq<i32>, by: i32, i: int) -> (RpsV, Bits)
    decreases from.len() + 1 - i,
{
    if i > from.len() {
        (s, b)
    } else {
        let (used, b) = b.flag();
        let (kept, b) = if used {
            (true, b)
        } else {
            b.flag()
        };
        let d = if i < from.len() {
            by.wrapping_add(from[i])
        } else {
            by
        };
        rps_predicted(
            b,
            if kept {
                rps_insert(s, d, used)
            } else {
                s
            },
            from,
            by,
            i + 1,
        )
    }
}

fn read_rps_predicted(r: &mut BitReader, from: &Vec<i32>, by: i32) -> (s: ShortRps)
    ensures
        (s@, final(r)@) == rps_predicted(old(r)@, RpsV::none(), from@, by, 0),
        s@.wf(),
{
    let mut s = ShortRps::none();
    let n: usize = from.len();
    let mut i: usize = 0;
    while i < n
        invariant
            n == from@.len(),
            i <= n,
            s@.wf(),
            rps_predicted(r@, s@, from@, by, i as int) == rps_predicted(
                old(r)@,
                RpsV::none(),
                from@,
                by,
                0,
            ),
        decreases n - i,
    {
        let used = r.read_flag();
        let kept = used || r.read_flag();
        if kept {
            insert_delta(&mut s, by.wrapping_add(from[i]), used);
        }
        i += 1;
    }
    let ghost b1 = r@;
    let ghost s1 = s@;
    let used = r.read_flag();
    let kept = used || r.read_flag();
    if kept {
        insert_delta(&mut s, by, used);
    }
    assert(rps_predicted(r@, s@, from@, by, n + 1) == (s@, r@));
    assert(rps_predicted(b1, s1, from@, by, n as int) == (s@, r@));
    s
}

/// `n` coded distances, each counted from the one before it, downwards or upwards.
pub open spec fn rps_run(b: Bits, s: RpsV, prev: i32, down: bool, n: nat) -> (RpsV, Bits)
    decreases n,
{
    if n == 0 {
        (s, b)
    } else {
        let (code, b) = b.ue();
        let gap = (code as i32).wrapping_add(1);
        let d = if down {
            prev.wrapping_sub(gap)
        } else {
            prev.wrapping_add(gap)
        };
        let (used, b) = b.flag();
        rps_run(
            b,
            RpsV { delta: s.delta.push(d), used: s.used.push(used), ..s },
            d,
            down,
            (n - 1) as nat,
        )
    }
}

fn read_rps_run(r: &mut BitReader, s: &mut ShortRps, down: bool, n: u32)
    requires
        old(s)@.wf(),
    ensures
        (final(s)@, final(r)@) == rps_run(old(r)@, old(s)@, 0, down, n as nat),
        final(s)@.wf(),
{
    let mut prev: i32 = 0;
    let mut left: u32 = n;
    while left > 0
        invariant
            s@.wf(),
            rps_run(r@, s@, prev, down, left as nat) == rps_run(
                old(r)@,
                old(s)@,
                0,
                down,
                n as nat,
            ),
        decreases left,
    {
        let gap = (r.read_ue() as i32).wrapping_add(1);
        prev = if down {
            prev.wrapping_sub(gap)
        } else {
            prev.wrapping_add(gap)
        };
        s.delta_poc.push(prev);
        s.used.push(r.read_flag());
        left -= 1;
    }
}

/// A set coded entry by entry.
#[verifier::opaque]
pub open spec fn rps_coded(b: Bits) -> (RpsV, Bits) {
    let (neg, b) = b.ue();
    let (pos, b) = b.ue();
    let (s, b) = rps_run(b, RpsV { num_negative: neg, ..RpsV::none() }, 0, true, neg as nat);
    rps_run(b, s, 0, false, pos as nat)
}

fn read_rps_coded(r: &mut BitReader) -> (s: ShortRps)
    ensures
        (s@, final(r)@) == rps_coded(old(r)@),
        s@.wf(),
{
    proof {
        reveal(rps_coded);
    }
    let neg = r.read_ue();
    let pos = r.read_ue();
    let mut s = ShortRps::none();
    s.num_negative = neg;
    read_rps_run(r, &mut s, true, neg);
    read_rps_run(r, &mut s, false, pos);
    s
}

/// The set that set `idx` of a parameter set, or a set of a slice header, is predicted from. A slice
/// header counts back from the end of the list; there may be no such set.
#[verifier::opaque]
pub open spec fn rps_base(b: Bits, idx: int, sets: Seq<RpsV>, is_slice: bool) -> (
    Option<RpsV>,
    Bits,
) {
    if is_slice {
        let (code, b) = b.ue();
        if code < sets.len() {
            (Some(sets[sets.len() - 1 - code]), b)
        } else {
            (None, b)
        }
    } else {
        (Some(sets[idx - 1]), b)
    }
}

/// `st_ref_pic_set()`: set `idx` of a parameter set with `sets` before it, or that of a slice header
/// with the `sets` of the parameter set. `None` where it is predicted from a set that is not there.
#[verifier::opaque]
pub open spec fn short_rps(b: Bits, idx: int, sets: Seq<RpsV>, is_slice: bool, count: u32) -> (
    Option<RpsV>,
    Bits,
) {
    let (predict, b) = if (is_slice || idx != 0) && count > 0 {
        b.flag()
    } else {
        (false, b)
    };
    if predict {
        let (base, b) = rps_base(b, idx, sets, is_slice);
        match base {
            None => (None, b),
            Some(base) => {
                let (negative, b) = b.flag();
                let (code, b) = b.ue();
                let size = (code as i32).wrapping_add(1);
                let by = if negative {
                    0i32.wrapping_sub(size)
                } else {
                    size
                };
                let (s, b) = rps_predicted(b, RpsV::none(), base.delta, by, 0);
                (Some(s), b)
            },
        }
    } else {
        let (s, b) = rps_coded(b);
        (Some(s), b)
    }
}

/// The distances of earlier pictures stand before those of later ones; their number is kept.
pub open spec fn negatives_first(s: RpsV) -> bool {
    &&& s.wf()
    &&& s.num_negative <= s.delta.len()
    &&& forall|i: int|
        0 <= i < s.delta.len() ==> (#[trigger] s.delta[i] < 0 <==> i < s.num_negative)
}

/// Distances in ascending order.
pub open spec fn ascending(delta: Seq<i32>) -> bool {
    forall|i: int, j: int| 0 <= i <= j < delta.len() ==> delta[i] <= delta[j]
}

/// Putting a distance into a set in order leaves the set in order.
pub proof fn law_rps_insert_sorted(s: RpsV, d: i32, used: bool)
    requires
        negatives_first(s),
        ascending(s.delta),
        s.delta.len() < u32::MAX,
    ensures
        negatives_first(rps_insert(s, d, used)),
        ascending(rps_insert(s, d, used).delta),
        rps_insert(s, d, used).delta.len() == s.delta.len() + 1,
{
    lemma_slot_bound(s.delta, d);
    let k = slot(s.delta, d);
    let t = rps_insert(s, d, used);
    assert(d < 0 ==> k <= s.num_negative) by {
        if k > 0 {
            assert(s.delta[k - 1] < 0 ==> k - 1 < s.num_negative);
        }
    }
    assert(d >= 0 ==> k >= s.num_negative) by {
        if k < s.num_negative {
            assert(s.delta[k] < 0);
        }
    }
    assert forall|i: int| 0 <= i < t.delta.len() implies (#[trigger] t.delta[i] < 0 <==> i
        < t.num_negative) by {
        if i < k {
            assert(t.delta[i] == s.delta[i]);
        } else if i > k {
            assert(t.delta[i] == s.delta[i - 1]);
        }
    }
}

proof fn lemma_predicted_sorted(b: Bits, s: RpsV, from: Seq<i32>, by: i32, i: int)
    requires
        negatives_first(s),
        ascending(s.delta),
        s.delta.len() <= i <= from.len() + 1,
        from.len() < u32::MAX,
    ensures
        negatives_first(rps_predicted(b, s, from, by, i).0),
        ascending(rps_predicted(b, s, from, by, i).0.delta),
    decreases from.len() + 1 - i,
{
    if i <= from.len() {
        let (used, b1) = b.flag();
        let (kept, b1) = if used {
            (true, b1)
        } else {
            b1.flag()
        };
        let d = if i < from.len() {
            by.wrapping_add(from[i])
        } else {
            by
        };
        law_rps_insert_sorted(s, d, used);
        let t = if kept {
            rps_insert(s, d, used)
        } else {
            s
        };
        lemma_predicted_sorted(b1, t, from, by, i + 1);
    }
}

/// A set that is predicted from another is in ascending order, earlier pictures first.
pub proof fn law_predicted_set_is_sorted(b: Bits, from: Seq<i32>, by: i32)
    requires
        from.len() < u32::MAX,
    ensures
        negatives_first(rps_predicted(b, RpsV::none(), from, by, 0).0),
        ascending(rps_predicted(b, RpsV::none(), from, by, 0).0.delta),
{
    lemma_predicted_sorted(b, RpsV::none(), from, by, 0);
}

/// The next `n` coded distances are apart by less than `2^15`.
pub open spec fn small_gaps(b: Bits, n: nat) -> bool
    decreases n,
{
    n > 0 ==> b.ue().0 < 0x7FFF && small_gaps(b.ue().1.flag().1, (n - 1) as nat)
}

proof fn lemma_run(b: Bits, s: RpsV, prev: i32, down: bool, n: nat, m: nat)
    requires
        small_gaps(b, n),
        n + m <= 0xFFFF,
        s.wf(),
        if down {
            -0x8000 * m <= prev <= 0
        } else {
            0 <= prev <= 0x8000 * m
        },
    ensures
        ({
            let t = rps_run(b, s, prev, down, n).0;
            &&& t.wf()
            &&& t.num_negative == s.num_negative
            &&& t.delta.len() == s.delta.len() + n
            &&& forall|i: int| 0 <= i < s.delta.len() ==> #[trigger] t.delta[i] == s.delta[i]
            &&& forall|i: int|
                s.delta.len() <= i < t.delta.len() ==> (if down {
                    #[trigger] t.delta[i] < prev
                } else {
                    t.delta[i] > prev
                })
            &&& forall|i: int|
                s.delta.len() < i < t.delta.len() ==> (if down {
                    #[trigger] t.delta[i] < t.delta[i - 1]
                } else {
                    t.delta[i] > t.delta[i - 1]
                })
        }),
    decreases n,
{
    if n > 0 {
        let (code, b1) = b.ue();
        let gap = (code as i32).wrapping_add(1);
        let d = if down {
            prev.wrapping_sub(gap)
        } else {
            prev.wrapping_add(gap)
        };
        let (used, b1) = b1.flag();
        let t = RpsV { delta: s.delta.push(d), used: s.used.push(used), ..s };
        lemma_run(b1, t, d, down, (n - 1) as nat, m + 1);
        let r = rps_run(b, s, prev, down, n).0;
        assert(r == rps_run(b1, t, d, down, (n - 1) as nat).0);
        assert forall|i: int| 0 <= i < s.delta.len() implies #[trigger] r.delta[i] == s.delta[i] by {
            assert(r.delta[i] == t.delta[i]);
        }
        assert(r.delta[s.delta.len() as int] == t.delta[s.delta.len() as int]);
    }
}

/// A set that is coded entry by entry has the earlier pictures first, from the nearest to the
/// farthest, and then the later ones, from the nearest to the farthest.
pub proof fn law_coded_set_is_sorted(b: Bits)
    requires
        ({
            let (neg, b1) = b.ue();
            let (pos, b2) = b1.ue();
            let none = RpsV { num_negative: neg, ..RpsV::none() };
            let b3 = rps_run(b2, none, 0, true, neg as nat).1;
            &&& neg + pos <= 0xFFFF
            &&& small_gaps(b2, neg as nat)
            &&& small_gaps(b3, pos as nat)
        }),
    ensures
        ({
            let s = rps_coded(b).0;
            let n = s.num_negative as int;
            &&& negatives_first(s)
            &&& forall|i: int| 0 < i < n ==> #[trigger] s.delta[i] < s.delta[i - 1]
            &&& forall|i: int| n < i < s.delta.len() ==> #[trigger] s.delta[i] > s.delta[i - 1]
            &&& n < s.delta.len() ==> s.delta[n] > 0
        }),
{
    reveal(rps_coded);
    let (neg, b1) = b.ue();
    let (pos, b2) = b1.ue();
    let none = RpsV { num_negative: neg, ..RpsV::none() };
    lemma_run(b2, none, 0, true, neg as nat, 0);
    let (s, b3) = rps_run(b2, none, 0, true, neg as nat);
    lemma_run(b3, s, 0, false, pos as nat, 0);
    let t = rps_run(b3, s, 0, false, pos as nat).0;
    assert forall|i: int| 0 <= i < t.delta.len() implies (#[trigger] t.delta[i] < 0 <==> i
        < t.num_negative) by {
        if i < neg {
            assert(t.delta[i] == s.delta[i]);
        }
    }
    assert forall|i: int| 0 < i < neg implies #[trigger] t.delta[i] < t.delta[i - 1] by {
        assert(t.delta[i] == s.delta[i] && t.delta[i - 1] == s.delta[i - 1]);
    }
}

/// A set that may be there.
pub open spec fn rps_of(s: Option<ShortRps>) -> Option<RpsV> {
    match s {
        Some(s) => Some(s@),
        None => None,
    }
}

pub(crate) fn parse_short_term_rps(
    r: &mut BitReader,
    idx: usize,
    sets: &Vec<ShortRps>,
    is_slice: bool,
    count: u32,
) -> (s: Option<ShortRps>)
    requires
        !is_slice ==> idx <= sets@.len(),
    ensures
        (rps_of(s), final(r)@) == short_rps(
            old(r)@,
            idx as int,
            rps_views(sets@),
            is_slice,
            count,
        ),
        s matches Some(s) ==> s@.wf(),
        !is_slice ==> s is Some,
{
    proof {
        reveal(short_rps);
        reveal(rps_base);
    }
    let predict = (is_slice || idx != 0) && count > 0 && r.read_flag();
    if !predict {
        return Some(read_rps_coded(r));
    }
    let k: usize = if is_slice {
        let code = r.read_ue() as usize;
        if code >= sets.len() {
            return None;
        }
        sets.len() - 1 - code
    } else {
        idx - 1
    };
    assert(rps_views(sets@)[k as int] == sets@[k as int]@);
    let negative = r.read_flag();
    let size = (r.read_ue() as i32).wrapping_add(1);
    let by = if negative {
        0i32.wrapping_sub(size)
    } else {
        size
    };
    Some(read_rps_predicted(r, &sets[k].delta_poc, by))
}

/// Sets `sets.len()..count` of a parameter set.
pub open spec fn rps_list(b: Bits, sets: Seq<RpsV>, count: u32) -> (Seq<RpsV>, Bits)
    decreases count - sets.len(),
{
    if sets.len() >= count {
        (sets, b)
    } else {
        let (s, b) = short_rps(b, sets.len() as int, sets, false, count);
        rps_list(b, sets.push(s->0), count)
    }
}

fn read_rps_list(r: &mut BitReader, count: u32) -> (sets: Vec<ShortRps>)
    ensures
        (rps_views(sets@), final(r)@) == rps_list(old(r)@, Seq::empty(), count),
        forall|i: int| 0 <= i < sets@.len() ==> (#[trigger] sets@[i])@.wf(),
{
    let mut sets: Vec<ShortRps> = Vec::new();
    assert(rps_views(sets@) =~= Seq::<RpsV>::empty());
    let mut i: u32 = 0;
    while i < count
        invariant
            i <= count,
            sets@.len() == i,
            forall|k: int| 0 <= k < sets@.len() ==> (#[trigger] sets@[k])@.wf(),
            rps_list(r@, rps_views(sets@), count) == rps_list(old(r)@, Seq::empty(), count),
        decreases count - i,
    {
        let ghost before = sets@;
        match parse_short_term_rps(r, i as usize, &sets, false, count) {
            Some(s) => {
                sets.push(s);
                assert(rps_views(sets@) =~= rps_views(before).push(s@));
            },
            None => {
                assert(false);
            },
        }
        i += 1;
    }
    sets
}

// ---------------------------------------------------------------------------
// Sequence parameter set

/// The fields of a sequence parameter set that decoding needs.
#[derive(Debug, Clone, Default)]
pub struct Sps {
    pub sps_id: u32,
    pub profile_idc: u8,
    pub chroma_format_idc: u32,
    pub separate_colour_plane_flag: bool,
    pub pic_width_in_luma_samples: u32,
    pub pic_height_in_luma_samples: u32,
    pub log2_max_poc_lsb: u32,
    pub ctb_log2_size_y: u32,
    pub min_cb_log2_size_y: u32,
    pub min_tb_log2_size_y: u32,
    pub max_tb_log2_size_y: u32,
    pub max_transform_hierarchy_depth_inter: u32,
    pub max_transform_hierarchy_depth_intra: u32,
    pub scaling_list_enabled: bool,
    pub amp_enabled: bool,
    pub sao_enabled: bool,
    pub pcm_enabled: bool,
    pub pcm_log2_min_cb: u32,
    pub pcm_log2_max_cb: u32,
    pub num_long_term_ref_pics_sps: u32,
    pub long_term_ref_pics_present: bool,
    pub temporal_mvp_enabled: bool,
    /// The short-term reference picture sets, by index.
    pub st_rps: Vec<ShortRps>,
}

/// The model of an [`Sps`].
pub struct SpsV {
    pub sps_id: u32,
    pub profile_idc: u8,
    pub chroma_format_idc: u32,
    pub separate_colour_plane_flag: bool,
    pub pic_width_in_luma_samples: u32,
    pub pic_height_in_luma_samples: u32,
    pub log2_max_poc_lsb: u32,
    pub ctb_log2_size_y: u32,
    pub min_cb_log2_size_y: u32,
    pub min_tb_log2_size_y: u32,
    pub max_tb_log2_size_y: u32,
    pub max_transform_hierarchy_depth_inter: u32,
    pub max_transform_hierarchy_depth_intra: u32,
    pub scaling_list_enabled: bool,
    pub amp_enabled: bool,
    pub sao_enabled: bool,
    pub pcm_enabled: bool,
    pub pcm_log2_min_cb: u32,
    pub pcm_log2_max_cb: u32,
    pub num_long_term_ref_pics_sps: u32,
    pub long_term_ref_pics_present: bool,
    pub temporal_mvp_enabled: bool,
    pub st_rps: Seq<RpsV>,
}

impl View for Sps {
    type V = SpsV;

    open spec fn view(&self) -> SpsV {
        SpsV {
            sps_id: self.sps_id,
            profile_idc: self.profile_idc,
            chroma_format_idc: self.chroma_format_idc,
            separate_colour_plane_flag: self.separate_colour_plane_flag,
            pic_width_in_luma_samples: self.pic_width_in_luma_samples,
            pic_height_in_luma_samples: self.pic_height_in_luma_samples,
            log2_max_poc_lsb: self.log2_max_poc_lsb,
            ctb_log2_size_y: self.ctb_log2_size_y,
            min_cb_log2_size_y: self.min_cb_log2_size_y,
            min_tb_log2_size_y: self.min_tb_log2_size_y,
            max_tb_log2_size_y: self.max_tb_log2_size_y,
            max_transform_hierarchy_depth_inter: self.max_transform_hierarchy_depth_inter,
            max_transform_hierarchy_depth_intra: self.max_transform_hierarchy_depth_intra,
            scaling_list_enabled: self.scaling_list_enabled,
            amp_enabled: self.amp_enabled,
            sao_enabled: self.sao_enabled,
            pcm_enabled: self.pcm_enabled,
            pcm_log2_min_cb: self.pcm_log2_min_cb,
            pcm_log2_max_cb: self.pcm_log2_max_cb,
            num_long_term_ref_pics_sps: self.num_long_term_ref_pics_sps,
            long_term_ref_pics_present: self.long_term_ref_pics_present,
            temporal_mvp_enabled: self.temporal_mvp_enabled,
            st_rps: rps_views(self.st_rps@),
        }
    }
}

/// `n / d` rounded up.
pub open spec fn ceil_div(n: u32, d: u32) -> u32 {
    ((n + d - 1) / (d as int)) as u32
}

impl SpsV {
    /// Side of a coding tree block in luma samples.
    pub open spec fn ctb_size(self) -> u32 {
        1u32.wrapping_shl(self.ctb_log2_size_y)
    }

    /// Picture width in coding tree blocks.
    pub open spec fn width_in_ctbs(self) -> u32 {
        ceil_div(self.pic_width_in_luma_samples, self.ctb_size())
    }

    /// Picture height in coding tree blocks.
    pub open spec fn height_in_ctbs(self) -> u32 {
        ceil_div(self.pic_height_in_luma_samples, self.ctb_size())
    }

    /// Number of coding tree blocks.
    pub open spec fn size_in_ctbs(self) -> u32 {
        self.width_in_ctbs().wrapping_mul(self.height_in_ctbs())
    }
}

fn div_up(n: u32, d: u32) -> (q: u32)
    requires
        0 < d,
    ensures
        q == ceil_div(n, d),
{
    proof {
        assert((n + d - 1) / (d as int) <= n) by (nonlinear_arith)
            requires
                0 < d,
                0 <= n,
        ;
        assert(0 <= (n + d - 1) / (d as int)) by (nonlinear_arith)
            requires
                0 < d,
                0 <= n,
        ;
    }
    ((n as u64 + d as u64 - 1) / (d as u64)) as u32
}

impl Sps {
    /// Side of a coding tree block in luma samples.
    pub fn ctb_size_y(&self) -> (n: u32)
        ensures
            n == self@.ctb_size(),
            n > 0,
    {
        let k = self.ctb_log2_size_y;
        proof {
            let m: u32 = k % 32;
            assert(m < 32 ==> 1u32 << m > 0) by (bit_vector);
        }
        1u32.wrapping_shl(k)
    }

    /// Picture width in coding tree blocks.
    pub fn pic_width_in_ctbs(&self) -> (n: u32)
        ensures
            n == self@.width_in_ctbs(),
    {
        div_up(self.pic_width_in_luma_samples, self.ctb_size_y())
    }

    /// Picture height in coding tree blocks.
    pub fn pic_height_in_ctbs(&self) -> (n: u32)
        ensures
            n == self@.height_in_ctbs(),
    {
        div_up(self.pic_height_in_luma_samples, self.ctb_size_y())
    }

    /// Number of coding tree blocks.
    pub fn pic_size_in_ctbs(&self) -> (n: u32)
        ensures
            n == self@.size_in_ctbs(),
    {
        self.pic_width_in_ctbs().wrapping_mul(self.pic_height_in_ctbs())
    }
}

/// The first fields of a sequence parameter set, up to the coding block sizes.
#[verifier::opaque]
pub open spec fn sps_head(b: Bits) -> (SpsV, Bits) {
    let (_, b) = b.u(4);
    let (sub, b) = b.u(3);
    let (_, b) = b.flag();
    let (profile_idc, b) = profile_tier(b, sub);
    let (sps_id, b) = b.ue();
    let (format, b) = b.ue();
    let (separate, b) = if format == 3 {
        b.flag()
    } else {
        (false, b)
    };
    let (width, b) = b.ue();
    let (height, b) = b.ue();
    let (window, b) = b.flag();
    let b = if window {
        skip_ue(b, 4)
    } else {
        b
    };
    let b = skip_ue(b, 2);
    let (poc, b) = b.ue();
    let (all_layers, b) = b.flag();
    let b = skip_ue(
        b,
        if all_layers {
            (3 * (sub + 1)) as nat
        } else {
            3
        },
    );
    let s = SpsV {
        sps_id,
        profile_idc,
        chroma_format_idc: format,
        separate_colour_plane_flag: separate,
        pic_width_in_luma_samples: width,
        pic_height_in_luma_samples: height,
        log2_max_poc_lsb: poc.wrapping_add(4),
        ..SpsV::blank()
    };
    (s, b)
}

/// The block sizes and transform depths of a sequence parameter set.
#[verifier::opaque]
pub open spec fn sps_sizes(s: SpsV, b: Bits) -> (SpsV, Bits) {
    let (min_cb, b) = b.ue();
    let (diff_cb, b) = b.ue();
    let (min_tb, b) = b.ue();
    let (diff_tb, b) = b.ue();
    let (depth_inter, b) = b.ue();
    let (depth_intra, b) = b.ue();
    (
        SpsV {
            min_cb_log2_size_y: min_cb.wrapping_add(3),
            ctb_log2_size_y: min_cb.wrapping_add(3).wrapping_add(diff_cb),
            min_tb_log2_size_y: min_tb.wrapping_add(2),
            max_tb_log2_size_y: min_tb.wrapping_add(2).wrapping_add(diff_tb),
            max_transform_hierarchy_depth_inter: depth_inter,
            max_transform_hierarchy_depth_intra: depth_intra,
            ..s
        },
        b,
    )
}

/// The coding tools of a sequence parameter set.
#[verifier::opaque]
pub open spec fn sps_tools(s: SpsV, b: Bits) -> (SpsV, Bits) {
    let (scaling, b) = b.flag();
    let (lists, b) = if scaling {
        b.flag()
    } else {
        (false, b)
    };
    let b = if lists {
        scaling_lists(b, 0, 0)
    } else {
        b
    };
    let (amp, b) = b.flag();
    let (sao, b) = b.flag();
    let (pcm, b) = b.flag();
    let (pcm_min, pcm_max, b) = if pcm {
        let (_, b) = b.u(4);
        let (_, b) = b.u(4);
        let (min, b) = b.ue();
        let (diff, b) = b.ue();
        let (_, b) = b.flag();
        (min.wrapping_add(3), min.wrapping_add(3).wrapping_add(diff), b)
    } else {
        (0, 0, b)
    };
    (
        SpsV {
            scaling_list_enabled: scaling,
            amp_enabled: amp,
            sao_enabled: sao,
            pcm_enabled: pcm,
            pcm_log2_min_cb: pcm_min,
            pcm_log2_max_cb: pcm_max,
            ..s
        },
        b,
    )
}

/// `n` long-term reference pictures, of `bits` bits and a flag each.
pub open spec fn long_terms(b: Bits, bits: u32, n: nat) -> Bits
    decreases n,
{
    if n == 0 {
        b
    } else {
        long_terms(b.u(bits).1.flag().1, bits, (n - 1) as nat)
    }
}

/// The reference pictures of a sequence parameter set.
#[verifier::opaque]
pub open spec fn sps_refs(s: SpsV, b: Bits) -> SpsV {
    let (count, b) = b.ue();
    let (sets, b) = rps_list(b, Seq::empty(), count);
    let (present, b) = b.flag();
    let (num_lt, b) = if present {
        b.ue()
    } else {
        (0, b)
    };
    let b = long_terms(b, s.log2_max_poc_lsb, num_lt as nat);
    let (tmvp, _) = b.flag();
    SpsV {
        st_rps: sets,
        long_term_ref_pics_present: present,
        num_long_term_ref_pics_sps: num_lt,
        temporal_mvp_enabled: tmvp,
        ..s
    }
}

impl SpsV {
    /// A parameter set without any field set.
    pub open spec fn blank() -> SpsV {
        SpsV {
            sps_id: 0,
            profile_idc: 0,
            chroma_format_idc: 0,
            separate_colour_plane_flag: false,
            pic_width_in_luma_samples: 0,
            pic_height_in_luma_samples: 0,
            log2_max_poc_lsb: 0,
            ctb_log2_size_y: 0,
            min_cb_log2_size_y: 0,
            min_tb_log2_size_y: 0,
            max_tb_log2_size_y: 0,
            max_transform_hierarchy_depth_inter: 0,
            max_transform_hierarchy_depth_intra: 0,
            scaling_list_enabled: false,
            amp_enabled: false,
            sao_enabled: false,
            pcm_enabled: false,
            pcm_log2_min_cb: 0,
            pcm_log2_max_cb: 0,
            num_long_term_ref_pics_sps: 0,
            long_term_ref_pics_present: false,
            temporal_mvp_enabled: false,
            st_rps: Seq::empty(),
        }
    }
}

/// The sequence parameter set in `rbsp`.
pub open spec fn sps_of(rbsp: Seq<u8>) -> SpsV {
    let (s, b) = sps_head(Bits { data: rbsp, pos: 0 });
    let (s, b) = sps_sizes(s, b);
    let (s, b) = sps_tools(s, b);
    sps_refs(s, b)
}

fn blank_sps() -> (s: Sps)
    ensures
        s@ == SpsV::blank(),
        s.st_rps@.len() == 0,
{
    let s = Sps {
        sps_id: 0,
        profile_idc: 0,
        chroma_format_idc: 0,
        separate_colour_plane_flag: false,
        pic_width_in_luma_samples: 0,
        pic_height_in_luma_samples: 0,
        log2_max_poc_lsb: 0,
        ctb_log2_size_y: 0,
        min_cb_log2_size_y: 0,
        min_tb_log2_size_y: 0,
        max_tb_log2_size_y: 0,
        max_transform_hierarchy_depth_inter: 0,
        max_transform_hierarchy_depth_intra: 0,
        scaling_list_enabled: false,
        amp_enabled: false,
        sao_enabled: false,
        pcm_enabled: false,
        pcm_log2_min_cb: 0,
        pcm_log2_max_cb: 0,
        num_long_term_ref_pics_sps: 0,
        long_term_ref_pics_present: false,
        temporal_mvp_enabled: false,
        st_rps: Vec::new(),
    };
    assert(s@.st_rps =~= Seq::<RpsV>::empty());
    s
}

fn read_sps_head(r: &mut BitReader) -> (s: Sps)
    ensures
        (s@, final(r)@) == sps_head(old(r)@),
{
    proof {
        reveal(sps_head);
    }
    let mut s = blank_sps();
    let _vps_id = r.read_bits(4);
    let ghost at_sub = r@;
    let sub = r.read_bits(3);
    proof {
        lemma_u_bound(at_sub, 3);
        vstd::arithmetic::power2::lemma2_to64();
    }
    let _temporal_id_nesting = r.read_flag();
    s.profile_idc = profile_tier_level(r, sub);
    s.sps_id = r.read_ue();
    s.chroma_format_idc = r.read_ue();
    if s.chroma_format_idc == 3 {
        s.separate_colour_plane_flag = r.read_flag();
    }
    s.pic_width_in_luma_samples = r.read_ue();
    s.pic_height_in_luma_samples = r.read_ue();
    if r.read_flag() {
        r.drop_ue(4);
    }
    r.drop_ue(2);
    s.log2_max_poc_lsb = r.read_ue().wrapping_add(4);
    if r.read_flag() {
        r.drop_ue(3 * (sub + 1));
    } else {
        r.drop_ue(3);
    }
    s
}

fn read_sps_sizes(r: &mut BitReader, s: &mut Sps)
    ensures
        (final(s)@, final(r)@) == sps_sizes(old(s)@, old(r)@),
        final(s).st_rps == old(s).st_rps,
{
    proof {
        reveal(sps_sizes);
    }
    s.min_cb_log2_size_y = r.read_ue().wrapping_add(3);
    s.ctb_log2_size_y = s.min_cb_log2_size_y.wrapping_add(r.read_ue());
    s.min_tb_log2_size_y = r.read_ue().wrapping_add(2);
    s.max_tb_log2_size_y = s.min_tb_log2_size_y.wrapping_add(r.read_ue());
    s.max_transform_hierarchy_depth_inter = r.read_ue();
    s.max_transform_hierarchy_depth_intra = r.read_ue();
}

fn read_sps_tools(r: &mut BitReader, s: &mut Sps)
    ensures
        (final(s)@, final(r)@) == sps_tools(old(s)@, old(r)@),
{
    proof {
        reveal(sps_tools);
    }
    s.scaling_list_enabled = r.read_flag();
    if s.scaling_list_enabled && r.read_flag() {
        skip_scaling_list_data(r);
    }
    s.amp_enabled = r.read_flag();
    s.sao_enabled = r.read_flag();
    s.pcm_enabled = r.read_flag();
    s.pcm_log2_min_cb = 0;
    s.pcm_log2_max_cb = 0;
    if s.pcm_enabled {
        let _bit_depth_luma = r.read_bits(4);
        let _bit_depth_chroma = r.read_bits(4);
        s.pcm_log2_min_cb = r.read_ue().wrapping_add(3);
        s.pcm_log2_max_cb = s.pcm_log2_min_cb.wrapping_add(r.read_ue());
        let _loop_filter_disabled = r.read_flag();
    }
}

fn skip_long_terms(r: &mut BitReader, bits: u32, n: u32)
    ensures
        final(r)@ == long_terms(old(r)@, bits, n as nat),
{
    let mut left: u32 = n;
    while left > 0
        invariant
            long_terms(r@, bits, left as nat) == long_terms(old(r)@, bits, n as nat),
        decreases left,
    {
        let _poc_lsb = r.read_bits(bits);
        let _used_by_curr = r.read_flag();
        left -= 1;
    }
}

fn read_sps_refs(r: &mut BitReader, s: &mut Sps)
    ensures
        final(s)@ == sps_refs(old(s)@, old(r)@),
        final(s).wf(),
{
    proof {
        reveal(sps_refs);
    }
    let count = r.read_ue();
    s.st_rps = read_rps_list(r, count);
    s.long_term_ref_pics_present = r.read_flag();
    s.num_long_term_ref_pics_sps = if s.long_term_ref_pics_present {
        r.read_ue()
    } else {
        0
    };
    skip_long_terms(r, s.log2_max_poc_lsb, s.num_long_term_ref_pics_sps);
    s.temporal_mvp_enabled = r.read_flag();
}

impl Sps {
    /// The reference picture sets are well-formed.
    pub open spec fn wf(self) -> bool {
        forall|i: int| 0 <= i < self.st_rps@.len() ==> (#[trigger] self.st_rps@[i])@.wf()
    }
}

/// Parses `seq_parameter_set_rbsp` up to the fields that decoding needs.
pub fn parse_sps(rbsp: &[u8]) -> (s: Sps)
    ensures
        s@ == sps_of(rbsp@),
        s.wf(),
{
    let mut r = BitReader::new(rbsp);
    let mut s = read_sps_head(&mut r);
    read_sps_sizes(&mut r, &mut s);
    read_sps_tools(&mut r, &mut s);
    read_sps_refs(&mut r, &mut s);
    s
}

// ---------------------------------------------------------------------------
// Picture parameter set

/// The fields of a picture parameter set that decoding needs.
#[derive(Debug, Clone, Copy, Default)]
pub struct Pps {
    pub pps_id: u32,
    pub sps_id: u32,
    pub dependent_slice_segments_enabled_flag: bool,
    pub output_flag_present_flag: bool,
    pub num_extra_slice_header_bits: u32,
    pub sign_data_hiding_enabled: bool,
    pub cabac_init_present_flag: bool,
    pub num_ref_idx_l0_default_active: u32,
    pub num_ref_idx_l1_default_active: u32,
    pub pic_init_qp: i32,
    pub transform_skip_enabled_flag: bool,
    pub cu_qp_delta_enabled_flag: bool,
    pub diff_cu_qp_delta_depth: u32,
    pub cb_qp_offset: i32,
    pub cr_qp_offset: i32,
    pub pic_slice_chroma_qp_offsets_present: bool,
    pub weighted_pred_flag: bool,
    pub weighted_bipred_flag: bool,
    pub transquant_bypass_enabled_flag: bool,
    pub tiles_enabled_flag: bool,
    pub entropy_coding_sync_enabled_flag: bool,
    pub num_tile_columns: u32,
    pub num_tile_rows: u32,
    pub loop_filter_across_slices_enabled: bool,
    pub deblocking_filter_control_present_flag: bool,
    pub deblocking_filter_override_enabled_flag: bool,
    pub deblocking_filter_disabled_flag: bool,
    pub lists_modification_present_flag: bool,
    pub log2_parallel_merge_level: u32,
    pub slice_header_extension_present_flag: bool,
}

/// The tile grid: columns, rows, and the reader behind it.
#[verifier::opaque]
pub open spec fn tiles(b: Bits, enabled: bool) -> (u32, u32, Bits) {
    if enabled {
        let (c, b) = b.ue();
        let (r, b) = b.ue();
        let (uniform, b) = b.flag();
        let b = if uniform {
            b
        } else {
            skip_ue(skip_ue(b, c as nat), r as nat)
        };
        (c.wrapping_add(1), r.wrapping_add(1), b.flag().1)
    } else {
        (1, 1, b)
    }
}

fn read_tiles(r: &mut BitReader, enabled: bool) -> (t: (u32, u32))
    ensures
        (t.0, t.1, final(r)@) == tiles(old(r)@, enabled),
{
    proof {
        reveal(tiles);
    }
    if !enabled {
        return (1, 1);
    }
    let columns = r.read_ue();
    let rows = r.read_ue();
    if !r.read_flag() {
        r.drop_ue(columns);
        r.drop_ue(rows);
    }
    let _loop_filter_across_tiles = r.read_flag();
    (columns.wrapping_add(1), rows.wrapping_add(1))
}

/// The deblocking fields: control present, override enabled, disabled.
#[verifier::opaque]
pub open spec fn deblocking(b: Bits) -> (bool, bool, bool, Bits) {
    let (control, b) = b.flag();
    if control {
        let (over, b) = b.flag();
        let (disabled, b) = b.flag();
        (
            true,
            over,
            disabled,
            if disabled {
                b
            } else {
                b.se().1.se().1
            },
        )
    } else {
        (false, false, false, b)
    }
}

fn read_deblocking(r: &mut BitReader) -> (d: (bool, bool, bool))
    ensures
        (d.0, d.1, d.2, final(r)@) == deblocking(old(r)@),
{
    proof {
        reveal(deblocking);
    }
    if !r.read_flag() {
        return (false, false, false);
    }
    let over = r.read_flag();
    let disabled = r.read_flag();
    if !disabled {
        let _beta_offset = r.read_se();
        let _tc_offset = r.read_se();
    }
    (true, over, disabled)
}

/// A picture parameter set without any field set.
pub open spec fn blank_pps() -> Pps {
    Pps {
        pps_id: 0,
        sps_id: 0,
        dependent_slice_segments_enabled_flag: false,
        output_flag_present_flag: false,
        num_extra_slice_header_bits: 0,
        sign_data_hiding_enabled: false,
        cabac_init_present_flag: false,
        num_ref_idx_l0_default_active: 0,
        num_ref_idx_l1_default_active: 0,
        pic_init_qp: 0,
        transform_skip_enabled_flag: false,
        cu_qp_delta_enabled_flag: false,
        diff_cu_qp_delta_depth: 0,
        cb_qp_offset: 0,
        cr_qp_offset: 0,
        pic_slice_chroma_qp_offsets_present: false,
        weighted_pred_flag: false,
        weighted_bipred_flag: false,
        transquant_bypass_enabled_flag: false,
        tiles_enabled_flag: false,
        entropy_coding_sync_enabled_flag: false,
        num_tile_columns: 1,
        num_tile_rows: 1,
        loop_filter_across_slices_enabled: false,
        deblocking_filter_control_present_flag: false,
        deblocking_filter_override_enabled_flag: false,
        deblocking_filter_disabled_flag: false,
        lists_modification_present_flag: false,
        log2_parallel_merge_level: 0,
        slice_header_extension_present_flag: false,
    }
}

/// The first fields of a picture parameter set, up to the default quantiser.
#[verifier::opaque]
pub open spec fn pps_head(b: Bits) -> (Pps, Bits) {
    let (pps_id, b) = b.ue();
    let (sps_id, b) = b.ue();
    let (dependent, b) = b.flag();
    let (output, b) = b.flag();
    let (extra, b) = b.u(3);
    let (sign_hiding, b) = b.flag();
    let (cabac_init, b) = b.flag();
    let (n0, b) = b.ue();
    let (n1, b) = b.ue();
    let (qp, b) = b.se();
    (
        Pps {
            pps_id,
            sps_id,
            dependent_slice_segments_enabled_flag: dependent,
            output_flag_present_flag: output,
            num_extra_slice_header_bits: extra,
            sign_data_hiding_enabled: sign_hiding,
            cabac_init_present_flag: cabac_init,
            num_ref_idx_l0_default_active: n0.wrapping_add(1),
            num_ref_idx_l1_default_active: n1.wrapping_add(1),
            pic_init_qp: 26i32.wrapping_add(qp),
            ..blank_pps()
        },
        b,
    )
}

/// The quantiser and prediction fields of a picture parameter set.
#[verifier::opaque]
pub open spec fn pps_tools(p: Pps, b: Bits) -> (Pps, Bits) {
    let (_, b) = b.flag();
    let (transform_skip, b) = b.flag();
    let (cu_qp, b) = b.flag();
    let (cu_depth, b) = if cu_qp {
        b.ue()
    } else {
        (0, b)
    };
    let (cb, b) = b.se();
    let (cr, b) = b.se();
    let (slice_chroma, b) = b.flag();
    let (weighted, b) = b.flag();
    let (bipred, b) = b.flag();
    let (bypass, b) = b.flag();
    let (tiled, b) = b.flag();
    let (sync, b) = b.flag();
    (
        Pps {
            transform_skip_enabled_flag: transform_skip,
            cu_qp_delta_enabled_flag: cu_qp,
            diff_cu_qp_delta_depth: cu_depth,
            cb_qp_offset: cb,
            cr_qp_offset: cr,
            pic_slice_chroma_qp_offsets_present: slice_chroma,
            weighted_pred_flag: weighted,
            weighted_bipred_flag: bipred,
            transquant_bypass_enabled_flag: bypass,
            tiles_enabled_flag: tiled,
            entropy_coding_sync_enabled_flag: sync,
            ..p
        },
        b,
    )
}

/// The tile and filter fields of a picture parameter set, and those behind them.
#[verifier::opaque]
pub open spec fn pps_tail(p: Pps, b: Bits) -> Pps {
    let (columns, rows, b) = tiles(b, p.tiles_enabled_flag);
    let (across, b) = b.flag();
    let (control, over, disabled, b) = deblocking(b);
    let (lists, b) = b.flag();
    let b = if lists {
        scaling_lists(b, 0, 0)
    } else {
        b
    };
    let (modification, b) = b.flag();
    let (merge_level, b) = b.ue();
    let (extension, _) = b.flag();
    Pps {
        num_tile_columns: columns,
        num_tile_rows: rows,
        loop_filter_across_slices_enabled: across,
        deblocking_filter_control_present_flag: control,
        deblocking_filter_override_enabled_flag: over,
        deblocking_filter_disabled_flag: disabled,
        lists_modification_present_flag: modification,
        log2_parallel_merge_level: merge_level.wrapping_add(2),
        slice_header_extension_present_flag: extension,
        ..p
    }
}

/// The picture parameter set in `rbsp`.
pub open spec fn pps_of(rbsp: Seq<u8>) -> Pps {
    let (p, b) = pps_head(Bits { data: rbsp, pos: 0 });
    let (p, b) = pps_tools(p, b);
    pps_tail(p, b)
}

fn read_pps_head(r: &mut BitReader) -> (p: Pps)
    ensures
        (p, final(r)@) == pps_head(old(r)@),
{
    proof {
        reveal(pps_head);
    }
    let pps_id = r.read_ue();
    let sps_id = r.read_ue();
    let dependent_slice_segments_enabled_flag = r.read_flag();
    let output_flag_present_flag = r.read_flag();
    let num_extra_slice_header_bits = r.read_bits(3);
    let sign_data_hiding_enabled = r.read_flag();
    let cabac_init_present_flag = r.read_flag();
    let num_ref_idx_l0_default_active = r.read_ue().wrapping_add(1);
    let num_ref_idx_l1_default_active = r.read_ue().wrapping_add(1);
    let pic_init_qp = 26i32.wrapping_add(r.read_se());
    Pps {
        pps_id,
        sps_id,
        dependent_slice_segments_enabled_flag,
        output_flag_present_flag,
        num_extra_slice_header_bits,
        sign_data_hiding_enabled,
        cabac_init_present_flag,
        num_ref_idx_l0_default_active,
        num_ref_idx_l1_default_active,
        pic_init_qp,
        transform_skip_enabled_flag: false,
        cu_qp_delta_enabled_flag: false,
        diff_cu_qp_delta_depth: 0,
        cb_qp_offset: 0,
        cr_qp_offset: 0,
        pic_slice_chroma_qp_offsets_present: false,
        weighted_pred_flag: false,
        weighted_bipred_flag: false,
        transquant_bypass_enabled_flag: false,
        tiles_enabled_flag: false,
        entropy_coding_sync_enabled_flag: false,
        num_tile_columns: 1,
        num_tile_rows: 1,
        loop_filter_across_slices_enabled: false,
        deblocking_filter_control_present_flag: false,
        deblocking_filter_override_enabled_flag: false,
        deblocking_filter_disabled_flag: false,
        lists_modification_present_flag: false,
        log2_parallel_merge_level: 0,
        slice_header_extension_present_flag: false,
    }
}

fn read_pps_tools(r: &mut BitReader, p: Pps) -> (q: Pps)
    ensures
        (q, final(r)@) == pps_tools(p, old(r)@),
{
    proof {
        reveal(pps_tools);
    }
    let _constrained_intra_pred = r.read_flag();
    let transform_skip_enabled_flag = r.read_flag();
    let cu_qp_delta_enabled_flag = r.read_flag();
    let diff_cu_qp_delta_depth = if cu_qp_delta_enabled_flag {
        r.read_ue()
    } else {
        0
    };
    let cb_qp_offset = r.read_se();
    let cr_qp_offset = r.read_se();
    let pic_slice_chroma_qp_offsets_present = r.read_flag();
    let weighted_pred_flag = r.read_flag();
    let weighted_bipred_flag = r.read_flag();
    let transquant_bypass_enabled_flag = r.read_flag();
    let tiles_enabled_flag = r.read_flag();
    let entropy_coding_sync_enabled_flag = r.read_flag();
    Pps {
        transform_skip_enabled_flag,
        cu_qp_delta_enabled_flag,
        diff_cu_qp_delta_depth,
        cb_qp_offset,
        cr_qp_offset,
        pic_slice_chroma_qp_offsets_present,
        weighted_pred_flag,
        weighted_bipred_flag,
        transquant_bypass_enabled_flag,
        tiles_enabled_flag,
        entropy_coding_sync_enabled_flag,
        ..p
    }
}

fn read_pps_tail(r: &mut BitReader, p: Pps) -> (q: Pps)
    ensures
        q == pps_tail(p, old(r)@),
{
    proof {
        reveal(pps_tail);
    }
    let (columns, rows) = read_tiles(r, p.tiles_enabled_flag);
    let across = r.read_flag();
    let (control, over, disabled) = read_deblocking(r);
    if r.read_flag() {
        skip_scaling_list_data(r);
    }
    let modification = r.read_flag();
    let merge_level = r.read_ue();
    let extension = r.read_flag();
    Pps {
        num_tile_columns: columns,
        num_tile_rows: rows,
        loop_filter_across_slices_enabled: across,
        deblocking_filter_control_present_flag: control,
        deblocking_filter_override_enabled_flag: over,
        deblocking_filter_disabled_flag: disabled,
        lists_modification_present_flag: modification,
        log2_parallel_merge_level: merge_level.wrapping_add(2),
        slice_header_extension_present_flag: extension,
        ..p
    }
}

/// Parses `pic_parameter_set_rbsp` up to its extensions.
pub fn parse_pps(rbsp: &[u8]) -> (p: Pps)
    ensures
        p == pps_of(rbsp@),
{
    let mut r = BitReader::new(rbsp);
    let p = read_pps_head(&mut r);
    let p = read_pps_tools(&mut r, p);
    read_pps_tail(&mut r, p)
}

} // verus!
