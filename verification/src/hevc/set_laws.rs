//! Which pictures a set of reference pictures holds.

use super::params::{lemma_slot_bound, rps_coded, rps_insert, rps_predicted, rps_run, slot, RpsV};
use crate::bits::Bits;
use vstd::prelude::*;

verus! {

// ---------------------------------------------------------------------------
// Sets that are coded entry by entry

/// The reader before entry `k` of a coded set: each is a code and a flag.
pub open spec fn before_entry(b: Bits, k: nat) -> Bits
    decreases k,
{
    if k == 0 {
        b
    } else {
        before_entry(b, (k - 1) as nat).ue().1.flag().1
    }
}

/// How far entry `k` is from the one before it.
pub open spec fn gap(b: Bits, k: nat) -> i32 {
    (before_entry(b, k).ue().0 as i32).wrapping_add(1)
}

/// The flag of entry `k`.
pub open spec fn entry_used(b: Bits, k: nat) -> bool {
    before_entry(b, k).ue().1.flag().0
}

proof fn lemma_before_entry(b: Bits, k: nat)
    ensures
        before_entry(b.ue().1.flag().1, k) == before_entry(b, k + 1),
    decreases k,
{
    if k > 0 {
        lemma_before_entry(b, (k - 1) as nat);
    } else {
        assert(before_entry(b, 1) == before_entry(b, 0).ue().1.flag().1);
    }
}

proof fn lemma_run(b: Bits, s: RpsV, prev: i32, down: bool, n: nat)
    requires
        s.delta.len() == s.used.len(),
    ensures
        ({
            let (r, rest) = rps_run(b, s, prev, down, n);
            let m = s.delta.len() as int;
            &&& rest == before_entry(b, n)
            &&& r.num_negative == s.num_negative
            &&& r.delta.len() == m + n && r.used.len() == m + n
            &&& forall|k: int| 0 <= k < m ==> #[trigger] r.delta[k] == s.delta[k]
            &&& forall|k: int| 0 <= k < m ==> #[trigger] r.used[k] == s.used[k]
            &&& forall|k: int|
                0 <= k < n ==> #[trigger] r.delta[m + k] == {
                    let from = if k == 0 {
                        prev
                    } else {
                        r.delta[m + k - 1]
                    };
                    if down {
                        from.wrapping_sub(gap(b, k as nat))
                    } else {
                        from.wrapping_add(gap(b, k as nat))
                    }
                }
            &&& forall|k: int| 0 <= k < n ==> #[trigger] r.used[m + k] == entry_used(b, k as nat)
        }),
    decreases n,
{
    if n > 0 {
        let (code, b1) = b.ue();
        let g = (code as i32).wrapping_add(1);
        let d = if down {
            prev.wrapping_sub(g)
        } else {
            prev.wrapping_add(g)
        };
        let (used, b2) = b1.flag();
        let t = RpsV { delta: s.delta.push(d), used: s.used.push(used), ..s };
        lemma_run(b2, t, d, down, (n - 1) as nat);
        lemma_before_entry(b, (n - 1) as nat);
        let (r, rest) = rps_run(b, s, prev, down, n);
        let m = s.delta.len() as int;
        assert(r.delta[m] == t.delta[m] && r.used[m] == t.used[m]);
        assert forall|k: int| 0 <= k < m implies #[trigger] r.delta[k] == s.delta[k] by {
            assert(r.delta[k] == t.delta[k]);
        }
        assert forall|k: int| 0 <= k < m implies #[trigger] r.used[k] == s.used[k] by {
            assert(r.used[k] == t.used[k]);
        }
        assert forall|k: int| 0 <= k < n implies #[trigger] r.delta[m + k] == {
            let from = if k == 0 {
                prev
            } else {
                r.delta[m + k - 1]
            };
            if down {
                from.wrapping_sub(gap(b, k as nat))
            } else {
                from.wrapping_add(gap(b, k as nat))
            }
        } by {
            if k > 0 {
                lemma_before_entry(b, (k - 1) as nat);
                assert(r.delta[m + k] == r.delta[t.delta.len() + (k - 1)]);
                assert(t.delta.len() + (k - 1) - 1 == m + k - 1);
            }
        }
        assert forall|k: int| 0 <= k < n implies #[trigger] r.used[m + k] == entry_used(
            b,
            k as nat,
        ) by {
            if k > 0 {
                lemma_before_entry(b, (k - 1) as nat);
                assert(r.used[m + k] == r.used[t.used.len() + (k - 1)]);
            }
        }
    }
}

/// A coded set has the numbers of earlier and of later pictures first, and then the earlier ones, each before
/// the last one by a distance that is coded less one, and the later ones, each behind the last one. A flag
/// says of each whether the current picture uses it.
pub proof fn law_coded_set(b: Bits, k: int)
    requires
        0 <= k < b.ue().0 + b.ue().1.ue().0,
    ensures
        ({
            let (s, rest) = rps_coded(b);
            let (neg, b1) = b.ue();
            let (pos, b2) = b1.ue();
            let b3 = before_entry(b2, neg as nat);
            &&& s.num_negative == neg
            &&& s.delta.len() == neg + pos && s.used.len() == neg + pos
            &&& rest == before_entry(b3, pos as nat)
            &&& k < neg ==> s.used[k] == entry_used(b2, k as nat) && s.delta[k] == (if k == 0 {
                0i32
            } else {
                s.delta[k - 1]
            }).wrapping_sub(gap(b2, k as nat))
            &&& k >= neg ==> s.used[k] == entry_used(b3, (k - neg) as nat) && s.delta[k] == (if k
                == neg {
                0i32
            } else {
                s.delta[k - 1]
            }).wrapping_add(gap(b3, (k - neg) as nat))
        }),
{
    reveal(rps_coded);
    let (neg, b1) = b.ue();
    let (pos, b2) = b1.ue();
    let s0 = RpsV { num_negative: neg, ..RpsV::none() };
    lemma_run(b2, s0, 0, true, neg as nat);
    let (s1, b3) = rps_run(b2, s0, 0, true, neg as nat);
    lemma_run(b3, s1, 0, false, pos as nat);
    let (s2, b4) = rps_run(b3, s1, 0, false, pos as nat);
    if k < neg {
        assert(s1.delta[0 + k] == s2.delta[k]);
        assert(s1.used[0 + k] == s2.used[k]);
        if k > 0 {
            assert(s1.delta[k - 1] == s2.delta[k - 1]);
        }
    } else {
        let j = k - neg;
        assert(s2.delta[s1.delta.len() + j] == s2.delta[k]);
        assert(s2.used[s1.delta.len() + j] == s2.used[k]);
    }
}

// ---------------------------------------------------------------------------
// Sets that are predicted from others

/// The reader before entry `k` of a predicted set: a flag, and behind one that is not set another.
pub open spec fn before_choice(b: Bits, k: nat) -> Bits
    decreases k,
{
    if k == 0 {
        b
    } else {
        let (used, c) = before_choice(b, (k - 1) as nat).flag();
        if used {
            c
        } else {
            c.flag().1
        }
    }
}

/// Entry `k` is in the set: the current picture uses it, or a later one may.
pub open spec fn chosen(b: Bits, k: nat) -> bool {
    let (used, c) = before_choice(b, k).flag();
    used || c.flag().0
}

/// The distance of entry `k`: those of the other set, and then zero, each moved by the same.
pub open spec fn moved_distance(from: Seq<i32>, by: i32, k: int) -> i32 {
    if k < from.len() {
        by.wrapping_add(from[k])
    } else {
        by
    }
}

proof fn lemma_insert_contains(s: RpsV, d: i32, used: bool, x: i32)
    ensures
        rps_insert(s, d, used).delta.contains(x) <==> s.delta.contains(x) || x == d,
{
    lemma_slot_bound(s.delta, d);
    let k = slot(s.delta, d);
    let t = s.delta.insert(k, d);
    assert(t[k] == d);
    if s.delta.contains(x) {
        let j = choose|j: int| 0 <= j < s.delta.len() && s.delta[j] == x;
        if j < k {
            assert(t[j] == x);
        } else {
            assert(t[j + 1] == x);
        }
    }
    if t.contains(x) {
        let j = choose|j: int| 0 <= j < t.len() && t[j] == x;
        if j < k {
            assert(s.delta[j] == x);
        } else if j > k {
            assert(s.delta[j - 1] == x);
        }
    }
}

proof fn lemma_predicted(b: Bits, c: Bits, s: RpsV, from: Seq<i32>, by: i32, i: int, x: i32)
    requires
        0 <= i <= from.len() + 1,
        c == before_choice(b, i as nat),
    ensures
        ({
            let (r, rest) = rps_predicted(c, s, from, by, i);
            &&& r.delta.contains(x) <==> s.delta.contains(x) || exists|k: int|
                i <= k <= from.len() && #[trigger] chosen(b, k as nat) && moved_distance(
                    from,
                    by,
                    k,
                ) == x
            &&& rest == before_choice(b, (from.len() + 1) as nat)
        }),
    decreases from.len() + 1 - i,
{
    if i <= from.len() {
        let (used, c1) = c.flag();
        let (kept, c2) = if used {
            (true, c1)
        } else {
            c1.flag()
        };
        let d = moved_distance(from, by, i);
        let t = if kept {
            rps_insert(s, d, used)
        } else {
            s
        };
        assert(c2 == before_choice(b, (i + 1) as nat));
        assert(kept == chosen(b, i as nat));
        lemma_insert_contains(s, d, used, x);
        lemma_predicted(b, c2, t, from, by, i + 1, x);
        if exists|k: int|
            i <= k <= from.len() && #[trigger] chosen(b, k as nat) && moved_distance(from, by, k)
                == x {
            let k = choose|k: int|
                i <= k <= from.len() && #[trigger] chosen(b, k as nat) && moved_distance(
                    from,
                    by,
                    k,
                ) == x;
            if k > i {
                assert(i + 1 <= k <= from.len() && chosen(b, k as nat));
            }
        }
    }
}

/// A predicted set holds just those distances of the other set, and the zero distance, that are chosen, all
/// moved by the same.
pub proof fn law_predicted_set(b: Bits, from: Seq<i32>, by: i32, x: i32)
    ensures
        ({
            let (r, rest) = rps_predicted(b, RpsV::none(), from, by, 0);
            &&& r.delta.contains(x) <==> exists|k: int|
                0 <= k <= from.len() && #[trigger] chosen(b, k as nat) && moved_distance(
                    from,
                    by,
                    k,
                ) == x
            &&& rest == before_choice(b, (from.len() + 1) as nat)
        }),
{
    lemma_predicted(b, b, RpsV::none(), from, by, 0, x);
}

} // verus!
