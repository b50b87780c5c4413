//! Results that arrive in any order, handed on in the order of their numbers.

use crate::motion::MvCompact;
use std::collections::HashMap;
use vstd::prelude::*;
use vstd::set_lib::{lemma_int_range, lemma_subset_equality, set_int_range};

verus! {

broadcast use vstd::std_specs::hash::group_hash_axioms;

/// The number that is handed on next, and the rows that wait for it.
pub struct ReorderV {
    pub next: i32,
    pub waiting: Map<i32, Seq<MvCompact>>,
}

impl ReorderV {
    /// Before anything arrives.
    pub open spec fn start() -> ReorderV {
        ReorderV { next: 0, waiting: Map::empty() }
    }

    /// All rows that need not wait any longer handed on, behind those in `out`.
    pub open spec fn drained(self, out: Seq<MvCompact>) -> (ReorderV, Seq<MvCompact>)
        decreases self.waiting.dom().len(),
    {
        if self.waiting.dom().finite() && self.waiting.contains_key(self.next) {
            ReorderV {
                next: self.next.wrapping_add(1),
                waiting: self.waiting.remove(self.next),
            }.drained(out + self.waiting[self.next])
        } else {
            (self, out)
        }
    }

    /// The rows of number `idx` arrive: what is handed on.
    pub open spec fn taken(self, idx: i32, rows: Seq<MvCompact>) -> (ReorderV, Seq<MvCompact>) {
        ReorderV { waiting: self.waiting.insert(idx, rows), ..self }.drained(Seq::empty())
    }
}

/// Puts rows that arrive in any order into the order of their numbers.
pub struct Reorder {
    next: i32,
    waiting: HashMap<i32, Vec<MvCompact>>,
}

/// Waiting rows as they are modelled.
pub open spec fn rows_by_number(m: Map<i32, Vec<MvCompact>>) -> Map<i32, Seq<MvCompact>> {
    m.map_values(|v: Vec<MvCompact>| v@)
}

impl View for Reorder {
    type V = ReorderV;

    closed spec fn view(&self) -> ReorderV {
        ReorderV { next: self.next, waiting: rows_by_number(self.waiting@) }
    }
}

impl Reorder {
    /// Nothing has arrived; number 0 comes first.
    pub fn new() -> (r: Reorder)
        ensures
            r@ == ReorderV::start(),
    {
        let r = Reorder { next: 0, waiting: HashMap::new() };
        assert(r@.waiting =~= Map::empty());
        r
    }

    /// Takes the rows of number `idx`; returns all that can be handed on now, in order.
    pub fn take(&mut self, idx: i32, rows: Vec<MvCompact>) -> (out: Vec<MvCompact>)
        ensures
            (final(self)@, out@) == old(self)@.taken(idx, rows@),
    {
        let ghost rows_before = rows@;
        let _replaced = self.waiting.insert(idx, rows);
        let mut out: Vec<MvCompact> = Vec::new();
        proof {
            assert(self@.waiting =~= old(self)@.waiting.insert(idx, rows_before));
            assert(out@ =~= Seq::<MvCompact>::empty());
        }
        let mut more = true;
        while more
            invariant
                self@.drained(out@) == old(self)@.taken(idx, rows_before),
                !more ==> !self@.waiting.contains_key(self@.next),
            decreases self.waiting@.dom().len(), more as int,
        {
            let ghost before = self@;
            let ghost m = self.waiting@;
            assert(before.waiting.dom() =~= m.dom());
            match self.waiting.remove(&self.next) {
                Some(r) => {
                    assert(before.waiting[before.next] == r@);
                    let mut r = r;
                    let ghost got = r@;
                    let ghost was = out@;
                    out.append(&mut r);
                    assert(out@ == was + got);
                    self.next = self.next.wrapping_add(1);
                    assert(self@.waiting =~= before.waiting.remove(before.next));
                },
                None => {
                    more = false;
                    assert(self@.waiting =~= before.waiting);
                },
            }
        }
        out
    }
}

// ---------------------------------------------------------------------------
// Laws

/// The rows of numbers `0..n`, in order.
pub open spec fn joined(m: Map<i32, Seq<MvCompact>>, n: int) -> Seq<MvCompact>
    decreases n,
{
    if n <= 0 {
        Seq::empty()
    } else {
        joined(m, n - 1) + m[(n - 1) as i32]
    }
}

impl ReorderV {
    /// The rows `given` so far, of numbers below `n`, are those of all numbers before the next one,
    /// and others that wait.
    pub open spec fn holds(self, given: Map<i32, Seq<MvCompact>>, n: int) -> bool {
        &&& 0 <= self.next <= n <= i32::MAX
        &&& self.waiting.dom().finite()
        &&& forall|k: i32| #[trigger] given.contains_key(k) ==> 0 <= k < n
        &&& forall|k: i32| 0 <= k < self.next ==> #[trigger] given.contains_key(k)
        &&& forall|k: i32|
            #[trigger] self.waiting.contains_key(k) <==> given.contains_key(k) && self.next <= k
        &&& forall|k: i32| #[trigger] self.waiting.contains_key(k) ==> self.waiting[k] == given[k]
    }

    /// Of the rows `given` so far, those in `written` have been handed on: just the rows of all
    /// numbers before the next one, in order; and the rows of the next one have not been given.
    pub open spec fn in_order(
        self,
        given: Map<i32, Seq<MvCompact>>,
        n: int,
        written: Seq<MvCompact>,
    ) -> bool {
        &&& self.holds(given, n)
        &&& !given.contains_key(self.next)
        &&& written == joined(given, self.next as int)
    }
}

proof fn lemma_joined_same(a: Map<i32, Seq<MvCompact>>, b: Map<i32, Seq<MvCompact>>, n: int)
    requires
        n <= i32::MAX,
        forall|k: i32| 0 <= k < n ==> #[trigger] a[k] == b[k],
    ensures
        joined(a, n) == joined(b, n),
    decreases n,
{
    if n > 0 {
        lemma_joined_same(a, b, n - 1);
        assert(a[(n - 1) as i32] == b[(n - 1) as i32]);
    }
}

proof fn lemma_drained(
    s: ReorderV,
    given: Map<i32, Seq<MvCompact>>,
    n: int,
    before: Seq<MvCompact>,
    out: Seq<MvCompact>,
)
    requires
        s.holds(given, n),
        before + out == joined(given, s.next as int),
    ensures
        ({
            let (t, all) = s.drained(out);
            t.in_order(given, n, before + all)
        }),
    decreases s.waiting.dom().len(),
{
    if s.waiting.contains_key(s.next) {
        let t = ReorderV { next: s.next.wrapping_add(1), waiting: s.waiting.remove(s.next) };
        assert(given.contains_key(s.next));
        let r = s.waiting[s.next];
        assert(before + (out + r) =~= (before + out) + r);
        lemma_drained(t, given, n, before, out + r);
    }
}

/// Whatever order rows arrive in, what has been handed on so far is always the rows of all numbers
/// before the next one, in order, and the next one has not arrived.
pub proof fn law_handed_on_in_order(
    s: ReorderV,
    given: Map<i32, Seq<MvCompact>>,
    n: int,
    written: Seq<MvCompact>,
    idx: i32,
    rows: Seq<MvCompact>,
)
    requires
        s.in_order(given, n, written),
        0 <= idx < n,
        !given.contains_key(idx),
    ensures
        ({
            let (t, out) = s.taken(idx, rows);
            t.in_order(given.insert(idx, rows), n, written + out)
        }),
{
    let all = given.insert(idx, rows);
    let t = ReorderV { waiting: s.waiting.insert(idx, rows), ..s };
    assert(s.next <= idx);
    assert(t.holds(all, n)) by {
        assert forall|k: i32| 0 <= k < t.next implies #[trigger] all.contains_key(k) by {
            assert(given.contains_key(k));
        }
        assert forall|k: i32| #[trigger] t.waiting.contains_key(k) <==> all.contains_key(k) && t.next
            <= k by {
            assert(s.waiting.contains_key(k) <==> given.contains_key(k) && s.next <= k);
        }
        assert forall|k: i32| #[trigger] t.waiting.contains_key(k) implies t.waiting[k]
            == all[k] by {
            if k != idx {
                assert(s.waiting.contains_key(k));
            }
        }
    }
    lemma_joined_same(given, all, s.next as int);
    assert(written + Seq::<MvCompact>::empty() =~= written);
    lemma_drained(t, all, n, written, Seq::empty());
}

/// Nothing has been handed on at the start.
pub proof fn law_starts_in_order(n: int)
    requires
        0 <= n <= i32::MAX,
    ensures
        ReorderV::start().in_order(Map::empty(), n, Seq::empty()),
{
}

/// The rows of `results[order[0]]`, `results[order[1]]`, ... up to the `k`-th arrive in turn: what is
/// left, and what has been handed on.
pub open spec fn arrived(results: Seq<Seq<MvCompact>>, order: Seq<int>, k: int) -> (
    ReorderV,
    Seq<MvCompact>,
)
    decreases k,
{
    if k <= 0 {
        (ReorderV::start(), Seq::empty())
    } else {
        let (s, written) = arrived(results, order, k - 1);
        let i = order[k - 1];
        let (t, out) = s.taken(i as i32, results[i]);
        (t, written + out)
    }
}

/// The first `n` of `results`, one behind the other.
pub open spec fn all_rows(results: Seq<Seq<MvCompact>>, n: int) -> Seq<MvCompact>
    decreases n,
{
    if n <= 0 {
        Seq::empty()
    } else {
        all_rows(results, n - 1) + results[n - 1]
    }
}

/// Each of the numbers `0..n` once, in some order.
pub open spec fn is_order(order: Seq<int>, n: int) -> bool {
    &&& order.len() == n
    &&& order.no_duplicates()
    &&& forall|k: int| 0 <= k < n ==> 0 <= #[trigger] order[k] < n
}

/// Every number is somewhere in an order.
pub proof fn lemma_order_is_full(order: Seq<int>, n: int, i: int)
    requires
        is_order(order, n),
        0 <= i < n,
    ensures
        order.contains(i),
{
    order.unique_seq_to_set();
    lemma_int_range(0, n);
    let s = order.to_set();
    assert forall|x: int| s.contains(x) implies set_int_range(0, n).contains(x) by {
        let k = choose|k: int| 0 <= k < order.len() && order[k] == x;
        assert(0 <= order[k] < n);
    }
    lemma_subset_equality(s, set_int_range(0, n));
    assert(s.contains(i));
}

/// The rows of the first `k` numbers in an order, by number.
spec fn given_by(results: Seq<Seq<MvCompact>>, order: Seq<int>, k: int) -> Map<i32, Seq<MvCompact>>
    decreases k,
{
    if k <= 0 {
        Map::empty()
    } else {
        given_by(results, order, k - 1).insert(order[k - 1] as i32, results[order[k - 1]])
    }
}

proof fn lemma_arrived(results: Seq<Seq<MvCompact>>, order: Seq<int>, k: int)
    requires
        is_order(order, results.len() as int),
        results.len() <= i32::MAX,
        0 <= k <= results.len(),
    ensures
        ({
            let (s, written) = arrived(results, order, k);
            let given = given_by(results, order, k);
            &&& s.in_order(given, results.len() as int, written)
            &&& forall|j: int| 0 <= j < k ==> given.contains_key(#[trigger] order[j] as i32)
            &&& forall|i: i32| #[trigger] given.contains_key(i) ==> given[i] == results[i as int]
            &&& forall|i: i32| #[trigger] given.contains_key(i) ==> exists|j: int|
                0 <= j < k && #[trigger] order[j] == i
        }),
    decreases k,
{
    if k > 0 {
        lemma_arrived(results, order, k - 1);
        let (s, written) = arrived(results, order, k - 1);
        let given = given_by(results, order, k - 1);
        let i = order[k - 1];
        assert(0 <= i < results.len());
        assert(!given.contains_key(i as i32));
        law_handed_on_in_order(s, given, results.len() as int, written, i as i32, results[i]);
        let all = given_by(results, order, k);
        assert forall|x: i32| #[trigger] all.contains_key(x) implies exists|j: int|
            0 <= j < k && #[trigger] order[j] == x by {
            if x == i {
                assert(order[k - 1] == x);
            } else {
                assert(given.contains_key(x));
            }
        }
    }
}

/// Once the rows of all numbers have arrived, in whatever order, all have been handed on, in the order
/// of the numbers, and none waits.
pub proof fn law_any_order_is_put_right(results: Seq<Seq<MvCompact>>, order: Seq<int>)
    requires
        is_order(order, results.len() as int),
        results.len() <= i32::MAX,
    ensures
        ({
            let (s, written) = arrived(results, order, results.len() as int);
            &&& written == all_rows(results, results.len() as int)
            &&& s.next == results.len()
            &&& s.waiting == Map::<i32, Seq<MvCompact>>::empty()
        }),
{
    let n = results.len() as int;
    lemma_arrived(results, order, n);
    let (s, written) = arrived(results, order, n);
    let given = given_by(results, order, n);
    assert forall|i: int| 0 <= i < n implies given.contains_key(#[trigger] (i as i32)) by {
        lemma_order_is_full(order, n, i);
        let j = choose|j: int| 0 <= j < order.len() && order[j] == i;
        assert(given.contains_key(order[j] as i32));
    }
    if s.next < n {
        assert(given.contains_key(s.next as int as i32));
    }
    lemma_joined_is_all(results, given, n);
    assert(s.waiting =~= Map::empty());
}

proof fn lemma_joined_is_all(results: Seq<Seq<MvCompact>>, given: Map<i32, Seq<MvCompact>>, n: int)
    requires
        n <= results.len() <= i32::MAX,
        forall|i: int| 0 <= i < n ==> given[#[trigger] (i as i32)] == results[i],
    ensures
        joined(given, n) == all_rows(results, n),
    decreases n,
{
    if n > 0 {
        lemma_joined_is_all(results, given, n - 1);
        assert(given[(n - 1) as i32] == results[n - 1]);
    }
}

} // verus!
