//! Picture order and reference lists.

use vstd::prelude::*;

verus! {

// ---------------------------------------------------------------------------
// Lists

/// `s` repeated and cut to `n` entries; nothing where `s` is empty.
pub open spec fn cycled<T>(s: Seq<T>, n: nat) -> Seq<T> {
    if s.len() == 0 {
        Seq::empty()
    } else {
        Seq::new(n, |i: int| s[i % (s.len() as int)])
    }
}

fn cycle<T: Copy>(primary: &[T], secondary: &[T], n: usize) -> (out: Vec<T>)
    ensures
        out@ == cycled(primary@ + secondary@, n as nat),
{
    let mut out: Vec<T> = Vec::new();
    let ghost all = primary@ + secondary@;
    if primary.len() == 0 && secondary.len() == 0 {
        assert(out@ =~= cycled(all, n as nat));
        return out;
    }
    let mut p: usize = 0;
    let mut s: usize = 0;
    while out.len() < n
        invariant
            out@.len() <= n,
            all == primary@ + secondary@,
            all.len() > 0,
            p <= primary@.len(),
            s <= secondary@.len(),
            s > 0 ==> p == primary@.len(),
            p + s < all.len(),
            p + s == out@.len() as int % all.len() as int,
            forall|i: int|
                0 <= i < out@.len() ==> #[trigger] out@[i] == all[i % (all.len() as int)],
        decreases n - out@.len(),
    {
        if p < primary.len() {
            out.push(primary[p]);
            p += 1;
        } else {
            out.push(secondary[s]);
            s += 1;
        }
        proof {
            let len = all.len() as int;
            let before = out@.len() as int - 1;
            assert((before + 1) % len == (if before % len + 1 < len {
                before % len + 1
            } else {
                0
            })) by {
                vstd::arithmetic::div_mod::lemma_fundamental_div_mod(before, len);
                let q = before / len;
                let r = before % len;
                assert(len * q == q * len) by (nonlinear_arith);
                if r + 1 < len {
                    vstd::arithmetic::div_mod::lemma_fundamental_div_mod_converse(
                        before + 1,
                        len,
                        q,
                        r + 1,
                    );
                } else {
                    assert((q + 1) * len == q * len + len) by (nonlinear_arith);
                    vstd::arithmetic::div_mod::lemma_fundamental_div_mod_converse(
                        before + 1,
                        len,
                        q + 1,
                        0,
                    );
                }
            }
        }
        if p == primary.len() && s == secondary.len() {
            p = 0;
            s = 0;
        }
    }
    assert(out@ =~= cycled(all, n as nat));
    out
}

/// A list of `nb` references by index: `primary`, then `secondary`, over and over.
pub fn pad_ref_list(primary: &[usize], secondary: &[usize], nb: usize) -> (out: Vec<usize>)
    ensures
        out@ == cycled(primary@ + secondary@, nb as nat),
{
    cycle(primary, secondary, nb)
}

/// A list of `nb` references by picture order count: `primary`, then `secondary`, over and over.
pub fn build_ref_list(primary: &[i32], secondary: &[i32], nb: usize) -> (out: Vec<i32>)
    ensures
        out@ == cycled(primary@ + secondary@, nb as nat),
{
    cycle(primary, secondary, nb)
}

/// A reference list is as long as asked for, starts with all candidates in order, and repeats
/// with their number as period; without candidates it is empty.
pub proof fn law_list_cycles<T>(s: Seq<T>, n: nat, i: int)
    requires
        0 <= i < n,
    ensures
        s.len() == 0 ==> cycled(s, n).len() == 0,
        s.len() > 0 ==> cycled(s, n).len() == n,
        i < s.len() ==> cycled(s, n)[i] == s[i],
        s.len() > 0 && i + s.len() < n ==> cycled(s, n)[i + s.len()] == cycled(s, n)[i],
{
    if s.len() > 0 {
        let len = s.len() as int;
        if i < len {
            vstd::arithmetic::div_mod::lemma_small_mod(i as nat, s.len());
        }
        vstd::arithmetic::div_mod::lemma_mod_add_multiples_vanish(i, len);
        assert((i + len) % len == i % len);
    }
}

// ---------------------------------------------------------------------------
// Picture order count

/// The most significant part of a picture order count: that of the previous reference, or a
/// neighbouring multiple of `max` where the least significant part has wrapped.
pub open spec fn poc_msb(max: i32, lsb: i32, prev_msb: i32, prev_lsb: i32) -> i32 {
    let half = max >> 1;
    if lsb < prev_lsb && prev_lsb.wrapping_sub(lsb) >= half {
        prev_msb.wrapping_add(max)
    } else if lsb > prev_lsb && lsb.wrapping_sub(prev_lsb) > half {
        prev_msb.wrapping_sub(max)
    } else {
        prev_msb
    }
}

/// The most significant part of a picture order count.
pub fn next_poc_msb(max: i32, lsb: i32, prev_msb: i32, prev_lsb: i32) -> (msb: i32)
    ensures
        msb == poc_msb(max, lsb, prev_msb, prev_lsb),
{
    let half = max >> 1;
    if lsb < prev_lsb && prev_lsb.wrapping_sub(lsb) >= half {
        prev_msb.wrapping_add(max)
    } else if lsb > prev_lsb && lsb.wrapping_sub(prev_lsb) > half {
        prev_msb.wrapping_sub(max)
    } else {
        prev_msb
    }
}

/// A picture order count agrees with its least significant part modulo `max` and lies from
/// less than half of `max` before that of the previous reference to half of it behind.
pub proof fn law_poc_is_nearest(max: i32, lsb: i32, prev_msb: i32, prev_lsb: i32)
    requires
        max > 0,
        max % 2 == 0,
        max <= 0x10000,
        0 <= lsb < max,
        0 <= prev_lsb < max,
        prev_msb as int % max as int == 0,
        -0x4000_0000 <= prev_msb <= 0x4000_0000,
    ensures
        ({
            let poc = poc_msb(max, lsb, prev_msb, prev_lsb) + lsb;
            let prev = prev_msb + prev_lsb;
            &&& poc % (max as int) == lsb
            &&& -(max / 2) < poc - prev <= max / 2
        }),
{
    assert(0 < max <= 0x10000i32 ==> max >> 1 == max / 2) by (bit_vector);
    let m = max as int;
    vstd::arithmetic::div_mod::lemma_fundamental_div_mod(prev_msb as int, m);
    let q = prev_msb as int / m;
    assert((q + 1) * m == q * m + m && (q - 1) * m == q * m - m && m * q == q * m)
        by (nonlinear_arith);
    let msb = poc_msb(max, lsb, prev_msb, prev_lsb) as int;
    if msb == prev_msb {
        vstd::arithmetic::div_mod::lemma_fundamental_div_mod_converse(msb + lsb, m, q, lsb as int);
    } else if msb == prev_msb + m {
        vstd::arithmetic::div_mod::lemma_fundamental_div_mod_converse(
            msb + lsb,
            m,
            q + 1,
            lsb as int,
        );
    } else {
        vstd::arithmetic::div_mod::lemma_fundamental_div_mod_converse(
            msb + lsb,
            m,
            q - 1,
            lsb as int,
        );
    }
}

} // verus!
