//! How NAL units are framed: emulation-prevention bytes, Annex-B start codes and
//! length prefixes. H.264 and H.265 share all three.

use vstd::prelude::*;

verus! {

/// What is left of `ebsp` from byte `i` on once emulation-prevention bytes are dropped,
/// where `zeros` zero bytes stand just before `i`. A byte 3 after at least two zeros and
/// before a byte of at most 3 is such a byte.
pub open spec fn strip_from(ebsp: Seq<u8>, i: int, zeros: nat) -> Seq<u8>
    decreases ebsp.len() - i,
{
    if i >= ebsp.len() {
        Seq::empty()
    } else if zeros >= 2 && ebsp[i] == 3 && i + 1 < ebsp.len() && ebsp[i + 1] <= 3 {
        strip_from(ebsp, i + 1, 0)
    } else {
        seq![ebsp[i]] + strip_from(
            ebsp,
            i + 1,
            if ebsp[i] == 0 {
                zeros + 1
            } else {
                0
            },
        )
    }
}

/// The RBSP of an EBSP payload: `00 00 03 xx` becomes `00 00 xx` for `xx <= 3`.
pub open spec fn rbsp_of(ebsp: Seq<u8>) -> Seq<u8> {
    strip_from(ebsp, 0, 0)
}

/// Strips emulation-prevention bytes.
pub fn ebsp_to_rbsp(ebsp: &[u8]) -> (out: Vec<u8>)
    ensures
        out@ == rbsp_of(ebsp@),
{
    let mut out: Vec<u8> = Vec::with_capacity(ebsp.len());
    let mut zeros: usize = 0;
    let mut i: usize = 0;
    while i < ebsp.len()
        invariant
            zeros <= i <= ebsp@.len(),
            out@ + strip_from(ebsp@, i as int, zeros as nat) == rbsp_of(ebsp@),
        decreases ebsp@.len() - i,
    {
        let b = ebsp[i];
        let ghost before = out@;
        if zeros >= 2 && b == 0x03 && i + 1 < ebsp.len() && ebsp[i + 1] <= 0x03 {
            zeros = 0;
            i += 1;
            continue;
        }
        out.push(b);
        proof {
            let rest = strip_from(
                ebsp@,
                i + 1,
                if b == 0 {
                    (zeros + 1) as nat
                } else {
                    0
                },
            );
            assert(before + (seq![b] + rest) =~= before.push(b) + rest);
        }
        if b == 0 {
            zeros += 1;
        } else {
            zeros = 0;
        }
        i += 1;
    }
    assert(out@ + Seq::<u8>::empty() =~= out@);
    out
}

// ---------------------------------------------------------------------------
// Annex B

/// Does a start code `00 00 01` stand at byte `i`?
pub open spec fn start_code_at(data: Seq<u8>, i: int) -> bool {
    i + 3 <= data.len() && data[i] == 0 && data[i + 1] == 0 && data[i + 2] == 1
}

/// Offsets just behind each start code found from byte `i` on, in order.
pub open spec fn unit_starts(data: Seq<u8>, i: int) -> Seq<int>
    decreases data.len() - i,
{
    if i + 3 > data.len() {
        Seq::empty()
    } else if start_code_at(data, i) {
        seq![i + 3] + unit_starts(data, i + 3)
    } else {
        unit_starts(data, i + 1)
    }
}

/// `e` moved back over the zero bytes before it, no further than `s`.
pub open spec fn trim_zeros(data: Seq<u8>, s: int, e: int) -> int
    decreases e - s,
{
    if e > s && data[e - 1] == 0 {
        trim_zeros(data, s, e - 1)
    } else {
        e
    }
}

/// End of the unit that begins at `starts[k]`: the next start code less the zero bytes
/// that lead it, or the end of the data.
pub open spec fn unit_end(data: Seq<u8>, starts: Seq<int>, k: int) -> int {
    if k + 1 < starts.len() {
        trim_zeros(data, starts[k], starts[k + 1] - 3)
    } else {
        data.len() as int
    }
}

/// The NAL units of an Annex-B byte stream, as raw bytes.
pub open spec fn annexb_units(data: Seq<u8>) -> Seq<Seq<u8>> {
    let starts = unit_starts(data, 0);
    Seq::new(
        starts.len(),
        |k: int| data.subrange(starts[k], unit_end(data, starts, k)),
    )
}

/// Byte ranges into a buffer, the form in which the splitters hand units on.
pub open spec fn ranges_of(data: Seq<u8>, r: Seq<(usize, usize)>) -> Seq<Seq<u8>> {
    Seq::new(r.len(), |k: int| data.subrange(r[k].0 as int, r[k].1 as int))
}

pub open spec fn ranges_ok(data: Seq<u8>, r: Seq<(usize, usize)>) -> bool {
    forall|k: int| 0 <= k < r.len() ==> (#[trigger] r[k]).0 <= r[k].1 <= data.len()
}

proof fn lemma_trim_zeros(data: Seq<u8>, s: int, e: int)
    requires
        s <= e,
    ensures
        s <= trim_zeros(data, s, e) <= e,
    decreases e - s,
{
    if e > s && data[e - 1] == 0 {
        lemma_trim_zeros(data, s, e - 1);
    }
}

/// Finds the units of an Annex-B byte stream.
pub fn annexb_ranges(data: &[u8]) -> (r: Vec<(usize, usize)>)
    ensures
        ranges_ok(data@, r@),
        ranges_of(data@, r@) == annexb_units(data@),
{
    let mut starts: Vec<usize> = Vec::new();
    let mut i: usize = 0;
    let ghost all = unit_starts(data@, 0);
    while data.len() >= 3 && i <= data.len() - 3
        invariant
            i <= data@.len(),
            all == unit_starts(data@, 0),
            starts@.map_values(|s: usize| s as int) + unit_starts(data@, i as int) == all,
            forall|k: int| 0 <= k < starts@.len() ==> 3 <= #[trigger] starts@[k] <= i,
            forall|j: int, k: int|
                0 <= j < k < starts@.len() ==> #[trigger] starts@[j] + 3 <= #[trigger] starts@[k],
        decreases data@.len() - i,
    {
        let ghost before = starts@;
        let ghost vals = starts@.map_values(|s: usize| s as int);
        if data[i] == 0 && data[i + 1] == 0 && data[i + 2] == 1 {
            starts.push(i + 3);
            i += 3;
            proof {
                assert(starts@.map_values(|s: usize| s as int) =~= vals.push(i as int));
                assert(vals + (seq![i as int] + unit_starts(data@, i as int)) =~= vals.push(
                    i as int,
                ) + unit_starts(data@, i as int));
            }
        } else {
            i += 1;
        }
    }
    assert(starts@.map_values(|s: usize| s as int) =~= all);
    assert(forall|k: int| 0 <= k < starts@.len() ==> #[trigger] starts@[k] == all[k]);
    let mut r: Vec<(usize, usize)> = Vec::new();
    let mut k: usize = 0;
    while k < starts.len()
        invariant
            k <= starts@.len(),
            all == unit_starts(data@, 0),
            starts@.len() == all.len(),
            forall|k: int| 0 <= k < starts@.len() ==> #[trigger] starts@[k] == all[k],
            forall|k: int| 0 <= k < starts@.len() ==> 3 <= #[trigger] starts@[k] <= data@.len(),
            forall|j: int, k: int|
                0 <= j < k < starts@.len() ==> #[trigger] starts@[j] + 3 <= #[trigger] starts@[k],
            r@.len() == k,
            ranges_ok(data@, r@),
            forall|j: int|
                0 <= j < k ==> (#[trigger] r@[j]).0 == all[j] && r@[j].1 == unit_end(data@, all, j),
        decreases starts@.len() - k,
    {
        let s = starts[k];
        let end: usize = if k + 1 < starts.len() {
            let mut e: usize = starts[k + 1] - 3;
            let ghost e0 = e;
            proof {
                lemma_trim_zeros(data@, s as int, e as int);
            }
            while e > s && data[e - 1] == 0
                invariant
                    s <= e <= data@.len(),
                    trim_zeros(data@, s as int, e as int) == trim_zeros(data@, s as int, e0 as int),
                decreases e,
            {
                e -= 1;
            }
            e
        } else {
            data.len()
        };
        r.push((s, end));
        k += 1;
    }
    assert(ranges_of(data@, r@) =~= annexb_units(data@));
    r
}

// ---------------------------------------------------------------------------
// Length prefixes

/// The big-endian number in the `n` bytes of `data` at `i`, in the width of `usize`.
pub open spec fn be_number(data: Seq<u8>, i: int, n: nat) -> usize
    decreases n,
{
    if n == 0 {
        0
    } else {
        (be_number(data, i, (n - 1) as nat) << 8) | data[i + n - 1] as usize
    }
}

/// The units of a length-prefixed stream from byte `i` on. The stream ends where no whole
/// prefix is left, at a zero length, and at a length that runs past the data.
pub open spec fn prefixed_units(data: Seq<u8>, n: nat, i: int) -> Seq<Seq<u8>>
    decreases data.len() - i,
{
    if i < 0 || i + n > data.len() {
        Seq::empty()
    } else {
        let len = be_number(data, i, n);
        if len == 0 || i + n + len > data.len() {
            Seq::empty()
        } else {
            seq![data.subrange(i + n, i + n + len)] + prefixed_units(data, n, i + n + len)
        }
    }
}

/// Finds the units of a stream in which an `n`-byte length stands before each.
pub fn prefixed_ranges(data: &[u8], n: usize) -> (r: Vec<(usize, usize)>)
    ensures
        ranges_ok(data@, r@),
        ranges_of(data@, r@) == prefixed_units(data@, n as nat, 0),
{
    let mut r: Vec<(usize, usize)> = Vec::new();
    let mut i: usize = 0;
    let ghost all = prefixed_units(data@, n as nat, 0);
    assert(ranges_of(data@, r@) + all =~= all);
    while n <= data.len() && i <= data.len() - n
        invariant
            i <= data@.len(),
            all == prefixed_units(data@, n as nat, 0),
            ranges_ok(data@, r@),
            ranges_of(data@, r@) + prefixed_units(data@, n as nat, i as int) == all,
        decreases data@.len() - i,
    {
        let start: usize = i;
        let mut len: usize = 0;
        let mut k: usize = 0;
        while k < n
            invariant
                k <= n,
                start + n <= data@.len(),
                i == start + k,
                len == be_number(data@, start as int, k as nat),
            decreases n - k,
        {
            len = (len << 8) | data[i] as usize;
            i += 1;
            k += 1;
        }
        if len == 0 || len > data.len() - i {
            assert(ranges_of(data@, r@) + Seq::empty() =~= ranges_of(data@, r@));
            return r;
        }
        let ghost before = ranges_of(data@, r@);
        let ghost unit = data@.subrange(i as int, i + len);
        r.push((i, i + len));
        i += len;
        proof {
            let rest = prefixed_units(data@, n as nat, i as int);
            assert(ranges_of(data@, r@) =~= before.push(unit));
            assert(before + (seq![unit] + rest) =~= before.push(unit) + rest);
        }
    }
    assert(ranges_of(data@, r@) + Seq::empty() =~= ranges_of(data@, r@));
    r
}

// ---------------------------------------------------------------------------
// Configuration records

/// Up to `n` units from byte `i` on, each behind a 16-bit length: the units, the offset
/// behind the last of them, and whether all `n` were there in full.
pub open spec fn config_units(data: Seq<u8>, i: int, n: nat) -> (Seq<Seq<u8>>, int, bool)
    decreases n,
{
    if n == 0 {
        (Seq::empty(), i, true)
    } else if i + 2 > data.len() {
        (Seq::empty(), i, false)
    } else {
        let len = data[i] * 256 + data[i + 1];
        if i + 2 + len > data.len() {
            (Seq::empty(), i, false)
        } else {
            let (units, j, whole) = config_units(data, i + 2 + len, (n - 1) as nat);
            (seq![data.subrange(i + 2, i + 2 + len)] + units, j, whole)
        }
    }
}

/// Finds up to `n` units from byte `i` on, each behind a 16-bit length.
pub fn config_ranges(data: &[u8], i: usize, n: usize) -> (r: (Vec<(usize, usize)>, usize, bool))
    requires
        i <= data@.len(),
    ensures
        ranges_ok(data@, r.0@),
        (ranges_of(data@, r.0@), r.1 as int, r.2) == config_units(data@, i as int, n as nat),
        r.1 <= data@.len(),
{
    let mut r: Vec<(usize, usize)> = Vec::new();
    let mut at: usize = i;
    let mut left: usize = n;
    let ghost all = config_units(data@, i as int, n as nat);
    assert(ranges_of(data@, r@) + all.0 =~= all.0);
    while left > 0
        invariant
            at <= data@.len(),
            ranges_ok(data@, r@),
            all == config_units(data@, i as int, n as nat),
            ({
                let rest = config_units(data@, at as int, left as nat);
                all == (ranges_of(data@, r@) + rest.0, rest.1, rest.2)
            }),
        decreases left,
    {
        let ghost before = ranges_of(data@, r@);
        if data.len() - at < 2 {
            assert(before + Seq::empty() =~= before);
            return (r, at, false);
        }
        let len: usize = data[at] as usize * 256 + data[at + 1] as usize;
        if data.len() - at - 2 < len {
            assert(before + Seq::empty() =~= before);
            return (r, at, false);
        }
        let ghost unit = data@.subrange(at + 2, at + 2 + len);
        r.push((at + 2, at + 2 + len));
        at = at + 2 + len;
        left -= 1;
        proof {
            let rest = config_units(data@, at as int, left as nat);
            assert(ranges_of(data@, r@) =~= before.push(unit));
            assert(before + (seq![unit] + rest.0) =~= before.push(unit) + rest.0);
        }
    }
    assert(ranges_of(data@, r@) + Seq::empty() =~= ranges_of(data@, r@));
    (r, at, true)
}

// ---------------------------------------------------------------------------
// Laws

/// A payload with emulation-prevention bytes put in: a byte 3 before every byte of at most 3
/// that follows two zero bytes. `zeros` counts the zero bytes since the last byte put in or
/// the last nonzero byte.
pub open spec fn escape_from(rbsp: Seq<u8>, i: int, zeros: nat) -> Seq<u8>
    decreases rbsp.len() - i,
{
    if i >= rbsp.len() {
        Seq::empty()
    } else if zeros >= 2 && rbsp[i] <= 3 {
        seq![3u8, rbsp[i]] + escape_from(
            rbsp,
            i + 1,
            if rbsp[i] == 0 {
                1
            } else {
                0
            },
        )
    } else {
        seq![rbsp[i]] + escape_from(
            rbsp,
            i + 1,
            if rbsp[i] == 0 {
                zeros + 1
            } else {
                0
            },
        )
    }
}

/// Stripping undoes escaping: every payload comes back from its escaped form.
pub proof fn law_strip_undoes_escape(rbsp: Seq<u8>)
    ensures
        rbsp_of(escape_from(rbsp, 0, 0)) == rbsp,
{
    let e = escape_from(rbsp, 0, 0);
    assert(e.skip(0) =~= e);
    lemma_strip_escape(rbsp, 0, 0, e, 0);
    assert(rbsp.skip(0) =~= rbsp);
}

proof fn lemma_strip_escape(rbsp: Seq<u8>, i: int, zeros: nat, e: Seq<u8>, j: int)
    requires
        0 <= i <= rbsp.len(),
        0 <= j <= e.len(),
        e.skip(j) == escape_from(rbsp, i, zeros),
    ensures
        strip_from(e, j, zeros) == rbsp.skip(i),
    decreases rbsp.len() - i,
{
    let tail = escape_from(rbsp, i, zeros);
    assert(tail.len() == e.len() - j);
    if i >= rbsp.len() {
        assert(rbsp.skip(i) =~= Seq::empty());
    } else if zeros >= 2 && rbsp[i] <= 3 {
        let z: nat = if rbsp[i] == 0 {
            1
        } else {
            0
        };
        let rest = escape_from(rbsp, i + 1, z);
        assert(tail[0] == 3 && tail[1] == rbsp[i]);
        assert(e[j] == e.skip(j)[0] && e[j + 1] == e.skip(j)[1]);
        assert(e.skip(j + 2) =~= rest) by {
            assert(tail.skip(2) =~= rest);
        }
        lemma_strip_escape(rbsp, i + 1, z, e, j + 2);
        assert(strip_from(e, j, zeros) == strip_from(e, j + 1, 0));
        assert(strip_from(e, j + 1, 0) == seq![rbsp[i]] + strip_from(e, j + 2, z));
        assert(rbsp.skip(i) =~= seq![rbsp[i]] + rbsp.skip(i + 1));
    } else {
        let z: nat = if rbsp[i] == 0 {
            zeros + 1
        } else {
            0
        };
        let rest = escape_from(rbsp, i + 1, z);
        assert(tail[0] == rbsp[i]);
        assert(e[j] == e.skip(j)[0]);
        assert(e.skip(j + 1) =~= rest) by {
            assert(tail.skip(1) =~= rest);
        }
        lemma_strip_escape(rbsp, i + 1, z, e, j + 1);
        assert(rbsp.skip(i) =~= seq![rbsp[i]] + rbsp.skip(i + 1));
    }
}

/// Is `n` bytes at the front of `data` the length of the `unit` behind them?
pub open spec fn framed(data: Seq<u8>, i: int, n: nat, unit: Seq<u8>) -> bool {
    &&& 0 <= i
    &&& i + n + unit.len() <= data.len()
    &&& be_number(data, i, n) == unit.len()
    &&& data.subrange(i + n, i + n + unit.len()) == unit
}

/// Byte offset of unit `k` when every unit before it takes `n` bytes more than its length.
pub open spec fn frame_offset(units: Seq<Seq<u8>>, n: nat, k: int) -> int
    decreases k,
{
    if k <= 0 {
        0
    } else {
        frame_offset(units, n, k - 1) + n + units[k - 1].len()
    }
}

/// Does unit `k` stand at its place in `data`, not empty and behind its length?
pub open spec fn frame_ok(data: Seq<u8>, n: nat, units: Seq<Seq<u8>>, k: int) -> bool {
    units[k].len() > 0 && framed(data, frame_offset(units, n, k), n, units[k])
}

/// Length-prefixed framing is undone by splitting: a stream that is nothing but non-empty
/// units with their lengths before them splits into just those units.
pub proof fn law_prefixed_roundtrip(data: Seq<u8>, n: nat, units: Seq<Seq<u8>>)
    requires
        n > 0,
        data.len() == frame_offset(units, n, units.len() as int),
        forall|k: int| 0 <= k < units.len() ==> #[trigger] frame_ok(data, n, units, k),
    ensures
        prefixed_units(data, n, 0) == units,
{
    lemma_prefixed_from(data, n, units, 0);
    assert(units.skip(0) =~= units);
}

proof fn lemma_prefixed_from(data: Seq<u8>, n: nat, units: Seq<Seq<u8>>, k: int)
    requires
        n > 0,
        0 <= k <= units.len(),
        data.len() == frame_offset(units, n, units.len() as int),
        forall|j: int| 0 <= j < units.len() ==> #[trigger] frame_ok(data, n, units, j),
    ensures
        prefixed_units(data, n, frame_offset(units, n, k)) == units.skip(k),
    decreases units.len() - k,
{
    if k < units.len() {
        let u = units[k];
        let i = frame_offset(units, n, k);
        assert(frame_ok(data, n, units, k));
        assert(frame_offset(units, n, k + 1) == i + n + u.len());
        lemma_prefixed_from(data, n, units, k + 1);
        assert(prefixed_units(data, n, i) == seq![u] + prefixed_units(data, n, i + n + u.len()));
        assert(units.skip(k) =~= seq![u] + units.skip(k + 1));
    } else {
        assert(units.skip(k) =~= Seq::empty());
    }
}

/// A unit that can stand in an Annex-B stream: it holds no start code and does not end in a zero
/// byte.
pub open spec fn clean(unit: Seq<u8>) -> bool {
    &&& unit.len() > 0
    &&& unit.last() != 0
    &&& forall|i: int| 0 <= i < unit.len() ==> !(#[trigger] start_code_at(unit, i))
}

/// Byte offset of the zero bytes before unit `k`, where `zeros[j]` zero bytes and a 1 stand before
/// unit `j`.
pub open spec fn code_offset(units: Seq<Seq<u8>>, zeros: Seq<nat>, k: int) -> int
    decreases k,
{
    if k <= 0 {
        0
    } else {
        code_offset(units, zeros, k - 1) + zeros[k - 1] + 1 + units[k - 1].len()
    }
}

/// Does unit `k` stand at its place in `data`, behind a start code of two zero bytes or more?
pub open spec fn code_ok(data: Seq<u8>, units: Seq<Seq<u8>>, zeros: Seq<nat>, k: int) -> bool {
    let i = code_offset(units, zeros, k);
    let s = i + zeros[k] + 1;
    &&& clean(units[k])
    &&& zeros[k] >= 2
    &&& 0 <= i
    &&& s + units[k].len() <= data.len()
    &&& forall|j: int| i <= j < i + zeros[k] ==> #[trigger] data[j] == 0
    &&& data[s - 1] == 1
    &&& data.subrange(s, s + units[k].len()) == units[k]
}

/// Annex-B framing is undone by splitting: a stream that is nothing but clean units with start codes
/// before them, each of two zero bytes or more and a 1, splits into just those units.
pub proof fn law_annexb_roundtrip(data: Seq<u8>, units: Seq<Seq<u8>>, zeros: Seq<nat>)
    requires
        data.len() == code_offset(units, zeros, units.len() as int),
        forall|k: int| 0 <= k < units.len() ==> #[trigger] code_ok(data, units, zeros, k),
    ensures
        annexb_units(data) == units,
{
    lemma_starts(data, units, zeros, 0);
    let starts = unit_starts(data, 0);
    assert forall|k: int| 0 <= k < units.len() implies data.subrange(
        starts[k],
        unit_end(data, starts, k),
    ) == #[trigger] units[k] by {
        assert(code_ok(data, units, zeros, k));
        let i = code_offset(units, zeros, k);
        let s = i + zeros[k] + 1;
        let e = s + units[k].len();
        assert(code_offset(units, zeros, k + 1) == e);
        if k + 1 < units.len() {
            assert(code_ok(data, units, zeros, k + 1));
            assert(data[e - 1] == data.subrange(s, e).last());
            lemma_trims(data, s, e, e + zeros[k + 1] - 2);
        }
    }
    assert(annexb_units(data) =~= units);
}

/// Trimming stops behind the last byte that is not zero.
proof fn lemma_trims(data: Seq<u8>, s: int, e: int, from: int)
    requires
        s < e <= from,
        data[e - 1] != 0,
        forall|j: int| e <= j < from ==> #[trigger] data[j] == 0,
    ensures
        trim_zeros(data, s, from) == e,
    decreases from - e,
{
    if from > e {
        assert(data[from - 1] == 0);
        lemma_trims(data, s, e, from - 1);
    }
}

/// Bytes without a start code are passed over.
proof fn lemma_pass(data: Seq<u8>, i: int, e: int)
    requires
        0 <= i <= e <= data.len(),
        forall|j: int| i <= j < e ==> !(#[trigger] start_code_at(data, j)),
    ensures
        unit_starts(data, i) == unit_starts(data, e),
    decreases e - i,
{
    if i < e {
        assert(!start_code_at(data, i));
        lemma_pass(data, i + 1, e);
        if i + 3 > data.len() {
            assert(unit_starts(data, i) =~= Seq::empty());
            assert(unit_starts(data, i + 1) =~= Seq::empty());
        }
    }
}

/// The start codes from unit `k` on.
proof fn lemma_starts(data: Seq<u8>, units: Seq<Seq<u8>>, zeros: Seq<nat>, k: int)
    requires
        0 <= k <= units.len(),
        data.len() == code_offset(units, zeros, units.len() as int),
        forall|j: int| 0 <= j < units.len() ==> #[trigger] code_ok(data, units, zeros, j),
    ensures
        unit_starts(data, code_offset(units, zeros, k)) == Seq::new(
            (units.len() - k) as nat,
            |j: int| code_offset(units, zeros, k + j) + zeros[k + j] + 1,
        ),
    decreases units.len() - k,
{
    let want = Seq::new(
        (units.len() - k) as nat,
        |j: int| code_offset(units, zeros, k + j) + zeros[k + j] + 1,
    );
    let i = code_offset(units, zeros, k);
    if k >= units.len() {
        assert(unit_starts(data, i) =~= want);
    } else {
        assert(code_ok(data, units, zeros, k));
        let u = units[k];
        let s = i + zeros[k] + 1;
        let e = s + u.len();
        assert(code_offset(units, zeros, k + 1) == e);
        assert forall|j: int| i <= j < s - 3 implies !(#[trigger] start_code_at(data, j)) by {
            assert(data[j + 2] == 0);
        }
        lemma_pass(data, i, s - 3);
        assert(data[s - 3] == 0 && data[s - 2] == 0);
        assert(start_code_at(data, s - 3));
        assert forall|j: int| s <= j < e implies !(#[trigger] start_code_at(data, j)) by {
            assert(!start_code_at(u, j - s));
            assert(data[j] == u[j - s]);
            if j + 1 < e {
                assert(data[j + 1] == u[j + 1 - s]);
            }
            if j + 2 < e {
                assert(data[j + 2] == u[j + 2 - s]);
            }
        }
        lemma_pass(data, s, e);
        lemma_starts(data, units, zeros, k + 1);
        assert(unit_starts(data, s - 3) == seq![s] + unit_starts(data, s));
        assert(unit_starts(data, i) =~= want);
    }
}

/// An escaped payload behind a header byte that is not zero holds no start code, and where the
/// payload does not end in a zero byte, it can stand in an Annex-B stream.
pub proof fn law_escaped_is_clean(header: u8, rbsp: Seq<u8>)
    requires
        header != 0,
        rbsp.len() > 0,
        rbsp.last() != 0,
    ensures
        clean(seq![header] + escape_from(rbsp, 0, 0)),
{
    let e = escape_from(rbsp, 0, 0);
    let u = seq![header] + e;
    lemma_escaped_last(rbsp, 0, 0);
    assert forall|i: int| 0 <= i < u.len() implies !(#[trigger] start_code_at(u, i)) by {
        if i > 0 {
            lemma_no_code(rbsp, 0, 0, i - 1);
        }
    }
}

/// The last byte stays the last.
proof fn lemma_escaped_last(rbsp: Seq<u8>, i: int, zeros: nat)
    requires
        0 <= i < rbsp.len(),
    ensures
        escape_from(rbsp, i, zeros).len() > 0,
        escape_from(rbsp, i, zeros).last() == rbsp.last(),
    decreases rbsp.len() - i,
{
    let z: nat = if rbsp[i] == 0 {
        if zeros >= 2 {
            1
        } else {
            zeros + 1
        }
    } else {
        0
    };
    let rest = escape_from(rbsp, i + 1, z);
    if i + 1 < rbsp.len() {
        lemma_escaped_last(rbsp, i + 1, z);
    } else {
        assert(rest =~= Seq::empty());
    }
}

/// Behind `zeros` zero bytes an escaped payload completes no start code, and holds none.
proof fn lemma_no_code(rbsp: Seq<u8>, i: int, zeros: nat, j: int)
    requires
        0 <= i <= rbsp.len(),
        zeros <= 2,
    ensures
        ({
            let e = escape_from(rbsp, i, zeros);
            &&& zeros == 2 && e.len() > 0 ==> e[0] != 1
            &&& zeros >= 1 && e.len() > 1 ==> !(e[0] == 0 && e[1] == 1)
            &&& 0 <= j ==> !start_code_at(e, j)
        }),
    decreases rbsp.len() - i,
{
    if i < rbsp.len() {
        let e = escape_from(rbsp, i, zeros);
        if zeros >= 2 && rbsp[i] <= 3 {
            let z: nat = if rbsp[i] == 0 {
                1
            } else {
                0
            };
            let rest = escape_from(rbsp, i + 1, z);
            lemma_no_code(rbsp, i + 1, z, j - 2);
            assert(e == seq![3u8, rbsp[i]] + rest);
            assert(e.skip(2) =~= rest);
            if j >= 2 {
                assert(start_code_at(e, j) ==> start_code_at(rest, j - 2));
            }
        } else {
            let z: nat = if rbsp[i] == 0 {
                zeros + 1
            } else {
                0
            };
            let rest = escape_from(rbsp, i + 1, z);
            lemma_no_code(rbsp, i + 1, z, j - 1);
            assert(e == seq![rbsp[i]] + rest);
            if j >= 1 {
                assert(start_code_at(e, j) ==> start_code_at(rest, j - 1));
            }
        }
    }
}

} // verus!
