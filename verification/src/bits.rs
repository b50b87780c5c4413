//! MSB-first bit reading over an RBSP buffer, with the Exp-Golomb codes that the
//! H.264 and H.265 syntax tables are written in.
//!
//! Reading never fails: bits past the end of the buffer are zero, and the
//! position stops at `usize::MAX`.

use vstd::arithmetic::power2::{lemma_pow2_pos, lemma_pow2_unfold, pow2};
use vstd::prelude::*;

verus! {

/// Number of bits of `data` that a `usize` position can address.
pub open spec fn bit_len(data: Seq<u8>) -> int {
    if data.len() * 8 <= usize::MAX {
        data.len() as int * 8
    } else {
        usize::MAX as int
    }
}

/// Bit `p` of `data`, most significant bit of each byte first; 0 outside the data.
pub open spec fn bit_at(data: Seq<u8>, p: int) -> u32 {
    if 0 <= p < bit_len(data) {
        ((data[p / 8] >> ((7 - p % 8) as usize)) & 1) as u32
    } else {
        0
    }
}

/// The unsigned number written in the `n` bits of `data` from position `p` on.
pub open spec fn bits_value(data: Seq<u8>, p: int, n: nat) -> int
    decreases n,
{
    if n == 0 {
        0
    } else {
        2 * bits_value(data, p, (n - 1) as nat) + bit_at(data, p + n - 1)
    }
}

/// Length of the run of zero bits at `p`, counted up to `cap`.
pub open spec fn zero_run(data: Seq<u8>, p: int, cap: nat) -> nat
    decreases cap,
{
    if cap == 0 || bit_at(data, p) == 1 {
        0
    } else {
        1 + zero_run(data, p + 1, (cap - 1) as nat)
    }
}

/// Position of the last set bit among the first `n` bits of `data`, 0 if none is set.
pub open spec fn last_set_bit(data: Seq<u8>, n: int) -> int
    decreases n,
{
    if n <= 0 {
        0
    } else if bit_at(data, n - 1) == 1 {
        n - 1
    } else {
        last_set_bit(data, n - 1)
    }
}

/// A bit buffer and a read position: the model of a `BitReader`.
pub struct Bits {
    pub data: Seq<u8>,
    pub pos: int,
}

impl Bits {
    /// The reader `n` bits further on.
    pub open spec fn seek(self, n: int) -> Bits {
        Bits {
            data: self.data,
            pos: if self.pos + n <= usize::MAX {
                self.pos + n
            } else {
                usize::MAX as int
            },
        }
    }

    /// The next `n` bits as an unsigned number.
    pub open spec fn value(self, n: nat) -> int {
        bits_value(self.data, self.pos, n)
    }

    /// One bit.
    #[verifier::opaque]
    pub open spec fn bit(self) -> (u32, Bits) {
        (bit_at(self.data, self.pos), self.seek(1))
    }

    /// One bit as a flag.
    #[verifier::opaque]
    pub open spec fn flag(self) -> (bool, Bits) {
        (bit_at(self.data, self.pos) == 1, self.seek(1))
    }

    /// `u(n)`: the next `min(n, 32)` bits.
    #[verifier::opaque]
    pub open spec fn u(self, n: u32) -> (u32, Bits) {
        let m: u32 = if n < 32 {
            n
        } else {
            32
        };
        (self.value(m as nat) as u32, self.seek(m as int))
    }

    /// The next `n` bits in 32 bits: of more the last 32.
    pub open spec fn peek(self, n: u32) -> u32 {
        if n <= 32 {
            self.value(n as nat) as u32
        } else {
            bits_value(self.data, self.pos + n - 32, 32) as u32
        }
    }

    /// Number of bits between the position and the end of the data.
    pub open spec fn left(self) -> int {
        if self.pos < bit_len(self.data) {
            bit_len(self.data) - self.pos
        } else {
            0
        }
    }

    /// `ue(v)`: `z` zero bits, a one bit and `z` further bits of value `s` stand for
    /// `2^z - 1 + s`. Where no one bit follows within 31 zeros and within the data,
    /// the value is 0 and the zeros looked at are consumed.
    #[verifier::opaque]
    pub open spec fn ue(self) -> (u32, Bits) {
        let z = zero_run(self.data, self.pos, 32);
        if z < 32 && z < self.left() {
            (
                (pow2(z) - 1 + self.seek(z as int + 1).value(z)) as u32,
                self.seek(z as int + 1).seek(z as int),
            )
        } else if self.left() < 31 {
            (0, self.seek(self.left() + 1))
        } else {
            (0, self.seek(32))
        }
    }

    /// `se(v)`: code numbers 0, 1, 2, 3, 4, ... stand for 0, 1, -1, 2, -2, ...
    #[verifier::opaque]
    pub open spec fn se(self) -> (i32, Bits) {
        let (code, b) = self.ue();
        (se_of_code(code), b)
    }

    /// Is there payload before the `rbsp_stop_one_bit`?
    #[verifier::opaque]
    pub open spec fn more_rbsp_data(self) -> bool {
        self.pos < last_set_bit(self.data, bit_len(self.data))
    }
}

/// The signed value that Exp-Golomb code number `code` stands for.
pub open spec fn se_of_code(code: u32) -> i32 {
    if code % 2 == 1 {
        ((code + 1) / 2) as i32
    } else {
        (-((code + 1) / 2)) as i32
    }
}

pub proof fn lemma_bit_at_bound(data: Seq<u8>, p: int)
    ensures
        bit_at(data, p) <= 1,
{
    if 0 <= p < bit_len(data) {
        let b = data[p / 8];
        let s = (7 - p % 8) as usize;
        assert(((b >> s) & 1) <= 1) by (bit_vector);
    }
}

pub proof fn lemma_bits_value_bound(data: Seq<u8>, p: int, n: nat)
    ensures
        0 <= bits_value(data, p, n) < pow2(n),
    decreases n,
{
    if n == 0 {
        lemma_pow2_pos(0);
    } else {
        lemma_bits_value_bound(data, p, (n - 1) as nat);
        lemma_bit_at_bound(data, p + n - 1);
        lemma_pow2_unfold(n);
    }
}

/// The value of `a + b` bits is that of the first `a` bits followed by that of the next `b`.
pub proof fn lemma_bits_value_concat(data: Seq<u8>, p: int, a: nat, b: nat)
    ensures
        bits_value(data, p, a + b) == bits_value(data, p, a) * pow2(b) + bits_value(data, p + a, b),
    decreases b,
{
    if b == 0 {
        vstd::arithmetic::power2::lemma2_to64();
    } else {
        let c = (b - 1) as nat;
        lemma_bits_value_concat(data, p, a, c);
        lemma_pow2_unfold(b);
        let v = bits_value(data, p, a);
        assert(v * (2 * pow2(c)) == 2 * (v * pow2(c))) by (nonlinear_arith);
        assert(bits_value(data, p, a + b) == 2 * bits_value(data, p, a + c) + bit_at(
            data,
            p + (a + b) - 1,
        ));
    }
}

proof fn lemma_zero_run_bound(data: Seq<u8>, p: int, cap: nat)
    ensures
        zero_run(data, p, cap) <= cap,
    decreases cap,
{
    if cap == 0 || bit_at(data, p) == 1 {
    } else {
        lemma_zero_run_bound(data, p + 1, (cap - 1) as nat);
    }
}

/// Bits of `data` read so far are zero, so the run at `p` goes on past `k` bits.
proof fn lemma_zero_run_extend(data: Seq<u8>, p: int, cap: nat, k: nat)
    requires
        k <= cap,
        forall|i: int| p <= i < p + k ==> bit_at(data, i) == 0,
    ensures
        zero_run(data, p, cap) == k + zero_run(data, p + k, (cap - k) as nat),
    decreases k,
{
    if k > 0 {
        assert(bit_at(data, p) == 0);
        lemma_zero_run_extend(data, p + 1, (cap - 1) as nat, (k - 1) as nat);
    }
}

proof fn lemma_last_set_bit_bound(data: Seq<u8>, n: int)
    ensures
        0 <= last_set_bit(data, n),
        n > 0 ==> last_set_bit(data, n) < n,
        n <= 0 ==> last_set_bit(data, n) == 0,
    decreases n,
{
    if n > 0 && bit_at(data, n - 1) != 1 {
        lemma_last_set_bit_bound(data, n - 1);
    }
}

proof fn lemma_shift_in(v: u32, bit: u32)
    requires
        v < 0x8000_0000,
        bit <= 1,
    ensures
        ((v << 1) | bit) == 2 * v + bit,
{
    assert(v < 0x8000_0000u32 && bit <= 1u32 ==> ((v << 1) | bit) == 2 * v + bit) by (bit_vector);
}

fn data_bit(data: &[u8], p: usize) -> (r: u32)
    ensures
        r == bit_at(data@, p as int),
        r <= 1,
{
    proof {
        lemma_bit_at_bound(data@, p as int);
    }
    let byte: usize = p / 8;
    if byte >= data.len() || p == usize::MAX {
        return 0;
    }
    ((data[byte] >> (7 - p % 8)) & 1) as u32
}

/// MSB-first bit reader over an RBSP buffer.
pub struct BitReader<'a> {
    data: &'a [u8],
    /// Bit position from the start of `data`.
    bit_pos: usize,
    /// Number of addressable bits.
    bit_end: usize,
    /// Position of the `rbsp_stop_one_bit`.
    rbsp_stop: usize,
}

impl<'a> View for BitReader<'a> {
    type V = Bits;

    closed spec fn view(&self) -> Bits {
        Bits { data: self.data@, pos: self.bit_pos as int }
    }
}

impl<'a> BitReader<'a> {
    #[verifier::type_invariant]
    spec fn inv(self) -> bool {
        &&& self.bit_end == bit_len(self.data@)
        &&& self.rbsp_stop == last_set_bit(self.data@, self.bit_end as int)
    }

    /// A reader at the first bit of `data`.
    pub fn new(data: &'a [u8]) -> (r: Self)
        ensures
            r@ == (Bits { data: data@, pos: 0 }),
    {
        let bit_end: usize = if data.len() <= usize::MAX / 8 {
            data.len() * 8
        } else {
            usize::MAX
        };
        let mut n: usize = bit_end;
        while n > 0 && data_bit(data, n - 1) == 0
            invariant
                n <= bit_end,
                last_set_bit(data@, bit_end as int) == last_set_bit(data@, n as int),
            decreases n,
        {
            n -= 1;
        }
        let rbsp_stop: usize = if n > 0 {
            n - 1
        } else {
            0
        };
        proof {
            if n > 0 {
                lemma_bit_at_bound(data@, n - 1);
            }
        }
        BitReader { data, bit_pos: 0, bit_end, rbsp_stop }
    }

    /// Bits between the position and the end of the buffer.
    pub fn bits_left(&self) -> (n: usize)
        ensures
            n == self@.left(),
    {
        proof {
            use_type_invariant(self);
        }
        self.bit_end.saturating_sub(self.bit_pos)
    }

    /// The bit position.
    pub fn pos(&self) -> (p: usize)
        ensures
            p == self@.pos,
    {
        self.bit_pos
    }

    pub fn byte_aligned(&self) -> (r: bool)
        ensures
            r == (self@.pos % 8 == 0),
    {
        self.bit_pos % 8 == 0
    }

    /// Reads one bit.
    pub fn read_bit(&mut self) -> (bit: u32)
        ensures
            (bit, final(self)@) == old(self)@.bit(),
            (bit == 1, final(self)@) == old(self)@.flag(),
            bit <= 1,
    {
        proof {
            reveal(Bits::bit);
            reveal(Bits::flag);
        }
        proof {
            use_type_invariant(&*self);
        }
        let bit = data_bit(self.data, self.bit_pos);
        self.bit_pos = self.bit_pos.saturating_add(1);
        bit
    }

    /// Reads `n` bits, `u(n)`; more than 32 are read as 32.
    pub fn read_bits(&mut self, n: u32) -> (v: u32)
        ensures
            (v, final(self)@) == old(self)@.u(n),
    {
        proof {
            reveal(Bits::u);
        }
        let v = self.next_bits(n);
        let m: usize = if n < 32 {
            n as usize
        } else {
            32
        };
        self.skip_bits(m);
        v
    }

    /// Advances by `n` bits.
    pub fn skip_bits(&mut self, n: usize)
        ensures
            final(self)@ == old(self)@.seek(n as int),
    {
        proof {
            use_type_invariant(&*self);
        }
        self.bit_pos = self.bit_pos.saturating_add(n);
    }

    /// The next `n` bits without advancing; of more than 32 the last 32.
    pub fn peek_bits(&self, n: u32) -> (v: u32)
        ensures
            v == self@.peek(n),
            n <= 32 ==> v == self@.u(n).0,
    {
        proof {
            reveal(Bits::u);
        }
        if n <= 32 {
            return self.next_bits(n);
        }
        let start: usize = self.bit_pos.saturating_add((n - 32) as usize);
        proof {
            use_type_invariant(self);
            let p = self.bit_pos + (n - 32);
            if p > usize::MAX {
                lemma_bits_past_end(self.data@, p, 32);
                lemma_bits_past_end(self.data@, usize::MAX as int, 32);
            }
        }
        self.bits_from(start, 32)
    }

    /// The next `n` bits, at most 32, without advancing.
    pub(crate) fn next_bits(&self, n: u32) -> (v: u32)
        ensures
            v == self@.u(n).0,
            n <= 32 ==> v == self@.value(n as nat),
    {
        proof {
            reveal(Bits::u);
        }
        let m: u32 = if n < 32 {
            n
        } else {
            32
        };
        self.bits_from(self.bit_pos, m)
    }

    /// `m` bits from position `start` on.
    fn bits_from(&self, start: usize, m: u32) -> (v: u32)
        requires
            m <= 32,
        ensures
            v == bits_value(self@.data, start as int, m as nat),
    {
        let ghost d = self@.data;
        let mut v: u32 = 0;
        let mut i: u32 = 0;
        proof {
            lemma_pow2_pos(0);
        }
        while i < m
            invariant
                i <= m <= 32,
                d == self@.data,
                v == bits_value(d, start as int, i as nat),
                v < pow2(i as nat),
            decreases m - i,
        {
            let p: usize = start.saturating_add(i as usize);
            let bit = data_bit(self.data, p);
            proof {
                lemma_pow2_unfold((i + 1) as nat);
                vstd::arithmetic::power2::lemma2_to64();
                if i < 31 {
                    vstd::arithmetic::power2::lemma_pow2_strictly_increases(i as nat, 31);
                }
                lemma_shift_in(v, bit);
                lemma_bits_value_bound(d, start as int, (i + 1) as nat);
                assert(bit == bit_at(d, start + i));
            }
            v = (v << 1) | bit;
            i += 1;
        }
        v
    }

    /// Reads an unsigned Exp-Golomb code, `ue(v)`.
    pub fn read_ue(&mut self) -> (v: u32)
        ensures
            (v, final(self)@) == old(self)@.ue(),
            v < u32::MAX,
    {
        proof {
            reveal(Bits::bit);
            reveal(Bits::ue);
            reveal(Bits::u);
        }
        let ghost b = self@;
        proof {
            use_type_invariant(&*self);
            lemma_zero_run_bound(b.data, b.pos, 32);
        }
        let end: usize = self.bit_end;
        let mut zeros: u32 = 0;
        let mut bit = self.read_bit();
        while bit == 0
            invariant
                b == old(self)@,
                0 <= b.pos <= usize::MAX,
                zeros <= 31,
                bit <= 1,
                end == bit_len(b.data),
                self@ == b.seek(zeros + 1),
                bit == bit_at(b.data, b.pos + zeros),
                zeros <= b.left(),
                forall|i: int| b.pos <= i < b.pos + zeros ==> bit_at(b.data, i) == 0,
            decreases 32 - zeros,
        {
            proof {
                reveal(Bits::bit);
                reveal(Bits::ue);
            }
            zeros += 1;
            if zeros > 31 || self.bit_pos > end || self.bit_pos == usize::MAX {
                proof {
                    lemma_no_code(b, zeros as int);
                }
                return 0;
            }
            bit = self.read_bit();
        }
        proof {
            lemma_zero_run_extend(b.data, b.pos, 32, zeros as nat);
            lemma_bits_value_bound(b.data, self@.pos, zeros as nat);
            lemma_pow2_range(zeros);
            vstd::arithmetic::power2::lemma2_to64();
        }
        if zeros == 0 {
            return 0;
        }
        let suffix = self.read_bits(zeros);
        (1u32 << zeros) - 1 + suffix
    }

    /// True if payload bits stand before the `rbsp_stop_one_bit`.
    pub fn more_rbsp_data(&self) -> (r: bool)
        ensures
            r == self@.more_rbsp_data(),
    {
        proof {
            reveal(Bits::more_rbsp_data);
        }
        proof {
            use_type_invariant(self);
        }
        self.bit_pos < self.rbsp_stop
    }

    /// Position of the `rbsp_stop_one_bit`, the last set bit of the buffer; 0 if none is set.
    pub fn rbsp_stop_bit(&self) -> (p: usize)
        ensures
            p == last_set_bit(self@.data, bit_len(self@.data)),
    {
        proof {
            use_type_invariant(self);
        }
        self.rbsp_stop
    }

    /// Reads a signed Exp-Golomb code, `se(v)`.
    pub fn read_se(&mut self) -> (v: i32)
        ensures
            (v, final(self)@) == old(self)@.se(),
            i32::MIN < v,
    {
        proof {
            reveal(Bits::se);
        }
        let code = self.read_ue();
        proof {
            assert(((code + 1) as u32 >> 1u32) == (code + 1) as u32 / 2) by (bit_vector);
            assert((code & 1) == code % 2) by (bit_vector);
        }
        let k = ((code + 1) >> 1) as i32;
        if code & 1 == 1 {
            k
        } else {
            -k
        }
    }
}

proof fn lemma_pow2_range(n: u32)
    requires
        n <= 31,
    ensures
        1 <= pow2(n as nat) <= 0x8000_0000,
        (1u32 << n) == pow2(n as nat),
{
    lemma_pow2_pos(n as nat);
    vstd::arithmetic::power2::lemma2_to64();
    if n < 31 {
        vstd::arithmetic::power2::lemma_pow2_strictly_increases(n as nat, 31);
    }
    vstd::bits::lemma_u32_shl_is_mul(1, n);
}

/// After `zeros` zero bits with no room for a code, `ue` gives up exactly there.
proof fn lemma_no_code(b: Bits, zeros: int)
    requires
        0 < zeros <= 32,
        0 <= b.pos <= usize::MAX,
        forall|i: int| b.pos <= i < b.pos + zeros ==> bit_at(b.data, i) == 0,
        zeros - 1 <= b.left(),
        zeros == 32 || b.seek(zeros).pos > bit_len(b.data) || b.seek(zeros).pos == usize::MAX,
    ensures
        b.ue() == (0u32, b.seek(zeros)),
{
    reveal(Bits::ue);
    lemma_zero_run_bound(b.data, b.pos, 32);
    lemma_zero_run_extend(b.data, b.pos, 32, zeros as nat);
}

/// An Exp-Golomb code takes at least one bit where one is left, and is 0 where none is.
pub proof fn lemma_ue_progress(b: Bits)
    requires
        0 <= b.pos,
    ensures
        0 <= b.ue().1.pos,
        b.ue().1.left() <= b.left(),
        b.left() > 0 ==> b.ue().1.left() < b.left(),
        b.left() <= 0 ==> b.ue().0 == 0,
{
    reveal(Bits::ue);
}

/// A number of `n` bits is less than the `n`-th power of two.
pub proof fn lemma_u_bound(b: Bits, n: u32)
    requires
        n <= 31,
    ensures
        b.u(n).0 < pow2(n as nat),
{
    reveal(Bits::u);
    lemma_bits_value_bound(b.data, b.pos, n as nat);
    vstd::arithmetic::power2::lemma2_to64();
    vstd::arithmetic::power2::lemma_pow2_strictly_increases(n as nat, 32);
}

/// `n` codes `ue(v)` skipped.
pub open spec fn skip_ue(b: Bits, n: nat) -> Bits
    decreases n,
{
    if n == 0 {
        b
    } else {
        skip_ue(b.ue().1, (n - 1) as nat)
    }
}

/// `n` codes `se(v)` skipped.
pub open spec fn skip_se(b: Bits, n: nat) -> Bits
    decreases n,
{
    if n == 0 {
        b
    } else {
        skip_se(b.se().1, (n - 1) as nat)
    }
}

/// `k` numbers of `n` bits skipped.
pub open spec fn skip_u(b: Bits, n: u32, k: nat) -> Bits
    decreases k,
{
    if k == 0 {
        b
    } else {
        skip_u(b.u(n).1, n, (k - 1) as nat)
    }
}

impl<'a> BitReader<'a> {
    /// Reads and drops `k` numbers of `n` bits.
    pub fn drop_u(&mut self, n: u32, k: u32)
        ensures
            final(self)@ == skip_u(old(self)@, n, k as nat),
    {
        let mut left: u32 = k;
        while left > 0
            invariant
                skip_u(self@, n, left as nat) == skip_u(old(self)@, n, k as nat),
            decreases left,
        {
            let _number = self.read_bits(n);
            left -= 1;
        }
    }

    /// The bytes under the reader.
    pub fn data(&self) -> (d: &'a [u8])
        ensures
            d@ == self@.data,
    {
        self.data
    }

    /// Reads and drops `n` codes `ue(v)`.
    pub fn drop_ue(&mut self, n: u32)
        ensures
            final(self)@ == skip_ue(old(self)@, n as nat),
    {
        let mut left: u32 = n;
        while left > 0
            invariant
                skip_ue(self@, left as nat) == skip_ue(old(self)@, n as nat),
            decreases left,
        {
            let _code = self.read_ue();
            left -= 1;
        }
    }

    /// Reads and drops `n` codes `se(v)`.
    pub fn drop_se(&mut self, n: u32)
        ensures
            final(self)@ == skip_se(old(self)@, n as nat),
    {
        let mut left: u32 = n;
        while left > 0
            invariant
                skip_se(self@, left as nat) == skip_se(old(self)@, n as nat),
            decreases left,
        {
            let _code = self.read_se();
            left -= 1;
        }
    }

    /// Reads one bit as a flag.
    pub fn read_flag(&mut self) -> (f: bool)
        ensures
            (f, final(self)@) == old(self)@.flag(),
            0 <= final(self)@.pos,
    {
        let bit = self.read_bit();
        proof {
            use_type_invariant(&*self);
        }
        bit == 1
    }
}

// ---------------------------------------------------------------------------
// Laws

/// Reading `a` bits and then `b` bits gives the digits of reading `a + b` bits at once,
/// and leaves the reader at the same place.
pub proof fn law_reads_concatenate(r: Bits, a: u32, b: u32)
    requires
        a + b <= 32,
        0 <= r.pos,
    ensures
        r.u((a + b) as u32).1 == r.u(a).1.u(b).1,
        r.u((a + b) as u32).0 == r.u(a).0 * pow2(b as nat) + r.u(a).1.u(b).0,
{
    reveal(Bits::u);
    lemma_bits_value_concat(r.data, r.pos, a as nat, b as nat);
    lemma_bits_value_bound(r.data, r.pos, a as nat);
    lemma_bits_value_bound(r.data, r.pos + a, b as nat);
    lemma_bits_value_bound(r.data, r.pos, (a + b) as nat);
    lemma_u32_bits(r, a);
    lemma_u32_bits(r, (a + b) as u32);
    lemma_u32_bits(r.u(a).1, b);
    if r.pos + a > usize::MAX {
        lemma_bits_past_end(r.data, r.pos + a, b as nat);
        lemma_bits_past_end(r.data, usize::MAX as int, b as nat);
    }
}

proof fn lemma_u32_bits(r: Bits, n: u32)
    requires
        n <= 32,
    ensures
        r.u(n).0 == r.value(n as nat),
{
    reveal(Bits::u);
    lemma_bits_value_bound(r.data, r.pos, n as nat);
    vstd::arithmetic::power2::lemma2_to64();
    if n < 32 {
        vstd::arithmetic::power2::lemma_pow2_strictly_increases(n as nat, 32);
    }
}

/// Past the end of the data every bit is zero.
pub proof fn lemma_bits_past_end(data: Seq<u8>, p: int, n: nat)
    requires
        bit_len(data) <= p,
    ensures
        bits_value(data, p, n) == 0,
    decreases n,
{
    if n > 0 {
        lemma_bits_past_end(data, p, (n - 1) as nat);
    }
}

/// The code word of every number below `2^32 - 1` reads back as that number, and the reader
/// ends just behind it: `z` zeros, a one and the `z` bits of `code + 1 - 2^z`, where
/// `2^z <= code + 1 < 2^(z + 1)`.
pub proof fn law_ue_reads_code_word(r: Bits, code: u32, z: nat)
    requires
        code < u32::MAX,
        z <= 31,
        pow2(z) <= code + 1 < pow2(z + 1),
        0 <= r.pos,
        r.pos + 2 * z + 1 <= bit_len(r.data),
        r.value(z) == 0,
        bit_at(r.data, r.pos + z) == 1,
        bits_value(r.data, r.pos + z + 1, z) == code + 1 - pow2(z),
    ensures
        r.ue() == (code, r.seek(2 * z as int + 1)),
{
    reveal(Bits::ue);
    reveal(Bits::u);
    lemma_zero_value(r.data, r.pos, z);
    lemma_zero_run_extend(r.data, r.pos, 32, z);
}

proof fn lemma_zero_value(data: Seq<u8>, p: int, n: nat)
    requires
        bits_value(data, p, n) == 0,
    ensures
        forall|i: int| p <= i < p + n ==> bit_at(data, i) == 0,
    decreases n,
{
    if n > 0 {
        lemma_bits_value_bound(data, p, (n - 1) as nat);
        lemma_zero_value(data, p, (n - 1) as nat);
    }
}

/// Signed codes are a bijection between code numbers and the integers above `i32::MIN`:
/// each value comes from exactly one code number, positive values from odd ones.
pub proof fn law_se_bijective(v: i32)
    requires
        i32::MIN < v,
    ensures
        ({
            let code = if v > 0 {
                (2 * v - 1) as u32
            } else {
                (-2 * v) as u32
            };
            &&& code < u32::MAX
            &&& se_of_code(code) == v
            &&& forall|c: u32| c < u32::MAX && #[trigger] se_of_code(c) == v ==> c == code
        }),
{
}

/// Reading `n` bits moves as far as skipping them, and bits behind the end read as zero.
pub proof fn law_reading_moves_like_skipping(r: Bits, n: u32)
    requires
        n <= 32,
    ensures
        r.u(n).1 == r.seek(n as int),
        r.pos >= bit_len(r.data) ==> r.u(n).0 == 0,
{
    reveal(Bits::u);
    if r.pos >= bit_len(r.data) {
        lemma_bits_past_end(r.data, r.pos, n as nat);
    }
}

} // verus!
