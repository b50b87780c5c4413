//! The binary arithmetic decoding engine that H.264 and H.265 share.

use crate::bits::{lemma_bit_at_bound, BitReader, Bits};
use vstd::prelude::*;

verus! {

/// Range of the less probable symbol, by state and quarter of the current range.
pub const RANGE_LPS: [[u8; 4]; 64] = [
    [128, 176, 208, 240],
    [128, 167, 197, 227],
    [128, 158, 187, 216],
    [123, 150, 178, 205],
    [116, 142, 169, 195],
    [111, 135, 160, 185],
    [105, 128, 152, 175],
    [100, 122, 144, 166],
    [95, 116, 137, 158],
    [90, 110, 130, 150],
    [85, 104, 123, 142],
    [81, 99, 117, 135],
    [77, 94, 111, 128],
    [73, 89, 105, 122],
    [69, 85, 100, 116],
    [66, 80, 95, 110],
    [62, 76, 90, 104],
    [59, 72, 86, 99],
    [56, 69, 81, 94],
    [53, 65, 77, 89],
    [51, 62, 73, 85],
    [48, 59, 69, 80],
    [46, 56, 66, 76],
    [43, 53, 63, 72],
    [41, 50, 59, 69],
    [39, 48, 56, 65],
    [37, 45, 54, 62],
    [35, 43, 51, 59],
    [33, 41, 48, 56],
    [32, 39, 46, 53],
    [30, 37, 43, 50],
    [29, 35, 41, 48],
    [27, 33, 39, 45],
    [26, 31, 37, 43],
    [24, 30, 35, 41],
    [23, 28, 33, 39],
    [22, 27, 32, 37],
    [21, 26, 30, 35],
    [20, 24, 29, 33],
    [19, 23, 27, 31],
    [18, 22, 26, 30],
    [17, 21, 25, 28],
    [16, 20, 23, 27],
    [15, 19, 22, 25],
    [14, 18, 21, 24],
    [14, 17, 20, 23],
    [13, 16, 19, 22],
    [12, 15, 18, 21],
    [12, 14, 17, 20],
    [11, 14, 16, 19],
    [11, 13, 15, 18],
    [10, 12, 15, 17],
    [10, 12, 14, 16],
    [9, 11, 13, 15],
    [9, 11, 12, 14],
    [8, 10, 12, 14],
    [8, 9, 11, 13],
    [7, 9, 11, 12],
    [7, 9, 10, 12],
    [7, 8, 10, 11],
    [6, 8, 9, 11],
    [6, 7, 9, 10],
    [6, 7, 8, 9],
    [2, 2, 2, 2],
];

/// State after a less probable symbol.
pub const NEXT_LPS: [u8; 64] = [
    0, 0, 1, 2, 2, 4, 4, 5, 6, 7, 8, 9, 9, 11, 11, 12, 13, 13, 15, 15, 16, 16, 18, 18, 19, 19, 21,
    21, 22, 22, 23, 24, 24, 25, 26, 26, 27, 27, 28, 29, 29, 30, 30, 30, 31, 32, 32, 33, 33, 33, 34,
    34, 35, 35, 35, 36, 36, 36, 37, 37, 37, 38, 38, 63,
];

/// Range of the less probable symbol in state `state` while the range is `range`.
#[verifier::opaque]
pub open spec fn lps_range(state: u8, range: u32) -> u32 {
    RANGE_LPS[state as int][((range >> 6) & 3) as int] as u32
}

/// State after a less probable symbol.
#[verifier::opaque]
pub open spec fn next_lps(state: u8) -> u8 {
    NEXT_LPS[state as int]
}

/// State after a more probable symbol.
pub open spec fn next_mps(state: u8) -> u8 {
    if state < 62 {
        (state + 1) as u8
    } else {
        state
    }
}

/// The decoding engine: what is left to read, the range and the offset in it.
pub struct Engine {
    pub bits: Bits,
    pub range: u32,
    pub offset: u32,
}

impl Engine {
    /// An engine that starts at byte `start` of `data`.
    #[verifier::opaque]
    pub open spec fn start(data: Seq<u8>, start: usize) -> Engine {
        let (offset, bits) = Bits { data, pos: 0 }.seek(8 * start).u(9);
        Engine { bits, range: 510, offset }
    }

    /// One more bit shifted into the offset.
    pub open spec fn shifted(self) -> Engine {
        let (bit, bits) = self.bits.bit();
        Engine { bits, range: self.range, offset: (self.offset << 1) | bit }
    }

    /// Range and offset doubled until the range has nine bits.
    pub open spec fn renorm(self) -> Engine
        decreases 512 - self.range,
    {
        if self.range == 0 || self.range >= 256 {
            self
        } else {
            Engine { range: (self.range * 2) as u32, ..self.shifted() }.renorm()
        }
    }

    /// One bin with the context `ctx`, which holds `2 * state + most probable symbol`: the bin, the
    /// context and the engine after it.
    #[verifier::opaque]
    pub open spec fn get(self, ctx: u8) -> (u32, u8, Engine) {
        let state: u8 = (ctx >> 1) & 63;
        let mps: u8 = ctx & 1;
        let lps = lps_range(state, self.range);
        let rest = self.range.wrapping_sub(lps);
        if self.offset >= rest {
            let flipped: u8 = if state == 0 {
                1u8 ^ mps
            } else {
                mps
            };
            (
                (1u8 ^ mps) as u32,
                (next_lps(state) << 1) | flipped,
                Engine {
                    range: lps,
                    offset: (self.offset - rest) as u32,
                    ..self
                }.renorm(),
            )
        } else {
            (mps as u32, (next_mps(state) << 1) | mps, Engine { range: rest, ..self }.renorm())
        }
    }

    /// One bin of equal probabilities.
    #[verifier::opaque]
    pub open spec fn bypass(self) -> (u32, Engine) {
        let e = self.shifted();
        if e.offset >= e.range {
            (1, Engine { offset: (e.offset - e.range) as u32, ..e })
        } else {
            (0, e)
        }
    }

    /// `v` where the next bypass bin is 1, its negative where it is 0.
    #[verifier::opaque]
    pub open spec fn bypass_sign(self, v: i32) -> (i32, Engine) {
        let (bin, e) = self.bypass();
        if bin == 1 {
            (v, e)
        } else {
            (0i32.wrapping_sub(v), e)
        }
    }

    /// The terminating bin. Behind a 1 the engine has nothing more to decode.
    #[verifier::opaque]
    pub open spec fn terminate(self) -> (bool, Engine) {
        let e = Engine { range: self.range.wrapping_sub(2), ..self };
        if e.offset >= e.range {
            (true, e)
        } else {
            (false, e.renorm())
        }
    }

    /// The first whole byte behind what has been read.
    pub open spec fn byte_pos(self) -> int {
        (self.bits.pos + 7) / 8
    }
}

/// `v` moved into `low..=high`.
pub open spec fn clip(v: i32, low: i32, high: i32) -> i32 {
    if v < low {
        low
    } else if v > high {
        high
    } else {
        v
    }
}

/// The initial context of slope `m` and offset `n` at quantiser `qp`, which is moved into 0 to 51:
/// the position `((m * qp) >> 4) + n`, moved into 1 to 126, is below the middle for a most probable
/// symbol of 0 and above it for 1, and its distance from the middle is the state.
pub open spec fn context_state(m: i32, n: i32, qp: i32) -> u8 {
    let p = clip(((((m * clip(qp, 0, 51)) as i32) >> 4) + n) as i32, 1, 126);
    if p <= 63 {
        (2 * (63 - p)) as u8
    } else {
        (2 * (p - 64) + 1) as u8
    }
}

/// The initial context of slope `m` and offset `n` at quantiser `qp`.
pub fn init_context(m: i32, n: i32, qp: i32) -> (c: u8)
    requires
        -1000 <= m <= 1000,
        -1000 <= n <= 1000,
    ensures
        c == context_state(m, n, qp),
        c <= 125,
{
    let q = if qp < 0 {
        0
    } else if qp > 51 {
        51
    } else {
        qp
    };
    proof {
        assert(-51_000 <= m * q <= 51_000) by (nonlinear_arith)
            requires
                -1000 <= m <= 1000,
                0 <= q <= 51,
        ;
    }
    let product: i32 = m * q;
    proof {
        assert(-51_000i32 <= product <= 51_000i32 ==> -51_000i32 <= product >> 4 <= 51_000i32)
            by (bit_vector);
    }
    let place: i32 = (product >> 4) + n;
    let p: i32 = if place < 1 {
        1
    } else if place > 126 {
        126
    } else {
        place
    };
    if p <= 63 {
        (2 * (63 - p)) as u8
    } else {
        (2 * (p - 64) + 1) as u8
    }
}

/// The decoding engine on a byte slice.
pub struct Cabac<'a> {
    reader: BitReader<'a>,
    range: u32,
    offset: u32,
}

impl<'a> View for Cabac<'a> {
    type V = Engine;

    closed spec fn view(&self) -> Engine {
        Engine { bits: self.reader@, range: self.range, offset: self.offset }
    }
}

impl<'a> Cabac<'a> {
    /// Starts decoding at byte `start` of `data`; zero bits follow the data.
    pub fn new(data: &'a [u8], start: usize) -> (c: Cabac<'a>)
        ensures
            c@ == Engine::start(data@, start),
    {
        proof {
            reveal(Engine::start);
        }
        let mut reader = BitReader::new(data);
        reader.skip_bits(
            if start <= usize::MAX / 8 {
                8 * start
            } else {
                usize::MAX
            },
        );
        let offset = reader.read_bits(9);
        Cabac { reader, range: 510, offset }
    }

    fn shift_in(&mut self)
        ensures
            final(self)@ == old(self)@.shifted(),
    {
        let bit = self.reader.read_bit();
        self.offset = (self.offset << 1) | bit;
    }

    fn renorm(&mut self)
        ensures
            final(self)@ == old(self)@.renorm(),
    {
        while self.range != 0 && self.range < 256
            invariant
                self@.renorm() == old(self)@.renorm(),
            decreases 512 - self.range,
        {
            self.shift_in();
            self.range = self.range * 2;
        }
    }

    /// Decodes one bin with the context `ctx`; returns the bin and the context after it.
    pub fn get(&mut self, ctx: u8) -> (r: (u32, u8))
        ensures
            (r.0, r.1, final(self)@) == old(self)@.get(ctx),
            r.0 <= 1,
    {
        proof {
            reveal(Engine::get);
            reveal(lps_range);
            reveal(next_lps);
        }
        let state: u8 = (ctx >> 1) & 63;
        let mps: u8 = ctx & 1;
        let quarter = (self.range >> 6) & 3;
        let range = self.range;
        proof {
            assert((ctx >> 1) & 63 < 64 && ctx & 1 <= 1 && 1u8 ^ (ctx & 1) <= 1) by (bit_vector);
            assert((range >> 6) & 3 < 4) by (bit_vector);
        }
        let lps = RANGE_LPS[state as usize][quarter as usize] as u32;
        let rest = self.range.wrapping_sub(lps);
        if self.offset >= rest {
            self.offset = self.offset - rest;
            self.range = lps;
            self.renorm();
            let flipped = if state == 0 {
                1u8 ^ mps
            } else {
                mps
            };
            ((1u8 ^ mps) as u32, (NEXT_LPS[state as usize] << 1) | flipped)
        } else {
            self.range = rest;
            self.renorm();
            let next = if state < 62 {
                state + 1
            } else {
                state
            };
            (mps as u32, (next << 1) | mps)
        }
    }

    /// Decodes one bin of equal probabilities.
    pub fn bypass(&mut self) -> (bin: u32)
        ensures
            (bin, final(self)@) == old(self)@.bypass(),
            bin <= 1,
    {
        proof {
            reveal(Engine::bypass);
        }
        self.shift_in();
        if self.offset >= self.range {
            self.offset = self.offset - self.range;
            1
        } else {
            0
        }
    }

    /// Decodes a sign: `v` for a bypass bin of 1, its negative for 0.
    pub fn bypass_sign(&mut self, v: i32) -> (s: i32)
        ensures
            (s, final(self)@) == old(self)@.bypass_sign(v),
    {
        proof {
            reveal(Engine::bypass_sign);
        }
        if self.bypass() == 1 {
            v
        } else {
            0i32.wrapping_sub(v)
        }
    }

    /// Decodes the terminating bin.
    pub fn terminate(&mut self) -> (end: bool)
        ensures
            (end, final(self)@) == old(self)@.terminate(),
    {
        proof {
            reveal(Engine::terminate);
        }
        self.range = self.range.wrapping_sub(2);
        if self.offset >= self.range {
            true
        } else {
            self.renorm();
            false
        }
    }

    /// The bytes under the engine.
    pub fn bytes_ref(&self) -> (d: &'a [u8])
        ensures
            d@ == self@.bits.data,
    {
        self.reader.data()
    }

    /// Where raw bytes continue behind a terminating bin.
    pub fn pcm_byte_pos(&self) -> (p: usize)
        ensures
            p == self@.byte_pos(),
            p <= usize::MAX / 8 + 1,
    {
        let pos = self.reader.pos();
        pos / 8 + (if pos % 8 != 0 {
            1usize
        } else {
            0
        })
    }
}

// ---------------------------------------------------------------------------
// Laws

impl Engine {
    /// The range has nine bits, and the offset lies in it.
    pub open spec fn normal(self) -> bool {
        256 <= self.range <= 510 && self.offset < self.range
    }
}

proof fn lemma_shifted(e: Engine)
    requires
        e.offset < 512,
    ensures
        e.shifted().range == e.range,
        2 * e.offset <= e.shifted().offset <= 2 * e.offset + 1,
{
    reveal(Bits::bit);
    let (bit, _) = e.bits.bit();
    let o = e.offset;
    lemma_bit_at_bound(e.bits.data, e.bits.pos);
    assert(o < 512 && bit <= 1 ==> 2 * o <= (o << 1) | bit <= 2 * o + 1) by (bit_vector);
}

proof fn lemma_renorm(e: Engine)
    requires
        e.offset < e.range,
        e.range <= 510,
    ensures
        e.renorm().normal(),
    decreases 512 - e.range,
{
    if e.range < 256 {
        lemma_shifted(e);
        lemma_renorm(Engine { range: (e.range * 2) as u32, ..e.shifted() });
    }
}

/// Decoding bins keeps the range at nine bits and the offset inside it, until the terminating bin
/// ends the data.
pub proof fn law_engine_stays_normal(e: Engine, ctx: u8)
    requires
        e.normal(),
    ensures
        e.get(ctx).2.normal(),
        e.bypass().1.normal(),
        !e.terminate().0 ==> e.terminate().1.normal(),
{
    reveal(Engine::get);
    reveal(Engine::bypass);
    reveal(Engine::terminate);
    let state: u8 = (ctx >> 1) & 63;
    reveal(lps_range);
    let lps = lps_range(state, e.range);
    assert(lps <= 255);
    let rest = e.range.wrapping_sub(lps);
    assert(rest == e.range - lps);
    if e.offset >= rest {
        lemma_renorm(Engine { range: lps, offset: (e.offset - rest) as u32, ..e });
    } else {
        lemma_renorm(Engine { range: rest, ..e });
    }
    lemma_shifted(e);
    let t = Engine { range: e.range.wrapping_sub(2), ..e };
    if t.offset < t.range {
        lemma_renorm(t);
    }
}

} // verus!
