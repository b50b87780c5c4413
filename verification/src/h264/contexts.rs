//! CABAC contexts of H.264 slices.

use super::context_tables::{slope_and_offset, slope_offset};
use crate::cabac::{context_state, init_context, Cabac, Engine};
use vstd::prelude::*;

verus! {

/// The table that `cabac_init_idc` selects; values above 2 count as 2.
pub open spec fn table_of(is_i: bool, cabac_init_idc: u32) -> usize {
    if is_i {
        0
    } else if cabac_init_idc < 2 {
        (cabac_init_idc + 1) as usize
    } else {
        3
    }
}

/// Initial contexts of a slice.
pub open spec fn initial(is_i: bool, cabac_init_idc: u32, qp: i32) -> Seq<u8> {
    Seq::new(
        1024,
        |ctx: int|
            match slope_offset(table_of(is_i, cabac_init_idc), ctx as usize) {
                Some((m, n)) => context_state(m as i32, n as i32, qp),
                None => 0,
            },
    )
}

/// The initial contexts of a slice.
pub fn init_states(is_i: bool, cabac_init_idc: u32, qp: i32) -> (st: [u8; 1024])
    ensures
        st@ == initial(is_i, cabac_init_idc, qp),
{
    let table: usize = if is_i {
        0
    } else if cabac_init_idc < 2 {
        cabac_init_idc as usize + 1
    } else {
        3
    };
    let mut st: [u8; 1024] = [0;1024];
    let mut ctx: usize = 0;
    while ctx < 1024
        invariant
            ctx <= 1024,
            st@.len() == 1024,
            table == table_of(is_i, cabac_init_idc),
            forall|i: int|
                0 <= i < ctx ==> #[trigger] st@[i] == initial(is_i, cabac_init_idc, qp)[i],
        decreases 1024 - ctx,
    {
        st[ctx] = match slope_and_offset(table, ctx) {
            Some((m, n)) => init_context(m as i32, n as i32, qp),
            None => 0,
        };
        ctx += 1;
    }
    assert(st@ =~= initial(is_i, cabac_init_idc, qp));
    st
}

/// The entropy decoder of a slice: the engine, the contexts, and whether the last macroblock
/// changed the quantiser.
pub struct Cab {
    pub e: Engine,
    pub st: Seq<u8>,
    pub dqp: bool,
}

impl Cab {
    /// The decoder at the start of slice data.
    pub open spec fn start(
        data: Seq<u8>,
        byte_start: usize,
        is_i: bool,
        cabac_init_idc: u32,
        qp: i32,
    ) -> Cab {
        Cab {
            e: Engine::start(data, byte_start),
            st: initial(is_i, cabac_init_idc, qp),
            dqp: false,
        }
    }

    /// One bin with context `ctx`.
    #[verifier::opaque]
    pub open spec fn get(self, ctx: int) -> (u32, Cab) {
        let (bin, state, e) = self.e.get(self.st[ctx]);
        (bin, Cab { e, st: self.st.update(ctx, state), ..self })
    }

    /// One bin with context `ctx`, as a flag.
    pub open spec fn flag(self, ctx: int) -> (bool, Cab) {
        let (bin, c) = self.get(ctx);
        (bin == 1, c)
    }

    /// One bin of equal probabilities.
    #[verifier::opaque]
    pub open spec fn bypass(self) -> (u32, Cab) {
        let (bin, e) = self.e.bypass();
        (bin, Cab { e, ..self })
    }

    /// `v` or its negative, by a sign bin.
    #[verifier::opaque]
    pub open spec fn sign(self, v: i32) -> (i32, Cab) {
        let (s, e) = self.e.bypass_sign(v);
        (s, Cab { e, ..self })
    }

    /// The terminating bin.
    #[verifier::opaque]
    pub open spec fn terminate(self) -> (bool, Cab) {
        let (end, e) = self.e.terminate();
        (end, Cab { e, ..self })
    }

    /// The decoder behind `n` raw bytes.
    #[verifier::opaque]
    pub open spec fn behind_raw(self, n: int) -> Cab {
        Cab { e: Engine::start(self.e.bits.data, (self.e.byte_pos() + n) as usize), ..self }
    }

    pub open spec fn with_dqp(self, dqp: bool) -> Cab {
        Cab { dqp, ..self }
    }
}

/// The entropy decoder of a slice.
pub struct Cabd<'a> {
    c: Cabac<'a>,
    st: [u8; 1024],
    dqp: bool,
}

impl<'a> View for Cabd<'a> {
    type V = Cab;

    closed spec fn view(&self) -> Cab {
        Cab { e: self.c@, st: self.st@, dqp: self.dqp }
    }
}

impl<'a> Cabd<'a> {
    pub fn new(
        data: &'a [u8],
        byte_start: usize,
        is_i: bool,
        cabac_init_idc: u32,
        qp: i32,
    ) -> (c: Cabd<'a>)
        ensures
            c@ == Cab::start(data@, byte_start, is_i, cabac_init_idc, qp),
    {
        Cabd {
            c: Cabac::new(data, byte_start),
            st: init_states(is_i, cabac_init_idc, qp),
            dqp: false,
        }
    }

    /// Decodes one bin with context `ctx`.
    pub fn get(&mut self, ctx: usize) -> (bin: u32)
        requires
            ctx < 1024,
        ensures
            (bin, final(self)@) == old(self)@.get(ctx as int),
            bin <= 1,
    {
        proof {
            reveal(Cab::get);
        }
        let (bin, state) = self.c.get(self.st[ctx]);
        self.st[ctx] = state;
        bin
    }

    /// Decodes one bin with context `ctx` as a flag.
    pub fn flag(&mut self, ctx: usize) -> (f: bool)
        requires
            ctx < 1024,
        ensures
            (f, final(self)@) == old(self)@.flag(ctx as int),
    {
        self.get(ctx) == 1
    }

    /// Decodes one bin of equal probabilities.
    pub fn bypass(&mut self) -> (bin: u32)
        ensures
            (bin, final(self)@) == old(self)@.bypass(),
            bin <= 1,
    {
        proof {
            reveal(Cab::bypass);
        }
        self.c.bypass()
    }

    /// Decodes a sign bin: `v`, or its negative.
    pub fn sign(&mut self, v: i32) -> (s: i32)
        ensures
            (s, final(self)@) == old(self)@.sign(v),
    {
        proof {
            reveal(Cab::sign);
        }
        self.c.bypass_sign(v)
    }

    /// Decodes the terminating bin.
    pub fn terminate(&mut self) -> (end: bool)
        ensures
            (end, final(self)@) == old(self)@.terminate(),
    {
        proof {
            reveal(Cab::terminate);
        }
        self.c.terminate()
    }

    /// Steps over `n` raw bytes and starts the engine anew.
    pub fn skip_raw(&mut self, n: usize)
        requires
            n <= 1000,
        ensures
            final(self)@ == old(self)@.behind_raw(n as int),
    {
        proof {
            reveal(Cab::behind_raw);
        }
        let start: usize = self.c.pcm_byte_pos() + n;
        self.c = Cabac::new(self.c.bytes_ref(), start);
    }

    /// Whether the last macroblock changed the quantiser.
    pub fn dqp(&self) -> (b: bool)
        ensures
            b == self@.dqp,
    {
        self.dqp
    }

    pub fn set_dqp(&mut self, dqp: bool)
        ensures
            final(self)@ == old(self)@.with_dqp(dqp),
    {
        self.dqp = dqp;
    }
}

} // verus!
