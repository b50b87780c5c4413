//! CABAC contexts of H.265 slices.

use super::context_tables::{init_value, init_value_of};
use super::slice_header::SliceType;
use crate::cabac::{clip, context_state, init_context, Cabac, Engine};
use vstd::prelude::*;

verus! {

/// Number of contexts.
pub const HEVC_CONTEXTS: usize = 179;

/// First context of `sao_merge_flag`.
pub const SAO_MERGE_FLAG_OFFSET: usize = 0;

/// First context of `sao_type_idx`.
pub const SAO_TYPE_IDX_OFFSET: usize = 1;

/// First context of `split_coding_unit_flag`.
pub const SPLIT_CODING_UNIT_FLAG_OFFSET: usize = 2;

/// First context of `cu_transquant_bypass_flag`.
pub const CU_TRANSQUANT_BYPASS_FLAG_OFFSET: usize = 5;

/// First context of `skip_flag`.
pub const SKIP_FLAG_OFFSET: usize = 6;

/// First context of `cu_qp_delta`.
pub const CU_QP_DELTA_OFFSET: usize = 9;

/// First context of `pred_mode_flag`.
pub const PRED_MODE_FLAG_OFFSET: usize = 12;

/// First context of `part_mode`.
pub const PART_MODE_OFFSET: usize = 13;

/// First context of `prev_intra_luma_pred_flag`.
pub const PREV_INTRA_LUMA_PRED_FLAG_OFFSET: usize = 17;

/// First context of `intra_chroma_pred_mode`.
pub const INTRA_CHROMA_PRED_MODE_OFFSET: usize = 18;

/// First context of `merge_flag`.
pub const MERGE_FLAG_OFFSET: usize = 20;

/// First context of `merge_idx`.
pub const MERGE_IDX_OFFSET: usize = 21;

/// First context of `inter_pred_idc`.
pub const INTER_PRED_IDC_OFFSET: usize = 22;

/// First context of `ref_idx_l0`.
pub const REF_IDX_L0_OFFSET: usize = 27;

/// First context of `abs_mvd_greater0_flag`.
pub const ABS_MVD_GREATER0_FLAG_OFFSET: usize = 31;

/// First context of `abs_mvd_greater1_flag`.
pub const ABS_MVD_GREATER1_FLAG_OFFSET: usize = 33;

/// First context of `mvp_lx_flag`.
pub const MVP_LX_FLAG_OFFSET: usize = 35;

/// First context of `no_residual_data_flag`.
pub const NO_RESIDUAL_DATA_FLAG_OFFSET: usize = 36;

/// First context of `split_transform_flag`.
pub const SPLIT_TRANSFORM_FLAG_OFFSET: usize = 37;

/// First context of `cbf_luma`.
pub const CBF_LUMA_OFFSET: usize = 40;

/// First context of `cbf_cb_cr`.
pub const CBF_CB_CR_OFFSET: usize = 42;

/// First context of `transform_skip_flag`.
pub const TRANSFORM_SKIP_FLAG_OFFSET: usize = 47;

/// First context of `last_significant_coeff_x_prefix`.
pub const LAST_SIGNIFICANT_COEFF_X_PREFIX_OFFSET: usize = 53;

/// First context of `last_significant_coeff_y_prefix`.
pub const LAST_SIGNIFICANT_COEFF_Y_PREFIX_OFFSET: usize = 71;

/// First context of `significant_coeff_group_flag`.
pub const SIGNIFICANT_COEFF_GROUP_FLAG_OFFSET: usize = 89;

/// First context of `significant_coeff_flag`.
pub const SIGNIFICANT_COEFF_FLAG_OFFSET: usize = 93;

/// First context of `coeff_abs_level_greater1_flag`.
pub const COEFF_ABS_LEVEL_GREATER1_FLAG_OFFSET: usize = 137;

/// First context of `coeff_abs_level_greater2_flag`.
pub const COEFF_ABS_LEVEL_GREATER2_FLAG_OFFSET: usize = 161;

/// The initialisation type of a slice. `cabac_init_flag` exchanges those of P and B slices.
pub open spec fn init_type_of(slice_type: SliceType, cabac_init_flag: bool) -> int {
    match slice_type {
        SliceType::I => 0,
        SliceType::P => if cabac_init_flag {
            2
        } else {
            1
        },
        SliceType::B => if cabac_init_flag {
            1
        } else {
            2
        },
    }
}

/// The initial context that initialisation value `v` gives at quantiser `qp`: the high half of the
/// value is the slope, the low half the offset.
pub open spec fn state_of(v: u8, qp: i32) -> u8 {
    context_state(
        (((v as i32) >> 4) * 5 - 45) as i32,
        ((((v as i32) & 15) << 3) - 16) as i32,
        qp,
    )
}

/// The initial contexts of a slice.
pub open spec fn initial(slice_type: SliceType, cabac_init_flag: bool, slice_qp: i32) -> Seq<u8> {
    Seq::new(
        HEVC_CONTEXTS as nat,
        |ctx: int| state_of(init_value_of(init_type_of(slice_type, cabac_init_flag), ctx), slice_qp),
    )
}

fn init_state(v: u8, qp: i32) -> (s: u8)
    ensures
        s == state_of(v, qp),
        s <= 125,
{
    let iv = v as i32;
    proof {
        assert(0 <= iv <= 255 ==> 0 <= iv >> 4 <= 15) by (bit_vector);
        assert(0 <= (iv & 15) << 3 <= 120) by (bit_vector);
    }
    let m: i32 = (iv >> 4) * 5 - 45;
    let n: i32 = ((iv & 15) << 3) - 16;
    init_context(m, n, qp)
}

/// Sets the contexts to their initial states for a slice.
pub fn init_states(
    states: &mut [u8; HEVC_CONTEXTS],
    slice_type: SliceType,
    cabac_init_flag: bool,
    slice_qp: i32,
)
    ensures
        final(states)@ == initial(slice_type, cabac_init_flag, slice_qp),
        forall|i: int| 0 <= i < HEVC_CONTEXTS ==> #[trigger] final(states)@[i] <= 125,
{
    let init_type: usize = match slice_type {
        SliceType::I => 0,
        SliceType::P => if cabac_init_flag {
            2
        } else {
            1
        },
        SliceType::B => if cabac_init_flag {
            1
        } else {
            2
        },
    };
    let mut i: usize = 0;
    while i < HEVC_CONTEXTS
        invariant
            i <= HEVC_CONTEXTS,
            states@.len() == HEVC_CONTEXTS,
            init_type == init_type_of(slice_type, cabac_init_flag),
            forall|k: int|
                0 <= k < i ==> #[trigger] states@[k] == initial(
                    slice_type,
                    cabac_init_flag,
                    slice_qp,
                )[k] && states@[k] <= 125,
        decreases HEVC_CONTEXTS - i,
    {
        states[i] = init_state(init_value(init_type, i), slice_qp);
        i += 1;
    }
    assert(states@ =~= initial(slice_type, cabac_init_flag, slice_qp));
}

/// With `cabac_init_flag` a P slice starts with the contexts of a B slice and the other way round;
/// an I slice starts with the same contexts.
pub proof fn law_init_flag_swaps(slice_qp: i32)
    ensures
        initial(SliceType::P, true, slice_qp) == initial(SliceType::B, false, slice_qp),
        initial(SliceType::B, true, slice_qp) == initial(SliceType::P, false, slice_qp),
        initial(SliceType::I, true, slice_qp) == initial(SliceType::I, false, slice_qp),
{
}

/// A quantiser outside of 0 to 51 counts as the nearest one inside, and contexts start in valid
/// states.
pub proof fn law_quantiser_is_clipped(slice_type: SliceType, cabac_init_flag: bool, slice_qp: i32)
    ensures
        initial(slice_type, cabac_init_flag, slice_qp) == initial(
            slice_type,
            cabac_init_flag,
            clip(slice_qp, 0, 51),
        ),
        forall|i: int|
            0 <= i < HEVC_CONTEXTS ==> #[trigger] initial(
                slice_type,
                cabac_init_flag,
                slice_qp,
            )[i] <= 125,
{
    assert(clip(clip(slice_qp, 0, 51), 0, 51) == clip(slice_qp, 0, 51));
    assert(initial(slice_type, cabac_init_flag, slice_qp) =~= initial(
        slice_type,
        cabac_init_flag,
        clip(slice_qp, 0, 51),
    ));
}

/// P and B slices start with different contexts: at quantiser 32 the sample-adaptive-offset type does.
pub proof fn law_p_and_b_differ()
    ensures
        initial(SliceType::P, false, 32)[SAO_TYPE_IDX_OFFSET as int] == 25,
        initial(SliceType::B, false, 32)[SAO_TYPE_IDX_OFFSET as int] == 124,
        initial(SliceType::P, false, 32) != initial(SliceType::B, false, 32),
{
    assert(init_value_of(1, 1) == 185);
    assert(init_value_of(2, 1) == 160);
    assert(185i32 >> 4i32 == 11i32) by (bit_vector);
    assert((185i32 & 15i32) << 3i32 == 72i32) by (bit_vector);
    assert(160i32 >> 4i32 == 10i32) by (bit_vector);
    assert((160i32 & 15i32) << 3i32 == 0i32) by (bit_vector);
    assert(320i32 >> 4i32 == 20i32) by (bit_vector);
    assert(state_of(185, 32) == context_state(10, 56, 32));
    assert(state_of(160, 32) == context_state(5, -16i32, 32));
    assert(context_state(10, 56, 32) == 25);
    assert(context_state(5, -16i32, 32) == 124);
}

/// The entropy decoder of a slice: the engine, the contexts, and whether the quantiser of the
/// current quantisation group has been coded.
pub struct Bins {
    pub e: Engine,
    pub st: Seq<u8>,
    pub qp_coded: bool,
}

impl Bins {
    /// The decoder at the start of slice data.
    pub open spec fn start(
        data: Seq<u8>,
        byte_start: usize,
        slice_type: SliceType,
        cabac_init_flag: bool,
        slice_qp: i32,
    ) -> Bins {
        Bins {
            e: Engine::start(data, byte_start),
            st: initial(slice_type, cabac_init_flag, slice_qp),
            qp_coded: false,
        }
    }

    /// One bin with context `ctx`.
    #[verifier::opaque]
    pub open spec fn get(self, ctx: int) -> (u32, Bins) {
        let (bin, state, e) = self.e.get(self.st[ctx]);
        (bin, Bins { e, st: self.st.update(ctx, state), ..self })
    }

    /// One bin with context `ctx`, as a flag.
    pub open spec fn flag(self, ctx: int) -> (bool, Bins) {
        let (bin, c) = self.get(ctx);
        (bin == 1, c)
    }

    /// One bin of equal probabilities.
    #[verifier::opaque]
    pub open spec fn bypass(self) -> (u32, Bins) {
        let (bin, e) = self.e.bypass();
        (bin, Bins { e, ..self })
    }

    /// `v` or its negative, by a sign bin.
    #[verifier::opaque]
    pub open spec fn sign(self, v: i32) -> (i32, Bins) {
        let (s, e) = self.e.bypass_sign(v);
        (s, Bins { e, ..self })
    }

    /// The terminating bin.
    #[verifier::opaque]
    pub open spec fn terminate(self) -> (bool, Bins) {
        let (end, e) = self.e.terminate();
        (end, Bins { e, ..self })
    }

    pub open spec fn with_qp_coded(self, qp_coded: bool) -> Bins {
        Bins { qp_coded, ..self }
    }

    /// `n` bypass bins skipped.
    pub open spec fn skip(self, n: nat) -> Bins
        decreases n,
    {
        if n == 0 {
            self
        } else {
            self.bypass().1.skip((n - 1) as nat)
        }
    }

    /// Bypass bins of 1, `i` of them counted before, up to a 0 or to `max`.
    pub open spec fn ones(self, i: int, max: int) -> (int, Bins)
        decreases max - i,
    {
        if i >= max {
            (i, self)
        } else {
            let (bin, c) = self.bypass();
            if bin == 1 {
                c.ones(i + 1, max)
            } else {
                (i, c)
            }
        }
    }

    /// `n` bypass bins as a number behind `v`, the first the most significant, in 32-bit arithmetic.
    pub open spec fn number(self, v: i32, n: nat) -> (i32, Bins)
        decreases n,
    {
        if n == 0 {
            (v, self)
        } else {
            let (bin, c) = self.bypass();
            c.number((v << 1) | (bin as i32), (n - 1) as nat)
        }
    }
}

/// The entropy decoder of a slice.
pub struct Decoder<'a> {
    c: Cabac<'a>,
    st: [u8; HEVC_CONTEXTS],
    qp_coded: bool,
}

impl<'a> View for Decoder<'a> {
    type V = Bins;

    closed spec fn view(&self) -> Bins {
        Bins { e: self.c@, st: self.st@, qp_coded: self.qp_coded }
    }
}

impl<'a> Decoder<'a> {
    pub fn new(
        data: &'a [u8],
        byte_start: usize,
        slice_type: SliceType,
        cabac_init_flag: bool,
        slice_qp: i32,
    ) -> (d: Decoder<'a>)
        ensures
            d@ == Bins::start(data@, byte_start, slice_type, cabac_init_flag, slice_qp),
    {
        let mut st: [u8; HEVC_CONTEXTS] = [0;HEVC_CONTEXTS];
        init_states(&mut st, slice_type, cabac_init_flag, slice_qp);
        Decoder { c: Cabac::new(data, byte_start), st, qp_coded: false }
    }

    /// Decodes one bin with context `ctx`.
    pub fn get(&mut self, ctx: usize) -> (bin: u32)
        requires
            ctx < HEVC_CONTEXTS,
        ensures
            (bin, final(self)@) == old(self)@.get(ctx as int),
            bin <= 1,
    {
        proof {
            reveal(Bins::get);
        }
        let (bin, state) = self.c.get(self.st[ctx]);
        self.st[ctx] = state;
        bin
    }

    /// Decodes one bin with context `ctx` as a flag.
    pub fn flag(&mut self, ctx: usize) -> (f: bool)
        requires
            ctx < HEVC_CONTEXTS,
        ensures
            (f, final(self)@) == old(self)@.flag(ctx as int),
    {
        self.get(ctx) == 1
    }

    /// Decodes one bin of equal probabilities.
    pub fn bypass(&mut self) -> (bin: u32)
        ensures
            (bin, final(self)@) == old(self)@.bypass(),
            bin <= 1,
    {
        proof {
            reveal(Bins::bypass);
        }
        self.c.bypass()
    }

    /// Decodes a sign bin: `v`, or its negative.
    pub fn sign(&mut self, v: i32) -> (s: i32)
        ensures
            (s, final(self)@) == old(self)@.sign(v),
    {
        proof {
            reveal(Bins::sign);
        }
        self.c.bypass_sign(v)
    }

    /// Decodes the terminating bin.
    pub fn terminate(&mut self) -> (end: bool)
        ensures
            (end, final(self)@) == old(self)@.terminate(),
    {
        proof {
            reveal(Bins::terminate);
        }
        self.c.terminate()
    }

    /// Whether the quantiser of the current quantisation group has been coded.
    pub fn qp_coded(&self) -> (b: bool)
        ensures
            b == self@.qp_coded,
    {
        self.qp_coded
    }

    pub fn set_qp_coded(&mut self, qp_coded: bool)
        ensures
            final(self)@ == old(self)@.with_qp_coded(qp_coded),
    {
        self.qp_coded = qp_coded;
    }

    /// Skips `n` bypass bins.
    pub fn skip(&mut self, n: usize)
        ensures
            final(self)@ == old(self)@.skip(n as nat),
    {
        let mut left: usize = n;
        while left > 0
            invariant
                self@.skip(left as nat) == old(self)@.skip(n as nat),
            decreases left,
        {
            let _bin = self.bypass();
            left -= 1;
        }
    }

    /// Counts bypass bins of 1 on from `start`, up to a 0 or to `max`.
    pub fn ones(&mut self, start: u32, max: u32) -> (n: u32)
        ensures
            (n as int, final(self)@) == old(self)@.ones(start as int, max as int),
            start <= max ==> start <= n <= max,
    {
        let mut i: u32 = start;
        while i < max
            invariant
                start <= i,
                start <= max ==> i <= max,
                self@.ones(i as int, max as int) == old(self)@.ones(start as int, max as int),
            decreases max - i,
        {
            if self.bypass() != 1 {
                return i;
            }
            i += 1;
        }
        i
    }

    /// Decodes `n` bypass bins as a number behind `v`.
    pub fn number(&mut self, v: i32, n: u32) -> (r: i32)
        ensures
            (r, final(self)@) == old(self)@.number(v, n as nat),
    {
        let mut value: i32 = v;
        let mut left: u32 = n;
        while left > 0
            invariant
                self@.number(value, left as nat) == old(self)@.number(v, n as nat),
            decreases left,
        {
            value = (value << 1) | (self.bypass() as i32);
            left -= 1;
        }
        value
    }
}

} // verus!
