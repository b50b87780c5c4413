//! The H.265 slice segment header.

use super::nal::{irap, is_irap, Nal, NalView};
use super::params::{
    parse_short_term_rps, rps_of, rps_views, short_rps, Pps, RpsV, ShortRps, Sps, SpsV,
};
use crate::bits::{skip_se, skip_u, BitReader, Bits};
use vstd::arithmetic::power2::{lemma_pow2_unfold, pow2};
use vstd::prelude::*;

verus! {

/// The logarithm of `n` to base two, rounded up.
pub open spec fn log2_up(n: u32) -> u32
    decreases n,
{
    if n <= 1 {
        0
    } else {
        (1 + log2_up((n / 2 + n % 2) as u32)) as u32
    }
}

proof fn lemma_log2_up_bound(n: u32)
    ensures
        log2_up(n) <= 32,
        n <= pow2(log2_up(n) as nat),
        log2_up(n) > 0 ==> pow2((log2_up(n) - 1) as nat) < n,
    decreases n,
{
    vstd::arithmetic::power2::lemma2_to64();
    if n > 1 {
        let h = (n / 2 + n % 2) as u32;
        lemma_log2_up_bound(h);
        let k = log2_up(h) as nat;
        lemma_pow2_unfold(k + 1);
        if k > 0 {
            lemma_pow2_unfold(k);
            if k == 32 {
                lemma_pow2_unfold(32);
            }
        }
        if k >= 32 {
            assert(pow2(31) < h);
        }
    }
}

/// The logarithm to base two, rounded up, is the smallest `k` whose power of two is at least `n`.
pub proof fn law_log2_up_is_smallest(n: u32, k: nat)
    ensures
        n <= pow2(log2_up(n) as nat),
        n <= pow2(k) ==> log2_up(n) <= k,
{
    lemma_log2_up_bound(n);
    if n <= pow2(k) && k < log2_up(n) {
        if k < log2_up(n) - 1 {
            vstd::arithmetic::power2::lemma_pow2_strictly_increases(
                k,
                (log2_up(n) - 1) as nat,
            );
        }
    }
}

/// The smallest `k` whose power of two is at least `n`; 0 for `n <= 1`.
pub fn ceil_log2(n: u32) -> (k: u32)
    ensures
        k == log2_up(n),
        n <= pow2(k as nat),
        k > 0 ==> pow2((k - 1) as nat) < n,
{
    proof {
        lemma_log2_up_bound(n);
    }
    let mut k: u32 = 0;
    let mut m: u32 = n;
    while m > 1
        invariant
            k + log2_up(m) == log2_up(n),
            log2_up(n) <= 32,
        decreases m,
    {
        proof {
            lemma_log2_up_bound((m / 2 + m % 2) as u32);
        }
        m = m / 2 + m % 2;
        k += 1;
    }
    k
}

// ---------------------------------------------------------------------------
// Types

#[derive(Debug, Clone, Copy, PartialEq, Eq, Structural)]
pub enum SliceType {
    B,
    P,
    I,
}

/// The slice type that code `v` stands for.
pub open spec fn slice_type_of(v: u32) -> SliceType {
    if v == 0 {
        SliceType::B
    } else if v == 1 {
        SliceType::P
    } else {
        SliceType::I
    }
}

impl SliceType {
    /// The slice type of code `v`.
    pub fn from_ue(v: u32) -> (t: SliceType)
        ensures
            t == slice_type_of(v),
    {
        match v {
            0 => SliceType::B,
            1 => SliceType::P,
            _ => SliceType::I,
        }
    }
}

/// The fields of a slice segment header that decoding needs.
#[derive(Debug, Clone)]
pub struct SliceHeader {
    pub first_slice_segment_in_pic_flag: bool,
    pub dependent_slice_segment_flag: bool,
    pub pps_id: u32,
    pub slice_segment_address: u32,
    /// `None` for a dependent slice segment, which has the type of the slice it belongs to.
    pub slice_type: Option<SliceType>,
    pub sao_luma: bool,
    pub sao_chroma: bool,
    pub nb_refs: [u32; 2],
    pub slice_temporal_mvp_enabled: bool,
    pub collocated_list: usize,
    pub collocated_ref_idx: u32,
    pub mvd_l1_zero_flag: bool,
    pub cabac_init_flag: bool,
    pub max_num_merge_cand: u32,
    pub slice_qp: i32,
    /// Byte at which the slice data start.
    pub data_offset: usize,
    /// The slice is coded in several substreams and cannot be decoded.
    pub unsupported: bool,
    pub nal_unit_type: u8,
    pub is_idr: bool,
    pub poc_lsb: u32,
    pub short_rps: ShortRps,
}

/// The model of a [`SliceHeader`].
pub struct HeaderV {
    pub first_slice_segment_in_pic_flag: bool,
    pub dependent_slice_segment_flag: bool,
    pub pps_id: u32,
    pub slice_segment_address: u32,
    pub slice_type: Option<SliceType>,
    pub sao_luma: bool,
    pub sao_chroma: bool,
    pub inter: InterFields,
    pub slice_temporal_mvp_enabled: bool,
    pub slice_qp: i32,
    pub data_offset: usize,
    pub unsupported: bool,
    pub nal_unit_type: u8,
    pub is_idr: bool,
    pub poc_lsb: u32,
    pub short_rps: RpsV,
}

impl View for SliceHeader {
    type V = HeaderV;

    open spec fn view(&self) -> HeaderV {
        HeaderV {
            first_slice_segment_in_pic_flag: self.first_slice_segment_in_pic_flag,
            dependent_slice_segment_flag: self.dependent_slice_segment_flag,
            pps_id: self.pps_id,
            slice_segment_address: self.slice_segment_address,
            slice_type: self.slice_type,
            sao_luma: self.sao_luma,
            sao_chroma: self.sao_chroma,
            inter: InterFields {
                nb0: self.nb_refs[0],
                nb1: self.nb_refs[1],
                mvd_l1_zero: self.mvd_l1_zero_flag,
                cabac_init: self.cabac_init_flag,
                col_list: self.collocated_list,
                col_idx: self.collocated_ref_idx,
                merge_cand: self.max_num_merge_cand,
            },
            slice_temporal_mvp_enabled: self.slice_temporal_mvp_enabled,
            slice_qp: self.slice_qp,
            data_offset: self.data_offset,
            unsupported: self.unsupported,
            nal_unit_type: self.nal_unit_type,
            is_idr: self.is_idr,
            poc_lsb: self.poc_lsb,
            short_rps: self.short_rps@,
        }
    }
}

/// The fields of a slice header that only P and B slices code: active references of both lists,
/// whether list 1 differences are zero, the context table swap, list and index of the collocated
/// picture, and the number of merge candidates.
#[derive(Debug, Clone, Copy)]
pub struct InterFields {
    pub nb0: u32,
    pub nb1: u32,
    pub mvd_l1_zero: bool,
    pub cabac_init: bool,
    pub col_list: usize,
    pub col_idx: u32,
    pub merge_cand: u32,
}

/// What these fields are in an I slice.
pub open spec fn no_inter() -> InterFields {
    InterFields {
        nb0: 0,
        nb1: 0,
        mvd_l1_zero: false,
        cabac_init: false,
        col_list: 0,
        col_idx: 0,
        merge_cand: 5,
    }
}

// ---------------------------------------------------------------------------
// Reference pictures

/// `n` long-term reference pictures behind `i` others, the first `sps_count` of which are chosen
/// from the parameter set: how many the current picture uses, counted on from `total`.
pub open spec fn long_term_refs(b: Bits, sps: SpsV, sps_count: u32, i: u32, n: u32, total: u32) -> (
    u32,
    Bits,
)
    decreases n - i,
{
    if i >= n {
        (total, b)
    } else {
        let (used, b) = if i < sps_count {
            (
                true,
                if sps.num_long_term_ref_pics_sps > 1 {
                    b.u(log2_up(sps.num_long_term_ref_pics_sps)).1
                } else {
                    b
                },
            )
        } else {
            b.u(sps.log2_max_poc_lsb).1.flag()
        };
        let (msb, b) = b.flag();
        let b = if msb {
            b.ue().1
        } else {
            b
        };
        long_term_refs(
            b,
            sps,
            sps_count,
            (i + 1) as u32,
            n,
            if used {
                total.wrapping_add(1)
            } else {
                total
            },
        )
    }
}

fn read_long_term_refs(r: &mut BitReader, sps: &Sps, sps_count: u32, n: u32, total: u32) -> (t: u32)
    ensures
        (t, final(r)@) == long_term_refs(old(r)@, sps@, sps_count, 0, n, total),
{
    let mut t: u32 = total;
    let mut i: u32 = 0;
    while i < n
        invariant
            i <= n,
            long_term_refs(r@, sps@, sps_count, i, n, t) == long_term_refs(
                old(r)@,
                sps@,
                sps_count,
                0,
                n,
                total,
            ),
        decreases n - i,
    {
        let used = if i < sps_count {
            if sps.num_long_term_ref_pics_sps > 1 {
                let _lt_idx = r.read_bits(ceil_log2(sps.num_long_term_ref_pics_sps));
            }
            true
        } else {
            let _poc_lsb = r.read_bits(sps.log2_max_poc_lsb);
            r.read_flag()
        };
        if used {
            t = t.wrapping_add(1);
        }
        if r.read_flag() {
            let _delta_poc_msb_cycle = r.read_ue();
        }
        i += 1;
    }
    t
}

/// The short-term set of a slice: coded in the header, or one of the parameter set by index.
#[verifier::opaque]
pub open spec fn slice_rps(b: Bits, sps: SpsV) -> (Option<RpsV>, Bits) {
    let (from_sps, b) = b.flag();
    let nb = sps.st_rps.len() as u32;
    if !from_sps {
        short_rps(b, nb as int, sps.st_rps, true, nb)
    } else {
        let (idx, b) = if log2_up(nb) > 0 {
            b.u(log2_up(nb))
        } else {
            (0, b)
        };
        if idx < sps.st_rps.len() {
            (Some(sps.st_rps[idx as int]), b)
        } else {
            (Some(RpsV::none()), b)
        }
    }
}

fn read_slice_rps(r: &mut BitReader, sps: &Sps) -> (s: Option<ShortRps>)
    requires
        sps.wf(),
    ensures
        (rps_of(s), final(r)@) == slice_rps(old(r)@, sps@),
        s matches Some(s) ==> s@.wf(),
{
    proof {
        reveal(slice_rps);
    }
    let nb = sps.st_rps.len() as u32;
    if !r.read_flag() {
        return parse_short_term_rps(r, nb as usize, &sps.st_rps, true, nb);
    }
    let bits = ceil_log2(nb);
    let idx: usize = if bits > 0 {
        r.read_bits(bits) as usize
    } else {
        0
    };
    if idx < sps.st_rps.len() {
        assert(rps_views(sps.st_rps@)[idx as int] == sps.st_rps@[idx as int]@);
        Some(sps.st_rps[idx].copy())
    } else {
        Some(ShortRps::none())
    }
}

/// The reference fields of a slice: picture order count, short-term set, number of pictures in use,
/// and whether temporal prediction is on.
pub struct RefFields {
    pub poc_lsb: u32,
    pub rps: RpsV,
    pub total: u32,
    pub tmvp: bool,
}

/// The reference fields of a slice of a picture that is not an IDR picture.
#[verifier::opaque]
pub open spec fn slice_refs(b: Bits, sps: SpsV) -> (Option<RefFields>, Bits) {
    let (poc_lsb, b) = b.u(sps.log2_max_poc_lsb);
    let (rps, b) = slice_rps(b, sps);
    match rps {
        None => (None, b),
        Some(rps) => {
            let (total, b) = if sps.long_term_ref_pics_present {
                let (from_sps, b) = if sps.num_long_term_ref_pics_sps > 0 {
                    b.ue()
                } else {
                    (0, b)
                };
                let (coded, b) = b.ue();
                long_term_refs(
                    b,
                    sps,
                    from_sps,
                    0,
                    from_sps.wrapping_add(coded),
                    rps.uses() as u32,
                )
            } else {
                (rps.uses() as u32, b)
            };
            let (tmvp, b) = if sps.temporal_mvp_enabled {
                b.flag()
            } else {
                (false, b)
            };
            (Some(RefFields { poc_lsb, rps, total, tmvp }), b)
        },
    }
}

fn read_slice_refs(r: &mut BitReader, sps: &Sps) -> (f: Option<(u32, ShortRps, u32, bool)>)
    requires
        sps.wf(),
    ensures
        final(r)@ == slice_refs(old(r)@, sps@).1,
        match f {
            Some(f) => slice_refs(old(r)@, sps@).0 == Some(
                RefFields { poc_lsb: f.0, rps: f.1@, total: f.2, tmvp: f.3 },
            ) && f.1@.wf(),
            None => slice_refs(old(r)@, sps@).0 is None,
        },
{
    proof {
        reveal(slice_refs);
    }
    let poc_lsb = r.read_bits(sps.log2_max_poc_lsb);
    match read_slice_rps(r, sps) {
        None => None,
        Some(rps) => {
            let mut total = rps.num_used();
            if sps.long_term_ref_pics_present {
                let from_sps = if sps.num_long_term_ref_pics_sps > 0 {
                    r.read_ue()
                } else {
                    0
                };
                let coded = r.read_ue();
                total = read_long_term_refs(
                    r,
                    sps,
                    from_sps,
                    from_sps.wrapping_add(coded),
                    total,
                );
            }
            let tmvp = sps.temporal_mvp_enabled && r.read_flag();
            Some((poc_lsb, rps, total, tmvp))
        },
    }
}

// ---------------------------------------------------------------------------
// Prediction weights

/// `n` flags appended to `flags`.
pub open spec fn flag_list(b: Bits, flags: Seq<bool>, n: nat) -> (Seq<bool>, Bits)
    decreases n,
{
    if n == 0 {
        (flags, b)
    } else {
        let (f, b) = b.flag();
        flag_list(b, flags.push(f), (n - 1) as nat)
    }
}

fn read_flag_list(r: &mut BitReader, n: u32) -> (flags: Vec<bool>)
    ensures
        (flags@, final(r)@) == flag_list(old(r)@, Seq::empty(), n as nat),
        flags@.len() == n,
{
    let mut flags: Vec<bool> = Vec::new();
    assert(flags@ =~= Seq::<bool>::empty());
    let mut left: u32 = n;
    while left > 0
        invariant
            flags@.len() + left == n,
            flag_list(r@, flags@, left as nat) == flag_list(old(r)@, Seq::empty(), n as nat),
        decreases left,
    {
        flags.push(r.read_flag());
        left -= 1;
    }
    flags
}

/// Weights of references `i..`: two numbers for luma and four for chroma, where flagged.
pub open spec fn weights(b: Bits, luma: Seq<bool>, chroma: Seq<bool>, i: int) -> Bits
    decreases luma.len() - i,
{
    if i >= luma.len() {
        b
    } else {
        let b = if luma[i] {
            skip_se(b, 2)
        } else {
            b
        };
        let b = if i < chroma.len() && chroma[i] {
            skip_se(b, 4)
        } else {
            b
        };
        weights(b, luma, chroma, i + 1)
    }
}

fn skip_weights(r: &mut BitReader, luma: &Vec<bool>, chroma: &Vec<bool>)
    ensures
        final(r)@ == weights(old(r)@, luma@, chroma@, 0),
{
    let mut i: usize = 0;
    while i < luma.len()
        invariant
            i <= luma@.len(),
            weights(r@, luma@, chroma@, i as int) == weights(old(r)@, luma@, chroma@, 0),
        decreases luma@.len() - i,
    {
        if luma[i] {
            r.drop_se(2);
        }
        if i < chroma.len() && chroma[i] {
            r.drop_se(4);
        }
        i += 1;
    }
}

/// The weights of one list of `n` references.
#[verifier::opaque]
pub open spec fn list_weights(b: Bits, has_chroma: bool, n: u32) -> Bits {
    let (luma, b) = flag_list(b, Seq::empty(), n as nat);
    let (chroma, b) = if has_chroma {
        flag_list(b, Seq::empty(), n as nat)
    } else {
        (Seq::empty(), b)
    };
    weights(b, luma, chroma, 0)
}

fn skip_list_weights(r: &mut BitReader, has_chroma: bool, n: u32)
    ensures
        final(r)@ == list_weights(old(r)@, has_chroma, n),
{
    proof {
        reveal(list_weights);
    }
    let luma = read_flag_list(r, n);
    let chroma = if has_chroma {
        read_flag_list(r, n)
    } else {
        let none: Vec<bool> = Vec::new();
        assert(none@ =~= Seq::<bool>::empty());
        none
    };
    skip_weights(r, &luma, &chroma);
}

/// `pred_weight_table()`. There is none for more than 16 references in a list.
#[verifier::opaque]
pub open spec fn weight_table(b: Bits, has_chroma: bool, nb0: u32, nb1: u32, is_b: bool) -> Option<
    Bits,
> {
    if nb0 > 16 || (is_b && nb1 > 16) {
        None
    } else {
        let (_, b) = b.ue();
        let b = if has_chroma {
            b.se().1
        } else {
            b
        };
        let b = list_weights(b, has_chroma, nb0);
        Some(
            if is_b {
                list_weights(b, has_chroma, nb1)
            } else {
                b
            },
        )
    }
}

fn parse_pred_weight_table(
    r: &mut BitReader,
    has_chroma: bool,
    nb0: u32,
    nb1: u32,
    is_b: bool,
) -> (ok: bool)
    ensures
        ok ==> weight_table(old(r)@, has_chroma, nb0, nb1, is_b) == Some(final(r)@),
        !ok ==> weight_table(old(r)@, has_chroma, nb0, nb1, is_b) is None,
{
    proof {
        reveal(weight_table);
    }
    if nb0 > 16 || (is_b && nb1 > 16) {
        return false;
    }
    let _luma_log2_weight_denom = r.read_ue();
    if has_chroma {
        let _delta_chroma_log2_weight_denom = r.read_se();
    }
    skip_list_weights(r, has_chroma, nb0);
    if is_b {
        skip_list_weights(r, has_chroma, nb1);
    }
    true
}

// ---------------------------------------------------------------------------
// Fields of P and B slices

/// Active references of both lists: the defaults of the picture, or an override.
#[verifier::opaque]
pub open spec fn ref_counts(b: Bits, pps: Pps, is_b: bool) -> (u32, u32, Bits) {
    let d0 = pps.num_ref_idx_l0_default_active;
    let d1 = if is_b {
        pps.num_ref_idx_l1_default_active
    } else {
        0
    };
    let (over, b) = b.flag();
    if over {
        let (n0, b) = b.ue();
        if is_b {
            let (n1, b) = b.ue();
            (n0.wrapping_add(1), n1.wrapping_add(1), b)
        } else {
            (n0.wrapping_add(1), d1, b)
        }
    } else {
        (d0, d1, b)
    }
}

fn read_ref_counts(r: &mut BitReader, pps: &Pps, is_b: bool) -> (n: (u32, u32))
    ensures
        (n.0, n.1, final(r)@) == ref_counts(old(r)@, *pps, is_b),
{
    proof {
        reveal(ref_counts);
    }
    let mut n0 = pps.num_ref_idx_l0_default_active;
    let mut n1 = if is_b {
        pps.num_ref_idx_l1_default_active
    } else {
        0
    };
    if r.read_flag() {
        n0 = r.read_ue().wrapping_add(1);
        if is_b {
            n1 = r.read_ue().wrapping_add(1);
        }
    }
    (n0, n1)
}

/// `ref_pic_lists_modification()`, present where more than one picture is in use.
#[verifier::opaque]
pub open spec fn list_modification(b: Bits, pps: Pps, total: u32, nb0: u32, nb1: u32, is_b: bool) -> Bits {
    if pps.lists_modification_present_flag && total > 1 {
        let bits = log2_up(total);
        let (m0, b) = b.flag();
        let b = if m0 {
            skip_u(b, bits, nb0 as nat)
        } else {
            b
        };
        let (m1, b) = if is_b {
            b.flag()
        } else {
            (false, b)
        };
        if m1 {
            skip_u(b, bits, nb1 as nat)
        } else {
            b
        }
    } else {
        b
    }
}

fn skip_list_modification(
    r: &mut BitReader,
    pps: &Pps,
    total: u32,
    nb0: u32,
    nb1: u32,
    is_b: bool,
)
    ensures
        final(r)@ == list_modification(old(r)@, *pps, total, nb0, nb1, is_b),
{
    proof {
        reveal(list_modification);
    }
    if pps.lists_modification_present_flag && total > 1 {
        let bits = ceil_log2(total);
        if r.read_flag() {
            r.drop_u(bits, nb0);
        }
        if is_b && r.read_flag() {
            r.drop_u(bits, nb1);
        }
    }
}

/// List and index of the collocated picture.
#[verifier::opaque]
pub open spec fn collocated(b: Bits, tmvp: bool, nb0: u32, nb1: u32, is_b: bool) -> (
    usize,
    u32,
    Bits,
) {
    if tmvp {
        let (from_l0, b) = if is_b {
            b.flag()
        } else {
            (true, b)
        };
        let n = if from_l0 {
            nb0
        } else {
            nb1
        };
        let (idx, b) = if n > 1 {
            b.ue()
        } else {
            (0, b)
        };
        (
            if from_l0 {
                0
            } else {
                1
            },
            idx,
            b,
        )
    } else {
        (0, 0, b)
    }
}

fn read_collocated(r: &mut BitReader, tmvp: bool, nb0: u32, nb1: u32, is_b: bool) -> (c: (
    usize,
    u32,
))
    ensures
        (c.0, c.1, final(r)@) == collocated(old(r)@, tmvp, nb0, nb1, is_b),
{
    proof {
        reveal(collocated);
    }
    if !tmvp {
        return (0, 0);
    }
    let from_l0 = !is_b || r.read_flag();
    let n = if from_l0 {
        nb0
    } else {
        nb1
    };
    let idx = if n > 1 {
        r.read_ue()
    } else {
        0
    };
    (
        if from_l0 {
            0
        } else {
            1
        },
        idx,
    )
}

/// The fields of a P or B slice.
#[verifier::opaque]
pub open spec fn inter_fields(b: Bits, sps: SpsV, pps: Pps, is_b: bool, total: u32, tmvp: bool) -> (
    Option<(InterFields, Bits)>
) {
    let (nb0, nb1, b) = ref_counts(b, pps, is_b);
    let b = list_modification(b, pps, total, nb0, nb1, is_b);
    let (mvd_l1_zero, b) = if is_b {
        b.flag()
    } else {
        (false, b)
    };
    let (cabac_init, b) = if pps.cabac_init_present_flag {
        b.flag()
    } else {
        (false, b)
    };
    let (col_list, col_idx, b) = collocated(b, tmvp, nb0, nb1, is_b);
    let weighted = if is_b {
        pps.weighted_bipred_flag
    } else {
        pps.weighted_pred_flag
    };
    let b = if weighted {
        weight_table(b, sps.chroma_format_idc != 0, nb0, nb1, is_b)
    } else {
        Some(b)
    };
    match b {
        None => None,
        Some(b) => {
            let (fewer, b) = b.ue();
            Some(
                (
                    InterFields {
                        nb0,
                        nb1,
                        mvd_l1_zero,
                        cabac_init,
                        col_list,
                        col_idx,
                        merge_cand: 5u32.wrapping_sub(fewer),
                    },
                    b,
                ),
            )
        },
    }
}

fn read_inter_fields(
    r: &mut BitReader,
    sps: &Sps,
    pps: &Pps,
    is_b: bool,
    total: u32,
    tmvp: bool,
) -> (f: Option<InterFields>)
    ensures
        match f {
            Some(f) => inter_fields(old(r)@, sps@, *pps, is_b, total, tmvp) == Some((f, final(r)@)),
            None => inter_fields(old(r)@, sps@, *pps, is_b, total, tmvp) is None,
        },
{
    proof {
        reveal(inter_fields);
    }
    let (nb0, nb1) = read_ref_counts(r, pps, is_b);
    skip_list_modification(r, pps, total, nb0, nb1, is_b);
    let mvd_l1_zero = is_b && r.read_flag();
    let cabac_init = pps.cabac_init_present_flag && r.read_flag();
    let (col_list, col_idx) = read_collocated(r, tmvp, nb0, nb1, is_b);
    let weighted = if is_b {
        pps.weighted_bipred_flag
    } else {
        pps.weighted_pred_flag
    };
    if weighted {
        if !parse_pred_weight_table(r, sps.chroma_format_idc != 0, nb0, nb1, is_b) {
            return None;
        }
    }
    let merge_cand = 5u32.wrapping_sub(r.read_ue());
    Some(InterFields { nb0, nb1, mvd_l1_zero, cabac_init, col_list, col_idx, merge_cand })
}

// ---------------------------------------------------------------------------
// The fields of an independent slice

/// The fields of an independent slice segment: type, reference fields, sample-adaptive offset for
/// luma and chroma, inter fields and quantiser.
pub struct OwnFields {
    pub slice_type: SliceType,
    pub refs: RefFields,
    pub sao_luma: bool,
    pub sao_chroma: bool,
    pub inter: InterFields,
    pub slice_qp: i32,
}

/// The filter fields at the end of an independent slice header.
#[verifier::opaque]
pub open spec fn filter_fields(b: Bits, pps: Pps, sao: bool) -> Bits {
    let b = if pps.pic_slice_chroma_qp_offsets_present {
        skip_se(b, 2)
    } else {
        b
    };
    let (over, b) = if pps.deblocking_filter_control_present_flag
        && pps.deblocking_filter_override_enabled_flag {
        b.flag()
    } else {
        (false, b)
    };
    let (disabled, b) = if over {
        b.flag()
    } else {
        (pps.deblocking_filter_disabled_flag, b)
    };
    let b = if over && !disabled {
        skip_se(b, 2)
    } else {
        b
    };
    if pps.loop_filter_across_slices_enabled && (sao || !disabled) {
        b.flag().1
    } else {
        b
    }
}

fn skip_filter_fields(r: &mut BitReader, pps: &Pps, sao: bool)
    ensures
        final(r)@ == filter_fields(old(r)@, *pps, sao),
{
    proof {
        reveal(filter_fields);
    }
    if pps.pic_slice_chroma_qp_offsets_present {
        r.drop_se(2);
    }
    let over = pps.deblocking_filter_control_present_flag
        && pps.deblocking_filter_override_enabled_flag && r.read_flag();
    let disabled = if over {
        r.read_flag()
    } else {
        pps.deblocking_filter_disabled_flag
    };
    if over && !disabled {
        r.drop_se(2);
    }
    if pps.loop_filter_across_slices_enabled && (sao || !disabled) {
        let _across = r.read_flag();
    }
}

/// Slice type and the bits around it.
#[verifier::opaque]
pub open spec fn type_fields(b: Bits, sps: SpsV, pps: Pps) -> (SliceType, Bits) {
    let b = skip_u(b, 1, pps.num_extra_slice_header_bits as nat);
    let (code, b) = b.ue();
    let b = if pps.output_flag_present_flag {
        b.flag().1
    } else {
        b
    };
    let b = if sps.separate_colour_plane_flag {
        b.u(2).1
    } else {
        b
    };
    (slice_type_of(code), b)
}

fn read_type_fields(r: &mut BitReader, sps: &Sps, pps: &Pps) -> (t: SliceType)
    ensures
        (t, final(r)@) == type_fields(old(r)@, sps@, *pps),
{
    proof {
        reveal(type_fields);
    }
    r.drop_u(1, pps.num_extra_slice_header_bits);
    let t = SliceType::from_ue(r.read_ue());
    if pps.output_flag_present_flag {
        let _pic_output = r.read_flag();
    }
    if sps.separate_colour_plane_flag {
        let _colour_plane_id = r.read_bits(2);
    }
    t
}

/// The fields of an independent slice segment; `None` where they do not parse.
#[verifier::opaque]
pub open spec fn own_fields(b: Bits, sps: SpsV, pps: Pps, is_idr: bool) -> Option<
    (OwnFields, Bits),
> {
    let (slice_type, b) = type_fields(b, sps, pps);
    let (refs, b) = if is_idr {
        (Some(RefFields { poc_lsb: 0, rps: RpsV::none(), total: 0, tmvp: false }), b)
    } else {
        slice_refs(b, sps)
    };
    match refs {
        None => None,
        Some(refs) => {
            let (sao_luma, b) = if sps.sao_enabled {
                b.flag()
            } else {
                (false, b)
            };
            let (sao_chroma, b) = if sps.sao_enabled && sps.chroma_format_idc != 0 {
                b.flag()
            } else {
                (false, b)
            };
            let inter = if slice_type == SliceType::I {
                Some((no_inter(), b))
            } else {
                inter_fields(b, sps, pps, slice_type == SliceType::B, refs.total, refs.tmvp)
            };
            match inter {
                None => None,
                Some((inter, b)) => {
                    let (qp, b) = b.se();
                    Some(
                        (
                            OwnFields {
                                slice_type,
                                refs,
                                sao_luma,
                                sao_chroma,
                                inter,
                                slice_qp: pps.pic_init_qp.wrapping_add(qp),
                            },
                            filter_fields(b, pps, sao_luma || sao_chroma),
                        ),
                    )
                },
            }
        },
    }
}

struct Own {
    slice_type: SliceType,
    poc_lsb: u32,
    rps: ShortRps,
    total: u32,
    tmvp: bool,
    sao_luma: bool,
    sao_chroma: bool,
    inter: InterFields,
    slice_qp: i32,
}

impl Own {
    spec fn model(self) -> OwnFields {
        OwnFields {
            slice_type: self.slice_type,
            refs: RefFields {
                poc_lsb: self.poc_lsb,
                rps: self.rps@,
                total: self.total,
                tmvp: self.tmvp,
            },
            sao_luma: self.sao_luma,
            sao_chroma: self.sao_chroma,
            inter: self.inter,
            slice_qp: self.slice_qp,
        }
    }
}

fn read_own_fields(r: &mut BitReader, sps: &Sps, pps: &Pps, is_idr: bool) -> (f: Option<Own>)
    requires
        sps.wf(),
    ensures
        match f {
            Some(f) => own_fields(old(r)@, sps@, *pps, is_idr) == Some((f.model(), final(r)@))
                && f.rps@.wf(),
            None => own_fields(old(r)@, sps@, *pps, is_idr) is None,
        },
{
    proof {
        reveal(own_fields);
    }
    let slice_type = read_type_fields(r, sps, pps);
    let (poc_lsb, rps, total, tmvp) = if is_idr {
        (0, ShortRps::none(), 0, false)
    } else {
        match read_slice_refs(r, sps) {
            None => {
                return None;
            },
            Some(f) => f,
        }
    };
    let sao_luma = sps.sao_enabled && r.read_flag();
    let sao_chroma = sps.sao_enabled && sps.chroma_format_idc != 0 && r.read_flag();
    let inter = if slice_type == SliceType::I {
        InterFields {
            nb0: 0,
            nb1: 0,
            mvd_l1_zero: false,
            cabac_init: false,
            col_list: 0,
            col_idx: 0,
            merge_cand: 5,
        }
    } else {
        match read_inter_fields(r, sps, pps, slice_type == SliceType::B, total, tmvp) {
            None => {
                return None;
            },
            Some(f) => f,
        }
    };
    let slice_qp = pps.pic_init_qp.wrapping_add(r.read_se());
    skip_filter_fields(r, pps, sao_luma || sao_chroma);
    Some(
        Own {
            slice_type,
            poc_lsb,
            rps,
            total,
            tmvp,
            sao_luma,
            sao_chroma,
            inter,
            slice_qp,
        },
    )
}

// ---------------------------------------------------------------------------
// The header

/// First segment flag, parameter set number, and the reader behind them.
#[verifier::opaque]
pub open spec fn header_start(b: Bits, nal_unit_type: u8) -> (bool, u32, Bits) {
    let (first, b) = b.flag();
    let b = if irap(nal_unit_type) {
        b.flag().1
    } else {
        b
    };
    let (pps_id, b) = b.ue();
    (first, pps_id, b)
}

fn read_header_start(r: &mut BitReader, nal_unit_type: u8) -> (h: (bool, u32))
    ensures
        (h.0, h.1, final(r)@) == header_start(old(r)@, nal_unit_type),
{
    proof {
        reveal(header_start);
    }
    let first = r.read_flag();
    if is_irap(nal_unit_type) {
        let _no_output_of_prior_pics = r.read_flag();
    }
    (first, r.read_ue())
}

/// Dependent flag and address of a segment.
#[verifier::opaque]
pub open spec fn segment_fields(b: Bits, sps: SpsV, pps: Pps, first: bool) -> (bool, u32, Bits) {
    if first {
        (false, 0, b)
    } else {
        let (dependent, b) = if pps.dependent_slice_segments_enabled_flag {
            b.flag()
        } else {
            (false, b)
        };
        let (address, b) = b.u(log2_up(sps.size_in_ctbs()));
        (dependent, address, b)
    }
}

fn read_segment_fields(r: &mut BitReader, sps: &Sps, pps: &Pps, first: bool) -> (f: (bool, u32))
    ensures
        (f.0, f.1, final(r)@) == segment_fields(old(r)@, sps@, *pps, first),
{
    proof {
        reveal(segment_fields);
    }
    if first {
        return (false, 0);
    }
    let dependent = pps.dependent_slice_segments_enabled_flag && r.read_flag();
    let address = r.read_bits(ceil_log2(sps.pic_size_in_ctbs()));
    (dependent, address)
}

/// Entry points and extension, up to the bit before the slice data.
#[verifier::opaque]
pub open spec fn header_end(b: Bits, pps: Pps) -> Bits {
    let b = if pps.tiles_enabled_flag || pps.entropy_coding_sync_enabled_flag {
        let (entries, b) = b.ue();
        if entries > 0 {
            let (len, b) = b.ue();
            skip_u(b, len.wrapping_add(1), entries as nat)
        } else {
            b
        }
    } else {
        b
    };
    let b = if pps.slice_header_extension_present_flag {
        let (len, b) = b.ue();
        skip_u(b, 8, len as nat)
    } else {
        b
    };
    b.flag().1
}

fn skip_header_end(r: &mut BitReader, pps: &Pps)
    ensures
        final(r)@ == header_end(old(r)@, *pps),
{
    proof {
        reveal(header_end);
    }
    if pps.tiles_enabled_flag || pps.entropy_coding_sync_enabled_flag {
        let entries = r.read_ue();
        if entries > 0 {
            let len = r.read_ue();
            r.drop_u(len.wrapping_add(1), entries);
        }
    }
    if pps.slice_header_extension_present_flag {
        let len = r.read_ue();
        r.drop_u(8, len);
    }
    let _alignment_bit = r.read_flag();
}

/// The slice data come in several substreams.
pub open spec fn substreams(pps: Pps) -> bool {
    (pps.tiles_enabled_flag || pps.entropy_coding_sync_enabled_flag) && (pps.num_tile_columns > 1
        || pps.num_tile_rows > 1 || pps.entropy_coding_sync_enabled_flag)
}

/// The slice segment header in `nal`, with its parameter sets; `None` where it does not parse.
#[verifier::opaque]
pub open spec fn header_of(nal: NalView, sps: SpsV, pps: Pps) -> Option<HeaderV> {
    let is_idr = nal.nal_unit_type == 19 || nal.nal_unit_type == 20;
    let (first, pps_id, b) = header_start(Bits { data: nal.rbsp, pos: 0 }, nal.nal_unit_type);
    let (dependent, address, b) = segment_fields(b, sps, pps, first);
    let own = if dependent {
        Some((None, b))
    } else {
        match own_fields(b, sps, pps, is_idr) {
            None => None,
            Some((f, b)) => Some((Some(f), b)),
        }
    };
    match own {
        None => None,
        Some((own, b)) => {
            let b = header_end(b, pps);
            let data_offset = ((b.pos + 7) / 8) as usize;
            let base = HeaderV {
                first_slice_segment_in_pic_flag: first,
                dependent_slice_segment_flag: dependent,
                pps_id,
                slice_segment_address: address,
                slice_type: None,
                sao_luma: false,
                sao_chroma: false,
                inter: no_inter(),
                slice_temporal_mvp_enabled: false,
                slice_qp: pps.pic_init_qp,
                data_offset,
                unsupported: substreams(pps),
                nal_unit_type: nal.nal_unit_type,
                is_idr,
                poc_lsb: 0,
                short_rps: RpsV::none(),
            };
            Some(
                match own {
                    None => base,
                    Some(f) => HeaderV {
                        slice_type: Some(f.slice_type),
                        sao_luma: f.sao_luma,
                        sao_chroma: f.sao_chroma,
                        inter: f.inter,
                        slice_temporal_mvp_enabled: f.refs.tmvp,
                        slice_qp: f.slice_qp,
                        poc_lsb: f.refs.poc_lsb,
                        short_rps: f.refs.rps,
                        ..base
                    },
                },
            )
        },
    }
}

/// A header that may be there.
pub open spec fn header_view(h: Option<SliceHeader>) -> Option<HeaderV> {
    match h {
        Some(h) => Some(h@),
        None => None,
    }
}

/// Parses a slice segment header with the parameter sets it refers to. `None` for a header that
/// refers to a reference picture set that is not there, or has weights for more than 16 references.
pub fn parse_slice_header_with(nal: &Nal, sps: &Sps, pps: &Pps) -> (h: Option<SliceHeader>)
    requires
        sps.wf(),
    ensures
        header_view(h) == header_of(nal@, sps@, *pps),
        h matches Some(h) ==> h.short_rps@.wf(),
{
    proof {
        reveal(header_of);
    }
    let is_idr = nal.nal_unit_type == 19 || nal.nal_unit_type == 20;
    let mut r = BitReader::new(nal.rbsp.as_slice());
    let (first, pps_id) = read_header_start(&mut r, nal.nal_unit_type);
    let (dependent, address) = read_segment_fields(&mut r, sps, pps, first);
    let own = if dependent {
        None
    } else {
        match read_own_fields(&mut r, sps, pps, is_idr) {
            None => {
                return None;
            },
            Some(f) => Some(f),
        }
    };
    skip_header_end(&mut r, pps);
    let pos = r.pos();
    let data_offset: usize = pos / 8 + (if pos % 8 != 0 {
        1usize
    } else {
        0
    });
    let unsupported = (pps.tiles_enabled_flag || pps.entropy_coding_sync_enabled_flag) && (
    pps.num_tile_columns > 1 || pps.num_tile_rows > 1 || pps.entropy_coding_sync_enabled_flag);
    match own {
        None => Some(
            SliceHeader {
                first_slice_segment_in_pic_flag: first,
                dependent_slice_segment_flag: dependent,
                pps_id,
                slice_segment_address: address,
                slice_type: None,
                sao_luma: false,
                sao_chroma: false,
                nb_refs: [0, 0],
                slice_temporal_mvp_enabled: false,
                collocated_list: 0,
                collocated_ref_idx: 0,
                mvd_l1_zero_flag: false,
                cabac_init_flag: false,
                max_num_merge_cand: 5,
                slice_qp: pps.pic_init_qp,
                data_offset,
                unsupported,
                nal_unit_type: nal.nal_unit_type,
                is_idr,
                poc_lsb: 0,
                short_rps: ShortRps::none(),
            },
        ),
        Some(f) => Some(
            SliceHeader {
                first_slice_segment_in_pic_flag: first,
                dependent_slice_segment_flag: dependent,
                pps_id,
                slice_segment_address: address,
                slice_type: Some(f.slice_type),
                sao_luma: f.sao_luma,
                sao_chroma: f.sao_chroma,
                nb_refs: [f.inter.nb0, f.inter.nb1],
                slice_temporal_mvp_enabled: f.tmvp,
                collocated_list: f.inter.col_list,
                collocated_ref_idx: f.inter.col_idx,
                mvd_l1_zero_flag: f.inter.mvd_l1_zero,
                cabac_init_flag: f.inter.cabac_init,
                max_num_merge_cand: f.inter.merge_cand,
                slice_qp: f.slice_qp,
                data_offset,
                unsupported,
                nal_unit_type: nal.nal_unit_type,
                is_idr,
                poc_lsb: f.poc_lsb,
                short_rps: f.rps,
            },
        ),
    }
}

/// Number of the picture parameter set that a slice refers to.
pub open spec fn slice_pps_id(nal: NalView) -> u32 {
    header_start(Bits { data: nal.rbsp, pos: 0 }, nal.nal_unit_type).1
}

/// The number of the picture parameter set that a slice refers to.
pub fn read_slice_pps_id(nal: &Nal) -> (id: u32)
    ensures
        id == slice_pps_id(nal@),
{
    let mut r = BitReader::new(nal.rbsp.as_slice());
    read_header_start(&mut r, nal.nal_unit_type).1
}

/// Parses a slice segment header. `None` if the parameter set that it refers to, or the one that
/// this refers to in turn, cannot be had, or if the header does not parse.
pub fn parse_slice_header(
    nal: &Nal,
    sps_for: &impl Fn(u32) -> Option<Sps>,
    pps_for: &impl Fn(u32) -> Option<Pps>,
) -> (r: Option<SliceHeader>)
    requires
        forall|id: u32| call_requires(sps_for, (id,)),
        forall|id: u32| call_requires(pps_for, (id,)),
        forall|id: u32, s: Sps| call_ensures(sps_for, (id,), Some(s)) ==> s.wf(),
    ensures
        match r {
            None => {
                ||| call_ensures(pps_for, (slice_pps_id(nal@),), None::<Pps>)
                ||| exists|p: Pps|
                    {
                        &&& #[trigger] call_ensures(pps_for, (slice_pps_id(nal@),), Some(p))
                        &&& call_ensures(sps_for, (p.sps_id,), None::<Sps>)
                    }
                ||| exists|p: Pps, s: Sps|
                    {
                        &&& call_ensures(pps_for, (slice_pps_id(nal@),), Some(p))
                        &&& #[trigger] call_ensures(sps_for, (p.sps_id,), Some(s))
                        &&& header_of(nal@, s@, p) is None
                    }
            },
            Some(h) => exists|p: Pps, s: Sps|
                {
                    &&& call_ensures(pps_for, (slice_pps_id(nal@),), Some(p))
                    &&& #[trigger] call_ensures(sps_for, (p.sps_id,), Some(s))
                    &&& header_of(nal@, s@, p) == Some(h@)
                },
        },
{
    let id = read_slice_pps_id(nal);
    match pps_for(id) {
        None => None,
        Some(pps) => match sps_for(pps.sps_id) {
            None => None,
            Some(sps) => parse_slice_header_with(nal, &sps, &pps),
        },
    }
}

} // verus!
