//! H.265 NAL units: the two-byte header, the stream splitters and the hvcC record.

use crate::framing::{annexb_ranges, config_ranges, ebsp_to_rbsp, prefixed_ranges};
use crate::framing;
use vstd::prelude::*;

verus! {

/// Unit type of a video parameter set.
pub const NAL_VPS: u8 = 32;

/// Unit type of a sequence parameter set.
pub const NAL_SPS: u8 = 33;

/// Unit type of a picture parameter set.
pub const NAL_PPS: u8 = 34;

/// Unit types of coded slices.
pub open spec fn vcl(nal_type: u8) -> bool {
    nal_type <= 31
}

/// Whether units of this type are coded slices.
pub fn is_vcl(nal_type: u8) -> (r: bool)
    ensures
        r == vcl(nal_type),
{
    nal_type <= 31
}

/// Unit types of pictures that decoding can start at.
pub open spec fn irap(nal_type: u8) -> bool {
    16 <= nal_type <= 23
}

/// Whether units of this type belong to a picture that decoding can start at.
pub fn is_irap(nal_type: u8) -> (r: bool)
    ensures
        r == irap(nal_type),
{
    16 <= nal_type && nal_type <= 23
}

/// One NAL unit: header fields and payload as RBSP.
#[derive(Debug, Clone)]
pub struct Nal {
    pub nal_unit_type: u8,
    pub nuh_layer_id: u8,
    pub nuh_temporal_id_plus1: u8,
    pub rbsp: Vec<u8>,
}

/// The model of a [`Nal`].
pub struct NalView {
    pub nal_unit_type: u8,
    pub nuh_layer_id: u8,
    pub nuh_temporal_id_plus1: u8,
    pub rbsp: Seq<u8>,
}

impl View for Nal {
    type V = NalView;

    open spec fn view(&self) -> NalView {
        NalView {
            nal_unit_type: self.nal_unit_type,
            nuh_layer_id: self.nuh_layer_id,
            nuh_temporal_id_plus1: self.nuh_temporal_id_plus1,
            rbsp: self.rbsp@,
        }
    }
}

/// The models of a list of NAL units.
pub open spec fn nal_views(nals: Seq<Nal>) -> Seq<NalView> {
    Seq::new(nals.len(), |i: int| nals[i]@)
}

/// The NAL unit in `bytes`, two header bytes and an EBSP payload; none if the header is cut or
/// `forbidden_zero_bit` is set.
pub open spec fn nal_of(bytes: Seq<u8>) -> Option<NalView> {
    if bytes.len() < 2 || bytes[0] & 0x80 != 0 {
        None
    } else {
        Some(
            NalView {
                nal_unit_type: (bytes[0] >> 1) & 0x3f,
                nuh_layer_id: ((bytes[0] & 1) << 5) | (bytes[1] >> 3),
                nuh_temporal_id_plus1: bytes[1] & 0x07,
                rbsp: framing::rbsp_of(bytes.skip(2)),
            },
        )
    }
}

/// The NAL units among `units`, in order; units without a valid header are left out.
pub open spec fn nals_of(units: Seq<Seq<u8>>) -> Seq<NalView>
    decreases units.len(),
{
    if units.len() == 0 {
        Seq::empty()
    } else {
        match nal_of(units.last()) {
            Some(n) => nals_of(units.drop_last()).push(n),
            None => nals_of(units.drop_last()),
        }
    }
}

impl Nal {
    /// Builds a NAL unit from its raw bytes.
    pub fn from_ebsp(bytes: &[u8]) -> (r: Option<Nal>)
        ensures
            r is Some <==> nal_of(bytes@) is Some,
            r matches Some(n) ==> Some(n@) == nal_of(bytes@),
    {
        if bytes.len() < 2 || bytes[0] & 0x80 != 0 {
            return None;
        }
        assert(bytes@.subrange(2, bytes@.len() as int) =~= bytes@.skip(2));
        Some(
            Nal {
                nal_unit_type: (bytes[0] >> 1) & 0x3f,
                nuh_layer_id: ((bytes[0] & 1) << 5) | (bytes[1] >> 3),
                nuh_temporal_id_plus1: bytes[1] & 0x07,
                rbsp: ebsp_to_rbsp(&bytes[2..bytes.len()]),
            },
        )
    }
}

fn nals_in(data: &[u8], ranges: &Vec<(usize, usize)>) -> (nals: Vec<Nal>)
    requires
        framing::ranges_ok(data@, ranges@),
    ensures
        nal_views(nals@) == nals_of(framing::ranges_of(data@, ranges@)),
{
    let mut nals: Vec<Nal> = Vec::new();
    let ghost units = framing::ranges_of(data@, ranges@);
    let mut k: usize = 0;
    assert(nal_views(nals@) =~= nals_of(units.take(0)));
    while k < ranges.len()
        invariant
            k <= ranges@.len(),
            framing::ranges_ok(data@, ranges@),
            units == framing::ranges_of(data@, ranges@),
            nal_views(nals@) == nals_of(units.take(k as int)),
        decreases ranges@.len() - k,
    {
        let (s, e) = ranges[k];
        let ghost before = nal_views(nals@);
        assert(units.take(k + 1).drop_last() =~= units.take(k as int));
        assert(units.take(k + 1).last() == data@.subrange(s as int, e as int));
        if let Some(n) = Nal::from_ebsp(&data[s..e]) {
            nals.push(n);
            assert(nal_views(nals@) =~= before.push(n@));
        }
        k += 1;
    }
    assert(units.take(k as int) =~= units);
    nals
}

/// Splits an Annex-B byte stream into NAL units.
pub fn split_annexb(data: &[u8]) -> (nals: Vec<Nal>)
    ensures
        nal_views(nals@) == nals_of(framing::annexb_units(data@)),
{
    nals_in(data, &annexb_ranges(data))
}

/// Splits a length-prefixed stream into NAL units.
pub fn split_length_prefixed(data: &[u8], nal_length_size: usize) -> (nals: Vec<Nal>)
    ensures
        nal_views(nals@) == nals_of(framing::prefixed_units(data@, nal_length_size as nat, 0)),
{
    nals_in(data, &prefixed_ranges(data, nal_length_size))
}

/// The parts of an hvcC record that decoding needs.
pub struct Hvcc {
    pub nal_length_size: usize,
    pub param_sets: Vec<Nal>,
}

/// The model of an [`Hvcc`].
pub struct HvccView {
    pub nal_length_size: int,
    pub param_sets: Seq<NalView>,
}

impl View for Hvcc {
    type V = HvccView;

    open spec fn view(&self) -> HvccView {
        HvccView {
            nal_length_size: self.nal_length_size as int,
            param_sets: nal_views(self.param_sets@),
        }
    }
}

/// Up to `n` arrays of units from byte `i` on, each behind a type byte and a 16-bit count, added to
/// `units`. A cut ends the list.
pub open spec fn arrays(e: Seq<u8>, i: int, n: nat, units: Seq<Seq<u8>>) -> Seq<Seq<u8>>
    decreases n,
{
    if n == 0 || i + 3 > e.len() {
        units
    } else {
        let count = e[i + 1] * 256 + e[i + 2];
        let (more, j, whole) = framing::config_units(e, i + 3, count as nat);
        if whole {
            arrays(e, j, (n - 1) as nat, units + more)
        } else {
            units + more
        }
    }
}

/// The hvcC record in `e`: version byte 1, the prefix size in the low two bits of byte 21, the
/// number of arrays in byte 22, and the arrays.
pub open spec fn hvcc_of(e: Seq<u8>) -> Option<HvccView> {
    if e.len() < 23 || e[0] != 1 {
        None
    } else {
        Some(
            HvccView {
                nal_length_size: (e[21] & 0x03) + 1,
                param_sets: nals_of(arrays(e, 23, e[22] as nat, Seq::empty())),
            },
        )
    }
}

fn array_ranges(e: &[u8], start: usize, n: usize) -> (r: Vec<(usize, usize)>)
    requires
        start <= e@.len(),
    ensures
        framing::ranges_ok(e@, r@),
        framing::ranges_of(e@, r@) == arrays(e@, start as int, n as nat, Seq::empty()),
{
    let mut r: Vec<(usize, usize)> = Vec::new();
    let ghost all = arrays(e@, start as int, n as nat, Seq::empty());
    let mut at: usize = start;
    let mut left: usize = n;
    assert(framing::ranges_of(e@, r@) =~= Seq::<Seq<u8>>::empty());
    while left > 0 && e.len() - at >= 3
        invariant
            at <= e@.len(),
            framing::ranges_ok(e@, r@),
            arrays(e@, at as int, left as nat, framing::ranges_of(e@, r@)) == all,
            all == arrays(e@, start as int, n as nat, Seq::empty()),
        decreases left,
    {
        let count: usize = e[at + 1] as usize * 256 + e[at + 2] as usize;
        let ghost before = r@;
        let (more, next, whole) = config_ranges(e, at + 3, count);
        let ghost added = more@;
        let mut more = more;
        r.append(&mut more);
        assert(r@ =~= before + added);
        assert(framing::ranges_of(e@, r@) =~= framing::ranges_of(e@, before) + framing::ranges_of(
            e@,
            added,
        ));
        if !whole {
            return r;
        }
        at = next;
        left -= 1;
    }
    r
}

/// Parses hvcC extradata; `None` if the blob is not an hvcC record.
pub fn parse_hvcc(extradata: &[u8]) -> (r: Option<Hvcc>)
    ensures
        r is Some <==> hvcc_of(extradata@) is Some,
        r matches Some(h) ==> Some(h@) == hvcc_of(extradata@),
{
    if extradata.len() < 23 || extradata[0] != 1 {
        return None;
    }
    let nal_length_size: usize = (extradata[21] & 0x03) as usize + 1;
    let ranges = array_ranges(extradata, 23, extradata[22] as usize);
    Some(Hvcc { nal_length_size, param_sets: nals_in(extradata, &ranges) })
}

} // verus!
