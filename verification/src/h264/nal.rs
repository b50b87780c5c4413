//! H.264 NAL units: the one-byte header, the stream splitters and the avcC record.

pub use crate::framing::ebsp_to_rbsp;
use crate::framing::{annexb_ranges, config_ranges, prefixed_ranges};
use crate::framing;
use vstd::prelude::*;

verus! {

/// One NAL unit: header fields and payload as RBSP.
#[derive(Debug, Clone)]
pub struct Nal {
    pub nal_ref_idc: u8,
    pub nal_unit_type: u8,
    pub rbsp: Vec<u8>,
}

/// The model of a [`Nal`].
pub struct NalView {
    pub nal_ref_idc: u8,
    pub nal_unit_type: u8,
    pub rbsp: Seq<u8>,
}

impl View for Nal {
    type V = NalView;

    open spec fn view(&self) -> NalView {
        NalView {
            nal_ref_idc: self.nal_ref_idc,
            nal_unit_type: self.nal_unit_type,
            rbsp: self.rbsp@,
        }
    }
}

/// The models of a list of NAL units.
pub open spec fn nal_views(nals: Seq<Nal>) -> Seq<NalView> {
    Seq::new(nals.len(), |i: int| nals[i]@)
}

/// The NAL unit in `bytes`, a header byte and an EBSP payload; none if there is no byte or
/// `forbidden_zero_bit` is set.
pub open spec fn nal_of(bytes: Seq<u8>) -> Option<NalView> {
    if bytes.len() == 0 || bytes[0] & 0x80 != 0 {
        None
    } else {
        Some(
            NalView {
                nal_ref_idc: (bytes[0] >> 5) & 0x03,
                nal_unit_type: bytes[0] & 0x1f,
                rbsp: framing::rbsp_of(bytes.skip(1)),
            },
        )
    }
}

/// The NAL units among `units`, in order; units without a valid header are left out.
pub open spec fn nals_of(units: Seq<Seq<u8>>) -> Seq<NalView>
    decreases units.len(),
{
    if units.len() == 0 {
        Seq::empty()
    } else {
        match nal_of(units.last()) {
            Some(n) => nals_of(units.drop_last()).push(n),
            None => nals_of(units.drop_last()),
        }
    }
}

impl Nal {
    /// Builds a NAL unit from its raw bytes.
    pub fn from_ebsp(bytes: &[u8]) -> (r: Option<Nal>)
        ensures
            r is Some <==> nal_of(bytes@) is Some,
            r matches Some(n) ==> Some(n@) == nal_of(bytes@),
    {
        if bytes.len() == 0 {
            return None;
        }
        let hdr = bytes[0];
        if hdr & 0x80 != 0 {
            return None;
        }
        assert(bytes@.subrange(1, bytes@.len() as int) =~= bytes@.skip(1));
        Some(
            Nal {
                nal_ref_idc: (hdr >> 5) & 0x03,
                nal_unit_type: hdr & 0x1f,
                rbsp: ebsp_to_rbsp(&bytes[1..bytes.len()]),
            },
        )
    }
}

fn nals_in(data: &[u8], ranges: &Vec<(usize, usize)>) -> (nals: Vec<Nal>)
    requires
        framing::ranges_ok(data@, ranges@),
    ensures
        nal_views(nals@) == nals_of(framing::ranges_of(data@, ranges@)),
{
    let mut nals: Vec<Nal> = Vec::new();
    let ghost units = framing::ranges_of(data@, ranges@);
    let mut k: usize = 0;
    assert(nal_views(nals@) =~= nals_of(units.take(0)));
    while k < ranges.len()
        invariant
            k <= ranges@.len(),
            framing::ranges_ok(data@, ranges@),
            units == framing::ranges_of(data@, ranges@),
            nal_views(nals@) == nals_of(units.take(k as int)),
        decreases ranges@.len() - k,
    {
        let (s, e) = ranges[k];
        let ghost before = nal_views(nals@);
        assert(units.take(k + 1).drop_last() =~= units.take(k as int));
        assert(units.take(k + 1).last() == data@.subrange(s as int, e as int));
        if let Some(n) = Nal::from_ebsp(&data[s..e]) {
            nals.push(n);
            assert(nal_views(nals@) =~= before.push(n@));
        }
        k += 1;
    }
    assert(units.take(k as int) =~= units);
    nals
}

/// Splits an Annex-B byte stream into NAL units.
pub fn split_annexb(data: &[u8]) -> (nals: Vec<Nal>)
    ensures
        nal_views(nals@) == nals_of(framing::annexb_units(data@)),
{
    nals_in(data, &annexb_ranges(data))
}

/// Splits a length-prefixed stream into NAL units.
pub fn split_avcc(data: &[u8], nal_length_size: usize) -> (nals: Vec<Nal>)
    ensures
        nal_views(nals@) == nals_of(framing::prefixed_units(data@, nal_length_size as nat, 0)),
{
    nals_in(data, &prefixed_ranges(data, nal_length_size))
}

/// The parts of an avcC record that decoding needs.
pub struct Avcc {
    pub nal_length_size: usize,
    pub sps: Vec<Nal>,
    pub pps: Vec<Nal>,
}

/// The model of an [`Avcc`].
pub struct AvccView {
    pub nal_length_size: int,
    pub sps: Seq<NalView>,
    pub pps: Seq<NalView>,
}

impl View for Avcc {
    type V = AvccView;

    open spec fn view(&self) -> AvccView {
        AvccView {
            nal_length_size: self.nal_length_size as int,
            sps: nal_views(self.sps@),
            pps: nal_views(self.pps@),
        }
    }
}

/// The avcC record in `e`: version byte 1, the prefix size in the low two bits of byte 4, the
/// number of SPS units in the low five bits of byte 5, the SPS units, a PPS count and the PPS
/// units. A cut among the SPS units makes it no record; one among the PPS units ends the list.
pub open spec fn avcc_of(e: Seq<u8>) -> Option<AvccView> {
    if e.len() < 7 || e[0] != 1 {
        None
    } else {
        let (sps, i, whole) = framing::config_units(e, 6, (e[5] & 0x1f) as nat);
        if !whole {
            None
        } else {
            Some(
                AvccView {
                    nal_length_size: (e[4] & 0x03) + 1,
                    sps: nals_of(sps),
                    pps: if i >= e.len() {
                        Seq::empty()
                    } else {
                        nals_of(framing::config_units(e, i + 1, e[i] as nat).0)
                    },
                },
            )
        }
    }
}

/// Parses avcC extradata; `None` if the blob is not an avcC record.
pub fn parse_avcc(extradata: &[u8]) -> (r: Option<Avcc>)
    ensures
        r is Some <==> avcc_of(extradata@) is Some,
        r matches Some(a) ==> Some(a@) == avcc_of(extradata@),
{
    if extradata.len() < 7 || extradata[0] != 1 {
        return None;
    }
    let nal_length_size: usize = (extradata[4] & 0x03) as usize + 1;
    let num_sps: usize = (extradata[5] & 0x1f) as usize;
    let (sps_ranges, i, whole) = config_ranges(extradata, 6, num_sps);
    if !whole {
        return None;
    }
    let sps = nals_in(extradata, &sps_ranges);
    if i >= extradata.len() {
        let pps: Vec<Nal> = Vec::new();
        assert(nal_views(pps@) =~= Seq::empty());
        return Some(Avcc { nal_length_size, sps, pps });
    }
    let num_pps: usize = extradata[i] as usize;
    let (pps_ranges, _end, _whole) = config_ranges(extradata, i + 1, num_pps);
    let pps = nals_in(extradata, &pps_ranges);
    Some(Avcc { nal_length_size, sps, pps })
}

} // verus!
