//! Counters of an extraction.

use vstd::prelude::*;

verus! {

/// What an extraction counts and reports. The fields from `hevc` on serve H.265 streams.
#[derive(Debug, Clone, Copy, PartialEq, Eq, Structural)]
pub struct Stats {
    pub frames: u64,
    pub cavlc_decoded: u64,
    pub cabac_decoded: u64,
    pub b_skipped: u64,
    pub b_decoded: u64,
    pub incomplete: u64,
    pub parse_errors: u64,
    pub hevc: bool,
    pub i_slices: u64,
    pub p_slices: u64,
    pub b_slices: u64,
    pub dependent: u64,
    pub width: u32,
    pub height: u32,
    pub ctb: u32,
    pub profile_idc: u8,
    pub qp_min: i32,
    pub qp_max: i32,
    pub unsupported: u64,
    pub bad_header: u64,
    pub sync_attempt: u64,
    pub sync_ok: u64,
}

impl Stats {
    /// All counters at zero.
    pub open spec fn zero() -> Stats {
        Stats {
            frames: 0,
            cavlc_decoded: 0,
            cabac_decoded: 0,
            b_skipped: 0,
            b_decoded: 0,
            incomplete: 0,
            parse_errors: 0,
            hevc: false,
            i_slices: 0,
            p_slices: 0,
            b_slices: 0,
            dependent: 0,
            width: 0,
            height: 0,
            ctb: 0,
            profile_idc: 0,
            qp_min: 0,
            qp_max: 0,
            unsupported: 0,
            bad_header: 0,
            sync_attempt: 0,
            sync_ok: 0,
        }
    }

    /// The decoding counters of `o` added.
    pub open spec fn merged(self, o: Stats) -> Stats {
        Stats {
            cavlc_decoded: self.cavlc_decoded.wrapping_add(o.cavlc_decoded),
            cabac_decoded: self.cabac_decoded.wrapping_add(o.cabac_decoded),
            incomplete: self.incomplete.wrapping_add(o.incomplete),
            parse_errors: self.parse_errors.wrapping_add(o.parse_errors),
            ..self
        }
    }

    /// Adds the decoding counters of another worker.
    pub fn merge(&mut self, o: &Stats)
        ensures
            *final(self) == old(self).merged(*o),
    {
        self.cavlc_decoded = self.cavlc_decoded.wrapping_add(o.cavlc_decoded);
        self.cabac_decoded = self.cabac_decoded.wrapping_add(o.cabac_decoded);
        self.incomplete = self.incomplete.wrapping_add(o.incomplete);
        self.parse_errors = self.parse_errors.wrapping_add(o.parse_errors);
    }
}

impl Default for Stats {
    fn default() -> (s: Stats)
        ensures
            s == Stats::zero(),
    {
        Stats {
            frames: 0,
            cavlc_decoded: 0,
            cabac_decoded: 0,
            b_skipped: 0,
            b_decoded: 0,
            incomplete: 0,
            parse_errors: 0,
            hevc: false,
            i_slices: 0,
            p_slices: 0,
            b_slices: 0,
            dependent: 0,
            width: 0,
            height: 0,
            ctb: 0,
            profile_idc: 0,
            qp_min: 0,
            qp_max: 0,
            unsupported: 0,
            bad_header: 0,
            sync_attempt: 0,
            sync_ok: 0,
        }
    }
}

/// The order in which workers report does not change the sums.
pub proof fn law_merge_order(s: Stats, a: Stats, b: Stats)
    ensures
        s.merged(a).merged(b) == s.merged(b).merged(a),
{
}

} // verus!
