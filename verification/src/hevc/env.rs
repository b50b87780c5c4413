//! What decoding a slice refers to.

use super::frame::{geo_of, Geo};
use super::params::{Pps, Sps, SpsV};
use super::refs::{RefInfo, RefV};
use super::slice_header::{HeaderV, SliceHeader};
use vstd::prelude::*;

verus! {

/// The parameter sets, header and references of a slice, and the geometry of its picture.
pub struct Env<'a> {
    pub sps: &'a Sps,
    pub pps: &'a Pps,
    pub sh: &'a SliceHeader,
    pub ri: &'a RefInfo<'a>,
    pub g: Geo,
}

/// The parameter sets, header and references of a slice, and the geometry of its picture.
pub struct EnvV {
    pub sps: SpsV,
    pub pps: Pps,
    pub sh: HeaderV,
    pub ri: RefV,
    pub g: Geo,
}

impl<'a> View for Env<'a> {
    type V = EnvV;

    open spec fn view(&self) -> EnvV {
        EnvV { sps: self.sps@, pps: *self.pps, sh: self.sh@, ri: self.ri@, g: self.g }
    }
}

impl EnvV {
    /// The slice can be decoded.
    pub open spec fn ok(self) -> bool {
        &&& self.sps.decodable()
        &&& self.g == geo_of(self.sps)
        &&& self.g.wf()
        &&& self.sh.inter.merge_cand <= 5
        &&& self.ri.wf()
    }
}

} // verus!
