//! Grouping the slices of a stream into pictures.

use super::dpb::{h264_compute_poc, poc_of};
use super::nal::{
    avcc_of, nal_views, nals_of, parse_avcc, split_annexb, split_avcc, Nal, NalView,
};
use super::params::{
    parse_pps, parse_slice_header_into, parse_sps, pps_of, slice_header_of, slice_pps_id, sps_of,
    Pps, SliceHeader, SliceType, Sps,
};
use super::picture::{job_header, jobs_of, JobV, Picture, PictureV, SliceJob};
use super::reuse::picture::without_b;
use crate::bits::{BitReader, Bits};
use crate::framing;
use std::collections::HashMap;
use vstd::prelude::*;

verus! {

broadcast use vstd::std_specs::hash::group_hash_axioms;

/// Where grouping stands: the parameter sets, the picture being collected, the number of the next
/// picture, the B slices left out, and the picture order of the previous reference picture.
pub struct GroupV {
    pub nal_length_size: Option<usize>,
    pub decode_b: bool,
    pub sps: Map<u32, Sps>,
    pub pps: Map<u32, Pps>,
    pub cur: Option<PictureV>,
    pub next_index: i32,
    pub b_skipped: u64,
    pub prev_msb: i32,
    pub prev_lsb: i32,
}

/// Sequence parameter sets entered under their own numbers, in order.
pub open spec fn with_sps(m: Map<u32, Sps>, nals: Seq<NalView>) -> Map<u32, Sps>
    decreases nals.len(),
{
    if nals.len() == 0 {
        m
    } else {
        let s = sps_of(nals.last().rbsp);
        with_sps(m, nals.drop_last()).insert(s.sps_id, s)
    }
}

/// Picture parameter sets entered under their own numbers, in order.
pub open spec fn with_pps(m: Map<u32, Pps>, nals: Seq<NalView>) -> Map<u32, Pps>
    decreases nals.len(),
{
    if nals.len() == 0 {
        m
    } else {
        let p = pps_of(nals.last().rbsp);
        with_pps(m, nals.drop_last()).insert(p.pps_id, p)
    }
}

impl GroupV {
    /// Before the first packet: the parameter sets of an avcC record, if `extradata` is one.
    pub open spec fn start(extradata: Seq<u8>, decode_b: bool) -> GroupV {
        let base = GroupV {
            nal_length_size: None,
            decode_b,
            sps: Map::empty(),
            pps: Map::empty(),
            cur: None,
            next_index: 0,
            b_skipped: 0,
            prev_msb: 0,
            prev_lsb: 0,
        };
        match avcc_of(extradata) {
            None => base,
            Some(a) => GroupV {
                nal_length_size: Some(a.nal_length_size as usize),
                sps: with_sps(Map::empty(), a.sps),
                pps: with_pps(Map::empty(), a.pps),
                ..base
            },
        }
    }

    /// The parameter sets that a slice refers to.
    pub open spec fn sets_of(self, n: NalView) -> Option<(Sps, Pps)> {
        let id = slice_pps_id(n.rbsp);
        if self.pps.contains_key(id) && self.sps.contains_key(self.pps[id].sps_id) {
            Some((self.sps[self.pps[id].sps_id], self.pps[id]))
        } else {
            None
        }
    }

    /// The picture that a slice with first macroblock 0 starts. The picture order starts anew at an
    /// IDR picture.
    #[verifier::opaque]
    pub open spec fn opened(self, n: NalView, sps: Sps, sh: SliceHeader) -> GroupV {
        let (poc, prev_msb, prev_lsb) = poc_of(
            sps,
            sh.pic_order_cnt_lsb,
            n.nal_ref_idc,
            if sh.is_idr {
                0
            } else {
                self.prev_msb
            },
            if sh.is_idr {
                0
            } else {
                self.prev_lsb
            },
        );
        GroupV {
            cur: Some(
                PictureV {
                    frame_index: self.next_index,
                    mb_w: sps.pic_width_in_mbs as usize,
                    mb_h: sps.frame_height() as usize,
                    jobs: Seq::empty(),
                    poc,
                    nal_ref_idc: n.nal_ref_idc,
                },
            ),
            next_index: self.next_index.wrapping_add(1),
            prev_msb,
            prev_lsb,
            ..self
        }
    }

    /// A slice joins the picture being collected, if there is one.
    #[verifier::opaque]
    pub open spec fn joined(self, j: JobV) -> GroupV {
        match self.cur {
            None => self,
            Some(p) => GroupV { cur: Some(PictureV { jobs: p.jobs.push(j), ..p }), ..self },
        }
    }

    /// A slice: one with first macroblock 0 completes the picture before it. A B slice is left out
    /// unless B slices are to be decoded. A slice without parameter sets changes nothing.
    #[verifier::opaque]
    pub open spec fn slice(self, n: NalView) -> (GroupV, Option<PictureV>) {
        match self.sets_of(n) {
            None => (self, None),
            Some((sps, pps)) => {
                let (sh, _) = slice_header_of(
                    Bits { data: n.rbsp, pos: 0 },
                    n.nal_ref_idc,
                    n.nal_unit_type,
                    sps,
                    pps,
                );
                let (s, done) = if sh.first_mb_in_slice == 0 {
                    (self.opened(n, sps, sh), self.cur)
                } else {
                    (self, None)
                };
                if sh.slice_type == SliceType::B && !self.decode_b {
                    (GroupV { b_skipped: s.b_skipped.wrapping_add(1), ..s }, done)
                } else {
                    (s.joined(JobV { nal: n, sps, pps }), done)
                }
            },
        }
    }

    /// One NAL unit; the picture that it completes.
    #[verifier::opaque]
    pub open spec fn step(self, n: NalView) -> (GroupV, Option<PictureV>) {
        if n.nal_unit_type == 7 {
            let s = sps_of(n.rbsp);
            (GroupV { sps: self.sps.insert(s.sps_id, s), ..self }, None)
        } else if n.nal_unit_type == 8 {
            let p = pps_of(n.rbsp);
            (GroupV { pps: self.pps.insert(p.pps_id, p), ..self }, None)
        } else if n.nal_unit_type == 1 || n.nal_unit_type == 5 {
            self.slice(n)
        } else {
            (self, None)
        }
    }

    /// NAL units `i..`; the pictures that they complete, behind those in `out`.
    pub open spec fn steps(self, nals: Seq<NalView>, i: int, out: Seq<PictureV>) -> (
        GroupV,
        Seq<PictureV>,
    )
        decreases nals.len() - i,
    {
        if i >= nals.len() {
            (self, out)
        } else {
            let (s, done) = self.step(nals[i]);
            s.steps(
                nals,
                i + 1,
                match done {
                    Some(p) => out.push(p),
                    None => out,
                },
            )
        }
    }

    /// The NAL units of a packet, framed as the stream frames them.
    pub open spec fn units(self, data: Seq<u8>) -> Seq<NalView> {
        match self.nal_length_size {
            Some(n) => nals_of(framing::prefixed_units(data, n as nat, 0)),
            None => nals_of(framing::annexb_units(data)),
        }
    }

    /// One packet; the pictures that it completes.
    pub open spec fn packet(self, data: Seq<u8>) -> (GroupV, Seq<PictureV>) {
        self.steps(self.units(data), 0, Seq::empty())
    }
}

/// Groups the slices of a stream into pictures, in decoding order.
pub struct PictureGrouper {
    nal_length_size: Option<usize>,
    decode_b: bool,
    sps: HashMap<u32, Sps>,
    pps: HashMap<u32, Pps>,
    cur: Option<Picture>,
    next_index: i32,
    b_skipped: u64,
    prev_msb: i32,
    prev_lsb: i32,
}

/// A picture that may be there.
pub open spec fn picture_of(p: Option<Picture>) -> Option<PictureV> {
    match p {
        Some(p) => Some(p@),
        None => None,
    }
}

/// Pictures as they are modelled.
pub open spec fn pictures_of(p: Seq<Picture>) -> Seq<PictureV> {
    Seq::new(p.len(), |i: int| p[i]@)
}

impl View for PictureGrouper {
    type V = GroupV;

    closed spec fn view(&self) -> GroupV {
        GroupV {
            nal_length_size: self.nal_length_size,
            decode_b: self.decode_b,
            sps: self.sps@,
            pps: self.pps@,
            cur: picture_of(self.cur),
            next_index: self.next_index,
            b_skipped: self.b_skipped,
            prev_msb: self.prev_msb,
            prev_lsb: self.prev_lsb,
        }
    }
}

fn sps_map(nals: &Vec<Nal>) -> (m: HashMap<u32, Sps>)
    ensures
        m@ == with_sps(Map::empty(), nal_views(nals@)),
{
    let mut m: HashMap<u32, Sps> = HashMap::new();
    let ghost views = nal_views(nals@);
    let mut i: usize = 0;
    assert(views.take(0) =~= Seq::<NalView>::empty());
    while i < nals.len()
        invariant
            i <= nals@.len(),
            views == nal_views(nals@),
            m@ == with_sps(Map::empty(), views.take(i as int)),
        decreases nals@.len() - i,
    {
        let s = parse_sps(nals[i].rbsp.as_slice());
        m.insert(s.sps_id, s);
        i += 1;
        assert(views.take(i as int).drop_last() =~= views.take(i - 1));
        assert(views.take(i as int).last() == nals@[i - 1]@);
    }
    assert(views.take(i as int) =~= views);
    m
}

fn pps_map(nals: &Vec<Nal>) -> (m: HashMap<u32, Pps>)
    ensures
        m@ == with_pps(Map::empty(), nal_views(nals@)),
{
    let mut m: HashMap<u32, Pps> = HashMap::new();
    let ghost views = nal_views(nals@);
    let mut i: usize = 0;
    assert(views.take(0) =~= Seq::<NalView>::empty());
    while i < nals.len()
        invariant
            i <= nals@.len(),
            views == nal_views(nals@),
            m@ == with_pps(Map::empty(), views.take(i as int)),
        decreases nals@.len() - i,
    {
        let p = parse_pps(nals[i].rbsp.as_slice());
        m.insert(p.pps_id, p);
        i += 1;
        assert(views.take(i as int).drop_last() =~= views.take(i - 1));
        assert(views.take(i as int).last() == nals@[i - 1]@);
    }
    assert(views.take(i as int) =~= views);
    m
}

impl PictureGrouper {
    /// Starts a stream. `extradata` is the avcC record of the container, or anything else for a
    /// stream with start codes; `decode_b` says whether B slices are to be decoded.
    pub fn new(extradata: &[u8], decode_b: bool) -> (g: PictureGrouper)
        ensures
            g@ == GroupV::start(extradata@, decode_b),
    {
        let (nal_length_size, sps, pps) = match parse_avcc(extradata) {
            Some(a) => (Some(a.nal_length_size), sps_map(&a.sps), pps_map(&a.pps)),
            None => (None, HashMap::new(), HashMap::new()),
        };
        PictureGrouper {
            nal_length_size,
            decode_b,
            sps,
            pps,
            cur: None,
            next_index: 0,
            b_skipped: 0,
            prev_msb: 0,
            prev_lsb: 0,
        }
    }

    fn sets(&self, n: &Nal) -> (r: Option<(Sps, Pps)>)
        ensures
            r == self@.sets_of(n@),
    {
        let mut r = BitReader::new(n.rbsp.as_slice());
        let _first_mb = r.read_ue();
        let _slice_type = r.read_ue();
        let id = r.read_ue();
        match self.pps.get(&id) {
            None => None,
            Some(pps) => match self.sps.get(&pps.sps_id) {
                None => None,
                Some(sps) => Some((*sps, *pps)),
            },
        }
    }

    fn open(&mut self, n: &Nal, sps: &Sps, sh: &SliceHeader) -> (done: Option<Picture>)
        ensures
            final(self)@ == old(self)@.opened(n@, *sps, *sh),
            picture_of(done) == old(self)@.cur,
    {
        proof {
            reveal(GroupV::opened);
        }
        let done = self.cur.take();
        if sh.is_idr {
            self.prev_msb = 0;
            self.prev_lsb = 0;
        }
        let poc = h264_compute_poc(
            sps,
            sh.pic_order_cnt_lsb,
            n.nal_ref_idc,
            &mut self.prev_msb,
            &mut self.prev_lsb,
        );
        let p = Picture {
            frame_index: self.next_index,
            mb_w: sps.pic_width_in_mbs as usize,
            mb_h: sps.frame_height_in_mbs() as usize,
            jobs: Vec::new(),
            poc,
            nal_ref_idc: n.nal_ref_idc,
        };
        assert(p@.jobs =~= Seq::<JobV>::empty());
        self.cur = Some(p);
        self.next_index = self.next_index.wrapping_add(1);
        done
    }

    fn join(&mut self, n: Nal, sps: Sps, pps: Pps)
        ensures
            final(self)@ == old(self)@.joined((JobV { nal: n@, sps, pps })),
    {
        proof {
            reveal(GroupV::joined);
        }
        match self.cur.take() {
            None => {},
            Some(p) => {
                let mut p = p;
                let ghost before = p.jobs@;
                p.jobs.push(SliceJob { nal: n, sps, pps });
                assert(jobs_of(p.jobs@) =~= jobs_of(before).push(JobV { nal: n@, sps, pps }));
                self.cur = Some(p);
            },
        }
    }

    fn slice(&mut self, n: Nal) -> (done: Option<Picture>)
        ensures
            (final(self)@, picture_of(done)) == old(self)@.slice(n@),
    {
        proof {
            reveal(GroupV::slice);
            reveal(GroupV::opened);
        }
        match self.sets(&n) {
            None => None,
            Some((sps, pps)) => {
                let mut r = BitReader::new(n.rbsp.as_slice());
                let sh = parse_slice_header_into(&mut r, &n, &sps, &pps);
                let done = if sh.first_mb_in_slice == 0 {
                    self.open(&n, &sps, &sh)
                } else {
                    None
                };
                if sh.slice_type == SliceType::B && !self.decode_b {
                    self.b_skipped = self.b_skipped.wrapping_add(1);
                } else {
                    self.join(n, sps, pps);
                }
                done
            },
        }
    }

    fn step(&mut self, n: Nal) -> (done: Option<Picture>)
        ensures
            (final(self)@, picture_of(done)) == old(self)@.step(n@),
    {
        proof {
            reveal(GroupV::step);
        }
        match n.nal_unit_type {
            7 => {
                let s = parse_sps(n.rbsp.as_slice());
                self.sps.insert(s.sps_id, s);
                None
            },
            8 => {
                let p = parse_pps(n.rbsp.as_slice());
                self.pps.insert(p.pps_id, p);
                None
            },
            1 | 5 => self.slice(n),
            _ => None,
        }
    }

    /// Takes one packet; returns the pictures that it completes.
    pub fn packet(&mut self, data: &[u8]) -> (done: Vec<Picture>)
        ensures
            (final(self)@, pictures_of(done@)) == old(self)@.packet(data@),
    {
        let mut nals = match self.nal_length_size {
            Some(n) => split_avcc(data, n),
            None => split_annexb(data),
        };
        let ghost all = nal_views(nals@);
        let mut done: Vec<Picture> = Vec::new();
        let ghost k: int = 0;
        assert(pictures_of(done@) =~= Seq::<PictureV>::empty());
        while nals.len() > 0
            invariant
                0 <= k <= all.len(),
                all == old(self)@.units(data@),
                nal_views(nals@) == all.skip(k),
                self@.steps(all, k, pictures_of(done@)) == old(self)@.packet(data@),
            decreases nals@.len(),
        {
            let ghost before = done@;
            let ghost rest = nals@;
            assert(nal_views(nals@).len() == all.skip(k).len());
            assert(all.skip(k)[0] == all[k]);
            let n = nals.remove(0);
            proof {
                assert(nal_views(nals@) =~= all.skip(k + 1)) by {
                    assert(nal_views(rest).len() == all.len() - k);
                    assert forall|i: int| 0 <= i < nals@.len() implies #[trigger] nal_views(
                        nals@,
                    )[i] == all.skip(k + 1)[i] by {
                        assert(nal_views(rest)[i + 1] == all.skip(k)[i + 1]);
                    }
                }
            }
            match self.step(n) {
                Some(p) => {
                    done.push(p);
                    assert(pictures_of(done@) =~= pictures_of(before).push(p@));
                },
                None => {},
            }
            proof {
                k = k + 1;
            }
        }
        assert(k == all.len()) by {
            assert(nal_views(nals@).len() == all.skip(k).len());
        }
        done
    }

    /// Ends the stream; returns the last picture.
    pub fn finish(&mut self) -> (last: Option<Picture>)
        ensures
            picture_of(last) == old(self)@.cur,
            final(self)@ == (GroupV { cur: None, ..old(self)@ }),
    {
        self.cur.take()
    }

    /// Number of pictures.
    pub fn picture_count(&self) -> (n: u64)
        ensures
            n == self@.next_index as u64,
    {
        self.next_index as u64
    }

    /// Number of B slices left out.
    pub fn b_skipped(&self) -> (n: u64)
        ensures
            n == self@.b_skipped,
    {
        self.b_skipped
    }
}

// ---------------------------------------------------------------------------
// Laws

impl GroupV {
    /// The picture being collected has the number before the next one, and holds B slices only where
    /// they are to be decoded.
    pub open spec fn consistent(self) -> bool {
        &&& 0 <= self.next_index
        &&& self.cur matches Some(p) ==> p.frame_index == self.next_index - 1 && (self.decode_b
            || without_b(p))
    }

    /// How many pictures have been completed.
    pub open spec fn completed(self) -> int {
        if self.cur is Some {
            self.next_index - 1
        } else {
            self.next_index as int
        }
    }
}

/// Pictures numbered from `first` on, with B slices only where they are to be decoded.
pub open spec fn numbered(ps: Seq<PictureV>, first: int, decode_b: bool) -> bool {
    forall|k: int|
        0 <= k < ps.len() ==> (#[trigger] ps[k]).frame_index == first + k && (decode_b || without_b(
            ps[k],
        ))
}

proof fn lemma_slice_step(s: GroupV, n: NalView)
    requires
        s.consistent(),
        s.next_index < i32::MAX,
    ensures
        ({
            let (t, done) = s.slice(n);
            &&& t.consistent()
            &&& t.decode_b == s.decode_b
            &&& s.next_index <= t.next_index <= s.next_index + 1
            &&& done matches Some(p) ==> p.frame_index == s.completed() && (s.decode_b || without_b(
                p,
            )) && t.completed() == s.completed() + 1
            &&& done is None ==> t.completed() == s.completed()
        }),
{
    reveal(GroupV::slice);
    reveal(GroupV::opened);
    reveal(GroupV::joined);
    if let Some((sps, pps)) = s.sets_of(n) {
        let j = JobV { nal: n, sps, pps };
        let (sh, _) = job_header(j);
        let o = if sh.first_mb_in_slice == 0 {
            s.opened(n, sps, sh)
        } else {
            s
        };
        assert(o.consistent());
        if !(sh.slice_type == SliceType::B && !s.decode_b) {
            if let Some(p) = o.cur {
                let q = PictureV { jobs: p.jobs.push(j), ..p };
                if !s.decode_b {
                    assert forall|i: int| 0 <= i < q.jobs.len() implies job_header(
                        #[trigger] q.jobs[i],
                    ).0.slice_type != SliceType::B by {
                        if i < p.jobs.len() {
                            assert(q.jobs[i] == p.jobs[i]);
                        }
                    }
                }
            }
        }
    }
}

proof fn lemma_steps(s: GroupV, nals: Seq<NalView>, i: int, out: Seq<PictureV>, first: int)
    requires
        s.consistent(),
        0 <= i <= nals.len(),
        s.next_index + (nals.len() - i) <= i32::MAX,
        numbered(out, first, s.decode_b),
        s.completed() == first + out.len(),
    ensures
        ({
            let (t, all) = s.steps(nals, i, out);
            &&& t.consistent()
            &&& t.decode_b == s.decode_b
            &&& numbered(all, first, s.decode_b)
            &&& t.completed() == first + all.len()
        }),
    decreases nals.len() - i,
{
    if i < nals.len() {
        reveal(GroupV::step);
        lemma_slice_step(s, nals[i]);
        let (t, done) = s.step(nals[i]);
        let more = match done {
            Some(p) => out.push(p),
            None => out,
        };
        lemma_steps(t, nals, i + 1, more, first);
    }
}

/// The pictures that packets complete are numbered without gaps in decoding order, and where B slices
/// are not to be decoded, none is left in them.
pub proof fn law_pictures_numbered(s: GroupV, data: Seq<u8>)
    requires
        s.consistent(),
        s.next_index + s.units(data).len() <= i32::MAX,
    ensures
        ({
            let (t, done) = s.packet(data);
            &&& t.consistent()
            &&& t.decode_b == s.decode_b
            &&& numbered(done, s.completed(), s.decode_b)
            &&& t.completed() == s.completed() + done.len()
        }),
{
    lemma_steps(s, s.units(data), 0, Seq::empty(), s.completed());
}

/// Grouping starts with no picture completed.
pub proof fn law_grouping_starts_empty(extradata: Seq<u8>, decode_b: bool)
    ensures
        GroupV::start(extradata, decode_b).consistent(),
        GroupV::start(extradata, decode_b).completed() == 0,
        GroupV::start(extradata, decode_b).decode_b == decode_b,
{
}

} // verus!
