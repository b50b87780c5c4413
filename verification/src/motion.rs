//! Motion vectors and the records they are exported as.

use vstd::prelude::*;

verus! {

/// A motion vector in quarter samples.
#[derive(Debug, Clone, Copy, PartialEq, Eq, Structural)]
pub struct Mv {
    pub x: i32,
    pub y: i32,
}

/// The vector that does not move.
pub open spec fn zero_mv() -> Mv {
    Mv { x: 0, y: 0 }
}

/// The middle one of three numbers.
pub open spec fn median(a: i32, b: i32, c: i32) -> i32 {
    if a <= b {
        if b <= c {
            b
        } else if a <= c {
            c
        } else {
            a
        }
    } else {
        if a <= c {
            a
        } else if b <= c {
            c
        } else {
            b
        }
    }
}

/// The middle one of three numbers.
pub fn mid_pred(a: i32, b: i32, c: i32) -> (m: i32)
    ensures
        m == median(a, b, c),
{
    if a <= b {
        if b <= c {
            b
        } else if a <= c {
            c
        } else {
            a
        }
    } else {
        if a <= c {
            a
        } else if b <= c {
            c
        } else {
            b
        }
    }
}

/// The median in each component.
pub open spec fn median_mv(a: Mv, b: Mv, c: Mv) -> Mv {
    Mv { x: median(a.x, b.x, c.x), y: median(a.y, b.y, c.y) }
}

/// The median in each component.
pub fn mid_mv(a: Mv, b: Mv, c: Mv) -> (m: Mv)
    ensures
        m == median_mv(a, b, c),
{
    Mv { x: mid_pred(a.x, b.x, c.x), y: mid_pred(a.y, b.y, c.y) }
}

/// The sum in each component, in 32-bit arithmetic.
pub open spec fn mv_sum(a: Mv, b: Mv) -> Mv {
    Mv { x: a.x.wrapping_add(b.x), y: a.y.wrapping_add(b.y) }
}

/// The sum in each component, in 32-bit arithmetic.
pub fn add_mv(a: Mv, b: Mv) -> (m: Mv)
    ensures
        m == mv_sum(a, b),
{
    Mv { x: a.x.wrapping_add(b.x), y: a.y.wrapping_add(b.y) }
}

/// A quarter of `v`, rounded towards zero.
pub open spec fn quarter(v: i32) -> int {
    if v >= 0 {
        v as int / 4
    } else {
        -((-v) / 4)
    }
}

/// A quarter of `v`, rounded towards zero.
pub fn quarter_of(v: i32) -> (q: i32)
    ensures
        q == quarter(v),
{
    if v >= 0 {
        v / 4
    } else {
        (0 - (0 - v as i64) / 4) as i32
    }
}

/// A motion vector with what it was predicted from, in all columns: a block of `w` by `h` samples
/// around `dst_x`, `dst_y` comes from around `src_x`, `src_y`. `source` is -1 for a picture of
/// list 0 and 1 for one of list 1; `motion_x` and `motion_y` count `1 / motion_scale` samples.
#[derive(Debug, Clone, Copy, PartialEq, Eq, Structural)]
pub struct MotionVector {
    pub frame: i32,
    pub source: i32,
    pub w: i32,
    pub h: i32,
    pub src_x: i32,
    pub src_y: i32,
    pub dst_x: i32,
    pub dst_y: i32,
    pub flags: i32,
    pub motion_x: i32,
    pub motion_y: i32,
    pub motion_scale: i32,
}

/// A motion vector in six columns, with 16-bit coordinates.
#[derive(Debug, Clone, Copy, PartialEq, Eq, Structural)]
pub struct MvCompact {
    pub frame: i32,
    pub source: i32,
    pub src_x: i16,
    pub src_y: i16,
    pub dst_x: i16,
    pub dst_y: i16,
}

/// A block with its vector: the centre, the size, the list and the vector.
#[derive(Debug, Clone, Copy, PartialEq, Eq, Structural)]
pub struct Row {
    pub x: i32,
    pub y: i32,
    pub w: i32,
    pub h: i32,
    pub source: i32,
    pub mv: Mv,
}

impl Row {
    /// Where the block comes from, in whole samples.
    pub open spec fn src_x(self) -> i32 {
        self.x.wrapping_add(quarter(self.mv.x) as i32)
    }

    /// Where the block comes from, in whole samples.
    pub open spec fn src_y(self) -> i32 {
        self.y.wrapping_add(quarter(self.mv.y) as i32)
    }

    /// The row is exported: it moves by a whole sample or more, and is not of list 1 where only
    /// list 0 is wanted.
    pub open spec fn kept(self, l0_only: bool) -> bool {
        !(l0_only && self.source > 0) && !(self.src_x() == self.x && self.src_y() == self.y)
    }

    /// The row in all columns.
    pub open spec fn full(self, frame: i32) -> MotionVector {
        MotionVector {
            frame,
            source: self.source,
            w: self.w,
            h: self.h,
            src_x: self.src_x(),
            src_y: self.src_y(),
            dst_x: self.x,
            dst_y: self.y,
            flags: 0,
            motion_x: self.mv.x,
            motion_y: self.mv.y,
            motion_scale: 4,
        }
    }

    /// The row in six columns.
    pub open spec fn compact(self, frame: i32) -> MvCompact {
        MvCompact {
            frame,
            source: self.source,
            src_x: self.src_x() as i16,
            src_y: self.src_y() as i16,
            dst_x: self.x as i16,
            dst_y: self.y as i16,
        }
    }

    fn is_kept(self, l0_only: bool) -> (r: bool)
        ensures
            r == self.kept(l0_only),
    {
        if l0_only && self.source > 0 {
            return false;
        }
        let src_x = self.x.wrapping_add(quarter_of(self.mv.x));
        let src_y = self.y.wrapping_add(quarter_of(self.mv.y));
        !(src_x == self.x && src_y == self.y)
    }

    fn to_full(self, frame: i32) -> (m: MotionVector)
        ensures
            m == self.full(frame),
    {
        MotionVector {
            frame,
            source: self.source,
            w: self.w,
            h: self.h,
            src_x: self.x.wrapping_add(quarter_of(self.mv.x)),
            src_y: self.y.wrapping_add(quarter_of(self.mv.y)),
            dst_x: self.x,
            dst_y: self.y,
            flags: 0,
            motion_x: self.mv.x,
            motion_y: self.mv.y,
            motion_scale: 4,
        }
    }

    #[verifier::truncate]
    fn to_compact(self, frame: i32) -> (m: MvCompact)
        ensures
            m == self.compact(frame),
    {
        MvCompact {
            frame,
            source: self.source,
            src_x: self.x.wrapping_add(quarter_of(self.mv.x)) as i16,
            src_y: self.y.wrapping_add(quarter_of(self.mv.y)) as i16,
            dst_x: self.x as i16,
            dst_y: self.y as i16,
        }
    }
}

/// The rows that are exported.
pub open spec fn kept_rows(rows: Seq<Row>, l0_only: bool) -> Seq<Row> {
    rows.filter(|r: Row| r.kept(l0_only))
}

/// The rows that are exported, in all columns.
pub open spec fn full_rows(rows: Seq<Row>, frame: i32, l0_only: bool) -> Seq<MotionVector> {
    kept_rows(rows, l0_only).map_values(|r: Row| r.full(frame))
}

/// The rows that are exported, in six columns.
pub open spec fn compact_rows(rows: Seq<Row>, frame: i32, l0_only: bool) -> Seq<MvCompact> {
    kept_rows(rows, l0_only).map_values(|r: Row| r.compact(frame))
}

proof fn lemma_kept_push(rows: Seq<Row>, i: int, l0_only: bool)
    requires
        0 <= i < rows.len(),
    ensures
        kept_rows(rows.take(i + 1), l0_only) == (if rows[i].kept(l0_only) {
            kept_rows(rows.take(i), l0_only).push(rows[i])
        } else {
            kept_rows(rows.take(i), l0_only)
        }),
{
    reveal(Seq::filter);
    assert(rows.take(i + 1).drop_last() =~= rows.take(i));
}

/// Appends the rows that are exported, in all columns.
pub fn push_full(rows: &Vec<Row>, frame: i32, l0_only: bool, out: &mut Vec<MotionVector>)
    ensures
        final(out)@ == old(out)@ + full_rows(rows@, frame, l0_only),
{
    let ghost start = out@;
    let mut i: usize = 0;
    proof {
        reveal(Seq::filter);
        assert(rows@.take(0) =~= Seq::<Row>::empty());
        assert(out@ =~= start + full_rows(rows@.take(0), frame, l0_only));
    }
    while i < rows.len()
        invariant
            i <= rows@.len(),
            out@ == start + full_rows(rows@.take(i as int), frame, l0_only),
        decreases rows@.len() - i,
    {
        proof {
            lemma_kept_push(rows@, i as int, l0_only);
        }
        if rows[i].is_kept(l0_only) {
            out.push(rows[i].to_full(frame));
        }
        i += 1;
        assert(out@ =~= start + full_rows(rows@.take(i as int), frame, l0_only));
    }
    assert(rows@.take(i as int) =~= rows@);
}

/// Appends the rows that are exported, in six columns.
pub fn push_compact(rows: &Vec<Row>, frame: i32, l0_only: bool, out: &mut Vec<MvCompact>)
    ensures
        final(out)@ == old(out)@ + compact_rows(rows@, frame, l0_only),
{
    let ghost start = out@;
    let mut i: usize = 0;
    proof {
        reveal(Seq::filter);
        assert(rows@.take(0) =~= Seq::<Row>::empty());
        assert(out@ =~= start + compact_rows(rows@.take(0), frame, l0_only));
    }
    while i < rows.len()
        invariant
            i <= rows@.len(),
            out@ == start + compact_rows(rows@.take(i as int), frame, l0_only),
        decreases rows@.len() - i,
    {
        proof {
            lemma_kept_push(rows@, i as int, l0_only);
        }
        if rows[i].is_kept(l0_only) {
            out.push(rows[i].to_compact(frame));
        }
        i += 1;
        assert(out@ =~= start + compact_rows(rows@.take(i as int), frame, l0_only));
    }
    assert(rows@.take(i as int) =~= rows@);
}

/// Both formats export the same rows, and no row without displacement: the full rows, with their
/// coordinates cut to 16 bits, are the compact rows.
pub proof fn law_formats_agree(rows: Seq<Row>, frame: i32, l0_only: bool)
    ensures
        compact_rows(rows, frame, l0_only).len() == full_rows(rows, frame, l0_only).len(),
        forall|i: int|
            0 <= i < full_rows(rows, frame, l0_only).len() ==> {
                let f = #[trigger] full_rows(rows, frame, l0_only)[i];
                let c = compact_rows(rows, frame, l0_only)[i];
                &&& c.frame == f.frame && c.source == f.source
                &&& c.src_x == f.src_x as i16 && c.src_y == f.src_y as i16
                &&& c.dst_x == f.dst_x as i16 && c.dst_y == f.dst_y as i16
                &&& !(f.src_x == f.dst_x && f.src_y == f.dst_y)
            },
{
    assert forall|i: int| 0 <= i < kept_rows(rows, l0_only).len() implies (#[trigger] kept_rows(
        rows,
        l0_only,
    )[i]).kept(l0_only) by {
        rows.lemma_filter_pred(|r: Row| r.kept(l0_only), i);
    }
}

/// Exporting list 0 only is exporting everything and dropping the rows of list 1.
pub proof fn law_l0_only_drops_list1(rows: Seq<Row>)
    ensures
        kept_rows(rows, true) == kept_rows(rows, false).filter(|r: Row| r.source <= 0),
    decreases rows.len(),
{
    reveal(Seq::filter);
    if rows.len() > 0 {
        law_l0_only_drops_list1(rows.drop_last());
        let rest = kept_rows(rows.drop_last(), false);
        if rows.last().kept(false) {
            assert(rest.push(rows.last()).drop_last() =~= rest);
        }
    }
}

/// The median is one of the three numbers, two of them are at most it and two at least it; and it
/// is what is left of their sum without the smallest and the largest.
pub proof fn law_median(a: i32, b: i32, c: i32)
    ensures
        ({
            let m = median(a, b, c);
            let low = if a <= b && a <= c {
                a
            } else if b <= c {
                b
            } else {
                c
            };
            let high = if a >= b && a >= c {
                a
            } else if b >= c {
                b
            } else {
                c
            };
            &&& m == a || m == b || m == c
            &&& low <= m <= high
            &&& m == a + b + c - low - high
        }),
        median(a, b, c) == median(b, a, c),
        median(a, b, c) == median(a, c, b),
{
}

} // verus!
