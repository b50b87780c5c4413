//! Syntax structures as rows of elements.

use crate::bits::Bits;
use vstd::prelude::*;

verus! {

/// An element of a syntax structure: an unsigned or a signed Exp-Golomb code, a number of some bits, or a
/// flag.
pub enum Element {
    Ue,
    Se,
    U(u32),
    Flag,
}

/// The value of an element and the reader behind it. A flag that is set has the value 1.
pub open spec fn element(b: Bits, e: Element) -> (int, Bits) {
    match e {
        Element::Ue => (b.ue().0 as int, b.ue().1),
        Element::Se => (b.se().0 as int, b.se().1),
        Element::U(n) => (b.u(n).0 as int, b.u(n).1),
        Element::Flag => (
            if b.flag().0 {
                1
            } else {
                0
            },
            b.flag().1,
        ),
    }
}

/// The reader before element `k` of a row.
pub open spec fn before(b: Bits, row: Seq<Element>, k: nat) -> Bits
    decreases k,
{
    if k == 0 {
        b
    } else {
        element(before(b, row, (k - 1) as nat), row[k - 1]).1
    }
}

/// The value of element `k` of a row.
pub open spec fn value(b: Bits, row: Seq<Element>, k: int) -> int {
    element(before(b, row, k as nat), row[k]).0
}

/// Flag `k` of a row is set.
pub open spec fn is_set(b: Bits, row: Seq<Element>, k: int) -> bool {
    value(b, row, k) == 1
}

} // verus!
