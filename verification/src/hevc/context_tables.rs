//! Initialisation values of the CABAC contexts of H.265 slices.

use vstd::prelude::*;

verus! {

/// The initialisation value of a context: type 0 for I slices, 1 and 2 for P and B slices.
pub open spec fn init_value_of(init_type: int, ctx: int) -> u8 {
    if init_type == 0 {
        INIT_I[ctx]
    } else if init_type == 1 {
        INIT_P[ctx]
    } else {
        INIT_B[ctx]
    }
}

/// The initialisation value of a context.
pub fn init_value(init_type: usize, ctx: usize) -> (v: u8)
    requires
        ctx < 179,
    ensures
        v == init_value_of(init_type as int, ctx as int),
{
    if init_type == 0 {
        INIT_I[ctx]
    } else if init_type == 1 {
        INIT_P[ctx]
    } else {
        INIT_B[ctx]
    }
}

/// I slices.
pub const INIT_I: [u8; 179] = [
    153, 200, 139, 141, 157, 154, 154, 154, 154, 154, 154, 154, 154, 184, 154, 154, 154, 184, 63,
    139, 154, 154, 154, 154, 154, 154, 154, 154, 154, 154, 154, 154, 154, 154, 154, 154, 154, 153,
    138, 138, 111, 141, 94, 138, 182, 154, 154, 139, 139, 139, 139, 139, 139, 110, 110, 124, 125,
    140, 153, 125, 127, 140, 109, 111, 143, 127, 111, 79, 108, 123, 63, 110, 110, 124, 125, 140,
    153, 125, 127, 140, 109, 111, 143, 127, 111, 79, 108, 123, 63, 91, 171, 134, 141, 111, 111, 125,
    110, 110, 94, 124, 108, 124, 107, 125, 141, 179, 153, 125, 107, 125, 141, 179, 153, 125, 107,
    125, 141, 179, 153, 125, 140, 139, 182, 182, 152, 136, 152, 136, 153, 136, 139, 111, 136, 139,
    111, 141, 111, 140, 92, 137, 138, 140, 152, 138, 139, 153, 74, 149, 92, 139, 107, 122, 152, 140,
    179, 166, 182, 140, 227, 122, 197, 138, 153, 136, 167, 152, 152, 154, 154, 154, 154, 154, 154,
    154, 154, 154, 154, 154, 154,
];

/// P slices.
pub const INIT_P: [u8; 179] = [
    153, 185, 107, 139, 126, 154, 197, 185, 201, 154, 154, 154, 149, 154, 139, 154, 154, 154, 152,
    139, 110, 122, 95, 79, 63, 31, 31, 153, 153, 153, 153, 140, 198, 140, 198, 168, 79, 124, 138,
    94, 153, 111, 149, 107, 167, 154, 154, 139, 139, 139, 139, 139, 139, 125, 110, 94, 110, 95, 79,
    125, 111, 110, 78, 110, 111, 111, 95, 94, 108, 123, 108, 125, 110, 94, 110, 95, 79, 125, 111,
    110, 78, 110, 111, 111, 95, 94, 108, 123, 108, 121, 140, 61, 154, 155, 154, 139, 153, 139, 123,
    123, 63, 153, 166, 183, 140, 136, 153, 154, 166, 183, 140, 136, 153, 154, 166, 183, 140, 136,
    153, 154, 170, 153, 123, 123, 107, 121, 107, 121, 167, 151, 183, 140, 151, 183, 140, 140, 140,
    154, 196, 196, 167, 154, 152, 167, 182, 182, 134, 149, 136, 153, 121, 136, 137, 169, 194, 166,
    167, 154, 167, 137, 182, 107, 167, 91, 122, 107, 167, 154, 154, 154, 154, 154, 154, 154, 154,
    154, 154, 154, 154,
];

/// B slices.
pub const INIT_B: [u8; 179] = [
    153, 160, 107, 139, 126, 154, 197, 185, 201, 154, 154, 154, 134, 154, 139, 154, 154, 183, 152,
    139, 154, 137, 95, 79, 63, 31, 31, 153, 153, 153, 153, 169, 198, 169, 198, 168, 79, 224, 167,
    122, 153, 111, 149, 92, 167, 154, 154, 139, 139, 139, 139, 139, 139, 125, 110, 124, 110, 95, 94,
    125, 111, 111, 79, 125, 126, 111, 111, 79, 108, 123, 93, 125, 110, 124, 110, 95, 94, 125, 111,
    111, 79, 125, 126, 111, 111, 79, 108, 123, 93, 121, 140, 61, 154, 170, 154, 139, 153, 139, 123,
    123, 63, 124, 166, 183, 140, 136, 153, 154, 166, 183, 140, 136, 153, 154, 166, 183, 140, 136,
    153, 154, 170, 153, 138, 138, 122, 121, 122, 121, 167, 151, 183, 140, 151, 183, 140, 140, 140,
    154, 196, 167, 167, 154, 152, 167, 182, 182, 134, 149, 136, 153, 121, 136, 122, 169, 208, 166,
    167, 154, 152, 167, 182, 107, 167, 91, 107, 107, 167, 154, 154, 154, 154, 154, 154, 154, 154,
    154, 154, 154, 154,
];

} // verus!
