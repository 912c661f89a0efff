use vstd::prelude::*;
use vstd::arithmetic::div_mod::lemma_div_is_ordered;

verus! {

/// Number of faces in the tile palette.
pub const DICE_NUM: u8 = 6;

/// The palette index selected for an average intensity in `[0, 255]`.
///
/// The range `[0, 255]` is split into `DICE_NUM` bands of width `255 /
/// DICE_NUM` (a real-valued width of 42.5, so a band holds every intensity
/// `v` with `ceil(v / 42.5) == k`, and `ceil(v / 42.5)` is computed exactly
/// over the integers as `(2v + 84) / 85`). Darker intensity means a higher
/// index: intensity 0 would fall one past the last band and is clamped to the
/// darkest face, `DICE_NUM - 1`.
pub open spec fn face_spec(value: int) -> int {
    if value <= 0 {
        DICE_NUM - 1
    } else {
        DICE_NUM - (2 * value + 84) / 85
    }
}

/// Map an average intensity to a palette index (the Face Mapper).
pub fn dice_face(value: u8) -> (face: u8)
    ensures
        face == face_spec(value as int),
        face < DICE_NUM,
{
    if value == 0 {
        DICE_NUM - 1
    } else {
        let ceil_bands: u32 = (2 * (value as u32) + 84) / 85;
        assert(1 <= ceil_bands <= 6);
        DICE_NUM - (ceil_bands as u8)
    }
}

/// The Face Mapper never leaves the palette: `0 <= face_spec(v) < DICE_NUM`
/// for every intensity, the clamped `v == 0` boundary included.
pub proof fn lemma_face_in_range(value: int)
    requires
        0 <= value <= 255,
    ensures
        0 <= face_spec(value) < DICE_NUM,
{
    if value > 0 {
        assert(2 <= 2 * value + 84 <= 594);
        assert(1 <= (2 * value + 84) / 85 <= 6);
    }
}

/// The Face Mapper is monotonic non-increasing in intensity: a strictly
/// brighter average never selects a strictly darker (higher-indexed) face.
pub proof fn lemma_face_monotonic(a: int, b: int)
    requires
        0 <= b < a <= 255,
    ensures
        face_spec(a) <= face_spec(b),
{
    lemma_face_in_range(a);
    lemma_face_in_range(b);
    if b > 0 {
        lemma_div_is_ordered(2 * b + 84, 2 * a + 84, 85);
    }
}

} // verus!
