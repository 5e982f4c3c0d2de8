//! Decoding of raw sensor readings.

use vstd::prelude::*;

verus! {

/// Value of a 12-bit two's-complement temperature reading taken from the
/// two bytes of a sensor register: the top 12 bits of the 16-bit word,
/// sign-extended by subtracting 4096 when the raw value exceeds 2047.
pub open spec fn temp_of_raw(b0: u8, b1: u8) -> int {
    let raw = b0 * 16 + b1 / 16;
    if raw > 2047 {
        raw - 4096
    } else {
        raw
    }
}

/// Decode a two-byte sensor register read into a temperature in the
/// sensor's native units.
pub fn temp_from_raw(b0: u8, b1: u8) -> (t: i32)
    ensures
        t == temp_of_raw(b0, b1),
        -2048 <= t <= 2047,
{
    let raw: u16 = (b0 as u16) * 16 + (b1 as u16) / 16;
    if raw > 2047 {
        raw as i32 - 4096
    } else {
        raw as i32
    }
}

} // verus!
