//! Battery voltage in millivolts, from a sample of the analog converter.

use vstd::prelude::*;

verus! {

/// Converter counts per volt at the pin: 4095 counts over 3300 mV, rounded
/// down.
pub const ADC_SCALE: i32 = 1240;

/// Millivolts in a volt.
pub const MV_PER_VOLT: i32 = 1000;

/// The quotient of `a` by `b`, rounded towards zero.
pub open spec fn quotient_towards_zero(a: int, b: int) -> int
    recommends
        b > 0,
{
    if a >= 0 {
        a / b
    } else {
        -((-a) / b)
    }
}

/// The battery voltage in millivolts for a converter sample. The pin sees
/// half the battery voltage, so the sample counts twice.
pub open spec fn spec_millivolts(sample: i16) -> int {
    quotient_towards_zero(sample * 2 * MV_PER_VOLT, ADC_SCALE as int)
}

/// The battery voltage in millivolts for a converter sample.
pub fn millivolts(sample: i16) -> (mv: i32)
    ensures
        mv == spec_millivolts(sample),
{
    (sample as i32 * 2 * MV_PER_VOLT) / ADC_SCALE
}

} // verus!
