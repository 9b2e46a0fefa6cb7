//! Battery voltage as a fixed-point number, from a sample of the analog
//! converter.
//!
//! The voltage is a `U4F12` of the `fixed` crate: sixteen bits, of which the
//! low twelve hold the fraction. This module works on the bits.

use vstd::prelude::*;

verus! {

/// The bits of a converter sample read as an unsigned number: the sample
/// itself, or, for a negative sample, the sample raised by 65536.
pub open spec fn sample_bits(sample: i16) -> int {
    if sample >= 0 {
        sample as int
    } else {
        sample + 0x1_0000
    }
}

/// The bits of the voltage for a converter sample: one more than the sample,
/// halved, taken by ten and then 33 times, each quotient rounded down.
pub open spec fn spec_voltage_bits(sample: i16) -> int {
    (sample_bits(sample) + 1) / 2 / 10 * 33
}

/// Whether the voltage for `sample` fits the sixteen bits of the result.
pub open spec fn spec_voltage_fits(sample: i16) -> bool {
    sample_bits(sample) + 1 <= u16::MAX && spec_voltage_bits(sample) <= u16::MAX
}

/// The sample with its sixteen bits read as an unsigned number.
fn unsigned_sample(sample: i16) -> (bits: u16)
    ensures
        bits == sample_bits(sample),
{
    let bits = sample as u16;
    assert(bits == sample_bits(sample)) by (bit_vector)
        requires
            bits == sample as u16,
    ;
    bits
}

/// Whether the voltage for `sample` fits the sixteen bits of the result.
#[verifier::when_used_as_spec(spec_voltage_fits)]
pub fn voltage_fits(sample: i16) -> (fits: bool)
    ensures
        fits == spec_voltage_fits(sample),
{
    let raw: u32 = unsigned_sample(sample) as u32 + 1;
    raw <= 0xFFFF && raw / 2 / 10 * 33 <= 0xFFFF
}

/// Divides a `fixed::types::U4F12` by an integer, with the `/` of `fixed`.
///
/// Believed of `fixed`: the bits of the quotient are the bits of the number
/// divided by the integer, rounded down. A divisor of 0 is left out.
#[verifier::external_body]
fn fixed_div_int(bits: u16, divisor: u16) -> (r: u16)
    requires
        divisor != 0,
    ensures
        r == bits / divisor,
{
    (fixed::types::U4F12::from_bits(bits) / divisor).to_bits()
}

/// Multiplies a `fixed::types::U4F12` by an integer, with the `*` of `fixed`.
///
/// Believed of `fixed`: the bits of the product are the bits of the number
/// times the integer. A product beyond sixteen bits is left out.
#[verifier::external_body]
fn fixed_mul_int(bits: u16, factor: u16) -> (r: u16)
    requires
        bits * factor <= u16::MAX,
    ensures
        r == bits * factor,
{
    (fixed::types::U4F12::from_bits(bits) * factor).to_bits()
}

/// The bits of the battery voltage, a `U4F12`, for a converter sample.
pub fn voltage_bits(sample: i16) -> (bits: u16)
    requires
        voltage_fits(sample),
    ensures
        bits == spec_voltage_bits(sample),
{
    let raw = unsigned_sample(sample) + 1;
    let halved = fixed_div_int(raw, 2);
    let tenth = fixed_div_int(halved, 10);
    fixed_mul_int(tenth, 33)
}

} // verus!
