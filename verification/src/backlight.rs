//! Brightness of the display backlight.
//!
//! Three lines, each through a resistor of its own, switch the backlight.
//! Together they carry the brightness as a three-bit number.

use vstd::prelude::*;

verus! {

/// The highest brightness. Any higher request is taken as this one.
pub const MAX_BRIGHTNESS: u8 = 7;

/// Which of the three backlight lines are switched on.
#[derive(Clone, Copy, Debug, PartialEq, Eq, Structural)]
pub struct BacklightLevels {
    pub low: bool,
    pub mid: bool,
    pub high: bool,
}

impl BacklightLevels {
    /// The brightness that the lines carry: `low` counts 1, `mid` 2 and
    /// `high` 4.
    pub open spec fn brightness(self) -> int {
        let low: int = if self.low { 1 } else { 0 };
        let mid: int = if self.mid { 2 } else { 0 };
        let high: int = if self.high { 4 } else { 0 };
        low + mid + high
    }

    /// The lines to switch on for `brightness`, from 0 (off) to 7. A higher
    /// value gives the lines for 7.
    pub fn for_brightness(brightness: u8) -> (levels: BacklightLevels)
        ensures
            levels.brightness() == if brightness > MAX_BRIGHTNESS {
                MAX_BRIGHTNESS
            } else {
                brightness
            },
    {
        let level: u8 = if brightness > MAX_BRIGHTNESS {
            MAX_BRIGHTNESS
        } else {
            brightness
        };
        let low = level & 0x01 > 0;
        let mid = level & 0x02 > 0;
        let high = level & 0x04 > 0;
        assert(level <= 7 ==> level == (if level & 0x01 > 0 { 1u8 } else { 0u8 }) + (if level & 0x02
            > 0 { 2u8 } else { 0u8 }) + (if level & 0x04 > 0 { 4u8 } else { 0u8 })) by (bit_vector);
        BacklightLevels { low, mid, high }
    }
}

} // verus!
