//! Temperatures in fixed point and timestamped readings.

use vstd::prelude::*;

verus! {

/// Reference voltage of the converter, in millivolts.
pub const ADC_REFERENCE_MILLIVOLTS: u32 = 3300;

/// Largest code of the 12-bit converter.
pub const ADC_FULL_SCALE: u32 = 4095;

/// Sensor sensitivity, in millivolts per degree Celsius.
pub const SENSOR_MILLIVOLTS_PER_DEGREE: u32 = 10;

/// A temperature in thousandths of a degree Celsius.
#[derive(Clone, Copy, Debug, PartialEq, Eq, Structural)]
pub struct Temperature {
    pub millicelsius: i32,
}

/// What a raw converter code stands for, in thousandths of a degree: the code
/// scaled to a voltage against the reference, then divided by the sensor's
/// sensitivity, rounded down.
pub open spec fn sensor_millicelsius(adc_value: u16) -> int {
    (adc_value as int * ADC_REFERENCE_MILLIVOLTS as int * 1000) / (ADC_FULL_SCALE as int
        * SENSOR_MILLIVOLTS_PER_DEGREE as int)
}

impl Temperature {
    /// A temperature of `millicelsius` thousandths of a degree.
    pub fn new(millicelsius: i32) -> (t: Temperature)
        ensures
            t.millicelsius == millicelsius,
    {
        Temperature { millicelsius }
    }

    /// The temperature that a raw code of the converter stands for.
    pub fn from_embedded_sensor(adc_value: u16) -> (t: Temperature)
        ensures
            t.millicelsius == sensor_millicelsius(adc_value),
    {
        let scaled: u64 = adc_value as u64 * 3_300_000;
        let millis: u64 = scaled / 40_950;
        Temperature { millicelsius: millis as i32 }
    }
}

} // verus!
