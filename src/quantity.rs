//! Physical quantities, one type per dimension.
//!
//! Each quantity holds the IEEE-754 single-precision bit pattern of its magnitude in
//! the canonical unit of its dimension (hertz, pascal, cubic metre per second). The
//! bit pattern is also what goes on the wire, so a value never drifts between
//! encoding and decoding. Distinct types keep dimensions apart: a pressure cannot be
//! passed where a frequency is expected.
use vstd::prelude::*;

verus! {

/// Bit pattern of single-precision zero.
pub const ZERO_BITS: u32 = 0;

/// Bit pattern of the largest finite single-precision value.
pub const MAX_BITS: u32 = 0x7f7f_ffff;

/// A frequency, in hertz.
#[derive(Clone, Copy, Debug, PartialEq, Eq, Structural)]
pub struct Frequency {
    pub hertz_bits: u32,
}

/// A pressure, in pascal.
#[derive(Clone, Copy, Debug, PartialEq, Eq, Structural)]
pub struct Pressure {
    pub pascal_bits: u32,
}

/// A volumetric flow rate, in cubic metres per second.
#[derive(Clone, Copy, Debug, PartialEq, Eq, Structural)]
pub struct VolumeRate {
    pub cubic_meter_per_second_bits: u32,
}

impl Frequency {
    pub fn from_bits(bits: u32) -> (r: Frequency)
        ensures
            r.hertz_bits == bits,
    {
        Frequency { hertz_bits: bits }
    }

    pub fn to_bits(self) -> (r: u32)
        ensures
            r == self.hertz_bits,
    {
        self.hertz_bits
    }

    pub fn zero() -> (r: Frequency)
        ensures
            r.hertz_bits == ZERO_BITS,
    {
        Frequency { hertz_bits: ZERO_BITS }
    }
}

impl Pressure {
    pub fn from_bits(bits: u32) -> (r: Pressure)
        ensures
            r.pascal_bits == bits,
    {
        Pressure { pascal_bits: bits }
    }

    pub fn to_bits(self) -> (r: u32)
        ensures
            r == self.pascal_bits,
    {
        self.pascal_bits
    }

    pub fn zero() -> (r: Pressure)
        ensures
            r.pascal_bits == ZERO_BITS,
    {
        Pressure { pascal_bits: ZERO_BITS }
    }
}

impl VolumeRate {
    pub fn from_bits(bits: u32) -> (r: VolumeRate)
        ensures
            r.cubic_meter_per_second_bits == bits,
    {
        VolumeRate { cubic_meter_per_second_bits: bits }
    }

    pub fn to_bits(self) -> (r: u32)
        ensures
            r == self.cubic_meter_per_second_bits,
    {
        self.cubic_meter_per_second_bits
    }

    pub fn zero() -> (r: VolumeRate)
        ensures
            r.cubic_meter_per_second_bits == ZERO_BITS,
    {
        VolumeRate { cubic_meter_per_second_bits: ZERO_BITS }
    }
}

} // verus!
