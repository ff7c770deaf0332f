//! The messages exchanged between controller and host.
use vstd::prelude::*;

use crate::quantity::{Frequency, Pressure, VolumeRate, MAX_BITS, ZERO_BITS};
use crate::state::AppState;

verus! {

/// Bit pattern of the single-precision value nearest to 3/7.
pub const SYSTOLE_RATIO_DEFAULT_BITS: u32 = 0x3edb_6db7;

/// Serial link speed, in baud.
pub const BAUDRATE: u32 = 115200;

/// Setpoint for the mock-loop hemodynamics controller. Each field is the bit
/// pattern of a single-precision value.
#[derive(Clone, Copy, Debug, PartialEq, Eq, Structural)]
pub struct MockloopSetpoint {
    pub systemic_resistance: u32,
    pub pulmonary_resistance: u32,
    pub systemic_afterload_compliance: u32,
    pub pulmonary_afterload_compliance: u32,
}

/// Setpoint for the pneumatic heart prototype controller.
#[derive(Clone, Copy, Debug, PartialEq, Eq, Structural)]
pub struct HeartControllerSetpoint {
    /// Desired heart rate.
    pub heart_rate: Frequency,
    /// Desired regulator pressure.
    pub pressure: Pressure,
    /// Bit pattern of the ratio of systole duration to the whole cardiac cycle.
    pub systole_ratio: u32,
}

/// Setpoint pushed by the host. An absent subsystem setpoint disables that subsystem.
#[derive(Clone, Copy, Debug, PartialEq, Eq, Structural)]
pub struct Setpoint {
    pub mockloop_setpoint: Option<MockloopSetpoint>,
    pub heart_controller_setpoint: Option<HeartControllerSetpoint>,
}

/// One snapshot of the rig's sensors.
#[derive(Clone, Copy, Debug, PartialEq, Eq, Structural)]
pub struct Measurements {
    /// Milliseconds since the controller booted.
    pub timestamp: u64,
    pub regulator_actual_pressure: Pressure,
    pub systemic_flow: VolumeRate,
    pub pulmonary_flow: VolumeRate,
    pub systemic_preload_pressure: Pressure,
    pub systemic_afterload_pressure: Pressure,
    pub pulmonary_preload_pressure: Pressure,
    pub pulmonary_afterload_pressure: Pressure,
}

/// What the controller reports each cycle.
#[derive(Clone, Copy, Debug, PartialEq, Eq, Structural)]
pub struct Report {
    pub setpoint: Setpoint,
    pub app_state: AppState,
    pub measurements: Measurements,
}

impl MockloopSetpoint {
    /// Inert setpoint: largest representable resistances, zero compliances.
    pub fn default() -> (r: MockloopSetpoint)
        ensures
            r.systemic_resistance == MAX_BITS,
            r.pulmonary_resistance == MAX_BITS,
            r.systemic_afterload_compliance == ZERO_BITS,
            r.pulmonary_afterload_compliance == ZERO_BITS,
    {
        MockloopSetpoint {
            systemic_resistance: MAX_BITS,
            pulmonary_resistance: MAX_BITS,
            systemic_afterload_compliance: ZERO_BITS,
            pulmonary_afterload_compliance: ZERO_BITS,
        }
    }
}

impl HeartControllerSetpoint {
    /// Inert setpoint: zero rate, zero pressure, the conventional systole ratio.
    pub fn default() -> (r: HeartControllerSetpoint)
        ensures
            r.heart_rate.hertz_bits == ZERO_BITS,
            r.pressure.pascal_bits == ZERO_BITS,
            r.systole_ratio == SYSTOLE_RATIO_DEFAULT_BITS,
    {
        HeartControllerSetpoint {
            heart_rate: Frequency::zero(),
            pressure: Pressure::zero(),
            systole_ratio: SYSTOLE_RATIO_DEFAULT_BITS,
        }
    }
}

impl Setpoint {
    /// Both subsystems disabled.
    pub fn default() -> (r: Setpoint)
        ensures
            r.mockloop_setpoint is None,
            r.heart_controller_setpoint is None,
    {
        Setpoint { mockloop_setpoint: None, heart_controller_setpoint: None }
    }
}

} // verus!
