//! Wire protocol between the mock-loop / pneumatic-heart test rig controller and its host.
//!
//! Protocol version: the setpoint uses independent per-subsystem switches (each
//! subsystem setpoint is optional), and the default systole ratio is 3/7.
//! Floating-point quantities are carried as their IEEE-754 single-precision bit
//! patterns, in the canonical unit of their dimension.
pub mod bytes;
pub mod codec;
pub mod frame;
pub mod quantity;
pub mod schema;
pub mod state;
pub mod wire;

pub use crate::codec::{
    decode_measurements, decode_report, decode_setpoint, encode_measurements, encode_report,
    encode_setpoint, report_len, setpoint_len, CodecError, MEASUREMENTS_BYTES, REPORT_BYTES,
    SETPOINT_BYTES,
};
pub use crate::frame::{frame_payload, next_delimiter, unframe, FRAME_OVERHEAD, MAX_PAYLOAD_BYTES};
pub use crate::quantity::{Frequency, Pressure, VolumeRate, MAX_BITS, ZERO_BITS};
pub use crate::schema::{
    HeartControllerSetpoint, Measurements, MockloopSetpoint, Report, Setpoint, BAUDRATE,
    SYSTOLE_RATIO_DEFAULT_BITS,
};
pub use crate::state::AppState;
pub use crate::wire::{
    deserialize_report, deserialize_setpoint, serialize_report, serialize_setpoint,
    REPORT_FRAME_BYTES, SETPOINT_FRAME_BYTES,
};
