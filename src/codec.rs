//! Binary codec: a fixed, field-ordered encoding of the messages.
//!
//! Integers and floating-point bit patterns are written little-endian at their full
//! width, an `Option` is a presence byte (0 or 1) followed by the payload when
//! present, and an `AppState` is one discriminant byte. Structures are their fields
//! in declaration order, without length prefixes.
use vstd::prelude::*;

use crate::bytes::{
    get_u32, get_u64, lemma_splice_twice, lemma_u32_at, lemma_u32_le_at, lemma_u64_at,
    lemma_u64_le_at, put_u32, put_u64, put_u8,
    splice, u32_at, u32_le, u64_at, u64_le,
};
use crate::quantity::{Frequency, Pressure, VolumeRate};
use crate::schema::{HeartControllerSetpoint, Measurements, MockloopSetpoint, Report, Setpoint};
use crate::state::AppState;

verus! {

/// Encoded size of a `MockloopSetpoint`.
pub const MOCKLOOP_BYTES: usize = 16;

/// Encoded size of a `HeartControllerSetpoint`.
pub const HEART_BYTES: usize = 12;

/// Encoded size of a `Measurements`.
pub const MEASUREMENTS_BYTES: usize = 36;

/// Largest encoded size of a `Setpoint`.
pub const SETPOINT_BYTES: usize = 1 + MOCKLOOP_BYTES + 1 + HEART_BYTES;

/// Largest encoded size of a `Report`.
pub const REPORT_BYTES: usize = SETPOINT_BYTES + 1 + MEASUREMENTS_BYTES;

/// Why encoding or decoding failed.
#[derive(Clone, Copy, Debug, PartialEq, Eq, Structural)]
pub enum CodecError {
    /// The output buffer cannot hold the encoding.
    BufferTooSmall,
    /// The input ended in the middle of a value.
    UnexpectedEnd,
    /// A presence flag or enum tag is outside its known range.
    InvalidDiscriminant,
    /// A frame's byte stuffing is malformed.
    FrameCorrupt,
}

// ---- encodings ----

pub open spec fn mockloop_bytes(m: MockloopSetpoint) -> Seq<u8> {
    u32_le(m.systemic_resistance) + u32_le(m.pulmonary_resistance) + u32_le(
        m.systemic_afterload_compliance,
    ) + u32_le(m.pulmonary_afterload_compliance)
}

pub open spec fn heart_bytes(h: HeartControllerSetpoint) -> Seq<u8> {
    u32_le(h.heart_rate.hertz_bits) + u32_le(h.pressure.pascal_bits) + u32_le(h.systole_ratio)
}

pub open spec fn opt_mockloop_bytes(o: Option<MockloopSetpoint>) -> Seq<u8> {
    match o {
        None => seq![0u8],
        Some(m) => seq![1u8] + mockloop_bytes(m),
    }
}

pub open spec fn opt_heart_bytes(o: Option<HeartControllerSetpoint>) -> Seq<u8> {
    match o {
        None => seq![0u8],
        Some(h) => seq![1u8] + heart_bytes(h),
    }
}

/// The encoding of a setpoint.
pub open spec fn setpoint_bytes(s: Setpoint) -> Seq<u8> {
    opt_mockloop_bytes(s.mockloop_setpoint) + opt_heart_bytes(s.heart_controller_setpoint)
}

/// The discriminant byte of a mode.
pub open spec fn app_state_byte(a: AppState) -> u8 {
    match a {
        AppState::StandBy => 0u8,
        AppState::Running => 1u8,
        AppState::Fault => 2u8,
    }
}

/// The encoding of a measurement snapshot.
pub open spec fn measurements_bytes(m: Measurements) -> Seq<u8> {
    u64_le(m.timestamp) + u32_le(m.regulator_actual_pressure.pascal_bits) + u32_le(
        m.systemic_flow.cubic_meter_per_second_bits,
    ) + u32_le(m.pulmonary_flow.cubic_meter_per_second_bits) + u32_le(
        m.systemic_preload_pressure.pascal_bits,
    ) + u32_le(m.systemic_afterload_pressure.pascal_bits) + u32_le(
        m.pulmonary_preload_pressure.pascal_bits,
    ) + u32_le(m.pulmonary_afterload_pressure.pascal_bits)
}

/// The encoding of a report.
pub open spec fn report_bytes(r: Report) -> Seq<u8> {
    setpoint_bytes(r.setpoint) + seq![app_state_byte(r.app_state)] + measurements_bytes(
        r.measurements,
    )
}

// ---- parsers: what decoding `s` from position `p` gives ----

pub open spec fn parse_mockloop(s: Seq<u8>, p: nat) -> Result<(MockloopSetpoint, nat), CodecError> {
    if p + 16 <= s.len() {
        Ok(
            (
                MockloopSetpoint {
                    systemic_resistance: u32_at(s, p as int),
                    pulmonary_resistance: u32_at(s, p + 4int),
                    systemic_afterload_compliance: u32_at(s, p + 8int),
                    pulmonary_afterload_compliance: u32_at(s, p + 12int),
                },
                p + 16,
            ),
        )
    } else {
        Err(CodecError::UnexpectedEnd)
    }
}

pub open spec fn parse_heart(s: Seq<u8>, p: nat) -> Result<
    (HeartControllerSetpoint, nat),
    CodecError,
> {
    if p + 12 <= s.len() {
        Ok(
            (
                HeartControllerSetpoint {
                    heart_rate: Frequency { hertz_bits: u32_at(s, p as int) },
                    pressure: Pressure { pascal_bits: u32_at(s, p + 4int) },
                    systole_ratio: u32_at(s, p + 8int),
                },
                p + 12,
            ),
        )
    } else {
        Err(CodecError::UnexpectedEnd)
    }
}

pub open spec fn parse_opt_mockloop(s: Seq<u8>, p: nat) -> Result<
    (Option<MockloopSetpoint>, nat),
    CodecError,
> {
    if p >= s.len() {
        Err(CodecError::UnexpectedEnd)
    } else if s[p as int] == 0 {
        Ok((None, p + 1))
    } else if s[p as int] == 1 {
        match parse_mockloop(s, p + 1) {
            Ok((m, q)) => Ok((Some(m), q)),
            Err(e) => Err(e),
        }
    } else {
        Err(CodecError::InvalidDiscriminant)
    }
}

pub open spec fn parse_opt_heart(s: Seq<u8>, p: nat) -> Result<
    (Option<HeartControllerSetpoint>, nat),
    CodecError,
> {
    if p >= s.len() {
        Err(CodecError::UnexpectedEnd)
    } else if s[p as int] == 0 {
        Ok((None, p + 1))
    } else if s[p as int] == 1 {
        match parse_heart(s, p + 1) {
            Ok((h, q)) => Ok((Some(h), q)),
            Err(e) => Err(e),
        }
    } else {
        Err(CodecError::InvalidDiscriminant)
    }
}

/// What decoding a setpoint from position `p` of `s` gives: the value and the
/// position after it, or the first failure met.
pub open spec fn parse_setpoint(s: Seq<u8>, p: nat) -> Result<(Setpoint, nat), CodecError> {
    match parse_opt_mockloop(s, p) {
        Err(e) => Err(e),
        Ok((m, q)) => match parse_opt_heart(s, q) {
            Err(e) => Err(e),
            Ok((h, q2)) => Ok(
                (Setpoint { mockloop_setpoint: m, heart_controller_setpoint: h }, q2),
            ),
        },
    }
}

pub open spec fn parse_app_state(s: Seq<u8>, p: nat) -> Result<(AppState, nat), CodecError> {
    if p >= s.len() {
        Err(CodecError::UnexpectedEnd)
    } else if s[p as int] == 0 {
        Ok((AppState::StandBy, p + 1))
    } else if s[p as int] == 1 {
        Ok((AppState::Running, p + 1))
    } else if s[p as int] == 2 {
        Ok((AppState::Fault, p + 1))
    } else {
        Err(CodecError::InvalidDiscriminant)
    }
}

/// What decoding a measurement snapshot from position `p` of `s` gives.
pub open spec fn parse_measurements(s: Seq<u8>, p: nat) -> Result<(Measurements, nat), CodecError> {
    if p + 36 <= s.len() {
        Ok(
            (
                Measurements {
                    timestamp: u64_at(s, p as int),
                    regulator_actual_pressure: Pressure { pascal_bits: u32_at(s, p + 8int) },
                    systemic_flow: VolumeRate { cubic_meter_per_second_bits: u32_at(s, p + 12int) },
                    pulmonary_flow: VolumeRate { cubic_meter_per_second_bits: u32_at(s, p + 16int) },
                    systemic_preload_pressure: Pressure { pascal_bits: u32_at(s, p + 20int) },
                    systemic_afterload_pressure: Pressure { pascal_bits: u32_at(s, p + 24int) },
                    pulmonary_preload_pressure: Pressure { pascal_bits: u32_at(s, p + 28int) },
                    pulmonary_afterload_pressure: Pressure { pascal_bits: u32_at(s, p + 32int) },
                },
                p + 36,
            ),
        )
    } else {
        Err(CodecError::UnexpectedEnd)
    }
}

/// What decoding a report from position `p` of `s` gives.
pub open spec fn parse_report(s: Seq<u8>, p: nat) -> Result<(Report, nat), CodecError> {
    match parse_setpoint(s, p) {
        Err(e) => Err(e),
        Ok((sp, q)) => match parse_app_state(s, q) {
            Err(e) => Err(e),
            Ok((a, q2)) => match parse_measurements(s, q2) {
                Err(e) => Err(e),
                Ok((m, q3)) => Ok((Report { setpoint: sp, app_state: a, measurements: m }, q3)),
            },
        },
    }
}

/// A decoding result with its position seen as a natural number.
pub open spec fn lift<T>(r: Result<(T, usize), CodecError>) -> Result<(T, nat), CodecError> {
    match r {
        Ok((v, n)) => Ok((v, n as nat)),
        Err(e) => Err(e),
    }
}


// ---- writers ----

fn put_mockloop(buf: &mut [u8], p: usize, m: MockloopSetpoint)
    requires
        p + 16 <= old(buf)@.len(),
    ensures
        final(buf)@ == splice(old(buf)@, p as int, mockloop_bytes(m)),
{
    let ghost s = buf@;
    let _n = buf.len();
    let ghost a = u32_le(m.systemic_resistance);
    let ghost b = u32_le(m.pulmonary_resistance);
    let ghost c = u32_le(m.systemic_afterload_compliance);
    let ghost d = u32_le(m.pulmonary_afterload_compliance);
    put_u32(buf, p, m.systemic_resistance);
    put_u32(buf, p + 4, m.pulmonary_resistance);
    proof {
        lemma_splice_twice(s, p as int, a, b);
    }
    put_u32(buf, p + 8, m.systemic_afterload_compliance);
    proof {
        lemma_splice_twice(s, p as int, a + b, c);
    }
    put_u32(buf, p + 12, m.pulmonary_afterload_compliance);
    proof {
        lemma_splice_twice(s, p as int, a + b + c, d);
    }
}

fn put_heart(buf: &mut [u8], p: usize, h: HeartControllerSetpoint)
    requires
        p + 12 <= old(buf)@.len(),
    ensures
        final(buf)@ == splice(old(buf)@, p as int, heart_bytes(h)),
{
    let ghost s = buf@;
    let _n = buf.len();
    let ghost a = u32_le(h.heart_rate.hertz_bits);
    let ghost b = u32_le(h.pressure.pascal_bits);
    let ghost c = u32_le(h.systole_ratio);
    put_u32(buf, p, h.heart_rate.hertz_bits);
    put_u32(buf, p + 4, h.pressure.pascal_bits);
    proof {
        lemma_splice_twice(s, p as int, a, b);
    }
    put_u32(buf, p + 8, h.systole_ratio);
    proof {
        lemma_splice_twice(s, p as int, a + b, c);
    }
}

fn put_setpoint(buf: &mut [u8], p: usize, sp: Setpoint)
    requires
        p + setpoint_bytes(sp).len() <= old(buf)@.len(),
    ensures
        final(buf)@ == splice(old(buf)@, p as int, setpoint_bytes(sp)),
{
    let ghost s = buf@;
    let _n = buf.len();
    let ghost a = opt_mockloop_bytes(sp.mockloop_setpoint);
    let ghost b = opt_heart_bytes(sp.heart_controller_setpoint);
    let q: usize;
    match sp.mockloop_setpoint {
        None => {
            put_u8(buf, p, 0);
            q = p + 1;
        },
        Some(m) => {
            put_u8(buf, p, 1);
            put_mockloop(buf, p + 1, m);
            proof {
                lemma_splice_twice(s, p as int, seq![1u8], mockloop_bytes(m));
            }
            q = p + 17;
        },
    }
    assert(buf@ == splice(s, p as int, a) && q == p + a.len());
    let ghost s2 = buf@;
    match sp.heart_controller_setpoint {
        None => {
            put_u8(buf, q, 0);
        },
        Some(h) => {
            put_u8(buf, q, 1);
            put_heart(buf, q + 1, h);
            proof {
                lemma_splice_twice(s2, q as int, seq![1u8], heart_bytes(h));
            }
        },
    }
    proof {
        lemma_splice_twice(s, p as int, a, b);
    }
}

fn put_measurements(buf: &mut [u8], p: usize, m: Measurements)
    requires
        p + 36 <= old(buf)@.len(),
    ensures
        final(buf)@ == splice(old(buf)@, p as int, measurements_bytes(m)),
{
    let ghost s = buf@;
    let _n = buf.len();
    let ghost b0 = u64_le(m.timestamp);
    let ghost b1 = u32_le(m.regulator_actual_pressure.pascal_bits);
    let ghost b2 = u32_le(m.systemic_flow.cubic_meter_per_second_bits);
    let ghost b3 = u32_le(m.pulmonary_flow.cubic_meter_per_second_bits);
    let ghost b4 = u32_le(m.systemic_preload_pressure.pascal_bits);
    let ghost b5 = u32_le(m.systemic_afterload_pressure.pascal_bits);
    let ghost b6 = u32_le(m.pulmonary_preload_pressure.pascal_bits);
    let ghost b7 = u32_le(m.pulmonary_afterload_pressure.pascal_bits);
    put_u64(buf, p, m.timestamp);
    put_u32(buf, p + 8, m.regulator_actual_pressure.pascal_bits);
    proof {
        lemma_splice_twice(s, p as int, b0, b1);
    }
    put_u32(buf, p + 12, m.systemic_flow.cubic_meter_per_second_bits);
    proof {
        lemma_splice_twice(s, p as int, b0 + b1, b2);
    }
    put_u32(buf, p + 16, m.pulmonary_flow.cubic_meter_per_second_bits);
    proof {
        lemma_splice_twice(s, p as int, b0 + b1 + b2, b3);
    }
    put_u32(buf, p + 20, m.systemic_preload_pressure.pascal_bits);
    proof {
        lemma_splice_twice(s, p as int, b0 + b1 + b2 + b3, b4);
    }
    put_u32(buf, p + 24, m.systemic_afterload_pressure.pascal_bits);
    proof {
        lemma_splice_twice(s, p as int, b0 + b1 + b2 + b3 + b4, b5);
    }
    put_u32(buf, p + 28, m.pulmonary_preload_pressure.pascal_bits);
    proof {
        lemma_splice_twice(s, p as int, b0 + b1 + b2 + b3 + b4 + b5, b6);
    }
    put_u32(buf, p + 32, m.pulmonary_afterload_pressure.pascal_bits);
    proof {
        lemma_splice_twice(s, p as int, b0 + b1 + b2 + b3 + b4 + b5 + b6, b7);
    }
}

/// Length of the encoding of a setpoint.
pub fn setpoint_len(sp: &Setpoint) -> (n: usize)
    ensures
        n == setpoint_bytes(*sp).len(),
        n <= SETPOINT_BYTES,
{
    let a: usize = if sp.mockloop_setpoint.is_some() {
        1 + MOCKLOOP_BYTES
    } else {
        1
    };
    let b: usize = if sp.heart_controller_setpoint.is_some() {
        1 + HEART_BYTES
    } else {
        1
    };
    a + b
}

/// Length of the encoding of a report.
pub fn report_len(r: &Report) -> (n: usize)
    ensures
        n == report_bytes(*r).len(),
        n <= REPORT_BYTES,
{
    setpoint_len(&r.setpoint) + 1 + MEASUREMENTS_BYTES
}

/// Encodes a setpoint at the start of `buf`. On success returns the number of bytes
/// written; on failure `buf` is left as it was.
pub fn encode_setpoint(setpoint: Setpoint, buf: &mut [u8]) -> (r: Result<usize, CodecError>)
    ensures
        r is Ok <==> setpoint_bytes(setpoint).len() <= old(buf)@.len(),
        r matches Ok(n) ==> n == setpoint_bytes(setpoint).len() && final(buf)@ == splice(
            old(buf)@,
            0,
            setpoint_bytes(setpoint),
        ),
        r matches Err(e) ==> e == CodecError::BufferTooSmall && final(buf)@ == old(buf)@,
{
    let n = setpoint_len(&setpoint);
    if buf.len() < n {
        return Err(CodecError::BufferTooSmall);
    }
    put_setpoint(buf, 0, setpoint);
    Ok(n)
}

/// Encodes a measurement snapshot at the start of `buf`. On success returns the
/// number of bytes written; on failure `buf` is left as it was.
pub fn encode_measurements(measurements: Measurements, buf: &mut [u8]) -> (r: Result<
    usize,
    CodecError,
>)
    ensures
        r is Ok <==> MEASUREMENTS_BYTES <= old(buf)@.len(),
        r matches Ok(n) ==> n == measurements_bytes(measurements).len() && final(buf)@
            == splice(old(buf)@, 0, measurements_bytes(measurements)),
        r matches Err(e) ==> e == CodecError::BufferTooSmall && final(buf)@ == old(buf)@,
{
    if buf.len() < MEASUREMENTS_BYTES {
        return Err(CodecError::BufferTooSmall);
    }
    put_measurements(buf, 0, measurements);
    Ok(MEASUREMENTS_BYTES)
}

/// Encodes a report at the start of `buf`. On success returns the number of bytes
/// written; on failure `buf` is left as it was.
pub fn encode_report(report: Report, buf: &mut [u8]) -> (r: Result<usize, CodecError>)
    ensures
        r is Ok <==> report_bytes(report).len() <= old(buf)@.len(),
        r matches Ok(n) ==> n == report_bytes(report).len() && final(buf)@ == splice(
            old(buf)@,
            0,
            report_bytes(report),
        ),
        r matches Err(e) ==> e == CodecError::BufferTooSmall && final(buf)@ == old(buf)@,
{
    let n = report_len(&report);
    if buf.len() < n {
        return Err(CodecError::BufferTooSmall);
    }
    let ghost s = buf@;
    let k = setpoint_len(&report.setpoint);
    put_setpoint(buf, 0, report.setpoint);
    let tag: u8 = match report.app_state {
        AppState::StandBy => 0,
        AppState::Running => 1,
        AppState::Fault => 2,
    };
    put_u8(buf, k, tag);
    proof {
        lemma_splice_twice(s, 0, setpoint_bytes(report.setpoint), seq![tag]);
    }
    put_measurements(buf, k + 1, report.measurements);
    proof {
        lemma_splice_twice(
            s,
            0,
            setpoint_bytes(report.setpoint) + seq![tag],
            measurements_bytes(report.measurements),
        );
    }
    Ok(n)
}

// ---- readers ----

fn read_mockloop(buf: &[u8], p: usize) -> (r: Result<(MockloopSetpoint, usize), CodecError>)
    requires
        p <= buf@.len(),
    ensures
        lift(r) == parse_mockloop(buf@, p as nat),
{
    if buf.len() - p < MOCKLOOP_BYTES {
        return Err(CodecError::UnexpectedEnd);
    }
    let m = MockloopSetpoint {
        systemic_resistance: get_u32(buf, p),
        pulmonary_resistance: get_u32(buf, p + 4),
        systemic_afterload_compliance: get_u32(buf, p + 8),
        pulmonary_afterload_compliance: get_u32(buf, p + 12),
    };
    Ok((m, p + 16))
}

fn read_heart(buf: &[u8], p: usize) -> (r: Result<(HeartControllerSetpoint, usize), CodecError>)
    requires
        p <= buf@.len(),
    ensures
        lift(r) == parse_heart(buf@, p as nat),
{
    if buf.len() - p < HEART_BYTES {
        return Err(CodecError::UnexpectedEnd);
    }
    let h = HeartControllerSetpoint {
        heart_rate: Frequency { hertz_bits: get_u32(buf, p) },
        pressure: Pressure { pascal_bits: get_u32(buf, p + 4) },
        systole_ratio: get_u32(buf, p + 8),
    };
    Ok((h, p + 12))
}

fn read_setpoint(buf: &[u8], p: usize) -> (r: Result<(Setpoint, usize), CodecError>)
    requires
        p <= buf@.len(),
    ensures
        lift(r) == parse_setpoint(buf@, p as nat),
        r matches Ok((_, q)) ==> q <= buf@.len(),
{
    if p >= buf.len() {
        return Err(CodecError::UnexpectedEnd);
    }
    let (mockloop_setpoint, q) = if buf[p] == 0 {
        (None, p + 1)
    } else if buf[p] == 1 {
        match read_mockloop(buf, p + 1) {
            Ok((m, q)) => (Some(m), q),
            Err(e) => {
                return Err(e);
            },
        }
    } else {
        return Err(CodecError::InvalidDiscriminant);
    };
    if q >= buf.len() {
        return Err(CodecError::UnexpectedEnd);
    }
    let (heart_controller_setpoint, q2) = if buf[q] == 0 {
        (None, q + 1)
    } else if buf[q] == 1 {
        match read_heart(buf, q + 1) {
            Ok((h, q2)) => (Some(h), q2),
            Err(e) => {
                return Err(e);
            },
        }
    } else {
        return Err(CodecError::InvalidDiscriminant);
    };
    Ok((Setpoint { mockloop_setpoint, heart_controller_setpoint }, q2))
}

fn read_measurements(buf: &[u8], p: usize) -> (r: Result<(Measurements, usize), CodecError>)
    requires
        p <= buf@.len(),
    ensures
        lift(r) == parse_measurements(buf@, p as nat),
{
    if buf.len() - p < MEASUREMENTS_BYTES {
        return Err(CodecError::UnexpectedEnd);
    }
    let m = Measurements {
        timestamp: get_u64(buf, p),
        regulator_actual_pressure: Pressure { pascal_bits: get_u32(buf, p + 8) },
        systemic_flow: VolumeRate { cubic_meter_per_second_bits: get_u32(buf, p + 12) },
        pulmonary_flow: VolumeRate { cubic_meter_per_second_bits: get_u32(buf, p + 16) },
        systemic_preload_pressure: Pressure { pascal_bits: get_u32(buf, p + 20) },
        systemic_afterload_pressure: Pressure { pascal_bits: get_u32(buf, p + 24) },
        pulmonary_preload_pressure: Pressure { pascal_bits: get_u32(buf, p + 28) },
        pulmonary_afterload_pressure: Pressure { pascal_bits: get_u32(buf, p + 32) },
    };
    Ok((m, p + 36))
}

/// Decodes a setpoint from the start of `buf`: the value and the number of bytes it
/// took, or the first failure met.
pub fn decode_setpoint(buf: &[u8]) -> (r: Result<(Setpoint, usize), CodecError>)
    ensures
        lift(r) == parse_setpoint(buf@, 0),
{
    read_setpoint(buf, 0)
}

/// Decodes a measurement snapshot from the start of `buf`.
pub fn decode_measurements(buf: &[u8]) -> (r: Result<(Measurements, usize), CodecError>)
    ensures
        lift(r) == parse_measurements(buf@, 0),
{
    read_measurements(buf, 0)
}

/// Decodes a report from the start of `buf`: the value and the number of bytes it
/// took, or the first failure met.
pub fn decode_report(buf: &[u8]) -> (r: Result<(Report, usize), CodecError>)
    ensures
        lift(r) == parse_report(buf@, 0),
{
    let (setpoint, q) = match read_setpoint(buf, 0) {
        Ok(v) => v,
        Err(e) => {
            return Err(e);
        },
    };
    if q >= buf.len() {
        return Err(CodecError::UnexpectedEnd);
    }
    let app_state = if buf[q] == 0 {
        AppState::StandBy
    } else if buf[q] == 1 {
        AppState::Running
    } else if buf[q] == 2 {
        AppState::Fault
    } else {
        return Err(CodecError::InvalidDiscriminant);
    };
    match read_measurements(buf, q + 1) {
        Ok((measurements, q2)) => Ok((Report { setpoint, app_state, measurements }, q2)),
        Err(e) => Err(e),
    }
}

// ---- lemmas: parsing an encoding gives the encoded value back ----

/// The two parts of a concatenation standing at `p` stand there one after the other.
proof fn lemma_split(s: Seq<u8>, p: int, a: Seq<u8>, b: Seq<u8>)
    requires
        0 <= p,
        p + a.len() + b.len() <= s.len(),
        s.subrange(p, p + a.len() + b.len()) == a + b,
    ensures
        s.subrange(p, p + a.len()) == a,
        s.subrange(p + a.len(), p + a.len() + b.len()) == b,
{
    assert(s.subrange(p, p + a.len()) =~= (a + b).subrange(0, a.len() as int));
    assert(s.subrange(p + a.len(), p + a.len() + b.len()) =~= (a + b).subrange(
        a.len() as int,
        a.len() + b.len() as int,
    ));
}

/// A `u32` written at offset `q` of `b`, where `b` stands at `p`, reads back.
proof fn lemma_u32_in(s: Seq<u8>, p: int, b: Seq<u8>, q: int, x: u32)
    requires
        0 <= p,
        0 <= q,
        q + 4 <= b.len(),
        p + b.len() <= s.len(),
        s.subrange(p, p + b.len()) == b,
        b.subrange(q, q + 4) == u32_le(x),
    ensures
        u32_at(s, p + q) == x,
{
    assert(s.subrange(p + q, p + q + 4) =~= b.subrange(q, q + 4));
    lemma_u32_at(s, p + q, x);
}

proof fn lemma_parse_mockloop(s: Seq<u8>, p: nat, m: MockloopSetpoint)
    requires
        p + 16 <= s.len(),
        s.subrange(p as int, p as int + 16) == mockloop_bytes(m),
    ensures
        parse_mockloop(s, p) == Ok::<(MockloopSetpoint, nat), CodecError>((m, p + 16)),
{
    let b = mockloop_bytes(m);
    assert(b.subrange(0, 4) =~= u32_le(m.systemic_resistance));
    assert(b.subrange(4, 8) =~= u32_le(m.pulmonary_resistance));
    assert(b.subrange(8, 12) =~= u32_le(m.systemic_afterload_compliance));
    assert(b.subrange(12, 16) =~= u32_le(m.pulmonary_afterload_compliance));
    lemma_u32_in(s, p as int, b, 0, m.systemic_resistance);
    lemma_u32_in(s, p as int, b, 4, m.pulmonary_resistance);
    lemma_u32_in(s, p as int, b, 8, m.systemic_afterload_compliance);
    lemma_u32_in(s, p as int, b, 12, m.pulmonary_afterload_compliance);
}

proof fn lemma_parse_heart(s: Seq<u8>, p: nat, h: HeartControllerSetpoint)
    requires
        p + 12 <= s.len(),
        s.subrange(p as int, p as int + 12) == heart_bytes(h),
    ensures
        parse_heart(s, p) == Ok::<(HeartControllerSetpoint, nat), CodecError>((h, p + 12)),
{
    let b = heart_bytes(h);
    assert(b.subrange(0, 4) =~= u32_le(h.heart_rate.hertz_bits));
    assert(b.subrange(4, 8) =~= u32_le(h.pressure.pascal_bits));
    assert(b.subrange(8, 12) =~= u32_le(h.systole_ratio));
    lemma_u32_in(s, p as int, b, 0, h.heart_rate.hertz_bits);
    lemma_u32_in(s, p as int, b, 4, h.pressure.pascal_bits);
    lemma_u32_in(s, p as int, b, 8, h.systole_ratio);
}

proof fn lemma_parse_setpoint(s: Seq<u8>, p: nat, sp: Setpoint)
    requires
        p + setpoint_bytes(sp).len() <= s.len(),
        s.subrange(p as int, p as int + setpoint_bytes(sp).len()) == setpoint_bytes(sp),
    ensures
        parse_setpoint(s, p) == Ok::<(Setpoint, nat), CodecError>(
            (sp, p + setpoint_bytes(sp).len()),
        ),
{
    let a = opt_mockloop_bytes(sp.mockloop_setpoint);
    let b = opt_heart_bytes(sp.heart_controller_setpoint);
    lemma_split(s, p as int, a, b);
    assert(s[p as int] == a[0]) by {
        assert(s.subrange(p as int, p as int + a.len())[0] == s[p as int]);
    }
    match sp.mockloop_setpoint {
        None => {},
        Some(m) => {
            lemma_split(s, p as int, seq![1u8], mockloop_bytes(m));
            lemma_parse_mockloop(s, p + 1, m);
        },
    }
    let q = p + a.len();
    assert(s[q as int] == b[0]) by {
        assert(s.subrange(q as int, q as int + b.len())[0] == s[q as int]);
    }
    match sp.heart_controller_setpoint {
        None => {},
        Some(h) => {
            lemma_split(s, q as int, seq![1u8], heart_bytes(h));
            lemma_parse_heart(s, q + 1, h);
        },
    }
}

proof fn lemma_parse_measurements(s: Seq<u8>, p: nat, m: Measurements)
    requires
        p + 36 <= s.len(),
        s.subrange(p as int, p as int + 36) == measurements_bytes(m),
    ensures
        parse_measurements(s, p) == Ok::<(Measurements, nat), CodecError>((m, p + 36)),
{
    let b = measurements_bytes(m);
    let pi = p as int;
    assert(s.subrange(pi, pi + 8) =~= b.subrange(0, 8));
    assert(b.subrange(0, 8) =~= u64_le(m.timestamp));
    lemma_u64_at(s, pi, m.timestamp);
    assert(b.subrange(8, 12) =~= u32_le(m.regulator_actual_pressure.pascal_bits));
    assert(b.subrange(12, 16) =~= u32_le(m.systemic_flow.cubic_meter_per_second_bits));
    assert(b.subrange(16, 20) =~= u32_le(m.pulmonary_flow.cubic_meter_per_second_bits));
    assert(b.subrange(20, 24) =~= u32_le(m.systemic_preload_pressure.pascal_bits));
    assert(b.subrange(24, 28) =~= u32_le(m.systemic_afterload_pressure.pascal_bits));
    assert(b.subrange(28, 32) =~= u32_le(m.pulmonary_preload_pressure.pascal_bits));
    assert(b.subrange(32, 36) =~= u32_le(m.pulmonary_afterload_pressure.pascal_bits));
    lemma_u32_in(s, pi, b, 8, m.regulator_actual_pressure.pascal_bits);
    lemma_u32_in(s, pi, b, 12, m.systemic_flow.cubic_meter_per_second_bits);
    lemma_u32_in(s, pi, b, 16, m.pulmonary_flow.cubic_meter_per_second_bits);
    lemma_u32_in(s, pi, b, 20, m.systemic_preload_pressure.pascal_bits);
    lemma_u32_in(s, pi, b, 24, m.systemic_afterload_pressure.pascal_bits);
    lemma_u32_in(s, pi, b, 28, m.pulmonary_preload_pressure.pascal_bits);
    lemma_u32_in(s, pi, b, 32, m.pulmonary_afterload_pressure.pascal_bits);
}

proof fn lemma_parse_report(s: Seq<u8>, p: nat, r: Report)
    requires
        p + report_bytes(r).len() <= s.len(),
        s.subrange(p as int, p as int + report_bytes(r).len()) == report_bytes(r),
    ensures
        parse_report(s, p) == Ok::<(Report, nat), CodecError>((r, p + report_bytes(r).len())),
{
    let a = setpoint_bytes(r.setpoint);
    let t = seq![app_state_byte(r.app_state)];
    let m = measurements_bytes(r.measurements);
    lemma_split(s, p as int, a + t, m);
    lemma_split(s, p as int, a, t);
    lemma_parse_setpoint(s, p, r.setpoint);
    let q = p + a.len();
    assert(s[q as int] == t[0]) by {
        assert(s.subrange(q as int, q as int + 1)[0] == s[q as int]);
    }
    lemma_parse_measurements(s, q + 1, r.measurements);
}

/// Decoding the encoding of a setpoint, whatever follows it, gives the setpoint back
/// and consumes exactly its encoding.
pub proof fn lemma_setpoint_round_trip(sp: Setpoint, rest: Seq<u8>)
    ensures
        parse_setpoint(setpoint_bytes(sp) + rest, 0) == Ok::<(Setpoint, nat), CodecError>(
            (sp, setpoint_bytes(sp).len()),
        ),
{
    let s = setpoint_bytes(sp) + rest;
    assert(s.subrange(0, setpoint_bytes(sp).len() as int) =~= setpoint_bytes(sp));
    lemma_parse_setpoint(s, 0, sp);
}

/// Decoding the encoding of a measurement snapshot, whatever follows it, gives the
/// snapshot back and consumes exactly its encoding.
pub proof fn lemma_measurements_round_trip(m: Measurements, rest: Seq<u8>)
    ensures
        parse_measurements(measurements_bytes(m) + rest, 0) == Ok::<
            (Measurements, nat),
            CodecError,
        >((m, measurements_bytes(m).len())),
{
    let s = measurements_bytes(m) + rest;
    assert(s.subrange(0, 36) =~= measurements_bytes(m));
    lemma_parse_measurements(s, 0, m);
}

/// Decoding the encoding of a report, whatever follows it, gives the report back and
/// consumes exactly its encoding.
pub proof fn lemma_report_round_trip(r: Report, rest: Seq<u8>)
    ensures
        parse_report(report_bytes(r) + rest, 0) == Ok::<(Report, nat), CodecError>(
            (r, report_bytes(r).len()),
        ),
{
    let s = report_bytes(r) + rest;
    assert(s.subrange(0, report_bytes(r).len() as int) =~= report_bytes(r));
    lemma_parse_report(s, 0, r);
}

// ---- lemmas: what parses is an encoding ----

proof fn lemma_mockloop_parsed(s: Seq<u8>, p: nat)
    requires
        parse_mockloop(s, p) is Ok,
    ensures
        ({
            let (m, q) = parse_mockloop(s, p)->Ok_0;
            q == p + 16 && s.subrange(p as int, q as int) == mockloop_bytes(m)
        }),
{
    let pi = p as int;
    lemma_u32_le_at(s, pi);
    lemma_u32_le_at(s, pi + 4);
    lemma_u32_le_at(s, pi + 8);
    lemma_u32_le_at(s, pi + 12);
    let m = parse_mockloop(s, p)->Ok_0.0;
    assert(s.subrange(pi, pi + 16) =~= mockloop_bytes(m));
}

proof fn lemma_heart_parsed(s: Seq<u8>, p: nat)
    requires
        parse_heart(s, p) is Ok,
    ensures
        ({
            let (h, q) = parse_heart(s, p)->Ok_0;
            q == p + 12 && s.subrange(p as int, q as int) == heart_bytes(h)
        }),
{
    let pi = p as int;
    lemma_u32_le_at(s, pi);
    lemma_u32_le_at(s, pi + 4);
    lemma_u32_le_at(s, pi + 8);
    let h = parse_heart(s, p)->Ok_0.0;
    assert(s.subrange(pi, pi + 12) =~= heart_bytes(h));
}

proof fn lemma_setpoint_parsed(s: Seq<u8>, p: nat)
    requires
        parse_setpoint(s, p) is Ok,
    ensures
        ({
            let (sp, q) = parse_setpoint(s, p)->Ok_0;
            q == p + setpoint_bytes(sp).len() && s.subrange(p as int, q as int)
                == setpoint_bytes(sp)
        }),
{
    let pi = p as int;
    let (m, q) = parse_opt_mockloop(s, p)->Ok_0;
    if s[pi] == 1 {
        lemma_mockloop_parsed(s, p + 1);
        assert(s.subrange(pi, q as int) =~= seq![1u8] + s.subrange(pi + 1, q as int));
    } else {
        assert(s.subrange(pi, q as int) =~= seq![0u8]);
    }
    let qi = q as int;
    let (h, q2) = parse_opt_heart(s, q)->Ok_0;
    if s[qi] == 1 {
        lemma_heart_parsed(s, q + 1);
        assert(s.subrange(qi, q2 as int) =~= seq![1u8] + s.subrange(qi + 1, q2 as int));
    } else {
        assert(s.subrange(qi, q2 as int) =~= seq![0u8]);
    }
    assert(s.subrange(pi, q2 as int) =~= s.subrange(pi, qi) + s.subrange(qi, q2 as int));
}

proof fn lemma_measurements_parsed(s: Seq<u8>, p: nat)
    requires
        parse_measurements(s, p) is Ok,
    ensures
        ({
            let (m, q) = parse_measurements(s, p)->Ok_0;
            q == p + 36 && s.subrange(p as int, q as int) == measurements_bytes(m)
        }),
{
    let pi = p as int;
    lemma_u64_le_at(s, pi);
    lemma_u32_le_at(s, pi + 8);
    lemma_u32_le_at(s, pi + 12);
    lemma_u32_le_at(s, pi + 16);
    lemma_u32_le_at(s, pi + 20);
    lemma_u32_le_at(s, pi + 24);
    lemma_u32_le_at(s, pi + 28);
    lemma_u32_le_at(s, pi + 32);
    let m = parse_measurements(s, p)->Ok_0.0;
    assert(s.subrange(pi, pi + 36) =~= measurements_bytes(m));
}

/// A setpoint decodes only from its own encoding: what decoding consumed is exactly
/// the encoding of what it returned.
pub proof fn lemma_setpoint_decoded_is_encoding(s: Seq<u8>)
    requires
        parse_setpoint(s, 0) is Ok,
    ensures
        ({
            let (sp, n) = parse_setpoint(s, 0)->Ok_0;
            s.subrange(0, n as int) == setpoint_bytes(sp)
        }),
{
    lemma_setpoint_parsed(s, 0);
}

/// A measurement snapshot decodes only from its own encoding.
pub proof fn lemma_measurements_decoded_is_encoding(s: Seq<u8>)
    requires
        parse_measurements(s, 0) is Ok,
    ensures
        ({
            let (m, n) = parse_measurements(s, 0)->Ok_0;
            s.subrange(0, n as int) == measurements_bytes(m)
        }),
{
    lemma_measurements_parsed(s, 0);
}

/// A report decodes only from its own encoding: what decoding consumed is exactly
/// the encoding of what it returned.
pub proof fn lemma_report_decoded_is_encoding(s: Seq<u8>)
    requires
        parse_report(s, 0) is Ok,
    ensures
        ({
            let (r, n) = parse_report(s, 0)->Ok_0;
            s.subrange(0, n as int) == report_bytes(r)
        }),
{
    let (sp, q) = parse_setpoint(s, 0)->Ok_0;
    lemma_setpoint_parsed(s, 0);
    let qi = q as int;
    lemma_measurements_parsed(s, q + 1);
    let (r, n) = parse_report(s, 0)->Ok_0;
    assert(s.subrange(0, n as int) =~= s.subrange(0, qi) + seq![s[qi]] + s.subrange(
        qi + 1,
        n as int,
    ));
}

/// No encoding is longer than the published sizes.
pub proof fn lemma_encoded_sizes(sp: Setpoint, r: Report, m: Measurements)
    ensures
        setpoint_bytes(sp).len() <= SETPOINT_BYTES,
        report_bytes(r).len() <= REPORT_BYTES,
        measurements_bytes(m).len() == MEASUREMENTS_BYTES,
{
}

} // verus!
