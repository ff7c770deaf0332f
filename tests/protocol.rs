use mockloop_protocol::{
    decode_measurements, decode_report, decode_setpoint, deserialize_report,
    deserialize_setpoint, encode_measurements, encode_report, encode_setpoint, frame_payload,
    next_delimiter, report_len, serialize_report, serialize_setpoint, setpoint_len, unframe,
    AppState, CodecError, Frequency, HeartControllerSetpoint, Measurements, MockloopSetpoint,
    Pressure, Report, Setpoint, VolumeRate, MAX_BITS, MEASUREMENTS_BYTES, REPORT_BYTES,
    REPORT_FRAME_BYTES, SETPOINT_BYTES, SETPOINT_FRAME_BYTES, SYSTOLE_RATIO_DEFAULT_BITS,
    ZERO_BITS,
};

fn pressure(v: f32) -> Pressure {
    Pressure::from_bits(v.to_bits())
}

fn flow(v: f32) -> VolumeRate {
    VolumeRate::from_bits(v.to_bits())
}

fn sample_measurements() -> Measurements {
    Measurements {
        timestamp: 0x0102_0304_0506_0708,
        regulator_actual_pressure: pressure(12000.5),
        systemic_flow: flow(8.3e-5),
        pulmonary_flow: flow(-0.0),
        systemic_preload_pressure: pressure(1333.2),
        systemic_afterload_pressure: pressure(f32::MAX),
        pulmonary_preload_pressure: pressure(f32::MIN_POSITIVE),
        pulmonary_afterload_pressure: pressure(2.5),
    }
}

fn full_setpoint() -> Setpoint {
    Setpoint {
        mockloop_setpoint: Some(MockloopSetpoint {
            systemic_resistance: 1.5f32.to_bits(),
            pulmonary_resistance: 0.25f32.to_bits(),
            systemic_afterload_compliance: 3.0f32.to_bits(),
            pulmonary_afterload_compliance: 1e-9f32.to_bits(),
        }),
        heart_controller_setpoint: Some(HeartControllerSetpoint {
            heart_rate: Frequency::from_bits(1.2f32.to_bits()),
            pressure: pressure(20000.0),
            systole_ratio: SYSTOLE_RATIO_DEFAULT_BITS,
        }),
    }
}

fn zero_measurements(timestamp: u64) -> Measurements {
    Measurements {
        timestamp,
        regulator_actual_pressure: Pressure::zero(),
        systemic_flow: VolumeRate::zero(),
        pulmonary_flow: VolumeRate::zero(),
        systemic_preload_pressure: Pressure::zero(),
        systemic_afterload_pressure: Pressure::zero(),
        pulmonary_preload_pressure: Pressure::zero(),
        pulmonary_afterload_pressure: Pressure::zero(),
    }
}

#[test]
fn state_cycle_returns_after_three_steps() {
    let s = AppState::default();
    assert_eq!(s, AppState::StandBy);
    assert_eq!(s.next(), AppState::Running);
    assert_eq!(s.next().next(), AppState::Fault);
    assert_eq!(s.next().next().next(), AppState::StandBy);
    for st in [AppState::StandBy, AppState::Running, AppState::Fault] {
        assert_ne!(st.next(), st);
    }
}

#[test]
fn default_setpoints_are_inert() {
    let sp = Setpoint::default();
    assert!(sp.mockloop_setpoint.is_none());
    assert!(sp.heart_controller_setpoint.is_none());
    let m = MockloopSetpoint::default();
    assert_eq!(f32::from_bits(m.systemic_resistance), f32::MAX);
    assert_eq!(f32::from_bits(m.pulmonary_resistance), f32::MAX);
    assert_eq!(m.systemic_afterload_compliance, ZERO_BITS);
    assert_eq!(f32::from_bits(m.pulmonary_afterload_compliance), 0.0);
    let h = HeartControllerSetpoint::default();
    assert_eq!(f32::from_bits(h.heart_rate.to_bits()), 0.0);
    assert_eq!(f32::from_bits(h.pressure.to_bits()), 0.0);
    assert_eq!(f32::from_bits(h.systole_ratio), 3.0f32 / 7.0);
    assert_eq!(MAX_BITS, f32::MAX.to_bits());
}

#[test]
fn report_round_trips_through_codec() {
    let report = Report {
        setpoint: full_setpoint(),
        app_state: AppState::Fault,
        measurements: sample_measurements(),
    };
    let mut buf = [0xAAu8; 80];
    let n = encode_report(report, &mut buf).unwrap();
    assert_eq!(n, REPORT_BYTES);
    assert_eq!(report_len(&report), REPORT_BYTES);
    assert_eq!(buf[n], 0xAA);
    let (back, used) = decode_report(&buf).unwrap();
    assert_eq!(used, n);
    assert_eq!(back, report);
    assert_eq!(
        f32::from_bits(back.measurements.systemic_flow.to_bits()).to_bits(),
        8.3e-5f32.to_bits()
    );
}

#[test]
fn setpoint_and_measurements_round_trip() {
    let sp = full_setpoint();
    let mut buf = [0u8; SETPOINT_BYTES];
    assert_eq!(encode_setpoint(sp, &mut buf), Ok(SETPOINT_BYTES));
    assert_eq!(setpoint_len(&sp), SETPOINT_BYTES);
    assert_eq!(decode_setpoint(&buf), Ok((sp, SETPOINT_BYTES)));
    let m = sample_measurements();
    let mut mb = [0u8; MEASUREMENTS_BYTES];
    assert_eq!(encode_measurements(m, &mut mb), Ok(MEASUREMENTS_BYTES));
    assert_eq!(&mb[..8], &[8, 7, 6, 5, 4, 3, 2, 1]);
    assert_eq!(decode_measurements(&mb), Ok((m, MEASUREMENTS_BYTES)));
}

#[test]
fn disabled_subsystem_stays_absent() {
    let sp = Setpoint {
        mockloop_setpoint: None,
        heart_controller_setpoint: full_setpoint().heart_controller_setpoint,
    };
    let mut frame = [0u8; SETPOINT_FRAME_BYTES];
    let n = serialize_setpoint(sp, &mut frame).unwrap();
    assert_eq!(n, 1 + 1 + 12 + 2);
    let back = deserialize_setpoint(&mut frame[..n]).unwrap();
    assert!(back.mockloop_setpoint.is_none());
    assert_eq!(back, sp);
}

#[test]
fn concrete_report_bytes_and_frame() {
    let report = Report {
        setpoint: Setpoint::default(),
        app_state: AppState::Running,
        measurements: zero_measurements(1000),
    };
    let mut buf = [0u8; REPORT_BYTES];
    let n = encode_report(report, &mut buf).unwrap();
    let mut expected = vec![0u8, 0, 1, 0xE8, 0x03, 0, 0, 0, 0, 0, 0];
    expected.extend_from_slice(&[0u8; 28]);
    assert_eq!(n, 39);
    assert_eq!(&buf[..n], expected.as_slice());

    let mut frame = [0xFFu8; REPORT_FRAME_BYTES];
    let f = serialize_report(report, &mut frame).unwrap();
    let mut expected_frame = vec![1u8, 1, 4, 1, 0xE8, 3];
    expected_frame.extend_from_slice(&[1u8; 34]);
    expected_frame.push(0);
    assert_eq!(f, 41);
    assert_eq!(&frame[..f], expected_frame.as_slice());
    assert!(frame[..f - 1].iter().all(|b| *b != 0));
    assert_eq!(deserialize_report(&mut frame[..f]).unwrap(), report);
}

#[test]
fn largest_frames_fit_published_sizes() {
    let report = Report {
        setpoint: full_setpoint(),
        app_state: AppState::Running,
        measurements: sample_measurements(),
    };
    let mut frame = [0u8; REPORT_FRAME_BYTES];
    let n = serialize_report(report, &mut frame).unwrap();
    assert_eq!(n, REPORT_FRAME_BYTES);
    assert_eq!(frame.iter().filter(|b| **b == 0).count(), 1);
    assert_eq!(frame[n - 1], 0);
    assert_eq!(deserialize_report(&mut frame[..n]).unwrap(), report);
    // without the delimiter too
    assert_eq!(deserialize_report(&mut frame[..n - 1]).unwrap(), report);

    let mut sframe = [0u8; SETPOINT_FRAME_BYTES];
    let m = serialize_setpoint(full_setpoint(), &mut sframe).unwrap();
    assert_eq!(m, SETPOINT_FRAME_BYTES);
}

#[test]
fn encode_into_small_buffer_fails_untouched() {
    let report = Report {
        setpoint: full_setpoint(),
        app_state: AppState::StandBy,
        measurements: sample_measurements(),
    };
    let mut buf = [7u8; REPORT_BYTES - 1];
    assert_eq!(encode_report(report, &mut buf), Err(CodecError::BufferTooSmall));
    assert!(buf.iter().all(|b| *b == 7));
    let mut fbuf = [7u8; REPORT_FRAME_BYTES - 1];
    assert_eq!(serialize_report(report, &mut fbuf), Err(CodecError::BufferTooSmall));
    assert!(fbuf.iter().all(|b| *b == 7));
    let mut sbuf = [7u8; 1];
    assert_eq!(encode_setpoint(Setpoint::default(), &mut sbuf), Err(CodecError::BufferTooSmall));
    assert_eq!(sbuf, [7]);
}

#[test]
fn truncated_input_is_unexpected_end() {
    let mut buf = [0u8; REPORT_BYTES];
    let report = Report {
        setpoint: full_setpoint(),
        app_state: AppState::Running,
        measurements: sample_measurements(),
    };
    encode_report(report, &mut buf).unwrap();
    for cut in [0usize, 1, 10, 17, 30, 31, 66] {
        assert_eq!(decode_report(&buf[..cut]), Err(CodecError::UnexpectedEnd));
    }
    assert_eq!(decode_setpoint(&[1u8, 0, 0]), Err(CodecError::UnexpectedEnd));
    assert_eq!(decode_measurements(&[0u8; 35]), Err(CodecError::UnexpectedEnd));
}

#[test]
fn bad_tags_are_invalid_discriminant() {
    assert_eq!(decode_setpoint(&[2u8, 0]), Err(CodecError::InvalidDiscriminant));
    assert_eq!(decode_setpoint(&[0u8, 9]), Err(CodecError::InvalidDiscriminant));
    let mut buf = [0u8; REPORT_BYTES];
    let report = Report {
        setpoint: Setpoint::default(),
        app_state: AppState::Fault,
        measurements: zero_measurements(5),
    };
    encode_report(report, &mut buf).unwrap();
    assert_eq!(buf[2], 2);
    buf[2] = 3;
    assert_eq!(decode_report(&buf), Err(CodecError::InvalidDiscriminant));
}

#[test]
fn malformed_stuffing_is_frame_corrupt() {
    let mut out = [0u8; 16];
    assert_eq!(unframe(&[], &mut out), Err(CodecError::FrameCorrupt));
    assert_eq!(unframe(&[5, 1, 0], &mut out), Err(CodecError::FrameCorrupt));
    assert_eq!(deserialize_setpoint(&mut [3u8, 1, 0]), Err(CodecError::FrameCorrupt));
}

#[test]
fn stuffing_removes_zeros_and_is_undone() {
    let payload = [0u8, 5, 0, 0, 9];
    let mut frame = [0xEEu8; 10];
    let n = frame_payload(&payload, &mut frame).unwrap();
    assert_eq!(n, payload.len() + 2);
    assert_eq!(&frame[..n], &[1u8, 2, 5, 1, 2, 9, 0]);
    assert_eq!(frame[n], 0xEE);
    let mut out = [0u8; 5];
    assert_eq!(unframe(&frame[..n], &mut out), Ok(5));
    assert_eq!(out, payload);
    let mut small = [0u8; 6];
    assert_eq!(frame_payload(&payload, &mut small), Err(CodecError::BufferTooSmall));
}

#[test]
fn receiver_resynchronises_after_garbage() {
    let first = Report {
        setpoint: Setpoint::default(),
        app_state: AppState::StandBy,
        measurements: zero_measurements(1),
    };
    let second = Report {
        setpoint: full_setpoint(),
        app_state: AppState::Running,
        measurements: sample_measurements(),
    };
    let mut f1 = [0u8; REPORT_FRAME_BYTES];
    let n1 = serialize_report(first, &mut f1).unwrap();
    let mut f2 = [0u8; REPORT_FRAME_BYTES];
    let n2 = serialize_report(second, &mut f2).unwrap();
    let garbage = [0x11u8, 0x22, 0x33, 0xFF, 0x01];
    let mut stream = Vec::new();
    stream.extend_from_slice(&f1[..n1]);
    stream.extend_from_slice(&garbage);
    stream.push(0);
    stream.extend_from_slice(&f2[..n2]);

    // a receiver that starts inside the garbage
    let start = n1 + 2;
    let skip = next_delimiter(&stream, start).unwrap();
    assert_eq!(skip, n1 + garbage.len());
    let end = next_delimiter(&stream, skip + 1).unwrap();
    assert_eq!(end, stream.len() - 1);
    let mut chunk = stream[skip + 1..=end].to_vec();
    assert_eq!(deserialize_report(&mut chunk).unwrap(), second);
    // the first frame is still read from the start
    let e1 = next_delimiter(&stream, 0).unwrap();
    let mut c1 = stream[..=e1].to_vec();
    assert_eq!(deserialize_report(&mut c1).unwrap(), first);
    assert_eq!(next_delimiter(&stream, end + 1), None);
}

#[test]
fn quantities_keep_their_bits() {
    let p = Pressure::from_bits(100000.0f32.to_bits());
    assert_eq!(f32::from_bits(p.to_bits()), 100000.0);
    assert_eq!(Frequency::zero().to_bits(), 0);
    assert_eq!(VolumeRate::from_bits(42).to_bits(), 42);
}
