use lens_driver::{
    current_to_raw, encode, i16_to_be, LensDriver, LensError, LensMode, ScriptedTransport,
    Transport,
};

/// A device reply: the payload framed with its checksum and the terminator.
fn reply(payload: &[u8]) -> Vec<u8> {
    let mut raw = encode(payload);
    raw.push(b'\r');
    raw.push(b'\n');
    raw
}

/// Everything the device says during session construction: the handshake
/// greeting, firmware type, firmware version, maximum output current (in
/// hundredths of a mA, big-endian) and the active-mode report.
fn session_script(fw_type: u8, max_raw: i16, mode_tag: u8) -> Vec<u8> {
    let mut input = Vec::new();
    input.extend_from_slice(b"Ready\r\n");
    input.extend_from_slice(&reply(&[fw_type]));
    input.extend_from_slice(&reply(&[1, 2, 0, 3, 0, 4]));
    input.extend_from_slice(&reply(&max_raw.to_be_bytes()));
    input.extend_from_slice(&reply(&[mode_tag]));
    input
}

/// A connected session over a script that begins with discovery and continues
/// with the given later replies.
fn connect(fw_type: u8, mode_tag: u8, later: &[Vec<u8>]) -> LensDriver<ScriptedTransport> {
    let mut input = session_script(fw_type, 29_284, mode_tag);
    for r in later {
        input.extend_from_slice(r);
    }
    LensDriver::new(ScriptedTransport::new(input)).unwrap()
}

#[test]
fn session_discovers_the_device_profile() {
    let driver = connect(b'A', 1, &[]);
    assert_eq!(driver.firmware_type(), b'A');
    assert_eq!(driver.firmware_version(), (1, 2, 3, 4));
    assert_eq!(driver.max_output_current(), 292_840);
    assert_eq!(driver.mode(), Some(LensMode::Current));
}

#[test]
fn session_reports_focal_power_and_unknown_modes() {
    assert_eq!(connect(b'A', 5, &[]).mode(), Some(LensMode::FocalPower));
    assert_eq!(connect(b'A', 99, &[]).mode(), None);
}

#[test]
fn construction_fails_on_any_other_handshake_reply() {
    for wrong in [
        b"Ready\r\r".to_vec(),
        b"Ready!\n".to_vec(),
        b"ready\r\n".to_vec(),
        b"NotOkay".to_vec(),
        vec![0u8; 7],
    ] {
        let mut input = wrong.clone();
        input.extend_from_slice(&session_script(b'A', 29_284, 1)[7..]);
        let r = LensDriver::new(ScriptedTransport::new(input));
        assert!(matches!(r, Err(LensError::HandshakeFailed)), "reply {:?}", wrong);
    }
}

#[test]
fn construction_fails_when_the_channel_fails() {
    let r = LensDriver::new(ScriptedTransport::failing_writes());
    assert!(matches!(r, Err(LensError::Transport)));
}

#[test]
fn construction_rejects_a_nonpositive_maximum_current() {
    let input = session_script(b'A', 0, 1);
    let r = LensDriver::new(ScriptedTransport::new(input));
    assert!(matches!(r, Err(LensError::UnexpectedResponse)));
}

#[test]
fn test_temperature_reading() {
    // The device reports sixteenths of a degree: 400 is 25 °C.
    let mut driver = connect(b'A', 1, &[reply(&400i16.to_be_bytes())]);
    let temp = driver.get_temperature().unwrap() as f64 / 1000.0;
    assert!(temp > -40.0 && temp < 125.0);
    assert_eq!(temp, 25.0);
}

#[test]
fn current_reads_back_scaled_by_the_device_maximum() {
    let mut driver = connect(b'A', 1, &[reply(&699i16.to_be_bytes())]);
    let ma = driver.get_current().unwrap() as f64 / 1000.0;
    assert!((ma - 50.0).abs() < 0.1, "got {} mA", ma);
}

#[test]
fn diopter_reads_apply_the_firmware_offset() {
    // A raw diopter report of 0 under firmware type 'A' reads as -5.0 dpt ...
    let mut driver = connect(b'A', 5, &[reply(&0i16.to_be_bytes())]);
    assert_eq!(driver.get_diopter().unwrap(), -5_000);
    // ... and as 0.0 dpt under any other firmware type.
    let mut driver = connect(b'B', 5, &[reply(&0i16.to_be_bytes())]);
    assert_eq!(driver.get_diopter().unwrap(), 0);
}

#[test]
fn set_current_is_gated_on_current_mode() {
    let mut driver = connect(b'A', 5, &[]);
    assert_eq!(
        driver.set_current(50_000),
        Err(LensError::WrongMode { expected: LensMode::Current, actual: Some(LensMode::FocalPower) })
    );
    let mut driver = connect(b'A', 99, &[]);
    assert_eq!(
        driver.set_current(50_000),
        Err(LensError::WrongMode { expected: LensMode::Current, actual: None })
    );
}

#[test]
fn set_current_succeeds_in_current_mode_and_frames_the_wire_value() {
    let mut driver = connect(b'A', 1, &[]);
    let before = driver.transport_ref().written_bytes().len();
    assert_eq!(driver.set_current(50_000), Ok(()));
    let written = driver.transport_ref().written_bytes();
    // Opcode Aw followed by the big-endian wire integer for 50 mA of 292.84.
    let (hi, lo) = i16_to_be(699);
    assert_eq!(&written[before..], encode(&[b'A', b'w', hi, lo]).as_slice());
}

#[test]
fn set_diopter_is_gated_on_focal_power_mode() {
    let mut driver = connect(b'A', 1, &[]);
    assert_eq!(
        driver.set_diopter(1_000),
        Err(LensError::WrongMode { expected: LensMode::FocalPower, actual: Some(LensMode::Current) })
    );
}

#[test]
fn set_diopter_succeeds_in_focal_power_mode_and_frames_the_wire_value() {
    let mut driver = connect(b'A', 5, &[]);
    let before = driver.transport_ref().written_bytes().len();
    assert_eq!(driver.set_diopter(0), Ok(()));
    let written = driver.transport_ref().written_bytes();
    // (0 + 5000) / 5 = wire 1000 under firmware type 'A', padded by two bytes.
    let (hi, lo) = i16_to_be(1000);
    assert_eq!(&written[before..], encode(&[b'P', b'w', b'D', b'A', hi, lo, 0, 0]).as_slice());
}

#[test]
fn set_mode_current_updates_the_tracked_mode() {
    let mut driver = connect(b'A', 5, &[]);
    assert_eq!(driver.set_mode(LensMode::Current), Ok(None));
    assert_eq!(driver.mode(), Some(LensMode::Current));
}

#[test]
fn set_mode_focal_power_returns_the_offset_range() {
    // Reply: a status byte, max 4000 (20.0 dpt raw), min 0; firmware 'A'
    // shifts both down by five diopters.
    let range_reply = reply(&[0, 0x0F, 0xA0, 0x00, 0x00]);
    let mut driver = connect(b'A', 1, &[range_reply.clone()]);
    assert_eq!(driver.set_mode(LensMode::FocalPower), Ok(Some((-5_000, 15_000))));
    assert_eq!(driver.mode(), Some(LensMode::FocalPower));

    let mut driver = connect(b'B', 1, &[range_reply]);
    assert_eq!(driver.set_mode(LensMode::FocalPower), Ok(Some((0, 20_000))));
}

#[test]
fn set_mode_failure_leaves_the_tracked_mode_alone() {
    // The focal-power switch needs a five-byte reply; the script is empty, so
    // the read times out and the exchange fails.
    let mut driver = connect(b'A', 1, &[]);
    assert_eq!(driver.set_mode(LensMode::FocalPower), Err(LensError::Transport));
    assert_eq!(driver.mode(), Some(LensMode::Current));
}

#[test]
fn send_rejects_a_corrupted_checksum_and_returns_no_payload() {
    let mut corrupted = reply(&400i16.to_be_bytes());
    corrupted[2] ^= 0x01; // flip a bit of the checksum's low byte
    let mut driver = connect(b'A', 1, &[corrupted]);
    assert_eq!(driver.get_temperature(), Err(LensError::CrcError));
}

#[test]
fn send_rejects_a_corrupted_payload() {
    let mut corrupted = reply(&400i16.to_be_bytes());
    corrupted[0] ^= 0x80;
    let mut driver = connect(b'A', 1, &[corrupted]);
    assert_eq!(driver.get_temperature(), Err(LensError::CrcError));
}

#[test]
fn send_rejects_a_missing_terminator() {
    let mut bad = reply(&400i16.to_be_bytes());
    let n = bad.len();
    bad[n - 2] = b'X';
    let mut driver = connect(b'A', 1, &[bad]);
    assert_eq!(driver.get_temperature(), Err(LensError::UnexpectedResponse));
}

#[test]
fn a_timeout_before_the_full_reply_is_a_dispatch_failure() {
    let mut driver = connect(b'A', 1, &[]);
    assert_eq!(driver.get_temperature(), Err(LensError::Transport));
    // Fewer bytes than the reply needs count as a timeout, not a short frame.
    let mut driver = connect(b'A', 1, &[b"Read".to_vec()]);
    assert_eq!(driver.get_temperature(), Err(LensError::Transport));
}

#[test]
fn a_failed_exchange_does_not_invalidate_the_session() {
    let mut driver = connect(b'A', 1, &[reply(&400i16.to_be_bytes())]);
    assert!(driver.set_diopter(0).is_err());
    assert_eq!(driver.get_temperature().unwrap(), 25_000);
}

#[test]
fn variable_framing_accepts_whatever_arrived_before_the_timeout() {
    let payload = [0x11u8, 0x22, 0x33];
    let mut tail = encode(&payload);
    tail.push(0x00);
    tail.push(0x00);
    let mut driver = connect(b'A', 1, &[tail]);
    assert_eq!(driver.send_command_variable(&[0x58], 64), Ok(payload.to_vec()));
}

#[test]
fn ramp_to_zero_issues_one_setter_per_schedule_step() {
    // From a reading of 699 wire counts (just under 50 mA), five steps.
    let mut driver = connect(b'A', 1, &[reply(&699i16.to_be_bytes())]);
    let before = driver.transport_ref().written_bytes().len();
    assert_eq!(driver.ramp_to_zero(1_000, 5), Ok(()));
    let written = driver.transport_ref().written_bytes();

    let start: i64 = 49_987; // round(699 × 292840 / 4095) milli-mA
    let mut expected = encode(&[b'A', b'r', 0, 0]);
    for i in 0..=5u32 {
        let target = lens_driver::round_div_i64(start * (5 - i as i64), 5);
        let (hi, lo) = i16_to_be(current_to_raw(target, 292_840));
        expected.extend_from_slice(&encode(&[b'A', b'w', hi, lo]));
    }
    assert_eq!(&written[before..], expected.as_slice());
}

#[test]
fn ramp_to_zero_needs_a_determined_mode() {
    let mut driver = connect(b'A', 99, &[]);
    assert_eq!(driver.ramp_to_zero(1_000, 5), Err(LensError::InvalidMode));
}

#[test]
fn ramp_to_zero_ramps_the_diopter_in_focal_power_mode() {
    let mut driver = connect(b'A', 5, &[reply(&1000i16.to_be_bytes())]);
    let before = driver.transport_ref().written_bytes().len();
    assert_eq!(driver.ramp_to_zero(500, 2), Ok(()));
    let written = driver.transport_ref().written_bytes();

    // Reading: 1000 × 5 − 5000 = 0 milli-diopters, so every target is zero.
    let mut expected = encode(&[b'P', b'r', b'D', b'A', 0, 0, 0, 0]);
    let (hi, lo) = i16_to_be(1000); // wire for 0 milli-diopters under 'A'
    for _ in 0..3 {
        expected.extend_from_slice(&encode(&[b'P', b'w', b'D', b'A', hi, lo, 0, 0]));
    }
    assert_eq!(&written[before..], expected.as_slice());
}

#[test]
fn close_needs_a_determined_mode() {
    let mut driver = connect(b'A', 99, &[]);
    assert_eq!(driver.close(), Err(LensError::InvalidMode));
}

#[test]
fn a_session_consumes_exactly_the_scripted_discovery_traffic() {
    let driver = connect(b'A', 1, &[]);
    assert_eq!(driver.transport_ref().remaining(), 0);
}

#[test]
fn mode_reports_decode_to_the_two_known_modes() {
    assert_eq!(lens_driver::mode_from_u8(1), Some(LensMode::Current));
    assert_eq!(lens_driver::mode_from_u8(5), Some(LensMode::FocalPower));
    assert_eq!(lens_driver::mode_from_u8(0), None);
    assert_eq!(lens_driver::mode_from_u8(255), None);
}

#[test]
fn check_handshake_accepts_the_greeting_alone() {
    assert_eq!(lens_driver::check_handshake(b"Ready\r\n"), Ok(()));
    assert_eq!(lens_driver::check_handshake(b"Ready\n\r"), Err(LensError::HandshakeFailed));
    assert_eq!(lens_driver::check_handshake(b"Ready"), Err(LensError::HandshakeFailed));
}

#[test]
fn ramp_to_zero_stops_at_the_first_failed_setter() {
    // Five discovery writes, the read-back query, then two setters succeed;
    // the third setter's write fails at the channel.
    let mut input = session_script(b'A', 29_284, 1);
    input.extend_from_slice(&reply(&699i16.to_be_bytes()));
    let mut driver = LensDriver::new(ScriptedTransport::failing_writes_after(input, 8)).unwrap();
    let before = driver.transport_ref().written_bytes().len();

    assert_eq!(driver.ramp_to_zero(1_000, 5), Err(LensError::Transport));

    let written = driver.transport_ref().written_bytes();
    let start: i64 = 49_987;
    let mut expected = encode(&[b'A', b'r', 0, 0]);
    for i in 0..2u32 {
        let target = lens_driver::round_div_i64(start * (5 - i as i64), 5);
        let (hi, lo) = i16_to_be(current_to_raw(target, 292_840));
        expected.extend_from_slice(&encode(&[b'A', b'w', hi, lo]));
    }
    // Nothing was issued beyond the failed step.
    assert_eq!(&written[before..], expected.as_slice());
    // Only the two completed steps were paced.
    assert_eq!(driver.transport_ref().paused_millis(), &vec![200, 200]);
}

#[test]
fn ramp_to_zero_paces_the_steps_evenly() {
    let mut driver = connect(b'A', 1, &[reply(&699i16.to_be_bytes())]);
    assert_eq!(driver.ramp_to_zero(1_000, 5), Ok(()));
    assert_eq!(driver.transport_ref().paused_millis(), &vec![200, 200, 200, 200, 200, 200]);
}

#[test]
fn ramp_to_zero_rejects_an_out_of_range_reading() {
    // Raw 32767 reads as about 2622 mA, far beyond the 292.84 mA maximum.
    let mut driver = connect(b'A', 1, &[reply(&32767i16.to_be_bytes())]);
    let before = driver.transport_ref().written_bytes().len();
    assert_eq!(driver.ramp_to_zero(1_000, 5), Err(LensError::UnexpectedResponse));
    // The read-back query went out; no setter was issued on the bad reading.
    let written = driver.transport_ref().written_bytes();
    assert_eq!(&written[before..], encode(&[b'A', b'r', 0, 0]).as_slice());
}

#[test]
fn ramp_start_and_maximum_current_acceptance_rules() {
    assert_eq!(lens_driver::check_ramp_start(292_840, 292_840), Ok(292_840));
    assert_eq!(lens_driver::check_ramp_start(-292_840, 292_840), Ok(-292_840));
    assert_eq!(
        lens_driver::check_ramp_start(292_841, 292_840),
        Err(LensError::UnexpectedResponse)
    );
    assert_eq!(lens_driver::check_max_output_current(1), Ok(1));
    assert_eq!(lens_driver::check_max_output_current(292_840), Ok(292_840));
    assert_eq!(
        lens_driver::check_max_output_current(0),
        Err(LensError::UnexpectedResponse)
    );
    assert_eq!(
        lens_driver::check_max_output_current(-10),
        Err(LensError::UnexpectedResponse)
    );
}

#[test]
fn variable_framing_rejects_fewer_than_four_trailing_bytes() {
    let mut driver = connect(b'A', 1, &[vec![0x01, 0x02]]);
    assert_eq!(driver.send_command_variable(&[0x58], 64), Err(LensError::ShortResponse));
}

#[test]
fn close_performs_the_teardown_ramp() {
    let mut driver = connect(b'A', 1, &[reply(&0i16.to_be_bytes())]);
    let before = driver.transport_ref().written_bytes().len();
    assert_eq!(driver.close(), Ok(()));
    let written = driver.transport_ref().written_bytes();
    // One read of the current, then fifty-one zero setters.
    let (hi, lo) = i16_to_be(0);
    let setter = encode(&[b'A', b'w', hi, lo]);
    let mut expected = encode(&[b'A', b'r', 0, 0]);
    for _ in 0..51 {
        expected.extend_from_slice(&setter);
    }
    assert_eq!(&written[before..], expected.as_slice());
}
