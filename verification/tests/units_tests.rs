use lens_driver::{
    current_from_raw, current_to_raw, diopter_from_raw, diopter_to_raw, i16_from_be, i16_to_be,
    max_current_from_raw, ramp_targets, temperature_from_raw, u16_from_le, u16_to_le,
    version_from_payload,
};

#[test]
fn current_of_50_ma_encodes_to_wire_699() {
    // 50.0 mA against the default ceiling of 292.84 mA.
    assert_eq!(current_to_raw(50_000, 292_840), 699);
}

#[test]
fn wire_699_decodes_back_to_just_under_50_ma() {
    let milli_ma = current_from_raw(699, 292_840);
    let ma = milli_ma as f64 / 1000.0;
    assert!((ma - 50.0).abs() < 0.1, "got {} mA", ma);
}

#[test]
fn current_conversion_is_exact_at_zero_and_full_scale() {
    assert_eq!(current_to_raw(0, 292_840), 0);
    assert_eq!(current_to_raw(292_840, 292_840), 4095);
    assert_eq!(current_to_raw(-292_840, 292_840), -4095);
    assert_eq!(current_from_raw(0, 292_840), 0);
    assert_eq!(current_from_raw(4095, 292_840), 292_840);
}

#[test]
fn diopter_offset_applies_for_firmware_type_a_only() {
    // A device-reported raw diopter of 0.
    assert_eq!(diopter_from_raw(0, b'A'), -5_000);
    assert_eq!(diopter_from_raw(0, b'B'), 0);
    assert_eq!(diopter_from_raw(0, 0), 0);
}

#[test]
fn diopter_conversions_round_trip_through_the_wire_integer() {
    for fw in [b'A', b'B'] {
        for value in [-3_000i64, 0, 1_500, 4_995] {
            let raw = diopter_to_raw(value, fw);
            assert_eq!(diopter_from_raw(raw, fw), value, "fw {} value {}", fw, value);
        }
    }
}

#[test]
fn diopter_to_raw_shifts_by_a_thousand_counts_for_type_a() {
    assert_eq!(diopter_to_raw(0, b'A'), 1000);
    assert_eq!(diopter_to_raw(0, b'B'), 0);
    assert_eq!(diopter_to_raw(-5_000, b'A'), 0);
}

#[test]
fn temperature_reads_sixteenths_of_a_degree() {
    assert_eq!(temperature_from_raw(400), 25_000);
    assert_eq!(temperature_from_raw(0), 0);
    assert_eq!(temperature_from_raw(-16), -1_000);
    assert_eq!(temperature_from_raw(1), 63); // 0.0625 °C rounds to 63 milli-°C
}

#[test]
fn max_current_reads_hundredths_of_a_milliamp() {
    assert_eq!(max_current_from_raw(29_284), 292_840);
    assert_eq!(max_current_from_raw(0), 0);
}

#[test]
fn version_splits_major_minor_and_two_be16_fields() {
    let payload = [3u8, 9, 0x01, 0x02, 0xFF, 0xFE];
    assert_eq!(version_from_payload(&payload), (3, 9, 0x0102, 0xFFFE));
}

#[test]
fn wire_words_round_trip_in_both_byte_orders() {
    let (lo, hi) = u16_to_le(0xBEEF);
    assert_eq!((lo, hi), (0xEF, 0xBE));
    assert_eq!(u16_from_le(lo, hi), 0xBEEF);

    let (hi, lo) = i16_to_be(-2);
    assert_eq!((hi, lo), (0xFF, 0xFE));
    assert_eq!(i16_from_be(hi, lo), -2);
    let (hi, lo) = i16_to_be(699);
    assert_eq!((hi, lo), (0x02, 0xBB));
    assert_eq!(i16_from_be(hi, lo), 699);
}

#[test]
fn ramp_schedule_is_evenly_spaced_and_inclusive() {
    // A ramp from 50.0 mA in five steps.
    assert_eq!(ramp_targets(50_000, 5), vec![50_000, 40_000, 30_000, 20_000, 10_000, 0]);
    assert_eq!(ramp_targets(-10_000, 4), vec![-10_000, -7_500, -5_000, -2_500, 0]);
    assert_eq!(ramp_targets(0, 2), vec![0, 0, 0]);
    assert_eq!(ramp_targets(7, 1), vec![7, 0]);
}
