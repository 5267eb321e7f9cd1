use raspi_sensor::weight::{adc_data_transform, WeightError, WeightProcessor};

fn hardware_transform(adc_data: i32, zero_offset: i32, factor: f32) -> Option<i32> {
    if factor != 0.0 {
        let valid = adc_data as i64 - zero_offset as i64;
        Some((valid as f32 / factor).round() as i32)
    } else {
        None
    }
}

fn next(state: &mut u64) -> u64 {
    *state = state
        .wrapping_mul(6364136223846793005)
        .wrapping_add(1442695040888963407);
    *state >> 16
}

fn check(adc_data: i32, zero_offset: i32, bits: u32) {
    let expected = hardware_transform(adc_data, zero_offset, f32::from_bits(bits));
    let got = adc_data_transform(adc_data, zero_offset, bits).ok();
    assert_eq!(
        got, expected,
        "adc_data {} zero_offset {} factor bits {:#x}",
        adc_data, zero_offset, bits
    );
}

#[test]
fn transform_divides_and_rounds() {
    let factor = 429.58_f32.to_bits();
    assert_eq!(adc_data_transform(1000, 1000, factor), Ok(0));
    assert_eq!(adc_data_transform(42958 + 1000, 1000, factor), Ok(100));
    assert_eq!(adc_data_transform(1000 - 42958, 1000, factor), Ok(-100));
    assert_eq!(adc_data_transform(130_000, 30_000, 1000.0_f32.to_bits()), Ok(100));
    assert_eq!(adc_data_transform(7, 0, 2.0_f32.to_bits()), Ok(4));
    assert_eq!(adc_data_transform(-7, 0, 2.0_f32.to_bits()), Ok(-4));
    assert_eq!(adc_data_transform(5, 0, 2.0_f32.to_bits()), Ok(3));
    assert_eq!(adc_data_transform(5, 0, (-2.0_f32).to_bits()), Ok(-3));
    assert_eq!(adc_data_transform(1, 0, 4.0_f32.to_bits()), Ok(0));
}

#[test]
fn transform_fails_on_zero_factor() {
    for &(adc_data, zero_offset) in &[
        (0, 0),
        (1, 0),
        (-1, 5),
        (i32::MAX, i32::MIN),
        (i32::MIN, i32::MAX),
        (123_456, 654_321),
    ] {
        assert_eq!(
            adc_data_transform(adc_data, zero_offset, 0.0_f32.to_bits()),
            Err(WeightError::Calibration)
        );
        assert_eq!(
            adc_data_transform(adc_data, zero_offset, (-0.0_f32).to_bits()),
            Err(WeightError::Calibration)
        );
    }
}

#[test]
fn transform_saturates() {
    let tiny = f32::from_bits(1).to_bits();
    assert_eq!(adc_data_transform(1, 0, tiny), Ok(i32::MAX));
    assert_eq!(adc_data_transform(-1, 0, tiny), Ok(i32::MIN));
    assert_eq!(adc_data_transform(i32::MAX, i32::MIN, 1.0_f32.to_bits()), Ok(i32::MAX));
    assert_eq!(adc_data_transform(i32::MIN, i32::MAX, 1.0_f32.to_bits()), Ok(i32::MIN));
    assert_eq!(adc_data_transform(i32::MIN, 0, 1.0_f32.to_bits()), Ok(i32::MIN));
    assert_eq!(adc_data_transform(i32::MAX, 0, 1.0_f32.to_bits()), Ok(i32::MAX));
}

#[test]
fn transform_with_infinite_or_nan_factor_is_zero() {
    for &bits in &[
        f32::INFINITY.to_bits(),
        f32::NEG_INFINITY.to_bits(),
        f32::NAN.to_bits(),
        0x7f80_0001,
        0xffff_ffff,
    ] {
        assert_eq!(adc_data_transform(12345, 45, bits), Ok(0));
        assert_eq!(adc_data_transform(-12345, 45, bits), Ok(0));
        assert_eq!(adc_data_transform(0, 0, bits), Ok(0));
    }
}

#[test]
fn transform_agrees_with_hardware_on_edge_factors() {
    let factors: [u32; 24] = [
        0x0000_0001,
        0x0000_0002,
        0x0040_0000,
        0x007f_ffff,
        0x0080_0000,
        0x0080_0001,
        0x3f00_0000,
        0x3f7f_ffff,
        0x3f80_0000,
        0x3f80_0001,
        0x3fff_ffff,
        0x4000_0000,
        0x4b00_0000,
        0x4b7f_ffff,
        0x4b80_0000,
        0x4f00_0000,
        0x4eff_ffff,
        0x5f00_0000,
        0x7f7f_ffff,
        0x7f00_0000,
        0x7f80_0000,
        0x7fc0_0000,
        0x3eaa_aaab,
        0x3e99_999a,
    ];
    let readings: [i32; 22] = [
        0,
        1,
        2,
        3,
        5,
        7,
        100,
        0x7f_ffff,
        0x80_0000,
        0xff_ffff,
        0x100_0000,
        0x100_0001,
        0x100_0003,
        0x1ff_ffff,
        0x200_0002,
        0x3fff_ffc0,
        0x3fff_ffbf,
        0x7fff_ffbf,
        0x7fff_ffc0,
        i32::MAX,
        i32::MIN,
        i32::MIN + 1,
    ];
    for &f in &factors {
        for &sign in &[0u32, 0x8000_0000] {
            for &x in &readings {
                for &z in &[0, 1, -1, 1000, i32::MAX, i32::MIN] {
                    check(x, z, f | sign);
                    check(x.wrapping_neg(), z, f | sign);
                }
            }
        }
    }
}

#[test]
fn transform_agrees_with_hardware_on_many_inputs() {
    let mut state = 0x1234_5678_9abc_def0u64;
    for round in 0..200_000u32 {
        let bits = next(&mut state) as u32;
        let mut adc_data = next(&mut state) as u32 as i32;
        let mut zero_offset = next(&mut state) as u32 as i32;
        if round % 2 == 0 {
            adc_data >>= 8;
            zero_offset >>= 8;
        }
        if round % 3 == 0 {
            zero_offset = 0;
        }
        check(adc_data, zero_offset, bits);
    }
}

#[test]
fn transform_agrees_with_hardware_on_ties() {
    let mut state = 0x0fed_cba9_8765_4321u64;
    for _ in 0..50_000u32 {
        // Factors with few significant bits and readings that are odd
        // multiples of them hit quotients that end in one half.
        let k = (next(&mut state) % 12) as i32;
        let m = (next(&mut state) % 64) as f32 + 1.0;
        let factor = m * 2.0_f32.powi(k - 3);
        let reading = (next(&mut state) % (1 << 26)) as i32;
        check(reading, 0, factor.to_bits());
        check(-reading, 0, factor.to_bits());
        check(reading, 0, (-factor).to_bits());
    }
}

fn hardware_scale(latest: i32, zero_offset: i32, actual_weight: i32) -> u32 {
    let valid = latest as i64 - zero_offset as i64;
    (valid as f32 / actual_weight as f32).to_bits()
}

fn calibrate(latest: i32, zero_offset: i32, actual_weight: i32) -> Result<u32, WeightError> {
    let mut processor = WeightProcessor {
        adc_data_latest_average: latest,
        adc_data_zero_offset: zero_offset,
        adc_data_transform_factor: 0x1234_5678,
    };
    let r = processor.set_transform_factor(actual_weight);
    match r {
        Ok(bits) => assert_eq!(processor.adc_data_transform_factor, bits),
        Err(_) => assert_eq!(processor.adc_data_transform_factor, 0x1234_5678),
    }
    assert_eq!(processor.adc_data_latest_average, latest);
    assert_eq!(processor.adc_data_zero_offset, zero_offset);
    r
}

#[test]
fn calibration_of_known_reference() {
    let bits = calibrate(130_000, 30_000, 100).unwrap();
    assert_eq!(f32::from_bits(bits), 1000.0);
    assert_eq!(bits, 0x447a_0000);
    let bits = calibrate(30_000, 130_000, 100).unwrap();
    assert_eq!(f32::from_bits(bits), -1000.0);
    let bits = calibrate(100_000, 0, 3).unwrap();
    assert_eq!(f32::from_bits(bits), 100_000.0_f32 / 3.0);
}

#[test]
fn calibration_rejects_zero_reference() {
    assert_eq!(calibrate(130_000, 30_000, 0), Err(WeightError::InvalidReference));
    assert_eq!(calibrate(0, 0, 0), Err(WeightError::InvalidReference));
    assert_eq!(calibrate(i32::MIN, i32::MAX, 0), Err(WeightError::InvalidReference));
}

#[test]
fn calibration_of_empty_scale_gives_signed_zero() {
    assert_eq!(calibrate(500, 500, 100), Ok(0));
    assert_eq!(calibrate(500, 500, -100), Ok(0x8000_0000));
}

#[test]
fn calibration_agrees_with_hardware() {
    let mut state = 0x5555_aaaa_1234_4321u64;
    for round in 0..200_000u32 {
        let mut latest = next(&mut state) as u32 as i32;
        let mut zero_offset = next(&mut state) as u32 as i32;
        let mut actual_weight = next(&mut state) as u32 as i32;
        if round % 2 == 0 {
            latest >>= 8;
            zero_offset >>= 8;
        }
        if round % 4 < 2 {
            actual_weight >>= 16;
        }
        if actual_weight == 0 {
            actual_weight = 1;
        }
        assert_eq!(
            calibrate(latest, zero_offset, actual_weight),
            Ok(hardware_scale(latest, zero_offset, actual_weight)),
            "latest {} zero_offset {} reference {}",
            latest,
            zero_offset,
            actual_weight
        );
    }
    for &w in &[1, -1, i32::MAX, i32::MIN, 0xff_ffff, 0x100_0001, 0x7fff_ffc0] {
        for &(latest, zero) in &[(i32::MAX, i32::MIN), (i32::MIN, i32::MAX), (1, 0), (0, 1)] {
            assert_eq!(calibrate(latest, zero, w), Ok(hardware_scale(latest, zero, w)));
        }
    }
}
