use raspi_sensor::weight::{
    adc_data_transform, is_stable, weight_status, Sampler, WeightError, WeightProcessor,
    WeightStatus, MAX_WEIGHT,
};
use std::collections::VecDeque;

const FACTOR: f32 = 429.58;

fn bits(f: f32) -> u32 {
    f.to_bits()
}

fn entries(window: &raspi_sensor::window::BoundedWindow) -> Vec<i32> {
    window.items().iter().copied().collect()
}

#[test]
fn stability_needs_a_full_window_of_equal_weights() {
    let factor = bits(100.0);
    let same = VecDeque::from(vec![1000, 1010, 990]);
    assert_eq!(adc_data_transform(1000, 0, factor), Ok(10));
    assert_eq!(adc_data_transform(1010, 0, factor), Ok(10));
    assert_eq!(adc_data_transform(990, 0, factor), Ok(10));
    assert!(is_stable(&same, 3, 0, factor));
    let one_differs = VecDeque::from(vec![1000, 1010, 1051]);
    assert_eq!(adc_data_transform(1051, 0, factor), Ok(11));
    assert!(!is_stable(&one_differs, 3, 0, factor));
    assert!(!is_stable(&VecDeque::from(vec![1051, 1010, 1000]), 3, 0, factor));
    assert!(!is_stable(&VecDeque::from(vec![1000, 1051, 1000]), 3, 0, factor));
}

#[test]
fn stability_is_false_below_capacity() {
    let factor = bits(100.0);
    assert!(!is_stable(&VecDeque::new(), 3, 0, factor));
    assert!(!is_stable(&VecDeque::from(vec![1000]), 3, 0, factor));
    assert!(!is_stable(&VecDeque::from(vec![1000, 1000]), 3, 0, factor));
    assert!(is_stable(&VecDeque::from(vec![1000, 1000, 1000]), 3, 0, factor));
    assert!(is_stable(&VecDeque::from(vec![1000, 1000, 1000, 1000]), 3, 0, factor));
}

#[test]
fn stability_is_false_without_factor() {
    assert!(!is_stable(&VecDeque::from(vec![1000, 1000, 1000]), 3, 0, bits(0.0)));
    assert!(!is_stable(&VecDeque::from(vec![1000, 1000, 1000]), 3, 0, bits(-0.0)));
    assert!(is_stable(&VecDeque::new(), 0, 0, bits(0.0)));
}

#[test]
fn stability_compares_weights_not_readings() {
    // With a factor of 500 the readings 1000, 1200 and 800 are 2, 2.4 and
    // 1.6: each weighs 2.
    let factor = bits(500.0);
    assert!(is_stable(&VecDeque::from(vec![1000, 1200, 800]), 3, 0, factor));
    assert!(!is_stable(&VecDeque::from(vec![1000, 1250, 800]), 3, 0, factor));
    // The tare offset takes part in the comparison.
    assert!(is_stable(&VecDeque::from(vec![1000, 1200, 800]), 3, 50, factor));
    assert!(!is_stable(&VecDeque::from(vec![1000, 1200, 800]), 3, 51, factor));
}

#[test]
fn status_priority() {
    let factor = bits(1.0);
    let stable_window = VecDeque::from(vec![120, 120, 120]);
    let unstable_window = VecDeque::from(vec![120, 121, 120]);
    for window in [&stable_window, &unstable_window, &VecDeque::new()] {
        assert_eq!(weight_status(-5, window, 3, 0, factor), WeightStatus::Underload);
        assert_eq!(weight_status(-1, window, 3, 0, factor), WeightStatus::Underload);
        assert_eq!(weight_status(i32::MIN, window, 3, 0, factor), WeightStatus::Underload);
        assert_eq!(weight_status(6000, window, 3, 0, factor), WeightStatus::Overload);
        assert_eq!(weight_status(5001, window, 3, 0, factor), WeightStatus::Overload);
        assert_eq!(weight_status(i32::MAX, window, 3, 0, factor), WeightStatus::Overload);
    }
    assert_eq!(weight_status(120, &stable_window, 3, 0, factor), WeightStatus::Stable);
    assert_eq!(weight_status(120, &unstable_window, 3, 0, factor), WeightStatus::Unstable);
    assert_eq!(weight_status(0, &stable_window, 3, 0, factor), WeightStatus::Stable);
    assert_eq!(weight_status(5000, &stable_window, 3, 0, factor), WeightStatus::Stable);
    assert_eq!(weight_status(5000, &unstable_window, 3, 0, factor), WeightStatus::Unstable);
    assert_eq!(MAX_WEIGHT, 5000);
}

#[test]
fn status_codes() {
    assert_eq!(WeightStatus::Unstable.code(), 0);
    assert_eq!(WeightStatus::Stable.code(), 1);
    assert_eq!(WeightStatus::Underload.code(), 2);
    assert_eq!(WeightStatus::Overload.code(), 3);
    assert_eq!(WeightStatus::Error.code(), 4);
}

#[test]
fn tare_takes_the_latest_average() {
    let mut processor = WeightProcessor {
        adc_data_latest_average: 4321,
        adc_data_zero_offset: 17,
        adc_data_transform_factor: bits(FACTOR),
    };
    processor.set_tare_weight();
    assert_eq!(processor.adc_data_zero_offset, 4321);
    assert_eq!(processor.adc_data_latest_average, 4321);
    assert_eq!(processor.adc_data_transform_factor, bits(FACTOR));
}

#[test]
fn tare_twice_is_tare_once() {
    let mut processor = WeightProcessor {
        adc_data_latest_average: -77,
        adc_data_zero_offset: 5,
        adc_data_transform_factor: bits(FACTOR),
    };
    processor.set_tare_weight();
    let first = processor;
    processor.set_tare_weight();
    assert_eq!(first.adc_data_zero_offset, -77);
    assert_eq!(processor.adc_data_zero_offset, first.adc_data_zero_offset);
    assert_eq!(processor, first);
}

#[test]
fn calibrate_zero_leaves_factor_unchanged() {
    let mut processor = WeightProcessor {
        adc_data_latest_average: 130_000,
        adc_data_zero_offset: 30_000,
        adc_data_transform_factor: bits(FACTOR),
    };
    let before = processor;
    assert_eq!(processor.set_transform_factor(0), Err(WeightError::InvalidReference));
    assert_eq!(processor, before);
    assert_eq!(processor.set_transform_factor(100), Ok(bits(1000.0)));
    assert_eq!(f32::from_bits(processor.adc_data_transform_factor), 1000.0);
    assert_eq!(processor.adc_data_latest_average, 130_000);
    assert_eq!(processor.adc_data_zero_offset, 30_000);
}

#[test]
fn warm_up_seeds_offset_and_average() {
    let readings: Vec<Option<i32>> = vec![Some(1000); 10];
    let (processor, sampler) = WeightProcessor::new(5, 3, bits(FACTOR), &readings);
    assert_eq!(processor.adc_data_zero_offset, 1000);
    assert_eq!(processor.adc_data_latest_average, 1000);
    assert_eq!(processor.adc_data_transform_factor, bits(FACTOR));
    assert_eq!(entries(&sampler.buffer), vec![1000; 5]);
    assert_eq!(entries(&sampler.stability), vec![1000]);
    assert_eq!(sampler.buffer.capacity(), 5);
    assert_eq!(sampler.stability.capacity(), 3);
}

#[test]
fn warm_up_skips_failed_reads() {
    let readings = vec![None, Some(10), None, Some(20), Some(60), None];
    let (processor, sampler) = WeightProcessor::new(5, 3, bits(1.0), &readings);
    assert_eq!(entries(&sampler.buffer), vec![10, 20, 60]);
    assert_eq!(processor.adc_data_zero_offset, 30);
    assert_eq!(processor.adc_data_latest_average, 30);
    assert_eq!(entries(&sampler.stability), vec![30]);

    let (processor, sampler) = WeightProcessor::new(2, 3, bits(1.0), &readings);
    assert_eq!(entries(&sampler.buffer), vec![20, 60]);
    assert_eq!(processor.adc_data_zero_offset, 40);

    let (processor, sampler) = WeightProcessor::new(5, 3, bits(1.0), &vec![None; 10]);
    assert!(entries(&sampler.buffer).is_empty());
    assert_eq!(processor.adc_data_zero_offset, 0);
    assert_eq!(processor.adc_data_latest_average, 0);
    assert_eq!(entries(&sampler.stability), vec![0]);

    let (processor, sampler) = WeightProcessor::new(5, 3, bits(1.0), &Vec::new());
    assert!(entries(&sampler.buffer).is_empty());
    assert_eq!(processor.adc_data_zero_offset, 0);
    assert_eq!(entries(&sampler.stability), vec![0]);
}

#[test]
fn end_to_end_scenario() {
    let readings: Vec<Option<i32>> = vec![Some(1000); 10];
    let (mut processor, mut sampler) = WeightProcessor::new(5, 3, bits(FACTOR), &readings);
    assert_eq!(processor.adc_data_zero_offset, 1000);
    assert_eq!(processor.adc_data_latest_average, 1000);
    // The warm-up left one average in the stability window: it takes two
    // more cycles to fill it.
    assert_eq!(sampler.cycle(&mut processor, Some(1000)), (0, WeightStatus::Unstable));
    assert_eq!(sampler.cycle(&mut processor, Some(1000)), (0, WeightStatus::Stable));
    assert_eq!(sampler.cycle(&mut processor, Some(1000)), (0, WeightStatus::Stable));
    assert_eq!(entries(&sampler.stability), vec![1000, 1000, 1000]);
    assert_eq!(processor.adc_data_latest_average, 1000);
}

#[test]
fn cycle_reports_failed_read_and_keeps_state() {
    let readings: Vec<Option<i32>> = vec![Some(1000); 10];
    let (mut processor, mut sampler) = WeightProcessor::new(5, 3, bits(FACTOR), &readings);
    sampler.cycle(&mut processor, Some(1200));
    let before = processor;
    let buffer = entries(&sampler.buffer);
    let stability = entries(&sampler.stability);
    assert_eq!(sampler.cycle(&mut processor, None), (0, WeightStatus::Error));
    assert_eq!(processor, before);
    assert_eq!(entries(&sampler.buffer), buffer);
    assert_eq!(entries(&sampler.stability), stability);
}

#[test]
fn cycle_reports_missing_calibration_and_still_samples() {
    let readings: Vec<Option<i32>> = vec![Some(1000); 10];
    let (mut processor, mut sampler) = WeightProcessor::new(5, 3, bits(0.0), &readings);
    assert_eq!(sampler.cycle(&mut processor, Some(2000)), (0, WeightStatus::Error));
    assert_eq!(entries(&sampler.buffer), vec![1000, 1000, 1000, 1000, 2000]);
    assert_eq!(processor.adc_data_latest_average, 1200);
    assert_eq!(entries(&sampler.stability), vec![1000, 1200]);
    // Once a factor is set the same worker delivers weights again.
    processor.adc_data_transform_factor = bits(100.0);
    assert_eq!(sampler.cycle(&mut processor, Some(2000)), (4, WeightStatus::Unstable));
    assert_eq!(processor.adc_data_latest_average, 1400);
}

#[test]
fn cycle_smooths_transforms_and_classifies() {
    let readings: Vec<Option<i32>> = vec![Some(0); 10];
    let (mut processor, mut sampler) = WeightProcessor::new(2, 3, bits(10.0), &readings);
    assert_eq!(sampler.cycle(&mut processor, Some(2000)), (100, WeightStatus::Unstable));
    assert_eq!(processor.adc_data_latest_average, 1000);
    assert_eq!(sampler.cycle(&mut processor, Some(2000)), (200, WeightStatus::Unstable));
    assert_eq!(sampler.cycle(&mut processor, Some(2000)), (200, WeightStatus::Unstable));
    assert_eq!(sampler.cycle(&mut processor, Some(2000)), (200, WeightStatus::Stable));
    assert_eq!(entries(&sampler.stability), vec![2000, 2000, 2000]);
    // A tare takes effect with the next cycle.
    processor.set_tare_weight();
    assert_eq!(processor.adc_data_zero_offset, 2000);
    assert_eq!(sampler.cycle(&mut processor, Some(2000)), (0, WeightStatus::Stable));
    // Below zero and above the maximum the window is not looked at.
    assert_eq!(sampler.cycle(&mut processor, Some(-2000)), (-200, WeightStatus::Underload));
    assert_eq!(sampler.cycle(&mut processor, Some(200_000)), (9700, WeightStatus::Overload));
    assert_eq!(sampler.cycle(&mut processor, Some(200_000)), (19800, WeightStatus::Overload));
}

#[test]
fn calibrated_scale_reads_the_reference() {
    let mut state = 0x9e37_79b9_7f4a_7c15u64;
    for _ in 0..100_000 {
        state ^= state << 13;
        state ^= state >> 7;
        state ^= state << 17;
        let latest = (state >> 8) as u32 as i32;
        let zero_offset = (state >> 40) as i32 - (1 << 23);
        let reference = ((state >> 3) % 8_388_607) as i32 - 4_194_303;
        if latest == zero_offset || reference == 0 {
            continue;
        }
        let mut processor = WeightProcessor {
            adc_data_latest_average: latest,
            adc_data_zero_offset: zero_offset,
            adc_data_transform_factor: 0,
        };
        let factor = processor.set_transform_factor(reference).unwrap();
        assert_eq!(
            adc_data_transform(latest, zero_offset, factor),
            Ok(reference),
            "latest {} zero_offset {} reference {}",
            latest,
            zero_offset,
            reference
        );
    }
    let mut processor = WeightProcessor {
        adc_data_latest_average: 130_000,
        adc_data_zero_offset: 30_000,
        adc_data_transform_factor: 0,
    };
    let factor = processor.set_transform_factor(100).unwrap();
    assert_eq!(adc_data_transform(130_000, 30_000, factor), Ok(100));
    assert_eq!(adc_data_transform(30_000, 30_000, factor), Ok(0));
    assert_eq!(adc_data_transform(80_000, 30_000, factor), Ok(50));
}
