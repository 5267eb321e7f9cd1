use raspi_sensor::input_pin_wapper::InputPinWapperError;
use raspi_sensor::io_pin_wapper::{IoPinWapper, IoPinWapperError, ModeChange, PinMode};
use raspi_sensor::output_pin_wapper::OutputPinWapperError;
use raspi_sensor::sensor::aht30::{calc_crc8, Aht30Error, Status, WorkingMode};
use raspi_sensor::sensor::dht11::{self, Dht11Error};
use raspi_sensor::sensor::hx711::{assemble_sample, Gain};
use raspi_sensor::sensor::uln2003a::{
    effective_delay_ns, step_count, Direction, StepMode, ULN2003A,
};
use raspi_sensor::sensor::aht30;
use raspi_sensor::std_clock::StdClock;

fn reference_crc8(data: &[u8]) -> u8 {
    let mut crc: u8 = 0xFF;
    for b in data {
        crc ^= b;
        for _ in 0..8 {
            if crc & 0x80 != 0 {
                crc = (crc << 1) ^ 0x31;
            } else {
                crc <<= 1;
            }
        }
    }
    crc
}

fn frame_bits(value: u32) -> [bool; 24] {
    let mut bits = [false; 24];
    for i in 0..24 {
        bits[i] = (value >> (23 - i)) & 1 == 1;
    }
    bits
}

#[test]
fn hx711_sample_is_sign_extended() {
    assert_eq!(assemble_sample(&frame_bits(0)), 0);
    assert_eq!(assemble_sample(&frame_bits(1)), 1);
    assert_eq!(assemble_sample(&frame_bits(0x12_3456)), 0x12_3456);
    assert_eq!(assemble_sample(&frame_bits(0x7F_FFFF)), 8_388_607);
    assert_eq!(assemble_sample(&frame_bits(0x80_0000)), -8_388_608);
    assert_eq!(assemble_sample(&frame_bits(0xFF_FFFF)), -1);
    assert_eq!(assemble_sample(&frame_bits(0xFF_FFFE)), -2);
    assert_eq!(assemble_sample(&frame_bits(0xAB_CDEF)), 0xAB_CDEF - 0x100_0000);
    let mut first_only = [false; 24];
    first_only[0] = true;
    assert_eq!(assemble_sample(&first_only), -8_388_608);
    let mut last_only = [false; 24];
    last_only[23] = true;
    assert_eq!(assemble_sample(&last_only), 1);
}

#[test]
fn hx711_gain_pulses() {
    assert_eq!(Gain::ChannelA128.pulses(), 1);
    assert_eq!(Gain::ChannelB32.pulses(), 2);
    assert_eq!(Gain::ChannelA64.pulses(), 3);
}

#[test]
fn aht30_status_bits() {
    let s = Status::from(0);
    assert_eq!(
        s,
        Status {
            cmp_interrupt: false,
            calibration_enabled: false,
            crc_ok: false,
            mode: WorkingMode::NOR,
            is_busy: false
        }
    );
    assert!(Status::from(0b0000_0100).cmp_interrupt);
    assert!(Status::from(0b0000_1000).calibration_enabled);
    assert!(Status::from(0b0001_0000).crc_ok);
    assert!(Status::from(0b1000_0000).is_busy);
    assert!(!Status::from(0b0111_1111).is_busy);
    assert_eq!(Status::from(0b0000_0011), s);
    assert_eq!(Status::from(0b0010_0000).mode, WorkingMode::CMD);
    assert_eq!(Status::from(0b0100_0000).mode, WorkingMode::CMD);
    assert_eq!(Status::from(0b0110_0000).mode, WorkingMode::CMD);
    assert_eq!(Status::from(0b1001_1111).mode, WorkingMode::NOR);
    for data in 0..=255u8 {
        let s = Status::from(data);
        assert_eq!(s.cmp_interrupt, data & 4 != 0);
        assert_eq!(s.calibration_enabled, data & 8 != 0);
        assert_eq!(s.crc_ok, data & 16 != 0);
        assert_eq!(s.is_busy, data & 128 != 0);
        assert_eq!(s.mode == WorkingMode::NOR, data & 0x60 == 0);
        assert!(s.mode != WorkingMode::CYC);
    }
}

#[test]
fn aht30_start_up_needs_calibration() {
    assert_eq!(Status::from(0x18).check_initialized(), Ok(()));
    assert_eq!(Status::from(0x08).check_initialized(), Ok(()));
    assert_eq!(Status::from(0x10).check_initialized(), Err(Aht30Error::NotCalibrated));
    assert_eq!(Status::from(0x00).check_initialized(), Err(Aht30Error::NotCalibrated));
}

#[test]
fn aht30_crc8_known_values() {
    assert_eq!(calc_crc8(&[]), 0xFF);
    assert_eq!(calc_crc8(&[0xBE, 0xEF]), 0x92);
    assert_eq!(calc_crc8(&[0x00]), 0xAC);
    assert_eq!(calc_crc8(&[0xFF]), 0x00);
    let mut state = 12345u32;
    for len in 0..40 {
        let data: Vec<u8> = (0..len)
            .map(|_| {
                state = state.wrapping_mul(1103515245).wrapping_add(12345);
                (state >> 16) as u8
            })
            .collect();
        assert_eq!(calc_crc8(&data), reference_crc8(&data));
    }
}

fn aht30_frame(body: [u8; 6]) -> [u8; 7] {
    let crc = reference_crc8(&body);
    [body[0], body[1], body[2], body[3], body[4], body[5], crc]
}

#[test]
fn aht30_frame_is_checked_and_split() {
    let frame = aht30_frame([0x18, 0x80, 0x00, 0x05, 0xA0, 0x00]);
    // Humidity 0x80000 is one half, temperature 0x5A000.
    assert_eq!(aht30::decode_frame(&frame), Ok((0x5_A000, 0x8_0000)));
    let frame = aht30_frame([0x18, 0xFF, 0xFF, 0xFF, 0xFF, 0xFF]);
    assert_eq!(aht30::decode_frame(&frame), Ok((0xF_FFFF, 0xF_FFFF)));
    let frame = aht30_frame([0x18, 0x12, 0x34, 0x56, 0x78, 0x9A]);
    assert_eq!(aht30::decode_frame(&frame), Ok((0x6_789A, 0x1_2345)));
    let frame = aht30_frame([0x00, 0, 0, 0, 0, 0]);
    assert_eq!(aht30::decode_frame(&frame), Ok((0, 0)));
}

#[test]
fn aht30_frame_errors() {
    let mut frame = aht30_frame([0x18, 0x80, 0x00, 0x05, 0xA0, 0x00]);
    frame[6] ^= 1;
    assert_eq!(aht30::decode_frame(&frame), Err(Aht30Error::Checksum));
    let busy = aht30_frame([0x98, 0x80, 0x00, 0x05, 0xA0, 0x00]);
    assert_eq!(aht30::decode_frame(&busy), Err(Aht30Error::Busy));
    // A wrong checksum is reported before the busy bit.
    let mut both = busy;
    both[6] ^= 0x40;
    assert_eq!(aht30::decode_frame(&both), Err(Aht30Error::Checksum));
    let mut flipped = aht30_frame([0x18, 0x80, 0x00, 0x05, 0xA0, 0x00]);
    flipped[2] = 1;
    assert_eq!(aht30::decode_frame(&flipped), Err(Aht30Error::Checksum));
}

fn pulses(bytes: [u8; 5]) -> [u64; 40] {
    let mut times = [0u64; 40];
    for byte in 0..5 {
        for bit in 0..8 {
            let one = bytes[byte] & (1 << (7 - bit)) != 0;
            times[byte * 8 + bit] = if one { 70_000 } else { 26_000 };
        }
    }
    times
}

#[test]
fn dht11_pulses_become_bytes() {
    assert_eq!(dht11::assemble_frame(&pulses([0, 0, 0, 0, 0])), [0, 0, 0, 0, 0]);
    assert_eq!(
        dht11::assemble_frame(&pulses([0x37, 0x00, 0x18, 0x05, 0x54])),
        [0x37, 0x00, 0x18, 0x05, 0x54]
    );
    assert_eq!(
        dht11::assemble_frame(&pulses([0xFF, 0x80, 0x01, 0xAA, 0x55])),
        [0xFF, 0x80, 0x01, 0xAA, 0x55]
    );
    // The threshold itself is still a zero.
    let mut times = [40_000u64; 40];
    assert_eq!(dht11::assemble_frame(&times), [0, 0, 0, 0, 0]);
    times[0] = 40_001;
    times[39] = u64::MAX;
    assert_eq!(dht11::assemble_frame(&times), [0x80, 0, 0, 0, 1]);
}

#[test]
fn dht11_frame_is_checked() {
    assert_eq!(dht11::decode_frame(&[55, 0, 24, 5, 84]), Ok((24, 55)));
    assert_eq!(dht11::decode_frame(&[0, 0, 0, 0, 0]), Ok((0, 0)));
    assert_eq!(dht11::decode_frame(&[200, 100, 50, 10, 104]), Ok((50, 200)));
    assert_eq!(dht11::decode_frame(&[255, 255, 255, 255, 252]), Ok((255, 255)));
    assert_eq!(dht11::decode_frame(&[55, 0, 24, 5, 85]), Err(Dht11Error::Checksum));
    assert_eq!(dht11::decode_frame(&[200, 100, 50, 10, 105]), Err(Dht11Error::Checksum));
    assert_eq!(dht11::decode_frame(&[0, 0, 0, 0, 1]), Err(Dht11Error::Checksum));
}

#[test]
fn stepper_sequences() {
    assert_eq!(
        ULN2003A::generate_step_sequence(StepMode::WaveDrive),
        vec![
            [true, false, false, false],
            [false, true, false, false],
            [false, false, true, false],
            [false, false, false, true],
        ]
    );
    assert_eq!(
        ULN2003A::generate_step_sequence(StepMode::FullStep),
        vec![
            [true, true, false, false],
            [false, true, true, false],
            [false, false, true, true],
            [true, false, false, true],
        ]
    );
    assert_eq!(
        ULN2003A::generate_step_sequence(StepMode::HalfStep),
        vec![
            [true, false, false, false],
            [true, true, false, false],
            [false, true, false, false],
            [false, true, true, false],
            [false, false, true, false],
            [false, false, true, true],
            [false, false, false, true],
            [true, false, false, true],
        ]
    );
}

#[test]
fn stepper_steps_and_wraps() {
    let mut motor = ULN2003A::new(StepMode::FullStep);
    assert_eq!(motor.current_position(), 0);
    assert_eq!(motor.sequence_length(), 4);
    assert_eq!(motor.apply_step(), [true, true, false, false]);
    assert_eq!(motor.step(Direction::Clockwise), [false, true, true, false]);
    assert_eq!(motor.step(Direction::Clockwise), [false, false, true, true]);
    assert_eq!(motor.step(Direction::Clockwise), [true, false, false, true]);
    assert_eq!(motor.current_position(), 3);
    assert_eq!(motor.step(Direction::Clockwise), [true, true, false, false]);
    assert_eq!(motor.current_position(), 0);
    assert_eq!(motor.step(Direction::CounterClockwise), [true, false, false, true]);
    assert_eq!(motor.current_position(), 3);
    assert_eq!(motor.step(Direction::CounterClockwise), [false, false, true, true]);
    assert_eq!(motor.current_position(), 2);
    assert_eq!(motor.release(), [false, false, false, false]);
    assert_eq!(motor.current_position(), 2);
}

#[test]
fn stepper_step_and_back() {
    for mode in [StepMode::WaveDrive, StepMode::FullStep, StepMode::HalfStep] {
        let mut motor = ULN2003A::new(mode);
        for _ in 0..20 {
            let at = motor.current_position();
            motor.step(Direction::Clockwise);
            motor.step(Direction::CounterClockwise);
            assert_eq!(motor.current_position(), at);
            motor.step(Direction::CounterClockwise);
            motor.step(Direction::Clockwise);
            assert_eq!(motor.current_position(), at);
            motor.step(Direction::Clockwise);
        }
    }
}

#[test]
fn stepper_mode_change_restarts_sequence() {
    let mut motor = ULN2003A::new(StepMode::WaveDrive);
    motor.step(Direction::Clockwise);
    motor.step(Direction::Clockwise);
    motor.set_step_mode(StepMode::WaveDrive);
    assert_eq!(motor.current_position(), 2);
    motor.set_step_mode(StepMode::HalfStep);
    assert_eq!(motor.current_position(), 0);
    assert_eq!(motor.sequence_length(), 8);
    assert_eq!(motor.step(Direction::CounterClockwise), [true, false, false, true]);
    assert_eq!(motor.current_position(), 7);
}

#[test]
fn stepper_counts_and_delays() {
    assert_eq!(step_count(0), 0);
    assert_eq!(step_count(5), 5);
    assert_eq!(step_count(-5), 5);
    assert_eq!(step_count(i32::MAX), i32::MAX as usize);
    assert_eq!(step_count(i32::MIN), 1usize << 31);
    assert_eq!(effective_delay_ns(0), 3_000_000);
    assert_eq!(effective_delay_ns(2_999_999), 3_000_000);
    assert_eq!(effective_delay_ns(3_000_000), 3_000_000);
    assert_eq!(effective_delay_ns(3_000_001), 3_000_001);
    assert_eq!(effective_delay_ns(5_000_000), 5_000_000);
    assert_eq!(effective_delay_ns(u128::MAX), u128::MAX);
}

#[test]
fn io_pin_switches_only_on_change() {
    let mut pin = IoPinWapper::new();
    assert_eq!(pin.mode, PinMode::Null);
    assert_eq!(pin.prepare(PinMode::Input), ModeChange::Switch(PinMode::Input));
    assert_eq!(pin.prepare(PinMode::Input), ModeChange::Keep);
    assert_eq!(pin.prepare(PinMode::Output), ModeChange::Switch(PinMode::Output));
    assert_eq!(pin.prepare(PinMode::Output), ModeChange::Keep);
    assert_eq!(pin.mode, PinMode::Output);
    assert_eq!(pin.prepare(PinMode::Input), ModeChange::Switch(PinMode::Input));
}

#[test]
fn pin_errors_and_clock() {
    assert_eq!(InputPinWapperError::Other.code(), 0);
    assert_eq!(OutputPinWapperError::Other.code(), 0);
    assert_eq!(IoPinWapperError::Other.code(), 0);
    assert_eq!(StdClock::new(), StdClock {});
}
