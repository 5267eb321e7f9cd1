//! The temperature and humidity sensor on the two-wire bus: its status
//! byte, the checksum of a measurement and the numbers in it.

use vstd::prelude::*;

verus! {

/// The bus address that the sensor usually answers on.
pub const DEFAULT_ADDRESS: u8 = 0x38;

/// The length of the answer to a measurement command.
pub const FRAME_LEN: usize = 7;

/// The mode that the sensor works in.
#[derive(Debug, Clone, Copy, PartialEq, Eq)]
pub enum WorkingMode {
    /// Normal mode.
    NOR,
    /// Cyclic mode.
    CYC,
    /// Command mode.
    CMD,
}

/// The status byte of the sensor, taken apart.  Bit 0 is the least
/// significant bit; bits 0 and 1 carry nothing.
#[derive(Debug, Clone, Copy, PartialEq, Eq)]
pub struct Status {
    /// Bit 2: the calibrated capacitance is outside the interrupt threshold.
    pub cmp_interrupt: bool,
    /// Bit 3: the output is calibrated.
    pub calibration_enabled: bool,
    /// Bit 4: the integrity test of the one-time memory passed.
    pub crc_ok: bool,
    /// Bits 5 and 6: the working mode.
    pub mode: WorkingMode,
    /// Bit 7: a measurement is under way.
    pub is_busy: bool,
}

/// Why a measurement could not be used.
#[derive(Debug, Clone, Copy, PartialEq, Eq)]
pub enum Aht30Error {
    /// The sensor reports that its output is not calibrated.
    NotCalibrated,
    /// The checksum of the frame does not match its content.
    Checksum,
    /// The frame was read while the measurement was still under way.
    Busy,
}

/// Whether any of the bits of `mask` is set in `data`.
pub open spec fn any_bit(data: u8, mask: u8) -> bool {
    data & mask != 0
}

/// The status that the byte `data` encodes.  The mode is `CMD` as soon as
/// bit 5 or bit 6 is set, and `NOR` otherwise.
pub open spec fn status_of(data: u8) -> Status {
    Status {
        cmp_interrupt: any_bit(data, 0b0000_0100),
        calibration_enabled: any_bit(data, 0b0000_1000),
        crc_ok: any_bit(data, 0b0001_0000),
        mode: if any_bit(data, 0b0110_0000) {
            WorkingMode::CMD
        } else {
            WorkingMode::NOR
        },
        is_busy: any_bit(data, 0b1000_0000),
    }
}

/// One shift of the checksum register: the top bit leaves, and where it
/// was set the polynomial x^8 + x^5 + x^4 + 1 is subtracted.
pub open spec fn crc8_shift(crc: u8) -> u8 {
    if crc & 0x80 != 0 {
        (crc << 1) ^ 0x31
    } else {
        crc << 1
    }
}

/// `crc` after `n` shifts.
pub open spec fn crc8_shifts(crc: u8, n: nat) -> u8
    decreases n,
{
    if n == 0 {
        crc
    } else {
        crc8_shift(crc8_shifts(crc, (n - 1) as nat))
    }
}

/// The checksum of `data`: the register starts at 0xFF; each byte is added
/// into it and followed by eight shifts.
pub open spec fn crc8(data: Seq<u8>) -> u8
    decreases data.len(),
{
    if data.len() == 0 {
        0xFF
    } else {
        crc8_shifts(crc8(data.drop_last()) ^ data.last(), 8)
    }
}

/// The 20-bit humidity reading in a frame: byte 1, byte 2 and the upper
/// half of byte 3.
pub open spec fn humidity_raw(frame: Seq<u8>) -> int {
    frame[1] * 0x1000 + frame[2] * 0x10 + frame[3] / 0x10
}

/// The 20-bit temperature reading in a frame: the lower half of byte 3,
/// byte 4 and byte 5.
pub open spec fn temperature_raw(frame: Seq<u8>) -> int {
    (frame[3] % 0x10) * 0x1_0000 + frame[4] * 0x100 + frame[5]
}

/// What a frame gives: the raw temperature and the raw humidity, unless the
/// checksum is wrong or the sensor was busy.  The checksum is looked at
/// first.
pub open spec fn measurement(frame: Seq<u8>) -> Result<(u32, u32), Aht30Error> {
    if frame[6] != crc8(frame.subrange(0, 6)) {
        Err(Aht30Error::Checksum)
    } else if status_of(frame[0]).is_busy {
        Err(Aht30Error::Busy)
    } else {
        Ok((temperature_raw(frame) as u32, humidity_raw(frame) as u32))
    }
}

impl Status {
    /// Takes the status byte apart.
    pub fn from(data: u8) -> (status: Self)
        ensures
            status == status_of(data),
    {
        Status {
            cmp_interrupt: (data & 0b0000_0100) != 0,
            calibration_enabled: (data & 0b0000_1000) != 0,
            crc_ok: (data & 0b0001_0000) != 0,
            mode: if (data & 0b0110_0000) != 0 {
                WorkingMode::CMD
            } else {
                WorkingMode::NOR
            },
            is_busy: (data & 0b1000_0000) != 0,
        }
    }

    /// Accepts the status that the sensor gives after its start-up only if
    /// the output is calibrated.
    pub fn check_initialized(&self) -> (r: Result<(), Aht30Error>)
        ensures
            r == if self.calibration_enabled {
                Ok::<(), Aht30Error>(())
            } else {
                Err::<(), Aht30Error>(Aht30Error::NotCalibrated)
            },
    {
        if self.calibration_enabled {
            Ok(())
        } else {
            Err(Aht30Error::NotCalibrated)
        }
    }
}

/// The checksum of `data`.
pub fn calc_crc8(data: &[u8]) -> (crc8_sum: u8)
    ensures
        crc8_sum == crc8(data@),
{
    let mut crc8_sum: u8 = 0xFF;
    let mut i: usize = 0;
    while i < data.len()
        invariant
            i <= data@.len(),
            crc8_sum == crc8(data@.subrange(0, i as int)),
        decreases data@.len() - i,
    {
        proof {
            assert(data@.subrange(0, i + 1).drop_last() == data@.subrange(0, i as int));
        }
        crc8_sum = crc8_sum ^ data[i];
        let ghost start = crc8_sum;
        let mut bit: u8 = 0;
        while bit < 8
            invariant
                bit <= 8,
                crc8_sum == crc8_shifts(start, bit as nat),
            decreases 8 - bit,
        {
            if crc8_sum & 0x80 != 0 {
                crc8_sum = (crc8_sum << 1) ^ 0x31;
            } else {
                crc8_sum = crc8_sum << 1;
            }
            bit = bit + 1;
        }
        i = i + 1;
    }
    assert(data@.subrange(0, i as int) == data@);
    crc8_sum
}

/// Checks a frame and takes the raw temperature and the raw humidity out of
/// it, in this order.  Each is a 20-bit number.
pub fn decode_frame(frame: &[u8; 7]) -> (r: Result<(u32, u32), Aht30Error>)
    ensures
        r == measurement(frame@),
        r matches Ok(raw) ==> raw.0 < 0x10_0000 && raw.1 < 0x10_0000,
{
    let mut body: Vec<u8> = Vec::new();
    let mut i: usize = 0;
    while i < 6
        invariant
            i <= 6,
            body@ == frame@.subrange(0, i as int),
        decreases 6 - i,
    {
        body.push(frame[i]);
        i = i + 1;
    }
    let correct_crc8 = frame[6];
    let current_crc8 = calc_crc8(body.as_slice());
    if correct_crc8 != current_crc8 {
        return Err(Aht30Error::Checksum);
    }
    let status = Status::from(frame[0]);
    if status.is_busy {
        return Err(Aht30Error::Busy);
    }
    let b1 = frame[1] as u32;
    let b2 = frame[2] as u32;
    let b3 = frame[3] as u32;
    let b4 = frame[4] as u32;
    let b5 = frame[5] as u32;
    proof {
        assert((b1 << 12) | (b2 << 4) | (b3 >> 4) == b1 * 0x1000 + b2 * 0x10 + b3 / 0x10)
            by (bit_vector)
            requires
                b1 < 256,
                b2 < 256,
                b3 < 256,
        ;
        assert(((b3 & 0b1111) << 16) | (b4 << 8) | b5 == (b3 % 0x10) * 0x1_0000 + b4 * 0x100 + b5)
            by (bit_vector)
            requires
                b3 < 256,
                b4 < 256,
                b5 < 256,
        ;
    }
    let humidity_raw = (b1 << 12) | (b2 << 4) | (b3 >> 4);
    let temperature_raw = ((b3 & 0b1111) << 16) | (b4 << 8) | b5;
    Ok((temperature_raw, humidity_raw))
}

} // verus!
