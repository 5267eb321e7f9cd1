//! The pressure, temperature and humidity sensor: its calibration
//! registers, the raw readings of a measurement and the fixed-point
//! formulas that compensate them.
//!
//! The formulas are those of the sensor's data sheet, in 32-bit arithmetic
//! for temperature and humidity and in 64-bit arithmetic for pressure.  With
//! calibration values that no sensor carries an intermediate result can
//! leave that width; the functions then report an overflow.  A shift to the
//! left never does so: it drops the bits that leave the width.

use crate::fixed::{
    div_toward_zero,
    fits_i32,
    fits_i64,
    floor_div,
    in_i32,
    in_i64,
    product,
    trunc_div,
    wrap32,
    wrap64,
    wrap_i32,
    wrap_i64,
};
use vstd::prelude::*;

verus! {

/// The bus address that the sensor usually answers on.
pub const DEFAULT_ADDRESS: u8 = 0x76;

/// The calibration values that the sensor carries.
#[derive(Debug, Clone, Copy, PartialEq, Eq)]
pub struct Calibration {
    pub dig_t1: u16,
    pub dig_t2: i16,
    pub dig_t3: i16,
    pub dig_p1: u16,
    pub dig_p2: i16,
    pub dig_p3: i16,
    pub dig_p4: i16,
    pub dig_p5: i16,
    pub dig_p6: i16,
    pub dig_p7: i16,
    pub dig_p8: i16,
    pub dig_p9: i16,
    pub dig_h1: u8,
    pub dig_h2: i16,
    pub dig_h3: u8,
    pub dig_h4: i16,
    pub dig_h5: i16,
    pub dig_h6: i8,
}

/// The raw readings of one measurement.
#[derive(Debug, Clone, Copy, PartialEq, Eq)]
pub struct RawData {
    /// The pressure, 20 bits.
    pub pressure: i32,
    /// The temperature, 20 bits.
    pub temperature: i32,
    /// The humidity, 16 bits.
    pub humidity: i32,
}

/// The compensated readings of one measurement.
#[derive(Debug, Clone, Copy, PartialEq, Eq)]
pub struct Measurement {
    /// The temperature in hundredths of a degree Celsius.
    pub temperature: i64,
    /// The pressure in 256ths of a pascal.
    pub pressure: i64,
    /// The relative humidity in whole percent.
    pub humidity: u32,
}

/// Why a measurement could not be taken or compensated.
#[derive(Debug, Clone, Copy, PartialEq, Eq)]
pub enum Bme280Error {
    /// The sensor is copying its calibration values and cannot be read yet.
    Updating,
    /// An intermediate result of a formula left the width of its arithmetic.
    Overflow,
}

/// The unsigned number in two bytes, the low byte first.
pub open spec fn le_u16(lo: u8, hi: u8) -> int {
    lo + 256 * hi
}

/// The signed number in two bytes, the low byte first.
pub open spec fn le_i16(lo: u8, hi: u8) -> int {
    if le_u16(lo, hi) >= 0x8000 {
        le_u16(lo, hi) - 0x1_0000
    } else {
        le_u16(lo, hi)
    }
}

/// The signed number in one byte.
pub open spec fn as_i8(b: u8) -> int {
    if b >= 0x80 {
        b - 0x100
    } else {
        b as int
    }
}

/// The calibration values in the 24 bytes from register 0x88 on and in the
/// seven bytes of which the first is register 0xA1 and the others are the
/// six registers from 0xE1 on.
pub open spec fn calibration_of(tp: Seq<u8>, h: Seq<u8>) -> Calibration {
    Calibration {
        dig_t1: le_u16(tp[0], tp[1]) as u16,
        dig_t2: le_i16(tp[2], tp[3]) as i16,
        dig_t3: le_i16(tp[4], tp[5]) as i16,
        dig_p1: le_u16(tp[6], tp[7]) as u16,
        dig_p2: le_i16(tp[8], tp[9]) as i16,
        dig_p3: le_i16(tp[10], tp[11]) as i16,
        dig_p4: le_i16(tp[12], tp[13]) as i16,
        dig_p5: le_i16(tp[14], tp[15]) as i16,
        dig_p6: le_i16(tp[16], tp[17]) as i16,
        dig_p7: le_i16(tp[18], tp[19]) as i16,
        dig_p8: le_i16(tp[20], tp[21]) as i16,
        dig_p9: le_i16(tp[22], tp[23]) as i16,
        dig_h1: h[0],
        dig_h2: le_i16(h[1], h[2]) as i16,
        dig_h3: h[3],
        dig_h4: (h[4] * 16 + h[5] % 16) as i16,
        dig_h5: (h[6] * 16 + h[5] / 16) as i16,
        dig_h6: as_i8(h[6]) as i8,
    }
}

/// The raw readings in the eight bytes from register 0xF7 on: pressure and
/// temperature take two and a half bytes each, humidity two.
pub open spec fn raw_data_of(data: Seq<u8>) -> RawData {
    RawData {
        pressure: (data[0] * 0x1000 + data[1] * 0x10 + data[2] / 0x10) as i32,
        temperature: (data[3] * 0x1000 + data[4] * 0x10 + data[5] / 0x10) as i32,
        humidity: (data[6] * 0x100 + data[7]) as i32,
    }
}

/// The temperature in hundredths of a degree Celsius and the fine
/// temperature that the other two formulas build on; `None` where a product
/// leaves 32 bits.
pub open spec fn temperature_of(c: Calibration, adc_t: i32) -> Option<(int, int)> {
    let a = (adc_t / 8 - c.dig_t1 * 2) * c.dig_t2;
    let d = adc_t / 16 - c.dig_t1;
    let e = (d * d / 4096) * c.dig_t3;
    if fits_i32(a) && fits_i32(d * d) && fits_i32(e) {
        let t_fine = a / 2048 + e / 16384;
        Some(((t_fine * 5 + 128) / 256, t_fine))
    } else {
        None
    }
}

/// The divisor of the pressure formula and the offset that is subtracted
/// before the division; `None` where an intermediate result leaves 64 bits.
pub open spec fn pressure_terms(c: Calibration, t_fine: i64) -> Option<(int, int)> {
    let var1 = t_fine - 128000;
    let sq = var1 * var1;
    let sq6 = sq * c.dig_p6;
    let m5 = var1 * c.dig_p5;
    let with5 = sq6 + wrap_i64(m5 * 0x2_0000);
    let var2 = with5 + c.dig_p4 * 0x8_0000_0000;
    let sq3 = sq * c.dig_p3;
    let m2 = var1 * c.dig_p2;
    let with2 = sq3 / 256 + wrap_i64(m2 * 4096);
    let based = 0x8000_0000_0000 + with2;
    let scaled = based * c.dig_p1;
    if fits_i64(var1) && fits_i64(sq) && fits_i64(sq6) && fits_i64(m5) && fits_i64(with5)
        && fits_i64(var2) && fits_i64(sq3) && fits_i64(m2) && fits_i64(with2) && fits_i64(based)
        && fits_i64(scaled) {
        Some((scaled / 0x2_0000_0000, var2))
    } else {
        None
    }
}

/// The pressure in 256ths of a pascal; 0 where the divisor of the formula
/// is 0, and `None` where an intermediate result leaves 64 bits.
pub open spec fn pressure_of(c: Calibration, adc_p: i32, t_fine: i64) -> Option<int> {
    match pressure_terms(c, t_fine) {
        None => None,
        Some((divisor, var2)) => if divisor == 0 {
            Some(0)
        } else {
            let d = (1048576 - adc_p) * 0x8000_0000 - var2;
            let e = d * 3125;
            let p = div_toward_zero(e, divisor);
            let q = p / 8192;
            let n9 = c.dig_p9 * (q * q);
            let n8 = c.dig_p8 * p;
            let s1 = p + n9 / 0x200_0000;
            let s2 = s1 + n8 / 0x8_0000;
            let r = s2 / 256 + c.dig_p7 * 16;
            if fits_i64(d) && fits_i64(e) && fits_i64(p) && fits_i64(q * q) && fits_i64(n9)
                && fits_i64(n8) && fits_i64(s1) && fits_i64(s2) && fits_i64(r) {
                Some(r)
            } else {
                None
            }
        },
    }
}

/// The product of the two factors of the humidity formula, before its last
/// correction; `None` where an intermediate result leaves its width.
pub open spec fn humidity_product(c: Calibration, adc_h: i32, t_fine: i64) -> Option<int> {
    let t = t_fine - 76800;
    let var1 = wrap_i32(t);
    let m5 = c.dig_h5 * var1;
    let s1 = wrap_i32(adc_h * 0x4000) - wrap_i32(c.dig_h4 * 0x10_0000);
    let s2 = s1 - m5;
    let s3 = s2 + 16384;
    let var2 = s3 / 32768;
    let m6 = var1 * c.dig_h6;
    let m3 = var1 * c.dig_h3;
    let y = m3 / 2048 + 32768;
    let xy = (m6 / 1024) * y;
    let var3 = xy / 1024;
    let z = var3 + 2097152;
    let zh = z * c.dig_h2;
    let zr = zh + 8192;
    let var4 = zr / 16384;
    let var5 = var2 * var4;
    if fits_i64(t) && fits_i32(m5) && fits_i32(s1) && fits_i32(s2) && fits_i32(s3) && fits_i32(m6)
        && fits_i32(m3) && fits_i32(y) && fits_i32(xy) && fits_i32(z) && fits_i32(zh) && fits_i32(zr)
        && fits_i32(var5) {
        Some(var5)
    } else {
        None
    }
}

/// The relative humidity in whole percent, from 0 to 100; `None` where an
/// intermediate result leaves its width.
pub open spec fn humidity_of(c: Calibration, adc_h: i32, t_fine: i64) -> Option<int> {
    match humidity_product(c, adc_h, t_fine) {
        None => None,
        Some(var5) => {
            let half = var5 / 32768;
            let sq = half * half;
            let m1 = (sq / 128) * c.dig_h1;
            let corrected = var5 - m1 / 16;
            let limited = if corrected < 0 {
                0
            } else if corrected > 419430400 {
                419430400
            } else {
                corrected
            };
            if fits_i32(sq) && fits_i32(m1) && fits_i32(corrected) {
                Some((limited / 4096) / 1024)
            } else {
                None
            }
        },
    }
}

/// The compensated readings for the raw readings `raw`; `None` where one of
/// the three formulas overflows.
pub open spec fn measurement_of(c: Calibration, raw: RawData) -> Option<Measurement> {
    match temperature_of(c, raw.temperature) {
        None => None,
        Some((temperature, t_fine)) => match (
            pressure_of(c, raw.pressure, t_fine as i64),
            humidity_of(c, raw.humidity, t_fine as i64),
        ) {
            (Some(pressure), Some(humidity)) => Some(
                Measurement {
                    temperature: temperature as i64,
                    pressure: pressure as i64,
                    humidity: humidity as u32,
                },
            ),
            _ => None,
        },
    }
}

/// The unsigned number in two bytes, the low byte first.
fn read_le_u16(lo: u8, hi: u8) -> (v: u16)
    ensures
        v == le_u16(lo, hi),
{
    lo as u16 + 256 * (hi as u16)
}

/// The signed number in two bytes, the low byte first.
fn read_le_i16(lo: u8, hi: u8) -> (v: i16)
    ensures
        v == le_i16(lo, hi),
{
    let u = lo as i32 + 256 * (hi as i32);
    if u >= 0x8000 {
        (u - 0x1_0000) as i16
    } else {
        u as i16
    }
}

/// Accepts the status register only if the sensor is not copying its
/// calibration values, which bit 0 tells.
pub fn check_ready(status: u8) -> (r: Result<(), Bme280Error>)
    ensures
        r == if status & 0x01 != 0 {
            Err::<(), Bme280Error>(Bme280Error::Updating)
        } else {
            Ok::<(), Bme280Error>(())
        },
{
    if status & 0x01 != 0 {
        Err(Bme280Error::Updating)
    } else {
        Ok(())
    }
}

impl Calibration {
    /// Reads the calibration values from the register contents:
    /// `calib_data` holds the 24 bytes from register 0x88 on, `hum_calib`
    /// register 0xA1 followed by the six registers from 0xE1 on.
    pub fn read_calibration_data(calib_data: &[u8; 24], hum_calib: &[u8; 7]) -> (c: Calibration)
        ensures
            c == calibration_of(calib_data@, hum_calib@),
    {
        Calibration {
            dig_t1: read_le_u16(calib_data[0], calib_data[1]),
            dig_t2: read_le_i16(calib_data[2], calib_data[3]),
            dig_t3: read_le_i16(calib_data[4], calib_data[5]),
            dig_p1: read_le_u16(calib_data[6], calib_data[7]),
            dig_p2: read_le_i16(calib_data[8], calib_data[9]),
            dig_p3: read_le_i16(calib_data[10], calib_data[11]),
            dig_p4: read_le_i16(calib_data[12], calib_data[13]),
            dig_p5: read_le_i16(calib_data[14], calib_data[15]),
            dig_p6: read_le_i16(calib_data[16], calib_data[17]),
            dig_p7: read_le_i16(calib_data[18], calib_data[19]),
            dig_p8: read_le_i16(calib_data[20], calib_data[21]),
            dig_p9: read_le_i16(calib_data[22], calib_data[23]),
            dig_h1: hum_calib[0],
            dig_h2: read_le_i16(hum_calib[1], hum_calib[2]),
            dig_h3: hum_calib[3],
            dig_h4: (hum_calib[4] as i16) * 16 + (hum_calib[5] as i16) % 16,
            dig_h5: (hum_calib[6] as i16) * 16 + (hum_calib[5] as i16) / 16,
            dig_h6: if hum_calib[6] >= 0x80 {
                (hum_calib[6] as i16 - 0x100) as i8
            } else {
                hum_calib[6] as i8
            },
        }
    }

    /// Compensates a raw temperature: gives the temperature in hundredths
    /// of a degree Celsius and the fine temperature.
    ///
    /// Fails with `Bme280Error::Overflow` exactly where a product of the
    /// formula leaves 32 bits.
    pub fn compensate_temperature(&self, adc_t: i32) -> (r: Result<(i64, i64), Bme280Error>)
        ensures
            match temperature_of(*self, adc_t) {
                Some((temperature, t_fine)) => r == Ok::<(i64, i64), Bme280Error>(
                    (temperature as i64, t_fine as i64),
                ) && fits_i64(temperature) && fits_i64(t_fine),
                None => r == Err::<(i64, i64), Bme280Error>(Bme280Error::Overflow),
            },
    {
        let adc = adc_t as i128;
        let dig_t1 = self.dig_t1 as i128;
        let dig_t2 = self.dig_t2 as i128;
        let dig_t3 = self.dig_t3 as i128;
        let a = product(floor_div(adc, 8) - dig_t1 * 2, dig_t2);
        let d = floor_div(adc, 16) - dig_t1;
        let dd = product(d, d);
        if !in_i32(a) || !in_i32(dd) {
            return Err(Bme280Error::Overflow);
        }
        let e = product(floor_div(dd, 4096), dig_t3);
        if !in_i32(e) {
            return Err(Bme280Error::Overflow);
        }
        let t_fine = floor_div(a, 2048) + floor_div(e, 16384);
        let temperature = floor_div(t_fine * 5 + 128, 256);
        Ok((temperature as i64, t_fine as i64))
    }

    /// Compensates a raw pressure with the fine temperature of the same
    /// measurement: gives the pressure in 256ths of a pascal, or 0 where the
    /// divisor of the formula is 0.
    ///
    /// Fails with `Bme280Error::Overflow` exactly where an intermediate
    /// result of the formula leaves 64 bits.
    pub fn compensate_pressure(&self, adc_p: i32, t_fine: i64) -> (r: Result<i64, Bme280Error>)
        ensures
            match pressure_of(*self, adc_p, t_fine) {
                Some(p) => r == Ok::<i64, Bme280Error>(p as i64) && fits_i64(p),
                None => r == Err::<i64, Bme280Error>(Bme280Error::Overflow),
            },
    {
        let dig_p1 = self.dig_p1 as i128;
        let dig_p2 = self.dig_p2 as i128;
        let dig_p3 = self.dig_p3 as i128;
        let dig_p4 = self.dig_p4 as i128;
        let dig_p5 = self.dig_p5 as i128;
        let dig_p6 = self.dig_p6 as i128;
        let dig_p7 = self.dig_p7 as i128;
        let dig_p8 = self.dig_p8 as i128;
        let dig_p9 = self.dig_p9 as i128;

        let var1 = t_fine as i128 - 128000;
        if !in_i64(var1) {
            return Err(Bme280Error::Overflow);
        }
        let sq = product(var1, var1);
        let m5 = product(var1, dig_p5);
        let m2 = product(var1, dig_p2);
        if !in_i64(sq) || !in_i64(m5) || !in_i64(m2) {
            return Err(Bme280Error::Overflow);
        }
        let sq6 = product(sq, dig_p6);
        let sq3 = product(sq, dig_p3);
        if !in_i64(sq6) || !in_i64(sq3) {
            return Err(Bme280Error::Overflow);
        }
        let with5 = sq6 + wrap64(product(m5, 0x2_0000));
        if !in_i64(with5) {
            return Err(Bme280Error::Overflow);
        }
        let var2 = with5 + dig_p4 * 0x8_0000_0000;
        let with2 = floor_div(sq3, 256) + wrap64(product(m2, 4096));
        if !in_i64(var2) || !in_i64(with2) {
            return Err(Bme280Error::Overflow);
        }
        let based = 0x8000_0000_0000 + with2;
        if !in_i64(based) {
            return Err(Bme280Error::Overflow);
        }
        let scaled = product(based, dig_p1);
        if !in_i64(scaled) {
            return Err(Bme280Error::Overflow);
        }
        let divisor = floor_div(scaled, 0x2_0000_0000);
        if divisor == 0 {
            return Ok(0);
        }
        let d = (1048576 - adc_p as i128) * 0x8000_0000 - var2;
        if !in_i64(d) {
            return Err(Bme280Error::Overflow);
        }
        let e = product(d, 3125);
        if !in_i64(e) {
            return Err(Bme280Error::Overflow);
        }
        let p = trunc_div(e, divisor);
        if !in_i64(p) {
            return Err(Bme280Error::Overflow);
        }
        let q = floor_div(p, 8192);
        let qq = product(q, q);
        let n8 = product(dig_p8, p);
        if !in_i64(qq) || !in_i64(n8) {
            return Err(Bme280Error::Overflow);
        }
        let n9 = product(dig_p9, qq);
        if !in_i64(n9) {
            return Err(Bme280Error::Overflow);
        }
        let s1 = p + floor_div(n9, 0x200_0000);
        if !in_i64(s1) {
            return Err(Bme280Error::Overflow);
        }
        let s2 = s1 + floor_div(n8, 0x8_0000);
        if !in_i64(s2) {
            return Err(Bme280Error::Overflow);
        }
        let r = floor_div(s2, 256) + dig_p7 * 16;
        if !in_i64(r) {
            return Err(Bme280Error::Overflow);
        }
        Ok(r as i64)
    }

    /// Compensates a raw humidity with the fine temperature of the same
    /// measurement: gives the relative humidity in whole percent.
    ///
    /// Fails with `Bme280Error::Overflow` exactly where an intermediate
    /// result of the formula leaves its width.
    pub fn compensate_humidity(&self, adc_h: i32, t_fine: i64) -> (r: Result<u32, Bme280Error>)
        ensures
            match humidity_of(*self, adc_h, t_fine) {
                Some(h) => r == Ok::<u32, Bme280Error>(h as u32) && 0 <= h <= 100,
                None => r == Err::<u32, Bme280Error>(Bme280Error::Overflow),
            },
    {
        let dig_h1 = self.dig_h1 as i128;
        let dig_h2 = self.dig_h2 as i128;
        let dig_h3 = self.dig_h3 as i128;
        let dig_h4 = self.dig_h4 as i128;
        let dig_h5 = self.dig_h5 as i128;
        let dig_h6 = self.dig_h6 as i128;

        let t = t_fine as i128 - 76800;
        if !in_i64(t) {
            return Err(Bme280Error::Overflow);
        }
        let var1 = wrap32(t);
        let m5 = product(dig_h5, var1);
        let s1 = wrap32((adc_h as i128) * 0x4000) - wrap32(dig_h4 * 0x10_0000);
        let m6 = product(var1, dig_h6);
        let m3 = product(var1, dig_h3);
        if !in_i32(m5) || !in_i32(s1) || !in_i32(m6) || !in_i32(m3) {
            return Err(Bme280Error::Overflow);
        }
        let s2 = s1 - m5;
        let s3 = s2 + 16384;
        let y = floor_div(m3, 2048) + 32768;
        if !in_i32(s2) || !in_i32(s3) || !in_i32(y) {
            return Err(Bme280Error::Overflow);
        }
        let var2 = floor_div(s3, 32768);
        let xy = product(floor_div(m6, 1024), y);
        if !in_i32(xy) {
            return Err(Bme280Error::Overflow);
        }
        let z = floor_div(xy, 1024) + 2097152;
        if !in_i32(z) {
            return Err(Bme280Error::Overflow);
        }
        let zh = product(z, dig_h2);
        if !in_i32(zh) {
            return Err(Bme280Error::Overflow);
        }
        let zr = zh + 8192;
        if !in_i32(zr) {
            return Err(Bme280Error::Overflow);
        }
        let var4 = floor_div(zr, 16384);
        let var5 = product(var2, var4);
        if !in_i32(var5) {
            return Err(Bme280Error::Overflow);
        }
        let half = floor_div(var5, 32768);
        let sq = product(half, half);
        if !in_i32(sq) {
            return Err(Bme280Error::Overflow);
        }
        let m1 = product(floor_div(sq, 128), dig_h1);
        if !in_i32(m1) {
            return Err(Bme280Error::Overflow);
        }
        let corrected = var5 - floor_div(m1, 16);
        if !in_i32(corrected) {
            return Err(Bme280Error::Overflow);
        }
        let limited = if corrected < 0 {
            0
        } else if corrected > 419430400 {
            419430400
        } else {
            corrected
        };
        Ok((floor_div(limited, 4096) / 1024) as u32)
    }
}

impl Calibration {
    /// Compensates the raw readings of one measurement: the temperature
    /// first, then pressure and humidity with the fine temperature.
    ///
    /// Fails with `Bme280Error::Overflow` exactly where one of the three
    /// formulas overflows.
    pub fn compensate(&self, raw: RawData) -> (r: Result<Measurement, Bme280Error>)
        ensures
            match measurement_of(*self, raw) {
                Some(m) => r == Ok::<Measurement, Bme280Error>(m),
                None => r == Err::<Measurement, Bme280Error>(Bme280Error::Overflow),
            },
    {
        let (temperature, t_fine) = match self.compensate_temperature(raw.temperature) {
            Ok(pair) => pair,
            Err(err) => {
                return Err(err);
            },
        };
        let pressure = self.compensate_pressure(raw.pressure, t_fine);
        let humidity = self.compensate_humidity(raw.humidity, t_fine);
        match (pressure, humidity) {
            (Ok(pressure), Ok(humidity)) => Ok(Measurement { temperature, pressure, humidity }),
            _ => Err(Bme280Error::Overflow),
        }
    }
}

impl RawData {
    /// Takes the raw readings out of the eight bytes from register 0xF7 on.
    /// Pressure and temperature are 20-bit numbers, humidity a 16-bit one.
    pub fn read_raw_data(data: &[u8; 8]) -> (raw: RawData)
        ensures
            raw == raw_data_of(data@),
            0 <= raw.pressure <= 0xF_FFFF,
            0 <= raw.temperature <= 0xF_FFFF,
            0 <= raw.humidity <= 0xFFFF,
    {
        RawData {
            pressure: (data[0] as i32) * 0x1000 + (data[1] as i32) * 0x10 + (data[2] as i32) / 0x10,
            temperature: (data[3] as i32) * 0x1000 + (data[4] as i32) * 0x10 + (data[5] as i32)
                / 0x10,
            humidity: (data[6] as i32) * 0x100 + (data[7] as i32),
        }
    }
}

} // verus!
