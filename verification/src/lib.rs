//! Verified sensor logic for a Raspberry Pi: the weighing pipeline of a
//! load cell behind a 24-bit converter, and the data handling of a few
//! other peripherals.  Everything here works on plain values; clocking
//! pins and buses is left to the caller.

pub mod channel;
pub mod fixed;
pub mod input_pin_wapper;
pub mod io_pin_wapper;
pub mod output_pin_wapper;
pub mod round_trip;
pub mod sensor;
pub mod single;
pub mod std_clock;
pub mod weight;
pub mod window;
