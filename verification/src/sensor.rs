//! The data handling of the peripherals: what is computed from the bytes,
//! bits and timings that a driver collects.

pub mod aht30;
pub mod bits;
pub mod bme280;
pub mod button;
pub mod dht11;
pub mod hx711;
pub mod uln2003a;
