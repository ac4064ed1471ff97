//! Host-side core of a sensor glove: serial connection lifecycle, framing of
//! the device's line protocol into samples, and calibrated session records.

pub mod connection;
pub mod decimal;
pub mod frame;
pub mod normalize;
pub mod platform;
pub mod reader;
pub mod recorder;
pub mod sample;
pub mod speech;
pub mod text;

