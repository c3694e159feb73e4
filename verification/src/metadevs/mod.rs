//! Devices that are made up of other devices.

pub mod storage;
pub mod volumes;
