//! Helpers for drivers.

pub mod dma_buffer;
