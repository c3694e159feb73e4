//! Small containers that the kernel brings along.

pub mod once;
pub mod ring_buffer;

pub use self::once::Once;
pub use self::ring_buffer::RingBuf;
