//! Serial-port communication core: packet framing, byte buffering,
//! sensor-reading extraction from JSON text, and error codes.
//!
//! The functions here compute on plain values; the port I/O, the C ABI and
//! the conversion of text readings into floating-point numbers live in the
//! application layer that wraps this library.

pub mod error;
pub mod types;
pub mod buffer;
pub mod bytes;
pub mod protocol;
pub mod json;
pub mod stream;
pub mod sensor_config;
pub mod session;
