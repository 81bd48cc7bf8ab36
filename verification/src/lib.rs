//! Verified string-to-integer conversion.
//!
//! Parsing reads an optional sign, skips leading zeros, and then
//! accumulates digits in the requested radix.  The default routines wrap
//! on overflow, so any byte buffer can be parsed into any integer type;
//! overflow is reported alongside the wrapped value.
pub mod model;
pub mod integer;
pub mod state;
pub mod atoi;
pub mod api;
pub mod laws;
pub mod digits;
