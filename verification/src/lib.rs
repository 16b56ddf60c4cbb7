//! Restartable conversion between UTF-8 bytes, UTF-16 code units and Unicode
//! scalar values, one unit at a time, with explicit state carried across
//! calls: results are the same however the input is chunked.

pub mod ops;
pub mod state;
pub mod utf16;
pub mod utf8;

pub use ops::Status;
pub use ops::bytes_to_c16;
pub use ops::bytes_to_c32;
pub use ops::bytes_to_c8;
pub use ops::c16_to_bytes;
pub use ops::c32_to_bytes;
pub use ops::c8_to_bytes;
pub use state::MBState;
pub use state::state_is_initial;
pub use utf8::c32tomb;
pub use utf8::mbtoc32;
