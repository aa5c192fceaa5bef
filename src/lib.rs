//! A fixed-capacity text buffer that never allocates.
//!
//! [`StrBuf`] keeps `N` bytes of storage and a cursor. Text is appended whole
//! or not at all, and the written bytes are always valid UTF-8.
pub mod buffer;
pub mod encoding;
pub mod laws;

pub use buffer::{CapacityExceeded, StrBuf};
