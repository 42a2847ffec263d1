//! Codec for DRC recordings: fixed-size frames, each a header with an embedded
//! text timestamp followed by a block of 16-bit samples.
pub mod bytes;
pub mod frame;
pub mod header;
pub mod time;
