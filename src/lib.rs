//! Binary peak-array codec and ordered collation for mass spectrometry data.
//!
//! Floating-point values are carried as their IEEE-754 bit patterns (`u64` for
//! a 64-bit float, `u32` for a 32-bit float), so every transformation in this
//! crate is exact and checked down to the byte.
pub mod encodings;
pub mod array;
pub mod map;
pub mod peaks;
pub mod conversion;
pub mod collator;
pub mod file_description;
pub mod summary;
