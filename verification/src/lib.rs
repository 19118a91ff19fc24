//! Hide short messages in PNG files.
//!
//! A PNG file is a fixed signature followed by chunks; each chunk is a
//! length, a four-byte type, a payload and a CRC-32 of type and payload.
//! This crate reads and writes that layout byte for byte and proves that
//! reading undoes writing and writing undoes reading.

pub mod error;
pub mod text;
pub mod bytes;
pub mod checksum;
pub mod chunk_type;
pub mod chunk;
pub mod png;
pub mod commands;
