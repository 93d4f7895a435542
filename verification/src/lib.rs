//! Chunk-level reading and rewriting of PNG files.
//!
//! A PNG file is an eight-byte signature followed by chunks. Each chunk is a
//! big-endian length, a four-letter type code, a payload and a CRC-32 of type
//! and payload. This crate parses such a file into its chunks, lets a caller
//! append, find and remove chunks by type, and writes the file back. It is
//! meant for hiding short messages in ancillary chunks without touching the
//! image data.
//!
//! The code is verified with Verus: no function panics, and each contract
//! says which bytes or which error is returned. Two calls are taken on trust,
//! the CRC-32 of the `crc` crate and the UTF-8 check of the standard
//! library; `checksum` and `text` say what is assumed of them.

pub mod checksum;
pub mod chunk;
pub mod chunk_type;
pub mod commands;
pub mod endian;
pub mod error;
pub mod png;
pub mod text;
