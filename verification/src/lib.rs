//! A codec and container manager for a chunk-based binary image format.
//!
//! A byte stream holds a fixed 8-byte signature followed by an ordered
//! sequence of chunks.  Each chunk is a length-prefixed, checksum-suffixed
//! record: a 4-byte type code whose per-byte letter case encodes four
//! boolean flags, an opaque payload, and a CRC-32/ISO-HDLC checksum over
//! the type code and payload.  The library parses such streams, lets a
//! caller inspect, append, or remove chunks by type code, and serializes
//! the result back to an exact byte stream.

pub mod args;
pub mod byte_order;
pub mod chunk;
pub mod chunk_type;
pub mod crc32;
pub mod error;
pub mod png;
mod text;
