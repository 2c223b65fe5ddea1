//! A durable local cache-entry codec.
//!
//! A cache entry file stores a fetched resource's raw content together with
//! its metadata (source URL, headers, optional fetch time) in a single file:
//! the content bytes, then a trailer that begins at the last newline of the
//! file with a fixed marker and ends with the serialized metadata.
//!
//! This crate holds the verified core: locating the boundary between content
//! and metadata, assembling a file from its two parts, and the conservative
//! capacity estimate used to pre-size the output buffer. Reading and writing
//! the bytes on disk, and turning metadata bytes into structured values, are
//! left to the caller.

pub mod arith;
pub mod cache_file;
pub mod metadata;
