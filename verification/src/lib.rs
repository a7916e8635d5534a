//! Image layers: immutable snapshot files that hold the value of every key
//! of a key range as of one LSN.
//!
//! A layer file has three parts. The summary, a fixed header, stands in the
//! first block. The values follow from the second block on, each as a blob
//! with its length before it, compressed where that makes it shorter. The
//! index follows the values from the next whole block on and maps each key to
//! a reference to its blob.
//!
//! `writer` builds the bytes of a file, `layer` reads them.

pub mod be_bytes;
pub mod blob_io;
pub mod blob_ref;
pub mod compression;
pub mod disk_index;
pub mod error;
pub mod hex_text;
pub mod key;
pub mod layer;
pub mod load;
pub mod reconstruct;
pub mod summary;
pub mod writer;
