//! Decoding of zstd-compressed web archives that carry their own dictionary.
//!
//! An archive opens with a skippable zstd frame that holds the compression
//! dictionary (raw, or itself zstd-compressed). The frame reader
//! (`container`) extracts and resolves that dictionary, the codec (`codec`)
//! decodes the whole stream with it, and the record stream (`stream`) splits
//! the plaintext into WARC records (`record`) and counts them. `archive`
//! runs the three in turn.
pub mod archive;
pub mod codec;
pub mod container;
pub mod record;
pub mod session;
pub mod stream;
