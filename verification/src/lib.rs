//! A verified core for reading and writing ZIP archives.
//!
//! The crate parses and produces archives held in memory: it locates the
//! end-of-central-directory record with a buffered reverse scan, parses the
//! central directory into a [`file::ZipFile`], opens per-entry decoder
//! pipelines that verify a running CRC-32, and emits complete archives
//! through a streaming [`write::ZipFileWriter`].

pub mod codec;
pub mod compression;
pub mod crc;
pub mod datetime;
pub mod entry;
pub mod error;
pub mod file;
pub mod header;
pub mod laws;
pub mod locator;
pub mod mem;
pub mod pipeline;
pub mod read;
pub mod write;

pub use crate::compression::AttributeCompatibility;
pub use crate::compression::Compression;
pub use crate::entry::ZipEntry;
pub use crate::error::ZipError;
pub use crate::file::ZipFile;
pub use crate::file::ZipFileBuilder;
pub use crate::file::ZipFileBuilderExt;
pub use crate::file::ZipFileExt;
pub use crate::pipeline::ZipEntryReader;
pub use crate::pipeline::ZipEntryReaderExt;
