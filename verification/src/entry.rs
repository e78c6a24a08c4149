//! An archive member's descriptor, as parsed from or written to the central
//! directory.

use vstd::prelude::*;

use crate::compression::{AttributeCompatibility, Compression};
use crate::datetime::ZipDateTime;
use crate::header::GeneralPurposeFlag;

verus! {

/// An immutable descriptor of a single archive member.
pub struct ZipEntry {
    pub filename: String,
    pub compression: Compression,
    pub attribute_compatibility: AttributeCompatibility,
    pub crc32: u32,
    pub uncompressed_size: u32,
    pub compressed_size: u32,
    pub last_modification_date: ZipDateTime,
    pub internal_file_attribute: u16,
    pub external_file_attribute: u32,
    pub extra_field: Vec<u8>,
    pub comment: String,
}

/// The bounds every entry must keep: variable-length parts fit 16-bit
/// length fields, and sizes stay clear of the ZIP64 sentinel.
pub open spec fn entry_wf(e: ZipEntry) -> bool {
    &&& vstd::utf8::encode_utf8(e.filename@).len() <= 0xffff
    &&& e.extra_field@.len() <= 0xffff
    &&& vstd::utf8::encode_utf8(e.comment@).len() <= 0xffff
    &&& e.compressed_size < 0xffffffff
    &&& e.uncompressed_size < 0xffffffff
}

impl ZipEntry {
    /// Returns the entry's filename.
    pub fn filename(&self) -> (r: &str)
        ensures
            r@ == self.filename@,
    {
        self.filename.as_str()
    }

    /// Returns the entry's compression method.
    pub fn compression(&self) -> (r: Compression)
        ensures
            r == self.compression,
    {
        self.compression
    }

    /// Returns the entry's attribute host compatibility.
    pub fn attribute_compatibility(&self) -> (r: AttributeCompatibility)
        ensures
            r == self.attribute_compatibility,
    {
        self.attribute_compatibility
    }

    /// Returns the CRC-32 of the entry's uncompressed bytes.
    pub fn crc32(&self) -> (r: u32)
        ensures
            r == self.crc32,
    {
        self.crc32
    }

    /// Returns the entry's uncompressed size.
    pub fn uncompressed_size(&self) -> (r: u32)
        ensures
            r == self.uncompressed_size,
    {
        self.uncompressed_size
    }

    /// Returns the entry's compressed size.
    pub fn compressed_size(&self) -> (r: u32)
        ensures
            r == self.compressed_size,
    {
        self.compressed_size
    }

    /// Returns the entry's modification date and time, as the DOS pair.
    pub fn last_modification_date(&self) -> (r: ZipDateTime)
        ensures
            r == self.last_modification_date,
    {
        self.last_modification_date
    }

    /// Returns the entry's internal file attribute word.
    pub fn internal_file_attribute(&self) -> (r: u16)
        ensures
            r == self.internal_file_attribute,
    {
        self.internal_file_attribute
    }

    /// Returns the entry's external file attribute word.
    pub fn external_file_attribute(&self) -> (r: u32)
        ensures
            r == self.external_file_attribute,
    {
        self.external_file_attribute
    }

    /// Returns the entry's extra field bytes.
    pub fn extra_field(&self) -> (r: &[u8])
        ensures
            r@ == self.extra_field@,
    {
        self.extra_field.as_slice()
    }

    /// Returns the entry's comment.
    pub fn comment(&self) -> (r: &str)
        ensures
            r@ == self.comment@,
    {
        self.comment.as_str()
    }
}

/// Mutable metadata kept beside an entry: the general purpose flag word and
/// the local header's byte offset, once known.
#[derive(Clone, Copy, Debug, PartialEq, Eq, Structural)]
pub struct ZipEntryMeta {
    pub general_purpose_flag: GeneralPurposeFlag,
    pub file_offset: Option<u32>,
}

} // verus!
