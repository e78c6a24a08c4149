//! Compression methods and host attribute compatibility, with their 16-bit
//! wire codes.

use vstd::prelude::*;

use crate::error::ZipError;

verus! {

/// A compression method an entry may be stored with.
#[derive(Clone, Copy, Debug, PartialEq, Eq, Structural)]
pub enum Compression {
    Stored,
    Deflate,
    Bz,
    Lzma,
    Zstd,
    Xz,
}

/// The 16-bit wire code of a compression method.
pub open spec fn spec_compression_code(c: Compression) -> u16 {
    match c {
        Compression::Stored => 0,
        Compression::Deflate => 8,
        Compression::Bz => 12,
        Compression::Lzma => 14,
        Compression::Zstd => 93,
        Compression::Xz => 95,
    }
}

/// Whether a 16-bit wire code names a known compression method.
pub open spec fn is_compression_code(code: u16) -> bool {
    code == 0 || code == 8 || code == 12 || code == 14 || code == 93 || code == 95
}

/// The compression method a known wire code names.
pub open spec fn spec_compression_of_code(code: u16) -> Compression
    recommends
        is_compression_code(code),
{
    if code == 0 {
        Compression::Stored
    } else if code == 8 {
        Compression::Deflate
    } else if code == 12 {
        Compression::Bz
    } else if code == 14 {
        Compression::Lzma
    } else if code == 93 {
        Compression::Zstd
    } else {
        Compression::Xz
    }
}

impl Compression {
    /// The 16-bit code this method is written as on the wire.
    pub fn to_u16(&self) -> (code: u16)
        ensures
            code == spec_compression_code(*self),
    {
        match self {
            Compression::Stored => 0,
            Compression::Deflate => 8,
            Compression::Bz => 12,
            Compression::Lzma => 14,
            Compression::Zstd => 93,
            Compression::Xz => 95,
        }
    }

    /// The method a wire code names, or `UnsupportedCompressionError` for any
    /// other code.
    pub fn from_u16(code: u16) -> (r: Result<Compression, ZipError>)
        ensures
            match r {
                Ok(c) => is_compression_code(code) && c == spec_compression_of_code(code),
                Err(e) => !is_compression_code(code) && (e matches ZipError::UnsupportedCompressionError(c2) && c2 == code),
            },
    {
        match code {
            0 => Ok(Compression::Stored),
            8 => Ok(Compression::Deflate),
            12 => Ok(Compression::Bz),
            14 => Ok(Compression::Lzma),
            93 => Ok(Compression::Zstd),
            95 => Ok(Compression::Xz),
            _ => Err(ZipError::UnsupportedCompressionError(code)),
        }
    }
}

/// The host system an entry's external attributes are meant for.
#[derive(Clone, Copy, Debug, PartialEq, Eq, Structural)]
pub enum AttributeCompatibility {
    Unix,
}

impl AttributeCompatibility {
    /// The 16-bit code this compatibility is written as on the wire.
    pub fn to_u16(&self) -> (code: u16)
        ensures
            code == 3,
    {
        3
    }

    /// The compatibility a wire code names, or
    /// `UnsupportedAttributeCompatibility` for any other code.
    pub fn from_u16(code: u16) -> (r: Result<AttributeCompatibility, ZipError>)
        ensures
            match r {
                Ok(c) => code == 3 && c == AttributeCompatibility::Unix,
                Err(e) => code != 3 && (e matches ZipError::UnsupportedAttributeCompatibility(c2) && c2 == code),
            },
    {
        match code {
            3 => Ok(AttributeCompatibility::Unix),
            _ => Err(ZipError::UnsupportedAttributeCompatibility(code)),
        }
    }
}

} // verus!
