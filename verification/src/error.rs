//! Error reporting for archive reading and writing.

use vstd::prelude::*;

verus! {

/// `std::io::Error` carried by [`ZipError::UpstreamReadError`]; the value is
/// opaque to the verifier and is only moved through.
#[verifier::external_type_specification]
#[verifier::external_body]
pub struct ExIoError(std::io::Error);

/// The ways reading or writing an archive can fail.
#[derive(Debug)]
pub enum ZipError {
    /// A header signature did not match: `(actual, expected)`.
    UnexpectedHeaderError(u32, u32),
    /// The 16-bit wire code is not a known compression method.
    UnsupportedCompressionError(u16),
    /// The 16-bit wire code is not a known host attribute compatibility.
    UnsupportedAttributeCompatibility(u16),
    /// An upstream byte source or sink failed.
    UpstreamReadError(std::io::Error),
    /// The build does not include the requested capability.
    FeatureNotSupported(&'static str),
    /// A computed CRC-32 value did not match the stored one.
    CRC32CheckError,
    /// An entry index was past the end of the entry list.
    EntryIndexOutOfBounds,
    /// Stored compression requires a compressed size in the local file header.
    MissingCompressedSize,
    /// A count or size carried a ZIP64 sentinel, which this crate rejects.
    TargetZip64Unsupported,
    /// The number of entries parsed differs from the EOCDR's count.
    NumOfEntriesMismatch,
    /// No end-of-central-directory record could be located.
    UnableToLocateEOCDR,
}

impl ZipError {
    /// A short description of the error kind.
    pub fn kind_message(&self) -> &'static str {
        match self {
            ZipError::UnexpectedHeaderError(_, _) => "encountered an unexpected header",
            ZipError::UnsupportedCompressionError(_) => "not a supported compression type",
            ZipError::UnsupportedAttributeCompatibility(_) => "not a supported host attribute compatibility",
            ZipError::UpstreamReadError(_) => "an upstream reader returned an error",
            ZipError::FeatureNotSupported(_) => "feature not currently supported",
            ZipError::CRC32CheckError => "a computed CRC32 value did not match the expected value",
            ZipError::EntryIndexOutOfBounds => "entry index was out of bounds",
            ZipError::MissingCompressedSize => "compressed size must be present in the local file header when using stored compression",
            ZipError::TargetZip64Unsupported => "ZIP64 archives are not supported",
            ZipError::NumOfEntriesMismatch => "the number of entries read does not match the number within the EOCDR",
            ZipError::UnableToLocateEOCDR => "unable to locate the end of central directory record",
        }
    }
}

} // verus!
