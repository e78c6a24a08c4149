//! A concurrent reader over an owned, in-memory archive.
//!
//! Each `entry_reader` call builds an independent pipeline over its own copy
//! of the entry's compressed window, so any number of entry readers can be
//! read side by side without sharing state.

use vstd::prelude::*;

use vstd::slice::{slice_subrange, slice_to_vec};

use crate::codec::{eof_error, inflate_of};
use crate::compression::{is_compression_code, spec_compression_of_code, Compression};
use crate::error::ZipError;
use crate::file::ZipFile;
use crate::header::{
    check_signature, le32_bytes, parse_lfh, sig_at, spec_data_descriptor, spec_lfh_at,
    LocalFileHeader, LFH_SIGNATURE,
};
use crate::pipeline::ZipEntryReader;
use crate::read::{file, file_matches, file_structure_ok, rightmost_occurrence};

verus! {

/// Structural parse of the local file header at `off`: the signature, the
/// 26-byte fixed body, and the offset of the payload past the variable
/// tails.
pub open spec fn spec_lfh_slot(data: Seq<u8>, off: int) -> Option<(LocalFileHeader, int)> {
    if off + 30 <= data.len() && sig_at(data, off, LFH_SIGNATURE) {
        let h = spec_lfh_at(data, off + 4);
        let payload = off + 30 + h.file_name_length + h.extra_field_length;
        if payload <= data.len() {
            Some((h, payload))
        } else {
            None
        }
    } else {
        None
    }
}

/// The compressed window an entry reader decodes: sized by the local header
/// unless a data descriptor defers the size, in which case it runs to the
/// end of the data.
pub open spec fn spec_entry_window(data: Seq<u8>, h: LocalFileHeader, payload: int) -> Seq<u8> {
    if spec_data_descriptor(h.flags) {
        data.subrange(payload, data.len() as int)
    } else {
        data.subrange(payload, payload + h.compressed_size)
    }
}

/// Every check `entry_reader` makes on its way to a working pipeline.
pub open spec fn entry_readable(data: Seq<u8>, zf: ZipFile, index: int) -> bool {
    &&& 0 <= index < zf.entries@.len()
    &&& index < zf.metas@.len()
    &&& zf.metas@[index].file_offset matches Some(o) && {
        let off = o as int;
        &&& spec_lfh_slot(data, off) matches Some((h, payload)) && {
            &&& h.compressed_size != 0xffffffff
            &&& is_compression_code(h.compression)
            &&& match spec_compression_of_code(h.compression) {
                Compression::Stored => !spec_data_descriptor(h.flags) && payload
                    + h.compressed_size <= data.len(),
                Compression::Deflate => (spec_data_descriptor(h.flags) || payload
                    + h.compressed_size <= data.len()) && inflate_of(
                    spec_entry_window(data, h, payload),
                ) is Some,
                _ => false,
            }
        }
    }
}

/// Exactly which error kind `entry_reader` reports, tied to its cause: a
/// bad index, a missing or overrunning local header, a bad signature, a
/// ZIP64 sentinel, an unknown or absent codec, a Stored entry whose size is
/// deferred, a payload past the end, or a payload that does not decode.
pub open spec fn mem_entry_err(data: Seq<u8>, zf: ZipFile, index: int, e: ZipError) -> bool {
    let in_bounds = 0 <= index < zf.entries@.len() && index < zf.metas@.len();
    match e {
        ZipError::EntryIndexOutOfBounds => !(index < zf.entries@.len() && index
            < zf.metas@.len()),
        ZipError::UpstreamReadError(_) => in_bounds && (zf.metas@[index].file_offset is None || (
        zf.metas@[index].file_offset matches Some(o) && {
            let off = o as int;
            ||| off + 4 > data.len()
            ||| (sig_at(data, off, LFH_SIGNATURE) && spec_lfh_slot(data, off) is None)
            ||| (spec_lfh_slot(data, off) matches Some((h, payload)) && h.compressed_size
                != 0xffffffff && is_compression_code(h.compression) && match spec_compression_of_code(
                h.compression,
            ) {
                Compression::Stored => !spec_data_descriptor(h.flags) && payload
                    + h.compressed_size > data.len(),
                Compression::Deflate => (!spec_data_descriptor(h.flags) && payload
                    + h.compressed_size > data.len()) || ((spec_data_descriptor(h.flags) || payload
                    + h.compressed_size <= data.len()) && inflate_of(
                    spec_entry_window(data, h, payload),
                ) is None),
                _ => false,
            })
        })),
        ZipError::UnexpectedHeaderError(actual, expected) => in_bounds && (
        zf.metas@[index].file_offset matches Some(o) && o + 4 <= data.len() && !sig_at(
            data,
            o as int,
            LFH_SIGNATURE,
        ) && le32_bytes(actual) == data.subrange(o as int, o + 4) && expected == LFH_SIGNATURE),
        ZipError::TargetZip64Unsupported => in_bounds && (zf.metas@[index].file_offset
            matches Some(o) && spec_lfh_slot(data, o as int) matches Some((h, _))
            && h.compressed_size == 0xffffffff),
        ZipError::UnsupportedCompressionError(c) => in_bounds && (zf.metas@[index].file_offset
            matches Some(o) && spec_lfh_slot(data, o as int) matches Some((h, _))
            && h.compressed_size != 0xffffffff && c == h.compression && !is_compression_code(c)),
        ZipError::MissingCompressedSize => in_bounds && (zf.metas@[index].file_offset
            matches Some(o) && spec_lfh_slot(data, o as int) matches Some((h, _))
            && h.compressed_size != 0xffffffff && is_compression_code(h.compression)
            && (spec_compression_of_code(h.compression) matches Compression::Stored)
            && spec_data_descriptor(h.flags)),
        ZipError::FeatureNotSupported(_) => in_bounds && (zf.metas@[index].file_offset
            matches Some(o) && spec_lfh_slot(data, o as int) matches Some((h, _))
            && h.compressed_size != 0xffffffff && is_compression_code(h.compression)
            && !(spec_compression_of_code(h.compression) matches Compression::Stored)
            && !(spec_compression_of_code(h.compression) matches Compression::Deflate)),
        _ => false,
    }
}

/// A concurrent reader which acts over an owned vector of bytes.
pub struct ZipFileReader {
    pub data: Vec<u8>,
    pub file: ZipFile,
}

impl ZipFileReader {
    /// Parses the archive held in `data` and keeps both.
    pub fn new(data: Vec<u8>) -> (r: Result<ZipFileReader, ZipError>)
        ensures
            match r {
                Ok(zr) => {
                    &&& zr.data == data
                    &&& zr.file.entries@.len() == zr.file.metas@.len()
                    &&& exists|off: int|
                        rightmost_occurrence(data@, off) && #[trigger] file_structure_ok(
                            data@,
                            off,
                        ) && file_matches(data@, off, zr.file)
                },
                Err(e) => forall|off: int|
                    !(rightmost_occurrence(data@, off) && #[trigger] file_structure_ok(data@, off)),
            },
    {
        let zf = match file(data.as_slice()) {
            Ok(zf) => zf,
            Err(e) => {
                return Err(e);
            },
        };
        Ok(ZipFileReader { data, file: zf })
    }

    /// The parsed view of the archive.
    pub fn file(&self) -> (r: &ZipFile)
        ensures
            r == &self.file,
    {
        &self.file
    }

    /// Opens an independent reader over the entry at `index`: it parses the
    /// entry's local file header, skips the variable tails, and builds a
    /// decoder pipeline over a copy of the compressed window.
    pub fn entry_reader(&self, index: usize) -> (r: Result<ZipEntryReader, ZipError>)
        ensures
            match r {
                Ok(er) => {
                    &&& entry_readable(self.data@, self.file, index as int)
                    &&& er.wf()
                    &&& er.consumed() == Seq::<u8>::empty()
                    &&& self.file.metas@[index as int].file_offset matches Some(o) && {
                        let off = o as int;
                        &&& spec_lfh_slot(self.data@, off) matches Some((h, payload)) && {
                            let window = spec_entry_window(self.data@, h, payload);
                            match spec_compression_of_code(h.compression) {
                                Compression::Stored => er.remaining() == window,
                                Compression::Deflate => inflate_of(window) == Some(er.remaining()),
                                _ => false,
                            }
                        }
                    }
                },
                Err(e) => {
                    &&& !entry_readable(self.data@, self.file, index as int)
                    &&& mem_entry_err(self.data@, self.file, index as int, e)
                },
            },
    {
        let data = self.data.as_slice();
        let data_len: usize = data.len();
        if index >= self.file.entries.len() || index >= self.file.metas.len() {
            return Err(ZipError::EntryIndexOutOfBounds);
        }
        let meta = self.file.metas[index];
        let off: usize = match meta.file_offset {
            Some(o) => {
                proof {
                    assert(o as usize as int == o as int);
                }
                o as usize
            },
            None => {
                return Err(eof_error());
            },
        };
        if data_len < 4 || off > data_len - 4 {
            return Err(eof_error());
        }
        if let Err(e) = check_signature(data, off, LFH_SIGNATURE) {
            return Err(e);
        }
        if data_len - off < 30 {
            return Err(eof_error());
        }
        let h = parse_lfh(data, off + 4);
        let tails: usize = h.file_name_length as usize + h.extra_field_length as usize;
        if data_len - off - 30 < tails {
            return Err(eof_error());
        }
        let payload: usize = off + 30 + tails;
        if h.compressed_size == 0xffffffff {
            return Err(ZipError::TargetZip64Unsupported);
        }
        let compression = match Compression::from_u16(h.compression) {
            Ok(c) => c,
            Err(e) => {
                return Err(e);
            },
        };
        let dd = h.flags.data_descriptor();
        match compression {
            Compression::Stored => {
                if dd {
                    return Err(ZipError::MissingCompressedSize);
                }
            },
            Compression::Deflate => {},
            Compression::Bz => {
                return Err(ZipError::FeatureNotSupported("bzip2"));
            },
            Compression::Lzma => {
                return Err(ZipError::FeatureNotSupported("lzma"));
            },
            Compression::Zstd => {
                return Err(ZipError::FeatureNotSupported("zstd"));
            },
            Compression::Xz => {
                return Err(ZipError::FeatureNotSupported("xz"));
            },
        }
        let csize: usize = h.compressed_size as usize;
        if !dd && data_len - payload < csize {
            return Err(eof_error());
        }
        let window_end: usize = if dd {
            data_len
        } else {
            payload + csize
        };
        let source = slice_to_vec(slice_subrange(data, payload, window_end));
        let size: Option<usize> = if dd {
            None
        } else {
            Some(csize)
        };
        proof {
            if !dd {
                assert(source@.subrange(0, csize as int) =~= source@);
            } else {
                assert(source@.subrange(0, source@.len() as int) =~= source@);
            }
        }
        match ZipEntryReader::new_with_owned(source, 0, compression, size) {
            Ok(er) => Ok(er),
            Err(e) => Err(e),
        }
    }
}

} // verus!
