//! The per-entry decoder pipeline: a length-limited byte source, a
//! codec-selecting decoder over it, and a CRC-32 hashing layer on top.
//!
//! A pipeline is built per entry read and owns an independent byte source,
//! so readers over one archive never share state.  The hashing layer feeds
//! every delivered byte through a running CRC-32 hasher; the checked reads
//! drain the stream and compare the hash with the entry's stored value.

use vstd::prelude::*;

use vstd::slice::{slice_subrange, slice_to_vec};
use vstd::string::StringExecFns;
use vstd::utf8::{decode_utf8, valid_utf8};

use crate::codec::{bytes_to_string, inflate, inflate_of};
use crate::compression::Compression;
use crate::crc::{crc32_of, hasher_fed, hasher_finalize, hasher_new, hasher_update};
use crate::entry::ZipEntry;
use crate::error::ZipError;

verus! {

/// A byte source that yields exactly the bytes of one window over its data,
/// then end-of-file.
pub struct LimitedReader {
    pub data: Vec<u8>,
    pub pos: usize,
    pub end: usize,
}

impl LimitedReader {
    /// The window sits inside the data and the position inside the window.
    pub open spec fn wf(self) -> bool {
        self.pos <= self.end <= self.data@.len()
    }

    /// The bytes not yet delivered.
    pub open spec fn remaining(self) -> Seq<u8> {
        self.data@.subrange(self.pos as int, self.end as int)
    }

    /// A reader over all of `data`.
    pub fn from_vec(data: Vec<u8>) -> (r: LimitedReader)
        ensures
            r.wf(),
            r.remaining() == data@,
    {
        let end = data.len();
        let r = LimitedReader { data, pos: 0, end };
        proof {
            assert(r.remaining() =~= r.data@);
        }
        r
    }

    /// A reader over the window `[pos, end)` of `data`.
    pub fn with_window(data: Vec<u8>, pos: usize, end: usize) -> (r: LimitedReader)
        requires
            pos <= end <= data@.len(),
        ensures
            r.wf(),
            r.remaining() == data@.subrange(pos as int, end as int),
    {
        LimitedReader { data, pos, end }
    }

    /// Delivers the next `n` bytes, or all that remain if fewer.
    pub fn read(&mut self, n: usize) -> (r: Vec<u8>)
        requires
            old(self).wf(),
        ensures
            final(self).wf(),
            ({
                let k: int = if n as int <= old(self).remaining().len() {
                    n as int
                } else {
                    old(self).remaining().len() as int
                };
                r@ == old(self).remaining().take(k) && final(self).remaining() == old(
                    self,
                ).remaining().skip(k)
            }),
    {
        let avail: usize = self.end - self.pos;
        let k: usize = if n <= avail {
            n
        } else {
            avail
        };
        let r = slice_to_vec(slice_subrange(self.data.as_slice(), self.pos, self.pos + k));
        self.pos = self.pos + k;
        proof {
            assert(r@ =~= old(self).remaining().take(k as int));
            assert(self.remaining() =~= old(self).remaining().skip(k as int));
        }
        r
    }

    /// Delivers every remaining byte.
    pub fn read_all(&mut self) -> (r: Vec<u8>)
        requires
            old(self).wf(),
        ensures
            final(self).wf(),
            r@ == old(self).remaining(),
            final(self).remaining().len() == 0,
    {
        let r = slice_to_vec(slice_subrange(self.data.as_slice(), self.pos, self.end));
        self.pos = self.end;
        proof {
            assert(self.remaining() =~= Seq::<u8>::empty());
        }
        r
    }
}

/// The codec-selecting decoder layer.  Stored serves the limited source as
/// it stands; Deflate decodes the whole compressed window up front and
/// serves the decoded bytes.
pub enum CompressedReader {
    Stored(LimitedReader),
    Deflate(LimitedReader),
}

impl CompressedReader {
    /// The underlying source of decoded bytes.
    pub open spec fn inner(self) -> LimitedReader {
        match self {
            CompressedReader::Stored(l) => l,
            CompressedReader::Deflate(l) => l,
        }
    }

    pub open spec fn wf(self) -> bool {
        self.inner().wf()
    }

    /// The decoded bytes not yet delivered.
    pub open spec fn remaining(self) -> Seq<u8> {
        self.inner().remaining()
    }

    /// Builds the decoder for `compression` over a limited source.  Methods
    /// whose codecs this build leaves out are reported unsupported.
    pub fn new(source: LimitedReader, compression: Compression) -> (r: Result<
        CompressedReader,
        ZipError,
    >)
        requires
            source.wf(),
        ensures
            match r {
                Ok(cr) => {
                    &&& cr.wf()
                    &&& match compression {
                        Compression::Stored => cr.remaining() == source.remaining(),
                        Compression::Deflate => inflate_of(source.remaining()) == Some(
                            cr.remaining(),
                        ),
                        _ => false,
                    }
                },
                Err(e) => match compression {
                    Compression::Stored => false,
                    Compression::Deflate => (e matches ZipError::UpstreamReadError(_))
                        && inflate_of(source.remaining()) is None,
                    _ => e matches ZipError::FeatureNotSupported(_),
                },
            },
    {
        match compression {
            Compression::Stored => Ok(CompressedReader::Stored(source)),
            Compression::Deflate => {
                let mut source = source;
                let compressed = source.read_all();
                match inflate(compressed.as_slice()) {
                    Ok(decoded) => Ok(CompressedReader::Deflate(LimitedReader::from_vec(decoded))),
                    Err(e) => Err(e),
                }
            },
            Compression::Bz => Err(ZipError::FeatureNotSupported("bzip2")),
            Compression::Lzma => Err(ZipError::FeatureNotSupported("lzma")),
            Compression::Zstd => Err(ZipError::FeatureNotSupported("zstd")),
            Compression::Xz => Err(ZipError::FeatureNotSupported("xz")),
        }
    }

    /// Delivers the next `n` decoded bytes, or all that remain if fewer.
    pub fn read(&mut self, n: usize) -> (r: Vec<u8>)
        requires
            old(self).wf(),
        ensures
            final(self).wf(),
            ({
                let k: int = if n as int <= old(self).remaining().len() {
                    n as int
                } else {
                    old(self).remaining().len() as int
                };
                r@ == old(self).remaining().take(k) && final(self).remaining() == old(
                    self,
                ).remaining().skip(k)
            }),
    {
        match self {
            CompressedReader::Stored(l) => l.read(n),
            CompressedReader::Deflate(l) => l.read(n),
        }
    }

    /// Delivers every remaining decoded byte.
    pub fn read_all(&mut self) -> (r: Vec<u8>)
        requires
            old(self).wf(),
        ensures
            final(self).wf(),
            r@ == old(self).remaining(),
            final(self).remaining().len() == 0,
    {
        match self {
            CompressedReader::Stored(l) => l.read_all(),
            CompressedReader::Deflate(l) => l.read_all(),
        }
    }
}

/// The hashing layer: every byte delivered from the decoder below is fed
/// through a running CRC-32 hasher.
pub struct HashedReader {
    pub inner: CompressedReader,
    pub hasher: crc32fast::Hasher,
}

impl HashedReader {
    pub open spec fn wf(self) -> bool {
        self.inner.wf()
    }

    /// The bytes delivered so far, as the hasher has seen them.
    pub open spec fn consumed(self) -> Seq<u8> {
        hasher_fed(self.hasher)
    }

    /// The decoded bytes not yet delivered.
    pub open spec fn remaining(self) -> Seq<u8> {
        self.inner.remaining()
    }

    /// Wraps a decoder with a fresh hasher.
    pub fn new(inner: CompressedReader) -> (r: HashedReader)
        requires
            inner.wf(),
        ensures
            r.wf(),
            r.consumed() == Seq::<u8>::empty(),
            r.remaining() == inner.remaining(),
    {
        HashedReader { inner, hasher: hasher_new() }
    }

    /// Delivers the next `n` bytes and feeds them through the hasher.
    pub fn read(&mut self, n: usize) -> (r: Vec<u8>)
        requires
            old(self).wf(),
        ensures
            final(self).wf(),
            ({
                let k: int = if n as int <= old(self).remaining().len() {
                    n as int
                } else {
                    old(self).remaining().len() as int
                };
                r@ == old(self).remaining().take(k) && final(self).remaining() == old(
                    self,
                ).remaining().skip(k) && final(self).consumed() == old(self).consumed() + r@
            }),
    {
        let r = self.inner.read(n);
        hasher_update(&mut self.hasher, r.as_slice());
        r
    }

    /// Delivers every remaining byte, feeding them through the hasher.
    pub fn read_all(&mut self) -> (r: Vec<u8>)
        requires
            old(self).wf(),
        ensures
            final(self).wf(),
            r@ == old(self).remaining(),
            final(self).remaining().len() == 0,
            final(self).consumed() == old(self).consumed() + old(self).remaining(),
    {
        let r = self.inner.read_all();
        hasher_update(&mut self.hasher, r.as_slice());
        r
    }

    /// Swaps the hasher for a fresh one and returns the finished hash of the
    /// bytes delivered so far.
    pub fn swap_and_compute_hash(&mut self) -> (r: u32)
        ensures
            r == crc32_of(old(self).consumed()),
            final(self).consumed() == Seq::<u8>::empty(),
            final(self).remaining() == old(self).remaining(),
            final(self).wf() == old(self).wf(),
            final(self).inner == old(self).inner,
    {
        let mut fresh = hasher_new();
        core::mem::swap(&mut self.hasher, &mut fresh);
        hasher_finalize(fresh)
    }

    /// Consumes the reader and returns the finished hash of the bytes
    /// delivered so far.
    pub fn compute_hash(self) -> (r: u32)
        ensures
            r == crc32_of(self.consumed()),
    {
        hasher_finalize(self.hasher)
    }
}

/// A reader over a single entry's bytes: the full decoder pipeline, hashing
/// layer outermost.
pub struct ZipEntryReader {
    pub reader: HashedReader,
}

impl ZipEntryReader {
    pub open spec fn wf(self) -> bool {
        self.reader.wf()
    }

    /// The bytes delivered so far, as the CRC-32 hasher has seen them.
    pub open spec fn consumed(self) -> Seq<u8> {
        self.reader.consumed()
    }

    /// The decoded bytes not yet delivered.
    pub open spec fn remaining(self) -> Seq<u8> {
        self.reader.remaining()
    }

    /// Builds the pipeline over an owned copy of the compressed window:
    /// limit, then codec, then hashing.
    ///
    /// `size` is the compressed size from the local file header, when that
    /// header carries one.  Stored compression cannot run without it.
    pub fn new_with_owned(source: Vec<u8>, pos: usize, compression: Compression, size: Option<
        usize,
    >) -> (r: Result<ZipEntryReader, ZipError>)
        requires
            pos <= source@.len(),
            size matches Some(s) ==> pos + s <= source@.len(),
        ensures
            ({
                let window = match size {
                    Some(s) => source@.subrange(pos as int, pos + s),
                    None => source@.subrange(pos as int, source@.len() as int),
                };
                match r {
                    Ok(er) => {
                        &&& er.wf()
                        &&& er.consumed() == Seq::<u8>::empty()
                        &&& match compression {
                            Compression::Stored => size is Some && er.remaining() == window,
                            Compression::Deflate => inflate_of(window) == Some(er.remaining()),
                            _ => false,
                        }
                    },
                    Err(e) => match compression {
                        Compression::Stored => size is None && (e
                            matches ZipError::MissingCompressedSize),
                        Compression::Deflate => (e matches ZipError::UpstreamReadError(_))
                            && inflate_of(window) is None,
                        _ => e matches ZipError::FeatureNotSupported(_),
                    },
                }
            }),
    {
        let source_len: usize = source.len();
        let end: usize = match size {
            Some(s) => pos + s,
            None => {
                if let Compression::Stored = compression {
                    return Err(ZipError::MissingCompressedSize);
                }
                source_len
            },
        };
        let limited = LimitedReader::with_window(source, pos, end);
        match CompressedReader::new(limited, compression) {
            Ok(cr) => Ok(ZipEntryReader { reader: HashedReader::new(cr) }),
            Err(e) => Err(e),
        }
    }

    /// Delivers up to `n` decoded bytes, short only at end-of-file.
    pub fn read(&mut self, n: usize) -> (r: Vec<u8>)
        requires
            old(self).wf(),
        ensures
            final(self).wf(),
            ({
                let k: int = if n as int <= old(self).remaining().len() {
                    n as int
                } else {
                    old(self).remaining().len() as int
                };
                r@ == old(self).remaining().take(k) && final(self).remaining() == old(
                    self,
                ).remaining().skip(k) && final(self).consumed() == old(self).consumed() + r@
            }),
    {
        self.reader.read(n)
    }
}

/// A trait that extends [`ZipEntryReader`]'s functionality.
pub trait ZipEntryReaderExt {
    /// Whether the reader is in a usable state.
    spec fn ext_wf(&self) -> bool;

    /// The bytes delivered so far, as the CRC-32 hasher has seen them.
    spec fn ext_consumed(&self) -> Seq<u8>;

    /// The decoded bytes not yet delivered.
    spec fn ext_remaining(&self) -> Seq<u8>;

    /// Computes and returns the CRC-32 hash of the bytes read so far, and
    /// resets the running hasher.  The hash is meaningful once end-of-file
    /// has been reached.
    fn compute_hash(&mut self) -> (r: u32)
        ensures
            r == crc32_of(old(self).ext_consumed()),
            final(self).ext_consumed() == Seq::<u8>::empty(),
            final(self).ext_remaining() == old(self).ext_remaining(),
            final(self).ext_wf() == old(self).ext_wf(),
    ;

    /// Reads all bytes until end-of-file, appending them to `buf`, and
    /// verifies the CRC-32 value against the entry's.
    fn read_to_end_checked(&mut self, buf: &mut Vec<u8>, entry: &ZipEntry) -> (r: Result<
        usize,
        ZipError,
    >)
        requires
            old(self).ext_wf(),
            old(self).ext_remaining().len() + old(buf)@.len() <= usize::MAX,
        ensures
            final(self).ext_wf(),
            final(buf)@ == old(buf)@ + old(self).ext_remaining(),
            final(self).ext_remaining().len() == 0,
            match r {
                Ok(k) => {
                    &&& k == old(self).ext_remaining().len()
                    &&& crc32_of(old(self).ext_consumed() + old(self).ext_remaining())
                        == entry.crc32
                },
                Err(e) => {
                    &&& e matches ZipError::CRC32CheckError
                    &&& crc32_of(old(self).ext_consumed() + old(self).ext_remaining())
                        != entry.crc32
                },
            },
    ;

    /// Reads all bytes until end-of-file, appending them to `buf` as UTF-8,
    /// and verifies the CRC-32 value against the entry's.
    fn read_to_string_checked(&mut self, buf: &mut String, entry: &ZipEntry) -> (r: Result<
        usize,
        ZipError,
    >)
        requires
            old(self).ext_wf(),
        ensures
            final(self).ext_wf(),
            final(self).ext_remaining().len() == 0,
            match r {
                Ok(k) => {
                    &&& valid_utf8(old(self).ext_remaining())
                    &&& final(buf)@ == old(buf)@ + decode_utf8(old(self).ext_remaining())
                    &&& k == old(self).ext_remaining().len()
                    &&& crc32_of(old(self).ext_consumed() + old(self).ext_remaining())
                        == entry.crc32
                },
                Err(e) => match e {
                    ZipError::UpstreamReadError(_) => !valid_utf8(old(self).ext_remaining())
                        && final(buf)@ == old(buf)@,
                    ZipError::CRC32CheckError => valid_utf8(old(self).ext_remaining())
                        && final(buf)@ == old(buf)@ && crc32_of(
                        old(self).ext_consumed() + old(self).ext_remaining(),
                    ) != entry.crc32,
                    _ => false,
                },
            },
    ;
}

impl ZipEntryReaderExt for ZipEntryReader {
    open spec fn ext_wf(&self) -> bool {
        self.wf()
    }

    open spec fn ext_consumed(&self) -> Seq<u8> {
        self.consumed()
    }

    open spec fn ext_remaining(&self) -> Seq<u8> {
        self.remaining()
    }

    fn compute_hash(&mut self) -> (r: u32) {
        self.reader.swap_and_compute_hash()
    }

    fn read_to_end_checked(&mut self, buf: &mut Vec<u8>, entry: &ZipEntry) -> (r: Result<
        usize,
        ZipError,
    >) {
        let mut bytes = self.reader.read_all();
        let read: usize = bytes.len();
        buf.append(&mut bytes);
        let hash = self.reader.swap_and_compute_hash();
        if hash == entry.crc32 {
            Ok(read)
        } else {
            Err(ZipError::CRC32CheckError)
        }
    }

    fn read_to_string_checked(&mut self, buf: &mut String, entry: &ZipEntry) -> (r: Result<
        usize,
        ZipError,
    >) {
        let bytes = self.reader.read_all();
        let read: usize = bytes.len();
        match bytes_to_string(bytes) {
            Ok(s) => {
                let hash = self.reader.swap_and_compute_hash();
                if hash == entry.crc32 {
                    buf.append(s.as_str());
                    Ok(read)
                } else {
                    Err(ZipError::CRC32CheckError)
                }
            },
            Err(e) => Err(e),
        }
    }
}

} // verus!
