//! A streaming archive writer over an in-memory byte sink.
//!
//! Entries are emitted one at a time: local file header, variable tails,
//! then payload.  A matching central directory entry is accumulated for each
//! one, and `close` emits the central directory and the
//! end-of-central-directory record from the accumulated entries.

use vstd::prelude::*;

use vstd::utf8::encode_utf8;

use crate::codec::{deflate, deflate_of, inflate_of};
use crate::compression::{spec_compression_code, Compression};
use crate::crc::{compute_crc, crc32_of};
use crate::datetime::ZipDateTime;
use crate::error::ZipError;
use crate::header::{
    cdh_bytes, encode_cdh, encode_eocdr, encode_lfh, eocdr_bytes, lfh_bytes, push_signature,
    sig_bytes, CentralDirectoryHeader, EndOfCentralDirectoryHeader, GeneralPurposeFlag,
    LocalFileHeader, CDH_SIGNATURE, EOCDR_SIGNATURE, LFH_SIGNATURE,
};

verus! {

/// A set of options for opening new ZIP entries.
pub struct EntryOptions {
    pub filename: String,
    pub compression: Compression,
    pub extra: Vec<u8>,
    pub comment: String,
}

impl EntryOptions {
    /// Construct a new set of options from its required constituents.
    pub fn new(filename: String, compression: Compression) -> (r: EntryOptions)
        ensures
            r.filename == filename,
            r.compression == compression,
            r.extra@ == Seq::<u8>::empty(),
            r.comment@ == Seq::<char>::empty(),
    {
        EntryOptions { filename, compression, extra: Vec::new(), comment: String::new() }
    }

    /// Consume the options and override the extra field data.
    pub fn extra(self, extra: Vec<u8>) -> (r: EntryOptions)
        ensures
            r == (EntryOptions { extra, ..self }),
    {
        EntryOptions { extra, ..self }
    }

    /// Consume the options and override the file comment.
    pub fn comment(self, comment: String) -> (r: EntryOptions)
        ensures
            r == (EntryOptions { comment, ..self }),
    {
        EntryOptions { comment, ..self }
    }
}

/// The payload bytes an entry's raw data becomes under a compression
/// method.
pub open spec fn payload_of(c: Compression, data: Seq<u8>) -> Seq<u8> {
    match c {
        Compression::Stored => data,
        Compression::Deflate => deflate_of(data),
        _ => Seq::<u8>::empty(),
    }
}

/// A central directory header accumulated beside the options it was built
/// from, until `close` emits it.
pub struct CentralDirectoryEntry {
    pub header: CentralDirectoryHeader,
    pub opts: EntryOptions,
}

/// The header's length fields agree with the options' actual lengths.
pub open spec fn cde_wf(c: CentralDirectoryEntry) -> bool {
    &&& c.header.file_name_length == encode_utf8(c.opts.filename@).len()
    &&& c.header.extra_field_length == c.opts.extra@.len()
    &&& c.header.file_comment_length == encode_utf8(c.opts.comment@).len()
}

/// The local file header that mirrors an accumulated central directory
/// header, as `write_entry` emits it.
pub open spec fn lfh_of_cdh(h: CentralDirectoryHeader) -> LocalFileHeader {
    LocalFileHeader {
        version: 0,
        flags: h.flags,
        compression: h.compression,
        mod_time: h.mod_time,
        mod_date: h.mod_date,
        crc: h.crc,
        compressed_size: h.compressed_size,
        uncompressed_size: h.uncompressed_size,
        file_name_length: h.file_name_length,
        extra_field_length: h.extra_field_length,
    }
}

/// The bytes one entry occupies in the archive body: local file header with
/// its signature, the variable tails, then the payload.
pub open spec fn local_entry_bytes(c: CentralDirectoryEntry, payload: Seq<u8>) -> Seq<u8> {
    sig_bytes(LFH_SIGNATURE) + lfh_bytes(lfh_of_cdh(c.header)) + encode_utf8(c.opts.filename@)
        + c.opts.extra@ + payload
}

/// The bytes one accumulated entry occupies in the central directory.
pub open spec fn cd_row_bytes(c: CentralDirectoryEntry) -> Seq<u8> {
    sig_bytes(CDH_SIGNATURE) + cdh_bytes(c.header) + encode_utf8(c.opts.filename@) + c.opts.extra@
        + encode_utf8(c.opts.comment@)
}

/// The bytes the whole central directory occupies.
pub open spec fn cd_dir_bytes(s: Seq<CentralDirectoryEntry>) -> Seq<u8>
    decreases s.len(),
{
    if s.len() == 0 {
        Seq::<u8>::empty()
    } else {
        cd_row_bytes(s[0]) + cd_dir_bytes(s.drop_first())
    }
}

/// Appending an entry appends its row's bytes.
pub proof fn lemma_cd_dir_bytes_push(s: Seq<CentralDirectoryEntry>, c: CentralDirectoryEntry)
    ensures
        cd_dir_bytes(s.push(c)) == cd_dir_bytes(s) + cd_row_bytes(c),
    decreases s.len(),
{
    if s.len() == 0 {
        assert(s.push(c)[0] == c);
        let tail = s.push(c).drop_first();
        assert(tail =~= Seq::<CentralDirectoryEntry>::empty());
        assert(cd_dir_bytes(s) == Seq::<u8>::empty());
        assert(cd_dir_bytes(tail) == Seq::<u8>::empty());
        assert(cd_dir_bytes(s.push(c)) == cd_row_bytes(c) + cd_dir_bytes(tail));
        assert(cd_row_bytes(c) + Seq::<u8>::empty() =~= Seq::<u8>::empty() + cd_row_bytes(c));
    } else {
        assert(s.push(c).drop_first() =~= s.drop_first().push(c));
        lemma_cd_dir_bytes_push(s.drop_first(), c);
        assert(cd_dir_bytes(s.push(c)) == cd_row_bytes(s[0]) + (cd_dir_bytes(s.drop_first())
            + cd_row_bytes(c)));
        assert(cd_row_bytes(s[0]) + (cd_dir_bytes(s.drop_first()) + cd_row_bytes(c)) =~= (
        cd_row_bytes(s[0]) + cd_dir_bytes(s.drop_first())) + cd_row_bytes(c));
    }
}

/// A writer which emits a complete archive into an owned byte sink.
pub struct ZipFileWriter {
    pub sink: Vec<u8>,
    pub cd_entries: Vec<CentralDirectoryEntry>,
    pub written: usize,
}

impl ZipFileWriter {
    /// The byte counter mirrors the sink and every accumulated entry keeps
    /// its lengths consistent.
    pub open spec fn wf(self) -> bool {
        &&& self.written == self.sink@.len()
        &&& forall|i: int| 0 <= i < self.cd_entries@.len() ==> cde_wf(#[trigger] self.cd_entries@[i])
    }

    /// Construct a new ZIP file writer with an empty sink.
    pub fn new() -> (r: ZipFileWriter)
        ensures
            r.wf(),
            r.sink@ == Seq::<u8>::empty(),
            r.cd_entries@ == Seq::<CentralDirectoryEntry>::empty(),
            r.written == 0,
    {
        ZipFileWriter { sink: Vec::new(), cd_entries: Vec::new(), written: 0 }
    }

    /// Write a new ZIP entry of known size and data.
    ///
    /// The payload is the raw data for Stored compression and the deflated
    /// bytes for Deflate; the other methods are not in this build.  On any
    /// error the writer is left unchanged.
    pub fn write_entry(&mut self, opts: EntryOptions, raw_data: &[u8]) -> (r: Result<(), ZipError>)
        requires
            old(self).wf(),
            encode_utf8(opts.filename@).len() <= 0xffff,
            opts.extra@.len() <= 0xffff,
            encode_utf8(opts.comment@).len() <= 0xffff,
            raw_data@.len() < 0xffffffff,
        ensures
            match r {
                Ok(()) => {
                    &&& final(self).wf()
                    &&& final(self).cd_entries@.len() == old(self).cd_entries@.len() + 1
                    &&& final(self).cd_entries@.drop_last() == old(self).cd_entries@
                    &&& ({
                        let cde = final(self).cd_entries@.last();
                        let payload = payload_of(opts.compression, raw_data@);
                        &&& cde.opts == opts
                        &&& cde.header == (CentralDirectoryHeader {
                            v_made_by: 0,
                            v_needed: 0,
                            flags: GeneralPurposeFlag { bits: 0 },
                            compression: spec_compression_code(opts.compression),
                            mod_time: cde.header.mod_time,
                            mod_date: cde.header.mod_date,
                            crc: crc32_of(raw_data@),
                            compressed_size: payload.len() as u32,
                            uncompressed_size: raw_data@.len() as u32,
                            file_name_length: encode_utf8(opts.filename@).len() as u16,
                            extra_field_length: opts.extra@.len() as u16,
                            file_comment_length: encode_utf8(opts.comment@).len() as u16,
                            disk_start: 0,
                            inter_attr: 0,
                            exter_attr: 0,
                            lh_offset: old(self).written as u32,
                        })
                        &&& payload.len() < 0xffffffff
                        &&& old(self).written < 0xffffffff
                        &&& (opts.compression matches Compression::Stored || opts.compression
                            matches Compression::Deflate)
                        &&& (opts.compression matches Compression::Deflate ==> inflate_of(payload)
                            == Some(raw_data@))
                        &&& crate::datetime::dos_fields_in_range(
                            ZipDateTime { date: cde.header.mod_date, time: cde.header.mod_time },
                        )
                        &&& final(self).sink@ == old(self).sink@ + local_entry_bytes(cde, payload)
                    })
                },
                Err(e) => {
                    &&& *final(self) == *old(self)
                    &&& match e {
                        ZipError::FeatureNotSupported(_) => !(opts.compression
                            matches Compression::Stored) && !(opts.compression
                            matches Compression::Deflate),
                        ZipError::TargetZip64Unsupported => (opts.compression
                            matches Compression::Stored || opts.compression
                            matches Compression::Deflate) && (old(self).written >= 0xffffffff
                            || payload_of(opts.compression, raw_data@).len() >= 0xffffffff),
                        _ => false,
                    }
                },
            },
    {
        let payload: Vec<u8> = match compress(&opts.compression, raw_data) {
            Ok(p) => p,
            Err(e) => {
                return Err(e);
            },
        };
        if self.written >= 0xffffffff {
            return Err(ZipError::TargetZip64Unsupported);
        }
        let payload_len: usize = payload.len();
        if payload_len >= 0xffffffff {
            return Err(ZipError::TargetZip64Unsupported);
        }
        let crc = compute_crc(raw_data);
        let now = ZipDateTime::now();
        let filename_bytes = opts.filename.as_str().as_bytes();
        let raw_len: usize = raw_data.len();
        let header = CentralDirectoryHeader {
            v_made_by: 0,
            v_needed: 0,
            flags: GeneralPurposeFlag { bits: 0 },
            compression: opts.compression.to_u16(),
            mod_time: now.time,
            mod_date: now.date,
            crc,
            compressed_size: payload_len as u32,
            uncompressed_size: raw_len as u32,
            file_name_length: filename_bytes.len() as u16,
            extra_field_length: opts.extra.len() as u16,
            file_comment_length: opts.comment.as_str().as_bytes().len() as u16,
            disk_start: 0,
            inter_attr: 0,
            exter_attr: 0,
            lh_offset: self.written as u32,
        };
        let lf_header = LocalFileHeader {
            version: 0,
            flags: header.flags,
            compression: header.compression,
            mod_time: header.mod_time,
            mod_date: header.mod_date,
            crc: header.crc,
            compressed_size: header.compressed_size,
            uncompressed_size: header.uncompressed_size,
            file_name_length: header.file_name_length,
            extra_field_length: header.extra_field_length,
        };
        push_signature(&mut self.sink, LFH_SIGNATURE);
        encode_lfh(&lf_header, &mut self.sink);
        self.sink.extend_from_slice(filename_bytes);
        self.sink.extend_from_slice(opts.extra.as_slice());
        self.sink.extend_from_slice(payload.as_slice());
        self.written = self.sink.len();
        let cde = CentralDirectoryEntry { header, opts };
        self.cd_entries.push(cde);
        proof {
            let cde2 = self.cd_entries@.last();
            let pl = payload_of(cde2.opts.compression, raw_data@);
            assert(self.cd_entries@.drop_last() =~= old(self).cd_entries@);
            assert(pl == payload@);
            assert(self.sink@ =~= old(self).sink@ + local_entry_bytes(cde2, pl));
        }
        Ok(())
    }

    /// Write an entry of unknown size via streaming: the local file header
    /// goes out now with the data descriptor flag set, and the handle
    /// returned streams the payload.
    pub fn stream_write_entry(self, opts: EntryOptions) -> (r: Result<EntryStreamWriter, ZipError>)
        requires
            self.wf(),
            encode_utf8(opts.filename@).len() <= 0xffff,
            opts.extra@.len() <= 0xffff,
            encode_utf8(opts.comment@).len() <= 0xffff,
        ensures
            match r {
                Ok(w) => {
                    &&& w.wf()
                    &&& w.opts == opts
                    &&& w.lh_offset == self.written
                    &&& w.buffer@ == Seq::<u8>::empty()
                    &&& w.inner.cd_entries@ == self.cd_entries@
                    &&& w.inner.sink@ == self.sink@ + sig_bytes(LFH_SIGNATURE) + lfh_bytes(
                        stream_lfh(opts, w.mod_time, w.mod_date),
                    ) + encode_utf8(opts.filename@) + opts.extra@
                    &&& crate::datetime::dos_fields_in_range(
                        ZipDateTime { date: w.mod_date, time: w.mod_time },
                    )
                },
                Err(e) => {
                    &&& e matches ZipError::TargetZip64Unsupported
                    &&& self.written >= 0xffffffff
                },
            },
    {
        let mut inner = self;
        if inner.written >= 0xffffffff {
            return Err(ZipError::TargetZip64Unsupported);
        }
        let lh_offset: usize = inner.written;
        let now = ZipDateTime::now();
        let filename_bytes = opts.filename.as_str().as_bytes();
        let lf_header = LocalFileHeader {
            version: 0,
            flags: GeneralPurposeFlag { bits: 8 },
            compression: opts.compression.to_u16(),
            mod_time: now.time,
            mod_date: now.date,
            crc: 0,
            compressed_size: 0,
            uncompressed_size: 0,
            file_name_length: filename_bytes.len() as u16,
            extra_field_length: opts.extra.len() as u16,
        };
        push_signature(&mut inner.sink, LFH_SIGNATURE);
        encode_lfh(&lf_header, &mut inner.sink);
        inner.sink.extend_from_slice(filename_bytes);
        inner.sink.extend_from_slice(opts.extra.as_slice());
        inner.written = inner.sink.len();
        let w = EntryStreamWriter {
            inner,
            opts,
            lh_offset,
            mod_time: now.time,
            mod_date: now.date,
            buffer: Vec::new(),
            hasher: crate::crc::hasher_new(),
        };
        proof {
            assert(lf_header == stream_lfh(w.opts, w.mod_time, w.mod_date));
            assert(w.inner.sink@ =~= self.sink@ + sig_bytes(LFH_SIGNATURE) + lfh_bytes(
                stream_lfh(w.opts, w.mod_time, w.mod_date),
            ) + encode_utf8(w.opts.filename@) + w.opts.extra@);
        }
        Ok(w)
    }

    /// The end-of-central-directory record `close` emits for this writer's
    /// state.
    pub open spec fn spec_close_eocdr(self) -> EndOfCentralDirectoryHeader {
        EndOfCentralDirectoryHeader {
            disk_num: 0,
            start_cent_dir_disk: 0,
            num_of_entries_disk: self.cd_entries@.len() as u16,
            num_of_entries: self.cd_entries@.len() as u16,
            size_cent_dir: cd_dir_bytes(self.cd_entries@).len() as u32,
            cent_dir_offset: self.written as u32,
            file_comm_length: 0,
        }
    }

    /// Close the ZIP file: emit every accumulated central directory header
    /// and the end-of-central-directory record, and hand back the complete
    /// archive bytes.
    ///
    /// Fails with `TargetZip64Unsupported` exactly when the entry count, the
    /// central directory's offset, or its size needs a ZIP64 field.
    #[verifier::rlimit(100)]
    pub fn close(self) -> (r: Result<Vec<u8>, ZipError>)
        requires
            self.wf(),
        ensures
            match r {
                Ok(bytes) => {
                    &&& self.cd_entries@.len() < 0xffff
                    &&& self.written < 0xffffffff
                    &&& cd_dir_bytes(self.cd_entries@).len() < 0xffffffff
                    &&& bytes@ == self.sink@ + cd_dir_bytes(self.cd_entries@) + sig_bytes(
                        EOCDR_SIGNATURE,
                    ) + eocdr_bytes(self.spec_close_eocdr())
                },
                Err(e) => {
                    &&& e matches ZipError::TargetZip64Unsupported
                    &&& (self.cd_entries@.len() >= 0xffff || self.written >= 0xffffffff
                        || cd_dir_bytes(self.cd_entries@).len() >= 0xffffffff)
                },
            },
    {
        let n: usize = self.cd_entries.len();
        if n >= 0xffff {
            return Err(ZipError::TargetZip64Unsupported);
        }
        if self.written >= 0xffffffff {
            return Err(ZipError::TargetZip64Unsupported);
        }
        // First pass: the central directory's total size, for the record and
        // the ZIP64 check.
        let mut cd_size: u64 = 0;
        let mut i: usize = 0;
        while i < n
            invariant
                i <= n,
                n == self.cd_entries@.len(),
                n < 0xffff,
                self.wf(),
                cd_size == cd_dir_bytes(self.cd_entries@.take(i as int)).len(),
                cd_size <= i * 196651,
            decreases n - i,
        {
            let c = &self.cd_entries[i];
            let fn_len: usize = c.opts.filename.as_str().as_bytes().len();
            let extra_len: usize = c.opts.extra.len();
            let comm_len: usize = c.opts.comment.as_str().as_bytes().len();
            proof {
                assert(cde_wf(self.cd_entries@[i as int]));
                assert(fn_len <= 0xffff && extra_len <= 0xffff && comm_len <= 0xffff);
                lemma_cd_dir_bytes_push(
                    self.cd_entries@.take(i as int),
                    self.cd_entries@[i as int],
                );
                assert(self.cd_entries@.take(i + 1) =~= self.cd_entries@.take(i as int).push(
                    self.cd_entries@[i as int],
                ));
                crate::header::lemma_le16_roundtrip();
                crate::header::lemma_le32_roundtrip();
                assert(cd_row_bytes(self.cd_entries@[i as int]).len() == 46 + fn_len + extra_len
                    + comm_len);
            }
            cd_size = cd_size + 46 + fn_len as u64 + extra_len as u64 + comm_len as u64;
            i = i + 1;
        }
        proof {
            assert(self.cd_entries@.take(n as int) =~= self.cd_entries@);
        }
        if cd_size >= 0xffffffff {
            return Err(ZipError::TargetZip64Unsupported);
        }
        // Second pass: emit the rows, then the record.
        let cd_offset: usize = self.written;
        let ghost sink0 = self.sink@;
        let mut out = self.sink;
        let mut j: usize = 0;
        while j < n
            invariant
                j <= n,
                n == self.cd_entries@.len(),
                forall|k: int|
                    0 <= k < self.cd_entries@.len() ==> cde_wf(#[trigger] self.cd_entries@[k]),
                out@ == sink0 + cd_dir_bytes(self.cd_entries@.take(j as int)),
            decreases n - j,
        {
            let c = &self.cd_entries[j];
            push_signature(&mut out, CDH_SIGNATURE);
            encode_cdh(&c.header, &mut out);
            out.extend_from_slice(c.opts.filename.as_str().as_bytes());
            out.extend_from_slice(c.opts.extra.as_slice());
            out.extend_from_slice(c.opts.comment.as_str().as_bytes());
            proof {
                lemma_cd_dir_bytes_push(
                    self.cd_entries@.take(j as int),
                    self.cd_entries@[j as int],
                );
                assert(self.cd_entries@.take(j + 1) =~= self.cd_entries@.take(j as int).push(
                    self.cd_entries@[j as int],
                ));
                assert(out@ =~= sink0 + cd_dir_bytes(self.cd_entries@.take(j + 1)));
            }
            j = j + 1;
        }
        let header = EndOfCentralDirectoryHeader {
            disk_num: 0,
            start_cent_dir_disk: 0,
            num_of_entries_disk: n as u16,
            num_of_entries: n as u16,
            size_cent_dir: cd_size as u32,
            cent_dir_offset: cd_offset as u32,
            file_comm_length: 0,
        };
        push_signature(&mut out, EOCDR_SIGNATURE);
        encode_eocdr(&header, &mut out);
        proof {
            assert(self.cd_entries@.take(n as int) =~= self.cd_entries@);
            assert(header == self.spec_close_eocdr());
            assert(out@ =~= self.sink@ + cd_dir_bytes(self.cd_entries@) + sig_bytes(
                EOCDR_SIGNATURE,
            ) + eocdr_bytes(self.spec_close_eocdr()));
        }
        Ok(out)
    }
}

/// The local file header emitted ahead of a streamed entry: sizes and CRC
/// zero, with the data descriptor flag set.
pub open spec fn stream_lfh(opts: EntryOptions, mod_time: u16, mod_date: u16) -> LocalFileHeader {
    LocalFileHeader {
        version: 0,
        flags: GeneralPurposeFlag { bits: 8 },
        compression: spec_compression_code(opts.compression),
        mod_time,
        mod_date,
        crc: 0,
        compressed_size: 0,
        uncompressed_size: 0,
        file_name_length: encode_utf8(opts.filename@).len() as u16,
        extra_field_length: opts.extra@.len() as u16,
    }
}

/// The data descriptor trailing a streamed entry's payload.
pub open spec fn data_descriptor_bytes(crc: u32, compressed: u32, uncompressed: u32) -> Seq<u8> {
    sig_bytes(crate::header::DATA_DESCRIPTOR_SIGNATURE) + crate::header::le32_bytes(crc)
        + crate::header::le32_bytes(compressed) + crate::header::le32_bytes(uncompressed)
}

/// A handle that streams one entry's bytes into the writer's sink; its
/// local file header went out when the handle was opened, and the sizes and
/// CRC follow the payload in a data descriptor on close.
pub struct EntryStreamWriter {
    pub inner: ZipFileWriter,
    pub opts: EntryOptions,
    pub lh_offset: usize,
    pub mod_time: u16,
    pub mod_date: u16,
    pub buffer: Vec<u8>,
    pub hasher: crc32fast::Hasher,
}

impl EntryStreamWriter {
    /// The writer stays consistent, the hasher has seen exactly the
    /// buffered bytes, and the recorded offset and lengths stay in range.
    pub open spec fn wf(self) -> bool {
        &&& self.inner.wf()
        &&& crate::crc::hasher_fed(self.hasher) == self.buffer@
        &&& self.lh_offset < 0xffffffff
        &&& encode_utf8(self.opts.filename@).len() <= 0xffff
        &&& self.opts.extra@.len() <= 0xffff
        &&& encode_utf8(self.opts.comment@).len() <= 0xffff
        &&& crate::datetime::dos_fields_in_range(
            ZipDateTime { date: self.mod_date, time: self.mod_time },
        )
    }

    /// Appends raw bytes to the entry, feeding them through the running
    /// CRC-32 hasher.
    pub fn write_all(&mut self, data: &[u8]) -> (r: Result<(), ZipError>)
        requires
            old(self).wf(),
        ensures
            final(self).wf(),
            r is Ok,
            final(self).buffer@ == old(self).buffer@ + data@,
            final(self).inner == old(self).inner,
            final(self).opts == old(self).opts,
            final(self).lh_offset == old(self).lh_offset,
            final(self).mod_time == old(self).mod_time,
            final(self).mod_date == old(self).mod_date,
    {
        self.buffer.extend_from_slice(data);
        crate::crc::hasher_update(&mut self.hasher, data);
        proof {
            assert(crate::crc::hasher_fed(self.hasher) == old(self).buffer@ + data@);
            assert(self.buffer@ == old(self).buffer@ + data@);
        }
        Ok(())
    }

    /// Closes the streamed entry: compresses the buffered bytes, emits the
    /// payload and its data descriptor, appends the entry to the central
    /// directory, and hands the writer back.
    pub fn close(self) -> (r: Result<ZipFileWriter, ZipError>)
        requires
            self.wf(),
        ensures
            match r {
                Ok(w) => {
                    &&& w.wf()
                    &&& self.buffer@.len() < 0xffffffff
                    &&& ({
                        let payload = payload_of(self.opts.compression, self.buffer@);
                        &&& payload.len() < 0xffffffff
                        &&& w.cd_entries@.len() == self.inner.cd_entries@.len() + 1
                        &&& w.cd_entries@.drop_last() == self.inner.cd_entries@
                        &&& ({
                            let cde = w.cd_entries@.last();
                            &&& cde.opts == self.opts
                            &&& cde.header == (CentralDirectoryHeader {
                                v_made_by: 0,
                                v_needed: 0,
                                flags: GeneralPurposeFlag { bits: 8 },
                                compression: spec_compression_code(self.opts.compression),
                                mod_time: self.mod_time,
                                mod_date: self.mod_date,
                                crc: crc32_of(self.buffer@),
                                compressed_size: payload.len() as u32,
                                uncompressed_size: self.buffer@.len() as u32,
                                file_name_length: encode_utf8(self.opts.filename@).len() as u16,
                                extra_field_length: self.opts.extra@.len() as u16,
                                file_comment_length: encode_utf8(self.opts.comment@).len() as u16,
                                disk_start: 0,
                                inter_attr: 0,
                                exter_attr: 0,
                                lh_offset: self.lh_offset as u32,
                            })
                            &&& w.sink@ == self.inner.sink@ + payload + data_descriptor_bytes(
                                crc32_of(self.buffer@),
                                payload.len() as u32,
                                self.buffer@.len() as u32,
                            )
                            &&& (self.opts.compression matches Compression::Stored
                                || self.opts.compression matches Compression::Deflate)
                            &&& (self.opts.compression matches Compression::Deflate ==> inflate_of(
                                payload,
                            ) == Some(self.buffer@))
                            &&& crate::datetime::dos_fields_in_range(
                                ZipDateTime { date: cde.header.mod_date, time: cde.header.mod_time },
                            )
                        })
                    })
                },
                Err(e) => match e {
                    ZipError::FeatureNotSupported(_) => !(self.opts.compression
                        matches Compression::Stored) && !(self.opts.compression
                        matches Compression::Deflate),
                    ZipError::TargetZip64Unsupported => (self.opts.compression
                        matches Compression::Stored || self.opts.compression
                        matches Compression::Deflate) && (self.buffer@.len() >= 0xffffffff
                        || payload_of(self.opts.compression, self.buffer@).len() >= 0xffffffff),
                    _ => false,
                },
            },
    {
        let EntryStreamWriter { mut inner, opts, lh_offset, mod_time, mod_date, buffer, hasher } =
            self;
        let payload: Vec<u8> = match compress(&opts.compression, buffer.as_slice()) {
            Ok(p) => p,
            Err(e) => {
                return Err(e);
            },
        };
        let buffer_len: usize = buffer.len();
        if buffer_len >= 0xffffffff {
            return Err(ZipError::TargetZip64Unsupported);
        }
        let payload_len: usize = payload.len();
        if payload_len >= 0xffffffff {
            return Err(ZipError::TargetZip64Unsupported);
        }
        let crc = crate::crc::hasher_finalize(hasher);
        let header = CentralDirectoryHeader {
            v_made_by: 0,
            v_needed: 0,
            flags: GeneralPurposeFlag { bits: 8 },
            compression: opts.compression.to_u16(),
            mod_time,
            mod_date,
            crc,
            compressed_size: payload_len as u32,
            uncompressed_size: buffer_len as u32,
            file_name_length: opts.filename.as_str().as_bytes().len() as u16,
            extra_field_length: opts.extra.len() as u16,
            file_comment_length: opts.comment.as_str().as_bytes().len() as u16,
            disk_start: 0,
            inter_attr: 0,
            exter_attr: 0,
            lh_offset: lh_offset as u32,
        };
        inner.sink.extend_from_slice(payload.as_slice());
        push_signature(&mut inner.sink, crate::header::DATA_DESCRIPTOR_SIGNATURE);
        crate::header::push_u32(&mut inner.sink, crc);
        crate::header::push_u32(&mut inner.sink, payload_len as u32);
        crate::header::push_u32(&mut inner.sink, buffer_len as u32);
        inner.written = inner.sink.len();
        let cde = CentralDirectoryEntry { header, opts };
        inner.cd_entries.push(cde);
        proof {
            assert(inner.cd_entries@.drop_last() =~= self.inner.cd_entries@);
            assert(inner.sink@ =~= self.inner.sink@ + payload_of(
                self.opts.compression,
                self.buffer@,
            ) + data_descriptor_bytes(
                crc32_of(self.buffer@),
                payload_len as u32,
                buffer_len as u32,
            ));
        }
        Ok(inner)
    }
}

/// Compresses raw bytes under the given method: Stored keeps them, Deflate
/// calls the codec, and the rest are not in this build.  A supported method
/// always succeeds.
pub fn compress(compression: &Compression, data: &[u8]) -> (r: Result<Vec<u8>, ZipError>)
    ensures
        r is Ok <==> (compression matches Compression::Stored || compression
            matches Compression::Deflate),
        r matches Ok(v) ==> v@ == payload_of(*compression, data@) && (compression
            matches Compression::Deflate ==> inflate_of(v@) == Some(data@)),
        r matches Err(e) ==> e matches ZipError::FeatureNotSupported(_),
{
    match compression {
        Compression::Stored => Ok(vstd::slice::slice_to_vec(data)),
        Compression::Deflate => deflate(data),
        Compression::Bz => Err(ZipError::FeatureNotSupported("bzip2")),
        Compression::Lzma => Err(ZipError::FeatureNotSupported("lzma")),
        Compression::Zstd => Err(ZipError::FeatureNotSupported("zstd")),
        Compression::Xz => Err(ZipError::FeatureNotSupported("xz")),
    }
}

} // verus!
