//! Parsing a whole archive from bytes: the end-of-central-directory record,
//! the trailing comment, and the central directory's records.

use vstd::prelude::*;

use vstd::slice::{slice_subrange, slice_to_vec};
use vstd::utf8::{decode_utf8, valid_utf8};

use crate::codec::{bytes_to_string, eof_error};
use crate::compression::{
    is_compression_code, spec_compression_of_code, AttributeCompatibility, Compression,
};
use crate::datetime::ZipDateTime;
use crate::entry::{ZipEntry, ZipEntryMeta};
use crate::error::ZipError;
use crate::file::ZipFile;
use crate::header::{
    le32_bytes, parse_cdh, parse_eocdr, sig_at, spec_cdh_at, spec_eocdr_at, CentralDirectoryHeader,
    EndOfCentralDirectoryHeader, CDH_SIGNATURE,
};
use crate::locator::{in_window, locate_eocdr, occurs_at};

verus! {

/// A ghost view of one central directory row: its fixed header and its
/// three variable-length tails, as raw bytes.
pub struct CdRecord {
    pub header: CentralDirectoryHeader,
    pub filename: Seq<u8>,
    pub extra: Seq<u8>,
    pub comment: Seq<u8>,
}

/// Structural parse of one central directory row at `pos`: the signature,
/// the 42-byte fixed body, and the three tails it sizes.  Yields the row and
/// the offset just past it.
pub open spec fn spec_cd_record(data: Seq<u8>, pos: int) -> Option<(CdRecord, int)> {
    if pos + 46 <= data.len() && sig_at(data, pos, CDH_SIGNATURE) {
        let h = spec_cdh_at(data, pos + 4);
        let fstart = pos + 46;
        let estart = fstart + h.file_name_length;
        let cstart = estart + h.extra_field_length;
        let end = cstart + h.file_comment_length;
        if end <= data.len() {
            Some(
                (
                    CdRecord {
                        header: h,
                        filename: data.subrange(fstart, estart),
                        extra: data.subrange(estart, cstart),
                        comment: data.subrange(cstart, end),
                    },
                    end,
                ),
            )
        } else {
            None
        }
    } else {
        None
    }
}

/// Whether a structurally sound row also parses cleanly: a known compression
/// code, no ZIP64 size sentinel, and UTF-8 filename and comment.
pub open spec fn record_clean(rec: CdRecord) -> bool {
    &&& is_compression_code(rec.header.compression)
    &&& rec.header.compressed_size != 0xffffffff
    &&& rec.header.uncompressed_size != 0xffffffff
    &&& valid_utf8(rec.filename)
    &&& valid_utf8(rec.comment)
}

/// How a parsed [`ZipEntry`] reflects its row.
pub open spec fn entry_matches_record(entry: ZipEntry, rec: CdRecord) -> bool {
    &&& entry.filename@ == decode_utf8(rec.filename)
    &&& entry.compression == spec_compression_of_code(rec.header.compression)
    &&& entry.attribute_compatibility == AttributeCompatibility::Unix
    &&& entry.crc32 == rec.header.crc
    &&& entry.uncompressed_size == rec.header.uncompressed_size
    &&& entry.compressed_size == rec.header.compressed_size
    &&& entry.last_modification_date == (ZipDateTime {
        date: rec.header.mod_date,
        time: rec.header.mod_time,
    })
    &&& entry.internal_file_attribute == rec.header.inter_attr
    &&& entry.external_file_attribute == rec.header.exter_attr
    &&& entry.extra_field@ == rec.extra
    &&& entry.comment@ == decode_utf8(rec.comment)
}

/// How a parsed [`ZipEntryMeta`] reflects its row.
pub open spec fn meta_matches_record(meta: ZipEntryMeta, rec: CdRecord) -> bool {
    &&& meta.general_purpose_flag == rec.header.flags
    &&& meta.file_offset == Some(rec.header.lh_offset)
}

/// Exactly when one record parse fails with error `e` at `pos`: each kind
/// is tied to its cause, and no other kind can come.
pub open spec fn cd_record_err(data: Seq<u8>, pos: int, e: ZipError) -> bool {
    match e {
        ZipError::NumOfEntriesMismatch => pos + 4 > data.len() || (sig_at(
            data,
            pos,
            CDH_SIGNATURE,
        ) && spec_cd_record(data, pos) is None),
        ZipError::UnexpectedHeaderError(actual, expected) => {
            &&& pos + 4 <= data.len()
            &&& !sig_at(data, pos, CDH_SIGNATURE)
            &&& le32_bytes(actual) == data.subrange(pos, pos + 4)
            &&& expected == CDH_SIGNATURE
        },
        ZipError::UnsupportedCompressionError(c) => {
            &&& spec_cd_record(data, pos) matches Some((rec, _)) && c == rec.header.compression
                && !is_compression_code(c)
        },
        ZipError::TargetZip64Unsupported => {
            &&& spec_cd_record(data, pos) matches Some((rec, _)) && is_compression_code(
                rec.header.compression,
            ) && (rec.header.compressed_size == 0xffffffff || rec.header.uncompressed_size
                == 0xffffffff)
        },
        ZipError::UpstreamReadError(_) => {
            &&& spec_cd_record(data, pos) matches Some((rec, _)) && is_compression_code(
                rec.header.compression,
            ) && rec.header.compressed_size != 0xffffffff && rec.header.uncompressed_size
                != 0xffffffff && (!valid_utf8(rec.filename) || !valid_utf8(rec.comment))
        },
        _ => false,
    }
}

/// Parses one central directory record at `pos`.
///
/// The attribute compatibility defaults to Unix: the host byte of
/// `version_made_by` is carried through but not interpreted.
pub fn cd_record(data: &[u8], pos: usize) -> (r: Result<(ZipEntry, ZipEntryMeta, usize), ZipError>)
    requires
        pos <= data@.len(),
    ensures
        match r {
            Ok((entry, meta, end)) => {
                &&& spec_cd_record(data@, pos as int) matches Some((rec, e2)) && end == e2
                    && record_clean(rec) && entry_matches_record(entry, rec)
                    && meta_matches_record(meta, rec)
                &&& end <= data@.len()
                &&& pos < end
            },
            Err(e) => cd_record_err(data@, pos as int, e),
        },
{
    let data_len: usize = data.len();
    if data_len - pos < 4 {
        return Err(ZipError::NumOfEntriesMismatch);
    }
    if let Err(e) = crate::header::check_signature(data, pos, CDH_SIGNATURE) {
        return Err(e);
    }
    if data_len - pos < 46 {
        proof {
            assert(spec_cd_record(data@, pos as int) is None);
        }
        return Err(ZipError::NumOfEntriesMismatch);
    }
    let header = parse_cdh(data, pos + 4);
    let fn_len: usize = header.file_name_length as usize;
    let extra_len: usize = header.extra_field_length as usize;
    let comm_len: usize = header.file_comment_length as usize;
    if data_len - pos - 46 < fn_len || data_len - pos - 46 - fn_len < extra_len || data_len - pos
        - 46 - fn_len - extra_len < comm_len {
        proof {
            assert(spec_cd_record(data@, pos as int) is None);
        }
        return Err(ZipError::NumOfEntriesMismatch);
    }
    let fstart: usize = pos + 46;
    let estart: usize = fstart + fn_len;
    let cstart: usize = estart + extra_len;
    let end: usize = cstart + comm_len;
    let compression = match Compression::from_u16(header.compression) {
        Ok(c) => c,
        Err(e) => {
            return Err(e);
        },
    };
    if header.compressed_size == 0xffffffff || header.uncompressed_size == 0xffffffff {
        return Err(ZipError::TargetZip64Unsupported);
    }
    let filename_bytes = slice_to_vec(slice_subrange(data, fstart, estart));
    let filename = match bytes_to_string(filename_bytes) {
        Ok(s) => s,
        Err(e) => {
            return Err(e);
        },
    };
    let extra_field = slice_to_vec(slice_subrange(data, estart, cstart));
    let comment_bytes = slice_to_vec(slice_subrange(data, cstart, end));
    let comment = match bytes_to_string(comment_bytes) {
        Ok(s) => s,
        Err(e) => {
            return Err(e);
        },
    };
    let entry = ZipEntry {
        filename,
        compression,
        attribute_compatibility: AttributeCompatibility::Unix,
        crc32: header.crc,
        uncompressed_size: header.uncompressed_size,
        compressed_size: header.compressed_size,
        last_modification_date: ZipDateTime { date: header.mod_date, time: header.mod_time },
        internal_file_attribute: header.inter_attr,
        external_file_attribute: header.exter_attr,
        extra_field,
        comment,
    };
    let meta = ZipEntryMeta {
        general_purpose_flag: header.flags,
        file_offset: Some(header.lh_offset),
    };
    Ok((entry, meta, end))
}

/// Structural parse of `n` consecutive central directory rows from `pos`.
pub open spec fn spec_cd(data: Seq<u8>, pos: int, n: nat) -> Option<(Seq<CdRecord>, int)>
    decreases n,
{
    if n == 0 {
        Some((Seq::<CdRecord>::empty(), pos))
    } else {
        match spec_cd_record(data, pos) {
            Some((rec, next)) => match spec_cd(data, next, (n - 1) as nat) {
                Some((recs, end)) => Some((seq![rec] + recs, end)),
                None => None,
            },
            None => None,
        }
    }
}

/// Whether `n` rows parse structurally and each of them cleanly.
pub open spec fn cd_ok(data: Seq<u8>, pos: int, n: nat) -> bool {
    match spec_cd(data, pos, n) {
        Some((recs, _)) => forall|i: int| 0 <= i < recs.len() ==> record_clean(#[trigger] recs[i]),
        None => false,
    }
}

/// Parsing `i + j` rows is parsing `i`, then `j` more from where they ended.
pub proof fn lemma_spec_cd_split(data: Seq<u8>, pos: int, i: nat, j: nat)
    ensures
        spec_cd(data, pos, i + j) == (match spec_cd(data, pos, i) {
            Some((r1, mid)) => match spec_cd(data, mid, j) {
                Some((r2, end)) => Some((r1 + r2, end)),
                None => None::<(Seq<CdRecord>, int)>,
            },
            None => None::<(Seq<CdRecord>, int)>,
        }),
    decreases i,
{
    if i == 0 {
        match spec_cd(data, pos, j) {
            Some((r2, end)) => {
                assert(Seq::<CdRecord>::empty() + r2 =~= r2);
            },
            None => {},
        }
    } else {
        match spec_cd_record(data, pos) {
            Some((rec, next)) => {
                lemma_spec_cd_split(data, next, (i - 1) as nat, j);
                assert(spec_cd(data, pos, i + j) == (match spec_cd_record(data, pos) {
                    Some((rec2, next2)) => match spec_cd(data, next2, (i + j - 1) as nat) {
                        Some((recs, end)) => Some((seq![rec2] + recs, end)),
                        None => None::<(Seq<CdRecord>, int)>,
                    },
                    None => None::<(Seq<CdRecord>, int)>,
                }));
                match spec_cd(data, next, (i - 1) as nat) {
                    Some((r1, mid)) => {
                        match spec_cd(data, mid, j) {
                            Some((r2, end)) => {
                                assert(seq![rec] + (r1 + r2) =~= (seq![rec] + r1) + r2);
                            },
                            None => {},
                        }
                    },
                    None => {},
                }
            },
            None => {},
        }
    }
}

/// Some prefix of `i` records parses and the next record fails with `e`.
pub open spec fn cd_prefix_err(data: Seq<u8>, pos: int, i: nat, e: ZipError) -> bool {
    spec_cd(data, pos, i) matches Some((pre, cur)) && cd_record_err(data, cur, e)
}

/// Parses `num_of_entries` central directory records from `pos`, yielding
/// the entries and their metadata in file order.
pub fn cd(data: &[u8], pos: usize, num_of_entries: u16) -> (r: Result<
    (Vec<ZipEntry>, Vec<ZipEntryMeta>, usize),
    ZipError,
>)
    requires
        pos <= data@.len(),
    ensures
        match r {
            Ok((entries, metas, end)) => {
                &&& cd_ok(data@, pos as int, num_of_entries as nat)
                &&& spec_cd(data@, pos as int, num_of_entries as nat) matches Some((recs, e2)) && {
                    &&& end == e2
                    &&& end <= data@.len()
                    &&& entries@.len() == num_of_entries
                    &&& metas@.len() == num_of_entries
                    &&& recs.len() == num_of_entries
                    &&& forall|i: int|
                        0 <= i < num_of_entries ==> entry_matches_record(
                            #[trigger] entries@[i],
                            recs[i],
                        ) && meta_matches_record(metas@[i], recs[i])
                }
            },
            Err(e) => {
                &&& !cd_ok(data@, pos as int, num_of_entries as nat)
                &&& exists|i: nat|
                    i < num_of_entries && #[trigger] cd_prefix_err(data@, pos as int, i, e)
            },
        },
{
    let n: usize = num_of_entries as usize;
    let mut entries: Vec<ZipEntry> = Vec::new();
    let mut metas: Vec<ZipEntryMeta> = Vec::new();
    let mut cur: usize = pos;
    let mut i: usize = 0;
    let ghost mut recs_so_far: Seq<CdRecord> = Seq::<CdRecord>::empty();
    while i < n
        invariant
            i <= n,
            n == num_of_entries as int,
            pos <= data@.len(),
            cur <= data@.len(),
            entries@.len() == i,
            metas@.len() == i,
            recs_so_far.len() == i,
            spec_cd(data@, pos as int, i as nat) == Some((recs_so_far, cur as int)),
            forall|k: int|
                0 <= k < i ==> entry_matches_record(#[trigger] entries@[k], recs_so_far[k])
                    && meta_matches_record(metas@[k], recs_so_far[k]) && record_clean(
                    recs_so_far[k],
                ),
        decreases n - i,
    {
        match cd_record(data, cur) {
            Ok((entry, meta, next)) => {
                let ghost prev_recs = recs_so_far;
                let ghost prev_entries = entries@;
                let ghost prev_metas = metas@;
                proof {
                    let (rec, _) = spec_cd_record(data@, cur as int).unwrap();
                    lemma_spec_cd_split(data@, pos as int, i as nat, 1nat);
                    assert(spec_cd(data@, next as int, 0nat) == Some(
                        (Seq::<CdRecord>::empty(), next as int),
                    ));
                    assert(spec_cd(data@, cur as int, 1nat) == Some((seq![rec], next as int)));
                    assert(spec_cd(data@, pos as int, (i + 1) as nat) == Some(
                        (recs_so_far + seq![rec], next as int),
                    ));
                    recs_so_far = recs_so_far + seq![rec];
                }
                entries.push(entry);
                metas.push(meta);
                cur = next;
                i = i + 1;
                proof {
                    assert forall|k: int|
                        0 <= k < i implies entry_matches_record(
                        #[trigger] entries@[k],
                        recs_so_far[k],
                    ) && meta_matches_record(metas@[k], recs_so_far[k]) && record_clean(
                        recs_so_far[k],
                    ) by {
                        if k < i - 1 {
                            assert(entries@[k] == prev_entries[k]);
                            assert(metas@[k] == prev_metas[k]);
                            assert(recs_so_far[k] == prev_recs[k]);
                            assert(entry_matches_record(prev_entries[k], prev_recs[k]));
                        } else {
                            assert(entries@[k] == entry);
                            assert(metas@[k] == meta);
                        }
                    }
                }
            },
            Err(e) => {
                proof {
                    assert(cd_prefix_err(data@, pos as int, i as nat, e));
                    lemma_spec_cd_split(data@, pos as int, i as nat, (n - i) as nat);
                    match spec_cd_record(data@, cur as int) {
                        Some((rec, next)) => {
                            // the record failed a cleanliness check
                            lemma_spec_cd_split(data@, cur as int, 1nat, (n - i - 1) as nat);
                            assert(spec_cd(data@, next as int, 0nat) == Some(
                                (Seq::<CdRecord>::empty(), next as int),
                            ));
                            assert(spec_cd(data@, cur as int, 1nat) == Some(
                                (seq![rec], next as int),
                            ));
                            if cd_ok(data@, pos as int, n as nat) {
                                let (recs, _) = spec_cd(data@, pos as int, n as nat).unwrap();
                                let (rtail, _) = spec_cd(data@, cur as int, (n - i) as nat).unwrap();
                                assert(recs == recs_so_far + rtail);
                                assert(rtail[0] == rec);
                                assert(recs[i as int] == rec);
                                assert(record_clean(rec));
                            }
                        },
                        None => {
                            assert(spec_cd(data@, cur as int, (n - i) as nat) is None);
                        },
                    }
                }
                return Err(e);
            },
        }
    }
    proof {
        assert(spec_cd(data@, pos as int, num_of_entries as nat) == Some(
            (recs_so_far, cur as int),
        ));
        assert forall|k: int| 0 <= k < recs_so_far.len() implies record_clean(
            #[trigger] recs_so_far[k],
        ) by {
            assert(entry_matches_record(entries@[k], recs_so_far[k]));
        }
    }
    Ok((entries, metas, cur))
}

/// `off` is the rightmost legal EOCDR signature offset in the data.
pub open spec fn rightmost_occurrence(data: Seq<u8>, off: int) -> bool {
    &&& occurs_at(data, off)
    &&& in_window(data.len() as int, off)
    &&& forall|p: int| off < p && in_window(data.len() as int, p) ==> !occurs_at(data, p)
}

/// The data can be at most one rightmost occurrence.
pub proof fn lemma_rightmost_unique(data: Seq<u8>, a: int, b: int)
    requires
        rightmost_occurrence(data, a),
        rightmost_occurrence(data, b),
    ensures
        a == b,
{
    if a < b {
        assert(!occurs_at(data, b));
    }
    if b < a {
        assert(!occurs_at(data, a));
    }
}

/// An EOCDR record that carries a ZIP64 sentinel in a count or a size.
pub open spec fn eocdr_zip64(h: EndOfCentralDirectoryHeader) -> bool {
    h.num_of_entries == 0xffff || h.size_cent_dir == 0xffffffff || h.cent_dir_offset == 0xffffffff
}

/// The EOCDR at `off` reads cleanly on its own: no ZIP64 sentinel, and its
/// comment present and UTF-8.
pub open spec fn tail_record_ok(data: Seq<u8>, off: int) -> bool {
    let h = spec_eocdr_at(data, off + 4);
    &&& !eocdr_zip64(h)
    &&& off + 22 + h.file_comm_length <= data.len()
    &&& valid_utf8(data.subrange(off + 22, off + 22 + h.file_comm_length))
}

/// Whether the archive parses from the EOCDR at `off`: the record reads
/// cleanly, and the central directory parses cleanly at its recorded
/// offset.
pub open spec fn file_structure_ok(data: Seq<u8>, off: int) -> bool {
    let h = spec_eocdr_at(data, off + 4);
    &&& tail_record_ok(data, off)
    &&& h.cent_dir_offset <= data.len()
    &&& cd_ok(data, h.cent_dir_offset as int, h.num_of_entries as nat)
}

/// Some prefix of the central directory at its recorded offset parses and
/// the next record fails with `e`.
pub open spec fn cd_failure_err(data: Seq<u8>, off: int, e: ZipError) -> bool {
    let h = spec_eocdr_at(data, off + 4);
    exists|i: nat|
        i < h.num_of_entries && #[trigger] cd_prefix_err(data, h.cent_dir_offset as int, i, e)
}

/// Exactly which error kind the archive parse reports for the EOCDR at
/// `off`, tied to its cause: a ZIP64 sentinel, a comment that overruns the
/// data or is not UTF-8, a central directory offset past the end, or the
/// first failing central directory record.
pub open spec fn file_err_at(data: Seq<u8>, off: int, e: ZipError) -> bool {
    let h = spec_eocdr_at(data, off + 4);
    match e {
        ZipError::TargetZip64Unsupported => eocdr_zip64(h) || (tail_record_ok(data, off)
            && h.cent_dir_offset <= data.len() && cd_failure_err(data, off, e)),
        ZipError::UpstreamReadError(_) => !eocdr_zip64(h) && (off + 22 + h.file_comm_length
            > data.len() || !valid_utf8(data.subrange(off + 22, off + 22 + h.file_comm_length)) || (
        tail_record_ok(data, off) && (h.cent_dir_offset > data.len() || cd_failure_err(
            data,
            off,
            e,
        )))),
        ZipError::NumOfEntriesMismatch => tail_record_ok(data, off) && h.cent_dir_offset
            <= data.len() && cd_failure_err(data, off, e),
        ZipError::UnexpectedHeaderError(_, _) => tail_record_ok(data, off) && h.cent_dir_offset
            <= data.len() && cd_failure_err(data, off, e),
        ZipError::UnsupportedCompressionError(_) => tail_record_ok(data, off) && h.cent_dir_offset
            <= data.len() && cd_failure_err(data, off, e),
        _ => false,
    }
}

/// How a parsed [`ZipFile`] reflects the archive bytes, seen from the EOCDR
/// at `off`.
pub open spec fn file_matches(data: Seq<u8>, off: int, zf: ZipFile) -> bool {
    let h = spec_eocdr_at(data, off + 4);
    &&& zf.comment@ == decode_utf8(data.subrange(off + 22, off + 22 + h.file_comm_length))
    &&& spec_cd(data, h.cent_dir_offset as int, h.num_of_entries as nat) matches Some((recs, _))
        && {
        &&& zf.entries@.len() == h.num_of_entries
        &&& zf.metas@.len() == h.num_of_entries
        &&& recs.len() == h.num_of_entries
        &&& forall|i: int|
            0 <= i < recs.len() ==> entry_matches_record(#[trigger] zf.entries@[i], recs[i])
                && meta_matches_record(zf.metas@[i], recs[i])
    }
}

/// Introduction rule for [`file_matches`]: the pieces, spelled out.
proof fn lemma_file_matches_intro(
    data: Seq<u8>,
    off: int,
    zf: ZipFile,
    recs: Seq<CdRecord>,
    end: int,
)
    requires
        ({
            let h = spec_eocdr_at(data, off + 4);
            &&& zf.comment@ == decode_utf8(data.subrange(off + 22, off + 22 + h.file_comm_length))
            &&& spec_cd(data, h.cent_dir_offset as int, h.num_of_entries as nat) == Some(
                (recs, end),
            )
            &&& zf.entries@.len() == h.num_of_entries
            &&& zf.metas@.len() == h.num_of_entries
            &&& recs.len() == h.num_of_entries
            &&& forall|i: int|
                0 <= i < recs.len() ==> entry_matches_record(#[trigger] zf.entries@[i], recs[i])
                    && meta_matches_record(zf.metas@[i], recs[i])
        }),
    ensures
        file_matches(data, off, zf),
{
}

/// Parses a whole archive: locates the EOCDR, reads its record and trailing
/// comment, and parses the central directory it points at.
#[verifier::rlimit(100)]
#[verifier::spinoff_prover]
pub fn file(data: &[u8]) -> (r: Result<ZipFile, ZipError>)
    ensures
        match r {
            Ok(zf) => {
                &&& zf.entries@.len() == zf.metas@.len()
                &&& exists|off: int|
                    rightmost_occurrence(data@, off) && #[trigger] file_structure_ok(data@, off)
                        && file_matches(data@, off, zf)
            },
            Err(e) => {
                &&& forall|off: int|
                    !(rightmost_occurrence(data@, off) && #[trigger] file_structure_ok(data@, off))
                &&& ((e matches ZipError::UnableToLocateEOCDR) <==> (forall|p: int|
                    in_window(data@.len() as int, p) ==> !occurs_at(data@, p)))
                &&& (!(e matches ZipError::UnableToLocateEOCDR) ==> exists|off: int|
                    #[trigger] rightmost_occurrence(data@, off) && file_err_at(data@, off, e))
            },
        },
{
    let data_len: usize = data.len();
    let off = match locate_eocdr(data) {
        Ok(o) => o,
        Err(e) => {
            return Err(e);
        },
    };
    let h = parse_eocdr(data, off + 4);
    if h.num_of_entries == 0xffff || h.size_cent_dir == 0xffffffff || h.cent_dir_offset
        == 0xffffffff {
        proof {
            assert forall|o: int|
                !(rightmost_occurrence(data@, o) && #[trigger] file_structure_ok(data@, o)) by {
                if rightmost_occurrence(data@, o) {
                    lemma_rightmost_unique(data@, o, off as int);
                }
            }
            assert(rightmost_occurrence(data@, off as int) && file_err_at(
                data@,
                off as int,
                ZipError::TargetZip64Unsupported,
            ));
        }
        return Err(ZipError::TargetZip64Unsupported);
    }
    let comm_len: usize = h.file_comm_length as usize;
    if data_len - (off + 22) < comm_len {
        let e = eof_error();
        proof {
            assert forall|o: int|
                !(rightmost_occurrence(data@, o) && #[trigger] file_structure_ok(data@, o)) by {
                if rightmost_occurrence(data@, o) {
                    lemma_rightmost_unique(data@, o, off as int);
                }
            }
            assert(rightmost_occurrence(data@, off as int) && file_err_at(data@, off as int, e));
        }
        return Err(e);
    }
    let comment_bytes = slice_to_vec(slice_subrange(data, off + 22, off + 22 + comm_len));
    let comment = match bytes_to_string(comment_bytes) {
        Ok(s) => s,
        Err(e) => {
            proof {
                assert forall|o: int|
                    !(rightmost_occurrence(data@, o) && #[trigger] file_structure_ok(data@, o)) by {
                    if rightmost_occurrence(data@, o) {
                        lemma_rightmost_unique(data@, o, off as int);
                    }
                }
                assert(rightmost_occurrence(data@, off as int) && file_err_at(
                    data@,
                    off as int,
                    e,
                ));
            }
            return Err(e);
        },
    };
    let cd_off: usize = h.cent_dir_offset as usize;
    if cd_off > data_len {
        let e = eof_error();
        proof {
            assert forall|o: int|
                !(rightmost_occurrence(data@, o) && #[trigger] file_structure_ok(data@, o)) by {
                if rightmost_occurrence(data@, o) {
                    lemma_rightmost_unique(data@, o, off as int);
                }
            }
            assert(rightmost_occurrence(data@, off as int) && file_err_at(data@, off as int, e));
        }
        return Err(e);
    }
    match cd(data, cd_off, h.num_of_entries) {
        Ok((entries, metas, _)) => {
            let zf = ZipFile { entries, metas, comment };
            proof {
                assert(rightmost_occurrence(data@, off as int));
                assert(file_structure_ok(data@, off as int));
                let (recs, cd_end) = spec_cd(
                    data@,
                    h.cent_dir_offset as int,
                    h.num_of_entries as nat,
                ).unwrap();
                assert forall|i: int| 0 <= i < recs.len() implies entry_matches_record(
                    #[trigger] zf.entries@[i],
                    recs[i],
                ) && meta_matches_record(zf.metas@[i], recs[i]) by {
                    assert(entry_matches_record(zf.entries@[i], recs[i]));
                }
                let hh = spec_eocdr_at(data@, off + 4);
                assert(hh == h);
                assert(zf.comment@ == decode_utf8(
                    data@.subrange(off + 22, off + 22 + hh.file_comm_length),
                ));
                assert(spec_cd(data@, hh.cent_dir_offset as int, hh.num_of_entries as nat)
                    == Some((recs, cd_end)));
                assert(zf.entries@.len() == hh.num_of_entries);
                assert(zf.metas@.len() == hh.num_of_entries);
                assert(recs.len() == hh.num_of_entries);
                lemma_file_matches_intro(data@, off as int, zf, recs, cd_end);
                assert(file_matches(data@, off as int, zf));
            }
            Ok(zf)
        },
        Err(e) => {
            proof {
                assert forall|o: int|
                    !(rightmost_occurrence(data@, o) && #[trigger] file_structure_ok(data@, o)) by {
                    if rightmost_occurrence(data@, o) {
                        lemma_rightmost_unique(data@, o, off as int);
                    }
                }
                let hh = spec_eocdr_at(data@, off + 4);
                assert(hh == h);
                assert(hh.cent_dir_offset as int == cd_off as int);
                let i0 = choose|i: nat|
                    i < h.num_of_entries && #[trigger] cd_prefix_err(data@, cd_off as int, i, e);
                assert(cd_prefix_err(data@, hh.cent_dir_offset as int, i0, e));
                assert(cd_failure_err(data@, off as int, e));
                assert(tail_record_ok(data@, off as int));
                assert(rightmost_occurrence(data@, off as int) && file_err_at(
                    data@,
                    off as int,
                    e,
                ));
            }
            Err(e)
        },
    }
}

/// Exactly which error kind the tail parse reports for the EOCDR at `off`:
/// a ZIP64 sentinel, or a comment that overruns the tail or is not UTF-8.
pub open spec fn tail_err_at(data: Seq<u8>, off: int, e: ZipError) -> bool {
    let h = spec_eocdr_at(data, off + 4);
    match e {
        ZipError::TargetZip64Unsupported => eocdr_zip64(h),
        ZipError::UpstreamReadError(_) => !eocdr_zip64(h) && (off + 22 + h.file_comm_length
            > data.len() || !valid_utf8(data.subrange(off + 22, off + 22 + h.file_comm_length))),
        _ => false,
    }
}

/// Locates and parses the EOCDR inside an archive's tail — the last
/// `min(length, 65557)` bytes, which are as far as the record and its
/// comment can reach — and returns the record with its decoded comment.
///
/// A facade over a seekable source reads just that tail, hands it here, and
/// then fetches the central directory the record points at.
pub fn parse_tail(tail: &[u8]) -> (r: Result<(EndOfCentralDirectoryHeader, String), ZipError>)
    ensures
        match r {
            Ok((h, comment)) => exists|off: int|
                {
                    &&& #[trigger] rightmost_occurrence(tail@, off)
                    &&& h == spec_eocdr_at(tail@, off + 4)
                    &&& tail_record_ok(tail@, off)
                    &&& comment@ == decode_utf8(
                        tail@.subrange(off + 22, off + 22 + h.file_comm_length),
                    )
                },
            Err(e) => {
                &&& forall|off: int|
                    !(#[trigger] rightmost_occurrence(tail@, off) && tail_record_ok(tail@, off))
                &&& ((e matches ZipError::UnableToLocateEOCDR) <==> (forall|p: int|
                    in_window(tail@.len() as int, p) ==> !occurs_at(tail@, p)))
                &&& (!(e matches ZipError::UnableToLocateEOCDR) ==> exists|off: int|
                    #[trigger] rightmost_occurrence(tail@, off) && tail_err_at(tail@, off, e))
            },
        },
{
    let tail_len: usize = tail.len();
    let off = match locate_eocdr(tail) {
        Ok(o) => o,
        Err(e) => {
            return Err(e);
        },
    };
    let h = parse_eocdr(tail, off + 4);
    if h.num_of_entries == 0xffff || h.size_cent_dir == 0xffffffff || h.cent_dir_offset
        == 0xffffffff {
        proof {
            assert forall|o: int|
                !(#[trigger] rightmost_occurrence(tail@, o) && tail_record_ok(tail@, o)) by {
                if rightmost_occurrence(tail@, o) {
                    lemma_rightmost_unique(tail@, o, off as int);
                }
            }
            assert(rightmost_occurrence(tail@, off as int) && tail_err_at(
                tail@,
                off as int,
                ZipError::TargetZip64Unsupported,
            ));
        }
        return Err(ZipError::TargetZip64Unsupported);
    }
    let comm_len: usize = h.file_comm_length as usize;
    if tail_len - (off + 22) < comm_len {
        let e = eof_error();
        proof {
            assert forall|o: int|
                !(#[trigger] rightmost_occurrence(tail@, o) && tail_record_ok(tail@, o)) by {
                if rightmost_occurrence(tail@, o) {
                    lemma_rightmost_unique(tail@, o, off as int);
                }
            }
            assert(rightmost_occurrence(tail@, off as int) && tail_err_at(tail@, off as int, e));
        }
        return Err(e);
    }
    let comment_bytes = slice_to_vec(slice_subrange(tail, off + 22, off + 22 + comm_len));
    let comment = match bytes_to_string(comment_bytes) {
        Ok(s) => s,
        Err(e) => {
            proof {
                assert forall|o: int|
                    !(#[trigger] rightmost_occurrence(tail@, o) && tail_record_ok(tail@, o)) by {
                    if rightmost_occurrence(tail@, o) {
                        lemma_rightmost_unique(tail@, o, off as int);
                    }
                }
                assert(rightmost_occurrence(tail@, off as int) && tail_err_at(
                    tail@,
                    off as int,
                    e,
                ));
            }
            return Err(e);
        },
    };
    proof {
        assert(rightmost_occurrence(tail@, off as int));
        assert(tail_record_ok(tail@, off as int));
    }
    Ok((h, comment))
}

/// Makes every decision an entry reader takes from a local file header's 30
/// fixed bytes: the signature check, the ZIP64 guard, the compression
/// method, and the compressed size — absent when a data descriptor defers
/// it.
pub fn open_local_header(fixed: &[u8]) -> (r: Result<
    (crate::header::LocalFileHeader, Compression, Option<usize>),
    ZipError,
>)
    requires
        fixed@.len() == 30,
    ensures
        match r {
            Ok((h, compression, size)) => {
                &&& sig_at(fixed@, 0, crate::header::LFH_SIGNATURE)
                &&& h == crate::header::spec_lfh_at(fixed@, 4)
                &&& h.compressed_size != 0xffffffff
                &&& is_compression_code(h.compression)
                &&& compression == spec_compression_of_code(h.compression)
                &&& size == (if crate::header::spec_data_descriptor(h.flags) {
                    None::<usize>
                } else {
                    Some(h.compressed_size as usize)
                })
            },
            Err(e) => match e {
                ZipError::UnexpectedHeaderError(_, expected) => expected
                    == crate::header::LFH_SIGNATURE && !sig_at(
                    fixed@,
                    0,
                    crate::header::LFH_SIGNATURE,
                ),
                ZipError::TargetZip64Unsupported => crate::header::spec_lfh_at(
                    fixed@,
                    4,
                ).compressed_size == 0xffffffff,
                ZipError::UnsupportedCompressionError(c) => c == crate::header::spec_lfh_at(
                    fixed@,
                    4,
                ).compression && !is_compression_code(c),
                _ => false,
            },
        },
{
    if let Err(e) = crate::header::check_signature(fixed, 0, crate::header::LFH_SIGNATURE) {
        return Err(e);
    }
    let h = crate::header::parse_lfh(fixed, 4);
    if h.compressed_size == 0xffffffff {
        return Err(ZipError::TargetZip64Unsupported);
    }
    let compression = match Compression::from_u16(h.compression) {
        Ok(c) => c,
        Err(e) => {
            return Err(e);
        },
    };
    let size: Option<usize> = if h.flags.data_descriptor() {
        None
    } else {
        Some(h.compressed_size as usize)
    };
    Ok((h, compression, size))
}

} // verus!
