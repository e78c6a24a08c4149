//! The binary layer: little-endian integer codecs, signatures, fixed header
//! layouts, and bit-exact encoding and parsing of each header body.
//!
//! All multi-byte integers are little-endian on the wire.  Each header's
//! fixed-length body excludes its 4-byte signature; the signature is written
//! and checked by the caller-facing functions below.

use vstd::prelude::*;

use vstd::slice::slice_index_get;

use crate::error::ZipError;

verus! {

/// Signature preceding each local file header.
pub const LFH_SIGNATURE: u32 = 0x04034b50;

/// Signature preceding each central directory header.
pub const CDH_SIGNATURE: u32 = 0x02014b50;

/// Signature preceding the end-of-central-directory record.
pub const EOCDR_SIGNATURE: u32 = 0x06054b50;

/// Signature preceding a data descriptor.
pub const DATA_DESCRIPTOR_SIGNATURE: u32 = 0x08074b50;

/// Byte length of every signature.
pub const SIGNATURE_LENGTH: usize = 4;

/// Byte length of a local file header body, signature excluded.
pub const LFH_LENGTH: usize = 26;

/// Byte length of a central directory header body, signature excluded.
pub const CDH_LENGTH: usize = 42;

/// Byte length of an end-of-central-directory record body, signature
/// excluded.
pub const EOCDR_LENGTH: usize = 18;

/// The two little-endian bytes of a 16-bit value.
pub open spec fn le16_bytes(x: u16) -> Seq<u8> {
    seq![(x & 0xff) as u8, ((x >> 8) & 0xff) as u8]
}

/// The 16-bit value two little-endian bytes encode.
pub open spec fn le16_value(b: Seq<u8>) -> u16
    recommends
        b.len() == 2,
{
    (b[0] as u16) | (b[1] as u16) << 8
}

/// The four little-endian bytes of a 32-bit value.
pub open spec fn le32_bytes(x: u32) -> Seq<u8> {
    seq![
        (x & 0xff) as u8,
        ((x >> 8) & 0xff) as u8,
        ((x >> 16) & 0xff) as u8,
        ((x >> 24) & 0xff) as u8,
    ]
}

/// The 32-bit value four little-endian bytes encode.
pub open spec fn le32_value(b: Seq<u8>) -> u32
    recommends
        b.len() == 4,
{
    (b[0] as u32) | (b[1] as u32) << 8 | (b[2] as u32) << 16 | (b[3] as u32) << 24
}

/// Encoding and decoding of 16-bit values invert each other.
pub proof fn lemma_le16_roundtrip()
    ensures
        forall|x: u16| (#[trigger] le16_bytes(x)).len() == 2 && le16_value(le16_bytes(x)) == x,
        forall|b: Seq<u8>| b.len() == 2 ==> #[trigger] le16_bytes(le16_value(b)) == b,
{
    assert forall|x: u16| (#[trigger] le16_bytes(x)).len() == 2 && le16_value(le16_bytes(x)) == x by {
        assert(((x & 0xff) as u8 as u16) | (((x >> 8) & 0xff) as u8 as u16) << 8 == x) by (bit_vector);
    }
    assert forall|b: Seq<u8>| b.len() == 2 implies #[trigger] le16_bytes(le16_value(b)) == b by {
        let b0 = b[0];
        let b1 = b[1];
        let x = le16_value(b);
        assert((((b0 as u16) | (b1 as u16) << 8) & 0xff) as u8 == b0 && ((((b0 as u16) | (b1 as u16) << 8)
            >> 8) & 0xff) as u8 == b1) by (bit_vector);
        assert(le16_bytes(x) =~= b);
    }
}

/// Encoding and decoding of 32-bit values invert each other.
pub proof fn lemma_le32_roundtrip()
    ensures
        forall|x: u32| (#[trigger] le32_bytes(x)).len() == 4 && le32_value(le32_bytes(x)) == x,
        forall|b: Seq<u8>| b.len() == 4 ==> #[trigger] le32_bytes(le32_value(b)) == b,
{
    assert forall|x: u32| (#[trigger] le32_bytes(x)).len() == 4 && le32_value(le32_bytes(x)) == x by {
        assert(((x & 0xff) as u8 as u32) | (((x >> 8) & 0xff) as u8 as u32) << 8 | (((x >> 16) & 0xff) as u8 as u32)
            << 16 | (((x >> 24) & 0xff) as u8 as u32) << 24 == x) by (bit_vector);
    }
    assert forall|b: Seq<u8>| b.len() == 4 implies #[trigger] le32_bytes(le32_value(b)) == b by {
        let b0 = b[0];
        let b1 = b[1];
        let b2 = b[2];
        let b3 = b[3];
        assert(((((b0 as u32) | (b1 as u32) << 8 | (b2 as u32) << 16 | (b3 as u32) << 24) & 0xff) as u8 == b0)
            && ((((b0 as u32) | (b1 as u32) << 8 | (b2 as u32) << 16 | (b3 as u32) << 24) >> 8) & 0xff) as u8 == b1
            && ((((b0 as u32) | (b1 as u32) << 8 | (b2 as u32) << 16 | (b3 as u32) << 24) >> 16) & 0xff) as u8 == b2
            && ((((b0 as u32) | (b1 as u32) << 8 | (b2 as u32) << 16 | (b3 as u32) << 24) >> 24) & 0xff) as u8 == b3) by (bit_vector);
        assert(le32_bytes(le32_value(b)) =~= b);
    }
}

/// The little-endian bytes of a 32-bit signature.
pub open spec fn sig_bytes(sig: u32) -> Seq<u8> {
    le32_bytes(sig)
}

/// The end-of-central-directory signature, byte for byte.
pub proof fn lemma_eocdr_sig_bytes()
    ensures
        sig_bytes(EOCDR_SIGNATURE) == seq![0x50u8, 0x4bu8, 0x05u8, 0x06u8],
{
    assert(0x06054b50u32 & 0xff == 0x50 && (0x06054b50u32 >> 8) & 0xff == 0x4b && (0x06054b50u32 >> 16) & 0xff
        == 0x05 && (0x06054b50u32 >> 24) & 0xff == 0x06) by (bit_vector);
    assert(sig_bytes(EOCDR_SIGNATURE) =~= seq![0x50u8, 0x4bu8, 0x05u8, 0x06u8]);
}

/// The general purpose bit flag word.  Bit 0 means the entry is encrypted and
/// bit 3 means a data descriptor follows the payload; all other bits are kept
/// but not interpreted.
#[derive(Clone, Copy, Debug, PartialEq, Eq, Structural)]
pub struct GeneralPurposeFlag {
    pub bits: u16,
}

/// Whether a flag word marks the entry as encrypted (bit 0).
pub open spec fn spec_encrypted(f: GeneralPurposeFlag) -> bool {
    f.bits & 1 == 1
}

/// Whether a flag word says a data descriptor follows the payload (bit 3).
pub open spec fn spec_data_descriptor(f: GeneralPurposeFlag) -> bool {
    f.bits & 8 == 8
}

impl GeneralPurposeFlag {
    /// A flag word with the two meaningful bits set as given and all other
    /// bits clear.
    pub fn from_parts(encrypted: bool, data_descriptor: bool) -> (f: GeneralPurposeFlag)
        ensures
            spec_encrypted(f) == encrypted,
            spec_data_descriptor(f) == data_descriptor,
            f.bits == (if encrypted { 1u16 } else { 0u16 }) + (if data_descriptor { 8u16 } else { 0u16 }),
    {
        let bits: u16 = (if encrypted { 1u16 } else { 0u16 }) | (if data_descriptor { 8u16 } else { 0u16 });
        proof {
            let e: u16 = if encrypted { 1u16 } else { 0u16 };
            let d: u16 = if data_descriptor { 8u16 } else { 0u16 };
            assert((e == 0 || e == 1) && (d == 0 || d == 8) ==> (((e | d) & 1 == 1) == (e == 1)) && (((e | d) & 8
                == 8) == (d == 8)) && e | d == e + d) by (bit_vector);
        }
        GeneralPurposeFlag { bits }
    }

    /// Whether the entry is encrypted (bit 0).
    pub fn encrypted(&self) -> (b: bool)
        ensures
            b == spec_encrypted(*self),
    {
        self.bits & 1 == 1
    }

    /// Whether a data descriptor follows the payload (bit 3).
    pub fn data_descriptor(&self) -> (b: bool)
        ensures
            b == spec_data_descriptor(*self),
    {
        self.bits & 8 == 8
    }
}

/// The fixed body of a local file header.
#[derive(Clone, Copy, Debug, PartialEq, Eq, Structural)]
pub struct LocalFileHeader {
    pub version: u16,
    pub flags: GeneralPurposeFlag,
    pub compression: u16,
    pub mod_time: u16,
    pub mod_date: u16,
    pub crc: u32,
    pub compressed_size: u32,
    pub uncompressed_size: u32,
    pub file_name_length: u16,
    pub extra_field_length: u16,
}

/// The 26 bytes a local file header body is laid out as.
pub open spec fn lfh_bytes(h: LocalFileHeader) -> Seq<u8> {
    le16_bytes(h.version) + le16_bytes(h.flags.bits) + le16_bytes(h.compression) + le16_bytes(h.mod_time)
        + le16_bytes(h.mod_date) + le32_bytes(h.crc) + le32_bytes(h.compressed_size) + le32_bytes(
        h.uncompressed_size,
    ) + le16_bytes(h.file_name_length) + le16_bytes(h.extra_field_length)
}

/// The fixed body of a central directory header.
#[derive(Clone, Copy, Debug, PartialEq, Eq, Structural)]
pub struct CentralDirectoryHeader {
    pub v_made_by: u16,
    pub v_needed: u16,
    pub flags: GeneralPurposeFlag,
    pub compression: u16,
    pub mod_time: u16,
    pub mod_date: u16,
    pub crc: u32,
    pub compressed_size: u32,
    pub uncompressed_size: u32,
    pub file_name_length: u16,
    pub extra_field_length: u16,
    pub file_comment_length: u16,
    pub disk_start: u16,
    pub inter_attr: u16,
    pub exter_attr: u32,
    pub lh_offset: u32,
}

/// The 42 bytes a central directory header body is laid out as.
pub open spec fn cdh_bytes(h: CentralDirectoryHeader) -> Seq<u8> {
    le16_bytes(h.v_made_by) + le16_bytes(h.v_needed) + le16_bytes(h.flags.bits) + le16_bytes(h.compression)
        + le16_bytes(h.mod_time) + le16_bytes(h.mod_date) + le32_bytes(h.crc) + le32_bytes(h.compressed_size)
        + le32_bytes(h.uncompressed_size) + le16_bytes(h.file_name_length) + le16_bytes(h.extra_field_length)
        + le16_bytes(h.file_comment_length) + le16_bytes(h.disk_start) + le16_bytes(h.inter_attr) + le32_bytes(
        h.exter_attr,
    ) + le32_bytes(h.lh_offset)
}

/// The fixed body of an end-of-central-directory record.
#[derive(Clone, Copy, Debug, PartialEq, Eq, Structural)]
pub struct EndOfCentralDirectoryHeader {
    pub disk_num: u16,
    pub start_cent_dir_disk: u16,
    pub num_of_entries_disk: u16,
    pub num_of_entries: u16,
    pub size_cent_dir: u32,
    pub cent_dir_offset: u32,
    pub file_comm_length: u16,
}

/// The 18 bytes an end-of-central-directory record body is laid out as.
pub open spec fn eocdr_bytes(h: EndOfCentralDirectoryHeader) -> Seq<u8> {
    le16_bytes(h.disk_num) + le16_bytes(h.start_cent_dir_disk) + le16_bytes(h.num_of_entries_disk) + le16_bytes(
        h.num_of_entries,
    ) + le32_bytes(h.size_cent_dir) + le32_bytes(h.cent_dir_offset) + le16_bytes(h.file_comm_length)
}

/// Appends the two little-endian bytes of a 16-bit value.
pub fn push_u16(out: &mut Vec<u8>, x: u16)
    ensures
        final(out)@ == old(out)@ + le16_bytes(x),
{
    proof {
        assert(x & 0xff < 256 && (x >> 8) & 0xff < 256) by (bit_vector);
    }
    out.push((x & 0xff) as u8);
    out.push(((x >> 8) & 0xff) as u8);
    proof {
        assert(out@ =~= old(out)@ + le16_bytes(x));
    }
}

/// Appends the four little-endian bytes of a 32-bit value.
pub fn push_u32(out: &mut Vec<u8>, x: u32)
    ensures
        final(out)@ == old(out)@ + le32_bytes(x),
{
    proof {
        assert(x & 0xff < 256 && (x >> 8) & 0xff < 256 && (x >> 16) & 0xff < 256 && (x >> 24) & 0xff < 256)
            by (bit_vector);
    }
    out.push((x & 0xff) as u8);
    out.push(((x >> 8) & 0xff) as u8);
    out.push(((x >> 16) & 0xff) as u8);
    out.push(((x >> 24) & 0xff) as u8);
    proof {
        assert(out@ =~= old(out)@ + le32_bytes(x));
    }
}

/// Reads the 16-bit value whose little-endian bytes sit at `pos`.
pub fn read_u16(data: &[u8], pos: usize) -> (x: u16)
    requires
        pos + 2 <= data@.len(),
    ensures
        le16_bytes(x) == data@.subrange(pos as int, pos + 2),
        x == le16_value(data@.subrange(pos as int, pos + 2)),
{
    let data_len: usize = data.len();
    let b0 = *slice_index_get(data, pos);
    let b1 = *slice_index_get(data, pos + 1);
    let x = (b0 as u16) | (b1 as u16) << 8;
    proof {
        assert((((b0 as u16) | (b1 as u16) << 8) & 0xff) as u8 == b0 && ((((b0 as u16) | (b1 as u16) << 8) >> 8)
            & 0xff) as u8 == b1) by (bit_vector);
        assert(le16_bytes(x) =~= data@.subrange(pos as int, pos + 2));
        assert(data@.subrange(pos as int, pos + 2)[0] == b0);
        assert(data@.subrange(pos as int, pos + 2)[1] == b1);
    }
    x
}

/// Reads the 32-bit value whose little-endian bytes sit at `pos`.
pub fn read_u32(data: &[u8], pos: usize) -> (x: u32)
    requires
        pos + 4 <= data@.len(),
    ensures
        le32_bytes(x) == data@.subrange(pos as int, pos + 4),
        x == le32_value(data@.subrange(pos as int, pos + 4)),
{
    let data_len: usize = data.len();
    let b0 = *slice_index_get(data, pos);
    let b1 = *slice_index_get(data, pos + 1);
    let b2 = *slice_index_get(data, pos + 2);
    let b3 = *slice_index_get(data, pos + 3);
    let x = (b0 as u32) | (b1 as u32) << 8 | (b2 as u32) << 16 | (b3 as u32) << 24;
    proof {
        assert(((((b0 as u32) | (b1 as u32) << 8 | (b2 as u32) << 16 | (b3 as u32) << 24) & 0xff) as u8 == b0)
            && ((((b0 as u32) | (b1 as u32) << 8 | (b2 as u32) << 16 | (b3 as u32) << 24) >> 8) & 0xff) as u8 == b1
            && ((((b0 as u32) | (b1 as u32) << 8 | (b2 as u32) << 16 | (b3 as u32) << 24) >> 16) & 0xff) as u8 == b2
            && ((((b0 as u32) | (b1 as u32) << 8 | (b2 as u32) << 16 | (b3 as u32) << 24) >> 24) & 0xff) as u8 == b3) by (bit_vector);
        assert(le32_bytes(x) =~= data@.subrange(pos as int, pos + 4));
        assert(data@.subrange(pos as int, pos + 4)[0] == b0);
        assert(data@.subrange(pos as int, pos + 4)[1] == b1);
        assert(data@.subrange(pos as int, pos + 4)[2] == b2);
        assert(data@.subrange(pos as int, pos + 4)[3] == b3);
    }
    x
}

/// Whether the four bytes at `pos` are the little-endian encoding of `sig`.
pub open spec fn sig_at(data: Seq<u8>, pos: int, sig: u32) -> bool {
    &&& 0 <= pos
    &&& pos + 4 <= data.len()
    &&& data.subrange(pos, pos + 4) == sig_bytes(sig)
}

/// Checks the signature at `pos`; `Err` carries the actual value found.
pub fn check_signature(data: &[u8], pos: usize, expected: u32) -> (r: Result<(), ZipError>)
    requires
        pos + 4 <= data@.len(),
    ensures
        match r {
            Ok(()) => sig_at(data@, pos as int, expected),
            Err(e) => !sig_at(data@, pos as int, expected) && (e matches ZipError::UnexpectedHeaderError(
                actual,
                exp,
            ) && le32_bytes(actual) == data@.subrange(pos as int, pos + 4) && exp == expected),
        },
{
    let actual = read_u32(data, pos);
    if actual == expected {
        Ok(())
    } else {
        proof {
            lemma_le32_roundtrip();
        }
        Err(ZipError::UnexpectedHeaderError(actual, expected))
    }
}

/// Encodes a local file header body, appending its 26 bytes.
pub fn encode_lfh(h: &LocalFileHeader, out: &mut Vec<u8>)
    ensures
        final(out)@ == old(out)@ + lfh_bytes(*h),
{
    push_u16(out, h.version);
    push_u16(out, h.flags.bits);
    push_u16(out, h.compression);
    push_u16(out, h.mod_time);
    push_u16(out, h.mod_date);
    push_u32(out, h.crc);
    push_u32(out, h.compressed_size);
    push_u32(out, h.uncompressed_size);
    push_u16(out, h.file_name_length);
    push_u16(out, h.extra_field_length);
    proof {
        assert(out@ =~= old(out)@ + lfh_bytes(*h));
    }
}

/// Encodes a central directory header body, appending its 42 bytes.
pub fn encode_cdh(h: &CentralDirectoryHeader, out: &mut Vec<u8>)
    ensures
        final(out)@ == old(out)@ + cdh_bytes(*h),
{
    push_u16(out, h.v_made_by);
    push_u16(out, h.v_needed);
    push_u16(out, h.flags.bits);
    push_u16(out, h.compression);
    push_u16(out, h.mod_time);
    push_u16(out, h.mod_date);
    push_u32(out, h.crc);
    push_u32(out, h.compressed_size);
    push_u32(out, h.uncompressed_size);
    push_u16(out, h.file_name_length);
    push_u16(out, h.extra_field_length);
    push_u16(out, h.file_comment_length);
    push_u16(out, h.disk_start);
    push_u16(out, h.inter_attr);
    push_u32(out, h.exter_attr);
    push_u32(out, h.lh_offset);
    proof {
        assert(out@ =~= old(out)@ + cdh_bytes(*h));
    }
}

/// Encodes an end-of-central-directory record body, appending its 18 bytes.
pub fn encode_eocdr(h: &EndOfCentralDirectoryHeader, out: &mut Vec<u8>)
    ensures
        final(out)@ == old(out)@ + eocdr_bytes(*h),
{
    push_u16(out, h.disk_num);
    push_u16(out, h.start_cent_dir_disk);
    push_u16(out, h.num_of_entries_disk);
    push_u16(out, h.num_of_entries);
    push_u32(out, h.size_cent_dir);
    push_u32(out, h.cent_dir_offset);
    push_u16(out, h.file_comm_length);
    proof {
        assert(out@ =~= old(out)@ + eocdr_bytes(*h));
    }
}

/// Appends the little-endian bytes of a signature.
pub fn push_signature(out: &mut Vec<u8>, sig: u32)
    ensures
        final(out)@ == old(out)@ + sig_bytes(sig),
{
    push_u32(out, sig);
}

/// Parses the local file header body whose 26 bytes sit at `pos`.
pub fn parse_lfh(data: &[u8], pos: usize) -> (h: LocalFileHeader)
    requires
        pos + 26 <= data@.len(),
    ensures
        lfh_bytes(h) == data@.subrange(pos as int, pos + 26),
        h == spec_lfh_at(data@, pos as int),
{
    let data_len: usize = data.len();
    let h = LocalFileHeader {
        version: read_u16(data, pos),
        flags: GeneralPurposeFlag { bits: read_u16(data, pos + 2) },
        compression: read_u16(data, pos + 4),
        mod_time: read_u16(data, pos + 6),
        mod_date: read_u16(data, pos + 8),
        crc: read_u32(data, pos + 10),
        compressed_size: read_u32(data, pos + 14),
        uncompressed_size: read_u32(data, pos + 18),
        file_name_length: read_u16(data, pos + 22),
        extra_field_length: read_u16(data, pos + 24),
    };
    proof {
        assert(lfh_bytes(h) =~= data@.subrange(pos as int, pos + 26));
    }
    h
}

/// Parses the central directory header body whose 42 bytes sit at `pos`.
pub fn parse_cdh(data: &[u8], pos: usize) -> (h: CentralDirectoryHeader)
    requires
        pos + 42 <= data@.len(),
    ensures
        cdh_bytes(h) == data@.subrange(pos as int, pos + 42),
        h == spec_cdh_at(data@, pos as int),
{
    let data_len: usize = data.len();
    let h = CentralDirectoryHeader {
        v_made_by: read_u16(data, pos),
        v_needed: read_u16(data, pos + 2),
        flags: GeneralPurposeFlag { bits: read_u16(data, pos + 4) },
        compression: read_u16(data, pos + 6),
        mod_time: read_u16(data, pos + 8),
        mod_date: read_u16(data, pos + 10),
        crc: read_u32(data, pos + 12),
        compressed_size: read_u32(data, pos + 16),
        uncompressed_size: read_u32(data, pos + 20),
        file_name_length: read_u16(data, pos + 24),
        extra_field_length: read_u16(data, pos + 26),
        file_comment_length: read_u16(data, pos + 28),
        disk_start: read_u16(data, pos + 30),
        inter_attr: read_u16(data, pos + 32),
        exter_attr: read_u32(data, pos + 34),
        lh_offset: read_u32(data, pos + 38),
    };
    proof {
        assert(cdh_bytes(h) =~= data@.subrange(pos as int, pos + 42));
    }
    h
}

/// Parses the end-of-central-directory record body whose 18 bytes sit at
/// `pos`.
pub fn parse_eocdr(data: &[u8], pos: usize) -> (h: EndOfCentralDirectoryHeader)
    requires
        pos + 18 <= data@.len(),
    ensures
        eocdr_bytes(h) == data@.subrange(pos as int, pos + 18),
        h == spec_eocdr_at(data@, pos as int),
{
    let data_len: usize = data.len();
    let h = EndOfCentralDirectoryHeader {
        disk_num: read_u16(data, pos),
        start_cent_dir_disk: read_u16(data, pos + 2),
        num_of_entries_disk: read_u16(data, pos + 4),
        num_of_entries: read_u16(data, pos + 6),
        size_cent_dir: read_u32(data, pos + 8),
        cent_dir_offset: read_u32(data, pos + 12),
        file_comm_length: read_u16(data, pos + 16),
    };
    proof {
        assert(eocdr_bytes(h) =~= data@.subrange(pos as int, pos + 18));
    }
    h
}

/// The local file header whose body's 26 bytes sit at `pos`, read field by
/// field.
pub open spec fn spec_lfh_at(data: Seq<u8>, pos: int) -> LocalFileHeader {
    LocalFileHeader {
        version: le16_value(data.subrange(pos, pos + 2)),
        flags: GeneralPurposeFlag { bits: le16_value(data.subrange(pos + 2, pos + 4)) },
        compression: le16_value(data.subrange(pos + 4, pos + 6)),
        mod_time: le16_value(data.subrange(pos + 6, pos + 8)),
        mod_date: le16_value(data.subrange(pos + 8, pos + 10)),
        crc: le32_value(data.subrange(pos + 10, pos + 14)),
        compressed_size: le32_value(data.subrange(pos + 14, pos + 18)),
        uncompressed_size: le32_value(data.subrange(pos + 18, pos + 22)),
        file_name_length: le16_value(data.subrange(pos + 22, pos + 24)),
        extra_field_length: le16_value(data.subrange(pos + 24, pos + 26)),
    }
}

/// The central directory header whose body's 42 bytes sit at `pos`, read
/// field by field.
pub open spec fn spec_cdh_at(data: Seq<u8>, pos: int) -> CentralDirectoryHeader {
    CentralDirectoryHeader {
        v_made_by: le16_value(data.subrange(pos, pos + 2)),
        v_needed: le16_value(data.subrange(pos + 2, pos + 4)),
        flags: GeneralPurposeFlag { bits: le16_value(data.subrange(pos + 4, pos + 6)) },
        compression: le16_value(data.subrange(pos + 6, pos + 8)),
        mod_time: le16_value(data.subrange(pos + 8, pos + 10)),
        mod_date: le16_value(data.subrange(pos + 10, pos + 12)),
        crc: le32_value(data.subrange(pos + 12, pos + 16)),
        compressed_size: le32_value(data.subrange(pos + 16, pos + 20)),
        uncompressed_size: le32_value(data.subrange(pos + 20, pos + 24)),
        file_name_length: le16_value(data.subrange(pos + 24, pos + 26)),
        extra_field_length: le16_value(data.subrange(pos + 26, pos + 28)),
        file_comment_length: le16_value(data.subrange(pos + 28, pos + 30)),
        disk_start: le16_value(data.subrange(pos + 30, pos + 32)),
        inter_attr: le16_value(data.subrange(pos + 32, pos + 34)),
        exter_attr: le32_value(data.subrange(pos + 34, pos + 38)),
        lh_offset: le32_value(data.subrange(pos + 38, pos + 42)),
    }
}

/// The end-of-central-directory record whose body's 18 bytes sit at `pos`,
/// read field by field.
pub open spec fn spec_eocdr_at(data: Seq<u8>, pos: int) -> EndOfCentralDirectoryHeader {
    EndOfCentralDirectoryHeader {
        disk_num: le16_value(data.subrange(pos, pos + 2)),
        start_cent_dir_disk: le16_value(data.subrange(pos + 2, pos + 4)),
        num_of_entries_disk: le16_value(data.subrange(pos + 4, pos + 6)),
        num_of_entries: le16_value(data.subrange(pos + 6, pos + 8)),
        size_cent_dir: le32_value(data.subrange(pos + 8, pos + 12)),
        cent_dir_offset: le32_value(data.subrange(pos + 12, pos + 16)),
        file_comm_length: le16_value(data.subrange(pos + 16, pos + 18)),
    }
}

/// Bytes laid out as a header body read back as that header.
pub proof fn lemma_lfh_at_of_bytes(data: Seq<u8>, pos: int, h: LocalFileHeader)
    requires
        0 <= pos,
        pos + 26 <= data.len(),
        data.subrange(pos, pos + 26) == lfh_bytes(h),
    ensures
        spec_lfh_at(data, pos) == h,
{
    lemma_le16_roundtrip();
    lemma_le32_roundtrip();
    let b = lfh_bytes(h);
    lemma_subfield(data, pos, 26, 0, 2, b, le16_bytes(h.version));
    lemma_subfield(data, pos, 26, 2, 4, b, le16_bytes(h.flags.bits));
    lemma_subfield(data, pos, 26, 4, 6, b, le16_bytes(h.compression));
    lemma_subfield(data, pos, 26, 6, 8, b, le16_bytes(h.mod_time));
    lemma_subfield(data, pos, 26, 8, 10, b, le16_bytes(h.mod_date));
    lemma_subfield(data, pos, 26, 10, 14, b, le32_bytes(h.crc));
    lemma_subfield(data, pos, 26, 14, 18, b, le32_bytes(h.compressed_size));
    lemma_subfield(data, pos, 26, 18, 22, b, le32_bytes(h.uncompressed_size));
    lemma_subfield(data, pos, 26, 22, 24, b, le16_bytes(h.file_name_length));
    lemma_subfield(data, pos, 26, 24, 26, b, le16_bytes(h.extra_field_length));
}

/// Bytes laid out as a header body read back as that header.
pub proof fn lemma_cdh_at_of_bytes(data: Seq<u8>, pos: int, h: CentralDirectoryHeader)
    requires
        0 <= pos,
        pos + 42 <= data.len(),
        data.subrange(pos, pos + 42) == cdh_bytes(h),
    ensures
        spec_cdh_at(data, pos) == h,
{
    lemma_le16_roundtrip();
    lemma_le32_roundtrip();
    let b = cdh_bytes(h);
    lemma_subfield(data, pos, 42, 0, 2, b, le16_bytes(h.v_made_by));
    lemma_subfield(data, pos, 42, 2, 4, b, le16_bytes(h.v_needed));
    lemma_subfield(data, pos, 42, 4, 6, b, le16_bytes(h.flags.bits));
    lemma_subfield(data, pos, 42, 6, 8, b, le16_bytes(h.compression));
    lemma_subfield(data, pos, 42, 8, 10, b, le16_bytes(h.mod_time));
    lemma_subfield(data, pos, 42, 10, 12, b, le16_bytes(h.mod_date));
    lemma_subfield(data, pos, 42, 12, 16, b, le32_bytes(h.crc));
    lemma_subfield(data, pos, 42, 16, 20, b, le32_bytes(h.compressed_size));
    lemma_subfield(data, pos, 42, 20, 24, b, le32_bytes(h.uncompressed_size));
    lemma_subfield(data, pos, 42, 24, 26, b, le16_bytes(h.file_name_length));
    lemma_subfield(data, pos, 42, 26, 28, b, le16_bytes(h.extra_field_length));
    lemma_subfield(data, pos, 42, 28, 30, b, le16_bytes(h.file_comment_length));
    lemma_subfield(data, pos, 42, 30, 32, b, le16_bytes(h.disk_start));
    lemma_subfield(data, pos, 42, 32, 34, b, le16_bytes(h.inter_attr));
    lemma_subfield(data, pos, 42, 34, 38, b, le32_bytes(h.exter_attr));
    lemma_subfield(data, pos, 42, 38, 42, b, le32_bytes(h.lh_offset));
}

/// Bytes laid out as a header body read back as that header.
pub proof fn lemma_eocdr_at_of_bytes(data: Seq<u8>, pos: int, h: EndOfCentralDirectoryHeader)
    requires
        0 <= pos,
        pos + 18 <= data.len(),
        data.subrange(pos, pos + 18) == eocdr_bytes(h),
    ensures
        spec_eocdr_at(data, pos) == h,
{
    lemma_le16_roundtrip();
    lemma_le32_roundtrip();
    let b = eocdr_bytes(h);
    lemma_subfield(data, pos, 18, 0, 2, b, le16_bytes(h.disk_num));
    lemma_subfield(data, pos, 18, 2, 4, b, le16_bytes(h.start_cent_dir_disk));
    lemma_subfield(data, pos, 18, 4, 6, b, le16_bytes(h.num_of_entries_disk));
    lemma_subfield(data, pos, 18, 6, 8, b, le16_bytes(h.num_of_entries));
    lemma_subfield(data, pos, 18, 8, 12, b, le32_bytes(h.size_cent_dir));
    lemma_subfield(data, pos, 18, 12, 16, b, le32_bytes(h.cent_dir_offset));
    lemma_subfield(data, pos, 18, 16, 18, b, le16_bytes(h.file_comm_length));
}

/// A field's bytes inside a header body equal the field's own encoding.
proof fn lemma_subfield(
    data: Seq<u8>,
    pos: int,
    blen: int,
    a: int,
    b2: int,
    body: Seq<u8>,
    field: Seq<u8>,
)
    requires
        0 <= pos,
        pos + blen <= data.len(),
        data.subrange(pos, pos + blen) == body,
        body.len() == blen,
        0 <= a <= b2 <= blen,
        field.len() == b2 - a,
        forall|k: int| 0 <= k < b2 - a ==> field[k] == body[a + k],
    ensures
        data.subrange(pos + a, pos + b2) == field,
{
    assert forall|k: int| 0 <= k < b2 - a implies #[trigger] data.subrange(pos + a, pos + b2)[k]
        == field[k] by {
        assert(data.subrange(pos, pos + blen)[a + k] == data[pos + a + k]);
        assert(data.subrange(pos + a, pos + b2)[k] == data[pos + a + k]);
    }
    assert(data.subrange(pos + a, pos + b2) =~= field);
}

} // verus!
