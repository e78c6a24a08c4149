//! Parsing malformed archives, and the small unit pieces.

use zipcore::compression::{AttributeCompatibility, Compression};
use zipcore::datetime::ZipDateTime;
use zipcore::error::ZipError;
use zipcore::pipeline::{CompressedReader, HashedReader, LimitedReader};
use zipcore::header::GeneralPurposeFlag;
use zipcore::mem::ZipFileReader;
use zipcore::write::{EntryOptions, ZipFileWriter};
use zipcore::ZipFileExt;

fn one_entry_archive() -> Vec<u8> {
    let mut writer = ZipFileWriter::new();
    writer
        .write_entry(EntryOptions::new("a.txt".to_string(), Compression::Stored), b"foo bar")
        .unwrap();
    writer.close().unwrap()
}

/// The archive's central directory starts where the EOCDR says.
fn cd_offset(bytes: &[u8]) -> usize {
    let eocdr = bytes.len() - 22;
    u32::from_le_bytes(bytes[eocdr + 16..eocdr + 20].try_into().unwrap()) as usize
}

#[test]
fn corrupt_cdh_signature() {
    // P6: a corrupted central directory signature parses as UnexpectedHeader.
    let bytes = one_entry_archive();
    let cd = cd_offset(&bytes);
    for k in 0..4usize {
        let mut corrupt = bytes.clone();
        corrupt[cd + k] ^= 0x40;
        let r = ZipFileReader::new(corrupt);
        assert!(matches!(r, Err(ZipError::UnexpectedHeaderError(_, 0x02014b50))), "byte {}", k);
    }
}

#[test]
fn corrupt_lfh_signature() {
    // P6: a corrupted local header signature fails the entry reader.
    let bytes = one_entry_archive();
    for k in 0..4usize {
        let mut corrupt = bytes.clone();
        corrupt[k] ^= 0x40;
        let reader = ZipFileReader::new(corrupt).unwrap();
        let r = reader.entry_reader(0);
        assert!(matches!(r, Err(ZipError::UnexpectedHeaderError(_, 0x04034b50))), "byte {}", k);
    }
}

#[test]
fn corrupt_eocdr_signature() {
    // P6: with its signature gone the EOCDR cannot be located at all.
    let bytes = one_entry_archive();
    let eocdr = bytes.len() - 22;
    let mut corrupt = bytes.clone();
    corrupt[eocdr + 1] ^= 0xff;
    assert!(matches!(ZipFileReader::new(corrupt), Err(ZipError::UnableToLocateEOCDR)));
}

#[test]
fn zip64_entry_count_sentinel() {
    // P7: an EOCDR claiming 0xFFFF entries is rejected.
    let mut bytes = one_entry_archive();
    let eocdr = bytes.len() - 22;
    bytes[eocdr + 10] = 0xff;
    bytes[eocdr + 11] = 0xff;
    assert!(matches!(ZipFileReader::new(bytes), Err(ZipError::TargetZip64Unsupported)));
}

#[test]
fn zip64_cd_size_sentinel() {
    // P7: a central directory record with a 0xFFFFFFFF size is rejected.
    let mut bytes = one_entry_archive();
    let cd = cd_offset(&bytes);
    // compressed_size sits 20 bytes into the central directory header
    for k in 0..4usize {
        bytes[cd + 20 + k] = 0xff;
    }
    assert!(matches!(ZipFileReader::new(bytes), Err(ZipError::TargetZip64Unsupported)));
}

#[test]
fn truncated_central_directory() {
    // P8: cutting the central directory mid-record miscounts the entries.
    let bytes = one_entry_archive();
    let cd = cd_offset(&bytes);
    let mut corrupt: Vec<u8> = bytes[..cd + 20].to_vec();
    let eocdr = bytes.len() - 22;
    corrupt.extend_from_slice(&bytes[eocdr..]);
    // the recorded central directory offset still points at the truncated remainder
    let r = ZipFileReader::new(corrupt);
    assert!(matches!(
        r,
        Err(ZipError::NumOfEntriesMismatch) | Err(ZipError::UnexpectedHeaderError(_, _))
    ));
}

#[test]
fn unsupported_compression_code() {
    // A central directory record naming wire code 5 is not a known method.
    let mut bytes = one_entry_archive();
    let cd = cd_offset(&bytes);
    // the compression code sits 10 bytes into the central directory header
    bytes[cd + 10] = 5;
    bytes[cd + 11] = 0;
    assert!(matches!(ZipFileReader::new(bytes), Err(ZipError::UnsupportedCompressionError(5))));
}

#[test]
fn invalid_utf8_filename() {
    // A filename that is not UTF-8 surfaces the upstream error.
    let mut bytes = one_entry_archive();
    let cd = cd_offset(&bytes);
    // the filename begins 46 bytes into the central directory row
    bytes[cd + 46] = 0xff;
    assert!(matches!(ZipFileReader::new(bytes), Err(ZipError::UpstreamReadError(_))));
}

#[test]
fn compression_wire_codes() {
    let table: &[(Compression, u16)] = &[
        (Compression::Stored, 0),
        (Compression::Deflate, 8),
        (Compression::Bz, 12),
        (Compression::Lzma, 14),
        (Compression::Zstd, 93),
        (Compression::Xz, 95),
    ];
    for (c, code) in table {
        assert_eq!(c.to_u16(), *code);
        assert_eq!(Compression::from_u16(*code).unwrap(), *c);
    }
    assert!(matches!(Compression::from_u16(1), Err(ZipError::UnsupportedCompressionError(1))));
}

#[test]
fn attribute_compatibility_codes() {
    assert_eq!(AttributeCompatibility::from_u16(3).unwrap(), AttributeCompatibility::Unix);
    assert_eq!(AttributeCompatibility::Unix.to_u16(), 3);
    assert!(matches!(
        AttributeCompatibility::from_u16(7),
        Err(ZipError::UnsupportedAttributeCompatibility(7))
    ));
}

#[test]
fn general_purpose_flag_bits() {
    let f = GeneralPurposeFlag::from_parts(true, false);
    assert!(f.encrypted());
    assert!(!f.data_descriptor());
    let g = GeneralPurposeFlag::from_parts(false, true);
    assert!(!g.encrypted());
    assert!(g.data_descriptor());
    assert_eq!(g.bits, 8);
    // unknown bits round-trip untouched
    let h = GeneralPurposeFlag { bits: 0x0808 };
    assert!(h.data_descriptor());
    assert!(!h.encrypted());
}

#[test]
fn dos_datetime_conversion() {
    let dt = ZipDateTime::from_calendar(2024, 6, 15, 12, 34, 56);
    assert_eq!(dt.date, (44 << 9) | (6 << 5) | 15);
    assert_eq!(dt.time, (12 << 11) | (34 << 5) | 28);
    assert_eq!(dt.to_calendar(), (2024, 6, 15, 12, 34, 56));
    // out-of-range fields clamp to the DOS epoch
    let bad = ZipDateTime::from_calendar(1950, 6, 15, 12, 34, 56);
    assert_eq!(bad.to_calendar(), (1980, 1, 1, 0, 0, 0));
    // the writer stamps a present-day date
    let now = ZipDateTime::now();
    assert!(now.to_calendar().0 >= 1980);
}

#[test]
fn compute_crc_matches_crc32fast() {
    assert_eq!(zipcore::crc::compute_crc(b"foo bar"), 0xbe460134);
    let zeros = vec![0u8; 65536];
    assert_eq!(zipcore::crc::compute_crc(&zeros), crc32fast::hash(&zeros));
}

#[test]
fn entries_with_filename_filters_in_order() {
    let mut writer = ZipFileWriter::new();
    for (name, data) in [("dup", b"one" as &[u8]), ("other", b"two"), ("dup", b"three")] {
        writer
            .write_entry(EntryOptions::new(name.to_string(), Compression::Stored), data)
            .unwrap();
    }
    let bytes = writer.close().unwrap();
    let reader = ZipFileReader::new(bytes).unwrap();
    let hits = reader.file().entries_with_filename("dup");
    assert_eq!(hits.len(), 2);
    assert_eq!(hits[0].uncompressed_size(), 3);
    assert_eq!(hits[1].uncompressed_size(), 5);
    assert_eq!(reader.file().entries_with_filename("absent").len(), 0);
}

#[test]
fn error_kind_messages() {
    assert_eq!(
        ZipError::UnableToLocateEOCDR.kind_message(),
        "unable to locate the end of central directory record"
    );
    assert_eq!(
        ZipError::CRC32CheckError.kind_message(),
        "a computed CRC32 value did not match the expected value"
    );
}

#[test]
fn parse_tail_reads_record_and_comment() {
    // the facade hands the archive's tail to parse_tail and gets the
    // record and decoded comment back
    let mut writer = ZipFileWriter::new();
    writer
        .write_entry(EntryOptions::new("a".to_string(), Compression::Stored), b"zz")
        .unwrap();
    let bytes = writer.close().unwrap();
    let (h, comment) = zipcore::read::parse_tail(&bytes).unwrap();
    assert_eq!(h.num_of_entries, 1);
    assert_eq!(h.file_comm_length, 0);
    assert_eq!(comment, "");
    assert_eq!(h.cent_dir_offset as usize, 30 + 1 + 2);
}

#[test]
fn open_local_header_decides() {
    let bytes = one_entry_archive();
    let (h, compression, size) = zipcore::read::open_local_header(&bytes[..30]).unwrap();
    assert_eq!(compression, Compression::Stored);
    assert_eq!(size, Some(7));
    assert_eq!(h.file_name_length, 5);
    let mut corrupt = bytes[..30].to_vec();
    corrupt[0] ^= 1;
    assert!(matches!(
        zipcore::read::open_local_header(&corrupt),
        Err(ZipError::UnexpectedHeaderError(_, 0x04034b50))
    ));
}

#[test]
fn hashed_reader_test() {
    let data = "foo bar";
    let data_crc32 = 0xbe460134u32;

    let source = LimitedReader::from_vec(data.as_bytes().to_vec());
    let mut reader = HashedReader::new(CompressedReader::Stored(source));

    let bytes = reader.read_all();
    let read_data = String::from_utf8(bytes).expect("read into HashedReader failed");

    assert_eq!(data, read_data);
    assert_eq!(data_crc32, reader.compute_hash());
}
