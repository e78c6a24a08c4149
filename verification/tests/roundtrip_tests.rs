//! Writing archives and reading them back, whole and corrupted.

use zipcore::compression::Compression;
use zipcore::error::ZipError;
use zipcore::mem::ZipFileReader;
use zipcore::pipeline::{ZipEntryReader, ZipEntryReaderExt};
use zipcore::write::{EntryOptions, ZipFileWriter};

fn stored_archive(entries: &[(&str, &[u8])]) -> Vec<u8> {
    let mut writer = ZipFileWriter::new();
    for (name, data) in entries {
        let opts = EntryOptions::new(name.to_string(), Compression::Stored);
        writer.write_entry(opts, data).unwrap();
    }
    writer.close().unwrap()
}

fn read_entry(reader: &ZipFileReader, index: usize) -> Vec<u8> {
    let mut er = reader.entry_reader(index).unwrap();
    let mut buf = Vec::new();
    let entry = &reader.file().entries()[index];
    er.read_to_end_checked(&mut buf, entry).unwrap();
    buf
}

#[test]
fn stored_single_entry_roundtrip() {
    // S1: one Stored entry "a.txt" holding "foo bar".
    let bytes = stored_archive(&[("a.txt", b"foo bar")]);
    let reader = ZipFileReader::new(bytes).unwrap();
    let file = reader.file();
    assert_eq!(file.entries().len(), 1);
    let entry = &file.entries()[0];
    assert_eq!(entry.filename(), "a.txt");
    assert_eq!(entry.crc32(), 0xbe460134);
    assert_eq!(entry.uncompressed_size(), 7);
    assert_eq!(entry.compressed_size(), 7);
    assert_eq!(read_entry(&reader, 0), b"foo bar");
}

#[test]
fn deflate_zeros_roundtrip() {
    // S2: one Deflate entry holding 64 KiB of zero bytes.
    let zeros = vec![0u8; 65536];
    let mut writer = ZipFileWriter::new();
    let opts = EntryOptions::new("a.bin".to_string(), Compression::Deflate);
    writer.write_entry(opts, &zeros).unwrap();
    let bytes = writer.close().unwrap();
    let reader = ZipFileReader::new(bytes).unwrap();
    let entry = &reader.file().entries()[0];
    assert_eq!(entry.uncompressed_size(), 65536);
    assert!(entry.compressed_size() < 65536);
    assert_eq!(entry.crc32(), crc32fast::hash(&zeros));
    assert_eq!(read_entry(&reader, 0), zeros);
}

#[test]
fn deflate_payload_matches_flate2() {
    // The deflate wrapper really compresses: flate2 decodes its payload.
    let raw = b"hello hello hello hello hello";
    let mut writer = ZipFileWriter::new();
    let opts = EntryOptions::new("h.txt".to_string(), Compression::Deflate);
    writer.write_entry(opts, raw).unwrap();
    let bytes = writer.close().unwrap();
    let reader = ZipFileReader::new(bytes.clone()).unwrap();
    let entry = &reader.file().entries()[0];
    let meta_off = 0usize;
    // payload begins after the 30-byte local header and the 5-byte name
    let payload_start = meta_off + 30 + 5;
    let payload = &bytes[payload_start..payload_start + entry.compressed_size() as usize];
    assert_ne!(payload, raw.as_slice());
    let mut decoder = flate2::read::DeflateDecoder::new(payload);
    let mut decoded = Vec::new();
    std::io::Read::read_to_end(&mut decoder, &mut decoded).unwrap();
    assert_eq!(decoded, raw);
}

#[test]
fn multi_entry_roundtrip_in_order() {
    // P1: filenames and contents come back in writing order.
    let entries: &[(&str, &[u8])] = &[
        ("first.txt", b"alpha"),
        ("dir/second.bin", &[0u8, 1, 2, 3, 255]),
        ("\u{fc}bung.txt", "gr\u{fc}n".as_bytes()),
        ("empty", b""),
    ];
    let bytes = stored_archive(entries);
    let reader = ZipFileReader::new(bytes).unwrap();
    assert_eq!(reader.file().entries().len(), 4);
    for (i, (name, data)) in entries.iter().enumerate() {
        assert_eq!(reader.file().entries()[i].filename(), *name);
        assert_eq!(read_entry(&reader, i), *data);
    }
}

#[test]
fn local_header_offsets_hold_signatures() {
    // P10: each recorded offset points at a local file header signature.
    let bytes = stored_archive(&[("a", b"xx"), ("b", b"yyy"), ("c", b"")]);
    let reader = ZipFileReader::new(bytes.clone()).unwrap();
    for meta in reader.file().metas.iter() {
        let off = meta.file_offset.unwrap() as usize;
        assert_eq!(&bytes[off..off + 4], &[0x50, 0x4b, 0x03, 0x04]);
    }
}

#[test]
fn concurrent_entry_readers() {
    // P9: two overlapping readers on the memory facade both deliver their
    // bytes correctly, interleaved read by read.
    let bytes = stored_archive(&[("a", b"aaaaaaaaaa"), ("b", b"bbbbbbbbbb")]);
    let reader = ZipFileReader::new(bytes).unwrap();
    let mut r1 = reader.entry_reader(0).unwrap();
    let mut r2 = reader.entry_reader(1).unwrap();
    let mut got1 = Vec::new();
    let mut got2 = Vec::new();
    for _ in 0..4 {
        got1.extend_from_slice(&r1.read(3));
        got2.extend_from_slice(&r2.read(3));
    }
    assert_eq!(got1, b"aaaaaaaaaa");
    assert_eq!(got2, b"bbbbbbbbbb");
}

#[test]
fn mutated_payload_fails_crc_check() {
    // P2: flipping any payload byte makes the checked read fail.
    let bytes = stored_archive(&[("a.txt", b"foo bar")]);
    let payload_start = 30 + 5;
    for k in 0..7usize {
        let mut corrupt = bytes.clone();
        corrupt[payload_start + k] ^= 0x01;
        let reader = ZipFileReader::new(corrupt).unwrap();
        let mut er = reader.entry_reader(0).unwrap();
        let mut buf = Vec::new();
        let entry = &reader.file().entries()[0];
        let r = er.read_to_end_checked(&mut buf, entry);
        assert!(matches!(r, Err(ZipError::CRC32CheckError)), "payload byte {}", k);
    }
}

#[test]
fn checked_string_read() {
    let bytes = stored_archive(&[("a.txt", b"foo bar")]);
    let reader = ZipFileReader::new(bytes).unwrap();
    let mut er = reader.entry_reader(0).unwrap();
    let mut s = String::new();
    let entry = &reader.file().entries()[0];
    assert_eq!(er.read_to_string_checked(&mut s, entry).unwrap(), 7);
    assert_eq!(s, "foo bar");
}

#[test]
fn entry_comment_and_extra_roundtrip() {
    let mut writer = ZipFileWriter::new();
    let opts = EntryOptions::new("x".to_string(), Compression::Stored)
        .extra(vec![1u8, 2, 3])
        .comment("a note".to_string());
    writer.write_entry(opts, b"payload").unwrap();
    let bytes = writer.close().unwrap();
    let reader = ZipFileReader::new(bytes).unwrap();
    let entry = &reader.file().entries()[0];
    assert_eq!(entry.extra_field(), &[1u8, 2, 3]);
    assert_eq!(entry.comment(), "a note");
}

#[test]
fn stream_write_entry_roundtrip() {
    // The streamed path: local header first, data descriptor after the
    // payload, sizes and CRC only in the central directory.
    let mut writer = ZipFileWriter::new();
    writer
        .write_entry(EntryOptions::new("plain".to_string(), Compression::Stored), b"head")
        .unwrap();
    let mut stream = writer
        .stream_write_entry(EntryOptions::new("streamed".to_string(), Compression::Stored))
        .unwrap();
    stream.write_all(b"strea").unwrap();
    stream.write_all(b"med data").unwrap();
    let writer = stream.close().unwrap();
    let bytes = writer.close().unwrap();
    let reader = ZipFileReader::new(bytes.clone()).unwrap();
    let file = reader.file();
    assert_eq!(file.entries().len(), 2);
    let entry = &file.entries()[1];
    assert_eq!(entry.filename(), "streamed");
    assert_eq!(entry.uncompressed_size(), 13);
    assert_eq!(entry.crc32(), crc32fast::hash(b"streamed data"));
    // the local header records no sizes; the descriptor after the payload
    // carries them
    let off = file.metas[1].file_offset.unwrap() as usize;
    assert_eq!(&bytes[off..off + 4], &[0x50, 0x4b, 0x03, 0x04]);
    let dd = off + 30 + "streamed".len() + 13;
    assert_eq!(&bytes[dd..dd + 4], &[0x50, 0x4b, 0x07, 0x08]);
}

#[test]
fn empty_archive_close() {
    // S3: closing a fresh writer emits exactly the 22-byte empty archive.
    let bytes = ZipFileWriter::new().close().unwrap();
    assert_eq!(
        bytes,
        vec![
            0x50u8, 0x4b, 0x05, 0x06, 0x00, 0x00, 0x00, 0x00, 0x00, 0x00, 0x00, 0x00, 0x00, 0x00,
            0x00, 0x00, 0x00, 0x00, 0x00, 0x00, 0x00, 0x00
        ]
    );
    let reader = ZipFileReader::new(bytes).unwrap();
    assert_eq!(reader.file().entries().len(), 0);
    assert_eq!(reader.file().comment(), "");
}

#[test]
fn entry_index_out_of_bounds() {
    let bytes = stored_archive(&[("a", b"x")]);
    let reader = ZipFileReader::new(bytes).unwrap();
    assert!(matches!(reader.entry_reader(1), Err(ZipError::EntryIndexOutOfBounds)));
}

#[test]
fn missing_compressed_size_for_stored_stream() {
    // S5: a Stored pipeline with no externally supplied limit cannot run.
    let stream = vec![1u8, 2, 3, 4, 5, 6, 7];
    let r = ZipEntryReader::new_with_owned(stream, 0, Compression::Stored, None);
    assert!(matches!(r, Err(ZipError::MissingCompressedSize)));
}

#[test]
fn stored_with_deferred_size_fails() {
    // S5: a Stored local header that defers its size to a data descriptor
    // leaves the pipeline without a limit.
    let mut bytes = stored_archive(&[("a.txt", b"foo bar")]);
    // the flag word sits 6 bytes into the local file header; set bit 3
    bytes[6] |= 0x08;
    let reader = ZipFileReader::new(bytes).unwrap();
    assert!(matches!(reader.entry_reader(0), Err(ZipError::MissingCompressedSize)));
}

#[test]
fn zip64_sentinel_in_local_header() {
    // S5: a local header claiming compressed_size 0xFFFFFFFF is rejected.
    let mut bytes = stored_archive(&[("a.txt", b"foo bar")]);
    // compressed_size sits 18 bytes into the local file header
    for k in 0..4usize {
        bytes[18 + k] = 0xff;
    }
    let reader = ZipFileReader::new(bytes).unwrap();
    assert!(matches!(reader.entry_reader(0), Err(ZipError::TargetZip64Unsupported)));
}

#[test]
fn unsupported_compression_in_write() {
    let mut writer = ZipFileWriter::new();
    let r = writer.write_entry(EntryOptions::new("a".to_string(), Compression::Zstd), b"x");
    assert!(matches!(r, Err(ZipError::FeatureNotSupported(_))));
}
