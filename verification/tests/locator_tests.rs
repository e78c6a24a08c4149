//! Reverse search and EOCDR location over in-memory archives.

use zipcore::error::ZipError;
use zipcore::locator::{locate_eocdr, reverse_search_buffer};

#[test]
fn search_one_byte_test() {
    let buffer: &[u8] = &[0x0, 0x0, 0x0, 0x0, 0x0, 0x0];
    let signature: &[u8] = &[0x1];

    let matched = reverse_search_buffer(buffer, signature);
    assert!(matched.is_none());

    let buffer: &[u8] = &[0x2, 0x1, 0x0, 0x0, 0x0, 0x0];
    let signature: &[u8] = &[0x1];

    let matched = reverse_search_buffer(buffer, signature);
    assert!(matched.is_some());
    assert!(matched.as_ref().unwrap().full_match);
    assert_eq!(1, matched.as_ref().unwrap().match_index);
}

#[test]
fn search_two_byte_test() {
    let buffer: &[u8] = &[0x2, 0x1, 0x0, 0x0, 0x0, 0x0];
    let signature: &[u8] = &[0x2, 0x1];

    let matched = reverse_search_buffer(buffer, signature);
    assert!(matched.is_some());
    assert!(matched.as_ref().unwrap().full_match);
    assert_eq!(1, matched.as_ref().unwrap().match_index);

    let buffer: &[u8] = &[0x1, 0x0, 0x0, 0x0, 0x0, 0x0];
    let signature: &[u8] = &[0x2, 0x1];

    let matched = reverse_search_buffer(buffer, signature);
    assert!(matched.is_some());
    assert!(!matched.as_ref().unwrap().full_match);
    assert_eq!(0, matched.as_ref().unwrap().match_index);
}

/// The 22 bytes of an empty archive: EOCDR signature and all-zero record.
fn empty_archive() -> Vec<u8> {
    let mut data = vec![0x50u8, 0x4b, 0x05, 0x06];
    data.extend_from_slice(&[0u8; 18]);
    data
}

/// An empty archive followed by a comment of `c` bytes of 0x20, with the
/// comment length recorded in the EOCDR.
fn empty_archive_with_comment(c: usize) -> Vec<u8> {
    let mut data = vec![0x50u8, 0x4b, 0x05, 0x06];
    data.extend_from_slice(&[0u8; 16]);
    data.push((c & 0xff) as u8);
    data.push((c >> 8) as u8);
    data.extend_from_slice(&vec![0x20u8; c]);
    data
}

#[test]
fn locate_empty_archive() {
    // The empty archive is exactly 22 bytes and its EOCDR sits at offset 0.
    let data = empty_archive();
    assert_eq!(data.len(), 22);
    assert_eq!(locate_eocdr(&data).unwrap(), 0);
}

#[test]
fn locate_short_input_fails() {
    // Anything under 22 bytes cannot hold an EOCDR.
    let data = vec![0x50u8, 0x4b, 0x05, 0x06];
    assert!(matches!(locate_eocdr(&data), Err(ZipError::UnableToLocateEOCDR)));
    let empty: Vec<u8> = Vec::new();
    assert!(matches!(locate_eocdr(&empty), Err(ZipError::UnableToLocateEOCDR)));
    let almost = vec![0u8; 21];
    assert!(matches!(locate_eocdr(&almost), Err(ZipError::UnableToLocateEOCDR)));
}

#[test]
fn locate_with_comment_lengths() {
    // An EOCDR trailed by c comment bytes is located at length - 22 - c.
    for c in [0usize, 1, 17, 18, 1000, 65535] {
        let data = empty_archive_with_comment(c);
        assert_eq!(locate_eocdr(&data).unwrap(), data.len() - 22 - c, "comment length {}", c);
    }
}

#[test]
fn locate_prefixed_archive() {
    // The chunked reverse scan crosses many buffer boundaries on the way.
    for pad in [1usize, 2047, 2048, 2049, 4096, 10000] {
        let mut data = vec![0u8; pad];
        data.extend_from_slice(&empty_archive_with_comment(1000));
        assert_eq!(locate_eocdr(&data).unwrap(), data.len() - 22 - 1000, "pad {}", pad);
    }
}

#[test]
fn locate_lower_bound_fails() {
    // 65 536 bytes of garbage after a valid EOCDR push it below the window.
    let mut data = empty_archive();
    data.extend_from_slice(&vec![0xaau8; 65536]);
    assert!(matches!(locate_eocdr(&data), Err(ZipError::UnableToLocateEOCDR)));
}

#[test]
fn locate_signature_straddles_chunks() {
    // Place the EOCDR so its signature straddles a scan chunk boundary: the
    // first chunk covers the last 2048 bytes before the final 18, so a
    // comment of 2046 puts two signature bytes in each chunk.
    for c in [2045usize, 2046, 2047, 2048] {
        let data = empty_archive_with_comment(c);
        assert_eq!(locate_eocdr(&data).unwrap(), data.len() - 22 - c, "comment length {}", c);
    }
}

#[test]
fn locate_corrupt_signature_fails() {
    // Corrupting any byte of the only EOCDR signature loses the record.
    for k in 0..4usize {
        let mut data = empty_archive();
        data[k] ^= 0xff;
        assert!(matches!(locate_eocdr(&data), Err(ZipError::UnableToLocateEOCDR)), "byte {}", k);
    }
}

#[test]
fn locate_returns_rightmost() {
    // With two EOCDR signatures in the window the later one wins.
    let mut data = empty_archive();
    data.extend_from_slice(&empty_archive());
    assert_eq!(locate_eocdr(&data).unwrap(), 22);
}
