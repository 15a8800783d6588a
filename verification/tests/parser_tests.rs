use ogg_pages::parser::{parse_all_pages, parse_header, parse_page};
use ogg_pages::types::{GranulePosition, OggError};

/// Build one page with a correct stored checksum: the checksum is computed
/// by the library itself over the page with the checksum field zeroed, then
/// patched into bytes 22..26.
fn build_page(flags: u8, granule: u64, serial: u32, sequence: u32, segments: &[u8], payload: &[u8]) -> Vec<u8> {
    assert_eq!(payload.len(), segments.iter().map(|&b| b as usize).sum::<usize>());
    let mut buf = Vec::new();
    buf.extend_from_slice(&[0x4F, 0x67, 0x67, 0x53]);
    buf.push(0x00);
    buf.push(flags);
    buf.extend_from_slice(&granule.to_le_bytes());
    buf.extend_from_slice(&serial.to_le_bytes());
    buf.extend_from_slice(&sequence.to_le_bytes());
    buf.extend_from_slice(&[0, 0, 0, 0]);
    buf.push(segments.len() as u8);
    buf.extend_from_slice(segments);
    buf.extend_from_slice(payload);
    let digest = {
        let (page, _) = parse_page(&buf).unwrap();
        page.calc_crc()
    };
    buf[22..26].copy_from_slice(&digest.to_le_bytes());
    buf
}

#[test]
fn concrete_header_only_page() {
    // magic + version 0 + flags 0 + granule all-ones + serial 1 +
    // sequence 0 + computed checksum + segment count 0 and no payload.
    let buf = build_page(0x00, u64::MAX, 1, 0, &[], &[]);
    assert_eq!(buf.len(), 27);
    let (page, consumed) = parse_page(&buf).unwrap();
    assert_eq!(consumed, 27);
    assert_eq!(page.header.pos, GranulePosition::NoPosition);
    assert_eq!(page.header.serial_number, 1);
    assert_eq!(page.header.sequence_number, 0);
    assert_eq!(page.data.len(), 0);
    assert!(page.verify());
}

#[test]
fn parse_and_verify_page_with_payload() {
    let payload: Vec<u8> = (0..=9u8).chain(0..=4u8).collect();
    let buf = build_page(0x03, 1234567, 77, 3, &[10, 5], &payload);
    let (page, consumed) = parse_page(&buf).unwrap();
    assert_eq!(consumed, buf.len());
    assert_eq!(page.header.pos, GranulePosition::Position(1234567));
    assert_eq!(page.header.serial_number, 77);
    assert_eq!(page.header.sequence_number, 3);
    assert_eq!(page.header.segment_table, &[10u8, 5][..]);
    assert_eq!(page.header.get_data_size(), 15);
    assert_eq!(page.data, &payload[..]);
    assert!(page.verify());
}

#[test]
fn short_buffers_are_truncated() {
    assert_eq!(parse_header(&[]), Err(OggError::TruncatedInput));
    assert_eq!(parse_header(&[0x4F, 0x67]), Err(OggError::TruncatedInput));
    let short = [0u8; 26];
    assert_eq!(parse_header(&short), Err(OggError::TruncatedInput));
    assert_eq!(parse_page(&short), Err(OggError::TruncatedInput));
}

#[test]
fn wrong_magic_is_malformed() {
    let mut buf = build_page(0x00, 0, 1, 0, &[], &[]);
    buf[0] = 0x4E;
    assert_eq!(parse_header(&buf), Err(OggError::MalformedHeader));
    assert_eq!(parse_page(&buf), Err(OggError::MalformedHeader));
    let zeros = [0u8; 32];
    assert_eq!(parse_header(&zeros), Err(OggError::MalformedHeader));
}

#[test]
fn wrong_version_is_unsupported() {
    let mut buf = build_page(0x00, 0, 1, 0, &[], &[]);
    buf[4] = 0x01;
    assert_eq!(parse_header(&buf), Err(OggError::UnsupportedVersion));
    assert_eq!(parse_page(&buf), Err(OggError::UnsupportedVersion));
}

#[test]
fn missing_segment_table_is_truncated() {
    let mut buf = build_page(0x00, 0, 1, 0, &[], &[]);
    // Declare five table entries but provide none.
    buf[26] = 5;
    assert_eq!(parse_header(&buf), Err(OggError::TruncatedInput));
}

#[test]
fn missing_payload_is_truncated() {
    let mut buf = build_page(0x00, 0, 1, 0, &[3], &[7, 8, 9]);
    // The header still parses once the table is present; only the page
    // fails when the declared payload bytes are missing.
    buf.truncate(buf.len() - 2);
    assert!(parse_header(&buf).is_ok());
    assert_eq!(parse_page(&buf), Err(OggError::TruncatedInput));
}

#[test]
fn empty_buffer_yields_no_pages() {
    let pages = parse_all_pages(&[]).unwrap();
    assert_eq!(pages.len(), 0);
}

#[test]
fn three_consecutive_pages_all_parse_and_verify() {
    let mut buf = Vec::new();
    buf.extend_from_slice(&build_page(0x02, 0, 9, 0, &[], &[]));
    buf.extend_from_slice(&build_page(0x00, 48000, 9, 1, &[4], &[1, 2, 3, 4]));
    buf.extend_from_slice(&build_page(0x04, 96000, 9, 2, &[2, 1], &[5, 6, 7]));
    let pages = parse_all_pages(&buf).unwrap();
    assert_eq!(pages.len(), 3);
    for page in pages.iter() {
        assert_eq!(page.calc_crc(), page.header.crc32);
        assert!(page.verify());
    }
    assert_eq!(pages[0].header.sequence_number, 0);
    assert_eq!(pages[1].data, &[1u8, 2, 3, 4][..]);
    assert_eq!(pages[2].header.pos, GranulePosition::Position(96000));
}

#[test]
fn sequencing_reports_the_failing_offset() {
    let first = build_page(0x00, 0, 9, 0, &[1], &[42]);
    let first_len = first.len();
    let mut buf = first;
    buf.extend_from_slice(&[0u8; 32]);
    assert_eq!(parse_all_pages(&buf), Err((first_len, OggError::MalformedHeader)));
    let mut short = build_page(0x00, 0, 9, 0, &[], &[]);
    short.extend_from_slice(&[0x4F, 0x67]);
    assert_eq!(parse_all_pages(&short), Err((27, OggError::TruncatedInput)));
}

#[test]
fn flipped_payload_byte_fails_verify_but_parses() {
    let buf = build_page(0x00, 500, 7, 1, &[3], &[10, 20, 30]);
    for k in 28..31 {
        let mut damaged = buf.clone();
        damaged[k] ^= 0xFF;
        let (page, _) = parse_page(&damaged).unwrap();
        assert!(!page.verify());
    }
}

#[test]
fn flipped_header_bytes_fail_verify_but_parse() {
    let buf = build_page(0x01, 500, 7, 1, &[2], &[10, 20]);
    // Flags (5), granule (6..14), serial (14..18), sequence (18..22):
    // content bytes only, never the shape-giving magic, version or table.
    for k in 5..22 {
        let mut damaged = buf.clone();
        damaged[k] ^= 0x01;
        let (page, _) = parse_page(&damaged).unwrap();
        assert!(!page.verify(), "byte {} should break verification", k);
    }
}

#[test]
fn flipped_stored_checksum_fails_verify_but_parses() {
    let buf = build_page(0x00, 500, 7, 1, &[], &[]);
    for k in 22..26 {
        let mut damaged = buf.clone();
        damaged[k] ^= 0x10;
        let (page, _) = parse_page(&damaged).unwrap();
        assert!(!page.verify());
    }
}

#[test]
fn get_data_size_sums_the_segment_table() {
    let buf = build_page(0x00, 0, 1, 0, &[1, 2, 3], &[9, 9, 9, 9, 9, 9]);
    let (header, consumed) = parse_header(&buf).unwrap();
    assert_eq!(consumed, 30);
    assert_eq!(header.get_data_size(), 6);
}
