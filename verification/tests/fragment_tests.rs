//! Tests of the TLS record fragmenter: record framing, round trips, the
//! first-zero boundary rule, and SNI detection.

use nodpi::fragment::{extract_sni_position, fragment_random, fragment_sni};

/// Split a synthesized record stream into its record bodies, checking each
/// header on the way.
fn parse_record_bodies(out: &[u8]) -> Vec<Vec<u8>> {
    let mut bodies = Vec::new();
    let mut pos = 0;
    while pos < out.len() {
        assert!(out.len() - pos >= 5, "truncated record header");
        assert_eq!(out[pos], 0x16, "record type");
        assert_eq!(out[pos + 1], 0x03, "record version major");
        assert_eq!(out[pos + 2], 0x04, "record version minor");
        let len = (out[pos + 3] as usize) * 256 + out[pos + 4] as usize;
        assert!(pos + 5 + len <= out.len(), "length field exceeds stream");
        bodies.push(out[pos + 5..pos + 5 + len].to_vec());
        pos += 5 + len;
    }
    bodies
}

/// A body holding a valid single-hostname SNI block for `name`, padded
/// front and back.
fn body_with_sni(prefix: &[u8], name: &[u8], suffix: &[u8]) -> Vec<u8> {
    let mut body = prefix.to_vec();
    let n = name.len() as u8;
    body.extend_from_slice(&[0, 0, 0, n + 5, 0, n + 3, 0, 0, n]);
    body.extend_from_slice(name);
    body.extend_from_slice(suffix);
    body
}

#[test]
fn random_one_byte_body_gives_one_chunk_of_length_one() {
    let out = fragment_random(&[0x42]);
    assert_eq!(out, vec![0x16, 0x03, 0x04, 0x00, 0x01, 0x42]);
}

#[test]
fn random_round_trip_concatenates_to_original() {
    let data: Vec<u8> = (0u16..300).map(|i| (i % 251) as u8).collect();
    let out = fragment_random(&data);
    let bodies = parse_record_bodies(&out);
    let mut joined = Vec::new();
    for b in &bodies {
        assert!(b.len() >= 1, "random chunks are never empty");
        joined.extend_from_slice(b);
    }
    assert_eq!(joined, data);
}

#[test]
fn random_first_chunk_ends_after_first_zero() {
    let data = [7u8, 9, 0, 5, 0, 1, 2, 3, 4, 5, 6, 7, 8, 9, 10, 11];
    let out = fragment_random(&data);
    let bodies = parse_record_bodies(&out);
    assert_eq!(bodies[0], vec![7, 9, 0], "first chunk is first-zero index + 1 bytes");
}

#[test]
fn random_zero_at_front_gives_first_chunk_of_one() {
    let data = [0u8, 5, 6];
    let out = fragment_random(&data);
    let bodies = parse_record_bodies(&out);
    assert_eq!(bodies[0], vec![0]);
}

#[test]
fn random_empty_body_gives_empty_stream() {
    let out = fragment_random(&[]);
    assert!(out.is_empty());
}

#[test]
fn sni_without_extension_emits_nothing() {
    let data: Vec<u8> = (1u8..=100).collect();
    assert!(fragment_sni(&data).is_empty());
}

#[test]
fn sni_detects_hostname_window() {
    let body = body_with_sni(b"HELLO", b"dpi.test", b"TAIL");
    let (start, end) = extract_sni_position(&body).expect("SNI present");
    assert_eq!(&body[start..end], b"dpi.test");
    assert_eq!(start, 5 + 9);
}

#[test]
fn sni_emits_four_records_splitting_the_hostname() {
    let body = body_with_sni(b"PREFIX", b"dpi.test", b"SUFFIX");
    let out = fragment_sni(&body);
    let bodies = parse_record_bodies(&out);
    assert_eq!(bodies.len(), 4);
    // prefix is everything before the hostname: the pad plus the 9 marker
    // bytes of the SNI block
    assert_eq!(bodies[0].len(), 6 + 9);
    // ceiling split of the 8-byte hostname
    assert_eq!(bodies[1], b"dpi.".to_vec());
    assert_eq!(bodies[2], b"test".to_vec());
    assert_eq!(bodies[3], b"SUFFIX".to_vec());
    let mut joined = Vec::new();
    for b in &bodies {
        joined.extend_from_slice(b);
    }
    assert_eq!(joined, body);
}

#[test]
fn sni_odd_hostname_splits_with_longer_first_half() {
    let body = body_with_sni(b"", b"a.io", b"");
    // 4-byte name splits 2/2; try a 5-byte one for the ceiling
    let body5 = body_with_sni(b"", b"ab.io", b"");
    let out = fragment_sni(&body5);
    let bodies = parse_record_bodies(&out);
    assert_eq!(bodies[1], b"ab.".to_vec());
    assert_eq!(bodies[2], b"io".to_vec());
    let out4 = fragment_sni(&body);
    let bodies4 = parse_record_bodies(&out4);
    assert_eq!(bodies4[1], b"a.".to_vec());
    assert_eq!(bodies4[2], b"io".to_vec());
}

#[test]
fn sni_zero_length_chunks_are_framed() {
    // hostname at the very start and end: prefix covers only the 9 marker
    // bytes, the suffix record is empty
    let body = body_with_sni(b"", b"x.y", b"");
    let out = fragment_sni(&body);
    let bodies = parse_record_bodies(&out);
    assert_eq!(bodies.len(), 4);
    assert_eq!(bodies[0].len(), 9);
    assert_eq!(bodies[3].len(), 0);
}

#[test]
fn sni_rejects_window_past_buffer_end() {
    // marker bytes claim a 200-byte hostname that the buffer cannot hold
    let mut body = vec![0u8, 0, 0, 205, 0, 203, 0, 0, 200];
    body.extend_from_slice(b"short");
    assert!(extract_sni_position(&body).is_none());
    assert!(fragment_sni(&body).is_empty());
}

#[test]
fn sni_window_reaching_buffer_end_is_accepted() {
    let body = body_with_sni(b"PAD", b"end.example", b"");
    let (start, end) = extract_sni_position(&body).expect("SNI present");
    assert_eq!(end, body.len());
    assert_eq!(&body[start..end], b"end.example");
}

#[test]
fn random_handles_a_full_read_buffer() {
    let data: Vec<u8> = (0u16..2048).map(|i| (i % 256) as u8).collect();
    let out = fragment_random(&data);
    let bodies = parse_record_bodies(&out);
    assert_eq!(bodies[0], vec![0], "byte zero sits at index zero");
    let total: usize = bodies.iter().map(|b| b.len()).sum();
    assert_eq!(total, 2048);
}
