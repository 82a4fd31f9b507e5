use fcp::frame::{decode_frame, encode_frame, parse_header, encode_header, FrameError, FrameHeader};

fn header(path: &str, size: u64, compressed: bool) -> FrameHeader {
    FrameHeader { relative_path: path.to_string(), size, modified_at: 1_700_000_000, compressed }
}

#[test]
fn round_trip_empty_payload() {
    let h = header("empty.bin", 0, false);
    let b = encode_frame(&h, &[]);
    let (h2, p) = decode_frame(&b).unwrap();
    assert_eq!(h2.relative_path, "empty.bin");
    assert_eq!(h2.size, 0);
    assert!(!h2.compressed);
    assert!(p.is_empty());
}

#[test]
fn round_trip_uncompressed() {
    let payload: Vec<u8> = (0..20000u32).map(|i| (i * 7 % 251) as u8).collect();
    let h = header("dir/data.bin", payload.len() as u64, false);
    let b = encode_frame(&h, &payload);
    let (h2, p) = decode_frame(&b).unwrap();
    assert_eq!(p, payload);
    assert_eq!(h2.modified_at, 1_700_000_000);
    assert_eq!(h2.size, 20000);
}

#[test]
fn round_trip_compressed() {
    let payload = vec![b'x'; 5000];
    let h = header("a.txt", 5000, true);
    let b = encode_frame(&h, &payload);
    assert!(b.len() < 5000, "a run of one byte compresses");
    let (h2, p) = decode_frame(&b).unwrap();
    assert!(h2.compressed);
    assert_eq!(p, payload);
}

#[test]
fn round_trip_compressed_empty() {
    let h = header("e.md", 0, true);
    let b = encode_frame(&h, &[]);
    let (_, p) = decode_frame(&b).unwrap();
    assert!(p.is_empty());
}

#[test]
fn corrupted_payload_byte_is_an_integrity_error() {
    let payload: Vec<u8> = (0..100u8).collect();
    let h = header("p.bin", 100, false);
    let b = encode_frame(&h, &payload);
    let hl = u32::from_be_bytes([b[0], b[1], b[2], b[3]]) as usize;
    let body_start = 4 + hl;
    for i in 0..payload.len() {
        let mut c = b.clone();
        c[body_start + i] ^= 0x01;
        assert_eq!(decode_frame(&c).unwrap_err(), FrameError::Integrity);
    }
}

#[test]
fn corrupted_footer_is_an_integrity_error() {
    let h = header("q.bin", 3, false);
    let mut b = encode_frame(&h, b"abc");
    let n = b.len();
    b[n - 1] ^= 0xff;
    assert_eq!(decode_frame(&b).unwrap_err(), FrameError::Integrity);
}

#[test]
fn truncated_frame_is_malformed() {
    let h = header("t.bin", 3, false);
    let b = encode_frame(&h, b"abc");
    assert_eq!(decode_frame(&b[..b.len() - 1]).unwrap_err(), FrameError::Malformed);
    assert_eq!(decode_frame(&[]).unwrap_err(), FrameError::Malformed);
}

#[test]
fn garbage_compressed_body_is_an_integrity_error() {
    let h = header("g.txt", 4, true);
    let hb = encode_header(&h);
    let mut b = Vec::new();
    b.extend_from_slice(&(hb.len() as u32).to_be_bytes());
    b.extend_from_slice(&hb);
    b.extend_from_slice(&[0xffu8, 0xff, 0xff, 0xff]);
    b.extend_from_slice(&36u32.to_be_bytes());
    b.extend_from_slice(&[0u8; 36]);
    assert_eq!(decode_frame(&b).unwrap_err(), FrameError::Integrity);
}

#[test]
fn corrupted_compressed_body_is_an_integrity_error() {
    let payload: Vec<u8> = (0..3000u32).map(|i| (i % 97) as u8).collect();
    let h = header("w.txt", payload.len() as u64, true);
    let b = encode_frame(&h, &payload);
    let hl = u32::from_be_bytes([b[0], b[1], b[2], b[3]]) as usize;
    let body_start = 4 + hl;
    let body_len = b.len() - 40 - body_start;
    for &i in &[0usize, 1, body_len / 2] {
        let mut c = b.clone();
        c[body_start + i] ^= 0xff;
        assert_eq!(decode_frame(&c).unwrap_err(), FrameError::Integrity, "body byte {}", i);
    }
}

#[test]
fn frame_layout_is_header_payload_footer() {
    let h = header("f.bin", 3, false);
    let hb = encode_header(&h);
    let b = encode_frame(&h, b"xyz");
    assert_eq!(b.len(), 4 + hb.len() + 3 + 4 + 36);
    assert_eq!(&b[..4], &(hb.len() as u32).to_be_bytes());
    assert_eq!(&b[4..4 + hb.len()], &hb[..]);
    assert_eq!(&b[4 + hb.len()..4 + hb.len() + 3], b"xyz");
    assert_eq!(&b[4 + hb.len() + 3..4 + hb.len() + 7], &36u32.to_be_bytes());
    let empty = encode_frame(&h, &[]);
    assert_eq!(empty.len(), 4 + hb.len() + 4 + 36);
}

#[test]
fn wrong_footer_length_is_malformed() {
    let h = header("m.bin", 3, false);
    let mut b = encode_frame(&h, b"abc");
    let n = b.len();
    b[n - 37] = 35;
    assert_eq!(decode_frame(&b).unwrap_err(), FrameError::Malformed);
}

#[test]
fn footer_holds_known_checksums() {
    let h = header("c.txt", 9, false);
    let b = encode_frame(&h, b"123456789");
    let n = b.len();
    let crc = u32::from_be_bytes([b[n - 36], b[n - 35], b[n - 34], b[n - 33]]);
    assert_eq!(crc, 0xCBF4_3926);
    let h2 = header("abc.txt", 3, false);
    let b2 = encode_frame(&h2, b"abc");
    let m = b2.len();
    assert_eq!(&b2[m - 32..m - 28], &[0xba, 0x78, 0x16, 0xbf]);
}

#[test]
fn header_layout_and_parse() {
    let h = header("é/x", 258, true);
    let hb = encode_header(&h);
    assert_eq!(&hb[..4], &[0, 0, 0, 4]);
    assert_eq!(hb.len(), 4 + 4 + 17);
    assert_eq!(hb[hb.len() - 1], 1);
    let p = parse_header(&hb).unwrap();
    assert_eq!(p.relative_path, "é/x");
    assert_eq!(p.size, 258);
    let mut bad = hb.clone();
    let last = bad.len() - 1;
    bad[last] = 2;
    assert!(parse_header(&bad).is_none());
    let mut bad_utf8 = hb.clone();
    bad_utf8[4] = 0xff;
    assert!(parse_header(&bad_utf8).is_none());
}
