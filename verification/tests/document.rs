use ppa6::chunk::split_chunks;
use ppa6::doc::{test_page, Document, DocumentError};
use ppa6::proto::{parse_battery, parse_mac, MacAddr};
use ppa6::PrinterError;

#[test]
fn document_accepts_multiple_of_48() {
    let doc = Document::new(vec![0u8; 96]).unwrap();
    assert_eq!(doc.width(), 384);
    assert_eq!(doc.height(), 2);
    assert_eq!(doc.pixels().len(), 96);
}

#[test]
fn document_accepts_empty_buffer() {
    let doc = Document::new(Vec::new()).unwrap();
    assert_eq!(doc.height(), 0);
}

#[test]
fn document_rejects_other_lengths() {
    for len in [1usize, 47, 49, 50, 95, 100] {
        let r = Document::new(vec![0u8; len]);
        let expected = (len / 48) * 48;
        assert_eq!(r.err().unwrap(), DocumentError::Len(expected, len));
    }
}

#[test]
fn document_get_matches_packed_bits() {
    // Set pixel (0, 0): byte 0, mask 128.
    // Set pixel (9, 1): byte (1*384+9)/8 = 49, mask 128 >> 1 = 64.
    let mut pixels = vec![0u8; 96];
    pixels[0] = 0b1000_0000;
    pixels[49] = 0b0100_0000;
    let doc = Document::new(pixels).unwrap();
    assert_eq!(doc.get(0, 0), Some(true));
    assert_eq!(doc.get(1, 0), Some(false));
    assert_eq!(doc.get(9, 1), Some(true));
    assert_eq!(doc.get(8, 1), Some(false));
    assert_eq!(doc.get(10, 1), Some(false));
}

#[test]
fn document_get_out_of_bounds_is_none() {
    let doc = Document::new(vec![0u8; 48]).unwrap();
    assert_eq!(doc.get(384, 0), None);
    assert_eq!(doc.get(0, 1), None);
    assert_eq!(doc.get(usize::MAX, usize::MAX), None);
}

#[test]
fn chunking_counts_and_sizes() {
    // 100 rows of 48 bytes, chunked by 24 rows: ceil(100/24) = 5 chunks.
    let pixels: Vec<u8> = (0..4800u32).map(|i| (i % 251) as u8).collect();
    let chunks = split_chunks(&pixels, 24 * 48);
    assert_eq!(chunks.len(), 5);
    for c in chunks.iter().take(4) {
        assert_eq!(c.len(), 24 * 48);
    }
    assert_eq!(chunks[4].len(), 4 * 48);
    let concat: Vec<u8> = chunks.concat();
    assert_eq!(concat, pixels);
}

#[test]
fn chunking_exact_multiple_keeps_full_last_chunk() {
    let pixels = vec![7u8; 2 * 1152];
    let chunks = split_chunks(&pixels, 1152);
    assert_eq!(chunks.len(), 2);
    assert_eq!(chunks[0].len(), 1152);
    assert_eq!(chunks[1].len(), 1152);
}

#[test]
fn chunking_empty_buffer_yields_no_chunks() {
    let chunks = split_chunks(&[], 1152);
    assert!(chunks.is_empty());
}

#[test]
fn battery_response_two_bytes() {
    assert_eq!(parse_battery(&[0x00, 0x55]), Ok(0x55));
}

#[test]
fn battery_response_wrong_lengths_rejected() {
    assert_eq!(parse_battery(&[0x55]), Err(PrinterError::Response));
    assert_eq!(parse_battery(&[0x00, 0x55, 0x01]), Err(PrinterError::Response));
    assert_eq!(parse_battery(&[]), Err(PrinterError::Response));
}

#[test]
fn mac_response_first_six_bytes() {
    let m = parse_mac(&[0xaa, 0xbb, 0xcc, 0xdd, 0xee, 0xff, 0xaa, 0xbb]).unwrap();
    assert_eq!(m.0, [0xaa, 0xbb, 0xcc, 0xdd, 0xee, 0xff]);
    assert_eq!(m.to_text(), "aa:bb:cc:dd:ee:ff");
}

#[test]
fn mac_response_short_rejected() {
    assert_eq!(
        parse_mac(&[0xaa, 0xbb, 0xcc, 0xdd, 0xee]),
        Err(PrinterError::Response)
    );
}

#[test]
fn mac_text_uses_two_lowercase_hex_digits() {
    let m = MacAddr([0x00, 0x01, 0x0f, 0x10, 0x9a, 0xf0]);
    assert_eq!(m.to_text(), "00:01:0f:10:9a:f0");
}

#[test]
fn test_page_shape_and_pattern() {
    let doc = test_page();
    assert_eq!(doc.height(), 384);
    let pixels = doc.pixels();
    assert_eq!(pixels.len(), 48 * 384);
    assert_eq!(pixels[0], 0xff);
    assert_eq!(pixels[1], 0x00);
    // Offset 48 * 8 starts an odd eight-row band: blank.
    assert_eq!(pixels[48 * 8], 0x00);
    assert_eq!(pixels[48 * 16], 0xff);
}
