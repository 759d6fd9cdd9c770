use ppa6::backend::MockBackend;
use ppa6::doc::Document;
use ppa6::printer::Printer;
use ppa6::usbinfo::{is_printer_device, validate_topology, EndpointInfo, Topology};
use ppa6::PrinterError;

fn mock_printer(responses: Vec<Vec<u8>>) -> Printer<MockBackend> {
    Printer::new(MockBackend::new(responses))
}

const RESET_CMD: [u8; 16] = [
    0x10, 0xff, 0xfe, 0x01, 0x00, 0x00, 0x00, 0x00, 0x00, 0x00, 0x00, 0x00, 0x00, 0x00, 0x00, 0x00,
];
const TRAILING_CMD: [u8; 4] = [0x10, 0xff, 0xfe, 0x45];

#[test]
fn reset_sends_initialization_command() {
    let mut p = mock_printer(Vec::new());
    p.reset().unwrap();
    let sends = p.backend().sends();
    assert_eq!(sends.len(), 1);
    assert_eq!(sends[0], RESET_CMD.to_vec());
}

#[test]
fn queries_send_their_command_codes() {
    let mut p = mock_printer(vec![
        b"10.0.0.1".to_vec(),
        b"fw-1.2".to_vec(),
        b"SN123".to_vec(),
        b"hw-3".to_vec(),
        b"PeriPage".to_vec(),
    ]);
    assert_eq!(p.get_ip().unwrap(), "10.0.0.1");
    assert_eq!(p.get_firmware_ver().unwrap(), "fw-1.2");
    assert_eq!(p.get_serial().unwrap(), "SN123");
    assert_eq!(p.get_hardware_ver().unwrap(), "hw-3");
    assert_eq!(p.get_name().unwrap(), "PeriPage");
    let sends = p.backend().sends();
    assert_eq!(sends.len(), 5);
    assert_eq!(sends[0], vec![0x10, 0xff, 0x20, 0xf0]);
    assert_eq!(sends[1], vec![0x10, 0xff, 0x20, 0xf1]);
    assert_eq!(sends[2], vec![0x10, 0xff, 0x20, 0xf2]);
    assert_eq!(sends[3], vec![0x10, 0xff, 0x30, 0x10]);
    assert_eq!(sends[4], vec![0x10, 0xff, 0x30, 0x11]);
}

#[test]
fn query_string_replaces_invalid_utf8() {
    let mut p = mock_printer(vec![vec![0xff, b'h', b'i']]);
    assert_eq!(p.get_ip().unwrap(), "\u{fffd}hi");
}

#[test]
fn get_battery_reads_second_byte() {
    let mut p = mock_printer(vec![vec![0x00, 0x55]]);
    assert_eq!(p.get_battery().unwrap(), 85);
}

#[test]
fn get_battery_rejects_wrong_length() {
    let mut p = mock_printer(vec![vec![0x55]]);
    assert_eq!(p.get_battery(), Err(PrinterError::Response));
    let mut p = mock_printer(vec![vec![0x00, 0x55, 0x01]]);
    assert_eq!(p.get_battery(), Err(PrinterError::Response));
}

#[test]
fn get_mac_reads_first_six_of_twelve() {
    let echoed = vec![0xaa, 0xbb, 0xcc, 0xdd, 0xee, 0xff, 0xaa, 0xbb, 0xcc, 0xdd, 0xee, 0xff];
    let mut p = mock_printer(vec![echoed]);
    let mac = p.get_mac().unwrap();
    assert_eq!(mac.to_text(), "aa:bb:cc:dd:ee:ff");
}

#[test]
fn get_mac_rejects_short_response() {
    let mut p = mock_printer(vec![vec![0xaa, 0xbb]]);
    assert_eq!(p.get_mac(), Err(PrinterError::Response));
}

#[test]
fn set_concentration_accepts_exactly_three_levels() {
    for c in 0u8..=2 {
        let mut p = mock_printer(Vec::new());
        p.set_concentration(c).unwrap();
        let sends = p.backend().sends();
        assert_eq!(sends.len(), 1);
        assert_eq!(sends[0], vec![0x10, 0xff, 0x10, 0x00, c]);
    }
    for c in 3u8..=255 {
        let mut p = mock_printer(Vec::new());
        assert_eq!(p.set_concentration(c), Err(PrinterError::InvalidArgument));
        assert!(p.backend().sends().is_empty());
    }
}

#[test]
fn print_text_filters_to_printable_ascii_and_newline() {
    let mut p = mock_printer(Vec::new());
    p.print_text("hi\nthere\u{1F600}\x07 end\x1b").unwrap();
    let sends = p.backend().sends();
    assert_eq!(sends.len(), 1);
    assert_eq!(sends[0], b"hi\nthere end".to_vec());
}

#[test]
fn push_sends_feed_command() {
    let mut p = mock_printer(Vec::new());
    p.push(0x60).unwrap();
    let sends = p.backend().sends();
    assert_eq!(sends.len(), 1);
    assert_eq!(sends[0], vec![0x1b, 0x4a, 0x60]);
}

#[test]
fn print_image_rejects_bad_width_without_io() {
    let pixels = vec![0u8; 48];
    for width in [0u16, 1, 4, 12, 383] {
        let mut p = mock_printer(Vec::new());
        assert_eq!(p.print_image(&pixels, width), Err(PrinterError::InvalidArgument));
        assert!(p.backend().sends().is_empty());
    }
}

#[test]
fn print_image_rejects_height_over_255_without_io() {
    let pixels = vec![0u8; 48 * 256];
    let mut p = mock_printer(Vec::new());
    assert_eq!(p.print_image(&pixels, 384), Err(PrinterError::InvalidArgument));
    assert!(p.backend().sends().is_empty());
}

#[test]
fn print_image_rejects_partial_rows_without_io() {
    let pixels = vec![0u8; 100];
    let mut p = mock_printer(Vec::new());
    assert_eq!(p.print_image(&pixels, 384), Err(PrinterError::InvalidArgument));
    assert!(p.backend().sends().is_empty());
}

#[test]
fn print_image_sends_packet_and_trailing_command() {
    let pixels: Vec<u8> = (0..96u32).map(|i| i as u8).collect();
    let mut p = mock_printer(Vec::new());
    p.print_image(&pixels, 384).unwrap();
    let sends = p.backend().sends();
    assert_eq!(sends.len(), 2);
    let mut expected = vec![0x1d, 0x76, 0x30, 0x00, 0x30, 0x00, 0x02, 0x00];
    expected.extend_from_slice(&pixels);
    assert_eq!(sends[0], expected);
    assert_eq!(sends[1], TRAILING_CMD.to_vec());
}

#[test]
fn chunked_print_of_100_rows_issues_five_prints() {
    // A 384 x 100 all-zero buffer, chunked by 24 rows: ceil(100/24) = 5
    // image packets, 5 trailing commands, heights summing to 100.
    // The transport stands in for a device whose topology validated.
    assert!(validate_topology(&good_topology()).is_ok());
    let pixels = vec![0u8; 48 * 100];
    let mut p = mock_printer(Vec::new());
    p.reset().unwrap();
    p.print_image_chunked(&pixels, 384).unwrap();
    let sends = p.backend().sends();
    assert_eq!(sends.len(), 1 + 2 * 5);
    assert_eq!(sends[0], RESET_CMD.to_vec());
    let mut total_rows = 0usize;
    for k in 0..5 {
        let packet = &sends[1 + 2 * k];
        assert_eq!(&packet[0..6], &[0x1d, 0x76, 0x30, 0x00, 0x30, 0x00]);
        let height = packet[6] as usize;
        assert_eq!(packet[7], 0x00);
        assert_eq!(packet.len(), 8 + 48 * height);
        total_rows += height;
        assert_eq!(sends[2 + 2 * k], TRAILING_CMD.to_vec());
    }
    assert_eq!(total_rows, 100);
    // All but the last chunk hold 24 rows; the last holds the remainder.
    assert_eq!(sends[1][6], 24);
    assert_eq!(sends[7][6], 24);
    assert_eq!(sends[9][6], 4);
}

#[test]
fn chunked_print_rejects_zero_chunk_height() {
    let pixels = vec![0u8; 48];
    let mut p = mock_printer(Vec::new());
    assert_eq!(
        p.print_image_chunked_ext(&pixels, 384, 0, 0),
        Err(PrinterError::InvalidArgument)
    );
    assert!(p.backend().sends().is_empty());
}

#[test]
fn print_document_builds_one_packet_with_bands() {
    // One row: a single zero-padded 24-row band.
    let mut pixels = vec![0u8; 48];
    pixels[0] = 0xab;
    let doc = Document::new(pixels).unwrap();
    let mut p = mock_printer(Vec::new());
    p.print(&doc, false).unwrap();
    let sends = p.backend().sends();
    assert_eq!(sends.len(), 2);
    let packet = &sends[0];
    let preamble = [0x10, 0xff, 0xfe, 0x01, 0x1b, 0x40, 0x00, 0x1b, 0x4a, 0x60];
    assert_eq!(&packet[0..10], &preamble);
    assert_eq!(&packet[10..18], &[0x1d, 0x76, 0x30, 0x00, 0x30, 0x00, 24, 0x00]);
    assert_eq!(packet[18], 0xab);
    assert_eq!(packet.len(), 10 + 8 + 24 * 48);
    assert!(packet[19..].iter().all(|b| *b == 0));
    assert_eq!(sends[1], TRAILING_CMD.to_vec());
}

#[test]
fn print_document_trailing_feed_appends_blank_band() {
    let doc = Document::new(vec![0u8; 48]).unwrap();
    let mut p = mock_printer(Vec::new());
    p.print(&doc, true).unwrap();
    let sends = p.backend().sends();
    let packet = &sends[0];
    let body = 10 + 8 + 24 * 48;
    assert_eq!(packet.len(), body + 8 + 96 * 48);
    assert_eq!(&packet[body..body + 8], &[0x1d, 0x76, 0x30, 0x00, 0x30, 0x00, 96, 0x00]);
    assert!(packet[body + 8..].iter().all(|b| *b == 0));
}

#[test]
fn device_filter_matches_vendor_and_product() {
    assert!(is_printer_device(0x09c5, 0x0200));
    assert!(!is_printer_device(0x09c5, 0x0201));
    assert!(!is_printer_device(0x09c4, 0x0200));
    assert!(!is_printer_device(0, 0));
}

fn good_topology() -> Topology {
    Topology {
        num_configurations: 1,
        num_interfaces: 1,
        class_code: 7,
        sub_class_code: 1,
        protocol_code: 2,
        num_endpoints: 2,
        endpoint0: EndpointInfo { address: 0x81, direction_in: true, bulk: true },
        endpoint1: EndpointInfo { address: 0x02, direction_in: false, bulk: true },
    }
}

#[test]
fn topology_validation_accepts_expected_shape() {
    assert_eq!(validate_topology(&good_topology()), Ok((0x81, 0x02)));
}

#[test]
fn topology_validation_rejects_each_mismatch() {
    let mut t = good_topology();
    t.num_configurations = 2;
    assert_eq!(validate_topology(&t), Err(PrinterError::Validation));

    let mut t = good_topology();
    t.class_code = 3;
    assert_eq!(validate_topology(&t), Err(PrinterError::Validation));

    let mut t = good_topology();
    t.num_endpoints = 3;
    assert_eq!(validate_topology(&t), Err(PrinterError::Validation));

    let mut t = good_topology();
    t.endpoint0.direction_in = false;
    assert_eq!(validate_topology(&t), Err(PrinterError::Validation));

    let mut t = good_topology();
    t.endpoint1.bulk = false;
    assert_eq!(validate_topology(&t), Err(PrinterError::Validation));
}
