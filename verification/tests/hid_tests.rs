use niceview_lib::hid::{
    read_at_offset, read_battery_level, read_device_info, read_hid_information,
    read_hid_report, read_hid_report_map, read_protocol_mode, report_map, write_response,
    KeyboardReport,
};

const EXPECTED_MAP: [u8; 65] = [
    0x05, 0x01, 0x09, 0x06, 0xa1, 0x01, 0x85, 0x01, 0x05, 0x07, 0x19, 0xe0, 0x29, 0xe7, 0x15,
    0x00, 0x25, 0x01, 0x75, 0x01, 0x95, 0x08, 0x81, 0x02, 0x95, 0x01, 0x75, 0x08, 0x81, 0x01,
    0x95, 0x05, 0x75, 0x01, 0x05, 0x08, 0x19, 0x01, 0x29, 0x05, 0x91, 0x02, 0x95, 0x01, 0x75,
    0x03, 0x91, 0x01, 0x95, 0x06, 0x75, 0x08, 0x15, 0x00, 0x25, 0x65, 0x05, 0x07, 0x19, 0x00,
    0x29, 0x65, 0x81, 0x00, 0xc0,
];

#[test]
fn report_bytes() {
    let report = KeyboardReport { modifiers: 2, reserved: 0, key_codes: [4, 5, 6, 7, 8, 9] };
    assert_eq!(report.to_bytes(), [2, 0, 4, 5, 6, 7, 8, 9]);
    assert_eq!(KeyboardReport::for_button(true).to_bytes(), [0, 0, 4, 0, 0, 0, 0, 0]);
    assert_eq!(KeyboardReport::for_button(false).to_bytes(), [0; 8]);
}

#[test]
fn keyboard_report_map() {
    assert_eq!(report_map(), EXPECTED_MAP.to_vec());
}

#[test]
fn report_map_reads_by_offset() {
    let mut buf = [0xeeu8; 10];
    assert_eq!(read_hid_report_map(0, &mut buf), 10);
    assert_eq!(buf, EXPECTED_MAP[..10]);
    let mut buf = [0xeeu8; 10];
    assert_eq!(read_hid_report_map(60, &mut buf), 5);
    assert_eq!(buf[..5], EXPECTED_MAP[60..]);
    assert_eq!(buf[5..], [0xee; 5]);
    let mut buf = [0xeeu8; 4];
    assert_eq!(read_hid_report_map(65, &mut buf), 0);
    assert_eq!(buf, [0xee; 4]);
}

#[test]
fn offset_copy() {
    let mut buf = [0u8; 3];
    assert_eq!(read_at_offset(&[1, 2, 3, 4], 1, &mut buf), 3);
    assert_eq!(buf, [2, 3, 4]);
    let mut empty: [u8; 0] = [];
    assert_eq!(read_at_offset(&[1, 2], 0, &mut empty), 0);
}

#[test]
fn responses_fill_what_fits() {
    let mut buf = [0u8; 8];
    assert_eq!(read_hid_information(&mut buf), 4);
    assert_eq!(buf, [0x11, 0x01, 0x00, 0x01, 0, 0, 0, 0]);
    let mut small = [0u8; 2];
    assert_eq!(read_device_info(&mut small), 2);
    assert_eq!(small, [0x02, 0x8a]);
    let mut buf = [9u8; 9];
    assert_eq!(read_hid_report(&mut buf), 8);
    assert_eq!(buf, [0, 0, 0, 0, 0, 0, 0, 0, 9]);
    let mut one = [0u8; 1];
    assert_eq!(read_protocol_mode(&mut one), 1);
    assert_eq!(one, [1]);
    assert_eq!(read_battery_level(&mut one), 1);
    assert_eq!(one, [100]);
}

#[test]
fn full_buffer_counts_zero() {
    let mut empty: [u8; 0] = [];
    assert_eq!(read_battery_level(&mut empty), 0);
    assert_eq!(write_response(&mut empty, &[]), 0);
    let mut buf = [7u8; 2];
    assert_eq!(write_response(&mut buf, &[]), 0);
    assert_eq!(buf, [7, 7]);
}
