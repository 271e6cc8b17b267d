use niceview_lib::ble::{advertising_data, next_tick, AdvertiseError, ADV_DATA_LEN};

#[test]
fn advertisement_bytes() {
    let mut adv = [0u8; ADV_DATA_LEN];
    let n = advertising_data(&mut adv).unwrap();
    assert_eq!(n, 26);
    let mut expected = vec![0x02, 0x01, 0x07, 0x03, 0x03, 0x0f, 0x18, 18, 0x09];
    expected.extend_from_slice(b"Your mom's a hoe!");
    assert_eq!(adv[..n].to_vec(), expected);
    assert_eq!(adv[n..], [0u8; 5]);
}

#[test]
fn advertisement_needs_room() {
    let mut small = [0u8; 25];
    assert_eq!(advertising_data(&mut small), Err(AdvertiseError::InsufficientSpace));
    let mut exact = [0u8; 26];
    assert_eq!(advertising_data(&mut exact), Ok(26));
}

#[test]
fn tick_wraps() {
    assert_eq!(next_tick(0), 1);
    assert_eq!(next_tick(254), 255);
    assert_eq!(next_tick(255), 0);
}
