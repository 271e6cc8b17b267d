use niceview_lib::icons::{next_battery_mode, Icon, IconImages};
use niceview_lib::image::{convert_image_width_to_byte_width, Image, ImageIterator};

const SMALL: Image<10, 2, 3> = Image {
    rows: [[0x01, 0x02], [0x03, 0x04], [0x05, 0x06]],
};

const EMPTY: Image<4, 1, 0> = Image { rows: [] };

const ONE: Image<7, 1, 1> = Image { rows: [[0xaa]] };

fn drain(mut iter: ImageIterator<'static>) -> Vec<(usize, usize, u8)> {
    let mut out = Vec::new();
    while let Some(item) = iter.next() {
        out.push(item);
    }
    out
}

#[test]
fn byte_width_is_width_over_eight_plus_one() {
    assert_eq!(convert_image_width_to_byte_width(0), 1);
    assert_eq!(convert_image_width_to_byte_width(1), 1);
    assert_eq!(convert_image_width_to_byte_width(7), 1);
    assert_eq!(convert_image_width_to_byte_width(8), 2);
    assert_eq!(convert_image_width_to_byte_width(9), 2);
    assert_eq!(convert_image_width_to_byte_width(10), 2);
    assert_eq!(convert_image_width_to_byte_width(16), 3);
    assert_eq!(convert_image_width_to_byte_width(17), 3);
    assert_eq!(convert_image_width_to_byte_width(160), 21);
    assert_eq!(convert_image_width_to_byte_width(usize::MAX - 7), usize::MAX / 8 + 1);
    assert_eq!(convert_image_width_to_byte_width(usize::MAX), usize::MAX / 8 + 1);
}

#[test]
fn iterator_visits_rows_in_order() {
    let image: &'static Image<10, 2, 3> = &SMALL;
    let items = drain(image.to_iterator());
    assert_eq!(
        items,
        vec![
            (0, 0, 0x01),
            (1, 0, 0x02),
            (0, 1, 0x03),
            (1, 1, 0x04),
            (0, 2, 0x05),
            (1, 2, 0x06),
        ]
    );
}

#[test]
fn iterator_stays_done() {
    let image: &'static Image<7, 1, 1> = &ONE;
    let mut iter = image.to_iterator();
    assert_eq!(iter.next(), Some((0, 0, 0xaa)));
    assert_eq!(iter.next(), None);
    assert_eq!(iter.next(), None);
}

#[test]
fn empty_rows_give_nothing() {
    let image: &'static Image<4, 1, 0> = &EMPTY;
    assert_eq!(drain(image.to_iterator()), vec![]);
}

#[test]
fn icon_picks_its_image() {
    let small: &'static Image<10, 2, 3> = &SMALL;
    let one: &'static Image<7, 1, 1> = &ONE;
    let empty: &'static Image<4, 1, 0> = &EMPTY;
    let images = IconImages::new(
        one.to_iterator(),
        small.to_iterator(),
        empty.to_iterator(),
        empty.to_iterator(),
        small.to_iterator(),
        empty.to_iterator(),
    );
    assert_eq!(drain(Icon::BatteryFull.get_image(&images)), vec![(0, 0, 0xaa)]);
    assert_eq!(drain(Icon::BatteryThreeQuarter.get_image(&images)).len(), 6);
    assert_eq!(drain(Icon::BatteryHalf.get_image(&images)), vec![]);
    assert_eq!(drain(Icon::BluetoothConnected.get_image(&images))[5], (1, 2, 0x06));
    assert_eq!(drain(Icon::BluetoothDisconnected.get_image(&images)), vec![]);
}

#[test]
fn battery_icon_cycle() {
    let mut mode = 0u8;
    let mut shown = Vec::new();
    for _ in 0..6 {
        shown.push(Icon::for_battery_mode(mode));
        mode = next_battery_mode(mode);
    }
    assert_eq!(
        shown,
        vec![
            Icon::BatteryFull,
            Icon::BatteryThreeQuarter,
            Icon::BatteryHalf,
            Icon::BatteryQuarter,
            Icon::BatteryFull,
            Icon::BatteryThreeQuarter,
        ]
    );
    assert_eq!(Icon::for_battery_mode(200), Icon::BatteryQuarter);
    assert_eq!(next_battery_mode(3), 0);
    assert_eq!(next_battery_mode(7), 0);
}
