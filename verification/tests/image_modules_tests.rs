use niceview_lib::image_modules::{
    capitalize, join_capitalized, module_name_for_entry, split_name, variant_name,
};

#[test]
fn entries_that_are_modules() {
    assert_eq!(module_name_for_entry("battery_full.rs", true), Some("battery_full".to_string()));
    assert_eq!(module_name_for_entry("mod.rs", true), None);
    assert_eq!(module_name_for_entry("battery_full.rs", false), None);
    assert_eq!(module_name_for_entry("notes.txt", true), None);
    assert_eq!(module_name_for_entry("rs", true), None);
    assert_eq!(module_name_for_entry(".rs", true), Some(String::new()));
    assert_eq!(module_name_for_entry("ä.rs", true), Some("ä".to_string()));
}

#[test]
fn variant_names() {
    assert_eq!(variant_name("battery_three_quarter"), "BatteryThreeQuarter");
    assert_eq!(variant_name("bluetooth_disconnected"), "BluetoothDisconnected");
    assert_eq!(variant_name("BATTERY_full"), "BatteryFull");
    assert_eq!(variant_name("no__gap_"), "NoGap");
    assert_eq!(variant_name(""), "");
    assert_eq!(variant_name("ÄRGER_x"), "ärgerX");
}

#[test]
fn capitalize_first_only() {
    assert_eq!(capitalize("abc"), "Abc");
    assert_eq!(capitalize("aBC"), "ABC");
    assert_eq!(capitalize("1a"), "1a");
    assert_eq!(capitalize(""), "");
}

#[test]
fn split_and_join() {
    assert_eq!(split_name("a_bc__d"), vec!["a", "bc", "", "d"]);
    assert_eq!(split_name(""), vec![""]);
    let lowered = vec!["battery".to_string(), "".to_string(), "ärger".to_string(), "x1".to_string()];
    assert_eq!(join_capitalized(&lowered), "BatteryärgerX1");
}
