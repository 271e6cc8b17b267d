use niceview_lib::xbm::{define_line_value, parse_xbm, XbmError};

const BATTERY: &str = "#define battery_width 12\n\
#define battery_height 3\n\
static unsigned char battery_bits[] = {\n\
   0xff, 0x0f, 0x01, 0x08,\n\
   0xff, 0x0f };\n";

#[test]
fn parses_a_small_image() {
    let image = parse_xbm(BATTERY.as_bytes()).unwrap();
    assert_eq!(image.width, 12);
    assert_eq!(image.height, 3);
    assert_eq!(image.byte_width, 2);
    assert!(image.rows.iter().all(|row| row.len() == image.byte_width));
    assert_eq!(
        image.rows,
        vec![vec![0xff, 0x0f], vec![0x01, 0x08], vec![0xff, 0x0f]]
    );
}

#[test]
fn crlf_lines_and_extra_text() {
    let text = "/* icon */\r\n#define x_width 8\r\n#define x_height 2\r\nnoise\r\nstatic unsigned char x_bits[] = {\r\n0x81,0X7e\r\n};";
    // `0X7e` keeps its prefix: only a lowercase `0x` is trimmed.
    assert_eq!(parse_xbm(text.as_bytes()).err(), Some(XbmError::BadHexByte));
    let text = "/* icon */\r\n#define x_width 8\r\n#define x_height 2\r\nnoise\r\nstatic unsigned char x_bits[] = {\r\n0x81,0x7E\r\n};";
    let image = parse_xbm(text.as_bytes()).unwrap();
    assert_eq!(image.width, 8);
    assert_eq!(image.byte_width, 2);
    assert_eq!(image.rows, vec![vec![0x81, 0x7e]]);
}

#[test]
fn leftover_bytes_are_dropped() {
    let text = "#define a 16\n#define b 1\nstatic unsigned char c[] = {\n0x01, 0x02, 0x03 };";
    let image = parse_xbm(text.as_bytes()).unwrap();
    assert_eq!(image.byte_width, 3);
    assert_eq!(image.rows, vec![vec![0x01, 0x02, 0x03]]);
}

#[test]
fn repeated_hex_prefixes_are_trimmed() {
    let text = "#define a 7\n#define b 1\nstatic unsigned char c[] = {\n0x0x0a };";
    let image = parse_xbm(text.as_bytes()).unwrap();
    assert_eq!(image.rows, vec![vec![0x0a]]);
}

#[test]
fn each_error() {
    assert_eq!(parse_xbm(b"").err(), Some(XbmError::MissingWidthDefine));
    assert_eq!(
        parse_xbm(b"#define w twelve\n").err(),
        Some(XbmError::BadWidth)
    );
    assert_eq!(
        parse_xbm(b"#define w 12\n").err(),
        Some(XbmError::MissingHeightDefine)
    );
    assert_eq!(
        parse_xbm(b"#define w 12\n#define h -3\n").err(),
        Some(XbmError::BadHeight)
    );
    assert_eq!(
        parse_xbm(b"#define w 12\n#define h 3\n").err(),
        Some(XbmError::MissingData)
    );
    let short = parse_xbm(b"#define w 12\n#define h 3\nstatic unsigned char d[] = {\n0x01 };\n\n");
    assert_eq!(short.unwrap().rows, Vec::<Vec<u8>>::new());
    assert_eq!(
        parse_xbm(b"#define w 12\n#define h 3\nstatic unsigned char d[] = {\n0x01 }").err(),
        Some(XbmError::MissingSuffix)
    );
    assert_eq!(
        parse_xbm(b"#define w 12\n#define h 3\nstatic unsigned char d[] = {\n0x01, };").err(),
        Some(XbmError::BadHexByte)
    );
    assert_eq!(
        parse_xbm(b"#define w 12\n#define h 3\nstatic unsigned char d[] = {\n0x100 };").err(),
        Some(XbmError::BadHexByte)
    );
    let zero = parse_xbm(b"#define w 0\n#define h 1\nstatic unsigned char d[] = {\n0x01 };");
    assert_eq!(zero.unwrap().rows, vec![vec![0x01]]);
    let huge = format!(
        "#define w {}\n#define h 1\nstatic unsigned char d[] = {{\n0x01 }};",
        usize::MAX
    );
    let huge = parse_xbm(huge.as_bytes()).unwrap();
    assert_eq!(huge.byte_width, usize::MAX / 8 + 1);
    assert_eq!(huge.rows, Vec::<Vec<u8>>::new());
}

#[test]
fn define_values() {
    assert_eq!(define_line_value(b"#define icon_width 16"), Some(16));
    assert_eq!(define_line_value(b"#define icon_width +16"), Some(16));
    assert_eq!(define_line_value(b"#define icon_width 16 "), None);
    assert_eq!(define_line_value(b"#define icon_width 1_6"), None);
    assert_eq!(define_line_value(b"42"), Some(42));
}
