use niceview_lib::text_parse::{
    last_field, next_starting_with, parse_unsigned, remove_byte, split_bytes, split_lines,
    trim_hex_prefixes, LineCursor,
};

#[test]
fn lines_like_str_lines() {
    let text = "foo\nbar\n\r\nbaz\r";
    let expected: Vec<Vec<u8>> = text.lines().map(|l| l.as_bytes().to_vec()).collect();
    assert_eq!(split_lines(text.as_bytes()), expected);
    assert_eq!(split_lines(b"a\nb\n"), vec![b"a".to_vec(), b"b".to_vec()]);
    assert_eq!(split_lines(b""), Vec::<Vec<u8>>::new());
    assert_eq!(split_lines(b"\n"), vec![Vec::<u8>::new()]);
    assert_eq!(split_lines(b"x\r\ny"), vec![b"x".to_vec(), b"y".to_vec()]);
}

#[test]
fn cursor_moves_past_match() {
    let mut cursor = LineCursor::new(b"a\n#b 1\nc\n#b 2\n");
    assert_eq!(next_starting_with(&mut cursor, b"#b"), Ok(b"#b 1".to_vec()));
    assert_eq!(next_starting_with(&mut cursor, b"#b"), Ok(b"#b 2".to_vec()));
    assert_eq!(next_starting_with(&mut cursor, b"#b"), Err(()));
    assert_eq!(cursor.collect_rest(), Vec::<u8>::new());
}

#[test]
fn cursor_rest_joins_lines() {
    let mut cursor = LineCursor::new(b"start\n1,\n2 };\n");
    assert_eq!(next_starting_with(&mut cursor, b"start"), Ok(b"start".to_vec()));
    assert_eq!(cursor.collect_rest(), b"1,2 };".to_vec());
}

#[test]
fn numbers_like_from_str_radix() {
    assert_eq!(parse_unsigned(b"42", 10, u64::MAX), Some(42));
    assert_eq!(parse_unsigned(b"+42", 10, u64::MAX), Some(42));
    assert_eq!(parse_unsigned(b"", 10, u64::MAX), None);
    assert_eq!(parse_unsigned(b"+", 10, u64::MAX), None);
    assert_eq!(parse_unsigned(b"-1", 10, u64::MAX), None);
    assert_eq!(parse_unsigned(b"++1", 10, u64::MAX), None);
    assert_eq!(parse_unsigned(b"18446744073709551615", 10, u64::MAX), Some(u64::MAX));
    assert_eq!(parse_unsigned(b"18446744073709551616", 10, u64::MAX), None);
    assert_eq!(parse_unsigned(b"ff", 16, 255), Some(255));
    assert_eq!(parse_unsigned(b"FF", 16, 255), Some(255));
    assert_eq!(parse_unsigned(b"100", 16, 255), None);
    assert_eq!(parse_unsigned(b"0000ff", 16, 255), Some(255));
    assert_eq!(parse_unsigned(b"g", 16, 255), None);
    assert_eq!(parse_unsigned(b"a", 10, 255), None);
    for s in ["0", "7", "+9", "255", "256", "", "+", "x1", "1x"] {
        assert_eq!(
            parse_unsigned(s.as_bytes(), 10, 255).map(|v| v as u8),
            u8::from_str_radix(s, 10).ok()
        );
        assert_eq!(
            parse_unsigned(s.as_bytes(), 16, 255).map(|v| v as u8),
            u8::from_str_radix(s, 16).ok()
        );
    }
}

#[test]
fn fields_and_pieces() {
    assert_eq!(last_field(b"#define w 12"), b"12".to_vec());
    assert_eq!(last_field(b"nospace"), b"nospace".to_vec());
    assert_eq!(last_field(b"end "), Vec::<u8>::new());
    assert_eq!(remove_byte(b" a b ", b' '), b"ab".to_vec());
    assert_eq!(
        split_bytes(b"1,,2", b','),
        vec![b"1".to_vec(), Vec::new(), b"2".to_vec()]
    );
    assert_eq!(split_bytes(b"", b','), vec![Vec::<u8>::new()]);
    assert_eq!(trim_hex_prefixes(b"0x0xff"), b"ff".to_vec());
    assert_eq!(trim_hex_prefixes(b"0"), b"0".to_vec());
    assert_eq!(trim_hex_prefixes(b"x0x1"), b"x0x1".to_vec());
}
