use niceview_lib::text_db::{is_pixel_for_char, CHAR_HEIGHT, CHAR_WIDTH};

fn glyph(c: char) -> Vec<String> {
    (0..CHAR_HEIGHT)
        .map(|y| {
            (0..CHAR_WIDTH)
                .map(|x| if is_pixel_for_char(c, x, y) { '#' } else { '.' })
                .collect()
        })
        .collect()
}

#[test]
fn letter_h() {
    assert_eq!(
        glyph('H'),
        vec!["#...#", "#...#", "#...#", "#####", "#...#", "#...#", "#...#"]
    );
}

#[test]
fn letter_w_and_exclamation_mark() {
    assert_eq!(
        glyph('W'),
        vec!["#...#", "#...#", "#...#", "#...#", "#.#.#", "##.##", "#...#"]
    );
    assert_eq!(
        glyph('!'),
        vec![".....", "..#..", "..#..", "..#..", "..#..", ".....", "..#.."]
    );
}

#[test]
fn top_left_is_origin() {
    assert!(is_pixel_for_char('L', 0, 0));
    assert!(!is_pixel_for_char('L', 4, 0));
    assert!(is_pixel_for_char('L', 4, 6));
    assert!(!is_pixel_for_char('O', 0, 0));
    assert!(is_pixel_for_char('O', 1, 0));
}

#[test]
fn outside_the_cell_is_never_set() {
    assert!(!is_pixel_for_char('H', 5, 0));
    assert!(!is_pixel_for_char('H', 0, 7));
    assert!(!is_pixel_for_char('H', usize::MAX, usize::MAX));
}

#[test]
fn characters_without_glyph_are_never_set() {
    for c in ['\n', '\u{1f}', 'a', 'z', '[', '\u{e9}'] {
        for y in 0..CHAR_HEIGHT {
            for x in 0..CHAR_WIDTH {
                assert!(!is_pixel_for_char(c, x, y));
            }
        }
    }
}

#[test]
fn blank_glyphs() {
    assert!(glyph(' ').iter().all(|row| row == "....."));
    assert!(glyph('A').iter().all(|row| row == "....."));
}
