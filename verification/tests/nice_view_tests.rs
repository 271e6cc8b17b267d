use niceview_lib::nice_view::{NiceView, COMMAND_CLEAR, COMMAND_WRITE, DRAW_CMD_BYTES};
use niceview_lib::{Color, KeyboardDisplay, TextDisplayer};

fn octet(frame: &[u8], x: usize, y: usize) -> u8 {
    frame[2 + 22 * y + x / 8]
}

fn is_white(frame: &[u8], x: usize, y: usize) -> bool {
    (octet(frame, x, y) >> (x % 8)) & 1 == 1
}

#[test]
fn new_frame_layout() {
    let mut view = NiceView::new();
    let frame = view.flush_bytes();
    assert_eq!(frame.len(), DRAW_CMD_BYTES);
    assert_eq!(frame.len(), 1498);
    assert_eq!(frame[0], COMMAND_WRITE);
    for y in 0..68 {
        assert_eq!(frame[1 + 22 * y], y as u8);
        for k in 0..20 {
            assert_eq!(frame[2 + 22 * y + k], 0);
        }
        assert_eq!(frame[22 + 22 * y], 0);
    }
    assert_eq!(frame[1497], 0);
}

#[test]
fn clear_command() {
    assert_eq!(NiceView::clear_bytes(), [COMMAND_CLEAR, 0]);
    assert_eq!(NiceView::clear_bytes(), [0x04, 0x00]);
}

#[test]
fn white_pixel_sets_its_bit() {
    let mut view = NiceView::new();
    view.draw_pixel(10, 3, Color::White);
    let frame = view.flush_bytes();
    assert_eq!(frame[2 + 22 * 3 + 1], 0b0000_0100);
    assert!(is_white(&frame, 10, 3));
    assert!(!is_white(&frame, 11, 3));
    assert!(!is_white(&frame, 10, 4));
}

#[test]
fn black_pixel_clears_its_bit() {
    let mut view = NiceView::new();
    view.fill_white();
    view.draw_pixel(159, 67, Color::Black);
    let frame = view.flush_bytes();
    assert_eq!(frame[2 + 22 * 67 + 19], 0b0111_1111);
    assert!(!is_white(&frame, 159, 67));
    assert!(is_white(&frame, 158, 67));
    assert_eq!(frame[1 + 22 * 67], 67);
}

#[test]
fn fill_white_sets_every_octet() {
    let mut view = NiceView::new();
    view.fill_white();
    let frame = view.flush_bytes();
    for y in 0..68 {
        for k in 0..20 {
            assert_eq!(frame[2 + 22 * y + k], 0xff);
        }
        assert_eq!(frame[1 + 22 * y], y as u8);
        assert_eq!(frame[22 + 22 * y], 0);
    }
}

#[test]
fn pixel_outside_screen_is_ignored() {
    let mut view = NiceView::new();
    let before = view.flush_bytes();
    view.draw_pixel(160, 0, Color::White);
    view.draw_pixel(0, 68, Color::White);
    view.draw_pixel(usize::MAX, usize::MAX, Color::White);
    assert_eq!(view.flush_bytes(), before);
}

#[test]
fn circle_is_a_disc() {
    let mut view = NiceView::new();
    view.draw_circle(20, 10, Color::White, 2);
    let frame = view.flush_bytes();
    let mut lit = Vec::new();
    for y in 0..68 {
        for x in 0..160 {
            if is_white(&frame, x, y) {
                lit.push((x, y));
            }
        }
    }
    assert_eq!(lit.len(), 13);
    for (x, y) in lit {
        let (dx, dy) = (x as isize - 20, y as isize - 10);
        assert!(dx * dx + dy * dy <= 4);
    }
}

#[test]
fn circle_reaches_the_diagonal() {
    let mut view = NiceView::new();
    view.draw_circle(5, 5, Color::White, 3);
    let frame = view.flush_bytes();
    assert!(is_white(&frame, 7, 7));
    assert!(!is_white(&frame, 8, 7));
    assert!(is_white(&frame, 8, 5));
    assert!(!is_white(&frame, 9, 5));
    let mut lit = 0;
    for y in 0..68 {
        for x in 0..160 {
            if is_white(&frame, x, y) {
                lit += 1;
            }
        }
    }
    assert_eq!(lit, 29);
}

#[test]
fn circle_keeps_header() {
    let mut view = NiceView::new();
    view.draw_circle(80, 34, Color::White, 100);
    let frame = view.flush_bytes();
    for y in 0..68 {
        assert_eq!(frame[1 + 22 * y], y as u8);
        assert_eq!(frame[22 + 22 * y], 0);
        for k in 0..20 {
            assert_eq!(frame[2 + 22 * y + k], 0xff);
        }
    }
}

#[test]
fn huge_center_and_radius() {
    let mut view = NiceView::new();
    view.draw_circle(0, 0, Color::White, usize::MAX);
    let frame = view.flush_bytes();
    assert!(is_white(&frame, 0, 0));
    assert!(is_white(&frame, 159, 67));
    let mut other = NiceView::new();
    other.draw_circle(usize::MAX, usize::MAX, Color::White, usize::MAX);
    assert_eq!(other.flush_bytes(), NiceView::new().flush_bytes());
}

#[test]
fn circle_through_trait_matches() {
    let mut a = NiceView::new();
    let mut b = NiceView::new();
    a.draw_circle(0, 0, Color::White, 5);
    KeyboardDisplay::draw_circle(&mut b, 0, 0, Color::White, 5);
    assert_eq!(a.flush_bytes(), b.flush_bytes());
}

#[test]
fn circle_with_far_center_draws_nothing() {
    let mut view = NiceView::new();
    let before = view.flush_bytes();
    view.draw_circle(1000, 1000, Color::White, 10);
    assert_eq!(view.flush_bytes(), before);
}

#[test]
fn color_bytes() {
    assert_eq!(Color::Black.to_byte(), 0);
    assert_eq!(Color::White.to_byte(), 0xff);
}

#[test]
fn text_off_screen_is_skipped_on_nice_view() {
    let mut view = NiceView::new();
    view.fill_white();
    {
        let mut target = TextDisplayer::new(&mut view);
        target.draw_iter(&[(1, 2, true), (5, 5, false), (-1, 3, true), (200, 3, true), (159, 67, true)]);
    }
    let frame = view.flush_bytes();
    let mut black = 0;
    for y in 0..68 {
        for x in 0..160 {
            if !is_white(&frame, x, y) {
                black += 1;
            }
        }
    }
    assert!(!is_white(&frame, 1, 2));
    assert!(!is_white(&frame, 159, 67));
    assert!(is_white(&frame, 5, 5));
    assert_eq!(black, 2);
}

#[test]
fn last_drawn_color_wins() {
    let mut twice = NiceView::new();
    twice.draw_pixel(10, 3, Color::White);
    twice.draw_pixel(10, 3, Color::Black);
    let mut once = NiceView::new();
    once.draw_pixel(10, 3, Color::Black);
    assert_eq!(twice.flush_bytes(), once.flush_bytes());
    let mut again = NiceView::new();
    again.draw_pixel(10, 3, Color::White);
    again.draw_pixel(10, 3, Color::White);
    let mut single = NiceView::new();
    single.draw_pixel(10, 3, Color::White);
    assert_eq!(again.flush_bytes(), single.flush_bytes());
}

#[test]
fn pixels_in_one_octet_commute() {
    let mut a = NiceView::new();
    a.fill_white();
    a.draw_pixel(10, 3, Color::Black);
    a.draw_pixel(11, 3, Color::White);
    a.draw_pixel(12, 3, Color::Black);
    let mut b = NiceView::new();
    b.fill_white();
    b.draw_pixel(12, 3, Color::Black);
    b.draw_pixel(11, 3, Color::White);
    b.draw_pixel(10, 3, Color::Black);
    let frame = a.flush_bytes();
    assert_eq!(frame, b.flush_bytes());
    assert_eq!(frame[2 + 22 * 3 + 1], 0b1110_1011);
}

#[test]
fn line_numbers_survive_every_operation() {
    let mut view = NiceView::new();
    view.fill_white();
    view.draw_circle(80, 34, Color::Black, 30);
    view.draw_pixel(0, 0, Color::White);
    let _ = view.flush_bytes();
    let frame = view.flush_bytes();
    for n in 0..68 {
        assert_eq!(frame[1 + 22 * n], n as u8);
        assert_eq!(frame[22 * n + 22], 0);
    }
    assert_eq!(frame[1497], 0);
}
