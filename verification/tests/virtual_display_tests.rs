use niceview_lib::virtual_display::VirtualDisplay;
use niceview_lib::{Color, KeyboardDisplay, TextDisplayer};

fn count(display: &VirtualDisplay, color: Color) -> usize {
    let mut n = 0;
    for y in 0..VirtualDisplay::HEIGHT {
        for x in 0..VirtualDisplay::WIDTH {
            if display.get_pixel(x, y) == color {
                n += 1;
            }
        }
    }
    n
}

#[test]
fn starts_white() {
    let display = VirtualDisplay::new();
    assert_eq!(count(&display, Color::White), 160 * 68);
}

#[test]
fn draw_and_fill() {
    let mut display = VirtualDisplay::new();
    display.draw_pixel(3, 4, Color::Black);
    assert_eq!(display.get_pixel(3, 4), Color::Black);
    assert_eq!(count(&display, Color::Black), 1);
    display.fill_white();
    assert_eq!(count(&display, Color::Black), 0);
}

#[test]
fn circle_on_virtual_display() {
    let mut display = VirtualDisplay::new();
    display.draw_circle(80, 34, Color::Black, 1);
    assert_eq!(count(&display, Color::Black), 5);
    assert_eq!(display.get_pixel(80, 34), Color::Black);
    assert_eq!(display.get_pixel(81, 34), Color::Black);
    assert_eq!(display.get_pixel(81, 35), Color::White);
}

#[test]
fn circle_clipped_at_corner() {
    let mut display = VirtualDisplay::new();
    display.draw_circle(0, 0, Color::Black, 2);
    assert_eq!(count(&display, Color::Black), 6);
}

#[test]
fn text_pixels_turn_black() {
    let mut display = VirtualDisplay::new();
    {
        let mut target = TextDisplayer::new(&mut display);
        target.draw_iter(&[(1, 2, true), (5, 5, false), (-1, 3, false), (200, 3, false), (159, 67, true)]);
    }
    assert_eq!(display.get_pixel(1, 2), Color::Black);
    assert_eq!(display.get_pixel(5, 5), Color::White);
    assert_eq!(display.get_pixel(159, 67), Color::Black);
    assert_eq!(count(&display, Color::Black), 2);
}

#[test]
fn only_the_frame_buffer_skips_off_screen_pixels() {
    assert!(!VirtualDisplay::new().skips_off_screen());
    assert!(niceview_lib::nice_view::NiceView::new().skips_off_screen());
}
