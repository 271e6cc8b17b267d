use vstd::prelude::*;

use crate::color::Color;
use crate::display::{on_screen, KeyboardDisplay, DISPLAY_HEIGHT, DISPLAY_WIDTH};

verus! {

/// An in-memory display that keeps the color of every pixel.
pub struct VirtualDisplay {
    pixels: [[Color; DISPLAY_WIDTH]; DISPLAY_HEIGHT],
}

impl VirtualDisplay {
    /// Display width in pixels.
    pub const WIDTH: usize = 160;

    /// Display height in pixels.
    pub const HEIGHT: usize = 68;

    /// The color of pixel `(x, y)`.
    pub closed spec fn color_at(&self, x: int, y: int) -> Color {
        self.pixels[y][x]
    }

    /// A display with every pixel white.
    pub fn new() -> (display: Self)
        ensures
            forall|x: int, y: int| on_screen(x, y) ==> #[trigger] display.color_at(x, y) == Color::White,
    {
        VirtualDisplay { pixels: [[Color::White; DISPLAY_WIDTH]; DISPLAY_HEIGHT] }
    }

    /// The color of pixel `(x, y)`.
    pub fn get_pixel(&self, x: usize, y: usize) -> (color: Color)
        requires
            on_screen(x as int, y as int),
        ensures
            color == self.color_at(x as int, y as int),
    {
        self.pixels[y][x]
    }
}

impl KeyboardDisplay for VirtualDisplay {
    open spec fn pixel(&self, x: int, y: int) -> Color {
        self.color_at(x, y)
    }

    open spec fn extras(&self) -> Seq<u8> {
        Seq::empty()
    }

    open spec fn ignores_off_screen(&self) -> bool {
        false
    }

    fn skips_off_screen(&self) -> (skips: bool) {
        false
    }

    fn fill_white(&mut self) {
        let mut y: usize = 0;
        while y < DISPLAY_HEIGHT
            invariant
                y <= DISPLAY_HEIGHT,
                forall|i: int, j: int|
                    0 <= i < DISPLAY_WIDTH && 0 <= j < y ==> #[trigger] self.pixels[j][i] == Color::White,
            decreases DISPLAY_HEIGHT - y,
        {
            let mut x: usize = 0;
            while x < DISPLAY_WIDTH
                invariant
                    y < DISPLAY_HEIGHT,
                    x <= DISPLAY_WIDTH,
                    forall|i: int, j: int|
                        (0 <= i < DISPLAY_WIDTH && 0 <= j < y) || (j == y && 0 <= i < x)
                            ==> #[trigger] self.pixels[j][i] == Color::White,
                decreases DISPLAY_WIDTH - x,
            {
                self.pixels[y][x] = Color::White;
                x = x + 1;
            }
            y = y + 1;
        }
    }

    fn draw_pixel(&mut self, x: usize, y: usize, color: Color) {
        assert(!self.ignores_off_screen());
        assert(!old(self).ignores_off_screen());
        self.pixels[y][x] = color;
    }
}

} // verus!
