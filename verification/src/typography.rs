use vstd::prelude::*;

use crate::color::Color;
use crate::display::{on_screen, KeyboardDisplay};

verus! {

/// A variation of text style.
#[derive(Clone, Copy, Debug, PartialEq, Eq, Structural)]
pub enum TextVariant {
    Regular,
    Large,
    LargeBold,
}

/// Whether some "on" pixel of `pixels[..count]`, its coordinates taken as
/// `usize`, lies at `(x, y)`.
pub open spec fn lit_at(pixels: Seq<(i32, i32, bool)>, count: int, x: int, y: int) -> bool {
    exists|k: int|
        0 <= k < count && #[trigger] pixels[k].2 && pixels[k].0 as usize == x && pixels[k].1 as usize
            == y
}

/// Every on pixel among the first `count` is lit at its own coordinates, whatever
/// they are, and a position no such pixel names is not lit.
pub proof fn lemma_lit_at_exactly_on_pixels(pixels: Seq<(i32, i32, bool)>, count: int, x: int, y: int)
    requires
        0 <= count <= pixels.len(),
    ensures
        forall|k: int|
            0 <= k < count && #[trigger] pixels[k].2 ==> lit_at(
                pixels,
                count,
                pixels[k].0 as usize as int,
                pixels[k].1 as usize as int,
            ),
        (forall|k: int|
            0 <= k < count && #[trigger] pixels[k].2 ==> pixels[k].0 as usize != x || pixels[k].1 as usize
                != y) ==> !lit_at(pixels, count, x, y),
{
}

/// A drawing target for rendered text: on pixels become black on the display.
pub struct TextDisplayer<'a, T>(pub &'a mut T);

impl<'a, T: KeyboardDisplay> TextDisplayer<'a, T> {
    /// Wraps a display.
    pub fn new(v: &'a mut T) -> (displayer: Self)
        ensures
            *displayer.0 == *old(v),
            *final(displayer.0) == *final(v),
    {
        Self(v)
    }

    /// Draws rendered pixels `(x, y, on)`: each on pixel is drawn black at its
    /// coordinates taken as `usize`; off pixels are skipped.
    pub fn draw_iter(&mut self, pixels: &[(i32, i32, bool)])
        requires
            old(self).0.ignores_off_screen() || forall|k: int|
                0 <= k < pixels@.len() && #[trigger] pixels@[k].2 ==> on_screen(
                    pixels@[k].0 as usize as int,
                    pixels@[k].1 as usize as int,
                ),
        ensures
            *final(final(self).0) == *final(old(self).0),
            final(self).0.extras() == old(self).0.extras(),
            forall|k: int|
                0 <= k < pixels@.len() && #[trigger] pixels@[k].2 && on_screen(
                    pixels@[k].0 as usize as int,
                    pixels@[k].1 as usize as int,
                ) ==> final(self).0.pixel(pixels@[k].0 as usize as int, pixels@[k].1 as usize as int)
                    == Color::Black,
            forall|i: int, j: int|
                on_screen(i, j) ==> #[trigger] final(self).0.pixel(i, j) == if lit_at(
                    pixels@,
                    pixels@.len() as int,
                    i,
                    j,
                ) {
                    Color::Black
                } else {
                    old(self).0.pixel(i, j)
                },
    {
        let ghost before = *self.0;
        let mut n: usize = 0;
        while n < pixels.len()
            invariant
                n <= pixels@.len(),
                *final(self.0) == *final(old(self).0),
                self.0.extras() == before.extras(),
                self.0.ignores_off_screen() == before.ignores_off_screen(),
                before.ignores_off_screen() || forall|k: int|
                    0 <= k < pixels@.len() && #[trigger] pixels@[k].2 ==> on_screen(
                        pixels@[k].0 as usize as int,
                        pixels@[k].1 as usize as int,
                    ),
                forall|i: int, j: int|
                    on_screen(i, j) ==> #[trigger] self.0.pixel(i, j) == if lit_at(
                        pixels@,
                        n as int,
                        i,
                        j,
                    ) {
                        Color::Black
                    } else {
                        before.pixel(i, j)
                    },
            decreases pixels@.len() - n,
        {
            let (x, y, on) = pixels[n];
            if on {
                assert(pixels@[n as int].2);
                self.0.draw_pixel(x as usize, y as usize, Color::Black);
            }
            proof {
                assert forall|i: int, j: int| on_screen(i, j) implies #[trigger] self.0.pixel(i, j)
                    == if lit_at(pixels@, n + 1, i, j) {
                    Color::Black
                } else {
                    before.pixel(i, j)
                } by {
                    if lit_at(pixels@, n as int, i, j) {
                        let k = choose|k: int|
                            0 <= k < n && #[trigger] pixels@[k].2 && pixels@[k].0 as usize == i
                                && pixels@[k].1 as usize == j;
                        assert(0 <= k < n + 1 && pixels@[k].2 && pixels@[k].0 as usize == i
                            && pixels@[k].1 as usize == j);
                    }
                    if on && x as usize == i && y as usize == j {
                        assert(pixels@[n as int].2 && pixels@[n as int].0 as usize == i
                            && pixels@[n as int].1 as usize == j);
                    }
                    if lit_at(pixels@, n + 1, i, j) && !lit_at(pixels@, n as int, i, j) {
                        let k = choose|k: int|
                            0 <= k < n + 1 && #[trigger] pixels@[k].2 && pixels@[k].0 as usize == i
                                && pixels@[k].1 as usize == j;
                        assert(k == n);
                    }
                }
            }
            n = n + 1;
        }
    }
}

} // verus!
