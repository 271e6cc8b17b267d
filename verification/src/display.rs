use vstd::prelude::*;

use crate::color::Color;

verus! {

/// Display width in pixels.
pub const DISPLAY_WIDTH: usize = 160;

/// Display height in pixels.
pub const DISPLAY_HEIGHT: usize = 68;

/// Whether `(x, y)` is a pixel of the screen.
pub open spec fn on_screen(x: int, y: int) -> bool {
    0 <= x < DISPLAY_WIDTH && 0 <= y < DISPLAY_HEIGHT
}

/// Whether `draw_circle` with these arguments paints pixel `(x, y)`: its squared
/// distance to the center is at most the squared radius.
pub open spec fn circle_covers(center_x: usize, center_y: usize, radius: usize, x: int, y: int) -> bool {
    (center_x - x) * (center_x - x) + (center_y - y) * (center_y - y) <= radius * radius
}

/// Whether the circle covers a pixel depends on nothing but the squared distance
/// between them: the center may lie anywhere, on the screen or past its edges.
pub proof fn lemma_circle_is_disc(center_x: usize, center_y: usize, radius: usize, x: int, y: int)
    ensures
        circle_covers(center_x, center_y, radius, x, y) <==> (x - center_x) * (x - center_x) + (y
            - center_y) * (y - center_y) <= radius * radius,
{
    assert((center_x - x) * (center_x - x) == (x - center_x) * (x - center_x)) by (nonlinear_arith);
    assert((center_y - y) * (center_y - y) == (y - center_y) * (y - center_y)) by (nonlinear_arith);
}

/// Every pixel in the center's row or column at most `radius` away is covered,
/// and none further away, wherever the center lies.
pub proof fn lemma_circle_axes(center_x: usize, center_y: usize, radius: usize, x: int, y: int)
    ensures
        y == center_y ==> (circle_covers(center_x, center_y, radius, x, y) <==> center_x - radius
            <= x <= center_x + radius),
        x == center_x ==> (circle_covers(center_x, center_y, radius, x, y) <==> center_y - radius
            <= y <= center_y + radius),
{
    let dx = center_x - x;
    let dy = center_y - y;
    let r = radius as int;
    assert(-r <= dx <= r <==> dx * dx <= r * r) by (nonlinear_arith)
        requires
            r >= 0,
    ;
    assert(-r <= dy <= r <==> dy * dy <= r * r) by (nonlinear_arith)
        requires
            r >= 0,
    ;
    assert(dx == 0 ==> dx * dx == 0) by (nonlinear_arith);
    assert(dy == 0 ==> dy * dy == 0) by (nonlinear_arith);
}

/// Moving the center and the pixel by the same offset keeps the pixel covered or
/// uncovered, and a larger radius covers everything a smaller one does.
pub proof fn lemma_circle_shift_and_grow(
    center_x: usize,
    center_y: usize,
    radius: usize,
    x: int,
    y: int,
    moved_x: usize,
    moved_y: usize,
    larger: usize,
)
    requires
        radius <= larger,
    ensures
        circle_covers(center_x, center_y, radius, x, y) == circle_covers(
            moved_x,
            moved_y,
            radius,
            x + (moved_x - center_x),
            y + (moved_y - center_y),
        ),
        circle_covers(center_x, center_y, radius, x, y) ==> circle_covers(
            center_x,
            center_y,
            larger,
            x,
            y,
        ),
{
    assert(radius * radius <= larger * larger) by (nonlinear_arith)
        requires
            radius <= larger,
    ;
}

/// The distance between two `usize` values, widened.
fn distance(a: usize, b: usize) -> (d: u128)
    ensures
        d as int == if a >= b {
            a - b
        } else {
            b - a
        },
        d <= usize::MAX,
{
    if a >= b {
        (a - b) as u128
    } else {
        (b - a) as u128
    }
}

/// Computes whether pixel `(x, y)` lies within `radius` of the center.
fn within_radius(center_x: usize, center_y: usize, x: usize, y: usize, radius: usize) -> (hit: bool)
    ensures
        hit == circle_covers(center_x, center_y, radius, x as int, y as int),
{
    let dx = distance(center_x, x);
    let dy = distance(center_y, y);
    let r = radius as u128;
    proof {
        assert(usize::MAX <= 0xffff_ffff_ffff_ffffu128);
        assert(dx * dx <= 0xffff_ffff_ffff_ffffu128 * 0xffff_ffff_ffff_ffffu128) by (nonlinear_arith)
            requires
                dx <= 0xffff_ffff_ffff_ffffu128,
        ;
        assert(dy * dy <= 0xffff_ffff_ffff_ffffu128 * 0xffff_ffff_ffff_ffffu128) by (nonlinear_arith)
            requires
                dy <= 0xffff_ffff_ffff_ffffu128,
        ;
        assert(r * r <= 0xffff_ffff_ffff_ffffu128 * 0xffff_ffff_ffff_ffffu128) by (nonlinear_arith)
            requires
                r <= 0xffff_ffff_ffff_ffffu128,
        ;
        let ix = center_x - x;
        let iy = center_y - y;
        assert(ix * ix == dx * dx) by (nonlinear_arith)
            requires
                dx == ix || dx == -ix,
        ;
        assert(iy * iy == dy * dy) by (nonlinear_arith)
            requires
                dy == iy || dy == -iy,
        ;
    }
    let dx2: u128 = dx * dx;
    let dy2: u128 = dy * dy;
    let r2: u128 = r * r;
    if dx2 > r2 {
        false
    } else {
        dy2 <= r2 - dx2
    }
}

/// A display used on the keyboard.
pub trait KeyboardDisplay: Sized {
    /// The color the display shows at pixel `(x, y)`.
    spec fn pixel(&self, x: int, y: int) -> Color;

    /// Whatever the display keeps besides its pixels; drawing leaves it alone.
    spec fn extras(&self) -> Seq<u8>;

    /// Whether the display ignores a pixel outside the screen; a display that
    /// does not may be drawn on only inside the screen.
    spec fn ignores_off_screen(&self) -> bool;

    /// Tells whether the display ignores a pixel outside the screen.
    fn skips_off_screen(&self) -> (skips: bool)
        ensures
            skips == self.ignores_off_screen(),
    ;

    /// Fill the entire screen with white.
    fn fill_white(&mut self)
        ensures
            forall|x: int, y: int|
                on_screen(x, y) ==> #[trigger] final(self).pixel(x, y) == Color::White,
            final(self).extras() == old(self).extras(),
    ;

    /// Set the color for a particular pixel.
    fn draw_pixel(&mut self, x: usize, y: usize, color: Color)
        requires
            on_screen(x as int, y as int) || old(self).ignores_off_screen(),
        ensures
            on_screen(x as int, y as int) ==> final(self).pixel(x as int, y as int) == color,
            forall|i: int, j: int|
                on_screen(i, j) && !(i == x && j == y) ==> #[trigger] final(self).pixel(i, j)
                    == old(self).pixel(i, j),
            final(self).extras() == old(self).extras(),
            final(self).ignores_off_screen() == old(self).ignores_off_screen(),
    ;

    /// Draw a filled circle: every pixel of the screen whose distance to the
    /// center is at most `radius` takes `color`, every other pixel keeps its color.
    fn draw_circle(&mut self, center_x: usize, center_y: usize, color: Color, radius: usize)
        ensures
            forall|i: int, j: int|
                on_screen(i, j) ==> #[trigger] final(self).pixel(i, j) == if circle_covers(
                    center_x,
                    center_y,
                    radius,
                    i,
                    j,
                ) {
                    color
                } else {
                    old(self).pixel(i, j)
                },
            final(self).extras() == old(self).extras(),
    {
        let ghost before = *self;
        let mut x: usize = 0;
        while x < DISPLAY_WIDTH
            invariant
                x <= DISPLAY_WIDTH,
                self.extras() == before.extras(),
                forall|i: int, j: int|
                    on_screen(i, j) ==> #[trigger] self.pixel(i, j) == if i < x && circle_covers(
                        center_x,
                        center_y,
                        radius,
                        i,
                        j,
                    ) {
                        color
                    } else {
                        before.pixel(i, j)
                    },
            decreases DISPLAY_WIDTH - x,
        {
            let mut y: usize = 0;
            while y < DISPLAY_HEIGHT
                invariant
                    x < DISPLAY_WIDTH,
                    y <= DISPLAY_HEIGHT,
                    self.extras() == before.extras(),
                    forall|i: int, j: int|
                        on_screen(i, j) ==> #[trigger] self.pixel(i, j) == if (i < x || (i == x
                            && j < y)) && circle_covers(center_x, center_y, radius, i, j) {
                            color
                        } else {
                            before.pixel(i, j)
                        },
                decreases DISPLAY_HEIGHT - y,
            {
                if within_radius(center_x, center_y, x, y, radius) {
                    self.draw_pixel(x, y, color);
                }
                y = y + 1;
            }
            x = x + 1;
        }
    }
}

} // verus!
