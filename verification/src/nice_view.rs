use vstd::prelude::*;

use crate::color::Color;
use crate::display::{circle_covers, on_screen, KeyboardDisplay, DISPLAY_HEIGHT, DISPLAY_WIDTH};

verus! {

/// Command byte of a write (pixel data) transfer; 0x80 in LSB-first order.
pub const COMMAND_WRITE: u8 = 0x01;

/// Command byte of the VCOM bit; 0x40 in LSB-first order.
pub const COMMAND_VCOM: u8 = 0x02;

/// Command byte that clears the screen; 0x20 in LSB-first order.
pub const COMMAND_CLEAR: u8 = 0x04;

/// Number of pixel octets in one display line.
pub const LINE_LEN: usize = 20;

/// Bytes of one line in a draw command: its line number, its octets and a zero.
pub const LINE_BYTES: usize = 22;

/// Bytes of a whole draw command: the command byte, every line and a trailing zero.
pub const DRAW_CMD_BYTES: usize = 1498;

/// Whether bit `bit` of `octet` is set.
pub open spec fn bit_is_set(octet: u8, bit: u8) -> bool {
    (octet >> bit) & 1u8 == 1u8
}

/// The color a pixel octet shows at bit `bit`: a set bit is white.
pub open spec fn octet_color(octet: u8, bit: u8) -> Color {
    if bit_is_set(octet, bit) {
        Color::White
    } else {
        Color::Black
    }
}

/// The octet that drawing `color` at bit `bit` leaves: that bit set for white,
/// cleared for black, every other bit as it was.
pub open spec fn octet_after_draw(octet: u8, bit: u8, color: Color) -> u8 {
    match color {
        Color::Black => octet & !(1u8 << bit),
        Color::White => octet | (1u8 << bit),
    }
}

proof fn lemma_octet_last_wins(octet: u8, bit: u8, first: Color, second: Color)
    ensures
        octet_after_draw(octet_after_draw(octet, bit, first), bit, second) == octet_after_draw(
            octet,
            bit,
            second,
        ),
{
    let m = 1u8 << bit;
    assert((octet & !m) & !m == octet & !m) by (bit_vector);
    assert((octet & !m) | m == octet | m) by (bit_vector);
    assert((octet | m) & !m == octet & !m) by (bit_vector);
    assert((octet | m) | m == octet | m) by (bit_vector);
}

proof fn lemma_octet_draws_commute(octet: u8, bit1: u8, color1: Color, bit2: u8, color2: Color)
    requires
        bit1 < 8,
        bit2 < 8,
        bit1 != bit2,
    ensures
        octet_after_draw(octet_after_draw(octet, bit1, color1), bit2, color2) == octet_after_draw(
            octet_after_draw(octet, bit2, color2),
            bit1,
            color1,
        ),
{
    let m1 = 1u8 << bit1;
    let m2 = 1u8 << bit2;
    assert(m1 & m2 == 0) by (bit_vector)
        requires
            bit1 < 8,
            bit2 < 8,
            bit1 != bit2,
            m1 == 1u8 << bit1,
            m2 == 1u8 << bit2,
    ;
    assert((octet & !m1) & !m2 == (octet & !m2) & !m1) by (bit_vector);
    assert(m1 & m2 == 0 ==> (octet & !m1) | m2 == (octet | m2) & !m1) by (bit_vector);
    assert(m1 & m2 == 0 ==> (octet | m1) & !m2 == (octet & !m2) | m1) by (bit_vector);
    assert((octet | m1) | m2 == (octet | m2) | m1) by (bit_vector);
}

proof fn lemma_clear_bit(octet: u8, bit: u8, other: u8)
    requires
        bit < 8,
        other < 8,
    ensures
        !bit_is_set(octet & !(1u8 << bit), bit),
        other != bit ==> (bit_is_set(octet & !(1u8 << bit), other) == bit_is_set(octet, other)),
{
    assert(((octet & !(1u8 << bit)) >> bit) & 1u8 == 0u8) by (bit_vector)
        requires
            bit < 8,
    ;
    assert(other != bit ==> ((octet & !(1u8 << bit)) >> other) & 1u8 == (octet >> other) & 1u8)
        by (bit_vector)
        requires
            bit < 8,
            other < 8,
    ;
}

proof fn lemma_set_bit(octet: u8, bit: u8, other: u8)
    requires
        bit < 8,
        other < 8,
    ensures
        bit_is_set(octet | (1u8 << bit), bit),
        other != bit ==> (bit_is_set(octet | (1u8 << bit), other) == bit_is_set(octet, other)),
{
    assert(((octet | (1u8 << bit)) >> bit) & 1u8 == 1u8) by (bit_vector)
        requires
            bit < 8,
    ;
    assert(other != bit ==> ((octet | (1u8 << bit)) >> other) & 1u8 == (octet >> other) & 1u8)
        by (bit_vector)
        requires
            bit < 8,
            other < 8,
    ;
}

proof fn lemma_full_octet(bit: u8)
    requires
        bit < 8,
    ensures
        bit_is_set(0xffu8, bit),
        !bit_is_set(0u8, bit),
{
    assert((0xffu8 >> bit) & 1u8 == 1u8) by (bit_vector)
        requires
            bit < 8,
    ;
    assert((0u8 >> bit) & 1u8 == 0u8) by (bit_vector);
}

proof fn lemma_split_x(x: usize)
    ensures
        x >> 3usize == x / 8,
        x & 7usize == x % 8,
{
    assert(x >> 3usize == x / 8) by (bit_vector);
    assert(x & 7usize == x % 8) by (bit_vector);
}

/// The numbers sent before each line: line `n` is numbered `n`, in every state.
struct LineNumbers {
    numbers: [u8; DISPLAY_HEIGHT],
}

impl LineNumbers {
    #[verifier::type_invariant]
    spec fn in_order(self) -> bool {
        forall|y: int| 0 <= y < DISPLAY_HEIGHT ==> #[trigger] self.numbers[y] == y
    }

    /// Numbers `0, 1, ..., 67`.
    fn new() -> (this: Self)
        ensures
            forall|y: int| 0 <= y < DISPLAY_HEIGHT ==> #[trigger] this.numbers[y] == y,
    {
        let mut numbers = [0u8; DISPLAY_HEIGHT];
        let mut n: usize = 0;
        while n < DISPLAY_HEIGHT
            invariant
                n <= DISPLAY_HEIGHT,
                forall|y: int| 0 <= y < n ==> #[trigger] numbers[y] == y,
            decreases DISPLAY_HEIGHT - n,
        {
            numbers[n] = n as u8;
            n = n + 1;
        }
        LineNumbers { numbers }
    }
}

/// The draw command sent to the display: a command byte, then for each line its
/// number, its pixel octets and a zero byte, then a final zero byte.
struct DrawCmd {
    command: u8,
    line_numbers: LineNumbers,
    pixel_octets: [[u8; LINE_LEN]; DISPLAY_HEIGHT],
}

impl DrawCmd {
    /// A draw command with every pixel black (all octets zero) and line `n`
    /// numbered `n`.
    fn new() -> (this: Self)
        ensures
            this.command == 0,
            forall|y: int| 0 <= y < DISPLAY_HEIGHT ==> #[trigger] this.line_numbers.numbers[y] == y,
            forall|y: int, k: int|
                0 <= y < DISPLAY_HEIGHT && 0 <= k < LINE_LEN ==> #[trigger] this.pixel_octets[y][k]
                    == 0,
    {
        DrawCmd {
            command: 0u8,
            line_numbers: LineNumbers::new(),
            pixel_octets: [[0u8; LINE_LEN]; DISPLAY_HEIGHT],
        }
    }
}

/// The frame buffer of a nice!view display: what a flush sends.
pub struct NiceView {
    draw_command: DrawCmd,
}

impl NiceView {
    /// The command byte of the buffered draw command.
    pub closed spec fn command(&self) -> u8 {
        self.draw_command.command
    }

    /// The number sent with line `y`.
    pub closed spec fn line_number(&self, y: int) -> u8 {
        self.draw_command.line_numbers.numbers[y]
    }

    /// Octet `k` of line `y`: pixels `8k .. 8k + 7` of that line, bit `b` for pixel `8k + b`.
    pub closed spec fn octet(&self, y: int, k: int) -> u8 {
        self.draw_command.pixel_octets[y][k]
    }

    /// The color of pixel `(x, y)` in the buffer.
    pub open spec fn pixel_color(&self, x: int, y: int) -> Color {
        octet_color(self.octet(y, x / 8), (x % 8) as u8)
    }

    /// Byte `i` of the serialized draw command.
    pub open spec fn frame_byte(&self, i: int) -> u8 {
        if i == 0 {
            self.command()
        } else if i == DRAW_CMD_BYTES - 1 {
            0u8
        } else {
            let y = (i - 1) / (LINE_BYTES as int);
            let k = (i - 1) % (LINE_BYTES as int);
            if k == 0 {
                self.line_number(y)
            } else if k == LINE_BYTES - 1 {
                0u8
            } else {
                self.octet(y, k - 1)
            }
        }
    }

    /// The buffer after pixel `(x, y)` is drawn `color`: the bit of that pixel in
    /// its octet changes as `octet_after_draw` says and nothing else changes; a
    /// pixel outside the screen changes nothing.
    pub closed spec fn drawn(self, x: int, y: int, color: Color) -> NiceView {
        if on_screen(x, y) {
            let row = self.draw_command.pixel_octets[y];
            let new_row = vstd::array::spec_array_update(
                row,
                x / 8,
                octet_after_draw(row[x / 8], (x % 8) as u8, color),
            );
            NiceView {
                draw_command: DrawCmd {
                    command: self.draw_command.command,
                    line_numbers: self.draw_command.line_numbers,
                    pixel_octets: vstd::array::spec_array_update(
                        self.draw_command.pixel_octets,
                        y,
                        new_row,
                    ),
                },
            }
        } else {
            self
        }
    }

    /// A new frame buffer: every pixel black, line `n` numbered `n`.
    pub fn new() -> (view: Self)
        ensures
            lines_numbered(&view),
            view.command() == 0,
            forall|y: int| 0 <= y < DISPLAY_HEIGHT ==> #[trigger] view.line_number(y) == y,
            forall|y: int, k: int|
                0 <= y < DISPLAY_HEIGHT && 0 <= k < LINE_LEN ==> #[trigger] view.octet(y, k) == 0,
            forall|x: int, y: int| on_screen(x, y) ==> #[trigger] view.pixel_color(x, y) == Color::Black,
    {
        let view = NiceView { draw_command: DrawCmd::new() };
        proof {
            use_type_invariant(&view.draw_command.line_numbers);
        }
        assert forall|x: int, y: int| on_screen(x, y) implies #[trigger] view.pixel_color(x, y)
            == Color::Black by {
            lemma_full_octet((x % 8) as u8);
        }
        view
    }

    /// The two bytes of the clear command.
    pub fn clear_bytes() -> (bytes: [u8; 2])
        ensures
            bytes@ == seq![COMMAND_CLEAR, 0u8],
    {
        [COMMAND_CLEAR, 0u8]
    }

    /// Fill the entire screen with white: every octet becomes 0xff.
    pub fn fill_white(&mut self)
        ensures
            lines_numbered(&*final(self)),
            final(self).command() == old(self).command(),
            forall|y: int| #[trigger] final(self).line_number(y) == old(self).line_number(y),
            forall|y: int, k: int|
                0 <= y < DISPLAY_HEIGHT && 0 <= k < LINE_LEN ==> #[trigger] final(self).octet(y, k)
                    == 0xffu8,
            forall|x: int, y: int|
                on_screen(x, y) ==> #[trigger] final(self).pixel_color(x, y) == Color::White,
    {
        let mut y: usize = 0;
        while y < DISPLAY_HEIGHT
            invariant
                y <= DISPLAY_HEIGHT,
                self.draw_command.command == old(self).draw_command.command,
                self.draw_command.line_numbers == old(self).draw_command.line_numbers,
                forall|j: int, k: int|
                    0 <= j < y && 0 <= k < LINE_LEN ==> #[trigger] self.draw_command.pixel_octets[j][k]
                        == 0xffu8,
            decreases DISPLAY_HEIGHT - y,
        {
            let mut k: usize = 0;
            while k < LINE_LEN
                invariant
                    y < DISPLAY_HEIGHT,
                    k <= LINE_LEN,
                    self.draw_command.command == old(self).draw_command.command,
                    self.draw_command.line_numbers == old(self).draw_command.line_numbers,
                    forall|j: int, m: int|
                        (0 <= j < y && 0 <= m < LINE_LEN) || (j == y && 0 <= m < k)
                            ==> #[trigger] self.draw_command.pixel_octets[j][m] == 0xffu8,
                decreases LINE_LEN - k,
            {
                self.draw_command.pixel_octets[y][k] = 0xffu8;
                k = k + 1;
            }
            y = y + 1;
        }
        assert forall|x: int, y: int| on_screen(x, y) implies #[trigger] self.pixel_color(x, y)
            == Color::White by {
            lemma_full_octet((x % 8) as u8);
        }
        proof {
            use_type_invariant(&self.draw_command.line_numbers);
        }
    }

    /// Set the color of pixel `(x, y)`; a pixel outside the screen is ignored.
    pub fn draw_pixel(&mut self, x: usize, y: usize, color: Color)
        ensures
            lines_numbered(&*final(self)),
            final(self).command() == old(self).command(),
            forall|j: int| #[trigger] final(self).line_number(j) == old(self).line_number(j),
            on_screen(x as int, y as int) ==> final(self).pixel_color(x as int, y as int) == color,
            forall|i: int, j: int|
                on_screen(i, j) && !(i == x && j == y) ==> #[trigger] final(self).pixel_color(i, j)
                    == old(self).pixel_color(i, j),
            forall|j: int, k: int|
                0 <= j < DISPLAY_HEIGHT && 0 <= k < LINE_LEN && !(j == y && k == x / 8)
                    ==> #[trigger] final(self).octet(j, k) == old(self).octet(j, k),
            *final(self) == old(self).drawn(x as int, y as int, color),
    {
        proof {
            use_type_invariant(&self.draw_command.line_numbers);
            lemma_split_x(x);
        }
        let line_octet: usize = x >> 3usize;
        if line_octet >= LINE_LEN || y >= DISPLAY_HEIGHT {
            return;
        }
        let octet_bit: usize = x & 7usize;
        assert(octet_bit < 8);
        let octet_mask: u8 = 1u8 << octet_bit;
        let old_octet: u8 = self.draw_command.pixel_octets[y][line_octet];
        let new_octet: u8 = match color {
            Color::Black => old_octet & !octet_mask,
            Color::White => old_octet | octet_mask,
        };
        self.draw_command.pixel_octets[y][line_octet] = new_octet;
        proof {
            let b = octet_bit as u8;
            assert(octet_mask == 1u8 << b) by (bit_vector)
                requires
                    octet_mask == 1u8 << octet_bit,
                    b == octet_bit,
                    octet_bit < 8,
            ;
            let row = old(self).draw_command.pixel_octets[y as int];
            let new_row = vstd::array::spec_array_update(
                row,
                line_octet as int,
                octet_after_draw(row[line_octet as int], b, color),
            );
            assert(new_octet == octet_after_draw(old_octet, b, color));
            assert(self.draw_command.pixel_octets[y as int] =~= new_row);
            assert(self.draw_command.pixel_octets =~= vstd::array::spec_array_update(
                old(self).draw_command.pixel_octets,
                y as int,
                new_row,
            ));
            assert forall|i: int, j: int|
                on_screen(i, j) && !(i == x && j == y) implies #[trigger] self.pixel_color(i, j)
                == old(self).pixel_color(i, j) by {
                if j == y && i / 8 == x / 8 {
                    lemma_clear_bit(old_octet, b, (i % 8) as u8);
                    lemma_set_bit(old_octet, b, (i % 8) as u8);
                }
            }
            lemma_clear_bit(old_octet, b, b);
            lemma_set_bit(old_octet, b, b);
        }
    }

    /// The command byte, then the line numbers: what the frame holds besides pixels.
    pub open spec fn header_bytes(&self) -> Seq<u8> {
        seq![self.command()] + Seq::new(DISPLAY_HEIGHT as nat, |y: int| self.line_number(y))
    }

    /// Draw a filled circle, as the display trait does.
    pub fn draw_circle(&mut self, center_x: usize, center_y: usize, color: Color, radius: usize)
        ensures
            lines_numbered(&*final(self)),
            final(self).command() == old(self).command(),
            forall|j: int| 0 <= j < DISPLAY_HEIGHT ==> #[trigger] final(self).line_number(j) == old(self).line_number(j),
            forall|i: int, j: int|
                on_screen(i, j) ==> #[trigger] final(self).pixel_color(i, j) == if circle_covers(
                    center_x,
                    center_y,
                    radius,
                    i,
                    j,
                ) {
                    color
                } else {
                    old(self).pixel_color(i, j)
                },
    {
        let ghost before = *self;
        KeyboardDisplay::draw_circle(self, center_x, center_y, color, radius);
        proof {
            use_type_invariant(&self.draw_command.line_numbers);
        }
        assert(self.header_bytes() == before.header_bytes());
        assert(self.command() == self.header_bytes()[0]);
        assert(before.command() == before.header_bytes()[0]);
        assert forall|j: int| 0 <= j < DISPLAY_HEIGHT implies #[trigger] self.line_number(j)
            == before.line_number(j) by {
            assert(self.line_number(j) == self.header_bytes()[j + 1]);
            assert(before.line_number(j) == before.header_bytes()[j + 1]);
        }
        assert forall|i: int, j: int| on_screen(i, j) implies #[trigger] self.pixel_color(i, j)
            == if circle_covers(center_x, center_y, radius, i, j) {
            color
        } else {
            before.pixel_color(i, j)
        } by {
            assert(KeyboardDisplay::pixel(self, i, j) == self.pixel_color(i, j));
            assert(KeyboardDisplay::pixel(&before, i, j) == before.pixel_color(i, j));
        }
    }

    /// Prepares a flush: sets the write command and returns the bytes of the whole
    /// draw command, to be written to the display.
    pub fn flush_bytes(&mut self) -> (bytes: Vec<u8>)
        ensures
            lines_numbered(&*final(self)),
            final(self).command() == COMMAND_WRITE,
            forall|y: int| #[trigger] final(self).line_number(y) == old(self).line_number(y),
            forall|y: int, k: int| #[trigger] final(self).octet(y, k) == old(self).octet(y, k),
            bytes@.len() == DRAW_CMD_BYTES,
            forall|i: int| 0 <= i < DRAW_CMD_BYTES ==> #[trigger] bytes@[i] == final(self).frame_byte(i),
    {
        self.draw_command.command = COMMAND_WRITE;
        proof {
            use_type_invariant(&self.draw_command.line_numbers);
        }
        self.frame()
    }

    /// The bytes of the buffered draw command, in wire order.
    fn frame(&self) -> (bytes: Vec<u8>)
        ensures
            bytes@.len() == DRAW_CMD_BYTES,
            forall|i: int| 0 <= i < DRAW_CMD_BYTES ==> #[trigger] bytes@[i] == self.frame_byte(i),
    {
        let mut bytes: Vec<u8> = Vec::new();
        bytes.push(self.draw_command.command);
        let mut y: usize = 0;
        while y < DISPLAY_HEIGHT
            invariant
                y <= DISPLAY_HEIGHT,
                bytes@.len() == 1 + LINE_BYTES * y,
                forall|i: int| 0 <= i < bytes@.len() ==> #[trigger] bytes@[i] == self.frame_byte(i),
            decreases DISPLAY_HEIGHT - y,
        {
            bytes.push(self.draw_command.line_numbers.numbers[y]);
            let mut k: usize = 0;
            while k < LINE_LEN
                invariant
                    y < DISPLAY_HEIGHT,
                    k <= LINE_LEN,
                    bytes@.len() == 1 + LINE_BYTES * y + 1 + k,
                    forall|i: int| 0 <= i < bytes@.len() ==> #[trigger] bytes@[i] == self.frame_byte(i),
                decreases LINE_LEN - k,
            {
                bytes.push(self.draw_command.pixel_octets[y][k]);
                k = k + 1;
            }
            bytes.push(0u8);
            y = y + 1;
        }
        bytes.push(0u8);
        bytes
    }
}

/// In the bytes a flush sends, pixel `(x, y)` is bit `x % 8` of byte
/// `2 + 22 * y + x / 8`: set for white, clear for black; line `y` is announced by
/// byte `1 + 22 * y`, and every line ends with a zero byte.
pub proof fn lemma_frame_carries_pixel(view: &NiceView, x: int, y: int)
    requires
        on_screen(x, y),
    ensures
        0 <= 2 + LINE_BYTES * y + x / 8 < DRAW_CMD_BYTES - 1,
        octet_color(view.frame_byte(2 + LINE_BYTES * y + x / 8), (x % 8) as u8) == view.pixel_color(x, y),
        view.frame_byte(1 + LINE_BYTES * y) == view.line_number(y),
        view.frame_byte(LINE_BYTES * y + LINE_BYTES) == 0,
{
    let i = 2 + LINE_BYTES * y + x / 8;
    assert((i - 1) / (LINE_BYTES as int) == y);
    assert((i - 1) % (LINE_BYTES as int) == 1 + x / 8);
    assert((LINE_BYTES * y) / (LINE_BYTES as int) == y);
    assert((LINE_BYTES * y) % (LINE_BYTES as int) == 0);
    assert((LINE_BYTES * y + LINE_BYTES - 1) / (LINE_BYTES as int) == y);
    assert((LINE_BYTES * y + LINE_BYTES - 1) % (LINE_BYTES as int) == LINE_BYTES - 1);
}

/// Whether line `n` is numbered `n`, for every line: `new` makes it so, and every
/// operation keeps the line numbers.
pub open spec fn lines_numbered(view: &NiceView) -> bool {
    forall|y: int| 0 <= y < DISPLAY_HEIGHT ==> #[trigger] view.line_number(y) == y
}

/// A flush of a buffer whose lines are numbered sends `n` at byte `1 + 22 n`, a
/// zero at byte `22 n + 22` for every line `n`, and a final zero.
pub proof fn lemma_numbered_frame(view: &NiceView, n: int)
    requires
        lines_numbered(view),
        0 <= n < DISPLAY_HEIGHT,
    ensures
        view.frame_byte(1 + LINE_BYTES * n) == n,
        view.frame_byte(LINE_BYTES * n + LINE_BYTES) == 0,
        view.frame_byte(DRAW_CMD_BYTES - 1) == 0,
{
    lemma_frame_carries_pixel(view, 0, n);
}

/// Drawing the same pixel twice leaves what the second drawing alone leaves: the
/// last color wins.
pub proof fn lemma_draw_pixel_last_wins(view: NiceView, x: int, y: int, first: Color, second: Color)
    ensures
        view.drawn(x, y, first).drawn(x, y, second) == view.drawn(x, y, second),
{
    if on_screen(x, y) {
        let octet = view.draw_command.pixel_octets[y][x / 8];
        lemma_octet_last_wins(octet, (x % 8) as u8, first, second);
        let twice = view.drawn(x, y, first).drawn(x, y, second);
        let once = view.drawn(x, y, second);
        assert(twice.draw_command.pixel_octets[y] =~= once.draw_command.pixel_octets[y]);
        assert(twice.draw_command.pixel_octets =~= once.draw_command.pixel_octets);
    }
}

/// Drawing a pixel again in the color it was just drawn changes nothing.
pub proof fn lemma_draw_pixel_idempotent(view: NiceView, x: int, y: int, color: Color)
    ensures
        view.drawn(x, y, color).drawn(x, y, color) == view.drawn(x, y, color),
{
    lemma_draw_pixel_last_wins(view, x, y, color, color);
}

/// Drawing two different pixels gives the same buffer in either order.
pub proof fn lemma_draw_pixel_commutes(
    view: NiceView,
    x1: int,
    y1: int,
    color1: Color,
    x2: int,
    y2: int,
    color2: Color,
)
    requires
        x1 != x2 || y1 != y2,
    ensures
        view.drawn(x1, y1, color1).drawn(x2, y2, color2) == view.drawn(x2, y2, color2).drawn(
            x1,
            y1,
            color1,
        ),
{
    if on_screen(x1, y1) && on_screen(x2, y2) {
        let a = view.drawn(x1, y1, color1).drawn(x2, y2, color2);
        let b = view.drawn(x2, y2, color2).drawn(x1, y1, color1);
        if y1 == y2 && x1 / 8 == x2 / 8 {
            let octet = view.draw_command.pixel_octets[y1][x1 / 8];
            lemma_octet_draws_commute(octet, (x1 % 8) as u8, color1, (x2 % 8) as u8, color2);
        }
        assert(a.draw_command.pixel_octets[y1] =~= b.draw_command.pixel_octets[y1]);
        assert(a.draw_command.pixel_octets[y2] =~= b.draw_command.pixel_octets[y2]);
        assert(a.draw_command.pixel_octets =~= b.draw_command.pixel_octets);
    }
}

impl KeyboardDisplay for NiceView {
    open spec fn pixel(&self, x: int, y: int) -> Color {
        self.pixel_color(x, y)
    }

    open spec fn extras(&self) -> Seq<u8> {
        self.header_bytes()
    }

    open spec fn ignores_off_screen(&self) -> bool {
        true
    }

    fn skips_off_screen(&self) -> (skips: bool) {
        true
    }

    fn fill_white(&mut self) {
        let ghost before = *self;
        NiceView::fill_white(self);
        assert(self.header_bytes() =~= before.header_bytes());
    }

    fn draw_pixel(&mut self, x: usize, y: usize, color: Color) {
        let ghost before = *self;
        NiceView::draw_pixel(self, x, y, color);
        assert(self.header_bytes() =~= before.header_bytes());
        assert(self.ignores_off_screen() && before.ignores_off_screen());
    }
}

} // verus!
