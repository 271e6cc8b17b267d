use vstd::prelude::*;

verus! {

/// The width of each glyph.
pub const CHAR_WIDTH: usize = 5;

/// The height of each glyph.
pub const CHAR_HEIGHT: usize = 7;

/// The first character of the glyph table (the start of the printable characters).
pub const START_OFFSET: usize = 0x20;

/// The number of glyphs in the table: `' '` (0x20) to `'Z'` (0x5A).
pub const GLYPH_COUNT: usize = 59;

/// Row bits of glyph `index` (character `0x20 + index`), top row first; bit 4 of a
/// row is its leftmost pixel. Glyphs not drawn yet are blank.
pub open spec fn glyph(index: int) -> Seq<u8> {
    if index == 0x01 {
        // '!'
        seq![0u8, 0b00100, 0b00100, 0b00100, 0b00100, 0, 0b00100]
    } else if index == 0x02 {
        // '"'
        seq![0b01010u8, 0b01010, 0, 0, 0, 0, 0]
    } else if index == 0x24 {
        // 'D'
        seq![0b11110u8, 0b10001, 0b10001, 0b10001, 0b10001, 0b10001, 0b11110]
    } else if index == 0x25 {
        // 'E'
        seq![0b11111u8, 0b10000, 0b10000, 0b11111, 0b10000, 0b10000, 0b11111]
    } else if index == 0x28 {
        // 'H'
        seq![0b10001u8, 0b10001, 0b10001, 0b11111, 0b10001, 0b10001, 0b10001]
    } else if index == 0x2C {
        // 'L'
        seq![0b10000u8, 0b10000, 0b10000, 0b10000, 0b10000, 0b10000, 0b11111]
    } else if index == 0x2F {
        // 'O'
        seq![0b01110u8, 0b10001, 0b10001, 0b10001, 0b10001, 0b10001, 0b01110]
    } else if index == 0x32 {
        // 'R'
        seq![0b11110u8, 0b10001, 0b11110, 0b10001, 0b10001, 0b10001, 0b10001]
    } else if index == 0x37 {
        // 'W'
        seq![0b10001u8, 0b10001, 0b10001, 0b10001, 0b10101, 0b11011, 0b10001]
    } else {
        seq![0u8, 0, 0, 0, 0, 0, 0]
    }
}

/// Whether pixel `(x, y)` belongs to the glyph of `c`: `c` is in the table, the
/// pixel is inside the 5x7 cell, and its bit in the glyph row is set.
pub open spec fn spec_is_pixel_for_char(c: char, x: int, y: int) -> bool {
    let code = c as int;
    &&& START_OFFSET <= code < START_OFFSET + GLYPH_COUNT
    &&& 0 <= x < CHAR_WIDTH
    &&& 0 <= y < CHAR_HEIGHT
    &&& (glyph(code - START_OFFSET)[y] >> ((4 - x) as u8)) & 1u8 == 1u8
}

/// Characters outside the glyph table and pixels outside the 5x7 cell are never
/// set, and a space has no pixel set.
pub proof fn lemma_pixels_stay_in_cell(c: char, x: int, y: int)
    ensures
        spec_is_pixel_for_char(c, x, y) ==> 0 <= x < CHAR_WIDTH && 0 <= y < CHAR_HEIGHT,
        spec_is_pixel_for_char(c, x, y) ==> START_OFFSET <= c as int <= 0x5A,
        !spec_is_pixel_for_char(' ', x, y),
{
    if 0 <= y < CHAR_HEIGHT && 0 <= x < CHAR_WIDTH {
        let b = (4 - x) as u8;
        assert((0u8 >> b) & 1u8 == 0u8) by (bit_vector);
    }
}

/// Bit `4 - x` of a glyph row, the pixel in column `x`, read as a digit of the row.
proof fn lemma_row_pixel(row: u8, x: int)
    requires
        0 <= x < CHAR_WIDTH,
    ensures
        ((row >> ((4 - x) as u8)) & 1u8 == 1u8) <==> (row as int / (if x == 0 {
            16int
        } else if x == 1 {
            8int
        } else if x == 2 {
            4int
        } else if x == 3 {
            2int
        } else {
            1int
        })) % 2 == 1,
{
    let b = (4 - x) as u8;
    assert(b == 4u8 ==> (((row >> b) & 1u8 == 1u8) <==> (row / 16) % 2 == 1)) by (bit_vector);
    assert(b == 3u8 ==> (((row >> b) & 1u8 == 1u8) <==> (row / 8) % 2 == 1)) by (bit_vector);
    assert(b == 2u8 ==> (((row >> b) & 1u8 == 1u8) <==> (row / 4) % 2 == 1)) by (bit_vector);
    assert(b == 1u8 ==> (((row >> b) & 1u8 == 1u8) <==> (row / 2) % 2 == 1)) by (bit_vector);
    assert(b == 0u8 ==> (((row >> b) & 1u8 == 1u8) <==> row % 2 == 1)) by (bit_vector);
}

/// The letters of the font, pixel by pixel: 'E' is the left column with the top,
/// middle and bottom bars; 'H' both sides with the middle bar; 'L' the left column
/// with the bottom bar; 'D', 'O' and 'R' are drawn from their sides and bars;
/// 'W' has its two sides joined by a notch in the bottom rows.
pub proof fn lemma_letter_shapes(x: int, y: int)
    ensures
        spec_is_pixel_for_char('E', x, y) <==> 0 <= x < 5 && 0 <= y < 7 && (x == 0 || y == 0
            || y == 3 || y == 6),
        spec_is_pixel_for_char('H', x, y) <==> 0 <= x < 5 && 0 <= y < 7 && (x == 0 || x == 4
            || y == 3),
        spec_is_pixel_for_char('L', x, y) <==> 0 <= x < 5 && 0 <= y < 7 && (x == 0 || y == 6),
        spec_is_pixel_for_char('D', x, y) <==> 0 <= x < 5 && 0 <= y < 7 && (if y == 0 || y
            == 6 {
            x <= 3
        } else {
            x == 0 || x == 4
        }),
        spec_is_pixel_for_char('O', x, y) <==> 0 <= x < 5 && 0 <= y < 7 && (if y == 0 || y
            == 6 {
            1 <= x <= 3
        } else {
            x == 0 || x == 4
        }),
        spec_is_pixel_for_char('R', x, y) <==> 0 <= x < 5 && 0 <= y < 7 && (if y == 0 || y
            == 2 {
            x <= 3
        } else {
            x == 0 || x == 4
        }),
        spec_is_pixel_for_char('W', x, y) <==> 0 <= x < 5 && 0 <= y < 7 && (x == 0 || x == 4
            || (y == 4 && x == 2) || (y == 5 && (x == 1 || x == 3))),
{
    if 0 <= x < CHAR_WIDTH && 0 <= y < CHAR_HEIGHT {
        assert(y == 0 || y == 1 || y == 2 || y == 3 || y == 4 || y == 5 || y == 6);
        assert(x == 0 || x == 1 || x == 2 || x == 3 || x == 4);
        lemma_row_pixel(glyph(0x25)[y], x);
        lemma_row_pixel(glyph(0x28)[y], x);
        lemma_row_pixel(glyph(0x2C)[y], x);
        lemma_row_pixel(glyph(0x24)[y], x);
        lemma_row_pixel(glyph(0x2F)[y], x);
        lemma_row_pixel(glyph(0x32)[y], x);
        lemma_row_pixel(glyph(0x37)[y], x);
    }
}

/// The punctuation of the font: '!' is a bar in the middle column with a dot
/// below a gap, '"' two short strokes at the top.
pub proof fn lemma_punctuation_shapes(x: int, y: int)
    ensures
        spec_is_pixel_for_char('!', x, y) <==> x == 2 && (1 <= y <= 4 || y == 6),
        spec_is_pixel_for_char('"', x, y) <==> (x == 1 || x == 3) && 0 <= y <= 1,
{
    if 0 <= x < CHAR_WIDTH && 0 <= y < CHAR_HEIGHT {
        assert(y == 0 || y == 1 || y == 2 || y == 3 || y == 4 || y == 5 || y == 6);
        assert(x == 0 || x == 1 || x == 2 || x == 3 || x == 4);
        lemma_row_pixel(glyph(0x01)[y], x);
        lemma_row_pixel(glyph(0x02)[y], x);
    }
}

/// Every other character has no pixel: the rest of the table is blank, and
/// characters outside it are never drawn.
pub proof fn lemma_other_chars_blank(c: char, x: int, y: int)
    requires
        c != '!' && c != '"' && c != 'D' && c != 'E' && c != 'H' && c != 'L' && c != 'O' && c
            != 'R' && c != 'W',
    ensures
        !spec_is_pixel_for_char(c, x, y),
{
    if 0 <= x < CHAR_WIDTH && 0 <= y < CHAR_HEIGHT {
        let code = c as int;
        if START_OFFSET <= code < START_OFFSET + GLYPH_COUNT {
            assert(glyph(code - START_OFFSET)[y] == 0u8);
            lemma_row_pixel(0u8, x);
        }
    }
}

/// The rows of glyph `index`.
fn glyph_rows(index: usize) -> (rows: [u8; CHAR_HEIGHT])
    requires
        index < GLYPH_COUNT,
    ensures
        rows@ == glyph(index as int),
{
    let rows: [u8; CHAR_HEIGHT] = if index == 0x01 {
        [0u8, 0b00100, 0b00100, 0b00100, 0b00100, 0, 0b00100]
    } else if index == 0x02 {
        [0b01010u8, 0b01010, 0, 0, 0, 0, 0]
    } else if index == 0x24 {
        [0b11110u8, 0b10001, 0b10001, 0b10001, 0b10001, 0b10001, 0b11110]
    } else if index == 0x25 {
        [0b11111u8, 0b10000, 0b10000, 0b11111, 0b10000, 0b10000, 0b11111]
    } else if index == 0x28 {
        [0b10001u8, 0b10001, 0b10001, 0b11111, 0b10001, 0b10001, 0b10001]
    } else if index == 0x2C {
        [0b10000u8, 0b10000, 0b10000, 0b10000, 0b10000, 0b10000, 0b11111]
    } else if index == 0x2F {
        [0b01110u8, 0b10001, 0b10001, 0b10001, 0b10001, 0b10001, 0b01110]
    } else if index == 0x32 {
        [0b11110u8, 0b10001, 0b11110, 0b10001, 0b10001, 0b10001, 0b10001]
    } else if index == 0x37 {
        [0b10001u8, 0b10001, 0b10001, 0b10001, 0b10101, 0b11011, 0b10001]
    } else {
        [0u8, 0, 0, 0, 0, 0, 0]
    };
    assert(rows@ =~= glyph(index as int));
    rows
}

/// Whether a specific pixel is part of the glyph of `char`.
/// Coordinates run from top-left (0, 0) to bottom-right (4, 6); glyphs are 5x7.
/// Characters outside the table and pixels outside the cell are never set.
pub fn is_pixel_for_char(char: char, x: usize, y: usize) -> (set: bool)
    ensures
        set == spec_is_pixel_for_char(char, x as int, y as int),
{
    let code = char as u32 as usize;
    if code < START_OFFSET {
        // Not a printable char.
        return false;
    }
    if x >= CHAR_WIDTH || y >= CHAR_HEIGHT {
        // Out of bounds.
        return false;
    }
    let index = code - START_OFFSET;
    if index >= GLYPH_COUNT {
        // No glyph for this char.
        return false;
    }
    let arr = glyph_rows(index);
    let row = arr[y];
    let col = (4 - x) as u8;
    ((row >> col) & 1u8) == 1u8
}

} // verus!
