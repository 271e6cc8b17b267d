use vstd::prelude::*;

verus! {

/// An icon that we can draw.
///
/// `IMAGE_WIDTH` is the pixel width of the image, `BYTE_WIDTH` the number of bytes
/// of one row, `(IMAGE_WIDTH + (8 - IMAGE_WIDTH % 8)) / 8`, `HEIGHT` the height in pixels.
pub struct Image<const IMAGE_WIDTH: usize, const BYTE_WIDTH: usize, const HEIGHT: usize> {
    pub rows: [[u8; BYTE_WIDTH]; HEIGHT],
}

/// The rows of an image laid end to end.
pub open spec fn flat_rows<const N: usize, const H: usize>(rows: [[u8; N]; H]) -> Seq<u8> {
    rows@.map_values(|r: [u8; N]| r@).flatten()
}

/// The byte width of an image `image_width` pixels wide:
/// `(image_width + (8 - image_width % 8)) / 8`, that is `image_width / 8 + 1`.
pub open spec fn byte_width_for(image_width: int) -> int {
    image_width / 8 + 1
}

/// Lays the rows end to end by calling `<[[u8; N]]>::as_flattened` (std).
/// Trusted: the result is the concatenation of the rows, in order.
#[verifier::external_body]
fn flatten_rows<const N: usize, const H: usize>(rows: &[[u8; N]; H]) -> (flat: &[u8])
    ensures
        flat@ == flat_rows(*rows),
{
    rows.as_flattened()
}

proof fn lemma_flat_rows_len<const N: usize, const H: usize>(rows: [[u8; N]; H])
    ensures
        flat_rows(rows).len() == N * H,
        forall|y: int, x: int|
            0 <= y < H && 0 <= x < N ==> #[trigger] flat_rows(rows)[y * N + x] == rows[y][x],
{
    let s = rows@.map_values(|r: [u8; N]| r@);
    assert forall|i: int| 0 <= i < s.len() implies (#[trigger] s[i]).len() == N by {
        assert(s[i] == rows@[i]@);
    }
    lemma_flatten_uniform(s, N as int);
    assert(s.len() * N == N * H) by (nonlinear_arith)
        requires
            s.len() == H,
    ;
    assert forall|y: int, x: int| 0 <= y < H && 0 <= x < N implies #[trigger] flat_rows(rows)[y
        * N + x] == rows[y][x] by {
        assert(s[y] == rows[y]@);
        assert(y * N + x < N * H) by (nonlinear_arith)
            requires
                0 <= y < H,
                0 <= x < N,
        ;
    }
}

/// Flattening rows that all have length `n`: the length is `n` times the count and
/// element `y * n + x` is element `x` of row `y`.
proof fn lemma_flatten_uniform(s: Seq<Seq<u8>>, n: int)
    requires
        n >= 0,
        forall|i: int| 0 <= i < s.len() ==> (#[trigger] s[i]).len() == n,
    ensures
        s.flatten().len() == s.len() * n,
        forall|y: int, x: int|
            0 <= y < s.len() && 0 <= x < n ==> #[trigger] s.flatten()[y * n + x] == s[y][x],
    decreases s.len(),
{
    if s.len() == 0 {
    } else {
        let rest = s.drop_first();
        lemma_flatten_uniform(rest, n);
        assert(s.flatten() == s[0] + rest.flatten());
        assert(s.len() * n == n + rest.len() * n) by (nonlinear_arith)
            requires
                s.len() == rest.len() + 1,
        ;
        assert forall|y: int, x: int| 0 <= y < s.len() && 0 <= x < n implies #[trigger] s.flatten()[y
            * n + x] == s[y][x] by {
            if y > 0 {
                assert(y * n + x == n + ((y - 1) * n + x)) by (nonlinear_arith);
                assert((y - 1) * n + x < rest.len() * n) by (nonlinear_arith)
                    requires
                        1 <= y,
                        y - 1 < rest.len(),
                        0 <= x < n,
                ;
                assert(0 <= (y - 1) * n) by (nonlinear_arith)
                    requires
                        y >= 1,
                        n >= 0,
                ;
                assert(rest[y - 1] == s[y]);
            } else {
                assert(y * n + x == x) by (nonlinear_arith)
                    requires
                        y == 0,
                ;
            }
        }
    }
}

impl<const IMAGE_WIDTH: usize, const BYTE_WIDTH: usize, const HEIGHT: usize> Image<
    IMAGE_WIDTH,
    BYTE_WIDTH,
    HEIGHT,
> {
    /// An iterator over the image's bytes, row by row, each with its byte column
    /// and row.
    pub fn to_iterator<'a>(&'static self) -> (iter: ImageIterator<'a>)
        ensures
            iter.wf(),
            iter.byte_width() == BYTE_WIDTH,
            iter.position() == 0,
            iter.bytes() == flat_rows(self.rows),
            iter.bytes().len() == BYTE_WIDTH * HEIGHT,
            forall|y: int, x: int|
                0 <= y < HEIGHT && 0 <= x < BYTE_WIDTH ==> #[trigger] iter.bytes()[y * BYTE_WIDTH + x]
                    == self.rows[y][x],
    {
        proof {
            lemma_flat_rows_len(self.rows);
            if BYTE_WIDTH == 0 {
                assert(BYTE_WIDTH * HEIGHT == 0);
            }
        }
        ImageIterator { byte_width: BYTE_WIDTH, index: 0, data: flatten_rows(&self.rows) }
    }
}

/// Iterates over the bytes of an image: each item is `(x, y, byte)` with `x` the byte
/// column and `y` the row.
#[derive(Debug, Clone, Copy)]
pub struct ImageIterator<'a> {
    byte_width: usize,
    index: usize,
    data: &'a [u8],
}

impl<'a> ImageIterator<'a> {
    /// Bytes per row.
    pub closed spec fn byte_width(&self) -> nat {
        self.byte_width as nat
    }

    /// How many bytes were handed out so far.
    pub closed spec fn position(&self) -> nat {
        self.index as nat
    }

    /// All bytes of the image, row after row.
    pub closed spec fn bytes(&self) -> Seq<u8> {
        self.data@
    }

    /// The iterator is in a state that `to_iterator` and `next` reach: it has not
    /// gone past the end, and a non-empty image has rows of at least one byte.
    pub closed spec fn wf(&self) -> bool {
        &&& self.index <= self.data@.len()
        &&& (self.data@.len() > 0 ==> self.byte_width > 0)
    }

    /// The item handed out for byte `i`.
    pub open spec fn item_at(&self, i: int) -> (usize, usize, u8) {
        (
            (i % (self.byte_width() as int)) as usize,
            (i / (self.byte_width() as int)) as usize,
            self.bytes()[i],
        )
    }

    /// The items still to come, in the order `next` hands them out.
    pub open spec fn remaining(&self) -> Seq<(usize, usize, u8)> {
        Seq::new(
            (self.bytes().len() - self.position()) as nat,
            |k: int| self.item_at(self.position() + k),
        )
    }

    /// The next byte with its column and row, or `None` once every byte was handed out.
    pub fn next(&mut self) -> (item: Option<(usize, usize, u8)>)
        requires
            old(self).wf(),
        ensures
            final(self).wf(),
            final(self).byte_width() == old(self).byte_width(),
            final(self).bytes() == old(self).bytes(),
            old(self).position() < old(self).bytes().len() ==> {
                &&& item == Some(old(self).item_at(old(self).position() as int))
                &&& final(self).position() == old(self).position() + 1
            },
            old(self).position() >= old(self).bytes().len() ==> {
                &&& item is None
                &&& final(self).position() == old(self).position()
            },
            old(self).remaining().len() > 0 ==> {
                &&& item == Some(old(self).remaining()[0])
                &&& final(self).remaining() == old(self).remaining().drop_first()
            },
            old(self).remaining().len() == 0 ==> item is None && *final(self) == *old(self),
    {
        if self.index >= self.data.len() {
            return None;
        }
        let b = self.data[self.index];
        let x = self.index % self.byte_width;
        proof {
            let i = self.index as int;
            let w = self.byte_width as int;
            assert(i % w <= i) by (nonlinear_arith)
                requires
                    w > 0,
                    i >= 0,
            ;
            assert((i - i % w) / w == i / w) by (nonlinear_arith)
                requires
                    w > 0,
                    i >= 0,
            ;
        }
        let y = (self.index - x) / self.byte_width;
        self.index = self.index + 1;
        assert(self.remaining() =~= old(self).remaining().drop_first());
        Some((x, y, b))
    }
}

/// Byte `i` of an image's iteration is handed out with column `i % BYTE_WIDTH` and
/// row `i / BYTE_WIDTH`, and it is the byte of the image at that column and row.
pub proof fn lemma_iteration_visits_rows<'a, const IMAGE_WIDTH: usize, const BYTE_WIDTH: usize, const HEIGHT: usize>(
    image: &Image<IMAGE_WIDTH, BYTE_WIDTH, HEIGHT>,
    iter: ImageIterator<'a>,
    i: int,
)
    requires
        iter.byte_width() == BYTE_WIDTH,
        iter.bytes() == flat_rows(image.rows),
        0 <= i < BYTE_WIDTH * HEIGHT,
    ensures
        iter.item_at(i) == ((i % (BYTE_WIDTH as int)) as usize, (i / (BYTE_WIDTH as int)) as usize, image.rows[i / (BYTE_WIDTH as int)][i % (BYTE_WIDTH as int)]),
        0 <= i % (BYTE_WIDTH as int) < BYTE_WIDTH,
        0 <= i / (BYTE_WIDTH as int) < HEIGHT,
{
    lemma_flat_rows_len(image.rows);
    let w = BYTE_WIDTH as int;
    assert(w > 0) by (nonlinear_arith)
        requires
            0 <= i < w * HEIGHT,
            HEIGHT >= 0,
    ;
    let y = i / w;
    let x = i % w;
    assert(i == y * w + x && 0 <= x < w && 0 <= y < HEIGHT) by (nonlinear_arith)
        requires
            w > 0,
            0 <= i < w * HEIGHT,
            y == i / w,
            x == i % w,
    ;
    assert(flat_rows(image.rows)[y * w + x] == image.rows[y][x]);
}

/// A fresh iterator over an image has every byte of the image still to come, row
/// after row, each with its column and row: `next` hands out exactly
/// `BYTE_WIDTH * HEIGHT` items in that order and `None` from then on.
pub proof fn lemma_fresh_iterator_remaining<'a, const IMAGE_WIDTH: usize, const BYTE_WIDTH: usize, const HEIGHT: usize>(
    image: &Image<IMAGE_WIDTH, BYTE_WIDTH, HEIGHT>,
    iter: ImageIterator<'a>,
)
    requires
        iter.byte_width() == BYTE_WIDTH,
        iter.position() == 0,
        iter.bytes() == flat_rows(image.rows),
    ensures
        iter.remaining().len() == BYTE_WIDTH * HEIGHT,
        forall|i: int|
            0 <= i < BYTE_WIDTH * HEIGHT ==> #[trigger] iter.remaining()[i] == (
                (i % (BYTE_WIDTH as int)) as usize,
                (i / (BYTE_WIDTH as int)) as usize,
                image.rows[i / (BYTE_WIDTH as int)][i % (BYTE_WIDTH as int)],
            ),
{
    lemma_flat_rows_len(image.rows);
    assert forall|i: int| 0 <= i < BYTE_WIDTH * HEIGHT implies #[trigger] iter.remaining()[i] == (
        (i % (BYTE_WIDTH as int)) as usize,
        (i / (BYTE_WIDTH as int)) as usize,
        image.rows[i / (BYTE_WIDTH as int)][i % (BYTE_WIDTH as int)],
    ) by {
        lemma_iteration_visits_rows(image, iter, i);
    }
}

/// The byte width is the width over eight plus one: the row bytes hold the
/// width's bits with one to eight bits to spare.
pub proof fn lemma_byte_width_formula(image_width: nat)
    ensures
        byte_width_for(image_width as int) == image_width / 8 + 1,
        byte_width_for(image_width as int) * 8 > image_width,
        byte_width_for(image_width as int) * 8 <= image_width + 8,
{
}

/// Bytes per row of an image `image_width` pixels wide:
/// `(image_width + (8 - image_width % 8)) / 8`.
pub fn convert_image_width_to_byte_width(image_width: usize) -> (byte_width: usize)
    ensures
        byte_width == byte_width_for(image_width as int),
        byte_width == image_width / 8 + 1,
        byte_width * 8 > image_width,
        byte_width * 8 <= image_width + 8,
{
    image_width / 8 + 1
}

} // verus!
