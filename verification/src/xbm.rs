use vstd::prelude::*;

use crate::image::byte_width_for;
use crate::text_parse::{
    after_last_space, copy_bytes, lemma_parsed_value_nonneg, last_field, next_starting_with, parse_unsigned, remove_byte,
    spec_parse_unsigned, split_bytes, split_on, starts_with, text_lines, trim_hex_prefix,
    trim_hex_prefixes, views, without_byte, LineCursor, LF,
};

verus! {

/// Space.
pub const SPACE: u8 = 0x20;

/// Comma, the separator of the pixel bytes.
pub const COMMA: u8 = 0x2c;

/// The prefix of the width and height lines: `#define`.
pub open spec fn define_prefix() -> Seq<u8> {
    seq![0x23u8, 0x64, 0x65, 0x66, 0x69, 0x6e, 0x65]
}

/// The prefix of the line that opens the pixel data: `static unsigned char`.
pub open spec fn data_prefix() -> Seq<u8> {
    seq![
        0x73u8, 0x74, 0x61, 0x74, 0x69, 0x63, 0x20, 0x75, 0x6e, 0x73, 0x69, 0x67, 0x6e, 0x65,
        0x64, 0x20, 0x63, 0x68, 0x61, 0x72,
    ]
}

/// The closing of the pixel data: `};`.
pub open spec fn data_suffix() -> Seq<u8> {
    seq![0x7du8, 0x3b]
}

fn define_prefix_bytes() -> (v: Vec<u8>)
    ensures
        v@ == define_prefix(),
{
    let v = vec![0x23u8, 0x64, 0x65, 0x66, 0x69, 0x6e, 0x65];
    assert(v@ =~= define_prefix());
    v
}

fn data_prefix_bytes() -> (v: Vec<u8>)
    ensures
        v@ == data_prefix(),
{
    let v = vec![
        0x73u8, 0x74, 0x61, 0x74, 0x69, 0x63, 0x20, 0x75, 0x6e, 0x73, 0x69, 0x67, 0x6e, 0x65,
        0x64, 0x20, 0x63, 0x68, 0x61, 0x72,
    ];
    assert(v@ =~= data_prefix());
    v
}

/// Why an XBM file could not be turned into image rows.
#[derive(Clone, Copy, Debug, PartialEq, Eq, Structural)]
pub enum XbmError {
    /// No `#define` line for the width.
    MissingWidthDefine,
    /// The width is not a number that fits in `usize`.
    BadWidth,
    /// No `#define` line for the height after the width.
    MissingHeightDefine,
    /// The height is not a number that fits in `usize`.
    BadHeight,
    /// No `static unsigned char` line after the height.
    MissingData,
    /// The pixel data does not end with `};`.
    MissingSuffix,
    /// A pixel byte is not a hexadecimal byte.
    BadHexByte,
}

/// A parsed XBM image: its size and its pixel bytes cut into rows.
pub struct XbmImage {
    pub width: usize,
    pub height: usize,
    pub byte_width: usize,
    pub rows: Vec<Vec<u8>>,
}

/// The index of the first line at or after `from` that starts with `prefix`.
pub open spec fn first_match_from(lines: Seq<Seq<u8>>, from: int, prefix: Seq<u8>) -> Option<int>
    decreases lines.len() - from,
{
    if from < 0 || from >= lines.len() {
        None
    } else if starts_with(lines[from], prefix) {
        Some(from)
    } else {
        first_match_from(lines, from + 1, prefix)
    }
}

proof fn lemma_first_match_found(lines: Seq<Seq<u8>>, from: int, at: int, prefix: Seq<u8>)
    requires
        0 <= from <= at < lines.len(),
        starts_with(lines[at], prefix),
        forall|j: int| from <= j < at ==> !starts_with(#[trigger] lines[j], prefix),
    ensures
        first_match_from(lines, from, prefix) == Some(at),
    decreases at - from,
{
    if from < at {
        lemma_first_match_found(lines, from + 1, at, prefix);
    }
}

proof fn lemma_first_match_none(lines: Seq<Seq<u8>>, from: int, prefix: Seq<u8>)
    requires
        0 <= from <= lines.len(),
        forall|j: int| from <= j < lines.len() ==> !starts_with(#[trigger] lines[j], prefix),
    ensures
        first_match_from(lines, from, prefix) is None,
    decreases lines.len() - from,
{
    if from < lines.len() {
        lemma_first_match_none(lines, from + 1, prefix);
    }
}

/// The value on a `#define` line: its last space-separated field as a `usize`.
pub open spec fn define_value(line: Seq<u8>) -> Option<int> {
    spec_parse_unsigned(after_last_space(line), 10, usize::MAX as int)
}

/// The value of one comma-separated pixel piece, as a byte.
pub open spec fn piece_value(piece: Seq<u8>) -> Option<int> {
    spec_parse_unsigned(trim_hex_prefix(piece), 16, 255)
}

/// The pieces of the pixel data: everything before the closing `};`, without line
/// feeds and spaces, split at commas.
pub open spec fn data_pieces(data: Seq<u8>) -> Seq<Seq<u8>> {
    split_on(without_byte(without_byte(data.subrange(0, data.len() - 2), LF), SPACE), COMMA)
}

/// Whether every piece is a hexadecimal byte.
pub open spec fn pieces_are_bytes(pieces: Seq<Seq<u8>>) -> bool {
    forall|i: int| 0 <= i < pieces.len() ==> (#[trigger] piece_value(pieces[i])) is Some
}

/// The bytes the pieces stand for.
pub open spec fn piece_bytes(pieces: Seq<Seq<u8>>) -> Seq<u8> {
    Seq::new(pieces.len(), |i: int| piece_value(pieces[i]).unwrap() as u8)
}

/// The bytes cut into rows of `w` bytes; a shorter remainder is dropped.
pub open spec fn chunk_rows(bytes: Seq<u8>, w: int) -> Seq<Seq<u8>> {
    Seq::new(((bytes.len() as int) / w) as nat, |r: int| bytes.subrange(r * w, r * w + w))
}

/// Whether `data` ends with `};`.
pub open spec fn has_data_suffix(data: Seq<u8>) -> bool {
    data.len() >= 2 && data.subrange(data.len() - 2, data.len() as int) == data_suffix()
}

/// The outcome of parsing the pixel data that follows the `static unsigned char`
/// line, for an image `width` pixels wide: the byte width and the rows, or the error.
pub open spec fn spec_parse_data(data: Seq<u8>, width: int) -> Result<(int, Seq<Seq<u8>>), XbmError> {
    if !has_data_suffix(data) {
        Err(XbmError::MissingSuffix)
    } else if !pieces_are_bytes(data_pieces(data)) {
        Err(XbmError::BadHexByte)
    } else {
        Ok((byte_width_for(width), chunk_rows(piece_bytes(data_pieces(data)), byte_width_for(width))))
    }
}

/// The outcome of parsing an XBM file: width, height, byte width and rows, or the
/// first error met, in the order the generator meets them.
pub open spec fn spec_parse_xbm(content: Seq<u8>) -> Result<(int, int, int, Seq<Seq<u8>>), XbmError> {
    let lines = text_lines(content);
    match first_match_from(lines, 0, define_prefix()) {
        None => Err(XbmError::MissingWidthDefine),
        Some(i) => match define_value(lines[i]) {
            None => Err(XbmError::BadWidth),
            Some(width) => match first_match_from(lines, i + 1, define_prefix()) {
                None => Err(XbmError::MissingHeightDefine),
                Some(j) => match define_value(lines[j]) {
                    None => Err(XbmError::BadHeight),
                    Some(height) => match first_match_from(lines, j + 1, data_prefix()) {
                        None => Err(XbmError::MissingData),
                        Some(k) => match spec_parse_data(lines.skip(k + 1).flatten(), width) {
                            Err(e) => Err(e),
                            Ok((bw, rows)) => Ok((width, height, bw, rows)),
                        },
                    },
                },
            },
        },
    }
}

/// A parsed image has rows of exactly `byte_width` bytes, as many as whole rows fit
/// in the pixel bytes, and its byte width is its width over eight plus one.
pub proof fn lemma_parsed_rows_are_whole(content: Seq<u8>)
    requires
        spec_parse_xbm(content) is Ok,
    ensures
        ({
            let (w, h, bw, rows) = spec_parse_xbm(content)->Ok_0;
            &&& bw > 0
            &&& bw == w / 8 + 1
            &&& forall|r: int| 0 <= r < rows.len() ==> (#[trigger] rows[r]).len() == bw
        }),
{
    let (w, h, bw, rows) = spec_parse_xbm(content)->Ok_0;
    let lines = text_lines(content);
    let i = first_match_from(lines, 0, define_prefix())->Some_0;
    lemma_parsed_value_nonneg(after_last_space(lines[i]), 10, usize::MAX as int);
    assert forall|r: int| 0 <= r < rows.len() implies (#[trigger] rows[r]).len() == bw by {
        let lines = text_lines(content);
        let i = first_match_from(lines, 0, define_prefix())->Some_0;
        let j = first_match_from(lines, i + 1, define_prefix())->Some_0;
        let k = first_match_from(lines, j + 1, data_prefix())->Some_0;
        let data = lines.skip(k + 1).flatten();
        let bytes = piece_bytes(data_pieces(data));
        lemma_parsed_value_nonneg(after_last_space(lines[i]), 10, usize::MAX as int);
        assert(w >= 0);
        assert(spec_parse_data(data, w) == Ok::<(int, Seq<Seq<u8>>), XbmError>((bw, rows)));
        assert(bw == byte_width_for(w) && bw > 0);
        assert(rows == chunk_rows(bytes, bw));
        assert(r < (bytes.len() as int) / bw);
        assert(r * bw + bw <= bytes.len()) by (nonlinear_arith)
            requires
                0 <= r < (bytes.len() as int) / bw,
                bw > 0,
        ;
        assert(0 <= r * bw) by (nonlinear_arith)
            requires
                0 <= r,
                bw > 0,
        ;
    }
}

/// Finds the next line with `prefix`, stating the result over `first_match_from`.
fn find_line(lines: &mut LineCursor, prefix: &[u8]) -> (found: Option<Vec<u8>>)
    requires
        old(lines).wf(),
    ensures
        final(lines).wf(),
        final(lines).all_lines() == old(lines).all_lines(),
        match first_match_from(old(lines).all_lines(), old(lines).position() as int, prefix@) {
            Some(i) => found matches Some(line) && line@ == old(lines).all_lines()[i]
                && final(lines).position() == i + 1,
            None => found is None,
        },
{
    let ghost all = lines.all_lines();
    let ghost from = lines.position() as int;
    match next_starting_with(lines, prefix) {
        Ok(line) => {
            proof {
                lemma_first_match_found(all, from, lines.position() - 1, prefix@);
            }
            Some(line)
        },
        Err(()) => {
            proof {
                lemma_first_match_none(all, from, prefix@);
            }
            None
        },
    }
}

/// The first `n` bytes of `s`.
fn take_prefix(s: &[u8], n: usize) -> (out: Vec<u8>)
    requires
        n <= s@.len(),
    ensures
        out@ == s@.subrange(0, n as int),
{
    let mut out: Vec<u8> = Vec::new();
    let mut i: usize = 0;
    while i < n
        invariant
            i <= n <= s@.len(),
            out@ == s@.subrange(0, i as int),
        decreases n - i,
    {
        out.push(s[i]);
        i = i + 1;
        assert(out@ =~= s@.subrange(0, i as int));
    }
    out
}

/// Cuts `bytes` into rows of `w` bytes, dropping a shorter remainder, as
/// `chunks_exact` does.
pub fn cut_rows(bytes: &[u8], w: usize) -> (rows: Vec<Vec<u8>>)
    requires
        w > 0,
    ensures
        views(rows@) == chunk_rows(bytes@, w as int),
{
    let mut rows: Vec<Vec<u8>> = Vec::new();
    let count = bytes.len() / w;
    let mut r: usize = 0;
    while r < count
        invariant
            w > 0,
            count == (bytes@.len() as int) / (w as int),
            bytes@.len() <= usize::MAX,
            r <= count,
            views(rows@) == chunk_rows(bytes@, w as int).subrange(0, r as int),
        decreases count - r,
    {
        proof {
            assert((r as int) * (w as int) + (w as int) <= bytes@.len()) by (nonlinear_arith)
                requires
                    r < count,
                    count == (bytes@.len() as int) / (w as int),
                    w > 0,
            ;
        }
        let start = r * w;
        let mut row: Vec<u8> = Vec::new();
        let mut k: usize = 0;
        while k < w
            invariant
                w > 0,
                start + w <= bytes@.len(),
                bytes@.len() <= usize::MAX,
                k <= w,
                row@ == bytes@.subrange(start as int, start + k),
            decreases w - k,
        {
            row.push(bytes[start + k]);
            k = k + 1;
            assert(row@ =~= bytes@.subrange(start as int, start + k));
        }
        let ghost before = views(rows@);
        rows.push(row);
        r = r + 1;
        proof {
            assert(views(rows@) =~= before.push(row@));
            assert(views(rows@) =~= chunk_rows(bytes@, w as int).subrange(0, r as int));
        }
    }
    assert(chunk_rows(bytes@, w as int).subrange(0, count as int) =~= chunk_rows(bytes@, w as int));
    rows
}

/// Parses the pixel bytes that follow the data line, for an image `width` wide.
fn parse_data(data: &[u8], width: usize) -> (r: Result<(usize, Vec<Vec<u8>>), XbmError>)
    ensures
        match (r, spec_parse_data(data@, width as int)) {
            (Ok((bw, rows)), Ok((sbw, srows))) => bw == sbw && views(rows@) == srows,
            (Err(e), Err(f)) => e == f,
            _ => false,
        },
{
    let n = data.len();
    if n < 2 || data[n - 2] != 0x7du8 || data[n - 1] != 0x3bu8 {
        proof {
            if n >= 2 {
                let tail = data@.subrange(n - 2, n as int);
                assert(tail[0] == data@[n - 2]);
                assert(tail[1] == data@[n - 1]);
            }
        }
        return Err(XbmError::MissingSuffix);
    }
    assert(data@.subrange(n - 2, n as int) =~= data_suffix());
    let pixels = take_prefix(data, n - 2);
    let no_lf = remove_byte(pixels.as_slice(), LF);
    let cleaned = remove_byte(no_lf.as_slice(), SPACE);
    let pieces = split_bytes(cleaned.as_slice(), COMMA);
    let ghost spieces = data_pieces(data@);
    assert(views(pieces@) == spieces);
    let mut bytes: Vec<u8> = Vec::new();
    let mut i: usize = 0;
    while i < pieces.len()
        invariant
            i <= pieces@.len(),
            views(pieces@) == spieces,
            spieces == data_pieces(data@),
            has_data_suffix(data@),
            bytes@.len() == i,
            forall|j: int| 0 <= j < i ==> (#[trigger] piece_value(spieces[j])) is Some,
            forall|j: int|
                0 <= j < i ==> #[trigger] bytes@[j] == piece_value(spieces[j]).unwrap() as u8,
        decreases pieces@.len() - i,
    {
        let trimmed = trim_hex_prefixes(pieces[i].as_slice());
        proof {
            assert(spieces[i as int] == pieces@[i as int]@);
        }
        match parse_unsigned(trimmed.as_slice(), 16, 255) {
            Some(v) => {
                bytes.push(v as u8);
            },
            None => {
                proof {
                    assert(piece_value(spieces[i as int]) is None);
                    assert(!pieces_are_bytes(spieces));
                }
                return Err(XbmError::BadHexByte);
            },
        }
        i = i + 1;
    }
    assert(bytes@ =~= piece_bytes(spieces));
    let byte_width = crate::image::convert_image_width_to_byte_width(width);
    let rows = cut_rows(bytes.as_slice(), byte_width);
    Ok((byte_width, rows))
}

/// Parses an XBM file: the width and height from the first two `#define` lines,
/// then the comma-separated hexadecimal pixel bytes that follow the
/// `static unsigned char` line, up to the closing `};`, cut into rows of `byte_width` bytes.
pub fn parse_xbm(content: &[u8]) -> (r: Result<XbmImage, XbmError>)
    ensures
        match (r, spec_parse_xbm(content@)) {
            (Ok(img), Ok((w, h, bw, rows))) => img.width == w && img.height == h && img.byte_width
                == bw && views(img.rows@) == rows,
            (Err(e), Err(f)) => e == f,
            _ => false,
        },
{
    let mut lines = LineCursor::new(content);
    let ghost all = lines.all_lines();
    let define = define_prefix_bytes();
    let width_line = match find_line(&mut lines, define.as_slice()) {
        Some(l) => l,
        None => {
            return Err(XbmError::MissingWidthDefine);
        },
    };
    let width = match define_line_value(width_line.as_slice()) {
        Some(v) => v,
        None => {
            return Err(XbmError::BadWidth);
        },
    };
    let height_line = match find_line(&mut lines, define.as_slice()) {
        Some(l) => l,
        None => {
            return Err(XbmError::MissingHeightDefine);
        },
    };
    let height = match define_line_value(height_line.as_slice()) {
        Some(v) => v,
        None => {
            return Err(XbmError::BadHeight);
        },
    };
    let data_line_prefix = data_prefix_bytes();
    match find_line(&mut lines, data_line_prefix.as_slice()) {
        Some(_) => {},
        None => {
            return Err(XbmError::MissingData);
        },
    }
    let rest = lines.collect_rest();
    match parse_data(rest.as_slice(), width) {
        Ok((byte_width, rows)) => Ok(XbmImage { width, height, byte_width, rows }),
        Err(e) => Err(e),
    }
}

/// Parses the value of a `#define` line: its last space-separated field.
pub fn define_line_value(line: &[u8]) -> (value: Option<usize>)
    ensures
        match value {
            Some(v) => define_value(line@) == Some(v as int),
            None => define_value(line@) is None,
        },
{
    let field = last_field(line);
    match parse_unsigned(field.as_slice(), 10, usize::MAX as u64) {
        Some(v) => Some(v as usize),
        None => None,
    }
}


} // verus!
