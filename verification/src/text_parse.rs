use vstd::prelude::*;

verus! {

/// Line feed.
pub const LF: u8 = 0x0a;

/// Carriage return.
pub const CR: u8 = 0x0d;

/// The contents of each vector.
pub open spec fn views(v: Seq<Vec<u8>>) -> Seq<Seq<u8>> {
    v.map_values(|x: Vec<u8>| x@)
}

/// A line without its trailing carriage return, if it has one.
pub open spec fn strip_cr(line: Seq<u8>) -> Seq<u8> {
    if line.len() > 0 && line.last() == CR {
        line.drop_last()
    } else {
        line
    }
}

/// The lines of `rest`, where `cur` holds the start of the current line: lines end
/// at a line feed, a last line without one counts only when it is not empty, and a
/// carriage return just before a line feed is dropped.
pub open spec fn lines_from(rest: Seq<u8>, cur: Seq<u8>) -> Seq<Seq<u8>>
    decreases rest.len(),
{
    if rest.len() == 0 {
        if cur.len() == 0 {
            Seq::empty()
        } else {
            seq![cur]
        }
    } else if rest[0] == LF {
        seq![strip_cr(cur)] + lines_from(rest.drop_first(), Seq::empty())
    } else {
        lines_from(rest.drop_first(), cur.push(rest[0]))
    }
}

/// The lines of a text, as `str::lines` splits them.
pub open spec fn text_lines(text: Seq<u8>) -> Seq<Seq<u8>> {
    lines_from(text, Seq::empty())
}

/// Splits a text into lines, as `str::lines` does.
pub fn split_lines(text: &[u8]) -> (lines: Vec<Vec<u8>>)
    ensures
        views(lines@) == text_lines(text@),
{
    let mut lines: Vec<Vec<u8>> = Vec::new();
    let mut cur: Vec<u8> = Vec::new();
    let mut i: usize = 0;
    proof {
        assert(text@.skip(0) =~= text@);
    }
    while i < text.len()
        invariant
            i <= text@.len(),
            views(lines@) + lines_from(text@.skip(i as int), cur@) == text_lines(text@),
        decreases text@.len() - i,
    {
        let b = text[i];
        proof {
            assert(text@.skip(i as int).drop_first() =~= text@.skip(i + 1));
            assert(text@.skip(i as int)[0] == b);
        }
        if b == LF {
            let ghost old_lines = views(lines@);
            let ghost old_cur = cur@;
            let mut line = cur;
            cur = Vec::new();
            let n = line.len();
            if n > 0 && line[n - 1] == CR {
                line.pop();
            }
            assert(line@ =~= strip_cr(old_cur));
            lines.push(line);
            proof {
                assert(views(lines@) =~= old_lines.push(strip_cr(old_cur)));
                assert(views(lines@) + lines_from(text@.skip(i + 1), cur@) =~= old_lines + (seq![
                    strip_cr(old_cur),
                ] + lines_from(text@.skip(i + 1), Seq::empty())));
            }
        } else {
            cur.push(b);
        }
        i = i + 1;
    }
    if cur.len() > 0 {
        let ghost old_lines = views(lines@);
        let ghost old_cur = cur@;
        lines.push(cur);
        proof {
            assert(views(lines@) =~= old_lines.push(old_cur));
            assert(text@.skip(i as int) =~= Seq::<u8>::empty());
            assert(views(lines@) =~= old_lines + seq![old_cur]);
        }
    } else {
        proof {
            assert(text@.skip(i as int) =~= Seq::<u8>::empty());
            assert(views(lines@) =~= views(lines@) + Seq::<Seq<u8>>::empty());
        }
    }
    lines
}

/// Whether `line` begins with `prefix`.
pub open spec fn starts_with(line: Seq<u8>, prefix: Seq<u8>) -> bool {
    prefix.len() <= line.len() && line.subrange(0, prefix.len() as int) == prefix
}

/// Whether `line` begins with `prefix`.
pub fn bytes_start_with(line: &[u8], prefix: &[u8]) -> (b: bool)
    ensures
        b == starts_with(line@, prefix@),
{
    if prefix.len() > line.len() {
        return false;
    }
    let mut i: usize = 0;
    while i < prefix.len()
        invariant
            prefix@.len() <= line@.len(),
            i <= prefix@.len(),
            forall|j: int| 0 <= j < i ==> line@[j] == prefix@[j],
        decreases prefix@.len() - i,
    {
        if line[i] != prefix[i] {
            assert(line@.subrange(0, prefix@.len() as int)[i as int] != prefix@[i as int]);
            return false;
        }
        i = i + 1;
    }
    assert(line@.subrange(0, prefix@.len() as int) =~= prefix@);
    true
}

/// A copy of a byte slice.
pub fn copy_bytes(src: &[u8]) -> (out: Vec<u8>)
    ensures
        out@ == src@,
{
    let mut out: Vec<u8> = Vec::new();
    let mut i: usize = 0;
    while i < src.len()
        invariant
            i <= src@.len(),
            out@ == src@.subrange(0, i as int),
        decreases src@.len() - i,
    {
        out.push(src[i]);
        i = i + 1;
        assert(out@ =~= src@.subrange(0, i as int));
    }
    assert(src@.subrange(0, src@.len() as int) =~= src@);
    out
}

/// A position in a list of lines; `next_starting_with` moves it forward.
pub struct LineCursor {
    lines: Vec<Vec<u8>>,
    pos: usize,
}

impl LineCursor {
    /// All lines.
    pub closed spec fn all_lines(&self) -> Seq<Seq<u8>> {
        views(self.lines@)
    }

    /// How many lines were consumed.
    pub closed spec fn position(&self) -> nat {
        self.pos as nat
    }

    /// The cursor does not point past the last line.
    pub open spec fn wf(&self) -> bool {
        self.position() <= self.all_lines().len()
    }

    /// A cursor before the first line of `text`.
    pub fn new(text: &[u8]) -> (cursor: Self)
        ensures
            cursor.wf(),
            cursor.all_lines() == text_lines(text@),
            cursor.position() == 0,
    {
        LineCursor { lines: split_lines(text), pos: 0 }
    }

    /// The lines not consumed yet, laid end to end.
    pub fn collect_rest(&self) -> (rest: Vec<u8>)
        requires
            self.wf(),
        ensures
            rest@ == self.all_lines().skip(self.position() as int).flatten(),
    {
        let mut rest: Vec<u8> = Vec::new();
        let mut i: usize = self.pos;
        proof {
            assert(self.all_lines().skip(self.pos as int).skip(0) =~= self.all_lines().skip(
                self.pos as int,
            ));
        }
        while i < self.lines.len()
            invariant
                self.pos <= i <= self.lines@.len(),
                rest@ + self.all_lines().skip(i as int).flatten() == self.all_lines().skip(
                    self.pos as int,
                ).flatten(),
            decreases self.lines@.len() - i,
        {
            let line = &self.lines[i];
            let ghost before = rest@;
            let mut k: usize = 0;
            while k < line.len()
                invariant
                    k <= line@.len(),
                    rest@ == before + line@.subrange(0, k as int),
                decreases line@.len() - k,
            {
                rest.push(line[k]);
                k = k + 1;
                assert(rest@ =~= before + line@.subrange(0, k as int));
            }
            proof {
                assert(line@.subrange(0, line@.len() as int) =~= line@);
                let tail = self.all_lines().skip(i as int);
                assert(tail[0] == line@);
                assert(tail.drop_first() =~= self.all_lines().skip(i + 1));
                assert(tail.flatten() == tail[0] + tail.drop_first().flatten());
                assert(rest@ + self.all_lines().skip(i + 1).flatten() =~= before + tail.flatten());
            }
            i = i + 1;
        }
        proof {
            assert(self.all_lines().skip(i as int) =~= Seq::<Seq<u8>>::empty());
            assert(rest@ + Seq::<u8>::empty() =~= rest@);
        }
        rest
    }
}

/// Moves the cursor past the next line that starts with `prefix` and returns a
/// copy of that line; when no line is left that does, consumes every line and
/// returns `Err(())`.
pub fn next_starting_with(lines: &mut LineCursor, prefix: &[u8]) -> (found: Result<Vec<u8>, ()>)
    requires
        old(lines).wf(),
    ensures
        final(lines).wf(),
        final(lines).all_lines() == old(lines).all_lines(),
        forall|j: int|
            old(lines).position() <= j < final(lines).position() - 1 ==> !starts_with(
                #[trigger] old(lines).all_lines()[j],
                prefix@,
            ),
        match found {
            Ok(line) => {
                &&& old(lines).position() < final(lines).position()
                &&& starts_with(old(lines).all_lines()[final(lines).position() - 1], prefix@)
                &&& line@ == old(lines).all_lines()[final(lines).position() - 1]
            },
            Err(()) => {
                &&& final(lines).position() == old(lines).all_lines().len()
                &&& forall|j: int|
                    old(lines).position() <= j < old(lines).all_lines().len() ==> !starts_with(
                        #[trigger] old(lines).all_lines()[j],
                        prefix@,
                    )
            },
        },
{
    let ghost start = lines.pos as int;
    while lines.pos < lines.lines.len()
        invariant
            start <= lines.pos <= lines.lines@.len(),
            lines.all_lines() == old(lines).all_lines(),
            start == old(lines).position(),
            forall|j: int|
                start <= j < lines.pos ==> !starts_with(#[trigger] lines.all_lines()[j], prefix@),
        decreases lines.lines@.len() - lines.pos,
    {
        let i = lines.pos;
        lines.pos = i + 1;
        let is_match = bytes_start_with(lines.lines[i].as_slice(), prefix);
        proof {
            assert(lines.all_lines()[i as int] == lines.lines@[i as int]@);
        }
        if is_match {
            return Ok(copy_bytes(lines.lines[i].as_slice()));
        }
    }
    Err(())
}

/// The maximal part of `s` after its last space (all of `s` when it holds none).
pub open spec fn after_last_space(s: Seq<u8>) -> Seq<u8>
    decreases s.len(),
{
    if s.len() == 0 {
        s
    } else if s.last() == 0x20u8 {
        Seq::empty()
    } else {
        after_last_space(s.drop_last()).push(s.last())
    }
}

/// The last field of `s` when split on spaces, as `split(" ").last()` gives it.
pub fn last_field(s: &[u8]) -> (field: Vec<u8>)
    ensures
        field@ == after_last_space(s@),
{
    let mut start: usize = s.len();
    proof {
        assert(s@.subrange(0, s@.len() as int) =~= s@);
        assert(s@.subrange(s@.len() as int, s@.len() as int) =~= Seq::<u8>::empty());
        assert(after_last_space(s@) + Seq::<u8>::empty() =~= after_last_space(s@));
    }
    while start > 0 && s[start - 1] != 0x20u8
        invariant
            start <= s@.len(),
            after_last_space(s@) == after_last_space(s@.subrange(0, start as int)) + s@.subrange(
                start as int,
                s@.len() as int,
            ),
        decreases start,
    {
        proof {
            let pre = s@.subrange(0, start as int);
            assert(pre.drop_last() =~= s@.subrange(0, start - 1));
            assert(pre.last() == s@[start - 1]);
            assert(s@.subrange(start - 1, s@.len() as int) =~= seq![s@[start - 1]]
                + s@.subrange(start as int, s@.len() as int));
            assert(after_last_space(pre) == after_last_space(pre.drop_last()).push(pre.last()));
            assert(after_last_space(pre) + s@.subrange(start as int, s@.len() as int)
                =~= after_last_space(s@.subrange(0, start - 1)) + s@.subrange(start - 1, s@.len() as int));
        }
        start = start - 1;
    }
    proof {
        let pre = s@.subrange(0, start as int);
        if start > 0 {
            assert(pre.last() == 0x20u8);
        }
        assert(after_last_space(pre) =~= Seq::<u8>::empty());
    }
    let mut field: Vec<u8> = Vec::new();
    let mut i: usize = start;
    while i < s.len()
        invariant
            start <= i <= s@.len(),
            field@ == s@.subrange(start as int, i as int),
        decreases s@.len() - i,
    {
        field.push(s[i]);
        i = i + 1;
        assert(field@ =~= s@.subrange(start as int, i as int));
    }
    assert(Seq::<u8>::empty() + s@.subrange(start as int, s@.len() as int) =~= field@);
    field
}

/// The value of digit byte `b` in base `radix` (10 or 16), if it is one.
pub open spec fn digit_value(b: u8, radix: u32) -> Option<int> {
    if 0x30 <= b <= 0x39 && (b - 0x30) < radix {
        Some(b - 0x30)
    } else if radix == 16 && 0x61 <= b <= 0x66 {
        Some(b - 0x61 + 10)
    } else if radix == 16 && 0x41 <= b <= 0x46 {
        Some(b - 0x41 + 10)
    } else {
        None
    }
}

/// Whether every byte of `s` is a digit in base `radix`.
pub open spec fn all_digits(s: Seq<u8>, radix: u32) -> bool {
    forall|i: int| 0 <= i < s.len() ==> (#[trigger] digit_value(s[i], radix)) is Some
}

/// The number the digits of `s` stand for in base `radix`.
pub open spec fn digits_value(s: Seq<u8>, radix: u32) -> int
    decreases s.len(),
{
    if s.len() == 0 {
        0
    } else {
        digits_value(s.drop_last(), radix) * radix + digit_value(s.last(), radix).unwrap()
    }
}

/// The digits of a number text: without one leading `+`, if there is one.
pub open spec fn unsigned_digits(s: Seq<u8>) -> Seq<u8> {
    if s.len() > 0 && s[0] == 0x2bu8 {
        s.drop_first()
    } else {
        s
    }
}

/// What `from_str_radix` gives for an unsigned type whose largest value is `max`:
/// an optional `+`, then at least one digit, and a value that fits.
pub open spec fn spec_parse_unsigned(s: Seq<u8>, radix: u32, max: int) -> Option<int> {
    let d = unsigned_digits(s);
    if d.len() > 0 && all_digits(d, radix) && digits_value(d, radix) <= max {
        Some(digits_value(d, radix))
    } else {
        None
    }
}

/// A parsed number is never negative.
pub proof fn lemma_parsed_value_nonneg(s: Seq<u8>, radix: u32, max: int)
    requires
        radix == 10 || radix == 16,
        spec_parse_unsigned(s, radix, max) is Some,
    ensures
        spec_parse_unsigned(s, radix, max)->Some_0 >= 0,
{
    lemma_digits_value_nonneg(unsigned_digits(s), radix);
}

proof fn lemma_digits_value_nonneg(s: Seq<u8>, radix: u32)
    requires
        all_digits(s, radix),
        radix == 10 || radix == 16,
    ensures
        digits_value(s, radix) >= 0,
    decreases s.len(),
{
    if s.len() > 0 {
        assert(all_digits(s.drop_last(), radix)) by {
            assert forall|i: int| 0 <= i < s.drop_last().len() implies (#[trigger] digit_value(
                s.drop_last()[i],
                radix,
            )) is Some by {
                assert(s.drop_last()[i] == s[i]);
            }
        }
        lemma_digits_value_nonneg(s.drop_last(), radix);
        assert(digit_value(s[s.len() - 1], radix) is Some);
        assert(digits_value(s.drop_last(), radix) * radix >= 0) by (nonlinear_arith)
            requires
                digits_value(s.drop_last(), radix) >= 0,
                radix >= 10,
        ;
    }
}

/// The value of one digit byte in base `radix`.
fn digit_of(b: u8, radix: u32) -> (d: Option<u32>)
    requires
        radix == 10 || radix == 16,
    ensures
        match d {
            Some(v) => digit_value(b, radix) == Some(v as int) && v < radix,
            None => digit_value(b, radix) is None,
        },
{
    if 0x30 <= b && b <= 0x39 && ((b - 0x30) as u32) < radix {
        Some((b - 0x30) as u32)
    } else if radix == 16 && 0x61 <= b && b <= 0x66 {
        Some((b - 0x61 + 10) as u32)
    } else if radix == 16 && 0x41 <= b && b <= 0x46 {
        Some((b - 0x41 + 10) as u32)
    } else {
        None
    }
}

/// Parses an unsigned number in base `radix` with largest allowed value `max`, as
/// `from_str_radix` does for an unsigned type with that maximum.
pub fn parse_unsigned(s: &[u8], radix: u32, max: u64) -> (value: Option<u64>)
    requires
        radix == 10 || radix == 16,
    ensures
        match value {
            Some(v) => spec_parse_unsigned(s@, radix, max as int) == Some(v as int),
            None => spec_parse_unsigned(s@, radix, max as int) is None,
        },
{
    let start: usize = if s.len() > 0 && s[0] == 0x2bu8 {
        1
    } else {
        0
    };
    let ghost d = unsigned_digits(s@);
    assert(d =~= s@.subrange(start as int, s@.len() as int));
    if start >= s.len() {
        return None;
    }
    let mut acc: u64 = 0;
    let mut i: usize = start;
    let mut overflow: bool = false;
    assert(d.subrange(0, 0) =~= Seq::<u8>::empty());
    while i < s.len()
        invariant
            start <= i <= s@.len(),
            d == s@.subrange(start as int, s@.len() as int),
            d == unsigned_digits(s@),
            radix == 10 || radix == 16,
            all_digits(d.subrange(0, i - start), radix),
            !overflow ==> acc as int == digits_value(d.subrange(0, i - start), radix),
            !overflow ==> acc <= max,
            overflow ==> digits_value(d.subrange(0, i - start), radix) > max,
        decreases s@.len() - i,
    {
        let ghost pre = d.subrange(0, i - start);
        let ghost next = d.subrange(0, i + 1 - start);
        proof {
            assert(next.drop_last() =~= pre);
            assert(next.last() == s@[i as int]);
            lemma_digits_value_nonneg(pre, radix);
        }
        match digit_of(s[i], radix) {
            None => {
                proof {
                    assert(d[i - start] == s@[i as int]);
                    assert(digit_value(d[i - start], radix) is None);
                    assert(!all_digits(d, radix));
                }
                return None;
            },
            Some(dv) => {
                proof {
                    assert forall|j: int| 0 <= j < next.len() implies (#[trigger] digit_value(
                        next[j],
                        radix,
                    )) is Some by {
                        if j < pre.len() {
                            assert(next[j] == pre[j]);
                        }
                    }
                    assert(digits_value(next, radix) == digits_value(pre, radix) * radix + dv);
                }
                if !overflow {
                    match acc.checked_mul(radix as u64) {
                        Some(m) => match m.checked_add(dv as u64) {
                            Some(v) => {
                                if v <= max {
                                    acc = v;
                                } else {
                                    overflow = true;
                                }
                            },
                            None => {
                                overflow = true;
                            },
                        },
                        None => {
                            proof {
                                assert(digits_value(next, radix) >= acc * radix) by (nonlinear_arith)
                                    requires
                                        digits_value(next, radix) == acc * radix + dv,
                                        dv >= 0,
                                ;
                            }
                            overflow = true;
                        },
                    }
                } else {
                    proof {
                        assert(digits_value(next, radix) >= digits_value(pre, radix)) by (
                        nonlinear_arith)
                            requires
                                digits_value(next, radix) == digits_value(pre, radix) * radix + dv,
                                digits_value(pre, radix) >= 0,
                                radix >= 1,
                                dv >= 0,
                        ;
                    }
                }
            },
        }
        i = i + 1;
    }
    assert(d.subrange(0, i - start) =~= d);
    if overflow {
        None
    } else {
        Some(acc)
    }
}

/// `s` without every byte equal to `b`.
pub open spec fn without_byte(s: Seq<u8>, b: u8) -> Seq<u8> {
    s.filter(|x: u8| x != b)
}

/// Removes every occurrence of byte `b`, as `replace` with an empty replacement does.
pub fn remove_byte(s: &[u8], b: u8) -> (out: Vec<u8>)
    ensures
        out@ == without_byte(s@, b),
{
    let mut out: Vec<u8> = Vec::new();
    let mut i: usize = 0;
    while i < s.len()
        invariant
            i <= s@.len(),
            out@ == without_byte(s@.subrange(0, i as int), b),
        decreases s@.len() - i,
    {
        proof {
            let pre = s@.subrange(0, i as int);
            let next = s@.subrange(0, i + 1);
            assert(next.drop_last() =~= pre);
            reveal_with_fuel(Seq::filter, 1);
            assert(next.filter(|x: u8| x != b) == if next.last() != b {
                pre.filter(|x: u8| x != b).push(next.last())
            } else {
                pre.filter(|x: u8| x != b)
            });
        }
        if s[i] != b {
            out.push(s[i]);
        }
        i = i + 1;
    }
    assert(s@.subrange(0, s@.len() as int) =~= s@);
    out
}

/// The pieces of `rest` between separators, where `cur` holds the start of the
/// current piece; the last piece counts even when empty.
pub open spec fn split_from<T>(rest: Seq<T>, sep: T, cur: Seq<T>) -> Seq<Seq<T>>
    decreases rest.len(),
{
    if rest.len() == 0 {
        seq![cur]
    } else if rest[0] == sep {
        seq![cur] + split_from(rest.drop_first(), sep, Seq::empty())
    } else {
        split_from(rest.drop_first(), sep, cur.push(rest[0]))
    }
}

/// The pieces of `s` between separators, as `split` gives them.
pub open spec fn split_on<T>(s: Seq<T>, sep: T) -> Seq<Seq<T>> {
    split_from(s, sep, Seq::empty())
}

/// Splits `s` at every `sep`, as `split` does.
pub fn split_bytes(s: &[u8], sep: u8) -> (pieces: Vec<Vec<u8>>)
    ensures
        views(pieces@) == split_on(s@, sep),
{
    let mut pieces: Vec<Vec<u8>> = Vec::new();
    let mut cur: Vec<u8> = Vec::new();
    let mut i: usize = 0;
    proof {
        assert(s@.skip(0) =~= s@);
    }
    while i < s.len()
        invariant
            i <= s@.len(),
            views(pieces@) + split_from(s@.skip(i as int), sep, cur@) == split_on(s@, sep),
        decreases s@.len() - i,
    {
        let b = s[i];
        proof {
            assert(s@.skip(i as int).drop_first() =~= s@.skip(i + 1));
            assert(s@.skip(i as int)[0] == b);
        }
        if b == sep {
            let ghost old_pieces = views(pieces@);
            let ghost old_cur = cur@;
            let piece = cur;
            cur = Vec::new();
            pieces.push(piece);
            proof {
                assert(views(pieces@) =~= old_pieces.push(old_cur));
                assert(views(pieces@) + split_from(s@.skip(i + 1), sep, cur@) =~= old_pieces + (seq![
                    old_cur,
                ] + split_from(s@.skip(i + 1), sep, Seq::empty())));
            }
        } else {
            cur.push(b);
        }
        i = i + 1;
    }
    let ghost old_pieces = views(pieces@);
    let ghost old_cur = cur@;
    pieces.push(cur);
    proof {
        assert(s@.skip(i as int) =~= Seq::<u8>::empty());
        assert(views(pieces@) =~= old_pieces + seq![old_cur]);
    }
    pieces
}

/// `s` without every leading `"0x"`, as `trim_start_matches("0x")` gives it.
pub open spec fn trim_hex_prefix(s: Seq<u8>) -> Seq<u8>
    decreases s.len(),
{
    if s.len() >= 2 && s[0] == 0x30u8 && s[1] == 0x78u8 {
        trim_hex_prefix(s.skip(2))
    } else {
        s
    }
}

/// Removes every leading `"0x"`, as `trim_start_matches("0x")` does.
pub fn trim_hex_prefixes(s: &[u8]) -> (out: Vec<u8>)
    ensures
        out@ == trim_hex_prefix(s@),
{
    let mut start: usize = 0;
    assert(s@.skip(0) =~= s@);
    while s.len() - start >= 2 && s[start] == 0x30u8 && s[start + 1] == 0x78u8
        invariant
            start <= s@.len(),
            trim_hex_prefix(s@.skip(start as int)) == trim_hex_prefix(s@),
        decreases s@.len() - start,
    {
        assert(s@.skip(start as int).skip(2) =~= s@.skip(start + 2));
        start = start + 2;
    }
    let mut out: Vec<u8> = Vec::new();
    let mut i: usize = start;
    while i < s.len()
        invariant
            start <= i <= s@.len(),
            out@ == s@.subrange(start as int, i as int),
        decreases s@.len() - i,
    {
        out.push(s[i]);
        i = i + 1;
        assert(out@ =~= s@.subrange(start as int, i as int));
    }
    assert(out@ =~= s@.skip(start as int));
    out
}

} // verus!
