use vstd::prelude::*;

use crate::text_parse::{split_from, split_on};

verus! {

/// The file name of the module index: `mod.rs`.
pub open spec fn mod_file_name() -> Seq<char> {
    seq!['m', 'o', 'd', '.', 'r', 's']
}

/// The extension of a Rust source file: `.rs`.
pub open spec fn rs_extension() -> Seq<char> {
    seq!['.', 'r', 's']
}

/// The module a directory entry stands for: a file other than `mod.rs` whose name
/// ends in `.rs`, without that extension.
pub open spec fn spec_module_name(name: Seq<char>, is_file: bool) -> Option<Seq<char>> {
    if !is_file || name == mod_file_name() {
        None
    } else if name.len() >= 3 && name.subrange(name.len() - 3, name.len() as int) == rs_extension() {
        Some(name.subrange(0, name.len() - 3))
    } else {
        None
    }
}

/// The lowercase form of a text, as `str::to_lowercase` gives it.
pub uninterp spec fn spec_lowercase(s: Seq<char>) -> Seq<char>;

/// Lowercases a text by calling `str::to_lowercase` (std).
/// Trusted: the result is `spec_lowercase` of the text; what Unicode lowercasing
/// does to each character is not stated.
#[verifier::external_body]
fn lowercase(s: &str) -> (lower: String)
    ensures
        lower@ == spec_lowercase(s@),
{
    s.to_lowercase()
}

/// Appends a character by calling `String::push` (std).
/// Trusted: the string afterwards is the old string followed by `c`.
#[verifier::external_body]
fn push_char(s: &mut String, c: char)
    ensures
        final(s)@ == old(s)@.push(c),
{
    s.push(c)
}

/// The ASCII uppercase form of a character: `a` to `z` become `A` to `Z`, every
/// other character stays.
pub open spec fn ascii_upper(c: char) -> char {
    if 'a' <= c && c <= 'z' {
        ((c as u32) - 32) as char
    } else {
        c
    }
}

/// A text with its first character in ASCII uppercase.
pub open spec fn capitalized(s: Seq<char>) -> Seq<char> {
    if s.len() == 0 {
        s
    } else {
        seq![ascii_upper(s[0])] + s.drop_first()
    }
}

/// The enum variant for a module name: each part between underscores, lowercased,
/// with its first character in ASCII uppercase, the parts joined.
pub open spec fn spec_variant_name(name: Seq<char>) -> Seq<char> {
    split_on(name, '_').map_values(|part: Seq<char>| capitalized(spec_lowercase(part))).flatten()
}

/// A file named `stem.rs` stands for module `stem`, unless it is `mod.rs`; a
/// directory never stands for a module.
pub proof fn lemma_module_stem(stem: Seq<char>, is_file: bool)
    ensures
        stem + rs_extension() != mod_file_name() ==> spec_module_name(stem + rs_extension(), is_file)
            == if is_file {
            Some(stem)
        } else {
            None
        },
        spec_module_name(stem, false) is None,
{
    let name = stem + rs_extension();
    assert(name.subrange(name.len() - 3, name.len() as int) =~= rs_extension());
    assert(name.subrange(0, name.len() - 3) =~= stem);
}

/// The ASCII uppercase form of a character.
fn to_ascii_upper(c: char) -> (u: char)
    ensures
        u == ascii_upper(c),
{
    if 'a' <= c && c <= 'z' {
        ((c as u32 - 32) as u8) as char
    } else {
        c
    }
}

/// Whether `s` is exactly the characters of `expected`.
fn text_equals(s: &str, expected: &str) -> (eq: bool)
    ensures
        eq == (s@ == expected@),
{
    let n = s.unicode_len();
    if n != expected.unicode_len() {
        return false;
    }
    let mut i: usize = 0;
    while i < n
        invariant
            n == s@.len() == expected@.len(),
            i <= n,
            forall|j: int| 0 <= j < i ==> s@[j] == expected@[j],
        decreases n - i,
    {
        if s.get_char(i) != expected.get_char(i) {
            return false;
        }
        i = i + 1;
    }
    assert(s@ =~= expected@);
    true
}

/// The module a directory entry stands for: `None` for a directory, for `mod.rs`
/// and for a file that does not end in `.rs`; else the name without `.rs`.
pub fn module_name_for_entry(name: &str, is_file: bool) -> (module: Option<String>)
    ensures
        match module {
            Some(m) => spec_module_name(name@, is_file) == Some(m@),
            None => spec_module_name(name@, is_file) is None,
        },
{
    if !is_file {
        return None;
    }
    let mod_rs = "mod.rs";
    let rs = ".rs";
    proof {
        reveal_strlit("mod.rs");
        reveal_strlit(".rs");
        assert(mod_rs@ =~= mod_file_name());
        assert(rs@ =~= rs_extension());
    }
    if text_equals(name, mod_rs) {
        return None;
    }
    let n = name.unicode_len();
    if n < 3 {
        return None;
    }
    let tail = name.substring_char(n - 3, n);
    if !text_equals(tail, rs) {
        return None;
    }
    Some(String::from_str(name.substring_char(0, n - 3)))
}

/// A text with its first character in ASCII uppercase.
pub fn capitalize(s: &str) -> (out: String)
    ensures
        out@ == capitalized(s@),
{
    let n = s.unicode_len();
    if n == 0 {
        return String::from_str(s);
    }
    let mut out = String::new();
    push_char(&mut out, to_ascii_upper(s.get_char(0)));
    out.append(s.substring_char(1, n));
    assert(out@ =~= capitalized(s@));
    out
}

/// The contents of each string.
pub open spec fn string_views(v: Seq<String>) -> Seq<Seq<char>> {
    v.map_values(|x: String| x@)
}

/// The parts of a module name between underscores, as `split("_")` gives them.
pub fn split_name(name: &str) -> (parts: Vec<String>)
    ensures
        string_views(parts@) == split_on(name@, '_'),
{
    let n = name.unicode_len();
    let mut parts: Vec<String> = Vec::new();
    let mut start: usize = 0;
    let mut i: usize = 0;
    proof {
        assert(name@.skip(0) =~= name@);
        assert(name@.subrange(0, 0) =~= Seq::<char>::empty());
    }
    while i < n
        invariant
            n == name@.len(),
            start <= i <= n,
            string_views(parts@) + split_from(
                name@.skip(i as int),
                '_',
                name@.subrange(start as int, i as int),
            ) == split_on(name@, '_'),
        decreases n - i,
    {
        let c = name.get_char(i);
        proof {
            assert(name@.skip(i as int).drop_first() =~= name@.skip(i + 1));
            assert(name@.skip(i as int)[0] == c);
        }
        if c == '_' {
            let ghost before = string_views(parts@);
            let part = String::from_str(name.substring_char(start, i));
            parts.push(part);
            proof {
                let cur = name@.subrange(start as int, i as int);
                assert(string_views(parts@) =~= before.push(cur));
                assert(name@.subrange((i + 1) as int, (i + 1) as int) =~= Seq::<char>::empty());
                assert(string_views(parts@) + split_from(name@.skip(i + 1), '_', Seq::empty())
                    =~= before + (seq![cur] + split_from(name@.skip(i + 1), '_', Seq::empty())));
            }
            start = i + 1;
        } else {
            proof {
                assert(name@.subrange(start as int, i as int).push(c) =~= name@.subrange(
                    start as int,
                    i + 1,
                ));
            }
        }
        i = i + 1;
    }
    let ghost before = string_views(parts@);
    let part = String::from_str(name.substring_char(start, n));
    parts.push(part);
    proof {
        assert(name@.skip(n as int) =~= Seq::<char>::empty());
        assert(string_views(parts@) =~= before + seq![name@.subrange(start as int, n as int)]);
    }
    parts
}

/// Each part lowercased.
fn lowercase_parts(parts: &Vec<String>) -> (lowered: Vec<String>)
    ensures
        string_views(lowered@) == string_views(parts@).map_values(|p: Seq<char>| spec_lowercase(p)),
{
    let mut lowered: Vec<String> = Vec::new();
    let mut i: usize = 0;
    while i < parts.len()
        invariant
            i <= parts@.len(),
            string_views(lowered@) == string_views(parts@).subrange(0, i as int).map_values(
                |p: Seq<char>| spec_lowercase(p),
            ),
        decreases parts@.len() - i,
    {
        let ghost before = string_views(lowered@);
        let low = lowercase(parts[i].as_str());
        lowered.push(low);
        proof {
            assert(string_views(lowered@) =~= before.push(spec_lowercase(parts@[i as int]@)));
            assert(string_views(parts@)[i as int] == parts@[i as int]@);
        }
        i = i + 1;
        proof {
            assert(string_views(lowered@) =~= string_views(parts@).subrange(0, i as int).map_values(
                |p: Seq<char>| spec_lowercase(p),
            ));
        }
    }
    assert(string_views(parts@).subrange(0, i as int) =~= string_views(parts@));
    lowered
}

/// The parts, each with its first character in ASCII uppercase, joined together.
pub fn join_capitalized(parts: &[String]) -> (joined: String)
    ensures
        joined@ == parts@.map_values(|p: String| capitalized(p@)).flatten(),
{
    let mut joined = String::new();
    let mut i: usize = 0;
    let ghost f = |p: String| capitalized(p@);
    while i < parts.len()
        invariant
            i <= parts@.len(),
            f == (|p: String| capitalized(p@)),
            joined@ == parts@.subrange(0, i as int).map_values(f).flatten(),
        decreases parts@.len() - i,
    {
        let piece = capitalize(parts[i].as_str());
        joined.append(piece.as_str());
        proof {
            assert(parts@.subrange(0, i + 1).map_values(f) =~= parts@.subrange(0, i as int).map_values(
                f,
            ).push(f(parts@[i as int])));
            parts@.subrange(0, i as int).map_values(f).lemma_flatten_push(f(parts@[i as int]));
        }
        i = i + 1;
    }
    assert(parts@.subrange(0, i as int) =~= parts@);
    joined
}

/// The enum variant name for a module name, as the module index uses it: the
/// parts between underscores, each lowercased and capitalized, joined together.
pub fn variant_name(name: &str) -> (variant: String)
    ensures
        variant@ == spec_variant_name(name@),
{
    let parts = split_name(name);
    let lowered = lowercase_parts(&parts);
    let joined = join_capitalized(lowered.as_slice());
    proof {
        let f = |p: Seq<char>| capitalized(spec_lowercase(p));
        let g = |p: String| capitalized(p@);
        assert(string_views(lowered@).len() == lowered@.len());
        assert(string_views(parts@).len() == parts@.len());
        assert(lowered@.len() == parts@.len());
        assert(lowered@.map_values(g) =~= split_on(name@, '_').map_values(f)) by {
            assert forall|k: int| 0 <= k < lowered@.len() implies #[trigger] lowered@.map_values(g)[k]
                == split_on(name@, '_').map_values(f)[k] by {
                assert(string_views(lowered@)[k] == lowered@[k]@);
                assert(string_views(lowered@)[k] == spec_lowercase(string_views(parts@)[k]));
                assert(string_views(parts@)[k] == split_on(name@, '_')[k]);
            }
        }
    }
    joined
}

} // verus!
