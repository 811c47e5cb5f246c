//! Paths into the sources that a release of the Rust toolchain was built
//! from.

use crate::dep::rust_repo;
use crate::dep::{
    components, find_named, first_named, is_absolute, join_parts, joined, remainder, rest_after,
    span_text, spans, to_chars, Part, PartKind,
};
use crate::style::{dim_code, dimmed, is_rendering};
use vstd::prelude::*;

verus! {

/// A path below `/rustc/<commit>/`, such as
/// `/rustc/9bc8c42bb2f19e745a63f3445f1ac248fb015e53/library/core/src/panicking.rs`.
#[derive(Debug, PartialEq)]
pub struct Path {
    pub rustc_prefix: String,
    pub rust_repo_path: rust_repo::Path,
}

/// What a [`Path`] holds.
pub ghost struct Shape {
    pub rustc_prefix: Seq<char>,
    pub rust_repo_path: rust_repo::Shape,
}

impl View for Path {
    type V = Shape;

    open spec fn view(&self) -> Shape {
        Shape { rustc_prefix: self.rustc_prefix@, rust_repo_path: self.rust_repo_path@ }
    }
}

/// The name of the directory that the sources of a release lie under.
pub open spec fn rustc_word() -> Seq<char> {
    "rustc"@
}

/// `c` is a digit of base 16.
pub open spec fn is_hex_char(c: char) -> bool {
    ('0' <= c <= '9') || ('a' <= c <= 'f') || ('A' <= c <= 'F')
}

/// `text` is made of digits of base 16 alone.
pub open spec fn all_hex_chars(text: Seq<char>) -> bool {
    forall|i: int| 0 <= i < text.len() ==> is_hex_char(#[trigger] text[i])
}

/// The path read as one into the sources of a release. It is absolute; after
/// its first plain component `rustc` comes a plain component made of digits
/// of base 16, the commit. Everything up to the commit is the prefix, what
/// follows it is read as a path into the repository.
pub open spec fn shape(path: Seq<char>) -> Option<Shape> {
    let list = spans(path);
    let k = first_named(path, list, rustc_word(), 0);
    if is_absolute(path) && k + 1 < list.len() && list[k + 1].kind == PartKind::Normal
        && all_hex_chars(span_text(path, list[k + 1])) {
        Some(
            Shape {
                rustc_prefix: joined(path, list.take(k + 2)),
                rust_repo_path: rust_repo::shape(remainder(path, list, k + 1)),
            },
        )
    } else {
        None
    }
}

/// The short rendering: `[rust]`, then the path into the repository.
pub open spec fn short_form(s: Shape) -> Seq<char> {
    seq!['[', 'r', 'u', 's', 't', ']', '/'] + rust_repo::form(s.rust_repo_path)
}

/// The highlighted rendering for a prefix and a path into the repository
/// that have been rendered already.
pub open spec fn highlight_form(prefix: Seq<char>, inner: Seq<char>) -> Seq<char> {
    prefix + seq!['/'] + inner
}

/// `out` is a highlighted rendering of the path: the prefix stands in it in
/// some rendering of the dimmed style, then comes a highlighted rendering of
/// the path into the repository.
pub open spec fn is_highlight(out: Seq<char>, s: Shape) -> bool {
    exists|prefix: Seq<char>, inner: Seq<char>|
        is_rendering(prefix, s.rustc_prefix, dim_code()) && rust_repo::is_highlight(
            inner,
            s.rust_repo_path,
        ) && out == #[trigger] highlight_form(prefix, inner)
}

/// Whether `c` is a digit of base 16.
pub fn is_hex_digit(c: char) -> (r: bool)
    ensures
        r == is_hex_char(c),
{
    ('0' <= c && c <= '9') || ('a' <= c && c <= 'f') || ('A' <= c && c <= 'F')
}

/// Whether the text of the component is made of digits of base 16 alone.
pub fn part_is_hex(chars: &Vec<char>, part: &Part) -> (r: bool)
    requires
        part.start <= part.end <= chars@.len(),
    ensures
        r == all_hex_chars(span_text(chars@, part@)),
{
    let ghost text = span_text(chars@, part@);
    let mut i: usize = part.start;
    while i < part.end
        invariant
            part.start <= i <= part.end <= chars@.len(),
            text == span_text(chars@, part@),
            forall|j: int| 0 <= j < i - part.start ==> is_hex_char(#[trigger] text[j]),
        decreases part.end - i,
    {
        if !is_hex_digit(chars[i]) {
            assert(!is_hex_char(text[i - part.start]));
            return false;
        }
        i += 1;
    }
    true
}

impl Path {
    /// Reads a path into the sources of a release, if it is one.
    pub fn from_std_path(path: &str) -> (r: Option<Path>)
        ensures
            match r {
                Some(p) => shape(path@) == Some(p@),
                None => shape(path@) is None,
            },
    {
        let chars = to_chars(path);
        if chars.len() == 0 || chars[0] != '/' {
            return None;
        }
        let parts = components(&chars);
        let ghost list = spans(path@);
        let rustc_name = to_chars("rustc");
        let k: usize = find_named(&chars, &parts, &rustc_name);
        let n: usize = parts.len();
        if n < 2 || k >= n - 1 {
            return None;
        }
        assert(list[k + 1] == parts@[k + 1]@);
        if !matches!(parts[k + 1].kind, PartKind::Normal) || !part_is_hex(&chars, &parts[k + 1]) {
            return None;
        }
        let rest = rest_after(path, &parts, k + 1);
        Some(
            Path {
                rustc_prefix: join_parts(path, &chars, &parts, k + 2),
                rust_repo_path: rust_repo::Path::from_std_path(rest.as_str()),
            },
        )
    }

    /// The short rendering, such as `[rust]/library/core/src/panicking.rs`.
    pub fn format_short(&self) -> (r: String)
        ensures
            r@ == short_form(self@),
    {
        proof {
            reveal_strlit("[rust]/");
        }
        let inner = self.rust_repo_path.format();
        let mut out = "[rust]/".to_owned();
        out.append(inner.as_str());
        assert(out@ =~= short_form(self@));
        out
    }

    /// The highlighted rendering for a prefix and a path into the repository
    /// that have been rendered already.
    pub fn highlight_with(prefix: &str, inner: &str) -> (r: String)
        ensures
            r@ == highlight_form(prefix@, inner@),
    {
        proof {
            reveal_strlit("/");
        }
        let mut out = prefix.to_owned();
        out.append("/");
        out.append(inner);
        assert(out@ =~= highlight_form(prefix@, inner@));
        out
    }

    /// The whole path, with its prefix dimmed and the crate's name, if the
    /// path shows one, in bold.
    pub fn format_highlight(&self) -> (r: String)
        ensures
            is_highlight(r@, self@),
    {
        let prefix = dimmed(self.rustc_prefix.as_str());
        let inner = self.rust_repo_path.format_highlight();
        let out = Path::highlight_with(prefix.as_str(), inner.as_str());
        assert(out@ == highlight_form(prefix@, inner@));
        out
    }
}

} // verus!
