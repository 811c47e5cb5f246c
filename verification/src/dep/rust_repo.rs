//! Paths into the repository of the Rust toolchain.

use crate::dep::{
    components, part_is_named, part_text, remainder, rest_after, span_text, spans, spans_of,
    to_chars, PartKind,
};
use crate::style::{bold, bold_code, is_rendering};
use vstd::prelude::*;

verus! {

/// A path in the layout that the repository has had since Rust 1.52, such as
/// `library/core/src/panic.rs`.
#[derive(Debug, PartialEq)]
pub struct One52Path {
    pub library: String,
    pub crate_name: String,
    pub path: String,
}

/// A path into the repository of the Rust toolchain.
#[derive(Debug, PartialEq)]
pub enum Path {
    One52(One52Path),
    Verbatim(String),
}

/// What a [`One52Path`] holds.
pub ghost struct One52Shape {
    pub library: Seq<char>,
    pub crate_name: Seq<char>,
    pub path: Seq<char>,
}

/// What a [`Path`] holds.
pub ghost enum Shape {
    One52(One52Shape),
    Verbatim(Seq<char>),
}

impl View for One52Path {
    type V = One52Shape;

    open spec fn view(&self) -> One52Shape {
        One52Shape { library: self.library@, crate_name: self.crate_name@, path: self.path@ }
    }
}

impl View for Path {
    type V = Shape;

    open spec fn view(&self) -> Shape {
        match self {
            Path::One52(p) => Shape::One52(p@),
            Path::Verbatim(p) => Shape::Verbatim(p@),
        }
    }
}

/// The name of the directory that holds the crates of the toolchain.
pub open spec fn library_word() -> Seq<char> {
    "library"@
}

/// The path read in the layout of Rust 1.52: its first component is the plain
/// name `library`, its second a plain name, the crate's; the rest is the path
/// within the crate.
pub open spec fn one52_shape(path: Seq<char>) -> Option<One52Shape> {
    let list = spans(path);
    if list.len() >= 2 && list[0].kind == PartKind::Normal && span_text(path, list[0])
        == library_word() && list[1].kind == PartKind::Normal {
        Some(
            One52Shape {
                library: library_word(),
                crate_name: span_text(path, list[1]),
                path: remainder(path, list, 1),
            },
        )
    } else {
        None
    }
}

/// The path read as one into the repository: in the layout of Rust 1.52
/// where it has that layout, and as it is otherwise.
pub open spec fn shape(path: Seq<char>) -> Shape {
    match one52_shape(path) {
        Some(s) => Shape::One52(s),
        None => Shape::Verbatim(path),
    }
}

/// The three texts with a `/` between them.
pub open spec fn slashed(a: Seq<char>, b: Seq<char>, c: Seq<char>) -> Seq<char> {
    a + seq!['/'] + b + seq!['/'] + c
}

/// How a path in the layout of Rust 1.52 reads.
pub open spec fn one52_form(s: One52Shape) -> Seq<char> {
    slashed(s.library, s.crate_name, s.path)
}

/// How a path into the repository reads.
pub open spec fn form(s: Shape) -> Seq<char> {
    match s {
        Shape::One52(p) => one52_form(p),
        Shape::Verbatim(p) => p,
    }
}

/// `out` is a highlighted rendering of a path in the layout of Rust 1.52:
/// the crate's name stands in it in some rendering of the bold style.
pub open spec fn is_one52_highlight(out: Seq<char>, s: One52Shape) -> bool {
    exists|name: Seq<char>| #[trigger]
        is_rendering(name, s.crate_name, bold_code()) && out == slashed(s.library, name, s.path)
}

/// `out` is a highlighted rendering of a path into the repository.
pub open spec fn is_highlight(out: Seq<char>, s: Shape) -> bool {
    match s {
        Shape::One52(p) => is_one52_highlight(out, p),
        Shape::Verbatim(p) => out == p,
    }
}

/// Writes the three texts with a `/` between them.
pub fn join_slashed(a: &str, b: &str, c: &str) -> (r: String)
    ensures
        r@ == slashed(a@, b@, c@),
{
    proof {
        reveal_strlit("/");
    }
    let mut out = a.to_owned();
    out.append("/");
    out.append(b);
    out.append("/");
    out.append(c);
    assert(out@ =~= slashed(a@, b@, c@));
    out
}

impl One52Path {
    /// Reads a path in the layout of Rust 1.52, if it has that layout.
    pub fn from_std_path(path: &str) -> (r: Option<One52Path>)
        ensures
            match r {
                Some(p) => one52_shape(path@) == Some(p@),
                None => one52_shape(path@) is None,
            },
    {
        let chars = to_chars(path);
        let parts = components(&chars);
        let ghost list = spans(path@);
        if parts.len() < 2 {
            return None;
        }
        assert(list[0] == parts@[0]@);
        assert(list[1] == parts@[1]@);
        let library_name = to_chars("library");
        if !part_is_named(&chars, &parts[0], &library_name) {
            return None;
        }
        if !matches!(parts[1].kind, PartKind::Normal) {
            return None;
        }
        Some(
            One52Path {
                library: part_text(path, &parts[0]),
                crate_name: part_text(path, &parts[1]),
                path: rest_after(path, &parts, 1),
            },
        )
    }

    /// The rendering in which the crate's name is bold, for a bold name that
    /// has been rendered already.
    pub fn highlight_with(&self, bold_name: &str) -> (r: String)
        ensures
            r@ == slashed(self.library@, bold_name@, self.path@),
    {
        join_slashed(self.library.as_str(), bold_name, self.path.as_str())
    }

    /// The path with the crate's name in bold.
    pub fn format_highlight(&self) -> (r: String)
        ensures
            is_one52_highlight(r@, self@),
    {
        let name = bold(self.crate_name.as_str());
        let out = self.highlight_with(name.as_str());
        assert(is_rendering(name@, self@.crate_name, bold_code()));
        out
    }

    /// The path as plain text.
    pub fn format(&self) -> (r: String)
        ensures
            r@ == one52_form(self@),
    {
        join_slashed(self.library.as_str(), self.crate_name.as_str(), self.path.as_str())
    }
}

impl Path {
    /// Reads a path as one into the repository. A path that does not have
    /// the layout of Rust 1.52 is kept as it is.
    pub fn from_std_path(path: &str) -> (r: Path)
        ensures
            r@ == shape(path@),
    {
        match One52Path::from_std_path(path) {
            Some(p) => Path::One52(p),
            None => Path::Verbatim(path.to_owned()),
        }
    }

    /// The path as plain text.
    pub fn format(&self) -> (r: String)
        ensures
            r@ == form(self@),
    {
        match self {
            Path::One52(p) => p.format(),
            Path::Verbatim(p) => p.clone(),
        }
    }

    /// The path with the crate's name, if it shows one, in bold.
    pub fn format_highlight(&self) -> (r: String)
        ensures
            is_highlight(r@, self@),
    {
        match self {
            Path::One52(p) => p.format_highlight(),
            Path::Verbatim(p) => p.clone(),
        }
    }
}

/// The plain text of a path into the repository is one of its highlighted
/// renderings: the one that comes out where styles are switched off.
pub proof fn lemma_plain_is_highlight(s: Shape)
    ensures
        is_highlight(form(s), s),
{
    match s {
        Shape::One52(p) => {
            assert(is_rendering(p.crate_name, p.crate_name, bold_code()));
        },
        Shape::Verbatim(p) => {},
    }
}

} // verus!
