//! Paths into the cache of packages that cargo keeps.

use crate::dep::{
    begins_with, components, find_named, first_named, is_absolute, is_named, join_parts, joined,
    part_begins_with, part_is_named, part_text, remainder, rest_after, span_text, spans, to_chars,
    PartKind,
};
use crate::style::{bold, bold_code, dim_code, dimmed, is_rendering};
use vstd::prelude::*;

verus! {

/// A path into the cache of packages, such as
/// `/home/user/.cargo/registry/src/github.com-1ecc6299db9ec823/log-0.4.14/src/lib.rs`.
#[derive(Debug, PartialEq)]
pub struct Path {
    pub registry_prefix: String,
    pub crate_name_version: String,
    pub path: String,
}

/// What a [`Path`] holds.
pub ghost struct Shape {
    pub registry_prefix: Seq<char>,
    pub crate_name_version: Seq<char>,
    pub path: Seq<char>,
}

impl View for Path {
    type V = Shape;

    open spec fn view(&self) -> Shape {
        Shape {
            registry_prefix: self.registry_prefix@,
            crate_name_version: self.crate_name_version@,
            path: self.path@,
        }
    }
}

/// The name of the directory that holds the cache.
pub open spec fn registry_word() -> Seq<char> {
    "registry"@
}

/// The name of the directory that holds the sources in the cache.
pub open spec fn src_word() -> Seq<char> {
    "src"@
}

/// How the name of the directory of a package index begins.
pub open spec fn index_word() -> Seq<char> {
    "github.com-"@
}

/// The path read as one into the cache of packages. It is absolute; after
/// its first plain component `registry` come the plain component `src`, a
/// plain component that begins with `github.com-`, and a plain component,
/// the package's name and version. Everything up to the third of these is the
/// prefix, what follows the last is the path within the package.
pub open spec fn shape(path: Seq<char>) -> Option<Shape> {
    let list = spans(path);
    let k = first_named(path, list, registry_word(), 0);
    if is_absolute(path) && k + 3 < list.len() && is_named(path, list[k + 1], src_word()) && list[k
        + 2].kind == PartKind::Normal && begins_with(span_text(path, list[k + 2]), index_word())
        && list[k + 3].kind == PartKind::Normal {
        Some(
            Shape {
                registry_prefix: joined(path, list.take(k + 3)),
                crate_name_version: span_text(path, list[k + 3]),
                path: remainder(path, list, k + 3),
            },
        )
    } else {
        None
    }
}

/// The short rendering: the package in square brackets, then the path within
/// it.
pub open spec fn short_form(s: Shape) -> Seq<char> {
    seq!['['] + s.crate_name_version + seq![']', '/'] + s.path
}

/// The highlighted rendering for a prefix and a package that have been
/// rendered already.
pub open spec fn highlight_form(prefix: Seq<char>, name: Seq<char>, path: Seq<char>) -> Seq<char> {
    prefix + seq!['/'] + name + seq!['/'] + path
}

/// `out` is a highlighted rendering of the path: the prefix stands in it in
/// some rendering of the dimmed style, the package in one of the bold style.
pub open spec fn is_highlight(out: Seq<char>, s: Shape) -> bool {
    exists|prefix: Seq<char>, name: Seq<char>|
        is_rendering(prefix, s.registry_prefix, dim_code()) && is_rendering(
            name,
            s.crate_name_version,
            bold_code(),
        ) && out == #[trigger] highlight_form(prefix, name, s.path)
}

impl Path {
    /// Reads a path into the cache of packages, if it is one.
    pub fn from_std_path(path: &str) -> (r: Option<Path>)
        ensures
            match r {
                Some(p) => shape(path@) == Some(p@),
                None => shape(path@) is None,
            },
    {
        let chars = to_chars(path);
        if chars.len() == 0 || chars[0] != '/' {
            return None;
        }
        let parts = components(&chars);
        let ghost list = spans(path@);
        let registry_name = to_chars("registry");
        let k: usize = find_named(&chars, &parts, &registry_name);
        let n: usize = parts.len();
        if n < 4 || k >= n - 3 {
            return None;
        }
        assert(list[k + 1] == parts@[k + 1]@);
        assert(list[k + 2] == parts@[k + 2]@);
        assert(list[k + 3] == parts@[k + 3]@);
        let src_name = to_chars("src");
        if !part_is_named(&chars, &parts[k + 1], &src_name) {
            return None;
        }
        let index_name = to_chars("github.com-");
        if !matches!(parts[k + 2].kind, PartKind::Normal) || !part_begins_with(
            &chars,
            &parts[k + 2],
            &index_name,
        ) {
            return None;
        }
        if !matches!(parts[k + 3].kind, PartKind::Normal) {
            return None;
        }
        Some(
            Path {
                registry_prefix: join_parts(path, &chars, &parts, k + 3),
                crate_name_version: part_text(path, &parts[k + 3]),
                path: rest_after(path, &parts, k + 3),
            },
        )
    }

    /// The short rendering, such as `[log-0.4.14]/src/lib.rs`.
    pub fn format_short(&self) -> (r: String)
        ensures
            r@ == short_form(self@),
    {
        proof {
            reveal_strlit("[");
            reveal_strlit("]/");
        }
        let mut out = "[".to_owned();
        out.append(self.crate_name_version.as_str());
        out.append("]/");
        out.append(self.path.as_str());
        assert(out@ =~= short_form(self@));
        out
    }

    /// The highlighted rendering for a prefix and a package that have been
    /// rendered already.
    pub fn highlight_with(&self, prefix: &str, name: &str) -> (r: String)
        ensures
            r@ == highlight_form(prefix@, name@, self.path@),
    {
        proof {
            reveal_strlit("/");
        }
        let mut out = prefix.to_owned();
        out.append("/");
        out.append(name);
        out.append("/");
        out.append(self.path.as_str());
        assert(out@ =~= highlight_form(prefix@, name@, self.path@));
        out
    }

    /// The whole path, with its prefix dimmed and the package in bold.
    pub fn format_highlight(&self) -> (r: String)
        ensures
            is_highlight(r@, self@),
    {
        let prefix = dimmed(self.registry_prefix.as_str());
        let name = bold(self.crate_name_version.as_str());
        let out = self.highlight_with(prefix.as_str(), name.as_str());
        assert(out@ == highlight_form(prefix@, name@, self@.path));
        out
    }
}

} // verus!
