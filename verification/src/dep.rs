//! Short renderings of the source paths of dependencies.
//!
//! A path is taken as text in the form that Unix-like systems use: `/`
//! separates its components, a leading `/` is the root, and empty components
//! and `.` (but for a leading one) do not count.

use vstd::prelude::*;

pub mod cratesio;
pub mod rust_repo;
pub mod rustc;

verus! {

/// What a component of a path is.
#[derive(Debug, Clone, Copy, PartialEq, Eq, Structural)]
pub enum PartKind {
    /// The root, `/`, at the start of the path.
    RootDir,
    /// A leading `.`.
    CurDir,
    /// The component `..`.
    ParentDir,
    /// A plain name.
    Normal,
}

/// A component of a path: its kind and the characters that it spans.
#[derive(Debug, Clone, Copy, PartialEq, Eq, Structural)]
pub struct Part {
    pub kind: PartKind,
    pub start: usize,
    pub end: usize,
}

/// A component of a path, as contracts speak of it.
pub ghost struct Span {
    pub kind: PartKind,
    pub start: int,
    pub end: int,
}

impl View for Part {
    type V = Span;

    open spec fn view(&self) -> Span {
        Span { kind: self.kind, start: self.start as int, end: self.end as int }
    }
}

/// The components as contracts speak of them.
pub open spec fn spans_of(parts: Seq<Part>) -> Seq<Span> {
    Seq::new(parts.len(), |i: int| parts[i]@)
}

/// The path starts at the root.
pub open spec fn is_absolute(path: Seq<char>) -> bool {
    path.len() > 0 && path[0] == '/'
}

/// The path starts with a `.` that is a component of its own.
pub open spec fn has_leading_cur_dir(path: Seq<char>) -> bool {
    path.len() > 0 && path[0] == '.' && (path.len() == 1 || path[1] == '/')
}

/// The component that the characters from `start` to `end` form, if any: an
/// empty stretch and `.` form none.
pub open spec fn segment(path: Seq<char>, start: int, end: int) -> Seq<Span> {
    if end == start || (end == start + 1 && path[start] == '.') {
        Seq::empty()
    } else if end == start + 2 && path[start] == '.' && path[start + 1] == '.' {
        seq![Span { kind: PartKind::ParentDir, start, end }]
    } else {
        seq![Span { kind: PartKind::Normal, start, end }]
    }
}

/// The components found from `pos` on, where the component being read started
/// at `start`.
pub open spec fn body_spans(path: Seq<char>, start: int, pos: int) -> Seq<Span>
    decreases path.len() - pos,
{
    if pos >= path.len() {
        segment(path, start, path.len() as int)
    } else if path[pos] == '/' {
        segment(path, start, pos) + body_spans(path, pos + 1, pos + 1)
    } else {
        body_spans(path, start, pos + 1)
    }
}

/// The components of a path, in order.
pub open spec fn spans(path: Seq<char>) -> Seq<Span> {
    if is_absolute(path) {
        seq![Span { kind: PartKind::RootDir, start: 0, end: 1 }] + body_spans(path, 1, 1)
    } else if has_leading_cur_dir(path) {
        seq![Span { kind: PartKind::CurDir, start: 0, end: 1 }] + body_spans(path, 1, 1)
    } else {
        body_spans(path, 0, 0)
    }
}

/// Each component lies within the path, and the components follow one another.
pub open spec fn spans_ordered(list: Seq<Span>, from: int, len: int) -> bool {
    &&& forall|i: int| 0 <= i < list.len() ==> from <= (#[trigger] list[i]).start < list[i].end <= len
    &&& forall|i: int, j: int|
        0 <= i < j < list.len() ==> (#[trigger] list[i]).end <= (#[trigger] list[j]).start
}

/// The text of a component.
pub open spec fn span_text(path: Seq<char>, span: Span) -> Seq<char> {
    path.subrange(span.start, span.end)
}

/// The component is a plain name and reads `word`.
pub open spec fn is_named(path: Seq<char>, span: Span, word: Seq<char>) -> bool {
    span.kind == PartKind::Normal && span_text(path, span) == word
}

/// `text` begins with `word`.
pub open spec fn begins_with(text: Seq<char>, word: Seq<char>) -> bool {
    text.len() >= word.len() && text.subrange(0, word.len() as int) == word
}

/// The index, not below `from`, of the first component that is a plain name
/// reading `word`; the number of components if there is none.
pub open spec fn first_named(path: Seq<char>, list: Seq<Span>, word: Seq<char>, from: int) -> int
    decreases list.len() - from,
{
    if from >= list.len() {
        list.len() as int
    } else if is_named(path, list[from], word) {
        from
    } else {
        first_named(path, list, word, from + 1)
    }
}

/// The components written one after another, a `/` between two of them
/// wherever the text before does not already end in one.
pub open spec fn joined(path: Seq<char>, list: Seq<Span>) -> Seq<char>
    decreases list.len(),
{
    if list.len() == 0 {
        Seq::empty()
    } else {
        let front = joined(path, list.drop_last());
        let text = span_text(path, list.last());
        if front.len() == 0 || front.last() == '/' {
            front + text
        } else {
            front + seq!['/'] + text
        }
    }
}

/// The text of the path that follows the component with index `k`: from the
/// start of the next component to the end of the last one. With `k` at -1 it
/// is the text from the first component on.
pub open spec fn remainder(path: Seq<char>, list: Seq<Span>, k: int) -> Seq<char> {
    if 0 <= k + 1 < list.len() {
        path.subrange(list[k + 1].start, list.last().end)
    } else {
        Seq::empty()
    }
}

/// The components found from `pos` on lie in order within the path.
pub proof fn lemma_body_spans_ordered(path: Seq<char>, start: int, pos: int)
    requires
        0 <= start <= pos <= path.len(),
    ensures
        spans_ordered(body_spans(path, start, pos), start, path.len() as int),
    decreases path.len() - pos,
{
    if pos >= path.len() {
    } else if path[pos] == '/' {
        lemma_body_spans_ordered(path, pos + 1, pos + 1);
    } else {
        lemma_body_spans_ordered(path, start, pos + 1);
    }
}

/// The components of a path lie in order within the path.
pub proof fn lemma_spans_ordered(path: Seq<char>)
    ensures
        spans_ordered(spans(path), 0, path.len() as int),
{
    if is_absolute(path) || has_leading_cur_dir(path) {
        lemma_body_spans_ordered(path, 1, 1);
    } else {
        lemma_body_spans_ordered(path, 0, 0);
    }
}

/// The component is what its kind says: the root is the `/` at the start, a
/// leading `.` stands at the start before a `/` or the end, `..` reads so,
/// and a plain name holds no `/` and is neither empty nor `.` nor `..`; and
/// the component is whole, with a `/` or an end of the path on either side.
pub open spec fn is_component(path: Seq<char>, s: Span) -> bool {
    let text = span_text(path, s);
    &&& 0 <= s.start < s.end <= path.len()
    &&& s.end == path.len() || path[s.end] == '/' || s.kind == PartKind::RootDir
    &&& match s.kind {
        PartKind::RootDir => s.start == 0 && text == seq!['/'],
        PartKind::CurDir => s.start == 0 && text == seq!['.'],
        PartKind::ParentDir => text == seq!['.', '.'] && (s.start == 0 || path[s.start - 1] == '/'),
        PartKind::Normal => {
            &&& s.start == 0 || path[s.start - 1] == '/'
            &&& forall|i: int| s.start <= i < s.end ==> path[i] != '/'
            &&& text != seq!['.']
            &&& text != seq!['.', '.']
        },
    }
}

/// The components found from `pos` on are what their kinds say.
pub proof fn lemma_body_spans_are_components(path: Seq<char>, start: int, pos: int)
    requires
        0 <= start <= pos <= path.len(),
        start == 0 || path[start - 1] == '/',
        forall|i: int| start <= i < pos ==> path[i] != '/',
    ensures
        forall|k: int|
            0 <= k < body_spans(path, start, pos).len() ==> is_component(
                path,
                #[trigger] body_spans(path, start, pos)[k],
            ) && body_spans(path, start, pos)[k].kind != PartKind::RootDir && body_spans(
                path,
                start,
                pos,
            )[k].kind != PartKind::CurDir,
    decreases path.len() - pos,
{
    let all = body_spans(path, start, pos);
    if pos >= path.len() {
        lemma_segment_is_component(path, start, path.len() as int);
    } else if path[pos] == '/' {
        lemma_segment_is_component(path, start, pos);
        lemma_body_spans_are_components(path, pos + 1, pos + 1);
        let head = segment(path, start, pos);
        let tail = body_spans(path, pos + 1, pos + 1);
        assert forall|k: int| 0 <= k < all.len() implies is_component(path, #[trigger] all[k])
            && all[k].kind != PartKind::RootDir && all[k].kind != PartKind::CurDir by {
            if k >= head.len() {
                assert(all[k] == tail[k - head.len()]);
            } else {
                assert(all[k] == head[k]);
            }
        }
    } else {
        lemma_body_spans_are_components(path, start, pos + 1);
    }
}

/// The component that a stretch between two separators forms is what its
/// kind says.
pub proof fn lemma_segment_is_component(path: Seq<char>, start: int, end: int)
    requires
        0 <= start <= end <= path.len(),
        start == 0 || path[start - 1] == '/',
        end == path.len() || path[end] == '/',
        forall|i: int| start <= i < end ==> path[i] != '/',
    ensures
        forall|k: int|
            0 <= k < segment(path, start, end).len() ==> is_component(
                path,
                #[trigger] segment(path, start, end)[k],
            ) && segment(path, start, end)[k].kind != PartKind::RootDir && segment(
                path,
                start,
                end,
            )[k].kind != PartKind::CurDir,
{
    let list = segment(path, start, end);
    if list.len() > 0 {
        let s = list[0];
        let text = span_text(path, s);
        if s.kind == PartKind::ParentDir {
            assert(text =~= seq!['.', '.']);
        } else {
            if text == seq!['.'] {
                assert(text.len() == 1);
                assert(text[0] == '.');
            }
            if text == seq!['.', '.'] {
                assert(text.len() == 2);
                assert(text[0] == '.' && text[1] == '.');
            }
        }
    }
}

/// Every component of a path is what its kind says.
pub proof fn lemma_spans_are_components(path: Seq<char>)
    ensures
        forall|k: int| 0 <= k < spans(path).len() ==> is_component(path, #[trigger] spans(path)[k]),
        forall|k: int|
            0 < k < spans(path).len() ==> (#[trigger] spans(path)[k]).kind != PartKind::RootDir
                && spans(path)[k].kind != PartKind::CurDir,
{
    let all = spans(path);
    if is_absolute(path) || has_leading_cur_dir(path) {
        let tail = body_spans(path, 1, 1);
        if is_absolute(path) {
            lemma_body_spans_are_components(path, 1, 1);
        } else if path.len() > 1 {
            lemma_body_spans_are_components(path, 2, 2);
            assert(tail =~= body_spans(path, 2, 2));
        }
        assert forall|k: int| 0 <= k < all.len() implies is_component(path, #[trigger] all[k]) by {
            if k > 0 {
                assert(all[k] == tail[k - 1]);
            } else if is_absolute(path) {
                assert(span_text(path, all[0]) =~= seq!['/']);
            } else {
                assert(span_text(path, all[0]) =~= seq!['.']);
            }
        }
        assert forall|k: int| 0 < k < all.len() implies (#[trigger] all[k]).kind
            != PartKind::RootDir && all[k].kind != PartKind::CurDir by {
            assert(all[k] == tail[k - 1]);
        }
    } else {
        lemma_body_spans_are_components(path, 0, 0);
    }
}

/// The characters of `text`, in order.
pub fn to_chars(text: &str) -> (r: Vec<char>)
    ensures
        r@ == text@,
{
    let mut out: Vec<char> = Vec::new();
    for c in it: text.chars()
        invariant
            out@ == it.seq().take(it.index()),
    {
        out.push(c);
    }
    out
}

/// Whether the component is a plain name that reads `word`.
pub fn part_is_named(chars: &Vec<char>, part: &Part, word: &Vec<char>) -> (r: bool)
    requires
        part.start <= part.end <= chars@.len(),
    ensures
        r == is_named(chars@, part@, word@),
{
    if !matches!(part.kind, PartKind::Normal) || part.end - part.start != word.len() {
        return false;
    }
    let ghost text = span_text(chars@, part@);
    let mut i: usize = 0;
    while i < word.len()
        invariant
            i <= word@.len(),
            part.start <= part.end <= chars@.len(),
            part.end - part.start == word@.len(),
            text == span_text(chars@, part@),
            text.take(i as int) == word@.take(i as int),
        decreases word@.len() - i,
    {
        if chars[part.start + i] != word[i] {
            assert(text[i as int] != word@[i as int]);
            return false;
        }
        assert(text.take(i + 1) =~= text.take(i as int).push(text[i as int]));
        assert(word@.take(i + 1) =~= word@.take(i as int).push(word@[i as int]));
        i += 1;
    }
    assert(text.take(i as int) =~= text);
    assert(word@.take(i as int) =~= word@);
    true
}

/// Whether the text of the component begins with `word`.
pub fn part_begins_with(chars: &Vec<char>, part: &Part, word: &Vec<char>) -> (r: bool)
    requires
        part.start <= part.end <= chars@.len(),
    ensures
        r == begins_with(span_text(chars@, part@), word@),
{
    if part.end - part.start < word.len() {
        return false;
    }
    let ghost head = span_text(chars@, part@).subrange(0, word@.len() as int);
    let mut i: usize = 0;
    while i < word.len()
        invariant
            i <= word@.len(),
            part.start <= part.end <= chars@.len(),
            part.end - part.start >= word@.len(),
            head == span_text(chars@, part@).subrange(0, word@.len() as int),
            head.take(i as int) == word@.take(i as int),
        decreases word@.len() - i,
    {
        if chars[part.start + i] != word[i] {
            assert(head[i as int] != word@[i as int]);
            return false;
        }
        assert(head.take(i + 1) =~= head.take(i as int).push(head[i as int]));
        assert(word@.take(i + 1) =~= word@.take(i as int).push(word@[i as int]));
        i += 1;
    }
    assert(head.take(i as int) =~= head);
    assert(word@.take(i as int) =~= word@);
    true
}

/// The index of the first component that is a plain name reading `word`, or
/// the number of components if there is none.
pub fn find_named(chars: &Vec<char>, parts: &Vec<Part>, word: &Vec<char>) -> (r: usize)
    requires
        spans_ordered(spans_of(parts@), 0, chars@.len() as int),
    ensures
        r == first_named(chars@, spans_of(parts@), word@, 0),
        r <= parts@.len(),
        r < parts@.len() ==> is_named(chars@, parts@[r as int]@, word@),
{
    let ghost list = spans_of(parts@);
    let mut k: usize = 0;
    while k < parts.len()
        invariant
            k <= parts@.len(),
            list == spans_of(parts@),
            spans_ordered(list, 0, chars@.len() as int),
            first_named(chars@, list, word@, 0) == first_named(chars@, list, word@, k as int),
        decreases parts@.len() - k,
    {
        assert(list[k as int] == parts@[k as int]@);
        if part_is_named(chars, &parts[k], word) {
            return k;
        }
        k += 1;
    }
    k
}

/// The text of a component.
pub fn part_text(path: &str, part: &Part) -> (r: String)
    requires
        part.start <= part.end <= path@.len(),
    ensures
        r@ == span_text(path@, part@),
{
    path.substring_char(part.start, part.end).to_owned()
}

/// The first `count` components written one after another, with a `/`
/// between two of them wherever the text before does not end in one.
pub fn join_parts(path: &str, chars: &Vec<char>, parts: &Vec<Part>, count: usize) -> (r: String)
    requires
        chars@ == path@,
        count <= parts@.len(),
        spans_ordered(spans_of(parts@), 0, path@.len() as int),
    ensures
        r@ == joined(path@, spans_of(parts@).take(count as int)),
{
    let ghost list = spans_of(parts@);
    let mut out = String::new();
    let mut open_end: bool = false;
    let mut i: usize = 0;
    assert(joined(path@, list.take(0)) =~= Seq::empty());
    while i < count
        invariant
            i <= count <= parts@.len(),
            chars@ == path@,
            list == spans_of(parts@),
            spans_ordered(list, 0, path@.len() as int),
            out@ == joined(path@, list.take(i as int)),
            open_end == (out@.len() > 0 && out@.last() != '/'),
        decreases count - i,
    {
        let part = &parts[i];
        assert(list[i as int] == part@);
        assert(list.take(i + 1).drop_last() =~= list.take(i as int));
        assert(list.take(i + 1).last() == part@);
        if open_end {
            proof {
                reveal_strlit("/");
            }
            out.append("/");
            assert(out@ =~= joined(path@, list.take(i as int)) + seq!['/']);
        }
        let text = path.substring_char(part.start, part.end);
        out.append(text);
        open_end = chars[part.end - 1] != '/';
        proof {
            let t = span_text(path@, part@);
            assert(t.len() > 0);
            assert(out@.last() == t.last());
        }
        i += 1;
    }
    out
}

/// The text of the path after the component with index `k`.
pub fn rest_after(path: &str, parts: &Vec<Part>, k: usize) -> (r: String)
    requires
        k < parts@.len(),
        spans_ordered(spans_of(parts@), 0, path@.len() as int),
    ensures
        r@ == remainder(path@, spans_of(parts@), k as int),
{
    let ghost list = spans_of(parts@);
    let n: usize = parts.len();
    if k + 1 < n {
        let from: usize = parts[k + 1].start;
        let to: usize = parts[n - 1].end;
        assert(list[k + 1] == parts@[k + 1]@);
        assert(list.last() == parts@[parts@.len() - 1]@);
        path.substring_char(from, to).to_owned()
    } else {
        String::new()
    }
}

/// The source path of a dependency, read in the first of the known layouts
/// that it has.
#[derive(Debug, PartialEq)]
pub enum Path {
    /// A path into the cache of packages.
    Cratesio(cratesio::Path),
    /// A path into the sources that a release of the toolchain was built from.
    Rustc(rustc::Path),
    /// A path into the repository of the toolchain, or any other path, which
    /// is kept as it is.
    RustRepo(rust_repo::Path),
}

/// What a [`Path`] holds.
pub ghost enum Shape {
    Cratesio(cratesio::Shape),
    Rustc(rustc::Shape),
    RustRepo(rust_repo::Shape),
}

impl View for Path {
    type V = Shape;

    open spec fn view(&self) -> Shape {
        match self {
            Path::Cratesio(p) => Shape::Cratesio(p@),
            Path::Rustc(p) => Shape::Rustc(p@),
            Path::RustRepo(p) => Shape::RustRepo(p@),
        }
    }
}

/// The path read in the first layout that it has: that of the cache of
/// packages, then that of the sources of a release, then that of the
/// repository of the toolchain, which takes any path.
pub open spec fn classify(path: Seq<char>) -> Shape {
    match cratesio::shape(path) {
        Some(s) => Shape::Cratesio(s),
        None => match rustc::shape(path) {
            Some(s) => Shape::Rustc(s),
            None => Shape::RustRepo(rust_repo::shape(path)),
        },
    }
}

/// The short rendering of a path.
pub open spec fn short_form(s: Shape) -> Seq<char> {
    match s {
        Shape::Cratesio(p) => cratesio::short_form(p),
        Shape::Rustc(p) => rustc::short_form(p),
        Shape::RustRepo(p) => rust_repo::form(p),
    }
}

/// `out` is a highlighted rendering of the path.
pub open spec fn is_highlight(out: Seq<char>, s: Shape) -> bool {
    match s {
        Shape::Cratesio(p) => cratesio::is_highlight(out, p),
        Shape::Rustc(p) => rustc::is_highlight(out, p),
        Shape::RustRepo(p) => rust_repo::is_highlight(out, p),
    }
}

impl Path {
    /// Reads a path in the first of the known layouts that it has.
    pub fn from_std_path(path: &str) -> (r: Path)
        ensures
            r@ == classify(path@),
    {
        match cratesio::Path::from_std_path(path) {
            Some(p) => Path::Cratesio(p),
            None => match rustc::Path::from_std_path(path) {
                Some(p) => Path::Rustc(p),
                None => Path::RustRepo(rust_repo::Path::from_std_path(path)),
            },
        }
    }

    /// The short rendering of the path.
    pub fn format_short(&self) -> (r: String)
        ensures
            r@ == short_form(self@),
    {
        match self {
            Path::Cratesio(p) => p.format_short(),
            Path::Rustc(p) => p.format_short(),
            Path::RustRepo(p) => p.format(),
        }
    }

    /// The whole path, with the parts that matter less dimmed and the name of
    /// the crate in bold.
    pub fn format_highlight(&self) -> (r: String)
        ensures
            is_highlight(r@, self@),
    {
        match self {
            Path::Cratesio(p) => p.format_highlight(),
            Path::Rustc(p) => p.format_highlight(),
            Path::RustRepo(p) => p.format_highlight(),
        }
    }
}

/// A path that has none of the known layouts is shown as it is, in the short
/// rendering and in the highlighted one.
pub proof fn lemma_unknown_layout_is_verbatim(path: Seq<char>)
    requires
        cratesio::shape(path) is None,
        rustc::shape(path) is None,
        rust_repo::one52_shape(path) is None,
    ensures
        classify(path) == Shape::RustRepo(rust_repo::Shape::Verbatim(path)),
        short_form(classify(path)) == path,
        is_highlight(path, classify(path)),
{
}

/// The two components are the same: of one kind and, where they are names,
/// of one text.
pub open spec fn same_span(path: Seq<char>, a: Span, base: Seq<char>, b: Span) -> bool {
    a.kind == b.kind && (a.kind == PartKind::Normal ==> span_text(path, a) == span_text(base, b))
}

/// The components of `base` are the first components of `path`.
pub open spec fn starts_with_path(path: Seq<char>, base: Seq<char>) -> bool {
    let p = spans(path);
    let b = spans(base);
    b.len() <= p.len() && forall|i: int|
        0 <= i < b.len() ==> same_span(path, #[trigger] p[i], base, b[i])
}

/// What is left of `path` once the components of `base` are taken from its
/// start, if they stand there.
pub open spec fn stripped(path: Seq<char>, base: Seq<char>) -> Option<Seq<char>> {
    if starts_with_path(path, base) {
        Some(remainder(path, spans(path), spans(base).len() - 1))
    } else {
        None
    }
}

/// Whether the two components are the same.
pub fn parts_match(path: &Vec<char>, a: &Part, base: &Vec<char>, b: &Part) -> (r: bool)
    requires
        a.start <= a.end <= path@.len(),
        b.start <= b.end <= base@.len(),
    ensures
        r == same_span(path@, a@, base@, b@),
{
    match (a.kind, b.kind) {
        (PartKind::RootDir, PartKind::RootDir) => true,
        (PartKind::CurDir, PartKind::CurDir) => true,
        (PartKind::ParentDir, PartKind::ParentDir) => true,
        (PartKind::Normal, PartKind::Normal) => {
            let ghost ta = span_text(path@, a@);
            let ghost tb = span_text(base@, b@);
            if a.end - a.start != b.end - b.start {
                assert(ta.len() != tb.len());
                return false;
            }
            let len: usize = a.end - a.start;
            let mut i: usize = 0;
            while i < len
                invariant
                    i <= len,
                    len == a.end - a.start,
                    len == b.end - b.start,
                    a.kind == PartKind::Normal,
                    b.kind == PartKind::Normal,
                    a.start <= a.end <= path@.len(),
                    b.start <= b.end <= base@.len(),
                    ta == span_text(path@, a@),
                    tb == span_text(base@, b@),
                    forall|j: int| 0 <= j < i ==> ta[j] == tb[j],
                decreases len - i,
            {
                if path[a.start + i] != base[b.start + i] {
                    assert(ta[i as int] != tb[i as int]);
                    return false;
                }
                i += 1;
            }
            assert(ta =~= tb);
            true
        },
        _ => false,
    }
}

/// Takes the components of `base` from the start of `path`: the rest of the
/// path if they stand there, nothing otherwise.
pub fn strip_prefix(path: &str, base: &str) -> (r: Option<String>)
    ensures
        match r {
            Some(rest) => stripped(path@, base@) == Some(rest@),
            None => stripped(path@, base@) is None,
        },
{
    let path_chars = to_chars(path);
    let base_chars = to_chars(base);
    let p = components(&path_chars);
    let b = components(&base_chars);
    let ghost ps = spans(path@);
    let ghost bs = spans(base@);
    if b.len() > p.len() {
        return None;
    }
    let mut i: usize = 0;
    while i < b.len()
        invariant
            i <= b@.len() <= p@.len(),
            path_chars@ == path@,
            base_chars@ == base@,
            ps == spans(path@),
            bs == spans(base@),
            spans_of(p@) == ps,
            spans_of(b@) == bs,
            spans_ordered(ps, 0, path@.len() as int),
            spans_ordered(bs, 0, base@.len() as int),
            forall|j: int| 0 <= j < i ==> same_span(path@, #[trigger] ps[j], base@, bs[j]),
        decreases b@.len() - i,
    {
        assert(ps[i as int] == p@[i as int]@);
        assert(bs[i as int] == b@[i as int]@);
        if !parts_match(&path_chars, &p[i], &base_chars, &b[i]) {
            return None;
        }
        i += 1;
    }
    if b.len() == 0 {
        let n: usize = p.len();
        if n == 0 {
            Some(String::new())
        } else {
            assert(ps[0] == p@[0]@);
            assert(ps.last() == p@[n - 1]@);
            Some(path.substring_char(p[0].start, p[n - 1].end).to_owned())
        }
    } else {
        Some(rest_after(path, &p, b.len() - 1))
    }
}

/// Appends to `out` the component that the characters from `start` to `end`
/// form, if they form one.
fn push_segment(chars: &Vec<char>, start: usize, end: usize, out: &mut Vec<Part>)
    requires
        start <= end <= chars@.len(),
    ensures
        spans_of(final(out)@) == spans_of(old(out)@) + segment(chars@, start as int, end as int),
{
    let len: usize = end - start;
    if len == 0 || (len == 1 && chars[start] == '.') {
    } else if len == 2 && chars[start] == '.' && chars[start + 1] == '.' {
        out.push(Part { kind: PartKind::ParentDir, start, end });
    } else {
        out.push(Part { kind: PartKind::Normal, start, end });
    }
    assert(spans_of(out@) =~= spans_of(old(out)@) + segment(chars@, start as int, end as int));
}

/// Splits a path, given as its characters, into its components.
pub fn components(chars: &Vec<char>) -> (r: Vec<Part>)
    ensures
        spans_of(r@) == spans(chars@),
        spans_ordered(spans_of(r@), 0, chars@.len() as int),
{
    let n: usize = chars.len();
    let mut out: Vec<Part> = Vec::new();
    let mut start: usize = 0;
    if n > 0 && chars[0] == '/' {
        out.push(Part { kind: PartKind::RootDir, start: 0, end: 1 });
        start = 1;
    } else if n > 0 && chars[0] == '.' && (n == 1 || chars[1] == '/') {
        out.push(Part { kind: PartKind::CurDir, start: 0, end: 1 });
        start = 1;
    }
    let mut pos: usize = start;
    assert(spans_of(out@) + body_spans(chars@, start as int, pos as int) =~= spans(chars@));
    while pos < n
        invariant
            start <= pos <= n,
            n == chars@.len(),
            spans_of(out@) + body_spans(chars@, start as int, pos as int) == spans(chars@),
        decreases n - pos,
    {
        if chars[pos] == '/' {
            let ghost before = spans_of(out@);
            push_segment(chars, start, pos, &mut out);
            assert((before + segment(chars@, start as int, pos as int)) + body_spans(
                chars@,
                pos + 1,
                pos + 1,
            ) =~= before + body_spans(chars@, start as int, pos as int));
            start = pos + 1;
        }
        pos += 1;
    }
    push_segment(chars, start, n, &mut out);
    proof {
        lemma_spans_ordered(chars@);
    }
    out
}

} // verus!
