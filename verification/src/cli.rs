//! What the command line asks for.

use crate::dep::{begins_with, part_begins_with, part_is_named, to_chars, Part, PartKind};
use vstd::prelude::*;

verus! {

/// How grave a message of the program is, the gravest first.
#[derive(Debug, Clone, Copy, PartialEq, Eq, Structural)]
pub enum Level {
    Error,
    Warn,
    Info,
    Debug,
    Trace,
}

/// The name under which the program's own messages are logged.
pub open spec fn own_target() -> Seq<char> {
    "defmt_print"@
}

/// Whether a message is shown. The records of the device always are. Of the
/// other messages, all are shown where `--verbose` was given twice or more;
/// the program's own where it was given once; and without it the program's
/// own that are no less grave than [`Level::Info`].
pub open spec fn is_logged(verbose: u32, is_defmt_frame: bool, own: bool, level: Level) -> bool {
    is_defmt_frame || verbose >= 2 || (own && (verbose >= 1 || level is Error || level is Warn
        || level is Info))
}

/// Decides whether a message is shown: one of the level `level`, which is a
/// record of the device or not, and which is the program's own or not.
pub fn should_log(verbose: u32, is_defmt_frame: bool, own: bool, level: Level) -> (r: bool)
    ensures
        r == is_logged(verbose, is_defmt_frame, own, level),
{
    if is_defmt_frame {
        true
    } else if verbose >= 2 {
        true
    } else if verbose >= 1 {
        own
    } else {
        own && matches!(level, Level::Error | Level::Warn | Level::Info)
    }
}

/// The whole of a text as one stretch of it.
fn whole(chars: &Vec<char>) -> (r: Part)
    ensures
        r.kind == PartKind::Normal,
        r.start == 0,
        r.end == chars@.len(),
{
    Part { kind: PartKind::Normal, start: 0, end: chars.len() }
}

/// Whether a message with the target `target` is the program's own.
pub fn is_own_target(target: &str) -> (r: bool)
    ensures
        r == begins_with(target@, own_target()),
{
    let chars = to_chars(target);
    let word = to_chars("defmt_print");
    let all = whole(&chars);
    assert(chars@.subrange(0, chars@.len() as int) =~= chars@);
    part_begins_with(&chars, &all, &word)
}

/// Whether the value of the switch that turns off the version check says so:
/// it does as `true` and as `1`.
pub fn ignores_version(value: &str) -> (r: bool)
    ensures
        r == (value@ == "true"@ || value@ == "1"@),
{
    let chars = to_chars(value);
    let all = whole(&chars);
    assert(chars@.subrange(0, chars@.len() as int) =~= chars@);
    let yes = to_chars("true");
    let one = to_chars("1");
    part_is_named(&chars, &all, &yes) || part_is_named(&chars, &all, &one)
}

/// A field of a text: the characters from `start` up to, not including,
/// `end`.
#[derive(Debug, Clone, Copy, PartialEq, Eq, Structural)]
pub struct Field {
    pub start: usize,
    pub end: usize,
}

/// The fields that the dashes of `text` part from `pos` on, where the field
/// being read started at `start`.
pub open spec fn fields_from(text: Seq<char>, start: int, pos: int) -> Seq<(int, int)>
    decreases text.len() - pos,
{
    if pos >= text.len() {
        seq![(start, text.len() as int)]
    } else if text[pos] == '-' {
        seq![(start, pos)] + fields_from(text, pos + 1, pos + 1)
    } else {
        fields_from(text, start, pos + 1)
    }
}

/// The fields that the dashes of `text` part, in order.
pub open spec fn fields(text: Seq<char>) -> Seq<(int, int)> {
    fields_from(text, 0, 0)
}

/// The fields as contracts speak of them.
pub open spec fn bounds_of(list: Seq<Field>) -> Seq<(int, int)> {
    Seq::new(list.len(), |i: int| (list[i].start as int, list[i].end as int))
}

/// The text has the form of what `git describe --long` prints: it holds at
/// least three fields.
pub open spec fn has_hash(git_describe: Seq<char>) -> bool {
    fields(git_describe).len() >= 3
}

/// The third field of the text, which in what `git describe --long` prints
/// is the hash of the commit.
pub open spec fn git_hash(git_describe: Seq<char>) -> Seq<char> {
    git_describe.subrange(fields(git_describe)[2].0, fields(git_describe)[2].1)
}

/// Every field of the list lies within the text, at or after `from`.
pub open spec fn fields_within(list: Seq<(int, int)>, from: int, len: int) -> bool {
    forall|i: int| 0 <= i < list.len() ==> from <= (#[trigger] list[i]).0 <= list[i].1 <= len
}

/// The fields from `pos` on lie within the text.
pub proof fn lemma_fields_within(text: Seq<char>, start: int, pos: int)
    requires
        0 <= start <= pos <= text.len(),
    ensures
        fields_within(fields_from(text, start, pos), start, text.len() as int),
    decreases text.len() - pos,
{
    if pos >= text.len() {
    } else if text[pos] == '-' {
        lemma_fields_within(text, pos + 1, pos + 1);
        let tail = fields_from(text, pos + 1, pos + 1);
        let all = seq![(start, pos)] + tail;
        assert forall|i: int| 0 <= i < all.len() implies start <= (#[trigger] all[i]).0
            <= all[i].1 <= text.len() by {
            if i > 0 {
                assert(all[i] == tail[i - 1]);
            }
        }
    } else {
        lemma_fields_within(text, start, pos + 1);
    }
}

/// Parts a text at its dashes.
pub fn split_fields(chars: &Vec<char>) -> (r: Vec<Field>)
    ensures
        bounds_of(r@) == fields(chars@),
        forall|i: int| 0 <= i < r@.len() ==> (#[trigger] r@[i]).start <= r@[i].end <= chars@.len(),
{
    let n: usize = chars.len();
    let mut out: Vec<Field> = Vec::new();
    let mut start: usize = 0;
    let mut pos: usize = 0;
    assert(bounds_of(out@) + fields_from(chars@, 0, 0) =~= fields(chars@));
    while pos < n
        invariant
            start <= pos <= n,
            n == chars@.len(),
            bounds_of(out@) + fields_from(chars@, start as int, pos as int) == fields(chars@),
        decreases n - pos,
    {
        if chars[pos] == '-' {
            let ghost before = bounds_of(out@);
            out.push(Field { start, end: pos });
            assert(bounds_of(out@) =~= before + seq![(start as int, pos as int)]);
            assert((before + seq![(start as int, pos as int)]) + fields_from(
                chars@,
                pos + 1,
                pos + 1,
            ) =~= before + fields_from(chars@, start as int, pos as int));
            start = pos + 1;
        }
        pos += 1;
    }
    let ghost before = bounds_of(out@);
    out.push(Field { start, end: n });
    assert(bounds_of(out@) =~= before + seq![(start as int, n as int)]);
    proof {
        lemma_fields_within(chars@, 0, 0);
        assert forall|i: int| 0 <= i < out@.len() implies (#[trigger] out@[i]).start <= out@[i].end
            <= chars@.len() by {
            assert(bounds_of(out@)[i] == fields(chars@)[i]);
        }
    }
    out
}

/// Whether the text holds the three fields that a hash is taken from.
pub fn has_git_hash(git_describe: &str) -> (r: bool)
    ensures
        r == has_hash(git_describe@),
{
    let chars = to_chars(git_describe);
    split_fields(&chars).len() >= 3
}

/// Takes the hash of the commit from what `git describe --long` has printed.
pub fn extract_git_hash(git_describe: &str) -> (r: &str)
    requires
        has_hash(git_describe@),
    ensures
        r@ == git_hash(git_describe@),
{
    let chars = to_chars(git_describe);
    let list = split_fields(&chars);
    assert(bounds_of(list@)[2] == fields(git_describe@)[2]);
    git_describe.substring_char(list[2].start, list[2].end)
}

/// The text that tells the version: the version of the program and the hash
/// of its commit, then the version of `defmt` that it reads.
pub open spec fn version_form(version: Seq<char>, hash: Seq<char>, defmt_version: Seq<char>) -> Seq<
    char,
> {
    version + seq![' '] + hash + "\nsupported defmt version: "@ + defmt_version
}

/// Writes the text that tells the version.
pub fn version_text(version: &str, git_describe: &str, defmt_version: &str) -> (r: String)
    requires
        has_hash(git_describe@),
    ensures
        r@ == version_form(version@, git_hash(git_describe@), defmt_version@),
{
    proof {
        reveal_strlit(" ");
    }
    let mut out = version.to_owned();
    out.append(" ");
    out.append(extract_git_hash(git_describe));
    out.append("\nsupported defmt version: ");
    out.append(defmt_version);
    assert(out@ =~= version_form(version@, git_hash(git_describe@), defmt_version@));
    out
}

} // verus!
