//! Reading a textual memory dump.
//!
//! A dump is a sequence of lines. Only lines whose first space-separated
//! token is `Addr` and that hold at least one more token carry data: the last
//! token, without its two leading bytes (the `0x` marker), is a 32-bit word
//! in base 16, and the words are laid out in little-endian order.

use vstd::prelude::*;
use vstd::slice::slice_subrange;
use vstd::utf8::encode_utf8;

verus! {

/// Why a dump could not be turned into bytes.
#[derive(Debug, Clone, Copy, PartialEq, Eq, Structural)]
pub enum DumpError {
    /// The data line with this index (counted from 0) holds no valid word.
    BadWord(usize),
    /// No line of the dump carried data.
    NoDump,
}

/// What a single line of the dump contributes.
#[derive(Debug, Clone, Copy, PartialEq, Eq, Structural)]
pub enum LineValue {
    /// The line carries no data.
    Ignored,
    /// The line carries this word.
    Word(u32),
    /// The line is a data line, but its last token is not a valid word.
    Malformed,
}

/// The value of one base-16 digit, if `b` is one.
pub open spec fn hex_digit(b: u8) -> Option<nat> {
    if 0x30 <= b <= 0x39 {
        Some((b - 0x30) as nat)
    } else if 0x61 <= b <= 0x66 {
        Some((b - 0x61 + 10) as nat)
    } else if 0x41 <= b <= 0x46 {
        Some((b - 0x41 + 10) as nat)
    } else {
        None
    }
}

/// Every byte of `digits` is a base-16 digit.
pub open spec fn all_hex(digits: Seq<u8>) -> bool {
    forall|i: int| 0 <= i < digits.len() ==> (#[trigger] hex_digit(digits[i])) is Some
}

/// The number that the base-16 digits denote, most significant digit first.
pub open spec fn hex_value(digits: Seq<u8>) -> nat
    decreases digits.len(),
{
    if digits.len() == 0 {
        0
    } else {
        hex_value(digits.drop_last()) * 16 + match hex_digit(digits.last()) {
            Some(d) => d,
            None => 0,
        }
    }
}

/// The digits of a word once an optional leading `+` is removed.
pub open spec fn unsigned_digits(word: Seq<u8>) -> Seq<u8> {
    if word.len() > 0 && word[0] == 0x2b {
        word.subrange(1, word.len() as int)
    } else {
        word
    }
}

/// The 32-bit value of a base-16 word: an optional `+`, then one or more
/// digits whose value fits in 32 bits. Anything else has no value.
pub open spec fn parse_hex_u32(word: Seq<u8>) -> Option<u32> {
    let digits = unsigned_digits(word);
    if digits.len() > 0 && all_hex(digits) && hex_value(digits) <= u32::MAX {
        Some(hex_value(digits) as u32)
    } else {
        None
    }
}

/// The index at which the last space-separated token of `line` starts.
pub open spec fn token_start(line: Seq<u8>) -> int
    decreases line.len(),
{
    if line.len() == 0 {
        0
    } else if line.last() == 0x20 {
        line.len() as int
    } else {
        token_start(line.drop_last())
    }
}

/// The last space-separated token of `line`.
pub open spec fn last_token(line: Seq<u8>) -> Seq<u8> {
    line.subrange(token_start(line), line.len() as int)
}

/// The line's first token is `Addr` and another token follows it.
pub open spec fn is_data_line(line: Seq<u8>) -> bool {
    &&& line.len() >= 5
    &&& line[0] == 0x41
    &&& line[1] == 0x64
    &&& line[2] == 0x64
    &&& line[3] == 0x72
    &&& line[4] == 0x20
}

/// What `line` contributes to the dump.
pub open spec fn line_value(line: Seq<u8>) -> LineValue {
    if !is_data_line(line) {
        LineValue::Ignored
    } else {
        let token = last_token(line);
        if token.len() < 2 {
            LineValue::Malformed
        } else {
            match parse_hex_u32(token.subrange(2, token.len() as int)) {
                Some(v) => LineValue::Word(v),
                None => LineValue::Malformed,
            }
        }
    }
}

/// The four bytes of `v`, least significant first.
pub open spec fn le_bytes(v: u32) -> Seq<u8> {
    seq![
        (v % 256) as u8,
        (v / 256 % 256) as u8,
        (v / 65536 % 256) as u8,
        (v / 16777216) as u8,
    ]
}

/// The bytes that one line contributes.
pub open spec fn line_bytes(line: Seq<u8>) -> Seq<u8> {
    match line_value(line) {
        LineValue::Word(v) => le_bytes(v),
        _ => Seq::empty(),
    }
}

/// The bytes that the lines contribute, in the order of the lines.
pub open spec fn assembled(lines: Seq<Seq<u8>>) -> Seq<u8>
    decreases lines.len(),
{
    if lines.len() == 0 {
        Seq::empty()
    } else {
        assembled(lines.drop_last()) + line_bytes(lines.last())
    }
}

/// `i` is the first line of `lines` that is malformed.
pub open spec fn first_malformed(lines: Seq<Seq<u8>>, i: int) -> bool {
    &&& 0 <= i < lines.len()
    &&& line_value(lines[i]) == LineValue::Malformed
    &&& forall|j: int| 0 <= j < i ==> line_value(#[trigger] lines[j]) != LineValue::Malformed
}

/// No line of `lines` is malformed.
pub open spec fn none_malformed(lines: Seq<Seq<u8>>) -> bool {
    forall|j: int| 0 <= j < lines.len() ==> line_value(#[trigger] lines[j]) != LineValue::Malformed
}

/// The outcome of reading a whole dump: the first malformed line stops the
/// reading; a dump without any data is an error; otherwise the bytes are those
/// of all the words in order.
pub open spec fn dump_outcome(lines: Seq<Seq<u8>>, r: Result<Vec<u8>, DumpError>) -> bool {
    match r {
        Ok(bytes) => none_malformed(lines) && bytes@ == assembled(lines) && bytes@.len() > 0,
        Err(DumpError::BadWord(i)) => first_malformed(lines, i as int),
        Err(DumpError::NoDump) => none_malformed(lines) && assembled(lines).len() == 0,
    }
}

/// The bytes of each line of text.
pub open spec fn text_lines(lines: Seq<String>) -> Seq<Seq<u8>> {
    Seq::new(lines.len(), |i: int| encode_utf8(lines[i]@))
}

/// A prefix of a word never denotes more than the word.
pub proof fn lemma_hex_value_prefix(digits: Seq<u8>, k: int)
    requires
        0 <= k <= digits.len(),
    ensures
        hex_value(digits.take(k)) <= hex_value(digits),
    decreases digits.len() - k,
{
    if k == digits.len() {
        assert(digits.take(k) =~= digits);
    } else {
        lemma_hex_value_prefix(digits, k + 1);
        assert(digits.take(k + 1).drop_last() =~= digits.take(k));
    }
}

/// Bytes that hold no space after position `i` do not move the start of the
/// last token.
pub proof fn lemma_token_start(line: Seq<u8>, i: int)
    requires
        0 <= i <= line.len(),
        forall|j: int| i <= j < line.len() ==> line[j] != 0x20,
    ensures
        token_start(line) == token_start(line.take(i)),
    decreases line.len() - i,
{
    if i == line.len() {
        assert(line.take(i) =~= line);
    } else {
        lemma_token_start(line.drop_last(), i);
        assert(line.drop_last().take(i) =~= line.take(i));
    }
}

/// Sixteen to the power `n`.
pub open spec fn pow16(n: nat) -> nat
    decreases n,
{
    if n == 0 {
        1
    } else {
        16 * pow16((n - 1) as nat)
    }
}

/// A word of `n` digits denotes less than sixteen to the power `n`.
pub proof fn lemma_hex_value_bound(digits: Seq<u8>)
    ensures
        hex_value(digits) < pow16(digits.len()),
    decreases digits.len(),
{
    if digits.len() > 0 {
        lemma_hex_value_bound(digits.drop_last());
    }
}

/// The words, each laid out least significant byte first, one after another.
pub open spec fn le_concat(values: Seq<u32>) -> Seq<u8> {
    Seq::new(4 * values.len(), |k: int| le_bytes(values[k / 4])[k % 4])
}

/// The text `Addr 0x`.
pub open spec fn data_line_head() -> Seq<u8> {
    seq![0x41u8, 0x64u8, 0x64u8, 0x72u8, 0x20u8, 0x30u8, 0x78u8]
}

/// A line made of `Addr 0x` and one to eight base-16 digits carries the word
/// that the digits denote.
pub proof fn lemma_plain_data_line(digits: Seq<u8>)
    requires
        1 <= digits.len() <= 8,
        all_hex(digits),
    ensures
        hex_value(digits) <= u32::MAX,
        line_value(data_line_head() + digits) == LineValue::Word(hex_value(digits) as u32),
{
    let line = data_line_head() + digits;
    lemma_hex_value_bound(digits);
    assert(pow16(digits.len()) <= 4294967296) by {
        reveal_with_fuel(pow16, 9);
    }
    assert forall|j: int| 5 <= j < line.len() implies line[j] != 0x20 by {
        if j >= 7 {
            assert(line[j] == digits[j - 7]);
            assert(hex_digit(digits[j - 7]) is Some);
        }
    }
    lemma_token_start(line, 5);
    assert(line.take(5).last() == 0x20);
    let token = last_token(line);
    assert(token.subrange(2, token.len() as int) =~= digits);
    assert(digits[0] != 0x2b) by {
        assert(hex_digit(digits[0]) is Some);
    }
}

/// Lines that each carry a word yield the words in little-endian layout, in
/// the order of the lines.
pub proof fn lemma_dump_is_little_endian(lines: Seq<Seq<u8>>, values: Seq<u32>)
    requires
        lines.len() == values.len(),
        forall|i: int| 0 <= i < lines.len() ==> line_value(#[trigger] lines[i]) == LineValue::Word(
            values[i],
        ),
    ensures
        assembled(lines) == le_concat(values),
    decreases lines.len(),
{
    if lines.len() == 0 {
        assert(assembled(lines) =~= le_concat(values));
    } else {
        lemma_dump_is_little_endian(lines.drop_last(), values.drop_last());
        assert(line_value(lines.last()) == LineValue::Word(values.last()));
        let whole = le_concat(values);
        let front = le_concat(values.drop_last());
        assert(whole =~= front + le_bytes(values.last())) by {
            assert forall|k: int| 0 <= k < whole.len() implies whole[k] == (front + le_bytes(
                values.last(),
            ))[k] by {
                if k < front.len() {
                    assert(values.drop_last()[k / 4] == values[k / 4]);
                } else {
                    assert(k / 4 == values.len() - 1);
                    assert(k - front.len() == k % 4);
                }
            }
        }
    }
}

/// Reading a dump whose lines each carry a word succeeds, and yields the
/// words in little-endian layout, in the order of the lines.
pub proof fn lemma_well_formed_dump(lines: Seq<Seq<u8>>, values: Seq<u32>)
    requires
        lines.len() == values.len(),
        lines.len() > 0,
        forall|i: int| 0 <= i < lines.len() ==> line_value(#[trigger] lines[i]) == LineValue::Word(
            values[i],
        ),
    ensures
        forall|r: Result<Vec<u8>, DumpError>| #[trigger]
            dump_outcome(lines, r) ==> r is Ok && r->Ok_0@ == le_concat(values),
{
    lemma_dump_is_little_endian(lines, values);
    assert(le_concat(values).len() == 4 * values.len());
}

/// A dump in which no line carries data yields no byte, and no line of it is
/// malformed: reading it ends with [`DumpError::NoDump`].
pub proof fn lemma_no_data_line_is_no_dump(lines: Seq<Seq<u8>>)
    requires
        forall|i: int| 0 <= i < lines.len() ==> !is_data_line(#[trigger] lines[i]),
    ensures
        none_malformed(lines),
        assembled(lines).len() == 0,
        forall|r: Result<Vec<u8>, DumpError>| #[trigger]
            dump_outcome(lines, r) ==> r == Err::<Vec<u8>, DumpError>(DumpError::NoDump),
    decreases lines.len(),
{
    if lines.len() > 0 {
        lemma_no_data_line_is_no_dump(lines.drop_last());
        assert(!is_data_line(lines.last()));
    }
    assert forall|r: Result<Vec<u8>, DumpError>| #[trigger] dump_outcome(lines, r) implies r
        == Err::<Vec<u8>, DumpError>(DumpError::NoDump) by {
        match r {
            Err(DumpError::BadWord(i)) => {
                assert(!is_data_line(lines[i as int]));
            },
            _ => {},
        }
    }
}

/// The value of one base-16 digit.
pub fn hex_digit_value(b: u8) -> (r: Option<u8>)
    ensures
        match r {
            Some(d) => hex_digit(b) == Some(d as nat) && d < 16,
            None => hex_digit(b) is None,
        },
{
    if 0x30 <= b && b <= 0x39 {
        Some(b - 0x30)
    } else if 0x61 <= b && b <= 0x66 {
        Some(b - 0x61 + 10)
    } else if 0x41 <= b && b <= 0x46 {
        Some(b - 0x41 + 10)
    } else {
        None
    }
}

/// Reads a base-16 word of 32 bits: an optional `+`, then digits only.
pub fn parse_hex_word(word: &[u8]) -> (r: Option<u32>)
    ensures
        r == parse_hex_u32(word@),
{
    let n: usize = word.len();
    let start: usize = if n > 0 && word[0] == 0x2b { 1 } else { 0 };
    let ghost digits = unsigned_digits(word@);
    assert(digits =~= word@.subrange(start as int, n as int));
    if start == n {
        return None;
    }
    let mut acc: u32 = 0;
    let mut i: usize = start;
    while i < n
        invariant
            start <= i <= n,
            n == word@.len(),
            digits == word@.subrange(start as int, n as int),
            digits == unsigned_digits(word@),
            all_hex(digits.take(i - start)),
            acc == hex_value(digits.take(i - start)),
        decreases n - i,
    {
        let ghost before = digits.take(i - start);
        let ghost after = digits.take(i - start + 1);
        assert(after.drop_last() =~= before);
        assert(after.last() == word@[i as int]);
        assert(digits[i - start] == word@[i as int]);
        match hex_digit_value(word[i]) {
            None => {
                assert(hex_digit(digits[i - start]) is None);
                assert(!all_hex(digits));
                return None;
            },
            Some(d) => {
                if acc > (u32::MAX - d as u32) / 16 {
                    proof {
                        assert(hex_value(after) == acc * 16 + d);
                        lemma_hex_value_prefix(digits, i - start + 1);
                    }
                    return None;
                }
                acc = acc * 16 + d as u32;
                assert forall|j: int| 0 <= j < after.len() implies (#[trigger] hex_digit(
                    after[j],
                )) is Some by {
                    if j < before.len() {
                        assert(after[j] == before[j]);
                    }
                }
            },
        }
        i += 1;
    }
    assert(digits.take(n - start) =~= digits);
    Some(acc)
}

/// Finds where the last space-separated token of `line` starts.
pub fn last_token_start(line: &[u8]) -> (r: usize)
    ensures
        r == token_start(line@),
        r <= line@.len(),
{
    let mut i: usize = line.len();
    while i > 0 && line[i - 1] != 0x20
        invariant
            i <= line@.len(),
            forall|j: int| i <= j < line@.len() ==> line@[j] != 0x20,
        decreases i,
    {
        i -= 1;
    }
    proof {
        lemma_token_start(line@, i as int);
        if i > 0 {
            assert(line@.take(i as int).last() == 0x20);
        }
    }
    i
}

/// Reads one line of the dump, given as its bytes.
pub fn parse_dump_bytes(line: &[u8]) -> (r: LineValue)
    ensures
        r == line_value(line@),
{
    if line.len() < 5 || line[0] != 0x41 || line[1] != 0x64 || line[2] != 0x64 || line[3] != 0x72
        || line[4] != 0x20 {
        return LineValue::Ignored;
    }
    let start: usize = last_token_start(line);
    let n: usize = line.len();
    if n - start < 2 {
        return LineValue::Malformed;
    }
    let word = slice_subrange(line, start + 2, n);
    assert(word@ =~= last_token(line@).subrange(2, last_token(line@).len() as int));
    match parse_hex_word(word) {
        Some(v) => LineValue::Word(v),
        None => LineValue::Malformed,
    }
}

/// Reads one line of the dump.
pub fn parse_dump_line(line: &str) -> (r: LineValue)
    ensures
        r == line_value(encode_utf8(line@)),
{
    parse_dump_bytes(line.as_bytes())
}

/// Appends the four bytes of `v`, least significant first.
pub fn push_le_bytes(bytes: &mut Vec<u8>, v: u32)
    ensures
        final(bytes)@ == old(bytes)@ + le_bytes(v),
{
    bytes.push((v % 256) as u8);
    bytes.push((v / 256 % 256) as u8);
    bytes.push((v / 65536 % 256) as u8);
    bytes.push((v / 16777216) as u8);
    assert(bytes@ =~= old(bytes)@ + le_bytes(v));
}

/// Turns the lines of a dump into the bytes that the dump describes.
///
/// Lines that carry no data are passed over. The first data line whose last
/// token is not a word of 32 bits in base 16 (after its two leading bytes)
/// ends the reading with [`DumpError::BadWord`]; a dump that yields no byte
/// at all is [`DumpError::NoDump`].
pub fn stdin_dump_to_bytes(lines: &Vec<String>) -> (r: Result<Vec<u8>, DumpError>)
    ensures
        dump_outcome(text_lines(lines@), r),
{
    let ghost all = text_lines(lines@);
    let mut bytes: Vec<u8> = Vec::new();
    let mut i: usize = 0;
    while i < lines.len()
        invariant
            i <= lines@.len(),
            all == text_lines(lines@),
            bytes@ == assembled(all.take(i as int)),
            none_malformed(all.take(i as int)),
        decreases lines@.len() - i,
    {
        let ghost next = all.take(i + 1);
        assert(next.drop_last() =~= all.take(i as int));
        assert(next.last() == encode_utf8(lines@[i as int]@));
        match parse_dump_line(lines[i].as_str()) {
            LineValue::Ignored => {},
            LineValue::Word(v) => {
                push_le_bytes(&mut bytes, v);
            },
            LineValue::Malformed => {
                assert forall|j: int| 0 <= j < i implies line_value(#[trigger] all[j])
                    != LineValue::Malformed by {
                    assert(all.take(i as int)[j] == all[j]);
                }
                return Err(DumpError::BadWord(i));
            },
        }
        assert forall|j: int| 0 <= j < next.len() implies line_value(#[trigger] next[j])
            != LineValue::Malformed by {
            if j < i {
                assert(all.take(i as int)[j] == next[j]);
            }
        }
        i += 1;
    }
    assert(all.take(i as int) =~= all);
    if bytes.len() == 0 {
        Err(DumpError::NoDump)
    } else {
        Ok(bytes)
    }
}

} // verus!
