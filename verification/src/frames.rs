//! Cutting the log into frames and reversing their byte stuffing.
//!
//! In the log the byte `0xFF` stands between two frames and nowhere else:
//! within a frame the bytes are stuffed so that none of them is `0xFF`.

use vstd::prelude::*;
use vstd::slice::slice_subrange;

verus! {

/// The byte that stands between two frames.
pub const SENTINEL: u8 = 0xFF;

/// A candidate for a frame: a stretch of the log between two sentinels, the
/// bytes from `start` up to, not including, `end`.
#[derive(Debug, Clone, Copy, PartialEq, Eq, Structural)]
pub struct Candidate {
    pub start: usize,
    pub end: usize,
}

/// A stretch of the log, as contracts speak of it.
pub ghost struct Stretch {
    pub start: int,
    pub end: int,
}

impl View for Candidate {
    type V = Stretch;

    open spec fn view(&self) -> Stretch {
        Stretch { start: self.start as int, end: self.end as int }
    }
}

/// The frames as contracts speak of them.
pub open spec fn stretches_of(frames: Seq<Candidate>) -> Seq<Stretch> {
    Seq::new(frames.len(), |i: int| frames[i]@)
}

/// The stretch from `start` to `end` as a frame, if it holds more than one
/// byte: shorter stretches are the gaps that sentinels next to each other, or
/// at either end of the log, leave.
pub open spec fn kept(start: int, end: int) -> Seq<Stretch> {
    if end - start > 1 {
        seq![Stretch { start, end }]
    } else {
        Seq::empty()
    }
}

/// The frames found from `pos` on, where the stretch being read started at
/// `start`.
pub open spec fn frames_from(buf: Seq<u8>, start: int, pos: int) -> Seq<Stretch>
    decreases buf.len() - pos,
{
    if pos >= buf.len() {
        kept(start, buf.len() as int)
    } else if buf[pos] == SENTINEL {
        kept(start, pos) + frames_from(buf, pos + 1, pos + 1)
    } else {
        frames_from(buf, start, pos + 1)
    }
}

/// The frames of a log, in order.
pub open spec fn frames(buf: Seq<u8>) -> Seq<Stretch> {
    frames_from(buf, 0, 0)
}

/// The bytes of a stretch of the log.
pub open spec fn stretch_bytes(buf: Seq<u8>, s: Stretch) -> Seq<u8> {
    buf.subrange(s.start, s.end)
}

/// The stretch is a frame of the log: it holds more than one byte and no
/// sentinel, and a sentinel or an end of the log stands on either side.
pub open spec fn is_frame(buf: Seq<u8>, s: Stretch) -> bool {
    &&& 0 <= s.start
    &&& s.start + 1 < s.end <= buf.len()
    &&& s.start == 0 || buf[s.start - 1] == SENTINEL
    &&& s.end == buf.len() || buf[s.end] == SENTINEL
    &&& forall|i: int| s.start <= i < s.end ==> buf[i] != SENTINEL
}

/// Every stretch of the list is a frame of the log at or after `from`, and
/// each lies behind the one before it.
pub open spec fn frames_in_order(buf: Seq<u8>, list: Seq<Stretch>, from: int) -> bool {
    &&& forall|i: int| 0 <= i < list.len() ==> is_frame(buf, #[trigger] list[i]) && from <= list[i].start
    &&& forall|i: int, j: int|
        0 <= i < j < list.len() ==> (#[trigger] list[i]).end < (#[trigger] list[j]).start
}

/// What the frames found from `pos` on are: frames of the log, in order.
pub proof fn lemma_frames_from(buf: Seq<u8>, start: int, pos: int)
    requires
        0 <= start <= pos <= buf.len(),
        start == 0 || buf[start - 1] == SENTINEL,
        forall|i: int| start <= i < pos ==> buf[i] != SENTINEL,
    ensures
        frames_in_order(buf, frames_from(buf, start, pos), start),
    decreases buf.len() - pos,
{
    if pos >= buf.len() {
    } else if buf[pos] == SENTINEL {
        lemma_frames_from(buf, pos + 1, pos + 1);
        let head = kept(start, pos);
        let tail = frames_from(buf, pos + 1, pos + 1);
        let all = head + tail;
        assert forall|i: int| 0 <= i < all.len() implies is_frame(buf, #[trigger] all[i]) && start
            <= all[i].start by {
            if i >= head.len() {
                assert(all[i] == tail[i - head.len()]);
            }
        }
        assert forall|i: int, j: int| 0 <= i < j < all.len() implies (#[trigger] all[i]).end < (
        #[trigger] all[j]).start by {
            assert(all[j] == tail[j - head.len()]);
            if i >= head.len() {
                assert(all[i] == tail[i - head.len()]);
            }
        }
    } else {
        lemma_frames_from(buf, start, pos + 1);
    }
}

/// The frames of a log are frames indeed, each behind the one before it; so
/// none holds fewer than two bytes.
pub proof fn lemma_frames_are_frames(buf: Seq<u8>)
    ensures
        frames_in_order(buf, frames(buf), 0),
{
    lemma_frames_from(buf, 0, 0);
}

/// No frame of the log at or after `start` is missing among those found from
/// `pos` on.
pub proof fn lemma_frames_from_complete(buf: Seq<u8>, start: int, pos: int, s: Stretch)
    requires
        0 <= start <= pos <= buf.len(),
        forall|i: int| start <= i < pos ==> buf[i] != SENTINEL,
        is_frame(buf, s),
        s.start >= start,
    ensures
        frames_from(buf, start, pos).contains(s),
    decreases buf.len() - pos,
{
    if pos >= buf.len() {
        if s.start > start {
            assert(buf[s.start - 1] == SENTINEL);
        }
        assert(kept(start, buf.len() as int)[0] == s);
    } else if buf[pos] == SENTINEL {
        let head = kept(start, pos);
        let tail = frames_from(buf, pos + 1, pos + 1);
        if s.start > pos {
            lemma_frames_from_complete(buf, pos + 1, pos + 1, s);
            let i = choose|i: int| 0 <= i < tail.len() && tail[i] == s;
            assert((head + tail)[head.len() + i] == s);
        } else {
            if s.start > start {
                assert(buf[s.start - 1] == SENTINEL);
            }
            assert(s.start == start);
            assert(s.end == pos) by {
                if s.end > pos {
                    assert(buf[pos] != SENTINEL);
                }
                if s.end < pos {
                    assert(buf[s.end] == SENTINEL);
                }
            }
            assert((head + tail)[0] == s);
        }
    } else {
        if s.start > pos {
            lemma_frames_from_complete(buf, start, pos + 1, s);
        } else {
            if s.start > start {
                assert(buf[s.start - 1] == SENTINEL);
            }
            lemma_frames_from_complete(buf, start, pos + 1, s);
        }
    }
}

/// Every frame of the log is among its frames.
pub proof fn lemma_frames_complete(buf: Seq<u8>, s: Stretch)
    requires
        is_frame(buf, s),
    ensures
        frames(buf).contains(s),
{
    lemma_frames_from_complete(buf, 0, 0, s);
}

/// Cuts the log at every sentinel and keeps the stretches of more than one
/// byte, in the order in which they lie in the log.
pub fn split_frames(buf: &[u8]) -> (r: Vec<Candidate>)
    ensures
        stretches_of(r@) == frames(buf@),
        frames_in_order(buf@, stretches_of(r@), 0),
{
    let n: usize = buf.len();
    let mut out: Vec<Candidate> = Vec::new();
    let mut start: usize = 0;
    let mut pos: usize = 0;
    assert(stretches_of(out@) + frames_from(buf@, 0, 0) =~= frames(buf@));
    while pos < n
        invariant
            start <= pos <= n,
            n == buf@.len(),
            stretches_of(out@) + frames_from(buf@, start as int, pos as int) == frames(buf@),
        decreases n - pos,
    {
        if buf[pos] == SENTINEL {
            let ghost before = stretches_of(out@);
            if pos - start > 1 {
                out.push(Candidate { start, end: pos });
            }
            assert(stretches_of(out@) =~= before + kept(start as int, pos as int));
            assert((before + kept(start as int, pos as int)) + frames_from(buf@, pos + 1, pos + 1)
                =~= before + frames_from(buf@, start as int, pos as int));
            start = pos + 1;
        }
        pos += 1;
    }
    let ghost before = stretches_of(out@);
    if n - start > 1 {
        out.push(Candidate { start, end: n });
    }
    assert(stretches_of(out@) =~= before + kept(start as int, n as int));
    proof {
        lemma_frames_are_frames(buf@);
    }
    out
}

/// The bytes, each combined with `sentinel` by exclusive or. Doing so twice
/// gives the bytes back.
pub open spec fn masked(bytes: Seq<u8>, sentinel: u8) -> Seq<u8> {
    Seq::new(bytes.len(), |i: int| bytes[i] ^ sentinel)
}

/// What reversing the byte stuffing yields where the marker is zero.
///
/// The stuffed bytes are a row of blocks. The first byte of a block, its
/// code, tells how long the block is: the code less one bytes of data follow
/// it (none after the code zero). A code that reaches beyond the end makes
/// the whole malformed. After the data of a block comes a zero that the
/// stuffing took out, but not after a block of the code `0xFF` and not after
/// the last block.
pub open spec fn unstuffed(stuffed: Seq<u8>) -> Option<Seq<u8>>
    decreases stuffed.len(),
{
    if stuffed.len() == 0 {
        Some(Seq::empty())
    } else {
        let code = stuffed[0] as int;
        if code > stuffed.len() && code != 1 {
            None
        } else {
            let n = if code == 0 {
                0
            } else {
                code - 1
            };
            let rest = stuffed.subrange(1 + n, stuffed.len() as int);
            let gap = if code != 0xFF && rest.len() > 0 {
                seq![0u8]
            } else {
                Seq::empty()
            };
            match unstuffed(rest) {
                Some(tail) => Some(stuffed.subrange(1, 1 + n) + gap + tail),
                None => None,
            }
        }
    }
}

/// What reversing the byte stuffing of `source` yields, for the sentinel
/// `sentinel`: the bytes that were stuffed, or nothing where `source` is not
/// the stuffed form of any bytes. Each byte is first combined with the
/// sentinel, which turns the sentinel into zero; then the stuffing is
/// reversed as for the marker zero.
pub open spec fn cobs_decoded(source: Seq<u8>, sentinel: u8) -> Option<Seq<u8>> {
    unstuffed(masked(source, sentinel))
}

/// `cobs::decode_with_sentinel`, with a destination as long as the source.
/// The function first fills the destination with the source, each byte
/// combined with the sentinel, and then decodes the destination in place,
/// block by block as [`unstuffed`] tells: it reads the code of a block, fails
/// if the code is not one and reaches beyond the end, copies the data of the
/// block, and writes a zero after it unless the code is `0xFF` or the end is
/// reached. What it writes lies before what it has yet to read, so decoding
/// in place reads the bytes as they were. On success the decoded bytes are
/// the first `n` of the destination.
#[verifier::external_body]
fn decode_with_sentinel(source: &[u8], dest: &mut Vec<u8>, sentinel: u8) -> (r: Result<usize, ()>)
    requires
        old(dest)@.len() == source@.len(),
    ensures
        final(dest)@.len() == old(dest)@.len(),
        match r {
            Ok(n) => n <= source@.len() && cobs_decoded(source@, sentinel) == Some(
                final(dest)@.take(n as int),
            ),
            Err(_) => cobs_decoded(source@, sentinel) is None,
        },
{
    cobs::decode_with_sentinel(source, dest.as_mut_slice(), sentinel)
}

/// What reversing the byte stuffing of a frame yields.
pub open spec fn destuffed(frame: Seq<u8>) -> Option<Seq<u8>> {
    cobs_decoded(frame, SENTINEL)
}

/// How far the first block of the stuffed form of `payload` reaches from
/// `i` on: up to the first zero, the end, or 254 bytes, whichever comes first.
pub open spec fn block_end(payload: Seq<u8>, i: int) -> int
    decreases payload.len() - i,
{
    if i < 0 || i >= payload.len() || i >= 254 || payload[i] == 0 {
        i
    } else {
        block_end(payload, i + 1)
    }
}

/// The stuffed form of `payload` where the marker is zero: the payload cut
/// at its zeros and after every 254 bytes without one, each piece behind a
/// code that tells its length; the zeros themselves are left out. A payload
/// without bytes has the one code as its stuffed form.
pub open spec fn stuffed_plain(payload: Seq<u8>) -> Seq<u8>
    decreases payload.len(),
{
    let k = block_end(payload, 0);
    if k == 254 && payload.len() >= 254 {
        seq![0xFFu8] + payload.take(254) + stuffed_plain(payload.skip(254))
    } else if 0 <= k < payload.len() {
        seq![(k + 1) as u8] + payload.take(k) + stuffed_plain(payload.skip(k + 1))
    } else {
        seq![(payload.len() + 1) as u8] + payload
    }
}

/// The stuffed form of `payload` as it stands in a log: no byte of it is the
/// sentinel.
pub open spec fn stuffed(payload: Seq<u8>) -> Seq<u8> {
    masked(stuffed_plain(payload), SENTINEL)
}

/// What a block reaches up to: bytes without a zero, no more than 254 of
/// them, and behind them a zero, the end, or the 255th byte.
pub proof fn lemma_block_end(payload: Seq<u8>, i: int)
    requires
        0 <= i <= payload.len(),
        i <= 254,
        forall|j: int| 0 <= j < i ==> payload[j] != 0,
    ensures
        i <= block_end(payload, i) <= payload.len(),
        block_end(payload, i) <= 254,
        forall|j: int| 0 <= j < block_end(payload, i) ==> payload[j] != 0,
        block_end(payload, i) == 254 || block_end(payload, i) == payload.len() || payload[block_end(
            payload,
            i,
        )] == 0,
    decreases payload.len() - i,
{
    if i >= payload.len() || i >= 254 || payload[i] == 0 {
    } else {
        lemma_block_end(payload, i + 1);
    }
}

/// The stuffed form holds no zero, is never empty, and is longer than one
/// byte for every payload but the empty one.
pub proof fn lemma_stuffed_plain_shape(payload: Seq<u8>)
    ensures
        stuffed_plain(payload).len() >= 1,
        payload.len() >= 1 ==> stuffed_plain(payload).len() >= 2,
        forall|i: int| 0 <= i < stuffed_plain(payload).len() ==> stuffed_plain(payload)[i] != 0,
    decreases payload.len(),
{
    let k = block_end(payload, 0);
    lemma_block_end(payload, 0);
    let all = stuffed_plain(payload);
    if k == 254 && payload.len() >= 254 {
        let tail = stuffed_plain(payload.skip(254));
        lemma_stuffed_plain_shape(payload.skip(254));
        assert forall|i: int| 0 <= i < all.len() implies all[i] != 0 by {
            if i == 0 {
            } else if i <= 254 {
                assert(all[i] == payload[i - 1]);
            } else {
                assert(all[i] == tail[i - 255]);
            }
        }
    } else if 0 <= k < payload.len() {
        let tail = stuffed_plain(payload.skip(k + 1));
        lemma_stuffed_plain_shape(payload.skip(k + 1));
        assert forall|i: int| 0 <= i < all.len() implies all[i] != 0 by {
            if i == 0 {
            } else if i <= k {
                assert(all[i] == payload[i - 1]);
            } else {
                assert(all[i] == tail[i - k - 1]);
            }
        }
    } else {
        assert(k == payload.len());
        assert forall|i: int| 0 <= i < all.len() implies all[i] != 0 by {
            if i > 0 {
                assert(all[i] == payload[i - 1]);
            }
        }
    }
}

/// Reversing the stuffing of the stuffed form of a payload yields the
/// payload, where the marker is zero.
pub proof fn lemma_unstuffed_stuffed_plain(payload: Seq<u8>)
    ensures
        unstuffed(stuffed_plain(payload)) == Some(payload),
    decreases payload.len(),
{
    let k = block_end(payload, 0);
    lemma_block_end(payload, 0);
    let all = stuffed_plain(payload);
    if k == 254 && payload.len() >= 254 {
        let tail = stuffed_plain(payload.skip(254));
        lemma_unstuffed_stuffed_plain(payload.skip(254));
        lemma_stuffed_plain_shape(payload.skip(254));
        assert(all[0] == 0xFF);
        assert(all.subrange(255, all.len() as int) =~= tail);
        assert(all.subrange(1, 255) =~= payload.take(254));
        assert(payload.take(254) + Seq::<u8>::empty() + payload.skip(254) =~= payload);
        assert(unstuffed(all) == Some(payload));
    } else if 0 <= k < payload.len() {
        let tail = stuffed_plain(payload.skip(k + 1));
        lemma_unstuffed_stuffed_plain(payload.skip(k + 1));
        lemma_stuffed_plain_shape(payload.skip(k + 1));
        assert(all[0] == k + 1);
        assert(all.subrange(1 + k, all.len() as int) =~= tail);
        assert(all.subrange(1, 1 + k) =~= payload.take(k));
        assert(payload.take(k) + seq![0u8] + payload.skip(k + 1) =~= payload);
        assert(unstuffed(all) == Some(payload));
    } else {
        assert(k == payload.len());
        assert(all[0] == k + 1);
        assert(all.subrange(1 + k, all.len() as int) =~= Seq::<u8>::empty());
        assert(all.subrange(1, 1 + k) =~= payload);
        assert(payload + Seq::<u8>::empty() + Seq::<u8>::empty() =~= payload);
        assert(unstuffed(Seq::<u8>::empty()) == Some(Seq::<u8>::empty()));
        assert(unstuffed(all) == Some(payload));
    }
}

/// Combining bytes with a sentinel twice gives them back.
pub proof fn lemma_masked_twice(bytes: Seq<u8>, sentinel: u8)
    ensures
        masked(masked(bytes, sentinel), sentinel) == bytes,
{
    assert forall|i: int| 0 <= i < bytes.len() implies masked(masked(bytes, sentinel), sentinel)[i]
        == bytes[i] by {
        let b = bytes[i];
        assert((b ^ sentinel) ^ sentinel == b) by (bit_vector);
    }
    assert(masked(masked(bytes, sentinel), sentinel) =~= bytes);
}

/// The stuffed form of a payload holds no sentinel, and more than one byte
/// unless the payload is empty.
pub proof fn lemma_stuffed_shape(payload: Seq<u8>)
    ensures
        stuffed(payload).len() >= 1,
        payload.len() >= 1 ==> stuffed(payload).len() >= 2,
        forall|i: int| 0 <= i < stuffed(payload).len() ==> stuffed(payload)[i] != SENTINEL,
{
    lemma_stuffed_plain_shape(payload);
    assert forall|i: int| 0 <= i < stuffed(payload).len() implies stuffed(payload)[i]
        != SENTINEL by {
        let b = stuffed_plain(payload)[i];
        assert(b != 0u8 ==> b ^ 0xFFu8 != 0xFFu8) by (bit_vector);
    }
}

/// Reversing the stuffing of the stuffed form of a payload yields the
/// payload; and stuffing what comes out yields the stuffed form again.
pub proof fn lemma_destuffed_stuffed(payload: Seq<u8>)
    ensures
        destuffed(stuffed(payload)) == Some(payload),
        stuffed(destuffed(stuffed(payload))->0) == stuffed(payload),
{
    lemma_masked_twice(stuffed_plain(payload), SENTINEL);
    lemma_unstuffed_stuffed_plain(payload);
}

/// A log that holds one stretch without a sentinel, of more than one byte,
/// and a sentinel behind it has that stretch as its one frame.
pub proof fn lemma_single_frame(stretch: Seq<u8>)
    requires
        stretch.len() >= 2,
        forall|i: int| 0 <= i < stretch.len() ==> stretch[i] != SENTINEL,
    ensures
        frames(stretch + seq![SENTINEL]) == seq![Stretch { start: 0, end: stretch.len() as int }],
        stretch_bytes(stretch + seq![SENTINEL], Stretch { start: 0, end: stretch.len() as int })
            == stretch,
{
    let buf = stretch + seq![SENTINEL];
    let whole = Stretch { start: 0, end: stretch.len() as int };
    let list = frames(buf);
    assert(buf[stretch.len() as int] == SENTINEL);
    assert forall|i: int| 0 <= i < stretch.len() implies buf[i] != SENTINEL by {
        assert(buf[i] == stretch[i]);
    }
    assert(is_frame(buf, whole));
    lemma_frames_complete(buf, whole);
    lemma_frames_are_frames(buf);
    assert forall|i: int| 0 <= i < list.len() implies list[i] == whole by {
        let s = list[i];
        assert(is_frame(buf, s));
        if s.start > 0 {
            assert(buf[s.start - 1] == SENTINEL);
            assert(s.start - 1 == stretch.len());
        }
        if s.end < buf.len() {
            assert(buf[s.end] == SENTINEL);
        } else {
            assert(buf[s.end - 1] != SENTINEL);
        }
    }
    if list.len() > 1 {
        assert(list[0].end < list[1].start);
    }
    assert(list.len() >= 1);
    assert(list =~= seq![whole]);
    assert(buf.subrange(0, stretch.len() as int) =~= stretch);
}

/// The round trip of the framing: a log made of the stuffed form of a
/// payload, which is not empty, and a sentinel has one frame; reversing its
/// stuffing yields the payload, and stuffing the payload yields the frame.
pub proof fn lemma_round_trip(payload: Seq<u8>)
    requires
        payload.len() >= 1,
    ensures
        frames(stuffed(payload) + seq![SENTINEL]).len() == 1,
        stretch_bytes(stuffed(payload) + seq![SENTINEL], frames(stuffed(payload) + seq![SENTINEL])[0])
            == stuffed(payload),
        destuffed(
            stretch_bytes(
                stuffed(payload) + seq![SENTINEL],
                frames(stuffed(payload) + seq![SENTINEL])[0],
            ),
        ) == Some(payload),
        stuffed(payload) == stuffed(
            destuffed(
                stretch_bytes(
                    stuffed(payload) + seq![SENTINEL],
                    frames(stuffed(payload) + seq![SENTINEL])[0],
                ),
            )->0,
        ),
{
    lemma_stuffed_shape(payload);
    lemma_single_frame(stuffed(payload));
    lemma_destuffed_stuffed(payload);
}

/// Reverses the byte stuffing of a frame into `scratch`, a buffer that the
/// caller keeps from one frame to the next. On success the payload is the
/// first `n` bytes of `scratch`; a frame that is not the stuffed form of any
/// bytes yields nothing.
pub fn destuff(frame: &[u8], scratch: &mut Vec<u8>) -> (r: Option<usize>)
    ensures
        match r {
            Some(n) => n <= frame@.len() && n <= final(scratch)@.len() && destuffed(frame@)
                == Some(final(scratch)@.take(n as int)),
            None => destuffed(frame@) is None,
        },
{
    scratch.clear();
    scratch.resize(frame.len(), 0);
    match decode_with_sentinel(frame, scratch, SENTINEL) {
        Ok(n) => Some(n),
        Err(_) => None,
    }
}

/// The bytes of a stretch of the log.
pub fn frame_bytes<'a>(buf: &'a [u8], frame: &Candidate) -> (r: &'a [u8])
    requires
        frame.start <= frame.end <= buf@.len(),
    ensures
        r@ == buf@.subrange(frame.start as int, frame.end as int),
{
    slice_subrange(buf, frame.start, frame.end)
}

} // verus!
