//! From the bytes of the log to the records that are shown.
//!
//! The log is read frame by frame. A [`LogReader`] hands out the payload of
//! each frame in turn, freed of its byte stuffing; the caller has the decoder
//! of `defmt` read the payload and tells the reader what the decoder
//! answered; the reader says what is to be shown. Frames come in the order in
//! which they lie in the log, and none comes after one whose data the decoder
//! found corrupt.

use crate::dep;
use crate::frames::{
    destuff, destuffed, frame_bytes, frames, is_frame, lemma_frames_are_frames, lemma_round_trip,
    lemma_single_frame, lemma_stuffed_shape, split_frames, stretch_bytes, stretches_of, stuffed,
    Candidate, Stretch, SENTINEL,
};
use crate::locations::{find_location, place_of, Location, Locations};
use vstd::prelude::*;

verus! {

/// Why the decoder read no record.
#[derive(Debug, Clone, Copy, PartialEq, Eq, Structural)]
pub enum DecodeFailure {
    /// The data ends before the record does.
    Incomplete,
    /// The data is not that of any record.
    Corrupt,
}

/// The place of a log statement as it is shown.
#[derive(Debug, Clone, PartialEq, Eq)]
pub struct ShownLocation {
    pub file: String,
    pub line: u32,
    pub module: String,
}

/// What came of a payload.
#[derive(Debug, PartialEq, Eq)]
pub enum Outcome {
    /// The payload held a record: the index of its log statement and the
    /// place of the statement, where it is shown.
    Record { index: u64, location: Option<ShownLocation> },
    /// The payload ends before its record does; it is passed over.
    Incomplete,
    /// The payload is corrupt; nothing after it can be trusted.
    Corrupt,
}

/// What a reader hands out next.
#[derive(Debug, Clone, Copy, PartialEq, Eq, Structural)]
pub enum Step {
    /// A frame whose payload stands in the first `len` bytes of the scratch
    /// buffer, for the decoder to read.
    Payload { frame: Candidate, len: usize },
    /// A frame that is not the stuffed form of any bytes; it is passed over.
    Malformed { frame: Candidate },
    /// Nothing: every frame has been handed out, or the reading was halted.
    Done,
}

/// The reading of a log: the log, its frames, how many of them have been
/// handed out, and whether the reading was halted.
pub struct LogReader<'a> {
    buffer: &'a [u8],
    frames: Vec<Candidate>,
    next: usize,
    halted: bool,
}

/// The reading of a log, as contracts speak of it.
pub ghost struct Reading {
    pub log: Seq<u8>,
    pub frames: Seq<Stretch>,
    pub next: int,
    pub halted: bool,
}

impl<'a> View for LogReader<'a> {
    type V = Reading;

    closed spec fn view(&self) -> Reading {
        Reading {
            log: self.buffer@,
            frames: stretches_of(self.frames@),
            next: self.next as int,
            halted: self.halted,
        }
    }
}

/// What a reader hands out next, as contracts speak of it.
pub ghost enum Handed {
    Payload { frame: Stretch, payload: Seq<u8> },
    Malformed { frame: Stretch },
    Done,
}

/// The reading is sound: its frames are those of its log, and some of them
/// have been handed out. Every reading that a [`LogReader`] holds is.
pub open spec fn reads(v: Reading) -> bool {
    v.frames == frames(v.log) && 0 <= v.next <= v.frames.len()
}

/// The reading of the log `log` before anything was handed out.
pub open spec fn start_of(log: Seq<u8>) -> Reading {
    Reading { log, frames: frames(log), next: 0, halted: false }
}

/// The reading hands out nothing more.
pub open spec fn is_done(v: Reading) -> bool {
    v.halted || v.next >= v.frames.len()
}

/// What the reading hands out next: nothing once it is done; otherwise the
/// next frame, with its payload where the frame is the stuffed form of one.
pub open spec fn handed(v: Reading) -> Handed {
    if is_done(v) {
        Handed::Done
    } else {
        let frame = v.frames[v.next];
        match destuffed(stretch_bytes(v.log, frame)) {
            Some(payload) => Handed::Payload { frame, payload },
            None => Handed::Malformed { frame },
        }
    }
}

/// The reading after it has handed out what comes next.
pub open spec fn after_step(v: Reading) -> Reading {
    if is_done(v) {
        v
    } else {
        Reading { next: v.next + 1, ..v }
    }
}

/// The reading after the decoder has answered: corrupt data halts it.
pub open spec fn after_answer(v: Reading, answer: Result<u64, DecodeFailure>) -> Reading {
    Reading { halted: v.halted || answer == Err::<u64, DecodeFailure>(DecodeFailure::Corrupt), ..v }
}

/// `step`, with the scratch buffer `scratch`, is what `handed` says.
pub open spec fn is_handed(step: Step, scratch: Seq<u8>, handed: Handed) -> bool {
    match handed {
        Handed::Payload { frame, payload } => step matches Step::Payload { frame: f, len }
            && f@ == frame && len <= scratch.len() && scratch.take(len as int) == payload,
        Handed::Malformed { frame } => step matches Step::Malformed { frame: f } && f@ == frame,
        Handed::Done => step is Done,
    }
}

/// The path of a source file as it is shown: relative to the working
/// directory where the file lies in it; otherwise in the short rendering of
/// its layout, or in a highlighted one.
pub open spec fn is_shown_path(
    out: Seq<char>,
    file: Seq<char>,
    current_dir: Seq<char>,
    shorten_paths: bool,
) -> bool {
    match dep::stripped(file, current_dir) {
        Some(rest) => out == rest,
        None => if shorten_paths {
            out == dep::short_form(dep::classify(file))
        } else {
            dep::is_highlight(out, dep::classify(file))
        },
    }
}

/// The line as it is shown: its lower 32 bits.
pub open spec fn shown_line(line: u64) -> u32 {
    (line % 0x1_0000_0000) as u32
}

/// `shown` is how the place `place` is shown.
pub open spec fn is_shown(
    shown: Option<ShownLocation>,
    place: Option<Location>,
    current_dir: Seq<char>,
    shorten_paths: bool,
) -> bool {
    match place {
        Some(l) => shown is Some && is_shown_path(
            shown->0.file@,
            l.file@,
            current_dir,
            shorten_paths,
        ) && shown->0.line == shown_line(l.line) && shown->0.module@ == l.module@,
        None => shown is None,
    }
}

/// Renders the path of a source file for display.
pub fn show_path(file: &str, current_dir: &str, shorten_paths: bool) -> (r: String)
    ensures
        is_shown_path(r@, file@, current_dir@, shorten_paths),
{
    match dep::strip_prefix(file, current_dir) {
        Some(rest) => rest,
        None => {
            let path = dep::Path::from_std_path(file);
            if shorten_paths {
                path.format_short()
            } else {
                path.format_highlight()
            }
        },
    }
}

/// Renders the place of the log statement with the index `index`, where
/// places are shown and the statement has one.
pub fn show_location(
    locations: Option<&Locations>,
    index: u64,
    current_dir: &str,
    shorten_paths: bool,
) -> (r: Option<ShownLocation>)
    ensures
        is_shown(r, place_of(locations, index), current_dir@, shorten_paths),
{
    match find_location(locations, index) {
        Some(l) => Some(
            ShownLocation {
                file: show_path(l.file.as_str(), current_dir, shorten_paths),
                line: (l.line % 0x1_0000_0000) as u32,
                module: l.module.clone(),
            },
        ),
        None => None,
    }
}

/// `outcome` is what comes of a payload once the decoder has answered with
/// `answer`: the index of the log statement of the record that it read, or
/// its failure.
pub open spec fn comes_of(
    outcome: Outcome,
    answer: Result<u64, DecodeFailure>,
    locations: Option<&Locations>,
    current_dir: Seq<char>,
    shorten_paths: bool,
) -> bool {
    match answer {
        Ok(index) => match outcome {
            Outcome::Record { index: i, location } => i == index && is_shown(
                location,
                place_of(locations, index),
                current_dir,
                shorten_paths,
            ),
            _ => false,
        },
        Err(DecodeFailure::Incomplete) => outcome is Incomplete,
        Err(DecodeFailure::Corrupt) => outcome is Corrupt,
    }
}

/// Says what comes of a payload once the decoder has answered.
pub fn interpret(
    answer: Result<u64, DecodeFailure>,
    locations: Option<&Locations>,
    current_dir: &str,
    shorten_paths: bool,
) -> (r: Outcome)
    ensures
        comes_of(r, answer, locations, current_dir@, shorten_paths),
{
    match answer {
        Ok(index) => {
            let location = show_location(locations, index, current_dir, shorten_paths);
            Outcome::Record { index, location }
        },
        Err(DecodeFailure::Incomplete) => Outcome::Incomplete,
        Err(DecodeFailure::Corrupt) => Outcome::Corrupt,
    }
}

impl<'a> LogReader<'a> {
    /// What holds of every reader: its frames are those of its log.
    #[verifier::type_invariant]
    closed spec fn sound(self) -> bool {
        stretches_of(self.frames@) == frames(self.buffer@) && self.next <= self.frames@.len()
    }

    /// Starts the reading of a log: cuts it into its frames, none of which
    /// has been handed out yet.
    pub fn new(buffer: &'a [u8]) -> (r: LogReader<'a>)
        ensures
            r@ == start_of(buffer@),
    {
        LogReader { buffer, frames: split_frames(buffer), next: 0, halted: false }
    }

    /// Whether the reading was halted by corrupt data.
    pub fn is_halted(&self) -> (r: bool)
        ensures
            r == self@.halted,
    {
        self.halted
    }

    /// Hands out what comes next: the next frame of the log, freed of its
    /// byte stuffing into `scratch`, or the frame alone where it is not the
    /// stuffed form of any bytes; nothing once every frame has been handed
    /// out or the reading was halted.
    ///
    /// `scratch` is a buffer for the payload of the frame at hand; the caller
    /// keeps it, so that reading a log allocates once.
    pub fn next_step(&mut self, scratch: &mut Vec<u8>) -> (r: Step)
        ensures
            reads(old(self)@),
            final(self)@ == after_step(old(self)@),
            is_handed(r, final(scratch)@, handed(old(self)@)),
            is_done(old(self)@) ==> final(scratch)@ == old(scratch)@,
    {
        proof {
            use_type_invariant(&*self);
        }
        if self.halted || self.next >= self.frames.len() {
            return Step::Done;
        }
        let frame = self.frames[self.next];
        proof {
            lemma_frames_are_frames(self.buffer@);
            assert(self@.frames[self.next as int] == frame@);
            assert(is_frame(self.buffer@, frame@));
        }
        self.next = self.next + 1;
        match destuff(frame_bytes(self.buffer, &frame), scratch) {
            Some(len) => Step::Payload { frame, len },
            None => Step::Malformed { frame },
        }
    }

    /// Takes the answer of the decoder for the payload that was handed out
    /// last, and says what comes of it. Corrupt data halts the reading:
    /// nothing is handed out after it.
    pub fn settle(
        &mut self,
        answer: Result<u64, DecodeFailure>,
        locations: Option<&Locations>,
        current_dir: &str,
        shorten_paths: bool,
    ) -> (r: Outcome)
        ensures
            final(self)@ == after_answer(old(self)@, answer),
            comes_of(r, answer, locations, current_dir@, shorten_paths),
    {
        proof {
            use_type_invariant(&*self);
        }
        let outcome = interpret(answer, locations, current_dir, shorten_paths);
        if matches!(outcome, Outcome::Corrupt) {
            self.halted = true;
        }
        outcome
    }
}

/// Every frame that a reading hands out is a frame of the log: it holds more
/// than one byte, so a stretch of fewer bytes never reaches the decoder.
pub proof fn lemma_handed_is_frame(v: Reading)
    requires
        reads(v),
    ensures
        match handed(v) {
            Handed::Payload { frame, payload } => is_frame(v.log, frame) && frame.end - frame.start
                > 1 && destuffed(stretch_bytes(v.log, frame)) == Some(payload),
            Handed::Malformed { frame } => is_frame(v.log, frame) && frame.end - frame.start > 1,
            Handed::Done => true,
        },
{
    lemma_frames_are_frames(v.log);
}

/// Frames are handed out in the order in which they lie in the log: what a
/// reading hands out after a step lies behind what it handed out in the step.
pub proof fn lemma_handed_in_order(v: Reading)
    requires
        reads(v),
        !is_done(v),
        !is_done(after_step(v)),
    ensures
        reads(after_step(v)),
        v.frames[v.next].end < after_step(v).frames[after_step(v).next].start,
{
    lemma_frames_are_frames(v.log);
}

/// A log made of the stuffed form of a payload, which is not empty, and a
/// sentinel is handed out as one frame: the decoder is given the payload,
/// once, and nothing after it; and stuffing what the decoder is given yields
/// the frame again.
pub proof fn lemma_one_frame_is_handed_once(payload: Seq<u8>)
    requires
        payload.len() >= 1,
    ensures
        ({
            let start = start_of(stuffed(payload) + seq![SENTINEL]);
            let frame = Stretch { start: 0, end: stuffed(payload).len() as int };
            &&& reads(start)
            &&& handed(start) == Handed::Payload { frame, payload }
            &&& handed(after_step(start)) is Done
            &&& stuffed(payload) == stretch_bytes(start.log, frame)
        }),
{
    lemma_round_trip(payload);
    let buf = stuffed(payload) + seq![SENTINEL];
    let frame = Stretch { start: 0, end: stuffed(payload).len() as int };
    assert(frames(buf)[0] == frame) by {
        lemma_stuffed_shape(payload);
        lemma_single_frame(stuffed(payload));
    }
}

/// Once the decoder has found the data of a frame corrupt, the reading hands
/// out nothing more: not at the next step, and not after any later answer.
pub proof fn lemma_corrupt_halts(v: Reading, later: Result<u64, DecodeFailure>)
    ensures
        ({
            let halted = after_answer(v, Err(DecodeFailure::Corrupt));
            &&& handed(halted) is Done
            &&& after_step(halted) == halted
            &&& handed(after_answer(halted, later)) is Done
        }),
{
}

/// Any other answer of the decoder leaves the reading to go on: a record or
/// data that ends too early halts nothing.
pub proof fn lemma_other_answers_go_on(v: Reading, answer: Result<u64, DecodeFailure>)
    requires
        answer != Err::<u64, DecodeFailure>(DecodeFailure::Corrupt),
    ensures
        after_answer(v, answer) == v,
{
}

} // verus!
