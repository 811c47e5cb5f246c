use defmt_decoder::{DecodeError, StringEntry, Table, TableEntry, Tag};
use defmt_print::frames::Candidate;
use defmt_print::locations::{Location, Locations};
use defmt_print::pipeline::{
    interpret, show_location, show_path, DecodeFailure, LogReader, Outcome, ShownLocation, Step,
};
use std::collections::BTreeMap;

fn table() -> Table {
    let mut entries = BTreeMap::new();
    entries.insert(0, TableEntry::new(StringEntry::new(Tag::Info, "Hello".to_string()), "a".to_string()));
    entries.insert(
        1,
        TableEntry::new(StringEntry::new(Tag::Warn, "value {=u8}".to_string()), "b".to_string()),
    );
    Table::new(entries)
}

fn places() -> Locations {
    let mut found = Locations::new();
    found.insert(
        0,
        Location { file: "/work/app/src/main.rs".to_string(), line: 7, module: "app".to_string() },
    );
    found.insert(
        1,
        Location {
            file: "/home/user/.cargo/registry/src/github.com-1ecc6299db9ec823/log-0.4.14/src/lib.rs"
                .to_string(),
            line: (1 << 32) + 12,
            module: "log".to_string(),
        },
    );
    found
}

fn log_of(payloads: &[&[u8]]) -> Vec<u8> {
    let mut log = Vec::new();
    for payload in payloads {
        log.extend_from_slice(&cobs::encode_vec_with_sentinel(payload, 0xFF));
        log.push(0xFF);
    }
    log
}

/// What came of a frame: the frame, what is to be said of it, and the
/// payload that the decoder was given, if it was given one.
struct Event {
    frame: Candidate,
    text: String,
    payload: Option<Vec<u8>>,
    location: Option<ShownLocation>,
}

/// Reads a log as a program does: the decoder reads each payload that the
/// reader hands out, and the reader is told its answer.
fn run(
    log: &[u8],
    table: &Table,
    locations: Option<&Locations>,
    current_dir: &str,
    shorten_paths: bool,
) -> (Vec<Event>, bool) {
    let mut scratch = vec![0x55u8; 3];
    let mut events = Vec::new();
    let mut reader = LogReader::new(log);
    loop {
        match reader.next_step(&mut scratch) {
            Step::Done => break,
            Step::Malformed { frame } => events.push(Event {
                frame,
                text: "malformed".to_string(),
                payload: None,
                location: None,
            }),
            Step::Payload { frame, len } => {
                let payload = scratch[..len].to_vec();
                let decoded = table.decode(&payload);
                let answer = match &decoded {
                    Ok((record, _)) => Ok(record.index()),
                    Err(DecodeError::UnexpectedEof) => Err(DecodeFailure::Incomplete),
                    Err(DecodeError::Malformed) => Err(DecodeFailure::Corrupt),
                };
                let (text, location) =
                    match reader.settle(answer, locations, current_dir, shorten_paths) {
                        Outcome::Record { index, location } => (
                            format!("{}:{}", index, decoded.unwrap().0.display_message()),
                            location,
                        ),
                        Outcome::Incomplete => ("incomplete".to_string(), None),
                        Outcome::Corrupt => ("corrupt".to_string(), None),
                    };
                events.push(Event { frame, text, payload: Some(payload), location });
            }
        }
    }
    (events, !reader.is_halted())
}

fn texts(events: &[Event]) -> Vec<&str> {
    events.iter().map(|e| e.text.as_str()).collect()
}

#[test]
fn records_come_in_the_order_of_the_frames() {
    let table = table();
    let found = places();
    let log = log_of(&[&[1, 42], &[0], &[1, 7]]);
    let (events, complete) = run(&log, &table, Some(&found), "/work/app", true);
    assert!(complete);
    assert_eq!(vec!["1:value 42", "0:Hello", "1:value 7"], texts(&events));
    assert_eq!(Candidate { start: 0, end: 3 }, events[0].frame);
    assert_eq!(Candidate { start: 4, end: 6 }, events[1].frame);
    assert_eq!(Candidate { start: 7, end: 10 }, events[2].frame);
    assert_eq!(
        Some(ShownLocation {
            file: "[log-0.4.14]/src/lib.rs".to_string(),
            line: 12,
            module: "log".to_string(),
        }),
        events[0].location
    );
    assert_eq!(
        Some(ShownLocation { file: "src/main.rs".to_string(), line: 7, module: "app".to_string() }),
        events[1].location
    );
}

#[test]
fn the_decoder_is_given_what_was_stuffed() {
    let table = table();
    let payloads: [&[u8]; 4] = [&[1, 42], &[0], &[1, 0xFF], &[0, 0, 0xFF, 0]];
    let log = log_of(&payloads);
    let (events, complete) = run(&log, &table, None, "/", true);
    assert!(complete);
    assert_eq!(4, events.len());
    for (event, payload) in events.iter().zip(payloads) {
        assert_eq!(Some(payload.to_vec()), event.payload);
        // stuffing what the decoder was given yields the frame again
        assert_eq!(
            &log[event.frame.start..event.frame.end],
            &cobs::encode_vec_with_sentinel(event.payload.as_ref().unwrap(), 0xFF)[..]
        );
    }
}

#[test]
fn one_frame_is_read_once() {
    let table = table();
    let stuffed = cobs::encode_vec_with_sentinel(&[1, 42], 0xFF);
    let mut log = stuffed.clone();
    log.push(0xFF);
    let (events, complete) = run(&log, &table, None, "/", true);
    assert!(complete);
    assert_eq!(1, events.len());
    assert_eq!(Some(vec![1, 42]), events[0].payload);
    assert_eq!(Candidate { start: 0, end: stuffed.len() }, events[0].frame);
    assert_eq!("1:value 42", events[0].text);
}

#[test]
fn without_places_no_record_shows_one() {
    let table = table();
    let log = log_of(&[&[0], &[1, 1]]);
    let (events, complete) = run(&log, &table, None, "/work/app", false);
    assert!(complete);
    assert_eq!(vec!["0:Hello", "1:value 1"], texts(&events));
    for event in &events {
        assert_eq!(None, event.location);
    }
}

#[test]
fn corrupt_data_halts_the_run() {
    let table = table();
    let log = log_of(&[&[0], &[9, 9], &[0], &[0]]);
    let (events, complete) = run(&log, &table, None, "/", true);
    assert!(!complete);
    assert_eq!(vec!["0:Hello", "corrupt"], texts(&events));
}

#[test]
fn a_halted_reader_hands_out_nothing() {
    let log = log_of(&[&[0], &[0], &[0]]);
    let mut scratch = Vec::new();
    let mut reader = LogReader::new(&log);
    assert_eq!(
        Step::Payload { frame: Candidate { start: 0, end: 2 }, len: 1 },
        reader.next_step(&mut scratch)
    );
    assert_eq!(Outcome::Incomplete, reader.settle(Err(DecodeFailure::Incomplete), None, "/", true));
    assert!(!reader.is_halted());
    assert_eq!(
        Step::Payload { frame: Candidate { start: 3, end: 5 }, len: 1 },
        reader.next_step(&mut scratch)
    );
    assert_eq!(Outcome::Corrupt, reader.settle(Err(DecodeFailure::Corrupt), None, "/", true));
    assert!(reader.is_halted());
    scratch.push(9);
    let kept = scratch.clone();
    assert_eq!(Step::Done, reader.next_step(&mut scratch));
    assert_eq!(Step::Done, reader.next_step(&mut scratch));
    assert_eq!(kept, scratch);
    // no later answer sets the reading going again
    assert_eq!(
        Outcome::Record { index: 0, location: None },
        reader.settle(Ok(0), None, "/", true)
    );
    assert!(reader.is_halted());
    assert_eq!(Step::Done, reader.next_step(&mut scratch));
}

#[test]
fn incomplete_and_malformed_frames_are_passed_over() {
    let table = table();
    let mut log = log_of(&[&[1, 0]]);
    // a record that ends before its value
    log.extend_from_slice(&log_of(&[&[1]]));
    // a frame whose stuffing announces more bytes than follow
    log.extend_from_slice(&[0xFA, 0xFE, 0xFF]);
    log.extend_from_slice(&log_of(&[&[0]]));
    let (events, complete) = run(&log, &table, None, "/", true);
    assert!(complete);
    assert_eq!(vec!["1:value 0", "incomplete", "malformed", "0:Hello"], texts(&events));
    assert_eq!(None, events[2].payload);
}

#[test]
fn short_frames_never_reach_the_decoder() {
    let table = table();
    // single bytes between sentinels, and sentinels next to each other
    let log = [0xFF, 0xFE, 0xFF, 0xFF, 0x00, 0xFF];
    let (events, complete) = run(&log, &table, None, "/", true);
    assert!(complete);
    assert!(events.is_empty());
    let mut scratch = Vec::new();
    assert_eq!(Step::Done, LogReader::new(&[]).next_step(&mut scratch));
}

#[test]
fn answers_of_the_decoder() {
    assert_eq!(Outcome::Incomplete, interpret(Err(DecodeFailure::Incomplete), None, "/", true));
    assert_eq!(Outcome::Corrupt, interpret(Err(DecodeFailure::Corrupt), None, "/", true));
    let found = places();
    assert_eq!(
        Outcome::Record {
            index: 0,
            location: Some(ShownLocation {
                file: "app/src/main.rs".to_string(),
                line: 7,
                module: "app".to_string(),
            }),
        },
        interpret(Ok(0), Some(&found), "/work", true)
    );
    assert_eq!(
        Outcome::Record { index: 4, location: None },
        interpret(Ok(4), Some(&found), "/work", true)
    );
}

#[test]
fn paths_are_shown_relative_short_or_highlighted() {
    colored::control::set_override(true);
    assert_eq!("src/main.rs", show_path("/work/app/src/main.rs", "/work/app", true));
    assert_eq!("src/main.rs", show_path("/work/app/src/main.rs", "/work/app", false));
    assert_eq!(
        "[rust]/library/core/src/panicking.rs",
        show_path(
            "/rustc/9bc8c42bb2f19e745a63f3445f1ac248fb015e53/library/core/src/panicking.rs",
            "/work/app",
            true
        )
    );
    assert_eq!(
        "\x1b[2m/rustc/9bc8\x1b[0m/library/\x1b[1mcore\x1b[0m/src/panicking.rs",
        show_path("/rustc/9bc8/library/core/src/panicking.rs", "/work/app", false)
    );
    assert_eq!("/other/src/main.rs", show_path("/other/src/main.rs", "/work/app", true));
}

#[test]
fn places_are_shown_with_their_line_and_module() {
    let found = places();
    assert_eq!(
        Some(ShownLocation { file: "src/main.rs".to_string(), line: 7, module: "app".to_string() }),
        show_location(Some(&found), 0, "/work/app", true)
    );
    assert_eq!(None, show_location(Some(&found), 5, "/work/app", true));
    assert_eq!(None, show_location(None, 0, "/work/app", true));
}
