use defmt_print::dump::{
    hex_digit_value, last_token_start, parse_dump_bytes, parse_dump_line, parse_hex_word,
    push_le_bytes, stdin_dump_to_bytes, DumpError, LineValue,
};

fn lines(text: &[&str]) -> Vec<String> {
    text.iter().map(|l| l.to_string()).collect()
}

#[test]
fn words_are_laid_out_little_endian() {
    let dump = lines(&["Addr 0x08001000: 0x12345678", "Addr 0x08001004: 0xdeadBEEF"]);
    assert_eq!(
        Ok(vec![0x78, 0x56, 0x34, 0x12, 0xef, 0xbe, 0xad, 0xde]),
        stdin_dump_to_bytes(&dump)
    );
}

#[test]
fn plain_data_lines() {
    let dump = lines(&["Addr 0x00000001", "Addr 0xFFFFFFFF", "Addr 0x0"]);
    assert_eq!(
        Ok(vec![1, 0, 0, 0, 0xff, 0xff, 0xff, 0xff, 0, 0, 0, 0]),
        stdin_dump_to_bytes(&dump)
    );
}

#[test]
fn other_lines_are_passed_over() {
    let dump = lines(&[
        "",
        "probe-rs-cli dump",
        "Addr",
        "Address 0x00000001",
        " Addr 0x00000002",
        "addr 0x00000003",
        "Addr 0x00000004",
        "Addr\t0x00000005",
    ]);
    assert_eq!(Ok(vec![4, 0, 0, 0]), stdin_dump_to_bytes(&dump));
}

#[test]
fn dump_without_data_is_an_error() {
    assert_eq!(Err(DumpError::NoDump), stdin_dump_to_bytes(&lines(&[])));
    assert_eq!(Err(DumpError::NoDump), stdin_dump_to_bytes(&lines(&["nothing", "Addr"])));
}

#[test]
fn bad_word_stops_the_reading() {
    let dump = lines(&["Addr 0x00000001", "noise", "Addr 0xnothex", "Addr 0x00000002"]);
    assert_eq!(Err(DumpError::BadWord(2)), stdin_dump_to_bytes(&dump));
    assert_eq!(Err(DumpError::BadWord(0)), stdin_dump_to_bytes(&lines(&["Addr "])));
    assert_eq!(Err(DumpError::BadWord(0)), stdin_dump_to_bytes(&lines(&["Addr 0x"])));
    assert_eq!(Err(DumpError::BadWord(0)), stdin_dump_to_bytes(&lines(&["Addr 0x1 "])));
    assert_eq!(Err(DumpError::BadWord(0)), stdin_dump_to_bytes(&lines(&["Addr 0x100000000"])));
}

#[test]
fn line_values() {
    assert_eq!(LineValue::Word(0x2000_0000), parse_dump_line("Addr 0x08000000: 0x20000000"));
    assert_eq!(LineValue::Word(0xab), parse_dump_line("Addr zzab"));
    assert_eq!(LineValue::Word(0xab), parse_dump_line("Addr  0x+ab"));
    assert_eq!(LineValue::Word(1), parse_dump_line("Addr 0x0000000000000001"));
    assert_eq!(LineValue::Malformed, parse_dump_line("Addr 0x-1"));
    assert_eq!(LineValue::Malformed, parse_dump_line("Addr 0x+"));
    assert_eq!(LineValue::Malformed, parse_dump_line("Addr 0x12_34"));
    assert_eq!(LineValue::Malformed, parse_dump_line("Addr x"));
    assert_eq!(LineValue::Malformed, parse_dump_line("Addr a\u{e9}1"));
    assert_eq!(LineValue::Word(0x12), parse_dump_line("Addr \u{e9}12"));
    assert_eq!(LineValue::Ignored, parse_dump_line("Addr"));
    assert_eq!(LineValue::Ignored, parse_dump_line("Addr0x12"));
    assert_eq!(LineValue::Ignored, parse_dump_line("0x12345678"));
    assert_eq!(LineValue::Word(7), parse_dump_bytes(b"Addr 0x7"));
}

#[test]
fn hex_words_agree_with_std() {
    let samples = [
        "", "+", "-", "0", "+0", "-0", "7", "a", "F", "g", "ff", "+ff", "++ff", "0x10", "FFFFFFFF",
        "100000000", "0000000000000000ffffffff", "fffffffff", " 1", "1 ", "12 34", "dead_beef",
        "DeadBeef", "\u{ff11}",
    ];
    for sample in samples {
        assert_eq!(
            u32::from_str_radix(sample, 16).ok(),
            parse_hex_word(sample.as_bytes()),
            "value of {:?}",
            sample
        );
    }
}

#[test]
fn hex_digits() {
    for b in 0..=255u8 {
        let expected = (b as char).to_digit(16).filter(|_| b < 128).map(|d| d as u8);
        assert_eq!(expected, hex_digit_value(b));
    }
}

#[test]
fn le_bytes_agree_with_std() {
    for v in [0u32, 1, 0xff, 0x100, 0x1234_5678, 0xdead_beef, u32::MAX] {
        let mut bytes = vec![9u8];
        push_le_bytes(&mut bytes, v);
        assert_eq!(&bytes[..1], &[9u8]);
        assert_eq!(&bytes[1..], &v.to_le_bytes());
    }
}

#[test]
fn last_token_starts_after_the_last_space() {
    assert_eq!(0, last_token_start(b""));
    assert_eq!(0, last_token_start(b"abc"));
    assert_eq!(5, last_token_start(b"Addr 0x1"));
    assert_eq!(4, last_token_start(b"a b "));
    assert_eq!(2, last_token_start(b"  a"));
}
