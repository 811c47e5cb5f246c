use defmt_decoder::DEFMT_VERSION;
use defmt_print::elf::{extract_defmt_info, InfoError};
use defmt_print::locations::{LocationInfo, Locations};

#[test]
fn bytes_that_are_no_image_are_refused() {
    assert!(matches!(extract_defmt_info(b"not an image", false), Err(InfoError::Table(_))));
    assert!(matches!(extract_defmt_info(b"", true), Err(InfoError::Table(_))));
}

fn word(out: &mut Vec<u8>, v: u32) {
    out.extend_from_slice(&v.to_le_bytes());
}

fn half(out: &mut Vec<u8>, v: u16) {
    out.extend_from_slice(&v.to_le_bytes());
}

/// A small image for a 32-bit machine. It holds a section of four bytes,
/// named `.defmt` if `with_table` says so, and a table of symbols: one that
/// tells the version, if there is one, and one for each log statement, at the
/// address of the statement.
fn image(with_table: bool, version: Option<&str>, statements: &[(u32, &str)]) -> Vec<u8> {
    let section_names = if with_table {
        b"\0.defmt\0.symtab\0.strtab\0.shstrtab\0"
    } else {
        b"\0.other\0.symtab\0.strtab\0.shstrtab\0"
    };

    let mut names = vec![0u8];
    let mut symbols = vec![0u8; 16];
    if let Some(version) = version {
        let at = names.len() as u32;
        names.extend_from_slice(format!("_defmt_version_ = {}", version).as_bytes());
        names.push(0);
        word(&mut symbols, at);
        word(&mut symbols, 0);
        word(&mut symbols, 0);
        symbols.push(0x10);
        symbols.push(0);
        half(&mut symbols, 0xfff1);
    }
    for (address, name) in statements {
        let at = names.len() as u32;
        names.extend_from_slice(name.as_bytes());
        names.push(0);
        word(&mut symbols, at);
        word(&mut symbols, *address);
        word(&mut symbols, 1);
        symbols.push(0x11);
        symbols.push(0);
        half(&mut symbols, 1);
    }

    let data_at = 52u32;
    let symbols_at = data_at + 4;
    let names_at = symbols_at + symbols.len() as u32;
    let section_names_at = names_at + names.len() as u32;
    // the headers of the sections stand at a multiple of four
    let headers_at = (section_names_at + section_names.len() as u32 + 3) / 4 * 4;

    let mut out = vec![0x7f, b'E', b'L', b'F', 1, 1, 1, 0, 0, 0, 0, 0, 0, 0, 0, 0];
    half(&mut out, 2);
    half(&mut out, 40);
    word(&mut out, 1);
    word(&mut out, 0);
    word(&mut out, 0);
    word(&mut out, headers_at);
    word(&mut out, 0);
    half(&mut out, 52);
    half(&mut out, 32);
    half(&mut out, 0);
    half(&mut out, 40);
    half(&mut out, 5);
    half(&mut out, 4);
    assert_eq!(52, out.len());

    out.extend_from_slice(&[0, 0, 0, 0]);
    out.extend_from_slice(&symbols);
    out.extend_from_slice(&names);
    out.extend_from_slice(section_names);
    out.resize(headers_at as usize, 0);

    // name, type, flags, address, offset, size, link, info, alignment, entry size
    let headers: [[u32; 10]; 5] = [
        [0; 10],
        [1, 1, 0, 0, data_at, 4, 0, 0, 1, 0],
        [8, 2, 0, 0, symbols_at, symbols.len() as u32, 3, 1, 4, 16],
        [16, 3, 0, 0, names_at, names.len() as u32, 0, 0, 1, 0],
        [24, 3, 0, 0, section_names_at, section_names.len() as u32, 0, 0, 1, 0],
    ];
    for header in headers {
        for field in header {
            word(&mut out, field);
        }
    }
    out
}

const HELLO: &str = r#"{"package":"app","tag":"defmt_info","data":"Hello","disambiguator":"1"}"#;
const VALUE: &str = r#"{"package":"app","tag":"defmt_warn","data":"value {=u8}","disambiguator":"2"}"#;
const TEXT: &str = r#"{"package":"app","tag":"defmt_str","data":"a text","disambiguator":"3"}"#;

#[test]
fn image_without_table_yields_nothing() {
    let elf = image(false, None, &[]);
    assert!(matches!(extract_defmt_info(&elf, false), Ok(None)));
    assert!(matches!(extract_defmt_info(&elf, true), Ok(None)));
}

#[test]
fn table_without_debug_information_is_insufficient() {
    let elf = image(true, Some(DEFMT_VERSION), &[(1, HELLO), (2, VALUE)]);
    for ignore_version in [false, true] {
        match extract_defmt_info(&elf, ignore_version) {
            Ok(Some((table, info))) => {
                assert_eq!(LocationInfo::Insufficient, info);
                assert_eq!(vec![1, 2], table.indices().collect::<Vec<usize>>());
                let (record, _) = table.decode(&[2, 42]).unwrap();
                assert_eq!("value 42", record.display_message().to_string());
            }
            Ok(None) => panic!("no table was found"),
            Err(InfoError::Table(e)) => panic!("the table was not read: {:#}", e),
            Err(InfoError::Locations(e)) => panic!("the places were not read: {:#}", e),
        }
    }
}

#[test]
fn table_without_log_statements_needs_no_place() {
    // no entry at all
    let empty = image(true, Some(DEFMT_VERSION), &[]);
    match extract_defmt_info(&empty, false) {
        Ok(Some((table, info))) => {
            assert!(table.is_empty());
            assert_eq!(LocationInfo::Complete(Locations::new()), info);
        }
        Ok(None) => panic!("no table was found"),
        Err(InfoError::Table(e)) => panic!("the table was not read: {:#}", e),
        Err(InfoError::Locations(e)) => panic!("the places were not read: {:#}", e),
    }
    // an entry that is no log statement: the table is not empty
    let text_only = image(true, Some(DEFMT_VERSION), &[(1, TEXT)]);
    match extract_defmt_info(&text_only, false) {
        Ok(Some((table, info))) => {
            assert!(!table.is_empty());
            assert_eq!(0, table.indices().count());
            assert_eq!(LocationInfo::Insufficient, info);
        }
        Ok(None) => panic!("no table was found"),
        Err(InfoError::Table(e)) => panic!("the table was not read: {:#}", e),
        Err(InfoError::Locations(e)) => panic!("the places were not read: {:#}", e),
    }
}

#[test]
fn another_version_is_refused_unless_ignored() {
    let elf = image(true, Some("not-a-version"), &[(1, HELLO)]);
    assert!(matches!(extract_defmt_info(&elf, false), Err(InfoError::Table(_))));
    match extract_defmt_info(&elf, true) {
        Ok(Some((table, info))) => {
            assert_eq!(vec![1], table.indices().collect::<Vec<usize>>());
            assert_eq!(LocationInfo::Insufficient, info);
        }
        Ok(None) => panic!("no table was found"),
        Err(InfoError::Table(e)) => panic!("the table was not read: {:#}", e),
        Err(InfoError::Locations(e)) => panic!("the places were not read: {:#}", e),
    }
}

#[test]
fn table_that_cannot_be_read_is_refused() {
    // a version, but no section for the table
    let no_section = image(false, Some(DEFMT_VERSION), &[]);
    assert!(matches!(extract_defmt_info(&no_section, false), Err(InfoError::Table(_))));
    assert!(matches!(extract_defmt_info(&no_section, true), Err(InfoError::Table(_))));
    // a section for the table, but no version
    let no_version = image(true, None, &[(1, HELLO)]);
    assert!(matches!(extract_defmt_info(&no_version, true), Err(InfoError::Table(_))));
    // a log statement whose symbol cannot be read
    let bad_symbol = image(true, Some(DEFMT_VERSION), &[(1, "no symbol of defmt")]);
    assert!(matches!(extract_defmt_info(&bad_symbol, true), Err(InfoError::Table(_))));
}
