//! Error construction, causes, and human-readable messages.

use ucd_blocks::FromFileError;
use ucd_blocks::FromFileErrorKind;
use ucd_blocks::IntErrorKind;
use ucd_blocks::ParseError;
use ucd_blocks::ParseErrorKind;

#[test]
fn parse_error_new_builds_the_error() {
    let error = ParseError::new(7, ParseErrorKind::NoDotDot);
    assert_eq!(error.line, 7);
    assert_eq!(error.kind, ParseErrorKind::NoDotDot);
}

#[test]
fn parse_int_wraps_the_cause() {
    let error = ParseError::parse_int(3, IntErrorKind::PosOverflow);
    assert_eq!(error.line, 3);
    assert_eq!(error.kind, ParseErrorKind::ParseInt(IntErrorKind::PosOverflow));
}

#[test]
fn kind_source_exposes_the_numeric_cause() {
    assert_eq!(
        ParseErrorKind::ParseInt(IntErrorKind::Empty).source(),
        Some(IntErrorKind::Empty)
    );
    assert_eq!(ParseErrorKind::NoSemicolon.source(), None);
    assert_eq!(ParseErrorKind::NoDotDot.source(), None);
}

#[test]
fn parse_error_message_names_the_line_one_indexed() {
    let error = ParseError::new(2, ParseErrorKind::NoSemicolon);
    assert_eq!(error.message(), "invalid Blocks.txt data on line 3");
    let error = ParseError::new(0, ParseErrorKind::NoDotDot);
    assert_eq!(error.message(), "invalid Blocks.txt data on line 1");
    let error = ParseError::new(98, ParseErrorKind::NoDotDot);
    assert_eq!(error.message(), "invalid Blocks.txt data on line 99");
}

#[test]
fn kind_messages_name_the_fault() {
    assert_eq!(ParseErrorKind::NoSemicolon.message(), "no semicolon");
    assert_eq!(ParseErrorKind::NoDotDot.message(), "no `..` in range");
    assert_eq!(
        ParseErrorKind::ParseInt(IntErrorKind::InvalidDigit).message(),
        "one end of range is not a valid hexadecimal integer"
    );
}

#[test]
fn from_file_error_wraps_a_read_failure() {
    let cause = std::io::Error::new(std::io::ErrorKind::NotFound, "gone");
    let error = FromFileError::read_file(String::from("data/Blocks.txt"), cause);
    assert_eq!(error.path, "data/Blocks.txt");
    assert!(matches!(error.kind, FromFileErrorKind::ReadFile(_)));
}

#[test]
fn from_file_error_wraps_a_parse_failure() {
    let parse = ParseError::new(4, ParseErrorKind::NoSemicolon);
    let error = FromFileError::parse(String::from("data/Blocks.txt"), parse);
    assert_eq!(error.path, "data/Blocks.txt");
    match error.kind {
        FromFileErrorKind::Parse(inner) => {
            assert_eq!(inner.line, 4);
            assert_eq!(inner.kind, ParseErrorKind::NoSemicolon);
        },
        FromFileErrorKind::ReadFile(_) => panic!("wrong kind"),
    }
}

#[test]
fn from_file_error_message_names_the_path() {
    let parse = ParseError::new(0, ParseErrorKind::NoDotDot);
    let error = FromFileError::parse(String::from("some/path"), parse);
    assert_eq!(error.message(), "error reading `some/path`");
}
