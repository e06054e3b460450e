//! Parsing well-formed and malformed `Blocks.txt` text.

use ucd_blocks::Blocks;
use ucd_blocks::IntErrorKind;
use ucd_blocks::ParseErrorKind;

#[test]
fn real_unicode() {
    let text = "# Blocks-16.0.0.txt\n\
                # Date: 2024-02-02\n\
                #\n\
                # Property:\tBlock\n\
                #\n\
                # @missing: 0000..10FFFF; No_Block\n\
                \n\
                0000..007F; Basic Latin\n\
                0080..00FF; Latin-1 Supplement\n\
                0100..017F; Latin Extended-A\n\
                0180..024F; Latin Extended-B\n\
                0250..02AF; IPA Extensions\n\
                02B0..02FF; Spacing Modifier Letters\n\
                0300..036F; Combining Diacritical Marks\n\
                0370..03FF; Greek and Coptic\n\
                0400..04FF; Cyrillic\n\
                2000..206F; General Punctuation\n\
                20A0..20CF; Currency Symbols\n\
                3040..309F; Hiragana\n\
                4E00..9FFF; CJK Unified Ideographs\n\
                E000..F8FF; Private Use Area\n\
                10000..1007F; Linear B Syllabary\n\
                1F600..1F64F; Emoticons\n\
                E0000..E007F; Tags\n\
                E0100..E01EF; Variation Selectors Supplement\n\
                F0000..FFFFF; Supplementary Private Use Area-A\n\
                100000..10FFFF; Supplementary Private Use Area-B\n";
    let data = text.parse::<Blocks>().unwrap();
    assert_eq!(data.block_of('\u{0080}'), "Latin-1 Supplement");
    assert_eq!(data.block_of('½'), "Latin-1 Supplement");
    assert_eq!(data.block_of('\u{00FF}'), "Latin-1 Supplement");
    assert_eq!(data.block_of('\u{EFFFF}'), "No_Block");
}

#[test]
fn single_line_yields_one_entry() {
    let table = Blocks::from_str("0080..00FF; Latin-1 Supplement").unwrap();
    let entries = table.entries();
    assert_eq!(entries.len(), 1);
    assert_eq!(entries[0].start, 0x0080);
    assert_eq!(entries[0].end, 0x00FF);
    assert_eq!(entries[0].name, "Latin-1 Supplement");
    assert_eq!(table.block_of('\u{0080}'), "Latin-1 Supplement");
    assert_eq!(table.block_of('\u{00BD}'), "Latin-1 Supplement");
    assert_eq!(table.block_of('\u{00FF}'), "Latin-1 Supplement");
    assert_eq!(table.block_of('\u{EFFFF}'), "No_Block");
}

#[test]
fn name_and_range_are_trimmed() {
    let table = Blocks::from_str("  0000..007F  ;   Basic Latin  ").unwrap();
    let entries = table.entries();
    assert_eq!(entries.len(), 1);
    assert_eq!(entries[0].start, 0x0000);
    assert_eq!(entries[0].end, 0x007F);
    assert_eq!(entries[0].name, "Basic Latin");
}

#[test]
fn hex_is_case_insensitive() {
    let table = Blocks::from_str("00ab..00Ff; Mixed Case").unwrap();
    let entries = table.entries();
    assert_eq!(entries[0].start, 0x00AB);
    assert_eq!(entries[0].end, 0x00FF);
}

#[test]
fn plus_prefixed_bound_is_accepted() {
    let table = Blocks::from_str("+0080..+00FF; Plus").unwrap();
    let entries = table.entries();
    assert_eq!(entries[0].start, 0x0080);
    assert_eq!(entries[0].end, 0x00FF);
}

#[test]
fn empty_name_is_kept_unvalidated() {
    let table = Blocks::from_str("0000..007F; ").unwrap();
    let entries = table.entries();
    assert_eq!(entries.len(), 1);
    assert_eq!(entries[0].name, "");
}

#[test]
fn name_may_hold_further_semicolons() {
    let table = Blocks::from_str("0000..007F; a; b; c").unwrap();
    let entries = table.entries();
    assert_eq!(entries.len(), 1);
    assert_eq!(entries[0].name, "a; b; c");
}

#[test]
fn comment_text_is_ignored() {
    let text = "0000..007F; Basic Latin # junk; with 1..2 inside\n# a full comment line; ..\n";
    let table = Blocks::from_str(text).unwrap();
    let entries = table.entries();
    assert_eq!(entries.len(), 1);
    assert_eq!(entries[0].name, "Basic Latin");
    assert_eq!(entries[0].start, 0x0000);
    assert_eq!(entries[0].end, 0x007F);
}

#[test]
fn blank_and_comment_lines_are_skipped() {
    let text = "\n# header\n\n0000..007F; Basic Latin\n\n# trailing\n";
    let table = Blocks::from_str(text).unwrap();
    assert_eq!(table.entries().len(), 1);
}

#[test]
fn empty_text_yields_empty_table() {
    let table = Blocks::from_str("").unwrap();
    assert_eq!(table.entries().len(), 0);
    assert_eq!(table.block_of('a'), "No_Block");
}

#[test]
fn crlf_line_endings_are_handled() {
    let text = "0000..007F; Basic Latin\r\n0080..00FF; Latin-1 Supplement\r\n";
    let table = Blocks::from_str(text).unwrap();
    let entries = table.entries();
    assert_eq!(entries.len(), 2);
    assert_eq!(entries[0].name, "Basic Latin");
    assert_eq!(entries[1].name, "Latin-1 Supplement");
}

#[test]
fn trailing_carriage_return_on_last_line_is_trimmed_with_the_name() {
    let table = Blocks::from_str("0000..007F; Basic Latin\r").unwrap();
    assert_eq!(table.entries()[0].name, "Basic Latin");
}

#[test]
fn bare_carriage_return_line_is_not_skipped() {
    let error = Blocks::from_str("0000..007F; Basic Latin\n\r").unwrap_err();
    assert_eq!(error.line, 1);
    assert_eq!(error.kind, ParseErrorKind::NoSemicolon);
}

#[test]
fn parsing_twice_gives_equal_tables() {
    let text = "0000..007F; Basic Latin\n0080..00FF; Latin-1 Supplement\n";
    let first = Blocks::from_str(text).unwrap();
    let second = Blocks::from_str(text).unwrap();
    assert_eq!(first, second);
}

#[test]
fn missing_semicolon_is_reported() {
    let error = Blocks::from_str("0000..007F; Basic Latin\nno separator here").unwrap_err();
    assert_eq!(error.line, 1);
    assert_eq!(error.kind, ParseErrorKind::NoSemicolon);
}

#[test]
fn line_numbers_count_raw_lines() {
    let text = "# header\n\n0000..007F; Basic Latin\n\n# note\nbroken line\n";
    let error = Blocks::from_str(text).unwrap_err();
    assert_eq!(error.line, 5);
    assert_eq!(error.kind, ParseErrorKind::NoSemicolon);
}

#[test]
fn whitespace_only_line_is_not_skipped() {
    let error = Blocks::from_str("0000..007F; Basic Latin\n   \n").unwrap_err();
    assert_eq!(error.line, 1);
    assert_eq!(error.kind, ParseErrorKind::NoSemicolon);
}

#[test]
fn missing_dotdot_is_reported() {
    let error = Blocks::from_str("0000-007F; Basic Latin").unwrap_err();
    assert_eq!(error.line, 0);
    assert_eq!(error.kind, ParseErrorKind::NoDotDot);
}

#[test]
fn invalid_hex_digit_is_reported() {
    let error = Blocks::from_str("00G0..007F; Bad Start").unwrap_err();
    assert_eq!(error.line, 0);
    assert_eq!(error.kind, ParseErrorKind::ParseInt(IntErrorKind::InvalidDigit));
}

#[test]
fn invalid_second_bound_is_reported() {
    let error = Blocks::from_str("0000..00GG; Bad End").unwrap_err();
    assert_eq!(error.line, 0);
    assert_eq!(error.kind, ParseErrorKind::ParseInt(IntErrorKind::InvalidDigit));
}

#[test]
fn empty_bound_is_reported() {
    let error = Blocks::from_str("..007F; No Start").unwrap_err();
    assert_eq!(error.line, 0);
    assert_eq!(error.kind, ParseErrorKind::ParseInt(IntErrorKind::Empty));
}

#[test]
fn overflowing_bound_is_reported() {
    let error = Blocks::from_str("100000000..00; Too Big").unwrap_err();
    assert_eq!(error.line, 0);
    assert_eq!(error.kind, ParseErrorKind::ParseInt(IntErrorKind::PosOverflow));
}
