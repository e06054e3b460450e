//! Codepoint lookup against a parsed table.

use ucd_blocks::Blocks;

#[test]
fn boundary_adjacency_is_disambiguated() {
    let table = Blocks::from_str("0000..007F; Basic Latin\n0080..00FF; Latin-1 Supplement")
        .unwrap();
    assert_eq!(table.block_of('\u{007F}'), "Basic Latin");
    assert_eq!(table.block_of('\u{0080}'), "Latin-1 Supplement");
}

#[test]
fn inside_each_listed_range_returns_its_name() {
    let text = "0010..001F; First\n0030..003F; Second\n0050..005F; Third";
    let table = Blocks::from_str(text).unwrap();
    assert_eq!(table.block_of('\u{0010}'), "First");
    assert_eq!(table.block_of('\u{0018}'), "First");
    assert_eq!(table.block_of('\u{001F}'), "First");
    assert_eq!(table.block_of('\u{0035}'), "Second");
    assert_eq!(table.block_of('\u{005A}'), "Third");
}

#[test]
fn gaps_and_outside_return_no_block() {
    let text = "0010..001F; First\n0030..003F; Second";
    let table = Blocks::from_str(text).unwrap();
    assert_eq!(table.block_of('\u{0000}'), "No_Block");
    assert_eq!(table.block_of('\u{000F}'), "No_Block");
    assert_eq!(table.block_of('\u{0020}'), "No_Block");
    assert_eq!(table.block_of('\u{002F}'), "No_Block");
    assert_eq!(table.block_of('\u{0040}'), "No_Block");
    assert_eq!(table.block_of('\u{FFFD}'), "No_Block");
}

#[test]
fn single_codepoint_range_is_found() {
    let table = Blocks::from_str("0041..0041; Just A").unwrap();
    assert_eq!(table.block_of('A'), "Just A");
    assert_eq!(table.block_of('B'), "No_Block");
    assert_eq!(table.block_of('@'), "No_Block");
}
