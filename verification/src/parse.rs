//! Parsing `Blocks.txt` text into block entries.

use vstd::prelude::*;

use crate::errors::IntErrorKind;
use crate::errors::ParseError;
use crate::errors::ParseErrorKind;
use crate::scan::find_char_from;
use crate::scan::find_dotdot_from;
use crate::scan::lemma_find_char_characterize;
use crate::scan::lemma_find_char_from_bounds;
use crate::scan::lemma_scan_to_dotdot;
use crate::scan::lemma_scan_to_find;
use crate::scan::lemma_scan_to_trim;
use crate::scan::parse_hex;
use crate::scan::parse_hex_range;
use crate::scan::scan_char;
use crate::scan::scan_dotdot;
use crate::scan::trim;
use crate::scan::trim_range;
use crate::table::views_of;
use crate::table::BlockEntry;
use crate::table::Blocks;
use crate::table::EntryV;

verus! {

/// What one raw line contributes to the parse.
pub ghost enum LineOut {
    /// The line is blank once its comment is stripped, and is skipped.
    Skip,
    /// The line holds one range and name.
    Entry(EntryV),
    /// The line is malformed.
    Fail(ParseErrorKind),
}

/// A failed parse: the kind of fault and the 0-indexed raw line number it
/// was found on.
pub ghost struct ErrV {
    pub line: int,
    pub kind: ParseErrorKind,
}

/// `line` up to its first `#`: comments run to the end of the line.
pub open spec fn strip_comment(line: Seq<char>) -> Seq<char> {
    line.take(find_char_from(line, '#', 0))
}

/// `line` with one trailing carriage return dropped, as `str::lines` drops
/// it.
pub open spec fn strip_cr(line: Seq<char>) -> Seq<char> {
    if line.len() > 0 && line.last() == '\r' {
        line.drop_last()
    } else {
        line
    }
}

/// How one line parses, after its comment is stripped: skipped when blank;
/// otherwise split on the first `;` into a range and a name, both trimmed,
/// and the range split on the first `..` into two hexadecimal bounds.
pub open spec fn parse_line(line: Seq<char>) -> LineOut {
    let body = strip_comment(line);
    if body.len() == 0 {
        LineOut::Skip
    } else {
        let si = find_char_from(body, ';', 0);
        if si == body.len() {
            LineOut::Fail(ParseErrorKind::NoSemicolon)
        } else {
            let range_part = trim(body.take(si));
            let name_part = trim(body.skip(si + 1));
            let di = find_dotdot_from(range_part, 0);
            if di == range_part.len() {
                LineOut::Fail(ParseErrorKind::NoDotDot)
            } else {
                match parse_hex(range_part.take(di)) {
                    Err(e) => LineOut::Fail(ParseErrorKind::ParseInt(e)),
                    Ok(start) => match parse_hex(range_part.skip(di + 2)) {
                        Err(e) => LineOut::Fail(ParseErrorKind::ParseInt(e)),
                        Ok(end) => LineOut::Entry(EntryV { start, end, name: name_part }),
                    },
                }
            }
        }
    }
}

/// The lines of `text` from position `pos` on: split on `\n`, one trailing
/// `\r` stripped from each piece that ended at a `\n`, as `str::lines`
/// strips it; the final piece, ending with the text, is kept whole. Text
/// ending in a newline yields a final empty piece, which parsing skips, so
/// the parse outcome matches `str::lines`, whose enumeration omits that
/// piece.
pub open spec fn split_lines_from(text: Seq<char>, pos: int) -> Seq<Seq<char>>
    decreases text.len() - pos,
    when 0 <= pos <= text.len()
    via split_lines_from_decreases
{
    let e = find_char_from(text, '\n', pos);
    if e == text.len() {
        seq![text.subrange(pos, e)]
    } else {
        seq![strip_cr(text.subrange(pos, e))] + split_lines_from(text, e + 1)
    }
}

#[via_fn]
proof fn split_lines_from_decreases(text: Seq<char>, pos: int) {
    lemma_find_char_from_bounds(text, '\n', pos);
}

/// The raw lines of `text`.
pub open spec fn split_lines(text: Seq<char>) -> Seq<Seq<char>> {
    split_lines_from(text, 0)
}

/// The entries of `lines[from..]` in order, or the first failure, tagged
/// with the raw index of its line.
pub open spec fn parse_from(lines: Seq<Seq<char>>, from: int) -> Result<Seq<EntryV>, ErrV>
    decreases lines.len() - from,
{
    if from < 0 || from >= lines.len() {
        Ok(Seq::empty())
    } else {
        match parse_line(lines[from]) {
            LineOut::Skip => parse_from(lines, from + 1),
            LineOut::Fail(k) => Err(ErrV { line: from, kind: k }),
            LineOut::Entry(e) => match parse_from(lines, from + 1) {
                Ok(rest) => Ok(seq![e] + rest),
                Err(err) => Err(err),
            },
        }
    }
}

/// How `text` parses: the entries of its well-formed lines, in line order,
/// or the first failure.
pub open spec fn parse_spec(text: Seq<char>) -> Result<Seq<EntryV>, ErrV> {
    parse_from(split_lines(text), 0)
}

/// The characters of `s`, for index-based scanning.
fn to_chars(s: &str) -> (v: Vec<char>)
    ensures
        v@ == s@,
{
    let n = s.unicode_len();
    let mut v: Vec<char> = Vec::new();
    let mut i: usize = 0;
    while i < n
        invariant
            i <= n,
            n == s@.len(),
            v@ == s@.subrange(0, i as int),
        decreases n - i,
    {
        let c = s.get_char(i);
        v.push(c);
        proof {
            assert(v@ =~= s@.subrange(0, i + 1));
        }
        i = i + 1;
    }
    proof {
        assert(v@ =~= s@);
    }
    v
}

/// What the runtime parse of one line produced.
enum LineAction {
    Skip,
    Entry(BlockEntry),
    Fail(ParseErrorKind),
}

/// Parse the one line `chars[lo..hi]` (already split and `\r`-stripped),
/// taking the name's text out of `s`.
fn parse_line_range(s: &str, chars: &Vec<char>, lo: usize, hi: usize) -> (r: LineAction)
    requires
        chars@ == s@,
        lo <= hi <= chars@.len(),
    ensures
        (match r {
            LineAction::Skip => parse_line(chars@.subrange(lo as int, hi as int)) == LineOut::Skip,
            LineAction::Entry(e) => parse_line(chars@.subrange(lo as int, hi as int))
                == LineOut::Entry(e@),
            LineAction::Fail(k) => parse_line(chars@.subrange(lo as int, hi as int))
                == LineOut::Fail(k),
        }),
{
    let ghost line = chars@.subrange(lo as int, hi as int);
    // Comment stripping.
    let ce = scan_char(chars, lo, hi, '#');
    proof {
        lemma_scan_to_find(chars@, lo as int, hi as int, '#', ce as int);
        assert(strip_comment(line) =~= chars@.subrange(lo as int, ce as int));
    }
    let ghost body = strip_comment(line);
    if ce == lo {
        return LineAction::Skip;
    }
    // The range/name separator.
    let si = scan_char(chars, lo, ce, ';');
    proof {
        lemma_scan_to_find(chars@, lo as int, ce as int, ';', si as int);
    }
    if si == ce {
        return LineAction::Fail(ParseErrorKind::NoSemicolon);
    }
    let (rlo, rhi) = trim_range(chars, lo, si);
    let (nlo, nhi) = trim_range(chars, si + 1, ce);
    proof {
        assert(body.take(si - lo) =~= chars@.subrange(lo as int, si as int));
        assert(body.skip(si - lo + 1) =~= chars@.subrange(si as int + 1, ce as int));
        lemma_scan_to_trim(chars@, lo as int, si as int, rlo as int, rhi as int);
        lemma_scan_to_trim(chars@, si as int + 1, ce as int, nlo as int, nhi as int);
    }
    let ghost range_part = trim(body.take(si - lo));
    let ghost name_part = trim(body.skip(si - lo + 1));
    // The bound separator inside the range field.
    let di = scan_dotdot(chars, rlo, rhi);
    proof {
        lemma_scan_to_dotdot(chars@, rlo as int, rhi as int, di as int);
    }
    if di == rhi {
        return LineAction::Fail(ParseErrorKind::NoDotDot);
    }
    // The two hexadecimal bounds.
    proof {
        assert(range_part.take(di - rlo) =~= chars@.subrange(rlo as int, di as int));
        assert(range_part.skip(di - rlo + 2) =~= chars@.subrange(di as int + 2, rhi as int));
    }
    let start = match parse_hex_range(chars, rlo, di) {
        Ok(v) => v,
        Err(e) => {
            return LineAction::Fail(ParseErrorKind::ParseInt(e));
        },
    };
    let end = match parse_hex_range(chars, di + 2, rhi) {
        Ok(v) => v,
        Err(e) => {
            return LineAction::Fail(ParseErrorKind::ParseInt(e));
        },
    };
    let name = s.substring_char(nlo, nhi).to_owned();
    LineAction::Entry(BlockEntry { start, end, name })
}

/// `rest` with `acc` already parsed in front of it.
spec fn with_prefix(acc: Seq<EntryV>, rest: Result<Seq<EntryV>, ErrV>) -> Result<
    Seq<EntryV>,
    ErrV,
> {
    match rest {
        Ok(es) => Ok(acc + es),
        Err(e) => Err(e),
    }
}

impl Blocks {
    /// Parse `Blocks.txt`-style text into a table: `#` starts a comment that
    /// runs to the end of its line, lines left blank by comment stripping
    /// are skipped, and every other line must read `START..END; Name` with
    /// hexadecimal bounds. Entries keep line order; the first malformed
    /// line aborts the parse, reporting its 0-indexed raw line number.
    pub fn from_str(s: &str) -> (r: Result<Blocks, ParseError>)
        ensures
            (match r {
                Ok(b) => parse_spec(s@) is Ok && b@ == parse_spec(s@)->Ok_0,
                Err(e) => parse_spec(s@) is Err && e.line as int == parse_spec(s@)->Err_0.line
                    && e.kind == parse_spec(s@)->Err_0.kind,
            }),
    {
        let chars = to_chars(s);
        let n = chars.len();
        let ghost text = s@;
        let ghost lines = split_lines(text);
        let mut entries: Vec<BlockEntry> = Vec::new();
        let mut pos: usize = 0;
        let mut line_idx: usize = 0;
        let ghost mut gli: int = 0;
        let mut more: bool = true;
        proof {
            assert(lines.skip(0) =~= lines);
            assert(views_of(entries@) =~= Seq::<EntryV>::empty());
            if parse_from(lines, 0) is Ok {
                assert(Seq::<EntryV>::empty() + parse_from(lines, 0)->Ok_0 =~= parse_from(
                    lines,
                    0,
                )->Ok_0);
            }
        }
        while more
            invariant
                chars@ == s@,
                text == s@,
                n == chars@.len(),
                lines == split_lines(text),
                pos <= n,
                0 <= gli <= lines.len(),
                more ==> gli == line_idx as int && line_idx <= pos,
                more ==> lines.skip(gli) == split_lines_from(text, pos as int),
                !more ==> gli == lines.len(),
                parse_from(lines, 0) == with_prefix(views_of(entries@), parse_from(lines, gli)),
            decreases n - pos, (if more { 1int } else { 0int }),
        {
            let e = scan_char(&chars, pos, n, '\n');
            proof {
                lemma_find_char_characterize(text, '\n', pos as int, e as int);
            }
            let eff = if e < n && e > pos && chars[e - 1] == '\r' {
                e - 1
            } else {
                e
            };
            proof {
                let raw = text.subrange(pos as int, e as int);
                if e < n {
                    if e > pos && text[e as int - 1] == '\r' {
                        assert(raw.last() == text[e as int - 1]);
                    }
                    assert(strip_cr(raw) =~= text.subrange(pos as int, eff as int));
                } else {
                    assert(raw =~= text.subrange(pos as int, eff as int));
                }
                assert(lines.skip(gli).len() >= 1);
                assert(lines[gli] == lines.skip(gli)[0]);
                assert(lines[gli] == text.subrange(pos as int, eff as int));
            }
            let act = parse_line_range(s, &chars, pos, eff);
            let ghost acc0 = views_of(entries@);
            match act {
                LineAction::Fail(k) => {
                    proof {
                        assert(parse_from(lines, gli) == Err::<Seq<EntryV>, ErrV>(
                            ErrV { line: gli, kind: k },
                        ));
                    }
                    return Err(ParseError { line: line_idx, kind: k });
                },
                LineAction::Skip => {
                    proof {
                        assert(parse_from(lines, gli) == parse_from(lines, gli + 1));
                    }
                },
                LineAction::Entry(be) => {
                    proof {
                        let rest = parse_from(lines, gli + 1);
                        if rest is Ok {
                            assert(parse_from(lines, gli) == Ok::<Seq<EntryV>, ErrV>(
                                seq![be@] + rest->Ok_0,
                            ));
                            assert(acc0 + (seq![be@] + rest->Ok_0) =~= acc0.push(be@)
                                + rest->Ok_0);
                        }
                        assert(views_of(entries@.push(be)) =~= acc0.push(be@));
                    }
                    entries.push(be);
                },
            }
            proof {
                gli = gli + 1;
                if e < n {
                    assert(lines.skip(gli - 1).drop_first() =~= split_lines_from(
                        text,
                        e as int + 1,
                    ));
                    assert(lines.skip(gli) =~= lines.skip(gli - 1).drop_first());
                } else {
                    assert(lines.skip(gli - 1).len() == 1);
                }
            }
            if e == n {
                more = false;
            } else {
                line_idx = line_idx + 1;
                pos = e + 1;
            }
        }
        proof {
            assert(parse_from(lines, lines.len() as int) == Ok::<Seq<EntryV>, ErrV>(
                Seq::<EntryV>::empty(),
            ));
            assert(views_of(entries@) + Seq::<EntryV>::empty() =~= views_of(entries@));
        }
        Ok(Blocks::from_entries(entries))
    }
}

impl core::str::FromStr for Blocks {
    type Err = ParseError;

    fn from_str(s: &str) -> Result<Blocks, ParseError> {
        Blocks::from_str(s)
    }
}

} // verus!
