//! Laws of the parser, stated over the specification model.
//!
//! Each proof function here states one guarantee of the text format: how a
//! well-formed line parses, which fault each kind of malformed line reports,
//! that comments and blank lines never matter, and that the reported line
//! number counts raw input lines.

use vstd::prelude::*;

use crate::errors::ParseErrorKind;
use crate::parse::parse_from;
use crate::parse::parse_line;
use crate::parse::parse_spec;
use crate::parse::split_lines;
use crate::parse::strip_comment;
use crate::parse::ErrV;
use crate::parse::LineOut;
use crate::scan::is_hex_digit;
use crate::scan::is_space;
use crate::scan::lemma_find_char_characterize;
use crate::scan::lemma_find_dotdot_characterize;
use crate::scan::lemma_find_dotdot_none;
use crate::scan::lemma_hex_ok_chars;
use crate::scan::lemma_trim_is_infix;
use crate::scan::lemma_trim_padding;
use crate::scan::parse_hex;
use crate::scan::trim;
use crate::table::EntryV;

verus! {

/// A character that cannot disturb the structure of a line around a range
/// bound: no separator, no comment start, no whitespace.
pub open spec fn bound_safe(c: char) -> bool {
    c != ';' && c != '#' && c != '.' && c != '\n' && c != '\r' && !is_space(c)
}

/// How a line `START..END; name` parses — whitespace allowed around the
/// whole `START..END` token — when both bound fields hold only
/// structurally safe characters: the bounds are read as hexadecimal, the
/// first failure wins, and success yields their values with the trimmed
/// name.
pub proof fn lemma_range_line(
    pad1: Seq<char>,
    start_s: Seq<char>,
    end_s: Seq<char>,
    pad2: Seq<char>,
    name: Seq<char>,
)
    requires
        forall|j: int| 0 <= j < pad1.len() ==> is_space(#[trigger] pad1[j]),
        forall|j: int| 0 <= j < pad2.len() ==> is_space(#[trigger] pad2[j]),
        forall|j: int| 0 <= j < start_s.len() ==> bound_safe(#[trigger] start_s[j]),
        forall|j: int| 0 <= j < end_s.len() ==> bound_safe(#[trigger] end_s[j]),
        forall|j: int| 0 <= j < name.len() ==> name[j] != '#',
    ensures
        parse_line(pad1 + start_s + seq!['.', '.'] + end_s + pad2 + seq![';'] + name) == (match
            parse_hex(start_s) {
            Err(e) => LineOut::Fail(ParseErrorKind::ParseInt(e)),
            Ok(sv) => match parse_hex(end_s) {
                Err(e) => LineOut::Fail(ParseErrorKind::ParseInt(e)),
                Ok(ev) => LineOut::Entry(EntryV { start: sv, end: ev, name: trim(name) }),
            },
        }),
{
    let rp = start_s + seq!['.', '.'] + end_s;
    let field = pad1 + rp + pad2;
    let line = field + seq![';'] + name;
    let p1 = pad1.len() as int;
    let l1 = start_s.len() as int;
    let lr = rp.len() as int;
    let fl = field.len() as int;
    assert(line =~= pad1 + start_s + seq!['.', '.'] + end_s + pad2 + seq![';'] + name);
    assert(!is_space('#'));
    assert(!is_space(';'));
    assert forall|j: int| 0 <= j < lr implies (#[trigger] rp[j]) != ';' && rp[j] != '#'
        && !is_space(rp[j]) by {
        if j < l1 {
            assert(rp[j] == start_s[j]);
        } else if j < l1 + 2 {
            assert(rp[j] == '.');
        } else {
            assert(rp[j] == end_s[j - l1 - 2]);
        }
    }
    assert forall|j: int| 0 <= j < fl implies (#[trigger] field[j]) != ';' && field[j] != '#' by {
        if j < p1 {
            assert(field[j] == pad1[j]);
        } else if j < p1 + lr {
            assert(field[j] == rp[j - p1]);
        } else {
            assert(field[j] == pad2[j - p1 - lr]);
        }
    }
    // No comment anywhere on the line.
    assert forall|j: int| 0 <= j < line.len() implies line[j] != '#' by {
        if j < fl {
            assert(line[j] == field[j]);
        } else if j == fl {
            assert(line[j] == ';');
        } else {
            assert(line[j] == name[j - fl - 1]);
        }
    }
    lemma_find_char_characterize(line, '#', 0, line.len() as int);
    assert(strip_comment(line) =~= line);
    // The first semicolon sits right after the range field.
    assert forall|j: int| 0 <= j < fl implies line[j] != ';' by {
        assert(line[j] == field[j]);
    }
    assert(line[fl] == ';');
    lemma_find_char_characterize(line, ';', 0, fl);
    assert(line.take(fl) =~= field);
    assert(line.skip(fl + 1) =~= name);
    // Trimming the range field leaves the bare `START..END` token.
    if l1 > 0 {
        assert(rp[0] == start_s[0]);
    } else {
        assert(rp[0] == '.');
    }
    if end_s.len() > 0 {
        assert(rp[lr - 1] == end_s[end_s.len() - 1]);
    } else {
        assert(rp[lr - 1] == '.');
    }
    lemma_trim_padding(pad1, rp, pad2);
    // The first `..` separates the two bounds.
    assert forall|j: int| 0 <= j < l1 implies !((#[trigger] rp[j]) == '.' && rp[j + 1] == '.') by {
        assert(rp[j] == start_s[j]);
    }
    assert(rp[l1] == '.');
    assert(rp[l1 + 1] == '.');
    lemma_find_dotdot_characterize(rp, 0, l1);
    assert(rp.take(l1) =~= start_s);
    assert(rp.skip(l1 + 2) =~= end_s);
}

/// Law: a well-formed line `START..END; name` — whitespace allowed around
/// the `START..END` token and around the name — parses to the one entry
/// with the bounds' values and the trimmed name.
pub proof fn lemma_wellformed_padded_line(
    pad1: Seq<char>,
    start_s: Seq<char>,
    end_s: Seq<char>,
    pad2: Seq<char>,
    name: Seq<char>,
)
    requires
        forall|j: int| 0 <= j < pad1.len() ==> is_space(#[trigger] pad1[j]),
        forall|j: int| 0 <= j < pad2.len() ==> is_space(#[trigger] pad2[j]),
        parse_hex(start_s) is Ok,
        parse_hex(end_s) is Ok,
        forall|j: int| 0 <= j < name.len() ==> name[j] != '#',
    ensures
        parse_line(pad1 + start_s + seq!['.', '.'] + end_s + pad2 + seq![';'] + name)
            == LineOut::Entry(
            EntryV {
                start: parse_hex(start_s)->Ok_0,
                end: parse_hex(end_s)->Ok_0,
                name: trim(name),
            },
        ),
{
    lemma_hex_ok_chars(start_s);
    lemma_hex_ok_chars(end_s);
    assert forall|j: int| 0 <= j < start_s.len() implies bound_safe(#[trigger] start_s[j]) by {
        assert(is_hex_digit(start_s[j]) || start_s[j] == '+');
    }
    assert forall|j: int| 0 <= j < end_s.len() implies bound_safe(#[trigger] end_s[j]) by {
        assert(is_hex_digit(end_s[j]) || end_s[j] == '+');
    }
    lemma_range_line(pad1, start_s, end_s, pad2, name);
}

/// Law: a well-formed line `START..END; name`, whose bounds read as
/// hexadecimal `u32` values, parses to the one entry with exactly those
/// bounds and the trimmed name.
pub proof fn lemma_wellformed_line(start_s: Seq<char>, end_s: Seq<char>, name: Seq<char>)
    requires
        parse_hex(start_s) is Ok,
        parse_hex(end_s) is Ok,
        forall|j: int| 0 <= j < name.len() ==> name[j] != '#',
    ensures
        parse_line(start_s + seq!['.', '.'] + end_s + seq![';'] + name) == LineOut::Entry(
            EntryV {
                start: parse_hex(start_s)->Ok_0,
                end: parse_hex(end_s)->Ok_0,
                name: trim(name),
            },
        ),
{
    lemma_wellformed_padded_line(Seq::<char>::empty(), start_s, end_s, Seq::<char>::empty(), name);
    assert(Seq::<char>::empty() + start_s + seq!['.', '.'] + end_s + Seq::<char>::empty()
        + seq![';'] + name =~= start_s + seq!['.', '.'] + end_s + seq![';'] + name);
}

/// Law: a whole text that is one well-formed line `START..END; name`
/// parses to exactly one entry.
pub proof fn lemma_wellformed_line_parses(start_s: Seq<char>, end_s: Seq<char>, name: Seq<char>)
    requires
        parse_hex(start_s) is Ok,
        parse_hex(end_s) is Ok,
        forall|j: int| 0 <= j < name.len() ==> name[j] != '#' && name[j] != '\n',
    ensures
        ({
            let line = start_s + seq!['.', '.'] + end_s + seq![';'] + name;
            parse_spec(line) == Ok::<Seq<EntryV>, ErrV>(
                seq![
                    EntryV {
                        start: parse_hex(start_s)->Ok_0,
                        end: parse_hex(end_s)->Ok_0,
                        name: trim(name),
                    },
                ],
            )
        }),
{
    let rp = start_s + seq!['.', '.'] + end_s;
    let line = rp + seq![';'] + name;
    let lr = rp.len() as int;
    lemma_wellformed_line(start_s, end_s, name);
    lemma_hex_ok_chars(start_s);
    lemma_hex_ok_chars(end_s);
    // The text is a single line: no newline anywhere, no trailing carriage
    // return.
    assert forall|j: int| 0 <= j < line.len() implies line[j] != '\n' by {
        if j < start_s.len() {
            assert(line[j] == start_s[j]);
            assert(is_hex_digit(start_s[j]) || start_s[j] == '+');
        } else if j < lr {
            if j < start_s.len() + 2 {
                assert(line[j] == '.');
            } else {
                assert(line[j] == end_s[j - start_s.len() - 2]);
                assert(is_hex_digit(end_s[j - start_s.len() - 2]) || end_s[j - start_s.len() - 2]
                    == '+');
            }
        } else if j == lr {
            assert(line[j] == ';');
        } else {
            assert(line[j] == name[j - lr - 1]);
        }
    }
    lemma_find_char_characterize(line, '\n', 0, line.len() as int);
    assert(line.subrange(0, line.len() as int) =~= line);
    assert(split_lines(line) =~= seq![line]);
    let entry = EntryV {
        start: parse_hex(start_s)->Ok_0,
        end: parse_hex(end_s)->Ok_0,
        name: trim(name),
    };
    assert(parse_from(seq![line], 1) == Ok::<Seq<EntryV>, ErrV>(Seq::<EntryV>::empty()));
    assert(seq![entry] + Seq::<EntryV>::empty() =~= seq![entry]);
}

/// Law: a line one of whose bounds is not valid hexadecimal fails with the
/// numeric failure as its cause, the first bound's failure first.
pub proof fn lemma_bad_bound_line(start_s: Seq<char>, end_s: Seq<char>, name: Seq<char>)
    requires
        forall|j: int| 0 <= j < start_s.len() ==> bound_safe(#[trigger] start_s[j]),
        forall|j: int| 0 <= j < end_s.len() ==> bound_safe(#[trigger] end_s[j]),
        forall|j: int| 0 <= j < name.len() ==> name[j] != '#',
        parse_hex(start_s) is Err || parse_hex(end_s) is Err,
    ensures
        parse_line(start_s + seq!['.', '.'] + end_s + seq![';'] + name) == (if parse_hex(start_s)
            is Err {
            LineOut::Fail(ParseErrorKind::ParseInt(parse_hex(start_s)->Err_0))
        } else {
            LineOut::Fail(ParseErrorKind::ParseInt(parse_hex(end_s)->Err_0))
        }),
{
    lemma_range_line(Seq::<char>::empty(), start_s, end_s, Seq::<char>::empty(), name);
    assert(Seq::<char>::empty() + start_s + seq!['.', '.'] + end_s + Seq::<char>::empty()
        + seq![';'] + name =~= start_s + seq!['.', '.'] + end_s + seq![';'] + name);
}

/// A bound holding any character that is not a hexadecimal digit, beyond an
/// optional leading `+`, never reads as hexadecimal.
pub proof fn lemma_non_hex_bound_fails(s: Seq<char>, j: int)
    requires
        0 <= j < s.len(),
        !is_hex_digit(s[j]),
        !(j == 0 && s[j] == '+'),
    ensures
        parse_hex(s) is Err,
{
    if parse_hex(s) is Ok {
        lemma_hex_ok_chars(s);
    }
}

/// The entries of the lines that parse to one, in line order.
pub open spec fn entries_of(lines: Seq<Seq<char>>, from: int) -> Seq<EntryV>
    decreases lines.len() - from,
{
    if from < 0 || from >= lines.len() {
        Seq::empty()
    } else {
        match parse_line(lines[from]) {
            LineOut::Entry(e) => seq![e] + entries_of(lines, from + 1),
            _ => entries_of(lines, from + 1),
        }
    }
}

/// Law: a text none of whose raw lines is malformed parses, and its entries
/// are those of the well-formed lines, one entry per line, in input order —
/// blank and comment-only lines contribute nothing. What each well-formed
/// line's entry is, `lemma_wellformed_padded_line` states.
pub proof fn lemma_all_lines_parse(text: Seq<char>)
    requires
        forall|j: int|
            0 <= j < split_lines(text).len() ==> !(parse_line(
                #[trigger] split_lines(text)[j],
            ) is Fail),
    ensures
        parse_spec(text) == Ok::<Seq<EntryV>, ErrV>(entries_of(split_lines(text), 0)),
{
    lemma_entries_from(split_lines(text), 0);
}

/// When no line from `from` on is malformed, parsing collects exactly the
/// entry lines.
pub proof fn lemma_entries_from(lines: Seq<Seq<char>>, from: int)
    requires
        0 <= from <= lines.len(),
        forall|j: int| from <= j < lines.len() ==> !(parse_line(#[trigger] lines[j]) is Fail),
    ensures
        parse_from(lines, from) == Ok::<Seq<EntryV>, ErrV>(entries_of(lines, from)),
    decreases lines.len() - from,
{
    if from < lines.len() {
        lemma_entries_from(lines, from + 1);
    }
}

/// Law: a line whose comment-stripped text is non-empty but holds no `;`
/// fails with `NoSemicolon`.
pub proof fn lemma_no_semicolon_line(line: Seq<char>)
    requires
        strip_comment(line).len() > 0,
        forall|j: int| 0 <= j < strip_comment(line).len() ==> strip_comment(line)[j] != ';',
    ensures
        parse_line(line) == LineOut::Fail(ParseErrorKind::NoSemicolon),
{
    lemma_find_char_characterize(strip_comment(line), ';', 0, strip_comment(line).len() as int);
}

/// Law: a line with a `;` but no `..` before it fails with `NoDotDot`.
pub proof fn lemma_no_dotdot_line(range: Seq<char>, name: Seq<char>)
    requires
        forall|j: int| 0 <= j < range.len() ==> (#[trigger] range[j]) != ';' && range[j] != '#',
        forall|j: int|
            0 <= j < range.len() - 1 ==> !((#[trigger] range[j]) == '.' && range[j + 1] == '.'),
        forall|j: int| 0 <= j < name.len() ==> name[j] != '#',
    ensures
        parse_line(range + seq![';'] + name) == LineOut::Fail(ParseErrorKind::NoDotDot),
{
    let line = range + seq![';'] + name;
    let lr = range.len() as int;
    assert forall|j: int| 0 <= j < line.len() implies line[j] != '#' by {
        if j < lr {
            assert(line[j] == range[j]);
        } else if j == lr {
            assert(line[j] == ';');
        } else {
            assert(line[j] == name[j - lr - 1]);
        }
    }
    lemma_find_char_characterize(line, '#', 0, line.len() as int);
    assert(strip_comment(line) =~= line);
    assert forall|j: int| 0 <= j < lr implies line[j] != ';' by {
        assert(line[j] == range[j]);
    }
    assert(line[lr] == ';');
    lemma_find_char_characterize(line, ';', 0, lr);
    assert(line.take(lr) =~= range);
    lemma_trim_is_infix(range);
    let (a, b) = choose|a: int, b: int|
        0 <= a <= b <= range.len() && trim(range) == range.subrange(a, b);
    let t = trim(range);
    assert forall|j: int| 0 <= j && j + 2 <= t.len() implies !((#[trigger] t[j]) == '.' && t[j + 1]
        == '.') by {
        assert(t[j] == range[a + j]);
        assert(t[j + 1] == range[a + j + 1]);
    }
    lemma_find_dotdot_none(t, 0);
}

/// Law: comment text is ignored whatever it holds — a line parses exactly
/// as it does with `#` and anything at all appended.
pub proof fn lemma_comment_ignored(line: Seq<char>, tail: Seq<char>)
    requires
        forall|j: int| 0 <= j < line.len() ==> line[j] != '#',
    ensures
        parse_line(line + seq!['#'] + tail) == parse_line(line),
{
    let full = line + seq!['#'] + tail;
    assert forall|j: int| 0 <= j < line.len() implies full[j] != '#' by {
        assert(full[j] == line[j]);
    }
    assert(full[line.len() as int] == '#');
    lemma_find_char_characterize(full, '#', 0, line.len() as int);
    lemma_find_char_characterize(line, '#', 0, line.len() as int);
    assert(strip_comment(full) =~= line);
    assert(strip_comment(line) =~= line);
}

/// Law: a line that is blank, or blank once its comment is stripped, is
/// skipped.
pub proof fn lemma_blank_line_skipped(line: Seq<char>)
    requires
        strip_comment(line).len() == 0,
    ensures
        parse_line(line) == LineOut::Skip,
{
}

/// Law: the reported line number counts raw input lines, 0-indexed —
/// skipped lines shift nothing. When no line before `k` fails and line `k`
/// fails, the parse fails with line number `k`.
pub proof fn lemma_error_line(lines: Seq<Seq<char>>, from: int, k: int, kind: ParseErrorKind)
    requires
        0 <= from <= k < lines.len(),
        forall|j: int| from <= j < k ==> !(parse_line(#[trigger] lines[j]) is Fail),
        parse_line(lines[k]) == LineOut::Fail(kind),
    ensures
        parse_from(lines, from) == Err::<Seq<EntryV>, ErrV>(ErrV { line: k, kind }),
    decreases k - from,
{
    if from < k {
        lemma_error_line(lines, from + 1, k, kind);
    }
}

/// Law: parsing is a pure function of the text — equal texts parse to equal
/// entry sequences, so parsing the same text twice gives structurally equal
/// tables.
pub proof fn lemma_parse_deterministic(a: Seq<char>, b: Seq<char>)
    requires
        a == b,
    ensures
        parse_spec(a) == parse_spec(b),
{
}

} // verus!
