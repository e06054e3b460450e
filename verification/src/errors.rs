//! The failures that parsing and file loading report.

use vstd::prelude::*;

verus! {

/// Why a range bound was not a valid base-16 `u32`, mirroring the cases of
/// `core::num::ParseIntError` that hexadecimal parsing can hit.
#[derive(Clone, Copy, Debug, PartialEq, Eq, Structural)]
pub enum IntErrorKind {
    /// The bound was the empty string.
    Empty,
    /// A character was not a hexadecimal digit (a lone sign counts here too).
    InvalidDigit,
    /// The value does not fit in 32 bits.
    PosOverflow,
}

/// What was wrong with a `Blocks.txt` line.
#[derive(Clone, Copy, Debug, PartialEq, Eq, Structural)]
pub enum ParseErrorKind {
    /// The line has no `;` separating the range from the block name.
    NoSemicolon,
    /// The range field has no `..` separating its two bounds.
    NoDotDot,
    /// One bound of the range is not a valid hexadecimal integer.
    ParseInt(IntErrorKind),
}

/// A malformed `Blocks.txt` line: what was wrong and on which 0-indexed
/// line of the raw input.
#[derive(Clone, Copy, Debug, PartialEq, Eq, Structural)]
pub struct ParseError {
    pub line: usize,
    pub kind: ParseErrorKind,
}

impl ParseError {
    pub fn new(line: usize, kind: ParseErrorKind) -> (r: ParseError)
        ensures
            r == (ParseError { line, kind }),
    {
        ParseError { line, kind }
    }

    /// The error for a range bound that failed hexadecimal parsing with
    /// cause `error`.
    pub fn parse_int(line: usize, error: IntErrorKind) -> (r: ParseError)
        ensures
            r == (ParseError { line, kind: ParseErrorKind::ParseInt(error) }),
    {
        ParseError { line, kind: ParseErrorKind::ParseInt(error) }
    }
}

impl ParseErrorKind {
    /// The underlying cause, for diagnostic chaining: the numeric failure
    /// behind `ParseInt`, nothing for the other kinds.
    pub fn source(&self) -> (r: Option<IntErrorKind>)
        ensures
            (match *self {
                ParseErrorKind::ParseInt(e) => r == Some(e),
                _ => r is None,
            }),
    {
        match *self {
            ParseErrorKind::ParseInt(e) => Some(e),
            _ => None,
        }
    }
}

/// The decimal digits of `n`, most significant first; `n`'s sign is ignored
/// below ten.
pub open spec fn decimal_digits(n: int) -> Seq<char>
    decreases n,
{
    if n < 10 {
        seq![digit_char(n)]
    } else {
        decimal_digits(n / 10) + seq![digit_char(n % 10)]
    }
}

/// The character for the decimal digit `d`.
pub open spec fn digit_char(d: int) -> char {
    "0123456789"@[d]
}

/// The decimal rendering of `n`.
fn decimal_string(n: u64) -> (s: String)
    ensures
        s@ == decimal_digits(n as int),
    decreases n,
{
    let digits = "0123456789";
    proof {
        reveal_strlit("0123456789");
    }
    if n < 10 {
        let d = digits.substring_char(n as usize, n as usize + 1);
        proof {
            assert(d@ =~= decimal_digits(n as int));
        }
        d.to_owned()
    } else {
        let mut s = decimal_string(n / 10);
        let r = (n % 10) as usize;
        let d = digits.substring_char(r, r + 1);
        s.append(d);
        proof {
            assert(decimal_digits((n / 10) as int) + d@ =~= decimal_digits(n as int));
        }
        s
    }
}

impl ParseError {
    /// The failure line rendered for people, naming the line 1-indexed as
    /// editors count lines.
    pub fn message(&self) -> (m: String)
        requires
            self.line < usize::MAX,
        ensures
            m@ == "invalid Blocks.txt data on line "@ + decimal_digits(self.line + 1),
    {
        let mut m = String::from_str("invalid Blocks.txt data on line ");
        let digits = decimal_string(self.line as u64 + 1);
        m.append(digits.as_str());
        m
    }
}

impl ParseErrorKind {
    /// What was wrong, rendered for people.
    pub fn message(&self) -> (m: String)
        ensures
            (match *self {
                ParseErrorKind::NoSemicolon => m@ == "no semicolon"@,
                ParseErrorKind::NoDotDot => m@ == "no `..` in range"@,
                ParseErrorKind::ParseInt(_) => m@
                    == "one end of range is not a valid hexadecimal integer"@,
            }),
    {
        match *self {
            ParseErrorKind::NoSemicolon => String::from_str("no semicolon"),
            ParseErrorKind::NoDotDot => String::from_str("no `..` in range"),
            ParseErrorKind::ParseInt(_) => String::from_str(
                "one end of range is not a valid hexadecimal integer",
            ),
        }
    }
}

/// `std::io::Error` is carried opaquely as the cause of a failed file read.
#[verifier::external_type_specification]
#[verifier::external_body]
pub struct ExIoError(std::io::Error);

/// Loading a `Blocks.txt` file failed: either the read itself, or parsing
/// what was read. The path names the file for diagnostics.
#[derive(Debug)]
pub struct FromFileError {
    pub path: String,
    pub kind: FromFileErrorKind,
}

#[derive(Debug)]
pub enum FromFileErrorKind {
    /// The file could not be read; carries the I/O failure as its cause.
    ReadFile(std::io::Error),
    /// The file was read but its text is malformed.
    Parse(ParseError),
}

impl FromFileError {
    /// The error for a file at `path` whose read failed with `error`; the
    /// cause is chained unmodified.
    pub fn read_file(path: String, error: std::io::Error) -> (r: FromFileError)
        ensures
            r.path == path,
            r.kind == FromFileErrorKind::ReadFile(error),
    {
        FromFileError { path, kind: FromFileErrorKind::ReadFile(error) }
    }

    /// The error for a file at `path` whose text failed to parse with
    /// `error`.
    pub fn parse(path: String, error: ParseError) -> (r: FromFileError)
        ensures
            r.path == path,
            r.kind == FromFileErrorKind::Parse(error),
    {
        FromFileError { path, kind: FromFileErrorKind::Parse(error) }
    }

    /// The failing file named for people.
    pub fn message(&self) -> (m: String)
        ensures
            m@ == "error reading `"@ + self.path@ + "`"@,
    {
        let mut m = String::from_str("error reading `");
        m.append(self.path.as_str());
        m.append("`");
        m
    }
}

} // verus!
