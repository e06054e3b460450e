//! Character classes and low-level text scanning used by the parser.

use vstd::prelude::*;

use crate::errors::IntErrorKind;

verus! {

/// The characters Rust's `char::is_whitespace` accepts: the Unicode
/// `White_Space` property.
pub open spec fn is_space(c: char) -> bool {
    let u = c as u32;
    (0x9 <= u && u <= 0xD) || u == 0x20 || u == 0x85 || u == 0xA0 || u == 0x1680 || (0x2000 <= u
        && u <= 0x200A) || u == 0x2028 || u == 0x2029 || u == 0x202F || u == 0x205F || u == 0x3000
}

/// The value of a hexadecimal digit, or -1 for any other character.
/// Both letter cases are accepted.
pub open spec fn hex_digit_value(c: char) -> int {
    let u = c as u32;
    if 0x30 <= u && u <= 0x39 {
        u - 0x30
    } else if 0x41 <= u && u <= 0x46 {
        u - 0x41 + 10
    } else if 0x61 <= u && u <= 0x66 {
        u - 0x61 + 10
    } else {
        -1
    }
}

pub open spec fn is_hex_digit(c: char) -> bool {
    hex_digit_value(c) >= 0
}

/// Runtime test for `is_space`.
pub fn is_space_char(c: char) -> (r: bool)
    ensures
        r == is_space(c),
{
    let u = c as u32;
    (0x9 <= u && u <= 0xD) || u == 0x20 || u == 0x85 || u == 0xA0 || u == 0x1680 || (0x2000 <= u
        && u <= 0x200A) || u == 0x2028 || u == 0x2029 || u == 0x202F || u == 0x205F || u == 0x3000
}

/// Runtime value of a hexadecimal digit; `None` for any other character.
pub fn hex_digit_of(c: char) -> (r: Option<u32>)
    ensures
        is_hex_digit(c) <==> r is Some,
        r is Some ==> r->0 == hex_digit_value(c) && r->0 < 16,
{
    let u = c as u32;
    if 0x30 <= u && u <= 0x39 {
        Some(u - 0x30)
    } else if 0x41 <= u && u <= 0x46 {
        Some(u - 0x41 + 10)
    } else if 0x61 <= u && u <= 0x66 {
        Some(u - 0x61 + 10)
    } else {
        None
    }
}

/// The hexadecimal digits of `s` from index `i` on, folded onto the
/// accumulator `acc`, failing on the first character that is not a digit or
/// the first step whose value no longer fits in 32 bits — the order in which
/// `u32::from_str_radix` reports its failures.
pub open spec fn hex_scan(s: Seq<char>, i: int, acc: int) -> Result<u32, IntErrorKind>
    decreases s.len() - i,
{
    if i < 0 || i >= s.len() {
        Ok(acc as u32)
    } else if !is_hex_digit(s[i]) {
        Err(IntErrorKind::InvalidDigit)
    } else if acc * 16 + hex_digit_value(s[i]) > u32::MAX {
        Err(IntErrorKind::PosOverflow)
    } else {
        hex_scan(s, i + 1, acc * 16 + hex_digit_value(s[i]))
    }
}

/// `s` read as a base-16 `u32`, as `u32::from_str_radix(s, 16)` reads it:
/// an optional leading `+`, then at least one hexadecimal digit.
pub open spec fn parse_hex(s: Seq<char>) -> Result<u32, IntErrorKind> {
    if s.len() == 0 {
        Err(IntErrorKind::Empty)
    } else if s[0] == '+' {
        if s.len() == 1 {
            Err(IntErrorKind::InvalidDigit)
        } else {
            hex_scan(s, 1, 0)
        }
    } else {
        hex_scan(s, 0, 0)
    }
}

/// A successful hexadecimal read saw digits only.
pub proof fn lemma_hex_scan_ok_digits(s: Seq<char>, i: int, acc: int)
    requires
        0 <= i,
        hex_scan(s, i, acc) is Ok,
    ensures
        forall|j: int| i <= j < s.len() ==> is_hex_digit(#[trigger] s[j]),
    decreases s.len() - i,
{
    if i < s.len() {
        lemma_hex_scan_ok_digits(s, i + 1, acc * 16 + hex_digit_value(s[i]));
    }
}

/// A bound that reads as hexadecimal holds only digits, after an optional
/// leading `+`.
pub proof fn lemma_hex_ok_chars(s: Seq<char>)
    requires
        parse_hex(s) is Ok,
    ensures
        forall|j: int|
            0 <= j < s.len() ==> is_hex_digit(#[trigger] s[j]) || (j == 0 && s[j] == '+'),
{
    if s.len() > 0 && s[0] == '+' {
        lemma_hex_scan_ok_digits(s, 1, 0);
    } else {
        lemma_hex_scan_ok_digits(s, 0, 0);
    }
}

/// Index of the first occurrence of `c` in `s` at or after `from`;
/// `s.len()` when there is none.
pub open spec fn find_char_from(s: Seq<char>, c: char, from: int) -> int
    decreases s.len() - from,
{
    if from < 0 || from >= s.len() {
        s.len() as int
    } else if s[from] == c {
        from
    } else {
        find_char_from(s, c, from + 1)
    }
}

/// Index of the first occurrence of the two-character substring `..` in `s`
/// at or after `from`; `s.len()` when there is none.
pub open spec fn find_dotdot_from(s: Seq<char>, from: int) -> int
    decreases s.len() - from,
{
    if from < 0 || from + 2 > s.len() {
        s.len() as int
    } else if s[from] == '.' && s[from + 1] == '.' {
        from
    } else {
        find_dotdot_from(s, from + 1)
    }
}

/// `s` without its leading whitespace.
pub open spec fn trim_start(s: Seq<char>) -> Seq<char>
    decreases s.len(),
{
    if s.len() > 0 && is_space(s[0]) {
        trim_start(s.drop_first())
    } else {
        s
    }
}

/// `s` without its trailing whitespace.
pub open spec fn trim_end(s: Seq<char>) -> Seq<char>
    decreases s.len(),
{
    if s.len() > 0 && is_space(s.last()) {
        trim_end(s.drop_last())
    } else {
        s
    }
}

/// `s` without leading and trailing whitespace, as Rust's `str::trim`.
pub open spec fn trim(s: Seq<char>) -> Seq<char> {
    trim_end(trim_start(s))
}

/// A scan that saw no `c` before `k`, and `c` at `k` (or ran off the end),
/// has found the first occurrence.
pub proof fn lemma_find_char_characterize(s: Seq<char>, c: char, from: int, k: int)
    requires
        0 <= from <= k <= s.len(),
        forall|j: int| from <= j < k ==> s[j] != c,
        k == s.len() || s[k] == c,
    ensures
        find_char_from(s, c, from) == k,
    decreases k - from,
{
    if from < k {
        lemma_find_char_characterize(s, c, from + 1, k);
    }
}

/// A scan that saw no `..` starting before `k`, and `..` at `k`, has found
/// the first occurrence.
pub proof fn lemma_find_dotdot_characterize(s: Seq<char>, from: int, k: int)
    requires
        0 <= from <= k,
        k + 2 <= s.len(),
        forall|j: int| from <= j < k ==> !((#[trigger] s[j]) == '.' && s[j + 1] == '.'),
        s[k] == '.' && s[k + 1] == '.',
    ensures
        find_dotdot_from(s, from) == k,
    decreases k - from,
{
    if from < k {
        lemma_find_dotdot_characterize(s, from + 1, k);
    }
}

/// A scan that saw no `..` anywhere finds none.
pub proof fn lemma_find_dotdot_none(s: Seq<char>, from: int)
    requires
        0 <= from <= s.len(),
        forall|j: int|
            from <= j && j + 2 <= s.len() ==> !((#[trigger] s[j]) == '.' && s[j + 1] == '.'),
    ensures
        find_dotdot_from(s, from) == s.len(),
    decreases s.len() - from,
{
    if from + 2 <= s.len() {
        lemma_find_dotdot_none(s, from + 1);
    }
}

/// `find_char_from` stays within bounds and lands on `c` when it lands.
pub proof fn lemma_find_char_from_bounds(s: Seq<char>, c: char, from: int)
    requires
        0 <= from <= s.len(),
    ensures
        from <= find_char_from(s, c, from) <= s.len(),
        find_char_from(s, c, from) < s.len() ==> s[find_char_from(s, c, from)] == c,
    decreases s.len() - from,
{
    if from < s.len() && s[from] != c {
        lemma_find_char_from_bounds(s, c, from + 1);
    }
}

/// A scan of `chars[lo..hi]` that stopped at `r` determines `find_char_from`
/// on that subrange.
pub proof fn lemma_scan_to_find(chars: Seq<char>, lo: int, hi: int, c: char, r: int)
    requires
        0 <= lo <= r <= hi <= chars.len(),
        forall|j: int| lo <= j < r ==> chars[j] != c,
        r < hi ==> chars[r] == c,
    ensures
        find_char_from(chars.subrange(lo, hi), c, 0) == r - lo,
{
    let part = chars.subrange(lo, hi);
    assert forall|j: int| 0 <= j < r - lo implies part[j] != c by {
        assert(part[j] == chars[lo + j]);
    }
    lemma_find_char_characterize(part, c, 0, r - lo);
}

/// A pair scan of `chars[lo..hi]` that stopped at `r` determines
/// `find_dotdot_from` on that subrange.
pub proof fn lemma_scan_to_dotdot(chars: Seq<char>, lo: int, hi: int, r: int)
    requires
        0 <= lo <= r <= hi <= chars.len(),
        forall|j: int|
            lo <= j < r && j + 1 < hi ==> !((#[trigger] chars[j]) == '.' && chars[j + 1] == '.'),
        r < hi ==> r + 1 < hi && chars[r] == '.' && chars[r + 1] == '.',
    ensures
        find_dotdot_from(chars.subrange(lo, hi), 0) == r - lo,
{
    let part = chars.subrange(lo, hi);
    if r < hi {
        assert forall|j: int| 0 <= j < r - lo implies !((#[trigger] part[j]) == '.' && part[j + 1]
            == '.') by {
            assert(part[j] == chars[lo + j]);
            assert(part[j + 1] == chars[lo + j + 1]);
        }
        assert(part[r - lo] == chars[r]);
        assert(part[r - lo + 1] == chars[r + 1]);
        lemma_find_dotdot_characterize(part, 0, r - lo);
    } else {
        assert forall|j: int| 0 <= j && j + 2 <= part.len() implies !((#[trigger] part[j]) == '.'
            && part[j + 1] == '.') by {
            assert(part[j] == chars[lo + j]);
            assert(part[j + 1] == chars[lo + j + 1]);
        }
        lemma_find_dotdot_none(part, 0);
    }
}

/// A whitespace scan of `chars[lo..hi]` that narrowed to `[a, b)` determines
/// `trim` on that subrange.
pub proof fn lemma_scan_to_trim(chars: Seq<char>, lo: int, hi: int, a: int, b: int)
    requires
        0 <= lo <= a <= b <= hi <= chars.len(),
        forall|j: int| lo <= j < a ==> is_space(chars[j]),
        forall|j: int| b <= j < hi ==> is_space(chars[j]),
        a == b || (!is_space(chars[a]) && !is_space(chars[b - 1])),
    ensures
        trim(chars.subrange(lo, hi)) == chars.subrange(a, b),
{
    let part = chars.subrange(lo, hi);
    assert forall|j: int| 0 <= j < a - lo implies is_space(part[j]) by {
        assert(part[j] == chars[lo + j]);
    }
    assert forall|j: int| b - lo <= j < part.len() implies is_space(part[j]) by {
        assert(part[j] == chars[lo + j]);
    }
    if a < b {
        assert(part[a - lo] == chars[a]);
        assert(part[b - lo - 1] == chars[b - 1]);
    }
    lemma_trim_characterize(part, a - lo, b - lo);
    assert(part.subrange(a - lo, b - lo) =~= chars.subrange(a, b));
}

/// Dropping a whitespace prefix and suffix, down to non-space characters at
/// both ends, is exactly what `trim` does.
pub proof fn lemma_trim_characterize(s: Seq<char>, a: int, b: int)
    requires
        0 <= a <= b <= s.len(),
        forall|j: int| 0 <= j < a ==> is_space(s[j]),
        forall|j: int| b <= j < s.len() ==> is_space(s[j]),
        a == b || (!is_space(s[a]) && !is_space(s[b - 1])),
    ensures
        trim(s) == s.subrange(a, b),
{
    if a == b {
        lemma_trim_start_characterize(s, s.len() as int);
        assert(trim(s) =~= s.subrange(a, b));
    } else {
        lemma_trim_start_characterize(s, a);
        lemma_trim_end_characterize(s.subrange(a, s.len() as int), b - a);
        assert(s.subrange(a, s.len() as int).subrange(0, b - a) =~= s.subrange(a, b));
    }
}

/// Whitespace padding around a token whose two ends are not whitespace
/// trims away to exactly the token.
pub proof fn lemma_trim_padding(pad1: Seq<char>, x: Seq<char>, pad2: Seq<char>)
    requires
        forall|j: int| 0 <= j < pad1.len() ==> is_space(#[trigger] pad1[j]),
        forall|j: int| 0 <= j < pad2.len() ==> is_space(#[trigger] pad2[j]),
        x.len() > 0,
        !is_space(x[0]),
        !is_space(x.last()),
    ensures
        trim(pad1 + x + pad2) == x,
{
    let s = pad1 + x + pad2;
    let a = pad1.len() as int;
    let b = a + x.len();
    assert forall|j: int| 0 <= j < a implies is_space(s[j]) by {
        assert(s[j] == pad1[j]);
    }
    assert forall|j: int| b <= j < s.len() implies is_space(s[j]) by {
        assert(s[j] == pad2[j - b]);
    }
    assert(s[a] == x[0]);
    assert(s[b - 1] == x[x.len() - 1]);
    lemma_trim_characterize(s, a, b);
    assert(s.subrange(a, b) =~= x);
}

/// `trim_start` drops exactly the leading run of whitespace.
pub proof fn lemma_trim_start_characterize(s: Seq<char>, a: int)
    requires
        0 <= a <= s.len(),
        forall|j: int| 0 <= j < a ==> is_space(s[j]),
        a == s.len() || !is_space(s[a]),
    ensures
        trim_start(s) == s.subrange(a, s.len() as int),
    decreases a,
{
    if a == 0 {
        assert(s.subrange(0, s.len() as int) =~= s);
    } else {
        lemma_trim_start_characterize(s.drop_first(), a - 1);
        assert(s.drop_first().subrange(a - 1, s.drop_first().len() as int) =~= s.subrange(
            a,
            s.len() as int,
        ));
    }
}

/// `trim_end` drops exactly the trailing run of whitespace.
pub proof fn lemma_trim_end_characterize(s: Seq<char>, b: int)
    requires
        0 <= b <= s.len(),
        forall|j: int| b <= j < s.len() ==> is_space(s[j]),
        b == 0 || !is_space(s[b - 1]),
    ensures
        trim_end(s) == s.subrange(0, b),
    decreases s.len(),
{
    if b == s.len() {
        assert(s.subrange(0, s.len() as int) =~= s);
    } else {
        lemma_trim_end_characterize(s.drop_last(), b);
        assert(s.drop_last().subrange(0, b) =~= s.subrange(0, b));
    }
}

/// The trimmed text is a contiguous part of the original.
pub proof fn lemma_trim_is_infix(s: Seq<char>)
    ensures
        exists|a: int, b: int|
            0 <= a <= b <= s.len() && trim(s) == s.subrange(a, b),
{
    let a = trim_boundary_low(s);
    lemma_first_non_space_bounds(s, 0);
    let b = trim_boundary_high(s, a);
    lemma_boundary_high_bounds(s, a);
    lemma_trim_characterize(s, a, b);
    assert(0 <= a <= b <= s.len() && trim(s) == s.subrange(a, b));
}

/// The first non-space index of `s`, or its length.
spec fn trim_boundary_low(s: Seq<char>) -> int {
    find_first_non_space(s, 0)
}

spec fn find_first_non_space(s: Seq<char>, from: int) -> int
    decreases s.len() - from,
{
    if from < 0 || from >= s.len() {
        s.len() as int
    } else if is_space(s[from]) {
        find_first_non_space(s, from + 1)
    } else {
        from
    }
}

/// One past the last non-space index of `s` at or after `a`, or `a` itself.
spec fn trim_boundary_high(s: Seq<char>, a: int) -> int
    decreases s.len(),
{
    if s.len() > 0 && a < s.len() && is_space(s.last()) {
        trim_boundary_high(s.drop_last(), a)
    } else {
        s.len() as int
    }
}

proof fn lemma_first_non_space_bounds(s: Seq<char>, from: int)
    requires
        0 <= from <= s.len(),
    ensures
        from <= find_first_non_space(s, from) <= s.len(),
        forall|j: int| from <= j < find_first_non_space(s, from) ==> is_space(s[j]),
        find_first_non_space(s, from) < s.len() ==> !is_space(s[find_first_non_space(s, from)]),
    decreases s.len() - from,
{
    if from < s.len() && is_space(s[from]) {
        lemma_first_non_space_bounds(s, from + 1);
    }
}

/// Index of the first `c` in `chars[lo..hi]`, or `hi` when there is none.
pub fn scan_char(chars: &Vec<char>, lo: usize, hi: usize, c: char) -> (r: usize)
    requires
        lo <= hi <= chars@.len(),
    ensures
        lo <= r <= hi,
        forall|j: int| lo <= j < r ==> chars@[j] != c,
        r < hi ==> chars@[r as int] == c,
{
    let mut i: usize = lo;
    while i < hi
        invariant
            lo <= i <= hi <= chars@.len(),
            forall|j: int| lo <= j < i ==> chars@[j] != c,
        decreases hi - i,
    {
        if chars[i] == c {
            return i;
        }
        i = i + 1;
    }
    hi
}

/// Index of the first `..` pair in `chars[lo..hi]`, or `hi` when there is
/// none.
pub fn scan_dotdot(chars: &Vec<char>, lo: usize, hi: usize) -> (r: usize)
    requires
        lo <= hi <= chars@.len(),
    ensures
        lo <= r <= hi,
        forall|j: int|
            lo <= j < r && j + 1 < hi ==> !((#[trigger] chars@[j]) == '.' && chars@[j + 1] == '.'),
        r < hi ==> r + 1 < hi && chars@[r as int] == '.' && chars@[r as int + 1] == '.',
{
    if hi - lo < 2 {
        return hi;
    }
    let mut i: usize = lo;
    while i < hi - 1
        invariant
            2 <= hi,
            lo <= i <= hi <= chars@.len(),
            forall|j: int|
                lo <= j < i && j + 1 < hi ==> !((#[trigger] chars@[j]) == '.' && chars@[j + 1]
                    == '.'),
        decreases hi - i,
    {
        if chars[i] == '.' && chars[i + 1] == '.' {
            return i;
        }
        i = i + 1;
    }
    hi
}

/// The bounds of `chars[lo..hi]` with surrounding whitespace dropped.
pub fn trim_range(chars: &Vec<char>, lo: usize, hi: usize) -> (r: (usize, usize))
    requires
        lo <= hi <= chars@.len(),
    ensures
        lo <= r.0 <= r.1 <= hi,
        forall|j: int| lo <= j < r.0 ==> is_space(chars@[j]),
        forall|j: int| r.1 <= j < hi ==> is_space(chars@[j]),
        r.0 == r.1 || (!is_space(chars@[r.0 as int]) && !is_space(chars@[r.1 - 1])),
{
    let mut a: usize = lo;
    while a < hi && is_space_char(chars[a])
        invariant
            lo <= a <= hi <= chars@.len(),
            forall|j: int| lo <= j < a ==> is_space(chars@[j]),
        decreases hi - a,
    {
        a = a + 1;
    }
    if a == hi {
        return (hi, hi);
    }
    let mut b: usize = hi;
    while b > a && is_space_char(chars[b - 1])
        invariant
            a < hi,
            !is_space(chars@[a as int]),
            a <= b <= hi <= chars@.len(),
            forall|j: int| b <= j < hi ==> is_space(chars@[j]),
        decreases b,
    {
        b = b - 1;
    }
    (a, b)
}

/// `chars[lo..hi]` read as a base-16 `u32`, as `u32::from_str_radix` reads
/// it.
pub fn parse_hex_range(chars: &Vec<char>, lo: usize, hi: usize) -> (r: Result<u32, IntErrorKind>)
    requires
        lo <= hi <= chars@.len(),
    ensures
        r == parse_hex(chars@.subrange(lo as int, hi as int)),
{
    let ghost part = chars@.subrange(lo as int, hi as int);
    if lo == hi {
        assert(part.len() == 0);
        return Err(IntErrorKind::Empty);
    }
    let mut i: usize = lo;
    assert(part[0] == chars@[lo as int]);
    if chars[lo] == '+' {
        if hi - lo == 1 {
            return Err(IntErrorKind::InvalidDigit);
        }
        i = lo + 1;
    }
    let mut acc: u32 = 0;
    while i < hi
        invariant
            lo <= i <= hi <= chars@.len(),
            part == chars@.subrange(lo as int, hi as int),
            parse_hex(part) == hex_scan(part, i - lo, acc as int),
        decreases hi - i,
    {
        assert(part[i - lo] == chars@[i as int]);
        match hex_digit_of(chars[i]) {
            None => {
                return Err(IntErrorKind::InvalidDigit);
            },
            Some(v) => {
                if acc >= 0x1000_0000 {
                    return Err(IntErrorKind::PosOverflow);
                }
                acc = acc * 16 + v;
                i = i + 1;
            },
        }
    }
    assert(i - lo >= part.len());
    Ok(acc)
}

proof fn lemma_boundary_high_bounds(s: Seq<char>, a: int)
    requires
        0 <= a <= s.len(),
        forall|j: int| 0 <= j < a ==> is_space(s[j]),
        a == s.len() || !is_space(s[a]),
    ensures
        a <= trim_boundary_high(s, a) <= s.len(),
        forall|j: int| trim_boundary_high(s, a) <= j < s.len() ==> is_space(s[j]),
        trim_boundary_high(s, a) > a ==> !is_space(s[trim_boundary_high(s, a) - 1]),
        trim_boundary_high(s, a) == a ==> a == s.len() || is_space(s.last()),
    decreases s.len(),
{
    if s.len() > 0 && a < s.len() && is_space(s.last()) {
        lemma_boundary_high_bounds(s.drop_last(), a);
        let b = trim_boundary_high(s, a);
        assert forall|j: int| b <= j < s.len() implies is_space(s[j]) by {
            if j < s.len() - 1 {
                assert(s.drop_last()[j] == s[j]);
            }
        }
        if b > a {
            assert(s.drop_last()[b - 1] == s[b - 1]);
        }
    }
}

} // verus!
