//! The grammar of the capacity report the dataplane sends back: lines
//! `<id>: <rules>, <tbl8s>`, with whitespace allowed around each field, and
//! blank lines.
use std::num::ParseIntError;

use vstd::prelude::*;

verus! {

#[verifier::external_type_specification]
#[verifier::external_body]
pub struct ExParseIntError(ParseIntError);

/// Unicode white space, the class `\s` and `str::trim` go by.
pub open spec fn is_ws(c: char) -> bool {
    c == ' ' || c == '\t' || c == '\n' || c == '\x0B' || c == '\x0C' || c == '\r' || c == '\u{85}'
        || c == '\u{A0}' || c == '\u{1680}' || ('\u{2000}' <= c && c <= '\u{200A}')
        || c == '\u{2028}' || c == '\u{2029}' || c == '\u{202F}' || c == '\u{205F}'
        || c == '\u{3000}'
}

/// A decimal digit.
pub open spec fn is_digit(c: char) -> bool {
    '0' <= c && c <= '9'
}

/// The first position at or after `i` that is not white space.
pub open spec fn skip_ws(s: Seq<char>, i: int) -> int
    decreases s.len() - i,
{
    if 0 <= i < s.len() && is_ws(s[i]) {
        skip_ws(s, i + 1)
    } else {
        i
    }
}

/// The first position at or after `i` that is not a digit.
pub open spec fn skip_digits(s: Seq<char>, i: int) -> int
    decreases s.len() - i,
{
    if 0 <= i < s.len() && is_digit(s[i]) {
        skip_digits(s, i + 1)
    } else {
        i
    }
}

/// The number a run of digits writes in base ten.
pub open spec fn digits_value(s: Seq<char>) -> nat
    decreases s.len(),
{
    if s.len() == 0 {
        0
    } else {
        digits_value(s.drop_last()) * 10 + (s.last() as nat - '0' as nat) as nat
    }
}

/// A nonempty run of digits.
pub open spec fn is_digit_run(s: Seq<char>) -> bool {
    s.len() > 0 && forall|i: int| 0 <= i < s.len() ==> is_digit(#[trigger] s[i])
}

/// A line of white space only.
pub open spec fn is_blank(l: Seq<char>) -> bool {
    skip_ws(l, 0) == l.len()
}

/// Where each of the three fields of a record line starts and ends.
pub open spec fn field_bounds(l: Seq<char>) -> Seq<int> {
    let s1 = skip_ws(l, 0);
    let e1 = skip_digits(l, s1);
    let s2 = skip_ws(l, e1 + 1);
    let e2 = skip_digits(l, s2);
    let s3 = skip_ws(l, e2 + 1);
    let e3 = skip_digits(l, s3);
    seq![s1, e1, s2, e2, s3, e3]
}

/// A line `<id>:<rules>,<tbl8s>`, each field a run of digits, with white
/// space before the first field, after each separator and at the end.
pub open spec fn is_record(l: Seq<char>) -> bool {
    let b = field_bounds(l);
    &&& b[0] < b[1] < l.len() && l[b[1]] == ':'
    &&& b[2] < b[3] < l.len() && l[b[3]] == ','
    &&& b[4] < b[5]
    &&& skip_ws(l, b[5]) == l.len()
}

/// The text of field `k` (0, 1 or 2) of a record line.
pub open spec fn field_text(l: Seq<char>, k: int) -> Seq<char> {
    l.subrange(field_bounds(l)[2 * k], field_bounds(l)[2 * k + 1])
}

/// The value of field `k` of a record line.
pub open spec fn field(l: Seq<char>, k: int) -> nat {
    digits_value(field_text(l, k))
}

/// A record line whose three values fit in a `usize`.
pub open spec fn is_fitting_record(l: Seq<char>) -> bool {
    is_record(l) && field(l, 0) <= usize::MAX && field(l, 1) <= usize::MAX && field(l, 2)
        <= usize::MAX
}

/// What one line of a report holds.
#[derive(Debug)]
pub enum LineOutcome {
    Blank,
    Record(usize, usize, usize),
    Malformed,
    Overflow(ParseIntError),
}

/// Relies on `str::chars`: the characters of the string, in order.
#[verifier::external_body]
pub(crate) fn chars_of(s: &str) -> (r: Vec<char>)
    ensures
        r@ == s@,
{
    s.chars().collect()
}

/// Relies on `String`'s `FromIterator<&char>`: the characters, in order.
#[verifier::external_body]
fn text_of(cs: &[char]) -> (r: String)
    ensures
        r@ == cs@,
{
    cs.iter().collect()
}

/// The digits of an unsigned number's text: the text without a leading `+`.
pub open spec fn unsigned_digits(s: Seq<char>) -> Seq<char> {
    if s.len() > 0 && s[0] == '+' {
        s.drop_first()
    } else {
        s
    }
}

/// Text `usize`'s `FromStr` accepts: an optional `+`, then a run of ASCII
/// digits whose value fits.
pub open spec fn is_usize_text(s: Seq<char>) -> bool {
    is_digit_run(unsigned_digits(s)) && digits_value(unsigned_digits(s)) <= usize::MAX
}

/// Relies on `usize`'s `FromStr`: an optional `+` and a run of ASCII digits
/// parse to their value when it fits; anything else fails.
#[verifier::external_body]
pub(crate) fn parse_usize(s: &str) -> (r: Result<usize, ParseIntError>)
    ensures
        r is Ok <==> is_usize_text(s@),
        r matches Ok(n) ==> n == digits_value(unsigned_digits(s@)),
{
    s.parse::<usize>()
}

/// The characters `cs[from..to]` as a string.
pub(crate) fn text_between(cs: &Vec<char>, from: usize, to: usize) -> (r: String)
    requires
        from <= to <= cs@.len(),
    ensures
        r@ == cs@.subrange(from as int, to as int),
{
    text_of(&cs.as_slice()[from..to])
}

fn is_ws_char(c: char) -> (r: bool)
    ensures
        r == is_ws(c),
{
    c == ' ' || c == '\t' || c == '\n' || c == '\x0B' || c == '\x0C' || c == '\r' || c == '\u{85}'
        || c == '\u{A0}' || c == '\u{1680}' || ('\u{2000}' <= c && c <= '\u{200A}')
        || c == '\u{2028}' || c == '\u{2029}' || c == '\u{202F}' || c == '\u{205F}'
        || c == '\u{3000}'
}

fn skip_ws_from(l: &Vec<char>, i: usize) -> (r: usize)
    requires
        i <= l@.len(),
    ensures
        r == skip_ws(l@, i as int),
        i <= r <= l@.len(),
{
    let mut j = i;
    while j < l.len() && is_ws_char(l[j])
        invariant
            i <= j <= l@.len(),
            skip_ws(l@, j as int) == skip_ws(l@, i as int),
        decreases l@.len() - j,
    {
        j += 1;
    }
    j
}

fn skip_digits_from(l: &Vec<char>, i: usize) -> (r: usize)
    requires
        i <= l@.len(),
    ensures
        r == skip_digits(l@, i as int),
        i <= r <= l@.len(),
        forall|k: int| i <= k < r ==> is_digit(#[trigger] l@[k]),
{
    let mut j = i;
    while j < l.len() && '0' <= l[j] && l[j] <= '9'
        invariant
            i <= j <= l@.len(),
            skip_digits(l@, j as int) == skip_digits(l@, i as int),
            forall|k: int| i <= k < j ==> is_digit(#[trigger] l@[k]),
        decreases l@.len() - j,
    {
        j += 1;
    }
    j
}

/// Reads one line of a report.
pub fn parse_line(l: &Vec<char>) -> (r: LineOutcome)
    ensures
        r is Blank <==> is_blank(l@),
        r is Malformed <==> !is_blank(l@) && !is_record(l@),
        r is Overflow <==> is_record(l@) && !is_fitting_record(l@),
        r matches LineOutcome::Record(id, rules, tbl8s) ==> is_fitting_record(l@) && id == field(
            l@,
            0,
        ) && rules == field(l@, 1) && tbl8s == field(l@, 2),
        is_fitting_record(l@) ==> r is Record,
{
    let len = l.len();
    let s1 = skip_ws_from(l, 0);
    if s1 == len {
        return LineOutcome::Blank;
    }
    let e1 = skip_digits_from(l, s1);
    if !(s1 < e1 && e1 < len && l[e1] == ':') {
        return LineOutcome::Malformed;
    }
    let s2 = skip_ws_from(l, e1 + 1);
    let e2 = skip_digits_from(l, s2);
    if !(s2 < e2 && e2 < len && l[e2] == ',') {
        return LineOutcome::Malformed;
    }
    let s3 = skip_ws_from(l, e2 + 1);
    let e3 = skip_digits_from(l, s3);
    if !(s3 < e3 && skip_ws_from(l, e3) == len) {
        return LineOutcome::Malformed;
    }
    let ghost b = field_bounds(l@);
    assert(b[0] == s1 && b[1] == e1 && b[2] == s2 && b[3] == e2 && b[4] == s3 && b[5] == e3);
    let id_text = text_between(l, s1, e1);
    let rules_text = text_between(l, s2, e2);
    let tbl8s_text = text_between(l, s3, e3);
    assert(is_digit_run(id_text@) && is_digit_run(rules_text@) && is_digit_run(tbl8s_text@));
    assert(unsigned_digits(id_text@) == id_text@);
    assert(unsigned_digits(rules_text@) == rules_text@);
    assert(unsigned_digits(tbl8s_text@) == tbl8s_text@);
    let id = match parse_usize(id_text.as_str()) {
        Ok(n) => n,
        Err(e) => return LineOutcome::Overflow(e),
    };
    let rules = match parse_usize(rules_text.as_str()) {
        Ok(n) => n,
        Err(e) => return LineOutcome::Overflow(e),
    };
    let tbl8s = match parse_usize(tbl8s_text.as_str()) {
        Ok(n) => n,
        Err(e) => return LineOutcome::Overflow(e),
    };
    LineOutcome::Record(id, rules, tbl8s)
}

} // verus!
