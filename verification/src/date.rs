//! Calendar dates as plain values: a year, month and day in the proleptic
//! Gregorian calendar, with validity, ordering, parsing and rendering.
use vstd::prelude::*;

use crate::errors::TaskError;
use crate::text::{push_two_digits, push_four_digits, spec_two_digits, spec_four_digits, spec_digit_char};

verus! {

/// A year is a leap year when it is divisible by 4 but not by 100,
/// unless it is also divisible by 400.
pub open spec fn spec_is_leap_year(y: int) -> bool {
    y % 4 == 0 && (y % 100 != 0 || y % 400 == 0)
}

/// Number of days in month `m` of year `y` (only meaningful for 1 <= m <= 12).
pub open spec fn spec_days_in_month(y: int, m: int) -> int {
    if m == 2 {
        if spec_is_leap_year(y) {
            29
        } else {
            28
        }
    } else if m == 4 || m == 6 || m == 9 || m == 11 {
        30
    } else {
        31
    }
}

/// A valid calendar date: the year has at most four digits, the month is
/// in range, and the day exists in that month of that year.
pub open spec fn spec_valid_date(y: int, m: int, d: int) -> bool {
    &&& 0 <= y <= 9999
    &&& 1 <= m <= 12
    &&& 1 <= d <= spec_days_in_month(y, m)
}

/// A calendar date (no time component).
#[derive(Debug, Clone, Copy, PartialEq, Eq, Structural)]
pub struct Date {
    pub year: u32,
    pub month: u32,
    pub day: u32,
}

impl Date {
    /// Well-formedness: the fields form a valid calendar date.
    pub open spec fn wf(self) -> bool {
        spec_valid_date(self.year as int, self.month as int, self.day as int)
    }

    pub fn year(&self) -> (r: u32)
        ensures
            r == self.year,
    {
        self.year
    }

    pub fn month(&self) -> (r: u32)
        ensures
            r == self.month,
    {
        self.month
    }

    pub fn day(&self) -> (r: u32)
        ensures
            r == self.day,
    {
        self.day
    }
}

pub fn is_leap_year(y: u32) -> (r: bool)
    ensures
        r == spec_is_leap_year(y as int),
{
    y % 4 == 0 && (y % 100 != 0 || y % 400 == 0)
}

pub fn days_in_month(y: u32, m: u32) -> (r: u32)
    requires
        1 <= m <= 12,
    ensures
        r == spec_days_in_month(y as int, m as int),
{
    if m == 2 {
        if is_leap_year(y) {
            29
        } else {
            28
        }
    } else if m == 4 || m == 6 || m == 9 || m == 11 {
        30
    } else {
        31
    }
}

impl Date {
    /// Builds a date when the fields form a valid calendar date,
    /// and returns `None` otherwise.
    pub fn new(year: u32, month: u32, day: u32) -> (r: Option<Date>)
        ensures
            r is Some <==> spec_valid_date(year as int, month as int, day as int),
            r is Some ==> r->0 == (Date { year, month, day }) && r->0.wf(),
    {
        if year <= 9999 && 1 <= month && month <= 12 && 1 <= day && day <= days_in_month(
            year,
            month,
        ) {
            Some(Date { year, month, day })
        } else {
            None
        }
    }
}

/// Whether `c` is a decimal digit.
pub open spec fn spec_is_digit(c: char) -> bool {
    ('0' as int) <= (c as int) && (c as int) <= ('9' as int)
}

/// The numeric value of a digit character.
pub open spec fn spec_digit_val(c: char) -> int {
    (c as int) - ('0' as int)
}

/// The value of the two digit characters starting at position `i`.
pub open spec fn spec_num2(s: Seq<char>, i: int) -> int {
    spec_digit_val(s[i]) * 10 + spec_digit_val(s[i + 1])
}

/// The value of the four digit characters starting at position `i`.
pub open spec fn spec_num4(s: Seq<char>, i: int) -> int {
    spec_digit_val(s[i]) * 1000 + spec_digit_val(s[i + 1]) * 100 + spec_digit_val(s[i + 2]) * 10
        + spec_digit_val(s[i + 3])
}

/// The shape `DD<sep>MM<sep>YYYY`: two digits, the separator, two digits,
/// the separator, four digits.
pub open spec fn spec_is_dmy(s: Seq<char>, sep: char) -> bool {
    &&& s.len() == 10
    &&& spec_is_digit(s[0])
    &&& spec_is_digit(s[1])
    &&& s[2] == sep
    &&& spec_is_digit(s[3])
    &&& spec_is_digit(s[4])
    &&& s[5] == sep
    &&& spec_is_digit(s[6])
    &&& spec_is_digit(s[7])
    &&& spec_is_digit(s[8])
    &&& spec_is_digit(s[9])
}

/// The date named by a string of shape `DD<sep>MM<sep>YYYY`.
pub open spec fn spec_dmy_date(s: Seq<char>) -> Date {
    Date {
        year: spec_num4(s, 6) as u32,
        month: spec_num2(s, 3) as u32,
        day: spec_num2(s, 0) as u32,
    }
}

/// The shape `YYYY-MM-DD`: four digits, a dash, two digits, a dash,
/// two digits.
pub open spec fn spec_is_ymd(s: Seq<char>) -> bool {
    &&& s.len() == 10
    &&& spec_is_digit(s[0])
    &&& spec_is_digit(s[1])
    &&& spec_is_digit(s[2])
    &&& spec_is_digit(s[3])
    &&& s[4] == '-'
    &&& spec_is_digit(s[5])
    &&& spec_is_digit(s[6])
    &&& s[7] == '-'
    &&& spec_is_digit(s[8])
    &&& spec_is_digit(s[9])
}

/// The date named by a string of shape `YYYY-MM-DD`.
pub open spec fn spec_ymd_date(s: Seq<char>) -> Date {
    Date {
        year: spec_num4(s, 0) as u32,
        month: spec_num2(s, 5) as u32,
        day: spec_num2(s, 8) as u32,
    }
}

/// What date parsing accepts: exactly the shapes `DD.MM.YYYY`,
/// `YYYY-MM-DD` and `DD/MM/YYYY`, tried in that order, and only when
/// the named date exists in the calendar. Everything else is rejected.
pub open spec fn spec_parse_date(s: Seq<char>) -> Option<Date> {
    if spec_is_dmy(s, '.') && spec_dmy_date(s).wf() {
        Some(spec_dmy_date(s))
    } else if spec_is_ymd(s) && spec_ymd_date(s).wf() {
        Some(spec_ymd_date(s))
    } else if spec_is_dmy(s, '/') && spec_dmy_date(s).wf() {
        Some(spec_dmy_date(s))
    } else {
        None
    }
}

fn char_digit(c: char) -> (r: Option<u32>)
    ensures
        r is Some <==> spec_is_digit(c),
        r matches Some(v) ==> v == spec_digit_val(c) && v <= 9,
{
    let v = c as u32;
    if 48 <= v && v <= 57 {
        Some(v - 48)
    } else {
        None
    }
}

fn two_digits_at(s: &str, i: usize) -> (r: Option<u32>)
    requires
        i + 2 <= s@.len(),
        s@.len() <= usize::MAX,
    ensures
        r is Some <==> spec_is_digit(s@[i as int]) && spec_is_digit(s@[i + 1]),
        r matches Some(v) ==> v == spec_num2(s@, i as int) && v <= 99,
{
    let hi = match char_digit(s.get_char(i)) {
        Some(v) => v,
        None => {
            return None;
        },
    };
    let lo = match char_digit(s.get_char(i + 1)) {
        Some(v) => v,
        None => {
            return None;
        },
    };
    Some(hi * 10 + lo)
}

fn four_digits_at(s: &str, i: usize) -> (r: Option<u32>)
    requires
        i + 4 <= s@.len(),
        s@.len() <= usize::MAX,
    ensures
        r is Some <==> spec_is_digit(s@[i as int]) && spec_is_digit(s@[i + 1]) && spec_is_digit(
            s@[i + 2],
        ) && spec_is_digit(s@[i + 3]),
        r matches Some(v) ==> v == spec_num4(s@, i as int) && v <= 9999,
{
    let a = match two_digits_at(s, i) {
        Some(v) => v,
        None => {
            return None;
        },
    };
    let b = match two_digits_at(s, i + 2) {
        Some(v) => v,
        None => {
            return None;
        },
    };
    Some(a * 100 + b)
}

fn try_dmy(s: &str, sep: char) -> (r: Option<Date>)
    requires
        s@.len() == 10,
    ensures
        r is Some <==> spec_is_dmy(s@, sep) && spec_dmy_date(s@).wf(),
        r matches Some(d) ==> d == spec_dmy_date(s@),
{
    if s.get_char(2) != sep || s.get_char(5) != sep {
        return None;
    }
    let day = match two_digits_at(s, 0) {
        Some(v) => v,
        None => {
            return None;
        },
    };
    let month = match two_digits_at(s, 3) {
        Some(v) => v,
        None => {
            return None;
        },
    };
    let year = match four_digits_at(s, 6) {
        Some(v) => v,
        None => {
            return None;
        },
    };
    Date::new(year, month, day)
}

fn try_ymd(s: &str) -> (r: Option<Date>)
    requires
        s@.len() == 10,
    ensures
        r is Some <==> spec_is_ymd(s@) && spec_ymd_date(s@).wf(),
        r matches Some(d) ==> d == spec_ymd_date(s@),
{
    if s.get_char(4) != '-' || s.get_char(7) != '-' {
        return None;
    }
    let year = match four_digits_at(s, 0) {
        Some(v) => v,
        None => {
            return None;
        },
    };
    let month = match two_digits_at(s, 5) {
        Some(v) => v,
        None => {
            return None;
        },
    };
    let day = match two_digits_at(s, 8) {
        Some(v) => v,
        None => {
            return None;
        },
    };
    Date::new(year, month, day)
}

/// Parses a date in one of the formats `DD.MM.YYYY`, `YYYY-MM-DD` or
/// `DD/MM/YYYY`, tried in that order; any other string is rejected.
pub fn parse_date(s: &str) -> (r: Result<Date, TaskError>)
    ensures
        r matches Ok(d) ==> spec_parse_date(s@) == Some(d) && d.wf(),
        r is Err <==> spec_parse_date(s@) is None,
        r matches Err(e) ==> e == TaskError::InvalidDate,
{
    if s.unicode_len() != 10 {
        return Err(TaskError::InvalidDate);
    }
    if let Some(d) = try_dmy(s, '.') {
        return Ok(d);
    }
    if let Some(d) = try_ymd(s) {
        return Ok(d);
    }
    if let Some(d) = try_dmy(s, '/') {
        return Ok(d);
    }
    Err(TaskError::InvalidDate)
}

/// The `DD.MM.YYYY` rendering of a date.
pub open spec fn spec_render_display(d: Date) -> Seq<char> {
    spec_two_digits(d.day as int) + seq!['.'] + spec_two_digits(d.month as int) + seq!['.']
        + spec_four_digits(d.year as int)
}

/// The `YYYY-MM-DD` rendering of a date.
pub open spec fn spec_render_iso(d: Date) -> Seq<char> {
    spec_four_digits(d.year as int) + seq!['-'] + spec_two_digits(d.month as int) + seq!['-']
        + spec_two_digits(d.day as int)
}

/// Renders a date as `DD.MM.YYYY`.
pub fn format_date_display(d: &Date) -> (r: String)
    requires
        d.wf(),
    ensures
        r@ == spec_render_display(*d),
{
    let mut out = String::new();
    push_two_digits(&mut out, d.day);
    out.append(".");
    push_two_digits(&mut out, d.month);
    out.append(".");
    push_four_digits(&mut out, d.year);
    proof {
        reveal_strlit(".");
        assert(out@ =~= spec_render_display(*d));
    }
    out
}

/// Renders a date as `YYYY-MM-DD`.
pub fn format_date_iso(d: &Date) -> (r: String)
    requires
        d.wf(),
    ensures
        r@ == spec_render_iso(*d),
{
    let mut out = String::new();
    push_four_digits(&mut out, d.year);
    out.append("-");
    push_two_digits(&mut out, d.month);
    out.append("-");
    push_two_digits(&mut out, d.day);
    proof {
        reveal_strlit("-");
        assert(out@ =~= spec_render_iso(*d));
    }
    out
}

proof fn lemma_digit_char_val(x: int)
    requires
        0 <= x <= 9,
    ensures
        spec_is_digit(spec_digit_char(x)),
        spec_digit_val(spec_digit_char(x)) == x,
{
}

/// Rendering a valid date as `YYYY-MM-DD` and parsing it back yields
/// the same date.
#[verifier::rlimit(50)]
pub proof fn lemma_iso_round_trip(d: Date)
    requires
        d.wf(),
    ensures
        spec_parse_date(spec_render_iso(d)) == Some(d),
{
    let s = spec_render_iso(d);
    let y = d.year as int;
    let m = d.month as int;
    let dd = d.day as int;
    lemma_digit_char_val(y / 1000);
    lemma_digit_char_val(y / 100 % 10);
    lemma_digit_char_val(y / 10 % 10);
    lemma_digit_char_val(y % 10);
    lemma_digit_char_val(m / 10);
    lemma_digit_char_val(m % 10);
    lemma_digit_char_val(dd / 10);
    lemma_digit_char_val(dd % 10);
    assert(s.len() == 10);
    assert(s[4] == '-' && s[7] == '-');
    assert(spec_is_ymd(s));
    assert(!spec_is_dmy(s, '.'));
    assert(spec_num4(s, 0) == (y / 1000) * 1000 + (y / 100 % 10) * 100 + (y / 10 % 10) * 10 + y
        % 10);
    assert((y / 1000) * 1000 + (y / 100 % 10) * 100 + (y / 10 % 10) * 10 + y % 10 == y);
    assert(spec_num2(s, 5) == (m / 10) * 10 + m % 10);
    assert(spec_num2(s, 8) == (dd / 10) * 10 + dd % 10);
    assert(spec_ymd_date(s) == d);
}

/// Rendering a valid date as `DD.MM.YYYY` and parsing it back yields
/// the same date.
#[verifier::rlimit(50)]
pub proof fn lemma_display_round_trip(d: Date)
    requires
        d.wf(),
    ensures
        spec_parse_date(spec_render_display(d)) == Some(d),
{
    let s = spec_render_display(d);
    let y = d.year as int;
    let m = d.month as int;
    let dd = d.day as int;
    lemma_digit_char_val(y / 1000);
    lemma_digit_char_val(y / 100 % 10);
    lemma_digit_char_val(y / 10 % 10);
    lemma_digit_char_val(y % 10);
    lemma_digit_char_val(m / 10);
    lemma_digit_char_val(m % 10);
    lemma_digit_char_val(dd / 10);
    lemma_digit_char_val(dd % 10);
    assert(s.len() == 10);
    assert(s[2] == '.' && s[5] == '.');
    assert(spec_is_dmy(s, '.'));
    assert(spec_num4(s, 6) == (y / 1000) * 1000 + (y / 100 % 10) * 100 + (y / 10 % 10) * 10 + y
        % 10);
    assert((y / 1000) * 1000 + (y / 100 % 10) * 100 + (y / 10 % 10) * 10 + y % 10 == y);
    assert(spec_num2(s, 3) == (m / 10) * 10 + m % 10);
    assert(spec_num2(s, 0) == (dd / 10) * 10 + dd % 10);
    assert(spec_dmy_date(s) == d);
}

} // verus!
