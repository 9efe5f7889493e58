use vstd::prelude::*;

use chrono::{Datelike, Timelike};

use crate::decimal::{digit_char, digit_value, is_digit, lemma_digit_char};
use crate::error::Error;

verus! {

/// chrono's parse error, mapped to `DateTimeParseError`.
#[verifier::external_type_specification]
#[verifier::external_body]
pub struct ExChronoParseError(chrono::ParseError);

/// The earliest year a calendar date may have.
pub const MIN_YEAR: i32 = -262143;

/// The latest year a calendar date may have.
pub const MAX_YEAR: i32 = 262142;

/// A leap year of the proleptic Gregorian calendar.
pub open spec fn is_leap_year(y: int) -> bool {
    (y % 4 == 0 && y % 100 != 0) || y % 400 == 0
}

/// The number of days in a month of a year.
pub open spec fn days_in_month(y: int, m: int) -> int {
    if m == 2 {
        if is_leap_year(y) {
            29
        } else {
            28
        }
    } else if m == 4 || m == 6 || m == 9 || m == 11 {
        30
    } else {
        31
    }
}

/// A day of the proleptic Gregorian calendar.
#[derive(Debug, Clone, Copy, PartialEq, Eq, Structural)]
pub struct CalendarDate {
    pub year: i32,
    pub month: u32,
    pub day: u32,
}

impl CalendarDate {
    /// A date that exists in the calendar.
    pub open spec fn wf(self) -> bool {
        &&& MIN_YEAR <= self.year <= MAX_YEAR
        &&& 1 <= self.month <= 12
        &&& 1 <= self.day <= days_in_month(self.year as int, self.month as int)
    }
}

impl CalendarDate {
    /// Whether the date exists in the calendar.
    pub fn is_valid(&self) -> (r: bool)
        ensures
            r == self.wf(),
    {
        if self.year < MIN_YEAR || self.year > MAX_YEAR || self.month < 1 || self.month > 12
            || self.day < 1 {
            return false;
        }
        let leap = (self.year % 4 == 0 && self.year % 100 != 0) || self.year % 400 == 0;
        let days: u32 = if self.month == 2 {
            if leap {
                29
            } else {
                28
            }
        } else if self.month == 4 || self.month == 6 || self.month == 9 || self.month == 11 {
            30
        } else {
            31
        };
        self.day <= days
    }
}

/// A local date and time of day together with its offset from UTC.
#[derive(Debug, Clone, Copy, PartialEq, Eq, Structural)]
pub struct OffsetDateTime {
    pub date: CalendarDate,
    pub hour: u32,
    pub minute: u32,
    pub second: u32,
    /// Nanoseconds; from 1,000,000,000 up it marks a leap second.
    pub nanosecond: u32,
    /// Local time minus UTC, in seconds.
    pub offset_seconds: i32,
}

impl OffsetDateTime {
    /// A date-time that a four-digit RFC 3339 text can hold.
    pub open spec fn wf(self) -> bool {
        &&& self.date.wf()
        &&& 0 <= self.date.year <= 9999
        &&& self.hour < 24
        &&& self.minute < 60
        &&& self.second < 60
        &&& self.nanosecond < 2_000_000_000
        &&& (self.nanosecond >= 1_000_000_000 ==> self.second == 59)
        &&& -86400 < self.offset_seconds < 86400
    }
}

impl OffsetDateTime {
    /// Whether each part lies in its range.
    pub fn is_valid(&self) -> (r: bool)
        ensures
            r == self.wf(),
    {
        self.date.is_valid() && 0 <= self.date.year && self.date.year <= 9999 && self.hour < 24
            && self.minute < 60 && self.second < 60 && self.nanosecond < 2_000_000_000 && (
        self.nanosecond < 1_000_000_000 || self.second == 59) && -86400 < self.offset_seconds
            && self.offset_seconds < 86400
    }
}

/// The value of a `<lastmod>` element: a date, or a date-time with its
/// offset. A date-time also records whether its text had fractional seconds
/// and whether its zone was written `Z`, so that it is written back the same.
#[derive(Debug, Clone, Copy, PartialEq, Eq, Structural)]
pub enum W3CDateTime {
    DateTime(OffsetDateTime, bool, bool),
    Date(CalendarDate),
}

// ---------------------------------------------------------------------------
// The text forms

/// The number written by the two digits of `s` at `i`.
pub open spec fn num2(s: Seq<char>, i: int) -> int {
    10 * digit_value(s[i]) + digit_value(s[i + 1])
}

/// The number written by the three digits of `s` at `i`.
pub open spec fn num3(s: Seq<char>, i: int) -> int {
    100 * digit_value(s[i]) + 10 * digit_value(s[i + 1]) + digit_value(s[i + 2])
}

/// The number written by the four digits of `s` at `i`.
pub open spec fn num4(s: Seq<char>, i: int) -> int {
    1000 * digit_value(s[i]) + 100 * digit_value(s[i + 1]) + 10 * digit_value(s[i + 2])
        + digit_value(s[i + 3])
}

/// True when `s` has `k` digits from position `i` on.
pub open spec fn digits_at(s: Seq<char>, i: int, k: int) -> bool {
    forall|j: int| i <= j < i + k ==> #[trigger] is_digit(s[j])
}

/// The date that `YYYY-MM-DD` at the start of `s` writes.
pub open spec fn date_fields(s: Seq<char>) -> CalendarDate {
    CalendarDate { year: num4(s, 0) as i32, month: num2(s, 5) as u32, day: num2(s, 8) as u32 }
}

/// `s` starts with the shape `dddd-dd-dd`.
pub open spec fn date_shape(s: Seq<char>) -> bool {
    &&& s.len() >= 10
    &&& digits_at(s, 0, 4)
    &&& s[4] == '-'
    &&& digits_at(s, 5, 2)
    &&& s[7] == '-'
    &&& digits_at(s, 8, 2)
}

/// `s` starts with the shape `dddd-dd-ddThh:mm:ss`, the separator `T`, `t`
/// or a space.
pub open spec fn datetime_prefix_shape(s: Seq<char>) -> bool {
    &&& s.len() >= 19
    &&& date_shape(s)
    &&& (s[10] == 'T' || s[10] == 't' || s[10] == ' ')
    &&& digits_at(s, 11, 2)
    &&& s[13] == ':'
    &&& digits_at(s, 14, 2)
    &&& s[16] == ':'
    &&& digits_at(s, 17, 2)
}

/// A text that `DateTime::parse_from_rfc3339` refuses by its first 19
/// characters: too short to hold a zone, not of the shape
/// `dddd-dd-ddThh:mm:ss`, or a date or time that does not exist (a second
/// of 60 is a leap second).
pub open spec fn rfc3339_refused(s: Seq<char>) -> bool {
    s.len() <= 19 || !datetime_prefix_shape(s) || !date_fields(s).wf() || num2(s, 11) >= 24
        || num2(s, 14) >= 60 || num2(s, 17) > 60
}

/// `s` starts with `YYYY-MM-DD`, a date that exists.
pub open spec fn starts_with_date(s: Seq<char>) -> bool {
    &&& s.len() >= 10
    &&& digits_at(s, 0, 4)
    &&& s[4] == '-'
    &&& digits_at(s, 5, 2)
    &&& s[7] == '-'
    &&& digits_at(s, 8, 2)
    &&& date_fields(s).wf()
}

/// A well-formed date-only text: `YYYY-MM-DD`.
pub open spec fn is_date_text(s: Seq<char>) -> bool {
    s.len() == 10 && starts_with_date(s)
}

/// Whether a date-time text of this length has three fractional digits.
pub open spec fn has_fraction_len(n: int) -> bool {
    n == 24 || n == 29
}

/// Where the zone of a date-time text of this length starts.
pub open spec fn zone_start(n: int) -> int {
    if has_fraction_len(n) {
        23
    } else {
        19
    }
}

/// A well-formed offset date-time text:
/// `YYYY-MM-DDThh:mm:ss[.fff](Z|+hh:mm|-hh:mm)`, with an offset of zero
/// written `Z` or `+00:00`.
pub open spec fn is_datetime_text(s: Seq<char>) -> bool {
    let n = s.len() as int;
    let z = zone_start(n);
    &&& (n == 20 || n == 24 || n == 25 || n == 29)
    &&& starts_with_date(s)
    &&& s[10] == 'T'
    &&& digits_at(s, 11, 2)
    &&& s[13] == ':'
    &&& digits_at(s, 14, 2)
    &&& s[16] == ':'
    &&& digits_at(s, 17, 2)
    &&& num2(s, 11) < 24
    &&& num2(s, 14) < 60
    &&& num2(s, 17) < 60
    &&& (has_fraction_len(n) ==> s[19] == '.' && digits_at(s, 20, 3))
    &&& if n - z == 1 {
        s[z] == 'Z'
    } else {
        &&& (s[z] == '+' || s[z] == '-')
        &&& digits_at(s, z + 1, 2)
        &&& s[z + 3] == ':'
        &&& digits_at(s, z + 4, 2)
        &&& num2(s, z + 1) < 24
        &&& num2(s, z + 4) < 60
        &&& !(s[z] == '-' && num2(s, z + 1) == 0 && num2(s, z + 4) == 0)
    }
}

/// The date-time that a well-formed date-time text writes.
pub open spec fn datetime_fields(s: Seq<char>) -> OffsetDateTime {
    let n = s.len() as int;
    let z = zone_start(n);
    let offset = if n - z == 1 {
        0
    } else {
        let size = num2(s, z + 1) * 3600 + num2(s, z + 4) * 60;
        if s[z] == '-' {
            -size
        } else {
            size
        }
    };
    OffsetDateTime {
        date: date_fields(s),
        hour: num2(s, 11) as u32,
        minute: num2(s, 14) as u32,
        second: num2(s, 17) as u32,
        nanosecond: if has_fraction_len(n) {
            (num3(s, 20) * 1_000_000) as u32
        } else {
            0
        },
        offset_seconds: offset as i32,
    }
}

/// A number from 0 to 99 written with two digits.
pub open spec fn two(n: int) -> Seq<char> {
    seq![digit_char(n / 10), digit_char(n % 10)]
}

/// A number from 0 to 999 written with three digits.
pub open spec fn three(n: int) -> Seq<char> {
    seq![digit_char(n / 100), digit_char(n / 10 % 10), digit_char(n % 10)]
}

/// A number from 0 to 9999 written with four digits.
pub open spec fn four(n: int) -> Seq<char> {
    seq![digit_char(n / 1000), digit_char(n / 100 % 10), digit_char(n / 10 % 10), digit_char(n % 10)]
}

/// A date written `YYYY-MM-DD`.
pub open spec fn date_text(d: CalendarDate) -> Seq<char> {
    four(d.year as int) + seq!['-'] + two(d.month as int) + seq!['-'] + two(d.day as int)
}

/// An offset written `Z` (when allowed and zero) or `+hh:mm` / `-hh:mm`.
pub open spec fn offset_text(offset: int, use_z: bool) -> Seq<char> {
    if use_z && offset == 0 {
        seq!['Z']
    } else {
        let minutes = (if offset < 0 {
            -offset
        } else {
            offset
        }) / 60;
        seq![if offset < 0 { '-' } else { '+' }] + two(minutes / 60) + seq![':'] + two(minutes % 60)
    }
}

/// A date-time written in RFC 3339 form, with milliseconds when `millis`
/// holds and with `Z` for a zero offset when `use_z` holds.
pub open spec fn rfc3339_text(t: OffsetDateTime, millis: bool, use_z: bool) -> Seq<char> {
    date_text(t.date) + seq!['T'] + two(t.hour as int) + seq![':'] + two(t.minute as int) + seq![
        ':',
    ] + two(t.second as int) + (if millis {
        seq!['.'] + three(t.nanosecond as int / 1_000_000)
    } else {
        Seq::empty()
    }) + offset_text(t.offset_seconds as int, use_z)
}

// ---------------------------------------------------------------------------
// chrono

/// What `NaiveDate::from_str` reads from a text that is not `YYYY-MM-DD`.
pub uninterp spec fn parsed_date(s: Seq<char>) -> Option<CalendarDate>;

/// What `DateTime::parse_from_rfc3339` reads from a text that is not in the
/// well-formed shape.
pub uninterp spec fn parsed_rfc3339(s: Seq<char>) -> Option<OffsetDateTime>;

/// What `NaiveDate::format` writes for a date whose year has no four digits.
pub uninterp spec fn formatted_date(d: CalendarDate) -> Seq<char>;

/// What `DateTime::to_rfc3339_opts` writes for a leap second or an offset
/// that is not whole minutes.
pub uninterp spec fn formatted_rfc3339(t: OffsetDateTime, millis: bool, use_z: bool) -> Seq<char>;

/// The date that `NaiveDate::from_str` reads from a text.
pub open spec fn date_read(s: Seq<char>) -> Option<CalendarDate> {
    if is_date_text(s) {
        Some(date_fields(s))
    } else if s.len() == 10 && date_shape(s) {
        None
    } else {
        match parsed_date(s) {
            Some(d) => if d.wf() {
                Some(d)
            } else {
                None
            },
            None => None,
        }
    }
}

/// The date-time that `DateTime::parse_from_rfc3339` reads from a text.
pub open spec fn datetime_read(s: Seq<char>) -> Option<OffsetDateTime> {
    if is_datetime_text(s) {
        Some(datetime_fields(s))
    } else if rfc3339_refused(s) {
        None
    } else {
        match parsed_rfc3339(s) {
            Some(t) => if t.wf() {
                Some(t)
            } else {
                None
            },
            None => None,
        }
    }
}

/// The text that `NaiveDate::format("%Y-%m-%d")` writes for a date.
pub open spec fn date_written(d: CalendarDate) -> Seq<char> {
    if 0 <= d.year <= 9999 {
        date_text(d)
    } else {
        formatted_date(d)
    }
}

/// The text that `DateTime::to_rfc3339_opts` writes for a date-time.
pub open spec fn datetime_written(t: OffsetDateTime, millis: bool, use_z: bool) -> Seq<char> {
    if t.nanosecond < 1_000_000_000 && t.offset_seconds % 60 == 0 {
        rfc3339_text(t, millis, use_z)
    } else {
        formatted_rfc3339(t, millis, use_z)
    }
}

/// Relies on `NaiveDate::from_str` (`%Y-%m-%d`): the result depends on the
/// text alone and is a date that exists; the text `YYYY-MM-DD` gives the
/// date it writes, or an error when that date does not exist.
#[verifier::external_body]
fn chrono_parse_date(s: &str) -> (r: Result<CalendarDate, chrono::ParseError>)
    ensures
        is_date_text(s@) ==> r is Ok && r->Ok_0 == date_fields(s@),
        s@.len() == 10 && date_shape(s@) && !is_date_text(s@) ==> r is Err,
        !(s@.len() == 10 && date_shape(s@)) ==> (r is Ok <==> parsed_date(s@) is Some),
        !(s@.len() == 10 && date_shape(s@)) && r is Ok ==> parsed_date(s@) == Some(r->Ok_0),
        r is Ok ==> r->Ok_0.wf(),
{
    match s.parse::<chrono::NaiveDate>() {
        Ok(d) => Ok(CalendarDate { year: d.year(), month: d.month(), day: d.day() }),
        Err(e) => Err(e),
    }
}

/// Relies on `DateTime::parse_from_rfc3339`: the result depends on the text
/// alone, has a four-digit year, a valid time and an offset under a day;
/// a well-formed text gives the date, time and offset it writes, and a text
/// refused by its first 19 characters gives an error.
#[verifier::external_body]
fn chrono_parse_rfc3339(s: &str) -> (r: Result<OffsetDateTime, chrono::ParseError>)
    ensures
        is_datetime_text(s@) ==> r is Ok && r->Ok_0 == datetime_fields(s@),
        rfc3339_refused(s@) ==> r is Err,
        !is_datetime_text(s@) && !rfc3339_refused(s@) ==> (r is Ok <==> parsed_rfc3339(s@) is Some),
        !is_datetime_text(s@) && !rfc3339_refused(s@) && r is Ok ==> parsed_rfc3339(s@) == Some(
            r->Ok_0,
        ),
        r is Ok ==> r->Ok_0.wf(),
{
    match chrono::DateTime::parse_from_rfc3339(s) {
        Ok(t) => Ok(OffsetDateTime {
            date: CalendarDate { year: t.year(), month: t.month(), day: t.day() },
            hour: t.hour(),
            minute: t.minute(),
            second: t.second(),
            nanosecond: t.nanosecond(),
            offset_seconds: t.offset().local_minus_utc(),
        }),
        Err(e) => Err(e),
    }
}

/// Relies on `NaiveDate::format` with `%Y-%m-%d`: the text depends on the
/// date alone; a year from 0 to 9999 is written with four digits, the month
/// and the day with two.
#[verifier::external_body]
fn chrono_format_date(d: CalendarDate) -> (r: String)
    requires
        d.wf(),
    ensures
        r@ == (if 0 <= d.year <= 9999 {
            date_text(d)
        } else {
            formatted_date(d)
        }),
{
    chrono::NaiveDate::from_ymd_opt(d.year, d.month, d.day).unwrap().format("%Y-%m-%d").to_string()
}

/// Relies on `DateTime::to_rfc3339_opts` with `Millis` or `Secs`: the text
/// depends on its arguments alone; outside a leap second and with an offset
/// of whole minutes it is `rfc3339_text`, with `Z` for a zero offset when
/// `use_z` holds.
#[verifier::external_body]
fn chrono_format_rfc3339(t: OffsetDateTime, millis: bool, use_z: bool) -> (r: String)
    requires
        t.wf(),
    ensures
        r@ == (if t.nanosecond < 1_000_000_000 && t.offset_seconds % 60 == 0 {
            rfc3339_text(t, millis, use_z)
        } else {
            formatted_rfc3339(t, millis, use_z)
        }),
{
    let date = chrono::NaiveDate::from_ymd_opt(t.date.year, t.date.month, t.date.day).unwrap();
    let local = date.and_hms_nano_opt(t.hour, t.minute, t.second, t.nanosecond).unwrap();
    let offset = chrono::FixedOffset::east_opt(t.offset_seconds).unwrap();
    let form = if millis { chrono::SecondsFormat::Millis } else { chrono::SecondsFormat::Secs };
    local.and_local_timezone(offset).unwrap().to_rfc3339_opts(form, use_z)
}

// ---------------------------------------------------------------------------
// Reading and writing

/// True when the text has a `.`, which marks fractional seconds.
pub open spec fn has_point(s: Seq<char>) -> bool {
    s.contains('.')
}

/// True when the text ends with the zone designator `Z` or `z`.
pub open spec fn ends_with_z(s: Seq<char>) -> bool {
    s.len() > 0 && (s.last() == 'Z' || s.last() == 'z')
}

/// What `str::trim` gives for a text that does not start and end with an
/// ASCII letter or digit.
pub uninterp spec fn trimmed_of(s: Seq<char>) -> Seq<char>;

/// An ASCII letter or digit.
pub open spec fn is_ascii_alnum(c: char) -> bool {
    ('0' <= c <= '9') || ('a' <= c <= 'z') || ('A' <= c <= 'Z')
}

/// A text with its leading and trailing whitespace removed.
pub open spec fn trim_spec(s: Seq<char>) -> Seq<char> {
    if s.len() == 0 || (is_ascii_alnum(s[0]) && is_ascii_alnum(s.last())) {
        s
    } else {
        trimmed_of(s)
    }
}

/// Relies on `str::trim`: the result depends on the text alone, and a text
/// that is empty or starts and ends with an ASCII letter or digit is its own
/// trimmed form.
#[verifier::external_body]
fn trim(s: &str) -> (r: &str)
    ensures
        r@ == (if s@.len() == 0 || (is_ascii_alnum(s@[0]) && is_ascii_alnum(s@.last())) {
            s@
        } else {
            trimmed_of(s@)
        }),
{
    s.trim()
}

/// What `W3CDateTime::new` gives for a text: its trimmed form read as a
/// date when it has ten characters, as an offset date-time otherwise.
pub open spec fn w3c_of(s: Seq<char>) -> Result<W3CDateTime, Error> {
    w3c_of_trimmed(trim_spec(s))
}

/// A well-formed text is its own trimmed form.
pub proof fn lemma_trim_well_formed(s: Seq<char>)
    requires
        is_date_text(s) || is_datetime_text(s),
    ensures
        trim_spec(s) == s,
{
    assert(is_digit(s[0]));
    if is_date_text(s) {
        assert(is_digit(s[9]));
    } else {
        let n = s.len() as int;
        let z = zone_start(n);
        if n - z != 1 {
            assert(is_digit(s[z + 5]));
        }
    }
}

/// What reading a trimmed text gives: a date for ten characters, an offset
/// date-time otherwise.
pub open spec fn w3c_of_trimmed(s: Seq<char>) -> Result<W3CDateTime, Error> {
    if s.len() == 10 {
        match date_read(s) {
            Some(d) => Ok(W3CDateTime::Date(d)),
            None => Err(Error::DateTimeParseError),
        }
    } else {
        match datetime_read(s) {
            Some(t) => Ok(W3CDateTime::DateTime(t, has_point(s), ends_with_z(s))),
            None => Err(Error::DateTimeParseError),
        }
    }
}

/// The text that `W3CDateTime::to_string` writes.
pub open spec fn w3c_written(w: W3CDateTime) -> Seq<char> {
    match w {
        W3CDateTime::Date(d) => date_written(d),
        W3CDateTime::DateTime(t, millis, use_z) => datetime_written(t, millis, use_z),
    }
}

/// The text of a date or date-time in its well-formed shape.
pub open spec fn w3c_text(w: W3CDateTime) -> Seq<char> {
    match w {
        W3CDateTime::Date(d) => date_text(d),
        W3CDateTime::DateTime(t, millis, use_z) => rfc3339_text(t, millis, use_z),
    }
}

impl W3CDateTime {
    /// Each part lies in its range.
    pub open spec fn wf(self) -> bool {
        match self {
            W3CDateTime::Date(d) => d.wf(),
            W3CDateTime::DateTime(t, _, _) => t.wf(),
        }
    }

    /// A value that `to_string` writes as `w3c_text` says: a four-digit
    /// year, no leap second, an offset of whole minutes.
    pub open spec fn is_plain(self) -> bool {
        match self {
            W3CDateTime::Date(d) => 0 <= d.year <= 9999,
            W3CDateTime::DateTime(t, _, _) => t.nanosecond < 1_000_000_000 && t.offset_seconds % 60
                == 0,
        }
    }

    /// Whether each part lies in its range.
    pub fn is_valid(&self) -> (r: bool)
        ensures
            r == self.wf(),
    {
        match self {
            W3CDateTime::Date(d) => d.is_valid(),
            W3CDateTime::DateTime(t, _, _) => t.is_valid(),
        }
    }

    /// Reads a date (`YYYY-MM-DD`) or an offset date-time in RFC 3339 form,
    /// ignoring whitespace around it.
    pub fn new(string: &str) -> (r: Result<W3CDateTime, Error>)
        ensures
            r == w3c_of(string@),
            r matches Ok(w) ==> w.wf(),
            is_date_text(string@) ==> r is Ok && r->Ok_0 == W3CDateTime::Date(date_fields(string@)),
            is_datetime_text(string@) ==> r is Ok && r->Ok_0 == W3CDateTime::DateTime(
                datetime_fields(string@),
                has_point(string@),
                ends_with_z(string@),
            ),
    {
        proof {
            if is_date_text(string@) || is_datetime_text(string@) {
                lemma_trim_well_formed(string@);
            }
        }
        let string = trim(string);
        let len = string.unicode_len();
        if len == 10 {
            match chrono_parse_date(string) {
                Ok(d) => Ok(W3CDateTime::Date(d)),
                Err(_) => Err(Error::DateTimeParseError),
            }
        } else {
            match chrono_parse_rfc3339(string) {
                Ok(t) => {
                    let fractional = contains_point(string);
                    let use_z = len > 0 && {
                        let c = string.get_char(len - 1);
                        c == 'Z' || c == 'z'
                    };
                    Ok(W3CDateTime::DateTime(t, fractional, use_z))
                },
                Err(_) => Err(Error::DateTimeParseError),
            }
        }
    }

    /// The text of the value: `YYYY-MM-DD` for a date; for a date-time,
    /// RFC 3339 with milliseconds if the source had fractional seconds and
    /// `Z` for a zero offset if the source wrote `Z`.
    pub fn to_string(&self) -> (r: String)
        requires
            self.wf(),
        ensures
            r@ == w3c_written(*self),
            self.is_plain() ==> r@ == w3c_text(*self),
    {
        match self {
            W3CDateTime::Date(d) => chrono_format_date(*d),
            W3CDateTime::DateTime(t, millis, use_z) => chrono_format_rfc3339(*t, *millis, *use_z),
        }
    }
}

// ---------------------------------------------------------------------------
// Round trips

proof fn lemma_two(s: Seq<char>, i: int)
    requires
        0 <= i,
        i + 2 <= s.len(),
        digits_at(s, i, 2),
    ensures
        two(num2(s, i)) == s.subrange(i, i + 2),
        0 <= num2(s, i) <= 99,
{
    let a = digit_value(s[i]);
    let b = digit_value(s[i + 1]);
    assert(is_digit(s[i]) && is_digit(s[i + 1]));
    lemma_digit_char(s[i]);
    lemma_digit_char(s[i + 1]);
    assert((10 * a + b) / 10 == a && (10 * a + b) % 10 == b) by (nonlinear_arith)
        requires
            0 <= a <= 9,
            0 <= b <= 9,
    ;
    assert(two(num2(s, i)) =~= s.subrange(i, i + 2));
}

proof fn lemma_three(s: Seq<char>, i: int)
    requires
        0 <= i,
        i + 3 <= s.len(),
        digits_at(s, i, 3),
    ensures
        three(num3(s, i)) == s.subrange(i, i + 3),
        0 <= num3(s, i) <= 999,
{
    let a = digit_value(s[i]);
    let b = digit_value(s[i + 1]);
    let c = digit_value(s[i + 2]);
    assert(is_digit(s[i]) && is_digit(s[i + 1]) && is_digit(s[i + 2]));
    lemma_digit_char(s[i]);
    lemma_digit_char(s[i + 1]);
    lemma_digit_char(s[i + 2]);
    let n = 100 * a + 10 * b + c;
    assert(n / 100 == a && n / 10 % 10 == b && n % 10 == c) by (nonlinear_arith)
        requires
            0 <= a <= 9,
            0 <= b <= 9,
            0 <= c <= 9,
            n == 100 * a + 10 * b + c,
    ;
    assert(three(num3(s, i)) =~= s.subrange(i, i + 3));
}

proof fn lemma_four(s: Seq<char>, i: int)
    requires
        0 <= i,
        i + 4 <= s.len(),
        digits_at(s, i, 4),
    ensures
        four(num4(s, i)) == s.subrange(i, i + 4),
        0 <= num4(s, i) <= 9999,
{
    let a = digit_value(s[i]);
    let b = digit_value(s[i + 1]);
    let c = digit_value(s[i + 2]);
    let d = digit_value(s[i + 3]);
    assert(is_digit(s[i]) && is_digit(s[i + 1]) && is_digit(s[i + 2]) && is_digit(s[i + 3]));
    lemma_digit_char(s[i]);
    lemma_digit_char(s[i + 1]);
    lemma_digit_char(s[i + 2]);
    lemma_digit_char(s[i + 3]);
    let n = 1000 * a + 100 * b + 10 * c + d;
    assert(n / 1000 == a && n / 100 % 10 == b && n / 10 % 10 == c && n % 10 == d)
        by (nonlinear_arith)
        requires
            0 <= a <= 9,
            0 <= b <= 9,
            0 <= c <= 9,
            0 <= d <= 9,
            n == 1000 * a + 100 * b + 10 * c + d,
    ;
    assert(four(num4(s, i)) =~= s.subrange(i, i + 4));
}

proof fn lemma_date_part(s: Seq<char>)
    requires
        starts_with_date(s),
    ensures
        date_text(date_fields(s)) == s.subrange(0, 10),
        0 <= date_fields(s).year <= 9999,
{
    lemma_four(s, 0);
    lemma_two(s, 5);
    lemma_two(s, 8);
    assert(date_text(date_fields(s)) =~= s.subrange(0, 10));
}

/// The date-time that a well-formed text writes lies in range.
pub proof fn lemma_datetime_fields_wf(s: Seq<char>)
    requires
        is_datetime_text(s),
    ensures
        datetime_fields(s).wf(),
{
    let n = s.len() as int;
    let z = zone_start(n);
    lemma_date_part(s);
    lemma_two(s, 11);
    lemma_two(s, 14);
    lemma_two(s, 17);
    if has_fraction_len(n) {
        lemma_three(s, 20);
    }
    if n - z != 1 {
        lemma_two(s, z + 1);
        lemma_two(s, z + 4);
    }
}

/// A well-formed date-time text is never one that chrono refuses by its
/// first 19 characters, so the two promises about them agree.
pub proof fn lemma_well_formed_not_refused(s: Seq<char>)
    requires
        is_datetime_text(s),
    ensures
        !rfc3339_refused(s),
{
}

/// A date or date-time read from a text lies in range.
pub proof fn lemma_w3c_of_wf(s: Seq<char>)
    ensures
        w3c_of(s) matches Ok(w) ==> w.wf(),
{
    let t = trim_spec(s);
    if is_datetime_text(t) {
        lemma_datetime_fields_wf(t);
    }
}

/// Writing the date read from a well-formed `YYYY-MM-DD` text gives back
/// that text.
pub proof fn lemma_date_round_trip(s: Seq<char>)
    requires
        is_date_text(s),
    ensures
        W3CDateTime::Date(date_fields(s)).is_plain(),
        w3c_text(W3CDateTime::Date(date_fields(s))) == s,
{
    lemma_date_part(s);
    assert(s.subrange(0, 10) =~= s);
}

/// Writing the date-time read from a well-formed offset date-time text, with
/// the fractional-second and `Z` marks read from that text, gives back that
/// text.
pub proof fn lemma_datetime_round_trip(s: Seq<char>)
    requires
        is_datetime_text(s),
    ensures
        W3CDateTime::DateTime(datetime_fields(s), has_point(s), ends_with_z(s)).is_plain(),
        w3c_text(W3CDateTime::DateTime(datetime_fields(s), has_point(s), ends_with_z(s))) == s,
{
    let n = s.len() as int;
    let z = zone_start(n);
    let t = datetime_fields(s);
    let millis = has_fraction_len(n);
    lemma_date_part(s);
    lemma_two(s, 11);
    lemma_two(s, 14);
    lemma_two(s, 17);
    // The only point is the one before the fraction.
    if millis {
        assert(s[19] == '.');
        assert(has_point(s));
    } else {
        assert forall|j: int| 0 <= j < n implies s[j] != '.' by {
            if 11 <= j < 13 {
                assert(is_digit(s[j]));
            } else if 14 <= j < 16 {
                assert(is_digit(s[j]));
            } else if 17 <= j < 19 {
                assert(is_digit(s[j]));
            } else if 0 <= j < 4 {
                assert(is_digit(s[j]));
            } else if 5 <= j < 7 {
                assert(is_digit(s[j]));
            } else if 8 <= j < 10 {
                assert(is_digit(s[j]));
            } else if j >= z + 1 && n - z > 1 {
                if z + 1 <= j < z + 3 {
                    assert(is_digit(s[j]));
                } else if z + 4 <= j < z + 6 {
                    assert(is_digit(s[j]));
                }
            }
        }
        assert(!has_point(s));
    }
    let frac_text = if millis {
        seq!['.'] + three(t.nanosecond as int / 1_000_000)
    } else {
        Seq::empty()
    };
    if millis {
        lemma_three(s, 20);
        assert(t.nanosecond as int / 1_000_000 == num3(s, 20));
        assert(frac_text =~= s.subrange(19, 23));
    } else {
        assert(frac_text =~= s.subrange(19, 19));
    }
    let use_z = ends_with_z(s);
    let zone = offset_text(t.offset_seconds as int, use_z);
    if n - z == 1 {
        assert(use_z);
        assert(zone =~= s.subrange(z, n));
    } else {
        lemma_two(s, z + 1);
        lemma_two(s, z + 4);
        let hh = num2(s, z + 1);
        let mm = num2(s, z + 4);
        let size = hh * 3600 + mm * 60;
        assert(size / 60 == hh * 60 + mm && (hh * 60 + mm) / 60 == hh && (hh * 60 + mm) % 60 == mm)
            by (nonlinear_arith)
            requires
                0 <= hh < 24,
                0 <= mm < 60,
                size == hh * 3600 + mm * 60,
        ;
        assert(s.last() == s[z + 5]);
        assert(!use_z);
        assert(zone =~= s.subrange(z, n));
    }
    assert(t.offset_seconds % 60 == 0) by {
        if n - z != 1 {
            let hh = num2(s, z + 1);
            let mm = num2(s, z + 4);
            assert((hh * 3600 + mm * 60) % 60 == 0 && (-(hh * 3600 + mm * 60)) % 60 == 0)
                by (nonlinear_arith)
                requires
                    0 <= hh < 24,
                    0 <= mm < 60,
            ;
        }
    }
    assert(t.nanosecond < 1_000_000_000);
    assert(s =~= s.subrange(0, 10) + seq!['T'] + s.subrange(11, 13) + seq![':'] + s.subrange(14, 16)
        + seq![':'] + s.subrange(17, 19) + s.subrange(19, z) + s.subrange(z, n));
    assert(rfc3339_text(t, millis, use_z) =~= s);
}

/// True when the text has a `.`.
fn contains_point(s: &str) -> (r: bool)
    ensures
        r == has_point(s@),
{
    let len = s.unicode_len();
    let mut i: usize = 0;
    while i < len
        invariant
            len == s@.len(),
            i <= len,
            forall|j: int| 0 <= j < i ==> s@[j] != '.',
        decreases len - i,
    {
        if s.get_char(i) == '.' {
            return true;
        }
        i = i + 1;
    }
    false
}

} // verus!
