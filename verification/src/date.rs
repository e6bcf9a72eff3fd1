//! Calendar days: reading them from timestamps and from `YYYY-MM-DD` texts,
//! writing them back, and counting the days between two of them.
//!
//! Reading and writing is done by the `time` crate; this module states what
//! the library relies on and builds the date logic on top of it.

use crate::error::CrawlError;
use vstd::prelude::*;

verus! {

/// A year, a month and a day of the month, as numbers.
pub ghost struct DayView {
    pub year: int,
    pub month: int,
    pub day: int,
}

/// Whether `year` has a 29th of February in the proleptic Gregorian calendar.
pub open spec fn is_leap_year(year: int) -> bool {
    year % 4 == 0 && (year % 100 != 0 || year % 400 == 0)
}

/// The number of days of `month` in `year`.
pub open spec fn days_in_month(year: int, month: int) -> int {
    if month == 2 {
        if is_leap_year(year) {
            29
        } else {
            28
        }
    } else if month == 4 || month == 6 || month == 9 || month == 11 {
        30
    } else {
        31
    }
}

/// Whether the three numbers name a day of the proleptic Gregorian calendar
/// in the years from -9999 to 9999.
pub open spec fn is_calendar_date(date: DayView) -> bool {
    &&& -9999 <= date.year <= 9999
    &&& 1 <= date.month <= 12
    &&& 1 <= date.day <= days_in_month(date.year, date.month)
}

/// The character for the decimal digit `value`.
pub open spec fn digit_char(value: int) -> char {
    (value + 48) as char
}

/// Whether `c` is one of the characters `0` to `9`.
pub open spec fn is_digit(c: char) -> bool {
    48 <= c as int <= 57
}

/// The number that the decimal digits of `text` write, read from the left.
pub open spec fn digits_value(text: Seq<char>) -> int
    decreases text.len(),
{
    if text.len() == 0 {
        0
    } else {
        10 * digits_value(text.drop_last()) + (text.last() as int - 48)
    }
}

/// Whether every character of `text` is a decimal digit.
pub open spec fn all_digits(text: Seq<char>) -> bool {
    forall|i: int| 0 <= i < text.len() ==> is_digit(#[trigger] text[i])
}

/// `value` written with exactly two decimal digits.
pub open spec fn two_digits(value: int) -> Seq<char> {
    seq![digit_char(value / 10), digit_char(value % 10)]
}

/// `value` written with exactly four decimal digits.
pub open spec fn four_digits(value: int) -> Seq<char> {
    seq![
        digit_char(value / 1000),
        digit_char(value / 100 % 10),
        digit_char(value / 10 % 10),
        digit_char(value % 10),
    ]
}

/// A day written as `YYYY-MM-DD`: the year with four digits, after a minus
/// sign when it is negative, then the month and the day with two digits each.
pub open spec fn ymd_text(date: DayView) -> Seq<char> {
    let sign = if date.year < 0 {
        seq!['-']
    } else {
        Seq::<char>::empty()
    };
    let magnitude = if date.year < 0 {
        -date.year
    } else {
        date.year
    };
    sign + four_digits(magnitude) + seq!['-'] + two_digits(date.month) + seq!['-'] + two_digits(
        date.day,
    )
}

/// The day that a text of the form `YYYY-MM-DD` names, if it names one.
///
/// The text may start with one sign, `+` or `-`. After it come exactly four
/// digits, a hyphen, two digits, a hyphen and two digits, and nothing else.
/// The numbers must name a day of the calendar.
pub open spec fn ymd_parse(text: Seq<char>) -> Option<DayView> {
    let signed = text.len() > 0 && (text[0] == '-' || text[0] == '+');
    let body = if signed {
        text.skip(1)
    } else {
        text
    };
    if body.len() == 10 && all_digits(body.subrange(0, 4)) && body[4] == '-' && all_digits(
        body.subrange(5, 7),
    ) && body[7] == '-' && all_digits(body.subrange(8, 10)) {
        let magnitude = digits_value(body.subrange(0, 4));
        let date = DayView {
            year: if signed && text[0] == '-' {
                -magnitude
            } else {
                magnitude
            },
            month: digits_value(body.subrange(5, 7)),
            day: digits_value(body.subrange(8, 10)),
        };
        if is_calendar_date(date) {
            Some(date)
        } else {
            None
        }
    } else {
        None
    }
}

/// The calendar day of an ISO 8601 timestamp, in the timestamp's own offset
/// from UTC, or `None` for a text that is no such timestamp: what the `time`
/// crate reads from the text with its default ISO 8601 configuration.
pub uninterp spec fn iso8601_day(text: Seq<char>) -> Option<DayView>;

/// The Julian day number of a calendar day, as the `time` crate counts it.
pub uninterp spec fn julian_day(date: DayView) -> int;

/// A day of the proleptic Gregorian calendar.
#[derive(Debug, Clone, Copy, PartialEq, Eq)]
pub struct CalendarDay {
    year: i32,
    month: u8,
    day: u8,
}

impl View for CalendarDay {
    type V = DayView;

    closed spec fn view(&self) -> DayView {
        DayView { year: self.year as int, month: self.month as int, day: self.day as int }
    }
}

#[verifier::external_type_specification]
#[verifier::external_body]
pub struct ExParseError(time::error::Parse);

/// `time::OffsetDateTime::parse` with `Iso8601::DEFAULT`. The year, month and
/// day of the parsed value, which are those of the timestamp in its own
/// offset, are the named result [`iso8601_day`]; a text that `time` rejects
/// has none. A parsed value is always a day of the calendar.
#[verifier::external_body]
fn time_parse_iso8601(text: &str) -> (parsed: Result<CalendarDay, time::error::Parse>)
    ensures
        parsed matches Ok(date) ==> iso8601_day(text@) == Some(date@) && is_calendar_date(date@),
        parsed is Err ==> iso8601_day(text@) is None,
{
    let format = time::format_description::well_known::Iso8601::DEFAULT;
    match time::OffsetDateTime::parse(text, &format) {
        Ok(moment) => Ok(
            CalendarDay { year: moment.year(), month: u8::from(moment.month()), day: moment.day() },
        ),
        Err(error) => Err(error),
    }
}

/// `time::Date::format` with the description `[year]-[month]-[day]`: the year
/// as four zero-padded digits, preceded by `-` when negative, then the month
/// and the day as two zero-padded digits each, joined by hyphens.
#[verifier::external_body]
fn time_format_ymd(date: CalendarDay) -> (text: String)
    requires
        is_calendar_date(date@),
    ensures
        text@ == ymd_text(date@),
{
    let format = time::format_description::parse_borrowed::<2>("[year]-[month]-[day]").unwrap();
    let month = time::Month::try_from(date.month).unwrap();
    time::Date::from_calendar_date(date.year, month, date.day).unwrap().format(&format).unwrap()
}

/// `time::Date::parse` with the description `[year repr:full]-[month]-[day]`:
/// an optional sign, four digits, a hyphen, two digits, a hyphen, two digits
/// and the end of the text, naming a day of the calendar.
#[verifier::external_body]
fn time_parse_ymd(text: &str) -> (parsed: Result<CalendarDay, time::error::Parse>)
    ensures
        parsed matches Ok(date) ==> ymd_parse(text@) == Some(date@) && is_calendar_date(date@),
        parsed is Err ==> ymd_parse(text@) is None,
{
    let format = time::format_description::parse_borrowed::<2>(
        "[year repr:full]-[month]-[day]",
    ).unwrap();
    match time::Date::parse(text, &format) {
        Ok(date) => Ok(
            CalendarDay { year: date.year(), month: u8::from(date.month()), day: date.day() },
        ),
        Err(error) => Err(error),
    }
}

/// `time::Date::to_julian_day`, named [`julian_day`].
#[verifier::external_body]
fn time_julian_day(date: CalendarDay) -> (number: i32)
    requires
        is_calendar_date(date@),
    ensures
        number == julian_day(date@),
{
    let month = time::Month::try_from(date.month).unwrap();
    time::Date::from_calendar_date(date.year, month, date.day).unwrap().to_julian_day()
}

/// `time::OffsetDateTime::now_utc`, of which the calendar day is kept. Which
/// day that is depends on the clock; it is always a day of the calendar.
#[verifier::external_body]
fn time_today_utc() -> (today: CalendarDay)
    ensures
        is_calendar_date(today@),
{
    let now = time::OffsetDateTime::now_utc();
    CalendarDay { year: now.year(), month: u8::from(now.month()), day: now.day() }
}

/// The first second that `time` can name: midnight of 1 January -9999 in
/// UTC, counted from the Unix epoch.
pub const MIN_UNIX_TIMESTAMP: i64 = -377_705_116_800;

/// The last second that `time` can name: the end of 31 December 9999 in UTC,
/// counted from the Unix epoch.
pub const MAX_UNIX_TIMESTAMP: i64 = 253_402_300_799;

/// `time::OffsetDateTime::from_unix_timestamp`, of which only the success is
/// kept: it accepts exactly the seconds of the years -9999 to 9999 in UTC.
#[verifier::external_body]
pub(crate) fn time_accepts_timestamp(seconds: i64) -> (accepted: bool)
    ensures
        accepted == (MIN_UNIX_TIMESTAMP <= seconds <= MAX_UNIX_TIMESTAMP),
{
    time::OffsetDateTime::from_unix_timestamp(seconds).is_ok()
}

/// `time::OffsetDateTime::now_utc`, of which the whole seconds since the Unix
/// epoch are kept. The value depends on the clock; nothing is promised of it.
#[verifier::external_body]
pub(crate) fn time_unix_now() -> (seconds: i64) {
    time::OffsetDateTime::now_utc().unix_timestamp()
}

impl CalendarDay {
    #[verifier::type_invariant]
    spec fn well_formed(self) -> bool {
        is_calendar_date(self@)
    }

    /// The day with the given year, month and day of the month, if the
    /// calendar has such a day in the years from -9999 to 9999.
    pub fn new(year: i32, month: u8, day: u8) -> (made: Option<CalendarDay>)
        ensures
            ({
                let wanted = DayView { year: year as int, month: month as int, day: day as int };
                if is_calendar_date(wanted) {
                    made matches Some(date) && date@ == wanted
                } else {
                    made is None
                }
            }),
    {
        if year < -9999 || year > 9999 || month < 1 || month > 12 || day < 1 {
            return None;
        }
        // Shifted by a multiple of 400, so that the remainders are those of `year`.
        let shifted: u32 = (year + 10000) as u32;
        let leap = shifted % 4 == 0 && (shifted % 100 != 0 || shifted % 400 == 0);
        assert(leap == is_leap_year(year as int));
        let length: u8 = if month == 2 {
            if leap {
                29
            } else {
                28
            }
        } else if month == 4 || month == 6 || month == 9 || month == 11 {
            30
        } else {
            31
        };
        if day > length {
            return None;
        }
        Some(CalendarDay { year, month, day })
    }

    /// The year.
    pub fn year(&self) -> (year: i32)
        ensures
            year == self@.year,
    {
        self.year
    }

    /// The month, from 1 for January to 12 for December.
    pub fn month(&self) -> (month: u8)
        ensures
            month == self@.month,
    {
        self.month
    }

    /// The day of the month, from 1.
    pub fn day(&self) -> (day: u8)
        ensures
            day == self@.day,
    {
        self.day
    }
}

proof fn lemma_two_digits(value: int)
    requires
        0 <= value <= 99,
    ensures
        all_digits(two_digits(value)),
        digits_value(two_digits(value)) == value,
{
    let text = two_digits(value);
    reveal_with_fuel(digits_value, 3);
    assert(text.drop_last() =~= seq![digit_char(value / 10)]);
    assert(text.drop_last().drop_last() =~= Seq::<char>::empty());
}

proof fn lemma_four_digits(value: int)
    requires
        0 <= value <= 9999,
    ensures
        all_digits(four_digits(value)),
        digits_value(four_digits(value)) == value,
{
    let text = four_digits(value);
    reveal_with_fuel(digits_value, 2);
    let three = seq![digit_char(value / 1000), digit_char(value / 100 % 10), digit_char(value / 10 % 10)];
    let two = seq![digit_char(value / 1000), digit_char(value / 100 % 10)];
    let one = seq![digit_char(value / 1000)];
    assert(text.drop_last() =~= three);
    assert(three.drop_last() =~= two);
    assert(two.drop_last() =~= one);
    assert(one.drop_last() =~= Seq::<char>::empty());
    assert(digits_value(one) == value / 1000);
    assert(digits_value(two) == value / 100);
    assert(digits_value(three) == value / 10);
}

/// A day written as `YYYY-MM-DD` and read back is the day that was written.
pub proof fn lemma_ymd_round_trip(date: DayView)
    requires
        is_calendar_date(date),
    ensures
        ymd_parse(ymd_text(date)) == Some(date),
{
    let text = ymd_text(date);
    let magnitude = if date.year < 0 {
        -date.year
    } else {
        date.year
    };
    lemma_four_digits(magnitude);
    lemma_two_digits(date.month);
    lemma_two_digits(date.day);
    let body = four_digits(magnitude) + seq!['-'] + two_digits(date.month) + seq!['-']
        + two_digits(date.day);
    assert(body.len() == 10);
    assert(body.subrange(0, 4) =~= four_digits(magnitude));
    assert(body.subrange(5, 7) =~= two_digits(date.month));
    assert(body.subrange(8, 10) =~= two_digits(date.day));
    if date.year < 0 {
        assert(text =~= seq!['-'] + body);
        assert(text[0] == '-');
        assert(text.skip(1) =~= body);
    } else {
        assert(text =~= body);
        assert(is_digit(four_digits(magnitude)[0]));
        assert(text[0] == four_digits(magnitude)[0]);
    }
}

/// Writes a day as `YYYY-MM-DD`.
pub fn format_ymd(date: CalendarDay) -> (text: String)
    ensures
        text@ == ymd_text(date@),
        ymd_parse(text@) == Some(date@),
{
    proof {
        use_type_invariant(&date);
        lemma_ymd_round_trip(date@);
    }
    time_format_ymd(date)
}

/// Reads a day written as `YYYY-MM-DD`.
pub fn parse_ymd(date: &str) -> (parsed: Result<CalendarDay, CrawlError>)
    ensures
        match ymd_parse(date@) {
            Some(day) => parsed matches Ok(found) && found@ == day,
            None => parsed == Err::<CalendarDay, CrawlError>(CrawlError::InvalidDate),
        },
{
    match time_parse_ymd(date) {
        Ok(day) => Ok(day),
        Err(_) => Err(CrawlError::InvalidDate),
    }
}

/// Reads the calendar day of an ISO 8601 timestamp such as
/// `2012-01-20T18:18:21Z`, in the timestamp's own offset.
pub fn parse_iso8601(date: &str) -> (parsed: Result<CalendarDay, CrawlError>)
    ensures
        match iso8601_day(date@) {
            Some(day) => parsed matches Ok(found) && found@ == day,
            None => parsed == Err::<CalendarDay, CrawlError>(CrawlError::InvalidTimestamp),
        },
{
    match time_parse_iso8601(date) {
        Ok(day) => Ok(day),
        Err(_) => Err(CrawlError::InvalidTimestamp),
    }
}

/// The date text of a timestamp: the `YYYY-MM-DD` form of its calendar day,
/// or `None` where the text is no timestamp.
pub open spec fn timestamp_date(text: Seq<char>) -> Option<Seq<char>> {
    match iso8601_day(text) {
        Some(day) => Some(ymd_text(day)),
        None => None,
    }
}

/// Turns an ISO 8601 timestamp such as `2012-01-20T18:18:21Z` into the date
/// `2012-01-20`.
pub fn iso8601_to_ymd(date: &str) -> (text: Result<String, CrawlError>)
    ensures
        match timestamp_date(date@) {
            Some(expected) => text matches Ok(found) && found@ == expected,
            None => text == Err::<String, CrawlError>(CrawlError::InvalidTimestamp),
        },
        text matches Ok(found) ==> ymd_parse(found@) == iso8601_day(date@),
{
    match parse_iso8601(date) {
        Ok(day) => Ok(format_ymd(day)),
        Err(error) => Err(error),
    }
}

/// The number of days from `earlier` to `later`; negative when `later` comes
/// first.
pub open spec fn days_from_to(earlier: DayView, later: DayView) -> int {
    julian_day(later) - julian_day(earlier)
}

/// Counts the days from `earlier` to `later`.
pub fn days_between(earlier: CalendarDay, later: CalendarDay) -> (days: i64)
    ensures
        days == days_from_to(earlier@, later@),
{
    proof {
        use_type_invariant(&earlier);
        use_type_invariant(&later);
    }
    let from: i64 = time_julian_day(earlier) as i64;
    let to: i64 = time_julian_day(later) as i64;
    to - from
}

/// The current day in UTC, as the clock shows it.
pub fn today_utc() -> (today: CalendarDay)
    ensures
        is_calendar_date(today@),
{
    time_today_utc()
}

} // verus!
