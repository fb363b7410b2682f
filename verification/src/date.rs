use chrono::Datelike;
use vstd::prelude::*;

use crate::error::{outcome_view, ConfigError, ErrorView};

verus! {

/// The earliest year that a date can lie in.
pub const MIN_YEAR: i32 = -262_143;

/// The latest year that a date can lie in.
pub const MAX_YEAR: i32 = 262_142;

/// Whether `year` is a leap year of the proleptic Gregorian calendar.
pub open spec fn is_leap_year(year: int) -> bool {
    year % 4 == 0 && (year % 100 != 0 || year % 400 == 0)
}

/// The number of days of the month `month` (1 to 12) in a year that is no leap
/// year.
pub open spec fn days_in_common_month(month: int) -> int {
    if month == 2 {
        28
    } else if month == 4 || month == 6 || month == 9 || month == 11 {
        30
    } else {
        31
    }
}

/// The number of days of the month `month` (1 to 12) in `year`.
pub open spec fn days_in_month(year: int, month: int) -> int {
    if month == 2 && is_leap_year(year) {
        29
    } else {
        days_in_common_month(month)
    }
}

/// Whether the calendar has a day `day` of the month `month` in `year`, and
/// `year` is one that a date can lie in.
pub open spec fn is_calendar_date(year: int, month: int, day: int) -> bool {
    &&& MIN_YEAR <= year <= MAX_YEAR
    &&& 1 <= month <= 12
    &&& 1 <= day <= days_in_month(year, month)
}

/// A day of the proleptic Gregorian calendar.
///
/// The fields are ordered so that the derived order is the order of time.
#[derive(Debug, Clone, Copy, PartialEq, Eq, Structural, PartialOrd, Ord, Hash)]
pub struct Date {
    pub year: i32,
    pub month: u32,
    pub day: u32,
}

impl Date {
    /// Whether the calendar has this day.
    pub open spec fn is_valid(self) -> bool {
        is_calendar_date(self.year as int, self.month as int, self.day as int)
    }

    /// Whether this day comes strictly before `other`.
    pub open spec fn before(self, other: Date) -> bool {
        self.year < other.year || (self.year == other.year && (self.month < other.month || (
        self.month == other.month && self.day < other.day)))
    }

    /// Whether this day is `other` or comes before it.
    pub open spec fn not_after(self, other: Date) -> bool {
        !other.before(self)
    }

    /// Whether this day lies in the range from `first` to `last`, both included.
    pub open spec fn within(self, first: Date, last: Date) -> bool {
        first.not_after(self) && self.not_after(last)
    }

    /// Whether this day comes strictly before `other`.
    pub fn is_before(&self, other: &Date) -> (before: bool)
        ensures
            before == self.before(*other),
    {
        self.year < other.year || (self.year == other.year && (self.month < other.month || (
        self.month == other.month && self.day < other.day)))
    }

    /// The day `day` of the month `month` in `year`, if the calendar has it.
    pub fn from_ymd_opt(year: i32, month: u32, day: u32) -> (date: Option<Date>)
        ensures
            date == if is_calendar_date(year as int, month as int, day as int) {
                Some(Date { year, month, day })
            } else {
                None
            },
    {
        if calendar_date_exists(year, month, day) {
            Some(Date { year, month, day })
        } else {
            None
        }
    }
}

/// The day that `chrono` reads in `text` under the format `format`, as year,
/// month and day; `None` where it reads none.
pub uninterp spec fn date_text_value(text: Seq<char>, format: Seq<char>) -> Option<(i32, u32, u32)>;

/// Asks `chrono::NaiveDate::from_ymd_opt` whether it can make the date.
///
/// Claimed of it: it makes one exactly when the year is within the range of
/// `NaiveDate`, the month is one of the twelve and the month has such a day
/// in that year of the proleptic Gregorian calendar.
#[verifier::external_body]
pub(crate) fn calendar_date_exists(year: i32, month: u32, day: u32) -> (found: bool)
    ensures
        found == is_calendar_date(year as int, month as int, day as int),
{
    chrono::NaiveDate::from_ymd_opt(year, month, day).is_some()
}

/// Reads `text` with `chrono::NaiveDate::parse_from_str` under `format` and
/// takes the date apart with `Datelike::year`, `month` and `day`.
///
/// Claimed of it: the outcome depends on the two texts alone, and a date that
/// comes out is one that the calendar has.
#[verifier::external_body]
fn date_from_text(text: &str, format: &str) -> (parsed: Option<(i32, u32, u32)>)
    ensures
        parsed == date_text_value(text@, format@),
        parsed matches Some((year, month, day)) ==> is_calendar_date(
            year as int,
            month as int,
            day as int,
        ),
{
    match chrono::NaiveDate::parse_from_str(text, format) {
        Ok(date) => Some((date.year(), date.month(), date.day())),
        Err(_) => None,
    }
}

/// The year of today's date in the local time zone, from `chrono::Local::now`,
/// `DateTime::date_naive` and `Datelike::year`.
///
/// Claimed of it: the year is one that a `NaiveDate` can lie in. Which year
/// comes back depends on the clock and the time zone of the machine; with a
/// clock set before 1970 `chrono` panics.
#[verifier::external_body]
pub(crate) fn current_year() -> (year: i32)
    ensures
        MIN_YEAR <= year <= MAX_YEAR,
{
    chrono::Local::now().date_naive().year()
}

/// The format of the dates of a configuration: day, month and year with dots
/// between them.
pub fn date_format() -> (format: &'static str)
    ensures
        format@ == "%d.%m.%Y"@,
{
    "%d.%m.%Y"
}

/// What reading `text` as a date comes to, once `parsed` is known.
pub open spec fn date_outcome(parsed: Option<(i32, u32, u32)>, text: Seq<char>) -> Result<
    Date,
    ErrorView,
> {
    match parsed {
        Some((year, month, day)) => Ok(Date { year, month, day }),
        None => Err(ErrorView::InvalidDate { value: text }),
    }
}

/// Turns what was read in `text` into a date, or into the error that names
/// `text`.
pub fn date_from_parsed(parsed: Option<(i32, u32, u32)>, text: &str) -> (date: Result<
    Date,
    ConfigError,
>)
    ensures
        outcome_view(date) == date_outcome(parsed, text@),
{
    match parsed {
        Some((year, month, day)) => Ok(Date { year, month, day }),
        None => Err(ConfigError::InvalidDate { value: text.to_owned() }),
    }
}

/// Reads `text` as a date written in `format`.
pub fn parse_date(text: &str, format: &str) -> (date: Result<Date, ConfigError>)
    ensures
        outcome_view(date) == date_outcome(date_text_value(text@, format@), text@),
        date matches Ok(day) ==> day.is_valid(),
{
    date_from_parsed(date_from_text(text, format), text)
}

/// Reads `text` as a date of a configuration: `31.12.2020` is the last day of
/// 2020.
pub fn deserialize_date(text: &str) -> (date: Result<Date, ConfigError>)
    ensures
        outcome_view(date) == date_outcome(date_text_value(text@, "%d.%m.%Y"@), text@),
        date matches Ok(day) ==> day.is_valid(),
{
    parse_date(text, date_format())
}

} // verus!
