use crate::search::FieldError;
use chrono::Datelike;
use vstd::prelude::*;

verus! {

/// Smallest year a calendar date may carry.
pub const MIN_YEAR: i32 = -262143;

/// Largest year a calendar date may carry.
pub const MAX_YEAR: i32 = 262142;

/// A proleptic Gregorian calendar date, held as year, month and day.
#[derive(Clone, Copy, Debug, PartialEq, Eq, Structural)]
pub struct Date {
    pub year: i32,
    pub month: u32,
    pub day: u32,
}

pub open spec fn is_leap_year(y: int) -> bool {
    (y % 4 == 0 && y % 100 != 0) || y % 400 == 0
}

pub open spec fn days_in_month(y: int, m: int) -> int {
    if m == 2 {
        if is_leap_year(y) { 29 } else { 28 }
    } else if m == 4 || m == 6 || m == 9 || m == 11 {
        30
    } else {
        31
    }
}

/// The year, month and day name a day of the calendar.
pub open spec fn valid_ymd(y: int, m: int, d: int) -> bool {
    &&& MIN_YEAR <= y <= MAX_YEAR
    &&& 1 <= m <= 12
    &&& 1 <= d <= days_in_month(y, m)
}

/// Calendar order: by year, then month, then day.
pub open spec fn date_le(a: Date, b: Date) -> bool {
    a.year < b.year || (a.year == b.year && (a.month < b.month || (a.month == b.month
        && a.day <= b.day)))
}

pub open spec fn date_lt(a: Date, b: Date) -> bool {
    date_le(a, b) && a != b
}

pub proof fn lemma_date_le_total(a: Date, b: Date)
    ensures
        date_le(a, b) || date_le(b, a),
        date_le(a, b) && date_le(b, a) ==> a == b,
{
}

pub proof fn lemma_date_le_trans(a: Date, b: Date, c: Date)
    requires
        date_le(a, b),
        date_le(b, c),
    ensures
        date_le(a, c),
{
}

impl Date {
    pub open spec fn valid(self) -> bool {
        valid_ymd(self.year as int, self.month as int, self.day as int)
    }

    /// The date a document carries before one is set: 1970-01-01.
    pub open spec fn spec_unset() -> Date {
        Date { year: 1970, month: 1, day: 1 }
    }

    pub fn unset() -> (r: Date)
        ensures
            r == Date::spec_unset(),
            r.valid(),
    {
        Date { year: 1970, month: 1, day: 1 }
    }

    pub fn is_unset(&self) -> (r: bool)
        ensures
            r == (*self == Date::spec_unset()),
    {
        self.year == 1970 && self.month == 1 && self.day == 1
    }

    /// The date of the given year, month and day, if it is one.
    pub fn from_ymd(year: i32, month: u32, day: u32) -> (r: Option<Date>)
        ensures
            r.is_some() <==> valid_ymd(year as int, month as int, day as int),
            r matches Some(d) ==> d == (Date { year, month, day }),
    {
        if year < MIN_YEAR || year > MAX_YEAR || month < 1 || month > 12 || day < 1 {
            return None;
        }
        let leap = (year % 4 == 0 && year % 100 != 0) || year % 400 == 0;
        let last: u32 = if month == 2 {
            if leap { 29 } else { 28 }
        } else if month == 4 || month == 6 || month == 9 || month == 11 {
            30
        } else {
            31
        };
        if day > last {
            None
        } else {
            Some(Date { year, month, day })
        }
    }

    /// Whether `self` falls on or before `other`.
    pub fn le(&self, other: &Date) -> (r: bool)
        ensures
            r == date_le(*self, *other),
    {
        self.year < other.year || (self.year == other.year && (self.month < other.month || (
        self.month == other.month && self.day <= other.day)))
    }

    /// Whether `self` falls strictly before `other`.
    pub fn lt(&self, other: &Date) -> (r: bool)
        ensures
            r == date_lt(*self, *other),
    {
        self.le(other) && !(self.year == other.year && self.month == other.month && self.day
            == other.day)
    }
}

/// Nanoseconds in one day.
pub const NANOS_PER_DAY: u64 = 86_400_000_000_000;

/// The number of days from 1970-01-01 to the date; negative before it.
pub open spec fn day_number(d: Date) -> int {
    let y = if d.month <= 2 { d.year - 1 } else { d.year as int };
    let era = y / 400;
    let yoe = y - era * 400;
    let mp = (d.month + 9) % 12;
    let doy = (153 * mp + 2) / 5 + d.day - 1;
    let doe = yoe * 365 + yoe / 4 - yoe / 100 + doy;
    era * 146097 + doe - 719468
}

/// The date lies within one day of the UTC calendar day of the instant,
/// given in nanoseconds since the Unix epoch.
pub open spec fn near_utc_day(d: Date, nanos: u64) -> bool {
    let utc = nanos / NANOS_PER_DAY;
    utc - 1 <= day_number(d) <= utc + 1
}

/// The unset date is day zero, so a date near an instant at least two days
/// after the epoch is never the unset date.
pub proof fn lemma_late_date_is_set(d: Date, nanos: u64)
    requires
        near_utc_day(d, nanos),
        nanos >= 2 * NANOS_PER_DAY,
    ensures
        d != Date::spec_unset(),
{
    assert(day_number(Date::spec_unset()) == 0);
}

/// Relies on chrono's conversion of a `SystemTime` to a `DateTime<Local>` and on
/// `date_naive`: the local calendar date of an instant, given in nanoseconds
/// since the Unix epoch. The result depends on the machine's time zone; the
/// conversion to UTC is exact and a local offset is less than a day, so the
/// date lies within one day of the UTC calendar day.
#[verifier::external_body]
pub(crate) fn local_date(nanos: u64) -> (r: Date)
    ensures
        r.valid(),
        near_utc_day(r, nanos),
{
    let t = std::time::UNIX_EPOCH + std::time::Duration::from_nanos(nanos);
    let d = chrono::DateTime::<chrono::Local>::from(t).date_naive();
    Date { year: d.year(), month: d.month(), day: d.day() }
}

/// The date that chrono's `NaiveDate::from_str` reads from a text, if any.
pub uninterp spec fn parsed_date(s: Seq<char>) -> Option<Date>;

/// Relies on chrono's `NaiveDate::from_str`: reads a date such as
/// `2020-01-01`; the result depends on the text alone, and a date it reads
/// is a calendar date.
#[verifier::external_body]
fn parse_date(s: &str) -> (r: Option<Date>)
    ensures
        r == parsed_date(s@),
        r matches Some(d) ==> d.valid(),
{
    match s.parse::<chrono::NaiveDate>() {
        Ok(d) => Some(Date { year: d.year(), month: d.month(), day: d.day() }),
        Err(_) => None,
    }
}

/// A date given in a query field.
#[derive(Clone, Copy, Debug, PartialEq, Eq, Structural)]
pub struct DateField(pub Date);

impl DateField {
    /// The field for what the date reader made of a non-empty field.
    pub fn from_parsed(parsed: Option<Date>) -> (r: Result<DateField, FieldError>)
        ensures
            match parsed {
                Some(d) => r == Ok::<DateField, FieldError>(DateField(d)),
                None => r == Err::<DateField, FieldError>(FieldError::Invalid),
            },
    {
        match parsed {
            Some(d) => Ok(DateField(d)),
            None => Err(FieldError::Invalid),
        }
    }

    /// Reads a date from a query field: `Missing` when the field is empty,
    /// `Invalid` when it holds no date.
    pub fn from_value(s: &str) -> (r: Result<DateField, FieldError>)
        ensures
            s@.len() == 0 ==> r == Err::<DateField, FieldError>(FieldError::Missing),
            s@.len() > 0 ==> r == match parsed_date(s@) {
                Some(d) => Ok::<DateField, FieldError>(DateField(d)),
                None => Err::<DateField, FieldError>(FieldError::Invalid),
            },
            r matches Ok(f) ==> f.0.valid(),
    {
        if s.unicode_len() == 0 {
            return Err(FieldError::Missing);
        }
        DateField::from_parsed(parse_date(s))
    }

    /// The date the field holds.
    pub fn date(&self) -> (r: Date)
        ensures
            r == self.0,
    {
        self.0
    }
}

} // verus!
