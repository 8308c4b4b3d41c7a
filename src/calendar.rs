use vstd::prelude::*;

verus! {

/// First year that `chrono::NaiveDate` represents.
pub const MIN_YEAR: i32 = -262143;

/// Last year that `chrono::NaiveDate` represents.
pub const MAX_YEAR: i32 = 262142;

pub open spec fn is_leap_year(y: int) -> bool {
    (y % 4 == 0 && y % 100 != 0) || y % 400 == 0
}

pub open spec fn days_in_month(y: int, m: int) -> int {
    if m == 2 {
        if is_leap_year(y) { 29 } else { 28 }
    } else if m == 4 || m == 6 || m == 9 || m == 11 {
        30
    } else {
        31
    }
}

/// A day of the proleptic Gregorian calendar within chrono's range.
pub open spec fn valid_ymd(y: int, m: int, d: int) -> bool {
    &&& MIN_YEAR <= y <= MAX_YEAR
    &&& 1 <= m <= 12
    &&& 1 <= d <= days_in_month(y, m)
}

/// A valid time of day with whole seconds.
pub open spec fn valid_hms(h: int, m: int, s: int) -> bool {
    0 <= h < 24 && 0 <= m < 60 && 0 <= s < 60
}

/// Relies on `chrono::NaiveDate::from_ymd_opt`: `Some` exactly for the
/// calendar days in chrono's year range.
#[verifier::external_body]
fn chrono_date_exists(year: i32, month: u32, day: u32) -> (r: bool)
    ensures
        r == valid_ymd(year as int, month as int, day as int),
{
    chrono::NaiveDate::from_ymd_opt(year, month, day).is_some()
}

/// Relies on `chrono::NaiveTime::from_hms_opt`: `Some` exactly when hour,
/// minute and second are in range (no leap second without nanoseconds).
#[verifier::external_body]
fn chrono_time_exists(hour: u32, min: u32, sec: u32) -> (r: bool)
    ensures
        r == valid_hms(hour as int, min as int, sec as int),
{
    chrono::NaiveTime::from_hms_opt(hour, min, sec).is_some()
}

/// What `chrono::NaiveTime::parse_from_str(s, "%H:%M")` yields, as hour and minute.
pub uninterp spec fn hm_parse_of(s: Seq<char>) -> Option<(u32, u32)>;

/// Relies on `chrono::NaiveTime::parse_from_str` with the format `%H:%M`;
/// a parsed time always has an hour below 24 and a minute below 60.
#[verifier::external_body]
fn chrono_parse_hm(s: &str) -> (r: Option<(u32, u32)>)
    ensures
        r == hm_parse_of(s@),
        r matches Some((h, m)) ==> h < 24 && m < 60,
{
    match chrono::NaiveTime::parse_from_str(s, "%H:%M") {
        Ok(t) => Some((chrono::Timelike::hour(&t), chrono::Timelike::minute(&t))),
        Err(_) => None,
    }
}

/// The English name that `chrono::Month::name` gives to month `m`.
pub open spec fn month_name_of(m: u32) -> Option<Seq<char>> {
    if m == 1 { Some("January"@) }
    else if m == 2 { Some("February"@) }
    else if m == 3 { Some("March"@) }
    else if m == 4 { Some("April"@) }
    else if m == 5 { Some("May"@) }
    else if m == 6 { Some("June"@) }
    else if m == 7 { Some("July"@) }
    else if m == 8 { Some("August"@) }
    else if m == 9 { Some("September"@) }
    else if m == 10 { Some("October"@) }
    else if m == 11 { Some("November"@) }
    else if m == 12 { Some("December"@) }
    else { None }
}

/// Relies on `chrono::Month::try_from(u8)` (1 is January, out of range is an
/// error) and `chrono::Month::name`.
#[verifier::external_body]
fn chrono_month_name(m: u8) -> (r: Option<String>)
    ensures
        match r {
            Some(s) => month_name_of(m as u32) == Some(s@),
            None => month_name_of(m as u32) is None,
        },
{
    match chrono::Month::try_from(m) {
        Ok(month) => Some(month.name().to_string()),
        Err(_) => None,
    }
}

/// A calendar date, as year, month (1 to 12) and day of month (from 1).
#[derive(Clone, Copy, Debug, PartialEq, Eq, Structural, Hash)]
pub struct Date {
    pub year: i32,
    pub month: u32,
    pub day: u32,
}

/// A time of day with whole seconds.
#[derive(Clone, Copy, Debug, PartialEq, Eq, Structural, Hash)]
pub struct TimeOfDay {
    pub hour: u32,
    pub minute: u32,
    pub second: u32,
}

impl Date {
    pub open spec fn is_valid(self) -> bool {
        valid_ymd(self.year as int, self.month as int, self.day as int)
    }

    /// Later dates order first: `self` comes after `other` in the calendar.
    pub open spec fn is_after(self, other: Date) -> bool {
        self.year > other.year || (self.year == other.year && (self.month > other.month || (
        self.month == other.month && self.day > other.day)))
    }

    /// The date for year, month and day, or `None` where no such day exists.
    pub fn from_ymd_opt(year: i32, month: u32, day: u32) -> (r: Option<Date>)
        ensures
            r is Some <==> valid_ymd(year as int, month as int, day as int),
            r matches Some(d) ==> d == (Date { year, month, day }),
    {
        if chrono_date_exists(year, month, day) {
            Some(Date { year, month, day })
        } else {
            None
        }
    }

    pub fn after(&self, other: &Date) -> (r: bool)
        ensures
            r == self.is_after(*other),
    {
        self.year > other.year || (self.year == other.year && (self.month > other.month || (
        self.month == other.month && self.day > other.day)))
    }
}

impl TimeOfDay {
    pub open spec fn is_valid(self) -> bool {
        valid_hms(self.hour as int, self.minute as int, self.second as int)
    }

    /// Seconds since midnight.
    pub open spec fn secs(self) -> int {
        self.hour as int * 3600 + self.minute as int * 60 + self.second as int
    }

    /// The time for hour, minute and second, or `None` where one is out of range.
    pub fn from_hms_opt(hour: u32, minute: u32, second: u32) -> (r: Option<TimeOfDay>)
        ensures
            r is Some <==> valid_hms(hour as int, minute as int, second as int),
            r matches Some(t) ==> t == (TimeOfDay { hour, minute, second }),
    {
        if chrono_time_exists(hour, minute, second) {
            Some(TimeOfDay { hour, minute, second })
        } else {
            None
        }
    }

    /// Reads a clock time written as hours and minutes (`08:30`); seconds are zero.
    pub fn parse_hm(s: &str) -> (r: Option<TimeOfDay>)
        ensures
            match hm_parse_of(s@) {
                Some((h, m)) => r == Some(TimeOfDay { hour: h, minute: m, second: 0 }),
                None => r is None,
            },
            r matches Some(t) ==> t.is_valid(),
    {
        match chrono_parse_hm(s) {
            Some((h, m)) => Some(TimeOfDay { hour: h, minute: m, second: 0 }),
            None => None,
        }
    }

    pub fn is_valid_time(&self) -> (r: bool)
        ensures
            r == self.is_valid(),
    {
        self.hour < 24 && self.minute < 60 && self.second < 60
    }

    /// Seconds since midnight of a valid time.
    pub fn seconds_from_midnight(&self) -> (r: i64)
        requires
            self.is_valid(),
        ensures
            r == self.secs(),
            0 <= r < 86400,
    {
        self.hour as i64 * 3600 + self.minute as i64 * 60 + self.second as i64
    }
}

/// A month present in the ledger, with its English name for display.
pub struct MonthChoice {
    pub month_name: String,
    pub month_number: u32,
}

impl MonthChoice {
    /// The choice for month `m`, or `None` where `m` names no month.
    pub fn new(m: u32) -> (r: Option<MonthChoice>)
        ensures
            r is Some <==> 1 <= m <= 12,
            r matches Some(c) ==> c.month_number == m && Some(c.month_name@) == month_name_of(m),
    {
        if m < 1 || m > 12 {
            return None;
        }
        match chrono_month_name(m as u8) {
            Some(name) => Some(MonthChoice { month_name: name, month_number: m }),
            None => None,
        }
    }
}

} // verus!
