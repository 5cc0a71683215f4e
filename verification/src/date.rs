//! Calendar dates of news items, and reading them from text.
use chrono::Datelike;
use vstd::prelude::*;

verus! {

/// A calendar date, as a year, a month (1 to 12) and a day of the month.
#[derive(Clone, Copy, Debug, PartialEq, Eq, Structural)]
pub struct Date {
    pub year: i32,
    pub month: u32,
    pub day: u32,
}

/// `a` comes strictly before `b` in the calendar.
pub open spec fn date_before(a: Date, b: Date) -> bool {
    ||| a.year < b.year
    ||| a.year == b.year && a.month < b.month
    ||| a.year == b.year && a.month == b.month && a.day < b.day
}

/// The date that `chrono` gives `s` under the format `%Y-%m-%d`, as year, month and
/// day, or `None` where `chrono` refuses `s`.
pub uninterp spec fn ymd_of(s: Seq<char>) -> Option<(i32, u32, u32)>;

/// The date of a `(year, month, day)` triple.
pub open spec fn date_of(t: (i32, u32, u32)) -> Date {
    Date { year: t.0, month: t.1, day: t.2 }
}

/// Dates are ordered as the calendar orders them: no date comes before itself,
/// the order is transitive, and of two different dates one comes first.
pub proof fn law_date_order(a: Date, b: Date, c: Date)
    ensures
        !date_before(a, a),
        date_before(a, b) && date_before(b, c) ==> date_before(a, c),
        a != b ==> date_before(a, b) || date_before(b, a),
        date_before(a, b) ==> !date_before(b, a),
{
}

/// Dates are ordered year first, then month, then day: an earlier year comes
/// first whatever the months, an earlier month of the same year whatever the days.
pub proof fn law_calendar_order(a: Date, b: Date)
    ensures
        a.year < b.year ==> date_before(a, b),
        a.year == b.year && a.month < b.month ==> date_before(a, b),
        a.year == b.year && a.month == b.month ==> (date_before(a, b) <==> a.day < b.day),
        date_before(a, b) ==> a.year <= b.year,
        date_before(a, b) && a.year == b.year ==> a.month <= b.month,
{
}

impl Date {
    /// 1970-01-01, the date that `chrono::NaiveDate::default()` gives.
    pub fn unix_epoch() -> (d: Date)
        ensures
            d == (Date { year: 1970, month: 1, day: 1 }),
    {
        Date { year: 1970, month: 1, day: 1 }
    }

    /// Whether `self` comes strictly before `other`.
    pub fn is_before(&self, other: &Date) -> (b: bool)
        ensures
            b == date_before(*self, *other),
    {
        self.year < other.year || (self.year == other.year && (self.month < other.month || (
        self.month == other.month && self.day < other.day)))
    }
}

/// `chrono::NaiveDate::parse_from_str(s, "%Y-%m-%d")`, its result taken apart into
/// year, month and day. What `chrono` accepts is named `ymd_of` and not restated.
#[verifier::external_body]
pub(crate) fn parse_ymd(s: &str) -> (r: Option<Date>)
    ensures
        r == match ymd_of(s@) {
            Some(t) => Some(date_of(t)),
            None => None,
        },
{
    match chrono::NaiveDate::parse_from_str(s, "%Y-%m-%d") {
        Ok(d) => Some(Date { year: d.year(), month: d.month(), day: d.day() }),
        Err(_) => None,
    }
}

} // verus!
