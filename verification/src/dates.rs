use std::fmt::Write;
use vstd::prelude::*;

verus! {

// A calendar date is held as its day number in the proleptic Gregorian
// calendar, 0001-01-01 being day 1 (`Datelike::num_days_from_ce`).

/// The day number of `chrono::NaiveDate::MIN` (-262143-01-01).
pub const MIN_DAY: i32 = -95746129;

/// The day number of `chrono::NaiveDate::MAX` (+262142-12-31).
pub const MAX_DAY: i32 = 95745399;

/// A day number that `chrono::NaiveDate` can represent.
pub open spec fn valid_day(d: int) -> bool {
    MIN_DAY <= d <= MAX_DAY
}

/// What `NaiveDate::parse_from_str(text, pattern)` gives, as a day number.
pub uninterp spec fn day_parsed(text: Seq<char>, pattern: Seq<char>) -> Option<int>;

/// What `NaiveDate::checked_add_months` gives, as a day number.
pub uninterp spec fn months_added(day: int, months: nat) -> Option<int>;

/// What `Datelike::year` gives for a day.
pub uninterp spec fn year_of_day(day: int) -> int;

/// What `NaiveDate::format(pattern)` writes for a day, or `None` where the
/// formatter reports an error for the pattern.
pub uninterp spec fn day_text(day: int, pattern: Seq<char>) -> Option<Seq<char>>;

/// The date a compact `YYYYMMDD` text names, as a day number.
pub open spec fn ymd_parsed(text: Seq<char>) -> Option<int> {
    day_parsed(text, "%Y%m%d"@)
}

/// The compact `YYYYMMDD` text of a day (empty where the formatter fails).
pub open spec fn ymd_text(day: int) -> Seq<char> {
    match day_text(day, "%Y%m%d"@) {
        Some(s) => s,
        None => Seq::empty(),
    }
}

/// `NaiveDate::parse_from_str(text, pattern)`, as a day number; any date
/// chrono produces lies in its representable range.
#[verifier::external_body]
pub(crate) fn parse_day(text: &str, pattern: &str) -> (r: Option<i32>)
    ensures
        match r {
            Some(d) => day_parsed(text@, pattern@) == Some(d as int) && valid_day(d as int),
            None => day_parsed(text@, pattern@) is None,
        },
{
    match chrono::NaiveDate::parse_from_str(text, pattern) {
        Ok(d) => Some(chrono::Datelike::num_days_from_ce(&d)),
        Err(_) => None,
    }
}

/// The day a compact `YYYYMMDD` text names.
pub fn parse_ymd(text: &str) -> (r: Option<i32>)
    ensures
        match r {
            Some(d) => ymd_parsed(text@) == Some(d as int) && valid_day(d as int),
            None => ymd_parsed(text@) is None,
        },
{
    parse_day(text, "%Y%m%d")
}

/// The compact `YYYYMMDD` text of a representable day.
pub fn format_ymd(day: i32) -> (r: String)
    requires
        valid_day(day as int),
    ensures
        r@ == ymd_text(day as int),
{
    match format_day(day, "%Y%m%d") {
        Some(s) => s,
        None => String::new(),
    }
}

/// `NaiveDate::checked_add_months`: `None` when the result leaves the
/// representable range; a positive number of months gives a later date.
#[verifier::external_body]
pub(crate) fn add_months(day: i32, months: u32) -> (r: Option<i32>)
    requires
        valid_day(day as int),
    ensures
        match r {
            Some(d) => months_added(day as int, months as nat) == Some(d as int) && valid_day(
                d as int,
            ) && (months > 0 ==> d > day),
            None => months_added(day as int, months as nat) is None,
        },
{
    let date = chrono::NaiveDate::from_num_days_from_ce_opt(day).unwrap();
    match date.checked_add_months(chrono::Months::new(months)) {
        Some(d) => Some(chrono::Datelike::num_days_from_ce(&d)),
        None => None,
    }
}

/// `NaiveDate::checked_add_signed` with a whole number of days: the day
/// number moves by `n`, and `None` when that leaves the representable range.
#[verifier::external_body]
pub(crate) fn add_days(day: i32, n: i32) -> (r: Option<i32>)
    requires
        valid_day(day as int),
    ensures
        r == (if valid_day(day + n) { Some((day + n) as i32) } else { None::<i32> }),
{
    let date = chrono::NaiveDate::from_num_days_from_ce_opt(day).unwrap();
    match date.checked_add_signed(chrono::TimeDelta::days(n as i64)) {
        Some(d) => Some(chrono::Datelike::num_days_from_ce(&d)),
        None => None,
    }
}

/// `Datelike::year` of a representable day, which lies in chrono's year range.
#[verifier::external_body]
pub(crate) fn year_of(day: i32) -> (r: i32)
    requires
        valid_day(day as int),
    ensures
        r == year_of_day(day as int),
        -262143 <= r <= 262142,
{
    chrono::Datelike::year(&chrono::NaiveDate::from_num_days_from_ce_opt(day).unwrap())
}

/// `NaiveDate::format(pattern)` written into a string; `None` where the
/// formatter reports an error (where `to_string` would panic).
#[verifier::external_body]
pub(crate) fn format_day(day: i32, pattern: &str) -> (r: Option<String>)
    requires
        valid_day(day as int),
    ensures
        match r {
            Some(s) => day_text(day as int, pattern@) == Some(s@),
            None => day_text(day as int, pattern@) is None,
        },
{
    let date = chrono::NaiveDate::from_num_days_from_ce_opt(day).unwrap();
    let mut out = String::new();
    match write!(out, "{}", date.format(pattern)) {
        Ok(()) => Some(out),
        Err(_) => None,
    }
}

} // verus!
