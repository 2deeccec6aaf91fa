//! Calendar dates, kept as text in ISO form (`YYYY-MM-DD`).

use vstd::prelude::*;

verus! {

/// The ISO date that a release date in the source site's notation
/// (`Aug 05,23`) stands for; `None` for text that is no such date.
pub uninterp spec fn nelo_date(text: Seq<char>) -> Option<Seq<char>>;

/// Whole days from the ISO date `start` to the ISO date `end`; `None` when
/// either is no ISO date.
pub uninterp spec fn days_between(start: Seq<char>, end: Seq<char>) -> Option<int>;

/// Today's date (UTC) in ISO form.
///
/// Calls `chrono::Utc::now` and formats the day with `%Y-%m-%d`. The result
/// depends on the clock, so nothing is claimed about it.
#[verifier::external_body]
pub fn get_time() -> (today: String) {
    chrono::Utc::now().format("%Y-%m-%d").to_string()
}

/// Normalises a release date as the source site prints it.
///
/// Calls `chrono::NaiveDate::parse_from_str` with the format `%b %d,%y` and
/// prints the day with `%Y-%m-%d`. The contract only gives that result its
/// name, [`nelo_date`]: the same text always yields the same date.
#[verifier::external_body]
pub fn get_nelo_time(date: &str) -> (iso: Option<String>)
    ensures
        iso matches Some(day) ==> nelo_date(date@) == Some(day@),
        iso is None ==> nelo_date(date@) is None,
{
    match chrono::NaiveDate::parse_from_str(date, "%b %d,%y") {
        Ok(day) => Some(day.format("%Y-%m-%d").to_string()),
        Err(_) => None,
    }
}

/// Whole days from `start` to `end`, both ISO dates.
///
/// Parses both with `chrono::NaiveDate::parse_from_str` (`%Y-%m-%d`),
/// subtracts them and takes `TimeDelta::num_days`. The contract only gives
/// that result its name, [`days_between`].
#[verifier::external_body]
pub fn get_duration(start: &str, end: &str) -> (days: Option<i64>)
    ensures
        days matches Some(d) ==> days_between(start@, end@) == Some(d as int),
        days is None ==> days_between(start@, end@) is None,
{
    let first = chrono::NaiveDate::parse_from_str(start, "%Y-%m-%d");
    let second = chrono::NaiveDate::parse_from_str(end, "%Y-%m-%d");
    match (first, second) {
        (Ok(a), Ok(b)) => Some((b - a).num_days()),
        _ => None,
    }
}

} // verus!
