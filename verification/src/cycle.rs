//! AIRAC cycle currency: whether a cycle's data is in force on a date.
use crate::domain::CycleCurrency;
use crate::text::trimmed_chars;
use crate::text::{string_from, trim};
use vstd::prelude::*;

verus! {

/// An AIRAC cycle lasts 28 days; the next takes effect when it ends.
pub const AIRAC_PERIOD_DAYS: i64 = 28;

/// The day number (days since 1 January of year 1, counting that day as
/// 1) of a date written `YYYY-MM-DD` as chrono's `%Y-%m-%d` reads it;
/// `None` when it does not read.
pub uninterp spec fn iso_date_days(s: Seq<char>) -> Option<i64>;

/// Trusted: `chrono::NaiveDate::parse_from_str(s, "%Y-%m-%d")`, the date
/// turned into its day number (`Datelike::num_days_from_ce`). The result
/// is a function of `s` alone. A `NaiveDate` lies in years -262143 to
/// 262142 (chrono's `MIN_YEAR` and `MAX_YEAR`), so its day number is
/// within 100,000,000 days of year 1.
#[verifier::external_body]
fn parse_iso_date(s: &str) -> (r: Option<i64>)
    ensures
        r == iso_date_days(s@),
        r matches Some(d) ==> -100_000_000 <= d <= 100_000_000,
{
    match chrono::NaiveDate::parse_from_str(s, "%Y-%m-%d") {
        Ok(d) => Some(chrono::Datelike::num_days_from_ce(&d) as i64),
        Err(_) => None,
    }
}

pub open spec fn currency_spec(effective_day: i64, today_day: i64) -> CycleCurrency {
    let days = today_day - effective_day;
    if days < 0 {
        CycleCurrency::NotYetEffective
    } else if days < AIRAC_PERIOD_DAYS {
        CycleCurrency::Current
    } else {
        CycleCurrency::Expired
    }
}

/// Currency of a cycle effective on day `effective_day`, on day
/// `today_day`: not yet effective before it, current for the 28 days from
/// it on, expired after.
pub fn currency_from_days(effective_day: i64, today_day: i64) -> (r: CycleCurrency)
    requires
        -1_000_000_000 <= effective_day <= 1_000_000_000,
        -1_000_000_000 <= today_day <= 1_000_000_000,
    ensures
        r == currency_spec(effective_day, today_day),
{
    let days = today_day - effective_day;
    if days < 0 {
        CycleCurrency::NotYetEffective
    } else if days < AIRAC_PERIOD_DAYS {
        CycleCurrency::Current
    } else {
        CycleCurrency::Expired
    }
}

/// Currency of the cycle effective on `effective_date` as of `today`
/// (both `YYYY-MM-DD`, surrounding whitespace ignored); `None` when a
/// date does not read.
pub fn cycle_currency(effective_date: &str, today: &str) -> (r: Option<CycleCurrency>)
    ensures
        match (iso_date_days(trim(effective_date@)), iso_date_days(trim(today@))) {
            (Some(e), Some(t)) => r == Some(currency_spec(e, t)),
            _ => r is None,
        },
{
    let e = match parse_iso_date(string_from(&trimmed_chars(effective_date)).as_str()) {
        Some(d) => d,
        None => return None,
    };
    let t = match parse_iso_date(string_from(&trimmed_chars(today)).as_str()) {
        Some(d) => d,
        None => return None,
    };
    Some(currency_from_days(e, t))
}

/// Days until a cycle takes effect, while it is not yet in force.
pub open spec fn days_until_spec(effective_day: i64, today_day: i64) -> Option<i64> {
    let days = effective_day - today_day;
    if days > 0 {
        Some(days as i64)
    } else {
        None
    }
}

/// Days from `today` until the cycle effective on `effective_date`
/// takes effect; `None` once it is in force or when a date does not read.
pub fn days_until_effective(effective_date: &str, today: &str) -> (r: Option<i64>)
    ensures
        match (iso_date_days(trim(effective_date@)), iso_date_days(trim(today@))) {
            (Some(e), Some(t)) => r == days_until_spec(e, t),
            _ => r is None,
        },
{
    let e = match parse_iso_date(string_from(&trimmed_chars(effective_date)).as_str()) {
        Some(d) => d,
        None => return None,
    };
    let t = match parse_iso_date(string_from(&trimmed_chars(today)).as_str()) {
        Some(d) => d,
        None => return None,
    };
    let days = e - t;
    if days > 0 {
        Some(days)
    } else {
        None
    }
}

/// There is no gap between current and expired, and no day is both:
/// every day from the effective date on is current or expired, and a
/// cycle is current for exactly the 28 days from its effective date.
pub proof fn lemma_currency_partition(effective_day: i64, today_day: i64)
    ensures
        (currency_spec(effective_day, today_day) == CycleCurrency::Current) <==> (0
            <= today_day - effective_day < AIRAC_PERIOD_DAYS),
        (currency_spec(effective_day, today_day) == CycleCurrency::NotYetEffective) <==> (
        today_day < effective_day),
        (days_until_spec(effective_day, today_day) is Some) <==> (currency_spec(
            effective_day,
            today_day,
        ) == CycleCurrency::NotYetEffective),
{
}

} // verus!
