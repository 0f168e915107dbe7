use vstd::prelude::*;

use crate::value::{Date, DateTime, Time};

verus! {

/// The date a text spells in the month-name form, when it spells one.
pub uninterp spec fn date_of_text(s: Seq<u8>) -> Option<Date>;

/// The time of day a text spells as colon-separated numbers, when it
/// spells one.
pub uninterp spec fn time_of_text(s: Seq<u8>) -> Option<Time>;

/// The date with time a text spells, when it spells one.
pub uninterp spec fn datetime_of_text(s: Seq<u8>) -> Option<DateTime>;

/// The textual form of a date.
pub uninterp spec fn date_text(d: Date) -> Seq<u8>;

/// The textual form of a time of day.
pub uninterp spec fn time_text(t: Time) -> Seq<u8>;

/// The textual form of a date with time.
pub uninterp spec fn datetime_text(dt: DateTime) -> Seq<u8>;

/// Relies on time::Date::parse with the `%B %-d %Y` format: whether a text
/// is a calendar date, and which, depends on the text alone.
#[verifier::external_body]
pub fn parse_date(s: &[u8]) -> (r: Option<Date>)
    ensures
        r == date_of_text(s@),
{
    let txt = match core::str::from_utf8(s) {
        Ok(t) => t,
        Err(_) => return None,
    };
    match time::Date::parse(txt, "%B %-d %Y") {
        Ok(d) => Some(Date { year: d.year(), month: d.month(), day: d.day() }),
        Err(_) => None,
    }
}

/// Relies on time::Time::parse with the `%H:%M:%S` format.
#[verifier::external_body]
pub fn parse_time(s: &[u8]) -> (r: Option<Time>)
    ensures
        r == time_of_text(s@),
{
    let txt = match core::str::from_utf8(s) {
        Ok(t) => t,
        Err(_) => return None,
    };
    match time::Time::parse(txt, "%H:%M:%S") {
        Ok(t) => Some(Time { hour: t.hour(), minute: t.minute(), second: t.second() }),
        Err(_) => None,
    }
}

/// Relies on time::PrimitiveDateTime::parse with the
/// `%B %-d %H:%M:%S %Y` format.
#[verifier::external_body]
pub fn parse_datetime(s: &[u8]) -> (r: Option<DateTime>)
    ensures
        r == datetime_of_text(s@),
{
    let txt = match core::str::from_utf8(s) {
        Ok(t) => t,
        Err(_) => return None,
    };
    match time::PrimitiveDateTime::parse(txt, "%B %-d %H:%M:%S %Y") {
        Ok(d) => Some(
            DateTime {
                date: Date { year: d.year(), month: d.month(), day: d.day() },
                time: Time { hour: d.hour(), minute: d.minute(), second: d.second() },
            },
        ),
        Err(_) => None,
    }
}

/// Relies on time::Date::format with the `%B %-d %Y` format; a triple that
/// names no calendar date gives the empty text.
#[verifier::external_body]
pub fn format_date(d: &Date) -> (r: Vec<u8>)
    ensures
        r@ == date_text(*d),
{
    match time::Date::try_from_ymd(d.year, d.month, d.day) {
        Ok(td) => td.format("%B %-d %Y").into_bytes(),
        Err(_) => Vec::new(),
    }
}

/// Relies on time::Time::format with the `%H:%M:%S` format; a triple that
/// names no time of day gives the empty text.
#[verifier::external_body]
pub fn format_time(t: &Time) -> (r: Vec<u8>)
    ensures
        r@ == time_text(*t),
{
    match time::Time::try_from_hms(t.hour, t.minute, t.second) {
        Ok(tt) => tt.format("%H:%M:%S").into_bytes(),
        Err(_) => Vec::new(),
    }
}

/// Relies on time::PrimitiveDateTime::format with the
/// `%B %-d %H:%M:%S %Y` format; six numbers that name no moment give the
/// empty text.
#[verifier::external_body]
pub fn format_datetime(dt: &DateTime) -> (r: Vec<u8>)
    ensures
        r@ == datetime_text(*dt),
{
    let d = match time::Date::try_from_ymd(dt.date.year, dt.date.month, dt.date.day) {
        Ok(d) => d,
        Err(_) => return Vec::new(),
    };
    let t = match time::Time::try_from_hms(dt.time.hour, dt.time.minute, dt.time.second) {
        Ok(t) => t,
        Err(_) => return Vec::new(),
    };
    time::PrimitiveDateTime::new(d, t).format("%B %-d %H:%M:%S %Y").into_bytes()
}

} // verus!
