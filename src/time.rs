use chrono::{Datelike, Timelike};
use vstd::prelude::*;

verus! {

/// A calendar date and wall-clock time without any time zone.
#[derive(Clone, Copy, Debug, PartialEq, Eq, Structural)]
pub struct NaiveStamp {
    pub year: i32,
    pub month: u32,
    pub day: u32,
    pub hour: u32,
    pub minute: u32,
    pub second: u32,
    pub nanosecond: u32,
}

/// A wall-clock time placed in the machine's local time zone.
#[derive(Clone, Copy, Debug, PartialEq, Eq, Structural)]
pub struct LocalStamp {
    /// The local calendar date and time.
    pub naive: NaiveStamp,
    /// Local time minus UTC, in seconds.
    pub offset_seconds: i32,
    /// Non-leap seconds since 1970-01-01 00:00:00 UTC.
    pub epoch_seconds: i64,
}

impl LocalStamp {
    /// An offset from UTC is always less than one day in magnitude.
    pub open spec fn wf(self) -> bool {
        -86400 < self.offset_seconds < 86400
    }
}

/// What `chrono::NaiveDateTime::parse_from_str` makes of `text` under `format`.
pub uninterp spec fn parsed_naive(text: Seq<u8>, format: Seq<char>) -> Option<NaiveStamp>;

/// Relies on `chrono::NaiveDateTime::parse_from_str`: a pure function of the text
/// (each byte read as the character of the same code point) and the format.
#[verifier::external_body]
pub(crate) fn parse_naive(text: &Vec<u8>, format: &str) -> (r: Option<NaiveStamp>)
    ensures
        r == parsed_naive(text@, format@),
{
    let s: String = text.iter().map(|&b| b as char).collect();
    let t = chrono::NaiveDateTime::parse_from_str(&s, format).ok()?;
    Some(NaiveStamp {
        year: t.year(),
        month: t.month(),
        day: t.day(),
        hour: t.hour(),
        minute: t.minute(),
        second: t.second(),
        nanosecond: t.nanosecond(),
    })
}

/// Relies on `NaiveDateTime::and_local_timezone(chrono::Local)` and `MappedLocalTime::single`:
/// `None` where the local time is missing or ambiguous in the machine's time zone (or where
/// `NaiveDate::from_ymd_opt` / `and_hms_nano_opt` reject the fields), else the offset
/// (`FixedOffset::local_minus_utc`, always under a day) and `DateTime::timestamp`.
#[verifier::external_body]
pub(crate) fn localize(n: NaiveStamp) -> (r: Option<(i32, i64)>)
    ensures
        r matches Some(p) ==> -86400 < p.0 < 86400,
{
    let d = chrono::NaiveDate::from_ymd_opt(n.year, n.month, n.day)?;
    let t = d.and_hms_nano_opt(n.hour, n.minute, n.second, n.nanosecond)?;
    let l = t.and_local_timezone(chrono::Local).single()?;
    Some((l.offset().local_minus_utc(), l.timestamp()))
}

/// Relies on `chrono::Local::now`: the current time in the machine's time zone, with its
/// offset (`FixedOffset::local_minus_utc`, always under a day) and `DateTime::timestamp`.
#[verifier::external_body]
pub(crate) fn local_now() -> (r: LocalStamp)
    ensures
        r.wf(),
{
    let l = chrono::Local::now();
    let t = l.naive_local();
    LocalStamp {
        naive: NaiveStamp {
            year: t.year(),
            month: t.month(),
            day: t.day(),
            hour: t.hour(),
            minute: t.minute(),
            second: t.second(),
            nanosecond: t.nanosecond(),
        },
        offset_seconds: l.offset().local_minus_utc(),
        epoch_seconds: l.timestamp(),
    }
}

/// Places `n` in the machine's local time zone; `None` where that time does not occur
/// there exactly once.
pub fn to_local(n: NaiveStamp) -> (r: Option<LocalStamp>)
    ensures
        r matches Some(l) ==> l.wf() && l.naive == n,
{
    match localize(n) {
        Some((offset_seconds, epoch_seconds)) => Some(LocalStamp { naive: n, offset_seconds, epoch_seconds }),
        None => None,
    }
}

} // verus!
