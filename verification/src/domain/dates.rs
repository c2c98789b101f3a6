//! Local date and time of a Discord timestamp in an IANA time zone.
use vstd::prelude::*;
use chrono::{Datelike, Offset, TimeZone, Timelike};
use crate::domain::models::LocalDateTime;
use crate::text::{decimal, padded_decimal, push_char, push_decimal, push_padded};

verus! {

/// The calendar fields of a moment in UTC: Gregorian date, time of day and ISO week.
#[derive(Debug, Clone, Copy, PartialEq, Eq)]
pub struct CivilTime {
    pub year: i32,
    pub month: u32,
    pub day: u32,
    pub hour: u32,
    pub minute: u32,
    pub second: u32,
    pub iso_year: i32,
    pub iso_week: u32,
}

/// Seconds since the Unix epoch of an RFC 3339 date-time, as chrono parses it.
pub uninterp spec fn rfc3339_seconds(text: Seq<char>) -> Option<i64>;

/// The UTC offset in seconds that the IANA zone named `zone` has at `utc_seconds`,
/// as chrono-tz computes it.
pub uninterp spec fn zone_offset_seconds(zone: Seq<char>, utc_seconds: i64) -> Option<i32>;

/// The calendar fields of `seconds` after the Unix epoch, as chrono computes them.
pub uninterp spec fn civil_time_at(seconds: i64) -> Option<CivilTime>;

/// `DateTime::parse_from_rfc3339` of chrono, reduced to whole seconds since the epoch
/// (`DateTime::timestamp`). `None` where chrono returns an error. What the number is
/// for a given text is named, not stated.
#[verifier::external_body]
fn parse_rfc3339(text: &str) -> (res: Option<i64>)
    ensures
        res == rfc3339_seconds(text@),
{
    chrono::DateTime::parse_from_rfc3339(text).ok().map(|t| t.timestamp())
}

/// `TimeZone::offset_from_utc_datetime` of chrono-tz for the zone named `zone`
/// (parsed with `Tz::from_str`) at `utc_seconds` (built with `DateTime::from_timestamp`).
/// `None` for an unknown zone name or a moment chrono cannot represent. The offset is a
/// chrono `FixedOffset`, which is always less than one day in either direction.
#[verifier::external_body]
fn zone_offset(zone: &str, utc_seconds: i64) -> (res: Option<i32>)
    ensures
        res == zone_offset_seconds(zone@, utc_seconds),
        res matches Some(o) ==> -86400 < o < 86400,
{
    let tz = zone.parse::<chrono_tz::Tz>().ok()?;
    let utc = chrono::DateTime::from_timestamp(utc_seconds, 0)?.naive_utc();
    Some(tz.offset_from_utc_datetime(&utc).fix().local_minus_utc())
}

/// The `Datelike`, `Timelike` and `iso_week` fields of chrono's `DateTime::from_timestamp`
/// at `seconds`. `None` where chrono cannot represent the moment. Month, day, hour, minute,
/// second and ISO week lie in the ranges that chrono documents for them.
#[verifier::external_body]
fn civil_time(seconds: i64) -> (res: Option<CivilTime>)
    ensures
        res == civil_time_at(seconds),
        res matches Some(c) ==> 1 <= c.month <= 12 && 1 <= c.day <= 31 && c.hour < 24
            && c.minute < 60 && c.second < 60 && 1 <= c.iso_week <= 53,
{
    let t = chrono::DateTime::from_timestamp(seconds, 0)?.naive_utc();
    Some(CivilTime {
        year: t.year(),
        month: t.month(),
        day: t.day(),
        hour: t.hour(),
        minute: t.minute(),
        second: t.second(),
        iso_year: t.iso_week().year(),
        iso_week: t.iso_week().week(),
    })
}

/// A year as chrono's `%Y` writes it: four digits for 0 to 9999, a sign outside that range.
pub open spec fn year_text(y: int) -> Seq<char> {
    if 0 <= y <= 9999 {
        padded_decimal(y as nat, 4)
    } else if y > 9999 {
        seq!['+'] + decimal(y as nat)
    } else {
        seq!['-'] + padded_decimal((-y) as nat, 4)
    }
}

/// Two-digit notation of a field below 100.
pub open spec fn two(n: u32) -> Seq<char> {
    padded_decimal(n as nat, 2)
}

/// What a `LocalDateTime` holds, as character sequences.
pub ghost struct LocalView {
    pub date: Seq<char>,
    pub month: Seq<char>,
    pub week: Seq<char>,
    pub time: Seq<char>,
    pub file_timestamp: Seq<char>,
}

impl View for LocalDateTime {
    type V = LocalView;

    open spec fn view(&self) -> LocalView {
        LocalView {
            date: self.date@,
            month: self.month@,
            week: self.week@,
            time: self.time@,
            file_timestamp: self.file_timestamp@,
        }
    }
}

/// The notations of the calendar fields `c`: `YYYY-MM-DD`, `YYYY-MM`, `YYYY-Www`
/// (ISO week), `HH:MM` and `YYYYMMDD_HHMMSS`.
pub open spec fn local_view_of(c: CivilTime) -> LocalView {
    LocalView {
        date: year_text(c.year as int) + seq!['-'] + two(c.month) + seq!['-'] + two(c.day),
        month: year_text(c.year as int) + seq!['-'] + two(c.month),
        week: year_text(c.iso_year as int) + seq!['-', 'W'] + two(c.iso_week),
        time: two(c.hour) + seq![':'] + two(c.minute),
        file_timestamp: year_text(c.year as int) + two(c.month) + two(c.day) + seq!['_']
            + two(c.hour) + two(c.minute) + two(c.second),
    }
}

/// The local date and time of `timestamp` in the zone named `zone`, or the error message.
pub open spec fn local_spec(timestamp: Seq<char>, zone: Seq<char>) -> Result<LocalView, Seq<char>> {
    match rfc3339_seconds(timestamp) {
        None => Err("Invalid timestamp: "@ + timestamp),
        Some(utc) => match zone_offset_seconds(zone, utc) {
            None => Err("Invalid time zone: "@ + zone),
            Some(offset) => {
                let local = utc + offset;
                if local < i64::MIN || local > i64::MAX {
                    Err("Invalid timestamp: "@ + timestamp)
                } else {
                    match civil_time_at(local as i64) {
                        None => Err("Invalid timestamp: "@ + timestamp),
                        Some(c) => Ok(local_view_of(c)),
                    }
                }
            },
        },
    }
}

fn push_year(s: &mut String, y: i32)
    ensures
        final(s)@ == old(s)@ + year_text(y as int),
{
    if 0 <= y && y <= 9999 {
        push_padded(s, y as u32, 4);
    } else if y > 9999 {
        push_char(s, '+');
        push_decimal(s, y as u32);
        assert(final(s)@ =~= old(s)@ + year_text(y as int));
    } else {
        push_char(s, '-');
        let magnitude: u32 = if y == i32::MIN { 2147483648u32 } else { (-y) as u32 };
        push_padded(s, magnitude, 4);
        assert(final(s)@ =~= old(s)@ + year_text(y as int));
    }
}

fn error_with(prefix: &str, detail: &str) -> (res: String)
    ensures
        res@ == prefix@ + detail@,
{
    let mut res = String::from_str(prefix);
    res.append(detail);
    res
}

/// The date, month, ISO week, time and file timestamp of `timestamp` in the IANA zone `zone`.
pub fn local(timestamp: &str, zone: &str) -> (res: Result<LocalDateTime, String>)
    ensures
        match res {
            Ok(l) => local_spec(timestamp@, zone@) == Ok::<LocalView, Seq<char>>(l@),
            Err(e) => local_spec(timestamp@, zone@) == Err::<LocalView, Seq<char>>(e@),
        },
{
    let utc = match parse_rfc3339(timestamp) {
        Some(u) => u,
        None => return Err(error_with("Invalid timestamp: ", timestamp)),
    };
    let offset = match zone_offset(zone, utc) {
        Some(o) => o,
        None => return Err(error_with("Invalid time zone: ", zone)),
    };
    let local = match utc.checked_add(offset as i64) {
        Some(l) => l,
        None => return Err(error_with("Invalid timestamp: ", timestamp)),
    };
    let c = match civil_time(local) {
        Some(c) => c,
        None => return Err(error_with("Invalid timestamp: ", timestamp)),
    };
    let mut date = String::new();
    push_year(&mut date, c.year);
    push_char(&mut date, '-');
    push_padded(&mut date, c.month, 2);
    let month_text = date.clone();
    push_char(&mut date, '-');
    push_padded(&mut date, c.day, 2);

    let mut week = String::new();
    push_year(&mut week, c.iso_year);
    push_char(&mut week, '-');
    push_char(&mut week, 'W');
    push_padded(&mut week, c.iso_week, 2);

    let mut time = String::new();
    push_padded(&mut time, c.hour, 2);
    push_char(&mut time, ':');
    push_padded(&mut time, c.minute, 2);

    let mut stamp = String::new();
    push_year(&mut stamp, c.year);
    push_padded(&mut stamp, c.month, 2);
    push_padded(&mut stamp, c.day, 2);
    push_char(&mut stamp, '_');
    push_padded(&mut stamp, c.hour, 2);
    push_padded(&mut stamp, c.minute, 2);
    push_padded(&mut stamp, c.second, 2);

    let ghost v = local_view_of(c);
    assert(date@ =~= v.date);
    assert(month_text@ =~= v.month);
    assert(week@ =~= v.week);
    assert(time@ =~= v.time);
    assert(stamp@ =~= v.file_timestamp);
    let res = LocalDateTime { date, month: month_text, week, time, file_timestamp: stamp };
    Ok(res)
}

} // verus!
