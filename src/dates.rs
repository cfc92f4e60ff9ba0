//! Timestamps read from entry names, and the retention window.

use vstd::prelude::*;
use chrono::{Datelike, Timelike};
use crate::config::{Config, DateOnlyBehavior, Retention};

verus! {

/// A calendar date and time of day without a time zone: the day as counted
/// from 1 January of year 1 (that day is 1), the second of the day, and the
/// nanosecond within that second (at or above 10^9 during a leap second).
#[derive(Clone, Copy, Debug, PartialEq, Eq, Structural)]
pub struct Timestamp {
    pub day: i32,
    pub second: u32,
    pub nano: u32,
}

/// What reading a name as a full date and time gives.
#[derive(Clone, Copy, Debug, PartialEq, Eq, Structural)]
pub enum DateTimeParse {
    Parsed(Timestamp),
    /// The pattern matched, but fields it needs for a time of day are missing.
    NotEnough,
    Invalid,
}

/// What chrono's `NaiveDateTime::parse_from_str(s, f)` gives.
pub uninterp spec fn date_time_parse(s: Seq<char>, f: Seq<char>) -> DateTimeParse;

/// The day number that chrono's `NaiveDate::parse_from_str(s, f)` gives.
pub uninterp spec fn date_parse(s: Seq<char>, f: Seq<char>) -> Option<i32>;

/// Relies on `NaiveDateTime::parse_from_str`, on `ParseError::kind` to tell
/// missing fields from other failures, and on `Datelike::num_days_from_ce`,
/// `Timelike::num_seconds_from_midnight` and `Timelike::nanosecond` to read
/// the parsed value.
#[verifier::external_body]
fn parse_date_time(s: &str, f: &str) -> (r: DateTimeParse)
    ensures
        r == date_time_parse(s@, f@),
{
    match chrono::NaiveDateTime::parse_from_str(s, f) {
        Ok(dt) => DateTimeParse::Parsed(
            Timestamp {
                day: dt.date().num_days_from_ce(),
                second: dt.time().num_seconds_from_midnight(),
                nano: dt.time().nanosecond(),
            },
        ),
        Err(e) => match e.kind() {
            chrono::format::ParseErrorKind::NotEnough => DateTimeParse::NotEnough,
            _ => DateTimeParse::Invalid,
        },
    }
}

/// Relies on `NaiveDate::parse_from_str`, and on `Datelike::num_days_from_ce`
/// to read the parsed date.
#[verifier::external_body]
fn parse_date(s: &str, f: &str) -> (r: Option<i32>)
    ensures
        r == date_parse(s@, f@),
{
    match chrono::NaiveDate::parse_from_str(s, f) {
        Ok(d) => Some(d.num_days_from_ce()),
        Err(_) => None,
    }
}

/// Relies on `Local::now` and `DateTime::naive_local`: the wall-clock time
/// now, read like a parsed timestamp. Nothing is known of its value.
#[verifier::external_body]
pub(crate) fn local_now() -> (r: Timestamp) {
    let now = chrono::Local::now().naive_local();
    Timestamp {
        day: now.date().num_days_from_ce(),
        second: now.time().num_seconds_from_midnight(),
        nano: now.time().nanosecond(),
    }
}

/// `t` moved `days` days on is strictly later than `now`.
pub open spec fn within_spec(t: Timestamp, days: int, now: Timestamp) -> bool {
    let d = t.day + days;
    d > now.day || (d == now.day && (t.second > now.second || (t.second == now.second
        && t.nano > now.nano)))
}

/// The timestamp of the date `day` at the time of day that `b` gives.
pub open spec fn date_only_stamp(day: i32, b: DateOnlyBehavior) -> Timestamp {
    Timestamp { day, second: b.second_of_day() as u32, nano: 0 }
}

/// The first format, in order, under which `name` reads as a date and time,
/// or as a date when only the time of day is missing.
pub open spec fn match_formats(
    formats: Seq<Seq<char>>,
    name: Seq<char>,
    b: DateOnlyBehavior,
) -> Option<Timestamp>
    decreases formats.len(),
{
    if formats.len() == 0 {
        None
    } else {
        match date_time_parse(name, formats[0]) {
            DateTimeParse::Parsed(t) => Some(t),
            DateTimeParse::NotEnough => match date_parse(name, formats[0]) {
                Some(d) => Some(date_only_stamp(d, b)),
                None => match_formats(formats.drop_first(), name, b),
            },
            DateTimeParse::Invalid => match_formats(formats.drop_first(), name, b),
        }
    }
}

impl DateOnlyBehavior {
    /// The date `day` at the time of day this behaviour gives.
    pub fn add_to_date(&self, day: i32) -> (r: Timestamp)
        requires
            self.is_valid(),
        ensures
            r == date_only_stamp(day, *self),
    {
        let second: u32 = match self {
            DateOnlyBehavior::Start => 0,
            DateOnlyBehavior::Noon => 43200,
            DateOnlyBehavior::End => 86399,
            DateOnlyBehavior::Hour(h) => *h * 3600,
        };
        Timestamp { day, second, nano: 0 }
    }
}

/// The timestamp that the configured formats read from `name`, if any.
pub fn attempt_path_parse(config: &Config, name: &str) -> (r: Option<Timestamp>)
    requires
        config.date_only_behavior.is_valid(),
    ensures
        r == match_formats(config@.format, name@, config.date_only_behavior),
{
    let ghost all = config@.format;
    let mut k: usize = 0;
    assert(all.skip(0) =~= all);
    while k < config.format.len()
        invariant
            k <= config.format@.len(),
            all == config@.format,
            config.date_only_behavior.is_valid(),
            match_formats(all, name@, config.date_only_behavior) == match_formats(
                all.skip(k as int),
                name@,
                config.date_only_behavior,
            ),
        decreases config.format@.len() - k,
    {
        let f = config.format[k].as_str();
        assert(all.skip(k as int)[0] == f@);
        assert(all.skip(k as int).drop_first() =~= all.skip(k + 1));
        match parse_date_time(name, f) {
            DateTimeParse::Parsed(t) => {
                return Some(t);
            },
            DateTimeParse::NotEnough => {
                match parse_date(name, f) {
                    Some(d) => {
                        return Some(config.date_only_behavior.add_to_date(d));
                    },
                    None => {},
                }
            },
            DateTimeParse::Invalid => {},
        }
        k = k + 1;
    }
    None
}

/// A timestamp that can be held against the retention window.
pub trait WithinRange {
    /// Whether the entry is still inside the retention window at the current
    /// wall-clock time.
    fn is_within(&self, config: &Config) -> bool
        requires
            config.retention is Days,
    ;
}

impl Timestamp {
    /// Whether this timestamp moved `days` days on is strictly later than `now`.
    pub fn is_within_at(&self, days: i32, now: &Timestamp) -> (r: bool)
        ensures
            r == within_spec(*self, days as int, *now),
    {
        let d: i64 = self.day as i64 + days as i64;
        let nd: i64 = now.day as i64;
        d > nd || (d == nd && (self.second > now.second || (self.second == now.second
            && self.nano > now.nano)))
    }
}

impl WithinRange for Timestamp {
    fn is_within(&self, config: &Config) -> (r: bool) {
        match config.retention {
            Retention::Days(days) => {
                let now = local_now();
                self.is_within_at(days, &now)
            },
            Retention::Unknown => false,
        }
    }
}

} // verus!
