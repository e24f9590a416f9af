//! Instants, calendar days and the calls into `chrono` that convert between
//! them.
//!
//! An instant is a count of seconds since 1970-01-01T00:00:00Z, a calendar day
//! is its number in the proleptic Gregorian calendar with January 1 of year 1 as
//! day 1, and a UTC offset is a number of seconds east of Greenwich.
use chrono::{DateTime, Datelike, FixedOffset, Local, NaiveDate, TimeDelta, Timelike};
use vstd::prelude::*;

verus! {

pub const SECONDS_PER_DAY: i64 = 86_400;

/// The number of the day 1970-01-01.
pub const UNIX_EPOCH_DAY: i32 = 719_163;

/// The number of the first day that `chrono` can represent.
pub const MIN_DAY: i32 = -95_746_129;

/// The number of the last day that `chrono` can represent.
pub const MAX_DAY: i32 = 95_745_399;

pub const NANOS_PER_SECOND: u32 = 1_000_000_000;

/// The day on which an instant falls at the given UTC offset.
pub open spec fn local_day(timestamp: int, utc_offset: int) -> int {
    (timestamp + utc_offset) / (SECONDS_PER_DAY as int) + UNIX_EPOCH_DAY
}

/// The second of the day at which an instant falls at the given UTC offset.
pub open spec fn second_of_day(timestamp: int, utc_offset: int) -> int {
    (timestamp + utc_offset) % (SECONDS_PER_DAY as int)
}

pub open spec fn day_in_range(day: int) -> bool {
    MIN_DAY <= day <= MAX_DAY
}

/// Whether `chrono` can represent the instant.
pub open spec fn instant_in_range(timestamp: int) -> bool {
    day_in_range(local_day(timestamp, 0))
}

pub open spec fn valid_offset(utc_offset: int) -> bool {
    -SECONDS_PER_DAY < utc_offset < SECONDS_PER_DAY
}

/// An instant together with the UTC offset of its local time zone.
#[derive(Clone, Copy, Debug, PartialEq, Eq, Structural)]
pub struct Moment {
    /// Whole seconds since the Unix epoch.
    pub timestamp: i64,
    /// Nanoseconds past that second; a billion or more during a leap second.
    pub nanos: u32,
    /// Seconds by which local time is ahead of UTC.
    pub utc_offset: i32,
}

impl Moment {
    pub open spec fn wf(self) -> bool {
        &&& instant_in_range(self.timestamp as int)
        &&& self.nanos < 2 * NANOS_PER_SECOND
        &&& valid_offset(self.utc_offset as int)
    }

    /// The local calendar day of the moment.
    pub open spec fn day(self) -> int {
        local_day(self.timestamp as int, self.utc_offset as int)
    }

    /// Makes a moment; `None` where the parts do not describe one.
    pub fn new(timestamp: i64, nanos: u32, utc_offset: i32) -> (r: Option<Moment>)
        ensures
            r is Some <==> (Moment { timestamp, nanos, utc_offset }).wf(),
            r is Some ==> r == Some(Moment { timestamp, nanos, utc_offset }),
    {
        let first: i64 = (MIN_DAY as i64 - UNIX_EPOCH_DAY as i64) * SECONDS_PER_DAY;
        let end: i64 = (MAX_DAY as i64 + 1 - UNIX_EPOCH_DAY as i64) * SECONDS_PER_DAY;
        if first <= timestamp && timestamp < end && nanos < 2 * NANOS_PER_SECOND
            && -SECONDS_PER_DAY < utc_offset as i64 && (utc_offset as i64) < SECONDS_PER_DAY {
            Some(Moment { timestamp, nanos, utc_offset })
        } else {
            None
        }
    }

    /// The number of the local calendar day of the moment.
    pub fn date_naive(self) -> (day: i32)
        requires
            self.wf(),
            day_in_range(self.day()),
        ensures
            day == self.day(),
    {
        local_date_number(self.timestamp, self.utc_offset)
    }
}

/// Whole seconds from `start` to `end`, rounded towards zero. A leap second in
/// progress at the earlier time of day counts as a second of its own.
pub open spec fn seconds_between(start: Moment, end: Moment) -> int {
    let start_second = second_of_day(start.timestamp as int, 0);
    let end_second = second_of_day(end.timestamp as int, 0);
    let leap: int = if end_second > start_second && start.nanos >= NANOS_PER_SECOND {
        1
    } else if end_second < start_second && end.nanos >= NANOS_PER_SECOND {
        -1
    } else {
        0
    };
    let nanos = (end.timestamp - start.timestamp + leap) * NANOS_PER_SECOND + (end.nanos
        - start.nanos);
    if nanos >= 0 {
        nanos / (NANOS_PER_SECOND as int)
    } else {
        -((-nanos) / (NANOS_PER_SECOND as int))
    }
}

/// Calls `DateTime::signed_duration_since` on the two instants in UTC and
/// `TimeDelta::num_seconds` on the difference. The contract claims that the
/// result is the difference in whole seconds, rounded towards zero, with the
/// leap seconds that the nanoseconds encode counted as `chrono` counts them.
#[verifier::external_body]
pub(crate) fn elapsed_seconds(start: Moment, end: Moment) -> (seconds: i64)
    requires
        start.wf(),
        end.wf(),
    ensures
        seconds == seconds_between(start, end),
{
    let from = DateTime::from_timestamp(start.timestamp, 0).unwrap().naive_utc();
    let to = DateTime::from_timestamp(end.timestamp, 0).unwrap().naive_utc();
    let from = from.with_nanosecond(start.nanos).unwrap().and_utc();
    let to = to.with_nanosecond(end.nanos).unwrap().and_utc();
    to.signed_duration_since(from).num_seconds()
}

/// The instant `seconds` after a moment, or before it. A leap second in progress
/// is skipped on the way back.
pub open spec fn shifted(start: Moment, seconds: int) -> int {
    start.timestamp + seconds + if start.nanos >= NANOS_PER_SECOND && seconds < 0 {
        1int
    } else {
        0
    }
}

/// No more seconds than this fit into a duration of `chrono`.
pub const MAX_DURATION_SECONDS: i64 = 9_223_372_036_854_775;

/// Calls `TimeDelta::seconds`, adds the duration to the instant in UTC and calls
/// `DateTime::timestamp`. The contract claims that the result is so many seconds
/// later, with a leap second that the nanoseconds encode treated as `chrono`
/// treats it.
#[verifier::external_body]
pub(crate) fn timestamp_after(start: Moment, seconds: i64) -> (timestamp: i64)
    requires
        start.wf(),
        -MAX_DURATION_SECONDS <= seconds <= MAX_DURATION_SECONDS,
        instant_in_range(shifted(start, seconds as int)),
    ensures
        timestamp == shifted(start, seconds as int),
{
    let from = DateTime::from_timestamp(start.timestamp, 0).unwrap().naive_utc();
    let from = from.with_nanosecond(start.nanos).unwrap().and_utc();
    (from + TimeDelta::seconds(seconds)).timestamp()
}

/// Calls `DateTime::from_timestamp` and `DateTime::with_timezone` with the
/// machine's `Local` zone, and reads the UTC offset of the result. The contract
/// claims that there is a result exactly for the instants that `chrono` can
/// represent, and that an offset is less than a day; which offset it is depends
/// on the time zone of the machine.
#[verifier::external_body]
pub(crate) fn local_offset(timestamp: i64) -> (r: Option<i32>)
    ensures
        r is Some <==> instant_in_range(timestamp as int),
        r matches Some(utc_offset) ==> valid_offset(utc_offset as int),
{
    let instant = DateTime::from_timestamp(timestamp, 0)?;
    Some(instant.with_timezone(&Local).offset().local_minus_utc())
}

/// Whether `utc_offset` is the offset that the time zone of the machine has at the
/// instant, as `local_offset` answers it.
pub closed spec fn is_local_offset(timestamp: i64, utc_offset: i32) -> bool {
    call_ensures(local_offset, (timestamp,), Some(utc_offset))
}

/// A local offset is one that `local_offset` answers for that very instant, and no
/// other.
pub(crate) proof fn law_local_offset_is_answered(timestamp: i64, utc_offset: i32)
    ensures
        is_local_offset(timestamp, utc_offset) <==> call_ensures(
            local_offset,
            (timestamp,),
            Some(utc_offset),
        ),
{
}

/// A local offset is less than a day.
pub proof fn lemma_local_offset_is_valid(timestamp: i64, utc_offset: i32)
    requires
        is_local_offset(timestamp, utc_offset),
    ensures
        valid_offset(utc_offset as int),
        instant_in_range(timestamp as int),
{
}

/// The offset of the machine's time zone at an instant, where `chrono` can
/// represent it.
pub(crate) fn zone_offset(timestamp: i64) -> (r: Option<i32>)
    ensures
        r is Some <==> instant_in_range(timestamp as int),
        r matches Some(utc_offset) ==> is_local_offset(timestamp, utc_offset) && valid_offset(
            utc_offset as int,
        ),
{
    local_offset(timestamp)
}

/// Calls `DateTime::with_timezone` with a `FixedOffset`, then
/// `DateTime::date_naive` and `Datelike::num_days_from_ce`. The contract claims
/// that the result is the number of the day on which the instant falls at that
/// offset.
#[verifier::external_body]
fn local_date_number(timestamp: i64, utc_offset: i32) -> (day: i32)
    requires
        instant_in_range(timestamp as int),
        valid_offset(utc_offset as int),
        day_in_range(local_day(timestamp as int, utc_offset as int)),
    ensures
        day == local_day(timestamp as int, utc_offset as int),
{
    let zone = FixedOffset::east_opt(utc_offset).unwrap();
    let instant = DateTime::from_timestamp(timestamp, 0).unwrap();
    instant.with_timezone(&zone).date_naive().num_days_from_ce()
}

/// The decimal digit of `n`, which is below ten.
pub open spec fn digit_char(n: int) -> char {
    ('0' as int + n) as char
}

/// The hour and minute of a second of the day as `HH:MM`.
pub open spec fn clock_text(second: int) -> Seq<char> {
    let hour = second / 3600;
    let minute = second % 3600 / 60;
    seq![
        digit_char(hour / 10),
        digit_char(hour % 10),
        ':',
        digit_char(minute / 10),
        digit_char(minute % 10),
    ]
}

/// Calls `DateTime::with_timezone` with a `FixedOffset` and `DateTime::format`
/// with `%H:%M`. The contract claims that the text is the hour and the minute at
/// that offset, two digits each.
#[verifier::external_body]
pub(crate) fn format_clock(timestamp: i64, utc_offset: i32) -> (text: String)
    requires
        instant_in_range(timestamp as int),
        valid_offset(utc_offset as int),
    ensures
        text@ == clock_text(second_of_day(timestamp as int, utc_offset as int)),
{
    let zone = FixedOffset::east_opt(utc_offset).unwrap();
    let instant = DateTime::from_timestamp(timestamp, 0).unwrap();
    instant.with_timezone(&zone).format("%H:%M").to_string()
}

/// The instant that `DateTime::parse_from_rfc3339` reads from a text, in whole
/// seconds, or `None` where it reports an error.
pub uninterp spec fn rfc3339_timestamp(text: Seq<char>) -> Option<i64>;

/// Calls `DateTime::parse_from_rfc3339` and `DateTime::timestamp`. The contract
/// names the result, and claims that it lies within the years 0 to 9999 of the
/// format, give or take the UTC offset that the text names.
#[verifier::external_body]
pub(crate) fn parse_rfc3339(text: &str) -> (r: Option<i64>)
    ensures
        r == rfc3339_timestamp(text@),
        r matches Some(timestamp) ==> -62_167_305_600 < timestamp < 253_402_387_200,
{
    match DateTime::parse_from_rfc3339(text) {
        Ok(instant) => Some(instant.timestamp()),
        Err(_) => None,
    }
}

/// The number of the day that `NaiveDate::parse_from_str` reads from a text by
/// the format `%Y-%m-%d`, or `None` where it reports an error.
pub uninterp spec fn ymd_day(text: Seq<char>) -> Option<i32>;

/// Calls `NaiveDate::parse_from_str` with `%Y-%m-%d` and
/// `Datelike::num_days_from_ce`. The contract names the result, and claims that
/// it is a day that `chrono` can represent.
#[verifier::external_body]
pub(crate) fn parse_ymd(text: &str) -> (r: Option<i32>)
    ensures
        r == ymd_day(text@),
        r matches Some(day) ==> day_in_range(day as int),
{
    match NaiveDate::parse_from_str(text, "%Y-%m-%d") {
        Ok(date) => Some(date.num_days_from_ce()),
        Err(_) => None,
    }
}

/// Calls `Local::now`, `DateTime::date_naive` and `Datelike::num_days_from_ce`.
/// The contract claims only that the result is a day that `chrono` can
/// represent: which day it is depends on the clock and the time zone of the
/// machine.
#[verifier::external_body]
pub(crate) fn current_local_day() -> (day: i32)
    ensures
        day_in_range(day as int),
{
    Local::now().date_naive().num_days_from_ce()
}

/// Whether `day` is the current local day, as `current_local_day` answers it.
pub closed spec fn is_current_day(day: i32) -> bool {
    call_ensures(current_local_day, (), day)
}

/// The current day is one that `current_local_day` answers, and no other.
pub(crate) proof fn law_current_day_is_answered(day: i32)
    ensures
        is_current_day(day) <==> call_ensures(current_local_day, (), day),
{
}

/// The current local day.
pub(crate) fn today() -> (day: i32)
    ensures
        day_in_range(day as int),
        is_current_day(day),
{
    current_local_day()
}

/// A day begins at its local midnight and lasts 86400 seconds; day 719163 is the
/// one that begins at the Unix epoch.
pub proof fn law_day_holds_its_seconds(timestamp: int, utc_offset: int)
    ensures
        86_400 * (local_day(timestamp, utc_offset) - 719_163) <= timestamp + utc_offset < 86_400 * (
        local_day(timestamp, utc_offset) - 719_162),
{
}

/// A second of the day counts from the local midnight.
pub proof fn law_second_of_day_counts_from_midnight(timestamp: int, utc_offset: int)
    ensures
        0 <= second_of_day(timestamp, utc_offset) < 86_400,
        second_of_day(timestamp, utc_offset) == timestamp + utc_offset - 86_400 * (local_day(
            timestamp,
            utc_offset,
        ) - 719_163),
{
}

/// A digit is the character that many places after `0`.
pub proof fn law_digit_characters(n: int)
    requires
        0 <= n < 10,
    ensures
        digit_char(n) as int == 0x30 + n,
{
}

/// A clock shows the hour and the minute, each with two digits.
pub proof fn law_clock_shows_hour_and_minute(hour: int, minute: int, rest: int)
    requires
        0 <= hour < 24,
        0 <= minute < 60,
        0 <= rest < 60,
    ensures
        ({
            let text = clock_text(3_600 * hour + 60 * minute + rest);
            &&& text.len() == 5
            &&& text[0] as int == 0x30 + hour / 10
            &&& text[1] as int == 0x30 + hour % 10
            &&& text[2] == ':'
            &&& text[3] as int == 0x30 + minute / 10
            &&& text[4] as int == 0x30 + minute % 10
        }),
{
    let second = 3_600 * hour + 60 * minute + rest;
    assert(second / 3_600 == hour);
    assert(second % 3_600 == 60 * minute + rest);
    assert(second % 3_600 / 60 == minute);
}

/// The seconds from one moment to another are the whole ones of the nanoseconds
/// between them, with one second more where a leap second is in progress at the
/// start and the end has the later time of day, and one less where a leap second is
/// in progress at the end and the start has the later time of day; and the way back
/// is as long as the way there.
pub proof fn law_seconds_between_are_whole(start: Moment, end: Moment)
    ensures
        seconds_between(end, start) == -seconds_between(start, end),
        ({
            let start_second = start.timestamp as int % 86_400;
            let end_second = end.timestamp as int % 86_400;
            let extra: int = if start.nanos >= 1_000_000_000 && end_second > start_second {
                1
            } else if end.nanos >= 1_000_000_000 && end_second < start_second {
                -1
            } else {
                0
            };
            let nanos = (end.timestamp - start.timestamp + extra) * 1_000_000_000 + end.nanos
                - start.nanos;
            let seconds = seconds_between(start, end);
            nanos >= 0 ==> seconds * 1_000_000_000 <= nanos < (seconds + 1) * 1_000_000_000
        }),
{
}

/// Going some seconds on from a moment, or back from one outside a leap second, is
/// adding them.
pub proof fn law_shifting_adds_seconds(start: Moment, seconds: int)
    ensures
        seconds >= 0 || start.nanos < 1_000_000_000 ==> shifted(start, seconds) == start.timestamp
            + seconds,
        seconds < 0 && start.nanos >= 1_000_000_000 ==> shifted(start, seconds) == start.timestamp
            + seconds + 1,
{
}

/// A moment lies within the calendar, has less than two seconds of nanoseconds, and
/// an offset of less than a day; its day is the one at its offset.
pub proof fn law_moment_parts(moment: Moment)
    ensures
        moment.wf() <==> {
            &&& 86_400 * (MIN_DAY - 719_163) <= moment.timestamp < 86_400 * (MAX_DAY - 719_162)
            &&& moment.nanos < 2_000_000_000
            &&& -86_400 < moment.utc_offset < 86_400
        },
        86_400 * (moment.day() - 719_163) <= moment.timestamp + moment.utc_offset < 86_400 * (
        moment.day() - 719_162),
{
}

} // verus!
