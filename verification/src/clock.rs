//! Readings of the clock.

use crate::text::digit_char;
use std::time::{Duration, SystemTime, SystemTimeError};
use vstd::prelude::*;

verus! {

/// A point in time, as the operating system tells it.
#[verifier::external_type_specification]
#[verifier::external_body]
pub struct ExSystemTime(SystemTime);

/// The answer to a span of time that would be negative.
#[verifier::external_type_specification]
#[verifier::external_body]
pub struct ExSystemTimeError(SystemTimeError);

/// `SystemTime::now` reads the clock: any time may come back.
pub assume_specification[ SystemTime::now ]() -> (now: SystemTime);

/// The span from 1970 to a point in time, an error for a point before it.
pub uninterp spec fn span_since_epoch(time: SystemTime) -> Result<Duration, SystemTimeError>;

/// Calls `SystemTime::duration_since` with `std::time::UNIX_EPOCH`: what it gives is a function of
/// the point in time alone.
#[verifier::external_body]
fn since_epoch(time: &SystemTime) -> (span: Result<Duration, SystemTimeError>)
    ensures
        span == span_since_epoch(*time),
{
    time.duration_since(std::time::UNIX_EPOCH)
}

/// The whole seconds of a span.
pub uninterp spec fn span_seconds(span: Duration) -> u64;

/// The whole nanoseconds of a span.
pub uninterp spec fn span_nanos(span: Duration) -> u128;

/// `Duration::as_secs` gives the whole seconds of a span, a function of the span alone.
pub assume_specification[ Duration::as_secs ](span: &Duration) -> (seconds: u64)
    ensures
        seconds == span_seconds(*span),
;

/// `Duration::as_nanos` gives the whole nanoseconds of a span, a function of the span alone.
pub assume_specification[ Duration::as_nanos ](span: &Duration) -> (nanos: u128)
    ensures
        nanos == span_nanos(*span),
;

/// The low 64 bits of a count of nanoseconds.
pub fn low_word(nanos: u128) -> (word: u64)
    ensures
        word == nanos % 0x1_0000_0000_0000_0000,
{
    (nanos % 0x1_0000_0000_0000_0000) as u64
}

/// The whole seconds of a span since 1970; a span that would be negative has none.
pub open spec fn seconds_in(span: Result<Duration, SystemTimeError>) -> Option<u64> {
    match span {
        Ok(s) => Some(span_seconds(s)),
        Err(_) => None,
    }
}

/// The low 64 bits of the nanoseconds of a span since 1970; a span that would be negative has none.
pub open spec fn nanos_in(span: Result<Duration, SystemTimeError>) -> Option<u64> {
    match span {
        Ok(s) => Some((span_nanos(s) % 0x1_0000_0000_0000_0000) as u64),
        Err(_) => None,
    }
}

/// Whether a number is the whole seconds from 1970 to some point in time.
pub open spec fn clock_second(seconds: u64) -> bool {
    exists|now: SystemTime| seconds_in(#[trigger] span_since_epoch(now)) == Some(seconds)
}

/// Whether a number is the low 64 bits of the nanoseconds from 1970 to some point in time.
pub open spec fn clock_nanos(nanos: u64) -> bool {
    exists|now: SystemTime| nanos_in(#[trigger] span_since_epoch(now)) == Some(nanos)
}

/// Whether some point in time lies before 1970.
pub open spec fn clock_before_epoch() -> bool {
    exists|now: SystemTime| (#[trigger] span_since_epoch(now)) is Err
}

/// Takes the whole seconds of a span since 1970.
pub fn seconds_of(span: Result<Duration, SystemTimeError>) -> (seconds: Option<u64>)
    ensures
        seconds == seconds_in(span),
{
    match span {
        Ok(span) => Some(span.as_secs()),
        Err(_) => None,
    }
}

/// Takes the low 64 bits of the nanoseconds of a span since 1970.
pub fn nanos_of(span: Result<Duration, SystemTimeError>) -> (nanos: Option<u64>)
    ensures
        nanos == nanos_in(span),
{
    match span {
        Ok(span) => Some(low_word(span.as_nanos())),
        Err(_) => None,
    }
}

/// Whole seconds since 1970, `None` while the clock stands before it. Which point in time the clock
/// shows is left open.
pub fn get_timestamp() -> (seconds: Option<u64>)
    ensures
        exists|now: SystemTime| seconds == seconds_in(#[trigger] span_since_epoch(now)),
{
    seconds_of(since_epoch(&SystemTime::now()))
}

/// The low 64 bits of the nanoseconds since 1970, `None` while the clock stands before it. Which
/// point in time the clock shows is left open.
pub fn get_timestamp_nanos() -> (nanos: Option<u64>)
    ensures
        exists|now: SystemTime| nanos == nanos_in(#[trigger] span_since_epoch(now)),
{
    nanos_of(since_epoch(&SystemTime::now()))
}

/// One reading of the clock: whole seconds since 1970, and the low 64 bits of the nanoseconds.
#[derive(Clone, Copy, PartialEq, Eq, Structural, Debug)]
pub struct ClockReading {
    pub seconds: u64,
    pub nanos: u64,
}

impl ClockReading {
    /// Whether both numbers are what they stand for, each of some point in time.
    pub open spec fn is_read(self) -> bool {
        clock_second(self.seconds) && clock_nanos(self.nanos)
    }
}

/// Whether every reading holds what it stands for.
pub open spec fn all_read(readings: Seq<ClockReading>) -> bool {
    forall|i: int| 0 <= i < readings.len() ==> (#[trigger] readings[i]).is_read()
}

/// The reading that nanoseconds and seconds make up, where there are both.
pub open spec fn reading_from(nanos: Option<u64>, seconds: Option<u64>) -> Option<ClockReading> {
    match (nanos, seconds) {
        (Some(n), Some(s)) => Some(ClockReading { seconds: s, nanos: n }),
        _ => None,
    }
}

/// Puts a reading together from nanoseconds and seconds, where there are both.
pub fn reading_of(nanos: Option<u64>, seconds: Option<u64>) -> (reading: Option<ClockReading>)
    ensures
        reading == reading_from(nanos, seconds),
{
    match (nanos, seconds) {
        (Some(nanos), Some(seconds)) => Some(ClockReading { seconds, nanos }),
        _ => None,
    }
}

/// Reads the nanoseconds and then the seconds, `None` while the clock stands before 1970: the
/// `reading_of` both.
pub fn read_clock() -> (reading: Option<ClockReading>)
    ensures
        match reading {
            Some(r) => r.is_read(),
            None => clock_before_epoch(),
        },
{
    reading_of(get_timestamp_nanos(), get_timestamp())
}

/// Hour, minute and second, two digits each.
pub open spec fn clock_text(hour: nat, minute: nat, second: nat) -> Seq<char> {
    seq![
        digit_char(hour / 10),
        digit_char(hour % 10),
        ':',
        digit_char(minute / 10),
        digit_char(minute % 10),
        ':',
        digit_char(second / 10),
        digit_char(second % 10),
    ]
}

/// Whether a text is a time of day.
pub open spec fn is_time_of_day(text: Seq<char>) -> bool {
    exists|hour: nat, minute: nat, second: nat|
        hour < 24 && minute < 60 && second < 60 && text == #[trigger] clock_text(
            hour,
            minute,
            second,
        )
}

/// The last second that the calendar reaches.
pub const CALENDAR_END: u64 = 8_210_266_876_799;

/// Whether a text is the local time of day, as `%H:%M:%S`, that a second since 1970 has in some time
/// zone.
pub uninterp spec fn local_clock(seconds: i64, text: Seq<char>) -> bool;

/// Calls `chrono::DateTime::from_timestamp`, moves what it gives into `chrono::Local` and formats
/// hour, minute and second, two digits each. The calendar reaches `CALENDAR_END`, and whole seconds
/// never fall on a leap second, so the seconds stay below sixty. Which of the possible times of day
/// it is rests on the machine's time zone and is left unsaid. A zone that is set a whole day or more
/// apart from UTC makes `chrono` panic, whatever the second.
#[verifier::external_body]
fn local_time(seconds: i64) -> (text: String)
    requires
        0 <= seconds <= CALENDAR_END,
    ensures
        local_clock(seconds, text@),
        is_time_of_day(text@),
{
    let moment = chrono::DateTime::from_timestamp(seconds, 0).unwrap();
    moment.with_timezone(&chrono::Local).format("%H:%M:%S").to_string()
}

/// Whether a text stands in front of a log line at a second since 1970: the local time of day, or
/// dashes without a second and past the end of the calendar.
pub open spec fn is_stamp_at(seconds: Option<u64>, text: Seq<char>) -> bool {
    match seconds {
        Some(s) if s <= CALENDAR_END => local_clock(s as i64, text) && is_time_of_day(text),
        _ => text == "--:--:--"@,
    }
}

/// Whether a text stands in front of a log line at some point in time.
pub open spec fn is_stamp(text: Seq<char>) -> bool {
    exists|now: SystemTime| is_stamp_at(seconds_in(#[trigger] span_since_epoch(now)), text)
}

/// The local time of day at a second since 1970. Without a second, and past the end of the calendar,
/// there is none.
pub fn time_of_day_at(seconds: Option<u64>) -> (text: String)
    ensures
        is_stamp_at(seconds, text@),
{
    match seconds {
        Some(s) if s <= CALENDAR_END => local_time(s as i64),
        _ => "--:--:--".to_owned(),
    }
}

/// The local time of day, as it stands in front of every log line: `time_of_day_at` the
/// second that the clock shows.
pub fn time_of_day() -> (text: String)
    ensures
        is_stamp(text@),
{
    time_of_day_at(get_timestamp())
}

/// A time of day has eight characters, hour, minute and second with a colon between two, and each of
/// them is read back from its two digits.
pub proof fn law_time_of_day_is_read_back(hour: nat, minute: nat, second: nat)
    requires
        hour < 24,
        minute < 60,
        second < 60,
    ensures
        ({
            let text = clock_text(hour, minute, second);
            &&& text.len() == 8
            &&& text[2] == ':'
            &&& text[5] == ':'
            &&& 10 * (text[0] as u32 - 48) + (text[1] as u32 - 48) == hour
            &&& 10 * (text[3] as u32 - 48) + (text[4] as u32 - 48) == minute
            &&& 10 * (text[6] as u32 - 48) + (text[7] as u32 - 48) == second
        }),
{
}

} // verus!
