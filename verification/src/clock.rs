//! Clock times and their place on the business day.

use vstd::prelude::*;
use chrono::NaiveTime;
use chrono::Timelike;

verus! {

/// Seconds in a calendar day.
pub const SECONDS_PER_DAY: u32 = 86_400;

/// Milliseconds in a business day.
pub const MILLIS_PER_DAY: u32 = 86_400_000;

/// Milliseconds in a minute.
pub const MILLIS_PER_MINUTE: u32 = 60_000;

/// Milliseconds in an hour.
pub const MILLIS_PER_HOUR: u32 = 3_600_000;

/// The clock hour at which the business day starts.
pub const DAY_START_HOUR: u32 = 3;

/// A wall-clock time of day, held as whole seconds since midnight.
#[derive(Clone, Copy, Debug, PartialEq, Eq, Structural)]
pub struct ClockTime {
    pub seconds: u32,
}

/// Time elapsed since 03:00 on the business day, in milliseconds: a
/// fixed-point stand-in for the fractional hours in `[0, 24)`.
#[derive(Clone, Copy, Debug, PartialEq, Eq, Structural)]
pub struct BusinessOffset {
    pub millis: u32,
}

/// A time field that is absent or does not read as a time of day.
#[derive(Clone, Copy, Debug, PartialEq, Eq, Structural)]
pub struct ParseFailure;

/// The seconds since midnight that chrono reads from `text` under the format
/// `%H:%M:%S`, or `None` where chrono rejects the text.
pub uninterp spec fn clock_seconds(text: Seq<char>) -> Option<u32>;

/// The clock time that `text` denotes, if any.
pub open spec fn parsed_clock(text: Seq<char>) -> Option<ClockTime> {
    ClockTime::spec_from_seconds(clock_seconds(text))
}

/// Minutes since 03:00 of the business day for a clock hour and minute.
pub open spec fn business_minutes(hour: int, minute: int) -> int {
    (if hour < 3 { hour + 24 } else { hour }) * 60 + minute - 180
}

/// The hour of the business day (0 = 03:00, 23 = 02:00) for a clock hour.
pub open spec fn business_hour(hour: int) -> int {
    if hour < 3 { hour + 21 } else { hour - 3 }
}

impl ClockTime {
    /// Only times of a single day are valid.
    pub open spec fn wf(self) -> bool {
        self.seconds < SECONDS_PER_DAY
    }

    pub open spec fn spec_hour(self) -> int {
        self.seconds as int / 3600
    }

    pub open spec fn spec_minute(self) -> int {
        (self.seconds as int / 60) % 60
    }

    pub open spec fn spec_second(self) -> int {
        self.seconds as int % 60
    }

    /// What `from_seconds` makes of an optional count of seconds.
    pub open spec fn spec_from_seconds(seconds: Option<u32>) -> Option<ClockTime> {
        match seconds {
            Some(n) => if n < SECONDS_PER_DAY { Some(ClockTime { seconds: n }) } else { None },
            None => None,
        }
    }

    /// The offset from 03:00, minutes included and seconds dropped.
    pub open spec fn spec_offset(self) -> BusinessOffset {
        BusinessOffset {
            millis: (business_minutes(self.spec_hour(), self.spec_minute()) * 60_000) as u32,
        }
    }

    /// The offset from 03:00 of the start of this time's clock hour.
    pub open spec fn spec_hour_offset(self) -> BusinessOffset {
        BusinessOffset { millis: (business_hour(self.spec_hour()) * 3_600_000) as u32 }
    }

    /// A clock time from seconds since midnight; `None` from 86400 on.
    pub fn from_seconds(seconds: u32) -> (r: Option<ClockTime>)
        ensures
            r == Self::spec_from_seconds(Some(seconds)),
            r matches Some(t) ==> t.wf(),
    {
        if seconds < SECONDS_PER_DAY {
            Some(ClockTime { seconds })
        } else {
            None
        }
    }

    /// A clock time from its three fields; `None` unless `hour < 24`,
    /// `minute < 60` and `second < 60`.
    pub fn from_hms(hour: u32, minute: u32, second: u32) -> (r: Option<ClockTime>)
        ensures
            r.is_some() <==> hour < 24 && minute < 60 && second < 60,
            r matches Some(t) ==> t.wf() && t.seconds == hour * 3600 + minute * 60 + second
                && t.spec_hour() == hour && t.spec_minute() == minute && t.spec_second()
                == second,
    {
        if hour < 24 && minute < 60 && second < 60 {
            Some(ClockTime { seconds: hour * 3600 + minute * 60 + second })
        } else {
            None
        }
    }

    pub fn hour(&self) -> (r: u32)
        ensures
            r == self.spec_hour(),
            self.wf() ==> r < 24,
    {
        self.seconds / 3600
    }

    pub fn minute(&self) -> (r: u32)
        ensures
            r == self.spec_minute(),
            r < 60,
    {
        (self.seconds / 60) % 60
    }

    pub fn second(&self) -> (r: u32)
        ensures
            r == self.spec_second(),
            r < 60,
    {
        self.seconds % 60
    }

    pub fn num_seconds_from_midnight(&self) -> (r: u32)
        ensures
            r == self.seconds,
    {
        self.seconds
    }
}

impl BusinessOffset {
    /// Offsets lie within one business day.
    pub open spec fn wf(self) -> bool {
        self.millis < MILLIS_PER_DAY
    }

    /// An offset from milliseconds since 03:00; `None` from a full day on.
    pub fn from_millis(millis: u32) -> (r: Option<BusinessOffset>)
        ensures
            r == (if millis < MILLIS_PER_DAY {
                Some(BusinessOffset { millis })
            } else {
                None
            }),
    {
        if millis < MILLIS_PER_DAY {
            Some(BusinessOffset { millis })
        } else {
            None
        }
    }

    pub fn millis(&self) -> (r: u32)
        ensures
            r == self.millis,
    {
        self.millis
    }
}

/// Reads `text` with chrono's `NaiveTime::parse_from_str` under the format
/// `%H:%M:%S` and hands back the parsed time's `num_seconds_from_midnight`.
/// Trusted: the result is a function of the text alone, named
/// `clock_seconds`, and a parsed time is below 86400 seconds, the bound that
/// chrono keeps on every `NaiveTime`.
#[verifier::external_body]
fn read_clock_seconds(text: &str) -> (r: Option<u32>)
    ensures
        r == clock_seconds(text@),
        r matches Some(n) ==> n < SECONDS_PER_DAY,
{
    match NaiveTime::parse_from_str(text, "%H:%M:%S") {
        Ok(time) => Some(time.num_seconds_from_midnight()),
        Err(_) => None,
    }
}

/// Parses a time of day written as `HH:MM:SS`.
pub fn parse_time(text: &str) -> (r: Option<ClockTime>)
    ensures
        r == parsed_clock(text@),
        r matches Some(t) ==> t.wf(),
{
    match read_clock_seconds(text) {
        Some(seconds) => ClockTime::from_seconds(seconds),
        None => None,
    }
}

/// Places a clock time on the business day: hours from 3 on count from 03:00
/// of the same day, hours below 3 belong to the day before and land in the
/// last three hours. Seconds are dropped.
pub fn normalize_clock(time: ClockTime) -> (r: BusinessOffset)
    requires
        time.wf(),
    ensures
        r == time.spec_offset(),
        r.wf(),
        r.millis == business_minutes(time.spec_hour(), time.spec_minute()) * 60_000,
{
    let hour: u32 = time.hour();
    let minute: u32 = time.minute();
    let shifted: u32 = if hour < DAY_START_HOUR {
        hour + 24
    } else {
        hour
    };
    let minutes: u32 = shifted * 60 + minute - DAY_START_HOUR * 60;
    BusinessOffset { millis: minutes * MILLIS_PER_MINUTE }
}

/// The offset of the start of the clock hour that `time` falls in: the
/// whole-hour placement used at hourly granularity.
pub fn normalize_hour(time: ClockTime) -> (r: BusinessOffset)
    requires
        time.wf(),
    ensures
        r == time.spec_hour_offset(),
        r.wf(),
        r.millis == business_hour(time.spec_hour()) * 3_600_000,
{
    let hour: u32 = time.hour();
    let shifted: u32 = if hour < DAY_START_HOUR {
        hour + 21
    } else {
        hour - DAY_START_HOUR
    };
    BusinessOffset { millis: shifted * MILLIS_PER_HOUR }
}

/// Places a clock hour and minute on the business day. An hour from 24 on
/// or a minute from 60 on is no time of day.
pub fn normalize_hm(hour: u32, minute: u32) -> (r: Result<BusinessOffset, ParseFailure>)
    ensures
        r == (if hour < 24 && minute < 60 {
            Ok::<BusinessOffset, ParseFailure>(
                BusinessOffset { millis: (business_minutes(hour as int, minute as int) * 60_000) as u32 },
            )
        } else {
            Err(ParseFailure)
        }),
        r matches Ok(offset) ==> offset.wf(),
{
    match ClockTime::from_hms(hour, minute, 0) {
        Some(time) => Ok(normalize_clock(time)),
        None => Err(ParseFailure),
    }
}

/// What `normalize` makes of the outcome of parsing.
pub open spec fn spec_normalize(parsed: Option<ClockTime>) -> Result<BusinessOffset, ParseFailure> {
    match parsed {
        Some(t) => Ok(t.spec_offset()),
        None => Err(ParseFailure),
    }
}

/// Places a parsed time on the business day, or reports the failure to parse.
pub fn normalize_parsed(parsed: Option<ClockTime>) -> (r: Result<BusinessOffset, ParseFailure>)
    requires
        parsed matches Some(t) ==> t.wf(),
    ensures
        r == spec_normalize(parsed),
        r matches Ok(offset) ==> offset.wf(),
{
    match parsed {
        Some(time) => Ok(normalize_clock(time)),
        None => Err(ParseFailure),
    }
}

/// Places a time written as `HH:MM:SS` on the business day. Text that does
/// not parse gives `ParseFailure`; no default time stands in for it.
pub fn normalize(text: &str) -> (r: Result<BusinessOffset, ParseFailure>)
    ensures
        r == spec_normalize(parsed_clock(text@)),
        r matches Ok(offset) ==> offset.wf(),
{
    normalize_parsed(parse_time(text))
}

/// From 03:00:00 to 23:59:59 the offset is `hour - 3` hours and `minute`
/// minutes, and it does not decrease as the clock advances.
pub proof fn lemma_offset_from_three(a: ClockTime, b: ClockTime)
    requires
        a.wf(),
        b.wf(),
        3 <= a.spec_hour(),
        a.seconds <= b.seconds,
    ensures
        a.spec_offset().millis == (a.spec_hour() - 3) * 3_600_000 + a.spec_minute() * 60_000,
        a.spec_offset().millis <= b.spec_offset().millis,
        a.spec_minute() != b.spec_minute() || a.spec_hour() != b.spec_hour()
            ==> a.spec_offset().millis < b.spec_offset().millis,
{
}

/// From 00:00:00 to 02:59:59 the offset lies in the last three hours of the
/// business day, `[21 h, 24 h)`, above the offset of every time from 03:00
/// on, and it does not decrease as the clock advances up to 02:59:59.
pub proof fn lemma_offset_before_three(a: ClockTime, b: ClockTime, later: ClockTime)
    requires
        a.wf(),
        b.wf(),
        later.wf(),
        a.seconds <= b.seconds,
        b.spec_hour() < 3,
        3 <= later.spec_hour(),
    ensures
        21 * 3_600_000 <= a.spec_offset().millis < 24 * 3_600_000,
        a.spec_offset().millis == (a.spec_hour() + 21) * 3_600_000 + a.spec_minute() * 60_000,
        a.spec_offset().millis <= b.spec_offset().millis,
        later.spec_offset().millis < a.spec_offset().millis,
{
}

} // verus!
