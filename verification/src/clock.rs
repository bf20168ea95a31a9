//! Lengths of time, points on the monotonic clock, and the clock of the system.
use crate::calendar::civil_from_days;
use crate::errors::{map_source_error, RuntimeError, SourceError};
use crate::text::{signed_zero_filled_text, zero_filled_text};
use std::time::{Duration, Instant, SystemTime, SystemTimeError};
use vstd::prelude::*;

verus! {

/// A length of time in nanoseconds.
#[derive(Debug, Clone, Copy, PartialEq, Eq, Structural)]
pub struct Span {
    pub nanos: u128,
}

/// A point on the monotonic clock, in nanoseconds from its origin.
#[derive(Debug, Clone, Copy, PartialEq, Eq, Structural)]
pub struct Moment {
    pub nanos: u128,
}

impl Span {
    /// A length of `secs` seconds.
    pub fn from_secs(secs: u64) -> (span: Self)
        ensures
            span.nanos == secs * 1_000_000_000,
    {
        Span { nanos: secs as u128 * 1_000_000_000u128 }
    }

    /// A length of `millis` milliseconds.
    pub fn from_millis(millis: u64) -> (span: Self)
        ensures
            span.nanos == millis * 1_000_000,
    {
        Span { nanos: millis as u128 * 1_000_000u128 }
    }

    /// Whether this is no time at all.
    pub fn is_zero(&self) -> (r: bool)
        ensures
            r == (self.nanos == 0),
    {
        self.nanos == 0
    }

    /// This length shortened by `other`, down to nothing.
    pub fn saturating_sub(&self, other: Span) -> (r: Span)
        ensures
            r.nanos == if self.nanos >= other.nanos {
                self.nanos - other.nanos
            } else {
                0
            },
    {
        if self.nanos >= other.nanos {
            Span { nanos: self.nanos - other.nanos }
        } else {
            Span { nanos: 0 }
        }
    }
}

impl Moment {
    /// Nanoseconds from `earlier` to `self`, none where `earlier` is the later one.
    pub open spec fn nanos_since(self, earlier: Moment) -> int {
        if self.nanos >= earlier.nanos {
            self.nanos - earlier.nanos
        } else {
            0
        }
    }

    /// The time from `earlier` to this moment, none where `earlier` is the later one.
    pub fn saturating_since(&self, earlier: Moment) -> (span: Span)
        ensures
            span.nanos == self.nanos_since(earlier),
    {
        if self.nanos >= earlier.nanos {
            Span { nanos: self.nanos - earlier.nanos }
        } else {
            Span { nanos: 0 }
        }
    }

    /// The moment that comes `span` after this one.
    pub fn after(&self, span: Span) -> (later: Moment)
        requires
            self.nanos + span.nanos <= u128::MAX,
        ensures
            later.nanos == self.nanos + span.nanos,
    {
        Moment { nanos: self.nanos + span.nanos }
    }
}

/// A reading of the monotonic clock.
#[verifier::external_type_specification]
#[verifier::external_body]
pub struct ExInstant(Instant);

/// `Instant::now` reads the monotonic clock: nothing is claimed of the reading.
pub assume_specification[ Instant::now ]() -> (now: Instant);

/// `Instant::elapsed` reads the monotonic clock again: nothing is claimed of the time between.
pub assume_specification[ Instant::elapsed ](earlier: &Instant) -> (elapsed: Duration);

/// The monotonic clock, its origin at the time when this was made.
#[derive(Debug, Clone, Copy)]
pub struct MonotonicClock {
    origin: Instant,
}

impl MonotonicClock {
    /// The reading from which this clock counts.
    pub closed spec fn origin(self) -> Instant {
        self.origin
    }

    /// Whether `now` is a moment that this clock may show: the nanoseconds of the time that passed
    /// since its origin.
    pub open spec fn may_show(self, now: Moment) -> bool {
        exists|elapsed: Duration|
            {
                &&& #[trigger] call_ensures(Instant::elapsed, (&self.origin(),), elapsed)
                &&& call_ensures(Duration::as_nanos, (&elapsed,), now.nanos)
            }
    }

    /// A clock that counts from the present reading.
    pub fn start() -> (clock: Self)
        ensures
            call_ensures(Instant::now, (), clock.origin()),
    {
        MonotonicClock { origin: Instant::now() }
    }

    /// The present moment.
    pub fn now(&self) -> (now: Moment)
        ensures
            self.may_show(now),
    {
        let elapsed: Duration = self.origin.elapsed();
        let nanos: u128 = elapsed.as_nanos();
        assert(call_ensures(Instant::elapsed, (&self.origin(),), elapsed));
        Moment { nanos }
    }
}

/// A reading of the system's clock.
#[verifier::external_type_specification]
#[verifier::external_body]
pub struct ExSystemTime(SystemTime);

/// The error of a clock that stands before the Unix epoch.
#[verifier::external_type_specification]
#[verifier::external_body]
pub struct ExSystemTimeError(SystemTimeError);

/// `SystemTime::now` reads the clock: nothing is claimed of the reading.
pub assume_specification[ SystemTime::now ]() -> (now: SystemTime);

/// `SystemTime::duration_since` compares two readings, of which nothing is known.
pub assume_specification[ SystemTime::duration_since ](
    now: &SystemTime,
    earlier: SystemTime,
) -> (elapsed: Result<Duration, SystemTimeError>);

/// `Duration::as_nanos` of a length of time of which nothing is known.
pub assume_specification[ Duration::as_nanos ](elapsed: &Duration) -> (nanos: u128);

/// The constant `SystemTime::UNIX_EPOCH`.
#[verifier::external_body]
fn unix_epoch() -> (epoch: SystemTime) {
    SystemTime::UNIX_EPOCH
}

/// The text that `SystemTimeError` displays. Nothing is claimed of it.
#[verifier::external_body]
fn clock_error_text(error: &SystemTimeError) -> (text: String) {
    error.to_string()
}

/// Whether `elapsed` may come of comparing a reading of the system's clock with the Unix epoch.
pub closed spec fn may_have_elapsed(elapsed: Result<Duration, SystemTimeError>) -> bool {
    exists|now: SystemTime, epoch: SystemTime|
        {
            &&& call_ensures(SystemTime::now, (), now)
            &&& call_ensures(unix_epoch, (), epoch)
            &&& #[trigger] call_ensures(SystemTime::duration_since, (&now, epoch), elapsed)
        }
}

/// Whether `reading` is one that the system's clock may give: the nanoseconds from the Unix epoch,
/// or the clock's own reason where it stands before the epoch.
pub closed spec fn is_clock_reading(reading: Result<u128, String>) -> bool {
    match reading {
        Ok(nanos) => exists|elapsed: Duration|
            {
                &&& #[trigger] may_have_elapsed(Ok(elapsed))
                &&& call_ensures(Duration::as_nanos, (&elapsed,), nanos)
            },
        Err(reason) => exists|error: SystemTimeError|
            {
                &&& #[trigger] may_have_elapsed(Err(error))
                &&& call_ensures(clock_error_text, (&error,), reason)
            },
    }
}

/// The nanoseconds of a reading that did not fail.
pub open spec fn reading_nanos(reading: Result<u128, String>) -> Option<u128> {
    match reading {
        Ok(nanos) => Some(nanos),
        Err(_) => None,
    }
}

fn since_unix_epoch() -> (elapsed: Result<Duration, SystemTimeError>)
    ensures
        may_have_elapsed(elapsed),
{
    let now: SystemTime = SystemTime::now();
    now.duration_since(unix_epoch())
}

/// Reads the system's clock.
fn read_clock() -> (reading: Result<u128, String>)
    ensures
        is_clock_reading(reading),
{
    match since_unix_epoch() {
        Ok(elapsed) => Ok(elapsed.as_nanos()),
        Err(error) => Err(clock_error_text(&error)),
    }
}

/// Whether `r` is the local receive time that `reading` gives: the reading itself where the
/// timestamp can hold it, else an error of the clock.
pub open spec fn is_localtime_of(
    reading: Result<u128, String>,
    r: Result<i64, SourceError>,
) -> bool {
    match reading {
        Ok(nanos) => if nanos <= i64::MAX {
            r matches Ok(ns) && ns == nanos
        } else {
            r matches Err(SourceError::Clock(_))
        },
        Err(reason) => r matches Err(SourceError::Clock(text)) && text == reason,
    }
}

/// The local receive time that a reading of the clock gives, in nanoseconds from the Unix epoch.
///
/// A reading that failed, or one that the timestamp cannot hold, is an error of the clock.
pub fn localtime_ns_from(reading: Result<u128, String>) -> (r: Result<i64, SourceError>)
    ensures
        is_localtime_of(reading, r),
{
    match reading {
        Ok(nanos) => match i64::try_from(nanos) {
            Ok(ns) => Ok(ns),
            Err(error) => Err(SourceError::Clock(error.to_string())),
        },
        Err(reason) => Err(SourceError::Clock(reason)),
    }
}

/// Whether `r` may come of reading the local receive time from the system's clock.
pub open spec fn may_be_sampled(r: Result<i64, SourceError>) -> bool {
    exists|reading: Result<u128, String>|
        #[trigger] is_clock_reading(reading) && is_localtime_of(reading, r)
}

/// The present local time in nanoseconds from the Unix epoch.
pub fn sample_localtime_ns() -> (r: Result<i64, SourceError>)
    ensures
        may_be_sampled(r),
        match r {
            Ok(ns) => ns >= 0,
            Err(error) => error is Clock,
        },
{
    localtime_ns_from(read_clock())
}

/// Whether `r` is the time that `reading` gives: the reading itself where the timestamp can hold
/// it, else an I/O error, with the clock's own reason where the clock failed.
pub open spec fn is_unix_time_of(
    reading: Result<u128, String>,
    r: Result<i64, RuntimeError>,
) -> bool {
    match reading {
        Ok(nanos) => if nanos <= i64::MAX {
            r matches Ok(ns) && ns == nanos
        } else {
            r matches Err(RuntimeError::Io { .. })
        },
        Err(text) => r matches Err(RuntimeError::Io { reason }) && reason == text,
    }
}

/// The time that a reading of the clock gives, in nanoseconds from the Unix epoch.
pub fn unix_time_ns_from(reading: Result<u128, String>) -> (r: Result<i64, RuntimeError>)
    ensures
        is_unix_time_of(reading, r),
{
    match localtime_ns_from(reading) {
        Ok(ns) => Ok(ns),
        Err(SourceError::Clock(reason)) => Err(RuntimeError::Io { reason }),
        Err(error) => Err(map_source_error(error)),
    }
}

/// Whether `r` may come of reading the time from the system's clock.
pub open spec fn may_be_unix_time(r: Result<i64, RuntimeError>) -> bool {
    exists|reading: Result<u128, String>|
        #[trigger] is_clock_reading(reading) && is_unix_time_of(reading, r)
}

/// The present time in nanoseconds from the Unix epoch, with the clock's own reason where it fails.
pub fn current_unix_time_ns() -> (r: Result<i64, RuntimeError>)
    ensures
        may_be_unix_time(r),
        match r {
            Ok(ns) => ns >= 0,
            Err(error) => error is Io,
        },
{
    unix_time_ns_from(read_clock())
}

/// The seed of a clock's reading: its low 64 bits, and one where they are zero or there is none.
pub open spec fn seed_of(reading: Option<u128>) -> u64 {
    match reading {
        Some(nanos) => if nanos as u64 == 0 {
            1u64
        } else {
            nanos as u64
        },
        None => 1u64,
    }
}

/// The seed that a reading of the clock gives: its low 64 bits, and never zero.
pub fn seed_from_nanos(reading: Option<u128>) -> (seed: u64)
    ensures
        seed == seed_of(reading),
{
    match reading {
        Some(nanos) => {
            let low: u64 = #[verifier::truncate] (nanos as u64);
            if low == 0 {
                1
            } else {
                low
            }
        },
        None => 1,
    }
}

/// Whether `seed` may come of reading the system's clock.
pub open spec fn may_be_seed(seed: u64) -> bool {
    exists|reading: Result<u128, String>|
        #[trigger] is_clock_reading(reading) && seed == seed_of(reading_nanos(reading))
}

/// A seed taken from the clock.
pub fn default_seed() -> (seed: u64)
    ensures
        may_be_seed(seed),
        seed >= 1,
{
    match read_clock() {
        Ok(nanos) => seed_from_nanos(Some(nanos)),
        Err(_) => seed_from_nanos(None),
    }
}

/// Seconds by which the exchange's local time is ahead of UTC.
pub const EXCHANGE_UTC_OFFSET_SECS: i64 = 28_800;

pub const SECS_PER_DAY: i64 = 86_400;

/// The day on which `unix_secs` falls at the exchange, counted from 1970-01-01.
pub open spec fn exchange_day(unix_secs: i64) -> int {
    unix_secs.wrapping_add(EXCHANGE_UTC_OFFSET_SECS) as int / SECS_PER_DAY as int
}

/// Whether `text` is the date with the given day number as eight digits, the year in 32 bits.
pub open spec fn is_yyyymmdd_of(text: Seq<char>, days: int) -> bool {
    exists|year: int, month: int, day: int|
        {
            &&& #[trigger] crate::calendar::is_date(year, month, day)
            &&& crate::calendar::day_number(year, month, day) == days
            &&& text == crate::text::signed_zero_filled((year as i32) as int, 4)
                + crate::text::zero_filled(crate::text::decimal(month as nat), 2)
                + crate::text::zero_filled(crate::text::decimal(day as nat), 2)
        }
}

/// The exchange's date at `unix_secs` seconds from the Unix epoch, as `YYYYMMDD`.
pub fn exchange_date_yyyymmdd(unix_secs: i64) -> (date: String)
    ensures
        is_yyyymmdd_of(date@, exchange_day(unix_secs)),
{
    let seconds: i64 = unix_secs.wrapping_add(EXCHANGE_UTC_OFFSET_SECS);
    let days: i64 = if seconds >= 0 {
        seconds / SECS_PER_DAY
    } else {
        (seconds + 1) / SECS_PER_DAY - 1
    };
    assert(days == seconds as int / SECS_PER_DAY as int);
    let (year, month, day): (i32, u32, u32) = civil_from_days(days);
    let mut date: String = signed_zero_filled_text(year as i64, 4);
    date.append(zero_filled_text(month as u64, 2).as_str());
    date.append(zero_filled_text(day as u64, 2).as_str());
    date
}

/// The signed seconds of a clock's reading, zero for a reading that failed.
pub open spec fn seconds_of(reading: Option<u64>) -> i64 {
    match reading {
        Some(secs) => secs as i64,
        None => 0,
    }
}

/// The exchange's date that a reading of the clock gives; a reading that failed counts as the
/// Unix epoch.
pub fn exchange_date_from_secs(reading: Option<u64>) -> (date: String)
    ensures
        is_yyyymmdd_of(date@, exchange_day(seconds_of(reading))),
{
    let secs: i64 = match reading {
        Some(secs) => #[verifier::truncate] (secs as i64),
        None => 0,
    };
    exchange_date_yyyymmdd(secs)
}

/// The whole seconds of a clock's reading, in 64 bits.
pub open spec fn reading_secs(reading: Result<u128, String>) -> Option<u64> {
    match reading {
        Ok(nanos) => Some((nanos / 1_000_000_000) as u64),
        Err(_) => None,
    }
}

/// Whether `date` may come of reading the exchange's date from the system's clock.
pub open spec fn may_be_exchange_date(date: Seq<char>) -> bool {
    exists|reading: Result<u128, String>|
        #[trigger] is_clock_reading(reading) && is_yyyymmdd_of(
            date,
            exchange_day(seconds_of(reading_secs(reading))),
        )
}

/// The exchange's present date, as `YYYYMMDD`.
pub fn current_exchange_date_yyyymmdd() -> (date: String)
    ensures
        may_be_exchange_date(date@),
{
    match read_clock() {
        Ok(nanos) => {
            let secs: u64 = #[verifier::truncate] ((nanos / 1_000_000_000) as u64);
            exchange_date_from_secs(Some(secs))
        },
        Err(_) => exchange_date_from_secs(None),
    }
}

/// Seconds and milliseconds make their nanoseconds.
pub proof fn law_spans_are_counted_in_nanoseconds(
    secs: u64,
    span1: Span,
    millis: u64,
    span2: Span,
)
    requires
        call_ensures(Span::from_secs, (secs,), span1),
        call_ensures(Span::from_millis, (millis,), span2),
    ensures
        span1.nanos == 1_000_000_000 * secs,
        span2.nanos == 1_000_000 * millis,
        secs * 1_000 == millis ==> span1 == span2,
{
}

/// From a moment to the one that comes some time after it passes just that time, and none the other way
/// round.
pub proof fn law_time_passes_by_its_span(
    moment: &Moment,
    span: Span,
    later: Moment,
    passed: Span,
    back: Span,
)
    requires
        moment.nanos + span.nanos <= u128::MAX,
        call_ensures(Moment::after, (moment, span), later),
        call_ensures(Moment::saturating_since, (&later, *moment), passed),
        call_ensures(Moment::saturating_since, (moment, later), back),
    ensures
        passed == span,
        back.nanos == 0,
        later.nanos_since(*moment) == span.nanos,
{
}

/// What is left of a time and what it was shortened by make the time again, unless nothing is left.
pub proof fn law_spans_shorten_to_nothing(span: &Span, other: Span, left: Span, zero: bool)
    requires
        call_ensures(Span::saturating_sub, (span, other), left),
        call_ensures(Span::is_zero, (&left,), zero),
    ensures
        zero <==> span.nanos <= other.nanos,
        !zero ==> left.nanos + other.nanos == span.nanos,
{
}

/// A reading is the time itself where a timestamp can hold it; both clocks' errors keep the reason that
/// the clock gave.
pub proof fn law_readings_are_taken_as_they_are(
    reading: Result<u128, String>,
    local: Result<i64, SourceError>,
    unix: Result<i64, RuntimeError>,
)
    requires
        call_ensures(localtime_ns_from, (reading,), local),
        call_ensures(unix_time_ns_from, (reading,), unix),
    ensures
        local is Ok <==> (reading matches Ok(nanos) && nanos <= 9_223_372_036_854_775_807),
        unix is Ok <==> local is Ok,
        reading matches Ok(nanos) ==> {
            &&& local matches Ok(ns) ==> ns == nanos
            &&& unix matches Ok(ns) ==> ns == nanos
        },
        local matches Err(error) ==> error is Clock,
        unix matches Err(error) ==> error is Io,
        reading matches Err(reason) ==> {
            &&& local matches Err(SourceError::Clock(text)) && text@ == reason@
            &&& unix matches Err(RuntimeError::Io { reason: text }) && text@ == reason@
        },
{
}

/// A seed is the low half of a reading of 128 bits, and one where that is nothing.
pub proof fn law_seed_is_the_low_half(reading: Option<u128>, seed: u64)
    requires
        call_ensures(seed_from_nanos, (reading,), seed),
    ensures
        reading is None ==> seed == 1,
        reading matches Some(nanos) ==> {
            let low = nanos as int % 0x1_0000_0000_0000_0000;
            seed as int == if low == 0 {
                1
            } else {
                low
            }
        },
        seed > 0,
{
    if reading is Some {
        let nanos = reading->0;
        assert((nanos as u64) as u128 == nanos % 0x1_0000_0000_0000_0000u128) by (bit_vector);
    }
}

/// The exchange's date at a point in time is the date whose day, eight hours ahead of UTC, holds that
/// point; it is written with four digits for the year and two each for month and day.
pub proof fn law_exchange_date_holds_its_seconds(unix_secs: i64, date: String)
    requires
        call_ensures(exchange_date_yyyymmdd, (unix_secs,), date),
        0 <= unix_secs < 253_402_214_400,
    ensures
        exists|year: int, month: int, day: int|
            {
                let midnight = (crate::calendar::day_number(year, month, day) * 24 - 8) * 3_600;
                &&& 1970 <= year <= 9999
                &&& #[trigger] crate::calendar::is_date(year, month, day)
                &&& date@ == crate::normalize::written_date(year, month, day)
                &&& midnight <= unix_secs < midnight + 86_400
            },
{
    let days = exchange_day(unix_secs);
    let (year, month, day) = choose|year: int, month: int, day: int|
        {
            &&& #[trigger] crate::calendar::is_date(year, month, day)
            &&& crate::calendar::day_number(year, month, day) == days
            &&& date@ == crate::text::signed_zero_filled((year as i32) as int, 4)
                + crate::text::zero_filled(crate::text::decimal(month as nat), 2)
                + crate::text::zero_filled(crate::text::decimal(day as nat), 2)
        };
    assert(days == (unix_secs + 28_800) / 86_400);
    crate::calendar::law_days_are_counted_one_by_one(1970, 1, 1);
    crate::calendar::law_dates_are_days_of_months(10_000, 1, 1);
    assert(crate::calendar::day_number(10_000, 1, 1) == 2_932_897) by {
        reveal_with_fuel(crate::calendar::days_before_month, 2);
    }
    if year < 1970 {
        crate::calendar::law_day_number_is_monotone(year, month, day, 1970, 1, 1);
    }
    if year > 10_000 || (year == 10_000 && !(month == 1 && day == 1)) {
        crate::calendar::law_day_number_is_monotone(10_000, 1, 1, year, month, day);
    }
    assert(1970 <= year <= 9999);
    assert(date@ == crate::normalize::written_date(year, month, day));
}

/// A reading in seconds gives the date of those seconds, and a reading that failed the date of the Unix
/// epoch.
pub proof fn law_failed_reading_counts_as_the_epoch(
    reading: Option<u64>,
    date: String,
    unix_secs: i64,
    other: String,
)
    requires
        call_ensures(exchange_date_from_secs, (reading,), date),
        call_ensures(exchange_date_yyyymmdd, (unix_secs,), other),
        reading matches Some(secs) ==> secs == unix_secs,
        reading is None ==> unix_secs == 0,
    ensures
        date@ == other@,
{
    let days = exchange_day(unix_secs);
    let (y1, m1, d1) = choose|year: int, month: int, day: int|
        {
            &&& #[trigger] crate::calendar::is_date(year, month, day)
            &&& crate::calendar::day_number(year, month, day) == days
            &&& date@ == crate::text::signed_zero_filled((year as i32) as int, 4)
                + crate::text::zero_filled(crate::text::decimal(month as nat), 2)
                + crate::text::zero_filled(crate::text::decimal(day as nat), 2)
        };
    let (y2, m2, d2) = choose|year: int, month: int, day: int|
        {
            &&& #[trigger] crate::calendar::is_date(year, month, day)
            &&& crate::calendar::day_number(year, month, day) == days
            &&& other@ == crate::text::signed_zero_filled((year as i32) as int, 4)
                + crate::text::zero_filled(crate::text::decimal(month as nat), 2)
                + crate::text::zero_filled(crate::text::decimal(day as nat), 2)
        };
    crate::calendar::law_day_number_is_injective(y1, m1, d1, y2, m2, d2);
}

} // verus!
