//! From raw driver ticks to rows of the tick schema.
use crate::calendar::{day_number, days_from_civil, is_date};
use crate::text::{
    all_digits, decimal, digits_number, digits_value, law_digits_are_told_by_number_and_width,
    law_filled_number_denotes_its_number, law_filled_number_has_its_width, lemma_digits_value_bounds,
    text_option, trim, trimmed, zero_filled,
};
use vstd::prelude::*;

verus! {

/// A depth quote as the driver delivers it.
///
/// Prices are carried as they come: nothing here computes with them.
#[derive(Debug, Clone, PartialEq)]
pub struct RawTickSnapshot<P> {
    pub instrument_id: String,
    pub exchange_id: String,
    pub trading_day: String,
    pub action_day: String,
    pub update_time: String,
    pub update_millisec: i32,
    pub last_price: P,
    pub volume: i64,
    pub turnover: P,
    pub open_interest: P,
    pub bid_price_1: P,
    pub bid_volume_1: i64,
    pub ask_price_1: P,
    pub ask_volume_1: i64,
}

/// One row of the tick schema.
#[derive(Debug, Clone, PartialEq)]
pub struct NormalizedTickRow<P> {
    pub instrument_id: String,
    pub exchange_id: Option<String>,
    pub trading_day: Option<String>,
    pub action_day: Option<String>,
    /// Event time at the exchange, in nanoseconds from the Unix epoch.
    pub dt_ns: i64,
    /// Local receive time, in nanoseconds from the Unix epoch.
    pub localtime_ns: i64,
    /// Local time at which the source hands the row on.
    pub source_emit_ns: i64,
    pub last_price: Option<P>,
    pub volume: Option<i64>,
    pub turnover: Option<P>,
    pub open_interest: Option<P>,
    pub bid_price_1: Option<P>,
    pub bid_volume_1: Option<i64>,
    pub ask_price_1: Option<P>,
    pub ask_volume_1: Option<i64>,
}

/// Why a raw tick has no row.
#[derive(Debug, Clone, Copy, PartialEq, Eq, Structural)]
pub enum NormalizeError {
    /// The action day is not a calendar date whose nanoseconds fit the timestamp.
    InvalidDate,
    /// The update time is not a time of day.
    InvalidTime,
}

impl NormalizeError {
    pub open spec fn text(self) -> Seq<char> {
        match self {
            NormalizeError::InvalidDate => "invalid action day"@,
            NormalizeError::InvalidTime => "invalid update time"@,
        }
    }

    /// The text of the error.
    pub fn message(&self) -> (text: &'static str)
        ensures
            text@ == self.text(),
    {
        match self {
            NormalizeError::InvalidDate => "invalid action day",
            NormalizeError::InvalidTime => "invalid update time",
        }
    }
}

/// A text without the white space around it; nothing where only white space is there.
pub open spec fn non_blank(s: Seq<char>) -> Option<Seq<char>> {
    if trimmed(s).len() == 0 {
        None
    } else {
        Some(trimmed(s))
    }
}

/// Whether `day` is a calendar date written as eight digits.
pub open spec fn is_yyyymmdd(day: Seq<char>) -> bool {
    &&& day.len() == 8
    &&& all_digits(day)
    &&& is_date(
        digits_value(day.subrange(0, 4)),
        digits_value(day.subrange(4, 6)),
        digits_value(day.subrange(6, 8)),
    )
}

/// Days from 1970-01-01 to the date that `day` writes.
pub open spec fn yyyymmdd_day_number(day: Seq<char>) -> int {
    day_number(
        digits_value(day.subrange(0, 4)),
        digits_value(day.subrange(4, 6)),
        digits_value(day.subrange(6, 8)),
    )
}

/// Whether `time` is a time of day written as two digits each for hour, minute and second.
pub open spec fn is_hh_mm_ss(time: Seq<char>) -> bool {
    &&& time.len() == 8
    &&& time[2] == ':'
    &&& time[5] == ':'
    &&& all_digits(time.subrange(0, 2))
    &&& all_digits(time.subrange(3, 5))
    &&& all_digits(time.subrange(6, 8))
    &&& digits_value(time.subrange(0, 2)) < 24
    &&& digits_value(time.subrange(3, 5)) < 60
    &&& digits_value(time.subrange(6, 8)) < 60
}

/// Seconds from midnight to the time of day that `time` writes.
pub open spec fn hh_mm_ss_seconds(time: Seq<char>) -> int {
    digits_value(time.subrange(0, 2)) * 3600 + digits_value(time.subrange(3, 5)) * 60
        + digits_value(time.subrange(6, 8))
}

/// The instant of a date and a time of day at the exchange, which is eight hours ahead of UTC, in
/// nanoseconds from the Unix epoch.
pub open spec fn exchange_instant_ns(day: Seq<char>, time: Seq<char>, millisec: int) -> int {
    ((yyyymmdd_day_number(day) * 86_400 + hh_mm_ss_seconds(time) - 28_800) * 1_000 + millisec)
        * 1_000_000
}

/// The timestamp of a date and a time of day at the exchange, or why there is none.
pub open spec fn exchange_timestamp(day: Seq<char>, time: Seq<char>, millisec: int) -> Result<
    int,
    NormalizeError,
> {
    if !is_yyyymmdd(day) {
        Err(NormalizeError::InvalidDate)
    } else if !is_hh_mm_ss(time) || !(0 <= millisec <= 999) {
        Err(NormalizeError::InvalidTime)
    } else if !(i64::MIN <= exchange_instant_ns(day, time, millisec) <= i64::MAX) {
        Err(NormalizeError::InvalidDate)
    } else {
        Ok(exchange_instant_ns(day, time, millisec))
    }
}

fn parse_yyyymmdd(day: &str) -> (r: Option<i64>)
    ensures
        match r {
            Some(days) => {
                &&& is_yyyymmdd(day@)
                &&& days == yyyymmdd_day_number(day@)
                &&& -800_000 <= days <= 4_000_000
            },
            None => !is_yyyymmdd(day@),
        },
{
    if day.unicode_len() != 8 {
        return None;
    }
    proof {
        assert(forall|i: int| 0 <= i < 4 ==> day@.subrange(0, 4)[i] == day@[i]);
        assert(forall|i: int| 0 <= i < 2 ==> day@.subrange(4, 6)[i] == day@[i + 4]);
        assert(forall|i: int| 0 <= i < 2 ==> day@.subrange(6, 8)[i] == day@[i + 6]);
        assert(all_digits(day@) <==> all_digits(day@.subrange(0, 4)) && all_digits(
            day@.subrange(4, 6),
        ) && all_digits(day@.subrange(6, 8))) by {
            if all_digits(day@.subrange(0, 4)) && all_digits(day@.subrange(4, 6)) && all_digits(
                day@.subrange(6, 8),
            ) {
                assert forall|i: int| 0 <= i < 8 implies crate::text::is_digit(
                    #[trigger] day@[i],
                ) by {
                    if i < 4 {
                        assert(crate::text::is_digit(day@.subrange(0, 4)[i]));
                    } else if i < 6 {
                        assert(crate::text::is_digit(day@.subrange(4, 6)[i - 4]));
                    } else {
                        assert(crate::text::is_digit(day@.subrange(6, 8)[i - 6]));
                    }
                }
            }
        }
    }
    let year: u32 = match digits_number(day, 0, 4) {
        Some(year) => year,
        None => {
            return None;
        },
    };
    let month: u32 = match digits_number(day, 4, 6) {
        Some(month) => month,
        None => {
            return None;
        },
    };
    let date: u32 = match digits_number(day, 6, 8) {
        Some(date) => date,
        None => {
            return None;
        },
    };
    let days: Option<i64> = days_from_civil(year, month, date);
    proof {
        if days is Some {
            crate::text::lemma_digits_value_bounds(day@.subrange(0, 4));
            crate::calendar::lemma_day_number_bounds(year as int, month as int, date as int);
        }
    }
    days
}

fn parse_hh_mm_ss(time: &str) -> (r: Option<i64>)
    ensures
        match r {
            Some(seconds) => {
                &&& is_hh_mm_ss(time@)
                &&& seconds == hh_mm_ss_seconds(time@)
                &&& 0 <= seconds < 86_400
            },
            None => !is_hh_mm_ss(time@),
        },
{
    if time.unicode_len() != 8 || time.get_char(2) != ':' || time.get_char(5) != ':' {
        return None;
    }
    let hour: u32 = match digits_number(time, 0, 2) {
        Some(hour) => hour,
        None => {
            return None;
        },
    };
    let minute: u32 = match digits_number(time, 3, 5) {
        Some(minute) => minute,
        None => {
            return None;
        },
    };
    let second: u32 = match digits_number(time, 6, 8) {
        Some(second) => second,
        None => {
            return None;
        },
    };
    if hour >= 24 || minute >= 60 || second >= 60 {
        return None;
    }
    Some(hour as i64 * 3600 + minute as i64 * 60 + second as i64)
}

/// The timestamp of a date and a time of day at the exchange, in nanoseconds from the Unix epoch.
pub fn compose_exchange_timestamp_ns(
    action_day: &str,
    update_time: &str,
    update_millisec: i32,
) -> (r: Result<i64, NormalizeError>)
    ensures
        match r {
            Ok(ns) => exchange_timestamp(action_day@, update_time@, update_millisec as int) == Ok::<
                int,
                NormalizeError,
            >(ns as int),
            Err(error) => exchange_timestamp(action_day@, update_time@, update_millisec as int)
                == Err::<int, NormalizeError>(error),
        },
{
    let days: i64 = match parse_yyyymmdd(action_day) {
        Some(days) => days,
        None => {
            return Err(NormalizeError::InvalidDate);
        },
    };
    let seconds: i64 = match parse_hh_mm_ss(update_time) {
        Some(seconds) => seconds,
        None => {
            return Err(NormalizeError::InvalidTime);
        },
    };
    if update_millisec < 0 || update_millisec > 999 {
        return Err(NormalizeError::InvalidTime);
    }
    let millis: i64 = (days * 86_400 + seconds - 28_800) * 1_000 + update_millisec as i64;
    match millis.checked_mul(1_000_000) {
        Some(ns) => Ok(ns),
        None => Err(NormalizeError::InvalidDate),
    }
}

fn non_blank_text(s: &str) -> (r: Option<String>)
    ensures
        text_option(r) == non_blank(s@),
{
    let text: &str = trim(s);
    if text.is_empty() {
        None
    } else {
        Some(text.to_owned())
    }
}

impl<P> RawTickSnapshot<P> {
    /// The timestamp of the tick, or why it has none.
    pub open spec fn timestamp(self) -> Result<int, NormalizeError> {
        exchange_timestamp(
            trimmed(self.action_day@),
            trimmed(self.update_time@),
            self.update_millisec as int,
        )
    }

    /// Whether the tick has a row.
    pub open spec fn is_well_formed(self) -> bool {
        self.timestamp() is Ok
    }
}

impl<P> NormalizedTickRow<P> {
    /// Whether this is the row of a raw tick, received and handed on at the given times.
    pub open spec fn is_row_of(
        self,
        raw: RawTickSnapshot<P>,
        localtime_ns: i64,
        source_emit_ns: i64,
    ) -> bool {
        &&& self.instrument_id@ == trimmed(raw.instrument_id@)
        &&& text_option(self.exchange_id) == non_blank(raw.exchange_id@)
        &&& text_option(self.trading_day) == non_blank(raw.trading_day@)
        &&& text_option(self.action_day) == non_blank(raw.action_day@)
        &&& raw.timestamp() == Ok::<int, NormalizeError>(self.dt_ns as int)
        &&& self.localtime_ns == localtime_ns
        &&& self.source_emit_ns == source_emit_ns
        &&& self.last_price == Some(raw.last_price)
        &&& self.volume == Some(raw.volume)
        &&& self.turnover == Some(raw.turnover)
        &&& self.open_interest == Some(raw.open_interest)
        &&& self.bid_price_1 == Some(raw.bid_price_1)
        &&& self.bid_volume_1 == Some(raw.bid_volume_1)
        &&& self.ask_price_1 == Some(raw.ask_price_1)
        &&& self.ask_volume_1 == Some(raw.ask_volume_1)
    }
}

/// The row of a raw tick, its two local times still at zero.
///
/// Texts lose the white space around them, and blank ones are left out. The tick is refused where
/// its action day or its update time is malformed.
pub fn normalize_tick<P: Copy>(raw: &RawTickSnapshot<P>) -> (r: Result<
    NormalizedTickRow<P>,
    NormalizeError,
>)
    ensures
        match r {
            Ok(row) => row.is_row_of(*raw, 0, 0),
            Err(error) => raw.timestamp() == Err::<int, NormalizeError>(error),
        },
{
    let action_day: &str = trim(raw.action_day.as_str());
    let update_time: &str = trim(raw.update_time.as_str());
    let dt_ns: i64 = match compose_exchange_timestamp_ns(
        action_day,
        update_time,
        raw.update_millisec,
    ) {
        Ok(ns) => ns,
        Err(error) => {
            return Err(error);
        },
    };
    Ok(
        NormalizedTickRow {
            instrument_id: trim(raw.instrument_id.as_str()).to_owned(),
            exchange_id: non_blank_text(raw.exchange_id.as_str()),
            trading_day: non_blank_text(raw.trading_day.as_str()),
            action_day: non_blank_text(raw.action_day.as_str()),
            dt_ns,
            localtime_ns: 0,
            source_emit_ns: 0,
            last_price: Some(raw.last_price),
            volume: Some(raw.volume),
            turnover: Some(raw.turnover),
            open_interest: Some(raw.open_interest),
            bid_price_1: Some(raw.bid_price_1),
            bid_volume_1: Some(raw.bid_volume_1),
            ask_price_1: Some(raw.ask_price_1),
            ask_volume_1: Some(raw.ask_volume_1),
        },
    )
}

/// A later time of the same day has a later timestamp.
pub proof fn law_timestamps_follow_the_clock(
    day: Seq<char>,
    time1: Seq<char>,
    millisec1: int,
    time2: Seq<char>,
    millisec2: int,
)
    requires
        exchange_timestamp(day, time1, millisec1) is Ok,
        exchange_timestamp(day, time2, millisec2) is Ok,
        hh_mm_ss_seconds(time1) * 1_000 + millisec1 < hh_mm_ss_seconds(time2) * 1_000 + millisec2,
    ensures
        exchange_timestamp(day, time1, millisec1)->Ok_0 < exchange_timestamp(
            day,
            time2,
            millisec2,
        )->Ok_0,
{
}

/// A date as eight digits.
pub open spec fn written_date(year: int, month: int, day: int) -> Seq<char> {
    zero_filled(decimal(year as nat), 4) + zero_filled(decimal(month as nat), 2) + zero_filled(
        decimal(day as nat),
        2,
    )
}

/// A time of day as two digits each for hour, minute and second.
pub open spec fn written_time(hour: int, minute: int, second: int) -> Seq<char> {
    zero_filled(decimal(hour as nat), 2) + seq![':'] + zero_filled(decimal(minute as nat), 2) + seq![
        ':',
    ] + zero_filled(decimal(second as nat), 2)
}

proof fn lemma_digits_of_concat(a: Seq<char>, b: Seq<char>)
    ensures
        all_digits(a + b) <==> all_digits(a) && all_digits(b),
{
    let whole = a + b;
    if all_digits(whole) {
        assert forall|i: int| 0 <= i < a.len() implies crate::text::is_digit(#[trigger] a[i]) by {
            assert(whole[i] == a[i]);
        }
        assert forall|i: int| 0 <= i < b.len() implies crate::text::is_digit(#[trigger] b[i]) by {
            assert(whole[a.len() + i] == b[i]);
        }
    }
}

/// Every date of the calendar in the years of four digits is read as what it is.
pub proof fn law_every_date_is_read(year: int, month: int, day: int)
    requires
        0 <= year <= 9999,
        is_date(year, month, day),
    ensures
        is_yyyymmdd(written_date(year, month, day)),
        yyyymmdd_day_number(written_date(year, month, day)) == day_number(year, month, day),
{
    let a = zero_filled(decimal(year as nat), 4);
    let b = zero_filled(decimal(month as nat), 2);
    let c = zero_filled(decimal(day as nat), 2);
    law_filled_number_has_its_width(year as nat);
    law_filled_number_has_its_width(month as nat);
    law_filled_number_has_its_width(day as nat);
    law_filled_number_denotes_its_number(year as nat, 4);
    law_filled_number_denotes_its_number(month as nat, 2);
    law_filled_number_denotes_its_number(day as nat, 2);
    let text = written_date(year, month, day);
    assert(text.subrange(0, 4) =~= a);
    assert(text.subrange(4, 6) =~= b);
    assert(text.subrange(6, 8) =~= c);
    lemma_digits_of_concat(a, b);
    lemma_digits_of_concat(a + b, c);
}

/// Only dates of the calendar are read: what is read is what writing that date gives.
pub proof fn law_only_dates_are_read(text: Seq<char>)
    requires
        is_yyyymmdd(text),
    ensures
        exists|year: int, month: int, day: int|
            {
                &&& 0 <= year <= 9999
                &&& #[trigger] is_date(year, month, day)
                &&& text == written_date(year, month, day)
            },
{
    let a = text.subrange(0, 4);
    let b = text.subrange(4, 6);
    let c = text.subrange(6, 8);
    assert(text =~= a + b + c);
    lemma_digits_of_concat(a, b);
    lemma_digits_of_concat(a + b, c);
    lemma_digits_value_bounds(a);
    lemma_digits_value_bounds(b);
    lemma_digits_value_bounds(c);
    let year = digits_value(a);
    let month = digits_value(b);
    let day = digits_value(c);
    lemma_digits_are_filled(a);
    lemma_digits_are_filled(b);
    lemma_digits_are_filled(c);
    assert(is_date(year, month, day));
    assert(text == written_date(year, month, day));
}

proof fn lemma_digits_are_filled(s: Seq<char>)
    requires
        all_digits(s),
        s.len() == 2 || s.len() == 4,
    ensures
        digits_value(s) >= 0,
        s == zero_filled(decimal(digits_value(s) as nat), s.len()),
{
    lemma_digits_value_bounds(s);
    let n = digits_value(s) as nat;
    law_filled_number_denotes_its_number(n, s.len());
    law_filled_number_has_its_width(n);
    law_digits_are_told_by_number_and_width(s, zero_filled(decimal(n), s.len()));
}

/// Every time of day is read as what it is.
pub proof fn law_every_time_is_read(hour: int, minute: int, second: int)
    requires
        0 <= hour < 24,
        0 <= minute < 60,
        0 <= second < 60,
    ensures
        is_hh_mm_ss(written_time(hour, minute, second)),
        hh_mm_ss_seconds(written_time(hour, minute, second)) == (hour * 60 + minute) * 60 + second,
{
    let a = zero_filled(decimal(hour as nat), 2);
    let b = zero_filled(decimal(minute as nat), 2);
    let c = zero_filled(decimal(second as nat), 2);
    law_filled_number_has_its_width(hour as nat);
    law_filled_number_has_its_width(minute as nat);
    law_filled_number_has_its_width(second as nat);
    law_filled_number_denotes_its_number(hour as nat, 2);
    law_filled_number_denotes_its_number(minute as nat, 2);
    law_filled_number_denotes_its_number(second as nat, 2);
    let text = written_time(hour, minute, second);
    assert(text.subrange(0, 2) =~= a);
    assert(text.subrange(3, 5) =~= b);
    assert(text.subrange(6, 8) =~= c);
}

/// Only times of day are read: what is read is what writing that time gives.
pub proof fn law_only_times_are_read(text: Seq<char>)
    requires
        is_hh_mm_ss(text),
    ensures
        exists|hour: int, minute: int, second: int|
            {
                &&& 0 <= hour < 24
                &&& 0 <= minute < 60
                &&& 0 <= second < 60
                &&& text == #[trigger] written_time(hour, minute, second)
            },
{
    let a = text.subrange(0, 2);
    let b = text.subrange(3, 5);
    let c = text.subrange(6, 8);
    lemma_digits_are_filled(a);
    lemma_digits_are_filled(b);
    lemma_digits_are_filled(c);
    assert(text =~= a + seq![':'] + b + seq![':'] + c);
    assert(text == written_time(digits_value(a), digits_value(b), digits_value(c)));
}

/// The nanoseconds from the Unix epoch to a time of day at the exchange, whose clocks are eight hours
/// ahead.
pub open spec fn instant_of(
    year: int,
    month: int,
    day: int,
    hour: int,
    minute: int,
    second: int,
    millisec: int,
) -> int {
    (((day_number(year, month, day) * 24 + hour - 8) * 60 + minute) * 60 + second) * 1_000_000_000
        + millisec * 1_000_000
}

/// Every date and every time of day has its timestamp, eight hours behind the exchange's clocks, unless
/// the timestamp cannot hold it.
pub proof fn law_every_moment_has_its_timestamp(
    year: int,
    month: int,
    day: int,
    hour: int,
    minute: int,
    second: int,
    millisec: int,
)
    requires
        0 <= year <= 9999,
        is_date(year, month, day),
        0 <= hour < 24,
        0 <= minute < 60,
        0 <= second < 60,
        0 <= millisec <= 999,
    ensures
        ({
            let ns = instant_of(year, month, day, hour, minute, second, millisec);
            exchange_timestamp(
                written_date(year, month, day),
                written_time(hour, minute, second),
                millisec,
            ) == if i64::MIN <= ns <= i64::MAX {
                Ok::<int, NormalizeError>(ns)
            } else {
                Err::<int, NormalizeError>(NormalizeError::InvalidDate)
            }
        }),
{
    law_every_date_is_read(year, month, day);
    law_every_time_is_read(hour, minute, second);
}

/// Nothing else has a timestamp: a day that is no date is refused as such, and otherwise a time that is
/// none, or milliseconds that make no second's part, are.
pub proof fn law_malformed_moments_are_refused(day: Seq<char>, time: Seq<char>, millisec: int)
    ensures
        !is_yyyymmdd(day) ==> exchange_timestamp(day, time, millisec) == Err::<int, NormalizeError>(
            NormalizeError::InvalidDate,
        ),
        is_yyyymmdd(day) && (!is_hh_mm_ss(time) || millisec < 0 || millisec > 999)
            ==> exchange_timestamp(day, time, millisec) == Err::<int, NormalizeError>(
            NormalizeError::InvalidTime,
        ),
{
}

/// A raw tick at a date and a time of day, with white space around both or none, gets the row of that
/// moment; and the row carries every field of the tick under the field of the same name.
pub proof fn law_row_carries_its_tick<P: Copy>(
    raw: &RawTickSnapshot<P>,
    r: Result<NormalizedTickRow<P>, NormalizeError>,
    year: int,
    month: int,
    day: int,
    hour: int,
    minute: int,
    second: int,
)
    requires
        call_ensures(normalize_tick::<P>, (raw,), r),
        0 <= year <= 9999,
        is_date(year, month, day),
        0 <= hour < 24,
        0 <= minute < 60,
        0 <= second < 60,
        0 <= raw.update_millisec <= 999,
        trimmed(raw.action_day@) == written_date(year, month, day),
        trimmed(raw.update_time@) == written_time(hour, minute, second),
        i64::MIN <= instant_of(
            year,
            month,
            day,
            hour,
            minute,
            second,
            raw.update_millisec as int,
        ) <= i64::MAX,
    ensures
        r matches Ok(row) && {
            &&& row.dt_ns == instant_of(
                year,
                month,
                day,
                hour,
                minute,
                second,
                raw.update_millisec as int,
            )
            &&& row.localtime_ns == 0
            &&& row.source_emit_ns == 0
            &&& row.instrument_id@ == trimmed(raw.instrument_id@)
            &&& is_text_kept(raw.exchange_id@, row.exchange_id)
            &&& is_text_kept(raw.trading_day@, row.trading_day)
            &&& is_text_kept(raw.action_day@, row.action_day)
            &&& row.last_price == Some(raw.last_price)
            &&& row.volume == Some(raw.volume)
            &&& row.turnover == Some(raw.turnover)
            &&& row.open_interest == Some(raw.open_interest)
            &&& row.bid_price_1 == Some(raw.bid_price_1)
            &&& row.bid_volume_1 == Some(raw.bid_volume_1)
            &&& row.ask_price_1 == Some(raw.ask_price_1)
            &&& row.ask_volume_1 == Some(raw.ask_volume_1)
        },
{
    law_every_moment_has_its_timestamp(
        year,
        month,
        day,
        hour,
        minute,
        second,
        raw.update_millisec as int,
    );
}

/// Whether an optional text is a given one without the white space around it, and is missing exactly
/// where nothing else is there.
pub open spec fn is_text_kept(given: Seq<char>, kept: Option<String>) -> bool {
    match kept {
        Some(text) => text@ == trimmed(given) && trimmed(given).len() > 0,
        None => trimmed(given).len() == 0,
    }
}

/// A date and a time of day that are written so are composed to their timestamp.
pub proof fn law_written_moments_are_composed(
    action_day: &str,
    update_time: &str,
    update_millisec: i32,
    r: Result<i64, NormalizeError>,
    year: int,
    month: int,
    day: int,
    hour: int,
    minute: int,
    second: int,
)
    requires
        call_ensures(
            compose_exchange_timestamp_ns,
            (action_day, update_time, update_millisec),
            r,
        ),
        0 <= year <= 9999,
        is_date(year, month, day),
        0 <= hour < 24,
        0 <= minute < 60,
        0 <= second < 60,
        action_day@ == written_date(year, month, day),
        update_time@ == written_time(hour, minute, second),
    ensures
        ({
            let ns = instant_of(year, month, day, hour, minute, second, update_millisec as int);
            let whole = 0 <= update_millisec <= 999;
            &&& whole && i64::MIN <= ns <= i64::MAX ==> (r matches Ok(dt_ns) && dt_ns == ns)
            &&& whole && !(i64::MIN <= ns <= i64::MAX) ==> r == Err::<i64, NormalizeError>(
                NormalizeError::InvalidDate,
            )
            &&& !whole ==> r == Err::<i64, NormalizeError>(NormalizeError::InvalidTime)
        }),
{
    law_every_date_is_read(year, month, day);
    law_every_time_is_read(hour, minute, second);
    if 0 <= update_millisec <= 999 {
        law_every_moment_has_its_timestamp(
            year,
            month,
            day,
            hour,
            minute,
            second,
            update_millisec as int,
        );
    }
}

/// The two days and the exchange of a row are taken from their own fields of the tick, whatever else the
/// tick holds; and a row comes only of a tick whose day is a date and whose time is one of the day.
pub proof fn law_rows_come_of_good_ticks<P: Copy>(
    raw: &RawTickSnapshot<P>,
    r: Result<NormalizedTickRow<P>, NormalizeError>,
)
    requires
        call_ensures(normalize_tick::<P>, (raw,), r),
    ensures
        r is Ok ==> {
            &&& is_yyyymmdd(trimmed(raw.action_day@))
            &&& is_hh_mm_ss(trimmed(raw.update_time@))
            &&& 0 <= raw.update_millisec <= 999
        },
        r is Err ==> exchange_timestamp(
            trimmed(raw.action_day@),
            trimmed(raw.update_time@),
            raw.update_millisec as int,
        ) is Err,
{
}

} // verus!
