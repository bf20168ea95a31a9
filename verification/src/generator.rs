//! Drivers that make ticks up, for times at which no market is open.
use crate::clock::{current_exchange_date_yyyymmdd, default_seed};
use crate::errors::RuntimeError;
use crate::market_walk::PriceModel;
use crate::normalize::{
    compose_exchange_timestamp_ns, exchange_instant_ns, exchange_timestamp, hh_mm_ss_seconds,
    is_hh_mm_ss, law_every_time_is_read, written_time, yyyymmdd_day_number, NormalizeError,
};
use crate::source::OpenCtpMarketDataSourceConfig;
use crate::text::{
    decimal, digits_value, is_digit, law_trimming_twice_changes_nothing, lemma_trimmed_of_trimmed,
    texts, trim, trimmed, zero_filled, zero_filled_text,
};
use vstd::prelude::*;

verus! {

/// Milliseconds from midnight to the first round.
pub const SESSION_START_MS: u64 = 34_200_000;

pub const DAY_MS: u64 = 86_400_000;

/// What a generator makes up.
#[derive(Debug, Clone, PartialEq)]
pub struct OpenCtpMarketGeneratorConfig<P> {
    pub instruments: Vec<String>,
    /// Milliseconds from one round to the next.
    pub interval_ms: u64,
    pub exchange_id: String,
    pub trading_day: String,
    pub action_day: String,
    pub seed: u64,
    pub base_price: P,
    pub price_step: P,
    /// Ticks after which the generator stops; it goes on without end where there is no such limit.
    pub max_ticks: Option<u64>,
}

/// Why a generator cannot be configured so.
#[derive(Debug, Clone, Copy, PartialEq, Eq, Structural)]
pub enum OpenCtpMarketGeneratorConfigError {
    EmptyInstruments,
    ZeroIntervalMs,
    InvalidBasePrice,
    InvalidPriceStep,
}

impl OpenCtpMarketGeneratorConfigError {
    pub open spec fn text(self) -> Seq<char> {
        match self {
            OpenCtpMarketGeneratorConfigError::EmptyInstruments => "instruments must not be empty"@,
            OpenCtpMarketGeneratorConfigError::ZeroIntervalMs => "interval_ms must be greater than zero"@,
            OpenCtpMarketGeneratorConfigError::InvalidBasePrice => "base_price must be positive and finite"@,
            OpenCtpMarketGeneratorConfigError::InvalidPriceStep => "price_step must be positive and finite"@,
        }
    }

    /// The text of the error.
    pub fn message(&self) -> (text: &'static str)
        ensures
            text@ == self.text(),
    {
        match self {
            OpenCtpMarketGeneratorConfigError::EmptyInstruments => "instruments must not be empty",
            OpenCtpMarketGeneratorConfigError::ZeroIntervalMs => "interval_ms must be greater than zero",
            OpenCtpMarketGeneratorConfigError::InvalidBasePrice => "base_price must be positive and finite",
            OpenCtpMarketGeneratorConfigError::InvalidPriceStep => "price_step must be positive and finite",
        }
    }
}

/// The instruments without the white space around them, and without the blank ones.
pub open spec fn named(instruments: Seq<Seq<char>>) -> Seq<Seq<char>> {
    instruments.map_values(|instrument: Seq<char>| trimmed(instrument)).filter(
        |instrument: Seq<char>| instrument.len() > 0,
    )
}

/// The instruments without the white space around them, and without the blank ones.
pub fn normalize_instruments(instruments: Vec<String>) -> (named_instruments: Vec<String>)
    ensures
        texts(named_instruments@) == named(texts(instruments@)),
{
    let ghost all = texts(instruments@).map_values(|instrument: Seq<char>| trimmed(instrument));
    let ghost is_named = |instrument: Seq<char>| instrument.len() > 0;
    let mut kept: Vec<String> = Vec::new();
    let mut i: usize = 0;
    proof {
        reveal(Seq::filter);
        assert(all.take(0) =~= Seq::empty());
        assert(texts(kept@) =~= all.take(0).filter(is_named));
    }
    while i < instruments.len()
        invariant
            i <= instruments.len(),
            all == texts(instruments@).map_values(|instrument: Seq<char>| trimmed(instrument)),
            is_named == (|instrument: Seq<char>| instrument.len() > 0),
            texts(kept@) == all.take(i as int).filter(is_named),
        decreases instruments.len() - i,
    {
        let instrument: &str = trim(instruments[i].as_str());
        let ghost before = kept@;
        if !instrument.is_empty() {
            kept.push(instrument.to_owned());
        }
        proof {
            reveal(Seq::filter);
            let next = all.take(i + 1);
            assert(next.drop_last() =~= all.take(i as int));
            assert(next.last() == trimmed(instruments@[i as int]@));
            assert(texts(kept@) =~= next.filter(is_named));
        }
        i = i + 1;
    }
    assert(all.take(instruments.len() as int) =~= all);
    kept
}

/// Naming instruments twice changes nothing: none of them is blank or has white space at its ends.
pub proof fn law_naming_twice_changes_nothing(instruments: Seq<Seq<char>>)
    ensures
        named(named(instruments)) == named(instruments),
        forall|i: int|
            0 <= i < named(instruments).len() ==> (#[trigger] named(instruments)[i]).len() > 0
                && trimmed(named(instruments)[i]) == named(instruments)[i],
{
    let all = instruments.map_values(|instrument: Seq<char>| trimmed(instrument));
    let is_named = |instrument: Seq<char>| instrument.len() > 0;
    let once = named(instruments);
    assert forall|i: int| 0 <= i < once.len() implies (#[trigger] once[i]).len() > 0 && trimmed(
        once[i],
    ) == once[i] by {
        all.lemma_filter_pred(is_named, i);
        assert(once.contains(once[i]));
        all.lemma_filter_contains_rev(is_named, once[i]);
        let k = all.index_of(once[i]);
        law_trimming_twice_changes_nothing(instruments[k]);
    }
    assert(once.map_values(|instrument: Seq<char>| trimmed(instrument)) =~= once);
    lemma_all_are_kept(once, is_named);
}

proof fn lemma_all_are_kept<T>(items: Seq<T>, keep: spec_fn(T) -> bool)
    requires
        forall|i: int| 0 <= i < items.len() ==> keep(#[trigger] items[i]),
    ensures
        items.filter(keep) == items,
    decreases items.len(),
{
    reveal(Seq::filter);
    if items.len() > 0 {
        lemma_all_are_kept(items.drop_last(), keep);
        assert(items.drop_last().push(items.last()) =~= items);
    }
}

/// What may be configured beyond instruments and interval.
#[derive(Debug, Clone, PartialEq)]
pub struct GeneratorOptions<P> {
    pub exchange_id: String,
    pub trading_day: Option<String>,
    pub action_day: Option<String>,
    pub seed: Option<u64>,
    pub base_price: P,
    pub price_step: P,
    pub max_ticks: Option<u64>,
}

impl<P: Copy> OpenCtpMarketGeneratorConfig<P> {
    /// A generator for the given instruments, with today's date, a seed from the clock, and the
    /// price model's own defaults.
    pub fn new<M: PriceModel<P>>(instruments: Vec<String>, interval_ms: u64, model: &M) -> (r: Result<
        Self,
        OpenCtpMarketGeneratorConfigError,
    >)
        ensures
            match r {
                Err(error) => if named(texts(instruments@)).len() == 0 {
                    error == OpenCtpMarketGeneratorConfigError::EmptyInstruments
                } else {
                    interval_ms == 0 && error == OpenCtpMarketGeneratorConfigError::ZeroIntervalMs
                },
                Ok(config) => {
                    &&& named(texts(instruments@)).len() > 0
                    &&& interval_ms > 0
                    &&& texts(config.instruments@) == named(texts(instruments@))
                    &&& config.interval_ms == interval_ms
                    &&& config.exchange_id@ == "CFFEX"@
                    &&& config.action_day@ == config.trading_day@
                    &&& crate::clock::may_be_exchange_date(config.trading_day@)
                    &&& crate::clock::may_be_seed(config.seed)
                    &&& config.seed >= 1
                    &&& call_ensures(M::default_base_price, (model,), config.base_price)
                    &&& call_ensures(M::default_price_step, (model,), config.price_step)
                    &&& config.max_ticks is None
                },
            },
    {
        let named_instruments: Vec<String> = normalize_instruments(instruments);
        proof {
            assert(texts(named_instruments@).len() == named_instruments@.len());
        }
        if named_instruments.len() == 0 {
            return Err(OpenCtpMarketGeneratorConfigError::EmptyInstruments);
        }
        if interval_ms == 0 {
            return Err(OpenCtpMarketGeneratorConfigError::ZeroIntervalMs);
        }
        let date: String = current_exchange_date_yyyymmdd();
        Ok(
            OpenCtpMarketGeneratorConfig {
                instruments: named_instruments,
                interval_ms,
                exchange_id: "CFFEX".to_owned(),
                trading_day: date.clone(),
                action_day: date,
                seed: default_seed(),
                base_price: model.default_base_price(),
                price_step: model.default_price_step(),
                max_ticks: None,
            },
        )
    }

    /// The same generator with another seed.
    pub fn with_seed(self, seed: u64) -> (config: Self)
        ensures
            config == (OpenCtpMarketGeneratorConfig { seed, ..self }),
    {
        OpenCtpMarketGeneratorConfig { seed, ..self }
    }

    /// The same generator with another limit.
    pub fn with_max_ticks(self, max_ticks: Option<u64>) -> (config: Self)
        ensures
            config == (OpenCtpMarketGeneratorConfig { max_ticks, ..self }),
    {
        OpenCtpMarketGeneratorConfig { max_ticks, ..self }
    }

    /// Sets the price at which the first instrument starts, and the largest step of a price.
    pub fn set_price_model<M: PriceModel<P>>(&mut self, base_price: P, price_step: P, model: &M) -> (r:
        Result<(), OpenCtpMarketGeneratorConfigError>)
        ensures
            match r {
                Ok(_) => {
                    &&& call_ensures(M::is_positive_finite, (model, base_price), true)
                    &&& call_ensures(M::is_positive_finite, (model, price_step), true)
                    &&& *final(self) == (OpenCtpMarketGeneratorConfig {
                        base_price,
                        price_step,
                        ..*old(self)
                    })
                },
                Err(error) => {
                    &&& *final(self) == *old(self)
                    &&& match error {
                        OpenCtpMarketGeneratorConfigError::InvalidBasePrice => call_ensures(
                            M::is_positive_finite,
                            (model, base_price),
                            false,
                        ),
                        OpenCtpMarketGeneratorConfigError::InvalidPriceStep => {
                            &&& call_ensures(M::is_positive_finite, (model, base_price), true)
                            &&& call_ensures(M::is_positive_finite, (model, price_step), false)
                        },
                        _ => false,
                    }
                },
            },
    {
        if !model.is_positive_finite(base_price) {
            return Err(OpenCtpMarketGeneratorConfigError::InvalidBasePrice);
        }
        if !model.is_positive_finite(price_step) {
            return Err(OpenCtpMarketGeneratorConfigError::InvalidPriceStep);
        }
        self.base_price = base_price;
        self.price_step = price_step;
        Ok(())
    }

    /// The same generator with further options. A trading day is the action day too, unless that
    /// is given.
    pub fn with_options<M: PriceModel<P>>(self, options: GeneratorOptions<P>, model: &M) -> (r: Result<
        Self,
        OpenCtpMarketGeneratorConfigError,
    >)
        ensures
            match r {
                Ok(config) => {
                    &&& call_ensures(M::is_positive_finite, (model, options.base_price), true)
                    &&& call_ensures(M::is_positive_finite, (model, options.price_step), true)
                    &&& config.instruments == self.instruments
                    &&& config.interval_ms == self.interval_ms
                    &&& config.exchange_id == options.exchange_id
                    &&& config.trading_day@ == match options.trading_day {
                        Some(day) => day@,
                        None => self.trading_day@,
                    }
                    &&& config.action_day@ == match (options.action_day, options.trading_day) {
                        (Some(day), _) => day@,
                        (None, Some(day)) => day@,
                        (None, None) => self.action_day@,
                    }
                    &&& config.seed == match options.seed {
                        Some(seed) => seed,
                        None => self.seed,
                    }
                    &&& config.base_price == options.base_price
                    &&& config.price_step == options.price_step
                    &&& config.max_ticks == options.max_ticks
                },
                Err(error) => match error {
                    OpenCtpMarketGeneratorConfigError::InvalidBasePrice => call_ensures(
                        M::is_positive_finite,
                        (model, options.base_price),
                        false,
                    ),
                    OpenCtpMarketGeneratorConfigError::InvalidPriceStep => {
                        &&& call_ensures(M::is_positive_finite, (model, options.base_price), true)
                        &&& call_ensures(M::is_positive_finite, (model, options.price_step), false)
                    },
                    _ => false,
                },
            },
    {
        let mut config: OpenCtpMarketGeneratorConfig<P> = self;
        config.exchange_id = options.exchange_id;
        match options.trading_day {
            Some(day) => {
                if options.action_day.is_none() {
                    config.action_day = day.clone();
                }
                config.trading_day = day;
            },
            None => {},
        }
        match options.action_day {
            Some(day) => {
                config.action_day = day;
            },
            None => {},
        }
        match options.seed {
            Some(seed) => {
                config.seed = seed;
            },
            None => {},
        }
        match config.set_price_model(options.base_price, options.price_step, model) {
            Ok(_) => {},
            Err(error) => {
                return Err(error);
            },
        }
        config.max_ticks = options.max_ticks;
        Ok(config)
    }
}

/// The configuration of a source whose driver is a generator for the given instruments.
pub fn generator_source_config(instruments: Vec<String>) -> (config: OpenCtpMarketDataSourceConfig)
    ensures
        config.front@ == "generator://openctp"@,
        config.broker_id@ == "generator"@,
        config.user_id@ == "generator"@,
        config.password@ == Seq::<char>::empty(),
        config.instruments == instruments,
        config.flow_path@ == ".cache/openctp/generator"@,
        config.reconnect,
        config.login_timeout_sec == 10,
        config.rows_per_batch == 1,
        config.flush_interval_ms == 0,
{
    OpenCtpMarketDataSourceConfig::low_latency(
        "generator://openctp".to_owned(),
        "generator".to_owned(),
        "generator".to_owned(),
        String::new(),
        instruments,
        ".cache/openctp/generator".to_owned(),
    )
}

/// Whether the clock reaches the given round.
pub open spec fn has_time(round: int, interval_ms: u64) -> bool {
    SESSION_START_MS + round * interval_ms <= u64::MAX
}

/// Milliseconds from midnight to the given round; the clock starts again at midnight.
pub open spec fn round_ms(round: int, interval_ms: u64) -> int {
    (SESSION_START_MS + round * interval_ms) % (DAY_MS as int)
}

/// The time of day that is `ms` milliseconds after midnight, without the milliseconds.
pub open spec fn clock_text(ms: int) -> Seq<char> {
    zero_filled(decimal((ms / 3_600_000) as nat), 2) + ":"@ + zero_filled(
        decimal((ms % 3_600_000 / 60_000) as nat),
        2,
    ) + ":"@ + zero_filled(decimal((ms % 60_000 / 1_000) as nat), 2)
}

/// The time of day of a round, and its milliseconds.
pub fn ctp_time_from_round(round_index: u64, interval_ms: u64) -> (time: (String, i32))
    requires
        has_time(round_index as int, interval_ms),
    ensures
        time.0@ == clock_text(round_ms(round_index as int, interval_ms)),
        time.1 == round_ms(round_index as int, interval_ms) % 1_000,
{
    assert(0 <= round_index * interval_ms) by (nonlinear_arith);
    let elapsed_ms: u64 = round_index * interval_ms;
    let total_ms: u64 = (SESSION_START_MS + elapsed_ms) % DAY_MS;
    let mut text: String = zero_filled_text(total_ms / 3_600_000, 2);
    text.append(":");
    text.append(zero_filled_text(total_ms % 3_600_000 / 60_000, 2).as_str());
    text.append(":");
    text.append(zero_filled_text(total_ms % 60_000 / 1_000, 2).as_str());
    (text, (total_ms % 1_000) as i32)
}

/// Whether the clock reaches the given round.
pub fn clock_reaches(round_index: u64, interval_ms: u64) -> (reaches: bool)
    ensures
        reaches == has_time(round_index as int, interval_ms),
{
    match round_index.checked_mul(interval_ms) {
        Some(elapsed_ms) => elapsed_ms <= u64::MAX - SESSION_START_MS,
        None => false,
    }
}

/// Nanoseconds of event time from the first round to the given one.
pub open spec fn elapsed_ns(round: int, interval_ms: u64) -> int {
    round * interval_ms * 1_000_000
}

/// Whether the event time of a round can be counted.
pub open spec fn has_elapsed(round: int, interval_ms: u64) -> bool {
    elapsed_ns(round, interval_ms) <= u64::MAX
}

/// The timestamp of the first round on the given day, or why there is none.
pub open spec fn session_start(action_day: Seq<char>) -> Result<int, NormalizeError> {
    exchange_timestamp(action_day, "09:30:00"@, 0)
}

/// Whether `dt_ns` is the timestamp of a round.
pub open spec fn is_round_dt(
    action_day: Seq<char>,
    interval_ms: u64,
    round: int,
    dt_ns: int,
) -> bool {
    &&& has_elapsed(round, interval_ms)
    &&& session_start(action_day) == Ok::<int, NormalizeError>(
        dt_ns - elapsed_ns(round, interval_ms),
    )
    &&& i64::MIN <= dt_ns <= i64::MAX
}

/// Whether a round has a timestamp.
pub open spec fn has_dt(action_day: Seq<char>, interval_ms: u64, round: int) -> bool {
    exists|dt_ns: int| #[trigger] is_round_dt(action_day, interval_ms, round, dt_ns)
}

/// Whether `error` is why a round has no timestamp.
pub open spec fn is_dt_failure(
    action_day: Seq<char>,
    interval_ms: u64,
    round: int,
    error: RuntimeError,
) -> bool {
    if !has_elapsed(round, interval_ms) {
        error.is_io("generator timestamp overflow"@)
    } else {
        match session_start(action_day) {
            Err(reason) => error.is_io(reason.text()),
            Ok(start) => {
                &&& error.is_io("generator timestamp overflow"@)
                &&& !(i64::MIN <= start + elapsed_ns(round, interval_ms) <= i64::MAX)
            },
        }
    }
}

/// The timestamp of a round.
pub fn generator_dt_ns(action_day: &str, interval_ms: u64, round_index: u64) -> (r: Result<
    i64,
    RuntimeError,
>)
    ensures
        match r {
            Ok(dt_ns) => is_round_dt(action_day@, interval_ms, round_index as int, dt_ns as int),
            Err(error) => is_dt_failure(action_day@, interval_ms, round_index as int, error),
        },
{
    assert(0 <= round_index * interval_ms) by (nonlinear_arith);
    let elapsed_ms: u64 = match round_index.checked_mul(interval_ms) {
        Some(elapsed_ms) => elapsed_ms,
        None => {
            return Err(RuntimeError::io("generator timestamp overflow"));
        },
    };
    let elapsed: u64 = match elapsed_ms.checked_mul(1_000_000) {
        Some(elapsed) => elapsed,
        None => {
            return Err(RuntimeError::io("generator timestamp overflow"));
        },
    };
    let start: i64 = match compose_exchange_timestamp_ns(action_day, "09:30:00", 0) {
        Ok(start) => start,
        Err(error) => {
            return Err(RuntimeError::io(error.message()));
        },
    };
    let dt_ns: i128 = start as i128 + elapsed as i128;
    if dt_ns > i64::MAX as i128 {
        return Err(RuntimeError::io("generator timestamp overflow"));
    }
    Ok(dt_ns as i64)
}

/// Whether a generator has made as many ticks as it may.
pub fn reached_max_ticks(emitted: u64, max_ticks: Option<u64>) -> (reached: bool)
    ensures
        reached == (max_ticks is Some && emitted >= max_ticks->0),
{
    match max_ticks {
        Some(limit) => emitted >= limit,
        None => false,
    }
}

/// The time of day of a round is one that the normalizer takes, and means the same to it.
pub proof fn law_round_time_is_well_formed(ms: int)
    requires
        0 <= ms < DAY_MS,
    ensures
        is_hh_mm_ss(clock_text(ms)),
        hh_mm_ss_seconds(clock_text(ms)) * 1_000 + ms % 1_000 == ms,
        trimmed(clock_text(ms)) == clock_text(ms),
{
    let hour = ms / 3_600_000;
    let minute = ms % 3_600_000 / 60_000;
    let second = ms % 60_000 / 1_000;
    assert(0 <= hour < 24 && 0 <= minute < 60 && 0 <= second < 60);
    assert(((hour * 60 + minute) * 60 + second) * 1_000 + ms % 1_000 == ms);
    reveal_strlit(":");
    assert(":"@ =~= seq![':']);
    let text = clock_text(ms);
    assert(text == written_time(hour, minute, second));
    law_every_time_is_read(hour, minute, second);
    assert(is_digit(text.subrange(0, 2)[0]));
    assert(is_digit(text.subrange(6, 8)[1]));
    assert(text.subrange(0, 2)[0] == text[0]);
    assert(text.subrange(6, 8)[1] == text.last());
    lemma_trimmed_of_trimmed(text);
}

/// A later round has a later timestamp, by the interval for every round between them.
pub proof fn law_later_rounds_are_later(
    action_day: Seq<char>,
    interval_ms: u64,
    round1: int,
    dt1: int,
    round2: int,
    dt2: int,
)
    requires
        0 <= round1 <= round2,
        is_round_dt(action_day, interval_ms, round1, dt1),
        is_round_dt(action_day, interval_ms, round2, dt2),
    ensures
        dt2 - dt1 == (round2 - round1) * interval_ms * 1_000_000,
        interval_ms > 0 && round1 < round2 ==> dt1 < dt2,
{
    assert(round2 * interval_ms - round1 * interval_ms == (round2 - round1) * interval_ms)
        by (nonlinear_arith);
    if interval_ms > 0 && round1 < round2 {
        assert((round2 - round1) * interval_ms > 0) by (nonlinear_arith)
            requires
                round1 < round2,
                interval_ms > 0,
        ;
    }
}

/// On one day, the time of day of a round and its timestamp say the same.
pub proof fn law_round_time_agrees_with_timestamp(
    action_day: Seq<char>,
    interval_ms: u64,
    round: int,
    dt_ns: int,
)
    requires
        0 <= round,
        is_round_dt(action_day, interval_ms, round, dt_ns),
        SESSION_START_MS + round * interval_ms < DAY_MS,
    ensures
        exchange_timestamp(
            trimmed(action_day),
            trimmed(clock_text(round_ms(round, interval_ms))),
            round_ms(round, interval_ms) % 1_000,
        ) == Ok::<int, NormalizeError>(dt_ns),
{
    assert(0 <= round * interval_ms) by (nonlinear_arith)
        requires
            0 <= round,
            0 <= interval_ms,
    ;
    let ms = SESSION_START_MS + round * interval_ms;
    assert(round_ms(round, interval_ms) == ms);
    law_round_time_is_well_formed(ms);
    reveal_strlit("09:30:00");
    let start = "09:30:00"@;
    assert(is_digit(action_day[0]) && is_digit(action_day.last()));
    lemma_trimmed_of_trimmed(action_day);
    assert(hh_mm_ss_seconds(start) == 34_200) by {
        reveal_with_fuel(digits_value, 3);
        assert(start.subrange(0, 2) =~= seq!['0', '9']);
        assert(start.subrange(3, 5) =~= seq!['3', '0']);
        assert(start.subrange(6, 8) =~= seq!['0', '0']);
        assert(seq!['0', '9'].drop_last() =~= seq!['0']);
        assert(seq!['3', '0'].drop_last() =~= seq!['3']);
        assert(seq!['0', '0'].drop_last() =~= seq!['0']);
        assert(seq!['0'].drop_last() =~= Seq::empty());
        assert(seq!['3'].drop_last() =~= Seq::empty());
    }
    let seconds = hh_mm_ss_seconds(clock_text(ms));
    let day = yyyymmdd_day_number(action_day);
    assert(exchange_instant_ns(action_day, clock_text(ms), ms % 1_000) == exchange_instant_ns(
        action_day,
        start,
        0,
    ) + round * interval_ms * 1_000_000);
}

/// One more instrument is named without the white space around it, behind the others, and a blank one is
/// left out.
pub proof fn law_instruments_are_named_one_by_one(instruments: Seq<Seq<char>>, x: Seq<char>)
    ensures
        named(Seq::<Seq<char>>::empty()) == Seq::<Seq<char>>::empty(),
        trimmed(x).len() > 0 ==> named(instruments.push(x)) == named(instruments).push(trimmed(x)),
        trimmed(x).len() == 0 ==> named(instruments.push(x)) == named(instruments),
{
    reveal(Seq::filter);
    let trim_all = |instrument: Seq<char>| trimmed(instrument);
    let all = instruments.push(x).map_values(trim_all);
    assert(all.drop_last() =~= instruments.map_values(trim_all));
    assert(all.last() == trimmed(x));
    assert(Seq::<Seq<char>>::empty().map_values(trim_all) =~= Seq::<Seq<char>>::empty());
}

/// Instruments are taken over as they are named.
pub proof fn law_instruments_are_taken_as_named(instruments: Vec<String>, r: Vec<String>)
    requires
        call_ensures(normalize_instruments, (instruments,), r),
    ensures
        texts(r@) == named(texts(instruments@)),
{
}

/// A generator needs an instrument and an interval, and has what it is given; without more it goes on
/// without end.
pub proof fn law_generator_has_what_it_is_given<P: Copy, M: PriceModel<P>>(
    instruments: Vec<String>,
    interval_ms: u64,
    model: &M,
    r: Result<OpenCtpMarketGeneratorConfig<P>, OpenCtpMarketGeneratorConfigError>,
)
    requires
        call_ensures(
            OpenCtpMarketGeneratorConfig::<P>::new::<M>,
            (instruments, interval_ms, model),
            r,
        ),
    ensures
        r is Ok <==> named(texts(instruments@)).len() > 0 && interval_ms > 0,
        named(texts(instruments@)).len() == 0 ==> (r matches Err(error) && error is EmptyInstruments),
        named(texts(instruments@)).len() > 0 && interval_ms == 0 ==> (r matches Err(error)
            && error is ZeroIntervalMs),
        r matches Ok(config) ==> {
            &&& texts(config.instruments@) == named(texts(instruments@))
            &&& config.interval_ms == interval_ms
            &&& config.max_ticks is None
            &&& config.exchange_id@ == "CFFEX"@
            &&& config.trading_day@ == config.action_day@
            &&& config.seed > 0
            &&& call_ensures(M::default_base_price, (model,), config.base_price)
            &&& call_ensures(M::default_price_step, (model,), config.price_step)
        },
{
}

/// A new seed and a new limit change nothing else.
pub proof fn law_seed_and_limit_change_nothing_else<P: Copy>(
    config: OpenCtpMarketGeneratorConfig<P>,
    seed: u64,
    seeded: OpenCtpMarketGeneratorConfig<P>,
    max_ticks: Option<u64>,
    limited: OpenCtpMarketGeneratorConfig<P>,
)
    requires
        call_ensures(OpenCtpMarketGeneratorConfig::<P>::with_seed, (config, seed), seeded),
        call_ensures(
            OpenCtpMarketGeneratorConfig::<P>::with_max_ticks,
            (config, max_ticks),
            limited,
        ),
    ensures
        seeded.seed == seed,
        limited.max_ticks == max_ticks,
        seeded.max_ticks == config.max_ticks,
        limited.seed == config.seed,
        seeded.instruments == config.instruments && limited.instruments == config.instruments,
        seeded.interval_ms == config.interval_ms && limited.interval_ms == config.interval_ms,
        seeded.exchange_id == config.exchange_id && limited.exchange_id == config.exchange_id,
        seeded.trading_day == config.trading_day && limited.trading_day == config.trading_day,
        seeded.action_day == config.action_day && limited.action_day == config.action_day,
        seeded.base_price == config.base_price && limited.base_price == config.base_price,
        seeded.price_step == config.price_step && limited.price_step == config.price_step,
{
}

/// Options are taken over where they are given and leave the rest as it was; a trading day alone is the
/// action day too. Prices that the model refuses are refused, the base price first.
pub proof fn law_options_are_taken_over<P: Copy, M: PriceModel<P>>(
    config: OpenCtpMarketGeneratorConfig<P>,
    options: GeneratorOptions<P>,
    model: &M,
    r: Result<OpenCtpMarketGeneratorConfig<P>, OpenCtpMarketGeneratorConfigError>,
)
    requires
        call_ensures(
            OpenCtpMarketGeneratorConfig::<P>::with_options::<M>,
            (config, options, model),
            r,
        ),
    ensures
        r matches Ok(next) ==> {
            &&& next.instruments == config.instruments
            &&& next.interval_ms == config.interval_ms
            &&& next.exchange_id == options.exchange_id
            &&& next.max_ticks == options.max_ticks
            &&& next.base_price == options.base_price
            &&& next.price_step == options.price_step
            &&& options.seed matches Some(seed) ==> next.seed == seed
            &&& options.seed is None ==> next.seed == config.seed
            &&& options.trading_day matches Some(day) ==> next.trading_day@ == day@
            &&& options.trading_day is None ==> next.trading_day@ == config.trading_day@
            &&& options.action_day matches Some(day) ==> next.action_day@ == day@
            &&& options.action_day is None ==> (options.trading_day matches Some(day)
                ==> next.action_day@ == day@)
            &&& options.action_day is None && options.trading_day is None ==> next.action_day@
                == config.action_day@
            &&& call_ensures(M::is_positive_finite, (model, options.base_price), true)
            &&& call_ensures(M::is_positive_finite, (model, options.price_step), true)
        },
        r matches Err(error) ==> {
            &&& error is InvalidBasePrice || error is InvalidPriceStep
            &&& error is InvalidBasePrice ==> call_ensures(
                M::is_positive_finite,
                (model, options.base_price),
                false,
            )
            &&& error is InvalidPriceStep ==> call_ensures(
                M::is_positive_finite,
                (model, options.price_step),
                false,
            )
        },
{
}

/// The session begins at half past nine, rounds follow one another by the interval, and the clock starts
/// again at midnight.
pub proof fn law_rounds_follow_the_clock(round: int, interval_ms: u64)
    requires
        0 <= round,
    ensures
        SESSION_START_MS == (9 * 60 + 30) * 60 * 1_000,
        DAY_MS == 24 * 60 * 60 * 1_000,
        round_ms(0, interval_ms) == SESSION_START_MS,
        0 <= round_ms(round, interval_ms) < DAY_MS,
        round_ms(round + 1, interval_ms) == (round_ms(round, interval_ms) + interval_ms)
            % 86_400_000,
        SESSION_START_MS + round * interval_ms < DAY_MS ==> round_ms(round, interval_ms)
            == SESSION_START_MS + round * interval_ms,
{
    assert(0 * interval_ms == 0) by (nonlinear_arith);
    assert((round + 1) * interval_ms == round * interval_ms + interval_ms) by (nonlinear_arith);
    assert(0 <= round * interval_ms) by (nonlinear_arith)
        requires
            0 <= round,
            0 <= interval_ms,
    ;
    let ms = SESSION_START_MS + round * interval_ms;
    vstd::arithmetic::div_mod::lemma_add_mod_noop(ms, interval_ms as int, 86_400_000);
    vstd::arithmetic::div_mod::lemma_add_mod_noop(
        round_ms(round, interval_ms),
        interval_ms as int,
        86_400_000,
    );
    vstd::arithmetic::div_mod::lemma_mod_twice(ms, 86_400_000);
}

/// The time of day of a round is what the normalizer reads as the round's milliseconds.
pub proof fn law_round_time_is_read_back(round_index: u64, interval_ms: u64, time: (String, i32))
    requires
        has_time(round_index as int, interval_ms),
        call_ensures(ctp_time_from_round, (round_index, interval_ms), time),
    ensures
        is_hh_mm_ss(time.0@),
        0 <= time.1 <= 999,
        hh_mm_ss_seconds(time.0@) * 1_000 + time.1 == (34_200_000 + round_index * interval_ms)
            % 86_400_000,
{
    assert(0 <= round_index * interval_ms) by (nonlinear_arith);
    law_round_time_is_well_formed(round_ms(round_index as int, interval_ms));
}

/// The clock reaches a round if its milliseconds since midnight can be counted in 64 bits.
pub proof fn law_clock_reaches_what_it_can_count(round_index: u64, interval_ms: u64, reaches: bool)
    requires
        call_ensures(clock_reaches, (round_index, interval_ms), reaches),
    ensures
        reaches <==> 34_200_000 + round_index * interval_ms <= 0xffff_ffff_ffff_ffff,
{
}

/// The timestamp of a round is half past nine on the action day and the interval for every round before
/// it; there is none only where there is no such day or the timestamp cannot hold it.
pub proof fn law_round_has_its_timestamp(
    action_day: &str,
    interval_ms: u64,
    round_index: u64,
    r: Result<i64, RuntimeError>,
    start: int,
)
    requires
        call_ensures(generator_dt_ns, (action_day, interval_ms, round_index), r),
    ensures
        exchange_timestamp(action_day@, "09:30:00"@, 0) == Ok::<int, NormalizeError>(start) && start
            + round_index * interval_ms * 1_000_000 <= i64::MAX && round_index * interval_ms
            * 1_000_000 <= u64::MAX ==> (r matches Ok(dt_ns) && dt_ns == start + round_index
            * interval_ms * 1_000_000),
        exchange_timestamp(action_day@, "09:30:00"@, 0) == Ok::<int, NormalizeError>(start) && start
            + round_index * interval_ms * 1_000_000 > i64::MAX ==> (r matches Err(error)
            && error.is_io("generator timestamp overflow"@)),
        exchange_timestamp(action_day@, "09:30:00"@, 0) is Err ==> r is Err,
{
    assert(0 <= round_index * interval_ms) by (nonlinear_arith);
    if exchange_timestamp(action_day@, "09:30:00"@, 0) == Ok::<int, NormalizeError>(start) {
        assert(i64::MIN <= start <= i64::MAX);
    }
}

/// The limit is reached with as many ticks as it says, and never without one.
pub proof fn law_limit_is_reached_by_count(emitted: u64, max_ticks: Option<u64>, reached: bool)
    requires
        call_ensures(reached_max_ticks, (emitted, max_ticks), reached),
    ensures
        max_ticks is None ==> !reached,
        max_ticks matches Some(limit) ==> (!reached <==> emitted < limit),
{
}

/// Prices that the model takes are set and nothing else is; prices that it refuses change nothing, and
/// the base price is looked at first.
pub proof fn law_prices_are_set_or_refused<P: Copy, M: PriceModel<P>>(
    config: &mut OpenCtpMarketGeneratorConfig<P>,
    base_price: P,
    price_step: P,
    model: &M,
    r: Result<(), OpenCtpMarketGeneratorConfigError>,
)
    requires
        call_ensures(
            OpenCtpMarketGeneratorConfig::<P>::set_price_model::<M>,
            (config, base_price, price_step, model),
            r,
        ),
    ensures
        r is Ok ==> {
            &&& final(config).base_price == base_price
            &&& final(config).price_step == price_step
            &&& call_ensures(M::is_positive_finite, (model, base_price), true)
            &&& call_ensures(M::is_positive_finite, (model, price_step), true)
        },
        r is Err ==> final(config).base_price == old(config).base_price && final(config).price_step
            == old(config).price_step,
        final(config).instruments == old(config).instruments,
        final(config).interval_ms == old(config).interval_ms,
        final(config).seed == old(config).seed,
        final(config).max_ticks == old(config).max_ticks,
        final(config).trading_day == old(config).trading_day,
        final(config).action_day == old(config).action_day,
        final(config).exchange_id == old(config).exchange_id,
{
}

} // verus!
