use crossbeam_channel::{bounded, unbounded, Receiver, RecvTimeoutError, Sender};
use std::time::Duration;
use zippy_openctp::channel::{Outbox, StopSignal};
use zippy_openctp::clock::{Moment, MonotonicClock, Span};
use zippy_openctp::columnar_generator::{
    columnar_batch_capacity, ColumnarGenerator, ColumnarReply, ColumnarStep,
    OpenCtpColumnarGeneratorSource, COLUMNAR_TARGET_BATCH_ROWS,
};
use zippy_openctp::generator::{
    ctp_time_from_round, generator_dt_ns, generator_source_config, normalize_instruments,
    reached_max_ticks,
    GeneratorOptions, OpenCtpMarketGeneratorConfig, OpenCtpMarketGeneratorConfigError,
};
use zippy_openctp::generator_driver::{
    run_normalized_generator, OpenCtpMarketGeneratorDriver, OpenCtpNormalizedGeneratorDriver,
};
use zippy_openctp::generator_run::{GeneratorReply, GeneratorRun, GeneratorStep};
use zippy_openctp::market_walk::{DeterministicRng, MarketWalk, PriceModel};
use zippy_openctp::normalize::normalize_tick;
use zippy_openctp::{MdDriverEvent, RuntimeError};

struct Floats;

impl PriceModel<f64> for Floats {
    fn default_base_price(&self) -> f64 {
        4000.0
    }

    fn default_price_step(&self) -> f64 {
        0.2
    }

    fn is_positive_finite(&self, value: f64) -> bool {
        value.is_finite() && value > 0.0
    }

    fn starting_price(&self, base_price: f64, index: usize) -> f64 {
        base_price + index as f64 * 10.0
    }

    fn starting_interest(&self, index: usize) -> f64 {
        10_000.0 + index as f64 * 100.0
    }

    fn no_turnover(&self) -> f64 {
        0.0
    }

    fn walk_price(&self, last_price: f64, price_step: f64, draw: u64) -> f64 {
        let unit = draw as f64 / (1u64 << 53) as f64;
        (last_price + (unit - 0.5) * 2.0 * price_step).max(price_step)
    }

    fn add_turnover(&self, turnover: f64, last_price: f64, lots: i64) -> f64 {
        turnover + last_price * lots as f64 * 10.0
    }

    fn walk_interest(&self, open_interest: f64, draw: u64) -> f64 {
        let unit = draw as f64 / (1u64 << 53) as f64;
        (open_interest + (unit - 0.5) * 2.0).max(1.0)
    }

    fn bid_price(&self, last_price: f64, price_step: f64) -> f64 {
        last_price - price_step
    }

    fn ask_price(&self, last_price: f64, price_step: f64) -> f64 {
        last_price + price_step
    }
}

fn config(instruments: &[&str], interval_ms: u64) -> OpenCtpMarketGeneratorConfig<f64> {
    let instruments = instruments.iter().map(|name| name.to_string()).collect();
    OpenCtpMarketGeneratorConfig::new(instruments, interval_ms, &Floats).unwrap()
}

/// Runs the driver of raw ticks, waiting as it asks.
fn drive(
    config: &OpenCtpMarketGeneratorConfig<f64>,
    tx: Sender<MdDriverEvent<f64>>,
    stop_rx: Receiver<()>,
) -> Result<(), RuntimeError> {
    let mut outbox = Outbox::new(tx);
    let mut stop = StopSignal::new(stop_rx.clone());
    let clock = MonotonicClock::start();
    let mut run = GeneratorRun::new(config, &Floats);
    let mut reply = GeneratorReply::Woken(clock.now());
    loop {
        let (next, step) = run.advance(config, &Floats, reply, &mut outbox, &mut stop);
        run = next;
        reply = match step {
            GeneratorStep::Wait(span) => {
                match stop_rx.recv_timeout(Duration::from_nanos(span.nanos as u64)) {
                    Err(RecvTimeoutError::Timeout) => GeneratorReply::Woken(clock.now()),
                    _ => GeneratorReply::StopAsked,
                }
            }
            GeneratorStep::Finish(result) => return result,
        };
    }
}

fn run_raw(
    config: OpenCtpMarketGeneratorConfig<f64>,
) -> (Result<(), RuntimeError>, Receiver<MdDriverEvent<f64>>) {
    let (tx, rx) = unbounded();
    let (_stop_tx, stop_rx) = bounded(1);
    let driver = OpenCtpMarketGeneratorDriver::new(config);
    let r = drive(&driver.config, tx, stop_rx);
    (r, rx)
}

fn run_rows(
    config: OpenCtpMarketGeneratorConfig<f64>,
) -> (Result<(), RuntimeError>, Receiver<MdDriverEvent<f64>>) {
    let (tx, rx) = unbounded();
    let (_stop_tx, stop_rx) = bounded(1);
    let driver = OpenCtpNormalizedGeneratorDriver::new(config);
    let r = run_normalized_generator(
        driver.config,
        &Floats,
        &mut Outbox::new(tx),
        &mut StopSignal::new(stop_rx),
    );
    (r, rx)
}

fn assert_raw_round_batch(event: MdDriverEvent<f64>, expected_instruments: &[&str]) {
    let MdDriverEvent::Ticks(ticks) = event else {
        panic!("expected raw tick batch event");
    };
    let instruments = ticks
        .iter()
        .map(|tick| tick.instrument_id.as_str())
        .collect::<Vec<_>>();
    assert_eq!(instruments, expected_instruments);
    assert!(ticks.iter().all(|tick| !tick.update_time.is_empty()));
    assert!(ticks
        .iter()
        .all(|tick| (0..=999).contains(&tick.update_millisec)));
}

fn assert_normalized_round_batch(event: MdDriverEvent<f64>, expected_instruments: &[&str]) {
    let MdDriverEvent::Rows(rows) = event else {
        panic!("expected normalized row batch event");
    };
    let instruments = rows
        .iter()
        .map(|tick| tick.instrument_id.as_str())
        .collect::<Vec<_>>();
    assert_eq!(instruments, expected_instruments);
    assert!(rows.iter().all(|tick| tick.dt_ns > 0));
    assert!(rows.iter().all(|tick| tick.localtime_ns == 0));
    assert!(rows.iter().all(|tick| tick.source_emit_ns == 0));
}

#[test]
fn generator_config_rejects_empty_instruments_and_zero_interval() {
    let empty = OpenCtpMarketGeneratorConfig::new(Vec::new(), 1, &Floats).unwrap_err();
    assert!(empty.message().contains("instruments"));

    let zero_interval =
        OpenCtpMarketGeneratorConfig::new(vec!["IF2606".to_string()], 0, &Floats).unwrap_err();
    assert!(zero_interval.message().contains("interval_ms"));
}

#[test]
fn generator_driver_emits_one_raw_tick_batch_per_instrument_round() {
    let config = config(&["IF2606", "IH2606", "IC2606"], 1)
        .with_seed(42)
        .with_max_ticks(Some(6));

    let (r, rx) = run_raw(config);
    assert_eq!(r, Ok(()));

    let first = rx.recv().unwrap();
    let second = rx.recv().unwrap();
    let stop = rx.recv().unwrap();

    assert_raw_round_batch(first, &["IF2606", "IH2606", "IC2606"]);
    assert_raw_round_batch(second, &["IF2606", "IH2606", "IC2606"]);
    assert!(matches!(stop, MdDriverEvent::Stop));
}

#[test]
fn normalized_generator_driver_emits_normalized_row_batches_without_raw_normalization() {
    let config = config(&["IF2606", "IH2606", "IC2606"], 1)
        .with_seed(42)
        .with_max_ticks(Some(6));

    let (r, rx) = run_rows(config);
    assert_eq!(r, Ok(()));

    let first = rx.recv().unwrap();
    let second = rx.recv().unwrap();
    let stop = rx.recv().unwrap();

    assert_normalized_round_batch(first, &["IF2606", "IH2606", "IC2606"]);
    assert_normalized_round_batch(second, &["IF2606", "IH2606", "IC2606"]);
    assert!(matches!(stop, MdDriverEvent::Stop));
}

#[test]
fn normalized_generator_interval_controls_event_time_without_wall_clock_pacing() {
    let config = config(&["IF2606"], 60_000).with_seed(42).with_max_ticks(Some(2));

    let clock = MonotonicClock::start();
    let (r, rx) = run_rows(config);
    assert_eq!(r, Ok(()));
    assert!(clock.now().nanos < Span::from_millis(200).nanos);

    let first = rx.recv_timeout(Duration::from_millis(200)).unwrap();
    let second = rx.recv_timeout(Duration::from_millis(200)).unwrap();
    let stop = rx.recv_timeout(Duration::from_millis(200)).unwrap();

    assert_normalized_round_batch(first, &["IF2606"]);
    assert_normalized_round_batch(second, &["IF2606"]);
    assert!(matches!(stop, MdDriverEvent::Stop));
}

#[test]
fn limit_in_the_midst_of_a_round_cuts_the_round() {
    let (r, rx) = run_raw(config(&["a", "b", "c"], 1).with_max_ticks(Some(5)));
    assert_eq!(r, Ok(()));
    assert_raw_round_batch(rx.recv().unwrap(), &["a", "b", "c"]);
    assert_raw_round_batch(rx.recv().unwrap(), &["a", "b"]);
    assert!(matches!(rx.recv().unwrap(), MdDriverEvent::Stop));
    assert!(rx.is_empty());

    let (r, rx) = run_rows(config(&["a", "b", "c"], 1).with_max_ticks(Some(0)));
    assert_eq!(r, Ok(()));
    assert!(matches!(rx.recv().unwrap(), MdDriverEvent::Stop));
    assert!(rx.is_empty());
}

#[test]
fn stop_ends_a_run_without_a_limit() {
    let (tx, rx) = unbounded();
    let (stop_tx, stop_rx) = bounded(1);
    stop_tx.send(()).unwrap();
    let r = drive(&config(&["a"], 1), tx, stop_rx);
    assert_eq!(r, Ok(()));
    assert!(matches!(rx.recv().unwrap(), MdDriverEvent::Stop));

    let (tx, rx) = unbounded();
    let (stop_tx, stop_rx) = bounded::<()>(1);
    drop(stop_tx);
    let r = run_normalized_generator(
        config(&["a", "b"], 1),
        &Floats,
        &mut Outbox::new(tx),
        &mut StopSignal::new(stop_rx),
    );
    assert_eq!(r, Ok(()));
    assert_normalized_round_batch(rx.recv().unwrap(), &["a", "b"]);
    assert!(matches!(rx.recv().unwrap(), MdDriverEvent::Stop));
    assert!(rx.is_empty());
}

#[test]
fn rounds_keep_the_interval() {
    let config = config(&["a", "b"], 10);
    let (tx, rx) = unbounded();
    let (_stop_tx, stop_rx) = bounded(1);
    let mut outbox = Outbox::new(tx);
    let mut stop = StopSignal::new(stop_rx);
    let start = Moment { nanos: 5 };
    let at = |millis: u64| GeneratorReply::Woken(start.after(Span::from_millis(millis)));
    let mut run = GeneratorRun::new(&config, &Floats);
    // Each wake-up with the rounds sent by then and the time still to wait.
    for (millis, rounds, wait_ms) in [
        (0, 1, 10),
        (4, 1, 6),
        (10, 2, 10),
        (35, 3, 0),
        (36, 4, 4),
        (39, 4, 1),
        (40, 5, 10),
    ] {
        let (next, step) = run.advance(&config, &Floats, at(millis), &mut outbox, &mut stop);
        run = next;
        assert!(matches!(step, GeneratorStep::Wait(span) if span == Span::from_millis(wait_ms)));
        assert_eq!(rx.len(), rounds);
    }

    let (_, step) = run.advance(
        &config,
        &Floats,
        GeneratorReply::StopAsked,
        &mut outbox,
        &mut stop,
    );
    assert!(matches!(step, GeneratorStep::Finish(Ok(()))));
    let events: Vec<_> = rx.try_iter().collect();
    assert_eq!(events.len(), 6);
    assert!(matches!(events[5], MdDriverEvent::Stop));
    for event in events.into_iter().take(5) {
        assert_raw_round_batch(event, &["a", "b"]);
    }
}

#[test]
fn a_run_takes_its_time() {
    let clock = MonotonicClock::start();
    let (r, _) = run_raw(config(&["a"], 20).with_max_ticks(Some(3)));
    assert_eq!(r, Ok(()));
    assert!(clock.now().nanos >= Span::from_millis(40).nanos);
}

#[test]
fn run_ends_where_nobody_listens() {
    let (tx, rx) = unbounded();
    drop(rx);
    let (_stop_tx, stop_rx) = bounded(1);
    let r = drive(&config(&["a"], 1), tx, stop_rx);
    assert_eq!(r, Err(RuntimeError::ChannelSend));
}

#[test]
fn runs_end_where_the_clock_ends() {
    let overflow = Err(RuntimeError::Io {
        reason: "generator timestamp overflow".to_string(),
    });
    let (r, rx) = run_raw(config(&["a"], u64::MAX));
    assert_eq!(r, overflow);
    assert_eq!(rx.len(), 1);
    let (r, rx) = run_rows(config(&["a"], u64::MAX));
    assert_eq!(r, overflow);
    assert_eq!(rx.len(), 1);

    let mut odd = config(&["a"], 1);
    odd.action_day = "today".to_string();
    let (r, _) = run_rows(odd);
    assert_eq!(
        r,
        Err(RuntimeError::Io {
            reason: "invalid action day".to_string(),
        })
    );
}

#[test]
fn seed_decides_prices_and_volumes() {
    let mut config = config(&["IF2606", "IH2606"], 1).with_seed(42).with_max_ticks(Some(4));
    config.action_day = "20260408".to_string();
    let (_, rx) = run_raw(config.clone());
    let mut ticks = Vec::new();
    for event in rx.try_iter() {
        if let MdDriverEvent::Ticks(round) = event {
            ticks.extend(round);
        }
    }
    assert_eq!(ticks.len(), 4);
    let (_, again) = run_raw(config.clone());
    let mut same = Vec::new();
    for event in again.try_iter() {
        if let MdDriverEvent::Ticks(round) = event {
            same.extend(round);
        }
    }
    assert_eq!(same, ticks);
    let prices: Vec<f64> = ticks.iter().map(|tick| tick.last_price).collect();
    assert_eq!(
        prices,
        vec![4000.0272921306578, 4009.81049156428, 3999.9699929713156, 4009.7668405656773]
    );
    assert_eq!(ticks[0].turnover, 40000.272921306576);
    assert_eq!(ticks[3].turnover, 200489.65155824195);
    assert_eq!(ticks[2].open_interest, 10000.666617204408);
    assert_eq!(ticks[0].bid_price_1, 3999.827292130658);
    assert_eq!(ticks[0].ask_price_1, 4000.2272921306576);
    let volumes: Vec<i64> = ticks.iter().map(|tick| tick.volume).collect();
    assert_eq!(volumes, vec![1, 3, 4, 5]);
    let depths: Vec<(i64, i64)> =
        ticks.iter().map(|tick| (tick.bid_volume_1, tick.ask_volume_1)).collect();
    assert_eq!(depths, vec![(34, 25), (47, 58), (42, 11), (37, 18)]);
    assert_eq!(ticks[0].update_time, "09:30:00");
    assert_eq!((ticks[0].update_millisec, ticks[2].update_millisec), (0, 1));

    let mut generator = ColumnarGenerator::new(&config, &Floats);
    let columns = generator.next_batch(&config, &Floats, 0).unwrap();
    let (_, rx) = run_rows(config.clone());
    let mut rows = Vec::new();
    for event in rx.try_iter() {
        if let MdDriverEvent::Rows(round) = event {
            rows.extend(round);
        }
    }
    for (k, (tick, row)) in ticks.iter().zip(rows).enumerate() {
        let normalized = normalize_tick(tick).unwrap();
        assert_eq!(normalized, row);
        assert_eq!(columns.instrument_ids[k], tick.instrument_id);
        assert_eq!(columns.dt_ns[k], row.dt_ns);
        assert_eq!(columns.last_price[k], tick.last_price);
        assert_eq!(columns.volume[k], tick.volume);
        assert_eq!(columns.turnover[k], tick.turnover);
        assert_eq!(columns.open_interest[k], tick.open_interest);
    }
}

#[test]
fn walk_remembers_every_instrument_by_itself() {
    let mut walk = MarketWalk::new(&Floats, 4000.0, 0.2, 7, 2);
    let first = walk.next_quote(&Floats, 0, 0).unwrap();
    let other = walk.next_quote(&Floats, 1, 0).unwrap();
    let second = walk.next_quote(&Floats, 0, 1).unwrap();
    assert!(second.volume > first.volume);
    assert!((second.last_price - first.last_price).abs() <= 0.2);
    assert!((other.last_price - 4010.0).abs() <= 0.2);
    assert!((10..60).contains(&second.bid_volume_1));
}

#[test]
fn numbers_follow_from_the_seed() {
    let mut rng = DeterministicRng::new(42);
    assert_eq!(rng.next_u64(), 10_481_999_410_520_546_993);
    assert_eq!(rng.next_u64(), 4_159_066_171_780_167_020);
    assert_eq!(rng.next_draw(), 7_615_522_811_268_512_075 >> 11);
    let mut zero = DeterministicRng::new(0);
    assert_eq!(zero.next_u64(), 7_806_831_264_735_756_412);
    assert_eq!(DeterministicRng::new(1).next_u64(), 7_806_831_264_735_756_412);
}

#[test]
fn round_times_start_again_at_midnight() {
    assert_eq!(ctp_time_from_round(0, 500), ("09:30:00".to_string(), 0));
    assert_eq!(ctp_time_from_round(3, 500), ("09:30:01".to_string(), 500));
    assert_eq!(ctp_time_from_round(1, 52_199_999), ("23:59:59".to_string(), 999));
    assert_eq!(ctp_time_from_round(1, 52_200_000), ("00:00:00".to_string(), 0));
}

#[test]
fn round_timestamps_count_the_interval() {
    let start = 1_775_611_800_000_000_000;
    assert_eq!(generator_dt_ns("20260408", 500, 0), Ok(start));
    assert_eq!(generator_dt_ns("20260408", 500, 3), Ok(start + 1_500_000_000));
    assert!(generator_dt_ns("20260408", 1, u64::MAX).is_err());
    assert!(generator_dt_ns("20260408", 9_000_000_000_000, 1).is_err());
    assert_eq!(
        generator_dt_ns("20260408", 18_446_744_073_709, 1),
        Err(RuntimeError::io("generator timestamp overflow"))
    );
    assert_eq!(generator_dt_ns("20260408", 7_000_000_000_000, 1), Ok(start + 7_000_000_000_000_000_000));
    assert!(generator_dt_ns("2026", 1, 1).is_err());
}

#[test]
fn config_starts_with_defaults_of_the_day() {
    let config = config(&[" IF2606 ", "", "  ", "IH2606", "IF2606"], 5);
    let named = vec!["IF2606".to_string(), "IH2606".to_string(), "IF2606".to_string()];
    assert_eq!(config.instruments, named);
    let given = [" IF2606 ", "", "  ", "IH2606", "IF2606"].map(str::to_string).to_vec();
    assert_eq!(normalize_instruments(given), named);
    assert_eq!(normalize_instruments(named.clone()), named);
    assert_eq!(config.exchange_id, "CFFEX");
    assert_eq!(config.trading_day.len(), 8);
    assert_eq!(config.trading_day, config.action_day);
    assert!(config.trading_day.as_str() > "20240101");
    assert!(config.seed >= 1);
    assert_eq!((config.base_price, config.price_step), (4000.0, 0.2));
    assert_eq!(config.max_ticks, None);
    assert_eq!(
        OpenCtpMarketGeneratorConfig::new(vec![" ".to_string()], 0, &Floats),
        Err(OpenCtpMarketGeneratorConfigError::EmptyInstruments)
    );
}

#[test]
fn price_model_has_to_be_positive_and_finite() {
    let mut config = config(&["a"], 5);
    let before = config.clone();
    for (base, step, error) in [
        (0.0, 1.0, OpenCtpMarketGeneratorConfigError::InvalidBasePrice),
        (f64::NAN, 1.0, OpenCtpMarketGeneratorConfigError::InvalidBasePrice),
        (1.0, -1.0, OpenCtpMarketGeneratorConfigError::InvalidPriceStep),
        (1.0, f64::INFINITY, OpenCtpMarketGeneratorConfigError::InvalidPriceStep),
    ] {
        assert_eq!(config.set_price_model(base, step, &Floats), Err(error));
        assert_eq!(config, before);
    }
    assert_eq!(config.set_price_model(10.0, 0.5, &Floats), Ok(()));
    assert_eq!((config.base_price, config.price_step), (10.0, 0.5));
    assert_eq!(
        OpenCtpMarketGeneratorConfigError::InvalidBasePrice.message(),
        "base_price must be positive and finite"
    );
    assert_eq!(
        OpenCtpMarketGeneratorConfigError::InvalidPriceStep.message(),
        "price_step must be positive and finite"
    );
}

#[test]
fn trading_day_is_the_action_day_unless_that_is_given() {
    let options = GeneratorOptions {
        exchange_id: "SHFE".to_string(),
        trading_day: Some("20260409".to_string()),
        action_day: None,
        seed: None,
        base_price: 1.0,
        price_step: 2.0,
        max_ticks: Some(3),
    };
    let given = config(&["a"], 5);
    let seed = given.seed;
    let set = given.with_options(options.clone(), &Floats).unwrap();
    assert_eq!(set.exchange_id, "SHFE");
    assert_eq!((set.trading_day.as_str(), set.action_day.as_str()), ("20260409", "20260409"));
    assert_eq!((set.seed, set.max_ticks), (seed, Some(3)));

    let mut both = options.clone();
    both.action_day = Some("20260408".to_string());
    both.seed = Some(0);
    let set = config(&["a"], 5).with_options(both, &Floats).unwrap();
    assert_eq!((set.trading_day.as_str(), set.action_day.as_str()), ("20260409", "20260408"));
    assert_eq!(set.seed, 0);

    let mut wrong = options;
    wrong.price_step = 0.0;
    assert_eq!(
        config(&["a"], 5).with_options(wrong, &Floats),
        Err(OpenCtpMarketGeneratorConfigError::InvalidPriceStep)
    );
}

#[test]
fn generator_sources_are_configured_alike() {
    let config = generator_source_config(vec!["a".to_string()]);
    assert_eq!(config.front, "generator://openctp");
    assert_eq!(config.password, "");
    assert_eq!(config.instruments, vec!["a".to_string()]);
    assert_eq!(config.flow_path, ".cache/openctp/generator");
}

#[test]
fn batches_of_columns_are_as_large_as_they_may_be() {
    assert_eq!(columnar_batch_capacity(2, 0, None), COLUMNAR_TARGET_BATCH_ROWS);
    assert_eq!(columnar_batch_capacity(40_000, 0, None), 40_000);
    assert_eq!(columnar_batch_capacity(2, 3, Some(10)), 7);
    assert_eq!(columnar_batch_capacity(2, 10, Some(10)), 0);
    assert_eq!(columnar_batch_capacity(2, 11, Some(10)), COLUMNAR_TARGET_BATCH_ROWS);
    assert!(reached_max_ticks(10, Some(10)));
    assert!(!reached_max_ticks(9, Some(10)));
    assert!(!reached_max_ticks(u64::MAX, None));
}

#[test]
fn a_batch_of_columns_goes_on_inside_the_round() {
    let config = config(&["a", "b", "c"], 1_000).with_max_ticks(Some(65_537));
    let mut generator = ColumnarGenerator::new(&config, &Floats);
    let first = generator.next_batch(&config, &Floats, 5).unwrap();
    assert_eq!(first.len(), 32_768);
    assert!(first.validate_lengths().is_ok());
    assert_eq!(&first.instrument_ids[..4], &["a", "b", "c", "a"]);
    assert_eq!(first.instrument_ids.last(), Some(&"b"));
    assert_eq!(first.dt_ns[0], first.dt_ns[2]);
    assert_eq!(first.dt_ns[3] - first.dt_ns[2], 1_000_000_000);
    assert!(first.localtime_ns.iter().all(|time| *time == 5));
    assert!(first.volume[3] > first.volume[0]);

    let second = generator.next_batch(&config, &Floats, 6).unwrap();
    assert_eq!(second.len(), 32_768);
    assert_eq!(&second.instrument_ids[..2], &["c", "a"]);
    assert_eq!(second.dt_ns[0], first.dt_ns[32_766]);
    assert_eq!(second.dt_ns[1] - second.dt_ns[0], 1_000_000_000);
    assert_eq!(second.instrument_ids.last(), Some(&"a"));
    assert_eq!(generator.emitted(&config, &Floats), 65_536);

    let third = generator.next_batch(&config, &Floats, 7).unwrap();
    assert_eq!(third.instrument_ids, vec!["b"]);
    assert_eq!(third.dt_ns[0], second.dt_ns[32_767]);
    assert_eq!(generator.next_batch(&config, &Floats, 8).unwrap().len(), 0);
}

#[test]
fn columnar_source_ends_where_the_clock_fails() {
    let config = config(&["a"], 1_000).with_max_ticks(Some(3));
    let checking = || {
        let mut source = OpenCtpColumnarGeneratorSource::start(&config, &Floats, false);
        for _ in 0..3 {
            assert!(source.accepts(&ColumnarReply::Done));
            source = source.advance(&config, &Floats, ColumnarReply::Done).0;
        }
        source
    };
    let (_, step) = checking().make_batch(&config, &Floats, Err(RuntimeError::io("no time")));
    assert!(matches!(step, ColumnarStep::Finish(Err(error)) if error == RuntimeError::io("no time")));
    let (source, step) = checking().make_batch(&config, &Floats, Ok(7));
    let ColumnarStep::Write(batch) = step else {
        panic!("a batch should be written");
    };
    assert_eq!(batch.len(), 3);
    assert_eq!(batch.source_emit_ns, vec![7, 7, 7]);
    assert_eq!(source.generator.emitted(&config, &Floats), 3);
}
