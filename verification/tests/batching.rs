use crossbeam_channel::unbounded;
use zippy_openctp::batching::{
    collect_normalized_row_batches, collect_tick_batch, collect_tick_batches, normalize_batch,
    prepare_row_batch, prepare_tick_batch, stamp_rows, MAX_TICKS_PER_EMIT,
};
use zippy_openctp::channel::{Inbox, Outbox};
use zippy_openctp::clock::{Moment, MonotonicClock, Span};
use zippy_openctp::fake_driver::forward_event;
use zippy_openctp::{
    normalize_tick, BufferedTickEmitter, FakeOpenCtpSourceRuntime, MdDriverEvent, NormalizedTickRow,
    OpenCtpMarketDataSourceConfig, OpenCtpSourceMetrics, RawTickSnapshot, RuntimeError, SourceError,
};

fn default_source_config() -> OpenCtpMarketDataSourceConfig {
    OpenCtpMarketDataSourceConfig::new(
        "tcp://127.0.0.1:12345".to_string(),
        "9999".to_string(),
        "000001".to_string(),
        "secret".to_string(),
        vec!["IF2506".to_string()],
        ".cache/openctp/md".to_string(),
    )
}

fn sample_tick(instrument_id: &str, volume: i64) -> RawTickSnapshot<f64> {
    RawTickSnapshot {
        instrument_id: instrument_id.to_string(),
        exchange_id: "CFFEX".to_string(),
        trading_day: "20260408".to_string(),
        action_day: "20260408".to_string(),
        update_time: "09:30:00".to_string(),
        update_millisec: 500,
        last_price: 3912.4,
        volume,
        turnover: 987654.0,
        open_interest: 56789.0,
        bid_price_1: 3912.2,
        bid_volume_1: 10,
        ask_price_1: 3912.6,
        ask_volume_1: 8,
    }
}

fn sample_row(volume: i64) -> NormalizedTickRow<f64> {
    normalize_tick(&sample_tick("IF2506", volume)).unwrap()
}

fn instrument_ids(batch: &[NormalizedTickRow<f64>]) -> Vec<&str> {
    batch.iter().map(|row| row.instrument_id.as_str()).collect()
}

fn volumes(ticks: &[RawTickSnapshot<f64>]) -> Vec<i64> {
    ticks.iter().map(|tick| tick.volume).collect()
}

#[test]
fn batching_flushes_immediately_when_rows_per_batch_is_one() {
    let mut source = FakeOpenCtpSourceRuntime::new(default_source_config());

    let batch = source
        .push_tick(sample_tick("IF2506", 1))
        .expect("push_tick should succeed");

    assert!(batch.is_some());

    let batch = batch.expect("rows_per_batch=1 should flush immediately");
    assert_eq!(batch.len(), 1);
    assert_eq!(instrument_ids(&batch), vec!["IF2506"]);
}

#[test]
fn batching_flushes_when_interval_is_due() {
    let mut config = default_source_config();
    config.rows_per_batch = 2;
    config.flush_interval_ms = 50;

    let mut source = FakeOpenCtpSourceRuntime::new(config);
    let started_at = MonotonicClock::start().now();
    let first = source
        .push_tick_at(sample_tick("IF2506", 1), started_at)
        .expect("first push_tick should succeed");
    assert!(first.is_none());

    let before_due = source
        .flush_if_due(started_at.after(Span::from_millis(49)))
        .expect("flush_if_due before interval should succeed");
    assert!(before_due.is_none());

    let due = source
        .flush_if_due(started_at.after(Span::from_millis(50)))
        .expect("flush_if_due at interval should succeed");

    let batch = due.expect("flush_if_due should emit buffered rows once due");
    assert_eq!(batch.len(), 1);
    assert_eq!(instrument_ids(&batch), vec!["IF2506"]);
}

#[test]
fn batching_rejects_invalid_ticks_from_runtime() {
    let mut source = FakeOpenCtpSourceRuntime::new(default_source_config());
    let mut raw = sample_tick("IF2506", 1);
    raw.action_day = " ".to_string();

    let error = source
        .push_tick(raw)
        .expect_err("invalid tick must be rejected");

    assert!(matches!(error, SourceError::Normalize(_)));
}

#[test]
fn emitter_hands_rows_out_in_order_and_keeps_none_back() {
    let mut emitter = BufferedTickEmitter::new(3, 0);
    let now = Moment { nanos: 0 };
    let mut out = Vec::new();
    for volume in 1..=7 {
        if let Some(batch) = emitter.push_tick(sample_row(volume), now) {
            assert_eq!(batch.len(), 3);
            out.extend(batch);
        }
    }
    assert_eq!(out.len(), 6);
    assert!(emitter.flush_if_due(now.after(Span::from_secs(3_600))).is_none());
    out.extend(emitter.flush().unwrap());
    assert!(emitter.flush().is_none());
    let seen: Vec<i64> = out.iter().map(|row| row.volume.unwrap()).collect();
    assert_eq!(seen, vec![1, 2, 3, 4, 5, 6, 7]);
}

#[test]
fn emitter_counts_the_wait_of_the_oldest_row() {
    let mut emitter = BufferedTickEmitter::new(10, 5);
    let start = Moment { nanos: 77 };
    assert!(emitter.flush_if_due(start).is_none());
    assert!(emitter.push_tick(sample_row(1), start).is_none());
    assert!(emitter.push_tick(sample_row(2), start.after(Span::from_millis(4))).is_none());
    let batch = emitter.flush_if_due(start.after(Span::from_millis(5))).unwrap();
    assert_eq!(batch.len(), 2);
    assert!(emitter.flush_if_due(start.after(Span::from_millis(50))).is_none());
}

#[test]
fn emitter_of_zero_rows_is_one_of_one_row() {
    let mut emitter = BufferedTickEmitter::new(0, 0);
    assert_eq!(emitter.push_tick(sample_row(1), Moment { nanos: 0 }).unwrap().len(), 1);
}

#[test]
fn ticks_that_wait_are_collected_up_to_the_first_other_event() {
    let (tx, rx) = unbounded();
    tx.send(MdDriverEvent::Tick(sample_tick("IF2506", 2))).unwrap();
    tx.send(MdDriverEvent::Ticks(vec![sample_tick("IF2506", 3), sample_tick("IF2506", 4)]))
        .unwrap();
    tx.send(MdDriverEvent::Ticks(vec![])).unwrap();
    tx.send(MdDriverEvent::Flush).unwrap();
    tx.send(MdDriverEvent::Tick(sample_tick("IF2506", 5))).unwrap();

    let mut pending = None;
    let mut inbox = Inbox::new(rx.clone());
    let batch = collect_tick_batch(sample_tick("IF2506", 1), &mut inbox, &mut pending);
    assert_eq!(volumes(&batch), vec![1, 2, 3, 4]);
    assert!(matches!(pending, Some(MdDriverEvent::Flush)));
    assert_eq!(rx.len(), 1);
}

#[test]
fn ticks_beyond_the_limit_wait_for_the_next_batch() {
    let (tx, rx) = unbounded();
    let many: Vec<_> = (0..MAX_TICKS_PER_EMIT as i64 + 2)
        .map(|volume| sample_tick("IF2506", volume))
        .collect();
    let mut pending = None;
    let batch = collect_tick_batches(many.clone(), &mut Inbox::new(rx.clone()), &mut pending);
    assert_eq!(batch.len(), MAX_TICKS_PER_EMIT);
    let Some(MdDriverEvent::Ticks(rest)) = pending else {
        panic!("the rest should wait");
    };
    assert_eq!(volumes(&rest), vec![32_768, 32_769]);

    tx.send(MdDriverEvent::Ticks(many[..3].to_vec())).unwrap();
    let mut pending = None;
    let nearly = many[..MAX_TICKS_PER_EMIT - 1].to_vec();
    let batch = collect_tick_batches(nearly, &mut Inbox::new(rx.clone()), &mut pending);
    assert_eq!(batch.len(), MAX_TICKS_PER_EMIT);
    assert_eq!(batch.last().unwrap().volume, 0);
    let Some(MdDriverEvent::Ticks(rest)) = pending else {
        panic!("the rest should wait");
    };
    assert_eq!(volumes(&rest), vec![1, 2]);

    drop(tx);
    let mut pending = None;
    let batch = collect_tick_batches(many[..2].to_vec(), &mut Inbox::new(rx.clone()), &mut pending);
    assert_eq!(batch.len(), 2);
    assert!(pending.is_none());
}

#[test]
fn rows_are_collected_apart_from_raw_ticks() {
    let (tx, rx) = unbounded();
    tx.send(MdDriverEvent::Rows(vec![sample_row(2)])).unwrap();
    tx.send(MdDriverEvent::Tick(sample_tick("IF2506", 3))).unwrap();
    let mut pending = None;
    let mut inbox = Inbox::new(rx.clone());
    let batch = collect_normalized_row_batches(vec![sample_row(1)], &mut inbox, &mut pending);
    assert_eq!(batch.len(), 2);
    assert!(matches!(pending, Some(MdDriverEvent::Tick(_))));

    let many = vec![sample_row(9); MAX_TICKS_PER_EMIT + 1];
    let mut pending = None;
    let batch = collect_normalized_row_batches(many, &mut inbox, &mut pending);
    assert_eq!(batch.len(), MAX_TICKS_PER_EMIT);
    assert!(matches!(pending, Some(MdDriverEvent::Rows(rest)) if rest.len() == 1));
}

#[test]
fn malformed_ticks_are_skipped_and_counted() {
    let mut malformed = sample_tick("IF2506", 2);
    malformed.update_time = "invalid".to_string();
    let ticks = vec![sample_tick("IF2506", 1), malformed, sample_tick("IH2506", 3)];
    let mut metrics = OpenCtpSourceMetrics::default();
    let rows = normalize_batch(&ticks, 77, &mut metrics);
    assert_eq!(instrument_ids(&rows), vec!["IF2506", "IH2506"]);
    assert!(rows.iter().all(|row| row.localtime_ns == 77 && row.source_emit_ns == 77));
    assert_eq!(metrics.normalize_failures_total, 1);

    let rows = prepare_tick_batch(ticks, &mut metrics).unwrap();
    assert_eq!(rows.len(), 2);
    assert!(rows[0].localtime_ns > 1_500_000_000_000_000_000);
    assert_eq!(metrics.normalize_failures_total, 2);
    assert!(prepare_tick_batch::<f64>(vec![], &mut metrics).unwrap().is_empty());
}

#[test]
fn rows_are_stamped_with_one_time() {
    let rows = stamp_rows(vec![sample_row(1), sample_row(2)], 5);
    assert!(rows.iter().all(|row| row.localtime_ns == 5 && row.source_emit_ns == 5));
    assert_eq!(rows[1].volume, Some(2));
    assert_eq!(rows[0].dt_ns, sample_row(1).dt_ns);

    let rows = prepare_row_batch(rows).unwrap();
    assert_eq!(rows[0].localtime_ns, rows[1].source_emit_ns);
    assert!(rows[0].localtime_ns > 5);
    assert!(prepare_row_batch::<f64>(vec![]).unwrap().is_empty());
}

#[test]
fn forwarding_driver_ends_with_the_stop_it_passes_on() {
    let (tx, rx) = unbounded();
    let mut outbox = Outbox::new(tx);
    let tick: MdDriverEvent<f64> = MdDriverEvent::Tick(sample_tick("IF2506", 1));
    assert_eq!(forward_event(Some(tick.clone()), &mut outbox), None);
    assert_eq!(forward_event(Some(MdDriverEvent::Stop), &mut outbox), Some(Ok(())));
    assert_eq!(rx.try_recv(), Ok(tick));
    assert_eq!(rx.try_recv(), Ok(MdDriverEvent::Stop));
    assert!(rx.try_recv().is_err());
}

#[test]
fn forwarding_driver_fails_where_an_end_is_gone() {
    let (tx, rx) = unbounded::<MdDriverEvent<f64>>();
    let mut outbox = Outbox::new(tx);
    assert_eq!(forward_event(None, &mut outbox), Some(Err(RuntimeError::ChannelReceive)));
    drop(rx);
    assert_eq!(
        forward_event(Some(MdDriverEvent::Flush), &mut outbox),
        Some(Err(RuntimeError::ChannelSend))
    );
}
