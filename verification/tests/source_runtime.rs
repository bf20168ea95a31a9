use crossbeam_channel::{bounded, unbounded, RecvTimeoutError};
use zippy_openctp::channel::{Inbox, Outbox, StopSignal};
use zippy_openctp::clock::MonotonicClock;
use zippy_openctp::columnar_generator::{ColumnarPhase, ColumnarReply, ColumnarStep};
use zippy_openctp::generator::OpenCtpMarketGeneratorConfig;
use zippy_openctp::generator_driver::run_normalized_generator;
use zippy_openctp::generator_run::{GeneratorReply, GeneratorRun, GeneratorStep};
use zippy_openctp::lifecycle::{
    DriverStop, LifecycleReply, LifecycleStep, SourceLifecycle, STREAM_NAME, STREAM_VERSION,
};
use zippy_openctp::market_walk::PriceModel;
use zippy_openctp::segment_ingress::{
    begin_columnar_write, begin_write, column_slices, descriptor_changed, row_cells, CellValue,
    ColumnData, OpenCtpColumnarTickBatch, OpenCtpSegmentDebugMetrics, OpenCtpSegmentIngress,
    SegmentStoreError, WriteReply, WriteStep, SOURCE_SEGMENT_ROW_CAPACITY,
};
use zippy_openctp::source::{ReconnectUpdate, SubscriptionOutcome};
use zippy_openctp::source_loop::{LoopEnd, LoopReply, LoopStep, SinkNotice, SourceLoop};
use zippy_openctp::{
    normalize_tick, MdDriverEvent, NormalizedTickRow, OpenCtpColumnarGeneratorSource,
    OpenCtpSourceMetrics, OpenCtpSourceStatus, RawTickSnapshot, RuntimeError,
};

/// Segments that live in memory.
struct Segments {
    capacity: usize,
    active: Vec<NormalizedTickRow<f64>>,
    id: u64,
    rollovers: usize,
    account: OpenCtpSegmentIngress<f64>,
}

impl Segments {
    fn new(account: OpenCtpSegmentIngress<f64>) -> Self {
        Segments {
            capacity: account.row_capacity(),
            active: Vec::new(),
            id: 1,
            rollovers: 0,
            account,
        }
    }

    /// Id and generation of the active segment.
    fn identity(&self) -> (u64, u64) {
        (self.id, self.rollovers as u64)
    }

    fn store(&mut self, rows: &[NormalizedTickRow<f64>]) -> WriteReply {
        let room = self.capacity - self.active.len();
        if room == 0 {
            return WriteReply::Failed(SegmentStoreError::Writer("segment is full"));
        }
        let written = room.min(rows.len());
        self.active.extend_from_slice(&rows[..written]);
        WriteReply::Written(written)
    }

    fn roll_over(&mut self) -> WriteReply {
        let retired = self.identity();
        self.id += 1;
        self.rollovers += 1;
        self.active.clear();
        WriteReply::RolledOver { retired }
    }

    fn write_row(&mut self, row: &NormalizedTickRow<f64>) -> Result<(), &'static str> {
        let (mut progress, mut step) = begin_write(1);
        loop {
            let reply = match step {
                WriteStep::Write { .. } => self.store(std::slice::from_ref(row)),
                WriteStep::Rollover => self.roll_over(),
                WriteStep::Finish(result) => return result.map(|_| ()),
            };
            (progress, step) = self.account.write_row(row, progress, reply);
        }
    }

    fn write_rows(&mut self, rows: &[NormalizedTickRow<f64>]) -> Result<bool, &'static str> {
        let (mut progress, mut step) = begin_write(rows.len());
        loop {
            let reply = match step {
                WriteStep::Write { offset } => self.store(&rows[offset..]),
                WriteStep::Rollover => self.roll_over(),
                WriteStep::Finish(result) => return result,
            };
            (progress, step) = self.account.write_rows(rows, progress, reply);
        }
    }

    fn write_columns(
        &mut self,
        batch: &OpenCtpColumnarTickBatch<f64>,
    ) -> Result<bool, &'static str> {
        let (mut progress, mut step) = begin_columnar_write(batch);
        loop {
            let reply = match step {
                WriteStep::Write { offset } => {
                    let rows: Vec<_> = (offset..batch.len()).map(|row| row_of(batch, row)).collect();
                    self.store(&rows)
                }
                WriteStep::Rollover => self.roll_over(),
                WriteStep::Finish(result) => return result,
            };
            (progress, step) = self.account.write_columnar_batch(batch, progress, reply);
        }
    }
}

/// A reader of the segment with the given id, and how far it has read.
struct Reader {
    id: u64,
    next: usize,
}

impl Reader {
    fn available(
        &mut self,
        segments: &Segments,
        retired: &[NormalizedTickRow<f64>],
    ) -> Vec<NormalizedTickRow<f64>> {
        let rows = if self.id == segments.id {
            &segments.active[..]
        } else {
            retired
        };
        let fresh = rows[self.next.min(rows.len())..].to_vec();
        self.next = rows.len();
        fresh
    }
}

#[derive(Clone, Debug, PartialEq)]
enum Recorded {
    Hello(String),
    Data { rows: usize },
    Flush,
    Stop,
    Error(String),
}

struct Run {
    recorded: Vec<Recorded>,
    rows: Vec<NormalizedTickRow<f64>>,
    result: Result<(), RuntimeError>,
    /// Every status that the source had, from one change to the next.
    statuses: Vec<OpenCtpSourceStatus>,
    metrics: OpenCtpSourceMetrics,
    debug: Option<OpenCtpSegmentDebugMetrics<f64>>,
    driver_stop: DriverStop,
    driver_stops: usize,
    /// The segments whose descriptors were published.
    published: Vec<(u64, u64)>,
}

impl Run {
    fn set_status(&mut self, status: OpenCtpSourceStatus) {
        if self.status() != status {
            self.statuses.push(status);
        }
    }

    fn status(&self) -> OpenCtpSourceStatus {
        *self.statuses.last().unwrap()
    }

    fn stop_driver(&mut self) {
        if self.driver_stop.must_ask() {
            self.driver_stops += 1;
            self.driver_stop.asked(Ok(())).unwrap();
        }
    }

    fn instruments(&self) -> Vec<&str> {
        self.rows.iter().map(|row| row.instrument_id.as_str()).collect()
    }

    fn data_rows(&self) -> Vec<usize> {
        self.recorded
            .iter()
            .filter_map(|event| match event {
                Recorded::Data { rows } => Some(*rows),
                _ => None,
            })
            .collect()
    }
}

/// Runs a source over events that are all there from the start.
fn run_source(
    events: Vec<MdDriverEvent<f64>>,
    stop_after: Option<usize>,
    fail_data: bool,
    publishes: bool,
    capacity: usize,
) -> Run {
    run_source_with_driver(events, Ok(()), stop_after, fail_data, publishes, capacity)
}

/// Runs a source over events that are all there from the start, with a driver that ends as told.
fn run_source_with_driver(
    events: Vec<MdDriverEvent<f64>>,
    driver_end: Result<(), RuntimeError>,
    stop_after: Option<usize>,
    fail_data: bool,
    publishes: bool,
    capacity: usize,
) -> Run {
    let (tx, rx) = unbounded();
    for event in events {
        tx.send(event).unwrap();
    }
    drop(tx);

    let mut run = Run {
        recorded: Vec::new(),
        rows: Vec::new(),
        result: Ok(()),
        statuses: vec![OpenCtpSourceStatus::Created],
        metrics: OpenCtpSourceMetrics::default(),
        debug: None,
        driver_stop: DriverStop::new(),
        driver_stops: 0,
        published: Vec::new(),
    };
    let mut segments = Segments::new(OpenCtpSegmentIngress::with_row_capacity(capacity));
    let mut reader = Reader { id: 1, next: 0 };
    let mut life = SourceLifecycle::start(publishes);
    let mut step = LifecycleStep::StartDriver;
    loop {
        run.set_status(life.status);
        let reply = match step {
            LifecycleStep::StartDriver => LifecycleReply::Done,
            LifecycleStep::EmitHello => {
                run.recorded.push(Recorded::Hello(STREAM_NAME.to_string()));
                LifecycleReply::Done
            }
            LifecycleStep::OpenSegment | LifecycleStep::OpenReader => LifecycleReply::Done,
            LifecycleStep::Publish => {
                run.published.push(segments.identity());
                LifecycleReply::Done
            }
            LifecycleStep::RunLoop => {
                let state = SourceLoop::new(run.metrics, life.status, publishes);
                let result = run_loop(
                    state,
                    &rx,
                    &mut run,
                    &mut segments,
                    &mut reader,
                    stop_after,
                    fail_data,
                );
                LifecycleReply::Looped(run.status(), result)
            }
            LifecycleStep::StopDriver => {
                run.stop_driver();
                LifecycleReply::Done
            }
            LifecycleStep::JoinDriver => match driver_end.clone() {
                Ok(()) => LifecycleReply::Done,
                Err(error) => LifecycleReply::Failed(error),
            },
            LifecycleStep::EmitStop => {
                run.recorded.push(Recorded::Stop);
                LifecycleReply::Done
            }
            LifecycleStep::Finish(result) => {
                run.result = result;
                return run;
            }
        };
        assert!(life.accepts(&reply));
        (life, step) = life.advance(reply);
    }
}

fn run_loop(
    state: SourceLoop<f64>,
    rx: &crossbeam_channel::Receiver<MdDriverEvent<f64>>,
    run: &mut Run,
    segments: &mut Segments,
    reader: &mut Reader,
    stop_after: Option<usize>,
    fail_data: bool,
) -> Result<LoopEnd, RuntimeError> {
    let mut state = state;
    let mut step = LoopStep::CheckStop;
    let mut retired: Vec<NormalizedTickRow<f64>> = Vec::new();
    let mut turns = 0;
    let mut inbox = Inbox::new(rx.clone());
    loop {
        run.set_status(state.status);
        run.metrics = state.metrics;
        let reply = match step {
            LoopStep::CheckStop => {
                turns += 1;
                let asked = stop_after.is_some_and(|limit| turns > limit);
                if asked {
                    run.stop_driver();
                }
                LoopReply::StopAsked(asked)
            }
            LoopStep::Receive => match rx.recv() {
                Ok(event) => LoopReply::Received(event),
                Err(_) => LoopReply::Closed,
            },
            LoopStep::Write(rows) => {
                let before = segments.identity();
                let room = segments.capacity - segments.active.len();
                let mut last = segments.active.clone();
                last.extend_from_slice(&rows[..room.min(rows.len())]);
                retired = last;
                match segments.write_rows(&rows) {
                    Ok(rolled_over) => LoopReply::Written {
                        descriptor_changed: descriptor_changed(rolled_over, before, segments.identity()),
                    },
                    Err(reason) => LoopReply::Failed(RuntimeError::io(reason)),
                }
            }
            LoopStep::Publish => {
                run.published.push(segments.identity());
                LoopReply::Done
            }
            LoopStep::EmitAvailable => {
                let fresh = reader.available(segments, &retired);
                if fresh.is_empty() {
                    LoopReply::Emitted(None)
                } else {
                    run.recorded.push(Recorded::Data { rows: fresh.len() });
                    if fail_data {
                        LoopReply::Failed(RuntimeError::io("forced sink failure"))
                    } else {
                        let rows = fresh.len();
                        run.rows.extend(fresh);
                        LoopReply::Emitted(Some(rows))
                    }
                }
            }
            LoopStep::UpdateReader => {
                reader.id = segments.id;
                reader.next = 0;
                LoopReply::Done
            }
            LoopStep::ReleaseRetired => {
                let removed = vec![true; segments.account.retired_segments().len()];
                segments.account.release_retired_segments(&removed);
                LoopReply::Done
            }
            LoopStep::RefreshDebug => {
                run.debug = Some(segments.account.debug_metrics().unwrap());
                LoopReply::Done
            }
            LoopStep::Emit(notice) => {
                run.recorded.push(match notice {
                    SinkNotice::Flush => Recorded::Flush,
                    SinkNotice::Stop => Recorded::Stop,
                    SinkNotice::Error(reason) => Recorded::Error(reason),
                });
                LoopReply::Done
            }
            LoopStep::Finish(result) => return result,
        };
        assert!(state.accepts(&reply));
        (state, step) = state.advance(reply, &mut inbox);
    }
}

fn sample_tick(instrument_id: &str, volume: i64) -> RawTickSnapshot<f64> {
    RawTickSnapshot {
        instrument_id: instrument_id.to_string(),
        exchange_id: "CFFEX".to_string(),
        trading_day: "20260408".to_string(),
        action_day: "20260408".to_string(),
        update_time: "09:30:00".to_string(),
        update_millisec: 500,
        last_price: 3912.4,
        volume,
        turnover: 987654.0,
        open_interest: 56789.0,
        bid_price_1: 3912.2,
        bid_volume_1: 10,
        ask_price_1: 3912.6,
        ask_volume_1: 8,
    }
}

fn tick_for_test(instrument_id: &str, last_price: f64) -> RawTickSnapshot<f64> {
    RawTickSnapshot {
        instrument_id: instrument_id.to_string(),
        exchange_id: "SHFE".to_string(),
        trading_day: "20260408".to_string(),
        action_day: "20260408".to_string(),
        update_time: "09:30:00".to_string(),
        update_millisec: 500,
        last_price,
        volume: 1,
        turnover: last_price * 10.0,
        open_interest: 100.0,
        bid_price_1: last_price - 0.5,
        bid_volume_1: 5,
        ask_price_1: last_price + 0.5,
        ask_volume_1: 6,
    }
}

fn normalized_row(instrument_id: &str, last_price: f64, offset: usize) -> NormalizedTickRow<f64> {
    let mut row = normalize_tick(&tick_for_test(instrument_id, last_price)).unwrap();
    row.localtime_ns = 1_700_000_000_000_000_000 + offset as i64;
    row.source_emit_ns = row.localtime_ns + 10;
    row
}

fn row_of(batch: &OpenCtpColumnarTickBatch<f64>, row: usize) -> NormalizedTickRow<f64> {
    NormalizedTickRow {
        instrument_id: batch.instrument_ids[row].to_string(),
        exchange_id: Some(batch.exchange_id.to_string()),
        trading_day: Some(batch.trading_day.to_string()),
        action_day: Some(batch.action_day.to_string()),
        dt_ns: batch.dt_ns[row],
        localtime_ns: batch.localtime_ns[row],
        source_emit_ns: batch.source_emit_ns[row],
        last_price: Some(batch.last_price[row]),
        volume: Some(batch.volume[row]),
        turnover: Some(batch.turnover[row]),
        open_interest: Some(batch.open_interest[row]),
        bid_price_1: Some(batch.bid_price_1[row]),
        bid_volume_1: Some(batch.bid_volume_1[row]),
        ask_price_1: Some(batch.ask_price_1[row]),
        ask_volume_1: Some(batch.ask_volume_1[row]),
    }
}

fn hello() -> Recorded {
    Recorded::Hello("openctp.tick".to_string())
}

#[test]
fn fake_md_driver_emits_data_and_stop_events() {
    let run = run_source(
        vec![MdDriverEvent::Tick(sample_tick("IF2506", 1)), MdDriverEvent::Stop],
        None,
        false,
        false,
        32_768,
    );
    assert_eq!(
        run.statuses,
        vec![
            OpenCtpSourceStatus::Created,
            OpenCtpSourceStatus::Connecting,
            OpenCtpSourceStatus::Running,
            OpenCtpSourceStatus::Stopped,
        ]
    );
    assert_eq!(run.result, Ok(()));
    assert_eq!(
        run.recorded,
        vec![hello(), Recorded::Data { rows: 1 }, Recorded::Stop]
    );
    assert_eq!(STREAM_VERSION, 1);
}

#[test]
fn source_skips_malformed_tick_and_continues_emitting_valid_rows() {
    let mut malformed_tick = sample_tick("IF2506", 1);
    malformed_tick.update_time = "invalid".to_string();

    let run = run_source(
        vec![
            MdDriverEvent::Tick(malformed_tick),
            MdDriverEvent::Tick(sample_tick("IF2506", 2)),
            MdDriverEvent::Stop,
        ],
        None,
        false,
        false,
        32_768,
    );
    assert_eq!(run.status(), OpenCtpSourceStatus::Stopped);
    assert_eq!(
        run.recorded,
        vec![hello(), Recorded::Data { rows: 1 }, Recorded::Stop]
    );

    let metrics = run.metrics;
    assert_eq!(metrics.ticks_received_total, 2);
    assert_eq!(metrics.ticks_emitted_total, 1);
    assert_eq!(metrics.batches_emitted_total, 1);
    assert_eq!(metrics.normalize_failures_total, 1);
}

#[test]
fn source_requests_driver_stop_before_joining_after_sink_failure() {
    let run = run_source(
        vec![MdDriverEvent::Tick(sample_tick("IF2506", 1))],
        None,
        true,
        false,
        32_768,
    );
    let error = run.result.clone().unwrap_err();
    assert!(matches!(error, RuntimeError::Io { reason } if reason.contains("forced sink failure")));
    assert_eq!(run.driver_stops, 1);
    assert_eq!(run.status(), OpenCtpSourceStatus::Failed);
}

#[test]
fn source_stop_exits_without_draining_queued_ticks() {
    let events = (0..100)
        .map(|_| MdDriverEvent::Ticks(vec![sample_tick("IF2506", 1); 1_000]))
        .collect();
    let run = run_source(events, Some(1), false, false, 32_768);
    assert_eq!(run.status(), OpenCtpSourceStatus::Stopped);
    assert_eq!(run.result, Ok(()));
    assert_eq!(run.recorded.last(), Some(&Recorded::Stop));
    assert_eq!(run.driver_stops, 1);
    assert_eq!(run.metrics.ticks_received_total, 32_768);
}

#[test]
fn source_tracks_partial_subscription_failures_without_failing_runtime() {
    let run = run_source(
        vec![
            MdDriverEvent::SubscriptionOutcome(SubscriptionOutcome {
                succeeded_instruments: vec!["IF2506".to_string()],
                failed_instruments: vec!["IH2506".to_string()],
                subscribe_failures_total: 1,
                status: OpenCtpSourceStatus::Degraded,
            }),
            MdDriverEvent::Stop,
        ],
        None,
        false,
        false,
        32_768,
    );
    assert_eq!(run.result, Ok(()));
    assert_eq!(run.recorded, vec![hello(), Recorded::Stop]);
    assert_eq!(run.metrics.subscribe_failures_total, 1);
}

#[test]
fn source_applies_reconnect_updates_without_failing() {
    let run = run_source(
        vec![
            MdDriverEvent::ReconnectUpdate(ReconnectUpdate {
                reconnects_total: 1,
                status: OpenCtpSourceStatus::Degraded,
            }),
            MdDriverEvent::ReconnectUpdate(ReconnectUpdate {
                reconnects_total: 1,
                status: OpenCtpSourceStatus::Running,
            }),
            MdDriverEvent::Stop,
        ],
        None,
        false,
        false,
        32_768,
    );
    assert_eq!(
        run.statuses[2..],
        [
            OpenCtpSourceStatus::Degraded,
            OpenCtpSourceStatus::Running,
            OpenCtpSourceStatus::Stopped,
        ]
    );
    assert_eq!(run.metrics.reconnects_total, 1);
    assert_eq!(run.status(), OpenCtpSourceStatus::Stopped);
    assert_eq!(run.recorded, vec![hello(), Recorded::Stop]);
}

#[test]
fn source_passes_a_driver_error_on() {
    let run = run_source(
        vec![MdDriverEvent::Flush, MdDriverEvent::Error("broken".to_string())],
        None,
        false,
        false,
        32_768,
    );
    assert_eq!(
        run.recorded,
        vec![hello(), Recorded::Flush, Recorded::Error("broken".to_string())]
    );
    assert_eq!(run.result, Err(RuntimeError::io("broken")));
    assert_eq!(run.status(), OpenCtpSourceStatus::Failed);
    assert_eq!(run.driver_stops, 1);
}

#[test]
fn source_ends_where_the_driver_is_gone() {
    let run = run_source(vec![], None, false, false, 32_768);
    assert_eq!(run.recorded, vec![hello(), Recorded::Stop]);
    assert_eq!(run.result, Ok(()));
    assert_eq!(
        run.statuses,
        vec![
            OpenCtpSourceStatus::Created,
            OpenCtpSourceStatus::Connecting,
            OpenCtpSourceStatus::Stopped,
        ]
    );

    let run = run_source(
        vec![MdDriverEvent::Tick(sample_tick("IF2506", 1))],
        None,
        false,
        false,
        32_768,
    );
    assert_eq!(
        run.recorded,
        vec![hello(), Recorded::Data { rows: 1 }, Recorded::Stop]
    );
    assert_eq!(run.status(), OpenCtpSourceStatus::Stopped);
}

#[test]
fn source_hears_how_a_gone_driver_ended_before_it_stops() {
    let refused = RuntimeError::io("ctp md api not available after login");
    let run = run_source_with_driver(
        vec![MdDriverEvent::Tick(sample_tick("IF2506", 1))],
        Err(refused.clone()),
        None,
        false,
        false,
        32_768,
    );
    assert_eq!(run.recorded, vec![hello(), Recorded::Data { rows: 1 }]);
    assert_eq!(run.result, Err(refused));
    assert_eq!(
        run.statuses[2..],
        [OpenCtpSourceStatus::Running, OpenCtpSourceStatus::Failed]
    );

    let mut life = SourceLifecycle::start(false);
    for _ in 0..4 {
        life = life.advance(LifecycleReply::Done).0;
    }
    let gone = LifecycleReply::Looped(OpenCtpSourceStatus::Running, Ok(LoopEnd::DriverGone));
    assert!(life.accepts(&gone));
    let (life, step) = life.advance(gone);
    assert!(matches!(step, LifecycleStep::JoinDriver));
    let (life, step) = life.advance(LifecycleReply::Done);
    assert!(matches!(step, LifecycleStep::EmitStop));
    assert_eq!(life.status, OpenCtpSourceStatus::Stopped);
    assert!(life.accepts(&LifecycleReply::Failed(RuntimeError::io("deaf"))));
    let (life, step) = life.advance(LifecycleReply::Failed(RuntimeError::io("deaf")));
    assert!(matches!(step, LifecycleStep::Finish(Err(error)) if error == RuntimeError::io("deaf")));
    assert_eq!(life.status, OpenCtpSourceStatus::Failed);
}

#[test]
fn source_connects_until_the_subscription_is_complete() {
    let outcome = |failed: usize| {
        MdDriverEvent::SubscriptionOutcome(SubscriptionOutcome {
            succeeded_instruments: vec!["IF2506".to_string()],
            failed_instruments: vec!["IH2506".to_string(); failed],
            subscribe_failures_total: failed as u64,
            status: if failed == 0 {
                OpenCtpSourceStatus::Running
            } else {
                OpenCtpSourceStatus::Degraded
            },
        })
    };
    for (events, reached) in [
        (vec![], None),
        (vec![MdDriverEvent::Flush], None),
        (vec![MdDriverEvent::Ticks(vec![])], None),
        (vec![outcome(0)], Some(OpenCtpSourceStatus::Running)),
        (vec![outcome(1)], Some(OpenCtpSourceStatus::Degraded)),
        (
            vec![outcome(1), MdDriverEvent::Tick(sample_tick("IF2506", 1))],
            Some(OpenCtpSourceStatus::Degraded),
        ),
        (
            vec![MdDriverEvent::Ticks(vec![sample_tick("IF2506", 1)])],
            Some(OpenCtpSourceStatus::Running),
        ),
    ] {
        let mut events: Vec<MdDriverEvent<f64>> = events;
        events.push(MdDriverEvent::Stop);
        let run = run_source(events, None, false, false, 32_768);
        let mut expected = vec![OpenCtpSourceStatus::Created, OpenCtpSourceStatus::Connecting];
        expected.extend(reached);
        expected.push(OpenCtpSourceStatus::Stopped);
        assert_eq!(run.statuses, expected);
    }
}

#[test]
fn source_counts_a_refused_login() {
    let run = run_source(
        vec![MdDriverEvent::LoginFailed("denied".to_string())],
        None,
        false,
        false,
        32_768,
    );
    assert_eq!(run.metrics.login_failures_total, 1);
    assert_eq!(run.recorded, vec![hello(), Recorded::Error("denied".to_string())]);
    assert_eq!(run.result, Err(RuntimeError::io("denied")));
    assert_eq!(
        run.statuses,
        vec![
            OpenCtpSourceStatus::Created,
            OpenCtpSourceStatus::Connecting,
            OpenCtpSourceStatus::Failed,
        ]
    );

    let run = run_source(
        vec![MdDriverEvent::Error("broken".to_string())],
        None,
        false,
        false,
        32_768,
    );
    assert_eq!(run.metrics.login_failures_total, 0);
}

/// Ticks with rising prices, and then a stop.
fn rising_ticks(count: usize) -> Vec<MdDriverEvent<f64>> {
    let mut events: Vec<_> = (0..count)
        .map(|index| MdDriverEvent::Tick(tick_for_test("rb2510", 4123.5 + index as f64)))
        .collect();
    events.push(MdDriverEvent::Stop);
    events
}

#[test]
fn source_callback_advances_segment_runtime() {
    let run = run_source(rising_ticks(1), None, false, false, SOURCE_SEGMENT_ROW_CAPACITY);
    assert_eq!(run.result, Ok(()));

    let metrics = run.debug.clone().unwrap();
    let snapshot = metrics.active_snapshot.unwrap();
    assert_eq!(metrics.committed_rows, 1);
    assert_eq!(run.data_rows(), vec![1]);
    assert_eq!(snapshot.instrument_id.as_deref(), Some("rb2510"));
    assert_eq!(snapshot.last_price, Some(4123.5));
    assert!(snapshot.localtime_ns.unwrap() > 0);
    assert!(snapshot.source_emit_ns.unwrap() >= snapshot.localtime_ns.unwrap());

    assert_eq!(run.rows.len(), 1);
    assert_eq!(run.rows[0].instrument_id, "rb2510");
    assert_eq!(run.rows[0].last_price, Some(4123.5));
    assert!(run.rows[0].localtime_ns > 0);
    assert!(run.rows[0].source_emit_ns >= run.rows[0].localtime_ns);
}

#[test]
fn source_segment_primary_emits_batches_from_segment_reader() {
    let run = run_source(rising_ticks(1), None, false, false, SOURCE_SEGMENT_ROW_CAPACITY);
    assert_eq!(run.result, Ok(()));
    assert_eq!(run.data_rows(), vec![1]);
    assert_eq!(run.rows.len(), 1);
    assert_eq!(run.rows[0].instrument_id, "rb2510");
    assert_eq!(run.rows[0].last_price, Some(4123.5));
    assert!(run.rows[0].localtime_ns > 0);
    assert!(run.rows[0].source_emit_ns >= run.rows[0].localtime_ns);
}

#[test]
fn source_keeps_running_after_more_than_sixty_four_segment_rows() {
    let run = run_source(rising_ticks(65), None, false, false, SOURCE_SEGMENT_ROW_CAPACITY);
    assert_eq!(run.result, Ok(()));

    let metrics = run.debug.clone().unwrap();
    let snapshot = metrics.active_snapshot.unwrap();
    assert_eq!(metrics.committed_rows, 65);
    let data_rows = run.data_rows();
    assert_eq!(data_rows.iter().sum::<usize>(), 65);
    assert!(data_rows.iter().all(|rows| *rows > 0));
    assert_eq!(snapshot.instrument_id.as_deref(), Some("rb2510"));
    assert_eq!(snapshot.last_price, Some(4123.5 + 64.0));
}

#[test]
fn source_publishes_segment_descriptor_when_segment_ingress_starts() {
    let run = run_source(
        vec![MdDriverEvent::Stop],
        None,
        false,
        true,
        SOURCE_SEGMENT_ROW_CAPACITY,
    );
    assert_eq!(run.result, Ok(()));
    assert_eq!(run.published, vec![(1, 0)]);
}

#[test]
fn source_publishes_segment_descriptor_after_segment_rollover() {
    let ticks = rising_ticks(SOURCE_SEGMENT_ROW_CAPACITY + 1);
    let run = run_source(ticks, None, false, true, SOURCE_SEGMENT_ROW_CAPACITY);
    assert_eq!(run.result, Ok(()));
    assert_eq!(run.published, vec![(1, 0), (2, 1)]);
    assert_eq!(run.rows.len(), SOURCE_SEGMENT_ROW_CAPACITY + 1);
}

#[test]
fn rows_of_a_full_segment_go_out_before_those_of_the_next() {
    for publishes in [false, true] {
        let run = run_source(rising_ticks(70), None, false, publishes, 64);
        assert_eq!(run.result, Ok(()));
        assert_eq!(run.metrics.ticks_received_total, 70);
        assert_eq!(run.metrics.ticks_emitted_total, 70);
        assert_eq!(
            run.published,
            if publishes { vec![(1, 0), (2, 1)] } else { vec![] }
        );
        assert_eq!(
            run.recorded,
            vec![
                hello(),
                Recorded::Data { rows: 64 },
                Recorded::Data { rows: 6 },
                Recorded::Stop
            ]
        );
        let prices: Vec<_> = run.rows.iter().map(|row| row.last_price.unwrap()).collect();
        assert!(prices.windows(2).all(|pair| pair[0] < pair[1]));
    }
}

#[test]
fn lifecycle_fails_with_the_first_failure() {
    let life = SourceLifecycle::start(false);
    assert_eq!(life.status, OpenCtpSourceStatus::Connecting);
    let (life, step) = life.advance(LifecycleReply::Failed(RuntimeError::io("refused")));
    assert!(matches!(step, LifecycleStep::Finish(Err(error)) if error == RuntimeError::io("refused")));
    assert_eq!(life.status, OpenCtpSourceStatus::Failed);

    let life = SourceLifecycle::start(false);
    let (life, _) = life.advance(LifecycleReply::Done);
    assert_eq!(life.status, OpenCtpSourceStatus::Connecting);
    let (life, step) = life.advance(LifecycleReply::Failed(RuntimeError::io("deaf")));
    assert!(matches!(step, LifecycleStep::StopDriver));
    let (life, step) = life.advance(LifecycleReply::Failed(RuntimeError::io("later")));
    assert!(matches!(step, LifecycleStep::JoinDriver));
    assert!(life.accepts(&LifecycleReply::Panicked));
    let (_, step) = life.advance(LifecycleReply::Panicked);
    assert!(matches!(step, LifecycleStep::Finish(Err(error)) if error == RuntimeError::io("deaf")));
}

#[test]
fn lifecycle_reports_a_driver_that_panicked() {
    let mut life = SourceLifecycle::start(false);
    for _ in 0..4 {
        life = life.advance(LifecycleReply::Done).0;
    }
    assert_eq!(life.status, OpenCtpSourceStatus::Connecting);
    assert!(!life.accepts(&LifecycleReply::Looped(
        OpenCtpSourceStatus::Running,
        Ok(LoopEnd::Stopped)
    )));
    let (life, step) =
        life.advance(LifecycleReply::Looped(OpenCtpSourceStatus::Stopped, Ok(LoopEnd::Stopped)));
    assert!(matches!(step, LifecycleStep::JoinDriver));
    let (life, step) = life.advance(LifecycleReply::Panicked);
    assert!(matches!(step, LifecycleStep::Finish(Err(error))
        if error == RuntimeError::io("md driver thread panicked")));
    assert_eq!(life.status, OpenCtpSourceStatus::Failed);
}

#[test]
fn rows_at_once_leave_the_account_of_rows_one_by_one() {
    let rows: Vec<_> = (0..10)
        .map(|index| normalized_row("rb2510", 4123.5 + index as f64, index))
        .collect();
    let mut at_once = Segments::new(OpenCtpSegmentIngress::with_row_capacity(4));
    assert_eq!(at_once.write_rows(&[]), Ok(false));
    assert_eq!(at_once.write_rows(&rows), Ok(true));
    let mut one_by_one = Segments::new(OpenCtpSegmentIngress::with_row_capacity(4));
    for row in &rows {
        one_by_one.write_row(row).unwrap();
    }
    assert_eq!(at_once.account.committed_rows(), 10);
    assert_eq!(one_by_one.account.committed_rows(), 10);
    assert_eq!(
        at_once.account.active_snapshot().unwrap(),
        one_by_one.account.active_snapshot().unwrap()
    );
    assert_eq!(
        at_once.account.retired_segments(),
        one_by_one.account.retired_segments()
    );
    assert_eq!(at_once.account.retired_segments(), &[(1, 0), (2, 1)]);
    assert_eq!(at_once.active, one_by_one.active);
}

#[test]
fn a_driver_is_asked_to_stop_until_it_does() {
    let mut stop = DriverStop::new();
    assert!(stop.must_ask());
    assert!(stop.asked(Err(RuntimeError::ChannelSend)).is_err());
    assert!(stop.must_ask());
    assert!(stop.asked(Ok(())).is_ok());
    assert!(!stop.must_ask());
}

#[test]
fn normalized_tick_is_written_into_active_segment_with_all_segment_columns() {
    let mut segments = Segments::new(OpenCtpSegmentIngress::for_test());
    let tick = tick_for_test("rb2510", 4123.5);
    let mut row = normalize_tick(&tick).unwrap();
    row.localtime_ns = 1_700_000_000_000_000_100;
    row.source_emit_ns = 1_700_000_000_000_000_200;

    segments.write_row(&row).unwrap();

    let snapshot = segments.account.active_snapshot().unwrap();
    assert_eq!(snapshot.committed_row_count, 1);
    assert_eq!(snapshot.instrument_id.as_deref(), Some("rb2510"));
    assert_eq!(snapshot.dt_ns, Some(row.dt_ns));
    assert_eq!(snapshot.localtime_ns, Some(row.localtime_ns));
    assert_eq!(snapshot.source_emit_ns, Some(row.source_emit_ns));
    assert_eq!(snapshot.last_price, Some(4123.5));

    let cells = row_cells(&row);
    assert_eq!(cells.len(), 15);
    let text = |name: &str| {
        cells
            .iter()
            .find_map(|cell| match cell.value {
                CellValue::Text(text) if cell.column == name => Some(text.to_string()),
                _ => None,
            })
            .unwrap()
    };
    let integer = |name: &str| {
        cells
            .iter()
            .find_map(|cell| match cell.value {
                CellValue::Integer(number) if cell.column == name => Some(number),
                _ => None,
            })
            .unwrap()
    };
    let price = |name: &str| {
        cells
            .iter()
            .find_map(|cell| match cell.value {
                CellValue::Price(price) if cell.column == name => Some(price),
                _ => None,
            })
            .unwrap()
    };
    assert_eq!(text("exchange_id"), "SHFE");
    assert_eq!(text("trading_day"), "20260408");
    assert_eq!(text("action_day"), "20260408");
    assert_eq!(integer("volume"), 1);
    assert_eq!(price("turnover"), 41235.0);
    assert_eq!(price("open_interest"), 100.0);
    assert_eq!(price("bid_price_1"), 4123.0);
    assert_eq!(integer("bid_volume_1"), 5);
    assert_eq!(price("ask_price_1"), 4124.0);
    assert_eq!(integer("ask_volume_1"), 6);
}

#[test]
fn columns_without_a_value_have_no_cell() {
    let mut row = normalized_row("rb2510", 1.0, 0);
    row.exchange_id = None;
    row.last_price = None;
    row.ask_volume_1 = None;
    let columns: Vec<&str> = row_cells(&row).iter().map(|cell| cell.column).collect();
    assert_eq!(
        columns,
        vec![
            "instrument_id",
            "trading_day",
            "action_day",
            "dt",
            "localtime_ns",
            "source_emit_ns",
            "volume",
            "turnover",
            "open_interest",
            "bid_price_1",
            "bid_volume_1",
            "ask_price_1",
        ]
    );
}

#[test]
fn segment_ingress_rolls_over_after_sixty_four_rows_and_keeps_last_row_visible() {
    let mut segments = Segments::new(OpenCtpSegmentIngress::for_test());

    for index in 0..65 {
        let tick = tick_for_test("rb2510", 4123.5 + index as f64);
        let mut row = normalize_tick(&tick).unwrap();
        row.localtime_ns = 1_700_000_000_000_000_000 + index as i64;
        row.source_emit_ns = row.localtime_ns + 10;
        segments.write_row(&row).unwrap();
    }

    let snapshot = segments.account.active_snapshot().unwrap();
    assert_eq!(snapshot.committed_row_count, 65);
    assert_eq!(snapshot.instrument_id.as_deref(), Some("rb2510"));
    assert_eq!(snapshot.last_price, Some(4123.5 + 64.0));
    assert_eq!(snapshot.localtime_ns, Some(1_700_000_000_000_000_064));
    assert_eq!(snapshot.source_emit_ns, Some(1_700_000_000_000_000_074));
    assert_eq!(segments.account.retired_segment_count_for_test(), 1);
}

#[test]
fn segment_ingress_writes_multiple_rows_with_one_batch_call() {
    let mut segments = Segments::new(OpenCtpSegmentIngress::for_test());
    let rows = (0..3)
        .map(|index| normalized_row("rb2510", 4123.5 + index as f64, index))
        .collect::<Vec<_>>();

    let descriptor_changed = segments.write_rows(&rows).unwrap();

    assert!(!descriptor_changed);
    let snapshot = segments.account.active_snapshot().unwrap();
    assert_eq!(snapshot.committed_row_count, 3);
    assert_eq!(snapshot.last_price, Some(4125.5));

    assert_eq!(segments.active.len(), 3);
    assert_eq!(segments.active[0].instrument_id, "rb2510");
    assert_eq!(segments.active[2].instrument_id, "rb2510");
    assert_eq!(segments.active[0].last_price, Some(4123.5));
    assert_eq!(segments.active[2].last_price, Some(4125.5));
}

#[test]
fn segment_ingress_batch_write_rolls_over_and_keeps_last_row_visible() {
    let mut segments = Segments::new(OpenCtpSegmentIngress::for_test());
    let rows = (0..65)
        .map(|index| normalized_row("rb2510", 4123.5 + index as f64, index))
        .collect::<Vec<_>>();

    let descriptor_changed = segments.write_rows(&rows).unwrap();

    assert!(descriptor_changed);
    let snapshot = segments.account.active_snapshot().unwrap();
    assert_eq!(snapshot.committed_row_count, 65);
    assert_eq!(snapshot.instrument_id.as_deref(), Some("rb2510"));
    assert_eq!(snapshot.last_price, Some(4123.5 + 64.0));
    assert_eq!(snapshot.localtime_ns, Some(1_700_000_000_000_000_064));
    assert_eq!(snapshot.source_emit_ns, Some(1_700_000_000_000_000_074));

    assert_eq!(segments.active.len(), 1);
    assert_eq!(segments.active[0].last_price, Some(4123.5 + 64.0));
}

#[test]
fn writes_that_fail_leave_the_account_as_it_was() {
    let mut account = OpenCtpSegmentIngress::<f64>::new_for_source();
    assert_eq!(account.row_capacity(), 32_768);
    let rows = vec![normalized_row("rb2510", 1.0, 0)];
    let (progress, _) = begin_write(1);
    let (_, step) = account.write_rows(&rows, progress, WriteReply::Written(0));
    assert!(matches!(step, WriteStep::Finish(Err("segment batch write made no progress"))));
    for (error, text) in [
        (SegmentStoreError::Schema("s"), "s"),
        (SegmentStoreError::Layout("l"), "l"),
        (SegmentStoreError::Writer("w"), "w"),
        (SegmentStoreError::Lifecycle("c"), "c"),
        (SegmentStoreError::Io, "segment store io error"),
        (SegmentStoreError::Shmem, "segment store shared memory error"),
        (SegmentStoreError::Arrow, "segment store arrow error"),
    ] {
        let (_, step) = account.write_rows(&rows, progress, WriteReply::Failed(error));
        assert!(matches!(step, WriteStep::Finish(Err(reason)) if reason == text));
    }
    assert_eq!(account.committed_rows(), 0);
    assert_eq!(account.active_snapshot().unwrap().committed_row_count, 0);

    let full = || WriteReply::Failed(SegmentStoreError::Writer("segment is full"));
    let (progress, step) = account.write_row(&rows[0], progress, full());
    assert!(matches!(step, WriteStep::Rollover));
    let (progress, step) =
        account.write_row(&rows[0], progress, WriteReply::RolledOver { retired: (1, 2) });
    assert!(matches!(step, WriteStep::Write { offset: 0 }));
    let (_, step) = account.write_row(&rows[0], progress, full());
    assert!(matches!(step, WriteStep::Finish(Err("segment is full"))));
    assert_eq!(account.retired_segments(), &[(1, 2)]);
}

#[test]
fn released_segments_are_struck_out() {
    let mut segments = Segments::new(OpenCtpSegmentIngress::with_row_capacity(1));
    let rows: Vec<_> = (0..4).map(|index| normalized_row("a", 1.0, index)).collect();
    assert!(segments.write_rows(&rows).unwrap());
    assert_eq!(segments.account.retired_segments(), &[(1, 0), (2, 1), (3, 2)]);
    assert_eq!(segments.account.release_retired_segments(&[true, false, true]), 2);
    assert_eq!(segments.account.retired_segments(), &[(2, 1)]);
    assert!(descriptor_changed(false, (1, 0), (2, 1)));
    assert!(!descriptor_changed(false, (1, 0), (1, 0)));
    assert!(descriptor_changed(true, (1, 0), (1, 0)));
}

fn columns<'a>(ids: Vec<&'a str>) -> OpenCtpColumnarTickBatch<'a, f64> {
    let rows = ids.len();
    OpenCtpColumnarTickBatch {
        exchange_id: "SHFE",
        trading_day: "20260408",
        action_day: "20260409",
        instrument_ids: ids,
        dt_ns: (0..rows as i64).collect(),
        localtime_ns: vec![1; rows],
        source_emit_ns: vec![2; rows],
        last_price: (0..rows).map(|row| row as f64).collect(),
        volume: vec![3; rows],
        turnover: vec![4.0; rows],
        open_interest: vec![5.0; rows],
        bid_price_1: vec![6.0; rows],
        bid_volume_1: vec![7; rows],
        ask_price_1: vec![8.0; rows],
        ask_volume_1: vec![9; rows],
    }
}

#[test]
fn batches_of_columns_are_written_like_rows() {
    let mut segments = Segments::new(OpenCtpSegmentIngress::with_row_capacity(2));
    assert_eq!(segments.write_columns(&columns(vec![])), Ok(false));
    assert_eq!(segments.write_columns(&columns(vec!["a", "b", "c"])), Ok(true));
    let snapshot = segments.account.active_snapshot().unwrap();
    assert_eq!(snapshot.committed_row_count, 3);
    assert_eq!(snapshot.instrument_id.as_deref(), Some("c"));
    assert_eq!((snapshot.dt_ns, snapshot.last_price), (Some(2), Some(2.0)));

    let mut uneven = columns(vec!["a", "b"]);
    uneven.ask_volume_1.pop();
    assert!(uneven.validate_lengths().is_err());
    assert_eq!(
        segments.write_columns(&uneven),
        Err("columnar tick batch length mismatch")
    );
    let even = columns(vec!["a"]);
    let (progress, _) = begin_columnar_write(&even);
    let (_, step) =
        segments.account.write_columnar_batch(&even, progress, WriteReply::Written(0));
    assert!(matches!(step, WriteStep::Finish(Err("segment columnar write made no progress"))));
}

#[test]
fn column_slices_cut_every_column_alike() {
    let batch = columns(vec!["a", "b", "c", "d"]);
    assert!(!batch.is_empty());
    let slices = column_slices(&batch, 1, 3);
    assert_eq!(slices.len(), 15);
    assert_eq!(slices[0].column, "instrument_id");
    assert!(matches!(slices[0].data, ColumnData::Texts(texts) if texts == ["b", "c"]));
    assert!(matches!(slices[3].data, ColumnData::Repeated("20260409")));
    assert!(matches!(slices[4].data, ColumnData::Integers(values) if values == [1, 2]));
    assert!(matches!(slices[7].data, ColumnData::Prices(values) if values == [1.0, 2.0]));
    assert_eq!(slices[14].column, "ask_volume_1");
}

struct Floats;

impl PriceModel<f64> for Floats {
    fn default_base_price(&self) -> f64 {
        4000.0
    }

    fn default_price_step(&self) -> f64 {
        0.2
    }

    fn is_positive_finite(&self, value: f64) -> bool {
        value.is_finite() && value > 0.0
    }

    fn starting_price(&self, base_price: f64, index: usize) -> f64 {
        base_price + index as f64 * 10.0
    }

    fn starting_interest(&self, index: usize) -> f64 {
        10_000.0 + index as f64 * 100.0
    }

    fn no_turnover(&self) -> f64 {
        0.0
    }

    fn walk_price(&self, last_price: f64, price_step: f64, draw: u64) -> f64 {
        let unit = draw as f64 / (1u64 << 53) as f64;
        (last_price + (unit - 0.5) * 2.0 * price_step).max(price_step)
    }

    fn add_turnover(&self, turnover: f64, last_price: f64, lots: i64) -> f64 {
        turnover + last_price * lots as f64 * 10.0
    }

    fn walk_interest(&self, open_interest: f64, draw: u64) -> f64 {
        let unit = draw as f64 / (1u64 << 53) as f64;
        (open_interest + (unit - 0.5) * 2.0).max(1.0)
    }

    fn bid_price(&self, last_price: f64, price_step: f64) -> f64 {
        last_price - price_step
    }

    fn ask_price(&self, last_price: f64, price_step: f64) -> f64 {
        last_price + price_step
    }
}

fn generator_config() -> OpenCtpMarketGeneratorConfig<f64> {
    OpenCtpMarketGeneratorConfig::new(
        vec!["IF2606".to_string(), "IH2606".to_string()],
        1,
        &Floats,
    )
    .unwrap()
    .with_seed(42)
    .with_max_ticks(Some(4))
}

/// Runs the driver of raw ticks, waiting as it asks.
fn drive(
    config: &OpenCtpMarketGeneratorConfig<f64>,
    tx: crossbeam_channel::Sender<MdDriverEvent<f64>>,
    stop_rx: crossbeam_channel::Receiver<()>,
) -> Result<(), RuntimeError> {
    let mut outbox = Outbox::new(tx);
    let mut stop = StopSignal::new(stop_rx.clone());
    let clock = MonotonicClock::start();
    let mut run = GeneratorRun::new(config, &Floats);
    let mut reply = GeneratorReply::Woken(clock.now());
    loop {
        let (next, step) = run.advance(config, &Floats, reply, &mut outbox, &mut stop);
        run = next;
        reply = match step {
            GeneratorStep::Wait(span) => {
                match stop_rx.recv_timeout(std::time::Duration::from_nanos(span.nanos as u64)) {
                    Err(RecvTimeoutError::Timeout) => GeneratorReply::Woken(clock.now()),
                    _ => GeneratorReply::StopAsked,
                }
            }
            GeneratorStep::Finish(result) => return result,
        };
    }
}

#[test]
fn generator_source_emits_full_instrument_rounds_in_configured_order() {
    let (tx, rx) = unbounded();
    let (_stop_tx, stop_rx) = bounded(1);
    drive(&generator_config(), tx, stop_rx).unwrap();
    let events: Vec<_> = rx.try_iter().collect();
    let mut dt_values = Vec::new();
    let mut prices = Vec::new();
    for event in &events {
        if let MdDriverEvent::Ticks(ticks) = event {
            for tick in ticks {
                dt_values.push(normalize_tick(tick).unwrap().dt_ns);
                prices.push(tick.last_price);
            }
        }
    }

    let run = run_source(events, None, false, false, 32_768);
    assert_eq!(run.status(), OpenCtpSourceStatus::Stopped);
    assert_eq!(run.recorded.first(), Some(&hello()));
    assert_eq!(run.recorded.last(), Some(&Recorded::Stop));
    let rows: usize = run
        .recorded
        .iter()
        .map(|event| match event {
            Recorded::Data { rows } => *rows,
            _ => 0,
        })
        .sum();
    assert_eq!(rows, 4);
    assert_eq!(run.instruments(), vec!["IF2606", "IH2606", "IF2606", "IH2606"]);

    assert_eq!(dt_values[0], dt_values[1]);
    assert!(dt_values[2] > dt_values[0]);
    assert_eq!(dt_values[2], dt_values[3]);

    assert!(prices.iter().all(|price| *price > 0.0));
    assert_ne!(prices[0], prices[2]);
}

#[test]
fn normalized_generator_source_uses_distinct_source_identity() {
    let (tx, rx) = unbounded();
    let (_stop_tx, stop_rx) = bounded(1);
    run_normalized_generator(
        generator_config(),
        &Floats,
        &mut Outbox::new(tx),
        &mut StopSignal::new(stop_rx),
    )
    .unwrap();
    let run = run_source(rx.try_iter().collect(), None, false, false, 32_768);
    assert_eq!(run.instruments(), vec!["IF2606", "IH2606", "IF2606", "IH2606"]);
}

#[test]
fn columnar_generator_source_writes_ticks_without_using_market_data_source_path() {
    let config = generator_config();
    let mut segments = Segments::new(OpenCtpSegmentIngress::with_row_capacity(3));
    let mut reader = Reader { id: 1, next: 0 };
    let mut retired = Vec::new();
    let mut recorded = Vec::new();
    let mut instruments = Vec::new();

    let mut source = OpenCtpColumnarGeneratorSource::start(&config, &Floats, false);
    let mut step = ColumnarStep::EmitHello;
    let result = loop {
        let reply = match step {
            ColumnarStep::EmitHello => {
                recorded.push(hello());
                ColumnarReply::Done
            }
            ColumnarStep::CheckStop => ColumnarReply::StopAsked(false),
            ColumnarStep::Write(batch) => {
                retired = (0..3).map(|row| row_of(&batch, row)).collect();
                let rolled_over = segments.write_columns(&batch).unwrap();
                ColumnarReply::Written {
                    descriptor_changed: rolled_over,
                }
            }
            ColumnarStep::EmitAvailable => {
                let fresh = reader.available(&segments, &retired);
                let rows = fresh.len();
                instruments.extend(fresh.into_iter().map(|row| row.instrument_id));
                if rows == 0 {
                    ColumnarReply::Emitted(None)
                } else {
                    ColumnarReply::Emitted(Some(rows))
                }
            }
            ColumnarStep::UpdateReader => {
                reader = Reader {
                    id: segments.id,
                    next: 0,
                };
                ColumnarReply::Done
            }
            ColumnarStep::EmitStop => {
                recorded.push(Recorded::Stop);
                ColumnarReply::Done
            }
            ColumnarStep::OpenSegment
            | ColumnarStep::OpenReader
            | ColumnarStep::Publish
            | ColumnarStep::ReleaseRetired => ColumnarReply::Done,
            ColumnarStep::Finish(result) => break result,
        };
        assert!(source.accepts(&reply));
        (source, step) = source.advance(&config, &Floats, reply);
    };

    assert_eq!(result, Ok(()));
    assert_eq!(source.status, OpenCtpSourceStatus::Stopped);
    assert_eq!(source.phase, ColumnarPhase::Finished);
    assert_eq!(recorded.first(), Some(&hello()));
    assert_eq!(recorded.last(), Some(&Recorded::Stop));
    assert_eq!(instruments, vec!["IF2606", "IH2606", "IF2606", "IH2606"]);
    assert_eq!(source.metrics.ticks_received_total, 4);
    assert_eq!(source.metrics.ticks_emitted_total, 4);
    assert_eq!(source.metrics.batches_emitted_total, 2);
}
