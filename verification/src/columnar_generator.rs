//! The source that makes ticks up and writes them as columns.
//!
//! The source names a step, its owner carries the step out and reports how it went.
use crate::clock::{current_unix_time_ns, may_be_unix_time};
use crate::errors::RuntimeError;
use crate::generator::{
    generator_dt_ns, is_dt_failure, is_round_dt, reached_max_ticks, OpenCtpMarketGeneratorConfig,
};
use crate::generator_driver::{
    are_generated_rows, in_order, is_count_failure, is_generated_row, is_walk_of,
    law_generators_quote_alike, law_picks_count_through_rounds, lemma_pick_in_order, next_round,
    stands_at,
};
use crate::market_walk::{is_function, MarketWalk, Pick, PriceModel, Quote, WalkView};
use crate::metrics::OpenCtpSourceMetrics;
use crate::normalize::NormalizedTickRow;
use crate::segment_ingress::OpenCtpColumnarTickBatch;
use crate::source::OpenCtpSourceStatus;
use vstd::prelude::*;

verus! {

/// Rows that a batch of columns has where nothing limits it.
pub const COLUMNAR_TARGET_BATCH_ROWS: usize = 32_768;

/// Rows that the next batch has: the target, or a whole round where that is more, and never more
/// than may still be made.
pub open spec fn batch_rows(instrument_count: usize, emitted: u64, max_ticks: Option<u64>) -> int {
    let target = if instrument_count > COLUMNAR_TARGET_BATCH_ROWS {
        instrument_count as int
    } else {
        COLUMNAR_TARGET_BATCH_ROWS as int
    };
    match max_ticks {
        Some(limit) => if limit < emitted || (limit - emitted) as usize >= target {
            target
        } else {
            (limit - emitted) as usize as int
        },
        None => target,
    }
}

/// Rows that the next batch has.
pub fn columnar_batch_capacity(
    instrument_count: usize,
    emitted: u64,
    max_ticks: Option<u64>,
) -> (rows: usize)
    ensures
        rows == batch_rows(instrument_count, emitted, max_ticks),
{
    let target: usize = if instrument_count > COLUMNAR_TARGET_BATCH_ROWS {
        instrument_count
    } else {
        COLUMNAR_TARGET_BATCH_ROWS
    };
    match max_ticks {
        Some(limit) => {
            if limit < emitted {
                return target;
            }
            let remaining: usize = #[verifier::truncate] ((limit - emitted) as usize);
            if remaining < target {
                remaining
            } else {
                target
            }
        },
        None => target,
    }
}

/// Whether a row of the batch is that of a quote, received and handed on at `now_ns`.
pub open spec fn is_column_row<P>(
    config: OpenCtpMarketGeneratorConfig<P>,
    pick: Pick,
    quote: Quote<P>,
    now_ns: i64,
    batch: OpenCtpColumnarTickBatch<P>,
    row: int,
) -> bool {
    &&& batch.instrument_ids@[row]@ == config.instruments@[pick.index]@
    &&& is_round_dt(config.action_day@, config.interval_ms, pick.round, batch.dt_ns@[row] as int)
    &&& batch.localtime_ns@[row] == now_ns
    &&& batch.source_emit_ns@[row] == now_ns
    &&& batch.last_price@[row] == quote.last_price
    &&& batch.volume@[row] == quote.volume
    &&& batch.turnover@[row] == quote.turnover
    &&& batch.open_interest@[row] == quote.open_interest
    &&& batch.bid_price_1@[row] == quote.bid_price_1
    &&& batch.bid_volume_1@[row] == quote.bid_volume_1
    &&& batch.ask_price_1@[row] == quote.ask_price_1
    &&& batch.ask_volume_1@[row] == quote.ask_volume_1
}

/// Whether the batch holds what `after` has beyond `before`.
pub open spec fn is_batch_of<P>(
    config: OpenCtpMarketGeneratorConfig<P>,
    before: WalkView<P>,
    after: WalkView<P>,
    now_ns: i64,
    batch: OpenCtpColumnarTickBatch<P>,
) -> bool {
    &&& batch.exchange_id@ == config.exchange_id@
    &&& batch.trading_day@ == config.trading_day@
    &&& batch.action_day@ == config.action_day@
    &&& batch.has_equal_lengths()
    &&& after.quotes.len() == before.quotes.len() + batch.row_count()
    &&& forall|row: int|
        0 <= row < batch.row_count() ==> #[trigger] is_column_row(
            config,
            after.picks[before.quotes.len() + row],
            after.quotes[before.quotes.len() + row],
            now_ns,
            batch,
            row,
        )
}

/// Whether the walk goes on from `before` to `after`, round after round: also where a batch ends within
/// a round, the next one goes on inside it.
pub open spec fn goes_round<P>(before: WalkView<P>, after: WalkView<P>) -> bool {
    &&& before.picks.is_prefix_of(after.picks)
    &&& before.quotes.is_prefix_of(after.quotes)
    &&& in_order(after.picks, after.count)
}

/// What a generator of columns has made so far, and where it stands in its rounds.
#[verifier::reject_recursive_types(P)]
pub struct ColumnarGenerator<P> {
    walk: MarketWalk<P>,
    emitted: u64,
    round_index: u64,
    index: usize,
}

impl<P> View for ColumnarGenerator<P> {
    type V = WalkView<P>;

    closed spec fn view(&self) -> WalkView<P> {
        self.walk@
    }
}

impl<P> ColumnarGenerator<P> {
    /// The generator goes on with the walk that is configured, and has counted it.
    pub closed spec fn well_formed<M: PriceModel<P>>(
        &self,
        config: OpenCtpMarketGeneratorConfig<P>,
        model: &M,
    ) -> bool {
        let count = config.instruments.len() as int;
        &&& self.walk.goes_on(model)
        &&& is_walk_of(config, model, self.walk@)
        &&& in_order(self.walk@.picks, count)
        &&& count > 0 ==> self.index < count && stands_at(
            self.walk@.picks,
            count,
            self.round_index as int,
            self.index as int,
        )
        &&& self.emitted == self.walk@.quotes.len()
        &&& self.round_index <= self.emitted
        &&& self.walk@.picks.len() == self.walk@.quotes.len()
    }

    /// How many ticks the generator has made.
    pub fn emitted<M: PriceModel<P>>(
        &self,
        config: &OpenCtpMarketGeneratorConfig<P>,
        model: &M,
    ) -> (ticks: u64)
        requires
            self.well_formed(*config, model),
        ensures
            ticks == self@.quotes.len(),
    {
        self.emitted
    }
}

/// Whether `error` is why a generator cannot go on with the next quote: it could not be counted, or
/// its round has no timestamp.
pub open spec fn is_batch_failure<P>(
    config: OpenCtpMarketGeneratorConfig<P>,
    walk: WalkView<P>,
    error: RuntimeError,
) -> bool {
    let round = next_round(walk.picks, walk.count);
    ||| is_count_failure(walk, round, error)
    ||| is_dt_failure(config.action_day@, config.interval_ms, round, error)
}

fn push_row<'a, P: Copy>(
    batch: &mut OpenCtpColumnarTickBatch<'a, P>,
    instrument_id: &'a str,
    dt_ns: i64,
    now_ns: i64,
    quote: Quote<P>,
)
    requires
        old(batch).has_equal_lengths(),
    ensures
        final(batch).has_equal_lengths(),
        final(batch).exchange_id == old(batch).exchange_id,
        final(batch).trading_day == old(batch).trading_day,
        final(batch).action_day == old(batch).action_day,
        final(batch).instrument_ids@ == old(batch).instrument_ids@.push(instrument_id),
        final(batch).dt_ns@ == old(batch).dt_ns@.push(dt_ns),
        final(batch).localtime_ns@ == old(batch).localtime_ns@.push(now_ns),
        final(batch).source_emit_ns@ == old(batch).source_emit_ns@.push(now_ns),
        final(batch).last_price@ == old(batch).last_price@.push(quote.last_price),
        final(batch).volume@ == old(batch).volume@.push(quote.volume),
        final(batch).turnover@ == old(batch).turnover@.push(quote.turnover),
        final(batch).open_interest@ == old(batch).open_interest@.push(quote.open_interest),
        final(batch).bid_price_1@ == old(batch).bid_price_1@.push(quote.bid_price_1),
        final(batch).bid_volume_1@ == old(batch).bid_volume_1@.push(quote.bid_volume_1),
        final(batch).ask_price_1@ == old(batch).ask_price_1@.push(quote.ask_price_1),
        final(batch).ask_volume_1@ == old(batch).ask_volume_1@.push(quote.ask_volume_1),
{
    batch.instrument_ids.push(instrument_id);
    batch.dt_ns.push(dt_ns);
    batch.localtime_ns.push(now_ns);
    batch.source_emit_ns.push(now_ns);
    batch.last_price.push(quote.last_price);
    batch.volume.push(quote.volume);
    batch.turnover.push(quote.turnover);
    batch.open_interest.push(quote.open_interest);
    batch.bid_price_1.push(quote.bid_price_1);
    batch.bid_volume_1.push(quote.bid_volume_1);
    batch.ask_price_1.push(quote.ask_price_1);
    batch.ask_volume_1.push(quote.ask_volume_1);
}

/// A batch without rows, its fixed columns as configured.
fn new_columnar_batch<'a, P>(config: &'a OpenCtpMarketGeneratorConfig<P>) -> (batch:
    OpenCtpColumnarTickBatch<'a, P>)
    ensures
        batch.row_count() == 0,
        batch.has_equal_lengths(),
        batch.exchange_id@ == config.exchange_id@,
        batch.trading_day@ == config.trading_day@,
        batch.action_day@ == config.action_day@,
{
    OpenCtpColumnarTickBatch {
        exchange_id: config.exchange_id.as_str(),
        trading_day: config.trading_day.as_str(),
        action_day: config.action_day.as_str(),
        instrument_ids: Vec::new(),
        dt_ns: Vec::new(),
        localtime_ns: Vec::new(),
        source_emit_ns: Vec::new(),
        last_price: Vec::new(),
        volume: Vec::new(),
        turnover: Vec::new(),
        open_interest: Vec::new(),
        bid_price_1: Vec::new(),
        bid_volume_1: Vec::new(),
        ask_price_1: Vec::new(),
        ask_volume_1: Vec::new(),
    }
}

impl<P: Copy> ColumnarGenerator<P> {
    /// A generator at its start.
    pub fn new<M: PriceModel<P>>(config: &OpenCtpMarketGeneratorConfig<P>, model: &M) -> (generator:
        Self)
        ensures
            generator.well_formed(*config, model),
            generator@.quotes.len() == 0,
            is_walk_of(*config, model, generator@),
            in_order(generator@.picks, generator@.count),
    {
        let walk: MarketWalk<P> = MarketWalk::new(
            model,
            config.base_price,
            config.price_step,
            config.seed,
            config.instruments.len(),
        );
        proof {
            walk.lemma_goes_on(model);
        }
        ColumnarGenerator { walk, emitted: 0, round_index: 0, index: 0 }
    }

    /// The next batch, received and handed on at `now_ns`.
    ///
    /// Where the batch before ended within a round, this one goes on inside it.
    #[verifier::rlimit(40)]
    pub fn next_batch<'a, M: PriceModel<P>>(
        &mut self,
        config: &'a OpenCtpMarketGeneratorConfig<P>,
        model: &M,
        now_ns: i64,
    ) -> (r: Result<OpenCtpColumnarTickBatch<'a, P>, RuntimeError>)
        requires
            old(self).well_formed(*config, model),
            config.instruments.len() > 0,
            config.max_ticks is Some ==> old(self)@.quotes.len() <= config.max_ticks->0,
        ensures
            final(self).well_formed(*config, model),
            is_walk_of(*config, model, final(self)@),
            config.max_ticks is Some ==> final(self)@.quotes.len() <= config.max_ticks->0,
            goes_round(old(self)@, final(self)@),
            ({
                let rows = batch_rows(
                    config.instruments.len(),
                    old(self)@.quotes.len() as u64,
                    config.max_ticks,
                );
                match r {
                    Ok(batch) => {
                        &&& is_batch_of(*config, old(self)@, final(self)@, now_ns, batch)
                        &&& batch.row_count() == rows
                    },
                    Err(error) => {
                        &&& is_batch_failure(*config, final(self)@, error)
                        &&& final(self)@.quotes.len() < old(self)@.quotes.len() + rows
                    },
                }
            }),
    {
        let ghost before = self.walk@;
        let count: usize = config.instruments.len();
        let capacity: usize = columnar_batch_capacity(count, self.emitted, config.max_ticks);
        proof {
            self.walk.lemma_goes_on(model);
        }
        let mut batch: OpenCtpColumnarTickBatch<'a, P> = new_columnar_batch(config);
        while batch.len() < capacity
            invariant
                before == old(self)@,
                count == config.instruments.len(),
                count > 0,
                capacity == batch_rows(count, before.quotes.len() as u64, config.max_ticks),
                before.picks.len() == before.quotes.len(),
                config.max_ticks is Some ==> before.quotes.len() + capacity <= config.max_ticks->0,
                self.well_formed(*config, model),
                is_walk_of(*config, model, self.walk@),
                goes_round(before, self.walk@),
                is_batch_of(*config, before, self.walk@, now_ns, batch),
                batch.row_count() <= capacity,
            decreases capacity - batch.row_count(),
        {
            let round_index: u64 = self.round_index;
            proof {
                lemma_pick_in_order(
                    self.walk@.picks,
                    count as int,
                    round_index as int,
                    self.index as int,
                );
            }
            let dt_ns: i64 = match generator_dt_ns(
                config.action_day.as_str(),
                config.interval_ms,
                round_index,
            ) {
                Ok(dt_ns) => dt_ns,
                Err(error) => {
                    return Err(error);
                },
            };
            let ghost rows = batch.row_count();
            let mut index: usize = self.index;
            let ghost first = index;
            while index < count && batch.len() < capacity
                invariant
                    first <= index <= count,
                    first < count,
                    count == config.instruments.len(),
                    count > 0,
                    before == old(self)@,
                    before.picks.len() == before.quotes.len(),
                    capacity == batch_rows(count, before.quotes.len() as u64, config.max_ticks),
                    config.max_ticks is Some ==> before.quotes.len() + capacity
                        <= config.max_ticks->0,
                    round_index == self.round_index,
                    round_index <= self.emitted,
                    self.walk.goes_on(model),
                    is_walk_of(*config, model, self.walk@),
                    self.emitted == self.walk@.quotes.len(),
                    goes_round(before, self.walk@),
                    stands_at(self.walk@.picks, count as int, round_index as int, index as int),
                    is_round_dt(
                        config.action_day@,
                        config.interval_ms,
                        round_index as int,
                        dt_ns as int,
                    ),
                    is_batch_of(*config, before, self.walk@, now_ns, batch),
                    batch.row_count() <= capacity,
                    batch.row_count() == rows + (index - first),
                    rows < capacity,
                decreases count - index,
            {
                let ghost now = self.walk@;
                let ghost given = batch;
                proof {
                    self.walk.lemma_goes_on(model);
                    lemma_pick_in_order(
                        now.picks,
                        count as int,
                        round_index as int,
                        index as int,
                    );
                }
                let next: Option<Quote<P>> = if self.emitted == u64::MAX {
                    None
                } else {
                    self.walk.next_quote(model, index, round_index)
                };
                let quote: Quote<P> = match next {
                    Some(quote) => quote,
                    None => {
                        self.index = index;
                        return Err(RuntimeError::io("generator counter overflow"));
                    },
                };
                push_row(&mut batch, config.instruments[index].as_str(), dt_ns, now_ns, quote);
                self.emitted = self.emitted + 1;
                proof {
                    self.walk.lemma_goes_on(model);
                    let after = self.walk@;
                    let n = before.quotes.len() as int;
                    assert forall|row: int| 0 <= row < batch.row_count() implies
                        #[trigger] is_column_row(
                        *config,
                        after.picks[n + row],
                        after.quotes[n + row],
                        now_ns,
                        batch,
                        row,
                    ) by {
                        if row < given.row_count() {
                            assert(is_column_row(
                                *config,
                                now.picks[n + row],
                                now.quotes[n + row],
                                now_ns,
                                given,
                                row,
                            ));
                            assert(after.picks[n + row] == now.picks[n + row]);
                            assert(after.quotes[n + row] == now.quotes[n + row]);
                        }
                    }
                }
                index = index + 1;
            }
            if index == count {
                self.index = 0;
                self.round_index = round_index + 1;
            } else {
                self.index = index;
            }
        }
        Ok(batch)
    }
}

/// What the owner of the source has to do next.
pub enum ColumnarStep<'a, P> {
    /// Announce the stream to the sink.
    EmitHello,
    OpenSegment,
    OpenReader,
    /// See whether a stop was asked for.
    CheckStop,
    /// Write a batch to the segment.
    Write(OpenCtpColumnarTickBatch<'a, P>),
    /// Hand the segment's descriptor to the publisher.
    Publish,
    /// Hand the sink what the reader has available.
    EmitAvailable,
    /// Point the reader at the active segment.
    UpdateReader,
    /// Let go of the retired segments that nobody reads.
    ReleaseRetired,
    /// Tell the sink that the source has stopped.
    EmitStop,
    /// The source is at its end.
    Finish(Result<(), RuntimeError>),
}

/// How a step went.
pub enum ColumnarReply {
    /// Whether a stop was asked for.
    StopAsked(bool),
    /// The batch is written, and the descriptor is another one or not.
    Written { descriptor_changed: bool },
    /// The rows that went to the sink; nothing where none were available.
    Emitted(Option<usize>),
    /// The step is done.
    Done,
    /// The step failed.
    Failed(RuntimeError),
}

/// Which step the source waits for, and for how many ticks it is taken.
#[derive(Debug, Clone, Copy, PartialEq, Eq, Structural)]
pub enum ColumnarPhase {
    Announcing,
    OpeningSegment,
    PublishingFirst,
    OpeningReader,
    Checking,
    Writing { ticks: usize },
    Publishing { ticks: usize },
    Draining { ticks: usize },
    Repointing { ticks: usize },
    Releasing { ticks: usize },
    Delivering,
    Stopping,
    Finished,
}

impl ColumnarPhase {
    /// Ticks that are on their way to the sink and not counted as received yet.
    pub open spec fn ticks(self) -> int {
        match self {
            ColumnarPhase::Writing { ticks } => ticks as int,
            ColumnarPhase::Publishing { ticks } => ticks as int,
            ColumnarPhase::Draining { ticks } => ticks as int,
            ColumnarPhase::Repointing { ticks } => ticks as int,
            ColumnarPhase::Releasing { ticks } => ticks as int,
            _ => 0,
        }
    }

    /// Whether `reply` answers the step that the source waits for.
    pub open spec fn takes(self, reply: ColumnarReply) -> bool {
        match self {
            ColumnarPhase::Checking => reply is StopAsked,
            ColumnarPhase::Writing { .. } => reply is Written || reply is Failed,
            ColumnarPhase::Draining { .. } | ColumnarPhase::Delivering => reply is Emitted
                || reply is Failed,
            ColumnarPhase::Finished => false,
            _ => reply is Done || reply is Failed,
        }
    }
}

/// The state of the source.
#[verifier::reject_recursive_types(P)]
pub struct OpenCtpColumnarGeneratorSource<P> {
    pub phase: ColumnarPhase,
    pub generator: ColumnarGenerator<P>,
    pub metrics: OpenCtpSourceMetrics,
    pub status: OpenCtpSourceStatus,
    /// Whether descriptors are handed to a publisher.
    pub publishes: bool,
}

impl<P> OpenCtpColumnarGeneratorSource<P> {
    /// Whether the generator is the configured one and has not made too much.
    pub open spec fn well_formed<M: PriceModel<P>>(
        self,
        config: OpenCtpMarketGeneratorConfig<P>,
        model: &M,
    ) -> bool {
        &&& self.generator.well_formed(config, model)
        &&& config.max_ticks is Some ==> self.generator@.quotes.len() <= config.max_ticks->0
    }

    /// Whether the counters can take what the reply may add to them.
    pub open spec fn has_room(self, reply: ColumnarReply) -> bool {
        &&& self.metrics.ticks_received_total + self.phase.ticks() <= u64::MAX
        &&& self.metrics.batches_emitted_total < u64::MAX
        &&& reply matches ColumnarReply::Emitted(Some(rows)) ==> self.metrics.ticks_emitted_total
            + rows <= u64::MAX
    }

    pub open spec fn in_phase(self, phase: ColumnarPhase) -> Self {
        OpenCtpColumnarGeneratorSource { phase, ..self }
    }

    /// The source with the counts of one more batch that went to the sink, if one did.
    pub open spec fn emitted_more(self, rows: Option<usize>) -> Self {
        match rows {
            Some(rows) => OpenCtpColumnarGeneratorSource {
                metrics: OpenCtpSourceMetrics {
                    ticks_emitted_total: (self.metrics.ticks_emitted_total + rows) as u64,
                    batches_emitted_total: (self.metrics.batches_emitted_total + 1) as u64,
                    ..self.metrics
                },
                ..self
            },
            None => self,
        }
    }

    /// Whether `next` has counted the ticks of a batch and `step` hands on what is left of it.
    pub open spec fn batch_done<'a>(
        self,
        ticks: int,
        next: Self,
        step: ColumnarStep<'a, P>,
    ) -> bool {
        &&& step is EmitAvailable
        &&& next == (OpenCtpColumnarGeneratorSource {
            phase: ColumnarPhase::Delivering,
            metrics: OpenCtpSourceMetrics {
                ticks_received_total: (self.metrics.ticks_received_total + ticks) as u64,
                ..self.metrics
            },
            ..self
        })
    }

    /// Whether the source goes on with `expected`, in `phase`.
    pub open spec fn goes_on<'a>(
        self,
        phase: ColumnarPhase,
        expected: ColumnarStep<'a, P>,
        next: Self,
        step: ColumnarStep<'a, P>,
    ) -> bool {
        step == expected && next == self.in_phase(phase)
    }

    /// Whether the next batch, received and handed on at the time that was read, is to be written;
    /// or there is none to be had: the clock failed, or the generator cannot go on.
    pub open spec fn makes_batch_at<'a>(
        self,
        config: OpenCtpMarketGeneratorConfig<P>,
        reading: Result<i64, RuntimeError>,
        next: Self,
        step: ColumnarStep<'a, P>,
    ) -> bool {
        let count = config.instruments.len();
        let made = self.generator@.quotes.len() as u64;
        let rows = batch_rows(count, made, config.max_ticks);
        &&& next == (OpenCtpColumnarGeneratorSource {
            phase: next.phase,
            generator: next.generator,
            ..self
        })
        &&& match reading {
            Err(failure) => {
                &&& step == ColumnarStep::<'a, P>::Finish(Err(failure))
                &&& next.phase == ColumnarPhase::Finished
                &&& next.generator == self.generator
            },
            Ok(now_ns) => {
                &&& goes_round(self.generator@, next.generator@)
                &&& match step {
                    ColumnarStep::Write(batch) => {
                        &&& rows > 0
                        &&& batch.row_count() == rows
                        &&& is_batch_of(
                            config,
                            self.generator@,
                            next.generator@,
                            now_ns,
                            batch,
                        )
                        &&& next.phase == (ColumnarPhase::Writing { ticks: rows as usize })
                    },
                    ColumnarStep::CheckStop => {
                        &&& rows == 0
                        &&& next.generator@.quotes.len() == made
                        &&& next.phase == ColumnarPhase::Checking
                    },
                    ColumnarStep::Finish(Err(error)) => {
                        &&& next.phase == ColumnarPhase::Finished
                        &&& is_batch_failure(config, next.generator@, error)
                        &&& next.generator@.quotes.len() < made + rows
                    },
                    _ => false,
                }
            },
        }
    }

    /// Whether `step` is about the next batch, at a time that was read from the clock.
    pub open spec fn makes_batch<'a>(
        self,
        config: OpenCtpMarketGeneratorConfig<P>,
        next: Self,
        step: ColumnarStep<'a, P>,
    ) -> bool {
        exists|reading: Result<i64, RuntimeError>|
            {
                &&& #[trigger] self.makes_batch_at(config, reading, next, step)
                &&& may_be_unix_time(reading)
            }
    }

    /// Whether `next` and `step` are what follows `reply`.
    pub open spec fn follows<'a>(
        self,
        config: OpenCtpMarketGeneratorConfig<P>,
        reply: ColumnarReply,
        next: Self,
        step: ColumnarStep<'a, P>,
    ) -> bool {
        match (self.phase, reply) {
            (_, ColumnarReply::Failed(error)) => self.goes_on(
                ColumnarPhase::Finished,
                ColumnarStep::Finish(Err(error)),
                next,
                step,
            ),
            (ColumnarPhase::Announcing, _) => self.goes_on(
                ColumnarPhase::OpeningSegment,
                ColumnarStep::OpenSegment,
                next,
                step,
            ),
            (ColumnarPhase::OpeningSegment, _) => if self.publishes {
                self.goes_on(ColumnarPhase::PublishingFirst, ColumnarStep::Publish, next, step)
            } else {
                self.goes_on(ColumnarPhase::OpeningReader, ColumnarStep::OpenReader, next, step)
            },
            (ColumnarPhase::PublishingFirst, _) => self.goes_on(
                ColumnarPhase::OpeningReader,
                ColumnarStep::OpenReader,
                next,
                step,
            ),
            (ColumnarPhase::OpeningReader, _) => self.goes_on(
                ColumnarPhase::Checking,
                ColumnarStep::CheckStop,
                next,
                step,
            ),
            (ColumnarPhase::Checking, ColumnarReply::StopAsked(asked)) => if asked || (
            config.max_ticks is Some && self.generator@.quotes.len() >= config.max_ticks->0) {
                &&& step is EmitStop
                &&& next == (OpenCtpColumnarGeneratorSource {
                    phase: ColumnarPhase::Stopping,
                    status: OpenCtpSourceStatus::Stopped,
                    ..self
                })
            } else {
                self.makes_batch(config, next, step)
            },
            (ColumnarPhase::Writing { ticks }, ColumnarReply::Written { descriptor_changed }) => {
                if !descriptor_changed {
                    self.batch_done(ticks as int, next, step)
                } else if self.publishes {
                    self.goes_on(
                        ColumnarPhase::Publishing { ticks },
                        ColumnarStep::Publish,
                        next,
                        step,
                    )
                } else {
                    self.goes_on(
                        ColumnarPhase::Draining { ticks },
                        ColumnarStep::EmitAvailable,
                        next,
                        step,
                    )
                }
            },
            (ColumnarPhase::Publishing { ticks }, _) => self.goes_on(
                ColumnarPhase::Draining { ticks },
                ColumnarStep::EmitAvailable,
                next,
                step,
            ),
            (ColumnarPhase::Draining { ticks }, ColumnarReply::Emitted(rows)) => self.emitted_more(
                rows,
            ).goes_on(
                ColumnarPhase::Repointing { ticks },
                ColumnarStep::UpdateReader,
                next,
                step,
            ),
            (ColumnarPhase::Repointing { ticks }, _) => if self.publishes {
                self.batch_done(ticks as int, next, step)
            } else {
                self.goes_on(
                    ColumnarPhase::Releasing { ticks },
                    ColumnarStep::ReleaseRetired,
                    next,
                    step,
                )
            },
            (ColumnarPhase::Releasing { ticks }, _) => self.batch_done(ticks as int, next, step),
            (ColumnarPhase::Delivering, ColumnarReply::Emitted(rows)) => self.emitted_more(
                rows,
            ).goes_on(ColumnarPhase::Checking, ColumnarStep::CheckStop, next, step),
            (ColumnarPhase::Stopping, _) => self.goes_on(
                ColumnarPhase::Finished,
                ColumnarStep::Finish(Ok(())),
                next,
                step,
            ),
            _ => false,
        }
    }

    /// Whether `reply` answers the last step and the counters can take it.
    pub fn accepts(&self, reply: &ColumnarReply) -> (accepted: bool)
        ensures
            accepted == (self.phase.takes(*reply) && self.has_room(*reply)),
    {
        let ticks: usize = match self.phase {
            ColumnarPhase::Writing { ticks } => ticks,
            ColumnarPhase::Publishing { ticks } => ticks,
            ColumnarPhase::Draining { ticks } => ticks,
            ColumnarPhase::Repointing { ticks } => ticks,
            ColumnarPhase::Releasing { ticks } => ticks,
            _ => 0,
        };
        if self.metrics.batches_emitted_total == u64::MAX || ticks as u64 > u64::MAX
            - self.metrics.ticks_received_total {
            return false;
        }
        match reply {
            ColumnarReply::StopAsked(_) => matches!(self.phase, ColumnarPhase::Checking),
            ColumnarReply::Written { .. } => matches!(self.phase, ColumnarPhase::Writing { .. }),
            ColumnarReply::Emitted(rows) => {
                let fits: bool = match rows {
                    Some(rows) => *rows as u64 <= u64::MAX - self.metrics.ticks_emitted_total,
                    None => true,
                };
                fits && matches!(
                    self.phase,
                    ColumnarPhase::Draining { .. } | ColumnarPhase::Delivering
                )
            },
            ColumnarReply::Done => !matches!(
                self.phase,
                ColumnarPhase::Checking | ColumnarPhase::Writing { .. }
                    | ColumnarPhase::Draining { .. } | ColumnarPhase::Delivering
                    | ColumnarPhase::Finished
            ),
            ColumnarReply::Failed(_) => !matches!(
                self.phase,
                ColumnarPhase::Checking | ColumnarPhase::Finished
            ),
        }
    }
}

impl<P: Copy> OpenCtpColumnarGeneratorSource<P> {
    /// A source that runs; its first step is `EmitHello`.
    pub fn start<M: PriceModel<P>>(
        config: &OpenCtpMarketGeneratorConfig<P>,
        model: &M,
        publishes: bool,
    ) -> (source: Self)
        ensures
            source.well_formed(*config, model),
            source.phase == ColumnarPhase::Announcing,
            source.generator@.quotes.len() == 0,
            in_order(source.generator@.picks, source.generator@.count),
            is_walk_of(*config, model, source.generator@),
            source.metrics == OpenCtpSourceMetrics::zeroed(),
            source.status == OpenCtpSourceStatus::Running,
            source.publishes == publishes,
    {
        OpenCtpColumnarGeneratorSource {
            phase: ColumnarPhase::Announcing,
            generator: ColumnarGenerator::new(config, model),
            metrics: OpenCtpSourceMetrics::default(),
            status: OpenCtpSourceStatus::Running,
            publishes,
        }
    }

    fn count_batch<'a>(self, ticks: usize) -> (r: (Self, ColumnarStep<'a, P>))
        requires
            self.metrics.ticks_received_total + ticks <= u64::MAX,
        ensures
            self.batch_done(ticks as int, r.0, r.1),
    {
        let mut metrics: OpenCtpSourceMetrics = self.metrics;
        metrics.record_ticks_received(ticks);
        (
            OpenCtpColumnarGeneratorSource { phase: ColumnarPhase::Delivering, metrics, ..self },
            ColumnarStep::EmitAvailable,
        )
    }

    /// What the next batch asks for, at the time that was read.
    pub fn make_batch<'a, M: PriceModel<P>>(
        self,
        config: &'a OpenCtpMarketGeneratorConfig<P>,
        model: &M,
        reading: Result<i64, RuntimeError>,
    ) -> (r: (Self, ColumnarStep<'a, P>))
        requires
            self.well_formed(*config, model),
            config.instruments.len() > 0,
            self.phase == ColumnarPhase::Checking,
        ensures
            self.makes_batch_at(*config, reading, r.0, r.1),
            r.0.well_formed(*config, model),
    {
        let now_ns: i64 = match reading {
            Ok(now_ns) => now_ns,
            Err(error) => {
                return (
                    OpenCtpColumnarGeneratorSource { phase: ColumnarPhase::Finished, ..self },
                    ColumnarStep::Finish(Err(error)),
                );
            },
        };
        let mut generator: ColumnarGenerator<P> = self.generator;
        match generator.next_batch(config, model, now_ns) {
            Ok(batch) => {
                let ticks: usize = batch.len();
                if ticks == 0 {
                    (
                        OpenCtpColumnarGeneratorSource {
                            phase: ColumnarPhase::Checking,
                            generator,
                            ..self
                        },
                        ColumnarStep::CheckStop,
                    )
                } else {
                    (
                        OpenCtpColumnarGeneratorSource {
                            phase: ColumnarPhase::Writing { ticks },
                            generator,
                            ..self
                        },
                        ColumnarStep::Write(batch),
                    )
                }
            },
            Err(error) => (
                OpenCtpColumnarGeneratorSource {
                    phase: ColumnarPhase::Finished,
                    generator,
                    ..self
                },
                ColumnarStep::Finish(Err(error)),
            ),
        }
    }

    /// What follows the reply to the last step.
    pub fn advance<'a, M: PriceModel<P>>(
        self,
        config: &'a OpenCtpMarketGeneratorConfig<P>,
        model: &M,
        reply: ColumnarReply,
    ) -> (r: (Self, ColumnarStep<'a, P>))
        requires
            self.well_formed(*config, model),
            config.instruments.len() > 0,
            self.phase.takes(reply),
            self.has_room(reply),
        ensures
            self.follows(*config, reply, r.0, r.1),
            r.0.well_formed(*config, model),
    {
        match reply {
            ColumnarReply::Failed(error) => (
                OpenCtpColumnarGeneratorSource { phase: ColumnarPhase::Finished, ..self },
                ColumnarStep::Finish(Err(error)),
            ),
            ColumnarReply::StopAsked(asked) => {
                let emitted: u64 = self.generator.emitted(config, model);
                if asked || reached_max_ticks(emitted, config.max_ticks) {
                    (
                        OpenCtpColumnarGeneratorSource {
                            phase: ColumnarPhase::Stopping,
                            status: OpenCtpSourceStatus::Stopped,
                            ..self
                        },
                        ColumnarStep::EmitStop,
                    )
                } else {
                    let reading: Result<i64, RuntimeError> = current_unix_time_ns();
                    let r: (OpenCtpColumnarGeneratorSource<P>, ColumnarStep<'a, P>) =
                        self.make_batch(config, model, reading);
                    assert(self.makes_batch_at(*config, reading, r.0, r.1));
                    r
                }
            },
            ColumnarReply::Written { descriptor_changed } => {
                let ticks: usize = match self.phase {
                    ColumnarPhase::Writing { ticks } => ticks,
                    _ => 0,
                };
                if !descriptor_changed {
                    self.count_batch(ticks)
                } else if self.publishes {
                    (
                        OpenCtpColumnarGeneratorSource {
                            phase: ColumnarPhase::Publishing { ticks },
                            ..self
                        },
                        ColumnarStep::Publish,
                    )
                } else {
                    (
                        OpenCtpColumnarGeneratorSource {
                            phase: ColumnarPhase::Draining { ticks },
                            ..self
                        },
                        ColumnarStep::EmitAvailable,
                    )
                }
            },
            ColumnarReply::Emitted(rows) => {
                let mut metrics: OpenCtpSourceMetrics = self.metrics;
                match rows {
                    Some(rows) => metrics.record_data_emission(rows),
                    None => {},
                }
                match self.phase {
                    ColumnarPhase::Draining { ticks } => (
                        OpenCtpColumnarGeneratorSource {
                            phase: ColumnarPhase::Repointing { ticks },
                            metrics,
                            ..self
                        },
                        ColumnarStep::UpdateReader,
                    ),
                    _ => (
                        OpenCtpColumnarGeneratorSource {
                            phase: ColumnarPhase::Checking,
                            metrics,
                            ..self
                        },
                        ColumnarStep::CheckStop,
                    ),
                }
            },
            ColumnarReply::Done => self.done(),
        }
    }

    fn done<'a>(self) -> (r: (Self, ColumnarStep<'a, P>))
        requires
            self.phase.takes(ColumnarReply::Done),
            self.metrics.ticks_received_total + self.phase.ticks() <= u64::MAX,
        ensures
            forall|config: OpenCtpMarketGeneratorConfig<P>| #[trigger]
                self.follows(config, ColumnarReply::Done, r.0, r.1),
            r.0.generator == self.generator,
    {
        match self.phase {
            ColumnarPhase::Announcing => (
                OpenCtpColumnarGeneratorSource { phase: ColumnarPhase::OpeningSegment, ..self },
                ColumnarStep::OpenSegment,
            ),
            ColumnarPhase::OpeningSegment => if self.publishes {
                (
                    OpenCtpColumnarGeneratorSource {
                        phase: ColumnarPhase::PublishingFirst,
                        ..self
                    },
                    ColumnarStep::Publish,
                )
            } else {
                (
                    OpenCtpColumnarGeneratorSource { phase: ColumnarPhase::OpeningReader, ..self },
                    ColumnarStep::OpenReader,
                )
            },
            ColumnarPhase::PublishingFirst => (
                OpenCtpColumnarGeneratorSource { phase: ColumnarPhase::OpeningReader, ..self },
                ColumnarStep::OpenReader,
            ),
            ColumnarPhase::OpeningReader => (
                OpenCtpColumnarGeneratorSource { phase: ColumnarPhase::Checking, ..self },
                ColumnarStep::CheckStop,
            ),
            ColumnarPhase::Publishing { ticks } => (
                OpenCtpColumnarGeneratorSource { phase: ColumnarPhase::Draining { ticks }, ..self },
                ColumnarStep::EmitAvailable,
            ),
            ColumnarPhase::Repointing { ticks } => if self.publishes {
                self.count_batch(ticks)
            } else {
                (
                    OpenCtpColumnarGeneratorSource {
                        phase: ColumnarPhase::Releasing { ticks },
                        ..self
                    },
                    ColumnarStep::ReleaseRetired,
                )
            },
            ColumnarPhase::Releasing { ticks } => self.count_batch(ticks),
            _ => (
                OpenCtpColumnarGeneratorSource { phase: ColumnarPhase::Finished, ..self },
                ColumnarStep::Finish(Ok(())),
            ),
        }
    }
}

/// A limit of ticks is never passed, and the source stops once it is met.
pub proof fn law_columnar_limit_is_met_exactly<P, M: PriceModel<P>>(
    config: OpenCtpMarketGeneratorConfig<P>,
    model: &M,
    source: OpenCtpColumnarGeneratorSource<P>,
    next: OpenCtpColumnarGeneratorSource<P>,
    step: ColumnarStep<P>,
    limit: u64,
)
    requires
        config.max_ticks == Some(limit),
        source.well_formed(config, model),
        source.phase == ColumnarPhase::Checking,
        source.follows(config, ColumnarReply::StopAsked(false), next, step),
    ensures
        source.generator@.quotes.len() <= limit,
        step is EmitStop <==> source.generator@.quotes.len() == limit,
{
}

/// Every tick of a batch is counted as received once.
pub proof fn law_columnar_ticks_are_counted_once<P>(
    config: OpenCtpMarketGeneratorConfig<P>,
    source: OpenCtpColumnarGeneratorSource<P>,
    reply: ColumnarReply,
    next: OpenCtpColumnarGeneratorSource<P>,
    step: ColumnarStep<P>,
)
    requires
        source.phase.takes(reply),
        source.has_room(reply),
        source.follows(config, reply, next, step),
        reply is Written || reply is Emitted || reply is Done,
    ensures
        next.metrics.ticks_received_total + next.phase.ticks() == source.metrics.ticks_received_total
            + source.phase.ticks(),
{
}

/// Columns and rows agree: where the prices are a function, a row of a batch of columns and the row of
/// the same place that the driver of rows makes hold the same quote of the same instrument, at the
/// same event time.
pub proof fn law_columns_agree_with_rows<P, M: PriceModel<P>>(
    config: OpenCtpMarketGeneratorConfig<P>,
    model: &M,
    before: WalkView<P>,
    after: WalkView<P>,
    now_ns: i64,
    batch: OpenCtpColumnarTickBatch<P>,
    walk: WalkView<P>,
    rows: Seq<NormalizedTickRow<P>>,
    row: int,
)
    requires
        is_function(model),
        config.instruments.len() > 0,
        is_walk_of(config, model, after),
        goes_round(before, after),
        is_batch_of(config, before, after, now_ns, batch),
        is_walk_of(config, model, walk),
        in_order(walk.picks, walk.count),
        are_generated_rows(config, walk, rows),
        0 <= row < batch.row_count(),
        before.quotes.len() + row < rows.len(),
    ensures
        ({
            let other = rows[before.quotes.len() + row];
            &&& batch.instrument_ids@[row]@ == other.instrument_id@
            &&& batch.dt_ns@[row] == other.dt_ns
            &&& Some(batch.last_price@[row]) == other.last_price
            &&& Some(batch.volume@[row]) == other.volume
            &&& Some(batch.turnover@[row]) == other.turnover
            &&& Some(batch.open_interest@[row]) == other.open_interest
            &&& Some(batch.bid_price_1@[row]) == other.bid_price_1
            &&& Some(batch.bid_volume_1@[row]) == other.bid_volume_1
            &&& Some(batch.ask_price_1@[row]) == other.ask_price_1
            &&& Some(batch.ask_volume_1@[row]) == other.ask_volume_1
        }),
{
    let k = before.quotes.len() + row;
    law_generators_quote_alike(config, model, after, walk, k);
    assert(is_column_row(config, after.picks[k], after.quotes[k], now_ns, batch, row));
    assert(is_generated_row(config, walk.picks[k], walk.quotes[k], rows[k]));
}

/// Batches break no round: row after row, over all batches, the instruments take turns in their
/// configured order, and every round has one event time.
pub proof fn law_columns_count_through_rounds<P>(
    config: OpenCtpMarketGeneratorConfig<P>,
    before: WalkView<P>,
    after: WalkView<P>,
    now_ns: i64,
    batch: OpenCtpColumnarTickBatch<P>,
    row: int,
)
    requires
        config.instruments.len() > 0,
        after.count == config.instruments.len(),
        after.picks.len() == after.quotes.len(),
        goes_round(before, after),
        is_batch_of(config, before, after, now_ns, batch),
        0 <= row < batch.row_count(),
    ensures
        ({
            let k = before.quotes.len() + row;
            let count = config.instruments.len() as int;
            &&& batch.instrument_ids@[row]@ == config.instruments@[k % count]@
            &&& is_round_dt(
                config.action_day@,
                config.interval_ms,
                k / count,
                batch.dt_ns@[row] as int,
            )
        }),
{
    let k = before.quotes.len() + row;
    law_picks_count_through_rounds(after.picks, after.count, k);
    assert(is_column_row(config, after.picks[k], after.quotes[k], now_ns, batch, row));
}

/// A batch has as many rows as the target or a whole round, whichever is more, but never more than may
/// still be made.
pub proof fn law_batches_are_as_large_as_they_may_be(
    instrument_count: usize,
    emitted: u64,
    max_ticks: Option<u64>,
    rows: usize,
)
    requires
        call_ensures(columnar_batch_capacity, (instrument_count, emitted, max_ticks), rows),
        max_ticks matches Some(limit) ==> emitted <= limit && limit - emitted <= usize::MAX,
    ensures
        COLUMNAR_TARGET_BATCH_ROWS == 32_768,
        rows <= 32_768 || rows <= instrument_count,
        max_ticks matches Some(limit) ==> emitted + rows <= limit,
        (rows < 32_768 || rows < instrument_count) ==> (max_ticks matches Some(limit) && emitted + rows
            == limit),
{
}

/// A row of a batch of columns carries its quote, field by field, under the instrument of its pick, at
/// the event time of its round and the local time of the batch.
pub proof fn law_column_row_carries_its_quote<P>(
    config: OpenCtpMarketGeneratorConfig<P>,
    before: WalkView<P>,
    after: WalkView<P>,
    now_ns: i64,
    batch: OpenCtpColumnarTickBatch<P>,
    row: int,
)
    requires
        is_batch_of(config, before, after, now_ns, batch),
        0 <= row < batch.row_count(),
    ensures
        ({
            let k = before.quotes.len() + row;
            let quote = after.quotes[k];
            let pick = after.picks[k];
            &&& batch.exchange_id@ == config.exchange_id@
            &&& batch.trading_day@ == config.trading_day@
            &&& batch.action_day@ == config.action_day@
            &&& batch.instrument_ids@[row]@ == config.instruments@[pick.index]@
            &&& crate::normalize::exchange_timestamp(config.action_day@, "09:30:00"@, 0) == Ok::<
                int,
                crate::normalize::NormalizeError,
            >(batch.dt_ns@[row] - pick.round * config.interval_ms * 1_000_000)
            &&& batch.localtime_ns@[row] == now_ns
            &&& batch.source_emit_ns@[row] == now_ns
            &&& batch.last_price@[row] == quote.last_price
            &&& batch.volume@[row] == quote.volume
            &&& batch.turnover@[row] == quote.turnover
            &&& batch.open_interest@[row] == quote.open_interest
            &&& batch.bid_price_1@[row] == quote.bid_price_1
            &&& batch.bid_volume_1@[row] == quote.bid_volume_1
            &&& batch.ask_price_1@[row] == quote.ask_price_1
            &&& batch.ask_volume_1@[row] == quote.ask_volume_1
            &&& batch.has_equal_lengths()
            &&& after.quotes.len() == before.quotes.len() + batch.row_count()
        }),
{
    let k = before.quotes.len() + row;
    assert(is_column_row(config, after.picks[k], after.quotes[k], now_ns, batch, row));
}

/// The source takes its steps in order: it announces the stream, opens the segment, publishes it where
/// there is a publisher, and opens the reader; a failure ends it with that failure.
pub proof fn law_columnar_source_starts_in_order<'a, P>(
    config: OpenCtpMarketGeneratorConfig<P>,
    source: OpenCtpColumnarGeneratorSource<P>,
    reply: ColumnarReply,
    next: OpenCtpColumnarGeneratorSource<P>,
    step: ColumnarStep<'a, P>,
)
    requires
        source.phase.takes(reply),
        source.follows(config, reply, next, step),
    ensures
        reply matches ColumnarReply::Failed(error) ==> step == ColumnarStep::<'a, P>::Finish(
            Err(error),
        ) && next.phase == ColumnarPhase::Finished && next.metrics == source.metrics,
        reply is Done && source.phase == ColumnarPhase::Announcing ==> step is OpenSegment
            && next.phase == ColumnarPhase::OpeningSegment,
        reply is Done && source.phase == ColumnarPhase::OpeningSegment && source.publishes
            ==> step is Publish && next.phase == ColumnarPhase::PublishingFirst,
        reply is Done && source.phase == ColumnarPhase::OpeningSegment && !source.publishes
            ==> step is OpenReader && next.phase == ColumnarPhase::OpeningReader,
        reply is Done && source.phase == ColumnarPhase::PublishingFirst ==> step is OpenReader
            && next.phase == ColumnarPhase::OpeningReader,
        reply is Done && source.phase == ColumnarPhase::OpeningReader ==> step is CheckStop
            && next.phase == ColumnarPhase::Checking,
        next.publishes == source.publishes,
{
}

/// A batch that is written goes to the sink: where the descriptor is another one, it is published where
/// there is a publisher, the old segment is handed on to its end, the reader moves on, and the old
/// segment is let go of where there is no publisher; then what is left is handed on.
pub proof fn law_columnar_batch_goes_to_the_sink<'a, P>(
    config: OpenCtpMarketGeneratorConfig<P>,
    source: OpenCtpColumnarGeneratorSource<P>,
    reply: ColumnarReply,
    next: OpenCtpColumnarGeneratorSource<P>,
    step: ColumnarStep<'a, P>,
)
    requires
        source.phase.takes(reply),
        source.follows(config, reply, next, step),
        !(reply is Failed),
    ensures
        reply matches ColumnarReply::Written { descriptor_changed } ==> {
            &&& !descriptor_changed ==> step is EmitAvailable && next.phase
                == ColumnarPhase::Delivering
            &&& descriptor_changed && source.publishes ==> step is Publish
                && next.phase is Publishing
            &&& descriptor_changed && !source.publishes ==> step is EmitAvailable
                && next.phase is Draining
        },
        source.phase is Publishing ==> step is EmitAvailable && next.phase is Draining,
        source.phase is Draining ==> step is UpdateReader && next.phase is Repointing,
        source.phase is Repointing && source.publishes ==> step is EmitAvailable && next.phase
            == ColumnarPhase::Delivering,
        source.phase is Repointing && !source.publishes ==> step is ReleaseRetired
            && next.phase is Releasing,
        source.phase is Releasing ==> step is EmitAvailable && next.phase
            == ColumnarPhase::Delivering,
        source.phase == ColumnarPhase::Delivering ==> step is CheckStop && next.phase
            == ColumnarPhase::Checking,
        source.phase == ColumnarPhase::Stopping ==> step == ColumnarStep::<'a, P>::Finish(Ok(()))
            && next.phase == ColumnarPhase::Finished,
        reply == ColumnarReply::StopAsked(true) ==> step is EmitStop && next.status
            == OpenCtpSourceStatus::Stopped && next.phase == ColumnarPhase::Stopping,
        step is EmitStop <==> source.phase == ColumnarPhase::Checking && (reply
            == ColumnarReply::StopAsked(true) || (config.max_ticks matches Some(limit)
            && source.generator@.quotes.len() >= limit)),
        next.status != source.status ==> step is EmitStop,
{
}

/// What goes to the sink is what is counted as emitted, batch by batch, and nothing else is counted but
/// the ticks received.
pub proof fn law_columnar_emissions_are_counted<'a, P>(
    config: OpenCtpMarketGeneratorConfig<P>,
    source: OpenCtpColumnarGeneratorSource<P>,
    reply: ColumnarReply,
    next: OpenCtpColumnarGeneratorSource<P>,
    step: ColumnarStep<'a, P>,
)
    requires
        source.phase.takes(reply),
        source.has_room(reply),
        source.follows(config, reply, next, step),
    ensures
        match reply {
            ColumnarReply::Emitted(Some(rows)) => {
                &&& next.metrics.ticks_emitted_total == source.metrics.ticks_emitted_total + rows
                &&& next.metrics.batches_emitted_total == source.metrics.batches_emitted_total + 1
            },
            _ => {
                &&& next.metrics.ticks_emitted_total == source.metrics.ticks_emitted_total
                &&& next.metrics.batches_emitted_total == source.metrics.batches_emitted_total
            },
        },
        next.metrics.normalize_failures_total == source.metrics.normalize_failures_total,
        next.metrics.reconnects_total == source.metrics.reconnects_total,
        next.metrics.login_failures_total == source.metrics.login_failures_total,
        next.metrics.subscribe_failures_total == source.metrics.subscribe_failures_total,
{
}

/// A source that goes on writes a batch of made-up rows at the time that was read, or ends where the
/// clock failed or the generator cannot go on.
pub proof fn law_columnar_source_writes_what_it_makes<'a, P>(
    config: OpenCtpMarketGeneratorConfig<P>,
    source: OpenCtpColumnarGeneratorSource<P>,
    reading: Result<i64, RuntimeError>,
    next: OpenCtpColumnarGeneratorSource<P>,
    step: ColumnarStep<'a, P>,
)
    requires
        source.makes_batch_at(config, reading, next, step),
    ensures
        reading matches Err(error) ==> step == ColumnarStep::<'a, P>::Finish(Err(error))
            && next.generator == source.generator,
        step matches ColumnarStep::Write(batch) ==> {
            &&& reading matches Ok(now_ns) && is_batch_of(
                config,
                source.generator@,
                next.generator@,
                now_ns,
                batch,
            )
            &&& batch.instrument_ids@.len() > 0
            &&& batch.instrument_ids@.len() == batch_rows(
                config.instruments.len(),
                source.generator@.quotes.len() as u64,
                config.max_ticks,
            )
            &&& next.generator@.quotes.len() == source.generator@.quotes.len()
                + batch.instrument_ids@.len()
            &&& next.phase matches ColumnarPhase::Writing { ticks } && ticks
                == batch.instrument_ids@.len()
        },
        next.metrics == source.metrics,
        next.status == source.status,
{
}

/// Every step can be answered, as long as the counters are far from their end.
pub proof fn law_every_step_can_be_answered<'a, P>(
    config: OpenCtpMarketGeneratorConfig<P>,
    source: OpenCtpColumnarGeneratorSource<P>,
    reply: ColumnarReply,
    next: OpenCtpColumnarGeneratorSource<P>,
    step: ColumnarStep<'a, P>,
    error: RuntimeError,
    flag: bool,
    rows: Option<usize>,
)
    requires
        source.phase.takes(reply),
        source.follows(config, reply, next, step),
    ensures
        step is CheckStop ==> next.phase.takes(ColumnarReply::StopAsked(flag)),
        step is Write ==> next.phase.takes(ColumnarReply::Written { descriptor_changed: flag })
            && next.phase.takes(ColumnarReply::Failed(error)),
        step is EmitAvailable ==> next.phase.takes(ColumnarReply::Emitted(rows)) && next.phase.takes(
            ColumnarReply::Failed(error),
        ),
        step is OpenSegment || step is OpenReader || step is Publish || step is UpdateReader
            || step is ReleaseRetired || step is EmitStop ==> next.phase.takes(ColumnarReply::Done)
            && next.phase.takes(ColumnarReply::Failed(error)),
        step is Finish ==> next.phase == ColumnarPhase::Finished,
{
}

/// The counters have room as long as they are far from their end.
pub proof fn law_counters_have_room<P>(
    source: &OpenCtpColumnarGeneratorSource<P>,
    reply: &ColumnarReply,
    accepted: bool,
)
    requires
        call_ensures(OpenCtpColumnarGeneratorSource::<P>::accepts, (source, reply), accepted),
        source.metrics.ticks_received_total < 0x4000_0000_0000_0000,
        source.metrics.batches_emitted_total < 0x4000_0000_0000_0000,
        source.metrics.ticks_emitted_total < 0x4000_0000_0000_0000,
        source.phase.ticks() < 0x4000_0000_0000_0000,
        reply matches ColumnarReply::Emitted(Some(rows)) ==> rows < 0x4000_0000_0000_0000,
    ensures
        accepted <==> source.phase.takes(*reply),
{
}

/// The next batch carries on where the last one ended, in order, with as many rows as it may have, each
/// carrying its quote.
pub proof fn law_next_batch_goes_on<'a, P: Copy, M: PriceModel<P>>(
    generator: &mut ColumnarGenerator<P>,
    config: &'a OpenCtpMarketGeneratorConfig<P>,
    model: &M,
    now_ns: i64,
    batch: OpenCtpColumnarTickBatch<'a, P>,
    row: int,
)
    requires
        old(generator).well_formed(*config, model),
        config.instruments.len() > 0,
        config.max_ticks is Some ==> old(generator)@.quotes.len() <= config.max_ticks->0,
        call_ensures(
            ColumnarGenerator::<P>::next_batch::<M>,
            (generator, config, model, now_ns),
            Ok(batch),
        ),
        0 <= row < batch.instrument_ids@.len(),
    ensures
        ({
            let k = old(generator)@.quotes.len() + row;
            let count = config.instruments.len() as int;
            &&& batch.instrument_ids@[row]@ == config.instruments@[k % count]@
            &&& batch.localtime_ns@[row] == now_ns
            &&& batch.last_price@[row] == final(generator)@.quotes[k].last_price
            &&& batch.bid_price_1@[row] == final(generator)@.quotes[k].bid_price_1
            &&& batch.ask_price_1@[row] == final(generator)@.quotes[k].ask_price_1
            &&& final(generator)@.quotes.len() == old(generator)@.quotes.len()
                + batch.instrument_ids@.len()
            &&& config.max_ticks matches Some(limit) ==> final(generator)@.quotes.len() <= limit
        }),
{
    let before = old(generator)@;
    let after = final(generator)@;
    law_columns_count_through_rounds(*config, before, after, now_ns, batch, row);
    law_column_row_carries_its_quote(*config, before, after, now_ns, batch, row);
}

} // verus!
