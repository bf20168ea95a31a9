//! The loop of a source: what to do about each event of the driver, one step at a time.
//!
//! The loop names a step, its owner carries the step out and reports how it went.
use crate::batching::{
    are_rows_of, carried, collect_normalized_row_batches, collect_tick_batch, collect_tick_batches,
    found, is_clock_failure, is_gathered, prepare_row_batch, prepare_tick_batch, raw_ticks_of, rows_of,
    stamped_rows, well_formed_ticks, MAX_TICKS_PER_EMIT,
};
use crate::channel::{Inbox, Polled};
use crate::clock::may_be_sampled;
use crate::errors::RuntimeError;
use crate::metrics::OpenCtpSourceMetrics;
use crate::normalize::{NormalizedTickRow, RawTickSnapshot};
use crate::source::{MdDriverEvent, OpenCtpSourceStatus};
use vstd::prelude::*;

verus! {

/// What the sink hears besides data.
pub enum SinkNotice {
    Flush,
    Stop,
    Error(String),
}

/// What the owner of the loop has to do next.
pub enum LoopStep<P> {
    /// See whether a stop was asked for.
    CheckStop,
    /// Wait for the next event of the driver.
    Receive,
    /// Write rows to the segment.
    Write(Vec<NormalizedTickRow<P>>),
    /// Hand the segment's descriptor to the publisher.
    Publish,
    /// Hand the sink what the reader has available.
    EmitAvailable,
    /// Point the reader at the active segment.
    UpdateReader,
    /// Let go of the retired segments that nobody reads.
    ReleaseRetired,
    /// Store the segment's present debug metrics.
    RefreshDebug,
    /// Tell the sink.
    Emit(SinkNotice),
    /// Leave the loop.
    Finish(Result<LoopEnd, RuntimeError>),
}

/// How a loop ends in good order.
#[derive(Debug, Clone, Copy, PartialEq, Eq, Structural)]
pub enum LoopEnd {
    /// The source has stopped, and the sink was told.
    Stopped,
    /// The driver is gone without a word. How it ended is still to be seen, and the sink was not told
    /// of a stop.
    DriverGone,
}

/// How a step went.
pub enum LoopReply<P> {
    /// Whether a stop was asked for.
    StopAsked(bool),
    /// The driver's next event.
    Received(MdDriverEvent<P>),
    /// The driver is gone.
    Closed,
    /// The rows are written, and the descriptor is another one or not.
    Written { descriptor_changed: bool },
    /// The rows that went to the sink; nothing where none were available.
    Emitted(Option<usize>),
    /// The step is done.
    Done,
    /// The step failed.
    Failed(RuntimeError),
}

/// Which step the loop waits for, and for how many ticks it is taken.
pub enum LoopPhase {
    Checking,
    Receiving,
    Writing { ticks: usize },
    Publishing { ticks: usize },
    Draining { ticks: usize },
    Repointing { ticks: usize },
    Releasing { ticks: usize },
    Refreshing,
    Delivering,
    Flushing,
    Stopping,
    Failing(RuntimeError),
    Finished,
}

/// The state of the loop.
pub struct SourceLoop<P> {
    pub phase: LoopPhase,
    /// An event that is handled before the next one is received.
    pub pending: Option<MdDriverEvent<P>>,
    pub metrics: OpenCtpSourceMetrics,
    pub status: OpenCtpSourceStatus,
    /// Whether descriptors are handed to a publisher.
    pub publishes: bool,
}

impl LoopPhase {
    /// Ticks that are on their way to the sink and not counted as received yet.
    pub open spec fn ticks(self) -> int {
        match self {
            LoopPhase::Writing { ticks } => ticks as int,
            LoopPhase::Publishing { ticks } => ticks as int,
            LoopPhase::Draining { ticks } => ticks as int,
            LoopPhase::Repointing { ticks } => ticks as int,
            LoopPhase::Releasing { ticks } => ticks as int,
            _ => 0,
        }
    }

    /// Whether `reply` answers the step that the loop waits for.
    pub open spec fn takes<P>(self, reply: LoopReply<P>) -> bool {
        match self {
            LoopPhase::Checking => reply is StopAsked,
            LoopPhase::Receiving => reply is Received || reply is Closed,
            LoopPhase::Writing { .. } => reply is Written || reply is Failed,
            LoopPhase::Draining { .. } | LoopPhase::Delivering => reply is Emitted || reply is Failed,
            LoopPhase::Finished => false,
            _ => reply is Done || reply is Failed,
        }
    }
}

impl<P> LoopReply<P> {
    /// The subscription outcome that a reply brings.
    pub open spec fn subscribe_failures(self) -> int {
        match self {
            LoopReply::Received(event) => subscribe_failures_of(event),
            _ => 0,
        }
    }
}

/// Failures that an event reports.
pub open spec fn subscribe_failures_of<P>(event: MdDriverEvent<P>) -> int {
    match event {
        MdDriverEvent::SubscriptionOutcome(outcome) => outcome.subscribe_failures_total as int,
        _ => 0,
    }
}

impl<P> SourceLoop<P> {
    /// A batch is never above the limit, the channel is read only where nothing is pending, and a loop
    /// that stops says so.
    pub open spec fn well_formed(self) -> bool {
        &&& self.phase.ticks() <= MAX_TICKS_PER_EMIT
        &&& self.phase is Receiving ==> self.pending is None
        &&& self.phase is Stopping ==> self.status == OpenCtpSourceStatus::Stopped
    }

    /// The event that the loop handles on `reply`: the one that came, or the one that had to wait.
    pub open spec fn handled(self, reply: LoopReply<P>) -> Option<MdDriverEvent<P>> {
        match reply {
            LoopReply::Received(event) => Some(event),
            LoopReply::StopAsked(false) => self.pending,
            _ => None,
        }
    }

    /// Whether the counters of ticks can take a batch.
    pub open spec fn has_room_for_batch(self) -> bool {
        &&& self.metrics.ticks_received_total + MAX_TICKS_PER_EMIT <= u64::MAX
        &&& self.metrics.normalize_failures_total + MAX_TICKS_PER_EMIT <= u64::MAX
    }

    /// Whether the counters can take what the reply may add to them.
    pub open spec fn has_room(self, reply: LoopReply<P>) -> bool {
        &&& self.has_room_for_batch()
        &&& self.metrics.subscribe_failures_total + reply.subscribe_failures() <= u64::MAX
        &&& self.pending is Some ==> self.metrics.subscribe_failures_total + subscribe_failures_of(
            self.pending->0,
        ) <= u64::MAX
        &&& self.metrics.batches_emitted_total < u64::MAX
        &&& self.metrics.login_failures_total < u64::MAX
        &&& reply matches LoopReply::Emitted(Some(rows)) ==> self.metrics.ticks_emitted_total + rows
            <= u64::MAX
    }

    /// The loop in another phase.
    pub open spec fn in_phase(self, phase: LoopPhase) -> Self {
        SourceLoop { phase, ..self }
    }

    /// The loop with a batch of `ticks` at hand: the first ticks show that the connection stands.
    pub open spec fn connected_by(self, ticks: int) -> Self {
        SourceLoop {
            status: if ticks > 0 && self.status == OpenCtpSourceStatus::Connecting {
                OpenCtpSourceStatus::Running
            } else {
                self.status
            },
            ..self
        }
    }

    /// The loop with another count of ticks received.
    pub open spec fn received_more(self, ticks: int) -> Self {
        SourceLoop {
            metrics: OpenCtpSourceMetrics {
                ticks_received_total: (self.metrics.ticks_received_total + ticks) as u64,
                ..self.metrics
            },
            ..self
        }
    }

    /// The loop with another count of malformed ticks.
    pub open spec fn refused_more(self, ticks: int) -> Self {
        SourceLoop {
            metrics: OpenCtpSourceMetrics {
                normalize_failures_total: (self.metrics.normalize_failures_total + ticks) as u64,
                ..self.metrics
            },
            ..self
        }
    }

    /// The loop with the counts of one more batch that went to the sink, if one did.
    pub open spec fn emitted_more(self, rows: Option<usize>) -> Self {
        match rows {
            Some(rows) => SourceLoop {
                metrics: OpenCtpSourceMetrics {
                    ticks_emitted_total: (self.metrics.ticks_emitted_total + rows) as u64,
                    batches_emitted_total: (self.metrics.batches_emitted_total + 1) as u64,
                    ..self.metrics
                },
                ..self
            },
            None => self,
        }
    }

    /// Whether `next` has counted the ticks of a batch and `step` goes on to what follows.
    pub open spec fn batch_done(self, ticks: int, next: Self, step: LoopStep<P>) -> bool {
        &&& next == self.received_more(ticks).in_phase(LoopPhase::Refreshing)
        &&& step is RefreshDebug
    }

    /// Whether `step` is what a batch of raw ticks asks for.
    pub open spec fn takes_ticks(
        self,
        batch: Seq<RawTickSnapshot<P>>,
        next: Self,
        step: LoopStep<P>,
    ) -> bool {
        match step {
            LoopStep::Write(rows) => {
                &&& rows.len() > 0
                &&& exists|now_ns: i64| #[trigger]
                    are_rows_of(rows@, batch, now_ns) && may_be_sampled(Ok(now_ns))
                &&& next == self.refused_more(batch.len() - rows.len()).in_phase(
                    LoopPhase::Writing { ticks: batch.len() as usize },
                )
            },
            LoopStep::RefreshDebug => {
                &&& well_formed_ticks(batch).len() == 0
                &&& self.refused_more(batch.len() as int).batch_done(batch.len() as int, next, step)
            },
            LoopStep::Finish(Err(error)) => {
                &&& batch.len() > 0
                &&& is_clock_failure(error)
                &&& next == self.in_phase(LoopPhase::Finished) || next == self.refused_more(
                    batch.len() - well_formed_ticks(batch).len(),
                ).in_phase(LoopPhase::Finished)
            },
            _ => false,
        }
    }

    /// Whether `step` is what a batch of rows asks for.
    pub open spec fn takes_rows(
        self,
        batch: Seq<NormalizedTickRow<P>>,
        next: Self,
        step: LoopStep<P>,
    ) -> bool {
        match step {
            LoopStep::Write(rows) => {
                &&& batch.len() > 0
                &&& exists|now_ns: i64|
                    rows@ == #[trigger] stamped_rows(batch, now_ns) && may_be_sampled(Ok(now_ns))
                &&& next == self.in_phase(LoopPhase::Writing { ticks: batch.len() as usize })
            },
            LoopStep::RefreshDebug => batch.len() == 0 && self.batch_done(0, next, step),
            LoopStep::Finish(Err(error)) => {
                &&& batch.len() > 0
                &&& is_clock_failure(error)
                &&& next == self.in_phase(LoopPhase::Finished)
            },
            _ => false,
        }
    }

    /// Whether the ticks `first` and those that wait behind them in the channel make a batch, and
    /// `step` is what the batch asks for.
    pub open spec fn gathers_ticks(
        self,
        first: Seq<RawTickSnapshot<P>>,
        looks: Seq<Polled<MdDriverEvent<P>>>,
        next: Self,
        step: LoopStep<P>,
    ) -> bool {
        exists|batch: Seq<RawTickSnapshot<P>>|
            {
                &&& #[trigger] is_gathered(raw_ticks_of(), first, looks, batch, next.pending)
                &&& (SourceLoop { pending: next.pending, ..self }).connected_by(
                    batch.len() as int,
                ).takes_ticks(batch, next, step)
            }
    }

    /// Whether the rows `first` and those that wait behind them in the channel make a batch, and
    /// `step` is what the batch asks for.
    pub open spec fn gathers_rows(
        self,
        first: Seq<NormalizedTickRow<P>>,
        looks: Seq<Polled<MdDriverEvent<P>>>,
        next: Self,
        step: LoopStep<P>,
    ) -> bool {
        exists|batch: Seq<NormalizedTickRow<P>>|
            {
                &&& #[trigger] is_gathered(rows_of(), first, looks, batch, next.pending)
                &&& (SourceLoop { pending: next.pending, ..self }).connected_by(
                    batch.len() as int,
                ).takes_rows(batch, next, step)
            }
    }

    /// Whether `step` is what an event of the driver asks for, with what looks into the channel found
    /// behind it.
    pub open spec fn handles(
        self,
        event: MdDriverEvent<P>,
        looks: Seq<Polled<MdDriverEvent<P>>>,
        next: Self,
        step: LoopStep<P>,
    ) -> bool {
        match event {
            MdDriverEvent::Tick(raw) => self.gathers_ticks(seq![raw], looks, next, step),
            MdDriverEvent::Ticks(raw_ticks) => self.gathers_ticks(raw_ticks@, looks, next, step),
            MdDriverEvent::Rows(rows) => self.gathers_rows(rows@, looks, next, step),
            _ => looks.len() == 0 && self.handles_report(event, next, step),
        }
    }

    /// Whether `step` is what an event that carries no ticks asks for.
    pub open spec fn handles_report(
        self,
        event: MdDriverEvent<P>,
        next: Self,
        step: LoopStep<P>,
    ) -> bool {
        match event {
            MdDriverEvent::SubscriptionOutcome(outcome) => {
                &&& step is CheckStop
                &&& next == (SourceLoop {
                    phase: LoopPhase::Checking,
                    metrics: OpenCtpSourceMetrics {
                        subscribe_failures_total: (self.metrics.subscribe_failures_total
                            + outcome.subscribe_failures_total) as u64,
                        ..self.metrics
                    },
                    status: outcome.status,
                    ..self
                })
            },
            MdDriverEvent::ReconnectUpdate(update) => {
                &&& step is CheckStop
                &&& next == (SourceLoop {
                    phase: LoopPhase::Checking,
                    metrics: OpenCtpSourceMetrics {
                        reconnects_total: update.reconnects_total,
                        ..self.metrics
                    },
                    status: update.status,
                    ..self
                })
            },
            MdDriverEvent::Flush => {
                &&& step matches LoopStep::Emit(SinkNotice::Flush)
                &&& next == self.in_phase(LoopPhase::Flushing)
            },
            MdDriverEvent::Stop => self.stops(next, step),
            MdDriverEvent::LoginFailed(reason) => (SourceLoop {
                metrics: OpenCtpSourceMetrics {
                    login_failures_total: (self.metrics.login_failures_total + 1) as u64,
                    ..self.metrics
                },
                ..self
            }).fails(reason@, next, step),
            MdDriverEvent::Error(reason) => self.fails(reason@, next, step),
            _ => false,
        }
    }

    /// Whether the source is on its way to an end with an outside failure.
    pub open spec fn fails(self, reason: Seq<char>, next: Self, step: LoopStep<P>) -> bool {
        &&& step matches LoopStep::Emit(SinkNotice::Error(text)) && text@ == reason
        &&& next.phase matches LoopPhase::Failing(error) && error.is_io(reason)
        &&& next == (SourceLoop {
            phase: next.phase,
            status: OpenCtpSourceStatus::Failed,
            ..self
        })
    }

    /// Whether the source is on its way to a stop in good order.
    pub open spec fn stops(self, next: Self, step: LoopStep<P>) -> bool {
        &&& step matches LoopStep::Emit(SinkNotice::Stop)
        &&& next == (SourceLoop {
            phase: LoopPhase::Stopping,
            status: OpenCtpSourceStatus::Stopped,
            ..self
        })
    }

    /// Whether the loop is left with `result`.
    pub open spec fn finishes(
        self,
        result: Result<LoopEnd, RuntimeError>,
        next: Self,
        step: LoopStep<P>,
    ) -> bool {
        step == LoopStep::<P>::Finish(result) && next == self.in_phase(LoopPhase::Finished)
    }

    /// Whether the loop goes on with `step`, in `phase`.
    pub open spec fn goes_on(
        self,
        phase: LoopPhase,
        expected: LoopStep<P>,
        next: Self,
        step: LoopStep<P>,
    ) -> bool {
        step == expected && next == self.in_phase(phase)
    }

    /// Whether `next` and `step` are what follows `reply`, with what looks into the channel found
    /// meanwhile.
    pub open spec fn follows(
        self,
        reply: LoopReply<P>,
        looks: Seq<Polled<MdDriverEvent<P>>>,
        next: Self,
        step: LoopStep<P>,
    ) -> bool {
        match (self.phase, reply, self.pending) {
            (LoopPhase::Checking, LoopReply::StopAsked(false), Some(event)) => (SourceLoop {
                pending: None,
                ..self
            }).handles(event, looks, next, step),
            (LoopPhase::Receiving, LoopReply::Received(event), _) => self.handles(
                event,
                looks,
                next,
                step,
            ),
            _ => looks.len() == 0 && self.answers(reply, next, step),
        }
    }

    /// Whether `next` and `step` are what follows `reply` where no event is handled.
    pub open spec fn answers(self, reply: LoopReply<P>, next: Self, step: LoopStep<P>) -> bool {
        match (self.phase, reply) {
            (_, LoopReply::Failed(error)) => self.finishes(Err(error), next, step),
            (LoopPhase::Checking, LoopReply::StopAsked(asked)) => if asked {
                self.stops(next, step)
            } else {
                self.goes_on(LoopPhase::Receiving, LoopStep::Receive, next, step)
            },
            (LoopPhase::Receiving, LoopReply::Closed) => self.finishes(
                Ok(LoopEnd::DriverGone),
                next,
                step,
            ),
            (LoopPhase::Writing { ticks }, LoopReply::Written { descriptor_changed }) => {
                if !descriptor_changed {
                    self.batch_done(ticks as int, next, step)
                } else if self.publishes {
                    self.goes_on(LoopPhase::Publishing { ticks }, LoopStep::Publish, next, step)
                } else {
                    self.goes_on(LoopPhase::Draining { ticks }, LoopStep::EmitAvailable, next, step)
                }
            },
            (LoopPhase::Publishing { ticks }, LoopReply::Done) => self.goes_on(
                LoopPhase::Draining { ticks },
                LoopStep::EmitAvailable,
                next,
                step,
            ),
            (LoopPhase::Draining { ticks }, LoopReply::Emitted(rows)) => self.emitted_more(
                rows,
            ).goes_on(LoopPhase::Repointing { ticks }, LoopStep::UpdateReader, next, step),
            (LoopPhase::Repointing { ticks }, LoopReply::Done) => if self.publishes {
                self.batch_done(ticks as int, next, step)
            } else {
                self.goes_on(LoopPhase::Releasing { ticks }, LoopStep::ReleaseRetired, next, step)
            },
            (LoopPhase::Releasing { ticks }, LoopReply::Done) => self.batch_done(
                ticks as int,
                next,
                step,
            ),
            (LoopPhase::Refreshing, LoopReply::Done) => self.goes_on(
                LoopPhase::Delivering,
                LoopStep::EmitAvailable,
                next,
                step,
            ),
            (LoopPhase::Delivering, LoopReply::Emitted(rows)) => self.emitted_more(rows).goes_on(
                LoopPhase::Checking,
                LoopStep::CheckStop,
                next,
                step,
            ),
            (LoopPhase::Flushing, LoopReply::Done) => self.goes_on(
                LoopPhase::Checking,
                LoopStep::CheckStop,
                next,
                step,
            ),
            (LoopPhase::Stopping, LoopReply::Done) => self.finishes(
                Ok(LoopEnd::Stopped),
                next,
                step,
            ),
            (LoopPhase::Failing(error), LoopReply::Done) => self.finishes(Err(error), next, step),
            _ => false,
        }
    }

    /// A loop at its start; its first step is `CheckStop`.
    pub fn new(
        metrics: OpenCtpSourceMetrics,
        status: OpenCtpSourceStatus,
        publishes: bool,
    ) -> (state: Self)
        ensures
            state == (SourceLoop::<P> {
                phase: LoopPhase::Checking,
                pending: None,
                metrics,
                status,
                publishes,
            }),
            state.well_formed(),
    {
        SourceLoop { phase: LoopPhase::Checking, pending: None, metrics, status, publishes }
    }

    fn count_batch(self, ticks: usize) -> (r: (Self, LoopStep<P>))
        requires
            self.metrics.ticks_received_total + ticks <= u64::MAX,
        ensures
            self.batch_done(ticks as int, r.0, r.1),
    {
        let mut metrics: OpenCtpSourceMetrics = self.metrics;
        metrics.record_ticks_received(ticks);
        (SourceLoop { phase: LoopPhase::Refreshing, metrics, ..self }, LoopStep::RefreshDebug)
    }

    fn count_emission(self, rows: Option<usize>) -> (next: Self)
        requires
            self.has_room(LoopReply::<P>::Emitted(rows)),
        ensures
            next == self.emitted_more(rows),
    {
        match rows {
            Some(rows) => {
                let mut metrics: OpenCtpSourceMetrics = self.metrics;
                metrics.record_data_emission(rows);
                SourceLoop { metrics, ..self }
            },
            None => self,
        }
    }

    fn connect_by(self, ticks: usize) -> (next: Self)
        ensures
            next == self.connected_by(ticks as int),
    {
        let status: OpenCtpSourceStatus = if ticks > 0 && self.status
            == OpenCtpSourceStatus::Connecting {
            OpenCtpSourceStatus::Running
        } else {
            self.status
        };
        SourceLoop { status, ..self }
    }

    fn fail(self, reason: String) -> (r: (Self, LoopStep<P>))
        ensures
            self.fails(reason@, r.0, r.1),
    {
        let failure: RuntimeError = RuntimeError::Io { reason: reason.clone() };
        (
            SourceLoop {
                phase: LoopPhase::Failing(failure),
                status: OpenCtpSourceStatus::Failed,
                ..self
            },
            LoopStep::Emit(SinkNotice::Error(reason)),
        )
    }

    fn stop(self) -> (r: (Self, LoopStep<P>))
        ensures
            self.stops(r.0, r.1),
    {
        (
            SourceLoop {
                phase: LoopPhase::Stopping,
                status: OpenCtpSourceStatus::Stopped,
                ..self
            },
            LoopStep::Emit(SinkNotice::Stop),
        )
    }
}

impl<P: Copy> SourceLoop<P> {
    /// What a batch of raw ticks asks for.
    pub fn take_ticks(self, raw_ticks: Vec<RawTickSnapshot<P>>) -> (r: (Self, LoopStep<P>))
        requires
            raw_ticks.len() <= MAX_TICKS_PER_EMIT,
            self.has_room_for_batch(),
        ensures
            self.takes_ticks(raw_ticks@, r.0, r.1),
    {
        let ticks: usize = raw_ticks.len();
        let mut metrics: OpenCtpSourceMetrics = self.metrics;
        match prepare_tick_batch(raw_ticks, &mut metrics) {
            Ok(rows) => {
                let next: SourceLoop<P> = SourceLoop { metrics, ..self };
                if rows.len() == 0 {
                    next.count_batch(ticks)
                } else {
                    (
                        SourceLoop { phase: LoopPhase::Writing { ticks }, ..next },
                        LoopStep::Write(rows),
                    )
                }
            },
            Err(error) => (
                SourceLoop { phase: LoopPhase::Finished, metrics, ..self },
                LoopStep::Finish(Err(error)),
            ),
        }
    }

    /// What a batch of rows asks for.
    pub fn take_rows(self, rows: Vec<NormalizedTickRow<P>>) -> (r: (Self, LoopStep<P>))
        requires
            rows.len() <= MAX_TICKS_PER_EMIT,
            self.has_room_for_batch(),
        ensures
            self.takes_rows(rows@, r.0, r.1),
    {
        let ticks: usize = rows.len();
        match prepare_row_batch(rows) {
            Ok(stamped) => {
                if ticks == 0 {
                    self.count_batch(0)
                } else {
                    (
                        SourceLoop { phase: LoopPhase::Writing { ticks }, ..self },
                        LoopStep::Write(stamped),
                    )
                }
            },
            Err(error) => (
                SourceLoop { phase: LoopPhase::Finished, ..self },
                LoopStep::Finish(Err(error)),
            ),
        }
    }

    fn handle(self, event: MdDriverEvent<P>, inbox: &mut Inbox<MdDriverEvent<P>>) -> (r: (
        Self,
        LoopStep<P>,
    ))
        requires
            self.pending is None,
            self.has_room(LoopReply::Received(event)),
        ensures
            exists|looks: Seq<Polled<MdDriverEvent<P>>>|
                {
                    &&& #[trigger] self.handles(event, looks, r.0, r.1)
                    &&& final(inbox)@ == old(inbox)@ + looks
                },
            r.0.well_formed(),
    {
        let mut pending: Option<MdDriverEvent<P>> = None;
        match event {
            MdDriverEvent::Tick(raw) => {
                let ghost first = seq![raw];
                let batch: Vec<RawTickSnapshot<P>> = collect_tick_batch(raw, inbox, &mut pending);
                let ghost looks = choose|looks: Seq<Polled<MdDriverEvent<P>>>|
                    {
                        &&& #[trigger] is_gathered(raw_ticks_of(), first, looks, batch@, pending)
                        &&& inbox@ == old(inbox)@ + looks
                    };
                let r: (SourceLoop<P>, LoopStep<P>) = self.take_gathered_ticks(
                    Ghost(first),
                    Ghost(looks),
                    batch,
                    pending,
                );
                assert(self.handles(event, looks, r.0, r.1));
                r
            },
            MdDriverEvent::Ticks(raw_ticks) => {
                let ghost first = raw_ticks@;
                let batch: Vec<RawTickSnapshot<P>> = collect_tick_batches(
                    raw_ticks,
                    inbox,
                    &mut pending,
                );
                let ghost looks = choose|looks: Seq<Polled<MdDriverEvent<P>>>|
                    {
                        &&& #[trigger] is_gathered(raw_ticks_of(), first, looks, batch@, pending)
                        &&& inbox@ == old(inbox)@ + looks
                    };
                let r: (SourceLoop<P>, LoopStep<P>) = self.take_gathered_ticks(
                    Ghost(first),
                    Ghost(looks),
                    batch,
                    pending,
                );
                assert(self.handles(event, looks, r.0, r.1));
                r
            },
            MdDriverEvent::Rows(rows) => {
                let ghost first = rows@;
                let batch: Vec<NormalizedTickRow<P>> = collect_normalized_row_batches(
                    rows,
                    inbox,
                    &mut pending,
                );
                let ghost gathered = batch@;
                let ghost looks = choose|looks: Seq<Polled<MdDriverEvent<P>>>|
                    {
                        &&& #[trigger] is_gathered(rows_of(), first, looks, gathered, pending)
                        &&& inbox@ == old(inbox)@ + looks
                    };
                let ticks: usize = batch.len();
                let r: (SourceLoop<P>, LoopStep<P>) = SourceLoop { pending, ..self }.connect_by(
                    ticks,
                ).take_rows(batch);
                assert(is_gathered(rows_of(), first, looks, gathered, r.0.pending));
                assert(self.handles(event, looks, r.0, r.1));
                r
            },
            event => {
                let r: (SourceLoop<P>, LoopStep<P>) = self.handle_report(event);
                proof {
                    let looks = Seq::<Polled<MdDriverEvent<P>>>::empty();
                    assert(inbox@ =~= old(inbox)@ + looks);
                    assert(self.handles(event, looks, r.0, r.1));
                }
                r
            },
        }
    }

    fn handle_report(self, event: MdDriverEvent<P>) -> (r: (Self, LoopStep<P>))
        requires
            self.pending is None,
            !(event is Tick || event is Ticks || event is Rows),
            self.has_room(LoopReply::Received(event)),
        ensures
            self.handles_report(event, r.0, r.1),
            r.0.well_formed(),
    {
        match event {
            MdDriverEvent::SubscriptionOutcome(outcome) => {
                let mut metrics: OpenCtpSourceMetrics = self.metrics;
                metrics.record_subscribe_failures(outcome.subscribe_failures_total);
                (
                    SourceLoop {
                        phase: LoopPhase::Checking,
                        metrics,
                        status: outcome.status,
                        ..self
                    },
                    LoopStep::CheckStop,
                )
            },
            MdDriverEvent::ReconnectUpdate(update) => {
                let mut metrics: OpenCtpSourceMetrics = self.metrics;
                metrics.record_reconnects(update.reconnects_total);
                (
                    SourceLoop {
                        phase: LoopPhase::Checking,
                        metrics,
                        status: update.status,
                        ..self
                    },
                    LoopStep::CheckStop,
                )
            },
            MdDriverEvent::Flush => (
                SourceLoop { phase: LoopPhase::Flushing, ..self },
                LoopStep::Emit(SinkNotice::Flush),
            ),
            MdDriverEvent::Stop => self.stop(),
            MdDriverEvent::LoginFailed(reason) => {
                let mut metrics: OpenCtpSourceMetrics = self.metrics;
                metrics.record_login_failure();
                SourceLoop { metrics, ..self }.fail(reason)
            },
            MdDriverEvent::Error(reason) => self.fail(reason),
            _ => (self, LoopStep::CheckStop),
        }
    }

    fn take_gathered_ticks(
        self,
        Ghost(first): Ghost<Seq<RawTickSnapshot<P>>>,
        Ghost(looks): Ghost<Seq<Polled<MdDriverEvent<P>>>>,
        batch: Vec<RawTickSnapshot<P>>,
        pending: Option<MdDriverEvent<P>>,
    ) -> (r: (Self, LoopStep<P>))
        requires
            self.pending is None,
            is_gathered(raw_ticks_of(), first, looks, batch@, pending),
            self.has_room_for_batch(),
        ensures
            self.gathers_ticks(first, looks, r.0, r.1),
            r.0.well_formed(),
    {
        let ghost gathered = batch@;
        let ticks: usize = batch.len();
        let r: (SourceLoop<P>, LoopStep<P>) = SourceLoop { pending, ..self }.connect_by(
            ticks,
        ).take_ticks(batch);
        assert(is_gathered(raw_ticks_of(), first, looks, gathered, r.0.pending));
        r
    }

    /// Whether `reply` answers the last step and the counters can take it.
    pub fn accepts(&self, reply: &LoopReply<P>) -> (accepted: bool)
        ensures
            accepted == (self.phase.takes(*reply) && self.has_room(*reply)),
    {
        let limit: u64 = u64::MAX - MAX_TICKS_PER_EMIT as u64;
        if self.metrics.ticks_received_total > limit || self.metrics.normalize_failures_total > limit
            || self.metrics.batches_emitted_total == u64::MAX || self.metrics.login_failures_total
            == u64::MAX {
            return false;
        }
        let failures_limit: u64 = u64::MAX - self.metrics.subscribe_failures_total;
        match &self.pending {
            Some(MdDriverEvent::SubscriptionOutcome(outcome)) => {
                if outcome.subscribe_failures_total > failures_limit {
                    return false;
                }
            },
            _ => {},
        }
        match reply {
            LoopReply::StopAsked(_) => matches!(self.phase, LoopPhase::Checking),
            LoopReply::Received(event) => {
                let fits: bool = match event {
                    MdDriverEvent::SubscriptionOutcome(outcome) => outcome.subscribe_failures_total
                        <= failures_limit,
                    _ => true,
                };
                fits && matches!(self.phase, LoopPhase::Receiving)
            },
            LoopReply::Closed => matches!(self.phase, LoopPhase::Receiving),
            LoopReply::Written { .. } => matches!(self.phase, LoopPhase::Writing { .. }),
            LoopReply::Emitted(rows) => {
                let fits: bool = match rows {
                    Some(rows) => *rows as u64 <= u64::MAX - self.metrics.ticks_emitted_total,
                    None => true,
                };
                fits && matches!(self.phase, LoopPhase::Draining { .. } | LoopPhase::Delivering)
            },
            LoopReply::Done => matches!(
                self.phase,
                LoopPhase::Publishing { .. } | LoopPhase::Repointing { .. }
                    | LoopPhase::Releasing { .. } | LoopPhase::Refreshing | LoopPhase::Flushing
                    | LoopPhase::Stopping | LoopPhase::Failing(_)
            ),
            LoopReply::Failed(_) => !matches!(
                self.phase,
                LoopPhase::Checking | LoopPhase::Receiving | LoopPhase::Finished
            ),
        }
    }

    /// What follows the reply to the last step.
    #[verifier::rlimit(40)]
    pub fn advance(self, reply: LoopReply<P>, inbox: &mut Inbox<MdDriverEvent<P>>) -> (r: (
        Self,
        LoopStep<P>,
    ))
        requires
            self.well_formed(),
            self.phase.takes(reply),
            self.has_room(reply),
        ensures
            exists|looks: Seq<Polled<MdDriverEvent<P>>>|
                {
                    &&& #[trigger] self.follows(reply, looks, r.0, r.1)
                    &&& final(inbox)@ == old(inbox)@ + looks
                },
            r.0.well_formed(),
    {
        let r: (SourceLoop<P>, LoopStep<P>) = match reply {
            LoopReply::Received(event) => {
                let r: (SourceLoop<P>, LoopStep<P>) = self.handle(event, inbox);
                proof {
                    let looks = choose|looks: Seq<Polled<MdDriverEvent<P>>>|
                        {
                            &&& #[trigger] self.handles(event, looks, r.0, r.1)
                            &&& inbox@ == old(inbox)@ + looks
                        };
                    assert(self.follows(reply, looks, r.0, r.1));
                }
                return r;
            },
            LoopReply::StopAsked(asked) => {
                if asked {
                    self.stop()
                } else {
                    match self.pending {
                        Some(event) => {
                            let state: SourceLoop<P> = SourceLoop { pending: None, ..self };
                            let r: (SourceLoop<P>, LoopStep<P>) = state.handle(event, inbox);
                            proof {
                                let looks = choose|looks: Seq<Polled<MdDriverEvent<P>>>|
                                    {
                                        &&& #[trigger] state.handles(event, looks, r.0, r.1)
                                        &&& inbox@ == old(inbox)@ + looks
                                    };
                                assert(self.follows(reply, looks, r.0, r.1));
                            }
                            return r;
                        },
                        None => (
                            SourceLoop { phase: LoopPhase::Receiving, ..self },
                            LoopStep::Receive,
                        ),
                    }
                }
            },
            LoopReply::Failed(error) => (
                SourceLoop { phase: LoopPhase::Finished, ..self },
                LoopStep::Finish(Err(error)),
            ),
            LoopReply::Closed => (
                SourceLoop { phase: LoopPhase::Finished, ..self },
                LoopStep::Finish(Ok(LoopEnd::DriverGone)),
            ),
            LoopReply::Written { descriptor_changed } => self.written(descriptor_changed),
            LoopReply::Emitted(rows) => {
                let next: SourceLoop<P> = self.count_emission(rows);
                match next.phase {
                    LoopPhase::Draining { ticks } => (
                        SourceLoop { phase: LoopPhase::Repointing { ticks }, ..next },
                        LoopStep::UpdateReader,
                    ),
                    _ => (
                        SourceLoop { phase: LoopPhase::Checking, ..next },
                        LoopStep::CheckStop,
                    ),
                }
            },
            LoopReply::Done => self.done(),
        };
        proof {
            let looks = Seq::<Polled<MdDriverEvent<P>>>::empty();
            assert(inbox@ =~= old(inbox)@ + looks);
            assert(self.follows(reply, looks, r.0, r.1));
        }
        r
    }

    fn written(self, descriptor_changed: bool) -> (r: (Self, LoopStep<P>))
        requires
            self.well_formed(),
            self.phase is Writing,
            self.has_room_for_batch(),
        ensures
            self.answers(LoopReply::Written { descriptor_changed }, r.0, r.1),
            r.0.well_formed(),
    {
        let ticks: usize = match self.phase {
            LoopPhase::Writing { ticks } => ticks,
            _ => 0,
        };
        if !descriptor_changed {
            self.count_batch(ticks)
        } else if self.publishes {
            (
                SourceLoop { phase: LoopPhase::Publishing { ticks }, ..self },
                LoopStep::Publish,
            )
        } else {
            (
                SourceLoop { phase: LoopPhase::Draining { ticks }, ..self },
                LoopStep::EmitAvailable,
            )
        }
    }

    fn done(self) -> (r: (Self, LoopStep<P>))
        requires
            self.well_formed(),
            self.phase.takes(LoopReply::<P>::Done),
            self.has_room_for_batch(),
        ensures
            self.answers(LoopReply::Done, r.0, r.1),
            r.0.well_formed(),
    {
        let publishes: bool = self.publishes;
        match self.phase {
            LoopPhase::Publishing { ticks } => (
                SourceLoop { phase: LoopPhase::Draining { ticks }, ..self },
                LoopStep::EmitAvailable,
            ),
            LoopPhase::Repointing { ticks } => if publishes {
                self.count_batch(ticks)
            } else {
                (
                    SourceLoop { phase: LoopPhase::Releasing { ticks }, ..self },
                    LoopStep::ReleaseRetired,
                )
            },
            LoopPhase::Releasing { ticks } => self.count_batch(ticks),
            LoopPhase::Refreshing => (
                SourceLoop { phase: LoopPhase::Delivering, ..self },
                LoopStep::EmitAvailable,
            ),
            LoopPhase::Failing(error) => (
                SourceLoop { phase: LoopPhase::Finished, ..self },
                LoopStep::Finish(Err(error)),
            ),
            LoopPhase::Stopping => (
                SourceLoop { phase: LoopPhase::Finished, ..self },
                LoopStep::Finish(Ok(LoopEnd::Stopped)),
            ),
            _ => (
                SourceLoop { phase: LoopPhase::Checking, ..self },
                LoopStep::CheckStop,
            ),
        }
    }
}

/// Every tick of a batch is counted as received once: while a batch is on its way, the ticks counted
/// and those still to be counted stay the same in sum.
pub proof fn law_ticks_are_counted_once<P>(
    state: SourceLoop<P>,
    reply: LoopReply<P>,
    looks: Seq<Polled<MdDriverEvent<P>>>,
    next: SourceLoop<P>,
    step: LoopStep<P>,
)
    requires
        state.well_formed(),
        state.has_room(reply),
        state.follows(reply, looks, next, step),
        reply is Written || reply is Emitted || reply is Done,
    ensures
        next.metrics.ticks_received_total + next.phase.ticks() == state.metrics.ticks_received_total
            + state.phase.ticks(),
{
}

/// What goes to the sink is what is counted as emitted, batch by batch.
pub proof fn law_emissions_are_counted<P>(
    state: SourceLoop<P>,
    reply: LoopReply<P>,
    looks: Seq<Polled<MdDriverEvent<P>>>,
    next: SourceLoop<P>,
    step: LoopStep<P>,
)
    requires
        state.well_formed(),
        state.has_room(reply),
        state.follows(reply, looks, next, step),
    ensures
        match reply {
            LoopReply::Emitted(Some(rows)) => {
                &&& next.metrics.ticks_emitted_total == state.metrics.ticks_emitted_total + rows
                &&& next.metrics.batches_emitted_total == state.metrics.batches_emitted_total + 1
            },
            _ => {
                &&& next.metrics.ticks_emitted_total == state.metrics.ticks_emitted_total
                &&& next.metrics.batches_emitted_total == state.metrics.batches_emitted_total
            },
        },
{
}

/// A stop, asked for by the owner or by the driver, is answered: the sink hears of it, the status is
/// stopped, and the loop is left in good order.
pub proof fn law_stop_is_answered<P>(
    state: SourceLoop<P>,
    looks: Seq<Polled<MdDriverEvent<P>>>,
    next: SourceLoop<P>,
    step: LoopStep<P>,
    later_looks: Seq<Polled<MdDriverEvent<P>>>,
    end: SourceLoop<P>,
    last_step: LoopStep<P>,
)
    requires
        (state.phase is Checking && state.follows(LoopReply::StopAsked(true), looks, next, step))
            || state.handles(MdDriverEvent::Stop, looks, next, step),
        next.follows(LoopReply::Done, later_looks, end, last_step),
    ensures
        step == LoopStep::<P>::Emit(SinkNotice::Stop),
        last_step == LoopStep::<P>::Finish(Ok(LoopEnd::Stopped)),
        end.status == OpenCtpSourceStatus::Stopped,
{
}

/// An error of the driver, a refused login among them, is passed on: the sink hears its reason, the status is failed, and the
/// loop is left with that reason.
pub proof fn law_driver_error_is_passed_on<P>(
    state: SourceLoop<P>,
    reason: String,
    looks: Seq<Polled<MdDriverEvent<P>>>,
    next: SourceLoop<P>,
    step: LoopStep<P>,
    later_looks: Seq<Polled<MdDriverEvent<P>>>,
    end: SourceLoop<P>,
    last_step: LoopStep<P>,
)
    requires
        state.handles(MdDriverEvent::Error(reason), looks, next, step) || state.handles(
            MdDriverEvent::LoginFailed(reason),
            looks,
            next,
            step,
        ),
        next.follows(LoopReply::Done, later_looks, end, last_step),
    ensures
        step matches LoopStep::Emit(SinkNotice::Error(text)) && text@ == reason@,
        last_step matches LoopStep::Finish(Err(error)) && error.is_io(reason@),
        end.status == OpenCtpSourceStatus::Failed,
{
}

/// The loop is left as stopped only as the very next thing after the sink was told of a stop, and the
/// status is then stopped.
pub proof fn law_good_end_follows_the_stop<P>(
    before: SourceLoop<P>,
    earlier_reply: LoopReply<P>,
    earlier_looks: Seq<Polled<MdDriverEvent<P>>>,
    state: SourceLoop<P>,
    earlier_step: LoopStep<P>,
    reply: LoopReply<P>,
    looks: Seq<Polled<MdDriverEvent<P>>>,
    next: SourceLoop<P>,
    step: LoopStep<P>,
)
    requires
        before.follows(earlier_reply, earlier_looks, state, earlier_step),
        state.phase.takes(reply),
        state.follows(reply, looks, next, step),
        step == LoopStep::<P>::Finish(Ok(LoopEnd::Stopped)),
    ensures
        earlier_step == LoopStep::<P>::Emit(SinkNotice::Stop),
        reply is Done,
        next.status == OpenCtpSourceStatus::Stopped,
{
    assert(state.phase is Stopping);
}

/// A driver that is gone without a word ends the loop at once: the sink hears nothing of it, and status
/// and counters stay as they are. The loop ends so for no other reason.
pub proof fn law_gone_driver_ends_the_loop<P>(
    state: SourceLoop<P>,
    reply: LoopReply<P>,
    looks: Seq<Polled<MdDriverEvent<P>>>,
    next: SourceLoop<P>,
    step: LoopStep<P>,
)
    requires
        state.phase.takes(reply),
        state.follows(reply, looks, next, step),
    ensures
        reply is Closed <==> step == LoopStep::<P>::Finish(Ok(LoopEnd::DriverGone)),
        reply is Closed ==> next.status == state.status && next.metrics == state.metrics,
{
}

/// A refused login is counted once, and nothing else counts as one.
pub proof fn law_refused_logins_are_counted<P>(
    state: SourceLoop<P>,
    reply: LoopReply<P>,
    looks: Seq<Polled<MdDriverEvent<P>>>,
    next: SourceLoop<P>,
    step: LoopStep<P>,
)
    requires
        state.phase.takes(reply),
        state.has_room(reply),
        state.follows(reply, looks, next, step),
    ensures
        next.metrics.login_failures_total == state.metrics.login_failures_total + if state.handled(
            reply,
        ) matches Some(MdDriverEvent::LoginFailed(_)) {
            1int
        } else {
            0
        },
{
}

/// The status follows what the driver reports and the stop, and nothing else. A source that connects
/// runs once the subscription is complete or the first ticks are there.
pub proof fn law_status_follows_reports<P>(
    state: SourceLoop<P>,
    reply: LoopReply<P>,
    looks: Seq<Polled<MdDriverEvent<P>>>,
    next: SourceLoop<P>,
    step: LoopStep<P>,
)
    requires
        state.phase.takes(reply),
        state.follows(reply, looks, next, step),
    ensures
        match state.handled(reply) {
            Some(MdDriverEvent::SubscriptionOutcome(outcome)) => next.status == outcome.status,
            Some(MdDriverEvent::ReconnectUpdate(update)) => next.status == update.status,
            Some(MdDriverEvent::Stop) => next.status == OpenCtpSourceStatus::Stopped,
            Some(MdDriverEvent::Error(_)) | Some(MdDriverEvent::LoginFailed(_)) => next.status
                == OpenCtpSourceStatus::Failed,
            Some(MdDriverEvent::Flush) => next.status == state.status,
            Some(event) => next.status == if state.status == OpenCtpSourceStatus::Connecting
                && brings_ticks(event, looks) {
                OpenCtpSourceStatus::Running
            } else {
                state.status
            },
            None => next.status == if reply == LoopReply::<P>::StopAsked(true) {
                OpenCtpSourceStatus::Stopped
            } else {
                state.status
            },
        },
{
}

/// Whether an event, or what the looks into the channel found behind it, brings ticks.
pub open spec fn brings_ticks<P>(
    event: MdDriverEvent<P>,
    looks: Seq<Polled<MdDriverEvent<P>>>,
) -> bool {
    match event {
        MdDriverEvent::Tick(_) => true,
        MdDriverEvent::Ticks(raw_ticks) => raw_ticks@.len() > 0 || carried(
            raw_ticks_of(),
            found(looks),
        ).len() > 0,
        MdDriverEvent::Rows(rows) => rows@.len() > 0 || carried(rows_of(), found(looks)).len() > 0,
        _ => false,
    }
}

/// An event that has to wait is handled before the channel is read again.
pub proof fn law_pending_event_comes_first<P>(
    state: SourceLoop<P>,
    reply: LoopReply<P>,
    looks: Seq<Polled<MdDriverEvent<P>>>,
    next: SourceLoop<P>,
    step: LoopStep<P>,
)
    requires
        state.well_formed(),
        state.follows(reply, looks, next, step),
        step is Receive,
    ensures
        state.pending is None,
        next.pending is None,
{
}

/// A batch of raw ticks is written as the rows of its good ticks, the others are counted as failures;
/// where none is good nothing is written, and where the clock fails the loop ends.
pub proof fn law_ticks_are_written_as_rows<P: Copy>(
    state: SourceLoop<P>,
    raw_ticks: Vec<RawTickSnapshot<P>>,
    r: (SourceLoop<P>, LoopStep<P>),
)
    requires
        raw_ticks@.len() <= MAX_TICKS_PER_EMIT,
        state.has_room_for_batch(),
        call_ensures(SourceLoop::<P>::take_ticks, (state, raw_ticks), r),
    ensures
        ({
            let good = well_formed_ticks(raw_ticks@).len();
            &&& r.1 is Write || r.1 is RefreshDebug || (r.1 matches LoopStep::Finish(Err(_)))
            &&& r.1 matches LoopStep::Write(rows) ==> {
                &&& rows@.len() == good
                &&& good > 0
                &&& exists|now_ns: i64| #[trigger]
                    are_rows_of(rows@, raw_ticks@, now_ns) && may_be_sampled(Ok(now_ns))
                &&& r.0.metrics.normalize_failures_total == state.metrics.normalize_failures_total + (
                raw_ticks@.len() - good)
                &&& r.0.metrics.ticks_received_total == state.metrics.ticks_received_total
                &&& r.0.phase.ticks() == raw_ticks@.len()
            }
            &&& r.1 is RefreshDebug ==> {
                &&& good == 0
                &&& r.0.metrics.ticks_received_total == state.metrics.ticks_received_total
                    + raw_ticks@.len()
                &&& r.0.metrics.normalize_failures_total == state.metrics.normalize_failures_total
                    + raw_ticks@.len()
            }
            &&& r.1 is Finish ==> raw_ticks@.len() > 0
            &&& r.0.metrics.ticks_emitted_total == state.metrics.ticks_emitted_total
            &&& r.0.metrics.batches_emitted_total == state.metrics.batches_emitted_total
            &&& r.0.metrics.reconnects_total == state.metrics.reconnects_total
            &&& r.0.metrics.login_failures_total == state.metrics.login_failures_total
            &&& r.0.metrics.subscribe_failures_total == state.metrics.subscribe_failures_total
            &&& r.0.status == state.status
            &&& r.0.pending == state.pending
        }),
{
}

/// A batch of rows is written as it is, at one reading of the clock; where there is none nothing is
/// written.
pub proof fn law_rows_are_written_as_they_are<P: Copy>(
    state: SourceLoop<P>,
    rows: Vec<NormalizedTickRow<P>>,
    r: (SourceLoop<P>, LoopStep<P>),
)
    requires
        rows@.len() <= MAX_TICKS_PER_EMIT,
        state.has_room_for_batch(),
        call_ensures(SourceLoop::<P>::take_rows, (state, rows), r),
    ensures
        r.1 is Write || r.1 is RefreshDebug || (r.1 matches LoopStep::Finish(Err(_))),
        r.1 is RefreshDebug <==> rows@.len() == 0,
        r.1 matches LoopStep::Write(stamped) ==> {
            &&& stamped@.len() == rows@.len()
            &&& r.0.phase.ticks() == rows@.len()
            &&& exists|now_ns: i64|
                may_be_sampled(Ok(now_ns)) && stamped@ == #[trigger] stamped_rows(rows@, now_ns)
        },
        r.0.metrics == state.metrics,
        r.0.status == state.status,
        r.0.pending == state.pending,
{
}

/// What is written goes to the sink: where the descriptor is another one, it is published where there is
/// a publisher, the old segment is handed on to its end, the reader moves on, and the old segment is let
/// go of where there is no publisher; then the debug metrics are stored and what is left is handed on.
pub proof fn law_batch_goes_to_the_sink<P>(
    state: SourceLoop<P>,
    reply: LoopReply<P>,
    looks: Seq<Polled<MdDriverEvent<P>>>,
    next: SourceLoop<P>,
    step: LoopStep<P>,
)
    requires
        state.phase.takes(reply),
        state.follows(reply, looks, next, step),
        !(reply is Failed),
    ensures
        reply matches LoopReply::Written { descriptor_changed } ==> {
            &&& !descriptor_changed ==> step is RefreshDebug && next.phase is Refreshing
            &&& descriptor_changed && state.publishes ==> step is Publish && next.phase is Publishing
            &&& descriptor_changed && !state.publishes ==> step is EmitAvailable
                && next.phase is Draining
        },
        state.phase is Publishing ==> step is EmitAvailable && next.phase is Draining,
        state.phase is Draining ==> step is UpdateReader && next.phase is Repointing,
        state.phase is Repointing && state.publishes ==> step is RefreshDebug
            && next.phase is Refreshing,
        state.phase is Repointing && !state.publishes ==> step is ReleaseRetired
            && next.phase is Releasing,
        state.phase is Releasing ==> step is RefreshDebug && next.phase is Refreshing,
        state.phase is Refreshing ==> step is EmitAvailable && next.phase is Delivering,
        state.phase is Delivering ==> step is CheckStop && next.phase is Checking,
        state.phase is Flushing ==> step is CheckStop && next.phase is Checking,
        next.publishes == state.publishes,
{
}

/// A step that fails ends the loop with that failure, and changes nothing else.
pub proof fn law_failed_step_ends_the_loop<P>(
    state: SourceLoop<P>,
    error: RuntimeError,
    looks: Seq<Polled<MdDriverEvent<P>>>,
    next: SourceLoop<P>,
    step: LoopStep<P>,
)
    requires
        state.phase.takes(LoopReply::<P>::Failed(error)),
        state.follows(LoopReply::Failed(error), looks, next, step),
    ensures
        step == LoopStep::<P>::Finish(Err(error)),
        next.phase is Finished,
        next.metrics == state.metrics,
        next.status == state.status,
        looks.len() == 0,
{
}

/// What a driver reports is counted: failed subscriptions are added, reconnects are taken over, and
/// nothing else changes a counter but ticks and logins.
pub proof fn law_reports_are_counted<P>(
    state: SourceLoop<P>,
    reply: LoopReply<P>,
    looks: Seq<Polled<MdDriverEvent<P>>>,
    next: SourceLoop<P>,
    step: LoopStep<P>,
)
    requires
        state.phase.takes(reply),
        state.has_room(reply),
        state.follows(reply, looks, next, step),
    ensures
        match state.handled(reply) {
            Some(MdDriverEvent::SubscriptionOutcome(outcome)) => {
                &&& next.metrics.subscribe_failures_total == state.metrics.subscribe_failures_total
                    + outcome.subscribe_failures_total
                &&& step is CheckStop
            },
            _ => next.metrics.subscribe_failures_total == state.metrics.subscribe_failures_total,
        },
        match state.handled(reply) {
            Some(MdDriverEvent::ReconnectUpdate(update)) => {
                &&& next.metrics.reconnects_total == update.reconnects_total
                &&& step is CheckStop
            },
            _ => next.metrics.reconnects_total == state.metrics.reconnects_total,
        },
        state.handled(reply) matches Some(MdDriverEvent::Flush) ==> step == LoopStep::<P>::Emit(
            SinkNotice::Flush,
        ) && next.metrics == state.metrics,
        !(state.handled(reply) matches Some(MdDriverEvent::Tick(_))) && !(state.handled(
            reply,
        ) matches Some(MdDriverEvent::Ticks(_))) ==> next.metrics.normalize_failures_total
            == state.metrics.normalize_failures_total,
{
}

/// The loop asks whether to stop before every event, and reads the channel only where it need not and
/// nothing waits.
pub proof fn law_loop_asks_before_every_event<P>(
    state: SourceLoop<P>,
    asked: bool,
    looks: Seq<Polled<MdDriverEvent<P>>>,
    next: SourceLoop<P>,
    step: LoopStep<P>,
)
    requires
        state.phase is Checking,
        state.follows(LoopReply::StopAsked(asked), looks, next, step),
    ensures
        asked ==> step == LoopStep::<P>::Emit(SinkNotice::Stop) && next.status
            == OpenCtpSourceStatus::Stopped && next.metrics == state.metrics,
        !asked && state.pending is None ==> step is Receive && next == (SourceLoop {
            phase: next.phase,
            ..state
        }),
        !asked && state.pending is Some ==> !(step is Receive),
{
}

/// Ticks and rows that an event brings, and those that wait behind it, make the batch that is written.
pub proof fn law_events_become_batches<P>(
    state: SourceLoop<P>,
    event: MdDriverEvent<P>,
    looks: Seq<Polled<MdDriverEvent<P>>>,
    next: SourceLoop<P>,
    rows: Vec<NormalizedTickRow<P>>,
)
    requires
        state.handles(event, looks, next, LoopStep::Write(rows)),
    ensures
        event is Tick || event is Ticks ==> exists|batch: Seq<RawTickSnapshot<P>>, now_ns: i64|
            {
                &&& #[trigger] are_rows_of(rows@, batch, now_ns)
                &&& may_be_sampled(Ok(now_ns))
                &&& is_gathered(
                    raw_ticks_of(),
                    match event {
                        MdDriverEvent::Tick(raw) => seq![raw],
                        MdDriverEvent::Ticks(raw_ticks) => raw_ticks@,
                        _ => Seq::empty(),
                    },
                    looks,
                    batch,
                    next.pending,
                )
            },
        event matches MdDriverEvent::Rows(given) ==> exists|
            batch: Seq<NormalizedTickRow<P>>,
            now_ns: i64,
        |
            {
                &&& rows@ == #[trigger] stamped_rows(batch, now_ns)
                &&& may_be_sampled(Ok(now_ns))
                &&& is_gathered(rows_of(), given@, looks, batch, next.pending)
            },
        event is Tick || event is Ticks || event is Rows,
{
}

/// The loop takes every answer that its step can have, as long as its counters have room for it.
pub proof fn law_every_step_can_be_answered<P>(
    state: SourceLoop<P>,
    reply: LoopReply<P>,
    looks: Seq<Polled<MdDriverEvent<P>>>,
    next: SourceLoop<P>,
    step: LoopStep<P>,
    event: MdDriverEvent<P>,
    error: RuntimeError,
    flag: bool,
    rows: Option<usize>,
)
    requires
        state.phase.takes(reply),
        state.follows(reply, looks, next, step),
    ensures
        step is CheckStop ==> next.phase.takes(LoopReply::<P>::StopAsked(flag)),
        step is Receive ==> next.phase.takes(LoopReply::Received(event)) && next.phase.takes(
            LoopReply::<P>::Closed,
        ),
        step is Write ==> next.phase.takes(LoopReply::<P>::Written { descriptor_changed: flag })
            && next.phase.takes(LoopReply::<P>::Failed(error)),
        step is EmitAvailable ==> next.phase.takes(LoopReply::<P>::Emitted(rows)) && next.phase.takes(
            LoopReply::<P>::Failed(error),
        ),
        step is Publish || step is UpdateReader || step is ReleaseRetired || step is RefreshDebug
            || step is Emit ==> next.phase.takes(LoopReply::<P>::Done) && next.phase.takes(
            LoopReply::<P>::Failed(error),
        ),
        step is Finish ==> next.phase is Finished,
{
}

/// The counters have room as long as they are far from their end.
pub proof fn law_counters_have_room<P: Copy>(
    state: &SourceLoop<P>,
    reply: &LoopReply<P>,
    accepted: bool,
)
    requires
        call_ensures(SourceLoop::<P>::accepts, (state, reply), accepted),
        state.metrics.ticks_received_total < 0x4000_0000_0000_0000,
        state.metrics.normalize_failures_total < 0x4000_0000_0000_0000,
        state.metrics.subscribe_failures_total < 0x4000_0000_0000_0000,
        state.metrics.batches_emitted_total < 0x4000_0000_0000_0000,
        state.metrics.login_failures_total < 0x4000_0000_0000_0000,
        state.metrics.ticks_emitted_total < 0x4000_0000_0000_0000,
        state.handled(*reply) matches Some(MdDriverEvent::SubscriptionOutcome(outcome))
            ==> outcome.subscribe_failures_total < 0x4000_0000_0000_0000,
        state.pending matches Some(MdDriverEvent::SubscriptionOutcome(outcome))
            ==> outcome.subscribe_failures_total < 0x4000_0000_0000_0000,
        reply matches LoopReply::Emitted(Some(rows)) ==> rows < 0x4000_0000_0000_0000,
    ensures
        accepted <==> state.phase.takes(*reply),
{
}

/// What the loop does about an event of the driver, and about a stop, is what the laws say: every
/// advance follows, and the looks into the channel are those that the inbox remembers.
pub proof fn law_loop_answers_stop_and_error<P: Copy>(
    state: SourceLoop<P>,
    reply: LoopReply<P>,
    inbox: &mut Inbox<MdDriverEvent<P>>,
    r: (SourceLoop<P>, LoopStep<P>),
)
    requires
        state.well_formed(),
        state.phase.takes(reply),
        state.has_room(reply),
        call_ensures(SourceLoop::<P>::advance, (state, reply, inbox), r),
    ensures
        state.handled(reply) matches Some(MdDriverEvent::Stop) ==> r.1 == LoopStep::<P>::Emit(
            SinkNotice::Stop,
        ),
        state.handled(reply) matches Some(MdDriverEvent::Error(reason)) ==> (
        r.1 matches LoopStep::Emit(SinkNotice::Error(text)) && text@ == reason@),
        state.handled(reply) matches Some(MdDriverEvent::LoginFailed(_)) ==> r.0
            .metrics.login_failures_total == state.metrics.login_failures_total + 1,
        reply matches LoopReply::Failed(error) ==> r.1 == LoopStep::<P>::Finish(Err(error)),
        reply is Closed ==> r.1 == LoopStep::<P>::Finish(Ok(LoopEnd::DriverGone)),
        old(inbox)@.is_prefix_of(final(inbox)@),
{
    let looks = choose|looks: Seq<Polled<MdDriverEvent<P>>>|
        {
            &&& #[trigger] state.follows(reply, looks, r.0, r.1)
            &&& final(inbox)@ == old(inbox)@ + looks
        };
    assert(state.follows(reply, looks, r.0, r.1));
}

} // verus!
