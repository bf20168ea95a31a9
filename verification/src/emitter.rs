//! Rows that wait until their batch is full or has waited long enough.
use crate::clock::{may_be_sampled, sample_localtime_ns, Moment, MonotonicClock, Span};
use crate::errors::SourceError;
use crate::normalize::{normalize_tick, NormalizedTickRow, RawTickSnapshot};
use crate::source::OpenCtpMarketDataSourceConfig;
use vstd::prelude::*;

verus! {

/// Gathers rows into batches.
#[derive(Debug, Clone)]
pub struct BufferedTickEmitter<P> {
    rows_per_batch: usize,
    flush_interval: Span,
    rows: Vec<NormalizedTickRow<P>>,
    oldest_at: Option<Moment>,
}

/// What an emitter holds.
#[verifier::ext_equal]
pub struct EmitterView<P> {
    /// Rows that make a batch full.
    pub batch_len: nat,
    /// Nanoseconds after which a batch is due; zero for no limit.
    pub interval: nat,
    pub rows: Seq<NormalizedTickRow<P>>,
    /// When the first of the rows came.
    pub oldest_at: Option<Moment>,
}

impl<P> EmitterView<P> {
    /// A new emitter: a batch is full with `rows_per_batch` rows, or with one where that is zero.
    pub open spec fn starting(rows_per_batch: usize, flush_interval_ms: u64) -> Self {
        EmitterView {
            batch_len: if rows_per_batch == 0 {
                1
            } else {
                rows_per_batch as nat
            },
            interval: (flush_interval_ms * 1_000_000) as nat,
            rows: Seq::empty(),
            oldest_at: None,
        }
    }

    /// Whether taking `row` in at `now` hands out `batch` and leaves `after`: the batch leaves
    /// with the row that makes it full, and grows by any other row.
    pub open spec fn takes_in(
        self,
        row: NormalizedTickRow<P>,
        now: Moment,
        batch: Option<Vec<NormalizedTickRow<P>>>,
        after: Self,
    ) -> bool {
        if self.rows.len() + 1 == self.batch_len {
            &&& batch is Some
            &&& batch->0@ == self.rows.push(row)
            &&& after == self.emptied()
        } else {
            batch is None && after == self.holding(row, now)
        }
    }

    /// Whether the end of a wait hands out `batch` and leaves `after`: every row, if it is due.
    pub open spec fn flushes(
        self,
        now: Moment,
        batch: Option<Vec<NormalizedTickRow<P>>>,
        after: Self,
    ) -> bool {
        if self.is_due(now) {
            &&& batch is Some
            &&& batch->0@ == self.rows
            &&& after == self.emptied()
        } else {
            batch is None && after == self
        }
    }

    /// The emitter after a batch has left.
    pub open spec fn emptied(self) -> Self {
        EmitterView { rows: Seq::empty(), oldest_at: None, ..self }
    }

    /// The emitter after `row` came in and found room.
    pub open spec fn holding(self, row: NormalizedTickRow<P>, now: Moment) -> Self {
        EmitterView {
            rows: self.rows.push(row),
            oldest_at: if self.rows.len() == 0 {
                Some(now)
            } else {
                self.oldest_at
            },
            ..self
        }
    }

    /// Whether the rows have waited long enough.
    pub open spec fn is_due(self, now: Moment) -> bool {
        match self.oldest_at {
            Some(oldest_at) => self.interval > 0 && now.nanos_since(oldest_at) >= self.interval,
            None => false,
        }
    }
}

impl<P> View for BufferedTickEmitter<P> {
    type V = EmitterView<P>;

    closed spec fn view(&self) -> EmitterView<P> {
        EmitterView {
            batch_len: self.rows_per_batch as nat,
            interval: self.flush_interval.nanos as nat,
            rows: self.rows@,
            oldest_at: self.oldest_at,
        }
    }
}

impl<P> BufferedTickEmitter<P> {
    /// A batch is never full while it waits, and it knows since when it waits.
    pub open spec fn well_formed(&self) -> bool {
        &&& self@.rows.len() < self@.batch_len
        &&& self@.oldest_at is Some <==> self@.rows.len() > 0
    }

    /// An emitter of batches of `rows_per_batch` rows, or of one row where that is zero.
    pub fn new(rows_per_batch: usize, flush_interval_ms: u64) -> (emitter: Self)
        ensures
            emitter.well_formed(),
            emitter@ == EmitterView::<P>::starting(rows_per_batch, flush_interval_ms),
    {
        BufferedTickEmitter {
            rows_per_batch: if rows_per_batch == 0 {
                1
            } else {
                rows_per_batch
            },
            flush_interval: Span::from_millis(flush_interval_ms),
            rows: Vec::new(),
            oldest_at: None,
        }
    }

    /// Takes a row in, and hands out the batch that it makes full.
    pub fn push_tick(&mut self, row: NormalizedTickRow<P>, now: Moment) -> (batch: Option<
        Vec<NormalizedTickRow<P>>,
    >)
        requires
            old(self).well_formed(),
        ensures
            final(self).well_formed(),
            old(self)@.takes_in(row, now, batch, final(self)@),
    {
        if self.rows.len() == 0 {
            self.oldest_at = Some(now);
        }
        self.rows.push(row);
        if self.rows.len() >= self.rows_per_batch {
            self.flush()
        } else {
            None
        }
    }

    /// Hands out the rows that wait, if they have waited long enough.
    pub fn flush_if_due(&mut self, now: Moment) -> (batch: Option<Vec<NormalizedTickRow<P>>>)
        requires
            old(self).well_formed(),
        ensures
            final(self).well_formed(),
            old(self)@.flushes(now, batch, final(self)@),
    {
        if self.flush_interval.is_zero() {
            return None;
        }
        match self.oldest_at {
            Some(oldest_at) => {
                if now.saturating_since(oldest_at).nanos >= self.flush_interval.nanos {
                    self.flush()
                } else {
                    None
                }
            },
            None => None,
        }
    }

    /// Hands out the rows that wait, if there are any.
    pub fn flush(&mut self) -> (batch: Option<Vec<NormalizedTickRow<P>>>)
        ensures
            final(self)@ == old(self)@.emptied(),
            match batch {
                Some(rows) => old(self)@.rows.len() > 0 && rows@ == old(self)@.rows,
                None => old(self)@.rows.len() == 0,
            },
    {
        self.oldest_at = None;
        if self.rows.len() == 0 {
            return None;
        }
        let mut rows: Vec<NormalizedTickRow<P>> = Vec::new();
        rows.append(&mut self.rows);
        Some(rows)
    }
}

/// The rows of a batch; none where there is no batch.
pub open spec fn batch_rows<P>(batch: Option<Vec<NormalizedTickRow<P>>>) -> Seq<
    NormalizedTickRow<P>,
> {
    match batch {
        Some(rows) => rows@,
        None => Seq::empty(),
    }
}

/// Rows come out in the order in which they went in, and none is lost or doubled: what a push hands
/// out and what it keeps are the rows held before and then the new one. What it keeps is less than
/// a batch.
pub proof fn law_push_loses_nothing<P>(
    before: EmitterView<P>,
    row: NormalizedTickRow<P>,
    now: Moment,
    batch: Option<Vec<NormalizedTickRow<P>>>,
    after: EmitterView<P>,
)
    requires
        before.rows.len() < before.batch_len,
        before.takes_in(row, now, batch, after),
    ensures
        batch_rows(batch) + after.rows == before.rows.push(row),
        after.rows.len() < after.batch_len,
        batch is Some ==> batch->0@.len() == before.batch_len,
{
    assert(batch_rows(batch) + after.rows =~= before.rows.push(row));
}

/// A flush hands out all rows or none.
pub proof fn law_flush_loses_nothing<P>(
    before: EmitterView<P>,
    now: Moment,
    batch: Option<Vec<NormalizedTickRow<P>>>,
    after: EmitterView<P>,
)
    requires
        before.flushes(now, batch, after),
    ensures
        batch_rows(batch) + after.rows == before.rows,
        batch is Some ==> after.rows.len() == 0,
{
    assert(batch_rows(batch) + after.rows =~= before.rows);
}

/// Without an interval nothing is ever due, and what is due stays due.
pub proof fn law_due_stays_due<P>(emitter: EmitterView<P>, now: Moment, later: Moment)
    requires
        now.nanos <= later.nanos,
    ensures
        emitter.interval == 0 ==> !emitter.is_due(now),
        emitter.is_due(now) ==> emitter.is_due(later),
{
}

/// The normalizing and gathering part of a source, without a driver and without a sink.
#[derive(Debug, Clone)]
pub struct FakeOpenCtpSourceRuntime<P> {
    emitter: BufferedTickEmitter<P>,
    clock: MonotonicClock,
}

impl<P> View for FakeOpenCtpSourceRuntime<P> {
    type V = EmitterView<P>;

    closed spec fn view(&self) -> EmitterView<P> {
        self.emitter@
    }
}

impl<P: Copy> FakeOpenCtpSourceRuntime<P> {
    pub closed spec fn well_formed(&self) -> bool {
        self.emitter.well_formed()
    }

    /// The clock by which the runtime gathers.
    pub closed spec fn clock(&self) -> MonotonicClock {
        self.clock
    }

    /// A runtime that gathers as the configuration says.
    pub fn new(config: OpenCtpMarketDataSourceConfig) -> (runtime: Self)
        ensures
            runtime.well_formed(),
            runtime@ == EmitterView::<P>::starting(config.rows_per_batch, config.flush_interval_ms),
    {
        FakeOpenCtpSourceRuntime {
            emitter: BufferedTickEmitter::new(config.rows_per_batch, config.flush_interval_ms),
            clock: MonotonicClock::start(),
        }
    }

    /// Takes a tick in at the present moment.
    pub fn push_tick(&mut self, raw: RawTickSnapshot<P>) -> (r: Result<
        Option<Vec<NormalizedTickRow<P>>>,
        SourceError,
    >)
        requires
            old(self).well_formed(),
        ensures
            final(self).well_formed(),
            exists|now: Moment|
                {
                    &&& old(self).clock().may_show(now)
                    &&& #[trigger] pushed(old(self)@, raw, now, r, final(self)@)
                },
            final(self).clock() == old(self).clock(),
    {
        let now: Moment = self.clock.now();
        self.push_tick_at(raw, now)
    }

    /// Takes a tick in at the given moment, and hands out the batch that it makes full.
    ///
    /// A malformed tick is refused and leaves nothing behind.
    pub fn push_tick_at(&mut self, raw: RawTickSnapshot<P>, now: Moment) -> (r: Result<
        Option<Vec<NormalizedTickRow<P>>>,
        SourceError,
    >)
        requires
            old(self).well_formed(),
        ensures
            final(self).well_formed(),
            pushed(old(self)@, raw, now, r, final(self)@),
            final(self).clock() == old(self).clock(),
    {
        let mut row: NormalizedTickRow<P> = match normalize_tick(&raw) {
            Ok(row) => row,
            Err(error) => {
                return Err(SourceError::from(error));
            },
        };
        match sample_localtime_ns() {
            Ok(now_ns) => {
                row.localtime_ns = now_ns;
                row.source_emit_ns = now_ns;
                assert(row.is_row_of(raw, now_ns, now_ns));
            },
            Err(error) => {
                return Err(error);
            },
        }
        Ok(self.emitter.push_tick(row, now))
    }

    /// Hands out the rows that wait, if they have waited long enough.
    pub fn flush_if_due(&mut self, now: Moment) -> (r: Result<
        Option<Vec<NormalizedTickRow<P>>>,
        SourceError,
    >)
        requires
            old(self).well_formed(),
        ensures
            final(self).well_formed(),
            r is Ok,
            old(self)@.flushes(now, r->Ok_0, final(self)@),
            final(self).clock() == old(self).clock(),
    {
        Ok(self.emitter.flush_if_due(now))
    }
}

/// What a push of `raw` at `now` may do: refuse a malformed tick, fail with the clock, or take the
/// tick's row in.
pub open spec fn pushed<P>(
    before: EmitterView<P>,
    raw: RawTickSnapshot<P>,
    now: Moment,
    r: Result<Option<Vec<NormalizedTickRow<P>>>, SourceError>,
    after: EmitterView<P>,
) -> bool {
    match r {
        Err(SourceError::Normalize(error)) => {
            &&& raw.timestamp() == Err::<int, crate::normalize::NormalizeError>(error)
            &&& after == before
        },
        Err(error) => {
            &&& raw.is_well_formed()
            &&& error is Clock
            &&& may_be_sampled(Err(error))
            &&& after == before
        },
        Ok(batch) => exists|row: NormalizedTickRow<P>, now_ns: i64|
            {
                &&& #[trigger] row.is_row_of(raw, now_ns, now_ns)
                &&& may_be_sampled(Ok(now_ns))
                &&& before.takes_in(row, now, batch, after)
            },
    }
}

/// A new emitter holds nothing; its batches have the rows that it is given, or one, and its interval is
/// counted in milliseconds.
pub proof fn law_emitter_starts_empty<P>(
    rows_per_batch: usize,
    flush_interval_ms: u64,
    emitter: BufferedTickEmitter<P>,
)
    requires
        call_ensures(
            BufferedTickEmitter::<P>::new,
            (rows_per_batch, flush_interval_ms),
            emitter,
        ),
    ensures
        rows_per_batch > 0 ==> emitter@.batch_len == rows_per_batch,
        rows_per_batch == 0 ==> emitter@.batch_len == 1,
        emitter@.interval == flush_interval_ms * 1_000_000,
        emitter@.rows.len() == 0,
        emitter@.oldest_at is None,
{
}

/// A row that makes the batch full sends all of them out, in the order in which they came; any other one
/// stays, and the wait counts from the first.
pub proof fn law_full_batches_leave<P>(
    before: EmitterView<P>,
    row: NormalizedTickRow<P>,
    now: Moment,
    batch: Option<Vec<NormalizedTickRow<P>>>,
    after: EmitterView<P>,
)
    requires
        before.rows.len() < before.batch_len,
        before.takes_in(row, now, batch, after),
    ensures
        batch is Some <==> before.rows.len() + 1 >= before.batch_len,
        batch matches Some(rows) ==> {
            &&& rows@ == before.rows.push(row)
            &&& after.rows.len() == 0
            &&& after.oldest_at is None
        },
        batch is None ==> {
            &&& after.rows == before.rows.push(row)
            &&& before.rows.len() == 0 ==> after.oldest_at == Some(now)
            &&& before.rows.len() > 0 ==> after.oldest_at == before.oldest_at
        },
        after.batch_len == before.batch_len,
        after.interval == before.interval,
{
}

/// Rows that wait leave together once the interval has passed since the first of them came, and not
/// before; without an interval they stay.
pub proof fn law_waiting_rows_leave_when_due<P>(
    before: EmitterView<P>,
    now: Moment,
    batch: Option<Vec<NormalizedTickRow<P>>>,
    after: EmitterView<P>,
)
    requires
        before.flushes(now, batch, after),
    ensures
        before.oldest_at matches Some(at) ==> (at.nanos <= now.nanos ==> (batch is Some
            <==> before.interval > 0 && now.nanos - at.nanos >= before.interval)),
        before.oldest_at is None ==> batch is None,
        batch matches Some(rows) ==> rows@ == before.rows && after.rows.len() == 0
            && after.oldest_at is None,
        batch is None ==> after.rows == before.rows && after.oldest_at == before.oldest_at,
        after.batch_len == before.batch_len,
        after.interval == before.interval,
{
}

/// A tick that is pushed is refused where it is malformed, with its own reason, and otherwise taken in as
/// its row at one reading of the clock.
pub proof fn law_pushed_tick_is_taken_in_as_its_row<P>(
    before: EmitterView<P>,
    raw: RawTickSnapshot<P>,
    now: Moment,
    r: Result<Option<Vec<NormalizedTickRow<P>>>, SourceError>,
    after: EmitterView<P>,
)
    requires
        pushed(before, raw, now, r, after),
    ensures
        raw.timestamp() is Err ==> (r matches Err(SourceError::Normalize(error)) && raw.timestamp()
            == Err::<int, crate::normalize::NormalizeError>(error)),
        r is Err ==> after == before,
        r matches Ok(batch) ==> {
            &&& raw.timestamp() is Ok
            &&& exists|row: NormalizedTickRow<P>|
                {
                    &&& #[trigger] before.takes_in(row, now, batch, after)
                    &&& row.localtime_ns == row.source_emit_ns
                    &&& may_be_sampled(Ok(row.localtime_ns))
                    &&& row.last_price == Some(raw.last_price)
                    &&& row.volume == Some(raw.volume)
                    &&& row.turnover == Some(raw.turnover)
                    &&& row.open_interest == Some(raw.open_interest)
                    &&& row.bid_price_1 == Some(raw.bid_price_1)
                    &&& row.bid_volume_1 == Some(raw.bid_volume_1)
                    &&& row.ask_price_1 == Some(raw.ask_price_1)
                    &&& row.ask_volume_1 == Some(raw.ask_volume_1)
                    &&& row.instrument_id@ == crate::text::trimmed(raw.instrument_id@)
                    &&& Ok::<int, crate::normalize::NormalizeError>(row.dt_ns as int)
                        == raw.timestamp()
                }
        },
{
    if r is Ok {
        let batch = r->Ok_0;
        let (row, now_ns) = choose|row: NormalizedTickRow<P>, now_ns: i64|
            {
                &&& #[trigger] row.is_row_of(raw, now_ns, now_ns)
                &&& may_be_sampled(Ok(now_ns))
                &&& before.takes_in(row, now, batch, after)
            };
        assert(before.takes_in(row, now, batch, after));
    }
}

/// A row that is pushed sends a batch out with the row that makes it full, all rows in their order, and
/// stays otherwise.
pub proof fn law_push_sends_full_batches<P>(
    emitter: &mut BufferedTickEmitter<P>,
    row: NormalizedTickRow<P>,
    now: Moment,
    batch: Option<Vec<NormalizedTickRow<P>>>,
)
    requires
        old(emitter).well_formed(),
        call_ensures(BufferedTickEmitter::<P>::push_tick, (emitter, row, now), batch),
    ensures
        batch is Some <==> old(emitter)@.rows.len() + 1 >= old(emitter)@.batch_len,
        batch matches Some(rows) ==> rows@ == old(emitter)@.rows.push(row)
            && final(emitter)@.rows.len() == 0,
        batch is None ==> final(emitter)@.rows == old(emitter)@.rows.push(row),
        batch is None && old(emitter)@.rows.len() == 0 ==> final(emitter)@.oldest_at == Some(now),
        batch is None && old(emitter)@.rows.len() > 0 ==> final(emitter)@.oldest_at == old(
            emitter,
        )@.oldest_at,
{
}

/// A flush hands out all rows that wait, in their order, and leaves none; one that is not due leaves
/// them.
pub proof fn law_flush_hands_out_what_waits<P>(
    emitter: &mut BufferedTickEmitter<P>,
    batch: Option<Vec<NormalizedTickRow<P>>>,
)
    requires
        call_ensures(BufferedTickEmitter::<P>::flush, (emitter,), batch),
    ensures
        final(emitter)@.rows.len() == 0,
        final(emitter)@.oldest_at is None,
        batch is None <==> old(emitter)@.rows.len() == 0,
        batch matches Some(rows) ==> rows@ == old(emitter)@.rows,
{
}

/// Rows are flushed once the interval has passed since the first of them came, and not before.
pub proof fn law_flush_waits_until_it_is_due<P>(
    emitter: &mut BufferedTickEmitter<P>,
    now: Moment,
    batch: Option<Vec<NormalizedTickRow<P>>>,
)
    requires
        old(emitter).well_formed(),
        call_ensures(BufferedTickEmitter::<P>::flush_if_due, (emitter, now), batch),
    ensures
        old(emitter)@.oldest_at matches Some(at) ==> (at.nanos <= now.nanos ==> (batch is Some <==> old(
            emitter,
        )@.interval > 0 && now.nanos >= at.nanos + old(emitter)@.interval)),
        batch matches Some(rows) ==> rows@ == old(emitter)@.rows && final(emitter)@.rows.len() == 0,
        batch is None ==> final(emitter)@.rows == old(emitter)@.rows,
{
}

} // verus!
