//! Batches of what waits in the driver's channel.
use crate::channel::{Inbox, Polled};
use crate::clock::{may_be_sampled, sample_localtime_ns};
use crate::errors::{map_source_error, RuntimeError, SourceError};
use crate::metrics::OpenCtpSourceMetrics;
use crate::normalize::{normalize_tick, NormalizedTickRow, RawTickSnapshot};
use crate::source::MdDriverEvent;
use vstd::prelude::*;

verus! {

/// Ticks that a source handles at a time.
pub const MAX_TICKS_PER_EMIT: usize = 32_768;

/// Looks into the channel for one batch. An empty event fills nothing, so looks are counted too.
pub const MAX_LOOKS_PER_EMIT: u64 = u64::MAX;

/// The raw ticks that an event carries; nothing where it is of another kind.
pub open spec fn raw_ticks_of<P>() -> spec_fn(MdDriverEvent<P>) -> Option<Seq<RawTickSnapshot<P>>> {
    |event: MdDriverEvent<P>|
        match event {
            MdDriverEvent::Tick(raw) => Some(seq![raw]),
            MdDriverEvent::Ticks(raw_ticks) => Some(raw_ticks@),
            _ => None,
        }
}

/// The rows that an event carries; nothing where it is of another kind.
pub open spec fn rows_of<P>() -> spec_fn(MdDriverEvent<P>) -> Option<Seq<NormalizedTickRow<P>>> {
    |event: MdDriverEvent<P>|
        match event {
            MdDriverEvent::Rows(rows) => Some(rows@),
            _ => None,
        }
}

/// What all of `events` carry, one after the other.
pub open spec fn carried<E, T>(payload: spec_fn(E) -> Option<Seq<T>>, events: Seq<E>) -> Seq<T>
    decreases events.len(),
{
    if events.len() == 0 {
        Seq::empty()
    } else {
        carried(payload, events.drop_last()) + match payload(events.last()) {
            Some(items) => items,
            None => Seq::empty(),
        }
    }
}

/// Whether every event carries items.
pub open spec fn all_carry<E, T>(payload: spec_fn(E) -> Option<Seq<T>>, events: Seq<E>) -> bool {
    forall|i: int| 0 <= i < events.len() ==> payload(#[trigger] events[i]) is Some
}

/// Whether `batch` is what `first` and then `received` carry, up to the largest batch, and `left`
/// the event that has to wait: the first one of another kind, or the items that found no room.
pub open spec fn is_batch<E, T>(
    payload: spec_fn(E) -> Option<Seq<T>>,
    first: Seq<T>,
    received: Seq<E>,
    batch: Seq<T>,
    left: Option<E>,
) -> bool {
    &&& batch.len() <= MAX_TICKS_PER_EMIT
    &&& match left {
        None => all_carry(payload, received) && batch == first + carried(payload, received),
        Some(event) => match payload(event) {
            None => {
                &&& received.len() > 0
                &&& received.last() == event
                &&& all_carry(payload, received.drop_last())
                &&& batch == first + carried(payload, received.drop_last())
                &&& batch.len() < MAX_TICKS_PER_EMIT
            },
            Some(rest) => {
                &&& all_carry(payload, received)
                &&& rest.len() > 0
                &&& batch.len() == MAX_TICKS_PER_EMIT
                &&& batch + rest == first + carried(payload, received)
            },
        },
    }
}

/// The events that looks into a channel found, in order.
pub open spec fn found<E>(looks: Seq<Polled<E>>) -> Seq<E>
    decreases looks.len(),
{
    if looks.len() == 0 {
        Seq::empty()
    } else {
        match looks.last() {
            Polled::Item(event) => found(looks.drop_last()).push(event),
            _ => found(looks.drop_last()),
        }
    }
}

/// Whether a batch is what `first` and the looks into the channel gave. It goes on as long as it has
/// room, nothing has to wait, and the channel is not empty.
pub open spec fn is_gathered<E, T>(
    payload: spec_fn(E) -> Option<Seq<T>>,
    first: Seq<T>,
    looks: Seq<Polled<E>>,
    batch: Seq<T>,
    left: Option<E>,
) -> bool {
    &&& is_batch(payload, first, found(looks), batch, left)
    &&& first.len() >= MAX_TICKS_PER_EMIT ==> looks.len() == 0
    &&& forall|i: int| 0 <= i < looks.len() - 1 ==> #[trigger] looks[i] is Item
    &&& {
        ||| left is Some
        ||| batch.len() == MAX_TICKS_PER_EMIT
        ||| looks.len() > 0 && !(looks.last() is Item)
        ||| looks.len() == MAX_LOOKS_PER_EMIT
    }
}

/// What one more event does to a batch of raw ticks that has room: the batch grows, and what does
/// not belong to it or finds no room is handed back.
pub fn absorb_ticks<P>(
    raw_ticks: &mut Vec<RawTickSnapshot<P>>,
    event: MdDriverEvent<P>,
) -> (left: Option<MdDriverEvent<P>>)
    requires
        old(raw_ticks).len() < MAX_TICKS_PER_EMIT,
    ensures
        is_batch(raw_ticks_of(), old(raw_ticks)@, seq![event], final(raw_ticks)@, left),
{
    let ghost before = raw_ticks@;
    let ghost received = seq![event];
    proof {
        assert(received.drop_last() =~= Seq::empty());
        reveal_with_fuel(carried, 2);
    }
    match event {
        MdDriverEvent::Tick(raw) => {
            raw_ticks.push(raw);
            assert(raw_ticks@ =~= before + carried(raw_ticks_of(), received));
            None
        },
        MdDriverEvent::Ticks(next_ticks) => {
            let mut next_ticks: Vec<RawTickSnapshot<P>> = next_ticks;
            let remaining: usize = MAX_TICKS_PER_EMIT - raw_ticks.len();
            if next_ticks.len() <= remaining {
                raw_ticks.append(&mut next_ticks);
                assert(raw_ticks@ =~= before + carried(raw_ticks_of(), received));
                None
            } else {
                let overflow: Vec<RawTickSnapshot<P>> = next_ticks.split_off(remaining);
                raw_ticks.append(&mut next_ticks);
                assert(raw_ticks@ + overflow@ =~= before + carried(raw_ticks_of(), received));
                Some(MdDriverEvent::Ticks(overflow))
            }
        },
        event => {
            assert(raw_ticks@ =~= before + carried(raw_ticks_of(), received.drop_last()));
            Some(event)
        },
    }
}

/// A batch that begins with one raw tick and goes on with what waits in the channel.
pub fn collect_tick_batch<P>(
    raw: RawTickSnapshot<P>,
    inbox: &mut Inbox<MdDriverEvent<P>>,
    pending_event: &mut Option<MdDriverEvent<P>>,
) -> (batch: Vec<RawTickSnapshot<P>>)
    ensures
        exists|looks: Seq<Polled<MdDriverEvent<P>>>, left: Option<MdDriverEvent<P>>|
            {
                &&& #[trigger] is_gathered(raw_ticks_of(), seq![raw], looks, batch@, left)
                &&& final(inbox)@ == old(inbox)@ + looks
                &&& *final(pending_event) == if left is Some {
                    left
                } else {
                    *old(pending_event)
                }
            },
{
    let mut raw_ticks: Vec<RawTickSnapshot<P>> = Vec::new();
    raw_ticks.push(raw);
    assert(raw_ticks@ =~= seq![raw]);
    collect_tick_batches(raw_ticks, inbox, pending_event)
}

/// A batch that begins with raw ticks and goes on with what waits in the channel.
pub fn collect_tick_batches<P>(
    raw_ticks: Vec<RawTickSnapshot<P>>,
    inbox: &mut Inbox<MdDriverEvent<P>>,
    pending_event: &mut Option<MdDriverEvent<P>>,
) -> (batch: Vec<RawTickSnapshot<P>>)
    ensures
        exists|looks: Seq<Polled<MdDriverEvent<P>>>, left: Option<MdDriverEvent<P>>|
            {
                &&& #[trigger] is_gathered(raw_ticks_of(), raw_ticks@, looks, batch@, left)
                &&& final(inbox)@ == old(inbox)@ + looks
                &&& *final(pending_event) == if left is Some {
                    left
                } else {
                    *old(pending_event)
                }
            },
{
    let ghost first = raw_ticks@;
    let ghost mut looks: Seq<Polled<MdDriverEvent<P>>> = Seq::empty();
    let mut batch: Vec<RawTickSnapshot<P>> = raw_ticks;
    assert(inbox@ =~= old(inbox)@ + looks);
    if batch.len() > MAX_TICKS_PER_EMIT {
        let overflow: Vec<RawTickSnapshot<P>> = batch.split_off(MAX_TICKS_PER_EMIT);
        let left: Option<MdDriverEvent<P>> = Some(MdDriverEvent::Ticks(overflow));
        assert(batch@ + overflow@ =~= first + carried(raw_ticks_of(), found(looks)));
        assert(is_gathered(raw_ticks_of(), first, looks, batch@, left));
        *pending_event = left;
        return batch;
    }
    let mut looks_left: u64 = MAX_LOOKS_PER_EMIT;
    assert(batch@ =~= first + carried(raw_ticks_of(), found(looks)));
    while batch.len() < MAX_TICKS_PER_EMIT && looks_left > 0
        invariant
            is_batch(raw_ticks_of(), first, found(looks), batch@, None),
            first == raw_ticks@,
            inbox@ == old(inbox)@ + looks,
            looks.len() + looks_left == MAX_LOOKS_PER_EMIT,
            first.len() >= MAX_TICKS_PER_EMIT ==> looks.len() == 0,
            batch.len() >= first.len(),
            forall|i: int| 0 <= i < looks.len() ==> #[trigger] looks[i] is Item,
            *pending_event == *old(pending_event),
        decreases looks_left,
    {
        looks_left = looks_left - 1;
        let ghost before_look = looks;
        let polled: Polled<MdDriverEvent<P>> = inbox.look();
        proof {
            looks = looks.push(polled);
            assert(looks.drop_last() =~= before_look);
            assert(inbox@ =~= old(inbox)@ + looks);
        }
        let event: MdDriverEvent<P> = match polled {
            Polled::Item(event) => event,
            _ => {
                assert(is_gathered(raw_ticks_of(), first, looks, batch@, None));
                return batch;
            },
        };
        let ghost before = batch@;
        let left: Option<MdDriverEvent<P>> = absorb_ticks(&mut batch, event);
        proof {
            lemma_batch_goes_on(
                raw_ticks_of(),
                first,
                found(before_look),
                before,
                event,
                batch@,
                left,
            );
        }
        match left {
            Some(event) => {
                assert(is_gathered(raw_ticks_of(), first, looks, batch@, left));
                *pending_event = Some(event);
                return batch;
            },
            None => {},
        }
    }
    assert(is_gathered(raw_ticks_of(), first, looks, batch@, None));
    batch
}

proof fn lemma_batch_goes_on<E, T>(
    payload: spec_fn(E) -> Option<Seq<T>>,
    first: Seq<T>,
    received: Seq<E>,
    before: Seq<T>,
    event: E,
    batch: Seq<T>,
    left: Option<E>,
)
    requires
        is_batch(payload, first, received, before, None),
        is_batch(payload, before, seq![event], batch, left),
    ensures
        is_batch(payload, first, received.push(event), batch, left),
{
    let longer = received.push(event);
    assert(longer.drop_last() =~= received);
    assert(seq![event].drop_last() =~= Seq::<E>::empty());
    reveal_with_fuel(carried, 2);
    let one = carried(payload, seq![event]);
    match payload(event) {
        Some(items) => {
            assert(one =~= items);
            assert(carried(payload, longer) == carried(payload, received) + items);
            assert(before + items =~= first + carried(payload, longer));
        },
        None => {
            assert(carried(payload, longer) =~= carried(payload, received));
        },
    }
    if left is Some && payload(left->0) is None {
        assert(carried(payload, seq![event].drop_last()) =~= Seq::<T>::empty());
        assert(batch =~= before);
    }
}

/// What one more event does to a batch of rows that has room: the batch grows, and what does not
/// belong to it or finds no room is handed back.
pub fn absorb_rows<P>(
    rows: &mut Vec<NormalizedTickRow<P>>,
    event: MdDriverEvent<P>,
) -> (left: Option<MdDriverEvent<P>>)
    requires
        old(rows).len() < MAX_TICKS_PER_EMIT,
    ensures
        is_batch(rows_of(), old(rows)@, seq![event], final(rows)@, left),
{
    let ghost before = rows@;
    let ghost received = seq![event];
    proof {
        assert(received.drop_last() =~= Seq::empty());
        reveal_with_fuel(carried, 2);
    }
    match event {
        MdDriverEvent::Rows(next_rows) => {
            let mut next_rows: Vec<NormalizedTickRow<P>> = next_rows;
            let remaining: usize = MAX_TICKS_PER_EMIT - rows.len();
            if next_rows.len() <= remaining {
                rows.append(&mut next_rows);
                assert(rows@ =~= before + carried(rows_of(), received));
                None
            } else {
                let overflow: Vec<NormalizedTickRow<P>> = next_rows.split_off(remaining);
                rows.append(&mut next_rows);
                assert(rows@ + overflow@ =~= before + carried(rows_of(), received));
                Some(MdDriverEvent::Rows(overflow))
            }
        },
        event => {
            assert(rows@ =~= before + carried(rows_of(), received.drop_last()));
            Some(event)
        },
    }
}

/// A batch that begins with rows and goes on with what waits in the channel.
pub fn collect_normalized_row_batches<P>(
    rows: Vec<NormalizedTickRow<P>>,
    inbox: &mut Inbox<MdDriverEvent<P>>,
    pending_event: &mut Option<MdDriverEvent<P>>,
) -> (batch: Vec<NormalizedTickRow<P>>)
    ensures
        exists|looks: Seq<Polled<MdDriverEvent<P>>>, left: Option<MdDriverEvent<P>>|
            {
                &&& #[trigger] is_gathered(rows_of(), rows@, looks, batch@, left)
                &&& final(inbox)@ == old(inbox)@ + looks
                &&& *final(pending_event) == if left is Some {
                    left
                } else {
                    *old(pending_event)
                }
            },
{
    let ghost first = rows@;
    let ghost mut looks: Seq<Polled<MdDriverEvent<P>>> = Seq::empty();
    let mut batch: Vec<NormalizedTickRow<P>> = rows;
    assert(inbox@ =~= old(inbox)@ + looks);
    if batch.len() > MAX_TICKS_PER_EMIT {
        let overflow: Vec<NormalizedTickRow<P>> = batch.split_off(MAX_TICKS_PER_EMIT);
        let left: Option<MdDriverEvent<P>> = Some(MdDriverEvent::Rows(overflow));
        assert(batch@ + overflow@ =~= first + carried(rows_of(), found(looks)));
        assert(is_gathered(rows_of(), first, looks, batch@, left));
        *pending_event = left;
        return batch;
    }
    let mut looks_left: u64 = MAX_LOOKS_PER_EMIT;
    assert(batch@ =~= first + carried(rows_of(), found(looks)));
    while batch.len() < MAX_TICKS_PER_EMIT && looks_left > 0
        invariant
            is_batch(rows_of(), first, found(looks), batch@, None),
            first == rows@,
            inbox@ == old(inbox)@ + looks,
            looks.len() + looks_left == MAX_LOOKS_PER_EMIT,
            first.len() >= MAX_TICKS_PER_EMIT ==> looks.len() == 0,
            batch.len() >= first.len(),
            forall|i: int| 0 <= i < looks.len() ==> #[trigger] looks[i] is Item,
            *pending_event == *old(pending_event),
        decreases looks_left,
    {
        looks_left = looks_left - 1;
        let ghost before_look = looks;
        let polled: Polled<MdDriverEvent<P>> = inbox.look();
        proof {
            looks = looks.push(polled);
            assert(looks.drop_last() =~= before_look);
            assert(inbox@ =~= old(inbox)@ + looks);
        }
        let event: MdDriverEvent<P> = match polled {
            Polled::Item(event) => event,
            _ => {
                assert(is_gathered(rows_of(), first, looks, batch@, None));
                return batch;
            },
        };
        let ghost before = batch@;
        let left: Option<MdDriverEvent<P>> = absorb_rows(&mut batch, event);
        proof {
            lemma_batch_goes_on(
                rows_of(),
                first,
                found(before_look),
                before,
                event,
                batch@,
                left,
            );
        }
        match left {
            Some(event) => {
                assert(is_gathered(rows_of(), first, looks, batch@, left));
                *pending_event = Some(event);
                return batch;
            },
            None => {},
        }
    }
    assert(is_gathered(rows_of(), first, looks, batch@, None));
    batch
}

/// Nothing is lost, doubled or put out of order: a batch and what waits behind it carry what came
/// in, and a batch is never above the limit.
pub proof fn law_batch_loses_nothing<E, T>(
    payload: spec_fn(E) -> Option<Seq<T>>,
    first: Seq<T>,
    received: Seq<E>,
    batch: Seq<T>,
    left: Option<E>,
)
    requires
        is_batch(payload, first, received, batch, left),
    ensures
        batch.len() <= MAX_TICKS_PER_EMIT,
        first + carried(payload, received) == batch + match left {
            Some(event) => match payload(event) {
                Some(rest) => rest,
                None => Seq::empty(),
            },
            None => Seq::empty(),
        },
{
    if left is Some && payload(left->0) is None {
        assert(carried(payload, received) == carried(payload, received.drop_last())
            + Seq::<T>::empty());
        assert(first + carried(payload, received) =~= batch + Seq::<T>::empty());
    }
    if left is None {
        assert(first + carried(payload, received) =~= batch + Seq::<T>::empty());
    }
}

/// The ticks that have a row, in their order.
pub open spec fn well_formed_ticks<P>(raw_ticks: Seq<RawTickSnapshot<P>>) -> Seq<
    RawTickSnapshot<P>,
> {
    raw_ticks.filter(|raw: RawTickSnapshot<P>| raw.is_well_formed())
}

/// Whether `rows` are the rows of the well-formed ones among `raw_ticks`, received and handed on at
/// `now_ns`.
pub open spec fn are_rows_of<P>(
    rows: Seq<NormalizedTickRow<P>>,
    raw_ticks: Seq<RawTickSnapshot<P>>,
    now_ns: i64,
) -> bool {
    let ticks = well_formed_ticks(raw_ticks);
    &&& rows.len() == ticks.len()
    &&& forall|i: int|
        0 <= i < rows.len() ==> (#[trigger] rows[i]).is_row_of(ticks[i], now_ns, now_ns)
}

impl<P> NormalizedTickRow<P> {
    /// The row, received and handed on at `now_ns`.
    pub open spec fn stamped(self, now_ns: i64) -> Self {
        NormalizedTickRow { localtime_ns: now_ns, source_emit_ns: now_ns, ..self }
    }
}

/// The rows of a batch of raw ticks at a given local time.
///
/// A malformed tick is skipped and counted.
pub fn normalize_batch<P: Copy>(
    raw_ticks: &Vec<RawTickSnapshot<P>>,
    now_ns: i64,
    metrics: &mut OpenCtpSourceMetrics,
) -> (rows: Vec<NormalizedTickRow<P>>)
    requires
        old(metrics).normalize_failures_total + raw_ticks.len() <= u64::MAX,
    ensures
        are_rows_of(rows@, raw_ticks@, now_ns),
        rows.len() <= raw_ticks.len(),
        *final(metrics) == (OpenCtpSourceMetrics {
            normalize_failures_total: (old(metrics).normalize_failures_total + raw_ticks.len()
                - rows.len()) as u64,
            ..*old(metrics)
        }),
{
    let ghost is_good = |raw: RawTickSnapshot<P>| raw.is_well_formed();
    let mut rows: Vec<NormalizedTickRow<P>> = Vec::new();
    let mut i: usize = 0;
    proof {
        reveal(Seq::filter);
        assert(raw_ticks@.take(0) =~= Seq::empty());
    }
    while i < raw_ticks.len()
        invariant
            i <= raw_ticks.len(),
            is_good == (|raw: RawTickSnapshot<P>| raw.is_well_formed()),
            old(metrics).normalize_failures_total + raw_ticks.len() <= u64::MAX,
            rows.len() <= i,
            are_rows_of(rows@, raw_ticks@.take(i as int), now_ns),
            *metrics == (OpenCtpSourceMetrics {
                normalize_failures_total: (old(metrics).normalize_failures_total + i
                    - rows.len()) as u64,
                ..*old(metrics)
            }),
        decreases raw_ticks.len() - i,
    {
        let ghost before = rows@;
        let ghost ticks_before = well_formed_ticks(raw_ticks@.take(i as int));
        proof {
            reveal(Seq::filter);
            let next = raw_ticks@.take(i + 1);
            assert(next.drop_last() =~= raw_ticks@.take(i as int));
            assert(next.last() == raw_ticks@[i as int]);
            assert(well_formed_ticks(next) == if raw_ticks@[i as int].is_well_formed() {
                ticks_before.push(raw_ticks@[i as int])
            } else {
                ticks_before
            });
        }
        match normalize_tick(&raw_ticks[i]) {
            Ok(row) => {
                let mut row: NormalizedTickRow<P> = row;
                row.localtime_ns = now_ns;
                row.source_emit_ns = now_ns;
                rows.push(row);
                assert(forall|j: int| 0 <= j < before.len() ==> rows@[j] == #[trigger] before[j]);
            },
            Err(_) => {
                metrics.record_normalize_failure();
            },
        }
        i = i + 1;
    }
    assert(raw_ticks@.take(raw_ticks.len() as int) =~= raw_ticks@);
    rows
}

/// Each of the rows, received and handed on at `now_ns`.
pub open spec fn stamped_rows<P>(rows: Seq<NormalizedTickRow<P>>, now_ns: i64) -> Seq<
    NormalizedTickRow<P>,
> {
    rows.map_values(|row: NormalizedTickRow<P>| row.stamped(now_ns))
}

/// The rows with both local times set to `now_ns`.
pub fn stamp_rows<P>(rows: Vec<NormalizedTickRow<P>>, now_ns: i64) -> (stamped: Vec<
    NormalizedTickRow<P>,
>)
    ensures
        stamped@ == stamped_rows(rows@, now_ns),
{
    let ghost given = rows@;
    let mut rows: Vec<NormalizedTickRow<P>> = rows;
    let mut i: usize = 0;
    while i < rows.len()
        invariant
            i <= rows.len(),
            rows.len() == given.len(),
            forall|j: int| 0 <= j < i ==> #[trigger] rows@[j] == given[j].stamped(now_ns),
            forall|j: int| i <= j < given.len() ==> #[trigger] rows@[j] == given[j],
        decreases rows.len() - i,
    {
        rows[i].localtime_ns = now_ns;
        rows[i].source_emit_ns = now_ns;
        i = i + 1;
    }
    assert(rows@ =~= stamped_rows(given, now_ns));
    rows
}

/// The rows that a batch of raw ticks puts into the segment, with the present local time.
///
/// Malformed ticks are skipped and counted. The clock is read only where there is something to
/// stamp.
pub fn prepare_tick_batch<P: Copy>(
    raw_ticks: Vec<RawTickSnapshot<P>>,
    metrics: &mut OpenCtpSourceMetrics,
) -> (r: Result<Vec<NormalizedTickRow<P>>, RuntimeError>)
    requires
        old(metrics).normalize_failures_total + raw_ticks.len() <= u64::MAX,
    ensures
        match r {
            Ok(rows) => {
                &&& exists|now_ns: i64|
                    {
                        &&& #[trigger] are_rows_of(rows@, raw_ticks@, now_ns)
                        &&& rows.len() > 0 ==> may_be_sampled(Ok(now_ns))
                    }
                &&& *final(metrics) == (OpenCtpSourceMetrics {
                    normalize_failures_total: (old(metrics).normalize_failures_total
                        + raw_ticks.len() - rows.len()) as u64,
                    ..*old(metrics)
                })
            },
            Err(error) => {
                &&& raw_ticks.len() > 0
                &&& is_clock_failure(error)
                &&& *final(metrics) == *old(metrics) || *final(metrics) == (OpenCtpSourceMetrics {
                    normalize_failures_total: (old(metrics).normalize_failures_total
                        + raw_ticks.len() - well_formed_ticks(raw_ticks@).len()) as u64,
                    ..*old(metrics)
                })
            },
        },
{
    if raw_ticks.len() == 0 {
        let rows: Vec<NormalizedTickRow<P>> = Vec::new();
        proof {
            assert(well_formed_ticks(raw_ticks@).len() == 0) by {
                reveal(Seq::filter);
            }
            assert(are_rows_of(rows@, raw_ticks@, 0i64));
            assert(*metrics == (OpenCtpSourceMetrics {
                normalize_failures_total: (old(metrics).normalize_failures_total + raw_ticks.len()
                    - rows.len()) as u64,
                ..*old(metrics)
            }));
        }
        return Ok(rows);
    }
    let now_ns: i64 = match sample_localtime_ns() {
        Ok(now_ns) => now_ns,
        Err(error) => {
            return Err(map_source_error(error));
        },
    };
    let rows: Vec<NormalizedTickRow<P>> = normalize_batch(&raw_ticks, now_ns, metrics);
    if rows.len() == 0 {
        assert(are_rows_of(rows@, raw_ticks@, now_ns));
        return Ok(rows);
    }
    match prepare_row_batch(rows) {
        Ok(stamped) => {
            proof {
                let later = choose|later: i64|
                    {
                        &&& stamped@ == #[trigger] stamped_rows(rows@, later)
                        &&& stamped.len() > 0 ==> may_be_sampled(Ok(later))
                    };
                assert(are_rows_of(stamped@, raw_ticks@, later)) by {
                    assert(forall|i: int|
                        0 <= i < stamped.len() ==> #[trigger] stamped@[i] == rows@[i].stamped(later));
                }
            }
            Ok(stamped)
        },
        Err(error) => Err(error),
    }
}

/// Whether a failure is that of the clock, with the reason that the clock gave.
pub open spec fn is_clock_failure(error: RuntimeError) -> bool {
    exists|reason: String|
        {
            &&& #[trigger] may_be_sampled(Err(SourceError::Clock(reason)))
            &&& error.is_io("sample localtime_ns failed: "@ + reason@)
        }
}

/// The rows that a batch of rows puts into the segment, with the present local time.
pub fn prepare_row_batch<P>(rows: Vec<NormalizedTickRow<P>>) -> (r: Result<
    Vec<NormalizedTickRow<P>>,
    RuntimeError,
>)
    ensures
        match r {
            Ok(stamped) => exists|now_ns: i64|
                {
                    &&& stamped@ == #[trigger] stamped_rows(rows@, now_ns)
                    &&& stamped.len() > 0 ==> may_be_sampled(Ok(now_ns))
                },
            Err(error) => rows.len() > 0 && is_clock_failure(error),
        },
{
    if rows.len() == 0 {
        assert(rows@ =~= stamped_rows(rows@, 0));
        return Ok(rows);
    }
    match sample_localtime_ns() {
        Ok(now_ns) => {
            let ghost given = rows@;
            let stamped: Vec<NormalizedTickRow<P>> = stamp_rows(rows, now_ns);
            assert(stamped@ == stamped_rows(given, now_ns));
            Ok(stamped)
        },
        Err(error) => Err(map_source_error(error)),
    }
}

/// Every tick of a batch is accounted for: as a row, or as a failure.
pub proof fn law_every_tick_is_accounted_for<P>(
    rows: Seq<NormalizedTickRow<P>>,
    raw_ticks: Seq<RawTickSnapshot<P>>,
    now_ns: i64,
)
    requires
        are_rows_of(rows, raw_ticks, now_ns),
    ensures
        rows.len() + raw_ticks.filter(|raw: RawTickSnapshot<P>| !raw.is_well_formed()).len()
            == raw_ticks.len(),
        rows.len() == raw_ticks.len() <==> (forall|i: int|
            0 <= i < raw_ticks.len() ==> (#[trigger] raw_ticks[i]).is_well_formed()),
{
    lemma_filter_splits(raw_ticks);
}

proof fn lemma_filter_splits<P>(raw_ticks: Seq<RawTickSnapshot<P>>)
    ensures
        well_formed_ticks(raw_ticks).len() + raw_ticks.filter(
            |raw: RawTickSnapshot<P>| !raw.is_well_formed(),
        ).len() == raw_ticks.len(),
        well_formed_ticks(raw_ticks).len() == raw_ticks.len() <==> (forall|i: int|
            0 <= i < raw_ticks.len() ==> (#[trigger] raw_ticks[i]).is_well_formed()),
    decreases raw_ticks.len(),
{
    reveal(Seq::filter);
    if raw_ticks.len() > 0 {
        let head = raw_ticks.drop_last();
        lemma_filter_splits(head);
        assert(forall|i: int| 0 <= i < head.len() ==> head[i] == #[trigger] raw_ticks[i]);
        if raw_ticks.last().is_well_formed() {
            if forall|i: int| 0 <= i < head.len() ==> (#[trigger] head[i]).is_well_formed() {
                assert forall|i: int| 0 <= i < raw_ticks.len() implies (
                #[trigger] raw_ticks[i]).is_well_formed() by {
                    if i < head.len() {
                        assert(head[i].is_well_formed());
                    }
                }
            } else {
                let i = choose|i: int|
                    0 <= i < head.len() && !(#[trigger] head[i]).is_well_formed();
                assert(!raw_ticks[i].is_well_formed());
            }
        }
    }
}

/// Which events carry what: a tick itself, a list its ticks, rows their rows, and all others nothing of
/// either.
pub proof fn law_events_carry_their_items<P>(
    raw: RawTickSnapshot<P>,
    raw_ticks: Vec<RawTickSnapshot<P>>,
    rows: Vec<NormalizedTickRow<P>>,
    event: MdDriverEvent<P>,
)
    ensures
        raw_ticks_of()(MdDriverEvent::Tick(raw)) == Some(seq![raw]),
        raw_ticks_of()(MdDriverEvent::Ticks(raw_ticks)) == Some(raw_ticks@),
        raw_ticks_of()(event) is Some <==> event is Tick || event is Ticks,
        rows_of()(MdDriverEvent::Rows(rows)) == Some(rows@),
        rows_of()(event) is Some <==> event is Rows,
{
}

/// What events one after the other carry is what each of them carries, in their order.
pub proof fn law_items_are_carried_in_order<E, T>(
    payload: spec_fn(E) -> Option<Seq<T>>,
    events1: Seq<E>,
    events2: Seq<E>,
    event: E,
)
    ensures
        carried(payload, events1 + events2) == carried(payload, events1) + carried(payload, events2),
        carried(payload, seq![event]) == match payload(event) {
            Some(items) => items,
            None => Seq::empty(),
        },
    decreases events2.len(),
{
    assert(seq![event].drop_last() =~= Seq::empty());
    assert(carried(payload, Seq::<E>::empty()) =~= Seq::<T>::empty());
    assert(carried(payload, seq![event]) =~= match payload(event) {
        Some(items) => items,
        None => Seq::empty(),
    });
    if events2.len() == 0 {
        assert(events1 + events2 =~= events1);
        assert(carried(payload, events1) + carried(payload, events2) =~= carried(payload, events1));
    } else {
        law_items_are_carried_in_order(payload, events1, events2.drop_last(), event);
        assert((events1 + events2).drop_last() =~= events1 + events2.drop_last());
        assert(carried(payload, events1 + events2) =~= carried(payload, events1) + carried(
            payload,
            events2,
        ));
    }
}

/// What looks found one after the other is what each of them found, in their order.
pub proof fn law_looks_find_in_order<E>(looks1: Seq<Polled<E>>, looks2: Seq<Polled<E>>, event: E)
    ensures
        found(looks1 + looks2) == found(looks1) + found(looks2),
        found(seq![Polled::Item(event)]) == seq![event],
        found(seq![Polled::<E>::Empty]) == Seq::<E>::empty(),
        found(seq![Polled::<E>::Disconnected]) == Seq::<E>::empty(),
    decreases looks2.len(),
{
    assert(seq![Polled::Item(event)].drop_last() =~= Seq::empty());
    assert(seq![Polled::<E>::Empty].drop_last() =~= Seq::empty());
    assert(seq![Polled::<E>::Disconnected].drop_last() =~= Seq::empty());
    assert(found(Seq::<Polled<E>>::empty()) == Seq::<E>::empty());
    assert(found(seq![Polled::Item(event)]) =~= seq![event]);
    if looks2.len() == 0 {
        assert(looks1 + looks2 =~= looks1);
        assert(found(looks1) + found(looks2) =~= found(looks1));
    } else {
        law_looks_find_in_order(looks1, looks2.drop_last(), event);
        assert((looks1 + looks2).drop_last() =~= looks1 + looks2.drop_last());
        assert(found(looks1 + looks2) =~= found(looks1) + found(looks2));
    }
}

/// Gathering goes on as long as there is room and something to take: it ends with a full batch of 32,768,
/// with an event that has to wait, or with a channel that holds nothing. An event of another kind waits,
/// and nothing is looked for behind it.
pub proof fn law_gathering_ends_for_a_reason<E, T>(
    payload: spec_fn(E) -> Option<Seq<T>>,
    first: Seq<T>,
    looks: Seq<Polled<E>>,
    batch: Seq<T>,
    left: Option<E>,
)
    requires
        is_gathered(payload, first, looks, batch, left),
    ensures
        batch.len() <= 32_768,
        left is None && batch.len() < 32_768 && looks.len() < u64::MAX ==> looks.len() > 0 && !(
        looks.last() is Item),
        left matches Some(event) ==> (payload(event) is None ==> looks.len() > 0 && found(looks).len()
            > 0 && found(looks).last() == event && batch.len() < 32_768),
        left matches Some(event) ==> (payload(event) matches Some(rest) ==> rest.len() > 0
            && batch.len() == 32_768),
        left is None ==> batch == first + carried(payload, found(looks)),
        first.len() >= 32_768 ==> looks.len() == 0,
        first.len() <= 32_768 ==> first.is_prefix_of(batch),
        first.len() > 32_768 ==> batch == first.take(32_768),
{
    if left is Some && payload(left->0) is Some {
        let rest = payload(left->0)->0;
        let all = first + carried(payload, found(looks));
        assert(batch + rest == all);
        if first.len() <= 32_768 {
            assert(first =~= batch.take(first.len() as int)) by {
                assert forall|i: int| 0 <= i < first.len() implies first[i] == batch[i] by {
                    assert((batch + rest)[i] == all[i]);
                }
            }
        } else {
            assert(found(looks) =~= Seq::empty());
            assert(carried(payload, found(looks)) =~= Seq::<T>::empty());
            assert(all =~= first);
            assert(batch =~= first.take(32_768)) by {
                assert forall|i: int| 0 <= i < batch.len() implies batch[i] == first[i] by {
                    assert((batch + rest)[i] == first[i]);
                }
            }
        }
    }
}

/// Ticks are sorted out one by one: of ticks one after the other those stay that have a timestamp, in
/// their order.
pub proof fn law_good_ticks_stay_in_order<P>(
    ticks1: Seq<RawTickSnapshot<P>>,
    ticks2: Seq<RawTickSnapshot<P>>,
    raw: RawTickSnapshot<P>,
)
    ensures
        well_formed_ticks(ticks1 + ticks2) == well_formed_ticks(ticks1) + well_formed_ticks(ticks2),
        raw.timestamp() is Ok ==> well_formed_ticks(seq![raw]) == seq![raw],
        raw.timestamp() is Err ==> well_formed_ticks(seq![raw]) == Seq::<
            RawTickSnapshot<P>,
        >::empty(),
    decreases ticks2.len(),
{
    reveal(Seq::filter);
    assert(seq![raw].drop_last() =~= Seq::empty());
    assert(well_formed_ticks(Seq::<RawTickSnapshot<P>>::empty()) =~= Seq::empty());
    if raw.timestamp() is Ok {
        assert(well_formed_ticks(seq![raw]) =~= seq![raw]);
    }
    if ticks2.len() == 0 {
        assert(ticks1 + ticks2 =~= ticks1);
        assert(well_formed_ticks(ticks1) + well_formed_ticks(ticks2) =~= well_formed_ticks(ticks1));
    } else {
        law_good_ticks_stay_in_order(ticks1, ticks2.drop_last(), raw);
        assert((ticks1 + ticks2).drop_last() =~= ticks1 + ticks2.drop_last());
        assert(well_formed_ticks(ticks1 + ticks2) =~= well_formed_ticks(ticks1) + well_formed_ticks(
            ticks2,
        ));
    }
}

/// The rows of a batch are those of its good ticks, one for each and in their order; each carries its
/// tick, field by field, and the one local time of the batch.
pub proof fn law_rows_carry_their_ticks<P>(
    rows: Seq<NormalizedTickRow<P>>,
    raw_ticks: Seq<RawTickSnapshot<P>>,
    now_ns: i64,
    i: int,
)
    requires
        are_rows_of(rows, raw_ticks, now_ns),
        0 <= i < rows.len(),
    ensures
        rows.len() == well_formed_ticks(raw_ticks).len(),
        ({
            let tick = well_formed_ticks(raw_ticks)[i];
            let row = rows[i];
            &&& row.localtime_ns == now_ns
            &&& row.source_emit_ns == now_ns
            &&& row.instrument_id@ == crate::text::trimmed(tick.instrument_id@)
            &&& crate::normalize::is_text_kept(tick.exchange_id@, row.exchange_id)
            &&& crate::normalize::is_text_kept(tick.trading_day@, row.trading_day)
            &&& crate::normalize::is_text_kept(tick.action_day@, row.action_day)
            &&& crate::normalize::exchange_timestamp(
                crate::text::trimmed(tick.action_day@),
                crate::text::trimmed(tick.update_time@),
                tick.update_millisec as int,
            ) == Ok::<int, crate::normalize::NormalizeError>(row.dt_ns as int)
            &&& row.last_price == Some(tick.last_price)
            &&& row.volume == Some(tick.volume)
            &&& row.turnover == Some(tick.turnover)
            &&& row.open_interest == Some(tick.open_interest)
            &&& row.bid_price_1 == Some(tick.bid_price_1)
            &&& row.bid_volume_1 == Some(tick.bid_volume_1)
            &&& row.ask_price_1 == Some(tick.ask_price_1)
            &&& row.ask_volume_1 == Some(tick.ask_volume_1)
        }),
{
    assert(rows[i].is_row_of(well_formed_ticks(raw_ticks)[i], now_ns, now_ns));
}

/// Stamping sets the two local times of every row and nothing else.
pub proof fn law_stamping_sets_the_local_times<P>(
    rows: Vec<NormalizedTickRow<P>>,
    now_ns: i64,
    stamped: Vec<NormalizedTickRow<P>>,
    i: int,
)
    requires
        call_ensures(stamp_rows::<P>, (rows, now_ns), stamped),
        0 <= i < rows@.len(),
    ensures
        stamped@.len() == rows@.len(),
        stamped@[i].localtime_ns == now_ns,
        stamped@[i].source_emit_ns == now_ns,
        stamped@[i] == (NormalizedTickRow {
            localtime_ns: stamped@[i].localtime_ns,
            source_emit_ns: stamped@[i].source_emit_ns,
            ..rows@[i]
        }),
{
}

/// Rows that are prepared are all stamped with one reading of the clock; without rows the clock is not
/// asked.
pub proof fn law_prepared_rows_are_stamped<P>(
    rows: Vec<NormalizedTickRow<P>>,
    r: Result<Vec<NormalizedTickRow<P>>, RuntimeError>,
    i: int,
    j: int,
)
    requires
        call_ensures(prepare_row_batch::<P>, (rows,), r),
        0 <= i < rows@.len(),
        0 <= j < rows@.len(),
    ensures
        r matches Ok(stamped) ==> {
            &&& stamped@.len() == rows@.len()
            &&& stamped@[i].localtime_ns == stamped@[j].source_emit_ns
            &&& may_be_sampled(Ok(stamped@[i].localtime_ns))
            &&& stamped@[i].instrument_id == rows@[i].instrument_id
            &&& stamped@[i].dt_ns == rows@[i].dt_ns
            &&& stamped@[i].last_price == rows@[i].last_price
            &&& stamped@[i].volume == rows@[i].volume
            &&& stamped@[i].bid_price_1 == rows@[i].bid_price_1
            &&& stamped@[i].ask_price_1 == rows@[i].ask_price_1
        },
{
}

/// An event that fits is taken into the batch behind what is there; what finds no room, and an event of
/// another kind, is handed back.
pub proof fn law_event_is_taken_in_or_handed_back<P>(
    raw_ticks: &mut Vec<RawTickSnapshot<P>>,
    event: MdDriverEvent<P>,
    left: Option<MdDriverEvent<P>>,
)
    requires
        old(raw_ticks)@.len() < MAX_TICKS_PER_EMIT,
        call_ensures(absorb_ticks::<P>, (raw_ticks, event), left),
    ensures
        event matches MdDriverEvent::Tick(raw) ==> left is None && final(raw_ticks)@ == old(
            raw_ticks,
        )@.push(raw),
        event matches MdDriverEvent::Ticks(more) ==> (old(raw_ticks)@.len() + more@.len() <= 32_768
            ==> left is None && final(raw_ticks)@ == old(raw_ticks)@ + more@),
        event matches MdDriverEvent::Ticks(more) ==> (old(raw_ticks)@.len() + more@.len() > 32_768
            ==> final(raw_ticks)@.len() == 32_768 && left is Some && (raw_ticks_of::<P>()(
            left->0,
        ) matches Some(rest) && final(raw_ticks)@ + rest == old(raw_ticks)@ + more@)),
        !(event is Tick) && !(event is Ticks) ==> left == Some(event) && final(raw_ticks)@ == old(
            raw_ticks,
        )@,
{
    let before = old(raw_ticks)@;
    let after = final(raw_ticks)@;
    let received = seq![event];
    law_items_are_carried_in_order(raw_ticks_of::<P>(), received, received, event);
    assert(received.drop_last() =~= Seq::empty());
    assert(carried(raw_ticks_of::<P>(), received.drop_last()) =~= Seq::empty());
    assert(before + Seq::<RawTickSnapshot<P>>::empty() =~= before);
    if let MdDriverEvent::Tick(raw) = event {
        assert(before + seq![raw] =~= before.push(raw));
    }
    if left is Some && raw_ticks_of::<P>()(left->0) is Some {
        let rest = raw_ticks_of::<P>()(left->0)->0;
        assert((after + rest).len() == after.len() + rest.len());
    }
    if left is Some && raw_ticks_of::<P>()(left->0) is None {
        assert(received.last() == event);
        assert(raw_ticks_of::<P>()(event) is None);
    }
    if left is None {
        assert(all_carry(raw_ticks_of::<P>(), received));
        assert(raw_ticks_of::<P>()(received[0]) is Some);
    }
}

/// Raw ticks are prepared as the rows of the good ones, all at one reading of the clock, and the others
/// are counted.
pub proof fn law_prepared_ticks_are_rows<P: Copy>(
    raw_ticks: Vec<RawTickSnapshot<P>>,
    metrics: &mut OpenCtpSourceMetrics,
    r: Result<Vec<NormalizedTickRow<P>>, RuntimeError>,
)
    requires
        old(metrics).normalize_failures_total + raw_ticks@.len() <= u64::MAX,
        call_ensures(prepare_tick_batch::<P>, (raw_ticks, metrics), r),
    ensures
        r matches Ok(rows) ==> {
            &&& rows@.len() == well_formed_ticks(raw_ticks@).len()
            &&& final(metrics).normalize_failures_total == old(metrics).normalize_failures_total
                + raw_ticks@.len() - rows@.len()
            &&& exists|now_ns: i64|
                {
                    &&& #[trigger] are_rows_of(rows@, raw_ticks@, now_ns)
                    &&& rows@.len() > 0 ==> may_be_sampled(Ok(now_ns))
                }
        },
        raw_ticks@.len() == 0 ==> r is Ok,
        final(metrics).ticks_received_total == old(metrics).ticks_received_total,
        final(metrics).ticks_emitted_total == old(metrics).ticks_emitted_total,
        final(metrics).batches_emitted_total == old(metrics).batches_emitted_total,
        final(metrics).subscribe_failures_total == old(metrics).subscribe_failures_total,
{
}

/// A batch that is collected begins with what was there first, holds 32,768 ticks at most, and loses
/// nothing: it and what has to wait behind it are what was there first and what the looks found.
pub proof fn law_collected_ticks_lose_nothing<P>(
    raw_ticks: Vec<RawTickSnapshot<P>>,
    inbox: &mut Inbox<MdDriverEvent<P>>,
    pending_event: &mut Option<MdDriverEvent<P>>,
    batch: Vec<RawTickSnapshot<P>>,
)
    requires
        *old(pending_event) is None,
        call_ensures(collect_tick_batches::<P>, (raw_ticks, inbox, pending_event), batch),
    ensures
        batch@.len() <= 32_768,
        exists|looks: Seq<Polled<MdDriverEvent<P>>>|
            {
                &&& final(inbox)@ == #[trigger] (old(inbox)@ + looks)
                &&& raw_ticks@ + carried(raw_ticks_of(), found(looks)) == batch@ + (
                match *final(pending_event) {
                    Some(event) => match raw_ticks_of::<P>()(event) {
                        Some(rest) => rest,
                        None => Seq::empty(),
                    },
                    None => Seq::empty(),
                })
            },
{
    let looks = choose|looks: Seq<Polled<MdDriverEvent<P>>>|
        {
            &&& #[trigger] is_gathered(
                raw_ticks_of(),
                raw_ticks@,
                looks,
                batch@,
                *final(pending_event),
            )
            &&& final(inbox)@ == old(inbox)@ + looks
        };
    law_batch_loses_nothing(
        raw_ticks_of(),
        raw_ticks@,
        found(looks),
        batch@,
        *final(pending_event),
    );
    assert(final(inbox)@ == old(inbox)@ + looks);
}

/// So is a batch of rows.
pub proof fn law_collected_rows_lose_nothing<P>(
    rows: Vec<NormalizedTickRow<P>>,
    inbox: &mut Inbox<MdDriverEvent<P>>,
    pending_event: &mut Option<MdDriverEvent<P>>,
    batch: Vec<NormalizedTickRow<P>>,
)
    requires
        *old(pending_event) is None,
        call_ensures(collect_normalized_row_batches::<P>, (rows, inbox, pending_event), batch),
    ensures
        batch@.len() <= 32_768,
        exists|looks: Seq<Polled<MdDriverEvent<P>>>|
            {
                &&& final(inbox)@ == #[trigger] (old(inbox)@ + looks)
                &&& rows@ + carried(rows_of(), found(looks)) == batch@ + (
                match *final(pending_event) {
                    Some(event) => match rows_of::<P>()(event) {
                        Some(rest) => rest,
                        None => Seq::empty(),
                    },
                    None => Seq::empty(),
                })
            },
{
    let looks = choose|looks: Seq<Polled<MdDriverEvent<P>>>|
        {
            &&& #[trigger] is_gathered(rows_of(), rows@, looks, batch@, *final(pending_event))
            &&& final(inbox)@ == old(inbox)@ + looks
        };
    law_batch_loses_nothing(rows_of(), rows@, found(looks), batch@, *final(pending_event));
    assert(final(inbox)@ == old(inbox)@ + looks);
}

/// A batch at a given time holds the rows of the good ticks, and counts the others.
pub proof fn law_normalized_batch_counts_the_others<P: Copy>(
    raw_ticks: &Vec<RawTickSnapshot<P>>,
    now_ns: i64,
    metrics: &mut OpenCtpSourceMetrics,
    rows: Vec<NormalizedTickRow<P>>,
)
    requires
        old(metrics).normalize_failures_total + raw_ticks@.len() <= u64::MAX,
        call_ensures(normalize_batch::<P>, (raw_ticks, now_ns, metrics), rows),
    ensures
        rows@.len() == well_formed_ticks(raw_ticks@).len(),
        are_rows_of(rows@, raw_ticks@, now_ns),
        final(metrics).normalize_failures_total + rows@.len() == old(metrics).normalize_failures_total
            + raw_ticks@.len(),
        final(metrics).ticks_received_total == old(metrics).ticks_received_total,
{
}

} // verus!
