//! What is written to the segments of the tick stream, and the account that is kept of it.
use crate::normalize::NormalizedTickRow;
use crate::text::{same, text_option};
use vstd::prelude::*;

verus! {

/// Rows of a segment of a source.
pub const SOURCE_SEGMENT_ROW_CAPACITY: usize = 32_768;

/// Rows of a segment in tests.
pub const TEST_SEGMENT_ROW_CAPACITY: usize = 64;

/// The last row that was written, and how many there are.
#[derive(Debug, Clone, PartialEq)]
pub struct OpenCtpActiveSegmentSnapshot<P> {
    pub committed_row_count: usize,
    pub dt_ns: Option<i64>,
    pub localtime_ns: Option<i64>,
    pub source_emit_ns: Option<i64>,
    pub instrument_id: Option<String>,
    pub last_price: Option<P>,
}

/// A snapshot with its text as contents.
#[verifier::ext_equal]
pub struct SnapshotView<P> {
    pub committed_row_count: int,
    pub dt_ns: Option<i64>,
    pub localtime_ns: Option<i64>,
    pub source_emit_ns: Option<i64>,
    pub instrument_id: Option<Seq<char>>,
    pub last_price: Option<P>,
}

impl<P> View for OpenCtpActiveSegmentSnapshot<P> {
    type V = SnapshotView<P>;

    open spec fn view(&self) -> SnapshotView<P> {
        SnapshotView {
            committed_row_count: self.committed_row_count as int,
            dt_ns: self.dt_ns,
            localtime_ns: self.localtime_ns,
            source_emit_ns: self.source_emit_ns,
            instrument_id: text_option(self.instrument_id),
            last_price: self.last_price,
        }
    }
}

impl<P> SnapshotView<P> {
    /// The snapshot before the first row.
    pub open spec fn empty() -> Self {
        SnapshotView {
            committed_row_count: 0,
            dt_ns: None,
            localtime_ns: None,
            source_emit_ns: None,
            instrument_id: None,
            last_price: None,
        }
    }

    /// The snapshot after `row`, as the last of `committed` rows.
    pub open spec fn of_row(row: NormalizedTickRow<P>, committed: int) -> Self {
        SnapshotView {
            committed_row_count: committed,
            dt_ns: Some(row.dt_ns),
            localtime_ns: Some(row.localtime_ns),
            source_emit_ns: Some(row.source_emit_ns),
            instrument_id: Some(row.instrument_id@),
            last_price: row.last_price,
        }
    }

    /// The snapshot after a row of a batch of columns, as the last of `committed` rows.
    pub open spec fn of_column_row(
        batch: OpenCtpColumnarTickBatch<P>,
        row: int,
        committed: int,
    ) -> Self {
        SnapshotView {
            committed_row_count: committed,
            dt_ns: Some(batch.dt_ns@[row]),
            localtime_ns: Some(batch.localtime_ns@[row]),
            source_emit_ns: Some(batch.source_emit_ns@[row]),
            instrument_id: Some(batch.instrument_ids@[row]@),
            last_price: Some(batch.last_price@[row]),
        }
    }
}

impl<P: Copy> OpenCtpActiveSegmentSnapshot<P> {
    /// The snapshot before the first row.
    pub fn empty() -> (snapshot: Self)
        ensures
            snapshot@ == SnapshotView::<P>::empty(),
    {
        OpenCtpActiveSegmentSnapshot {
            committed_row_count: 0,
            dt_ns: None,
            localtime_ns: None,
            source_emit_ns: None,
            instrument_id: None,
            last_price: None,
        }
    }

    /// The snapshot after `row`.
    pub fn from_row(row: &NormalizedTickRow<P>, committed_row_count: usize) -> (snapshot: Self)
        ensures
            snapshot@ == SnapshotView::of_row(*row, committed_row_count as int),
    {
        OpenCtpActiveSegmentSnapshot {
            committed_row_count,
            dt_ns: Some(row.dt_ns),
            localtime_ns: Some(row.localtime_ns),
            source_emit_ns: Some(row.source_emit_ns),
            instrument_id: Some(row.instrument_id.clone()),
            last_price: row.last_price,
        }
    }

    /// The snapshot after a row of a batch of columns.
    pub fn from_columnar_batch(
        batch: &OpenCtpColumnarTickBatch<P>,
        row: usize,
        committed_row_count: usize,
    ) -> (snapshot: Self)
        requires
            batch.has_equal_lengths(),
            row < batch.row_count(),
        ensures
            snapshot@ == SnapshotView::of_column_row(*batch, row as int, committed_row_count as int),
    {
        OpenCtpActiveSegmentSnapshot {
            committed_row_count,
            dt_ns: Some(batch.dt_ns[row]),
            localtime_ns: Some(batch.localtime_ns[row]),
            source_emit_ns: Some(batch.source_emit_ns[row]),
            instrument_id: Some(batch.instrument_ids[row].to_owned()),
            last_price: Some(batch.last_price[row]),
        }
    }

    /// The same snapshot once more.
    pub fn duplicate(&self) -> (snapshot: Self)
        ensures
            snapshot@ == self@,
    {
        OpenCtpActiveSegmentSnapshot {
            committed_row_count: self.committed_row_count,
            dt_ns: self.dt_ns,
            localtime_ns: self.localtime_ns,
            source_emit_ns: self.source_emit_ns,
            instrument_id: match &self.instrument_id {
                Some(text) => Some(text.clone()),
                None => None,
            },
            last_price: self.last_price,
        }
    }
}

/// What the segments hold, for debugging.
#[derive(Debug, Clone, PartialEq)]
pub struct OpenCtpSegmentDebugMetrics<P> {
    pub committed_rows: usize,
    pub active_snapshot: Option<OpenCtpActiveSegmentSnapshot<P>>,
}

/// Rows as columns. Exchange and days are the same in every row.
#[derive(Debug, Clone, PartialEq)]
pub struct OpenCtpColumnarTickBatch<'a, P> {
    pub exchange_id: &'a str,
    pub trading_day: &'a str,
    pub action_day: &'a str,
    pub instrument_ids: Vec<&'a str>,
    pub dt_ns: Vec<i64>,
    pub localtime_ns: Vec<i64>,
    pub source_emit_ns: Vec<i64>,
    pub last_price: Vec<P>,
    pub volume: Vec<i64>,
    pub turnover: Vec<P>,
    pub open_interest: Vec<P>,
    pub bid_price_1: Vec<P>,
    pub bid_volume_1: Vec<i64>,
    pub ask_price_1: Vec<P>,
    pub ask_volume_1: Vec<i64>,
}

impl<'a, P> OpenCtpColumnarTickBatch<'a, P> {
    /// How many rows the batch has: as many as it has instruments.
    pub open spec fn row_count(self) -> nat {
        self.instrument_ids@.len()
    }

    /// Whether every column has a value for every row.
    pub open spec fn has_equal_lengths(self) -> bool {
        &&& self.dt_ns@.len() == self.row_count()
        &&& self.localtime_ns@.len() == self.row_count()
        &&& self.source_emit_ns@.len() == self.row_count()
        &&& self.last_price@.len() == self.row_count()
        &&& self.volume@.len() == self.row_count()
        &&& self.turnover@.len() == self.row_count()
        &&& self.open_interest@.len() == self.row_count()
        &&& self.bid_price_1@.len() == self.row_count()
        &&& self.bid_volume_1@.len() == self.row_count()
        &&& self.ask_price_1@.len() == self.row_count()
        &&& self.ask_volume_1@.len() == self.row_count()
    }

    pub fn len(&self) -> (rows: usize)
        ensures
            rows == self.row_count(),
    {
        self.instrument_ids.len()
    }

    pub fn is_empty(&self) -> (empty: bool)
        ensures
            empty == (self.row_count() == 0),
    {
        self.len() == 0
    }

    /// An error unless every column has a value for every row.
    pub fn validate_lengths(&self) -> (r: Result<(), &'static str>)
        ensures
            r is Ok <==> self.has_equal_lengths(),
            r matches Err(reason) ==> reason@ == "columnar tick batch length mismatch"@,
    {
        let rows: usize = self.len();
        if self.dt_ns.len() == rows && self.localtime_ns.len() == rows && self.source_emit_ns.len()
            == rows && self.last_price.len() == rows && self.volume.len() == rows
            && self.turnover.len() == rows && self.open_interest.len() == rows
            && self.bid_price_1.len() == rows && self.bid_volume_1.len() == rows
            && self.ask_price_1.len() == rows && self.ask_volume_1.len() == rows {
            return Ok(());
        }
        Err("columnar tick batch length mismatch")
    }
}

/// Why the segment store failed.
#[derive(Debug, Clone, Copy, PartialEq, Eq)]
pub enum SegmentStoreError {
    Schema(&'static str),
    Layout(&'static str),
    Writer(&'static str),
    Lifecycle(&'static str),
    Io,
    Shmem,
    Arrow,
}

impl SegmentStoreError {
    /// The reason of the failure.
    pub open spec fn reason(self) -> Seq<char> {
        match self {
            SegmentStoreError::Schema(reason) => reason@,
            SegmentStoreError::Layout(reason) => reason@,
            SegmentStoreError::Writer(reason) => reason@,
            SegmentStoreError::Lifecycle(reason) => reason@,
            SegmentStoreError::Io => "segment store io error"@,
            SegmentStoreError::Shmem => "segment store shared memory error"@,
            SegmentStoreError::Arrow => "segment store arrow error"@,
        }
    }

    /// Whether the active segment has no room left.
    pub open spec fn is_full(self) -> bool {
        self is Writer && self.reason() == "segment is full"@
    }

    fn segment_is_full(&self) -> (full: bool)
        ensures
            full == self.is_full(),
    {
        match self {
            SegmentStoreError::Writer(reason) => same(reason, "segment is full"),
            _ => false,
        }
    }
}

/// The reason of a failure of the segment store.
pub fn map_segment_store_error(error: SegmentStoreError) -> (reason: &'static str)
    ensures
        reason@ == error.reason(),
{
    match error {
        SegmentStoreError::Schema(reason) => reason,
        SegmentStoreError::Layout(reason) => reason,
        SegmentStoreError::Writer(reason) => reason,
        SegmentStoreError::Lifecycle(reason) => reason,
        SegmentStoreError::Io => "segment store io error",
        SegmentStoreError::Shmem => "segment store shared memory error",
        SegmentStoreError::Arrow => "segment store arrow error",
    }
}

/// The account of what went into the segments.
#[derive(Debug, Clone)]
pub struct OpenCtpSegmentIngress<P> {
    row_capacity: usize,
    retired_segments: Vec<(u64, u64)>,
    committed_rows: usize,
    active_snapshot: OpenCtpActiveSegmentSnapshot<P>,
}

/// What an account says.
#[verifier::ext_equal]
pub struct IngressView<P> {
    pub row_capacity: int,
    /// Segments that were rolled over and not let go of, each by its id and its generation.
    pub retired: Seq<(u64, u64)>,
    pub committed: int,
    pub snapshot: SnapshotView<P>,
}

impl<P> View for OpenCtpSegmentIngress<P> {
    type V = IngressView<P>;

    closed spec fn view(&self) -> IngressView<P> {
        IngressView {
            row_capacity: self.row_capacity as int,
            retired: self.retired_segments@,
            committed: self.committed_rows as int,
            snapshot: self.active_snapshot@,
        }
    }
}

/// What the owner of the segments has to do next about a write.
pub enum WriteStep {
    /// Write the rows from `offset` on, as many as find room.
    Write { offset: usize },
    /// Roll the active segment over.
    Rollover,
    /// The write is over: whether the descriptor is another one, or why it failed.
    Finish(Result<bool, &'static str>),
}

/// How a step of a write went.
pub enum WriteReply {
    /// So many rows were written.
    Written(usize),
    /// The segment that was active is rolled over.
    RolledOver { retired: (u64, u64) },
    /// The step failed.
    Failed(SegmentStoreError),
}

/// How far a write has come.
#[derive(Debug, Clone, Copy, PartialEq, Eq, Structural)]
pub struct WriteProgress {
    pub offset: usize,
    pub descriptor_changed: bool,
    /// Whether the last step was to roll over.
    pub rolling: bool,
}

impl WriteProgress {
    /// Whether `reply` answers the last step of a write of `rows` rows.
    pub open spec fn takes(self, rows: nat, reply: WriteReply) -> bool {
        &&& self.offset < rows
        &&& match reply {
            WriteReply::Written(written) => !self.rolling && self.offset + written <= rows,
            WriteReply::RolledOver { .. } => self.rolling,
            WriteReply::Failed(_) => true,
        }
    }
}

/// Whether a write goes on with `step` after `reply`. What is written is counted, the snapshot is
/// that of the last row written, and a segment that has no room left is rolled over.
pub open spec fn write_goes_on<P>(
    before: IngressView<P>,
    progress: WriteProgress,
    rows: nat,
    snapshots: spec_fn(int, int) -> SnapshotView<P>,
    no_progress: Seq<char>,
    reply: WriteReply,
    after: IngressView<P>,
    next: WriteProgress,
    step: WriteStep,
) -> bool {
    match reply {
        WriteReply::Written(written) => if written == 0 {
            &&& step matches WriteStep::Finish(Err(reason)) && reason@ == no_progress
            &&& after == before
            &&& next == progress
        } else {
            let offset = progress.offset + written;
            &&& next == (WriteProgress { offset: offset as usize, ..progress })
            &&& after == (IngressView {
                committed: before.committed + written,
                snapshot: snapshots(offset - 1, before.committed + written),
                ..before
            })
            &&& step == if offset == rows {
                WriteStep::Finish(Ok(progress.descriptor_changed))
            } else {
                WriteStep::Write { offset: offset as usize }
            }
        },
        WriteReply::RolledOver { retired } => {
            &&& next == (WriteProgress { descriptor_changed: true, rolling: false, ..progress })
            &&& after == (IngressView { retired: before.retired.push(retired), ..before })
            &&& step == (WriteStep::Write { offset: progress.offset })
        },
        WriteReply::Failed(error) => {
            &&& after == before
            &&& if error.is_full() && !progress.rolling {
                &&& step is Rollover
                &&& next == (WriteProgress { rolling: true, ..progress })
            } else {
                &&& step matches WriteStep::Finish(Err(reason)) && reason@ == error.reason()
                &&& next == progress
            }
        },
    }
}

/// The snapshot after each of the rows.
pub open spec fn row_snapshots<P>(rows: Seq<NormalizedTickRow<P>>) -> spec_fn(int, int) -> SnapshotView<
    P,
> {
    |row: int, committed: int| SnapshotView::of_row(rows[row], committed)
}

/// The snapshot after each of the rows of a batch of columns.
pub open spec fn column_snapshots<P>(batch: OpenCtpColumnarTickBatch<P>) -> spec_fn(
    int,
    int,
) -> SnapshotView<P> {
    |row: int, committed: int| SnapshotView::of_column_row(batch, row, committed)
}

/// The first step of a write of `rows` rows: a write of nothing is over at once.
pub fn begin_write(rows: usize) -> (r: (WriteProgress, WriteStep))
    ensures
        r.0 == (WriteProgress { offset: 0, descriptor_changed: false, rolling: false }),
        r.1 == if rows == 0 {
            WriteStep::Finish(Ok(false))
        } else {
            WriteStep::Write { offset: 0 }
        },
{
    let progress: WriteProgress = WriteProgress {
        offset: 0,
        descriptor_changed: false,
        rolling: false,
    };
    if rows == 0 {
        (progress, WriteStep::Finish(Ok(false)))
    } else {
        (progress, WriteStep::Write { offset: 0 })
    }
}

/// The first step of a write of a batch of columns: an empty batch is over at once, and one whose
/// columns are not of one length is refused.
pub fn begin_columnar_write<P>(batch: &OpenCtpColumnarTickBatch<P>) -> (r: (
    WriteProgress,
    WriteStep,
))
    ensures
        r.0 == (WriteProgress { offset: 0, descriptor_changed: false, rolling: false }),
        if batch.row_count() == 0 {
            r.1 == WriteStep::Finish(Ok(false))
        } else if !batch.has_equal_lengths() {
            r.1 matches WriteStep::Finish(Err(reason)) && reason@
                == "columnar tick batch length mismatch"@
        } else {
            r.1 == (WriteStep::Write { offset: 0 })
        },
{
    let (progress, step): (WriteProgress, WriteStep) = begin_write(batch.len());
    if batch.is_empty() {
        return (progress, step);
    }
    match batch.validate_lengths() {
        Ok(_) => (progress, step),
        Err(reason) => (progress, WriteStep::Finish(Err(reason))),
    }
}

impl<P: Copy> OpenCtpSegmentIngress<P> {
    /// An account for segments of the given capacity, with nothing written.
    pub fn with_row_capacity(row_capacity: usize) -> (ingress: Self)
        ensures
            ingress@ == (IngressView::<P> {
                row_capacity: row_capacity as int,
                retired: Seq::empty(),
                committed: 0,
                snapshot: SnapshotView::empty(),
            }),
    {
        OpenCtpSegmentIngress {
            row_capacity,
            retired_segments: Vec::new(),
            committed_rows: 0,
            active_snapshot: OpenCtpActiveSegmentSnapshot::empty(),
        }
    }

    /// An account for the segments of a source.
    pub fn new_for_source() -> (ingress: Self)
        ensures
            ingress@ == (IngressView::<P> {
                row_capacity: SOURCE_SEGMENT_ROW_CAPACITY as int,
                retired: Seq::empty(),
                committed: 0,
                snapshot: SnapshotView::empty(),
            }),
    {
        Self::with_row_capacity(SOURCE_SEGMENT_ROW_CAPACITY)
    }

    /// An account for the segments of a test.
    pub fn for_test() -> (ingress: Self)
        ensures
            ingress@ == (IngressView::<P> {
                row_capacity: TEST_SEGMENT_ROW_CAPACITY as int,
                retired: Seq::empty(),
                committed: 0,
                snapshot: SnapshotView::empty(),
            }),
    {
        Self::with_row_capacity(TEST_SEGMENT_ROW_CAPACITY)
    }

    pub fn row_capacity(&self) -> (rows: usize)
        ensures
            rows == self@.row_capacity,
    {
        self.row_capacity
    }

    pub fn committed_rows(&self) -> (rows: usize)
        ensures
            rows == self@.committed,
    {
        self.committed_rows
    }

    /// The segments that were rolled over and not let go of.
    pub fn retired_segments(&self) -> (retired: &[(u64, u64)])
        ensures
            retired@ == self@.retired,
    {
        self.retired_segments.as_slice()
    }

    pub fn retired_segment_count_for_test(&self) -> (count: usize)
        ensures
            count == self@.retired.len(),
    {
        self.retired_segments.len()
    }

    /// The last row that was written, and how many there are.
    pub fn active_snapshot(&self) -> (r: Result<OpenCtpActiveSegmentSnapshot<P>, &'static str>)
        ensures
            r matches Ok(snapshot) && snapshot@ == self@.snapshot,
    {
        Ok(self.active_snapshot.duplicate())
    }

    /// What the segments hold, for debugging.
    pub fn debug_metrics(&self) -> (r: Result<OpenCtpSegmentDebugMetrics<P>, &'static str>)
        ensures
            r matches Ok(metrics) && metrics.committed_rows == self@.committed && (
            metrics.active_snapshot matches Some(snapshot) && snapshot@ == self@.snapshot),
    {
        match self.active_snapshot() {
            Ok(snapshot) => Ok(
                OpenCtpSegmentDebugMetrics {
                    committed_rows: self.committed_rows,
                    active_snapshot: Some(snapshot),
                },
            ),
            Err(reason) => Err(reason),
        }
    }

    /// Takes in how a step of a write of `rows` went; the snapshot is left to the caller.
    fn advance_write(
        &mut self,
        progress: WriteProgress,
        rows: usize,
        no_progress: &'static str,
        reply: WriteReply,
    ) -> (r: (WriteProgress, WriteStep))
        requires
            progress.takes(rows as nat, reply),
            reply matches WriteReply::Written(written) ==> old(self)@.committed + written
                <= usize::MAX,
        ensures
            write_goes_on(
                old(self)@,
                progress,
                rows as nat,
                (|row: int, committed: int| old(self)@.snapshot),
                no_progress@,
                reply,
                final(self)@,
                r.0,
                r.1,
            ),
    {
        match reply {
            WriteReply::Written(written) => {
                if written == 0 {
                    return (progress, WriteStep::Finish(Err(no_progress)));
                }
                self.committed_rows = self.committed_rows + written;
                let offset: usize = progress.offset + written;
                let next: WriteProgress = WriteProgress { offset, ..progress };
                if offset == rows {
                    (next, WriteStep::Finish(Ok(progress.descriptor_changed)))
                } else {
                    (next, WriteStep::Write { offset })
                }
            },
            WriteReply::RolledOver { retired } => {
                self.retired_segments.push(retired);
                (
                    WriteProgress { descriptor_changed: true, rolling: false, ..progress },
                    WriteStep::Write { offset: progress.offset },
                )
            },
            WriteReply::Failed(error) => {
                if !progress.rolling && error.segment_is_full() {
                    (WriteProgress { rolling: true, ..progress }, WriteStep::Rollover)
                } else {
                    (progress, WriteStep::Finish(Err(map_segment_store_error(error))))
                }
            },
        }
    }

    /// Takes in how a step of a write of rows went, and names the next step.
    pub fn write_rows(
        &mut self,
        rows: &[NormalizedTickRow<P>],
        progress: WriteProgress,
        reply: WriteReply,
    ) -> (r: (WriteProgress, WriteStep))
        requires
            progress.takes(rows@.len(), reply),
            reply matches WriteReply::Written(written) ==> old(self)@.committed + written
                <= usize::MAX,
        ensures
            write_goes_on(
                old(self)@,
                progress,
                rows@.len(),
                row_snapshots(rows@),
                "segment batch write made no progress"@,
                reply,
                final(self)@,
                r.0,
                r.1,
            ),
    {
        let wrote: bool = matches!(reply, WriteReply::Written(_));
        let (next, step): (WriteProgress, WriteStep) = self.advance_write(
            progress,
            rows.len(),
            "segment batch write made no progress",
            reply,
        );
        if wrote && next.offset > progress.offset {
            self.active_snapshot = OpenCtpActiveSegmentSnapshot::from_row(
                &rows[next.offset - 1],
                self.committed_rows,
            );
        }
        (next, step)
    }

    /// Takes in how a step of a write of a batch of columns went, and names the next step.
    pub fn write_columnar_batch(
        &mut self,
        batch: &OpenCtpColumnarTickBatch<P>,
        progress: WriteProgress,
        reply: WriteReply,
    ) -> (r: (WriteProgress, WriteStep))
        requires
            batch.has_equal_lengths(),
            progress.takes(batch.row_count(), reply),
            reply matches WriteReply::Written(written) ==> old(self)@.committed + written
                <= usize::MAX,
        ensures
            write_goes_on(
                old(self)@,
                progress,
                batch.row_count(),
                column_snapshots(*batch),
                "segment columnar write made no progress"@,
                reply,
                final(self)@,
                r.0,
                r.1,
            ),
    {
        let wrote: bool = matches!(reply, WriteReply::Written(_));
        let (next, step): (WriteProgress, WriteStep) = self.advance_write(
            progress,
            batch.len(),
            "segment columnar write made no progress",
            reply,
        );
        if wrote && next.offset > progress.offset {
            self.active_snapshot = OpenCtpActiveSegmentSnapshot::from_columnar_batch(
                batch,
                next.offset - 1,
                self.committed_rows,
            );
        }
        (next, step)
    }

    /// Takes in how a step of a write of one row went, and names the next step. A segment that has
    /// no room left is rolled over once.
    pub fn write_row(
        &mut self,
        row: &NormalizedTickRow<P>,
        progress: WriteProgress,
        reply: WriteReply,
    ) -> (r: (WriteProgress, WriteStep))
        requires
            progress.takes(1, reply),
            reply matches WriteReply::Written(written) ==> written == 1 && old(self)@.committed
                < usize::MAX,
        ensures
            if progress.descriptor_changed && reply is Failed {
                &&& r.0 == progress
                &&& r.1 matches WriteStep::Finish(Err(reason)) && reason@
                    == reply->Failed_0.reason()
                &&& final(self)@ == old(self)@
            } else {
                write_goes_on(
                    old(self)@,
                    progress,
                    1,
                    row_snapshots(seq![*row]),
                    Seq::empty(),
                    reply,
                    final(self)@,
                    r.0,
                    r.1,
                )
            },
    {
        if progress.descriptor_changed {
            match reply {
                WriteReply::Failed(error) => {
                    return (progress, WriteStep::Finish(Err(map_segment_store_error(error))));
                },
                _ => {},
            }
        }
        let wrote: bool = matches!(reply, WriteReply::Written(_));
        let (next, step): (WriteProgress, WriteStep) = self.advance_write(progress, 1, "", reply);
        if wrote {
            self.active_snapshot = OpenCtpActiveSegmentSnapshot::from_row(row, self.committed_rows);
        }
        (next, step)
    }

    /// Strikes out the retired segments that the store has let go of, and counts them.
    pub fn release_retired_segments(&mut self, removed: &[bool]) -> (released: usize)
        requires
            removed@.len() == old(self)@.retired.len(),
        ensures
            final(self)@ == (IngressView {
                retired: kept(old(self)@.retired, removed@),
                ..old(self)@
            }),
            released == old(self)@.retired.len() - final(self)@.retired.len(),
    {
        let ghost all = self.retired_segments@;
        let mut still_retired: Vec<(u64, u64)> = Vec::new();
        let mut released: usize = 0;
        let mut i: usize = 0;
        assert(kept(all.take(0), removed@.take(0)) =~= Seq::empty());
        while i < self.retired_segments.len()
            invariant
                i <= self.retired_segments.len(),
                all == self.retired_segments@,
                removed@.len() == all.len(),
                still_retired@ == kept(all.take(i as int), removed@.take(i as int)),
                released + still_retired.len() == i,
            decreases self.retired_segments.len() - i,
        {
            proof {
                assert(all.take(i + 1).drop_last() =~= all.take(i as int));
                assert(removed@.take(i + 1).drop_last() =~= removed@.take(i as int));
            }
            if removed[i] {
                released = released + 1;
            } else {
                still_retired.push(self.retired_segments[i]);
            }
            i = i + 1;
        }
        assert(all.take(i as int) =~= all);
        assert(removed@.take(i as int) =~= removed@);
        self.retired_segments = still_retired;
        released
    }
}

/// The segments that are not marked as removed, in their order.
pub open spec fn kept(segments: Seq<(u64, u64)>, removed: Seq<bool>) -> Seq<(u64, u64)>
    decreases segments.len(),
{
    if segments.len() == 0 {
        Seq::empty()
    } else if removed.last() {
        kept(segments.drop_last(), removed.drop_last())
    } else {
        kept(segments.drop_last(), removed.drop_last()).push(segments.last())
    }
}

/// Whether readers need the descriptor again: where a segment was rolled over, or another one is
/// active than before.
pub fn descriptor_changed(rolled_over: bool, before: (u64, u64), after: (u64, u64)) -> (changed: bool)
    ensures
        changed == (rolled_over || before != after),
{
    rolled_over || before.0 != after.0 || before.1 != after.1
}

/// Where an account stands in the midst of a write that began with `start`: `rolled` are the
/// segments that the write has rolled over.
pub open spec fn is_amid_write<P>(
    start: IngressView<P>,
    rolled: Seq<(u64, u64)>,
    snapshots: spec_fn(int, int) -> SnapshotView<P>,
    now: IngressView<P>,
    progress: WriteProgress,
) -> bool {
    &&& now.row_capacity == start.row_capacity
    &&& now.committed == start.committed + progress.offset
    &&& now.retired == start.retired + rolled
    &&& now.snapshot == if progress.offset == 0 {
        start.snapshot
    } else {
        snapshots(progress.offset - 1, now.committed)
    }
    &&& progress.descriptor_changed <==> rolled.len() > 0
}

/// A write keeps account at every step: rows written so far are counted, the snapshot is that of the
/// last of them, every segment rolled over is retired, and the descriptor is reported as changed if
/// and only if there was one. A write that ends well has written every row.
pub proof fn law_write_keeps_account<P>(
    start: IngressView<P>,
    rolled: Seq<(u64, u64)>,
    snapshots: spec_fn(int, int) -> SnapshotView<P>,
    before: IngressView<P>,
    progress: WriteProgress,
    rows: nat,
    no_progress: Seq<char>,
    reply: WriteReply,
    after: IngressView<P>,
    next: WriteProgress,
    step: WriteStep,
)
    requires
        rows <= usize::MAX,
        is_amid_write(start, rolled, snapshots, before, progress),
        progress.takes(rows, reply),
        write_goes_on(
            before,
            progress,
            rows,
            snapshots,
            no_progress,
            reply,
            after,
            next,
            step,
        ),
    ensures
        match reply {
            WriteReply::RolledOver { retired } => is_amid_write(
                start,
                rolled.push(retired),
                snapshots,
                after,
                next,
            ),
            _ => is_amid_write(start, rolled, snapshots, after, next),
        },
        step matches WriteStep::Finish(Ok(changed)) ==> {
            &&& next.offset == rows
            &&& after.committed == start.committed + rows
            &&& changed == (rolled.len() > 0)
        },
{
    match reply {
        WriteReply::RolledOver { retired } => {
            assert(after.retired =~= start.retired + rolled.push(retired));
        },
        _ => {},
    }
}

/// A write from its first step to its last: the accounts and the progress before, between and after
/// the steps, how the steps went, and what followed each of them.
pub struct WriteTrace<P> {
    pub accounts: Seq<IngressView<P>>,
    pub progress: Seq<WriteProgress>,
    pub replies: Seq<WriteReply>,
    pub steps: Seq<WriteStep>,
}

impl<P> WriteTrace<P> {
    /// Whether this is a write of `rows` rows that ended well.
    pub open spec fn ends_well(
        self,
        rows: nat,
        snapshots: spec_fn(int, int) -> SnapshotView<P>,
        no_progress: Seq<char>,
    ) -> bool {
        &&& self.replies.len() > 0
        &&& self.steps.len() == self.replies.len()
        &&& self.accounts.len() == self.replies.len() + 1
        &&& self.progress.len() == self.replies.len() + 1
        &&& self.progress[0] == (WriteProgress {
            offset: 0,
            descriptor_changed: false,
            rolling: false,
        })
        &&& forall|i: int|
            0 <= i < self.replies.len() ==> #[trigger] self.goes_on_at(
                rows,
                snapshots,
                no_progress,
                i,
            )
        &&& self.steps.last() matches WriteStep::Finish(Ok(_))
    }

    /// Whether the write goes on over the given step.
    pub open spec fn goes_on_at(
        self,
        rows: nat,
        snapshots: spec_fn(int, int) -> SnapshotView<P>,
        no_progress: Seq<char>,
        i: int,
    ) -> bool {
        &&& self.progress[i].takes(rows, self.replies[i])
        &&& write_goes_on(
            self.accounts[i],
            self.progress[i],
            rows,
            snapshots,
            no_progress,
            self.replies[i],
            self.accounts[i + 1],
            self.progress[i + 1],
            self.steps[i],
        )
    }
}

/// The segments that were rolled over.
pub open spec fn rolled_over(replies: Seq<WriteReply>) -> Seq<(u64, u64)>
    decreases replies.len(),
{
    if replies.len() == 0 {
        Seq::empty()
    } else {
        let earlier = rolled_over(replies.drop_last());
        match replies.last() {
            WriteReply::RolledOver { retired } => earlier.push(retired),
            _ => earlier,
        }
    }
}

/// What the store took in the first `n` steps of a write, in order.
pub open spec fn stored<P, T>(trace: WriteTrace<P>, items: Seq<T>, n: int) -> Seq<T>
    decreases n,
{
    if n <= 0 {
        Seq::empty()
    } else {
        let earlier = stored(trace, items, n - 1);
        match trace.replies[n - 1] {
            WriteReply::Written(written) => {
                let offset = trace.progress[n - 1].offset as int;
                earlier + items.subrange(offset, offset + written)
            },
            _ => earlier,
        }
    }
}

proof fn lemma_stored<P, T>(
    trace: WriteTrace<P>,
    items: Seq<T>,
    snapshots: spec_fn(int, int) -> SnapshotView<P>,
    no_progress: Seq<char>,
    i: int,
)
    requires
        items.len() <= usize::MAX,
        trace.ends_well(items.len(), snapshots, no_progress),
        0 <= i <= trace.replies.len(),
    ensures
        trace.progress[i].offset <= items.len(),
        stored(trace, items, i) == items.take(trace.progress[i].offset as int),
    decreases i,
{
    if i == 0 {
        assert(items.take(0) =~= Seq::empty());
    } else {
        lemma_stored(trace, items, snapshots, no_progress, i - 1);
        assert(trace.goes_on_at(items.len(), snapshots, no_progress, i - 1));
        match trace.replies[i - 1] {
            WriteReply::Written(written) => {
                let offset = trace.progress[i - 1].offset as int;
                assert(items.take(offset) + items.subrange(offset, offset + written)
                    =~= items.take(offset + written));
            },
            _ => {},
        }
    }
}

/// A write that ends well has handed every row to the store once, in order.
pub proof fn law_whole_write_stores_every_row<P, T>(
    trace: WriteTrace<P>,
    items: Seq<T>,
    snapshots: spec_fn(int, int) -> SnapshotView<P>,
    no_progress: Seq<char>,
)
    requires
        0 < items.len() <= usize::MAX,
        trace.ends_well(items.len(), snapshots, no_progress),
    ensures
        stored(trace, items, trace.replies.len() as int) == items,
{
    let n = trace.replies.len() as int;
    lemma_stored(trace, items, snapshots, no_progress, n);
    lemma_amid_trace(trace, items.len(), snapshots, no_progress, n);
    assert(items.take(items.len() as int) =~= items);
}

proof fn lemma_amid_trace<P>(
    trace: WriteTrace<P>,
    rows: nat,
    snapshots: spec_fn(int, int) -> SnapshotView<P>,
    no_progress: Seq<char>,
    i: int,
)
    requires
        rows <= usize::MAX,
        trace.ends_well(rows, snapshots, no_progress),
        0 <= i <= trace.replies.len(),
    ensures
        is_amid_write(
            trace.accounts[0],
            rolled_over(trace.replies.take(i)),
            snapshots,
            trace.accounts[i],
            trace.progress[i],
        ),
        i > 0 ==> (trace.steps[i - 1] matches WriteStep::Finish(Ok(changed)) ==> {
            &&& trace.progress[i].offset == rows
            &&& changed == (rolled_over(trace.replies.take(i)).len() > 0)
        }),
    decreases i,
{
    let start = trace.accounts[0];
    if i == 0 {
        assert(trace.replies.take(0) =~= Seq::empty());
        assert(start.retired + Seq::<(u64, u64)>::empty() =~= start.retired);
    } else {
        lemma_amid_trace(trace, rows, snapshots, no_progress, i - 1);
        let earlier = trace.replies.take(i - 1);
        let reply = trace.replies[i - 1];
        assert(trace.replies.take(i).drop_last() =~= earlier);
        assert(trace.goes_on_at(rows, snapshots, no_progress, i - 1));
        law_write_keeps_account(
            start,
            rolled_over(earlier),
            snapshots,
            trace.accounts[i - 1],
            trace.progress[i - 1],
            rows,
            no_progress,
            reply,
            trace.accounts[i],
            trace.progress[i],
            trace.steps[i - 1],
        );
    }
}

/// A write that ends well has counted every row, shows the last one, and has retired every segment
/// that it rolled over; it reports another descriptor if and only if there was one.
pub proof fn law_whole_write_keeps_account<P>(
    trace: WriteTrace<P>,
    rows: nat,
    snapshots: spec_fn(int, int) -> SnapshotView<P>,
    no_progress: Seq<char>,
)
    requires
        0 < rows <= usize::MAX,
        trace.ends_well(rows, snapshots, no_progress),
    ensures
        trace.accounts.last() == (IngressView {
            row_capacity: trace.accounts[0].row_capacity,
            retired: trace.accounts[0].retired + rolled_over(trace.replies),
            committed: trace.accounts[0].committed + rows,
            snapshot: snapshots(rows - 1, trace.accounts[0].committed + rows),
        }),
        trace.steps.last() == WriteStep::Finish(Ok(rolled_over(trace.replies).len() > 0)),
{
    let n = trace.replies.len() as int;
    lemma_amid_trace(trace, rows, snapshots, no_progress, n);
    assert(trace.replies.take(n) =~= trace.replies);
}

/// The segments that were rolled over by writes one after the other.
pub open spec fn rolled_over_by<P>(writes: Seq<WriteTrace<P>>) -> Seq<(u64, u64)>
    decreases writes.len(),
{
    if writes.len() == 0 {
        Seq::empty()
    } else {
        rolled_over_by(writes.drop_last()) + rolled_over(writes.last().replies)
    }
}

/// What the store took in writes of one row each, in order.
pub open spec fn stored_one_by_one<P>(
    rows: Seq<NormalizedTickRow<P>>,
    writes: Seq<WriteTrace<P>>,
) -> Seq<NormalizedTickRow<P>>
    decreases writes.len(),
{
    if writes.len() == 0 {
        Seq::empty()
    } else {
        stored_one_by_one(rows, writes.drop_last()) + stored(
            writes.last(),
            seq![rows[writes.len() - 1]],
            writes.last().replies.len() as int,
        )
    }
}

proof fn lemma_stored_one_by_one<P>(
    start: IngressView<P>,
    rows: Seq<NormalizedTickRow<P>>,
    writes: Seq<WriteTrace<P>>,
    n: int,
)
    requires
        written_one_by_one(start, rows, writes),
        0 <= n <= rows.len(),
    ensures
        stored_one_by_one(rows, writes.take(n)) == rows.take(n),
    decreases n,
{
    if n == 0 {
        assert(rows.take(0) =~= Seq::empty());
    } else {
        let row = seq![rows[n - 1]];
        lemma_stored_one_by_one(start, rows, writes, n - 1);
        assert(writes.take(n).drop_last() =~= writes.take(n - 1));
        assert(writes[n - 1].ends_well(1, row_snapshots(row), Seq::empty()));
        law_whole_write_stores_every_row(writes[n - 1], row, row_snapshots(row), Seq::empty());
        assert(rows.take(n - 1) + row =~= rows.take(n));
    }
}

/// Whether the rows are written one by one, each write ending well and going on from where the one
/// before left the account.
pub open spec fn written_one_by_one<P>(
    start: IngressView<P>,
    rows: Seq<NormalizedTickRow<P>>,
    writes: Seq<WriteTrace<P>>,
) -> bool {
    &&& writes.len() == rows.len()
    &&& forall|k: int|
        0 <= k < writes.len() ==> (#[trigger] writes[k]).ends_well(
            1,
            row_snapshots(seq![rows[k]]),
            Seq::empty(),
        )
    &&& forall|k: int|
        0 <= k < writes.len() ==> (#[trigger] writes[k]).accounts[0] == if k == 0 {
            start
        } else {
            writes[k - 1].accounts.last()
        }
}

#[verifier::rlimit(40)]
proof fn lemma_one_by_one<P>(
    start: IngressView<P>,
    rows: Seq<NormalizedTickRow<P>>,
    writes: Seq<WriteTrace<P>>,
)
    requires
        rows.len() > 0,
        written_one_by_one(start, rows, writes),
    ensures
        writes.last().accounts.last() == (IngressView {
            row_capacity: start.row_capacity,
            retired: start.retired + rolled_over_by(writes),
            committed: start.committed + rows.len(),
            snapshot: SnapshotView::of_row(rows.last(), start.committed + rows.len()),
        }),
    decreases rows.len(),
{
    let n = rows.len() - 1;
    let last = writes[n];
    law_whole_write_keeps_account(last, 1, row_snapshots(seq![rows[n]]), Seq::empty());
    if n > 0 {
        let fewer = writes.drop_last();
        assert forall|k: int| 0 <= k < fewer.len() implies (#[trigger] fewer[k]).ends_well(
            1,
            row_snapshots(seq![rows.drop_last()[k]]),
            Seq::empty(),
        ) by {
            assert(fewer[k] == writes[k]);
        }
        assert forall|k: int| 0 <= k < fewer.len() implies (#[trigger] fewer[k]).accounts[0] == if k
            == 0 {
            start
        } else {
            fewer[k - 1].accounts.last()
        } by {
            assert(fewer[k] == writes[k]);
        }
        lemma_one_by_one(start, rows.drop_last(), fewer);
        assert(start.retired + rolled_over_by(fewer) + rolled_over(last.replies) =~= start.retired
            + rolled_over_by(writes));
    } else {
        assert(rolled_over_by(writes.drop_last()) =~= Seq::empty());
        assert(start.retired + rolled_over(last.replies) =~= start.retired + rolled_over_by(writes));
    }
}

/// Rows written at once leave the same behind as the same rows written one by one: the store took the
/// same rows in the same order, as many rows are counted, the snapshot is the same, and where the store
/// rolled over the same segments, so are the retired ones.
#[verifier::spinoff_prover]
#[verifier::rlimit(40)]
pub proof fn law_rows_at_once_or_one_by_one<P>(
    rows: Seq<NormalizedTickRow<P>>,
    no_progress: Seq<char>,
    at_once: WriteTrace<P>,
    writes: Seq<WriteTrace<P>>,
)
    requires
        0 < rows.len() <= usize::MAX,
        at_once.ends_well(rows.len(), row_snapshots(rows), no_progress),
        written_one_by_one(at_once.accounts[0], rows, writes),
    ensures
        stored_one_by_one(rows, writes) == stored(at_once, rows, at_once.replies.len() as int),
        stored_one_by_one(rows, writes) == rows,
        writes.last().accounts.last().committed == at_once.accounts.last().committed,
        writes.last().accounts.last().snapshot == at_once.accounts.last().snapshot,
        writes.last().accounts.last().row_capacity == at_once.accounts.last().row_capacity,
        rolled_over_by(writes) == rolled_over(at_once.replies) ==> writes.last().accounts.last()
            == at_once.accounts.last(),
{
    let start = at_once.accounts[0];
    assert(stored_one_by_one(rows, writes) == rows) by {
        lemma_stored_one_by_one(start, rows, writes, rows.len() as int);
        assert(writes.take(rows.len() as int) =~= writes);
        assert(rows.take(rows.len() as int) =~= rows);
    }
    assert(stored(at_once, rows, at_once.replies.len() as int) == rows) by {
        law_whole_write_stores_every_row(at_once, rows, row_snapshots(rows), no_progress);
    }
    let end = IngressView {
        row_capacity: start.row_capacity,
        retired: start.retired + rolled_over(at_once.replies),
        committed: start.committed + rows.len(),
        snapshot: SnapshotView::of_row(rows.last(), start.committed + rows.len()),
    };
    assert(at_once.accounts.last() == end) by {
        law_whole_write_keeps_account(at_once, rows.len(), row_snapshots(rows), no_progress);
    }
    assert(writes.last().accounts.last() == (IngressView {
        retired: start.retired + rolled_over_by(writes),
        ..end
    })) by {
        lemma_one_by_one(start, rows, writes);
    }
}

/// A value of a cell.
pub enum CellValue<'a, P> {
    Text(&'a str),
    Integer(i64),
    Price(P),
}

/// A value and the column that it goes to.
pub struct Cell<'a, P> {
    pub column: &'static str,
    pub value: CellValue<'a, P>,
}

/// A value of a cell, a text as its contents.
pub enum CellView<P> {
    Text(Seq<char>),
    Integer(i64),
    Price(P),
}

impl<'a, P> View for Cell<'a, P> {
    type V = (Seq<char>, CellView<P>);

    open spec fn view(&self) -> (Seq<char>, CellView<P>) {
        (
            self.column@,
            match self.value {
                CellValue::Text(text) => CellView::Text(text@),
                CellValue::Integer(number) => CellView::Integer(number),
                CellValue::Price(price) => CellView::Price(price),
            },
        )
    }
}

/// The cell of a column, if it has a value.
pub open spec fn cell_if<P>(column: Seq<char>, value: Option<CellView<P>>) -> Seq<
    (Seq<char>, CellView<P>),
> {
    match value {
        Some(value) => seq![(column, value)],
        None => Seq::empty(),
    }
}

/// A text as the value of a cell.
pub open spec fn text_cell<P>(text: Option<String>) -> Option<CellView<P>> {
    match text {
        Some(text) => Some(CellView::Text(text@)),
        None => None,
    }
}

/// A number as the value of a cell.
pub open spec fn integer_cell<P>(number: Option<i64>) -> Option<CellView<P>> {
    match number {
        Some(number) => Some(CellView::Integer(number)),
        None => None,
    }
}

/// A price as the value of a cell.
pub open spec fn price_cell<P>(price: Option<P>) -> Option<CellView<P>> {
    match price {
        Some(price) => Some(CellView::Price(price)),
        None => None,
    }
}

/// The cells that a row fills, in the order of the columns. A column without a value has no cell.
pub open spec fn cells_of<P>(row: NormalizedTickRow<P>) -> Seq<(Seq<char>, CellView<P>)> {
    seq![("instrument_id"@, CellView::Text(row.instrument_id@))] + cell_if(
        "exchange_id"@,
        text_cell(row.exchange_id),
    ) + cell_if("trading_day"@, text_cell(row.trading_day)) + cell_if(
        "action_day"@,
        text_cell(row.action_day),
    ) + seq![
        ("dt"@, CellView::Integer(row.dt_ns)),
        ("localtime_ns"@, CellView::Integer(row.localtime_ns)),
        ("source_emit_ns"@, CellView::Integer(row.source_emit_ns)),
    ] + cell_if("last_price"@, price_cell(row.last_price)) + cell_if(
        "volume"@,
        integer_cell(row.volume),
    ) + cell_if("turnover"@, price_cell(row.turnover)) + cell_if(
        "open_interest"@,
        price_cell(row.open_interest),
    ) + cell_if("bid_price_1"@, price_cell(row.bid_price_1)) + cell_if(
        "bid_volume_1"@,
        integer_cell(row.bid_volume_1),
    ) + cell_if("ask_price_1"@, price_cell(row.ask_price_1)) + cell_if(
        "ask_volume_1"@,
        integer_cell(row.ask_volume_1),
    )
}

/// The contents of a list of cells.
pub open spec fn cell_views<P>(cells: Seq<Cell<P>>) -> Seq<(Seq<char>, CellView<P>)> {
    cells.map_values(|cell: Cell<P>| cell@)
}

fn push_cell<'a, P>(cells: &mut Vec<Cell<'a, P>>, column: &'static str, value: CellValue<'a, P>)
    ensures
        cell_views(final(cells)@) == cell_views(old(cells)@) + seq![(Cell { column, value })@],
{
    let ghost before = cells@;
    cells.push(Cell { column, value });
    assert(cell_views(cells@) =~= cell_views(before) + seq![(Cell { column, value })@]);
}

fn push_text<'a, P>(
    cells: &mut Vec<Cell<'a, P>>,
    column: &'static str,
    text: &'a Option<String>,
)
    ensures
        cell_views(final(cells)@) == cell_views(old(cells)@) + cell_if(column@, text_cell(*text)),
{
    match text {
        Some(text) => push_cell(cells, column, CellValue::Text(text.as_str())),
        None => {
            assert(cell_views(cells@) + Seq::<(Seq<char>, CellView<P>)>::empty() =~= cell_views(
                cells@,
            ));
        },
    }
}

fn push_integer<'a, P>(cells: &mut Vec<Cell<'a, P>>, column: &'static str, number: Option<i64>)
    ensures
        cell_views(final(cells)@) == cell_views(old(cells)@) + cell_if(
            column@,
            integer_cell(number),
        ),
{
    match number {
        Some(number) => push_cell(cells, column, CellValue::Integer(number)),
        None => {
            assert(cell_views(cells@) + Seq::<(Seq<char>, CellView<P>)>::empty() =~= cell_views(
                cells@,
            ));
        },
    }
}

fn push_price<'a, P: Copy>(cells: &mut Vec<Cell<'a, P>>, column: &'static str, price: Option<P>)
    ensures
        cell_views(final(cells)@) == cell_views(old(cells)@) + cell_if(column@, price_cell(price)),
{
    match price {
        Some(price) => push_cell(cells, column, CellValue::Price(price)),
        None => {
            assert(cell_views(cells@) + Seq::<(Seq<char>, CellView<P>)>::empty() =~= cell_views(
                cells@,
            ));
        },
    }
}

/// The cells that a row fills, in the order of the columns.
pub fn row_cells<'a, P: Copy>(row: &'a NormalizedTickRow<P>) -> (cells: Vec<Cell<'a, P>>)
    ensures
        cell_views(cells@) == cells_of(*row),
{
    let mut cells: Vec<Cell<'a, P>> = Vec::new();
    assert(cell_views(cells@) =~= Seq::empty());
    push_cell(&mut cells, "instrument_id", CellValue::Text(row.instrument_id.as_str()));
    assert(cell_views(cells@) =~= seq![("instrument_id"@, CellView::Text(row.instrument_id@))]);
    push_text(&mut cells, "exchange_id", &row.exchange_id);
    push_text(&mut cells, "trading_day", &row.trading_day);
    push_text(&mut cells, "action_day", &row.action_day);
    let ghost head = cell_views(cells@);
    push_cell(&mut cells, "dt", CellValue::Integer(row.dt_ns));
    push_cell(&mut cells, "localtime_ns", CellValue::Integer(row.localtime_ns));
    push_cell(&mut cells, "source_emit_ns", CellValue::Integer(row.source_emit_ns));
    assert(cell_views(cells@) =~= head + seq![
        ("dt"@, CellView::Integer(row.dt_ns)),
        ("localtime_ns"@, CellView::Integer(row.localtime_ns)),
        ("source_emit_ns"@, CellView::Integer(row.source_emit_ns)),
    ]);
    push_price(&mut cells, "last_price", row.last_price);
    push_integer(&mut cells, "volume", row.volume);
    push_price(&mut cells, "turnover", row.turnover);
    push_price(&mut cells, "open_interest", row.open_interest);
    push_price(&mut cells, "bid_price_1", row.bid_price_1);
    push_integer(&mut cells, "bid_volume_1", row.bid_volume_1);
    push_price(&mut cells, "ask_price_1", row.ask_price_1);
    push_integer(&mut cells, "ask_volume_1", row.ask_volume_1);
    cells
}

/// A row in which nothing is missing fills every column of the segment, in the segment's order.
pub proof fn law_full_row_fills_every_column<P>(row: NormalizedTickRow<P>)
    requires
        row.exchange_id is Some,
        row.trading_day is Some,
        row.action_day is Some,
        row.last_price is Some,
        row.volume is Some,
        row.turnover is Some,
        row.open_interest is Some,
        row.bid_price_1 is Some,
        row.bid_volume_1 is Some,
        row.ask_price_1 is Some,
        row.ask_volume_1 is Some,
    ensures
        cells_of(row).len() == crate::schema::segment_columns().len(),
        forall|i: int|
            0 <= i < cells_of(row).len() ==> (#[trigger] cells_of(row)[i]).0
                == crate::schema::segment_columns()[i].0,
{
}

/// The values of a column from one row to another.
pub enum ColumnData<'a, P> {
    Texts(&'a [&'a str]),
    /// One text in every row.
    Repeated(&'a str),
    Integers(&'a [i64]),
    Prices(&'a [P]),
}

/// Values and the column that they go to.
pub struct ColumnSlice<'a, P> {
    pub column: &'static str,
    pub data: ColumnData<'a, P>,
}

/// The values of a column, texts as their contents.
pub enum ColumnDataView<P> {
    Texts(Seq<Seq<char>>),
    Repeated(Seq<char>),
    Integers(Seq<i64>),
    Prices(Seq<P>),
}

impl<'a, P> View for ColumnSlice<'a, P> {
    type V = (Seq<char>, ColumnDataView<P>);

    open spec fn view(&self) -> (Seq<char>, ColumnDataView<P>) {
        (
            self.column@,
            match self.data {
                ColumnData::Texts(texts) => ColumnDataView::Texts(
                    texts@.map_values(|text: &str| text@),
                ),
                ColumnData::Repeated(text) => ColumnDataView::Repeated(text@),
                ColumnData::Integers(numbers) => ColumnDataView::Integers(numbers@),
                ColumnData::Prices(prices) => ColumnDataView::Prices(prices@),
            },
        )
    }
}

/// The columns of a batch, from one row to another, in the order of the segment.
pub open spec fn columns_of<P>(batch: OpenCtpColumnarTickBatch<P>, from: int, to: int) -> Seq<
    (Seq<char>, ColumnDataView<P>),
> {
    seq![
        (
            "instrument_id"@,
            ColumnDataView::Texts(
                batch.instrument_ids@.subrange(from, to).map_values(|text: &str| text@),
            ),
        ),
        ("exchange_id"@, ColumnDataView::Repeated(batch.exchange_id@)),
        ("trading_day"@, ColumnDataView::Repeated(batch.trading_day@)),
        ("action_day"@, ColumnDataView::Repeated(batch.action_day@)),
        ("dt"@, ColumnDataView::Integers(batch.dt_ns@.subrange(from, to))),
        ("localtime_ns"@, ColumnDataView::Integers(batch.localtime_ns@.subrange(from, to))),
        ("source_emit_ns"@, ColumnDataView::Integers(batch.source_emit_ns@.subrange(from, to))),
        ("last_price"@, ColumnDataView::Prices(batch.last_price@.subrange(from, to))),
        ("volume"@, ColumnDataView::Integers(batch.volume@.subrange(from, to))),
        ("turnover"@, ColumnDataView::Prices(batch.turnover@.subrange(from, to))),
        ("open_interest"@, ColumnDataView::Prices(batch.open_interest@.subrange(from, to))),
        ("bid_price_1"@, ColumnDataView::Prices(batch.bid_price_1@.subrange(from, to))),
        ("bid_volume_1"@, ColumnDataView::Integers(batch.bid_volume_1@.subrange(from, to))),
        ("ask_price_1"@, ColumnDataView::Prices(batch.ask_price_1@.subrange(from, to))),
        ("ask_volume_1"@, ColumnDataView::Integers(batch.ask_volume_1@.subrange(from, to))),
    ]
}

fn integers<'a, P>(column: &'static str, values: &'a Vec<i64>, from: usize, to: usize) -> (slice:
    ColumnSlice<'a, P>)
    requires
        from <= to <= values.len(),
    ensures
        slice@ == (
            column@,
            ColumnDataView::<P>::Integers(values@.subrange(from as int, to as int)),
        ),
{
    ColumnSlice {
        column,
        data: ColumnData::Integers(vstd::slice::slice_subrange(values.as_slice(), from, to)),
    }
}

fn prices<'a, P>(column: &'static str, values: &'a Vec<P>, from: usize, to: usize) -> (slice:
    ColumnSlice<'a, P>)
    requires
        from <= to <= values.len(),
    ensures
        slice@ == (
            column@,
            ColumnDataView::<P>::Prices(values@.subrange(from as int, to as int)),
        ),
{
    ColumnSlice {
        column,
        data: ColumnData::Prices(vstd::slice::slice_subrange(values.as_slice(), from, to)),
    }
}

/// The columns of a batch, from one row to another, in the order of the segment.
pub fn column_slices<'a, P>(
    batch: &'a OpenCtpColumnarTickBatch<'a, P>,
    from: usize,
    to: usize,
) -> (slices: Vec<ColumnSlice<'a, P>>)
    requires
        batch.has_equal_lengths(),
        from <= to <= batch.row_count(),
    ensures
        slices@.map_values(|slice: ColumnSlice<'a, P>| slice@) == columns_of(
            *batch,
            from as int,
            to as int,
        ),
{
    let mut slices: Vec<ColumnSlice<'a, P>> = Vec::new();
    slices.push(
        ColumnSlice {
            column: "instrument_id",
            data: ColumnData::Texts(
                vstd::slice::slice_subrange(batch.instrument_ids.as_slice(), from, to),
            ),
        },
    );
    slices.push(
        ColumnSlice { column: "exchange_id", data: ColumnData::Repeated(batch.exchange_id) },
    );
    slices.push(
        ColumnSlice { column: "trading_day", data: ColumnData::Repeated(batch.trading_day) },
    );
    slices.push(ColumnSlice { column: "action_day", data: ColumnData::Repeated(batch.action_day) });
    slices.push(integers("dt", &batch.dt_ns, from, to));
    slices.push(integers("localtime_ns", &batch.localtime_ns, from, to));
    slices.push(integers("source_emit_ns", &batch.source_emit_ns, from, to));
    slices.push(prices("last_price", &batch.last_price, from, to));
    slices.push(integers("volume", &batch.volume, from, to));
    slices.push(prices("turnover", &batch.turnover, from, to));
    slices.push(prices("open_interest", &batch.open_interest, from, to));
    slices.push(prices("bid_price_1", &batch.bid_price_1, from, to));
    slices.push(integers("bid_volume_1", &batch.bid_volume_1, from, to));
    slices.push(prices("ask_price_1", &batch.ask_price_1, from, to));
    slices.push(integers("ask_volume_1", &batch.ask_volume_1, from, to));
    assert(slices@.map_values(|slice: ColumnSlice<'a, P>| slice@) =~= columns_of(
        *batch,
        from as int,
        to as int,
    ));
    slices
}

proof fn lemma_concat_contains<T>(a: Seq<T>, b: Seq<T>, x: T)
    ensures
        (a + b).contains(x) <==> a.contains(x) || b.contains(x),
{
    let whole = a + b;
    if a.contains(x) {
        let i = choose|i: int| 0 <= i < a.len() && a[i] == x;
        assert(whole[i] == x);
    }
    if b.contains(x) {
        let i = choose|i: int| 0 <= i < b.len() && b[i] == x;
        assert(whole[a.len() + i] == x);
    }
    if whole.contains(x) {
        let i = choose|i: int| 0 <= i < whole.len() && whole[i] == x;
        if i < a.len() {
            assert(a[i] == x);
        } else {
            assert(b[i - a.len()] == x);
        }
    }
}

/// Whether a cell holds the value that a row has for the column of its name.
pub open spec fn is_cell_of<P>(row: NormalizedTickRow<P>, cell: (Seq<char>, CellView<P>)) -> bool {
    ||| cell == ("instrument_id"@, CellView::<P>::Text(row.instrument_id@))
    ||| cell.0 == "exchange_id"@ && (cell.1 matches CellView::Text(text) && text_option(row.exchange_id)
        == Some(text))
    ||| cell.0 == "trading_day"@ && (cell.1 matches CellView::Text(text) && text_option(row.trading_day)
        == Some(text))
    ||| cell.0 == "action_day"@ && (cell.1 matches CellView::Text(text) && text_option(row.action_day)
        == Some(text))
    ||| cell == ("dt"@, CellView::<P>::Integer(row.dt_ns))
    ||| cell == ("localtime_ns"@, CellView::<P>::Integer(row.localtime_ns))
    ||| cell == ("source_emit_ns"@, CellView::<P>::Integer(row.source_emit_ns))
    ||| cell.0 == "last_price"@ && (cell.1 matches CellView::Price(price) && row.last_price == Some(
        price,
    ))
    ||| cell.0 == "volume"@ && (cell.1 matches CellView::Integer(number) && row.volume == Some(number))
    ||| cell.0 == "turnover"@ && (cell.1 matches CellView::Price(price) && row.turnover == Some(price))
    ||| cell.0 == "open_interest"@ && (cell.1 matches CellView::Price(price) && row.open_interest
        == Some(price))
    ||| cell.0 == "bid_price_1"@ && (cell.1 matches CellView::Price(price) && row.bid_price_1 == Some(
        price,
    ))
    ||| cell.0 == "bid_volume_1"@ && (cell.1 matches CellView::Integer(number) && row.bid_volume_1
        == Some(number))
    ||| cell.0 == "ask_price_1"@ && (cell.1 matches CellView::Price(price) && row.ask_price_1 == Some(
        price,
    ))
    ||| cell.0 == "ask_volume_1"@ && (cell.1 matches CellView::Integer(number) && row.ask_volume_1
        == Some(number))
}

#[verifier::rlimit(40)]
proof fn lemma_cells_of_row<P>(row: NormalizedTickRow<P>, cell: (Seq<char>, CellView<P>))
    ensures
        cells_of(row).contains(cell) <==> is_cell_of(row, cell),
{
    let part0 = seq![("instrument_id"@, CellView::<P>::Text(row.instrument_id@))];
    let part1 = cell_if("exchange_id"@, text_cell::<P>(row.exchange_id));
    let part2 = cell_if("trading_day"@, text_cell::<P>(row.trading_day));
    let part3 = cell_if("action_day"@, text_cell::<P>(row.action_day));
    let part4 = seq![
        ("dt"@, CellView::<P>::Integer(row.dt_ns)),
        ("localtime_ns"@, CellView::<P>::Integer(row.localtime_ns)),
        ("source_emit_ns"@, CellView::<P>::Integer(row.source_emit_ns)),
    ];
    let part5 = cell_if("last_price"@, price_cell::<P>(row.last_price));
    let part6 = cell_if("volume"@, integer_cell::<P>(row.volume));
    let part7 = cell_if("turnover"@, price_cell::<P>(row.turnover));
    let part8 = cell_if("open_interest"@, price_cell::<P>(row.open_interest));
    let part9 = cell_if("bid_price_1"@, price_cell::<P>(row.bid_price_1));
    let part10 = cell_if("bid_volume_1"@, integer_cell::<P>(row.bid_volume_1));
    let part11 = cell_if("ask_price_1"@, price_cell::<P>(row.ask_price_1));
    let part12 = cell_if("ask_volume_1"@, integer_cell::<P>(row.ask_volume_1));
    assert(cells_of(row) == part0 + part1 + part2 + part3 + part4 + part5 + part6 + part7 + part8 + part9 + part10 + part11 + part12);
    assert(cells_of(row).contains(cell) <==> {
        ||| part0.contains(cell)
        ||| part1.contains(cell)
        ||| part2.contains(cell)
        ||| part3.contains(cell)
        ||| part4.contains(cell)
        ||| part5.contains(cell)
        ||| part6.contains(cell)
        ||| part7.contains(cell)
        ||| part8.contains(cell)
        ||| part9.contains(cell)
        ||| part10.contains(cell)
        ||| part11.contains(cell)
        ||| part12.contains(cell)
    }) by {
        lemma_concat_contains(part0, part1, cell);
        lemma_concat_contains(part0 + part1, part2, cell);
        lemma_concat_contains(part0 + part1 + part2, part3, cell);
        lemma_concat_contains(part0 + part1 + part2 + part3, part4, cell);
        lemma_concat_contains(part0 + part1 + part2 + part3 + part4, part5, cell);
        lemma_concat_contains(part0 + part1 + part2 + part3 + part4 + part5, part6, cell);
        lemma_concat_contains(part0 + part1 + part2 + part3 + part4 + part5 + part6, part7, cell);
        lemma_concat_contains(part0 + part1 + part2 + part3 + part4 + part5 + part6 + part7, part8, cell);
        lemma_concat_contains(part0 + part1 + part2 + part3 + part4 + part5 + part6 + part7 + part8, part9, cell);
        lemma_concat_contains(part0 + part1 + part2 + part3 + part4 + part5 + part6 + part7 + part8 + part9, part10, cell);
        lemma_concat_contains(part0 + part1 + part2 + part3 + part4 + part5 + part6 + part7 + part8 + part9 + part10, part11, cell);
        lemma_concat_contains(part0 + part1 + part2 + part3 + part4 + part5 + part6 + part7 + part8 + part9 + part10 + part11, part12, cell);
    }
    assert(part0.contains(cell) <==> cell == part0[0]) by {
        if cell == part0[0] {
            assert(part0[0] == cell);
        }
    }
    assert(part4.contains(cell) <==> cell == part4[0] || cell == part4[1] || cell == part4[2]) by {
        if cell == part4[0] || cell == part4[1] || cell == part4[2] {
            assert(part4[0] == cell || part4[1] == cell || part4[2] == cell);
        }
    }
    lemma_cell_if("exchange_id"@, text_cell::<P>(row.exchange_id), cell);
    lemma_cell_if("trading_day"@, text_cell::<P>(row.trading_day), cell);
    lemma_cell_if("action_day"@, text_cell::<P>(row.action_day), cell);
    lemma_cell_if("last_price"@, price_cell::<P>(row.last_price), cell);
    lemma_cell_if("volume"@, integer_cell::<P>(row.volume), cell);
    lemma_cell_if("turnover"@, price_cell::<P>(row.turnover), cell);
    lemma_cell_if("open_interest"@, price_cell::<P>(row.open_interest), cell);
    lemma_cell_if("bid_price_1"@, price_cell::<P>(row.bid_price_1), cell);
    lemma_cell_if("bid_volume_1"@, integer_cell::<P>(row.bid_volume_1), cell);
    lemma_cell_if("ask_price_1"@, price_cell::<P>(row.ask_price_1), cell);
    lemma_cell_if("ask_volume_1"@, integer_cell::<P>(row.ask_volume_1), cell);
}

proof fn lemma_cell_if<P>(
    column: Seq<char>,
    value: Option<CellView<P>>,
    cell: (Seq<char>, CellView<P>),
)
    ensures
        cell_if(column, value).contains(cell) <==> cell.0 == column && value == Some(cell.1),
{
    if value is Some {
        let one = seq![(column, value->0)];
        assert(one[0] == (column, value->0));
        if cell.0 == column && value == Some(cell.1) {
            assert(one[0] == cell);
        }
    }
}

/// Every value of a row goes to the column of its own name, a missing value goes nowhere, and nothing
/// else is written.
pub proof fn law_cells_hold_the_values_of_their_row<'a, P: Copy>(
    row: &'a NormalizedTickRow<P>,
    cells: Vec<Cell<'a, P>>,
    cell: (Seq<char>, CellView<P>),
)
    requires
        call_ensures(row_cells::<P>, (row,), cells),
    ensures
        cell_views(cells@).contains(cell) <==> is_cell_of(*row, cell),
{
    lemma_cells_of_row(*row, cell);
}

/// The value that a slice of a column holds for its `k`-th row.
pub open spec fn value_at<P>(data: ColumnDataView<P>, k: int) -> CellView<P> {
    match data {
        ColumnDataView::Texts(texts) => CellView::Text(texts[k]),
        ColumnDataView::Repeated(text) => CellView::Text(text),
        ColumnDataView::Integers(numbers) => CellView::Integer(numbers[k]),
        ColumnDataView::Prices(prices) => CellView::Price(prices[k]),
    }
}

/// Whether a row is the one that a batch of columns holds at the given place.
pub open spec fn is_row_at<P>(
    row: NormalizedTickRow<P>,
    batch: OpenCtpColumnarTickBatch<P>,
    k: int,
) -> bool {
    &&& row.instrument_id@ == batch.instrument_ids@[k]@
    &&& text_option(row.exchange_id) == Some(batch.exchange_id@)
    &&& text_option(row.trading_day) == Some(batch.trading_day@)
    &&& text_option(row.action_day) == Some(batch.action_day@)
    &&& row.dt_ns == batch.dt_ns@[k]
    &&& row.localtime_ns == batch.localtime_ns@[k]
    &&& row.source_emit_ns == batch.source_emit_ns@[k]
    &&& row.last_price == Some(batch.last_price@[k])
    &&& row.volume == Some(batch.volume@[k])
    &&& row.turnover == Some(batch.turnover@[k])
    &&& row.open_interest == Some(batch.open_interest@[k])
    &&& row.bid_price_1 == Some(batch.bid_price_1@[k])
    &&& row.bid_volume_1 == Some(batch.bid_volume_1@[k])
    &&& row.ask_price_1 == Some(batch.ask_price_1@[k])
    &&& row.ask_volume_1 == Some(batch.ask_volume_1@[k])
}

/// Columns and rows agree: for every row of a batch and every column of the segment, the value that the
/// batch puts there is the value that the row made of the batch's values puts there; and it is the value
/// that the batch has under that name.
#[verifier::rlimit(40)]
pub proof fn law_columns_hold_the_values_of_their_rows<'a, P>(
    batch: &'a OpenCtpColumnarTickBatch<'a, P>,
    from: usize,
    to: usize,
    slices: Vec<ColumnSlice<'a, P>>,
    row: NormalizedTickRow<P>,
    k: int,
    i: int,
)
    requires
        batch.has_equal_lengths(),
        from <= to <= batch.row_count(),
        call_ensures(column_slices::<P>, (batch, from, to), slices),
        from <= k < to,
        is_row_at(row, *batch, k),
        0 <= i < slices@.len(),
    ensures
        slices@.len() == 15,
        slices@.len() == cells_of(row).len(),
        slices@[i]@.0 == cells_of(row)[i].0,
        value_at(slices@[i]@.1, k - from) == cells_of(row)[i].1,
        is_cell_of(row, (slices@[i]@.0, value_at(slices@[i]@.1, k - from))),
        slices@[i]@.0 == crate::schema::segment_columns()[i].0,
        !(slices@[i]@.1 is Repeated) ==> column_len(slices@[i]@.1) == to - from,
{
    let views = slices@.map_values(|slice: ColumnSlice<'a, P>| slice@);
    assert(views == columns_of(*batch, from as int, to as int));
    assert(views[i] == slices@[i]@);
    assert(row.exchange_id is Some);
    law_full_row_fills_every_column(row);
    let cells = cells_of(row);
    assert(cells.len() == 15);
    assert(i == 0 || i == 1 || i == 2 || i == 3 || i == 4 || i == 5 || i == 6 || i == 7 || i == 8 || i
        == 9 || i == 10 || i == 11 || i == 12 || i == 13 || i == 14);
}

/// The rows that a slice of a column has values for, where they are not all the same.
pub open spec fn column_len<P>(data: ColumnDataView<P>) -> int {
    match data {
        ColumnDataView::Texts(texts) => texts.len() as int,
        ColumnDataView::Repeated(_) => 0,
        ColumnDataView::Integers(numbers) => numbers.len() as int,
        ColumnDataView::Prices(prices) => prices.len() as int,
    }
}

/// The snapshot shows the last row: its three times, its instrument, its last price and how many rows
/// there are; of a batch of columns as of the same row written by itself.
pub proof fn law_snapshot_shows_its_row<P>(
    row: NormalizedTickRow<P>,
    batch: OpenCtpColumnarTickBatch<P>,
    k: int,
    committed: int,
)
    ensures
        ({
            let shown = SnapshotView::of_row(row, committed);
            &&& shown.committed_row_count == committed
            &&& shown.dt_ns == Some(row.dt_ns)
            &&& shown.localtime_ns == Some(row.localtime_ns)
            &&& shown.source_emit_ns == Some(row.source_emit_ns)
            &&& shown.instrument_id == Some(row.instrument_id@)
            &&& shown.last_price == row.last_price
        }),
        is_row_at(row, batch, k) ==> SnapshotView::of_column_row(batch, k, committed)
            == SnapshotView::of_row(row, committed),
        ({
            let nothing = SnapshotView::<P>::empty();
            &&& nothing.committed_row_count == 0
            &&& nothing.dt_ns is None
            &&& nothing.localtime_ns is None
            &&& nothing.source_emit_ns is None
            &&& nothing.instrument_id is None
            &&& nothing.last_price is None
        }),
{
}

/// A batch of columns is in order if and only if every column has as many values as there are
/// instruments.
pub proof fn law_columns_have_one_length<'a, P>(
    batch: &OpenCtpColumnarTickBatch<'a, P>,
    r: Result<(), &'static str>,
)
    requires
        call_ensures(OpenCtpColumnarTickBatch::<'a, P>::validate_lengths, (batch,), r),
    ensures
        r is Ok <==> {
            let rows = batch.instrument_ids@.len();
            &&& batch.dt_ns@.len() == rows
            &&& batch.localtime_ns@.len() == rows
            &&& batch.source_emit_ns@.len() == rows
            &&& batch.last_price@.len() == rows
            &&& batch.volume@.len() == rows
            &&& batch.turnover@.len() == rows
            &&& batch.open_interest@.len() == rows
            &&& batch.bid_price_1@.len() == rows
            &&& batch.bid_volume_1@.len() == rows
            &&& batch.ask_price_1@.len() == rows
            &&& batch.ask_volume_1@.len() == rows
        },
{
}

/// Of the retired segments those are kept that the store has not let go of, in their order: what is kept
/// of two lists one after the other is what is kept of each.
pub proof fn law_segments_are_kept_one_by_one(
    segments1: Seq<(u64, u64)>,
    removed1: Seq<bool>,
    segments2: Seq<(u64, u64)>,
    removed2: Seq<bool>,
    segment: (u64, u64),
)
    requires
        segments1.len() == removed1.len(),
        segments2.len() == removed2.len(),
    ensures
        kept(segments1 + segments2, removed1 + removed2) == kept(segments1, removed1) + kept(
            segments2,
            removed2,
        ),
        kept(seq![segment], seq![true]) == Seq::<(u64, u64)>::empty(),
        kept(seq![segment], seq![false]) == seq![segment],
    decreases segments2.len(),
{
    assert(seq![segment].drop_last() =~= Seq::<(u64, u64)>::empty());
    assert(seq![true].drop_last() =~= Seq::<bool>::empty());
    assert(seq![false].drop_last() =~= Seq::<bool>::empty());
    assert(kept(Seq::empty(), Seq::empty()) == Seq::<(u64, u64)>::empty());
    assert(kept(seq![segment], seq![false]) =~= seq![segment]);
    if segments2.len() == 0 {
        assert(segments1 + segments2 =~= segments1);
        assert(removed1 + removed2 =~= removed1);
        assert(kept(segments1, removed1) + kept(segments2, removed2) =~= kept(segments1, removed1));
    } else {
        law_segments_are_kept_one_by_one(
            segments1,
            removed1,
            segments2.drop_last(),
            removed2.drop_last(),
            segment,
        );
        assert((segments1 + segments2).drop_last() =~= segments1 + segments2.drop_last());
        assert((removed1 + removed2).drop_last() =~= removed1 + removed2.drop_last());
        assert(kept(segments1 + segments2, removed1 + removed2) =~= kept(segments1, removed1) + kept(
            segments2,
            removed2,
        ));
    }
}

/// What follows a step of a write: written rows are counted and the write goes on behind them, or ends
/// where they are the last; a full segment is rolled over once and the write goes on where it stood; no
/// progress, and any other failure, ends the write and changes nothing.
pub proof fn law_write_takes_its_steps<P>(
    before: IngressView<P>,
    progress: WriteProgress,
    rows: nat,
    snapshots: spec_fn(int, int) -> SnapshotView<P>,
    no_progress: Seq<char>,
    reply: WriteReply,
    after: IngressView<P>,
    next: WriteProgress,
    step: WriteStep,
)
    requires
        rows <= usize::MAX,
        progress.takes(rows, reply),
        write_goes_on(before, progress, rows, snapshots, no_progress, reply, after, next, step),
    ensures
        reply matches WriteReply::Written(written) ==> (written > 0 ==> {
            &&& after.committed == before.committed + written
            &&& after.snapshot == snapshots(progress.offset + written - 1, after.committed)
            &&& after.retired == before.retired
            &&& next.offset == progress.offset + written
            &&& next.descriptor_changed == progress.descriptor_changed
            &&& progress.offset + written == rows ==> step == WriteStep::Finish(
                Ok(progress.descriptor_changed),
            )
            &&& progress.offset + written < rows ==> step == (WriteStep::Write {
                offset: next.offset,
            })
        }),
        reply matches WriteReply::Written(written) ==> (written == 0 ==> after == before
            && step is Finish && step->Finish_0 is Err),
        reply matches WriteReply::RolledOver { retired } ==> {
            &&& after.retired == before.retired.push(retired)
            &&& after.committed == before.committed
            &&& after.snapshot == before.snapshot
            &&& next.offset == progress.offset
            &&& next.descriptor_changed
            &&& step == (WriteStep::Write { offset: progress.offset })
        },
        reply matches WriteReply::Failed(error) ==> {
            &&& after == before
            &&& step is Rollover <==> !progress.rolling && (error matches SegmentStoreError::Writer(
                reason,
            ) && reason@ == "segment is full"@)
            &&& !(step is Rollover) ==> (step matches WriteStep::Finish(Err(reason)) && reason@
                == error.reason())
        },
{
}

/// A failure of the store is told in its own words where it has any.
pub proof fn law_store_failure_keeps_its_reason(error: SegmentStoreError, reason: &'static str)
    requires
        call_ensures(map_segment_store_error, (error,), reason),
    ensures
        error matches SegmentStoreError::Schema(text) ==> reason@ == text@,
        error matches SegmentStoreError::Layout(text) ==> reason@ == text@,
        error matches SegmentStoreError::Writer(text) ==> reason@ == text@,
        error matches SegmentStoreError::Lifecycle(text) ==> reason@ == text@,
        error is Io ==> reason@ == "segment store io error"@,
        error is Shmem ==> reason@ == "segment store shared memory error"@,
        error is Arrow ==> reason@ == "segment store arrow error"@,
{
}

/// A write of rows begins with the first, and one of nothing is over with nothing changed.
pub proof fn law_write_begins_at_the_first_row(rows: usize, r: (WriteProgress, WriteStep))
    requires
        call_ensures(begin_write, (rows,), r),
    ensures
        r.0.offset == 0,
        !r.0.descriptor_changed,
        !r.0.rolling,
        rows == 0 ==> r.1 == WriteStep::Finish(Ok(false)),
        rows > 0 ==> r.1 == (WriteStep::Write { offset: 0 }),
{
}

/// Readers need the descriptor again after a rollover, or where id or generation differ.
pub proof fn law_descriptor_changes_with_the_segment(
    rolled_over: bool,
    before: (u64, u64),
    after: (u64, u64),
    changed: bool,
)
    requires
        call_ensures(descriptor_changed, (rolled_over, before, after), changed),
    ensures
        !changed <==> !rolled_over && before.0 == after.0 && before.1 == after.1,
{
}

/// What an account tells is what it holds.
pub proof fn law_account_tells_what_it_holds<P: Copy>(
    ingress: &OpenCtpSegmentIngress<P>,
    committed: usize,
    snapshot: Result<OpenCtpActiveSegmentSnapshot<P>, &'static str>,
    metrics: Result<OpenCtpSegmentDebugMetrics<P>, &'static str>,
    retired: &[(u64, u64)],
)
    requires
        call_ensures(OpenCtpSegmentIngress::<P>::committed_rows, (ingress,), committed),
        call_ensures(OpenCtpSegmentIngress::<P>::active_snapshot, (ingress,), snapshot),
        call_ensures(OpenCtpSegmentIngress::<P>::debug_metrics, (ingress,), metrics),
        call_ensures(OpenCtpSegmentIngress::<P>::retired_segments, (ingress,), retired),
    ensures
        committed == ingress@.committed,
        snapshot matches Ok(shown) && shown@ == ingress@.snapshot,
        metrics matches Ok(metrics) && metrics.committed_rows == committed && (
        metrics.active_snapshot matches Some(shown) && shown@ == ingress@.snapshot),
        retired@ == ingress@.retired,
{
}

/// Rows that the store took are counted, and the snapshot shows the last of them.
pub proof fn law_written_rows_are_accounted_for<P: Copy>(
    ingress: &mut OpenCtpSegmentIngress<P>,
    rows: &[NormalizedTickRow<P>],
    progress: WriteProgress,
    written: usize,
    r: (WriteProgress, WriteStep),
)
    requires
        progress.takes(rows@.len(), WriteReply::Written(written)),
        old(ingress)@.committed + written <= usize::MAX,
        rows@.len() <= usize::MAX,
        written > 0,
        call_ensures(
            OpenCtpSegmentIngress::<P>::write_rows,
            (ingress, rows, progress, WriteReply::Written(written)),
            r,
        ),
    ensures
        ({
            let last = rows@[progress.offset + written - 1];
            &&& final(ingress)@.committed == old(ingress)@.committed + written
            &&& final(ingress)@.retired == old(ingress)@.retired
            &&& final(ingress)@.row_capacity == old(ingress)@.row_capacity
            &&& final(ingress)@.snapshot.committed_row_count == final(ingress)@.committed
            &&& final(ingress)@.snapshot.instrument_id == Some(last.instrument_id@)
            &&& final(ingress)@.snapshot.dt_ns == Some(last.dt_ns)
            &&& final(ingress)@.snapshot.localtime_ns == Some(last.localtime_ns)
            &&& final(ingress)@.snapshot.source_emit_ns == Some(last.source_emit_ns)
            &&& final(ingress)@.snapshot.last_price == last.last_price
            &&& r.0.offset == progress.offset + written
            &&& r.1 is Finish <==> progress.offset + written == rows@.len()
        }),
{
}

/// So are the rows of a batch of columns.
pub proof fn law_written_columns_are_accounted_for<'a, P: Copy>(
    ingress: &mut OpenCtpSegmentIngress<P>,
    batch: &OpenCtpColumnarTickBatch<'a, P>,
    progress: WriteProgress,
    written: usize,
    r: (WriteProgress, WriteStep),
)
    requires
        batch.has_equal_lengths(),
        progress.takes(batch.row_count(), WriteReply::Written(written)),
        old(ingress)@.committed + written <= usize::MAX,
        batch.row_count() <= usize::MAX,
        written > 0,
        call_ensures(
            OpenCtpSegmentIngress::<P>::write_columnar_batch,
            (ingress, batch, progress, WriteReply::Written(written)),
            r,
        ),
    ensures
        ({
            let last = progress.offset + written - 1;
            &&& final(ingress)@.committed == old(ingress)@.committed + written
            &&& final(ingress)@.retired == old(ingress)@.retired
            &&& final(ingress)@.snapshot.committed_row_count == final(ingress)@.committed
            &&& final(ingress)@.snapshot.instrument_id == Some(batch.instrument_ids@[last]@)
            &&& final(ingress)@.snapshot.dt_ns == Some(batch.dt_ns@[last])
            &&& final(ingress)@.snapshot.localtime_ns == Some(batch.localtime_ns@[last])
            &&& final(ingress)@.snapshot.source_emit_ns == Some(batch.source_emit_ns@[last])
            &&& final(ingress)@.snapshot.last_price == Some(batch.last_price@[last])
            &&& r.0.offset == progress.offset + written
            &&& r.1 is Finish <==> progress.offset + written == batch.row_count()
        }),
{
}

/// A row that finds no room has the segment rolled over once; a second failure ends its write.
pub proof fn law_row_write_rolls_over_once<P: Copy>(
    ingress: &mut OpenCtpSegmentIngress<P>,
    row: &NormalizedTickRow<P>,
    progress: WriteProgress,
    error: SegmentStoreError,
    r: (WriteProgress, WriteStep),
)
    requires
        progress.takes(1, WriteReply::Failed(error)),
        call_ensures(
            OpenCtpSegmentIngress::<P>::write_row,
            (ingress, row, progress, WriteReply::Failed(error)),
            r,
        ),
    ensures
        final(ingress)@ == old(ingress)@,
        r.1 is Rollover <==> !progress.descriptor_changed && !progress.rolling && (
        error matches SegmentStoreError::Writer(reason) && reason@ == "segment is full"@),
        !(r.1 is Rollover) ==> (r.1 matches WriteStep::Finish(Err(reason)) && reason@
            == error.reason()),
{
}

/// Segments that the store let go of are struck out and counted, and the others stay in their order.
pub proof fn law_released_segments_are_struck_out<P: Copy>(
    ingress: &mut OpenCtpSegmentIngress<P>,
    removed: &[bool],
    released: usize,
)
    requires
        removed@.len() == old(ingress)@.retired.len(),
        call_ensures(
            OpenCtpSegmentIngress::<P>::release_retired_segments,
            (ingress, removed),
            released,
        ),
    ensures
        final(ingress)@.retired == kept(old(ingress)@.retired, removed@),
        released + final(ingress)@.retired.len() == old(ingress)@.retired.len(),
        final(ingress)@.committed == old(ingress)@.committed,
        final(ingress)@.snapshot == old(ingress)@.snapshot,
        final(ingress)@.row_capacity == old(ingress)@.row_capacity,
{
}

} // verus!
