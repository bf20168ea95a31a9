//! Counters of a running source.
use vstd::prelude::*;

verus! {

/// Counters of a source, from its creation on.
#[derive(Debug, Clone, Copy, PartialEq, Eq, Structural)]
pub struct OpenCtpSourceMetrics {
    pub ticks_received_total: u64,
    pub ticks_emitted_total: u64,
    pub batches_emitted_total: u64,
    pub normalize_failures_total: u64,
    pub reconnects_total: u64,
    pub login_failures_total: u64,
    pub subscribe_failures_total: u64,
}

impl Default for OpenCtpSourceMetrics {
    /// Every counter at zero.
    fn default() -> (metrics: Self)
        ensures
            metrics == OpenCtpSourceMetrics::zeroed(),
    {
        OpenCtpSourceMetrics {
            ticks_received_total: 0,
            ticks_emitted_total: 0,
            batches_emitted_total: 0,
            normalize_failures_total: 0,
            reconnects_total: 0,
            login_failures_total: 0,
            subscribe_failures_total: 0,
        }
    }
}

impl OpenCtpSourceMetrics {
    pub open spec fn zeroed() -> Self {
        OpenCtpSourceMetrics {
            ticks_received_total: 0,
            ticks_emitted_total: 0,
            batches_emitted_total: 0,
            normalize_failures_total: 0,
            reconnects_total: 0,
            login_failures_total: 0,
            subscribe_failures_total: 0,
        }
    }

    /// Counts `rows` ticks that came from the driver.
    pub fn record_ticks_received(&mut self, rows: usize)
        requires
            old(self).ticks_received_total + rows <= u64::MAX,
        ensures
            *final(self) == (OpenCtpSourceMetrics {
                ticks_received_total: (old(self).ticks_received_total + rows) as u64,
                ..*old(self)
            }),
    {
        self.ticks_received_total = self.ticks_received_total + rows as u64;
    }

    /// Counts one tick that could not be normalized.
    pub fn record_normalize_failure(&mut self)
        requires
            old(self).normalize_failures_total < u64::MAX,
        ensures
            *final(self) == (OpenCtpSourceMetrics {
                normalize_failures_total: (old(self).normalize_failures_total + 1) as u64,
                ..*old(self)
            }),
    {
        self.normalize_failures_total = self.normalize_failures_total + 1;
    }

    /// Counts one batch of `rows` ticks that went to the sink.
    pub fn record_data_emission(&mut self, rows: usize)
        requires
            old(self).ticks_emitted_total + rows <= u64::MAX,
            old(self).batches_emitted_total < u64::MAX,
        ensures
            *final(self) == (OpenCtpSourceMetrics {
                ticks_emitted_total: (old(self).ticks_emitted_total + rows) as u64,
                batches_emitted_total: (old(self).batches_emitted_total + 1) as u64,
                ..*old(self)
            }),
    {
        self.ticks_emitted_total = self.ticks_emitted_total + rows as u64;
        self.batches_emitted_total = self.batches_emitted_total + 1;
    }

    /// Counts one login that was refused.
    pub fn record_login_failure(&mut self)
        requires
            old(self).login_failures_total < u64::MAX,
        ensures
            *final(self) == (OpenCtpSourceMetrics {
                login_failures_total: (old(self).login_failures_total + 1) as u64,
                ..*old(self)
            }),
    {
        self.login_failures_total = self.login_failures_total + 1;
    }

    /// Counts `failures` instruments that could not be subscribed.
    pub fn record_subscribe_failures(&mut self, failures: u64)
        requires
            old(self).subscribe_failures_total + failures <= u64::MAX,
        ensures
            *final(self) == (OpenCtpSourceMetrics {
                subscribe_failures_total: (old(self).subscribe_failures_total + failures) as u64,
                ..*old(self)
            }),
    {
        self.subscribe_failures_total = self.subscribe_failures_total + failures;
    }

    /// Takes over the driver's count of reconnects.
    pub fn record_reconnects(&mut self, reconnects_total: u64)
        ensures
            *final(self) == (OpenCtpSourceMetrics { reconnects_total, ..*old(self) }),
    {
        self.reconnects_total = reconnects_total;
    }
}

/// Ticks that came are added to those received, and nothing else is counted.
pub proof fn law_received_ticks_are_added(metrics: &mut OpenCtpSourceMetrics, rows: usize)
    requires
        old(metrics).ticks_received_total + rows <= u64::MAX,
        call_ensures(OpenCtpSourceMetrics::record_ticks_received, (metrics, rows), ()),
    ensures
        final(metrics).ticks_received_total == old(metrics).ticks_received_total + rows,
        final(metrics).ticks_emitted_total == old(metrics).ticks_emitted_total,
        final(metrics).batches_emitted_total == old(metrics).batches_emitted_total,
        final(metrics).normalize_failures_total == old(metrics).normalize_failures_total,
        final(metrics).reconnects_total == old(metrics).reconnects_total,
        final(metrics).login_failures_total == old(metrics).login_failures_total,
        final(metrics).subscribe_failures_total == old(metrics).subscribe_failures_total,
{
}

/// A batch that went to the sink is one more batch, its rows are added to those emitted, and nothing
/// else is counted.
pub proof fn law_emitted_batches_are_added(metrics: &mut OpenCtpSourceMetrics, rows: usize)
    requires
        old(metrics).ticks_emitted_total + rows <= u64::MAX,
        old(metrics).batches_emitted_total < u64::MAX,
        call_ensures(OpenCtpSourceMetrics::record_data_emission, (metrics, rows), ()),
    ensures
        final(metrics).ticks_emitted_total == old(metrics).ticks_emitted_total + rows,
        final(metrics).batches_emitted_total == old(metrics).batches_emitted_total + 1,
        final(metrics).ticks_received_total == old(metrics).ticks_received_total,
        final(metrics).normalize_failures_total == old(metrics).normalize_failures_total,
        final(metrics).reconnects_total == old(metrics).reconnects_total,
        final(metrics).login_failures_total == old(metrics).login_failures_total,
        final(metrics).subscribe_failures_total == old(metrics).subscribe_failures_total,
{
}

/// A new count is zero throughout.
pub proof fn law_counters_start_at_zero(metrics: OpenCtpSourceMetrics)
    requires
        metrics == OpenCtpSourceMetrics::zeroed(),
    ensures
        metrics.ticks_received_total == 0,
        metrics.ticks_emitted_total == 0,
        metrics.batches_emitted_total == 0,
        metrics.normalize_failures_total == 0,
        metrics.reconnects_total == 0,
        metrics.login_failures_total == 0,
        metrics.subscribe_failures_total == 0,
{
}

} // verus!
