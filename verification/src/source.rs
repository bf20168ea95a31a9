//! What a market data source is made of: its configuration, its status, the events of its driver.
use crate::clock::{Moment, Span};
use crate::normalize::{NormalizedTickRow, RawTickSnapshot};
use crate::text::{
    comma_joined, decimal, decimal_text, same_ignoring_ascii_case, same_ignoring_case, texts, trim,
    trimmed,
};
use vstd::prelude::*;

verus! {

/// How to reach the market data front, and what to subscribe there.
#[derive(Clone, PartialEq, Eq)]
pub struct OpenCtpMarketDataSourceConfig {
    pub front: String,
    pub broker_id: String,
    pub user_id: String,
    pub password: String,
    pub instruments: Vec<String>,
    pub flow_path: String,
    pub reconnect: bool,
    pub login_timeout_sec: u64,
    /// Rows that a batch holds before it is handed on.
    pub rows_per_batch: usize,
    /// Milliseconds that a row may wait for its batch; zero for no limit.
    pub flush_interval_ms: u64,
}

impl OpenCtpMarketDataSourceConfig {
    /// The low-latency preset.
    pub fn new(
        front: String,
        broker_id: String,
        user_id: String,
        password: String,
        instruments: Vec<String>,
        flow_path: String,
    ) -> (config: Self)
        ensures
            config == (OpenCtpMarketDataSourceConfig {
                front,
                broker_id,
                user_id,
                password,
                instruments,
                flow_path,
                reconnect: true,
                login_timeout_sec: 10,
                rows_per_batch: 1,
                flush_interval_ms: 0,
            }),
    {
        Self::low_latency(front, broker_id, user_id, password, instruments, flow_path)
    }

    /// The preset that hands every tick on at once.
    pub fn low_latency(
        front: String,
        broker_id: String,
        user_id: String,
        password: String,
        instruments: Vec<String>,
        flow_path: String,
    ) -> (config: Self)
        ensures
            config == (OpenCtpMarketDataSourceConfig {
                front,
                broker_id,
                user_id,
                password,
                instruments,
                flow_path,
                reconnect: true,
                login_timeout_sec: 10,
                rows_per_batch: 1,
                flush_interval_ms: 0,
            }),
    {
        OpenCtpMarketDataSourceConfig {
            front,
            broker_id,
            user_id,
            password,
            instruments,
            flow_path,
            reconnect: true,
            login_timeout_sec: 10,
            rows_per_batch: 1,
            flush_interval_ms: 0,
        }
    }

    /// The configuration as a debug print shows it; the password is masked.
    pub open spec fn debug_form(self) -> Seq<char> {
        "OpenCtpMarketDataSourceConfig { front: "@ + quoted(self.front@) + ", broker_id: "@ + quoted(
            self.broker_id@,
        ) + ", user_id: "@ + quoted(self.user_id@) + ", password: "@ + quoted("***redacted***"@)
            + ", instruments: ["@ + comma_joined(quoted_list(texts(self.instruments@)))
            + "], flow_path: "@ + quoted(self.flow_path@) + ", reconnect: "@ + bool_form(
            self.reconnect,
        ) + ", login_timeout_sec: "@ + decimal(self.login_timeout_sec as nat) + " }"@
    }

    /// The configuration for a debug print, with the password masked.
    pub fn debug_text(&self) -> (text: String)
        ensures
            text@ == self.debug_form(),
    {
        let mut text: String = "OpenCtpMarketDataSourceConfig { front: ".to_owned();
        text.append(quoted_text(self.front.as_str()).as_str());
        text.append(", broker_id: ");
        text.append(quoted_text(self.broker_id.as_str()).as_str());
        text.append(", user_id: ");
        text.append(quoted_text(self.user_id.as_str()).as_str());
        text.append(", password: ");
        text.append(quoted_text("***redacted***").as_str());
        text.append(", instruments: [");
        text.append(quoted_join(&self.instruments).as_str());
        text.append("], flow_path: ");
        text.append(quoted_text(self.flow_path.as_str()).as_str());
        text.append(", reconnect: ");
        text.append(bool_text(self.reconnect));
        text.append(", login_timeout_sec: ");
        text.append(decimal_text(self.login_timeout_sec).as_str());
        text.append(" }");
        text
    }
}

/// The password does not show in a debug print: configurations that differ in nothing else print
/// alike.
pub proof fn law_debug_form_hides_password(
    config1: OpenCtpMarketDataSourceConfig,
    config2: OpenCtpMarketDataSourceConfig,
)
    requires
        config2 == (OpenCtpMarketDataSourceConfig { password: config2.password, ..config1 }),
    ensures
        config1.debug_form() == config2.debug_form(),
{
}

/// What the debug format of `str` makes of a text: the text in quotation marks, its special
/// characters escaped.
pub uninterp spec fn quoted(s: Seq<char>) -> Seq<char>;

/// The debug format of `str`. The result is the text's quoted form.
#[verifier::external_body]
fn quoted_text(s: &str) -> (text: String)
    ensures
        text@ == quoted(s@),
{
    format!("{s:?}")
}

pub open spec fn quoted_list(list: Seq<Seq<char>>) -> Seq<Seq<char>> {
    list.map_values(|s: Seq<char>| quoted(s))
}

pub open spec fn bool_form(value: bool) -> Seq<char> {
    if value {
        "true"@
    } else {
        "false"@
    }
}

fn bool_text(value: bool) -> (text: &'static str)
    ensures
        text@ == bool_form(value),
{
    if value {
        "true"
    } else {
        "false"
    }
}

fn quoted_join(list: &Vec<String>) -> (text: String)
    ensures
        text@ == comma_joined(quoted_list(texts(list@))),
{
    let ghost items = quoted_list(texts(list@));
    let mut text: String = String::new();
    let mut i: usize = 0;
    assert(items.take(0) =~= Seq::empty());
    proof {
        reveal_strlit(", ");
        assert(", "@ =~= seq![',', ' ']);
    }
    while i < list.len()
        invariant
            i <= list.len(),
            items == quoted_list(texts(list@)),
            ", "@ == seq![',', ' '],
            text@ == comma_joined(items.take(i as int)),
        decreases list.len() - i,
    {
        if i > 0 {
            text.append(", ");
        }
        text.append(quoted_text(list[i].as_str()).as_str());
        proof {
            let next = items.take(i + 1);
            assert(next.drop_last() =~= items.take(i as int));
            assert(next.last() == quoted(list@[i as int]@));
            if i == 0 {
                assert(text@ =~= next[0]);
            }
        }
        i = i + 1;
    }
    assert(items.take(list.len() as int) =~= items);
    text
}

/// Whether a setting asks for debug output.
pub open spec fn asks_for_debug(value: Seq<char>) -> bool {
    let word = trimmed(value);
    ||| same_ignoring_ascii_case(word, "1"@)
    ||| same_ignoring_ascii_case(word, "true"@)
    ||| same_ignoring_ascii_case(word, "yes"@)
    ||| same_ignoring_ascii_case(word, "on"@)
}

/// Whether the setting of `OPENCTP_DEBUG`, if there is one, asks for debug output.
pub fn debug_enabled(value: Option<&str>) -> (enabled: bool)
    ensures
        enabled == match value {
            Some(value) => asks_for_debug(value@),
            None => false,
        },
{
    match value {
        Some(value) => {
            let word: &str = trim(value);
            same_ignoring_case(word, "1") || same_ignoring_case(word, "true")
                || same_ignoring_case(word, "yes") || same_ignoring_case(word, "on")
        },
        None => false,
    }
}

/// Where a source stands in its life.
#[derive(Debug, Clone, Copy, PartialEq, Eq, Structural)]
pub enum OpenCtpSourceStatus {
    /// Built, not started.
    Created,
    /// Connecting, logging in or subscribing.
    Connecting,
    /// Receiving.
    Running,
    /// Reconnecting, or running with a part of its instruments.
    Degraded,
    /// Closed in good order.
    Stopped,
    /// Ended by an error.
    Failed,
}

impl OpenCtpSourceStatus {
    pub open spec fn name(self) -> Seq<char> {
        match self {
            OpenCtpSourceStatus::Created => "created"@,
            OpenCtpSourceStatus::Connecting => "connecting"@,
            OpenCtpSourceStatus::Running => "running"@,
            OpenCtpSourceStatus::Degraded => "degraded"@,
            OpenCtpSourceStatus::Stopped => "stopped"@,
            OpenCtpSourceStatus::Failed => "failed"@,
        }
    }

    /// The name of the status.
    pub fn as_str(self) -> (name: &'static str)
        ensures
            name@ == self.name(),
    {
        match self {
            OpenCtpSourceStatus::Created => "created",
            OpenCtpSourceStatus::Connecting => "connecting",
            OpenCtpSourceStatus::Running => "running",
            OpenCtpSourceStatus::Degraded => "degraded",
            OpenCtpSourceStatus::Stopped => "stopped",
            OpenCtpSourceStatus::Failed => "failed",
        }
    }
}

/// The name tells the status.
pub proof fn law_status_names_differ(a: OpenCtpSourceStatus, b: OpenCtpSourceStatus)
    requires
        a.name() == b.name(),
    ensures
        a == b,
{
    reveal_strlit("created");
    reveal_strlit("connecting");
    reveal_strlit("running");
    reveal_strlit("degraded");
    reveal_strlit("stopped");
    reveal_strlit("failed");
    assert("created"@[1] == 'r');
    assert("connecting"@[1] == 'o');
    assert("running"@[1] == 'u');
    assert("degraded"@[1] == 'e');
    assert("stopped"@[1] == 't');
    assert("failed"@[1] == 'a');
}

/// What a driver tells its source.
#[derive(Debug, Clone, PartialEq)]
pub enum MdDriverEvent<P> {
    Tick(RawTickSnapshot<P>),
    Ticks(Vec<RawTickSnapshot<P>>),
    Rows(Vec<NormalizedTickRow<P>>),
    SubscriptionOutcome(SubscriptionOutcome),
    ReconnectUpdate(ReconnectUpdate),
    Flush,
    Stop,
    /// The login was refused, for this reason.
    LoginFailed(String),
    Error(String),
}

/// How often a driver has reconnected, and what it is doing.
#[derive(Debug, Clone, Copy, PartialEq, Eq, Structural)]
pub struct ReconnectUpdate {
    pub reconnects_total: u64,
    pub status: OpenCtpSourceStatus,
}

/// Which instruments of a request are subscribed, and which are not.
#[derive(Debug, Clone, PartialEq, Eq)]
pub struct SubscriptionOutcome {
    pub succeeded_instruments: Vec<String>,
    pub failed_instruments: Vec<String>,
    pub subscribe_failures_total: u64,
    pub status: OpenCtpSourceStatus,
}

/// The requested instruments that are among those that succeeded.
pub open spec fn subscribed(requested: Seq<Seq<char>>, succeeded: Seq<Seq<char>>) -> Seq<Seq<char>> {
    requested.filter(|instrument: Seq<char>| succeeded.contains(instrument))
}

/// The requested instruments that are not among those that succeeded.
pub open spec fn unsubscribed(
    requested: Seq<Seq<char>>,
    succeeded: Seq<Seq<char>>,
) -> Seq<Seq<char>> {
    requested.filter(|instrument: Seq<char>| !succeeded.contains(instrument))
}

impl SubscriptionOutcome {
    /// Whether this is the outcome of a request in which `succeeded` succeeded.
    pub open spec fn is_outcome_of(
        self,
        requested: Seq<Seq<char>>,
        succeeded: Seq<Seq<char>>,
    ) -> bool {
        &&& texts(self.succeeded_instruments@) == subscribed(requested, succeeded)
        &&& texts(self.failed_instruments@) == unsubscribed(requested, succeeded)
        &&& self.subscribe_failures_total == unsubscribed(requested, succeeded).len()
        &&& self.status == if unsubscribed(requested, succeeded).len() == 0 {
            OpenCtpSourceStatus::Running
        } else {
            OpenCtpSourceStatus::Degraded
        }
    }
}

/// Whether `item` is one of `list`.
pub fn contains_text(list: &[String], item: &str) -> (found: bool)
    ensures
        found == texts(list@).contains(item@),
{
    let mut i: usize = 0;
    while i < list.len()
        invariant
            i <= list.len(),
            forall|j: int| 0 <= j < i ==> (#[trigger] texts(list@)[j]) != item@,
        decreases list.len() - i,
    {
        if crate::text::same(list[i].as_str(), item) {
            assert(texts(list@)[i as int] == item@);
            return true;
        }
        i = i + 1;
    }
    assert(!texts(list@).contains(item@));
    false
}

/// Sorts the requested instruments into those that succeeded and those that did not, each in the
/// order of the request.
pub fn evaluate_subscription_results(
    requested: &[String],
    succeeded: &[String],
) -> (outcome: SubscriptionOutcome)
    ensures
        outcome.is_outcome_of(texts(requested@), texts(succeeded@)),
{
    let mut succeeded_instruments: Vec<String> = Vec::new();
    let mut failed_instruments: Vec<String> = Vec::new();
    let ghost all = texts(requested@);
    let ghost done = texts(succeeded@);
    let ghost is_done = |instrument: Seq<char>| done.contains(instrument);
    let ghost is_open = |instrument: Seq<char>| !done.contains(instrument);
    let mut i: usize = 0;
    proof {
        reveal(Seq::filter);
        assert(all.take(0) =~= Seq::empty());
        assert(texts(succeeded_instruments@) =~= all.take(0).filter(is_done));
        assert(texts(failed_instruments@) =~= all.take(0).filter(is_open));
    }
    while i < requested.len()
        invariant
            i <= requested.len(),
            all == texts(requested@),
            done == texts(succeeded@),
            is_done == (|instrument: Seq<char>| done.contains(instrument)),
            is_open == (|instrument: Seq<char>| !done.contains(instrument)),
            texts(succeeded_instruments@) == all.take(i as int).filter(is_done),
            texts(failed_instruments@) == all.take(i as int).filter(is_open),
            succeeded_instruments.len() + failed_instruments.len() == i,
        decreases requested.len() - i,
    {
        let ghost before = succeeded_instruments@;
        let ghost before_failed = failed_instruments@;
        if contains_text(succeeded, requested[i].as_str()) {
            succeeded_instruments.push(requested[i].clone());
        } else {
            failed_instruments.push(requested[i].clone());
        }
        proof {
            reveal(Seq::filter);
            let next = all.take(i + 1);
            assert(next.drop_last() =~= all.take(i as int));
            assert(next.last() == requested@[i as int]@);
            assert(texts(succeeded_instruments@) =~= next.filter(is_done));
            assert(texts(failed_instruments@) =~= next.filter(is_open));
        }
        i = i + 1;
    }
    assert(all.take(requested.len() as int) =~= all);
    let subscribe_failures_total: u64 = failed_instruments.len() as u64;
    let status: OpenCtpSourceStatus = if subscribe_failures_total == 0 {
        OpenCtpSourceStatus::Running
    } else {
        OpenCtpSourceStatus::Degraded
    };
    proof {
        assert(texts(failed_instruments@).len() == failed_instruments@.len());
    }
    SubscriptionOutcome {
        succeeded_instruments,
        failed_instruments,
        subscribe_failures_total,
        status,
    }
}

/// Every requested instrument is counted once: as subscribed or as failed.
pub proof fn law_subscription_outcome_partitions(
    requested: Seq<Seq<char>>,
    succeeded: Seq<Seq<char>>,
)
    ensures
        subscribed(requested, succeeded).len() + unsubscribed(requested, succeeded).len()
            == requested.len(),
        subscribed(requested, succeeded).to_multiset().add(
            unsubscribed(requested, succeeded).to_multiset(),
        ) == requested.to_multiset(),
        forall|instrument: Seq<char>|
            #![trigger requested.contains(instrument)]
            requested.contains(instrument) ==> (subscribed(requested, succeeded).contains(instrument)
                != unsubscribed(requested, succeeded).contains(instrument)),
    decreases requested.len(),
{
    broadcast use vstd::seq_lib::group_to_multiset_ensures;

    let is_done = |instrument: Seq<char>| succeeded.contains(instrument);
    let is_open = |instrument: Seq<char>| !succeeded.contains(instrument);
    reveal(Seq::filter);
    if requested.len() > 0 {
        let head = requested.drop_last();
        law_subscription_outcome_partitions(head, succeeded);
        assert(requested =~= head.push(requested.last()));
    }
    assert(subscribed(requested, succeeded).to_multiset().add(
        unsubscribed(requested, succeeded).to_multiset(),
    ) =~= requested.to_multiset());
    assert forall|instrument: Seq<char>|
        #![trigger requested.contains(instrument)]
        requested.contains(instrument) implies (subscribed(requested, succeeded).contains(instrument)
        != unsubscribed(requested, succeeded).contains(instrument)) by {
        let i = requested.index_of(instrument);
        if is_done(instrument) {
            requested.lemma_filter_contains(is_done, i);
        } else {
            requested.lemma_filter_contains(is_open, i);
        }
        if requested.filter(is_done).contains(instrument) {
            requested.lemma_filter_contains_rev(is_done, instrument);
        }
        if requested.filter(is_open).contains(instrument) {
            requested.lemma_filter_contains_rev(is_open, instrument);
        }
    }
}

/// A source is degraded exactly where some instrument failed.
pub proof fn law_degraded_iff_some_failed(
    outcome: SubscriptionOutcome,
    requested: Seq<Seq<char>>,
    succeeded: Seq<Seq<char>>,
)
    requires
        outcome.is_outcome_of(requested, succeeded),
    ensures
        outcome.status == OpenCtpSourceStatus::Running || outcome.status
            == OpenCtpSourceStatus::Degraded,
        outcome.status == OpenCtpSourceStatus::Degraded <==> exists|instrument: Seq<char>|
            requested.contains(instrument) && !#[trigger] succeeded.contains(instrument),
{
    let is_open = |instrument: Seq<char>| !succeeded.contains(instrument);
    let failed = requested.filter(is_open);
    assert forall|instrument: Seq<char>|
        requested.contains(instrument) && !#[trigger] succeeded.contains(
            instrument,
        ) implies failed.len() > 0 by {
        requested.lemma_filter_contains(is_open, requested.index_of(instrument));
    }
    if failed.len() > 0 {
        assert(failed.contains(failed[0]));
        requested.lemma_filter_contains_rev(is_open, failed[0]);
        requested.lemma_filter_pred(is_open, 0);
    }
}

/// The state of a connection that is restored after a fixed interval.
#[derive(Debug, Clone)]
pub struct ReconnectState {
    reconnect_interval: Span,
    reconnects_total: u64,
    status: OpenCtpSourceStatus,
    disconnected_at: Option<Moment>,
}

/// Interval, count of reconnects, status, and the time of the disconnect that is not yet mended.
pub struct ReconnectView {
    pub interval: Span,
    pub reconnects: u64,
    pub status: OpenCtpSourceStatus,
    pub disconnected_at: Option<Moment>,
}

impl View for ReconnectState {
    type V = ReconnectView;

    closed spec fn view(&self) -> ReconnectView {
        ReconnectView {
            interval: self.reconnect_interval,
            reconnects: self.reconnects_total,
            status: self.status,
            disconnected_at: self.disconnected_at,
        }
    }
}

impl ReconnectView {
    /// Whether enough time has passed since the disconnect.
    pub open spec fn ready_at(self, now: Moment) -> bool {
        match self.disconnected_at {
            Some(disconnected_at) => now.nanos_since(disconnected_at) >= self.interval.nanos,
            None => true,
        }
    }

    /// Nanoseconds that are still to wait.
    pub open spec fn remaining_at(self, now: Moment) -> int {
        match self.disconnected_at {
            Some(disconnected_at) => if self.ready_at(now) {
                0
            } else {
                self.interval.nanos - now.nanos_since(disconnected_at)
            },
            None => 0,
        }
    }
}

impl ReconnectState {
    /// A connection that stands.
    pub fn new(reconnect_interval: Span) -> (state: Self)
        ensures
            state@ == (ReconnectView {
                interval: reconnect_interval,
                reconnects: 0,
                status: OpenCtpSourceStatus::Running,
                disconnected_at: None,
            }),
    {
        ReconnectState {
            reconnect_interval,
            reconnects_total: 0,
            status: OpenCtpSourceStatus::Running,
            disconnected_at: None,
        }
    }

    pub fn status(&self) -> (status: OpenCtpSourceStatus)
        ensures
            status == self@.status,
    {
        self.status
    }

    pub fn reconnect_interval(&self) -> (interval: Span)
        ensures
            interval == self@.interval,
    {
        self.reconnect_interval
    }

    pub fn reconnects_total(&self) -> (total: u64)
        ensures
            total == self@.reconnects,
    {
        self.reconnects_total
    }

    /// The connection was lost.
    pub fn mark_disconnected_at(&mut self, now: Moment)
        ensures
            final(self)@ == (ReconnectView {
                status: OpenCtpSourceStatus::Degraded,
                disconnected_at: Some(now),
                ..old(self)@
            }),
    {
        self.status = OpenCtpSourceStatus::Degraded;
        self.disconnected_at = Some(now);
    }

    /// Whether the connection may be restored now.
    pub fn ready_to_reconnect_at(&self, now: Moment) -> (ready: bool)
        ensures
            ready == self@.ready_at(now),
    {
        match self.disconnected_at {
            Some(disconnected_at) => now.saturating_since(disconnected_at).nanos
                >= self.reconnect_interval.nanos,
            None => true,
        }
    }

    /// The time that is still to wait before the connection may be restored.
    pub fn remaining_until_reconnect_at(&self, now: Moment) -> (remaining: Span)
        ensures
            remaining.nanos == self@.remaining_at(now),
    {
        match self.disconnected_at {
            Some(disconnected_at) => {
                let elapsed: Span = now.saturating_since(disconnected_at);
                self.reconnect_interval.saturating_sub(elapsed)
            },
            None => Span { nanos: 0 },
        }
    }

    /// The connection stands again.
    pub fn mark_reconnected(&mut self)
        requires
            old(self)@.reconnects < u64::MAX,
        ensures
            final(self)@ == (ReconnectView {
                reconnects: (old(self)@.reconnects + 1) as u64,
                status: OpenCtpSourceStatus::Running,
                disconnected_at: None,
                ..old(self)@
            }),
    {
        self.reconnects_total = self.reconnects_total + 1;
        self.status = OpenCtpSourceStatus::Running;
        self.disconnected_at = None;
    }

    /// What the source is to know of the connection.
    pub fn snapshot(&self) -> (update: ReconnectUpdate)
        ensures
            update == (ReconnectUpdate {
                reconnects_total: self@.reconnects,
                status: self@.status,
            }),
    {
        ReconnectUpdate { reconnects_total: self.reconnects_total, status: self.status }
    }
}

/// Nothing remains to wait exactly when the connection may be restored.
pub proof fn law_ready_iff_nothing_remains(state: ReconnectView, now: Moment)
    ensures
        state.ready_at(now) <==> state.remaining_at(now) == 0,
        0 <= state.remaining_at(now) <= state.interval.nanos,
{
}

/// Who waits for the time that remains may then restore the connection.
pub proof fn law_waiting_makes_ready(state: ReconnectView, now: Moment, later: Moment)
    requires
        later.nanos >= now.nanos + state.remaining_at(now),
        state.disconnected_at is Some ==> state.disconnected_at->0.nanos <= now.nanos,
    ensures
        state.ready_at(later),
{
}

/// Requested instruments are sorted by whether they succeeded.
pub proof fn law_instruments_are_sorted_by_success(
    requested: Seq<Seq<char>>,
    succeeded: Seq<Seq<char>>,
    x: Seq<char>,
)
    ensures
        subscribed(requested, succeeded).contains(x) <==> requested.contains(x)
            && succeeded.contains(x),
        unsubscribed(requested, succeeded).contains(x) <==> requested.contains(x)
            && !succeeded.contains(x),
    decreases requested.len(),
{
    if requested.len() == 0 {
        reveal(Seq::filter);
    } else {
        let head = requested.drop_last();
        let last = requested.last();
        law_instruments_are_sorted_by_success(head, succeeded, x);
        assert(requested =~= head.push(last));
        law_instruments_are_sorted_one_by_one(head, succeeded, last);
        lemma_contains_push(head, last, x);
        lemma_contains_push(subscribed(head, succeeded), last, x);
        lemma_contains_push(unsubscribed(head, succeeded), last, x);
    }
}

proof fn lemma_contains_push(list: Seq<Seq<char>>, last: Seq<char>, x: Seq<char>)
    ensures
        list.push(last).contains(x) <==> list.contains(x) || last == x,
{
    let longer = list.push(last);
    if list.contains(x) {
        let i = choose|i: int| 0 <= i < list.len() && list[i] == x;
        assert(longer[i] == x);
    }
    if last == x {
        assert(longer[list.len() as int] == x);
    }
    if longer.contains(x) {
        let i = choose|i: int| 0 <= i < longer.len() && longer[i] == x;
        if i < list.len() {
            assert(list[i] == x);
        }
    }
}

/// One more requested instrument goes to the end of those that succeeded or of those that failed, and
/// the other list stays.
pub proof fn law_instruments_are_sorted_one_by_one(
    requested: Seq<Seq<char>>,
    succeeded: Seq<Seq<char>>,
    x: Seq<char>,
)
    ensures
        succeeded.contains(x) ==> {
            &&& subscribed(requested.push(x), succeeded) == subscribed(requested, succeeded).push(x)
            &&& unsubscribed(requested.push(x), succeeded) == unsubscribed(requested, succeeded)
        },
        !succeeded.contains(x) ==> {
            &&& subscribed(requested.push(x), succeeded) == subscribed(requested, succeeded)
            &&& unsubscribed(requested.push(x), succeeded) == unsubscribed(
                requested,
                succeeded,
            ).push(x)
        },
{
    reveal(Seq::filter);
    assert(requested.push(x).drop_last() =~= requested);
}

/// An outcome names the instruments that succeeded and those that failed, counts the latter, and is
/// degraded if and only if there are any.
pub proof fn law_outcome_says_what_happened(
    requested: &[String],
    succeeded: &[String],
    outcome: SubscriptionOutcome,
)
    requires
        call_ensures(evaluate_subscription_results, (requested, succeeded), outcome),
    ensures
        forall|x: Seq<char>| #[trigger]
            texts(outcome.succeeded_instruments@).contains(x) <==> texts(requested@).contains(x)
                && texts(succeeded@).contains(x),
        forall|x: Seq<char>| #[trigger]
            texts(outcome.failed_instruments@).contains(x) <==> texts(requested@).contains(x)
                && !texts(succeeded@).contains(x),
        outcome.subscribe_failures_total == outcome.failed_instruments@.len(),
        outcome.succeeded_instruments@.len() + outcome.failed_instruments@.len() == requested@.len(),
        outcome.status == if outcome.failed_instruments@.len() == 0 {
            OpenCtpSourceStatus::Running
        } else {
            OpenCtpSourceStatus::Degraded
        },
{
    let all = texts(requested@);
    let done = texts(succeeded@);
    assert forall|x: Seq<char>| #[trigger]
        texts(outcome.succeeded_instruments@).contains(x) <==> all.contains(x) && done.contains(
            x,
        ) by {
        law_instruments_are_sorted_by_success(all, done, x);
    }
    assert forall|x: Seq<char>| #[trigger]
        texts(outcome.failed_instruments@).contains(x) <==> all.contains(x) && !done.contains(x) by {
        law_instruments_are_sorted_by_success(all, done, x);
    }
    law_subscription_outcome_partitions(all, done);
    assert(texts(outcome.failed_instruments@).len() == outcome.failed_instruments@.len());
    assert(texts(outcome.succeeded_instruments@).len() == outcome.succeeded_instruments@.len());
}

/// A lost connection may be restored once the whole interval has passed, and not before; one that was
/// not lost may be at any time.
pub proof fn law_connection_is_restored_after_the_interval(state: ReconnectView, now: Moment)
    ensures
        state.disconnected_at matches Some(at) ==> (now.nanos >= at.nanos ==> (state.ready_at(now)
            <==> now.nanos >= at.nanos + state.interval.nanos)),
        state.disconnected_at matches Some(at) ==> (at.nanos <= now.nanos < at.nanos
            + state.interval.nanos ==> now.nanos + state.remaining_at(now) == at.nanos
            + state.interval.nanos),
        state.disconnected_at is None ==> state.ready_at(now) && state.remaining_at(now) == 0,
{
}

/// What a test for readiness, a count and a snapshot of a connection say.
pub proof fn law_connection_tells_its_state(
    state: &ReconnectState,
    now: Moment,
    ready: bool,
    remaining: Span,
    update: ReconnectUpdate,
)
    requires
        call_ensures(ReconnectState::ready_to_reconnect_at, (state, now), ready),
        call_ensures(ReconnectState::remaining_until_reconnect_at, (state, now), remaining),
        call_ensures(ReconnectState::snapshot, (state,), update),
    ensures
        ready <==> remaining.nanos == 0,
        state@.disconnected_at is None ==> ready,
        state@.disconnected_at matches Some(at) ==> (now.nanos >= at.nanos ==> (ready <==> now.nanos
            - at.nanos >= state@.interval.nanos)),
        update.reconnects_total == state@.reconnects,
        update.status == state@.status,
{
}

/// A new connection stands, was never lost, and has the interval that it is given.
pub proof fn law_new_connection_stands(interval: Span, state: ReconnectState)
    requires
        call_ensures(ReconnectState::new, (interval,), state),
    ensures
        state@.interval == interval,
        state@.reconnects == 0,
        state@.status == OpenCtpSourceStatus::Running,
        state@.disconnected_at is None,
{
}

/// Both presets keep what they are given, reconnect, wait ten seconds for a login, and hand every tick
/// on at once.
pub proof fn law_presets_keep_what_they_are_given(
    front: String,
    broker_id: String,
    user_id: String,
    password: String,
    instruments: Vec<String>,
    flow_path: String,
    config: OpenCtpMarketDataSourceConfig,
)
    requires
        call_ensures(
            OpenCtpMarketDataSourceConfig::new,
            (front, broker_id, user_id, password, instruments, flow_path),
            config,
        ) || call_ensures(
            OpenCtpMarketDataSourceConfig::low_latency,
            (front, broker_id, user_id, password, instruments, flow_path),
            config,
        ),
    ensures
        config.front == front,
        config.broker_id == broker_id,
        config.user_id == user_id,
        config.password == password,
        config.instruments == instruments,
        config.flow_path == flow_path,
        config.reconnect,
        config.login_timeout_sec == 10,
        config.rows_per_batch == 1,
        config.flush_interval_ms == 0,
{
}

/// Debug output is asked for by four words, in any case and with white space around them.
pub proof fn law_debug_is_asked_for_by_four_words(value: Option<&str>, enabled: bool)
    requires
        call_ensures(debug_enabled, (value,), enabled),
    ensures
        value is None ==> !enabled,
        value matches Some(text) ==> (enabled <==> exists|word: Seq<char>|
            {
                &&& #[trigger] same_ignoring_ascii_case(trimmed(text@), word)
                &&& word == "1"@ || word == "true"@ || word == "yes"@ || word == "on"@
            }),
{
    if value is Some && enabled {
        let word = trimmed(value->0@);
        assert(same_ignoring_ascii_case(word, "1"@) || same_ignoring_ascii_case(word, "true"@)
            || same_ignoring_ascii_case(word, "yes"@) || same_ignoring_ascii_case(word, "on"@));
    }
}

/// The debug form of a configuration shows every field but the password under its own name, in order,
/// and the password as a mask.
pub proof fn law_debug_form_shows_the_rest(config: OpenCtpMarketDataSourceConfig)
    ensures
        config.debug_form() == "OpenCtpMarketDataSourceConfig { front: "@ + quoted(config.front@)
            + ", broker_id: "@ + quoted(config.broker_id@) + ", user_id: "@ + quoted(config.user_id@)
            + ", password: "@ + quoted("***redacted***"@) + ", instruments: ["@ + comma_joined(
            texts(config.instruments@).map_values(|name: Seq<char>| quoted(name)),
        ) + "], flow_path: "@ + quoted(config.flow_path@) + ", reconnect: "@ + (
        if config.reconnect {
            "true"@
        } else {
            "false"@
        }) + ", login_timeout_sec: "@ + decimal(config.login_timeout_sec as nat) + " }"@,
{
    assert(quoted_list(texts(config.instruments@)) =~= texts(config.instruments@).map_values(
        |name: Seq<char>| quoted(name),
    ));
}

/// A lost connection is degraded from the moment of its loss, and what it counted stays.
pub proof fn law_loss_is_remembered(state: &mut ReconnectState, now: Moment)
    requires
        call_ensures(ReconnectState::mark_disconnected_at, (state, now), ()),
    ensures
        final(state)@.status == OpenCtpSourceStatus::Degraded,
        final(state)@.disconnected_at == Some(now),
        final(state)@.reconnects == old(state)@.reconnects,
        final(state)@.interval == old(state)@.interval,
{
}

/// A restored connection stands, has forgotten its loss, and is counted once.
pub proof fn law_restored_connection_is_counted(state: &mut ReconnectState)
    requires
        old(state)@.reconnects < u64::MAX,
        call_ensures(ReconnectState::mark_reconnected, (state,), ()),
    ensures
        final(state)@.status == OpenCtpSourceStatus::Running,
        final(state)@.disconnected_at is None,
        final(state)@.reconnects == old(state)@.reconnects + 1,
        final(state)@.interval == old(state)@.interval,
{
}

} // verus!
