//! The driver of a CTP market data front: its subscription bookkeeping and its decisions.
use crate::channel::Outbox;
use crate::clock::{Moment, Span};
use crate::errors::RuntimeError;
use crate::live_driver::LiveMdControlEvent;
use crate::normalize::RawTickSnapshot;
use crate::source::{
    contains_text, evaluate_subscription_results, MdDriverEvent, OpenCtpMarketDataSourceConfig,
    OpenCtpSourceStatus, ReconnectState, SubscriptionOutcome,
};
use crate::text::{
    joined2, joined3, joined5, signed_decimal, signed_decimal_text, text_option, texts,
};
use std::collections::HashSet;
use vstd::prelude::*;

verus! {

broadcast use vstd::std_specs::hash::group_hash_axioms;

/// The request id of a login.
pub const LOGIN_REQUEST_ID: i32 = 1;

/// Seconds between a disconnect and the attempt to mend it.
pub const RECONNECT_INTERVAL_SECS: u64 = 3;

/// The driver of a CTP market data front.
#[derive(Clone, PartialEq, Eq)]
pub struct Ctp2rsMdDriver {
    config: OpenCtpMarketDataSourceConfig,
}

impl Ctp2rsMdDriver {
    pub closed spec fn config_of(&self) -> OpenCtpMarketDataSourceConfig {
        self.config
    }

    /// A driver that goes by the given configuration.
    pub fn new(config: OpenCtpMarketDataSourceConfig) -> (driver: Self)
        ensures
            driver.config_of() == config,
    {
        Ctp2rsMdDriver { config }
    }

    /// The instruments that the driver subscribes.
    pub fn instruments(&self) -> (instruments: &[String])
        ensures
            instruments@ == self.config_of().instruments@,
    {
        self.config.instruments.as_slice()
    }

    /// The configuration that the driver goes by.
    pub fn config(&self) -> (config: &OpenCtpMarketDataSourceConfig)
        ensures
            *config == self.config_of(),
    {
        &self.config
    }
}

/// Gathers the responses to one subscription request at a time.
#[derive(Debug)]
pub struct PendingSubscription {
    requested: Vec<String>,
    succeeded: Vec<String>,
    active_request_id: Option<i32>,
    sealed_request_ids: HashSet<i32>,
}

/// What is known of a subscription.
#[verifier::ext_equal]
pub struct PendingView {
    pub requested: Seq<Seq<char>>,
    /// The instruments that succeeded in the present round.
    pub succeeded: Seq<Seq<char>>,
    /// The request of the present round.
    pub active: Option<i32>,
    /// The requests of rounds that are over.
    pub sealed: Set<i32>,
}

impl PendingView {
    /// Whether a response to `request_id` belongs to the present round.
    pub open spec fn accepts(self, request_id: i32) -> bool {
        !self.sealed.contains(request_id) && (self.active is None || self.active == Some(
            request_id,
        ))
    }

    /// After a response to `request_id`.
    pub open spec fn observed(
        self,
        request_id: i32,
        instrument_id: Option<Seq<char>>,
        succeeded: bool,
    ) -> Self {
        if !self.accepts(request_id) {
            self
        } else {
            PendingView {
                active: Some(request_id),
                succeeded: if succeeded && instrument_id is Some && !self.succeeded.contains(
                    instrument_id->0,
                ) {
                    self.succeeded.push(instrument_id->0)
                } else {
                    self.succeeded
                },
                ..self
            }
        }
    }

    /// After the end of the round of `request_id`.
    pub open spec fn finished(self, request_id: i32) -> Self {
        PendingView {
            succeeded: Seq::empty(),
            active: None,
            sealed: self.sealed.insert(request_id),
            ..self
        }
    }

    /// After the start of a new round: the present one, if there is one, is over.
    pub open spec fn restarted(self) -> Self {
        PendingView {
            succeeded: Seq::empty(),
            active: None,
            sealed: match self.active {
                Some(request_id) => self.sealed.insert(request_id),
                None => self.sealed,
            },
            ..self
        }
    }

    /// No instrument is counted twice, and the present round is not over.
    pub open spec fn well_formed(self) -> bool {
        &&& self.succeeded.no_duplicates()
        &&& self.active is Some ==> !self.sealed.contains(self.active->0)
        &&& self.active is None ==> self.succeeded.len() == 0
    }
}

impl View for PendingSubscription {
    type V = PendingView;

    closed spec fn view(&self) -> PendingView {
        PendingView {
            requested: texts(self.requested@),
            succeeded: texts(self.succeeded@),
            active: self.active_request_id,
            sealed: self.sealed_request_ids@,
        }
    }
}

fn copied_texts(list: &[String]) -> (copy: Vec<String>)
    ensures
        texts(copy@) == texts(list@),
{
    let mut copy: Vec<String> = Vec::new();
    let mut i: usize = 0;
    while i < list.len()
        invariant
            i <= list.len(),
            copy.len() == i,
            forall|j: int| 0 <= j < i ==> (#[trigger] copy@[j])@ == list@[j]@,
        decreases list.len() - i,
    {
        copy.push(list[i].clone());
        i = i + 1;
    }
    assert(texts(copy@) =~= texts(list@));
    copy
}

impl PendingSubscription {
    /// A subscription of the requested instruments to which nothing has come in.
    pub fn new(requested: &[String]) -> (pending: Self)
        ensures
            pending@ == (PendingView {
                requested: texts(requested@),
                succeeded: Seq::empty(),
                active: None,
                sealed: Set::empty(),
            }),
            pending@.well_formed(),
    {
        let pending: PendingSubscription = PendingSubscription {
            requested: copied_texts(requested),
            succeeded: Vec::new(),
            active_request_id: None,
            sealed_request_ids: HashSet::new(),
        };
        assert(texts(pending.succeeded@) =~= Seq::empty());
        assert(pending.sealed_request_ids@ =~= Set::empty());
        pending
    }

    /// Takes in the response of one instrument; one to another round is ignored.
    pub fn observe(&mut self, request_id: i32, instrument_id: Option<String>, succeeded: bool)
        requires
            old(self)@.well_formed(),
        ensures
            final(self)@ == old(self)@.observed(
                request_id,
                text_option(instrument_id),
                succeeded,
            ),
            final(self)@.well_formed(),
    {
        if !self.try_accept_request(request_id) {
            return ;
        }
        if !succeeded {
            return ;
        }
        let instrument_id: String = match instrument_id {
            Some(instrument_id) => instrument_id,
            None => {
                return ;
            },
        };
        if contains_text(self.succeeded.as_slice(), instrument_id.as_str()) {
            return ;
        }
        let ghost before = texts(self.succeeded@);
        self.succeeded.push(instrument_id);
        assert(texts(self.succeeded@) =~= before.push(instrument_id@));
    }

    /// Ends the round of `request_id`, if it is the present one, with its outcome.
    pub fn finish_and_reset(&mut self, request_id: i32) -> (outcome: Option<SubscriptionOutcome>)
        requires
            old(self)@.well_formed(),
        ensures
            match outcome {
                Some(outcome) => {
                    &&& old(self)@.accepts(request_id)
                    &&& outcome.is_outcome_of(old(self)@.requested, old(self)@.succeeded)
                    &&& final(self)@ == old(self)@.finished(request_id)
                },
                None => !old(self)@.accepts(request_id) && final(self)@ == old(self)@,
            },
            final(self)@.well_formed(),
    {
        if !self.try_accept_request(request_id) {
            return None;
        }
        let outcome: SubscriptionOutcome = evaluate_subscription_results(
            self.requested.as_slice(),
            self.succeeded.as_slice(),
        );
        self.reset_active_round(request_id);
        Some(outcome)
    }

    /// Starts a new round.
    pub fn reset(&mut self)
        ensures
            final(self)@ == old(self)@.restarted(),
            old(self)@.well_formed() ==> final(self)@.well_formed(),
    {
        match self.active_request_id {
            Some(active_request_id) => {
                self.sealed_request_ids.insert(active_request_id);
            },
            None => {},
        }
        self.active_request_id = None;
        self.succeeded.clear();
        assert(texts(self.succeeded@) =~= Seq::empty());
    }

    fn try_accept_request(&mut self, request_id: i32) -> (accepted: bool)
        ensures
            accepted == old(self)@.accepts(request_id),
            final(self)@ == (PendingView {
                active: if accepted {
                    Some(request_id)
                } else {
                    old(self)@.active
                },
                ..old(self)@
            }),
    {
        if self.sealed_request_ids.contains(&request_id) {
            return false;
        }
        match self.active_request_id {
            Some(active_request_id) => active_request_id == request_id,
            None => {
                self.active_request_id = Some(request_id);
                true
            },
        }
    }

    fn reset_active_round(&mut self, request_id: i32)
        ensures
            final(self)@ == old(self)@.finished(request_id),
    {
        self.sealed_request_ids.insert(request_id);
        self.active_request_id = None;
        self.succeeded.clear();
        assert(texts(self.succeeded@) =~= Seq::empty());
    }
}

/// A request that is over stays over: its late responses change nothing and end no round.
pub proof fn law_sealed_request_is_ignored(
    pending: PendingView,
    request_id: i32,
    instrument_id: Option<Seq<char>>,
    succeeded: bool,
)
    requires
        pending.sealed.contains(request_id),
    ensures
        !pending.accepts(request_id),
        pending.observed(request_id, instrument_id, succeeded) == pending,
{
}

/// No step opens a request that is over.
pub proof fn law_sealed_requests_stay_sealed(
    pending: PendingView,
    sealed_id: i32,
    request_id: i32,
    instrument_id: Option<Seq<char>>,
    succeeded: bool,
)
    requires
        pending.sealed.contains(sealed_id),
    ensures
        pending.observed(request_id, instrument_id, succeeded).sealed.contains(sealed_id),
        pending.finished(request_id).sealed.contains(sealed_id),
        pending.restarted().sealed.contains(sealed_id),
{
}

/// The end of a round seals its request, and a new round seals the one before.
pub proof fn law_rounds_seal_their_request(pending: PendingView, request_id: i32)
    ensures
        pending.finished(request_id).sealed.contains(request_id),
        !pending.finished(request_id).accepts(request_id),
        pending.active == Some(request_id) ==> !pending.restarted().accepts(request_id),
{
}

/// Rounds are kept apart: while one is open, responses to another request change nothing.
pub proof fn law_rounds_are_isolated(
    pending: PendingView,
    request_id: i32,
    other_id: i32,
    instrument_id: Option<Seq<char>>,
    succeeded: bool,
)
    requires
        pending.active == Some(request_id),
        other_id != request_id,
    ensures
        pending.observed(other_id, instrument_id, succeeded) == pending,
        !pending.accepts(other_id),
{
}

/// How long a restored front has to wait.
#[derive(Debug, Clone, Copy, PartialEq, Eq, Structural)]
pub struct ReconnectGate {
    pub sleep_for: Span,
}

/// The wait of a front that has come back after a disconnect; none for one that has just come up.
pub fn reconnect_gate_for_front_connected(
    reconnect_state: &ReconnectState,
    now: Moment,
) -> (gate: Option<ReconnectGate>)
    ensures
        match gate {
            Some(gate) => {
                &&& reconnect_state@.status == OpenCtpSourceStatus::Degraded
                &&& gate.sleep_for.nanos == reconnect_state@.remaining_at(now)
            },
            None => reconnect_state@.status != OpenCtpSourceStatus::Degraded,
        },
{
    if reconnect_state.status() != OpenCtpSourceStatus::Degraded {
        return None;
    }
    Some(ReconnectGate { sleep_for: reconnect_state.remaining_until_reconnect_at(now) })
}

/// Where the library of the front is found.
#[derive(Debug, Clone, PartialEq, Eq)]
pub enum DynlibLocation<T> {
    /// The library itself.
    File(T),
    /// The directory that holds it.
    Directory(T),
}

/// Where to look for the library of the front: the configured file, else the configured directory.
pub fn choose_dynlib<T>(path: Option<T>, dir: Option<T>) -> (r: Result<
    DynlibLocation<T>,
    RuntimeError,
>)
    ensures
        match r {
            Ok(DynlibLocation::File(file)) => path == Some(file),
            Ok(DynlibLocation::Directory(directory)) => path is None && dir == Some(directory),
            Err(error) => {
                &&& path is None
                &&& dir is None
                &&& error.is_io(
                    "openctp md dynlib path is not configured set one of [OPENCTP_MD_DYNLIB_PATH, OPENCTP_MD_DYNLIB_DIR]"@,
                )
            },
        },
{
    match path {
        Some(file) => Ok(DynlibLocation::File(file)),
        None => match dir {
            Some(directory) => Ok(DynlibLocation::Directory(directory)),
            None => Err(
                RuntimeError::io(
                    "openctp md dynlib path is not configured set one of [OPENCTP_MD_DYNLIB_PATH, OPENCTP_MD_DYNLIB_DIR]",
                ),
            ),
        },
    }
}

/// The failure to make the directory in which the front keeps its flow.
pub fn flow_path_failure(flow_path: &str, error: &str) -> (failure: RuntimeError)
    ensures
        failure.is_io(
            "failed to create md flow path path=["@ + flow_path@ + "] error=["@ + error@ + "]"@,
        ),
{
    RuntimeError::Io {
        reason: joined5(
            "failed to create md flow path path=[",
            flow_path,
            "] error=[",
            error,
            "]",
        ),
    }
}

/// The failure to build the front.
pub fn api_build_failure(reason: &str) -> (failure: RuntimeError)
    ensures
        failure.is_io("failed to build ctp md api: "@ + reason@),
{
    RuntimeError::Io { reason: joined2("failed to build ctp md api: ", reason) }
}

/// The failure to write an instrument for the front.
pub fn encode_failure(instrument: &str, error: &str) -> (failure: RuntimeError)
    ensures
        failure.is_io(
            "failed to encode instrument for subscribe instrument=["@ + instrument@ + "] error=["@
                + error@ + "]"@,
        ),
{
    RuntimeError::Io {
        reason: joined5(
            "failed to encode instrument for subscribe instrument=[",
            instrument,
            "] error=[",
            error,
            "]",
        ),
    }
}

/// The reason of a front whose end was not in order.
pub open spec fn join_failure(code: int) -> Seq<char> {
    "ctp md api join returned non-zero ["@ + signed_decimal(code) + "]"@
}

/// The end of a driver whose loop is over and whose front has ended with `join_code`.
///
/// The source is told of a stop that was asked for. A front that ends badly of its own accord is a
/// failure; otherwise the driver ends as its loop did.
pub fn conclude_driver<P>(
    loop_result: Result<(), RuntimeError>,
    join_code: i32,
    stopping: bool,
    tx: &mut Outbox<MdDriverEvent<P>>,
) -> (r: Result<(), RuntimeError>)
    ensures
        if !stopping && join_code != 0 && loop_result is Ok {
            &&& r matches Err(error) && error.is_io(join_failure(join_code as int))
            &&& *final(tx) == *old(tx)
        } else if !stopping {
            r == loop_result && *final(tx) == *old(tx)
        } else {
            ||| {
                &&& r == loop_result
                &&& final(tx)@ == old(tx)@.push(MdDriverEvent::Stop)
                &&& final(tx).refused() == old(tx).refused()
            }
            ||| {
                &&& r == Err::<(), RuntimeError>(RuntimeError::ChannelSend)
                &&& final(tx)@ == old(tx)@
                &&& final(tx).refused() == old(tx).refused().push(MdDriverEvent::Stop)
            }
        },
{
    if join_code != 0 && loop_result.is_ok() && !stopping {
        let code_text: String = signed_decimal_text(join_code as i64);
        return Err(
            RuntimeError::Io {
                reason: joined3("ctp md api join returned non-zero [", code_text.as_str(), "]"),
            },
        );
    }
    if stopping {
        match tx.send(MdDriverEvent::Stop) {
            Ok(_) => {},
            Err(error) => {
                return Err(error);
            },
        }
    }
    loop_result
}

/// What the front says about a request, with the message as far as it could be read.
#[derive(Debug, Clone, PartialEq, Eq)]
pub struct RspInfo {
    pub error_id: i32,
    pub message: Option<String>,
}

/// The reason of a response that reports an error.
pub open spec fn rsp_error(info: RspInfo) -> Seq<char> {
    "ctp md rsp error error_id=["@ + signed_decimal(info.error_id as int) + "] message=["@ + (
    match info.message {
        Some(message) => message@,
        None => "failed to decode rsp error message"@,
    }) + "]"@
}

/// The reason of an error that a response reports; none where it reports success.
pub open spec fn rsp_error_reason(info: Option<RspInfo>) -> Option<Seq<char>> {
    match info {
        Some(info) => if info.error_id == 0 {
            None
        } else {
            Some(rsp_error(info))
        },
        None => None,
    }
}

/// The reason of an error that a response reports; none where it reports success.
pub fn rsp_info_error_reason(rsp_info: &Option<RspInfo>) -> (reason: Option<String>)
    ensures
        text_option(reason) == rsp_error_reason(*rsp_info),
{
    match rsp_info {
        Some(info) => {
            if info.error_id == 0 {
                return None;
            }
            let id_text: String = signed_decimal_text(info.error_id as i64);
            let message: &str = match &info.message {
                Some(message) => message.as_str(),
                None => "failed to decode rsp error message",
            };
            Some(
                joined5(
                    "ctp md rsp error error_id=[",
                    id_text.as_str(),
                    "] message=[",
                    message,
                    "]",
                ),
            )
        },
        None => None,
    }
}

/// What the loop hears of a front that is gone; nothing while the driver is stopping.
pub fn front_disconnected(reason: i32, stopping: bool) -> (event: Option<LiveMdControlEvent>)
    ensures
        event == if stopping {
            None
        } else {
            Some(LiveMdControlEvent::FrontDisconnected(reason))
        },
{
    if stopping {
        None
    } else {
        Some(LiveMdControlEvent::FrontDisconnected(reason))
    }
}

/// What the loop hears of the response to a login, once the last part of it is there.
pub fn user_login_answered(rsp_info: &Option<RspInfo>, is_last: bool) -> (event: Option<
    LiveMdControlEvent,
>)
    ensures
        match event {
            None => !is_last,
            Some(LiveMdControlEvent::UserLoginSucceeded) => is_last && rsp_error_reason(
                *rsp_info,
            ) is None,
            Some(LiveMdControlEvent::LoginFailed(reason)) => is_last && rsp_error_reason(*rsp_info)
                == Some(reason@),
            _ => false,
        },
{
    if !is_last {
        return None;
    }
    match rsp_info_error_reason(rsp_info) {
        Some(reason) => Some(LiveMdControlEvent::LoginFailed(reason)),
        None => Some(LiveMdControlEvent::UserLoginSucceeded),
    }
}

/// What the loop hears of an error of the front, once the last part of it is there; nothing while
/// the driver is stopping.
pub fn error_answered(rsp_info: &Option<RspInfo>, is_last: bool, stopping: bool) -> (event: Option<
    LiveMdControlEvent,
>)
    ensures
        match event {
            None => !is_last || stopping,
            Some(LiveMdControlEvent::DriverError(reason)) => {
                &&& is_last && !stopping
                &&& reason@ == match rsp_error_reason(*rsp_info) {
                    Some(detail) => detail,
                    None => "ctp md rsp error without detailed info"@,
                }
            },
            _ => false,
        },
{
    if !is_last || stopping {
        return None;
    }
    match rsp_info_error_reason(rsp_info) {
        Some(reason) => Some(LiveMdControlEvent::DriverError(reason)),
        None => Some(
            LiveMdControlEvent::DriverError("ctp md rsp error without detailed info".to_owned()),
        ),
    }
}

/// What the loop hears of the response to the subscription of one instrument.
pub fn subscription_answered(
    request_id: i32,
    instrument_id: Option<String>,
    rsp_info: &Option<RspInfo>,
    is_last: bool,
) -> (event: LiveMdControlEvent)
    ensures
        event == (LiveMdControlEvent::SubscriptionResponse {
            request_id,
            instrument_id,
            succeeded: rsp_error_reason(*rsp_info) is None,
            is_last,
        }),
{
    let reason: Option<String> = rsp_info_error_reason(rsp_info);
    LiveMdControlEvent::SubscriptionResponse {
        request_id,
        instrument_id,
        succeeded: reason.is_none(),
        is_last,
    }
}

/// A depth quote of the front, its texts as far as they could be read.
#[derive(Debug, PartialEq)]
pub struct DepthQuote<P> {
    pub instrument_id: Result<String, String>,
    pub exchange_id: Result<String, String>,
    pub trading_day: Result<String, String>,
    pub action_day: Result<String, String>,
    pub update_time: Result<String, String>,
    pub update_millisec: i32,
    pub last_price: P,
    pub volume: i32,
    pub turnover: P,
    pub open_interest: P,
    pub bid_price_1: P,
    pub bid_volume_1: i32,
    pub ask_price_1: P,
    pub ask_volume_1: i32,
}

impl<P> DepthQuote<P> {
    /// Why the first text that could not be read could not be read.
    pub open spec fn unreadable(self) -> Option<Seq<char>> {
        if self.instrument_id is Err {
            Some(self.instrument_id->Err_0@)
        } else if self.exchange_id is Err {
            Some(self.exchange_id->Err_0@)
        } else if self.trading_day is Err {
            Some(self.trading_day->Err_0@)
        } else if self.action_day is Err {
            Some(self.action_day->Err_0@)
        } else if self.update_time is Err {
            Some(self.update_time->Err_0@)
        } else {
            None
        }
    }

    /// The raw tick that the quote amounts to, where all of it could be read.
    pub open spec fn tick(self) -> RawTickSnapshot<P> {
        RawTickSnapshot {
            instrument_id: self.instrument_id->Ok_0,
            exchange_id: self.exchange_id->Ok_0,
            trading_day: self.trading_day->Ok_0,
            action_day: self.action_day->Ok_0,
            update_time: self.update_time->Ok_0,
            update_millisec: self.update_millisec,
            last_price: self.last_price,
            volume: self.volume as i64,
            turnover: self.turnover,
            open_interest: self.open_interest,
            bid_price_1: self.bid_price_1,
            bid_volume_1: self.bid_volume_1 as i64,
            ask_price_1: self.ask_price_1,
            ask_volume_1: self.ask_volume_1 as i64,
        }
    }
}

fn read_text(text: Result<String, String>) -> (r: Result<String, RuntimeError>)
    ensures
        match text {
            Ok(text) => r == Ok::<String, RuntimeError>(text),
            Err(reason) => r matches Err(error) && error.is_io(
                "failed to decode ctp text field: "@ + reason@,
            ),
        },
{
    match text {
        Ok(text) => Ok(text),
        Err(reason) => Err(
            RuntimeError::Io {
                reason: joined2("failed to decode ctp text field: ", reason.as_str()),
            },
        ),
    }
}

/// The raw tick of a depth quote; an error where a text of it could not be read.
pub fn raw_tick_from_depth_market_data<P>(quote: DepthQuote<P>) -> (r: Result<
    RawTickSnapshot<P>,
    RuntimeError,
>)
    ensures
        quote.unreadable() is None <==> {
            &&& quote.instrument_id is Ok
            &&& quote.exchange_id is Ok
            &&& quote.trading_day is Ok
            &&& quote.action_day is Ok
            &&& quote.update_time is Ok
        },
        match quote.unreadable() {
            None => r == Ok::<RawTickSnapshot<P>, RuntimeError>(quote.tick()),
            Some(reason) => r matches Err(error) && error.is_io(
                "failed to decode ctp text field: "@ + reason,
            ),
        },
{
    let instrument_id: String = match read_text(quote.instrument_id) {
        Ok(text) => text,
        Err(error) => {
            return Err(error);
        },
    };
    let exchange_id: String = match read_text(quote.exchange_id) {
        Ok(text) => text,
        Err(error) => {
            return Err(error);
        },
    };
    let trading_day: String = match read_text(quote.trading_day) {
        Ok(text) => text,
        Err(error) => {
            return Err(error);
        },
    };
    let action_day: String = match read_text(quote.action_day) {
        Ok(text) => text,
        Err(error) => {
            return Err(error);
        },
    };
    let update_time: String = match read_text(quote.update_time) {
        Ok(text) => text,
        Err(error) => {
            return Err(error);
        },
    };
    Ok(
        RawTickSnapshot {
            instrument_id,
            exchange_id,
            trading_day,
            action_day,
            update_time,
            update_millisec: quote.update_millisec,
            last_price: quote.last_price,
            volume: quote.volume as i64,
            turnover: quote.turnover,
            open_interest: quote.open_interest,
            bid_price_1: quote.bid_price_1,
            bid_volume_1: quote.bid_volume_1 as i64,
            ask_price_1: quote.ask_price_1,
            ask_volume_1: quote.ask_volume_1 as i64,
        },
    )
}

/// A depth quote of which every text could be read becomes a raw tick that carries each field of the
/// quote under the field of the same name.
pub proof fn law_live_tick_carries_its_quote<P>(
    quote: DepthQuote<P>,
    r: Result<RawTickSnapshot<P>, RuntimeError>,
)
    requires
        call_ensures(raw_tick_from_depth_market_data::<P>, (quote,), r),
        quote.instrument_id is Ok,
        quote.exchange_id is Ok,
        quote.trading_day is Ok,
        quote.action_day is Ok,
        quote.update_time is Ok,
    ensures
        r matches Ok(tick) && {
            &&& quote.instrument_id == Ok::<String, String>(tick.instrument_id)
            &&& quote.exchange_id == Ok::<String, String>(tick.exchange_id)
            &&& quote.trading_day == Ok::<String, String>(tick.trading_day)
            &&& quote.action_day == Ok::<String, String>(tick.action_day)
            &&& quote.update_time == Ok::<String, String>(tick.update_time)
            &&& tick.update_millisec == quote.update_millisec
            &&& tick.last_price == quote.last_price
            &&& tick.volume == quote.volume
            &&& tick.turnover == quote.turnover
            &&& tick.open_interest == quote.open_interest
            &&& tick.bid_price_1 == quote.bid_price_1
            &&& tick.bid_volume_1 == quote.bid_volume_1
            &&& tick.ask_price_1 == quote.ask_price_1
            &&& tick.ask_volume_1 == quote.ask_volume_1
        },
{
}

/// A depth quote with a text that could not be read becomes no tick, for the reason of the first such
/// text.
pub proof fn law_unreadable_quote_is_refused<P>(
    quote: DepthQuote<P>,
    r: Result<RawTickSnapshot<P>, RuntimeError>,
    reason: String,
)
    requires
        call_ensures(raw_tick_from_depth_market_data::<P>, (quote,), r),
        ({
            let unread = Err::<String, String>(reason);
            ||| quote.instrument_id == unread
            ||| quote.instrument_id is Ok && quote.exchange_id == unread
            ||| quote.instrument_id is Ok && quote.exchange_id is Ok && quote.trading_day == unread
            ||| quote.instrument_id is Ok && quote.exchange_id is Ok && quote.trading_day is Ok
                && quote.action_day == unread
            ||| quote.instrument_id is Ok && quote.exchange_id is Ok && quote.trading_day is Ok
                && quote.action_day is Ok && quote.update_time == unread
        }),
    ensures
        r matches Err(error) && error.is_io("failed to decode ctp text field: "@ + reason@),
{
}

/// A response counts for the present round if its request is not over and no other one is open.
pub proof fn law_responses_find_their_round(pending: PendingView, request_id: i32)
    ensures
        pending.accepts(request_id) <==> !pending.sealed.contains(request_id) && match pending.active {
            Some(active) => active == request_id,
            None => true,
        },
{
}

/// In one step: an instrument has succeeded if it had before, or the response says so; nothing else
/// changes but that the round is open.
pub proof fn law_response_adds_what_it_reports(
    pending: PendingView,
    request_id: i32,
    instrument_id: Option<Seq<char>>,
    succeeded: bool,
    x: Seq<char>,
)
    requires
        pending.accepts(request_id),
    ensures
        ({
            let next = pending.observed(request_id, instrument_id, succeeded);
            &&& next.succeeded.contains(x) <==> pending.succeeded.contains(x) || (succeeded
                && instrument_id == Some(x))
            &&& next.active == Some(request_id)
            &&& next.requested == pending.requested
            &&& next.sealed == pending.sealed
        }),
{
    let next = pending.observed(request_id, instrument_id, succeeded);
    if succeeded && instrument_id is Some && !pending.succeeded.contains(instrument_id->0) {
        let name = instrument_id->0;
        if pending.succeeded.contains(x) {
            let i = choose|i: int| 0 <= i < pending.succeeded.len() && pending.succeeded[i] == x;
            assert(next.succeeded[i] == x);
        }
        assert(next.succeeded[pending.succeeded.len() as int] == name);
        if next.succeeded.contains(x) {
            let i = choose|i: int| 0 <= i < next.succeeded.len() && next.succeeded[i] == x;
            if i < pending.succeeded.len() {
                assert(pending.succeeded[i] == x);
            }
        }
    }
}

/// A response to a subscription: which instrument it is about, and whether it succeeded.
pub type SubscriptionResponse = (Option<Seq<char>>, bool);

/// What is known after some responses to one request, one after the other.
pub open spec fn observed_all(
    pending: PendingView,
    request_id: i32,
    responses: Seq<SubscriptionResponse>,
) -> PendingView
    decreases responses.len(),
{
    if responses.len() == 0 {
        pending
    } else {
        let last = responses.last();
        observed_all(pending, request_id, responses.drop_last()).observed(
            request_id,
            last.0,
            last.1,
        )
    }
}

/// Over any responses to one request, an instrument has succeeded if and only if it had before or some
/// response reported its success, whatever the other responses said.
pub proof fn law_one_success_is_enough(
    pending: PendingView,
    request_id: i32,
    responses: Seq<SubscriptionResponse>,
    x: Seq<char>,
)
    requires
        pending.accepts(request_id),
    ensures
        ({
            let next = observed_all(pending, request_id, responses);
            &&& next.succeeded.contains(x) <==> pending.succeeded.contains(x) || responses.contains(
                (Some(x), true),
            )
            &&& next.accepts(request_id)
            &&& next.requested == pending.requested
            &&& next.sealed == pending.sealed
        }),
    decreases responses.len(),
{
    if responses.len() > 0 {
        let head = responses.drop_last();
        let last = responses.last();
        law_one_success_is_enough(pending, request_id, head, x);
        law_response_adds_what_it_reports(
            observed_all(pending, request_id, head),
            request_id,
            last.0,
            last.1,
            x,
        );
        if head.contains((Some(x), true)) {
            let i = choose|i: int| 0 <= i < head.len() && head[i] == (Some(x), true);
            assert(responses[i] == (Some(x), true));
        }
        if responses.contains((Some(x), true)) {
            let i = choose|i: int| 0 <= i < responses.len() && responses[i] == (Some(x), true);
            if i < head.len() {
                assert(head[i] == (Some(x), true));
            }
        }
        if last == (Some(x), true) {
            assert(responses[responses.len() - 1] == (Some(x), true));
        }
    }
}

/// The outcome of a round that began with nothing: a requested instrument is reported as subscribed if
/// some response reported its success, and as failed otherwise.
pub proof fn law_round_reports_what_succeeded(
    pending: PendingView,
    request_id: i32,
    responses: Seq<SubscriptionResponse>,
    outcome: SubscriptionOutcome,
    x: Seq<char>,
)
    requires
        pending.accepts(request_id),
        pending.succeeded.len() == 0,
        outcome.is_outcome_of(
            pending.requested,
            observed_all(pending, request_id, responses).succeeded,
        ),
        pending.requested.contains(x),
    ensures
        texts(outcome.succeeded_instruments@).contains(x) <==> responses.contains((Some(x), true)),
        texts(outcome.failed_instruments@).contains(x) <==> !responses.contains((Some(x), true)),
{
    law_one_success_is_enough(pending, request_id, responses, x);
    let succeeded = observed_all(pending, request_id, responses).succeeded;
    crate::source::law_instruments_are_sorted_by_success(pending.requested, succeeded, x);
}

/// The end of a round and the start of the next one leave nothing of it behind, but that its request is
/// over.
pub proof fn law_rounds_begin_anew(pending: PendingView, request_id: i32, other: i32)
    ensures
        ({
            let next = pending.finished(request_id);
            &&& next.requested == pending.requested
            &&& next.succeeded.len() == 0
            &&& next.active is None
            &&& next.sealed.contains(other) <==> pending.sealed.contains(other) || other == request_id
        }),
        ({
            let next = pending.restarted();
            &&& next.requested == pending.requested
            &&& next.succeeded.len() == 0
            &&& next.active is None
            &&& next.sealed.contains(other) <==> pending.sealed.contains(other) || pending.active
                == Some(other)
        }),
{
}

/// A front that comes back after a disconnect waits until the interval has passed since then; one that
/// has just come up does not wait.
pub proof fn law_gate_waits_out_the_interval(
    state: &ReconnectState,
    now: Moment,
    gate: Option<ReconnectGate>,
)
    requires
        call_ensures(reconnect_gate_for_front_connected, (state, now), gate),
    ensures
        gate is Some <==> state@.status == OpenCtpSourceStatus::Degraded,
        gate is Some ==> (state@.disconnected_at matches Some(at) ==> {
            let passed = if now.nanos >= at.nanos {
                now.nanos - at.nanos
            } else {
                0
            };
            gate->0.sleep_for.nanos == if passed >= state@.interval.nanos {
                0
            } else {
                state@.interval.nanos - passed
            }
        }),
{
}

/// The file is taken where one is given, the directory where only that is, and neither is an error.
pub proof fn law_file_goes_before_directory<T>(
    path: Option<T>,
    dir: Option<T>,
    r: Result<DynlibLocation<T>, RuntimeError>,
)
    requires
        call_ensures(choose_dynlib::<T>, (path, dir), r),
    ensures
        path matches Some(file) ==> r == Ok::<DynlibLocation<T>, RuntimeError>(
            DynlibLocation::File(file),
        ),
        path is None ==> (dir matches Some(directory) ==> r == Ok::<DynlibLocation<T>, RuntimeError>(
            DynlibLocation::Directory(directory),
        )),
        r is Err <==> path is None && dir is None,
{
}

/// A response reports an error if and only if it says so with a number other than zero.
pub proof fn law_responses_fail_by_their_number(info: Option<RspInfo>)
    ensures
        rsp_error_reason(info) is Some <==> (info matches Some(info) && info.error_id != 0),
        info matches Some(info) ==> (info.error_id != 0 ==> rsp_error_reason(Some(info)) == Some(
            "ctp md rsp error error_id=["@ + signed_decimal(info.error_id as int) + "] message=["@
                + (match info.message {
                Some(message) => message@,
                None => "failed to decode rsp error message"@,
            }) + "]"@,
        )),
{
}

/// The last part of the answer to a login tells whether it succeeded; the other parts tell nothing.
pub proof fn law_login_is_answered_once(
    rsp_info: &Option<RspInfo>,
    is_last: bool,
    event: Option<LiveMdControlEvent>,
)
    requires
        call_ensures(user_login_answered, (rsp_info, is_last), event),
    ensures
        event is Some <==> is_last,
        is_last ==> (event == Some(LiveMdControlEvent::UserLoginSucceeded) <==> !(
        *rsp_info matches Some(info) && info.error_id != 0)),
        is_last && !(event == Some(LiveMdControlEvent::UserLoginSucceeded)) ==> (
        event matches Some(LiveMdControlEvent::LoginFailed(reason)) && rsp_error_reason(*rsp_info)
            == Some(reason@)),
{
}

/// The last part of an error of the front is passed on as a failure of the driver, unless the driver is
/// stopping.
pub proof fn law_front_error_is_passed_on(
    rsp_info: &Option<RspInfo>,
    is_last: bool,
    stopping: bool,
    event: Option<LiveMdControlEvent>,
)
    requires
        call_ensures(error_answered, (rsp_info, is_last, stopping), event),
    ensures
        event is Some <==> is_last && !stopping,
        event matches Some(event) ==> event is DriverError,
        event matches Some(LiveMdControlEvent::DriverError(reason)) ==> (
        rsp_error_reason(*rsp_info) matches Some(detail) ==> reason@ == detail),
{
}

/// The answer about one instrument is passed on as it is: whose it is, whether it succeeded, and whether
/// it is the last.
pub proof fn law_subscription_answer_is_passed_on(
    request_id: i32,
    instrument_id: Option<String>,
    rsp_info: &Option<RspInfo>,
    is_last: bool,
    event: LiveMdControlEvent,
)
    requires
        call_ensures(subscription_answered, (request_id, instrument_id, rsp_info, is_last), event),
    ensures
        event matches LiveMdControlEvent::SubscriptionResponse {
            request_id: id,
            instrument_id: instrument,
            succeeded,
            is_last: last,
        } && id == request_id && instrument == instrument_id && last == is_last && (succeeded <==> !(
        *rsp_info matches Some(info) && info.error_id != 0)),
{
}

/// A lost front is passed on with its reason, unless the driver is stopping.
pub proof fn law_lost_front_is_passed_on(
    reason: i32,
    stopping: bool,
    event: Option<LiveMdControlEvent>,
)
    requires
        call_ensures(front_disconnected, (reason, stopping), event),
    ensures
        event is Some <==> !stopping,
        event is Some ==> event == Some(LiveMdControlEvent::FrontDisconnected(reason)),
{
}

/// A response to the present round, or to the first request of a new one, adds the instrument that it
/// reports as a success, and takes none away; any other response changes nothing.
pub proof fn law_observed_success_is_added(
    pending: &mut PendingSubscription,
    request_id: i32,
    instrument_id: Option<String>,
    succeeded: bool,
    x: Seq<char>,
)
    requires
        old(pending)@.well_formed(),
        call_ensures(
            PendingSubscription::observe,
            (pending, request_id, instrument_id, succeeded),
            (),
        ),
    ensures
        ({
            let counts = !old(pending)@.sealed.contains(request_id) && (old(pending)@.active is None
                || old(pending)@.active == Some(request_id));
            &&& final(pending)@.succeeded.contains(x) <==> old(pending)@.succeeded.contains(x) || (
            counts && succeeded && text_option(instrument_id) == Some(x))
            &&& final(pending)@.requested == old(pending)@.requested
            &&& final(pending)@.sealed == old(pending)@.sealed
            &&& counts ==> final(pending)@.active == Some(request_id)
            &&& !counts ==> final(pending)@.active == old(pending)@.active
        }),
{
    if old(pending)@.accepts(request_id) {
        law_response_adds_what_it_reports(
            old(pending)@,
            request_id,
            text_option(instrument_id),
            succeeded,
            x,
        );
    }
}

/// The end of a round reports what succeeded in it, seals its request and forgets the rest; the end of a
/// round that is not the present one reports nothing and changes nothing.
pub proof fn law_finished_round_is_reported(
    pending: &mut PendingSubscription,
    request_id: i32,
    r: Option<SubscriptionOutcome>,
    x: Seq<char>,
)
    requires
        old(pending)@.well_formed(),
        call_ensures(PendingSubscription::finish_and_reset, (pending, request_id), r),
        old(pending)@.requested.contains(x),
    ensures
        r is Some <==> !old(pending)@.sealed.contains(request_id) && (old(pending)@.active is None
            || old(pending)@.active == Some(request_id)),
        r is None ==> final(pending)@ == old(pending)@,
        r matches Some(outcome) ==> {
            &&& texts(outcome.succeeded_instruments@).contains(x) <==> old(
                pending,
            )@.succeeded.contains(x)
            &&& texts(outcome.failed_instruments@).contains(x) <==> !old(
                pending,
            )@.succeeded.contains(x)
            &&& outcome.status == OpenCtpSourceStatus::Running ==> old(pending)@.succeeded.contains(x)
            &&& final(pending)@.requested == old(pending)@.requested
            &&& final(pending)@.succeeded.len() == 0
            &&& final(pending)@.active is None
            &&& final(pending)@.sealed == old(pending)@.sealed.insert(request_id)
        },
{
    crate::source::law_instruments_are_sorted_by_success(
        old(pending)@.requested,
        old(pending)@.succeeded,
        x,
    );
    if r is Some {
        let failed = texts(r->0.failed_instruments@);
        if failed.contains(x) {
            assert(failed.len() > 0);
        }
    }
}

/// A driver that was asked to stop tells the source so; one that was not tells nothing, and fails where
/// its front ended badly after a good loop. Otherwise it ends as its loop did, unless nobody hears the
/// stop.
pub proof fn law_driver_ends_as_its_loop<P>(
    loop_result: Result<(), RuntimeError>,
    join_code: i32,
    stopping: bool,
    tx: &mut Outbox<MdDriverEvent<P>>,
    r: Result<(), RuntimeError>,
)
    requires
        call_ensures(conclude_driver::<P>, (loop_result, join_code, stopping, tx), r),
    ensures
        !stopping ==> final(tx)@ == old(tx)@ && final(tx).refused() == old(tx).refused(),
        !stopping && (join_code == 0 || loop_result is Err) ==> r == loop_result,
        !stopping && join_code != 0 && loop_result is Ok ==> (r matches Err(error) && error.is_io(
            "ctp md api join returned non-zero ["@ + signed_decimal(join_code as int) + "]"@,
        )),
        stopping && final(tx).refused() == old(tx).refused() ==> r == loop_result && final(tx)@ == old(
            tx,
        )@.push(MdDriverEvent::Stop),
        stopping && final(tx).refused() != old(tx).refused() ==> r == Err::<(), RuntimeError>(
            RuntimeError::ChannelSend,
        ) && final(tx)@ == old(tx)@,
{
    if stopping {
        assert(old(tx).refused().push(MdDriverEvent::Stop).len() != old(tx).refused().len());
    }
}

} // verus!
