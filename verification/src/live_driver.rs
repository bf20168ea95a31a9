//! The loop of a driver that is connected to a CTP front.
//!
//! The loop names a step, its owner carries the step out and reports how it went.
use crate::channel::Outbox;
use crate::clock::{Moment, Span};
use crate::driver_ctp::{
    reconnect_gate_for_front_connected, PendingSubscription, PendingView, RECONNECT_INTERVAL_SECS,
};
use crate::errors::RuntimeError;
use crate::source::{
    MdDriverEvent, OpenCtpSourceStatus, ReconnectState, ReconnectUpdate, ReconnectView,
};
use crate::text::{joined3, signed_decimal, signed_decimal_text, text_option, texts};
use vstd::prelude::*;

verus! {

/// What the callbacks of the front tell the loop.
#[derive(Debug, Clone, PartialEq, Eq)]
pub enum LiveMdControlEvent {
    FrontConnected,
    FrontDisconnected(i32),
    UserLoginSucceeded,
    /// The front refused the login, for this reason.
    LoginFailed(String),
    SubscriptionResponse {
        request_id: i32,
        instrument_id: Option<String>,
        succeeded: bool,
        is_last: bool,
    },
    DriverError(String),
}

/// What the owner of the loop has to do next.
pub enum LiveStep {
    /// Wait for a stop or for a control event.
    Wait,
    /// Wait for a stop, or until the time has passed.
    Sleep(Span),
    /// Send the login request.
    Login,
    /// Send the subscription request.
    Subscribe,
    /// Let go of the front, mark the driver as stopping if told so, and leave the loop in good
    /// order.
    Release { mark_stopping: bool },
    /// Leave the loop.
    Finish(Result<(), RuntimeError>),
}

/// How a step went.
pub enum LiveReply {
    /// A stop was asked for.
    StopAsked,
    /// A control event came, at the moment `now`; `stopping` says whether the driver is stopping.
    Control { event: LiveMdControlEvent, now: Moment, stopping: bool },
    /// Nobody is left who could send a control event.
    ControlClosed,
    /// The time has passed.
    Woken { stopping: bool },
    /// The request was handed over, with this result.
    Sent(i32),
    /// There is no front to send the request to.
    ApiMissing,
    /// The request could not be made.
    Failed(RuntimeError),
}

/// Which step the loop waits for.
#[derive(Debug, Clone, Copy, PartialEq, Eq, Structural)]
pub enum LivePhase {
    Waiting,
    Sleeping,
    LoggingIn,
    Subscribing,
    Finished,
}

impl LivePhase {
    /// Whether `reply` answers the step that the loop waits for.
    pub open spec fn takes(self, reply: LiveReply) -> bool {
        match self {
            LivePhase::Waiting => reply is StopAsked || reply is Control || reply is ControlClosed,
            LivePhase::Sleeping => reply is StopAsked || reply is Woken,
            LivePhase::LoggingIn => reply is Sent || reply is ApiMissing,
            LivePhase::Subscribing => reply is Sent || reply is ApiMissing || reply is Failed,
            LivePhase::Finished => false,
        }
    }
}

/// The state of the loop.
#[derive(Debug)]
pub struct LiveDriver {
    phase: LivePhase,
    pending: PendingSubscription,
    reconnect: ReconnectState,
}

#[verifier::ext_equal]
pub struct LiveView {
    pub phase: LivePhase,
    pub pending: PendingView,
    pub reconnect: ReconnectView,
}

impl View for LiveDriver {
    type V = LiveView;

    closed spec fn view(&self) -> LiveView {
        LiveView { phase: self.phase, pending: self.pending@, reconnect: self.reconnect@ }
    }
}

/// The reason of a login that was refused with `code`.
pub open spec fn login_failure(code: int) -> Seq<char> {
    "ctp md req_user_login failed code=["@ + signed_decimal(code) + "]"@
}

/// The reason of a subscription that was refused with `code`.
pub open spec fn subscribe_failure(code: int) -> Seq<char> {
    "ctp md subscribe_market_data failed code=["@ + signed_decimal(code) + "]"@
}

/// Whether the driver gives up for `reason`: the source hears it, as a refused login where it is one,
/// and the loop is left with it.
pub open spec fn gives_up<P>(
    at_login: bool,
    reason: Seq<char>,
    notices: Seq<MdDriverEvent<P>>,
    step: LiveStep,
) -> bool {
    &&& notices.len() == 1
    &&& if at_login {
        notices[0] matches MdDriverEvent::LoginFailed(text) && text@ == reason
    } else {
        notices[0] matches MdDriverEvent::Error(text) && text@ == reason
    }
    &&& step matches LiveStep::Finish(Err(error)) && error.is_io(reason)
}

impl LiveView {
    pub open spec fn in_phase(self, phase: LivePhase) -> Self {
        LiveView { phase, ..self }
    }

    /// Whether the subscription is in order, and a reconnect can still be counted.
    pub open spec fn well_formed(self) -> bool {
        &&& self.pending.well_formed()
        &&& self.reconnect.reconnects < u64::MAX
    }

    /// Whether a restored front logs in now, unless the driver is stopping.
    pub open spec fn logs_in<P>(
        self,
        stopping: bool,
        next: Self,
        notices: Seq<MdDriverEvent<P>>,
        step: LiveStep,
    ) -> bool {
        &&& notices.len() == 0
        &&& if stopping {
            &&& step == (LiveStep::Release { mark_stopping: false })
            &&& next == self.in_phase(LivePhase::Finished)
        } else {
            &&& step is Login
            &&& next == self.in_phase(LivePhase::LoggingIn)
        }
    }

    /// Whether a request that returned `code` is on its way, or the driver gives up.
    pub open spec fn goes_by_code<P>(
        self,
        code: i32,
        failure: Seq<char>,
        next: Self,
        notices: Seq<MdDriverEvent<P>>,
        step: LiveStep,
    ) -> bool {
        if code == 0 {
            &&& notices.len() == 0
            &&& step is Wait
            &&& next == self.in_phase(LivePhase::Waiting)
        } else {
            &&& gives_up(self.phase == LivePhase::LoggingIn, failure, notices, step)
            &&& next == self.in_phase(LivePhase::Finished)
        }
    }

    /// Whether the end of a subscription round is reported: a round that mends a disconnect is
    /// counted and reported as a reconnect first, with the outcome's status.
    pub open spec fn reports_outcome<P>(
        self,
        request_id: i32,
        next: Self,
        notices: Seq<MdDriverEvent<P>>,
    ) -> bool {
        let mends = self.reconnect.status == OpenCtpSourceStatus::Degraded;
        &&& notices.len() == if mends {
            2int
        } else {
            1
        }
        &&& notices.last() matches MdDriverEvent::SubscriptionOutcome(outcome)
        &&& outcome.is_outcome_of(self.pending.requested, self.pending.succeeded)
        &&& mends ==> notices[0] == MdDriverEvent::<P>::ReconnectUpdate(
            ReconnectUpdate {
                reconnects_total: (self.reconnect.reconnects + 1) as u64,
                status: outcome.status,
            },
        )
        &&& next == (LiveView {
            phase: LivePhase::Waiting,
            pending: self.pending.finished(request_id),
            reconnect: if mends {
                ReconnectView {
                    reconnects: (self.reconnect.reconnects + 1) as u64,
                    status: OpenCtpSourceStatus::Running,
                    disconnected_at: None,
                    ..self.reconnect
                }
            } else {
                self.reconnect
            },
        })
    }

    /// Whether the driver gives up for what the front reports; a driver that is stopping just ends.
    pub open spec fn breaks_off<P>(
        self,
        at_login: bool,
        reason: Seq<char>,
        stopping: bool,
        next: Self,
        notices: Seq<MdDriverEvent<P>>,
        step: LiveStep,
    ) -> bool {
        &&& next == self.in_phase(LivePhase::Finished)
        &&& if stopping {
            notices.len() == 0 && step == LiveStep::Finish(Ok(()))
        } else {
            gives_up(at_login, reason, notices, step)
        }
    }

    /// Whether a control event is answered by `notices` to the source and by `step`.
    pub open spec fn handles<P>(
        self,
        event: LiveMdControlEvent,
        now: Moment,
        stopping: bool,
        next: Self,
        notices: Seq<MdDriverEvent<P>>,
        step: LiveStep,
    ) -> bool {
        match event {
            LiveMdControlEvent::FrontConnected => if self.reconnect.status
                == OpenCtpSourceStatus::Degraded && self.reconnect.remaining_at(now) > 0 {
                &&& notices.len() == 0
                &&& step matches LiveStep::Sleep(span) && span.nanos == self.reconnect.remaining_at(now)
                &&& next == self.in_phase(LivePhase::Sleeping)
            } else {
                self.logs_in(stopping, next, notices, step)
            },
            LiveMdControlEvent::UserLoginSucceeded => {
                &&& notices.len() == 0
                &&& step is Subscribe
                &&& next == (LiveView {
                    phase: LivePhase::Subscribing,
                    pending: self.pending.restarted(),
                    ..self
                })
            },
            LiveMdControlEvent::FrontDisconnected(_) => {
                &&& notices == seq![
                    MdDriverEvent::<P>::ReconnectUpdate(
                        ReconnectUpdate {
                            reconnects_total: self.reconnect.reconnects,
                            status: OpenCtpSourceStatus::Degraded,
                        },
                    ),
                ]
                &&& step is Wait
                &&& next == (LiveView {
                    phase: LivePhase::Waiting,
                    reconnect: ReconnectView {
                        status: OpenCtpSourceStatus::Degraded,
                        disconnected_at: Some(now),
                        ..self.reconnect
                    },
                    ..self
                })
            },
            LiveMdControlEvent::SubscriptionResponse {
                request_id,
                instrument_id,
                succeeded,
                is_last,
            } => {
                let observed = LiveView {
                    pending: self.pending.observed(
                        request_id,
                        text_option(instrument_id),
                        succeeded,
                    ),
                    ..self
                };
                &&& step is Wait
                &&& if is_last && observed.pending.accepts(request_id) {
                    observed.reports_outcome(request_id, next, notices)
                } else {
                    notices.len() == 0 && next == observed.in_phase(LivePhase::Waiting)
                }
            },
            LiveMdControlEvent::LoginFailed(reason) => self.breaks_off(
                true,
                reason@,
                stopping,
                next,
                notices,
                step,
            ),
            LiveMdControlEvent::DriverError(reason) => self.breaks_off(
                false,
                reason@,
                stopping,
                next,
                notices,
                step,
            ),
        }
    }

    /// Whether `reply` is answered by `notices` to the source and by `step`.
    pub open spec fn follows<P>(
        self,
        reply: LiveReply,
        next: Self,
        notices: Seq<MdDriverEvent<P>>,
        step: LiveStep,
    ) -> bool {
        match reply {
            LiveReply::StopAsked => {
                &&& notices.len() == 0
                &&& step == (LiveStep::Release { mark_stopping: true })
                &&& next == self.in_phase(LivePhase::Finished)
            },
            LiveReply::Control { event, now, stopping } => self.handles(
                event,
                now,
                stopping,
                next,
                notices,
                step,
            ),
            LiveReply::ControlClosed => {
                &&& notices.len() == 0
                &&& step == LiveStep::Finish(Err(RuntimeError::ChannelReceive))
                &&& next == self.in_phase(LivePhase::Finished)
            },
            LiveReply::Woken { stopping } => self.logs_in(stopping, next, notices, step),
            LiveReply::Sent(code) => self.goes_by_code(
                code,
                if self.phase == LivePhase::LoggingIn {
                    login_failure(code as int)
                } else {
                    subscribe_failure(code as int)
                },
                next,
                notices,
                step,
            ),
            LiveReply::ApiMissing => {
                &&& notices.len() == 0
                &&& step matches LiveStep::Finish(Err(error)) && error.is_io(
                    if self.phase == LivePhase::LoggingIn {
                        "ctp md api not available after front connected"@
                    } else {
                        "ctp md api not available after login"@
                    },
                )
                &&& next == self.in_phase(LivePhase::Finished)
            },
            LiveReply::Failed(error) => {
                &&& notices.len() == 0
                &&& step == LiveStep::Finish(Err(error))
                &&& next == self.in_phase(LivePhase::Finished)
            },
        }
    }
}

fn give_up<P>(at_login: bool, reason: String) -> (r: (Vec<MdDriverEvent<P>>, LiveStep))
    ensures
        gives_up(at_login, reason@, r.0@, r.1),
{
    let mut notices: Vec<MdDriverEvent<P>> = Vec::new();
    let failure: RuntimeError = RuntimeError::Io { reason: reason.clone() };
    if at_login {
        notices.push(MdDriverEvent::LoginFailed(reason));
    } else {
        notices.push(MdDriverEvent::Error(reason));
    }
    (notices, LiveStep::Finish(Err(failure)))
}

impl LiveDriver {
    /// A loop at its start; its first step is `Wait`.
    pub fn new(instruments: &[String]) -> (driver: Self)
        ensures
            driver@ == (LiveView {
                phase: LivePhase::Waiting,
                pending: PendingView {
                    requested: texts(instruments@),
                    succeeded: Seq::empty(),
                    active: None,
                    sealed: Set::empty(),
                },
                reconnect: ReconnectView {
                    interval: Span { nanos: 3_000_000_000 },
                    reconnects: 0,
                    status: OpenCtpSourceStatus::Running,
                    disconnected_at: None,
                },
            }),
            driver@.well_formed(),
    {
        LiveDriver {
            phase: LivePhase::Waiting,
            pending: PendingSubscription::new(instruments),
            reconnect: ReconnectState::new(Span::from_secs(RECONNECT_INTERVAL_SECS)),
        }
    }

    /// Whether `reply` answers the last step and one more reconnect can be counted.
    pub fn accepts(&self, reply: &LiveReply) -> (accepted: bool)
        ensures
            accepted == (self@.phase.takes(*reply) && self@.reconnect.reconnects < u64::MAX),
    {
        let answers: bool = match self.phase {
            LivePhase::Waiting => matches!(
                reply,
                LiveReply::StopAsked | LiveReply::Control { .. } | LiveReply::ControlClosed
            ),
            LivePhase::Sleeping => matches!(reply, LiveReply::StopAsked | LiveReply::Woken { .. }),
            LivePhase::LoggingIn => matches!(reply, LiveReply::Sent(_) | LiveReply::ApiMissing),
            LivePhase::Subscribing => matches!(
                reply,
                LiveReply::Sent(_) | LiveReply::ApiMissing | LiveReply::Failed(_)
            ),
            LivePhase::Finished => false,
        };
        answers && self.reconnect.reconnects_total() < u64::MAX
    }

    fn log_in(self, stopping: bool) -> (r: (Self, LiveStep))
        ensures
            self@.logs_in::<()>(stopping, r.0@, Seq::empty(), r.1),
    {
        if stopping {
            (
                LiveDriver { phase: LivePhase::Finished, ..self },
                LiveStep::Release { mark_stopping: false },
            )
        } else {
            (LiveDriver { phase: LivePhase::LoggingIn, ..self }, LiveStep::Login)
        }
    }

    fn handle<P>(self, event: LiveMdControlEvent, now: Moment, stopping: bool) -> (r: (
        Self,
        Vec<MdDriverEvent<P>>,
        LiveStep,
    ))
        requires
            self@.well_formed(),
        ensures
            self@.handles(event, now, stopping, r.0@, r.1@, r.2),
            r.0@.pending.well_formed(),
    {
        match event {
            LiveMdControlEvent::FrontConnected => {
                match reconnect_gate_for_front_connected(&self.reconnect, now) {
                    Some(gate) => {
                        if !gate.sleep_for.is_zero() {
                            return (
                                LiveDriver { phase: LivePhase::Sleeping, ..self },
                                Vec::new(),
                                LiveStep::Sleep(gate.sleep_for),
                            );
                        }
                    },
                    None => {},
                }
                let (next, step): (LiveDriver, LiveStep) = self.log_in(stopping);
                (next, Vec::new(), step)
            },
            LiveMdControlEvent::UserLoginSucceeded => {
                let mut pending: PendingSubscription = self.pending;
                pending.reset();
                (
                    LiveDriver { phase: LivePhase::Subscribing, pending, ..self },
                    Vec::new(),
                    LiveStep::Subscribe,
                )
            },
            LiveMdControlEvent::FrontDisconnected(_) => {
                let mut reconnect: ReconnectState = self.reconnect;
                reconnect.mark_disconnected_at(now);
                let mut notices: Vec<MdDriverEvent<P>> = Vec::new();
                notices.push(MdDriverEvent::ReconnectUpdate(reconnect.snapshot()));
                (
                    LiveDriver { phase: LivePhase::Waiting, reconnect, ..self },
                    notices,
                    LiveStep::Wait,
                )
            },
            LiveMdControlEvent::SubscriptionResponse {
                request_id,
                instrument_id,
                succeeded,
                is_last,
            } => {
                let mut pending: PendingSubscription = self.pending;
                pending.observe(request_id, instrument_id, succeeded);
                let next: LiveDriver = LiveDriver { pending, ..self };
                let (next, notices): (LiveDriver, Vec<MdDriverEvent<P>>) = if is_last {
                    next.finish_round(request_id)
                } else {
                    (LiveDriver { phase: LivePhase::Waiting, ..next }, Vec::new())
                };
                (next, notices, LiveStep::Wait)
            },
            LiveMdControlEvent::LoginFailed(reason) => self.break_off(true, reason, stopping),
            LiveMdControlEvent::DriverError(reason) => self.break_off(false, reason, stopping),
        }
    }

    fn break_off<P>(self, at_login: bool, reason: String, stopping: bool) -> (r: (
        Self,
        Vec<MdDriverEvent<P>>,
        LiveStep,
    ))
        requires
            self@.well_formed(),
        ensures
            self@.breaks_off(at_login, reason@, stopping, r.0@, r.1@, r.2),
            r.0@.pending.well_formed(),
    {
        let next: LiveDriver = LiveDriver { phase: LivePhase::Finished, ..self };
        if stopping {
            (next, Vec::new(), LiveStep::Finish(Ok(())))
        } else {
            let (notices, step): (Vec<MdDriverEvent<P>>, LiveStep) = give_up(at_login, reason);
            (next, notices, step)
        }
    }

    fn finish_round<P>(self, request_id: i32) -> (r: (Self, Vec<MdDriverEvent<P>>))
        requires
            self@.well_formed(),
        ensures
            if self@.pending.accepts(request_id) {
                self@.reports_outcome(request_id, r.0@, r.1@)
            } else {
                r.1.len() == 0 && r.0@ == self@.in_phase(LivePhase::Waiting)
            },
            r.0@.pending.well_formed(),
    {
        let mut pending: PendingSubscription = self.pending;
        let mut reconnect: ReconnectState = self.reconnect;
        let mut notices: Vec<MdDriverEvent<P>> = Vec::new();
        match pending.finish_and_reset(request_id) {
            Some(outcome) => {
                if reconnect.status() == OpenCtpSourceStatus::Degraded {
                    reconnect.mark_reconnected();
                    notices.push(
                        MdDriverEvent::ReconnectUpdate(
                            ReconnectUpdate {
                                reconnects_total: reconnect.reconnects_total(),
                                status: outcome.status,
                            },
                        ),
                    );
                }
                notices.push(MdDriverEvent::SubscriptionOutcome(outcome));
            },
            None => {},
        }
        (LiveDriver { phase: LivePhase::Waiting, pending, reconnect }, notices)
    }

    /// What follows the reply to the last step: what the source has to hear, and the next step.
    pub fn decide<P>(self, reply: LiveReply) -> (r: (Self, Vec<MdDriverEvent<P>>, LiveStep))
        requires
            self@.phase.takes(reply),
            self@.well_formed(),
        ensures
            self@.follows(reply, r.0@, r.1@, r.2),
            r.0@.pending.well_formed(),
    {
        match reply {
            LiveReply::StopAsked => (
                LiveDriver { phase: LivePhase::Finished, ..self },
                Vec::new(),
                LiveStep::Release { mark_stopping: true },
            ),
            LiveReply::Control { event, now, stopping } => self.handle(event, now, stopping),
            LiveReply::ControlClosed => (
                LiveDriver { phase: LivePhase::Finished, ..self },
                Vec::new(),
                LiveStep::Finish(Err(RuntimeError::ChannelReceive)),
            ),
            LiveReply::Woken { stopping } => {
                let (next, step): (LiveDriver, LiveStep) = self.log_in(stopping);
                (next, Vec::new(), step)
            },
            LiveReply::Sent(code) => {
                if code == 0 {
                    return (
                        LiveDriver { phase: LivePhase::Waiting, ..self },
                        Vec::new(),
                        LiveStep::Wait,
                    );
                }
                let code_text: String = signed_decimal_text(code as i64);
                let at_login: bool = self.phase == LivePhase::LoggingIn;
                let reason: String = if at_login {
                    joined3("ctp md req_user_login failed code=[", code_text.as_str(), "]")
                } else {
                    joined3("ctp md subscribe_market_data failed code=[", code_text.as_str(), "]")
                };
                let (notices, step): (Vec<MdDriverEvent<P>>, LiveStep) = give_up(at_login, reason);
                (LiveDriver { phase: LivePhase::Finished, ..self }, notices, step)
            },
            LiveReply::ApiMissing => {
                let failure: RuntimeError = if self.phase == LivePhase::LoggingIn {
                    RuntimeError::io("ctp md api not available after front connected")
                } else {
                    RuntimeError::io("ctp md api not available after login")
                };
                (
                    LiveDriver { phase: LivePhase::Finished, ..self },
                    Vec::new(),
                    LiveStep::Finish(Err(failure)),
                )
            },
            LiveReply::Failed(error) => (
                LiveDriver { phase: LivePhase::Finished, ..self },
                Vec::new(),
                LiveStep::Finish(Err(error)),
            ),
        }
    }

    /// Takes the reply to the last step, tells the source what it has to hear, and names the next
    /// step. Where the source is gone, the loop is left.
    pub fn advance<P>(self, reply: LiveReply, tx: &mut Outbox<MdDriverEvent<P>>) -> (r: (
        Self,
        LiveStep,
    ))
        requires
            self@.phase.takes(reply),
            self@.well_formed(),
        ensures
            r.0@.pending.well_formed(),
            exists|notices: Seq<MdDriverEvent<P>>, step: LiveStep|
                {
                    &&& #[trigger] self@.follows(reply, r.0@, notices, step)
                    &&& told(*old(tx), notices, step, *final(tx), r.1)
                },
    {
        let (next, notices, step): (LiveDriver, Vec<MdDriverEvent<P>>, LiveStep) = self.decide(
            reply,
        );
        let ghost planned = notices@;
        match tell(tx, notices) {
            Ok(_) => (next, step),
            Err(error) => {
                assert(self@.follows(reply, next@, planned, step));
                (next, LiveStep::Finish(Err(error)))
            },
        }
    }
}

/// Whether all notices went out and `step` is taken, or the source is gone, one of the notices was
/// refused, and the loop is left with the failed send.
pub open spec fn told<P>(
    before: Outbox<MdDriverEvent<P>>,
    notices: Seq<MdDriverEvent<P>>,
    step: LiveStep,
    after: Outbox<MdDriverEvent<P>>,
    taken: LiveStep,
) -> bool {
    ||| all_told(before, notices, after) && taken == step
    ||| {
        &&& exists|n: int| #[trigger] told_up_to(before, notices, n, after)
        &&& taken == LiveStep::Finish(Err(RuntimeError::ChannelSend))
    }
}

/// Whether all notices went out.
pub open spec fn all_told<P>(
    before: Outbox<MdDriverEvent<P>>,
    notices: Seq<MdDriverEvent<P>>,
    after: Outbox<MdDriverEvent<P>>,
) -> bool {
    &&& after@ == before@ + notices
    &&& after.refused() == before.refused()
}

/// Whether the first `n` notices went out and the next one was refused.
pub open spec fn told_up_to<P>(
    before: Outbox<MdDriverEvent<P>>,
    notices: Seq<MdDriverEvent<P>>,
    n: int,
    after: Outbox<MdDriverEvent<P>>,
) -> bool {
    &&& 0 <= n < notices.len()
    &&& after@ == before@ + notices.take(n)
    &&& after.refused() == before.refused().push(notices[n])
}

fn tell<P>(tx: &mut Outbox<MdDriverEvent<P>>, notices: Vec<MdDriverEvent<P>>) -> (r: Result<
    (),
    RuntimeError,
>)
    ensures
        match r {
            Ok(_) => all_told(*old(tx), notices@, *final(tx)),
            Err(error) => {
                &&& error == RuntimeError::ChannelSend
                &&& exists|n: int| #[trigger] told_up_to(*old(tx), notices@, n, *final(tx))
            },
        },
{
    let ghost all = notices@;
    let mut rest: Vec<MdDriverEvent<P>> = notices;
    let ghost mut n: int = 0;
    assert(tx@ =~= old(tx)@ + all.take(0));
    while rest.len() > 0
        invariant
            0 <= n <= all.len(),
            rest@ == all.skip(n),
            tx@ == old(tx)@ + all.take(n),
            tx.refused() == old(tx).refused(),
            all == notices@,
        decreases rest.len(),
    {
        let notice: MdDriverEvent<P> = rest.remove(0);
        match tx.send(notice) {
            Ok(_) => {},
            Err(error) => {
                assert(told_up_to(*old(tx), notices@, n, *tx));
                return Err(error);
            },
        }
        proof {
            assert(rest@ =~= all.skip(n + 1));
            assert(tx@ =~= old(tx)@ + all.take(n + 1));
            n = n + 1;
        }
    }
    assert(all.take(n) =~= all);
    Ok(())
}

/// A front that comes back too early waits until the whole interval has passed since the
/// disconnect, and only then logs in.
pub proof fn law_reconnect_waits_out_the_interval<P>(
    state: LiveView,
    disconnected_at: Moment,
    now: Moment,
    stopping: bool,
    next: LiveView,
    notices: Seq<MdDriverEvent<P>>,
    step: LiveStep,
)
    requires
        state.reconnect.status == OpenCtpSourceStatus::Degraded,
        state.reconnect.disconnected_at == Some(disconnected_at),
        disconnected_at.nanos <= now.nanos,
        state.handles(LiveMdControlEvent::FrontConnected, now, stopping, next, notices, step),
    ensures
        step is Login ==> now.nanos >= disconnected_at.nanos + state.reconnect.interval.nanos,
        step matches LiveStep::Sleep(span) ==> now.nanos + span.nanos == disconnected_at.nanos
            + state.reconnect.interval.nanos,
        step is Login || step is Sleep || step is Release,
{
}

/// A disconnect is mended once: the first subscription round that ends after it is reported as one
/// more reconnect, and the next one is not.
pub proof fn law_disconnect_is_mended_once<P>(
    state: LiveView,
    request_id: i32,
    next: LiveView,
    notices: Seq<MdDriverEvent<P>>,
    later_id: i32,
    later: LiveView,
    later_notices: Seq<MdDriverEvent<P>>,
)
    requires
        state.well_formed(),
        state.reconnect.status == OpenCtpSourceStatus::Degraded,
        state.reports_outcome(request_id, next, notices),
        next.reports_outcome(later_id, later, later_notices),
    ensures
        next.reconnect.reconnects == state.reconnect.reconnects + 1,
        next.reconnect.status == OpenCtpSourceStatus::Running,
        notices[0] is ReconnectUpdate,
        later.reconnect == next.reconnect,
        later_notices.len() == 1,
{
}

/// The count of reconnects never goes down.
pub proof fn law_reconnects_do_not_drop<P>(
    state: LiveView,
    reply: LiveReply,
    next: LiveView,
    notices: Seq<MdDriverEvent<P>>,
    step: LiveStep,
)
    requires
        state.well_formed(),
        state.follows(reply, next, notices, step),
    ensures
        state.reconnect.reconnects <= next.reconnect.reconnects <= state.reconnect.reconnects + 1,
{
}

/// A request whose round is over is never reported again, however late its responses come.
pub proof fn law_round_is_reported_once<P>(
    state: LiveView,
    request_id: i32,
    instrument_id: Option<String>,
    succeeded: bool,
    is_last: bool,
    now: Moment,
    stopping: bool,
    next: LiveView,
    notices: Seq<MdDriverEvent<P>>,
    step: LiveStep,
)
    requires
        state.pending.sealed.contains(request_id),
        state.handles(
            LiveMdControlEvent::SubscriptionResponse {
                request_id,
                instrument_id,
                succeeded,
                is_last,
            },
            now,
            stopping,
            next,
            notices,
            step,
        ),
    ensures
        notices.len() == 0,
        next.pending == state.pending,
        next.reconnect == state.reconnect,
{
}

/// Where a request is refused or the front reports an error, the source hears the reason with which
/// the loop is left.
pub proof fn law_failure_is_told<P>(
    state: LiveView,
    reply: LiveReply,
    next: LiveView,
    notices: Seq<MdDriverEvent<P>>,
    step: LiveStep,
)
    requires
        reply is Sent || reply is Control,
        state.follows(reply, next, notices, step),
        step is Finish,
        step != LiveStep::Finish(Ok(())),
    ensures
        exists|at_login: bool, reason: Seq<char>| #[trigger]
            gives_up(at_login, reason, notices, step),
{
    match reply {
        LiveReply::Sent(code) => {
            if state.phase == LivePhase::LoggingIn {
                assert(gives_up(true, login_failure(code as int), notices, step));
            } else {
                assert(gives_up(false, subscribe_failure(code as int), notices, step));
            }
        },
        LiveReply::Control { event, now, stopping } => match event {
            LiveMdControlEvent::LoginFailed(reason) => {
                assert(gives_up(true, reason@, notices, step));
            },
            LiveMdControlEvent::DriverError(reason) => {
                assert(gives_up(false, reason@, notices, step));
            },
            _ => {},
        },
        _ => {},
    }
}

/// A login that is refused, when it is sent or by the front's answer, reaches the source as a refused
/// login, and nothing else does.
pub proof fn law_refused_login_is_told_as_such<P>(
    state: LiveView,
    reply: LiveReply,
    next: LiveView,
    notices: Seq<MdDriverEvent<P>>,
    step: LiveStep,
)
    requires
        state.phase.takes(reply),
        state.follows(reply, next, notices, step),
    ensures
        (exists|n: int| 0 <= n < notices.len() && #[trigger] notices[n] is LoginFailed) <==> {
            ||| state.phase == LivePhase::LoggingIn && (reply matches LiveReply::Sent(code)
                && code != 0)
            ||| reply matches LiveReply::Control { event, stopping, .. } && event is LoginFailed
                && !stopping
        },
        (exists|n: int| 0 <= n < notices.len() && #[trigger] notices[n] is LoginFailed)
            ==> notices.len() == 1,
{
    if notices.len() > 0 {
        assert(notices[0] is LoginFailed || !(notices[0] is LoginFailed));
    }
}

/// A stop lets go of the front and tells the source nothing: the end of the driver does that.
pub proof fn law_stop_lets_go<P>(
    state: LiveView,
    next: LiveView,
    notices: Seq<MdDriverEvent<P>>,
    step: LiveStep,
)
    requires
        state.phase == LivePhase::Waiting || state.phase == LivePhase::Sleeping,
        state.follows(LiveReply::StopAsked, next, notices, step),
    ensures
        step == (LiveStep::Release { mark_stopping: true }),
        notices.len() == 0,
        next.phase == LivePhase::Finished,
{
}

/// A new driver waits for its front, asks for the configured instruments, has nothing pending, and waits
/// three seconds before it reconnects.
pub proof fn law_new_driver_waits_for_its_front(instruments: &[String], driver: LiveDriver)
    requires
        call_ensures(LiveDriver::new, (instruments,), driver),
    ensures
        driver@.phase == LivePhase::Waiting,
        driver@.pending.requested == texts(instruments@),
        driver@.pending.succeeded.len() == 0,
        driver@.pending.active is None,
        forall|id: i32| !(#[trigger] driver@.pending.sealed.contains(id)),
        driver@.reconnect.interval.nanos == 3 * 1_000_000_000,
        driver@.reconnect.reconnects == 0,
        driver@.reconnect.disconnected_at is None,
        driver@.reconnect.status == OpenCtpSourceStatus::Running,
{
}

/// A front that comes up is logged in at, unless the driver is stopping or has to wait out a
/// disconnect; a login that succeeded is followed by the subscription, with a round that begins anew.
pub proof fn law_connected_front_is_logged_in_and_subscribed<P>(
    state: LiveView,
    now: Moment,
    stopping: bool,
    next: LiveView,
    notices: Seq<MdDriverEvent<P>>,
    step: LiveStep,
    event: LiveMdControlEvent,
)
    requires
        state.handles(event, now, stopping, next, notices, step),
        event is FrontConnected || event is UserLoginSucceeded,
    ensures
        notices.len() == 0,
        next.reconnect == state.reconnect,
        event is FrontConnected ==> next.pending == state.pending,
        event is FrontConnected && state.reconnect.status != OpenCtpSourceStatus::Degraded
            && !stopping ==> step is Login && next.phase == LivePhase::LoggingIn,
        event is FrontConnected && state.reconnect.status != OpenCtpSourceStatus::Degraded && stopping
            ==> step is Release && next.phase == LivePhase::Finished,
        event is UserLoginSucceeded ==> {
            &&& step is Subscribe
            &&& next.phase == LivePhase::Subscribing
            &&& next.pending.requested == state.pending.requested
            &&& next.pending.succeeded.len() == 0
            &&& next.pending.active is None
            &&& forall|id: i32|
                #![trigger next.pending.sealed.contains(id)]
                next.pending.sealed.contains(id) <==> state.pending.sealed.contains(id)
                    || state.pending.active == Some(id)
        },
{
}

/// A lost front is told to the source as a degraded connection, and the driver waits for it.
pub proof fn law_lost_front_is_told<P>(
    state: LiveView,
    reason: i32,
    now: Moment,
    stopping: bool,
    next: LiveView,
    notices: Seq<MdDriverEvent<P>>,
    step: LiveStep,
)
    requires
        state.handles(
            LiveMdControlEvent::FrontDisconnected(reason),
            now,
            stopping,
            next,
            notices,
            step,
        ),
    ensures
        notices.len() == 1,
        notices[0] matches MdDriverEvent::ReconnectUpdate(update) && update.status
            == OpenCtpSourceStatus::Degraded && update.reconnects_total
            == state.reconnect.reconnects,
        step is Wait,
        next.phase == LivePhase::Waiting,
        next.reconnect.status == OpenCtpSourceStatus::Degraded,
        next.reconnect.disconnected_at == Some(now),
        next.reconnect.reconnects == state.reconnect.reconnects,
        next.reconnect.interval == state.reconnect.interval,
        next.pending == state.pending,
{
}

/// The last response of a round is told to the source as the outcome of the round: an instrument counts
/// as subscribed if it had succeeded before or does so with this response. A round that mends a
/// disconnect is told as a reconnect first.
pub proof fn law_end_of_round_is_told<P>(
    state: LiveView,
    request_id: i32,
    instrument_id: Option<String>,
    succeeded: bool,
    now: Moment,
    stopping: bool,
    next: LiveView,
    notices: Seq<MdDriverEvent<P>>,
    step: LiveStep,
    x: Seq<char>,
)
    requires
        state.well_formed(),
        state.handles(
            LiveMdControlEvent::SubscriptionResponse {
                request_id,
                instrument_id,
                succeeded,
                is_last: true,
            },
            now,
            stopping,
            next,
            notices,
            step,
        ),
        state.pending.accepts(request_id),
        state.pending.requested.contains(x),
    ensures
        step is Wait,
        next.phase == LivePhase::Waiting,
        notices.len() == if state.reconnect.status == OpenCtpSourceStatus::Degraded {
            2int
        } else {
            1
        },
        notices.last() matches MdDriverEvent::SubscriptionOutcome(outcome) && {
            let good = state.pending.succeeded.contains(x) || (succeeded && text_option(instrument_id)
                == Some(x));
            &&& texts(outcome.succeeded_instruments@).contains(x) <==> good
            &&& texts(outcome.failed_instruments@).contains(x) <==> !good
            &&& !good ==> outcome.status == OpenCtpSourceStatus::Degraded
            &&& outcome.subscribe_failures_total == texts(outcome.failed_instruments@).len()
        },
        state.reconnect.status == OpenCtpSourceStatus::Degraded ==> {
            &&& notices[0] matches MdDriverEvent::ReconnectUpdate(update) && update.reconnects_total
                == state.reconnect.reconnects + 1
            &&& next.reconnect.reconnects == state.reconnect.reconnects + 1
            &&& next.reconnect.disconnected_at is None
            &&& next.reconnect.status == OpenCtpSourceStatus::Running
        },
        state.reconnect.status != OpenCtpSourceStatus::Degraded ==> next.reconnect
            == state.reconnect,
        !next.pending.accepts(request_id),
        next.pending.succeeded.len() == 0,
        next.pending.requested == state.pending.requested,
{
    let given = text_option(instrument_id);
    let observed = state.pending.observed(request_id, given, succeeded);
    crate::driver_ctp::law_response_adds_what_it_reports(
        state.pending,
        request_id,
        given,
        succeeded,
        x,
    );
    crate::source::law_instruments_are_sorted_by_success(
        observed.requested,
        observed.succeeded,
        x,
    );
    assert(observed.accepts(request_id));
    let outcome = notices.last()->SubscriptionOutcome_0;
    if texts(outcome.failed_instruments@).contains(x) {
        assert(texts(outcome.failed_instruments@).len() > 0);
    }
}

/// A response that is not the last of its round, or belongs to none, is only taken in.
pub proof fn law_other_responses_are_only_taken_in<P>(
    state: LiveView,
    request_id: i32,
    instrument_id: Option<String>,
    succeeded: bool,
    is_last: bool,
    now: Moment,
    stopping: bool,
    next: LiveView,
    notices: Seq<MdDriverEvent<P>>,
    step: LiveStep,
)
    requires
        state.handles(
            LiveMdControlEvent::SubscriptionResponse {
                request_id,
                instrument_id,
                succeeded,
                is_last,
            },
            now,
            stopping,
            next,
            notices,
            step,
        ),
        !is_last || !state.pending.accepts(request_id),
    ensures
        notices.len() == 0,
        step is Wait,
        next.phase == LivePhase::Waiting,
        next.reconnect == state.reconnect,
        next.pending == state.pending.observed(request_id, text_option(instrument_id), succeeded),
{
    if !state.pending.accepts(request_id) {
        assert(state.pending.observed(request_id, text_option(instrument_id), succeeded)
            == state.pending);
    }
}

/// A request that is taken is waited for, and one that is refused ends the driver; so does a front that
/// is not there, a request that cannot be made, and the end of the control channel. A stop ends the
/// driver in good order.
pub proof fn law_requests_go_by_their_result<P>(
    state: LiveView,
    reply: LiveReply,
    next: LiveView,
    notices: Seq<MdDriverEvent<P>>,
    step: LiveStep,
)
    requires
        state.phase.takes(reply),
        state.follows(reply, next, notices, step),
        !(reply is Control),
    ensures
        reply matches LiveReply::Sent(code) ==> {
            &&& code == 0 ==> step is Wait && notices.len() == 0 && next.phase == LivePhase::Waiting
            &&& code != 0 ==> (step matches LiveStep::Finish(Err(_))) && notices.len() == 1
                && next.phase == LivePhase::Finished
        },
        reply is ApiMissing ==> (step matches LiveStep::Finish(Err(_))) && notices.len() == 0,
        reply matches LiveReply::Failed(error) ==> step == LiveStep::Finish(Err(error))
            && notices.len() == 0,
        reply is ControlClosed ==> step == LiveStep::Finish(Err(RuntimeError::ChannelReceive))
            && notices.len() == 0,
        reply is StopAsked ==> step == (LiveStep::Release { mark_stopping: true })
            && notices.len() == 0,
        reply matches LiveReply::Woken { stopping } ==> {
            &&& notices.len() == 0
            &&& !stopping ==> step is Login && next.phase == LivePhase::LoggingIn
            &&& stopping ==> step == (LiveStep::Release { mark_stopping: false })
        },
        next.pending == state.pending,
        next.reconnect == state.reconnect,
{
}

/// Every step can be answered.
pub proof fn law_every_step_can_be_answered<P>(
    state: LiveView,
    reply: LiveReply,
    next: LiveView,
    notices: Seq<MdDriverEvent<P>>,
    step: LiveStep,
    other: LiveReply,
)
    requires
        state.phase.takes(reply),
        state.follows(reply, next, notices, step),
    ensures
        step is Wait && (other is StopAsked || other is Control || other is ControlClosed)
            ==> next.phase.takes(other),
        step is Sleep && (other is StopAsked || other is Woken) ==> next.phase.takes(other),
        step is Login && (other is Sent || other is ApiMissing) ==> next.phase.takes(other),
        step is Subscribe && (other is Sent || other is ApiMissing || other is Failed)
            ==> next.phase.takes(other),
        step is Finish || step is Release ==> next.phase == LivePhase::Finished,
{
}

/// What the source has to hear goes out in order: all of it, or all up to the first that is refused,
/// and then the driver ends.
pub proof fn law_notices_go_out_in_order<P>(
    before: Outbox<MdDriverEvent<P>>,
    notices: Seq<MdDriverEvent<P>>,
    step: LiveStep,
    after: Outbox<MdDriverEvent<P>>,
    taken: LiveStep,
)
    requires
        told(before, notices, step, after, taken),
    ensures
        taken == step && after@ == before@ + notices && after.refused() == before.refused() || {
            &&& taken == LiveStep::Finish(Err(RuntimeError::ChannelSend))
            &&& exists|n: int|
                {
                    &&& 0 <= n < notices.len()
                    &&& after@ == before@ + #[trigger] notices.take(n)
                    &&& after.refused() == before.refused().push(notices[n])
                }
        },
        notices.len() == 0 ==> taken == step,
{
    if !(all_told(before, notices, after) && taken == step) {
        let n = choose|n: int| #[trigger] told_up_to(before, notices, n, after);
        assert(after@ == before@ + notices.take(n));
    }
}

/// A reply is accepted if it answers the step, as long as one more reconnect can be counted.
pub proof fn law_answers_are_accepted(driver: &LiveDriver, reply: &LiveReply, accepted: bool)
    requires
        call_ensures(LiveDriver::accepts, (driver, reply), accepted),
        driver@.reconnect.reconnects < 0x4000_0000_0000_0000,
    ensures
        accepted <==> driver@.phase.takes(*reply),
{
}

} // verus!
