//! The life of a source, from the start of its driver to the end of its thread.
//!
//! The lifecycle names a step, its owner carries the step out and reports how it went.
use crate::errors::RuntimeError;
use crate::source::OpenCtpSourceStatus;
use crate::source_loop::LoopEnd;
use vstd::prelude::*;

verus! {

/// The stream that a source announces.
pub const STREAM_NAME: &'static str = "openctp.tick";

/// The version of the stream's layout.
pub const STREAM_VERSION: u16 = 1;

/// What the owner of a source has to do next.
pub enum LifecycleStep {
    StartDriver,
    /// Announce the stream to the sink.
    EmitHello,
    OpenSegment,
    /// Hand the segment's descriptor to the publisher.
    Publish,
    OpenReader,
    /// Run the loop of the source.
    RunLoop,
    /// Ask the driver to stop, if it can be asked.
    StopDriver,
    /// Wait for the end of the driver.
    JoinDriver,
    /// Tell the sink that the source has stopped.
    EmitStop,
    /// The source is at its end.
    Finish(Result<(), RuntimeError>),
}

/// How a step went.
pub enum LifecycleReply {
    Done,
    Failed(RuntimeError),
    /// The loop ended, and left this status behind.
    Looped(OpenCtpSourceStatus, Result<LoopEnd, RuntimeError>),
    /// The driver's thread panicked.
    Panicked,
}

/// Which step the source waits for.
pub enum LifecyclePhase {
    StartingDriver,
    Announcing,
    OpeningSegment,
    Publishing,
    OpeningReader,
    Looping,
    /// The source has failed; its driver is asked to stop.
    StoppingDriver(RuntimeError),
    /// The loop has ended so; its driver has not, as far as is known.
    JoiningDriver(Result<LoopEnd, RuntimeError>),
    /// The driver ended well without a word; the sink is told of the stop.
    Stopping,
    Finished,
}

impl LifecyclePhase {
    /// Whether `reply` answers the step that the source waits for.
    pub open spec fn takes(self, reply: LifecycleReply) -> bool {
        match self {
            LifecyclePhase::Looping => reply matches LifecycleReply::Looped(status, result) && (result
                == Ok::<LoopEnd, RuntimeError>(LoopEnd::Stopped) ==> status
                == OpenCtpSourceStatus::Stopped),
            LifecyclePhase::JoiningDriver(_) => reply is Done || reply is Failed || reply is Panicked,
            LifecyclePhase::Finished => false,
            _ => reply is Done || reply is Failed,
        }
    }
}

/// The state of a source.
pub struct SourceLifecycle {
    pub phase: LifecyclePhase,
    pub status: OpenCtpSourceStatus,
    /// Whether descriptors are handed to a publisher.
    pub publishes: bool,
}

impl SourceLifecycle {
    /// A source connects until its loop runs, and one that has told its sink of the stop, or is about
    /// to, is stopped.
    pub open spec fn well_formed(self) -> bool {
        match self.phase {
            LifecyclePhase::StoppingDriver(_) | LifecyclePhase::Finished => true,
            LifecyclePhase::JoiningDriver(runtime) => runtime == Ok::<LoopEnd, RuntimeError>(
                LoopEnd::Stopped,
            ) ==> self.status == OpenCtpSourceStatus::Stopped,
            LifecyclePhase::Stopping => self.status == OpenCtpSourceStatus::Stopped,
            _ => self.status == OpenCtpSourceStatus::Connecting,
        }
    }

    pub open spec fn in_phase(self, phase: LifecyclePhase) -> Self {
        SourceLifecycle { phase, ..self }
    }

    pub open spec fn with_status(self, status: OpenCtpSourceStatus) -> Self {
        SourceLifecycle { status, ..self }
    }

    /// Whether the source ends as the loop and the driver did: with the loop's error, else with
    /// the driver's. A sink that has not been told of the stop is told first.
    pub open spec fn ends(
        self,
        runtime: Result<LoopEnd, RuntimeError>,
        driver: Result<(), RuntimeError>,
        next: Self,
        step: LifecycleStep,
    ) -> bool {
        match (runtime, driver) {
            (Ok(LoopEnd::Stopped), Ok(_)) => {
                &&& step == LifecycleStep::Finish(Ok(()))
                &&& next == self.in_phase(LifecyclePhase::Finished)
            },
            (Ok(LoopEnd::DriverGone), Ok(_)) => {
                &&& step is EmitStop
                &&& next == self.with_status(OpenCtpSourceStatus::Stopped).in_phase(
                    LifecyclePhase::Stopping,
                )
            },
            (Ok(_), Err(error)) => {
                &&& step == LifecycleStep::Finish(Err(error))
                &&& next == self.with_status(OpenCtpSourceStatus::Failed).in_phase(
                    LifecyclePhase::Finished,
                )
            },
            (Err(error), _) => {
                &&& step == LifecycleStep::Finish(Err(error))
                &&& next == self.with_status(OpenCtpSourceStatus::Failed).in_phase(
                    LifecyclePhase::Finished,
                )
            },
        }
    }

    /// Whether `next` and `step` are what follows `reply`.
    pub open spec fn follows(self, reply: LifecycleReply, next: Self, step: LifecycleStep) -> bool {
        match (self.phase, reply) {
            (LifecyclePhase::StartingDriver, LifecycleReply::Done) => {
                &&& step is EmitHello
                &&& next == self.in_phase(LifecyclePhase::Announcing)
            },
            (LifecyclePhase::StartingDriver, LifecycleReply::Failed(error)) => {
                &&& step == LifecycleStep::Finish(Err(error))
                &&& next == self.with_status(OpenCtpSourceStatus::Failed).in_phase(
                    LifecyclePhase::Finished,
                )
            },
            (LifecyclePhase::StoppingDriver(error), _) => {
                &&& step is JoinDriver
                &&& next == self.in_phase(LifecyclePhase::JoiningDriver(Err(error)))
            },
            (LifecyclePhase::JoiningDriver(runtime), LifecycleReply::Done) => self.ends(
                runtime,
                Ok(()),
                next,
                step,
            ),
            (LifecyclePhase::JoiningDriver(runtime), LifecycleReply::Failed(error)) => self.ends(
                runtime,
                Err(error),
                next,
                step,
            ),
            (LifecyclePhase::JoiningDriver(runtime), LifecycleReply::Panicked) => exists|
                error: RuntimeError,
            |
                error.is_io("md driver thread panicked"@) && #[trigger] self.ends(
                    runtime,
                    Err(error),
                    next,
                    step,
                ),
            (LifecyclePhase::Stopping, LifecycleReply::Done) => {
                &&& step == LifecycleStep::Finish(Ok(()))
                &&& next == self.in_phase(LifecyclePhase::Finished)
            },
            (LifecyclePhase::Stopping, LifecycleReply::Failed(error)) => {
                &&& step == LifecycleStep::Finish(Err(error))
                &&& next == self.with_status(OpenCtpSourceStatus::Failed).in_phase(
                    LifecyclePhase::Finished,
                )
            },
            (LifecyclePhase::Looping, LifecycleReply::Looped(status, result)) => match result {
                Ok(end) => {
                    &&& step is JoinDriver
                    &&& next == self.with_status(status).in_phase(
                        LifecyclePhase::JoiningDriver(Ok(end)),
                    )
                },
                Err(error) => {
                    &&& step is StopDriver
                    &&& next == self.with_status(status).in_phase(
                        LifecyclePhase::StoppingDriver(error),
                    )
                },
            },
            (_, LifecycleReply::Failed(error)) => {
                &&& step is StopDriver
                &&& next == self.in_phase(LifecyclePhase::StoppingDriver(error))
            },
            (LifecyclePhase::Announcing, _) => {
                &&& step is OpenSegment
                &&& next == self.in_phase(LifecyclePhase::OpeningSegment)
            },
            (LifecyclePhase::OpeningSegment, _) => if self.publishes {
                &&& step is Publish
                &&& next == self.in_phase(LifecyclePhase::Publishing)
            } else {
                &&& step is OpenReader
                &&& next == self.in_phase(LifecyclePhase::OpeningReader)
            },
            (LifecyclePhase::Publishing, _) => {
                &&& step is OpenReader
                &&& next == self.in_phase(LifecyclePhase::OpeningReader)
            },
            (LifecyclePhase::OpeningReader, _) => {
                &&& step is RunLoop
                &&& next == self.in_phase(LifecyclePhase::Looping)
            },
            _ => false,
        }
    }

    /// A source that connects; its first step is `StartDriver`.
    pub fn start(publishes: bool) -> (state: Self)
        ensures
            state == (SourceLifecycle {
                phase: LifecyclePhase::StartingDriver,
                status: OpenCtpSourceStatus::Connecting,
                publishes,
            }),
            state.well_formed(),
    {
        SourceLifecycle {
            phase: LifecyclePhase::StartingDriver,
            status: OpenCtpSourceStatus::Connecting,
            publishes,
        }
    }

    fn end(self, runtime: Result<LoopEnd, RuntimeError>, driver: Result<(), RuntimeError>) -> (r: (
        Self,
        LifecycleStep,
    ))
        ensures
            self.ends(runtime, driver, r.0, r.1),
    {
        match runtime {
            Err(error) => (
                SourceLifecycle {
                    phase: LifecyclePhase::Finished,
                    status: OpenCtpSourceStatus::Failed,
                    ..self
                },
                LifecycleStep::Finish(Err(error)),
            ),
            Ok(end) => match driver {
                Err(error) => (
                    SourceLifecycle {
                        phase: LifecyclePhase::Finished,
                        status: OpenCtpSourceStatus::Failed,
                        ..self
                    },
                    LifecycleStep::Finish(Err(error)),
                ),
                Ok(_) => match end {
                    LoopEnd::Stopped => (
                        SourceLifecycle { phase: LifecyclePhase::Finished, ..self },
                        LifecycleStep::Finish(Ok(())),
                    ),
                    LoopEnd::DriverGone => (
                        SourceLifecycle {
                            phase: LifecyclePhase::Stopping,
                            status: OpenCtpSourceStatus::Stopped,
                            ..self
                        },
                        LifecycleStep::EmitStop,
                    ),
                },
            },
        }
    }

    /// Whether `reply` answers the last step.
    pub fn accepts(&self, reply: &LifecycleReply) -> (accepted: bool)
        ensures
            accepted == self.phase.takes(*reply),
    {
        match reply {
            LifecycleReply::Looped(status, result) => matches!(self.phase, LifecyclePhase::Looping) && (
            !matches!(result, Ok(LoopEnd::Stopped)) || *status == OpenCtpSourceStatus::Stopped),
            LifecycleReply::Panicked => matches!(self.phase, LifecyclePhase::JoiningDriver(_)),
            _ => !matches!(self.phase, LifecyclePhase::Looping | LifecyclePhase::Finished),
        }
    }

    /// What follows the reply to the last step.
    pub fn advance(self, reply: LifecycleReply) -> (r: (Self, LifecycleStep))
        requires
            self.well_formed(),
            self.phase.takes(reply),
        ensures
            self.follows(reply, r.0, r.1),
            r.0.well_formed(),
    {
        let SourceLifecycle { phase, status, publishes } = self;
        match phase {
            LifecyclePhase::StartingDriver => match reply {
                LifecycleReply::Failed(error) => (
                    SourceLifecycle {
                        phase: LifecyclePhase::Finished,
                        status: OpenCtpSourceStatus::Failed,
                        publishes,
                    },
                    LifecycleStep::Finish(Err(error)),
                ),
                _ => (
                    SourceLifecycle {
                        phase: LifecyclePhase::Announcing,
                        status,
                        publishes,
                    },
                    LifecycleStep::EmitHello,
                ),
            },
            LifecyclePhase::StoppingDriver(error) => (
                SourceLifecycle {
                    phase: LifecyclePhase::JoiningDriver(Err(error)),
                    status,
                    publishes,
                },
                LifecycleStep::JoinDriver,
            ),
            LifecyclePhase::JoiningDriver(runtime) => {
                let driver: Result<(), RuntimeError> = match reply {
                    LifecycleReply::Failed(error) => Err(error),
                    LifecycleReply::Panicked => Err(RuntimeError::io("md driver thread panicked")),
                    _ => Ok(()),
                };
                let r: (SourceLifecycle, LifecycleStep) = SourceLifecycle {
                    phase: LifecyclePhase::Finished,
                    status,
                    publishes,
                }.end(runtime, driver);
                assert(self.ends(runtime, driver, r.0, r.1));
                r
            },
            LifecyclePhase::Stopping => match reply {
                LifecycleReply::Failed(error) => (
                    SourceLifecycle {
                        phase: LifecyclePhase::Finished,
                        status: OpenCtpSourceStatus::Failed,
                        publishes,
                    },
                    LifecycleStep::Finish(Err(error)),
                ),
                _ => (
                    SourceLifecycle { phase: LifecyclePhase::Finished, status, publishes },
                    LifecycleStep::Finish(Ok(())),
                ),
            },
            phase => match reply {
                LifecycleReply::Failed(error) => (
                    SourceLifecycle {
                        phase: LifecyclePhase::StoppingDriver(error),
                        status,
                        publishes,
                    },
                    LifecycleStep::StopDriver,
                ),
                LifecycleReply::Looped(status, Err(error)) => (
                    SourceLifecycle {
                        phase: LifecyclePhase::StoppingDriver(error),
                        status,
                        publishes,
                    },
                    LifecycleStep::StopDriver,
                ),
                LifecycleReply::Looped(status, Ok(end)) => (
                    SourceLifecycle {
                        phase: LifecyclePhase::JoiningDriver(Ok(end)),
                        status,
                        publishes,
                    },
                    LifecycleStep::JoinDriver,
                ),
                _ => Self::prepare(phase, status, publishes),
            },
        }
    }

    fn prepare(
        phase: LifecyclePhase,
        status: OpenCtpSourceStatus,
        publishes: bool,
    ) -> (r: (Self, LifecycleStep))
        requires
            phase is Announcing || phase is OpeningSegment || phase is Publishing
                || phase is OpeningReader,
        ensures
            (SourceLifecycle { phase, status, publishes }).follows(LifecycleReply::Done, r.0, r.1),
    {
        match phase {
            LifecyclePhase::Announcing => (
                SourceLifecycle { phase: LifecyclePhase::OpeningSegment, status, publishes },
                LifecycleStep::OpenSegment,
            ),
            LifecyclePhase::OpeningReader => (
                SourceLifecycle { phase: LifecyclePhase::Looping, status, publishes },
                LifecycleStep::RunLoop,
            ),
            LifecyclePhase::OpeningSegment if publishes => (
                SourceLifecycle { phase: LifecyclePhase::Publishing, status, publishes },
                LifecycleStep::Publish,
            ),
            _ => (
                SourceLifecycle { phase: LifecyclePhase::OpeningReader, status, publishes },
                LifecycleStep::OpenReader,
            ),
        }
    }
}

/// Whatever fails after the driver has started, the driver is asked to stop and waited for, and the
/// source ends with that first failure.
pub proof fn law_first_failure_wins(
    state: SourceLifecycle,
    reply1: LifecycleReply,
    error: RuntimeError,
    next1: SourceLifecycle,
    step1: LifecycleStep,
    reply2: LifecycleReply,
    next2: SourceLifecycle,
    step2: LifecycleStep,
    reply3: LifecycleReply,
    end: SourceLifecycle,
    last_step: LifecycleStep,
)
    requires
        state.phase is Announcing || state.phase is OpeningSegment || state.phase is Publishing
            || state.phase is OpeningReader || state.phase is Looping,
        state.phase.takes(reply1),
        match reply1 {
            LifecycleReply::Failed(reason) => reason == error,
            LifecycleReply::Looped(_, result) => result == Err::<LoopEnd, RuntimeError>(error),
            _ => false,
        },
        state.follows(reply1, next1, step1),
        next1.phase.takes(reply2),
        next1.follows(reply2, next2, step2),
        next2.phase.takes(reply3),
        next2.follows(reply3, end, last_step),
    ensures
        step1 is StopDriver,
        step2 is JoinDriver,
        last_step == LifecycleStep::Finish(Err(error)),
        end.status == OpenCtpSourceStatus::Failed,
{
}

/// A source that ends with an error is failed, and one that ends in good order is stopped.
pub proof fn law_end_agrees_with_status(
    state: SourceLifecycle,
    reply: LifecycleReply,
    end: SourceLifecycle,
    last_step: LifecycleStep,
)
    requires
        state.well_formed(),
        state.phase.takes(reply),
        state.follows(reply, end, last_step),
        last_step is Finish,
    ensures
        end.phase is Finished,
        last_step == LifecycleStep::Finish(Ok(())) ==> end.status == OpenCtpSourceStatus::Stopped,
        last_step != LifecycleStep::Finish(Ok(())) ==> end.status == OpenCtpSourceStatus::Failed,
{
    if state.phase is JoiningDriver {
        assert(last_step == LifecycleStep::Finish(Ok(())) || last_step->0 is Err);
    }
}

/// A driver that is gone without a word is waited for first: the sink is told of a stop only where the
/// driver ended well. Otherwise the source ends with the driver's failure, and the sink hears no stop.
pub proof fn law_gone_driver_is_joined_first(
    state: SourceLifecycle,
    status: OpenCtpSourceStatus,
    next: SourceLifecycle,
    step: LifecycleStep,
    reply: LifecycleReply,
    later: SourceLifecycle,
    later_step: LifecycleStep,
)
    requires
        state.phase is Looping,
        state.follows(LifecycleReply::Looped(status, Ok(LoopEnd::DriverGone)), next, step),
        next.phase.takes(reply),
        next.follows(reply, later, later_step),
    ensures
        step is JoinDriver,
        reply is Done <==> later_step is EmitStop,
        reply is Done ==> later.status == OpenCtpSourceStatus::Stopped,
        !(reply is Done) ==> {
            &&& later_step matches LifecycleStep::Finish(Err(_))
            &&& later.status == OpenCtpSourceStatus::Failed
        },
{
}

/// A source ends in good order only after the driver was waited for, and the sink was told of the stop:
/// by the loop, or as the very last thing before the end.
pub proof fn law_good_end_follows_the_stop(
    before: SourceLifecycle,
    earlier_reply: LifecycleReply,
    state: SourceLifecycle,
    earlier_step: LifecycleStep,
    reply: LifecycleReply,
    end: SourceLifecycle,
)
    requires
        before.well_formed(),
        before.phase.takes(earlier_reply),
        before.follows(earlier_reply, state, earlier_step),
        state.phase.takes(reply),
        state.follows(reply, end, LifecycleStep::Finish(Ok(()))),
    ensures
        reply is Done,
        end.status == OpenCtpSourceStatus::Stopped,
        earlier_step is EmitStop || {
            &&& earlier_step is JoinDriver
            &&& earlier_reply == LifecycleReply::Looped(
                OpenCtpSourceStatus::Stopped,
                Ok(LoopEnd::Stopped),
            )
        },
{
}

/// A source that has started its driver connects until its loop has something to report.
pub proof fn law_source_connects_until_its_loop(
    state: SourceLifecycle,
    reply: LifecycleReply,
    next: SourceLifecycle,
    step: LifecycleStep,
)
    requires
        state.well_formed(),
        state.phase.takes(reply),
        state.follows(reply, next, step),
        state.phase is StartingDriver || state.phase is Announcing || state.phase is OpeningSegment
            || state.phase is Publishing || state.phase is OpeningReader,
        !(step is Finish),
    ensures
        next.status == OpenCtpSourceStatus::Connecting,
{
}

/// The way to stop a driver, which is used up by a stop that was taken.
#[derive(Debug, Clone, Copy, PartialEq, Eq, Structural)]
pub struct DriverStop {
    pub armed: bool,
}

impl DriverStop {
    /// A driver that can be asked to stop.
    pub fn new() -> (stop: Self)
        ensures
            stop.armed,
    {
        DriverStop { armed: true }
    }

    /// Whether the driver has to be asked.
    pub fn must_ask(&self) -> (ask: bool)
        ensures
            ask == self.armed,
    {
        self.armed
    }

    /// Takes in the driver's answer: a stop that failed can be asked for again.
    pub fn asked(&mut self, answer: Result<(), RuntimeError>) -> (r: Result<(), RuntimeError>)
        ensures
            r == answer,
            final(self).armed == (old(self).armed && answer is Err),
    {
        if answer.is_ok() {
            self.armed = false;
        }
        answer
    }
}

/// A source starts in order: it starts its driver, announces the stream, opens the segment, publishes it
/// where there is a publisher, opens the reader and runs its loop. A driver that does not start ends the
/// source at once.
pub proof fn law_source_starts_in_order(
    state: SourceLifecycle,
    reply: LifecycleReply,
    next: SourceLifecycle,
    step: LifecycleStep,
)
    requires
        state.phase.takes(reply),
        state.follows(reply, next, step),
    ensures
        state.phase is StartingDriver && reply is Done ==> step is EmitHello
            && next.phase is Announcing,
        state.phase is StartingDriver ==> (reply matches LifecycleReply::Failed(error) ==> step
            == LifecycleStep::Finish(Err(error)) && next.status == OpenCtpSourceStatus::Failed),
        state.phase is Announcing && reply is Done ==> step is OpenSegment
            && next.phase is OpeningSegment,
        state.phase is OpeningSegment && reply is Done && state.publishes ==> step is Publish
            && next.phase is Publishing,
        state.phase is OpeningSegment && reply is Done && !state.publishes ==> step is OpenReader
            && next.phase is OpeningReader,
        state.phase is Publishing && reply is Done ==> step is OpenReader
            && next.phase is OpeningReader,
        state.phase is OpeningReader && reply is Done ==> step is RunLoop && next.phase is Looping,
        next.publishes == state.publishes,
{
}

/// A loop that ended is followed by the end of its driver: one that failed has the driver asked to stop
/// first. The status is the one that the loop left behind.
pub proof fn law_loop_is_followed_by_the_driver(
    state: SourceLifecycle,
    status: OpenCtpSourceStatus,
    result: Result<LoopEnd, RuntimeError>,
    next: SourceLifecycle,
    step: LifecycleStep,
)
    requires
        state.phase is Looping,
        state.follows(LifecycleReply::Looped(status, result), next, step),
    ensures
        result is Ok ==> step is JoinDriver,
        result is Err ==> step is StopDriver,
        next.status == status,
{
}

/// A new source connects, and its driver is the first to be started.
pub proof fn law_new_source_connects(publishes: bool, state: SourceLifecycle)
    requires
        call_ensures(SourceLifecycle::start, (publishes,), state),
    ensures
        state.phase is StartingDriver,
        state.status == OpenCtpSourceStatus::Connecting,
        state.publishes == publishes,
{
}

/// A driver that fails or panics after a good loop makes the source fail for that; one that ends well
/// does not.
pub proof fn law_driver_failure_fails_the_source(
    state: SourceLifecycle,
    end: LoopEnd,
    reply: LifecycleReply,
    next: SourceLifecycle,
    step: LifecycleStep,
)
    requires
        state.phase == LifecyclePhase::JoiningDriver(Ok(end)),
        state.phase.takes(reply),
        state.follows(reply, next, step),
    ensures
        reply matches LifecycleReply::Failed(error) ==> step == LifecycleStep::Finish(Err(error))
            && next.status == OpenCtpSourceStatus::Failed,
        reply is Panicked ==> (step matches LifecycleStep::Finish(Err(error)) && error.is_io(
            "md driver thread panicked"@,
        )) && next.status == OpenCtpSourceStatus::Failed,
        reply is Done && end == LoopEnd::Stopped ==> step == LifecycleStep::Finish(Ok(())),
        reply is Done && end == LoopEnd::DriverGone ==> step is EmitStop,
{
}

/// Every step can be answered: with success or failure, the loop with its end, and the driver's end also
/// with a panic.
pub proof fn law_every_step_can_be_answered(
    state: SourceLifecycle,
    reply: LifecycleReply,
    next: SourceLifecycle,
    step: LifecycleStep,
    error: RuntimeError,
    status: OpenCtpSourceStatus,
)
    requires
        state.phase.takes(reply),
        state.follows(reply, next, step),
    ensures
        step is RunLoop ==> {
            &&& next.phase.takes(LifecycleReply::Looped(status, Err(error)))
            &&& next.phase.takes(LifecycleReply::Looped(status, Ok(LoopEnd::DriverGone)))
            &&& next.phase.takes(
                LifecycleReply::Looped(OpenCtpSourceStatus::Stopped, Ok(LoopEnd::Stopped)),
            )
        },
        step is JoinDriver ==> next.phase.takes(LifecycleReply::Panicked),
        !(step is RunLoop) && !(step is Finish) ==> next.phase.takes(LifecycleReply::Done)
            && next.phase.takes(LifecycleReply::Failed(error)),
        step is Finish ==> next.phase is Finished,
{
}

/// A driver is asked to stop until it takes the stop, and its answer is passed on.
pub proof fn law_driver_is_asked_until_it_stops(
    stop: &mut DriverStop,
    answer: Result<(), RuntimeError>,
    r: Result<(), RuntimeError>,
    ask: bool,
)
    requires
        call_ensures(DriverStop::must_ask, (&*old(stop),), ask),
        call_ensures(DriverStop::asked, (stop, answer), r),
    ensures
        ask == old(stop).armed,
        r == answer,
        answer is Ok ==> !final(stop).armed,
        answer is Err ==> final(stop).armed == old(stop).armed,
{
}

} // verus!
