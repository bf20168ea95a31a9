//! A run of the driver that makes up raw ticks.
//!
//! The run names a step, its owner carries the step out and reports how it went.
use crate::batching::carried;
use crate::channel::{Outbox, StopPoll, StopSignal};
use crate::clock::{Moment, Span};
use crate::errors::RuntimeError;
use crate::generator::{
    clock_reaches, clock_text, ctp_time_from_round, elapsed_ns, has_time, reached_max_ticks, round_ms,
    OpenCtpMarketGeneratorConfig,
};
use crate::generator_driver::{
    are_full_rounds, are_generated_rows, are_offered, are_rounds, are_taken, end_run, ends_with_stop,
    in_order, is_asked, is_count_failure, is_ended, is_generated_row, is_walk_of, law_event_carries_its_round,
    law_generators_quote_alike, law_picks_count_through_rounds, lemma_next_round_is_bounded,
    lemma_one_more_round, lemma_pick_in_order, lemma_rounds_hold_no_stop, lemma_run_end, next_index,
    next_round, stands_at,
};
use crate::market_walk::{
    is_function, law_volume_is_bounded, MarketWalk, Pick, PriceModel, Quote, WalkView,
};
use crate::normalize::{NormalizedTickRow, RawTickSnapshot};
use crate::source::MdDriverEvent;
use vstd::prelude::*;

verus! {

/// Whether `tick` is the raw tick of a quote.
pub open spec fn is_tick_of<P>(
    config: OpenCtpMarketGeneratorConfig<P>,
    pick: Pick,
    quote: Quote<P>,
    tick: RawTickSnapshot<P>,
) -> bool {
    &&& tick.instrument_id@ == config.instruments@[pick.index]@
    &&& tick.exchange_id@ == config.exchange_id@
    &&& tick.trading_day@ == config.trading_day@
    &&& tick.action_day@ == config.action_day@
    &&& has_time(pick.round, config.interval_ms)
    &&& tick.update_time@ == clock_text(round_ms(pick.round, config.interval_ms))
    &&& tick.update_millisec == round_ms(pick.round, config.interval_ms) % 1_000
    &&& tick.last_price == quote.last_price
    &&& tick.volume == quote.volume
    &&& tick.turnover == quote.turnover
    &&& tick.open_interest == quote.open_interest
    &&& tick.bid_price_1 == quote.bid_price_1
    &&& tick.bid_volume_1 == quote.bid_volume_1
    &&& tick.ask_price_1 == quote.ask_price_1
    &&& tick.ask_volume_1 == quote.ask_volume_1
}

/// Whether `ticks` are the raw ticks of the walk.
pub open spec fn are_ticks_of<P>(
    config: OpenCtpMarketGeneratorConfig<P>,
    walk: WalkView<P>,
    ticks: Seq<RawTickSnapshot<P>>,
) -> bool {
    &&& ticks.len() == walk.quotes.len()
    &&& forall|k: int|
        0 <= k < ticks.len() ==> is_tick_of(config, walk.picks[k], walk.quotes[k], #[trigger] ticks[k])
}

/// The raw ticks of an event that carries a list of them.
pub open spec fn tick_lists_of<P>() -> spec_fn(MdDriverEvent<P>) -> Option<Seq<RawTickSnapshot<P>>> {
    |event: MdDriverEvent<P>|
        match event {
            MdDriverEvent::Ticks(raw_ticks) => Some(raw_ticks@),
            _ => None,
        }
}

/// What a run of the driver of raw ticks has done so far: the walk and its ticks, the events that it
/// offered, what it found when it looked for a stop, the moments at which its rounds began, and
/// whether it was told to stop while it waited.
#[verifier::ext_equal]
pub struct RunView<P> {
    pub walk: WalkView<P>,
    pub ticks: Seq<RawTickSnapshot<P>>,
    pub offered: Seq<MdDriverEvent<P>>,
    pub polls: Seq<StopPoll>,
    pub starts: Seq<Moment>,
    pub told: bool,
}

impl<P> RunView<P> {
    /// Whether the ticks are those of the configured walk.
    pub open spec fn is_made<M: PriceModel<P>>(
        self,
        config: OpenCtpMarketGeneratorConfig<P>,
        model: &M,
    ) -> bool {
        &&& is_walk_of(config, model, self.walk)
        &&& in_order(self.walk.picks, self.walk.count)
        &&& are_ticks_of(config, self.walk, self.ticks)
    }

    /// The events that carry ticks.
    pub open spec fn rounds(self) -> Seq<MdDriverEvent<P>> {
        if ends_with_stop(self.offered) {
            self.offered.drop_last()
        } else {
            self.offered
        }
    }

    /// Whether the rounds keep the interval: every one began as long after the first as its number
    /// says, and none was offered that had not begun.
    pub open spec fn is_paced(self, interval_ms: u64) -> bool {
        &&& self.rounds().len() <= self.starts.len()
        &&& forall|j: int|
            0 <= j < self.starts.len() && has_time(j, interval_ms) ==> (
            #[trigger] self.starts[j]).nanos_since(self.starts[0]) >= elapsed_ns(j, interval_ms)
    }

    /// Nanoseconds that are still to wait, at `now`, before the next round may begin. A round that
    /// the clock does not reach is not waited for.
    pub open spec fn remaining_at(self, interval_ms: u64, now: Moment) -> int {
        let round = self.starts.len() as int;
        if round == 0 || !has_time(round, interval_ms) || now.nanos_since(self.starts[0])
            >= elapsed_ns(round, interval_ms) {
            0
        } else {
            elapsed_ns(round, interval_ms) - now.nanos_since(self.starts[0])
        }
    }

    /// Whether the run is between two rounds: all that it made has been offered in whole rounds, and
    /// nothing has ended it.
    pub open spec fn is_running<M: PriceModel<P>>(
        self,
        config: OpenCtpMarketGeneratorConfig<P>,
        model: &M,
    ) -> bool {
        &&& self.is_made(config, model)
        &&& are_full_rounds(tick_lists_of(), self.offered, self.ticks, self.walk.count)
        &&& is_ended(config.max_ticks, self.ticks.len() as int, self.polls, false, false)
        &&& forall|p: int| 0 <= p < self.polls.len() ==> !(#[trigger] self.polls[p]).asks()
        &&& self.is_paced(config.interval_ms)
        &&& self.walk.count > 0 ==> self.starts.len() == next_round(
            self.walk.picks,
            self.walk.count,
        )
        &&& !self.told
    }

    /// Whether `next` goes on from this.
    pub open spec fn goes_on_to(self, next: Self) -> bool {
        &&& self.walk.picks.is_prefix_of(next.walk.picks)
        &&& self.walk.quotes.is_prefix_of(next.walk.quotes)
        &&& self.ticks.is_prefix_of(next.ticks)
        &&& self.offered.is_prefix_of(next.offered)
        &&& self.polls.is_prefix_of(next.polls)
    }

    /// Whether `next` and `step` are what follows `reply`: a stop ends the run at once, a run that
    /// wakes too early waits on, and otherwise a round begins. Where the run goes on after it, the round
    /// is whole, a stop was looked for before every tick and after the last, and the limit is not met.
    pub open spec fn follows(
        self,
        config: OpenCtpMarketGeneratorConfig<P>,
        reply: GeneratorReply,
        next: Self,
        step: GeneratorStep,
    ) -> bool {
        match reply {
            GeneratorReply::StopAsked => {
                &&& step is Finish
                &&& next == (RunView {
                    offered: self.offered.push(MdDriverEvent::Stop),
                    told: true,
                    ..self
                })
            },
            GeneratorReply::Woken(now) => if self.remaining_at(config.interval_ms, now) > 0 {
                &&& step matches GeneratorStep::Wait(span) && span.nanos == self.remaining_at(
                    config.interval_ms,
                    now,
                )
                &&& next == self
            } else {
                &&& self.goes_on_to(next)
                &&& next.starts == self.starts.push(now)
                &&& !next.told
                &&& step matches GeneratorStep::Wait(span) ==> {
                    &&& span.nanos == next.remaining_at(config.interval_ms, now)
                    &&& next.ticks.len() == self.ticks.len() + config.instruments.len()
                    &&& next.polls.len() == self.polls.len() + config.instruments.len() + 1
                    &&& config.max_ticks is Some ==> next.ticks.len() < config.max_ticks->0
                }
            },
        }
    }
}

/// What a run of the driver of raw ticks has done when it ends: it has walked the configured
/// instruments round after round, one round every interval, has offered the ticks of every round
/// together, and at the end a stop.
pub open spec fn is_tick_run<P, M: PriceModel<P>>(
    config: OpenCtpMarketGeneratorConfig<P>,
    model: &M,
    run: RunView<P>,
    r: Result<(), RuntimeError>,
) -> bool {
    let stops = ends_with_stop(run.offered);
    &&& run.is_made(config, model)
    &&& are_offered(tick_lists_of(), run.offered, run.ticks, run.walk.count)
    &&& is_ended(config.max_ticks, run.ticks.len() as int, run.polls, run.told, stops)
    &&& run.is_paced(config.interval_ms)
    &&& match r {
        Ok(_) => stops,
        Err(error) => error == RuntimeError::ChannelSend || {
            &&& !stops
            &&& !is_asked(run.polls)
            &&& !run.told
            &&& {
                ||| is_count_failure(run.walk, run.starts.len() as int, error)
                ||| error.is_io("generator timestamp overflow"@) && !has_time(
                    next_round(run.walk.picks, run.walk.count),
                    config.interval_ms,
                )
            }
        },
    }
}

fn tick_of<P: Copy>(
    config: &OpenCtpMarketGeneratorConfig<P>,
    index: usize,
    round_index: u64,
    quote: Quote<P>,
) -> (tick: RawTickSnapshot<P>)
    requires
        index < config.instruments.len(),
        has_time(round_index as int, config.interval_ms),
    ensures
        is_tick_of(
            *config,
            Pick { round: round_index as int, index: index as int },
            quote,
            tick,
        ),
{
    let (update_time, update_millisec): (String, i32) = ctp_time_from_round(
        round_index,
        config.interval_ms,
    );
    RawTickSnapshot {
        instrument_id: config.instruments[index].clone(),
        exchange_id: config.exchange_id.clone(),
        trading_day: config.trading_day.clone(),
        action_day: config.action_day.clone(),
        update_time,
        update_millisec,
        last_price: quote.last_price,
        volume: quote.volume,
        turnover: quote.turnover,
        open_interest: quote.open_interest,
        bid_price_1: quote.bid_price_1,
        bid_volume_1: quote.bid_volume_1,
        ask_price_1: quote.ask_price_1,
        ask_volume_1: quote.ask_volume_1,
    }
}

/// What the owner of a run has to do next.
pub enum GeneratorStep {
    /// Wait for a stop, or until the time has passed.
    Wait(Span),
    /// Leave the run.
    Finish(Result<(), RuntimeError>),
}

impl GeneratorStep {
    /// How the run ended, if it did; a run that goes on is in good order.
    pub open spec fn result(self) -> Result<(), RuntimeError> {
        match self {
            GeneratorStep::Wait(_) => Ok(()),
            GeneratorStep::Finish(r) => r,
        }
    }
}

/// How a wait ended.
pub enum GeneratorReply {
    /// The time has passed, and the monotonic clock shows this moment.
    Woken(Moment),
    /// A stop was asked for, or nobody is left who could ask for one.
    StopAsked,
}

/// A run of the driver of raw ticks, one round at a time. It remembers, for proofs, what it has done.
#[verifier::reject_recursive_types(P)]
pub struct GeneratorRun<P> {
    walk: MarketWalk<P>,
    emitted: u64,
    round_index: u64,
    /// When the first round began.
    started_at: Option<Moment>,
    so_far: Ghost<RunView<P>>,
}

impl<P> View for GeneratorRun<P> {
    type V = RunView<P>;

    closed spec fn view(&self) -> RunView<P> {
        self.so_far@
    }
}

impl<P> GeneratorRun<P> {
    /// The run is between two rounds and has counted what it made.
    pub closed spec fn well_formed<M: PriceModel<P>>(
        &self,
        config: OpenCtpMarketGeneratorConfig<P>,
        model: &M,
    ) -> bool {
        let count = config.instruments.len();
        &&& self@.is_running(config, model)
        &&& self.walk.goes_on(model)
        &&& self.walk@ == self@.walk
        &&& self.emitted == self@.ticks.len()
        &&& self.round_index == self@.starts.len()
        &&& self.started_at == if self@.starts.len() > 0 {
            Some(self@.starts[0])
        } else {
            None
        }
        &&& count > 0 ==> stands_at(self.walk@.picks, count as int, self.round_index as int, 0)
        &&& count > 0 ==> self.round_index <= self.emitted
    }
}

/// Makes up the ticks of a round until it is whole or ends, and then says why: for a failure, or for
/// none, where a stop was found or the limit is met. It looks for a stop before every tick.
#[verifier::rlimit(40)]
fn fill_round<P: Copy, M: PriceModel<P>>(
    config: &OpenCtpMarketGeneratorConfig<P>,
    model: &M,
    walk: &mut MarketWalk<P>,
    round_index: u64,
    made: u64,
    stop: &mut StopSignal,
    Ghost(ticks): Ghost<Seq<RawTickSnapshot<P>>>,
    Ghost(polls): Ghost<Seq<StopPoll>>,
) -> (r: (Vec<RawTickSnapshot<P>>, Option<Option<RuntimeError>>, Ghost<Seq<StopPoll>>))
    requires
        old(walk).goes_on(model),
        is_walk_of(*config, model, old(walk)@),
        in_order(old(walk)@.picks, config.instruments.len() as int),
        config.instruments.len() > 0 ==> stands_at(
            old(walk)@.picks,
            config.instruments.len() as int,
            round_index as int,
            0,
        ),
        are_ticks_of(*config, old(walk)@, ticks),
        made == ticks.len(),
        made <= polls.len(),
        forall|p: int| 0 <= p < polls.len() ==> !(#[trigger] polls[p]).asks(),
        config.max_ticks is Some ==> made <= config.max_ticks->0,
    ensures
        final(walk).goes_on(model),
        is_walk_of(*config, model, final(walk)@),
        in_order(final(walk)@.picks, config.instruments.len() as int),
        old(walk)@.picks.is_prefix_of(final(walk)@.picks),
        old(walk)@.quotes.is_prefix_of(final(walk)@.quotes),
        are_ticks_of(*config, final(walk)@, ticks + r.0@),
        r.0.len() <= config.instruments.len(),
        ticks.len() + r.0.len() <= u64::MAX,
        polls.is_prefix_of(r.2@),
        final(stop)@ == old(stop)@ + r.2@.skip(polls.len() as int),
        is_ended(
            config.max_ticks,
            ticks.len() + r.0.len() as int,
            r.2@,
            false,
            r.1 == Some(None::<RuntimeError>),
        ),
        match r.1 {
            None => {
                &&& r.0.len() == config.instruments.len()
                &&& r.2@.len() == polls.len() + config.instruments.len()
                &&& forall|p: int| 0 <= p < r.2@.len() ==> !(#[trigger] r.2@[p]).asks()
                &&& config.instruments.len() > 0 ==> stands_at(
                    final(walk)@.picks,
                    config.instruments.len() as int,
                    round_index + 1,
                    0,
                )
                &&& config.instruments.len() == 0 ==> r.2@ == polls
            },
            Some(None) => config.instruments.len() > 0,
            Some(Some(error)) => {
                &&& error is Io
                &&& !is_asked(r.2@)
                &&& config.instruments.len() > 0
                &&& {
                    ||| is_count_failure(final(walk)@, 0, error)
                    ||| error.is_io("generator timestamp overflow"@) && !has_time(
                        next_round(final(walk)@.picks, final(walk)@.count),
                        config.interval_ms,
                    )
                }
            },
        },
{
    let count: usize = config.instruments.len();
    let mut round_ticks: Vec<RawTickSnapshot<P>> = Vec::new();
    let mut index: usize = 0;
    let mut emitted: u64 = made;
    let ghost mut found = polls;
    proof {
        walk.lemma_goes_on(model);
        assert(ticks + round_ticks@ =~= ticks);
        assert(polls.skip(polls.len() as int) =~= Seq::empty());
        assert(stop@ =~= old(stop)@ + found.skip(polls.len() as int));
    }
    while index < count
        invariant
            index <= count,
            count == config.instruments.len(),
            walk.goes_on(model),
            is_walk_of(*config, model, walk@),
            in_order(walk@.picks, count as int),
            old(walk)@.picks.is_prefix_of(walk@.picks),
            old(walk)@.quotes.is_prefix_of(walk@.quotes),
            count > 0 ==> stands_at(walk@.picks, count as int, round_index as int, index as int),
            are_ticks_of(*config, walk@, ticks + round_ticks@),
            round_ticks.len() == index,
            emitted == ticks.len() + index,
            polls.is_prefix_of(found),
            index == 0 ==> found == polls,
            found.len() == polls.len() + index,
            stop@ == old(stop)@ + found.skip(polls.len() as int),
            emitted <= found.len(),
            forall|p: int| 0 <= p < found.len() ==> !(#[trigger] found[p]).asks(),
            config.max_ticks is Some ==> emitted <= config.max_ticks->0,
        decreases count - index,
    {
        let asked: bool = stop.should_stop();
        let ghost found_before = found;
        proof {
            let poll = stop@.last();
            found = found.push(poll);
            assert(found.skip(polls.len() as int) =~= found_before.skip(polls.len() as int).push(
                poll,
            ));
            assert(stop@ =~= old(stop)@ + found.skip(polls.len() as int));
            lemma_pick_in_order(walk@.picks, count as int, round_index as int, index as int);
        }
        if asked || reached_max_ticks(emitted, config.max_ticks) {
            return (round_ticks, Some(None), Ghost(found));
        }
        if !clock_reaches(round_index, config.interval_ms) {
            let failure: RuntimeError = RuntimeError::io("generator timestamp overflow");
            return (round_ticks, Some(Some(failure)), Ghost(found));
        }
        let ghost walked = walk@;
        let next: Option<Quote<P>> = if emitted == u64::MAX {
            None
        } else {
            walk.next_quote(model, index, round_index)
        };
        let quote: Quote<P> = match next {
            Some(quote) => quote,
            None => {
                let failure: RuntimeError = RuntimeError::io("generator counter overflow");
                return (round_ticks, Some(Some(failure)), Ghost(found));
            },
        };
        let tick: RawTickSnapshot<P> = tick_of(config, index, round_index, quote);
        proof {
            walk.lemma_goes_on(model);
            assert((ticks + round_ticks@).push(tick) =~= ticks + round_ticks@.push(tick));
            assert(forall|k: int|
                0 <= k < walked.quotes.len() ==> walk@.quotes[k] == #[trigger] walked.quotes[k]
                    && walk@.picks[k] == walked.picks[k]);
            lemma_longer_ticks(*config, walked, walk@, ticks + round_ticks@, tick);
        }
        round_ticks.push(tick);
        emitted = emitted + 1;
        index = index + 1;
    }
    (round_ticks, None, Ghost(found))
}

impl<P: Copy> GeneratorRun<P> {
    /// A run that has not begun; the first reply to it is the moment at which it begins.
    pub fn new<M: PriceModel<P>>(config: &OpenCtpMarketGeneratorConfig<P>, model: &M) -> (run: Self)
        ensures
            run.well_formed(*config, model),
            run@.is_running(*config, model),
            run@.ticks == Seq::<RawTickSnapshot<P>>::empty(),
            run@.offered == Seq::<MdDriverEvent<P>>::empty(),
            run@.polls == Seq::<StopPoll>::empty(),
            run@.starts == Seq::<Moment>::empty(),
    {
        let walk: MarketWalk<P> = MarketWalk::new(
            model,
            config.base_price,
            config.price_step,
            config.seed,
            config.instruments.len(),
        );
        proof {
            walk.lemma_goes_on(model);
        }
        let ghost so_far = RunView {
            walk: walk@,
            ticks: Seq::empty(),
            offered: Seq::empty(),
            polls: Seq::empty(),
            starts: Seq::empty(),
            told: false,
        };
        GeneratorRun {
            walk,
            emitted: 0,
            round_index: 0,
            started_at: None,
            so_far: Ghost(so_far),
        }
    }

    fn remaining(&self, interval_ms: u64, now: Moment) -> (span: Span)
        requires
            self.round_index == self@.starts.len(),
            self.started_at == if self@.starts.len() > 0 {
                Some(self@.starts[0])
            } else {
                None
            },
        ensures
            span.nanos == self@.remaining_at(interval_ms, now),
    {
        let started_at: Moment = match self.started_at {
            Some(started_at) => started_at,
            None => {
                return Span { nanos: 0 };
            },
        };
        if !clock_reaches(self.round_index, interval_ms) {
            return Span { nanos: 0 };
        }
        let ghost round = self.round_index as int;
        assert(0 <= round * interval_ms) by (nonlinear_arith)
            requires
                0 <= round,
                0 <= interval_ms,
        ;
        let elapsed_ms: u64 = self.round_index * interval_ms;
        let due: Span = Span::from_millis(elapsed_ms);
        due.saturating_sub(now.saturating_since(started_at))
    }

    /// What follows the end of a wait: where it is time, the next round is made up and sent. At the
    /// end, also where a stop is asked for, a stop is sent.
    pub fn advance<M: PriceModel<P>>(
        self,
        config: &OpenCtpMarketGeneratorConfig<P>,
        model: &M,
        reply: GeneratorReply,
        tx: &mut Outbox<MdDriverEvent<P>>,
        stop: &mut StopSignal,
    ) -> (r: (Self, GeneratorStep))
        requires
            self.well_formed(*config, model),
        ensures
            self@.follows(*config, reply, r.0@, r.1),
            are_taken(
                *old(tx),
                r.0@.offered.skip(self@.offered.len() as int),
                *final(tx),
                r.1.result(),
            ),
            final(stop)@ == old(stop)@ + r.0@.polls.skip(self@.polls.len() as int),
            match r.1 {
                GeneratorStep::Wait(_) => {
                    &&& r.0.well_formed(*config, model)
                    &&& r.0@.is_running(*config, model)
                },
                GeneratorStep::Finish(result) => is_tick_run(*config, model, r.0@, result),
            },
    {
        let ghost before = self@;
        match reply {
            GeneratorReply::StopAsked => {
                let ghost told = RunView { told: true, ..before };
                let run: GeneratorRun<P> = GeneratorRun { so_far: Ghost(told), ..self };
                proof {
                    lemma_full_rounds_are_rounds(
                        tick_lists_of(),
                        before.offered,
                        before.ticks,
                        before.walk.count,
                    );
                    lemma_rounds_hold_no_stop(
                        tick_lists_of(),
                        before.offered,
                        before.ticks,
                        before.walk.count,
                    );
                    assert(before.polls.skip(before.polls.len() as int) =~= Seq::empty());
                    assert(stop@ =~= old(stop)@ + Seq::<StopPoll>::empty());
                }
                run.finish(config, model, tx, None, None, Ghost(before.ticks))
            },
            GeneratorReply::Woken(now) => {
                let remaining: Span = self.remaining(config.interval_ms, now);
                if !remaining.is_zero() {
                    proof {
                        assert(before.offered.skip(before.offered.len() as int) =~= Seq::empty());
                        assert(before.polls.skip(before.polls.len() as int) =~= Seq::empty());
                        assert(tx@ =~= old(tx)@ + Seq::<MdDriverEvent<P>>::empty());
                        assert(stop@ =~= old(stop)@ + Seq::<StopPoll>::empty());
                    }
                    return (self, GeneratorStep::Wait(remaining));
                }
                self.make_round(config, model, now, tx, stop)
            },
        }
    }

    #[verifier::rlimit(40)]
    fn make_round<M: PriceModel<P>>(
        self,
        config: &OpenCtpMarketGeneratorConfig<P>,
        model: &M,
        now: Moment,
        tx: &mut Outbox<MdDriverEvent<P>>,
        stop: &mut StopSignal,
    ) -> (r: (Self, GeneratorStep))
        requires
            self.well_formed(*config, model),
            self@.remaining_at(config.interval_ms, now) == 0,
        ensures
            self@.follows(*config, GeneratorReply::Woken(now), r.0@, r.1),
            are_taken(
                *old(tx),
                r.0@.offered.skip(self@.offered.len() as int),
                *final(tx),
                r.1.result(),
            ),
            final(stop)@ == old(stop)@ + r.0@.polls.skip(self@.polls.len() as int),
            match r.1 {
                GeneratorStep::Wait(_) => {
                    &&& r.0.well_formed(*config, model)
                    &&& r.0@.is_running(*config, model)
                },
                GeneratorStep::Finish(result) => is_tick_run(*config, model, r.0@, result),
            },
    {
        let ghost before = self@;
        let count: usize = config.instruments.len();
        let GeneratorRun { walk, emitted, round_index, started_at, .. } = self;
        let mut walk: MarketWalk<P> = walk;
        let started_at: Option<Moment> = match started_at {
            Some(started_at) => Some(started_at),
            None => Some(now),
        };
        let ghost ticks = before.ticks;
        let ghost sent = before.offered;
        proof {
            walk.lemma_goes_on(model);
            lemma_full_rounds_are_rounds(tick_lists_of(), sent, ticks, before.walk.count);
            lemma_rounds_hold_no_stop(tick_lists_of(), sent, ticks, before.walk.count);
            lemma_paced(before, config.interval_ms, now);
        }
        let (round_ticks, end, polls): (
            Vec<RawTickSnapshot<P>>,
            Option<Option<RuntimeError>>,
            Ghost<Seq<StopPoll>>,
        ) = fill_round(
            config,
            model,
            &mut walk,
            round_index,
            emitted,
            stop,
            Ghost(ticks),
            Ghost(before.polls),
        );
        let ghost round = round_ticks@;
        let ghost made = RunView {
            walk: walk@,
            ticks: ticks + round,
            offered: sent,
            polls: polls@,
            starts: before.starts.push(now),
            told: false,
        };
        let run: GeneratorRun<P> = GeneratorRun {
            walk,
            emitted: emitted + round_ticks.len() as u64,
            round_index,
            started_at,
            so_far: Ghost(made),
        };
        let event: Option<MdDriverEvent<P>> = if round_ticks.len() > 0 {
            Some(MdDriverEvent::Ticks(round_ticks))
        } else {
            None
        };
        assert(made.ticks.skip(ticks.len() as int) =~= round);
        if let Some(failure) = end {
            return run.finish(config, model, tx, event, failure, Ghost(ticks));
        }
        let ghost mut fresh: Seq<MdDriverEvent<P>> = Seq::empty();
        assert(sent + fresh =~= sent);
        assert(tx@ =~= old(tx)@ + fresh);
        if let Some(event) = event {
            proof {
                lemma_one_more_round(tick_lists_of(), sent, ticks, count as int, event);
                lemma_rounds_hold_no_stop(
                    tick_lists_of(),
                    sent.push(event),
                    made.ticks,
                    count as int,
                );
                fresh = seq![event];
                assert(sent + fresh =~= sent.push(event));
            }
            match tx.send(event) {
                Ok(_) => {},
                Err(error) => {
                    let result: Result<(), RuntimeError> = Err(error);
                    let ghost after = RunView { offered: sent + fresh, ..made };
                    proof {
                        assert(after.offered.skip(sent.len() as int) =~= fresh);
                        assert(fresh.drop_last() =~= Seq::empty());
                        assert(is_tick_run(*config, model, after, result));
                    }
                    return (
                        GeneratorRun { so_far: Ghost(after), ..run },
                        GeneratorStep::Finish(result),
                    );
                },
            }
            assert(tx@ =~= old(tx)@ + fresh);
        } else {
            assert(made.ticks =~= ticks);
        }
        let ghost mid = RunView { offered: sent + fresh, ..made };
        let ghost mid_stop = stop@;
        let run: GeneratorRun<P> = GeneratorRun { so_far: Ghost(mid), ..run };
        let r: (GeneratorRun<P>, GeneratorStep) = run.close_round(config, model, now, tx, stop);
        proof {
            let added = r.0@.offered.skip(mid.offered.len() as int);
            let looks = r.0@.polls.skip(mid.polls.len() as int);
            assert(r.0@.offered.skip(sent.len() as int) =~= fresh + added);
            if added.len() > 0 {
                assert((fresh + added).drop_last() =~= fresh + added.drop_last());
                assert(old(tx)@ + fresh + added.drop_last() =~= old(tx)@ + (fresh
                    + added.drop_last()));
            }
            assert(old(tx)@ + fresh + added =~= old(tx)@ + (fresh + added));
            assert(r.0@.polls.skip(before.polls.len() as int) =~= mid.polls.skip(
                before.polls.len() as int,
            ) + looks);
            assert(mid_stop + looks =~= old(stop)@ + r.0@.polls.skip(before.polls.len() as int));
        }
        r
    }

    /// Whether a round has been made and offered, and what follows it is still to be seen.
    closed spec fn is_after_round<M: PriceModel<P>>(
        &self,
        config: OpenCtpMarketGeneratorConfig<P>,
        model: &M,
    ) -> bool {
        let count = config.instruments.len();
        let run = self@;
        &&& run.is_made(config, model)
        &&& are_full_rounds(tick_lists_of(), run.offered, run.ticks, run.walk.count)
        &&& is_ended(config.max_ticks, run.ticks.len() as int, run.polls, false, false)
        &&& forall|p: int| 0 <= p < run.polls.len() ==> !(#[trigger] run.polls[p]).asks()
        &&& run.is_paced(config.interval_ms)
        &&& !run.told
        &&& self.walk.goes_on(model)
        &&& self.walk@ == run.walk
        &&& self.emitted == run.ticks.len()
        &&& run.starts.len() == self.round_index + 1
        &&& self.started_at == Some(run.starts[0])
        &&& count > 0 ==> stands_at(run.walk.picks, count as int, self.round_index + 1, 0)
        &&& count > 0 ==> self.round_index < self.emitted
    }

    #[verifier::rlimit(40)]
    fn close_round<M: PriceModel<P>>(
        self,
        config: &OpenCtpMarketGeneratorConfig<P>,
        model: &M,
        now: Moment,
        tx: &mut Outbox<MdDriverEvent<P>>,
        stop: &mut StopSignal,
    ) -> (r: (Self, GeneratorStep))
        requires
            self.is_after_round(*config, model),
        ensures
            self@.offered.is_prefix_of(r.0@.offered),
            self@.polls.is_prefix_of(r.0@.polls),
            r.0@ == (RunView { offered: r.0@.offered, polls: r.0@.polls, ..self@ }),
            are_taken(
                *old(tx),
                r.0@.offered.skip(self@.offered.len() as int),
                *final(tx),
                r.1.result(),
            ),
            final(stop)@ == old(stop)@ + r.0@.polls.skip(self@.polls.len() as int),
            match r.1 {
                GeneratorStep::Wait(span) => {
                    &&& r.0.well_formed(*config, model)
                    &&& r.0@.is_running(*config, model)
                    &&& span.nanos == r.0@.remaining_at(config.interval_ms, now)
                    &&& r.0@.polls.len() == self@.polls.len() + 1
                    &&& config.max_ticks is Some ==> r.0@.ticks.len() < config.max_ticks->0
                },
                GeneratorStep::Finish(result) => is_tick_run(*config, model, r.0@, result),
            },
    {
        let ghost mid = self@;
        let ghost count = config.instruments.len() as int;
        proof {
            lemma_full_rounds_are_rounds(tick_lists_of(), mid.offered, mid.ticks, count);
            lemma_rounds_hold_no_stop(tick_lists_of(), mid.offered, mid.ticks, count);
            assert(mid.polls.skip(mid.polls.len() as int) =~= Seq::empty());
            assert(stop@ =~= old(stop)@ + mid.polls.skip(mid.polls.len() as int));
            assert(mid.ticks.skip(mid.ticks.len() as int) =~= Seq::empty());
        }
        if self.round_index == u64::MAX {
            let failure: RuntimeError = RuntimeError::io("generator counter overflow");
            return self.finish(config, model, tx, None, Some(failure), Ghost(mid.ticks));
        }
        if reached_max_ticks(self.emitted, config.max_ticks) {
            return self.finish(config, model, tx, None, None, Ghost(mid.ticks));
        }
        let asked: bool = stop.should_end();
        let ghost poll = stop@.last();
        let ghost after = RunView { polls: mid.polls.push(poll), ..mid };
        proof {
            assert(after.polls.skip(mid.polls.len() as int) =~= seq![poll]);
            assert(stop@ =~= old(stop)@ + after.polls.skip(mid.polls.len() as int));
        }
        if asked {
            let run: GeneratorRun<P> = GeneratorRun { so_far: Ghost(after), ..self };
            return run.finish(config, model, tx, None, None, Ghost(mid.ticks));
        }
        let round_index: u64 = self.round_index + 1;
        let next: GeneratorRun<P> = GeneratorRun { round_index, so_far: Ghost(after), ..self };
        let remaining: Span = next.remaining(config.interval_ms, now);
        proof {
            if count > 0 {
                lemma_pick_in_order(after.walk.picks, count, round_index as int, 0);
            }
            assert(after.offered.skip(mid.offered.len() as int) =~= Seq::empty());
            assert(tx@ =~= old(tx)@ + Seq::<MdDriverEvent<P>>::empty());
            assert(after.is_running(*config, model));
        }
        (next, GeneratorStep::Wait(remaining))
    }

    /// Ends the run: offers what there is of a round, and then a stop, or fails where there is a
    /// failure. `ticks` are those that have been offered in whole rounds.
    #[verifier::rlimit(40)]
    fn finish<M: PriceModel<P>>(
        self,
        config: &OpenCtpMarketGeneratorConfig<P>,
        model: &M,
        tx: &mut Outbox<MdDriverEvent<P>>,
        partial: Option<MdDriverEvent<P>>,
        failure: Option<RuntimeError>,
        Ghost(ticks): Ghost<Seq<RawTickSnapshot<P>>>,
    ) -> (r: (Self, GeneratorStep))
        requires
            self@.is_made(*config, model),
            are_full_rounds(tick_lists_of(), self@.offered, ticks, self@.walk.count),
            ticks.is_prefix_of(self@.ticks),
            self@.ticks.len() - ticks.len() <= self@.walk.count,
            match partial {
                Some(event) => {
                    &&& tick_lists_of()(event) == Some(self@.ticks.skip(ticks.len() as int))
                    &&& ticks.len() < self@.ticks.len()
                    &&& self@.offered.len() < self@.starts.len()
                },
                None => ticks == self@.ticks && self@.offered.len() <= self@.starts.len(),
            },
            is_ended(
                config.max_ticks,
                self@.ticks.len() as int,
                self@.polls,
                self@.told,
                failure is None,
            ),
            failure matches Some(error) ==> error is Io && !is_asked(self@.polls) && !self@.told && {
                ||| is_count_failure(self@.walk, self@.starts.len() as int, error)
                ||| error.is_io("generator timestamp overflow"@) && !has_time(
                    next_round(self@.walk.picks, self@.walk.count),
                    config.interval_ms,
                )
            },
            forall|j: int|
                0 <= j < self@.starts.len() && has_time(j, config.interval_ms) ==> (
                #[trigger] self@.starts[j]).nanos_since(self@.starts[0]) >= elapsed_ns(
                    j,
                    config.interval_ms,
                ),
        ensures
            self@.offered.is_prefix_of(r.0@.offered),
            r.0@ == (RunView { offered: r.0@.offered, ..self@ }),
            partial is None && failure is None ==> r.0@.offered == self@.offered.push(
                MdDriverEvent::Stop,
            ),
            are_taken(
                *old(tx),
                r.0@.offered.skip(self@.offered.len() as int),
                *final(tx),
                r.1.result(),
            ),
            r.1 matches GeneratorStep::Finish(result) && is_tick_run(
                *config,
                model,
                r.0@,
                result,
            ),
    {
        let ghost made = self@;
        let ghost round = made.ticks.skip(ticks.len() as int);
        let (result, added): (
            Result<(), RuntimeError>,
            Ghost<Seq<MdDriverEvent<P>>>,
        ) = end_run(tx, partial, failure);
        let ghost after = RunView { offered: made.offered + added@, ..made };
        proof {
            lemma_run_end(
                tick_lists_of(),
                made.offered,
                ticks,
                round,
                made.walk.count,
                partial,
                failure,
                added@,
                result,
            );
            assert(ticks + round =~= made.ticks);
            assert(after.offered.skip(made.offered.len() as int) =~= added@);
            if partial is None && failure is None {
                assert(after.offered =~= made.offered.push(MdDriverEvent::Stop));
            }
            assert(after.is_paced(config.interval_ms));
        }
        (GeneratorRun { so_far: Ghost(after), ..self }, GeneratorStep::Finish(result))
    }
}

proof fn lemma_full_rounds_are_rounds<E, T>(
    payload: spec_fn(E) -> Option<Seq<T>>,
    events: Seq<E>,
    items: Seq<T>,
    count: int,
)
    requires
        are_full_rounds(payload, events, items, count),
    ensures
        are_rounds(payload, events, items, count),
{
}

proof fn lemma_paced<P>(run: RunView<P>, interval_ms: u64, now: Moment)
    requires
        run.is_paced(interval_ms),
        run.remaining_at(interval_ms, now) == 0,
    ensures
        forall|j: int|
            0 <= j < run.starts.push(now).len() && has_time(j, interval_ms) ==> (
            #[trigger] run.starts.push(now)[j]).nanos_since(run.starts.push(now)[0]) >= elapsed_ns(
                j,
                interval_ms,
            ),
{
    let longer = run.starts.push(now);
    assert forall|j: int| 0 <= j < longer.len() && has_time(j, interval_ms) implies (
    #[trigger] longer[j]).nanos_since(longer[0]) >= elapsed_ns(j, interval_ms) by {
        if j < run.starts.len() {
            assert(longer[j] == run.starts[j]);
        } else if j == 0 {
            assert(0 * interval_ms == 0) by (nonlinear_arith);
        }
    }
}

proof fn lemma_longer_ticks<P>(
    config: OpenCtpMarketGeneratorConfig<P>,
    before: WalkView<P>,
    after: WalkView<P>,
    ticks: Seq<RawTickSnapshot<P>>,
    tick: RawTickSnapshot<P>,
)
    requires
        are_ticks_of(config, before, ticks),
        before.picks.len() == before.quotes.len(),
        after.picks.len() == before.picks.len() + 1,
        after.quotes.len() == before.quotes.len() + 1,
        forall|k: int|
            0 <= k < before.quotes.len() ==> after.quotes[k] == #[trigger] before.quotes[k]
                && after.picks[k] == before.picks[k],
        is_tick_of(config, after.picks.last(), after.quotes.last(), tick),
    ensures
        are_ticks_of(config, after, ticks.push(tick)),
{
    let longer = ticks.push(tick);
    assert forall|k: int| 0 <= k < longer.len() implies is_tick_of(
        config,
        after.picks[k],
        after.quotes[k],
        #[trigger] longer[k],
    ) by {
        if k < ticks.len() {
            assert(longer[k] == ticks[k]);
            assert(after.quotes[k] == before.quotes[k]);
        }
    }
}

/// With a limit of ticks and no stop asked for, a run that ends in good order has sent exactly so
/// many ticks, and then a stop.
pub proof fn law_limit_is_met_exactly<P, M: PriceModel<P>>(
    config: OpenCtpMarketGeneratorConfig<P>,
    model: &M,
    run: RunView<P>,
    limit: u64,
)
    requires
        config.max_ticks == Some(limit),
        is_tick_run(config, model, run, Ok(())),
        forall|p: int| 0 <= p < run.polls.len() ==> !(#[trigger] run.polls[p]).asks(),
        !run.told,
    ensures
        run.ticks.len() == limit,
        carried(tick_lists_of(), run.rounds()) == run.ticks,
        run.offered.last() is Stop,
{
}

/// A run with a limit that volumes and clock can reach, for which no stop is asked, succeeds unless
/// the source is gone: it sends exactly as many ticks as the limit says.
pub proof fn law_limited_run_succeeds<P, M: PriceModel<P>>(
    config: OpenCtpMarketGeneratorConfig<P>,
    model: &M,
    run: RunView<P>,
    r: Result<(), RuntimeError>,
    limit: u64,
)
    requires
        config.instruments.len() > 0,
        config.max_ticks == Some(limit),
        5 * (limit + 1) <= i64::MAX,
        has_time(limit as int, config.interval_ms),
        is_tick_run(config, model, run, r),
        forall|p: int| 0 <= p < run.polls.len() ==> !(#[trigger] run.polls[p]).asks(),
        !run.told,
        r != Err::<(), RuntimeError>(RuntimeError::ChannelSend),
    ensures
        r is Ok,
        run.ticks.len() == limit,
        run.offered.last() is Stop,
{
    lemma_next_round_is_bounded(run.walk.picks, run.walk.count);
    let round = next_round(run.walk.picks, run.walk.count);
    assert(round * config.interval_ms <= limit * config.interval_ms) by (nonlinear_arith)
        requires
            round <= limit,
    ;
    law_volume_is_bounded(
        run.walk,
        model,
        run.walk.quotes.len() as int,
        next_index(run.walk.picks, run.walk.count),
    );
}

/// A run with a limit that ends in good order, with no stop asked for, has sent as many whole rounds as
/// the limit holds, one more event for what is left of it, and then a stop.
pub proof fn law_limited_run_counts_its_rounds<P, M: PriceModel<P>>(
    config: OpenCtpMarketGeneratorConfig<P>,
    model: &M,
    run: RunView<P>,
    limit: u64,
)
    requires
        config.instruments.len() > 0,
        config.max_ticks == Some(limit),
        is_tick_run(config, model, run, Ok(())),
        forall|p: int| 0 <= p < run.polls.len() ==> !(#[trigger] run.polls[p]).asks(),
        !run.told,
    ensures
        ({
            let count = config.instruments.len() as int;
            run.offered.len() == limit as int / count + (if limit as int % count > 0 {
                1int
            } else {
                0
            }) + 1
        }),
{
    let count = config.instruments.len() as int;
    let rounds = run.rounds().len() as int;
    let whole = limit as int / count;
    let left = limit as int % count;
    law_limit_is_met_exactly(config, model, run, limit);
    if rounds > 0 {
        law_event_carries_its_round(tick_lists_of(), run.rounds(), run.ticks, count, 0);
    }
    vstd::arithmetic::div_mod::lemma_fundamental_div_mod(limit as int, count);
    vstd::arithmetic::div_mod::lemma_mod_bound(limit as int, count);
    let expected = whole + if left > 0 {
        1int
    } else {
        0
    };
    assert(rounds == expected) by (nonlinear_arith)
        requires
            0 < count,
            0 <= rounds,
            0 <= left < count,
            limit == count * whole + left,
            rounds > 0 ==> (rounds - 1) * count < limit <= rounds * count,
            rounds == 0 ==> limit == 0,
            left > 0 ==> expected == whole + 1,
            left == 0 ==> expected == whole,
    ;
}

/// Every event of such a run carries the ticks of its round, the last one as far as the limit goes.
pub proof fn law_limited_run_sends_its_rounds<P, M: PriceModel<P>>(
    config: OpenCtpMarketGeneratorConfig<P>,
    model: &M,
    run: RunView<P>,
    limit: u64,
    j: int,
)
    requires
        config.instruments.len() > 0,
        config.max_ticks == Some(limit),
        is_tick_run(config, model, run, Ok(())),
        forall|p: int| 0 <= p < run.polls.len() ==> !(#[trigger] run.polls[p]).asks(),
        !run.told,
        0 <= j < run.rounds().len(),
    ensures
        run.offered == run.rounds().push(MdDriverEvent::Stop),
        (run.rounds().len() - 1) * config.instruments.len() < limit <= run.rounds().len()
            * config.instruments.len(),
        tick_lists_of()(run.rounds()[j]) == Some(
            run.ticks.subrange(
                j * config.instruments.len(),
                if (j + 1) * config.instruments.len() <= limit {
                    (j + 1) * config.instruments.len()
                } else {
                    limit as int
                },
            ),
        ),
{
    law_limit_is_met_exactly(config, model, run, limit);
    law_event_carries_its_round(tick_lists_of(), run.rounds(), run.ticks, run.walk.count, j);
    assert(run.offered =~= run.rounds().push(MdDriverEvent::Stop));
}

proof fn lemma_tick_of_round<P, M: PriceModel<P>>(
    config: OpenCtpMarketGeneratorConfig<P>,
    model: &M,
    run: RunView<P>,
    r: Result<(), RuntimeError>,
    j: int,
    i: int,
)
    requires
        config.instruments.len() > 0,
        is_tick_run(config, model, run, r),
        0 <= j < run.rounds().len(),
        0 <= i < tick_lists_of()(run.rounds()[j])->0.len(),
    ensures
        i < config.instruments.len(),
        0 <= j * config.instruments.len() + i < run.ticks.len(),
        tick_lists_of()(run.rounds()[j])->0[i] == run.ticks[j * config.instruments.len() + i],
        run.walk.picks[j * config.instruments.len() + i] == (Pick { round: j, index: i }),
        has_time(j, config.interval_ms),
{
    let count = config.instruments.len() as int;
    law_event_carries_its_round(tick_lists_of(), run.rounds(), run.ticks, count, j);
    assert((j + 1) * count == j * count + count) by (nonlinear_arith);
    let k = j * count + i;
    law_picks_count_through_rounds(run.walk.picks, count, k);
    vstd::arithmetic::div_mod::lemma_fundamental_div_mod_converse(k, count, j, i);
    assert(is_tick_of(config, run.walk.picks[k], run.walk.quotes[k], run.ticks[k]));
}

/// The ticks of one event share their time.
pub proof fn law_round_shares_its_time<P, M: PriceModel<P>>(
    config: OpenCtpMarketGeneratorConfig<P>,
    model: &M,
    run: RunView<P>,
    r: Result<(), RuntimeError>,
    j: int,
    a: int,
    b: int,
)
    requires
        config.instruments.len() > 0,
        is_tick_run(config, model, run, r),
        0 <= j < run.rounds().len(),
        0 <= a < tick_lists_of()(run.rounds()[j])->0.len(),
        0 <= b < tick_lists_of()(run.rounds()[j])->0.len(),
    ensures
        ({
            let round = tick_lists_of()(run.rounds()[j])->0;
            &&& round[a].update_time@ == round[b].update_time@
            &&& round[a].update_millisec == round[b].update_millisec
        }),
{
    let count = config.instruments.len() as int;
    lemma_tick_of_round(config, model, run, r, j, a);
    lemma_tick_of_round(config, model, run, r, j, b);
    let ka = j * count + a;
    let kb = j * count + b;
    assert(is_tick_of(config, run.walk.picks[ka], run.walk.quotes[ka], run.ticks[ka]));
    assert(is_tick_of(config, run.walk.picks[kb], run.walk.quotes[kb], run.ticks[kb]));
}

/// The rounds keep the interval: a round is offered only once it has begun, and it begins no earlier
/// than its number of intervals after the first.
pub proof fn law_rounds_keep_the_interval<P, M: PriceModel<P>>(
    config: OpenCtpMarketGeneratorConfig<P>,
    model: &M,
    run: RunView<P>,
    r: Result<(), RuntimeError>,
    j: int,
)
    requires
        config.instruments.len() > 0,
        is_tick_run(config, model, run, r),
        0 <= j < run.rounds().len(),
    ensures
        j < run.starts.len(),
        run.starts[j].nanos_since(run.starts[0]) >= j * config.interval_ms * 1_000_000,
{
    law_event_carries_its_round(tick_lists_of(), run.rounds(), run.ticks, run.walk.count, j);
    let round = tick_lists_of()(run.rounds()[j])->0;
    assert((j + 1) * run.walk.count == j * run.walk.count + run.walk.count) by (nonlinear_arith);
    assert(round.len() > 0);
    lemma_tick_of_round(config, model, run, r, j, 0);
}

/// The rate is bounded: in the first `window_ms` milliseconds of a run no more ticks are offered than
/// one round for every interval, and the first, have.
pub proof fn law_rate_is_bounded<P, M: PriceModel<P>>(
    config: OpenCtpMarketGeneratorConfig<P>,
    model: &M,
    run: RunView<P>,
    r: Result<(), RuntimeError>,
    window_ms: int,
    j: int,
    i: int,
)
    requires
        config.instruments.len() > 0,
        config.interval_ms > 0,
        is_tick_run(config, model, run, r),
        0 <= window_ms,
        0 <= j < run.rounds().len(),
        0 <= i < tick_lists_of()(run.rounds()[j])->0.len(),
        run.starts[j].nanos_since(run.starts[0]) <= window_ms * 1_000_000,
    ensures
        j * config.instruments.len() + i < config.instruments.len() * (window_ms
            / config.interval_ms as int + 1),
{
    let count = config.instruments.len() as int;
    let interval = config.interval_ms as int;
    law_rounds_keep_the_interval(config, model, run, r, j);
    lemma_tick_of_round(config, model, run, r, j, i);
    assert(j * interval <= window_ms);
    let whole = window_ms / interval;
    vstd::arithmetic::div_mod::lemma_fundamental_div_mod(window_ms, interval);
    vstd::arithmetic::div_mod::lemma_mod_bound(window_ms, interval);
    assert(j <= whole) by (nonlinear_arith)
        requires
            j * interval <= window_ms,
            window_ms == interval * whole + window_ms % interval,
            window_ms % interval < interval,
            0 < interval,
    ;
    assert(j * count + i < count * (whole + 1)) by (nonlinear_arith)
        requires
            j <= whole,
            i < count,
            0 < count,
    ;
}

/// A stop that a look finds ends a run: unless the source is gone, it succeeds, and the last that it sends
/// is a stop.
pub proof fn law_stop_ends_the_run<P, M: PriceModel<P>>(
    config: OpenCtpMarketGeneratorConfig<P>,
    model: &M,
    run: RunView<P>,
    r: Result<(), RuntimeError>,
    p: int,
)
    requires
        is_tick_run(config, model, run, r),
        0 <= p < run.polls.len(),
        run.polls[p].asks(),
        r != Err::<(), RuntimeError>(RuntimeError::ChannelSend),
    ensures
        p == run.polls.len() - 1,
        r is Ok,
        run.offered.last() is Stop,
{
}

/// A stop that is asked for while a run waits ends it at once: no tick is made any more, and the stop
/// is offered.
pub proof fn law_stop_ends_the_wait<P>(
    config: OpenCtpMarketGeneratorConfig<P>,
    run: RunView<P>,
    next: RunView<P>,
    step: GeneratorStep,
)
    requires
        run.follows(config, GeneratorReply::StopAsked, next, step),
    ensures
        step is Finish,
        next.ticks == run.ticks,
        next.offered == run.offered.push(MdDriverEvent::Stop),
{
}

/// Whether two raw ticks say the same.
pub open spec fn same_tick<P>(a: RawTickSnapshot<P>, b: RawTickSnapshot<P>) -> bool {
    &&& a.instrument_id@ == b.instrument_id@
    &&& a.exchange_id@ == b.exchange_id@
    &&& a.trading_day@ == b.trading_day@
    &&& a.action_day@ == b.action_day@
    &&& a.update_time@ == b.update_time@
    &&& a.update_millisec == b.update_millisec
    &&& a.last_price == b.last_price
    &&& a.volume == b.volume
    &&& a.turnover == b.turnover
    &&& a.open_interest == b.open_interest
    &&& a.bid_price_1 == b.bid_price_1
    &&& a.bid_volume_1 == b.bid_volume_1
    &&& a.ask_price_1 == b.ask_price_1
    &&& a.ask_volume_1 == b.ask_volume_1
}

/// Whether two events of the driver of raw ticks say the same.
pub open spec fn same_event<P>(a: MdDriverEvent<P>, b: MdDriverEvent<P>) -> bool {
    match (a, b) {
        (MdDriverEvent::Ticks(ticks1), MdDriverEvent::Ticks(ticks2)) => {
            &&& ticks1@.len() == ticks2@.len()
            &&& forall|i: int|
                0 <= i < ticks1@.len() ==> same_tick(#[trigger] ticks1@[i], ticks2@[i])
        },
        (MdDriverEvent::Stop, MdDriverEvent::Stop) => true,
        _ => false,
    }
}

/// Where the prices are a function, two runs of one configuration make the same ticks, as far as both
/// go.
pub proof fn law_equal_runs_make_equal_ticks<P, M: PriceModel<P>>(
    config: OpenCtpMarketGeneratorConfig<P>,
    model: &M,
    run1: RunView<P>,
    run2: RunView<P>,
    k: int,
)
    requires
        is_function(model),
        config.instruments.len() > 0,
        run1.is_made(config, model),
        run2.is_made(config, model),
        0 <= k < run1.ticks.len(),
        k < run2.ticks.len(),
    ensures
        same_tick(run1.ticks[k], run2.ticks[k]),
{
    law_generators_quote_alike(config, model, run1.walk, run2.walk, k);
    assert(is_tick_of(config, run1.walk.picks[k], run1.walk.quotes[k], run1.ticks[k]));
    assert(is_tick_of(config, run2.walk.picks[k], run2.walk.quotes[k], run2.ticks[k]));
}

/// Where the prices are a function, two runs of one configuration with a limit that end in good order,
/// with no stop asked for, send the same events.
#[verifier::rlimit(40)]
pub proof fn law_equal_runs_send_equal_events<P, M: PriceModel<P>>(
    config: OpenCtpMarketGeneratorConfig<P>,
    model: &M,
    run1: RunView<P>,
    run2: RunView<P>,
    limit: u64,
    j: int,
)
    requires
        is_function(model),
        config.instruments.len() > 0,
        config.max_ticks == Some(limit),
        is_tick_run(config, model, run1, Ok(())),
        is_tick_run(config, model, run2, Ok(())),
        forall|p: int| 0 <= p < run1.polls.len() ==> !(#[trigger] run1.polls[p]).asks(),
        forall|p: int| 0 <= p < run2.polls.len() ==> !(#[trigger] run2.polls[p]).asks(),
        !run1.told,
        !run2.told,
        0 <= j < run1.offered.len(),
    ensures
        run1.offered.len() == run2.offered.len(),
        same_event(run1.offered[j], run2.offered[j]),
{
    let count = config.instruments.len() as int;
    let len1 = run1.rounds().len() as int;
    let len2 = run2.rounds().len() as int;
    law_limit_is_met_exactly(config, model, run1, limit);
    law_limit_is_met_exactly(config, model, run2, limit);
    if len1 > 0 {
        law_event_carries_its_round(tick_lists_of(), run1.rounds(), run1.ticks, count, 0);
    }
    if len2 > 0 {
        law_event_carries_its_round(tick_lists_of(), run2.rounds(), run2.ticks, count, 0);
    }
    assert(len1 == len2) by (nonlinear_arith)
        requires
            0 < count,
            0 <= len1,
            0 <= len2,
            len1 > 0 ==> (len1 - 1) * count < limit <= len1 * count,
            len2 > 0 ==> (len2 - 1) * count < limit <= len2 * count,
            len1 == 0 ==> limit == 0,
            len2 == 0 ==> limit == 0,
            0 <= limit,
    ;
    if j < len1 {
        let round1 = tick_lists_of()(run1.rounds()[j])->0;
        let round2 = tick_lists_of()(run2.rounds()[j])->0;
        law_event_carries_its_round(tick_lists_of(), run1.rounds(), run1.ticks, count, j);
        law_event_carries_its_round(tick_lists_of(), run2.rounds(), run2.ticks, count, j);
        assert(round1.len() == round2.len());
        assert forall|i: int| 0 <= i < round1.len() implies same_tick(
            #[trigger] round1[i],
            round2[i],
        ) by {
            lemma_tick_of_round(config, model, run1, Ok(()), j, i);
            lemma_tick_of_round(config, model, run2, Ok(()), j, i);
            law_equal_runs_make_equal_ticks(config, model, run1, run2, j * count + i);
        }
        assert(run1.offered[j] == run1.rounds()[j]);
        assert(run2.offered[j] == run2.rounds()[j]);
    }
}

/// The two drivers agree: where the prices are a function, the raw tick and the row of one place in
/// two runs of one configuration hold the same quote of the same instrument; and on one day, the
/// normalizer gives the raw tick the timestamp that the row has.
pub proof fn law_drivers_agree<P, M: PriceModel<P>>(
    config: OpenCtpMarketGeneratorConfig<P>,
    model: &M,
    run: RunView<P>,
    walk: WalkView<P>,
    rows: Seq<NormalizedTickRow<P>>,
    k: int,
)
    requires
        is_function(model),
        config.instruments.len() > 0,
        run.is_made(config, model),
        is_walk_of(config, model, walk),
        in_order(walk.picks, walk.count),
        are_generated_rows(config, walk, rows),
        0 <= k < run.ticks.len(),
        k < rows.len(),
    ensures
        ({
            let tick = run.ticks[k];
            let row = rows[k];
            &&& row.instrument_id@ == tick.instrument_id@
            &&& row.last_price == Some(tick.last_price)
            &&& row.volume == Some(tick.volume)
            &&& row.turnover == Some(tick.turnover)
            &&& row.open_interest == Some(tick.open_interest)
            &&& row.bid_price_1 == Some(tick.bid_price_1)
            &&& row.bid_volume_1 == Some(tick.bid_volume_1)
            &&& row.ask_price_1 == Some(tick.ask_price_1)
            &&& row.ask_volume_1 == Some(tick.ask_volume_1)
            &&& crate::generator::SESSION_START_MS + walk.picks[k].round * config.interval_ms
                < crate::generator::DAY_MS ==> {
                &&& tick.timestamp() == Ok::<int, crate::normalize::NormalizeError>(
                    row.dt_ns as int,
                )
                &&& tick.is_well_formed()
            }
        }),
{
    law_generators_quote_alike(config, model, run.walk, walk, k);
    let pick = walk.picks[k];
    law_picks_count_through_rounds(walk.picks, walk.count, k);
    vstd::arithmetic::div_mod::lemma_div_pos_is_pos(k, walk.count);
    assert(is_tick_of(config, run.walk.picks[k], run.walk.quotes[k], run.ticks[k]));
    assert(is_generated_row(config, pick, walk.quotes[k], rows[k]));
    if crate::generator::SESSION_START_MS + pick.round * config.interval_ms
        < crate::generator::DAY_MS {
        crate::generator::law_round_time_agrees_with_timestamp(
            config.action_day@,
            config.interval_ms,
            pick.round,
            rows[k].dt_ns as int,
        );
    }
}

/// A made-up tick carries its quote, field by field, under the instrument of its pick, with the
/// configured exchange and days, and the time of its round.
pub proof fn law_made_up_tick_carries_its_quote<P>(
    config: OpenCtpMarketGeneratorConfig<P>,
    pick: Pick,
    quote: Quote<P>,
    tick: RawTickSnapshot<P>,
)
    requires
        0 <= pick.round,
        is_tick_of(config, pick, quote, tick),
    ensures
        tick.instrument_id@ == config.instruments@[pick.index]@,
        tick.exchange_id@ == config.exchange_id@,
        tick.trading_day@ == config.trading_day@,
        tick.action_day@ == config.action_day@,
        crate::normalize::is_hh_mm_ss(tick.update_time@),
        0 <= tick.update_millisec <= 999,
        crate::normalize::hh_mm_ss_seconds(tick.update_time@) * 1_000 + tick.update_millisec == (
        34_200_000 + pick.round * config.interval_ms) % 86_400_000,
        tick.last_price == quote.last_price,
        tick.volume == quote.volume,
        tick.turnover == quote.turnover,
        tick.open_interest == quote.open_interest,
        tick.bid_price_1 == quote.bid_price_1,
        tick.bid_volume_1 == quote.bid_volume_1,
        tick.ask_price_1 == quote.ask_price_1,
        tick.ask_volume_1 == quote.ask_volume_1,
{
    assert(0 <= pick.round * config.interval_ms) by (nonlinear_arith)
        requires
            0 <= pick.round,
            0 <= config.interval_ms,
    ;
    crate::generator::law_round_time_is_well_formed(round_ms(pick.round, config.interval_ms));
}

/// A run goes through all instruments, round after round, no further than its limit, and ends with a
/// stop only where the limit is met or a stop was asked for.
pub proof fn law_run_goes_no_further_than_its_limit<P, M: PriceModel<P>>(
    config: OpenCtpMarketGeneratorConfig<P>,
    model: &M,
    run: RunView<P>,
    r: Result<(), RuntimeError>,
    k: int,
)
    requires
        is_tick_run(config, model, run, r),
        config.instruments.len() > 0,
        0 <= k < run.ticks.len(),
    ensures
        config.max_ticks matches Some(limit) ==> run.ticks.len() <= limit,
        run.ticks[k].instrument_id@ == config.instruments@[k % config.instruments.len() as int]@,
        run.walk.picks[k].round == k / config.instruments.len() as int,
        r is Ok ==> {
            ||| config.max_ticks == Some(run.ticks.len() as u64)
            ||| run.polls.len() > 0 && run.polls.last().asks()
            ||| run.told
        },
        r is Ok ==> run.offered.len() > 0 && run.offered.last() is Stop,
{
    law_picks_count_through_rounds(run.walk.picks, run.walk.count, k);
    assert(is_tick_of(config, run.walk.picks[k], run.walk.quotes[k], run.ticks[k]));
}

/// A run that wakes before its next round is due makes nothing and waits just until then; one that wakes
/// in time begins the round.
pub proof fn law_run_waits_until_it_is_due<P>(
    config: OpenCtpMarketGeneratorConfig<P>,
    run: RunView<P>,
    now: Moment,
    next: RunView<P>,
    step: GeneratorStep,
)
    requires
        run.follows(config, GeneratorReply::Woken(now), next, step),
        run.starts.len() > 0,
        run.starts[0].nanos <= now.nanos,
        has_time(run.starts.len() as int, config.interval_ms),
    ensures
        ({
            let due = run.starts[0].nanos + run.starts.len() * config.interval_ms * 1_000_000;
            &&& now.nanos < due ==> next == run && (step matches GeneratorStep::Wait(span)
                && now.nanos + span.nanos == due)
            &&& now.nanos >= due ==> next.starts == run.starts.push(now)
        }),
{
}

/// A run carries all ticks that it made, in order, and fails only for a refused event, for a counter at
/// its end, or for a round that the clock does not reach.
pub proof fn law_run_carries_what_it_made<P, M: PriceModel<P>>(
    config: OpenCtpMarketGeneratorConfig<P>,
    model: &M,
    run: RunView<P>,
    r: Result<(), RuntimeError>,
)
    requires
        is_tick_run(config, model, run, r),
    ensures
        carried(
            tick_lists_of(),
            if run.offered.len() > 0 && run.offered.last() is Stop {
                run.offered.drop_last()
            } else {
                run.offered
            },
        ) == run.ticks,
        run.ticks.len() == run.walk.quotes.len(),
        r is Err && r != Err::<(), RuntimeError>(RuntimeError::ChannelSend) && run.walk.count > 0 ==> {
            let index = next_index(run.walk.picks, run.walk.count);
            let round = next_round(run.walk.picks, run.walk.count);
            ||| run.walk.next_volume(index) > i64::MAX
            ||| run.walk.quotes.len() == u64::MAX
            ||| 34_200_000 + round * config.interval_ms > u64::MAX
        },
{
}

/// Only an event with a list of ticks carries ticks of a run.
pub proof fn law_tick_lists_are_carried<P>(
    raw_ticks: Vec<RawTickSnapshot<P>>,
    event: MdDriverEvent<P>,
)
    ensures
        tick_lists_of()(MdDriverEvent::Ticks(raw_ticks)) == Some(raw_ticks@),
        tick_lists_of()(event) is Some <==> event is Ticks,
{
}

/// Where a run goes on after a round, the round was whole, the limit is not met, and no look found a
/// stop; what it had made before is still there.
pub proof fn law_run_goes_on_by_whole_rounds<P, M: PriceModel<P>>(
    config: OpenCtpMarketGeneratorConfig<P>,
    model: &M,
    run: RunView<P>,
    now: Moment,
    next: RunView<P>,
    span: Span,
)
    requires
        run.follows(config, GeneratorReply::Woken(now), next, GeneratorStep::Wait(span)),
        next.is_running(config, model),
        run.starts.len() == 0 || !has_time(run.starts.len() as int, config.interval_ms)
            || now.nanos_since(run.starts[0]) >= run.starts.len() * config.interval_ms * 1_000_000,
    ensures
        next.ticks.len() == run.ticks.len() + config.instruments.len(),
        run.ticks == next.ticks.take(run.ticks.len() as int),
        run.offered == next.offered.take(run.offered.len() as int),
        config.max_ticks matches Some(limit) ==> next.ticks.len() < limit,
        forall|p: int| 0 <= p < next.polls.len() ==> !(#[trigger] next.polls[p]).asks(),
        next.polls.len() == run.polls.len() + config.instruments.len() + 1,
        next.starts == run.starts.push(now),
{
}

/// A stop that is asked for while a run waits is sent to the source at once, unless the source is gone;
/// either way the run ends.
pub proof fn law_stop_is_sent_at_once<P: Copy, M: PriceModel<P>>(
    run: GeneratorRun<P>,
    config: &OpenCtpMarketGeneratorConfig<P>,
    model: &M,
    tx: &mut Outbox<MdDriverEvent<P>>,
    stop: &mut StopSignal,
    r: (GeneratorRun<P>, GeneratorStep),
)
    requires
        run.well_formed(*config, model),
        call_ensures(
            GeneratorRun::<P>::advance::<M>,
            (run, config, model, GeneratorReply::StopAsked, tx, stop),
            r,
        ),
    ensures
        r.1 is Finish,
        r.1 == GeneratorStep::Finish(Ok(())) ==> final(tx)@ == old(tx)@.push(MdDriverEvent::Stop),
        r.0@.ticks == run@.ticks,
{
    let added = r.0@.offered.skip(run@.offered.len() as int);
    assert(added =~= seq![MdDriverEvent::<P>::Stop]);
    assert(old(tx)@ + added =~= old(tx)@.push(MdDriverEvent::Stop));
}

/// A run that wakes before its next round is due sends nothing.
pub proof fn law_early_run_sends_nothing<P: Copy, M: PriceModel<P>>(
    run: GeneratorRun<P>,
    config: &OpenCtpMarketGeneratorConfig<P>,
    model: &M,
    now: Moment,
    tx: &mut Outbox<MdDriverEvent<P>>,
    stop: &mut StopSignal,
    r: (GeneratorRun<P>, GeneratorStep),
)
    requires
        run.well_formed(*config, model),
        call_ensures(
            GeneratorRun::<P>::advance::<M>,
            (run, config, model, GeneratorReply::Woken(now), tx, stop),
            r,
        ),
        run@.starts.len() > 0,
        run@.starts[0].nanos <= now.nanos,
        has_time(run@.starts.len() as int, config.interval_ms),
        now.nanos < run@.starts[0].nanos + run@.starts.len() * config.interval_ms * 1_000_000,
    ensures
        final(tx)@ == old(tx)@,
        r.0@ == run@,
        r.1 matches GeneratorStep::Wait(span) && now.nanos + span.nanos == run@.starts[0].nanos
            + run@.starts.len() * config.interval_ms * 1_000_000,
{
    law_run_waits_until_it_is_due(*config, run@, now, r.0@, r.1);
    let added = r.0@.offered.skip(run@.offered.len() as int);
    assert(added =~= Seq::empty());
    assert(old(tx)@ + added =~= old(tx)@);
}

} // verus!
