//! The drivers that make ticks up: what their runs have in common, and the run of the one that makes
//! up rows.
use crate::batching::{carried, rows_of};
use crate::channel::{Outbox, StopPoll, StopSignal};
use crate::errors::RuntimeError;
use crate::generator::{
    generator_dt_ns, has_dt, is_dt_failure, is_round_dt, reached_max_ticks,
    OpenCtpMarketGeneratorConfig,
};
use crate::market_walk::{
    is_function, law_same_start_same_quotes, law_volume_is_bounded, MarketWalk, Pick, PriceModel,
    Quote, WalkView,
};
use crate::normalize::NormalizedTickRow;
use crate::source::MdDriverEvent;
use crate::text::text_option;
use vstd::prelude::*;

verus! {

/// The driver that makes up raw ticks.
#[derive(Debug, Clone, PartialEq)]
pub struct OpenCtpMarketGeneratorDriver<P> {
    pub config: OpenCtpMarketGeneratorConfig<P>,
}

impl<P> OpenCtpMarketGeneratorDriver<P> {
    pub fn new(config: OpenCtpMarketGeneratorConfig<P>) -> (driver: Self)
        ensures
            driver.config == config,
    {
        OpenCtpMarketGeneratorDriver { config }
    }
}

/// The driver that makes up rows.
#[derive(Debug, Clone, PartialEq)]
pub struct OpenCtpNormalizedGeneratorDriver<P> {
    pub config: OpenCtpMarketGeneratorConfig<P>,
}

impl<P> OpenCtpNormalizedGeneratorDriver<P> {
    pub fn new(config: OpenCtpMarketGeneratorConfig<P>) -> (driver: Self)
        ensures
            driver.config == config,
    {
        OpenCtpNormalizedGeneratorDriver { config }
    }
}

/// Whether the walk is one of the configured instruments, as configured.
pub open spec fn is_walk_of<P, M: PriceModel<P>>(
    config: OpenCtpMarketGeneratorConfig<P>,
    model: &M,
    walk: WalkView<P>,
) -> bool {
    &&& walk.is_walk(model)
    &&& walk.base_price == config.base_price
    &&& walk.price_step == config.price_step
    &&& walk.seed == config.seed
    &&& walk.count == config.instruments.len()
}

/// The pick that follows: the next instrument of the round, or the first of the next round.
pub open spec fn next_pick(pick: Pick, count: int) -> Pick {
    if pick.index + 1 < count {
        Pick { round: pick.round, index: pick.index + 1 }
    } else {
        Pick { round: pick.round + 1, index: 0 }
    }
}

/// Whether the picks go round after round, through all instruments in their order.
pub open spec fn in_order(picks: Seq<Pick>, count: int) -> bool {
    &&& picks.len() > 0 ==> picks[0] == (Pick { round: 0, index: 0 })
    &&& forall|j: int, k: int|
        #![trigger picks[j], picks[k]]
        0 <= j < picks.len() && k == j + 1 && k < picks.len() ==> picks[k] == next_pick(
            picks[j],
            count,
        )
}

/// The round in which the next pick is.
pub open spec fn next_round(picks: Seq<Pick>, count: int) -> int {
    if picks.len() == 0 {
        0
    } else {
        next_pick(picks.last(), count).round
    }
}

/// The instrument of the next pick.
pub open spec fn next_index(picks: Seq<Pick>, count: int) -> int {
    if picks.len() == 0 {
        0
    } else {
        next_pick(picks.last(), count).index
    }
}

/// Whether the next pick, after these, is that of the given round and index.
pub open spec fn stands_at(picks: Seq<Pick>, count: int, round: int, index: int) -> bool {
    if picks.len() == 0 {
        round == 0 && index == 0
    } else {
        picks.last() == if index == 0 {
            Pick { round: round - 1, index: count - 1 }
        } else {
            Pick { round, index: index - 1 }
        }
    }
}

pub proof fn lemma_pick_in_order(picks: Seq<Pick>, count: int, round: int, index: int)
    requires
        in_order(picks, count),
        stands_at(picks, count, round, index),
        0 <= index < count,
    ensures
        in_order(picks.push(Pick { round, index }), count),
        stands_at(picks.push(Pick { round, index }), count, round, index + 1),
        next_round(picks, count) == round,
        next_index(picks, count) == index,
{
    let pick = Pick { round, index };
    let longer = picks.push(pick);
    assert forall|j: int, k: int|
        #![trigger longer[j], longer[k]]
        0 <= j < longer.len() && k == j + 1 && k < longer.len() implies longer[k] == next_pick(
        longer[j],
        count,
    ) by {
        if k < picks.len() {
            assert(longer[j] == picks[j] && longer[k] == picks[k]);
        } else {
            assert(longer[j] == picks.last());
        }
    }
}

/// Every instrument has one tick in a round, in the configured order: the picks are what counting
/// through rounds of `count` gives.
pub proof fn law_picks_count_through_rounds(picks: Seq<Pick>, count: int, k: int)
    requires
        in_order(picks, count),
        0 < count,
        0 <= k < picks.len(),
    ensures
        picks[k] == (Pick { round: k / count, index: k % count }),
    decreases k,
{
    vstd::arithmetic::div_mod::lemma_fundamental_div_mod(k, count);
    if k == 0 {
        vstd::arithmetic::div_mod::lemma_fundamental_div_mod_converse(0, count, 0, 0);
    } else {
        law_picks_count_through_rounds(picks, count, k - 1);
        assert(picks[k] == next_pick(picks[k - 1], count));
        let q = (k - 1) / count;
        let r = (k - 1) % count;
        vstd::arithmetic::div_mod::lemma_fundamental_div_mod(k - 1, count);
        vstd::arithmetic::div_mod::lemma_mod_bound(k - 1, count);
        if r + 1 < count {
            assert(k == q * count + (r + 1)) by (nonlinear_arith)
                requires
                    k - 1 == count * q + r,
            ;
            vstd::arithmetic::div_mod::lemma_fundamental_div_mod_converse(k, count, q, r + 1);
        } else {
            assert(k == (q + 1) * count + 0) by (nonlinear_arith)
                requires
                    k - 1 == count * q + r,
                    r + 1 == count,
            ;
            vstd::arithmetic::div_mod::lemma_fundamental_div_mod_converse(k, count, q + 1, 0);
        }
    }
}

/// Whether `row` is the row of a quote, its two local times still at zero.
pub open spec fn is_generated_row<P>(
    config: OpenCtpMarketGeneratorConfig<P>,
    pick: Pick,
    quote: Quote<P>,
    row: NormalizedTickRow<P>,
) -> bool {
    &&& row.instrument_id@ == config.instruments@[pick.index]@
    &&& text_option(row.exchange_id) == Some(config.exchange_id@)
    &&& text_option(row.trading_day) == Some(config.trading_day@)
    &&& text_option(row.action_day) == Some(config.action_day@)
    &&& is_round_dt(config.action_day@, config.interval_ms, pick.round, row.dt_ns as int)
    &&& row.localtime_ns == 0
    &&& row.source_emit_ns == 0
    &&& row.last_price == Some(quote.last_price)
    &&& row.volume == Some(quote.volume)
    &&& row.turnover == Some(quote.turnover)
    &&& row.open_interest == Some(quote.open_interest)
    &&& row.bid_price_1 == Some(quote.bid_price_1)
    &&& row.bid_volume_1 == Some(quote.bid_volume_1)
    &&& row.ask_price_1 == Some(quote.ask_price_1)
    &&& row.ask_volume_1 == Some(quote.ask_volume_1)
}

/// Whether `rows` are the rows of the walk.
pub open spec fn are_generated_rows<P>(
    config: OpenCtpMarketGeneratorConfig<P>,
    walk: WalkView<P>,
    rows: Seq<NormalizedTickRow<P>>,
) -> bool {
    &&& rows.len() == walk.quotes.len()
    &&& forall|k: int|
        0 <= k < rows.len() ==> is_generated_row(
            config,
            walk.picks[k],
            walk.quotes[k],
            #[trigger] rows[k],
        )
}

/// Whether the events carry `items` in rounds of `count`: every event a whole round, and the last
/// one what there is of it.
pub open spec fn are_rounds<E, T>(
    payload: spec_fn(E) -> Option<Seq<T>>,
    events: Seq<E>,
    items: Seq<T>,
    count: int,
) -> bool {
    &&& carried(payload, events) == items
    &&& forall|j: int|
        0 <= j < events.len() ==> {
            &&& payload(#[trigger] events[j]) is Some
            &&& 0 < payload(events[j])->0.len() <= count
            &&& j + 1 < events.len() ==> payload(events[j])->0.len() == count
        }
}

/// Whether the events carry `items` in whole rounds of `count`.
pub open spec fn are_full_rounds<E, T>(
    payload: spec_fn(E) -> Option<Seq<T>>,
    events: Seq<E>,
    items: Seq<T>,
    count: int,
) -> bool {
    &&& carried(payload, events) == items
    &&& forall|j: int|
        0 <= j < events.len() ==> payload(#[trigger] events[j]) is Some && 0 < payload(
            events[j],
        )->0.len() == count
}

pub(crate) proof fn lemma_one_more_round<E, T>(
    payload: spec_fn(E) -> Option<Seq<T>>,
    events: Seq<E>,
    items: Seq<T>,
    count: int,
    event: E,
)
    requires
        are_full_rounds(payload, events, items, count),
        payload(event) is Some,
        0 < payload(event)->0.len() <= count,
    ensures
        are_rounds(payload, events.push(event), items + payload(event)->0, count),
        payload(event)->0.len() == count ==> are_full_rounds(
            payload,
            events.push(event),
            items + payload(event)->0,
            count,
        ),
{
    let longer = events.push(event);
    assert(longer.drop_last() =~= events);
    assert(carried(payload, longer) == items + payload(event)->0);
    assert forall|j: int| 0 <= j < longer.len() implies {
        &&& payload(#[trigger] longer[j]) is Some
        &&& 0 < payload(longer[j])->0.len() <= count
        &&& j + 1 < longer.len() ==> payload(longer[j])->0.len() == count
    } by {
        if j < events.len() {
            assert(longer[j] == events[j]);
        }
    }
}

/// How far a run went: not beyond the limit, and not beyond the first look that found a stop, which
/// is made before every item. A run that stops has made as many items as it may, or a look found a
/// stop, or it was told of one while it waited.
pub open spec fn is_ended(
    max_ticks: Option<u64>,
    items: int,
    polls: Seq<StopPoll>,
    told: bool,
    stops: bool,
) -> bool {
    &&& max_ticks is Some ==> items <= max_ticks->0
    &&& items <= polls.len()
    &&& forall|p: int| 0 <= p < polls.len() - 1 ==> !(#[trigger] polls[p]).asks()
    &&& stops ==> {
        ||| max_ticks is Some && items == max_ticks->0
        ||| is_asked(polls)
        ||| told
    }
}

/// Whether the last look found that a stop is asked for.
pub open spec fn is_asked(polls: Seq<StopPoll>) -> bool {
    polls.len() > 0 && polls.last().asks()
}

/// Whether the last of the events is a stop.
pub open spec fn ends_with_stop<P>(events: Seq<MdDriverEvent<P>>) -> bool {
    events.len() > 0 && events.last() is Stop
}

/// Whether the events are rounds of `items`, and behind them a stop where the last event is one.
pub open spec fn are_offered<P, T>(
    payload: spec_fn(MdDriverEvent<P>) -> Option<Seq<T>>,
    offered: Seq<MdDriverEvent<P>>,
    items: Seq<T>,
    count: int,
) -> bool {
    if ends_with_stop(offered) {
        are_rounds(payload, offered.drop_last(), items, count)
    } else {
        are_rounds(payload, offered, items, count)
    }
}

/// Whether all that a run offered has gone into the channel; or all but the last event, which was
/// refused, where the run failed for that.
pub open spec fn are_taken<P>(
    before: Outbox<MdDriverEvent<P>>,
    offered: Seq<MdDriverEvent<P>>,
    after: Outbox<MdDriverEvent<P>>,
    r: Result<(), RuntimeError>,
) -> bool {
    if r == Err::<(), RuntimeError>(RuntimeError::ChannelSend) {
        &&& offered.len() > 0
        &&& after@ == before@ + offered.drop_last()
        &&& after.refused() == before.refused().push(offered.last())
    } else {
        &&& after@ == before@ + offered
        &&& after.refused() == before.refused()
    }
}

/// Whether `error` ends a run because something could no longer be counted: the volume of the next
/// quote or the quotes themselves, or, without instruments, the rounds.
pub open spec fn is_count_failure<P>(walk: WalkView<P>, rounds: int, error: RuntimeError) -> bool {
    &&& error.is_io("generator counter overflow"@)
    &&& if walk.count > 0 {
        ||| walk.next_volume(next_index(walk.picks, walk.count)) > i64::MAX
        ||| walk.quotes.len() == u64::MAX
    } else {
        rounds > u64::MAX
    }
}

/// What a run of the driver of rows does: it walks the configured instruments round after round,
/// offers the rows of every round together, and at the end a stop. The interval is one of event time
/// alone: the run does not wait.
pub open spec fn is_row_run<P, M: PriceModel<P>>(
    config: OpenCtpMarketGeneratorConfig<P>,
    model: &M,
    walk: WalkView<P>,
    rows: Seq<NormalizedTickRow<P>>,
    offered: Seq<MdDriverEvent<P>>,
    polls: Seq<StopPoll>,
    r: Result<(), RuntimeError>,
) -> bool {
    &&& is_walk_of(config, model, walk)
    &&& in_order(walk.picks, walk.count)
    &&& are_generated_rows(config, walk, rows)
    &&& are_offered(rows_of(), offered, rows, walk.count)
    &&& is_ended(config.max_ticks, rows.len() as int, polls, false, ends_with_stop(offered))
    &&& match r {
        Ok(_) => ends_with_stop(offered),
        Err(error) => error == RuntimeError::ChannelSend || {
            &&& !ends_with_stop(offered)
            &&& !is_asked(polls)
            &&& {
                ||| is_count_failure(walk, polls.len() as int + 1, error)
                ||| is_dt_failure(
                    config.action_day@,
                    config.interval_ms,
                    if walk.count > 0 {
                        next_round(walk.picks, walk.count)
                    } else {
                        polls.len() as int
                    },
                    error,
                )
            }
        },
    }
}

pub(crate) proof fn lemma_rounds_hold_no_stop<P, T>(
    payload: spec_fn(MdDriverEvent<P>) -> Option<Seq<T>>,
    events: Seq<MdDriverEvent<P>>,
    items: Seq<T>,
    count: int,
)
    requires
        are_rounds(payload, events, items, count),
        payload(MdDriverEvent::Stop) is None,
    ensures
        !ends_with_stop(events),
        are_offered(payload, events, items, count),
        ends_with_stop(events.push(MdDriverEvent::Stop)),
        are_offered(payload, events.push(MdDriverEvent::Stop), items, count),
{
    if events.len() > 0 {
        assert(payload(events[events.len() - 1]) is Some);
    }
    assert(events.push(MdDriverEvent::Stop).drop_last() =~= events);
}

fn row_of<P: Copy>(
    config: &OpenCtpMarketGeneratorConfig<P>,
    index: usize,
    Ghost(round): Ghost<int>,
    dt_ns: i64,
    quote: Quote<P>,
) -> (row: NormalizedTickRow<P>)
    requires
        index < config.instruments.len(),
        is_round_dt(config.action_day@, config.interval_ms, round, dt_ns as int),
    ensures
        is_generated_row(*config, Pick { round, index: index as int }, quote, row),
{
    NormalizedTickRow {
        instrument_id: config.instruments[index].clone(),
        exchange_id: Some(config.exchange_id.clone()),
        trading_day: Some(config.trading_day.clone()),
        action_day: Some(config.action_day.clone()),
        dt_ns,
        localtime_ns: 0,
        source_emit_ns: 0,
        last_price: Some(quote.last_price),
        volume: Some(quote.volume),
        turnover: Some(quote.turnover),
        open_interest: Some(quote.open_interest),
        bid_price_1: Some(quote.bid_price_1),
        bid_volume_1: Some(quote.bid_volume_1),
        ask_price_1: Some(quote.ask_price_1),
        ask_volume_1: Some(quote.ask_volume_1),
    }
}

/// Sends what there is of a round, and then a stop, or fails where there is a failure. It remembers,
/// for proofs, what it offered.
pub(crate) fn end_run<P>(
    tx: &mut Outbox<MdDriverEvent<P>>,
    partial: Option<MdDriverEvent<P>>,
    failure: Option<RuntimeError>,
) -> (r: (Result<(), RuntimeError>, Ghost<Seq<MdDriverEvent<P>>>))
    requires
        failure is Some ==> failure->0 is Io,
    ensures
        is_end(partial, failure, r.1@, r.0),
        are_taken(*old(tx), r.1@, *final(tx), r.0),
{
    let ghost mut added: Seq<MdDriverEvent<P>> = Seq::empty();
    assert(tx@ =~= old(tx)@ + added);
    if let Some(event) = partial {
        let ghost offered = seq![event];
        match tx.send(event) {
            Ok(_) => {},
            Err(error) => {
                assert(offered.drop_last() =~= added);
                return (Err(error), Ghost(offered));
            },
        }
        proof {
            assert(tx@ =~= old(tx)@ + offered);
            added = offered;
        }
    }
    match failure {
        Some(error) => {
            (Err(error), Ghost(added))
        },
        None => {
            let ghost offered = added.push(MdDriverEvent::Stop);
            let r: Result<(), RuntimeError> = tx.send(MdDriverEvent::Stop);
            proof {
                assert(offered.drop_last() =~= added);
                if r is Ok {
                    assert(tx@ =~= old(tx)@ + offered);
                }
            }
            (r, Ghost(offered))
        },
    }
}

/// What the end of a run offers: what there is of a round, and then a stop unless it fails. Where an
/// event is refused, it is the last one.
pub(crate) open spec fn is_end<P>(
    partial: Option<MdDriverEvent<P>>,
    failure: Option<RuntimeError>,
    added: Seq<MdDriverEvent<P>>,
    r: Result<(), RuntimeError>,
) -> bool {
    let round = match partial {
        Some(event) => seq![event],
        None => Seq::empty(),
    };
    let all = match failure {
        Some(_) => round,
        None => round.push(MdDriverEvent::Stop),
    };
    ||| added == all && match failure {
        Some(error) => r == Err::<(), RuntimeError>(error),
        None => r is Ok,
    }
    ||| r == Err::<(), RuntimeError>(RuntimeError::ChannelSend) && added.len() > 0 && (added == all
        || added == round)
}

pub(crate) proof fn lemma_run_end<P, T>(
    payload: spec_fn(MdDriverEvent<P>) -> Option<Seq<T>>,
    sent: Seq<MdDriverEvent<P>>,
    items: Seq<T>,
    round_items: Seq<T>,
    count: int,
    partial: Option<MdDriverEvent<P>>,
    failure: Option<RuntimeError>,
    added: Seq<MdDriverEvent<P>>,
    r: Result<(), RuntimeError>,
)
    requires
        payload(MdDriverEvent::Stop) is None,
        are_full_rounds(payload, sent, items, count),
        round_items.len() <= count,
        match partial {
            Some(event) => payload(event) == Some(round_items) && round_items.len() > 0,
            None => round_items.len() == 0,
        },
        failure is Some ==> failure->0 is Io,
        is_end(partial, failure, added, r),
    ensures
        r == Err::<(), RuntimeError>(RuntimeError::ChannelSend) || match failure {
            Some(error) => r == Err::<(), RuntimeError>(error),
            None => r is Ok,
        },
        are_offered(payload, sent + added, items + round_items, count),
        ends_with_stop(sent + added) ==> failure is None,
        r is Ok ==> ends_with_stop(sent + added),
        (sent + added).len() <= sent.len() + (if round_items.len() > 0 {
            1int
        } else {
            0
        }) + (if ends_with_stop(sent + added) {
            1int
        } else {
            0
        }),
{
    let rounds = match partial {
        Some(event) => sent.push(event),
        None => sent,
    };
    match partial {
        Some(event) => {
            lemma_one_more_round(payload, sent, items, count, event);
            assert(sent + seq![event] =~= rounds);
            assert(sent + seq![event].push(MdDriverEvent::Stop) =~= rounds.push(
                MdDriverEvent::Stop,
            ));
        },
        None => {
            assert(items + round_items =~= items);
            assert(sent + Seq::<MdDriverEvent<P>>::empty() =~= rounds);
            assert(sent + Seq::<MdDriverEvent<P>>::empty().push(MdDriverEvent::Stop)
                =~= rounds.push(MdDriverEvent::Stop));
        },
    }
    lemma_rounds_hold_no_stop(payload, rounds, items + round_items, count);
}

/// Makes up rows and sends them, round after round, until it has sent as many as it may or a
/// stop is asked for; then it sends a stop. The interval is one of event time alone: it does not wait.
#[verifier::rlimit(40)]
pub fn run_normalized_generator<P: Copy, M: PriceModel<P>>(
    config: OpenCtpMarketGeneratorConfig<P>,
    model: &M,
    tx: &mut Outbox<MdDriverEvent<P>>,
    stop: &mut StopSignal,
) -> (r: Result<(), RuntimeError>)
    ensures
        exists|
            walk: WalkView<P>,
            rows: Seq<NormalizedTickRow<P>>,
            offered: Seq<MdDriverEvent<P>>,
            polls: Seq<StopPoll>,
        |
            {
                &&& #[trigger] is_row_run(config, model, walk, rows, offered, polls, r)
                &&& are_taken(*old(tx), offered, *final(tx), r)
                &&& final(stop)@ == old(stop)@ + polls
            },
{
    let count: usize = config.instruments.len();
    let mut walk: MarketWalk<P> = MarketWalk::new(
        model,
        config.base_price,
        config.price_step,
        config.seed,
        count,
    );
    let mut emitted: u64 = 0;
    let mut round_index: u64 = 0;
    let ghost mut rows: Seq<NormalizedTickRow<P>> = Seq::empty();
    let ghost mut sent: Seq<MdDriverEvent<P>> = Seq::empty();
    let ghost mut polls: Seq<StopPoll> = Seq::empty();
    assert(tx@ =~= old(tx)@ + sent);
    assert(stop@ =~= old(stop)@ + polls);
    proof {
        walk.lemma_goes_on(model);
    }
    loop
        invariant
            count == config.instruments.len(),
            walk.goes_on(model),
            is_walk_of(config, model, walk@),
            in_order(walk@.picks, count as int),
            count > 0 ==> stands_at(walk@.picks, count as int, round_index as int, 0),
            are_generated_rows(config, walk@, rows),
            are_full_rounds(rows_of(), sent, rows, count as int),
            tx@ == old(tx)@ + sent,
            tx.refused() == old(tx).refused(),
            stop@ == old(stop)@ + polls,
            emitted == rows.len(),
            count > 0 ==> round_index <= emitted,
            emitted <= polls.len(),
            count == 0 ==> round_index == polls.len(),
            forall|p: int| 0 <= p < polls.len() ==> !(#[trigger] polls[p]).asks(),
            config.max_ticks is Some ==> emitted <= config.max_ticks->0,
        decreases u64::MAX - round_index,
    {
        let dt_ns: i64 = match generator_dt_ns(
            config.action_day.as_str(),
            config.interval_ms,
            round_index,
        ) {
            Ok(dt_ns) => dt_ns,
            Err(error) => {
                let r: Result<(), RuntimeError> = Err(error);
                proof {
                    if count > 0 {
                        lemma_pick_in_order(walk@.picks, count as int, round_index as int, 0);
                    }
                    lemma_rounds_hold_no_stop(rows_of(), sent, rows, count as int);
                    assert(is_row_run(config, model, walk@, rows, sent, polls, r));
                }
                return r;
            },
        };
        let mut round_rows: Vec<NormalizedTickRow<P>> = Vec::new();
        let mut index: usize = 0;
        assert(rows + round_rows@ =~= rows);
        while index < count
            invariant
                index <= count,
                count == config.instruments.len(),
                walk.goes_on(model),
                is_walk_of(config, model, walk@),
                in_order(walk@.picks, count as int),
                count > 0 ==> stands_at(
                    walk@.picks,
                    count as int,
                    round_index as int,
                    index as int,
                ),
                are_generated_rows(config, walk@, rows + round_rows@),
                are_full_rounds(rows_of(), sent, rows, count as int),
                tx@ == old(tx)@ + sent,
                tx.refused() == old(tx).refused(),
                stop@ == old(stop)@ + polls,
                round_rows.len() == index,
                emitted == rows.len() + index,
                emitted <= polls.len(),
                count == 0 ==> round_index == polls.len(),
                forall|p: int| 0 <= p < polls.len() ==> !(#[trigger] polls[p]).asks(),
                config.max_ticks is Some ==> emitted <= config.max_ticks->0,
                is_round_dt(
                    config.action_day@,
                    config.interval_ms,
                    round_index as int,
                    dt_ns as int,
                ),
            decreases count - index,
        {
            let asked: bool = stop.should_stop();
            proof {
                let poll = stop@.last();
                assert(stop@ =~= old(stop)@ + polls.push(poll));
                polls = polls.push(poll);
            }
            let ghost before = walk@;
            proof {
                lemma_pick_in_order(before.picks, count as int, round_index as int, index as int);
            }
            if asked || reached_max_ticks(emitted, config.max_ticks) {
                return finish_rows(
                    &config,
                    model,
                    tx,
                    round_rows,
                    None,
                    Ghost(*old(tx)),
                    Ghost(walk@),
                    Ghost(rows),
                    Ghost(sent),
                    Ghost(polls),
                );
            }
            let next: Option<Quote<P>> = if emitted == u64::MAX {
                None
            } else {
                walk.next_quote(model, index, round_index)
            };
            let quote: Quote<P> = match next {
                Some(quote) => quote,
                None => {
                    return finish_rows(
                        &config,
                        model,
                        tx,
                        round_rows,
                        Some(RuntimeError::io("generator counter overflow")),
                        Ghost(*old(tx)),
                        Ghost(walk@),
                        Ghost(rows),
                        Ghost(sent),
                        Ghost(polls),
                    );
                },
            };
            let row: NormalizedTickRow<P> = row_of(
                &config,
                index,
                Ghost(round_index as int),
                dt_ns,
                quote,
            );
            proof {
                walk.lemma_goes_on(model);
                assert((rows + round_rows@).push(row) =~= rows + round_rows@.push(row));
                assert(forall|k: int|
                    0 <= k < before.quotes.len() ==> walk@.quotes[k] == #[trigger] before.quotes[k]
                        && walk@.picks[k] == before.picks[k]);
                lemma_longer_rows(config, before, walk@, rows + round_rows@, row);
            }
            round_rows.push(row);
            emitted = emitted + 1;
            index = index + 1;
        }
        if round_rows.len() > 0 {
            let event: MdDriverEvent<P> = MdDriverEvent::Rows(round_rows);
            let ghost carried_rows = round_rows@;
            match tx.send(event) {
                Ok(_) => {},
                Err(error) => {
                    let r: Result<(), RuntimeError> = Err(error);
                    proof {
                        let all = rows + carried_rows;
                        let offered = sent.push(event);
                        lemma_one_more_round(rows_of(), sent, rows, count as int, event);
                        lemma_rounds_hold_no_stop(rows_of(), offered, all, count as int);
                        assert(offered.drop_last() =~= sent);
                        assert(is_row_run(config, model, walk@, all, offered, polls, r));
                    }
                    return r;
                },
            }
            proof {
                lemma_one_more_round(rows_of(), sent, rows, count as int, event);
                assert(tx@ =~= old(tx)@ + sent.push(event));
                sent = sent.push(event);
                rows = rows + carried_rows;
            }
        }
        let no_rows: Vec<NormalizedTickRow<P>> = Vec::new();
        assert(rows + no_rows@ =~= rows);
        if round_index == u64::MAX {
            return finish_rows(
                &config,
                model,
                tx,
                no_rows,
                Some(RuntimeError::io("generator counter overflow")),
                Ghost(*old(tx)),
                Ghost(walk@),
                Ghost(rows),
                Ghost(sent),
                Ghost(polls),
            );
        }
        round_index = round_index + 1;
        if reached_max_ticks(emitted, config.max_ticks) {
            return finish_rows(
                &config,
                model,
                tx,
                no_rows,
                None,
                Ghost(*old(tx)),
                Ghost(walk@),
                Ghost(rows),
                Ghost(sent),
                Ghost(polls),
            );
        }
        let asked: bool = stop.should_end();
        proof {
            let poll = stop@.last();
            assert(stop@ =~= old(stop)@ + polls.push(poll));
            polls = polls.push(poll);
        }
        if asked {
            return finish_rows(
                &config,
                model,
                tx,
                no_rows,
                None,
                Ghost(*old(tx)),
                Ghost(walk@),
                Ghost(rows),
                Ghost(sent),
                Ghost(polls),
            );
        }
    }
}

/// Sends what there is of a round, and then a stop, or fails where there is a failure.
#[verifier::rlimit(40)]
fn finish_rows<P: Copy, M: PriceModel<P>>(
    config: &OpenCtpMarketGeneratorConfig<P>,
    model: &M,
    tx: &mut Outbox<MdDriverEvent<P>>,
    round_rows: Vec<NormalizedTickRow<P>>,
    failure: Option<RuntimeError>,
    Ghost(base): Ghost<Outbox<MdDriverEvent<P>>>,
    Ghost(walk): Ghost<WalkView<P>>,
    Ghost(rows): Ghost<Seq<NormalizedTickRow<P>>>,
    Ghost(sent): Ghost<Seq<MdDriverEvent<P>>>,
    Ghost(polls): Ghost<Seq<StopPoll>>,
) -> (r: Result<(), RuntimeError>)
    requires
        is_walk_of(*config, model, walk),
        in_order(walk.picks, walk.count),
        are_generated_rows(*config, walk, rows + round_rows@),
        are_full_rounds(rows_of(), sent, rows, walk.count),
        round_rows.len() <= walk.count,
        is_ended(
            config.max_ticks,
            (rows + round_rows@).len() as int,
            polls,
            false,
            failure is None,
        ),
        failure is Some ==> is_count_failure(walk, polls.len() as int + 1, failure->0) && !is_asked(
            polls,
        ),
        old(tx)@ == base@ + sent,
        old(tx).refused() == base.refused(),
    ensures
        exists|offered: Seq<MdDriverEvent<P>>|
            {
                &&& #[trigger] is_row_run(
                    *config,
                    model,
                    walk,
                    rows + round_rows@,
                    offered,
                    polls,
                    r,
                )
                &&& are_taken(base, offered, *final(tx), r)
            },
{
    let ghost round = round_rows@;
    let partial: Option<MdDriverEvent<P>> = if round_rows.len() > 0 {
        Some(MdDriverEvent::Rows(round_rows))
    } else {
        None
    };
    let (r, added): (Result<(), RuntimeError>, Ghost<Seq<MdDriverEvent<P>>>) = end_run(
        tx,
        partial,
        failure,
    );
    proof {
        lemma_run_end(rows_of(), sent, rows, round, walk.count, partial, failure, added@, r);
        let offered = sent + added@;
        assert(base@ + sent + added@ =~= base@ + offered);
        if added@.len() > 0 {
            assert(offered.drop_last() =~= sent + added@.drop_last());
            assert(base@ + sent + added@.drop_last() =~= base@ + (sent + added@.drop_last()));
        }
        assert(is_row_run(*config, model, walk, rows + round, offered, polls, r));
    }
    r
}

proof fn lemma_longer_rows<P>(
    config: OpenCtpMarketGeneratorConfig<P>,
    before: WalkView<P>,
    after: WalkView<P>,
    rows: Seq<NormalizedTickRow<P>>,
    row: NormalizedTickRow<P>,
)
    requires
        are_generated_rows(config, before, rows),
        before.picks.len() == before.quotes.len(),
        after.picks.len() == before.picks.len() + 1,
        after.quotes.len() == before.quotes.len() + 1,
        forall|k: int|
            0 <= k < before.quotes.len() ==> after.quotes[k] == #[trigger] before.quotes[k]
                && after.picks[k] == before.picks[k],
        is_generated_row(config, after.picks.last(), after.quotes.last(), row),
    ensures
        are_generated_rows(config, after, rows.push(row)),
{
    let longer = rows.push(row);
    assert forall|k: int| 0 <= k < longer.len() implies is_generated_row(
        config,
        after.picks[k],
        after.quotes[k],
        #[trigger] longer[k],
    ) by {
        if k < rows.len() {
            assert(longer[k] == rows[k]);
            assert(after.quotes[k] == before.quotes[k]);
        }
    }
}

/// With a limit of rows and no stop asked for, a run that ends in good order has sent exactly so
/// many rows, and then a stop.
pub proof fn law_row_limit_is_met_exactly<P, M: PriceModel<P>>(
    config: OpenCtpMarketGeneratorConfig<P>,
    model: &M,
    walk: WalkView<P>,
    rows: Seq<NormalizedTickRow<P>>,
    offered: Seq<MdDriverEvent<P>>,
    polls: Seq<StopPoll>,
    limit: u64,
)
    requires
        config.max_ticks == Some(limit),
        is_row_run(config, model, walk, rows, offered, polls, Ok(())),
        forall|p: int| 0 <= p < polls.len() ==> !(#[trigger] polls[p]).asks(),
    ensures
        rows.len() == limit,
        carried(rows_of(), offered.drop_last()) == rows,
        offered.last() is Stop,
{
}

pub(crate) proof fn lemma_next_round_is_bounded(picks: Seq<Pick>, count: int)
    requires
        in_order(picks, count),
        0 < count,
    ensures
        0 <= next_round(picks, count) <= picks.len(),
        0 <= next_index(picks, count) < count,
{
    let n = picks.len() as int;
    if n > 0 {
        law_picks_count_through_rounds(picks, count, n - 1);
        let q = (n - 1) / count;
        vstd::arithmetic::div_mod::lemma_mod_bound(n - 1, count);
        vstd::arithmetic::div_mod::lemma_div_pos_is_pos(n - 1, count);
        vstd::arithmetic::div_mod::lemma_div_is_ordered_by_denominator(n - 1, 1, count);
        assert((n - 1) / 1 == n - 1);
        assert(0 <= q <= n - 1);
    }
}

/// A run of rows with a limit that volumes and timestamps can reach, for which no stop is asked,
/// succeeds unless the source is gone: it sends exactly as many rows as the limit says.
pub proof fn law_limited_row_run_succeeds<P, M: PriceModel<P>>(
    config: OpenCtpMarketGeneratorConfig<P>,
    model: &M,
    walk: WalkView<P>,
    rows: Seq<NormalizedTickRow<P>>,
    offered: Seq<MdDriverEvent<P>>,
    polls: Seq<StopPoll>,
    r: Result<(), RuntimeError>,
    limit: u64,
)
    requires
        config.instruments.len() > 0,
        config.max_ticks == Some(limit),
        5 * (limit + 1) <= i64::MAX,
        forall|round: int|
            0 <= round <= limit ==> #[trigger] has_dt(
                config.action_day@,
                config.interval_ms,
                round,
            ),
        is_row_run(config, model, walk, rows, offered, polls, r),
        forall|p: int| 0 <= p < polls.len() ==> !(#[trigger] polls[p]).asks(),
        r != Err::<(), RuntimeError>(RuntimeError::ChannelSend),
    ensures
        r is Ok,
        rows.len() == limit,
        offered.last() is Stop,
{
    lemma_next_round_is_bounded(walk.picks, walk.count);
    assert(has_dt(
        config.action_day@,
        config.interval_ms,
        next_round(walk.picks, walk.count),
    ));
    law_volume_is_bounded(
        walk,
        model,
        walk.quotes.len() as int,
        next_index(walk.picks, walk.count),
    );
}

proof fn lemma_full_rounds_have_all<E, T>(
    payload: spec_fn(E) -> Option<Seq<T>>,
    events: Seq<E>,
    items: Seq<T>,
    count: int,
)
    requires
        are_full_rounds(payload, events, items, count),
    ensures
        items.len() == events.len() * count,
    decreases events.len(),
{
    if events.len() > 0 {
        let fewer = events.drop_last();
        assert forall|j: int| 0 <= j < fewer.len() implies payload(#[trigger] fewer[j]) is Some
            && 0 < payload(fewer[j])->0.len() == count by {
            assert(fewer[j] == events[j]);
        }
        lemma_full_rounds_have_all(payload, fewer, carried(payload, fewer), count);
        assert(payload(events[events.len() - 1]) is Some);
        assert((events.len() - 1) * count + count == events.len() * count) by (nonlinear_arith);
    } else {
        assert(0 * count == 0) by (nonlinear_arith);
    }
}

proof fn lemma_full_round_is_slice<E, T>(
    payload: spec_fn(E) -> Option<Seq<T>>,
    events: Seq<E>,
    items: Seq<T>,
    count: int,
    j: int,
)
    requires
        are_full_rounds(payload, events, items, count),
        0 <= j < events.len(),
    ensures
        0 <= j * count,
        (j + 1) * count <= items.len(),
        payload(events[j])->0 == items.subrange(j * count, (j + 1) * count),
    decreases events.len(),
{
    let fewer = events.drop_last();
    let before = carried(payload, fewer);
    let last = events.len() - 1;
    assert forall|i: int| 0 <= i < fewer.len() implies payload(#[trigger] fewer[i]) is Some && 0
        < payload(fewer[i])->0.len() == count by {
        assert(fewer[i] == events[i]);
    }
    assert(payload(events[last]) is Some);
    lemma_full_rounds_have_all(payload, fewer, before, count);
    assert((j + 1) * count == j * count + count) by (nonlinear_arith);
    if j < last {
        lemma_full_round_is_slice(payload, fewer, before, count, j);
        assert(fewer[j] == events[j]);
        assert(items.subrange(j * count, (j + 1) * count) =~= before.subrange(
            j * count,
            (j + 1) * count,
        ));
    } else {
        assert(items.subrange(j * count, (j + 1) * count) =~= payload(events[j])->0);
    }
}

/// Every event of a run carries one round: the items from the first one of the round on, `count` of
/// them, or what there is for the last event.
pub proof fn law_event_carries_its_round<E, T>(
    payload: spec_fn(E) -> Option<Seq<T>>,
    events: Seq<E>,
    items: Seq<T>,
    count: int,
    j: int,
)
    requires
        are_rounds(payload, events, items, count),
        0 <= j < events.len(),
    ensures
        0 <= j * count < items.len(),
        payload(events[j]) == Some(
            items.subrange(
                j * count,
                if (j + 1) * count <= items.len() {
                    (j + 1) * count
                } else {
                    items.len() as int
                },
            ),
        ),
        (events.len() - 1) * count < items.len() <= events.len() * count,
{
    let fewer = events.drop_last();
    let before = carried(payload, fewer);
    let last = events.len() - 1;
    assert forall|i: int| 0 <= i < fewer.len() implies payload(#[trigger] fewer[i]) is Some && 0
        < payload(fewer[i])->0.len() == count by {
        assert(fewer[i] == events[i]);
    }
    assert(payload(events[last]) is Some);
    lemma_full_rounds_have_all(payload, fewer, before, count);
    assert((j + 1) * count == j * count + count) by (nonlinear_arith);
    assert(events.len() * count == last * count + count) by (nonlinear_arith)
        requires
            last == events.len() - 1,
    ;
    let carries = payload(events[j])->0;
    if j < last {
        lemma_full_round_is_slice(payload, fewer, before, count, j);
        assert(fewer[j] == events[j]);
        assert(items.subrange(j * count, (j + 1) * count) =~= before.subrange(
            j * count,
            (j + 1) * count,
        ));
    } else {
        let end = if (j + 1) * count <= items.len() {
            (j + 1) * count
        } else {
            items.len() as int
        };
        assert(0 <= j * count) by (nonlinear_arith)
            requires
                0 <= j,
                0 <= count,
        ;
        assert(items.subrange(j * count, end) =~= carries);
    }
}

/// A stop that a look finds ends a run of rows: unless the source is gone, it succeeds, and the last that
/// it sends is a stop.
pub proof fn law_stop_ends_the_row_run<P, M: PriceModel<P>>(
    config: OpenCtpMarketGeneratorConfig<P>,
    model: &M,
    walk: WalkView<P>,
    rows: Seq<NormalizedTickRow<P>>,
    offered: Seq<MdDriverEvent<P>>,
    polls: Seq<StopPoll>,
    r: Result<(), RuntimeError>,
    p: int,
)
    requires
        is_row_run(config, model, walk, rows, offered, polls, r),
        0 <= p < polls.len(),
        polls[p].asks(),
        r != Err::<(), RuntimeError>(RuntimeError::ChannelSend),
    ensures
        p == polls.len() - 1,
        r is Ok,
        offered.last() is Stop,
{
}

/// Where the prices are a function, all generators quote alike: the walks of one configuration, of
/// raw ticks, of rows or of columns, have the same quotes as far as both go.
pub proof fn law_generators_quote_alike<P, M: PriceModel<P>>(
    config: OpenCtpMarketGeneratorConfig<P>,
    model: &M,
    walk1: WalkView<P>,
    walk2: WalkView<P>,
    k: int,
)
    requires
        is_function(model),
        config.instruments.len() > 0,
        is_walk_of(config, model, walk1),
        in_order(walk1.picks, walk1.count),
        is_walk_of(config, model, walk2),
        in_order(walk2.picks, walk2.count),
        0 <= k < walk1.quotes.len(),
        k < walk2.quotes.len(),
    ensures
        walk1.picks[k] == walk2.picks[k],
        walk1.quotes[k] == walk2.quotes[k],
{
    assert forall|i: int| 0 <= i <= k implies #[trigger] walk1.picks[i] == walk2.picks[i] by {
        law_picks_count_through_rounds(walk1.picks, walk1.count, i);
        law_picks_count_through_rounds(walk2.picks, walk2.count, i);
    }
    law_same_start_same_quotes(walk1, walk2, model, k);
}

/// A made-up row carries its quote, field by field, under the instrument of its pick, with the
/// configured exchange and days, and not yet a local time.
pub proof fn law_made_up_row_carries_its_quote<P>(
    config: OpenCtpMarketGeneratorConfig<P>,
    pick: Pick,
    quote: Quote<P>,
    row: NormalizedTickRow<P>,
)
    requires
        is_generated_row(config, pick, quote, row),
    ensures
        row.instrument_id@ == config.instruments@[pick.index]@,
        row.exchange_id matches Some(text) && text@ == config.exchange_id@,
        row.trading_day matches Some(text) && text@ == config.trading_day@,
        row.action_day matches Some(text) && text@ == config.action_day@,
        crate::normalize::exchange_timestamp(config.action_day@, "09:30:00"@, 0) == Ok::<
            int,
            crate::normalize::NormalizeError,
        >(row.dt_ns - pick.round * config.interval_ms * 1_000_000),
        row.localtime_ns == 0,
        row.source_emit_ns == 0,
        row.last_price == Some(quote.last_price),
        row.volume == Some(quote.volume),
        row.turnover == Some(quote.turnover),
        row.open_interest == Some(quote.open_interest),
        row.bid_price_1 == Some(quote.bid_price_1),
        row.bid_volume_1 == Some(quote.bid_volume_1),
        row.ask_price_1 == Some(quote.ask_price_1),
        row.ask_volume_1 == Some(quote.ask_volume_1),
{
}

/// Rows come one for every quote, in the order of the walk.
pub proof fn law_every_quote_has_its_row<P>(
    config: OpenCtpMarketGeneratorConfig<P>,
    walk: WalkView<P>,
    rows: Seq<NormalizedTickRow<P>>,
    k: int,
)
    requires
        are_generated_rows(config, walk, rows),
        0 <= k < walk.quotes.len(),
    ensures
        rows.len() == walk.quotes.len(),
        rows[k].instrument_id@ == config.instruments@[walk.picks[k].index]@,
        rows[k].last_price == Some(walk.quotes[k].last_price),
        rows[k].volume == Some(walk.quotes[k].volume),
        rows[k].bid_price_1 == Some(walk.quotes[k].bid_price_1),
        rows[k].ask_price_1 == Some(walk.quotes[k].ask_price_1),
{
    assert(is_generated_row(config, walk.picks[k], walk.quotes[k], rows[k]));
}

/// The walk of a configuration has its prices, its seed and its instruments.
pub proof fn law_walk_is_as_configured<P, M: PriceModel<P>>(
    config: OpenCtpMarketGeneratorConfig<P>,
    model: &M,
    walk: WalkView<P>,
)
    requires
        is_walk_of(config, model, walk),
    ensures
        walk.is_walk(model),
        walk.base_price == config.base_price,
        walk.price_step == config.price_step,
        walk.seed == config.seed,
        walk.count == config.instruments@.len(),
{
}

/// A run of rows goes through all instruments, round after round, no further than its limit, and ends
/// with a stop only where the limit is met or a stop was found.
pub proof fn law_row_run_goes_no_further_than_its_limit<P, M: PriceModel<P>>(
    config: OpenCtpMarketGeneratorConfig<P>,
    model: &M,
    walk: WalkView<P>,
    rows: Seq<NormalizedTickRow<P>>,
    offered: Seq<MdDriverEvent<P>>,
    polls: Seq<StopPoll>,
    r: Result<(), RuntimeError>,
    k: int,
)
    requires
        is_row_run(config, model, walk, rows, offered, polls, r),
        config.instruments.len() > 0,
        0 <= k < rows.len(),
    ensures
        config.max_ticks matches Some(limit) ==> rows.len() <= limit,
        rows[k].instrument_id@ == config.instruments@[k % config.instruments.len() as int]@,
        walk.picks[k].round == k / config.instruments.len() as int,
        r is Ok ==> {
            ||| config.max_ticks == Some(rows.len() as u64)
            ||| polls.len() > 0 && polls.last().asks()
        },
        r is Ok ==> offered.len() > 0 && offered.last() is Stop,
{
    law_picks_count_through_rounds(walk.picks, walk.count, k);
    assert(is_generated_row(config, walk.picks[k], walk.quotes[k], rows[k]));
}

/// What a run offers goes into the channel in order, unless an event is refused: then the run fails for
/// that, everything before it is in the channel, and nothing comes behind it.
pub proof fn law_offered_events_go_out_in_order<P>(
    before: Outbox<MdDriverEvent<P>>,
    offered: Seq<MdDriverEvent<P>>,
    after: Outbox<MdDriverEvent<P>>,
    r: Result<(), RuntimeError>,
)
    requires
        are_taken(before, offered, after, r),
    ensures
        r is Ok ==> after@ == before@ + offered && after.refused() == before.refused(),
        after.refused() != before.refused() ==> {
            &&& r == Err::<(), RuntimeError>(RuntimeError::ChannelSend)
            &&& offered.len() > 0
            &&& after@ == before@ + offered.take(offered.len() - 1)
            &&& after.refused() == before.refused().push(offered[offered.len() - 1])
        },
{
    if r == Err::<(), RuntimeError>(RuntimeError::ChannelSend) {
        assert(offered.drop_last() =~= offered.take(offered.len() - 1));
    }
}

/// A run of rows carries all rows that it made, in order, and fails only for a refused event, for a
/// counter at its end, or for a round without a timestamp.
pub proof fn law_row_run_carries_what_it_made<P, M: PriceModel<P>>(
    config: OpenCtpMarketGeneratorConfig<P>,
    model: &M,
    walk: WalkView<P>,
    rows: Seq<NormalizedTickRow<P>>,
    offered: Seq<MdDriverEvent<P>>,
    polls: Seq<StopPoll>,
    r: Result<(), RuntimeError>,
)
    requires
        is_row_run(config, model, walk, rows, offered, polls, r),
    ensures
        carried(
            rows_of(),
            if offered.len() > 0 && offered.last() is Stop {
                offered.drop_last()
            } else {
                offered
            },
        ) == rows,
        rows.len() == walk.quotes.len(),
        r is Err && r != Err::<(), RuntimeError>(RuntimeError::ChannelSend) && walk.count > 0 ==> {
            let index = next_index(walk.picks, walk.count);
            let round = next_round(walk.picks, walk.count);
            ||| walk.next_volume(index) > i64::MAX
            ||| walk.quotes.len() == u64::MAX
            ||| !has_dt(config.action_day@, config.interval_ms, round)
        },
{
}

/// The next pick is the next instrument of the round, or the first of the next round.
pub proof fn law_picks_take_turns(picks: Seq<Pick>, count: int, pick: Pick)
    requires
        0 <= pick.index < count,
    ensures
        next_round(picks.push(pick), count) * count + next_index(picks.push(pick), count)
            == pick.round * count + pick.index + 1,
        0 <= next_index(picks.push(pick), count) < count,
        next_round(Seq::<Pick>::empty(), count) == 0,
        next_index(Seq::<Pick>::empty(), count) == 0,
{
    assert((pick.round + 1) * count == pick.round * count + count) by (nonlinear_arith);
}

/// A run of rows with a limit, in which no look finds a stop, has sent exactly so many rows to the source
/// when it ends well, in the order of the configured instruments, and then a stop.
pub proof fn law_row_run_sends_its_limit<P: Copy, M: PriceModel<P>>(
    config: OpenCtpMarketGeneratorConfig<P>,
    model: &M,
    tx: &mut Outbox<MdDriverEvent<P>>,
    stop: &mut StopSignal,
    limit: u64,
)
    requires
        call_ensures(run_normalized_generator::<P, M>, (config, model, tx, stop), Ok(())),
        config.instruments.len() > 0,
        config.max_ticks == Some(limit),
        forall|p: int| 0 <= p < final(stop)@.len() ==> !(#[trigger] final(stop)@[p]).asks(),
    ensures
        exists|offered: Seq<MdDriverEvent<P>>|
            {
                &&& final(tx)@ == #[trigger] (old(tx)@ + offered)
                &&& offered.len() > 0
                &&& offered.last() is Stop
                &&& carried(rows_of(), offered.drop_last()).len() == limit
                &&& forall|k: int|
                    0 <= k < limit ==> (#[trigger] carried(
                        rows_of(),
                        offered.drop_last(),
                    )[k]).instrument_id@ == config.instruments@[k
                        % config.instruments.len() as int]@
            },
        final(tx).refused() == old(tx).refused(),
{
    let r: Result<(), RuntimeError> = Ok(());
    let (walk, rows, offered, polls) = choose|
        walk: WalkView<P>,
        rows: Seq<NormalizedTickRow<P>>,
        offered: Seq<MdDriverEvent<P>>,
        polls: Seq<StopPoll>,
    |
        {
            &&& #[trigger] is_row_run(config, model, walk, rows, offered, polls, r)
            &&& are_taken(*old(tx), offered, *final(tx), r)
            &&& final(stop)@ == old(stop)@ + polls
        };
    assert forall|p: int| 0 <= p < polls.len() implies !(#[trigger] polls[p]).asks() by {
        assert(final(stop)@[old(stop)@.len() + p] == polls[p]);
    }
    law_row_limit_is_met_exactly(config, model, walk, rows, offered, polls, limit);
    assert forall|k: int| 0 <= k < limit implies (#[trigger] carried(
        rows_of(),
        offered.drop_last(),
    )[k]).instrument_id@ == config.instruments@[k % config.instruments.len() as int]@ by {
        law_row_run_goes_no_further_than_its_limit(
            config,
            model,
            walk,
            rows,
            offered,
            polls,
            r,
            k,
        );
    }
    assert(final(tx)@ == old(tx)@ + offered);
}

} // verus!
