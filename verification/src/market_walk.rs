//! Deterministic random walks of made-up instruments.
use vstd::prelude::*;

verus! {

/// The arithmetic of prices, which the library leaves to its user.
///
/// A draw is a number below 2 to the power of 53, every one of them as likely as another.
pub trait PriceModel<P> {
    /// The price at which the first instrument starts where nothing else is configured.
    fn default_base_price(&self) -> P;

    /// The largest step of a price where nothing else is configured.
    fn default_price_step(&self) -> P;

    /// Whether `value` can be a price or a step.
    fn is_positive_finite(&self, value: P) -> bool;

    /// The price at which the instrument with the given index starts.
    fn starting_price(&self, base_price: P, index: usize) -> P;

    /// The open interest with which the instrument with the given index starts.
    fn starting_interest(&self, index: usize) -> P;

    /// The turnover of an instrument that was never traded.
    fn no_turnover(&self) -> P;

    /// The price after a step that goes by `draw`.
    fn walk_price(&self, last_price: P, price_step: P, draw: u64) -> P;

    /// The turnover after a trade of `lots`.
    fn add_turnover(&self, turnover: P, last_price: P, lots: i64) -> P;

    /// The open interest after a step that goes by `draw`.
    fn walk_interest(&self, open_interest: P, draw: u64) -> P;

    fn bid_price(&self, last_price: P, price_step: P) -> P;

    fn ask_price(&self, last_price: P, price_step: P) -> P;
}

/// A linear congruential generator.
#[derive(Debug, Clone, Copy, PartialEq, Eq, Structural)]
pub struct DeterministicRng {
    state: u64,
}

/// The number that follows `state`.
pub open spec fn lcg(state: u64) -> u64 {
    state.wrapping_mul(6_364_136_223_846_793_005u64).wrapping_add(1_442_695_040_888_963_407u64)
}

/// The number that comes `n` steps after `state`.
pub open spec fn lcg_steps(state: u64, n: nat) -> u64
    decreases n,
{
    if n == 0 {
        state
    } else {
        lcg(lcg_steps(state, (n - 1) as nat))
    }
}

/// The state of a generator with the given seed.
pub open spec fn seeded(seed: u64) -> u64 {
    if seed == 0 {
        1
    } else {
        seed
    }
}

impl View for DeterministicRng {
    type V = u64;

    closed spec fn view(&self) -> u64 {
        self.state
    }
}

impl DeterministicRng {
    /// A generator with the given seed, or with one where that is zero.
    pub fn new(seed: u64) -> (rng: Self)
        ensures
            rng@ == seeded(seed),
    {
        if seed == 0 {
            DeterministicRng { state: 1 }
        } else {
            DeterministicRng { state: seed }
        }
    }

    /// The next number.
    pub fn next_u64(&mut self) -> (number: u64)
        ensures
            number == lcg(old(self)@),
            final(self)@ == lcg(old(self)@),
    {
        self.state = self.state.wrapping_mul(6_364_136_223_846_793_005u64).wrapping_add(
            1_442_695_040_888_963_407u64,
        );
        self.state
    }

    /// The next draw: the upper 53 bits of the next number.
    pub fn next_draw(&mut self) -> (draw: u64)
        ensures
            draw == lcg(old(self)@) >> 11u64,
            final(self)@ == lcg(old(self)@),
            draw < 0x20_0000_0000_0000,
    {
        let number: u64 = self.next_u64();
        assert(number >> 11u64 < 0x20_0000_0000_0000u64) by (bit_vector);
        number >> 11u64
    }
}

/// What is remembered of an instrument between two of its quotes.
#[derive(Debug, Clone, Copy, PartialEq)]
pub struct InstrumentState<P> {
    pub last_price: P,
    pub volume: i64,
    pub turnover: P,
    pub open_interest: P,
}

/// A made-up quote.
#[derive(Debug, Clone, Copy, PartialEq)]
pub struct Quote<P> {
    pub last_price: P,
    pub volume: i64,
    pub turnover: P,
    pub open_interest: P,
    pub bid_price_1: P,
    pub bid_volume_1: i64,
    pub ask_price_1: P,
    pub ask_volume_1: i64,
}

impl<P> Quote<P> {
    /// What is remembered of the quote.
    pub open spec fn state(self) -> InstrumentState<P> {
        InstrumentState {
            last_price: self.last_price,
            volume: self.volume,
            turnover: self.turnover,
            open_interest: self.open_interest,
        }
    }
}

/// Whether an instrument starts with `state`.
pub open spec fn starts_with<P, M: PriceModel<P>>(
    model: &M,
    base_price: P,
    index: int,
    state: InstrumentState<P>,
) -> bool {
    &&& call_ensures(M::starting_price, (model, base_price, index as usize), state.last_price)
    &&& state.volume == 0
    &&& call_ensures(M::no_turnover, (model,), state.turnover)
    &&& call_ensures(M::starting_interest, (model, index as usize), state.open_interest)
}

/// Lots that are traded between two quotes, by the number drawn for them.
pub open spec fn lots(number: u64) -> int {
    1 + number as int % 5
}

/// The volume of a bid or an ask, by the number drawn for it.
pub open spec fn depth(number: u64) -> int {
    10 + number as int % 50
}

/// Whether `quote` is the next one after `before`, with the numbers that follow `rng`.
#[verifier::opaque]
pub open spec fn quote_follows<P, M: PriceModel<P>>(
    model: &M,
    price_step: P,
    before: InstrumentState<P>,
    rng: u64,
    quote: Quote<P>,
) -> bool {
    &&& call_ensures(
        M::walk_price,
        (model, before.last_price, price_step, lcg_steps(rng, 1) >> 11u64),
        quote.last_price,
    )
    &&& quote.volume == before.volume + lots(lcg_steps(rng, 2))
    &&& call_ensures(
        M::add_turnover,
        (model, before.turnover, quote.last_price, lots(lcg_steps(rng, 2)) as i64),
        quote.turnover,
    )
    &&& call_ensures(
        M::walk_interest,
        (model, before.open_interest, lcg_steps(rng, 3) >> 11u64),
        quote.open_interest,
    )
    &&& call_ensures(M::bid_price, (model, quote.last_price, price_step), quote.bid_price_1)
    &&& quote.bid_volume_1 == depth(lcg_steps(rng, 4))
    &&& call_ensures(M::ask_price, (model, quote.last_price, price_step), quote.ask_price_1)
    &&& quote.ask_volume_1 == depth(lcg_steps(rng, 5))
}

/// Which instrument is quoted, and in which round.
pub struct Pick {
    pub round: int,
    pub index: int,
}

/// The last one among the first `n` picks that is of the given instrument.
pub open spec fn last_pick(picks: Seq<Pick>, n: int, index: int) -> Option<int>
    decreases n,
{
    if n <= 0 {
        None
    } else if picks[n - 1].index == index {
        Some(n - 1)
    } else {
        last_pick(picks, n - 1, index)
    }
}

/// The walk of some instruments: how it starts, and its quotes so far.
#[verifier::ext_equal]
pub struct WalkView<P> {
    pub base_price: P,
    pub price_step: P,
    pub seed: u64,
    /// How many instruments there are.
    pub count: int,
    pub picks: Seq<Pick>,
    pub quotes: Seq<Quote<P>>,
}

impl<P> WalkView<P> {
    /// Whether `state` is that of an instrument before the `n`-th quote: that of its last quote, or
    /// the one it starts with.
    pub open spec fn state_before<M: PriceModel<P>>(
        self,
        model: &M,
        n: int,
        index: int,
        state: InstrumentState<P>,
    ) -> bool {
        match last_pick(self.picks, n, index) {
            Some(k) => state == self.quotes[k].state(),
            None => starts_with(model, self.base_price, index, state),
        }
    }

    /// The `i`-th of the numbers that make the `n`-th quote.
    pub open spec fn number(self, n: int, i: int) -> u64 {
        lcg_steps(seeded(self.seed), (5 * n + i) as nat)
    }

    /// The volume of an instrument before the `n`-th quote.
    pub open spec fn volume_before(self, n: int, index: int) -> int {
        match last_pick(self.picks, n, index) {
            Some(k) => self.quotes[k].volume as int,
            None => 0,
        }
    }

    /// The volume that an instrument has with its next quote.
    pub open spec fn next_volume(self, index: int) -> int {
        let n = self.quotes.len();
        self.volume_before(n as int, index) + lots(lcg_steps(seeded(self.seed), 5 * n + 2))
    }

    /// Whether the `n`-th quote goes on from where its instrument stood. Every quote uses five
    /// numbers.
    pub open spec fn goes_on_at<M: PriceModel<P>>(self, model: &M, n: int) -> bool {
        exists|before: InstrumentState<P>|
            {
                &&& self.state_before(model, n, self.picks[n].index, before)
                &&& #[trigger] quote_follows(
                    model,
                    self.price_step,
                    before,
                    lcg_steps(seeded(self.seed), (5 * n) as nat),
                    self.quotes[n],
                )
            }
    }

    /// Whether this is a walk: every quote goes on from where its instrument stood.
    pub open spec fn is_walk<M: PriceModel<P>>(self, model: &M) -> bool {
        &&& self.picks.len() == self.quotes.len()
        &&& forall|n: int|
            0 <= n < self.picks.len() ==> 0 <= (#[trigger] self.picks[n]).index < self.count
        &&& forall|n: int| 0 <= n < self.quotes.len() ==> #[trigger] self.goes_on_at(model, n)
    }

    /// The walk with one more quote.
    pub open spec fn with(self, pick: Pick, quote: Quote<P>) -> Self {
        WalkView { picks: self.picks.push(pick), quotes: self.quotes.push(quote), ..self }
    }

    /// The first `n` quotes of the walk.
    pub open spec fn first(self, n: int) -> Self {
        WalkView { picks: self.picks.take(n), quotes: self.quotes.take(n), ..self }
    }
}

proof fn lemma_last_pick_of_prefix(picks1: Seq<Pick>, picks2: Seq<Pick>, n: int, index: int)
    requires
        n <= picks1.len(),
        n <= picks2.len(),
        forall|k: int| 0 <= k < n ==> #[trigger] picks1[k] == picks2[k],
    ensures
        last_pick(picks1, n, index) == last_pick(picks2, n, index),
        last_pick(picks1, n, index) matches Some(k) ==> 0 <= k < n,
    decreases n,
{
    if n > 0 && picks1[n - 1].index != index {
        lemma_last_pick_of_prefix(picks1, picks2, n - 1, index);
    }
}

proof fn lemma_goes_on_of_prefix<P, M: PriceModel<P>>(
    walk1: WalkView<P>,
    walk2: WalkView<P>,
    model: &M,
    n: int,
)
    requires
        walk1.goes_on_at(model, n),
        walk1.base_price == walk2.base_price,
        walk1.price_step == walk2.price_step,
        walk1.seed == walk2.seed,
        0 <= n < walk1.picks.len(),
        n < walk2.picks.len(),
        walk1.quotes.len() == walk1.picks.len(),
        walk2.quotes.len() == walk2.picks.len(),
        forall|k: int| 0 <= k <= n ==> #[trigger] walk1.picks[k] == walk2.picks[k],
        forall|k: int| 0 <= k <= n ==> #[trigger] walk1.quotes[k] == walk2.quotes[k],
    ensures
        walk2.goes_on_at(model, n),
{
    let index = walk1.picks[n].index;
    lemma_last_pick_of_prefix(walk1.picks, walk2.picks, n, index);
    let rng = lcg_steps(seeded(walk1.seed), (5 * n) as nat);
    let before = choose|before: InstrumentState<P>|
        {
            &&& walk1.state_before(model, n, index, before)
            &&& #[trigger] quote_follows(model, walk1.price_step, before, rng, walk1.quotes[n])
        };
    assert(walk2.state_before(model, n, index, before));
    assert(quote_follows(model, walk2.price_step, before, rng, walk2.quotes[n]));
}

/// The beginning of a walk is a walk.
pub proof fn law_walk_begins_with_walks<P, M: PriceModel<P>>(
    walk: WalkView<P>,
    model: &M,
    n: int,
)
    requires
        walk.is_walk(model),
        0 <= n <= walk.quotes.len(),
    ensures
        walk.first(n).is_walk(model),
{
    let shorter = walk.first(n);
    assert forall|k: int| 0 <= k < n implies #[trigger] shorter.goes_on_at(model, k) by {
        assert(walk.goes_on_at(model, k));
        lemma_goes_on_of_prefix(walk, shorter, model, k);
    }
    assert forall|k: int| 0 <= k < n implies 0 <= (#[trigger] shorter.picks[k]).index
        < walk.count by {
        assert(shorter.picks[k] == walk.picks[k]);
    }
}

/// Bids and asks have between ten and fifty-nine lots, and between two quotes of an instrument one
/// to five lots are traded.
pub proof fn law_quotes_are_in_bounds<P, M: PriceModel<P>>(walk: WalkView<P>, model: &M, n: int)
    requires
        walk.is_walk(model),
        0 <= n < walk.quotes.len(),
    ensures
        10 <= walk.quotes[n].bid_volume_1 < 60,
        10 <= walk.quotes[n].ask_volume_1 < 60,
        match last_pick(walk.picks, n, walk.picks[n].index) {
            Some(k) => 1 <= walk.quotes[n].volume - walk.quotes[k].volume <= 5,
            None => 1 <= walk.quotes[n].volume <= 5,
        },
{
    reveal(quote_follows);
    assert(walk.goes_on_at(model, n));
    lemma_last_pick_of_prefix(walk.picks, walk.picks, n, walk.picks[n].index);
}

/// The volume of an instrument grows from each of its quotes to every later one.
pub proof fn law_volume_grows<P, M: PriceModel<P>>(walk: WalkView<P>, model: &M, k: int, n: int)
    requires
        walk.is_walk(model),
        0 <= k < n < walk.quotes.len(),
        walk.picks[k].index == walk.picks[n].index,
    ensures
        walk.quotes[k].volume < walk.quotes[n].volume,
    decreases n,
{
    let index = walk.picks[n].index;
    law_quotes_are_in_bounds(walk, model, n);
    lemma_last_pick_is_last(walk.picks, n, index, k);
    let last = last_pick(walk.picks, n, index)->0;
    lemma_last_pick_of_prefix(walk.picks, walk.picks, n, index);
    if last > k {
        law_volume_grows(walk, model, k, last);
    }
}

proof fn lemma_last_pick_is_last(picks: Seq<Pick>, n: int, index: int, k: int)
    requires
        0 <= k < n <= picks.len(),
        picks[k].index == index,
    ensures
        last_pick(picks, n, index) is Some,
        k <= last_pick(picks, n, index)->0 < n,
        picks[last_pick(picks, n, index)->0].index == index,
    decreases n,
{
    if picks[n - 1].index != index {
        lemma_last_pick_is_last(picks, n - 1, index, k);
    }
}

/// The seed decides: two walks with the same seed over the same instruments in the same order have
/// the same volumes, traded, bid and asked.
pub proof fn law_same_seed_same_volumes<P, M: PriceModel<P>>(
    walk1: WalkView<P>,
    walk2: WalkView<P>,
    model: &M,
    n: int,
)
    requires
        walk1.is_walk(model),
        walk2.is_walk(model),
        seeded(walk1.seed) == seeded(walk2.seed),
        0 <= n < walk1.quotes.len(),
        n < walk2.quotes.len(),
        forall|k: int|
            0 <= k <= n ==> (#[trigger] walk1.picks[k]).index == walk2.picks[k].index,
    ensures
        walk1.quotes[n].volume == walk2.quotes[n].volume,
        walk1.quotes[n].bid_volume_1 == walk2.quotes[n].bid_volume_1,
        walk1.quotes[n].ask_volume_1 == walk2.quotes[n].ask_volume_1,
    decreases n,
{
    reveal(quote_follows);
    assert(walk1.goes_on_at(model, n));
    assert(walk2.goes_on_at(model, n));
    let index = walk1.picks[n].index;
    lemma_last_pick_by_index(walk1.picks, walk2.picks, n, index);
    match last_pick(walk1.picks, n, index) {
        Some(k) => {
            law_same_seed_same_volumes(walk1, walk2, model, k);
        },
        None => {},
    }
}

proof fn lemma_last_pick_by_index(picks1: Seq<Pick>, picks2: Seq<Pick>, n: int, index: int)
    requires
        n <= picks1.len(),
        n <= picks2.len(),
        forall|k: int| 0 <= k < n ==> (#[trigger] picks1[k]).index == picks2[k].index,
    ensures
        last_pick(picks1, n, index) == last_pick(picks2, n, index),
        last_pick(picks1, n, index) matches Some(k) ==> 0 <= k < n,
    decreases n,
{
    if n > 0 && picks1[n - 1].index != index {
        lemma_last_pick_by_index(picks1, picks2, n - 1, index);
    }
}

/// Whether the prices are a function of what they are made from: no method of the model gives two
/// results for the same arguments.
pub open spec fn is_function<P, M: PriceModel<P>>(model: &M) -> bool {
    &&& forall|base_price: P, index: usize, a: P, b: P|
        #[trigger] call_ensures(M::starting_price, (model, base_price, index), a)
            && #[trigger] call_ensures(M::starting_price, (model, base_price, index), b) ==> a == b
    &&& forall|index: usize, a: P, b: P|
        #[trigger] call_ensures(M::starting_interest, (model, index), a)
            && #[trigger] call_ensures(M::starting_interest, (model, index), b) ==> a == b
    &&& forall|a: P, b: P|
        #[trigger] call_ensures(M::no_turnover, (model,), a)
            && #[trigger] call_ensures(M::no_turnover, (model,), b) ==> a == b
    &&& forall|last_price: P, price_step: P, draw: u64, a: P, b: P|
        #[trigger] call_ensures(M::walk_price, (model, last_price, price_step, draw), a)
            && #[trigger] call_ensures(M::walk_price, (model, last_price, price_step, draw), b)
            ==> a == b
    &&& forall|turnover: P, last_price: P, lots: i64, a: P, b: P|
        #[trigger] call_ensures(M::add_turnover, (model, turnover, last_price, lots), a)
            && #[trigger] call_ensures(M::add_turnover, (model, turnover, last_price, lots), b)
            ==> a == b
    &&& forall|open_interest: P, draw: u64, a: P, b: P|
        #[trigger] call_ensures(M::walk_interest, (model, open_interest, draw), a)
            && #[trigger] call_ensures(M::walk_interest, (model, open_interest, draw), b) ==> a == b
    &&& forall|last_price: P, price_step: P, a: P, b: P|
        #[trigger] call_ensures(M::bid_price, (model, last_price, price_step), a)
            && #[trigger] call_ensures(M::bid_price, (model, last_price, price_step), b) ==> a == b
    &&& forall|last_price: P, price_step: P, a: P, b: P|
        #[trigger] call_ensures(M::ask_price, (model, last_price, price_step), a)
            && #[trigger] call_ensures(M::ask_price, (model, last_price, price_step), b) ==> a == b
}

/// Seed and prices decide: where the prices are a function, two walks that start alike over the same
/// instruments in the same order have the same quotes.
pub proof fn law_same_start_same_quotes<P, M: PriceModel<P>>(
    walk1: WalkView<P>,
    walk2: WalkView<P>,
    model: &M,
    n: int,
)
    requires
        is_function(model),
        walk1.is_walk(model),
        walk2.is_walk(model),
        walk1.base_price == walk2.base_price,
        walk1.price_step == walk2.price_step,
        seeded(walk1.seed) == seeded(walk2.seed),
        0 <= n < walk1.quotes.len(),
        n < walk2.quotes.len(),
        forall|k: int|
            0 <= k <= n ==> (#[trigger] walk1.picks[k]).index == walk2.picks[k].index,
    ensures
        walk1.quotes[n] == walk2.quotes[n],
    decreases n,
{
    reveal(quote_follows);
    assert(walk1.goes_on_at(model, n));
    assert(walk2.goes_on_at(model, n));
    let index = walk1.picks[n].index;
    let rng = lcg_steps(seeded(walk1.seed), (5 * n) as nat);
    lemma_last_pick_by_index(walk1.picks, walk2.picks, n, index);
    let before1 = choose|before: InstrumentState<P>|
        {
            &&& walk1.state_before(model, n, index, before)
            &&& #[trigger] quote_follows(model, walk1.price_step, before, rng, walk1.quotes[n])
        };
    let before2 = choose|before: InstrumentState<P>|
        {
            &&& walk2.state_before(model, n, index, before)
            &&& #[trigger] quote_follows(model, walk2.price_step, before, rng, walk2.quotes[n])
        };
    match last_pick(walk1.picks, n, index) {
        Some(k) => {
            law_same_start_same_quotes(walk1, walk2, model, k);
        },
        None => {},
    }
    assert(before1 == before2);
    assert(walk1.quotes[n].last_price == walk2.quotes[n].last_price);
}

/// A volume is never above five lots for every quote that the walk has.
pub proof fn law_volume_is_bounded<P, M: PriceModel<P>>(
    walk: WalkView<P>,
    model: &M,
    n: int,
    index: int,
)
    requires
        walk.is_walk(model),
        0 <= n <= walk.quotes.len(),
    ensures
        0 <= walk.volume_before(n, index) <= 5 * n,
    decreases n,
{
    lemma_last_pick_of_prefix(walk.picks, walk.picks, n, index);
    match last_pick(walk.picks, n, index) {
        Some(k) => {
            law_quotes_are_in_bounds(walk, model, k);
            lemma_last_pick_is_of_index(walk.picks, n, index);
            law_volume_is_bounded(walk, model, k, index);
        },
        None => {},
    }
}

proof fn lemma_last_pick_is_of_index(picks: Seq<Pick>, n: int, index: int)
    requires
        n <= picks.len(),
    ensures
        last_pick(picks, n, index) matches Some(k) ==> 0 <= k < n && picks[k].index == index,
    decreases n,
{
    if n > 0 && picks[n - 1].index != index {
        lemma_last_pick_is_of_index(picks, n - 1, index);
    }
}

/// A walk that goes on.
#[verifier::reject_recursive_types(P)]
pub struct MarketWalk<P> {
    price_step: P,
    states: Vec<InstrumentState<P>>,
    rng: DeterministicRng,
    so_far: Ghost<WalkView<P>>,
}

impl<P> View for MarketWalk<P> {
    type V = WalkView<P>;

    closed spec fn view(&self) -> WalkView<P> {
        self.so_far@
    }
}

impl<P> MarketWalk<P> {
    /// The states are those before the next quote, and the generator is where the quotes left it.
    pub closed spec fn goes_on<M: PriceModel<P>>(&self, model: &M) -> bool {
        &&& self@.is_walk(model)
        &&& self.price_step == self@.price_step
        &&& self.states.len() == self@.count
        &&& self.rng@ == lcg_steps(seeded(self@.seed), 5 * self@.quotes.len())
        &&& forall|index: int|
            0 <= index < self.states.len() ==> self@.state_before(
                model,
                self@.quotes.len() as int,
                index,
                #[trigger] self.states@[index],
            )
    }

    /// Where the walk's generator of numbers stands.
    pub closed spec fn rng(&self) -> u64 {
        self.rng@
    }

    /// What holds of a walk that goes on: every quote has used five numbers.
    pub proof fn lemma_goes_on<M: PriceModel<P>>(&self, model: &M)
        requires
            self.goes_on(model),
        ensures
            self@.is_walk(model),
            self.rng() == lcg_steps(seeded(self@.seed), 5 * self@.quotes.len()),
    {
    }
}

impl<P: Copy> MarketWalk<P> {
    /// A walk of `count` instruments at its start.
    pub fn new<M: PriceModel<P>>(
        model: &M,
        base_price: P,
        price_step: P,
        seed: u64,
        count: usize,
    ) -> (walk: Self)
        ensures
            walk.goes_on(model),
            walk@ == (WalkView {
                base_price,
                price_step,
                seed,
                count: count as int,
                picks: Seq::empty(),
                quotes: Seq::empty(),
            }),
    {
        let ghost so_far = WalkView {
            base_price,
            price_step,
            seed,
            count: count as int,
            picks: Seq::empty(),
            quotes: Seq::empty(),
        };
        let mut states: Vec<InstrumentState<P>> = Vec::new();
        let mut index: usize = 0;
        while index < count
            invariant
                index <= count,
                states.len() == index,
                so_far.picks == Seq::<Pick>::empty(),
                so_far.base_price == base_price,
                forall|i: int|
                    0 <= i < index ==> so_far.state_before(model, 0, i, #[trigger] states@[i]),
            decreases count - index,
        {
            let state: InstrumentState<P> = InstrumentState {
                last_price: model.starting_price(base_price, index),
                volume: 0,
                turnover: model.no_turnover(),
                open_interest: model.starting_interest(index),
            };
            assert(so_far.state_before(model, 0, index as int, state));
            states.push(state);
            index = index + 1;
        }
        MarketWalk { price_step, states, rng: DeterministicRng::new(seed), so_far: Ghost(so_far) }
    }

    /// The next quote of the instrument with the given index, in the given round; none where its
    /// volume could not be counted.
    pub fn next_quote<M: PriceModel<P>>(&mut self, model: &M, index: usize, round: u64) -> (next:
        Option<Quote<P>>)
        requires
            old(self).goes_on(model),
            index < old(self)@.count,
        ensures
            final(self).goes_on(model),
            match next {
                Some(quote) => {
                    &&& old(self)@.next_volume(index as int) <= i64::MAX
                    &&& final(self)@ == old(self)@.with(
                        Pick { round: round as int, index: index as int },
                        quote,
                    )
                },
                None => {
                    &&& old(self)@.next_volume(index as int) > i64::MAX
                    &&& *final(self) == *old(self)
                },
            },
    {
        let before: InstrumentState<P> = self.states[index];
        let ghost rng = self.rng@;
        let ghost walk = self@;
        let ghost n = self@.quotes.len() as int;
        proof {
            reveal(quote_follows);
            reveal_with_fuel(lcg_steps, 6);
            assert(walk.state_before(model, n, index as int, before));
        }
        let mut drawn: DeterministicRng = self.rng;
        let price_draw: u64 = drawn.next_draw();
        let traded: i64 = 1 + (drawn.next_u64() % 5) as i64;
        proof {
            lemma_lcg_steps_add(seeded(walk.seed), (5 * n) as nat, 2);
            assert(before.volume == walk.volume_before(n, index as int));
            assert(before.volume + traded == walk.next_volume(index as int));
        }
        if before.volume > i64::MAX - traded {
            return None;
        }
        let last_price: P = model.walk_price(before.last_price, self.price_step, price_draw);
        let volume: i64 = before.volume + traded;
        let turnover: P = model.add_turnover(before.turnover, last_price, traded);
        let interest_draw: u64 = drawn.next_draw();
        let open_interest: P = model.walk_interest(before.open_interest, interest_draw);
        let bid_price_1: P = model.bid_price(last_price, self.price_step);
        let bid_volume_1: i64 = 10 + (drawn.next_u64() % 50) as i64;
        let ask_price_1: P = model.ask_price(last_price, self.price_step);
        let ask_volume_1: i64 = 10 + (drawn.next_u64() % 50) as i64;
        let quote: Quote<P> = Quote {
            last_price,
            volume,
            turnover,
            open_interest,
            bid_price_1,
            bid_volume_1,
            ask_price_1,
            ask_volume_1,
        };
        let state: InstrumentState<P> = InstrumentState {
            last_price,
            volume,
            turnover,
            open_interest,
        };
        let ghost states = self.states@;
        self.rng = drawn;
        self.states.set(index, state);
        proof {
            let pick = Pick { round: round as int, index: index as int };
            let longer = walk.with(pick, quote);
            assert(quote_follows(model, walk.price_step, before, rng, quote));
            lemma_longer_walk(walk, model, pick, quote, before);
            assert forall|i: int| 0 <= i < self.states.len() implies longer.state_before(
                model,
                n + 1,
                i,
                #[trigger] self.states@[i],
            ) by {
                if i != index {
                    assert(self.states@[i] == states[i]);
                    assert(walk.state_before(model, n, i, states[i]));
                    lemma_last_pick_of_prefix(walk.picks, longer.picks, n, i);
                    assert(last_pick(longer.picks, n + 1, i) == last_pick(longer.picks, n, i));
                }
            }
            lemma_lcg_steps_add(seeded(walk.seed), (5 * n) as nat, 5);
            self.so_far@ = longer;
        }
        Some(quote)
    }
}

/// Walks that start alike and have gone equally far draw the same numbers from then on.
pub proof fn law_same_steps_same_numbers<P, M: PriceModel<P>>(
    walk1: MarketWalk<P>,
    walk2: MarketWalk<P>,
    model: &M,
)
    requires
        walk1.goes_on(model),
        walk2.goes_on(model),
        seeded(walk1@.seed) == seeded(walk2@.seed),
        walk1@.quotes.len() == walk2@.quotes.len(),
    ensures
        walk1.rng() == walk2.rng(),
{
    walk1.lemma_goes_on(model);
    walk2.lemma_goes_on(model);
}

proof fn lemma_lcg_steps_add(state: u64, a: nat, b: nat)
    ensures
        lcg_steps(lcg_steps(state, a), b) == lcg_steps(state, a + b),
    decreases b,
{
    if b > 0 {
        lemma_lcg_steps_add(state, a, (b - 1) as nat);
    }
}

proof fn lemma_new_quote_goes_on<P, M: PriceModel<P>>(
    walk: WalkView<P>,
    model: &M,
    pick: Pick,
    quote: Quote<P>,
    before: InstrumentState<P>,
)
    requires
        walk.picks.len() == walk.quotes.len(),
        walk.state_before(model, walk.quotes.len() as int, pick.index, before),
        quote_follows(
            model,
            walk.price_step,
            before,
            lcg_steps(seeded(walk.seed), 5 * walk.quotes.len()),
            quote,
        ),
    ensures
        walk.with(pick, quote).goes_on_at(model, walk.quotes.len() as int),
{
    let longer = walk.with(pick, quote);
    let n = walk.quotes.len() as int;
    lemma_last_pick_of_prefix(walk.picks, longer.picks, n, pick.index);
    assert(longer.picks[n] == pick);
    assert(longer.quotes[n] == quote);
    assert((5 * n) as nat == 5 * walk.quotes.len());
    match last_pick(walk.picks, n, pick.index) {
        Some(k) => {
            assert(longer.quotes[k] == walk.quotes[k]);
        },
        None => {},
    }
    assert(longer.state_before(model, n, longer.picks[n].index, before));
    assert(quote_follows(
        model,
        longer.price_step,
        before,
        lcg_steps(seeded(longer.seed), (5 * n) as nat),
        longer.quotes[n],
    ));
}

proof fn lemma_longer_walk<P, M: PriceModel<P>>(
    walk: WalkView<P>,
    model: &M,
    pick: Pick,
    quote: Quote<P>,
    before: InstrumentState<P>,
)
    requires
        walk.is_walk(model),
        0 <= pick.index < walk.count,
        walk.state_before(model, walk.quotes.len() as int, pick.index, before),
        quote_follows(
            model,
            walk.price_step,
            before,
            lcg_steps(seeded(walk.seed), 5 * walk.quotes.len()),
            quote,
        ),
    ensures
        walk.with(pick, quote).is_walk(model),
{
    let longer = walk.with(pick, quote);
    let n = walk.quotes.len() as int;
    assert forall|k: int| 0 <= k < longer.quotes.len() implies #[trigger] longer.goes_on_at(
        model,
        k,
    ) by {
        if k < n {
            assert(walk.goes_on_at(model, k));
            lemma_goes_on_of_prefix(walk, longer, model, k);
        } else {
            lemma_new_quote_goes_on(walk, model, pick, quote, before);
        }
    }
    assert forall|k: int| 0 <= k < longer.picks.len() implies 0 <= (#[trigger] longer.picks[k]).index
        < longer.count by {
        if k < n {
            assert(longer.picks[k] == walk.picks[k]);
        }
    }
}

/// The generator of numbers is linear and congruent: the number after `state` by plain arithmetic.
pub proof fn law_next_number_by_arithmetic(state: u64)
    ensures
        lcg(state) as int == (state as int * 6_364_136_223_846_793_005 + 1_442_695_040_888_963_407)
            % 0x1_0000_0000_0000_0000,
{
    let m: int = 0x1_0000_0000_0000_0000;
    let product = state as int * 6_364_136_223_846_793_005;
    assert(0 <= product) by (nonlinear_arith)
        requires
            product == state as int * 6_364_136_223_846_793_005,
            0 <= state as int,
    ;
    let wrapped = state.wrapping_mul(6_364_136_223_846_793_005u64);
    assert(wrapped as int == product % m);
    let sum = wrapped as int + 1_442_695_040_888_963_407;
    assert(wrapped.wrapping_add(1_442_695_040_888_963_407u64) as int == sum % m);
    vstd::arithmetic::div_mod::lemma_add_mod_noop(product, 1_442_695_040_888_963_407, m);
    assert(1_442_695_040_888_963_407int % m == 1_442_695_040_888_963_407);
}

/// A generator begins with its seed, or with one where that is zero, and goes on number by number.
pub proof fn law_numbers_follow_the_seed(seed: u64, n: nat)
    ensures
        seed != 0 ==> lcg_steps(seeded(seed), 0) == seed,
        seeded(0) == 1,
        lcg_steps(seeded(seed), n + 1) == lcg(lcg_steps(seeded(seed), n)),
{
}

/// One to five lots are traded between two quotes, and ten to fifty-nine are bid or asked, by the
/// remainders of the numbers drawn for them.
pub proof fn law_traded_and_quoted_lots(number: u64)
    ensures
        1 <= lots(number) <= 5,
        (lots(number) - 1 - number) % 5 == 0,
        10 <= depth(number) <= 59,
        (depth(number) - 10 - number) % 50 == 0,
{
}

/// Bid and ask of every quote are those that the model gives for the quote's last price and the walk's
/// step.
pub proof fn law_quotes_have_the_models_bid_and_ask<P, M: PriceModel<P>>(
    walk: WalkView<P>,
    model: &M,
    n: int,
)
    requires
        walk.is_walk(model),
        0 <= n < walk.quotes.len(),
    ensures
        call_ensures(
            M::bid_price,
            (model, walk.quotes[n].last_price, walk.price_step),
            walk.quotes[n].bid_price_1,
        ),
        call_ensures(
            M::ask_price,
            (model, walk.quotes[n].last_price, walk.price_step),
            walk.quotes[n].ask_price_1,
        ),
{
    reveal(quote_follows);
    assert(walk.goes_on_at(model, n));
}

/// Whether an instrument stands as its quote left it.
pub open spec fn stands_as<P>(state: InstrumentState<P>, quote: Quote<P>) -> bool {
    &&& state.last_price == quote.last_price
    &&& state.volume == quote.volume
    &&& state.turnover == quote.turnover
    &&& state.open_interest == quote.open_interest
}

/// Every quote goes on from where its instrument stood: as its last quote left it, or, before its first
/// one, as the model starts it. Five numbers make a quote: price, traded lots, open interest, bid and
/// ask depth, in this order.
pub proof fn law_quotes_go_on_from_the_last<P, M: PriceModel<P>>(
    walk: WalkView<P>,
    model: &M,
    n: int,
)
    requires
        walk.is_walk(model),
        0 <= n < walk.quotes.len(),
    ensures
        exists|before: InstrumentState<P>|
            {
                &&& #[trigger] call_ensures(
                    M::walk_price,
                    (model, before.last_price, walk.price_step, walk.number(n, 1) >> 11u64),
                    walk.quotes[n].last_price,
                )
                &&& match last_pick(walk.picks, n, walk.picks[n].index) {
                    Some(k) => stands_as(before, walk.quotes[k]),
                    None => {
                        &&& call_ensures(
                            M::starting_price,
                            (model, walk.base_price, walk.picks[n].index as usize),
                            before.last_price,
                        )
                        &&& before.volume == 0
                        &&& call_ensures(M::no_turnover, (model,), before.turnover)
                        &&& call_ensures(
                            M::starting_interest,
                            (model, walk.picks[n].index as usize),
                            before.open_interest,
                        )
                    },
                }
                &&& walk.quotes[n].volume == before.volume + 1 + walk.number(n, 2) as int % 5
                &&& call_ensures(
                    M::add_turnover,
                    (
                        model,
                        before.turnover,
                        walk.quotes[n].last_price,
                        (1 + walk.number(n, 2) as int % 5) as i64,
                    ),
                    walk.quotes[n].turnover,
                )
                &&& call_ensures(
                    M::walk_interest,
                    (model, before.open_interest, walk.number(n, 3) >> 11u64),
                    walk.quotes[n].open_interest,
                )
                &&& walk.quotes[n].bid_volume_1 == 10 + walk.number(n, 4) as int % 50
                &&& walk.quotes[n].ask_volume_1 == 10 + walk.number(n, 5) as int % 50
            },
{
    reveal(quote_follows);
    assert(walk.goes_on_at(model, n));
    let rng = lcg_steps(seeded(walk.seed), (5 * n) as nat);
    lemma_lcg_steps_add(seeded(walk.seed), (5 * n) as nat, 1);
    lemma_lcg_steps_add(seeded(walk.seed), (5 * n) as nat, 2);
    lemma_lcg_steps_add(seeded(walk.seed), (5 * n) as nat, 3);
    lemma_lcg_steps_add(seeded(walk.seed), (5 * n) as nat, 4);
    lemma_lcg_steps_add(seeded(walk.seed), (5 * n) as nat, 5);
    let before = choose|before: InstrumentState<P>|
        {
            &&& walk.state_before(model, n, walk.picks[n].index, before)
            &&& #[trigger] quote_follows(model, walk.price_step, before, rng, walk.quotes[n])
        };
    assert(walk.number(n, 1) == lcg_steps(rng, 1));
    assert(call_ensures(
        M::walk_price,
        (model, before.last_price, walk.price_step, walk.number(n, 1) >> 11u64),
        walk.quotes[n].last_price,
    ));
}

/// The last quote of an instrument is the latest that is its own, and there is none where no quote is.
pub proof fn law_last_pick_is_the_latest(picks: Seq<Pick>, n: int, index: int)
    requires
        0 <= n <= picks.len(),
    ensures
        match last_pick(picks, n, index) {
            Some(k) => {
                &&& 0 <= k < n
                &&& picks[k].index == index
                &&& forall|j: int| k < j < n ==> (#[trigger] picks[j]).index != index
            },
            None => forall|j: int| 0 <= j < n ==> (#[trigger] picks[j]).index != index,
        },
    decreases n,
{
    if n > 0 && picks[n - 1].index != index {
        law_last_pick_is_the_latest(picks, n - 1, index);
    }
}

/// The volume of the next quote is that of the instrument's last one, or nothing, and the lots that the
/// second of the quote's numbers gives.
pub proof fn law_next_volume_goes_on<P>(walk: WalkView<P>, index: int)
    requires
        walk.picks.len() == walk.quotes.len(),
    ensures
        ({
            let n = walk.quotes.len() as int;
            let traded = 1 + walk.number(n, 2) as int % 5;
            match last_pick(walk.picks, n, index) {
                Some(k) => walk.next_volume(index) == walk.quotes[k].volume + traded,
                None => walk.next_volume(index) == traded,
            }
        }),
{
}

/// A walk with one more quote keeps what it had and has the quote last.
pub proof fn law_walk_grows_at_its_end<P>(walk: WalkView<P>, pick: Pick, quote: Quote<P>)
    ensures
        ({
            let next = walk.with(pick, quote);
            &&& next.picks == walk.picks.push(pick)
            &&& next.quotes == walk.quotes.push(quote)
            &&& next.base_price == walk.base_price
            &&& next.price_step == walk.price_step
            &&& next.seed == walk.seed
            &&& next.count == walk.count
        }),
{
}

/// A new walk has no quote yet, and starts as it is told.
pub proof fn law_new_walk_starts_as_told<P: Copy, M: PriceModel<P>>(
    model: &M,
    base_price: P,
    price_step: P,
    seed: u64,
    count: usize,
    walk: MarketWalk<P>,
)
    requires
        call_ensures(MarketWalk::<P>::new::<M>, (model, base_price, price_step, seed, count), walk),
    ensures
        walk.goes_on(model),
        walk@.quotes.len() == 0,
        walk@.picks.len() == 0,
        walk@.base_price == base_price,
        walk@.price_step == price_step,
        walk@.seed == seed,
        walk@.count == count,
{
}

/// The next quote is of the instrument and the round that are asked for, and comes last; there is none
/// only where its volume would be too large, and then nothing changes.
pub proof fn law_next_quote_is_the_one_asked_for<P: Copy, M: PriceModel<P>>(
    walk: &mut MarketWalk<P>,
    model: &M,
    index: usize,
    round: u64,
    r: Option<Quote<P>>,
)
    requires
        old(walk).goes_on(model),
        index < old(walk)@.count,
        call_ensures(MarketWalk::<P>::next_quote::<M>, (walk, model, index, round), r),
    ensures
        r is None <==> old(walk)@.next_volume(index as int) > i64::MAX,
        r is None ==> final(walk)@ == old(walk)@,
        r matches Some(quote) ==> {
            &&& final(walk)@.quotes == old(walk)@.quotes.push(quote)
            &&& final(walk)@.picks == old(walk)@.picks.push(
                Pick { round: round as int, index: index as int },
            )
            &&& final(walk)@.seed == old(walk)@.seed
            &&& final(walk)@.base_price == old(walk)@.base_price
            &&& final(walk)@.price_step == old(walk)@.price_step
            &&& final(walk)@.is_walk(model)
            &&& call_ensures(
                M::bid_price,
                (model, quote.last_price, old(walk)@.price_step),
                quote.bid_price_1,
            )
            &&& call_ensures(
                M::ask_price,
                (model, quote.last_price, old(walk)@.price_step),
                quote.ask_price_1,
            )
        },
{
    final(walk).lemma_goes_on(model);
    old(walk).lemma_goes_on(model);
    if r is Some {
        let n = old(walk)@.quotes.len() as int;
        law_quotes_have_the_models_bid_and_ask(final(walk)@, model, n);
        assert(final(walk)@.quotes[n] == r->0);
    }
}

/// Numbers come one after the other by the rule of the generator, and a draw is the upper 53 bits of
/// one.
pub proof fn law_numbers_are_drawn(
    rng: &mut DeterministicRng,
    number: u64,
    other: &mut DeterministicRng,
    draw: u64,
)
    requires
        call_ensures(DeterministicRng::next_u64, (rng,), number),
        call_ensures(DeterministicRng::next_draw, (other,), draw),
        old(rng)@ == old(other)@,
    ensures
        number as int == (old(rng)@ as int * 6_364_136_223_846_793_005 + 1_442_695_040_888_963_407)
            % 0x1_0000_0000_0000_0000,
        final(rng)@ == number,
        final(other)@ == number,
        draw as int == number as int / 2_048,
{
    law_next_number_by_arithmetic(old(rng)@);
    assert(number >> 11u64 == number / 2_048u64) by (bit_vector);
}

} // verus!
