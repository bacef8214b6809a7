use crate::binary64::{Binary64, HUNDREDTH};
use crate::decision::{
    cancel_without_reward, fail_closed, request_for, requests, ExecutionRequest,
};
use crate::orders::{has_order, Order, Side};
use crate::quoting::{band_of, clip_to_levels, clips, reward_band, Level};
use crate::rewards::{reward_delta, RewardsClient};
use crate::rows::{provisional_row, provisional_row_of, OrderDashboardRow};
use vstd::hash_map::StringHashMap;
use vstd::prelude::*;

verus! {

/// A snapshot of an order book.
#[derive(Debug)]
pub struct Book {
    pub token_id: String,
    pub tick_size: Binary64,
    pub mid: Option<Binary64>,
    pub bids: Vec<Level>,
    pub asks: Vec<Level>,
}

/// How long a midpoint is good for, in nanoseconds.
pub const MIDPOINT_TTL: u64 = 2_000_000_000;

/// How long a tick size is good for, in nanoseconds.
pub const TICK_TTL: u64 = 30_000_000_000;

/// How long an order without a book is left alone, in nanoseconds.
pub const BOOKLESS_INTERVAL: u64 = 4_000_000_000;

/// What the program knows between two events: the last book of each token, whether each order
/// scores, midpoints and tick sizes with the time they were fetched at, the time from which each
/// order is to be checked again, and the time of the next scan for markets. Times are in
/// nanoseconds since the start.
pub struct Engine {
    books: StringHashMap<Book>,
    scoring: StringHashMap<bool>,
    midpoints: StringHashMap<Binary64>,
    midpoints_at: StringHashMap<u64>,
    ticks: StringHashMap<Binary64>,
    ticks_at: StringHashMap<u64>,
    next_due: StringHashMap<u128>,
    next_scan: u128,
}

pub struct EngineView {
    pub books: Map<Seq<char>, Book>,
    pub scoring: Map<Seq<char>, bool>,
    pub midpoints: Map<Seq<char>, Binary64>,
    pub midpoints_at: Map<Seq<char>, u64>,
    pub ticks: Map<Seq<char>, Binary64>,
    pub ticks_at: Map<Seq<char>, u64>,
    pub next_due: Map<Seq<char>, u128>,
    pub next_scan: u128,
}

impl View for Engine {
    type V = EngineView;

    closed spec fn view(&self) -> EngineView {
        EngineView {
            books: self.books@,
            scoring: self.scoring@,
            midpoints: self.midpoints@,
            midpoints_at: self.midpoints_at@,
            ticks: self.ticks@,
            ticks_at: self.ticks_at@,
            next_due: self.next_due@,
            next_scan: self.next_scan,
        }
    }
}

/// What a map holds for a key.
pub open spec fn entry<V>(map: Map<Seq<char>, V>, key: Seq<char>) -> Option<V> {
    if map.contains_key(key) {
        Some(map[key])
    } else {
        None
    }
}

/// Nothing was fetched for the token yet, or it was fetched more than `ttl` ago.
pub open spec fn stale(fetched_at: Map<Seq<char>, u64>, token: Seq<char>, now: u64, ttl: u64) -> bool {
    match entry(fetched_at, token) {
        Some(at) => now - at > ttl,
        None => true,
    }
}

/// The identifiers of the orders.
pub open spec fn ids_of(orders: Seq<Order>) -> Set<Seq<char>> {
    Set::new(|id: Seq<char>| has_order(orders, id))
}

/// Milliseconds as nanoseconds.
pub open spec fn from_millis(ms: u64) -> int {
    ms * 1_000_000
}

impl EngineView {
    /// A scan is due.
    pub open spec fn scan_due(self, now: u64) -> bool {
        self.next_scan <= now
    }

    /// An order is to be checked: for the first time, or again.
    pub open spec fn order_due(self, order_id: Seq<char>, now: u64) -> bool {
        match entry(self.next_due, order_id) {
            Some(at) => at <= now,
            None => true,
        }
    }

    /// How long an order is left alone after a check. Without a book that is longer.
    pub open spec fn interval(self, token: Seq<char>, poll_ms: u64) -> int {
        if self.books.contains_key(token) {
            from_millis(poll_ms)
        } else {
            BOOKLESS_INTERVAL as int
        }
    }

    /// After a check of an order.
    pub open spec fn after_check(
        self,
        order_id: Seq<char>,
        token: Seq<char>,
        now: u64,
        poll_ms: u64,
    ) -> EngineView {
        EngineView {
            next_due: self.next_due.insert(
                order_id,
                (now + self.interval(token, poll_ms)) as u128,
            ),
            ..self
        }
    }

    /// After a scan has begun: the next one is an interval away, a millisecond at least.
    pub open spec fn after_scan(self, now: u64, interval_ms: u64) -> EngineView {
        let ms = if interval_ms == 0 {
            1
        } else {
            interval_ms
        };
        EngineView { next_scan: (now + from_millis(ms)) as u128, ..self }
    }

    /// After a midpoint has been fetched.
    pub open spec fn after_midpoint(self, token: Seq<char>, mid: Binary64, now: u64) -> EngineView {
        EngineView {
            midpoints: self.midpoints.insert(token, mid),
            midpoints_at: self.midpoints_at.insert(token, now),
            ..self
        }
    }

    /// After a tick size has been fetched.
    pub open spec fn after_tick(self, token: Seq<char>, tick: Binary64, now: u64) -> EngineView {
        EngineView {
            ticks: self.ticks.insert(token, tick),
            ticks_at: self.ticks_at.insert(token, now),
            ..self
        }
    }

    /// After the orders that are gone have been forgotten.
    pub open spec fn after_retain(self, orders: Seq<Order>) -> EngineView {
        EngineView { next_due: self.next_due.restrict(ids_of(orders)), ..self }
    }

    /// The tick size of a token: that of its book, in its absence the one that was fetched, in
    /// the absence of both a cent.
    pub open spec fn tick_of(self, token: Seq<char>) -> Binary64 {
        match entry(self.books, token) {
            Some(book) => book.tick_size,
            None => match entry(self.ticks, token) {
                Some(tick) => tick,
                None => Binary64 { bits: HUNDREDTH },
            },
        }
    }

    /// The fresh midpoint of a token: that of its book, in its absence the one that was fetched
    /// just now.
    pub open spec fn fresh_mid(self, token: Seq<char>, fetched: Option<Binary64>) -> Option<Binary64> {
        match self.books[token].mid {
            Some(mid) => Some(mid),
            None => fetched,
        }
    }

    /// The midpoint that an order is priced around: the fresh one, then the last one known, then
    /// the order's own price.
    pub open spec fn reference_mid(self, order: Order, fetched: Option<Binary64>) -> Binary64 {
        match self.fresh_mid(order.token_id@, fetched) {
            Some(mid) => mid,
            None => match entry(self.midpoints, order.token_id@) {
                Some(mid) => mid,
                None => order.price,
            },
        }
    }

    /// The midpoints that are known after an order has been priced.
    pub open spec fn midpoints_after(self, token: Seq<char>, fetched: Option<Binary64>) -> Map<
        Seq<char>,
        Binary64,
    > {
        match self.fresh_mid(token, fetched) {
            Some(mid) => self.midpoints.insert(token, mid),
            None => self.midpoints,
        }
    }
}

/// The levels that compete with an order.
pub open spec fn own_levels(book: Book, side: Side) -> Seq<Level> {
    match side {
        Side::Buy => book.bids@,
        Side::Sell => book.asks@,
    }
}

/// What is to be done about an order after its provisional row.
#[derive(Debug)]
pub enum OrderStep<R> {
    /// Its reward is not known: cancel it.
    Cancel(ExecutionRequest<R>),
    /// Its book is not known: leave it.
    Wait,
    /// Price it.
    Price,
}

/// What an order is priced by.
#[derive(Debug)]
pub struct PricingInputs {
    pub mid: Binary64,
    pub delta: Binary64,
    pub tick_size: Binary64,
    pub range: Option<(Binary64, Binary64)>,
}

impl Engine {
    pub fn new(now: u64) -> (engine: Engine)
        ensures
            engine@ == (EngineView {
                books: Map::empty(),
                scoring: Map::empty(),
                midpoints: Map::empty(),
                midpoints_at: Map::empty(),
                ticks: Map::empty(),
                ticks_at: Map::empty(),
                next_due: Map::empty(),
                next_scan: now as u128,
            }),
    {
        Engine {
            books: StringHashMap::new(),
            scoring: StringHashMap::new(),
            midpoints: StringHashMap::new(),
            midpoints_at: StringHashMap::new(),
            ticks: StringHashMap::new(),
            ticks_at: StringHashMap::new(),
            next_due: StringHashMap::new(),
            next_scan: now as u128,
        }
    }

    /// A book takes the place of the one before it.
    pub fn on_book(&mut self, book: Book)
        ensures
            final(self)@ == (EngineView {
                books: old(self)@.books.insert(book.token_id@, book),
                ..old(self)@
            }),
    {
        self.books.insert(book.token_id.clone(), book);
    }

    /// A book that was fetched for a token is kept for that token.
    pub fn on_snapshot(&mut self, token_id: &String, book: Book)
        ensures
            final(self)@ == (EngineView {
                books: old(self)@.books.insert(token_id@, book),
                ..old(self)@
            }),
    {
        self.books.insert(token_id.clone(), book);
    }

    pub fn book(&self, token_id: &str) -> (book: Option<&Book>)
        ensures
            match book {
                Some(book) => entry(self@.books, token_id@) == Some(*book),
                None => entry(self@.books, token_id@) is None,
            },
    {
        self.books.get(token_id)
    }

    /// An order that is new is taken not to score.
    pub fn on_order_update(&mut self, order_id: &String)
        ensures
            final(self)@ == (EngineView {
                scoring: if old(self)@.scoring.contains_key(order_id@) {
                    old(self)@.scoring
                } else {
                    old(self)@.scoring.insert(order_id@, false)
                },
                ..old(self)@
            }),
    {
        if !self.scoring.contains_key(order_id.as_str()) {
            self.scoring.insert(order_id.clone(), false);
        }
    }

    pub fn on_scoring(&mut self, order_id: String, scoring: bool)
        ensures
            final(self)@ == (EngineView {
                scoring: old(self)@.scoring.insert(order_id@, scoring),
                ..old(self)@
            }),
    {
        self.scoring.insert(order_id, scoring);
    }

    /// Whether an order is known to score.
    pub fn is_scoring(&self, order_id: &str) -> (b: bool)
        ensures
            b == (entry(self@.scoring, order_id@) == Some(true)),
    {
        match self.scoring.get(order_id) {
            Some(scoring) => *scoring,
            None => false,
        }
    }

    /// Forgets when to check orders that are gone.
    pub fn retain_orders(&mut self, orders: &Vec<Order>)
        ensures
            final(self)@ == old(self)@.after_retain(orders@),
    {
        let mut kept: StringHashMap<u128> = StringHashMap::new();
        let mut i: usize = 0;
        while i < orders.len()
            invariant
                i <= orders@.len(),
                *self == *old(self),
                forall|id: Seq<char>| #[trigger]
                    kept@.contains_key(id) <==> self.next_due@.contains_key(id) && has_order(
                        orders@.take(i as int),
                        id,
                    ),
                forall|id: Seq<char>| #[trigger]
                    kept@.contains_key(id) ==> kept@[id] == self.next_due@[id],
            decreases orders@.len() - i,
        {
            proof {
                lemma_ids_one_more(orders@, i as int);
            }
            if let Some(at) = self.next_due.get(orders[i].id.as_str()) {
                kept.insert(orders[i].id.clone(), *at);
            }
            i = i + 1;
        }
        assert(orders@.take(i as int) =~= orders@);
        assert(kept@ =~= self.next_due@.restrict(ids_of(orders@)));
        self.next_due = kept;
    }

    /// Whether to scan for markets now. If so, the next scan is an interval away, a millisecond
    /// at least.
    pub fn start_scan(&mut self, enabled: bool, now: u64, interval_ms: u64) -> (scan: bool)
        ensures
            scan == (enabled && old(self)@.scan_due(now)),
            scan ==> final(self)@ == old(self)@.after_scan(now, interval_ms),
            !scan ==> final(self)@ == old(self)@,
    {
        if enabled && self.next_scan <= now as u128 {
            let ms: u64 = if interval_ms == 0 { 1 } else { interval_ms };
            self.next_scan = now as u128 + ms as u128 * 1_000_000;
            true
        } else {
            false
        }
    }

    /// The tokens whose midpoint has to be fetched.
    pub fn stale_midpoints(&self, tokens: &Vec<String>, now: u64) -> (list: Vec<String>)
        ensures
            list@ == tokens@.filter(|t: String| stale(self@.midpoints_at, t@, now, MIDPOINT_TTL)),
    {
        stale_tokens(&self.midpoints_at, tokens, now, MIDPOINT_TTL)
    }

    /// Remembers a midpoint, if one was found.
    pub fn on_midpoint(&mut self, token_id: &String, mid: Option<Binary64>, now: u64)
        ensures
            final(self)@ == (match mid {
                Some(mid) => old(self)@.after_midpoint(token_id@, mid, now),
                None => old(self)@,
            }),
    {
        if let Some(mid) = mid {
            self.midpoints.insert(token_id.clone(), mid);
            self.midpoints_at.insert(token_id.clone(), now);
        }
    }

    /// The tokens whose tick size has to be fetched.
    pub fn stale_ticks(&self, tokens: &Vec<String>, now: u64) -> (list: Vec<String>)
        ensures
            list@ == tokens@.filter(|t: String| stale(self@.ticks_at, t@, now, TICK_TTL)),
    {
        stale_tokens(&self.ticks_at, tokens, now, TICK_TTL)
    }

    /// Remembers a tick size, if one was found.
    pub fn on_tick_size(&mut self, token_id: &String, tick: Option<Binary64>, now: u64)
        ensures
            final(self)@ == (match tick {
                Some(tick) => old(self)@.after_tick(token_id@, tick, now),
                None => old(self)@,
            }),
    {
        if let Some(tick) = tick {
            self.ticks.insert(token_id.clone(), tick);
            self.ticks_at.insert(token_id.clone(), now);
        }
    }

    /// Whether to check an order now. If so, it is left alone for an interval.
    pub fn start_check(&mut self, order: &Order, now: u64, poll_ms: u64) -> (check: bool)
        ensures
            check == old(self)@.order_due(order.id@, now),
            check ==> final(self)@ == old(self)@.after_check(
                order.id@,
                order.token_id@,
                now,
                poll_ms,
            ),
            !check ==> final(self)@ == old(self)@,
    {
        let interval: u128 = if self.books.contains_key(order.token_id.as_str()) {
            poll_ms as u128 * 1_000_000
        } else {
            BOOKLESS_INTERVAL as u128
        };
        if let Some(at) = self.next_due.get(order.id.as_str()) {
            if (now as u128) < *at {
                return false;
            }
        }
        self.next_due.insert(order.id.clone(), now as u128 + interval);
        true
    }

    /// The row to show of an order before anything is decided, from what is known of its token.
    pub fn provisional(
        &self,
        order: &Order,
        title: &String,
        outcome: &String,
        spread: Option<Binary64>,
    ) -> (row: OrderDashboardRow)
        ensures
            row@ == provisional_row_of(
                *order,
                title@,
                outcome@,
                entry(self@.midpoints, order.token_id@),
                Some(self@.tick_of(order.token_id@)),
                spread,
            ),
    {
        let token = order.token_id.as_str();
        let mid = match self.midpoints.get(token) {
            Some(mid) => Some(*mid),
            None => None,
        };
        let tick = match self.books.get(token) {
            Some(book) => book.tick_size,
            None => match self.ticks.get(token) {
                Some(tick) => *tick,
                None => Binary64::from_bits(HUNDREDTH),
            },
        };
        provisional_row(order, title, outcome, mid, Some(tick), spread)
    }

    /// What to do about an order: without a reward it is cancelled, without a book it waits.
    pub fn next_step<R>(&self, order: &Order, spread: Option<Binary64>) -> (step: OrderStep<R>)
        ensures
            step is Cancel <==> spread is None,
            step matches OrderStep::Cancel(request) ==> requests(
                request,
                *order,
                fail_closed(),
            ),
            step is Wait <==> spread is Some && !self@.books.contains_key(order.token_id@),
            step is Price <==> spread is Some && self@.books.contains_key(order.token_id@),
    {
        if spread.is_none() {
            OrderStep::Cancel(request_for(order, cancel_without_reward()))
        } else if !self.books.contains_key(order.token_id.as_str()) {
            OrderStep::Wait
        } else {
            OrderStep::Price
        }
    }

    /// Whether the midpoint of an order's token has to be fetched because its book gives none.
    pub fn needs_midpoint(&self, order: &Order) -> (b: bool)
        ensures
            b == (entry(self@.books, order.token_id@) is Some && self@.books[order.token_id@].mid
                is None),
    {
        match self.books.get(order.token_id.as_str()) {
            Some(book) => book.mid.is_none(),
            None => false,
        }
    }

    /// What an order is priced by, given a midpoint that was fetched where its book has none.
    pub fn pricing_inputs(
        &mut self,
        order: &Order,
        spread: Binary64,
        fetched: Option<Binary64>,
    ) -> (inputs: PricingInputs)
        requires
            old(self)@.books.contains_key(order.token_id@),
        ensures
            final(self)@ == (EngineView {
                midpoints: old(self)@.midpoints_after(order.token_id@, fetched),
                ..old(self)@
            }),
            inputs.mid == old(self)@.reference_mid(*order, fetched),
            inputs.delta == reward_delta(spread),
            inputs.tick_size == old(self)@.books[order.token_id@].tick_size,
            ({
                let (lo, hi) = band_of(order.side, inputs.mid, spread);
                clips(own_levels(old(self)@.books[order.token_id@], order.side), lo, hi, inputs.range)
            }),
    {
        let token = order.token_id.as_str();
        let fresh = match self.books.get(token) {
            Some(book) => match book.mid {
                Some(mid) => Some(mid),
                None => fetched,
            },
            None => None,
        };
        let mid = match fresh {
            Some(mid) => {
                self.midpoints.insert(order.token_id.clone(), mid);
                mid
            },
            None => match self.midpoints.get(token) {
                Some(mid) => *mid,
                None => order.price,
            },
        };
        let delta = RewardsClient::reward_range(mid, spread).delta;
        let (lo, hi) = reward_band(order.side, mid, spread);
        let zero = Binary64::from_bits(0);
        let (tick_size, range) = match self.books.get(token) {
            Some(book) => {
                let levels = match order.side {
                    Side::Buy => &book.bids,
                    Side::Sell => &book.asks,
                };
                (book.tick_size, clip_to_levels(levels, lo, hi))
            },
            None => (zero, None),
        };
        PricingInputs { mid, delta, tick_size, range }
    }
}

proof fn lemma_ids_one_more(orders: Seq<Order>, i: int)
    requires
        0 <= i < orders.len(),
    ensures
        forall|id: Seq<char>| #[trigger]
            has_order(orders.take(i + 1), id) <==> has_order(orders.take(i), id) || id
                == orders[i].id@,
{
    let more = orders.take(i + 1);
    let less = orders.take(i);
    assert forall|id: Seq<char>| #[trigger]
        has_order(more, id) <==> has_order(less, id) || id == orders[i].id@ by {
        if has_order(less, id) {
            let j = choose|j: int| 0 <= j < less.len() && (#[trigger] less[j]).id@ == id;
            assert(more[j].id@ == id);
        }
        assert(more[i] == orders[i]);
        if has_order(more, id) {
            let j = choose|j: int| 0 <= j < more.len() && (#[trigger] more[j]).id@ == id;
            if j < i {
                assert(less[j].id@ == id);
            }
        }
    }
}

fn stale_tokens(
    fetched_at: &StringHashMap<u64>,
    tokens: &Vec<String>,
    now: u64,
    ttl: u64,
) -> (list: Vec<String>)
    ensures
        list@ == tokens@.filter(|t: String| stale(fetched_at@, t@, now, ttl)),
{
    let ghost is_stale = |t: String| stale(fetched_at@, t@, now, ttl);
    let mut list: Vec<String> = Vec::new();
    let mut i: usize = 0;
    proof {
        reveal(Seq::filter);
        assert(tokens@.take(0) =~= Seq::empty());
    }
    while i < tokens.len()
        invariant
            i <= tokens@.len(),
            is_stale == (|t: String| stale(fetched_at@, t@, now, ttl)),
            list@ == tokens@.take(i as int).filter(is_stale),
        decreases tokens@.len() - i,
    {
        let old_enough = match fetched_at.get(tokens[i].as_str()) {
            Some(at) => now > *at && now - *at > ttl,
            None => true,
        };
        proof {
            reveal(Seq::filter);
            assert(tokens@.take(i + 1).drop_last() =~= tokens@.take(i as int));
        }
        if old_enough {
            list.push(tokens[i].clone());
        }
        i = i + 1;
    }
    assert(tokens@.take(i as int) =~= tokens@);
    list
}

} // verus!
