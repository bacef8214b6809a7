use crate::binary64::{Binary64, HUNDREDTH};
use crate::check::{assess, conclude, open_check, Assessment, Next, Opening};
use crate::check_laws::{
    lemma_order_is_priced_by_its_own_market, lemma_pricing_keeps_the_midpoint,
    lemma_reference_is_the_freshest_midpoint,
};
use crate::decision::{DecisionAction, ExecutionRequest, PricingDecision};
use crate::engine::{
    stale, Book, Engine, OrderStep, PricingInputs, MIDPOINT_TTL, TICK_TTL,
};
use crate::orders::{listed, lists, Order, Side, Subscriptions};
use crate::quoting::{band_of, clips};
use crate::rewards::{
    reward_delta, FetchAction, FetchEvent, MarketDetailResponse, RewardMarket, RewardMarketDetail,
    RewardsClient, RewardsError, RewardsRequest, RewardsResponse,
};
use crate::row_laws::{lemma_cooldown_keeps_with_its_reason, lemma_title_is_missing, says_nothing};
use crate::rows::OrderDashboardRow;
use crate::spreads::Spreads;
use vstd::prelude::*;

verus! {

/// Books: a call of `on_book` keeps a book for its own token and one of `on_snapshot` for the
/// token that is given; a call of `book` gives back what is kept; and the rest stays as it was.
pub proof fn lemma_book_calls(
    own: (&mut Engine, Book),
    given: (&mut Engine, &String, Book),
    engine: Engine,
    token: &str,
    book: Option<&Book>,
)
    requires
        call_ensures(Engine::on_book, own, ()),
        call_ensures(Engine::on_snapshot, given, ()),
        call_ensures(Engine::book, (&engine, token), book),
    ensures
        final(own.0)@.books == old(own.0)@.books.insert(own.1.token_id@, own.1),
        final(own.0)@.scoring == old(own.0)@.scoring,
        final(own.0)@.midpoints == old(own.0)@.midpoints,
        final(own.0)@.ticks == old(own.0)@.ticks,
        final(own.0)@.next_due == old(own.0)@.next_due,
        final(own.0)@.next_scan == old(own.0)@.next_scan,
        final(given.0)@.books == old(given.0)@.books.insert(given.1@, given.2),
        final(given.0)@.scoring == old(given.0)@.scoring,
        final(given.0)@.midpoints == old(given.0)@.midpoints,
        final(given.0)@.ticks == old(given.0)@.ticks,
        final(given.0)@.next_due == old(given.0)@.next_due,
        final(given.0)@.next_scan == old(given.0)@.next_scan,
        book is Some <==> engine@.books.contains_key(token@),
        book matches Some(b) ==> *b == engine@.books[token@],
{
}

/// Scoring: an update makes an order known, as one that does not score unless it was known; a
/// message about it is taken over; an order scores where that is known.
pub proof fn lemma_scoring_calls(
    update: (&mut Engine, &String),
    message: (&mut Engine, String, bool),
    engine: Engine,
    id: &str,
    scores: bool,
)
    requires
        call_ensures(Engine::on_order_update, update, ()),
        call_ensures(Engine::on_scoring, message, ()),
        call_ensures(Engine::is_scoring, (&engine, id), scores),
    ensures
        old(update.0)@.scoring.contains_key(update.1@) ==> final(update.0)@ == old(update.0)@,
        !old(update.0)@.scoring.contains_key(update.1@) ==> final(update.0)@.scoring == old(update.0)@.scoring.insert(update.1@, false),
        final(update.0)@.books == old(update.0)@.books,
        final(update.0)@.next_due == old(update.0)@.next_due,
        final(message.0)@.scoring == old(message.0)@.scoring.insert(message.1@, message.2),
        final(message.0)@.books == old(message.0)@.books,
        final(message.0)@.next_due == old(message.0)@.next_due,
        scores <==> engine@.scoring.contains_key(id@) && engine@.scoring[id@],
{
}

/// Times: a call of `start_check` lets an order be checked when it is due, and puts it off for the
/// poll interval with a book and for four seconds without; one of `start_scan` lets a scan begin
/// when it is enabled and due, and puts the next off for the interval, a millisecond at least; one
/// of `retain_orders` forgets the orders that are gone.
pub proof fn lemma_time_calls(
    check: (&mut Engine, &Order, u64, u64),
    checked: bool,
    scan: (&mut Engine, bool, u64, u64),
    scanned: bool,
    retain: (&mut Engine, &Vec<Order>),
    id: Seq<char>,
)
    requires
        call_ensures(Engine::start_check, check, checked),
        call_ensures(Engine::start_scan, scan, scanned),
        call_ensures(Engine::retain_orders, retain, ()),
    ensures
        checked <==> !old(check.0)@.next_due.contains_key(check.1.id@) || old(check.0)@.next_due[check.1.id@] <= check.2,
        checked && old(check.0)@.books.contains_key(check.1.token_id@) ==> final(check.0)@.next_due == old(check.0)@.next_due.insert(
            check.1.id@,
            (check.2 + check.3 * 1_000_000) as u128,
        ),
        checked && !old(check.0)@.books.contains_key(check.1.token_id@) ==> final(check.0)@.next_due == old(check.0)@.next_due.insert(
            check.1.id@,
            (check.2 + 4_000_000_000) as u128,
        ),
        !checked ==> final(check.0)@ == old(check.0)@,
        final(check.0)@.books == old(check.0)@.books,
        final(check.0)@.midpoints == old(check.0)@.midpoints,
        scanned <==> scan.1 && old(scan.0)@.next_scan <= scan.2,
        scanned && scan.3 > 0 ==> final(scan.0)@.next_scan == scan.2 + scan.3 * 1_000_000,
        scanned && scan.3 == 0 ==> final(scan.0)@.next_scan == scan.2 + 1_000_000,
        !scanned ==> final(scan.0)@ == old(scan.0)@,
        final(scan.0)@.next_due == old(scan.0)@.next_due,
        final(retain.0)@.next_due.contains_key(id) <==> old(retain.0)@.next_due.contains_key(id)
            && exists|i: int| 0 <= i < retain.1@.len() && (#[trigger] retain.1@[i]).id@ == id,
        final(retain.0)@.next_due.contains_key(id) ==> final(retain.0)@.next_due[id] == old(retain.0)@.next_due[id],
        final(retain.0)@.books == old(retain.0)@.books,
        final(retain.0)@.next_scan == old(retain.0)@.next_scan,
{
}

/// Fetching: a number that was found is kept with its time, one that was not changes nothing; the
/// tokens to fetch for are those without a number or with one older than two or thirty seconds.
pub proof fn lemma_fetch_calls(
    mid: (&mut Engine, &String, Option<Binary64>, u64),
    tick: (&mut Engine, &String, Option<Binary64>, u64),
    engine: Engine,
    tokens: Vec<String>,
    now: u64,
    stale_mids: Vec<String>,
    stale_ticks: Vec<String>,
)
    requires
        call_ensures(Engine::on_midpoint, mid, ()),
        call_ensures(Engine::on_tick_size, tick, ()),
        call_ensures(Engine::stale_midpoints, (&engine, &tokens, now), stale_mids),
        call_ensures(Engine::stale_ticks, (&engine, &tokens, now), stale_ticks),
    ensures
        mid.2 is None ==> final(mid.0)@ == old(mid.0)@,
        mid.2 is Some ==> final(mid.0)@.midpoints == old(mid.0)@.midpoints.insert(mid.1@, mid.2->0)
            && final(mid.0)@.midpoints_at == old(mid.0)@.midpoints_at.insert(mid.1@, mid.3),
        final(mid.0)@.ticks == old(mid.0)@.ticks,
        final(mid.0)@.books == old(mid.0)@.books,
        tick.2 is None ==> final(tick.0)@ == old(tick.0)@,
        tick.2 is Some ==> final(tick.0)@.ticks == old(tick.0)@.ticks.insert(tick.1@, tick.2->0)
            && final(tick.0)@.ticks_at == old(tick.0)@.ticks_at.insert(tick.1@, tick.3),
        final(tick.0)@.midpoints == old(tick.0)@.midpoints,
        final(tick.0)@.books == old(tick.0)@.books,
        stale_mids@ == tokens@.filter(
            |t: String|
                !engine@.midpoints_at.contains_key(t@) || now - engine@.midpoints_at[t@]
                    > 2_000_000_000,
        ),
        stale_ticks@ == tokens@.filter(
            |t: String|
                !engine@.ticks_at.contains_key(t@) || now - engine@.ticks_at[t@] > 30_000_000_000,
        ),
{
    let a = |t: String|
        !engine@.midpoints_at.contains_key(t@) || now - engine@.midpoints_at[t@] > 2_000_000_000;
    let b = |t: String|
        stale(engine@.midpoints_at, t@, now, MIDPOINT_TTL);
    assert(a =~= b);
    let c = |t: String|
        !engine@.ticks_at.contains_key(t@) || now - engine@.ticks_at[t@] > 30_000_000_000;
    let d = |t: String| stale(engine@.ticks_at, t@, now, TICK_TTL);
    assert(c =~= d);
}

/// A call of `pricing_inputs` prices an order around the midpoint of its book, then the one
/// fetched, then the last one known, then its own price, by its own reward and its own side of its
/// own book.
pub proof fn lemma_pricing_inputs_call(
    args: (&mut Engine, &Order, Binary64, Option<Binary64>),
    inputs: PricingInputs,
)
    requires
        call_ensures(Engine::pricing_inputs, args, inputs),
        (*args.0)@.books.contains_key(args.1.token_id@),
    ensures
        ({
            let v = old(args.0)@;
            let token = args.1.token_id@;
            let book = v.books[token];
            let (lo, hi) = band_of(args.1.side, inputs.mid, args.2);
            &&& book.mid is Some ==> inputs.mid == book.mid->0
            &&& book.mid is None && args.3 is Some ==> inputs.mid == args.3->0
            &&& book.mid is None && args.3 is None && v.midpoints.contains_key(token) ==> inputs.mid
                == v.midpoints[token]
            &&& book.mid is None && args.3 is None && !v.midpoints.contains_key(token)
                ==> inputs.mid == args.1.price
            &&& inputs.delta == reward_delta(args.2)
            &&& inputs.tick_size == book.tick_size
            &&& args.1.side == Side::Buy ==> clips(book.bids@, lo, hi, inputs.range)
            &&& args.1.side == Side::Sell ==> clips(book.asks@, lo, hi, inputs.range)
            &&& book.mid is Some || args.3 is Some ==> final(args.0)@.midpoints
                == v.midpoints.insert(token, inputs.mid)
            &&& book.mid is None && args.3 is None ==> final(args.0)@.midpoints == v.midpoints
            &&& final(args.0)@.books == v.books
            &&& final(args.0)@.next_due == v.next_due
            &&& final(args.0)@.midpoints_at == v.midpoints_at
        }),
{
    lemma_reference_is_the_freshest_midpoint(
        (*args.0)@,
        *args.1,
        args.3,
        (*args.0)@.books[args.1.token_id@],
    );
}

/// Calls of `next_step` and `needs_midpoint`: without a reward an order is cancelled, without a
/// book it waits, and otherwise it is priced; a midpoint is needed where the book has none.
pub proof fn lemma_step_calls<R>(
    engine: Engine,
    order: Order,
    spread: Option<Binary64>,
    step: OrderStep<R>,
    needed: bool,
)
    requires
        call_ensures(Engine::next_step::<R>, (&engine, &order, spread), step),
        call_ensures(Engine::needs_midpoint, (&engine, &order), needed),
    ensures
        spread is None ==> (step matches OrderStep::Cancel(request) && request.order_id@
            == order.id@ && request.decision.action == DecisionAction::Cancel),
        spread is Some && !engine@.books.contains_key(order.token_id@) ==> step is Wait,
        spread is Some && engine@.books.contains_key(order.token_id@) ==> step is Price,
        needed <==> engine@.books.contains_key(order.token_id@)
            && engine@.books[order.token_id@].mid is None,
{
}

/// A call of `provisional` shows the last midpoint known and the tick size of the book, the one
/// fetched, or a cent.
pub proof fn lemma_provisional_call(
    engine: Engine,
    order: Order,
    title: String,
    outcome: String,
    spread: Option<Binary64>,
    row: OrderDashboardRow,
)
    requires
        call_ensures(Engine::provisional, (&engine, &order, &title, &outcome, spread), row),
    ensures
        ({
            let v = engine@;
            let token = order.token_id@;
            &&& row.order_id@ == order.id@
            &&& row.token_id@ == token
            &&& row.side == order.side
            &&& row.order_price == order.price
            &&& row.size == order.remaining_size
            &&& v.midpoints.contains_key(token) ==> row.mid_price == Some(v.midpoints[token])
            &&& !v.midpoints.contains_key(token) ==> row.mid_price is None
            &&& v.books.contains_key(token) ==> row.reward_tick_size == Some(
                v.books[token].tick_size,
            )
            &&& !v.books.contains_key(token) && v.ticks.contains_key(token) ==> row.reward_tick_size
                == Some(v.ticks[token])
            &&& !v.books.contains_key(token) && !v.ticks.contains_key(token)
                ==> row.reward_tick_size == Some(Binary64 { bits: HUNDREDTH })
            &&& v.midpoints.contains_key(token) && spread is Some ==> row.reward_range_lo == Some(
                band_of(order.side, v.midpoints[token], spread->0).0,
            ) && row.reward_range_hi == Some(
                band_of(order.side, v.midpoints[token], spread->0).1,
            )
        }),
{
    assert(row@.order_id == row.order_id@ && row@.token_id == row.token_id@);
}

/// A call of `open_check` skips an order that is not due, and otherwise has its title looked up
/// where it says nothing.
pub proof fn lemma_open_check_call(args: (&mut Engine, &Order, u64, u64), opening: Opening)
    requires
        call_ensures(open_check, args, opening),
    ensures
        ({
            let v = old(args.0)@;
            let due = !v.next_due.contains_key(args.1.id@) || v.next_due[args.1.id@] <= args.2;
            let missing = args.1.market_title is None || says_nothing(args.1.market_title->0@)
                || args.1.market_title->0@ == "Unknown Market"@;
            &&& opening == Opening::Skip <==> !due
            &&& opening == Opening::LookUpTitle <==> due && missing
            &&& !due ==> final(args.0)@ == v
            &&& due ==> final(args.0)@.next_due.contains_key(args.1.id@)
            &&& due && v.books.contains_key(args.1.token_id@) ==> final(args.0)@.next_due[args.1.id@] == args.2 + args.3 * 1_000_000
            &&& due && !v.books.contains_key(args.1.token_id@) ==> final(args.0)@.next_due[args.1.id@] == args.2 + 4_000_000_000
            &&& final(args.0)@.books == v.books
        }),
{
    lemma_title_is_missing(*args.1);
}

/// A call of `assess` cancels an order whose reward is not known, has one without a book wait,
/// asks for a midpoint where the book has none, and otherwise prices the order by its own book.
pub proof fn lemma_assess_call<R>(
    args: (&mut Engine, &Order, Option<(String, String)>, Option<Binary64>),
    a: Assessment<R>,
)
    requires
        call_ensures(assess::<R>, args, a),
    ensures
        ({
            let v = old(args.0)@;
            let token = args.1.token_id@;
            let known = v.books.contains_key(token);
            &&& a.next is Cancel <==> args.3 is None
            &&& a.next is Wait <==> args.3 is Some && !known
            &&& a.next is FetchMidpoint <==> args.3 is Some && known && v.books[token].mid is None
            &&& a.next is Decide <==> args.3 is Some && known && v.books[token].mid is Some
            &&& a.next matches Next::Cancel(request) ==> request.order_id@ == args.1.id@
                && request.token_id@ == token && request.decision.action == DecisionAction::Cancel
            &&& a.next matches Next::Decide(inputs) ==> {
                let (lo, hi) = band_of(args.1.side, inputs.mid, args.3->0);
                &&& inputs.mid == v.books[token].mid->0
                &&& inputs.delta == reward_delta(args.3->0)
                &&& inputs.tick_size == v.books[token].tick_size
                &&& args.1.side == Side::Buy ==> clips(v.books[token].bids@, lo, hi, inputs.range)
                &&& args.1.side == Side::Sell ==> clips(v.books[token].asks@, lo, hi, inputs.range)
                &&& final(args.0)@.midpoints == v.midpoints.insert(token, inputs.mid)
            }
            &&& !(a.next is Decide) ==> final(args.0)@ == v
            &&& final(args.0)@.books == v.books
            &&& final(args.0)@.next_due == v.next_due
            &&& a.row.order_id@ == args.1.id@
            &&& a.row.token_id@ == token
            &&& a.row.side == args.1.side
            &&& a.row.order_price == args.1.price
            &&& a.row.size == args.1.remaining_size
            &&& v.midpoints.contains_key(token) ==> a.row.mid_price == Some(v.midpoints[token])
            &&& !v.midpoints.contains_key(token) ==> a.row.mid_price is None
            &&& args.3 is None ==> a.row.last_decision_reason@ == "reward_unavailable_fail_closed"@
            &&& args.3 is Some ==> a.row.last_decision_reason@ == "waiting_for_orderbook"@
        }),
{
    assert(a.row@.order_id == a.row.order_id@ && a.row@.token_id == a.row.token_id@);
    assert(a.row@.last_decision_reason == a.row.last_decision_reason@);
    if let Next::Decide(inputs) = a.next {
        lemma_order_is_priced_by_its_own_market((*args.0)@, *args.1, args.3->0, None, inputs);
        lemma_pricing_keeps_the_midpoint((*args.0)@, *args.1, None);
    }
}

/// A call of `conclude` shows and requests one and the same decision: the one that was made, or to
/// keep the order where a cooldown forbids to replace it.
pub proof fn lemma_conclude_call<R>(
    order: Order,
    title: String,
    outcome: String,
    inputs: PricingInputs,
    decision: PricingDecision<R>,
    recently_filled: bool,
    version_mismatch: bool,
    rule: String,
    end: (OrderDashboardRow, ExecutionRequest<R>),
)
    requires
        call_ensures(
            conclude::<R>,
            (
                &order,
                &title,
                &outcome,
                &inputs,
                decision,
                recently_filled,
                version_mismatch,
                rule,
            ),
            end,
        ),
    ensures
        ({
            let touched = decision.action is Replace && (recently_filled || version_mismatch);
            let (row, request) = end;
            &&& touched ==> request.decision.action == DecisionAction::Keep
            &&& !touched ==> request.decision.action == decision.action
                && request.decision.reason@ == decision.reason@
            &&& touched && recently_filled ==> request.decision.reason@ == decision.reason@
                + "_recent_fill_cooldown"@
            &&& touched && !recently_filled ==> request.decision.reason@
                == "order_version_mismatch_cooldown"@
            &&& row.last_decision_reason@ == request.decision.reason@
            &&& row.last_candidate_levels@ == decision.candidate_prices@
            &&& row.order_id@ == order.id@ && request.order_id@ == order.id@
            &&& row.token_id@ == order.token_id@ && request.token_id@ == order.token_id@
            &&& row.side == order.side && request.side == order.side
            &&& row.order_price == order.price && request.old_price == order.price
            &&& row.size == order.remaining_size && request.size == order.remaining_size
            &&& row.mid_price == Some(inputs.mid)
            &&& row.reward_tick_size == Some(inputs.tick_size)
            &&& inputs.range matches Some((lo, hi)) ==> row.reward_range_lo == Some(lo)
                && row.reward_range_hi == Some(hi)
            &&& inputs.range is None ==> row.reward_range_lo is None && row.reward_range_hi is None
            &&& row.pricing_rule@ == rule@
            &&& request.decision.chosen_target == decision.chosen_target
            &&& request.decision.risk_overlay == decision.risk_overlay
        }),
{
    let (row, request) = end;
    assert(row@.last_decision_reason == row.last_decision_reason@);
    assert(row@.last_candidate_levels == row.last_candidate_levels@);
    assert(row@.order_id == row.order_id@ && row@.token_id == row.token_id@);
    assert(row@.pricing_rule == row.pricing_rule@);
    assert(request.decision@.reason == request.decision.reason@);
    assert(decision@.reason == decision.reason@);
    lemma_cooldown_keeps_with_its_reason(decision@, recently_filled, version_mismatch);
}

/// Spreads: what a lookup gives is what a call of `spread` gives afterwards, and nothing after a
/// failure.
pub proof fn lemma_spread_calls(
    record: (&mut Spreads, String, &Result<Option<Binary64>, RewardsError>),
    spreads: Spreads,
    condition_id: &str,
    spread: Option<Binary64>,
)
    requires
        call_ensures(Spreads::record, record, ()),
        call_ensures(Spreads::spread, (&spreads, condition_id), spread),
    ensures
        record.2 matches Ok(s) ==> final(record.0)@ == old(record.0)@.insert(record.1@, *s),
        record.2 is Err ==> final(record.0)@ == old(record.0)@.insert(record.1@, None),
        spreads@.contains_key(condition_id@) ==> spread == spreads@[condition_id@],
        !spreads@.contains_key(condition_id@) ==> spread is None,
{
}

/// Polls: afterwards the tokens of the orders are followed, and a book is fetched for those that
/// were not followed before.
pub proof fn lemma_poll_call(
    args: (&mut Subscriptions, &Vec<Order>),
    bootstrap: Vec<String>,
    token: Seq<char>,
)
    requires
        call_ensures(Subscriptions::poll, args, bootstrap),
    ensures
        final(args.0)@.contains(token) <==> exists|i: int|
            0 <= i < args.1@.len() && (#[trigger] args.1@[i]).token_id@ == token,
        (exists|k: int| 0 <= k < bootstrap@.len() && (#[trigger] bootstrap@[k])@ == token) <==> (
        !old(args.0)@.contains(token) && exists|i: int|
            0 <= i < args.1@.len() && (#[trigger] args.1@[i]).token_id@ == token),
{
    assert(listed(bootstrap@).contains(token) <==> lists(
        bootstrap@,
        token,
    ));
}

/// A call of `rewards_max_spread_for_market` on a body whose first row is usable answers with the
/// row's spread, however many tokens and rows there are, and remembers it.
pub proof fn lemma_lookup_call_on_a_usable_body(
    args: (&mut RewardsClient, &str, FetchEvent<MarketDetailResponse>),
    action: FetchAction<Option<Binary64>>,
    response: MarketDetailResponse,
)
    requires
        call_ensures(RewardsClient::rewards_max_spread_for_market, args, action),
        args.2 == FetchEvent::Body(Ok::<MarketDetailResponse, String>(response)),
        response.data is Some && response.data->0@.len() > 0,
    ensures
        ({
            let row = response.data->0@[0];
            let usable = {
                &&& row.rewards_max_spread is Some && row.rewards_max_spread->0.finite()
                    && row.rewards_max_spread->0.value() > 0
                &&& row.rewards_min_size is Some && row.rewards_min_size->0.finite()
                    && row.rewards_min_size->0.value() > 0
                &&& row.tokens is Some && row.tokens->0@.len() > 0
            };
            let answer = if usable {
                row.rewards_max_spread
            } else {
                None
            };
            &&& action == FetchAction::<Option<Binary64>>::Return(Ok(answer))
            &&& final(args.0).remembered() == old(args.0).remembered().insert(args.1@, answer)
            &&& final(args.0).base() == old(args.0).base()
        }),
{
}

/// A call of `rewards_max_spread_for_market` on anything else: without rows, or not decoded, a
/// body answers with nothing; what is remembered answers at once; otherwise a request is sent; and
/// a status or a failure answers nothing and is not remembered.
pub proof fn lemma_lookup_call(
    args: (&mut RewardsClient, &str, FetchEvent<MarketDetailResponse>),
    action: FetchAction<Option<Binary64>>,
)
    requires
        call_ensures(RewardsClient::rewards_max_spread_for_market, args, action),
    ensures
        final(args.0).base() == old(args.0).base(),
        args.2 matches FetchEvent::Body(Err(_)) ==> action == FetchAction::<
            Option<Binary64>,
        >::Return(Ok(None)) && final(args.0).remembered() == old(args.0).remembered().insert(
            args.1@,
            None,
        ),
        !(args.2 is Body) ==> final(args.0).remembered() == old(args.0).remembered(),
        args.2 is Begin && old(args.0).remembered().contains_key(args.1@) ==> action
            == FetchAction::<Option<Binary64>>::Return(Ok(old(args.0).remembered()[args.1@])),
        args.2 is Begin && !old(args.0).remembered().contains_key(args.1@) ==> action is Get
            && action->Get_0@ == old(args.0).base() + "/rewards/markets/"@ + args.1@,
        args.2 matches FetchEvent::Status(code) ==> action == (if code / 100 == 2 {
            FetchAction::<Option<Binary64>>::ReadBody
        } else {
            FetchAction::<Option<Binary64>>::Return(
                Err(RewardsError::Status(RewardsRequest::SpreadLookup, code)),
            )
        }),
        args.2 matches FetchEvent::SendFailed(cause) ==> action == FetchAction::<
            Option<Binary64>,
        >::Return(Err(RewardsError::Transport(cause))),
        args.2 matches FetchEvent::BodyFailed(cause) ==> action == FetchAction::<
            Option<Binary64>,
        >::Return(Err(RewardsError::Transport(cause))),
{
}

/// Calls of `current_markets` and `market_detail` ask at their addresses, read the body after a
/// success only, and end with the cause of a failure.
pub proof fn lemma_request_calls(
    client: RewardsClient,
    listing: FetchEvent<RewardsResponse>,
    answer: FetchAction<Vec<RewardMarket>>,
    condition_id: &str,
    asking: FetchEvent<MarketDetailResponse>,
    asked: FetchAction<RewardMarketDetail>,
)
    requires
        call_ensures(RewardsClient::current_markets, (&client, listing), answer),
        call_ensures(RewardsClient::market_detail, (&client, condition_id, asking), asked),
    ensures
        listing is Begin ==> answer is Get && answer->Get_0@ == client.base()
            + "/rewards/markets/current"@,
        listing matches FetchEvent::Status(code) ==> answer == (if code / 100 == 2 {
            FetchAction::<Vec<RewardMarket>>::ReadBody
        } else {
            FetchAction::<Vec<RewardMarket>>::Return(
                Err(RewardsError::Status(RewardsRequest::CurrentMarkets, code)),
            )
        }),
        listing matches FetchEvent::SendFailed(cause) ==> answer == FetchAction::<
            Vec<RewardMarket>,
        >::Return(Err(RewardsError::Transport(cause))),
        listing matches FetchEvent::BodyFailed(cause) ==> answer == FetchAction::<
            Vec<RewardMarket>,
        >::Return(Err(RewardsError::Transport(cause))),
        listing matches FetchEvent::Body(payload) ==> answer is Return && (answer->Return_0 is Ok
            <==> payload is Ok),
        asking is Begin ==> asked is Get && asked->Get_0@ == client.base() + "/rewards/markets/"@
            + condition_id@,
        asking matches FetchEvent::Status(code) ==> asked == (if code / 100 == 2 {
            FetchAction::<RewardMarketDetail>::ReadBody
        } else {
            FetchAction::<RewardMarketDetail>::Return(
                Err(RewardsError::Status(RewardsRequest::MarketDetail, code)),
            )
        }),
        asking matches FetchEvent::SendFailed(cause) ==> asked == FetchAction::<
            RewardMarketDetail,
        >::Return(Err(RewardsError::Transport(cause))),
        asking matches FetchEvent::BodyFailed(cause) ==> asked == FetchAction::<
            RewardMarketDetail,
        >::Return(Err(RewardsError::Transport(cause))),
        asking matches FetchEvent::Body(payload) ==> asked is Return && (asked->Return_0 matches Ok(
            detail,
        ) ==> payload is Ok && payload->Ok_0.data->0@[0].rewards_max_spread == Some(
            detail.rewards_max_spread_cents,
        ) && payload->Ok_0.data->0@[0].tokens->0@ == detail.tokens@),
{
}

} // verus!
