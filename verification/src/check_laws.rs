use crate::binary64::{negation, Binary64, HUNDREDTH, TRILLIONTH};
use crate::check::{after_pricing, has_book_mid, priced};
use crate::engine::{
    entry, own_levels, stale, Book, EngineView, PricingInputs, MIDPOINT_TTL, TICK_TTL,
};
use crate::number_laws::{lemma_difference_turns_the_sign, lemma_sum_beside};
use crate::orders::{Order, Side};
use crate::quote_laws::lemma_levels_in_the_band_are_spanned;
use crate::quoting::{band_of, clips, lemma_delta_is_not_negative};
use crate::rewards::reward_delta;
use crate::rounding::lemma_units_sign;
use vstd::prelude::*;

verus! {

/// An order with a book rests for the poll interval after a check, one without a book for four
/// seconds; times are in nanoseconds.
pub proof fn lemma_order_rests_as_its_book_allows(
    v: EngineView,
    order_id: Seq<char>,
    token: Seq<char>,
    now: u64,
    poll_ms: u64,
    later: u64,
)
    ensures
        ({
            let due = v.after_check(order_id, token, now, poll_ms).order_due(order_id, later);
            &&& v.books.contains_key(token) ==> (due <==> later >= now + poll_ms * 1_000_000)
            &&& !v.books.contains_key(token) ==> (due <==> later >= now + 4_000_000_000)
        }),
        v.next_due.contains_key(order_id) ==> (v.order_due(order_id, now) <==> v.next_due[order_id]
            <= now),
        !v.next_due.contains_key(order_id) ==> v.order_due(order_id, now),
{
}

/// A check changes nothing but when the order is due again.
pub proof fn lemma_check_changes_one_time_only(
    v: EngineView,
    order_id: Seq<char>,
    token: Seq<char>,
    now: u64,
    poll_ms: u64,
)
    ensures
        ({
            let w = v.after_check(order_id, token, now, poll_ms);
            &&& w.books == v.books && w.scoring == v.scoring
            &&& w.midpoints == v.midpoints && w.midpoints_at == v.midpoints_at
            &&& w.ticks == v.ticks && w.ticks_at == v.ticks_at
            &&& w.next_scan == v.next_scan
            &&& w.next_due.remove(order_id) == v.next_due.remove(order_id)
        }),
{
    let w = v.after_check(order_id, token, now, poll_ms);
    assert(w.next_due.remove(order_id) =~= v.next_due.remove(order_id));
}

/// To forget the orders that are gone keeps the times of those that are there, and changes nothing
/// else.
pub proof fn lemma_forgetting_keeps_the_rest(v: EngineView, orders: Seq<Order>, id: Seq<char>)
    ensures
        ({
            let w = v.after_retain(orders);
            &&& w.books == v.books && w.scoring == v.scoring
            &&& w.midpoints == v.midpoints && w.midpoints_at == v.midpoints_at
            &&& w.ticks == v.ticks && w.ticks_at == v.ticks_at
            &&& w.next_scan == v.next_scan
            &&& w.next_due.contains_key(id) <==> v.next_due.contains_key(id) && exists|i: int|
                0 <= i < orders.len() && (#[trigger] orders[i]).id@ == id
            &&& w.next_due.contains_key(id) ==> w.next_due[id] == v.next_due[id]
        }),
{
}

/// A scan is due from its time on; it changes nothing but the time of the next.
pub proof fn lemma_scan_changes_its_own_time_only(v: EngineView, now: u64, interval_ms: u64)
    ensures
        v.scan_due(now) <==> v.next_scan <= now,
        interval_ms > 0 ==> v.after_scan(now, interval_ms).next_scan == now + interval_ms
            * 1_000_000,
        v.after_scan(now, 0).next_scan == now + 1_000_000,
        (EngineView { next_scan: v.next_scan, ..v.after_scan(now, interval_ms) }) == v,
{
}

/// What was never fetched is fetched; a midpoint is good for two seconds and a tick size for
/// thirty; and what is fetched for one token is kept for it, with its time, and leaves every other
/// token and everything else alone.
pub proof fn lemma_fetched_numbers_are_kept(
    v: EngineView,
    token: Seq<char>,
    x: Binary64,
    now: u64,
    other: Seq<char>,
    later: u64,
)
    ensures
        !v.midpoints_at.contains_key(token) ==> stale(v.midpoints_at, token, now, MIDPOINT_TTL),
        !v.ticks_at.contains_key(token) ==> stale(v.ticks_at, token, now, TICK_TTL),
        ({
            let w = v.after_midpoint(token, x, now);
            &&& w.midpoints == v.midpoints.insert(token, x)
            &&& stale(w.midpoints_at, token, later, MIDPOINT_TTL) <==> later > now + 2_000_000_000
            &&& other != token ==> stale(w.midpoints_at, other, later, MIDPOINT_TTL) == stale(
                v.midpoints_at,
                other,
                later,
                MIDPOINT_TTL,
            )
            &&& (EngineView { midpoints: v.midpoints, midpoints_at: v.midpoints_at, ..w }) == v
        }),
        ({
            let w = v.after_tick(token, x, now);
            &&& w.ticks == v.ticks.insert(token, x)
            &&& stale(w.ticks_at, token, later, TICK_TTL) <==> later > now + 30_000_000_000
            &&& other != token ==> stale(w.ticks_at, other, later, TICK_TTL) == stale(
                v.ticks_at,
                other,
                later,
                TICK_TTL,
            )
            &&& (EngineView { ticks: v.ticks, ticks_at: v.ticks_at, ..w }) == v
        }),
{
}

/// The tick size to show is that of the book, then the one that was fetched, then a cent.
pub proof fn lemma_tick_comes_from_the_best_source(v: EngineView, token: Seq<char>)
    ensures
        v.books.contains_key(token) ==> v.tick_of(token) == v.books[token].tick_size,
        !v.books.contains_key(token) && v.ticks.contains_key(token) ==> v.tick_of(token)
            == v.ticks[token],
        !v.books.contains_key(token) && !v.ticks.contains_key(token) ==> v.tick_of(token).bits
            == HUNDREDTH,
{
}

/// An order is priced around the midpoint of its book, then around the one fetched just now, then
/// around the last one known, then around its own price; its distance and its tick size are those
/// of its reward and its book; and its range is clipped to the bids where it buys and to the asks
/// where it sells.
pub proof fn lemma_order_is_priced_by_its_own_market(
    v: EngineView,
    order: Order,
    spread: Binary64,
    fetched: Option<Binary64>,
    inputs: PricingInputs,
)
    requires
        priced(v, order, spread, fetched, inputs),
        v.books.contains_key(order.token_id@),
    ensures
        ({
            let book = v.books[order.token_id@];
            let known = v.midpoints.contains_key(order.token_id@);
            let (lo, hi) = band_of(order.side, inputs.mid, spread);
            &&& book.mid matches Some(mid) ==> inputs.mid == mid
            &&& book.mid is None && fetched is Some ==> inputs.mid == fetched->0
            &&& book.mid is None && fetched is None && known ==> inputs.mid
                == v.midpoints[order.token_id@]
            &&& book.mid is None && fetched is None && !known ==> inputs.mid == order.price
            &&& inputs.delta == reward_delta(spread)
            &&& inputs.tick_size == book.tick_size
            &&& order.side == Side::Buy ==> clips(book.bids@, lo, hi, inputs.range)
            &&& order.side == Side::Sell ==> clips(book.asks@, lo, hi, inputs.range)
        }),
{
}

/// A level on the order's own side that has something on it and lies within the distance of the
/// midpoint, below it to buy and above it to sell, lies in the range that the order is priced by.
pub proof fn lemma_rewarded_levels_are_in_the_range(
    v: EngineView,
    order: Order,
    spread: Binary64,
    fetched: Option<Binary64>,
    inputs: PricingInputs,
    i: int,
)
    requires
        priced(v, order, spread, fetched, inputs),
        v.books.contains_key(order.token_id@),
        inputs.mid.finite(),
        inputs.delta.finite(),
        band_of(order.side, inputs.mid, spread).0.finite(),
        band_of(order.side, inputs.mid, spread).1.finite(),
        ({
            let levels = if order.side == Side::Buy {
                v.books[order.token_id@].bids@
            } else {
                v.books[order.token_id@].asks@
            };
            let mid = inputs.mid.value();
            let delta = inputs.delta.value();
            &&& 0 <= i < levels.len()
            &&& !levels[i].size.nan() && levels[i].size.value() > 0
            &&& !levels[i].price.nan()
            &&& order.side == Side::Buy ==> mid - delta <= levels[i].price.value() <= mid
            &&& order.side == Side::Sell ==> mid <= levels[i].price.value() <= mid + delta
        }),
    ensures
        ({
            let levels = if order.side == Side::Buy {
                v.books[order.token_id@].bids@
            } else {
                v.books[order.token_id@].asks@
            };
            inputs.range matches Some((a, b)) && a.value() <= levels[i].price.value() <= b.value()
        }),
{
    let levels = own_levels(v.books[order.token_id@], order.side);
    let (lo, hi) = band_of(order.side, inputs.mid, spread);
    lemma_units_sign(TRILLIONTH as nat);
    lemma_delta_is_not_negative(spread);
    lemma_difference_turns_the_sign(inputs.mid, inputs.delta);
    lemma_sum_beside(inputs.mid, negation(inputs.delta), levels[i].price);
    lemma_sum_beside(inputs.mid, inputs.delta, levels[i].price);
    lemma_levels_in_the_band_are_spanned(levels, lo, hi, inputs.range, i);
}

/// The midpoint that an order is priced around, and the levels on its side, are those of its own
/// book; without a midpoint there, the one just fetched counts, then the last one known, then the
/// order's price.
pub proof fn lemma_reference_is_the_freshest_midpoint(
    v: EngineView,
    order: Order,
    fetched: Option<Binary64>,
    book: Book,
)
    ensures
        ({
            let own = v.books[order.token_id@].mid;
            let known = v.midpoints.contains_key(order.token_id@);
            let mid = v.reference_mid(order, fetched);
            &&& own is Some ==> mid == own->0
            &&& own is None && fetched is Some ==> mid == fetched->0
            &&& own is None && fetched is None && known ==> mid == v.midpoints[order.token_id@]
            &&& own is None && fetched is None && !known ==> mid == order.price
            &&& own is Some || fetched is Some ==> v.midpoints_after(order.token_id@, fetched)
                == v.midpoints.insert(order.token_id@, mid)
            &&& own is None && fetched is None ==> v.midpoints_after(order.token_id@, fetched)
                == v.midpoints
        }),
        own_levels(book, Side::Buy) == book.bids@,
        own_levels(book, Side::Sell) == book.asks@,
{
}

/// What a map holds for a key, or nothing.
pub proof fn lemma_entry_is_what_is_held<V>(map: Map<Seq<char>, V>, key: Seq<char>)
    ensures
        map.contains_key(key) ==> entry(map, key) == Some(map[key]),
        !map.contains_key(key) ==> entry(map, key) is None,
{
}

/// To price an order keeps the midpoint of its book, or else the one fetched just now, for its
/// token, and changes nothing else.
pub proof fn lemma_pricing_keeps_the_midpoint(
    v: EngineView,
    order: Order,
    fetched: Option<Binary64>,
)
    ensures
        ({
            let w = after_pricing(v, order, fetched);
            let token = order.token_id@;
            &&& v.books[token].mid matches Some(mid) ==> w.midpoints == v.midpoints.insert(
                token,
                mid,
            )
            &&& v.books[token].mid is None && fetched is Some ==> w.midpoints
                == v.midpoints.insert(token, fetched->0)
            &&& v.books[token].mid is None && fetched is None ==> w.midpoints == v.midpoints
            &&& (EngineView { midpoints: v.midpoints, ..w }) == v
        }),
        has_book_mid(v, order) <==> v.books.contains_key(order.token_id@)
            && v.books[order.token_id@].mid is Some,
{
}

} // verus!
