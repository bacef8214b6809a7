use crate::binary64::Binary64;
use crate::decision::fail_closed;
use crate::engine::{stale, EngineView, MIDPOINT_TTL, TICK_TTL};
use crate::orders::{has_order, Order};
use crate::rows::provisional_row_of;
use vstd::prelude::*;

verus! {

/// An order that was checked is checked again once the interval of its token is over, and not
/// before.
pub proof fn lemma_checked_order_rests(
    v: EngineView,
    order_id: Seq<char>,
    token: Seq<char>,
    now: u64,
    poll_ms: u64,
    later: u64,
)
    ensures
        v.after_check(order_id, token, now, poll_ms).order_due(order_id, later) <==> later >= now
            + v.interval(token, poll_ms),
{
}

/// A check of one order does not put off another.
pub proof fn lemma_check_spares_other_orders(
    v: EngineView,
    order_id: Seq<char>,
    token: Seq<char>,
    now: u64,
    poll_ms: u64,
    other: Seq<char>,
    later: u64,
)
    requires
        other != order_id,
    ensures
        v.after_check(order_id, token, now, poll_ms).order_due(other, later) == v.order_due(
            other,
            later,
        ),
{
}

/// An order that is gone is forgotten: should its identifier come back, it is checked at once.
pub proof fn lemma_gone_order_is_forgotten(
    v: EngineView,
    orders: Seq<Order>,
    order_id: Seq<char>,
    now: u64,
)
    requires
        !has_order(orders, order_id),
    ensures
        v.after_retain(orders).order_due(order_id, now),
{
}

/// An order that is still there is checked when it would have been.
pub proof fn lemma_open_order_keeps_its_time(
    v: EngineView,
    orders: Seq<Order>,
    order_id: Seq<char>,
    now: u64,
)
    requires
        has_order(orders, order_id),
    ensures
        v.after_retain(orders).order_due(order_id, now) == v.order_due(order_id, now),
{
}

/// Between two scans lies the interval, a millisecond at least.
pub proof fn lemma_scans_keep_their_interval(v: EngineView, now: u64, interval_ms: u64, later: u64)
    ensures
        v.after_scan(now, interval_ms).scan_due(later) <==> later >= now + 1_000_000 * (
        if interval_ms == 0 {
            1int
        } else {
            interval_ms as int
        }),
{
}

/// A midpoint that was fetched is not fetched again until its time is over.
pub proof fn lemma_fetched_midpoint_stays_fresh(
    v: EngineView,
    token: Seq<char>,
    mid: Binary64,
    now: u64,
    later: u64,
)
    ensures
        stale(v.after_midpoint(token, mid, now).midpoints_at, token, later, MIDPOINT_TTL) <==> later
            > now + MIDPOINT_TTL,
{
}

/// A tick size that was fetched is not fetched again until its time is over.
pub proof fn lemma_fetched_tick_stays_fresh(
    v: EngineView,
    token: Seq<char>,
    tick: Binary64,
    now: u64,
    later: u64,
)
    ensures
        stale(v.after_tick(token, tick, now).ticks_at, token, later, TICK_TTL) <==> later > now
            + TICK_TTL,
{
}

/// The row of an order without a reward gives the reason for which the order is cancelled.
pub proof fn lemma_row_announces_the_cancellation<R>(
    order: Order,
    title: Seq<char>,
    outcome: Seq<char>,
    mid: Option<Binary64>,
    tick: Option<Binary64>,
)
    ensures
        provisional_row_of(order, title, outcome, mid, tick, None).last_decision_reason
            == fail_closed::<R>().reason,
{
}

} // verus!
