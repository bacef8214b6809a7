use crate::binary64::Binary64;
use crate::decision::{
    apply_cooldowns, cooled, fail_closed, request_for, requests, ExecutionRequest, PricingDecision,
};
use crate::engine::{entry, own_levels, Engine, EngineView, OrderStep, PricingInputs};
use crate::orders::Order;
use crate::quoting::{band_of, clips};
use crate::rewards::reward_delta;
use crate::rows::{
    decided_row, decided_row_of, found_texts, labels_of, needs_title, provisional_row_of,
    resolve_labels, title_missing, OrderDashboardRow,
};
use vstd::prelude::*;

verus! {

/// How the check of an order begins.
#[derive(Debug, Clone, Copy, PartialEq, Eq, Structural)]
pub enum Opening {
    /// It is not time yet.
    Skip,
    /// The market's title has to be looked up first.
    LookUpTitle,
    Proceed,
}

/// Begins the check of an order, if it is time for it.
pub fn open_check(engine: &mut Engine, order: &Order, now: u64, poll_ms: u64) -> (opening: Opening)
    ensures
        opening == (if !old(engine)@.order_due(order.id@, now) {
            Opening::Skip
        } else if title_missing(*order) {
            Opening::LookUpTitle
        } else {
            Opening::Proceed
        }),
        final(engine)@ == (if old(engine)@.order_due(order.id@, now) {
            old(engine)@.after_check(order.id@, order.token_id@, now, poll_ms)
        } else {
            old(engine)@
        }),
{
    if !engine.start_check(order, now, poll_ms) {
        Opening::Skip
    } else if needs_title(order) {
        Opening::LookUpTitle
    } else {
        Opening::Proceed
    }
}

/// What follows once an order has been shown.
#[derive(Debug)]
pub enum Next<R> {
    /// Its reward is not known: cancel it.
    Cancel(ExecutionRequest<R>),
    /// Its book is not known: leave it for now.
    Wait,
    /// Its book gives no midpoint: fetch one, and price it then.
    FetchMidpoint,
    /// Decide about it.
    Decide(PricingInputs),
}

/// The first half of a check: what to show, and what to do then.
#[derive(Debug)]
pub struct Assessment<R> {
    pub title: String,
    pub outcome: String,
    pub row: OrderDashboardRow,
    pub next: Next<R>,
}

/// The inputs to a decision are those of the order's market, as known and as fetched.
pub open spec fn priced(
    v: EngineView,
    order: Order,
    spread: Binary64,
    fetched: Option<Binary64>,
    inputs: PricingInputs,
) -> bool {
    let book = v.books[order.token_id@];
    let mid = v.reference_mid(order, fetched);
    let (lo, hi) = band_of(order.side, mid, spread);
    &&& inputs.mid == mid
    &&& inputs.delta == reward_delta(spread)
    &&& inputs.tick_size == book.tick_size
    &&& clips(own_levels(book, order.side), lo, hi, inputs.range)
}

/// What is known after an order has been priced.
pub open spec fn after_pricing(
    v: EngineView,
    order: Order,
    fetched: Option<Binary64>,
) -> EngineView {
    EngineView { midpoints: v.midpoints_after(order.token_id@, fetched), ..v }
}

/// The order's book is known, and gives a midpoint.
pub open spec fn has_book_mid(v: EngineView, order: Order) -> bool {
    entry(v.books, order.token_id@) is Some && v.books[order.token_id@].mid is Some
}

/// Assesses an order, given what the lookup of its title found and its reward's spread. The
/// order is shown in any case. Without a spread it is cancelled; without a book it waits.
pub fn assess<R>(
    engine: &mut Engine,
    order: &Order,
    found: Option<(String, String)>,
    spread: Option<Binary64>,
) -> (a: Assessment<R>)
    ensures
        (a.title@, a.outcome@) == labels_of(*order, found_texts(found)),
        a.row@ == provisional_row_of(
            *order,
            a.title@,
            a.outcome@,
            entry(old(engine)@.midpoints, order.token_id@),
            Some(old(engine)@.tick_of(order.token_id@)),
            spread,
        ),
        match a.next {
            Next::Cancel(request) => spread is None && requests(request, *order, fail_closed()),
            Next::Wait => spread is Some && entry(old(engine)@.books, order.token_id@) is None,
            Next::FetchMidpoint => spread is Some && entry(old(engine)@.books, order.token_id@)
                is Some && !has_book_mid(old(engine)@, *order),
            Next::Decide(inputs) => spread is Some && has_book_mid(old(engine)@, *order) && priced(
                old(engine)@,
                *order,
                spread->0,
                None,
                inputs,
            ),
        },
        final(engine)@ == (if a.next is Decide {
            after_pricing(old(engine)@, *order, None)
        } else {
            old(engine)@
        }),
{
    let (title, outcome) = resolve_labels(order, found);
    let row = engine.provisional(order, &title, &outcome, spread);
    let next = match engine.next_step(order, spread) {
        OrderStep::Cancel(request) => Next::Cancel(request),
        OrderStep::Wait => Next::Wait,
        OrderStep::Price => match spread {
            Some(spread) => {
                if engine.needs_midpoint(order) {
                    Next::FetchMidpoint
                } else {
                    Next::Decide(engine.pricing_inputs(order, spread, None))
                }
            },
            None => Next::Wait,
        },
    };
    Assessment { title, outcome, row, next }
}

/// Ends the check of an order with a decision about it: what to show, and what to execute.
pub fn conclude<R>(
    order: &Order,
    title: &String,
    outcome: &String,
    inputs: &PricingInputs,
    decision: PricingDecision<R>,
    recently_filled: bool,
    version_mismatch: bool,
    rule: String,
) -> (end: (OrderDashboardRow, ExecutionRequest<R>))
    ensures
        ({
            let d = cooled(decision@, recently_filled, version_mismatch);
            &&& end.0@ == decided_row_of(
                *order,
                title@,
                outcome@,
                inputs.mid,
                inputs.range,
                inputs.tick_size,
                rule@,
                d,
            )
            &&& requests(end.1, *order, d)
        }),
{
    let d = apply_cooldowns(decision, recently_filled, version_mismatch);
    let row = decided_row(
        order,
        title,
        outcome,
        inputs.mid,
        inputs.range,
        inputs.tick_size,
        rule,
        &d,
    );
    (row, request_for(order, d))
}

} // verus!
