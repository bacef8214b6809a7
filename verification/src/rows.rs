use crate::binary64::Binary64;
use crate::decision::{PricingDecision, PricingDecisionView};
use crate::orders::{Order, Side};
use crate::quoting::{band_of, reward_band};
use crate::regime::{classify_tick_regime_label, regime_of};
use crate::text::{blank, is_blank, is_text};
use vstd::prelude::*;

verus! {

/// The market's title that came with an order, if any.
pub open spec fn own_title(order: Order) -> Seq<char> {
    match order.market_title {
        Some(title) => title@,
        None => Seq::empty(),
    }
}

/// The outcome's name that came with an order, if any.
pub open spec fn own_outcome(order: Order) -> Seq<char> {
    match order.outcome {
        Some(outcome) => outcome@,
        None => Seq::empty(),
    }
}

/// The order came without a title that says anything.
pub open spec fn title_missing(order: Order) -> bool {
    blank(own_title(order)) || own_title(order) == "Unknown Market"@
}

fn text_or_empty(text: &Option<String>) -> (t: String)
    ensures
        t@ == (match *text {
            Some(s) => s@,
            None => Seq::<char>::empty(),
        }),
{
    match text {
        Some(s) => s.clone(),
        None => String::new(),
    }
}

/// Whether the market's title has to be looked up.
pub fn needs_title(order: &Order) -> (b: bool)
    ensures
        b == title_missing(*order),
{
    let title = text_or_empty(&order.market_title);
    is_blank(title.as_str()) || is_text(title.as_str(), "Unknown Market")
}

/// Title and outcome of an order, given what a lookup found. What is found counts only where a
/// title is missing, and only as far as it is not blank.
pub open spec fn labels_of(order: Order, found: Option<(Seq<char>, Seq<char>)>) -> (
    Seq<char>,
    Seq<char>,
) {
    match found {
        Some((question, outcome)) => if title_missing(order) {
            (
                if blank(question) {
                    own_title(order)
                } else {
                    question
                },
                if blank(outcome) {
                    own_outcome(order)
                } else {
                    outcome
                },
            )
        } else {
            (own_title(order), own_outcome(order))
        },
        None => (own_title(order), own_outcome(order)),
    }
}

/// The model of what a lookup found.
pub open spec fn found_texts(found: Option<(String, String)>) -> Option<(Seq<char>, Seq<char>)> {
    match found {
        Some((question, outcome)) => Some((question@, outcome@)),
        None => None,
    }
}

pub fn resolve_labels(order: &Order, found: Option<(String, String)>) -> (labels: (String, String))
    ensures
        (labels.0@, labels.1@) == labels_of(*order, found_texts(found)),
{
    let mut title = text_or_empty(&order.market_title);
    let mut outcome = text_or_empty(&order.outcome);
    if needs_title(order) {
        if let Some((question, name)) = found {
            if !is_blank(question.as_str()) {
                title = question;
            }
            if !is_blank(name.as_str()) {
                outcome = name;
            }
        }
    }
    (title, outcome)
}

/// A text to show, with another in its place where it is blank.
pub open spec fn shown(text: Seq<char>, otherwise: Seq<char>) -> Seq<char> {
    if blank(text) {
        otherwise
    } else {
        text
    }
}

fn show(text: &String, otherwise: &str) -> (t: String)
    ensures
        t@ == shown(text@, otherwise@),
{
    if is_blank(text.as_str()) {
        otherwise.to_owned()
    } else {
        text.clone()
    }
}

/// A row of the dashboard: an order and what is known and decided about it.
#[derive(Debug)]
pub struct OrderDashboardRow {
    pub order_id: String,
    pub token_id: String,
    pub market_title: String,
    pub outcome_label: String,
    pub side: Side,
    pub order_price: Binary64,
    pub size: Binary64,
    pub mid_price: Option<Binary64>,
    pub reward_range_lo: Option<Binary64>,
    pub reward_range_hi: Option<Binary64>,
    pub reward_tick_size: Option<Binary64>,
    pub pricing_mode: String,
    pub pricing_rule: String,
    pub tick_regime: String,
    pub last_decision_reason: String,
    pub last_candidate_levels: Vec<Binary64>,
}

pub struct OrderDashboardRowView {
    pub order_id: Seq<char>,
    pub token_id: Seq<char>,
    pub market_title: Seq<char>,
    pub outcome_label: Seq<char>,
    pub side: Side,
    pub order_price: Binary64,
    pub size: Binary64,
    pub mid_price: Option<Binary64>,
    pub reward_range_lo: Option<Binary64>,
    pub reward_range_hi: Option<Binary64>,
    pub reward_tick_size: Option<Binary64>,
    pub pricing_mode: Seq<char>,
    pub pricing_rule: Seq<char>,
    pub tick_regime: Seq<char>,
    pub last_decision_reason: Seq<char>,
    pub last_candidate_levels: Seq<Binary64>,
}

impl View for OrderDashboardRow {
    type V = OrderDashboardRowView;

    open spec fn view(&self) -> OrderDashboardRowView {
        OrderDashboardRowView {
            order_id: self.order_id@,
            token_id: self.token_id@,
            market_title: self.market_title@,
            outcome_label: self.outcome_label@,
            side: self.side,
            order_price: self.order_price,
            size: self.size,
            mid_price: self.mid_price,
            reward_range_lo: self.reward_range_lo,
            reward_range_hi: self.reward_range_hi,
            reward_tick_size: self.reward_tick_size,
            pricing_mode: self.pricing_mode@,
            pricing_rule: self.pricing_rule@,
            tick_regime: self.tick_regime@,
            last_decision_reason: self.last_decision_reason@,
            last_candidate_levels: self.last_candidate_levels@,
        }
    }
}

/// The row of an order before its book has been looked at. The band needs a midpoint and a
/// spread; the reason tells whether the order waits for its book or lacks its reward.
pub open spec fn provisional_row_of(
    order: Order,
    title: Seq<char>,
    outcome: Seq<char>,
    mid: Option<Binary64>,
    tick: Option<Binary64>,
    spread: Option<Binary64>,
) -> OrderDashboardRowView {
    let band = if mid is Some && spread is Some {
        Some(band_of(order.side, mid->0, spread->0))
    } else {
        None
    };
    OrderDashboardRowView {
        order_id: order.id@,
        token_id: order.token_id@,
        market_title: shown(title, "Unknown Market"@),
        outcome_label: shown(outcome, "-"@),
        side: order.side,
        order_price: order.price,
        size: order.remaining_size,
        mid_price: mid,
        reward_range_lo: match band {
            Some((lo, _)) => Some(lo),
            None => None,
        },
        reward_range_hi: match band {
            Some((_, hi)) => Some(hi),
            None => None,
        },
        reward_tick_size: tick,
        pricing_mode: "provisional"@,
        pricing_rule: "provisional(midpoint+tick fallback)"@,
        tick_regime: match tick {
            Some(size) => regime_of(size).name(),
            None => "pending"@,
        },
        last_decision_reason: if spread is Some {
            "waiting_for_orderbook"@
        } else {
            "reward_unavailable_fail_closed"@
        },
        last_candidate_levels: Seq::empty(),
    }
}

pub fn provisional_row(
    order: &Order,
    title: &String,
    outcome: &String,
    mid: Option<Binary64>,
    tick: Option<Binary64>,
    spread: Option<Binary64>,
) -> (row: OrderDashboardRow)
    ensures
        row@ == provisional_row_of(*order, title@, outcome@, mid, tick, spread),
{
    let (lo, hi) = match (mid, spread) {
        (Some(mid), Some(spread)) => {
            let (lo, hi) = reward_band(order.side, mid, spread);
            (Some(lo), Some(hi))
        },
        _ => (None, None),
    };
    let regime = match tick {
        Some(size) => classify_tick_regime_label(size).to_owned(),
        None => "pending".to_owned(),
    };
    let reason = match spread {
        Some(_) => "waiting_for_orderbook".to_owned(),
        None => "reward_unavailable_fail_closed".to_owned(),
    };
    let row = OrderDashboardRow {
        order_id: order.id.clone(),
        token_id: order.token_id.clone(),
        market_title: show(title, "Unknown Market"),
        outcome_label: show(outcome, "-"),
        side: order.side,
        order_price: order.price,
        size: order.remaining_size,
        mid_price: mid,
        reward_range_lo: lo,
        reward_range_hi: hi,
        reward_tick_size: tick,
        pricing_mode: "provisional".to_owned(),
        pricing_rule: "provisional(midpoint+tick fallback)".to_owned(),
        tick_regime: regime,
        last_decision_reason: reason,
        last_candidate_levels: Vec::new(),
    };
    assert(row@.last_candidate_levels =~= Seq::empty());
    row
}

/// The row of an order after the decision about it.
pub open spec fn decided_row_of<R>(
    order: Order,
    title: Seq<char>,
    outcome: Seq<char>,
    mid: Binary64,
    range: Option<(Binary64, Binary64)>,
    tick: Binary64,
    rule: Seq<char>,
    decision: PricingDecisionView<R>,
) -> OrderDashboardRowView {
    OrderDashboardRowView {
        order_id: order.id@,
        token_id: order.token_id@,
        market_title: shown(title, "Unknown Market"@),
        outcome_label: shown(outcome, "-"@),
        side: order.side,
        order_price: order.price,
        size: order.remaining_size,
        mid_price: Some(mid),
        reward_range_lo: match range {
            Some((lo, _)) => Some(lo),
            None => None,
        },
        reward_range_hi: match range {
            Some((_, hi)) => Some(hi),
            None => None,
        },
        reward_tick_size: Some(tick),
        pricing_mode: decision.mode.name(),
        pricing_rule: rule,
        tick_regime: decision.regime.name(),
        last_decision_reason: decision.reason,
        last_candidate_levels: decision.candidate_prices,
    }
}

pub fn decided_row<R>(
    order: &Order,
    title: &String,
    outcome: &String,
    mid: Binary64,
    range: Option<(Binary64, Binary64)>,
    tick: Binary64,
    rule: String,
    decision: &PricingDecision<R>,
) -> (row: OrderDashboardRow)
    ensures
        row@ == decided_row_of(*order, title@, outcome@, mid, range, tick, rule@, decision@),
{
    let (lo, hi) = match range {
        Some((lo, hi)) => (Some(lo), Some(hi)),
        None => (None, None),
    };
    let row = OrderDashboardRow {
        order_id: order.id.clone(),
        token_id: order.token_id.clone(),
        market_title: show(title, "Unknown Market"),
        outcome_label: show(outcome, "-"),
        side: order.side,
        order_price: order.price,
        size: order.remaining_size,
        mid_price: Some(mid),
        reward_range_lo: lo,
        reward_range_hi: hi,
        reward_tick_size: Some(tick),
        pricing_mode: decision.mode.label().to_owned(),
        pricing_rule: rule,
        tick_regime: decision.regime.label().to_owned(),
        last_decision_reason: decision.reason.clone(),
        last_candidate_levels: decision.candidate_prices.clone(),
    };
    assert(row@.last_candidate_levels =~= decision@.candidate_prices);
    row
}

} // verus!
