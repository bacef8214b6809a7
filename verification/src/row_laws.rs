use crate::binary64::Binary64;
use crate::decision::{
    cooled, custom_applies, custom_summary, fail_closed, requests, DecisionAction,
    ExecutionRequest, PricingDecisionView, PricingMode,
};
use crate::orders::{Order, Side};
use crate::quoting::band_of;
use crate::regime::{regime_of, TickRegime};
use crate::rewards::RewardMarket;
use crate::rows::{
    decided_row_of, found_texts, labels_of, provisional_row_of, shown, title_missing,
    OrderDashboardRow,
};
use crate::spreads::{spread_from, spread_in};
use crate::text::white_space;
use crate::text_laws::lemma_blank_is_white_throughout;
use vstd::prelude::*;

verus! {

/// The text is white space throughout.
pub open spec fn says_nothing(text: Seq<char>) -> bool {
    forall|i: int| 0 <= i < text.len() ==> white_space(#[trigger] text[i])
}

/// A title is missing where it is not there, says nothing, or says that it is unknown.
pub proof fn lemma_title_is_missing(order: Order)
    ensures
        order.market_title is None ==> title_missing(order),
        order.market_title matches Some(title) ==> (title_missing(order) <==> says_nothing(title@)
            || title@ == "Unknown Market"@),
{
    lemma_blank_is_white_throughout(Seq::empty());
    if let Some(title) = order.market_title {
        lemma_blank_is_white_throughout(title@);
    }
}

/// What a lookup finds counts only for an order whose title is missing, and only as far as it says
/// something; otherwise the order's own texts stand, and none is the empty text.
pub proof fn lemma_own_labels_stand_unless_missing(
    order: Order,
    question: Seq<char>,
    outcome: Seq<char>,
)
    ensures
        ({
            let title = match order.market_title {
                Some(title) => title@,
                None => Seq::<char>::empty(),
            };
            let name = match order.outcome {
                Some(name) => name@,
                None => Seq::<char>::empty(),
            };
            let labels = labels_of(order, Some((question, outcome)));
            &&& labels_of(order, None) == (title, name)
            &&& !title_missing(order) ==> labels == (title, name)
            &&& title_missing(order) && !says_nothing(question) ==> labels.0 == question
            &&& title_missing(order) && says_nothing(question) ==> labels.0 == title
            &&& title_missing(order) && !says_nothing(outcome) ==> labels.1 == outcome
            &&& title_missing(order) && says_nothing(outcome) ==> labels.1 == name
        }),
{
    lemma_blank_is_white_throughout(question);
    lemma_blank_is_white_throughout(outcome);
}

/// A text that says nothing is shown as another; any other is shown as it is.
pub proof fn lemma_shown_as_it_is(text: Seq<char>, otherwise: Seq<char>)
    ensures
        says_nothing(text) ==> shown(text, otherwise) == otherwise,
        !says_nothing(text) ==> shown(text, otherwise) == text,
{
    lemma_blank_is_white_throughout(text);
}

/// The models of a row, of what a lookup found and of a market have all that these have.
pub proof fn lemma_models_are_whole(
    row: OrderDashboardRow,
    question: String,
    outcome: String,
    market: RewardMarket,
)
    ensures
        row@.order_id == row.order_id@,
        row@.token_id == row.token_id@,
        row@.market_title == row.market_title@,
        row@.outcome_label == row.outcome_label@,
        row@.side == row.side,
        row@.order_price == row.order_price,
        row@.size == row.size,
        row@.mid_price == row.mid_price,
        row@.reward_range_lo == row.reward_range_lo,
        row@.reward_range_hi == row.reward_range_hi,
        row@.reward_tick_size == row.reward_tick_size,
        row@.pricing_mode == row.pricing_mode@,
        row@.pricing_rule == row.pricing_rule@,
        row@.tick_regime == row.tick_regime@,
        row@.last_decision_reason == row.last_decision_reason@,
        row@.last_candidate_levels == row.last_candidate_levels@,
        found_texts(Some((question, outcome))) == Some((question@, outcome@)),
        found_texts(None) is None,
        market@.condition_id == market.condition_id@,
        market@.rewards_max_spread_cents == market.rewards_max_spread_cents,
        market@.rewards_min_size == market.rewards_min_size,
        market@.daily_rate == market.daily_rate,
{
}

/// A provisional row shows the order as it is, the midpoint and the tick size as they are known,
/// and the band where a midpoint and a spread are known, the midpoint at its end to buy and at its
/// beginning to sell.
pub proof fn lemma_provisional_row_shows_the_order(
    order: Order,
    title: Seq<char>,
    outcome: Seq<char>,
    mid: Option<Binary64>,
    tick: Option<Binary64>,
    spread: Option<Binary64>,
)
    ensures
        ({
            let row = provisional_row_of(order, title, outcome, mid, tick, spread);
            &&& row.order_id == order.id@
            &&& row.token_id == order.token_id@
            &&& row.side == order.side
            &&& row.order_price == order.price
            &&& row.size == order.remaining_size
            &&& row.mid_price == mid
            &&& row.reward_tick_size == tick
            &&& !says_nothing(title) ==> row.market_title == title
            &&& says_nothing(title) ==> row.market_title == "Unknown Market"@
            &&& !says_nothing(outcome) ==> row.outcome_label == outcome
            &&& says_nothing(outcome) ==> row.outcome_label == "-"@
            &&& mid is None || spread is None ==> row.reward_range_lo is None
                && row.reward_range_hi is None
            &&& mid is Some && spread is Some ==> row.reward_range_lo == Some(
                band_of(order.side, mid->0, spread->0).0,
            ) && row.reward_range_hi == Some(band_of(order.side, mid->0, spread->0).1)
            &&& mid is Some && spread is Some && order.side == Side::Buy ==> row.reward_range_hi
                == mid
            &&& mid is Some && spread is Some && order.side == Side::Sell ==> row.reward_range_lo
                == mid
            &&& tick is Some ==> row.tick_regime == regime_of(tick->0).name()
            &&& tick is None ==> row.tick_regime == "pending"@
            &&& spread is Some ==> row.last_decision_reason == "waiting_for_orderbook"@
            &&& spread is None ==> row.last_decision_reason == "reward_unavailable_fail_closed"@
            &&& row.pricing_mode == "provisional"@
            &&& row.pricing_rule == "provisional(midpoint+tick fallback)"@
            &&& row.last_candidate_levels.len() == 0
        }),
{
    lemma_shown_as_it_is(title, "Unknown Market"@);
    lemma_shown_as_it_is(outcome, "-"@);
}

/// A row after a decision shows the order as it is, what it was priced by, and the decision.
pub proof fn lemma_decided_row_shows_the_decision<R>(
    order: Order,
    title: Seq<char>,
    outcome: Seq<char>,
    mid: Binary64,
    range: Option<(Binary64, Binary64)>,
    tick: Binary64,
    rule: Seq<char>,
    decision: PricingDecisionView<R>,
)
    ensures
        ({
            let row = decided_row_of(order, title, outcome, mid, range, tick, rule, decision);
            &&& row.order_id == order.id@
            &&& row.token_id == order.token_id@
            &&& row.side == order.side
            &&& row.order_price == order.price
            &&& row.size == order.remaining_size
            &&& row.mid_price == Some(mid)
            &&& row.reward_tick_size == Some(tick)
            &&& range matches Some((lo, hi)) ==> row.reward_range_lo == Some(lo)
                && row.reward_range_hi == Some(hi)
            &&& range is None ==> row.reward_range_lo is None && row.reward_range_hi is None
            &&& !says_nothing(title) ==> row.market_title == title
            &&& says_nothing(title) ==> row.market_title == "Unknown Market"@
            &&& !says_nothing(outcome) ==> row.outcome_label == outcome
            &&& says_nothing(outcome) ==> row.outcome_label == "-"@
            &&& row.pricing_rule == rule
            &&& row.last_decision_reason == decision.reason
            &&& row.last_candidate_levels == decision.candidate_prices
            &&& decision.mode == PricingMode::Default ==> row.pricing_mode == "default"@
            &&& decision.mode == PricingMode::Custom ==> row.pricing_mode == "custom"@
            &&& decision.regime == TickRegime::Coarse ==> row.tick_regime == "coarse"@
            &&& decision.regime == TickRegime::Fine ==> row.tick_regime == "fine"@
            &&& decision.regime == TickRegime::Unsupported ==> row.tick_regime == "unsupported"@
        }),
{
    lemma_shown_as_it_is(title, "Unknown Market"@);
    lemma_shown_as_it_is(outcome, "-"@);
}

/// A request carries the order and the decision about it, whole.
pub proof fn lemma_request_carries_order_and_decision<R>(
    request: ExecutionRequest<R>,
    order: Order,
    decision: PricingDecisionView<R>,
)
    requires
        requests(request, order, decision),
    ensures
        request.order_id@ == order.id@,
        request.token_id@ == order.token_id@,
        request.side == order.side,
        request.old_price == order.price,
        request.size == order.remaining_size,
        request.decision.action == decision.action,
        request.decision.reason@ == decision.reason,
        request.decision.mode == decision.mode,
        request.decision.regime == decision.regime,
        request.decision.candidate_prices@ == decision.candidate_prices,
        request.decision.chosen_target == decision.chosen_target,
        request.decision.risk_overlay == decision.risk_overlay,
{
}

/// Without a reward the one thing decided is to cancel.
pub proof fn lemma_fail_closed_cancels<R>(request: ExecutionRequest<R>, order: Order)
    requires
        requests(request, order, fail_closed()),
    ensures
        request.decision.action == DecisionAction::Cancel,
        request.order_id@ == order.id@,
        request.decision.candidate_prices@.len() == 0,
        request.decision.chosen_target is None,
        request.decision.risk_overlay is None,
{
}

/// A cooldown turns a replacement into a keep: after a fill with a reason that goes on from the
/// one to replace, after a version mismatch alone with one that takes its place. Without a
/// cooldown, and of any other action, nothing changes.
pub proof fn lemma_cooldown_keeps_with_its_reason<R>(
    d: PricingDecisionView<R>,
    recently_filled: bool,
    version_mismatch: bool,
)
    ensures
        ({
            let e = cooled(d, recently_filled, version_mismatch);
            let replaces = d.action is Replace;
            &&& replaces && (recently_filled || version_mismatch) ==> e.action
                == DecisionAction::Keep
            &&& replaces && recently_filled ==> e.reason.take(d.reason.len() as int) == d.reason
                && e.reason.skip(d.reason.len() as int) == "_recent_fill_cooldown"@
            &&& replaces && !recently_filled && version_mismatch ==> e.reason
                == "order_version_mismatch_cooldown"@
            &&& !replaces || !(recently_filled || version_mismatch) ==> e == d
        }),
{
    let e = cooled(d, recently_filled, version_mismatch);
    if d.action is Replace && recently_filled {
        assert(e.reason.take(d.reason.len() as int) =~= d.reason);
        assert(e.reason.skip(d.reason.len() as int) =~= "_recent_fill_cooldown"@);
    }
}

/// Custom settings apply for any one of three causes, and for nothing else.
pub proof fn lemma_custom_needs_a_cause(
    has_rule: bool,
    custom_by_default: bool,
    ids: Seq<String>,
    order_id: Seq<char>,
)
    ensures
        custom_applies(true, custom_by_default, ids, order_id),
        custom_applies(has_rule, true, ids, order_id),
        custom_applies(false, false, ids, order_id) <==> exists|i: int|
            0 <= i < ids.len() && (#[trigger] ids[i])@ == order_id,
        !has_rule && !custom_by_default ==> custom_applies(
            has_rule,
            custom_by_default,
            ids,
            order_id,
        ) == custom_applies(false, false, ids, order_id),
{
}

/// The text of the custom settings gives each of them, in its place.
pub proof fn lemma_summary_gives_every_setting(
    offset: Seq<char>,
    allow_top: bool,
    least: Seq<char>,
    safe_min: Seq<char>,
    safe_max: Seq<char>,
    target: Seq<char>,
)
    ensures
        ({
            let text = custom_summary(offset, allow_top, least, safe_min, safe_max, target);
            let a = 16 + offset.len() as int;
            let b = a + 11 + if allow_top { 4int } else { 5int };
            let c = b + 11 + least.len();
            let d = c + 7 + safe_min.len();
            let e = d + 1 + safe_max.len();
            &&& text.len() == e + 9 + target.len()
            &&& text.subrange(0, 16) == "custom coarse_n="@
            &&& text.subrange(16, a) == offset
            &&& text.subrange(a, a + 11) == " allow_top="@
            &&& allow_top ==> text.subrange(a + 11, b) == "true"@
            &&& !allow_top ==> text.subrange(a + 11, b) == "false"@
            &&& text.subrange(b, b + 11) == " min_cands="@
            &&& text.subrange(b + 11, c) == least
            &&& text.subrange(c, c + 7) == " safe=["@
            &&& text.subrange(c + 7, d) == safe_min
            &&& text.subrange(d, d + 1) == ","@
            &&& text.subrange(d + 1, e) == safe_max
            &&& text.subrange(e, e + 9) == "] target="@
            &&& text.subrange(e + 9, e + 9 + target.len()) == target
        }),
{
    reveal_strlit("custom coarse_n=");
    reveal_strlit(" allow_top=");
    reveal_strlit("true");
    reveal_strlit("false");
    reveal_strlit(" min_cands=");
    reveal_strlit(" safe=[");
    reveal_strlit(",");
    reveal_strlit("] target=");
    let text = custom_summary(offset, allow_top, least, safe_min, safe_max, target);
    let flag = if allow_top { "true"@ } else { "false"@ };
    let a = 16 + offset.len() as int;
    let b = a + 11 + flag.len() as int;
    let c = b + 11 + least.len() as int;
    let d = c + 7 + safe_min.len() as int;
    let e = d + 1 + safe_max.len() as int;
    assert(text.subrange(0, 16) =~= "custom coarse_n="@);
    assert(text.subrange(16, a) =~= offset);
    assert(text.subrange(a, a + 11) =~= " allow_top="@);
    assert(text.subrange(a + 11, b) =~= flag);
    assert(text.subrange(b, b + 11) =~= " min_cands="@);
    assert(text.subrange(b + 11, c) =~= least);
    assert(text.subrange(c, c + 7) =~= " safe=["@);
    assert(text.subrange(c + 7, d) =~= safe_min);
    assert(text.subrange(d, d + 1) =~= ","@);
    assert(text.subrange(d + 1, e) =~= safe_max);
    assert(text.subrange(e, e + 9) =~= "] target="@);
    assert(text.subrange(e + 9, e + 9 + target.len()) =~= target);
}

/// What a lookup gives is what is known of the market afterwards; a market that was not looked up
/// has no spread.
pub proof fn lemma_lookup_is_taken_down(
    found: Map<Seq<char>, Option<Binary64>>,
    condition_id: Seq<char>,
    spread: Option<Binary64>,
)
    ensures
        spread_in(found.insert(condition_id, spread_from(Ok(spread))), condition_id) == spread,
        !found.contains_key(condition_id) ==> spread_in(found, condition_id) is None,
        found.contains_key(condition_id) ==> spread_in(found, condition_id) == found[condition_id],
{
}

} // verus!
