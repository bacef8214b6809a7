use crate::binary64::{
    clamped_to_zero, difference, product, sum, Binary64, HUNDREDTH, ONE, TRILLIONTH,
};
use crate::decision::{
    apply_cooldowns, cancel_without_reward, request_for, rule_summary, settings_or_default,
    uses_custom, DecisionAction, ExecutionRequest, PricingDecision, PricingMode,
};
use crate::discovery::{
    lemma_free_outcomes_have_no_order, markets_to_scan, outcomes_to_quote, quote_input, QuoteInput,
};
use crate::engine::Book;
use crate::feeds::{follow_step, FollowStep};
use crate::http_status::is_success;
use crate::number_laws::{apart, lemma_product_is_closest, lemma_sum_is_closest};
use crate::order_laws::{
    lemma_all_outcomes_are_quoted_where_none_is_taken, lemma_capital_covers_every_order,
    lemma_capital_depends_on_prices_and_sizes, lemma_every_order_counts,
    lemma_one_order_binds_its_product, lemma_open_outcome_is_quoted,
    lemma_open_outcomes_are_all_there,
};
use crate::orders::{
    committed_capital, contains_text, has_condition, has_token, lemma_ascending_lists_once, lists,
    sorted_set, subscribed_tokens, traded_conditions, Order, Side,
};
use crate::quote_laws::{
    lemma_band_is_more_than_the_midpoint, lemma_band_is_the_same_everywhere,
    lemma_bands_follow_the_midpoint, lemma_clipped_range_lies_in_the_band,
    lemma_levels_in_the_band_are_spanned,
};
use crate::quoting::{clip_to_levels, reward_band, Level};
use crate::ranking_laws::{
    lemma_list_ranks_the_rows, lemma_usable_row_is_in_the_list,
    lemma_usable_row_stands_for_its_market,
};
use crate::regime::{classify_tick_regime, classify_tick_regime_label, regime_of, TickRegime};
use crate::regime_laws::lemma_regimes_have_their_names;
use crate::rewards::{
    failure_message, markets_of, parse_current_markets, parse_market_detail, reward_delta,
    MarketDetailResponse, RewardMarket, RewardMarketDetail, RewardMarketView, RewardRange,
    RewardToken, RewardsClient, RewardsError, RewardsRequest, RewardsResponse, RewardsRow,
};
use crate::row_laws::{
    lemma_cooldown_keeps_with_its_reason, lemma_own_labels_stand_unless_missing,
    lemma_shown_as_it_is, lemma_summary_gives_every_setting, lemma_title_is_missing, says_nothing,
};
use crate::rows::{
    decided_row, found_texts, needs_title, provisional_row, resolve_labels, OrderDashboardRow,
};
use crate::startup::{
    choose_interface, lowered, normalize_auto_mode, normalized, resolve_auto_mode, AutoMode,
    UserInterface,
};
use crate::text::{
    is_blank, is_text, lemma_before_irreflexive, lemma_before_total, lemma_before_transitive,
    precedes, trim, trimmed, white_space,
};
use crate::text_laws::{
    lemma_blank_is_white_throughout, lemma_interface_follows_its_switches,
    lemma_modes_are_told_apart, lemma_trimmed_is_the_middle,
};
use vstd::arithmetic::power2::pow2;
use vstd::prelude::*;

verus! {

/// A call of `reward_band` gives the midpoint and the midpoint less, or plus, a hundredth of the
/// spread, whatever the midpoint; a spread that is no number or not above zero counts as zero.
pub proof fn lemma_reward_band_call(
    side: Side,
    mid: Binary64,
    spread: Binary64,
    band: (Binary64, Binary64),
)
    requires
        call_ensures(reward_band, (side, mid, spread), band),
    ensures
        ({
            let cent = Binary64 { bits: HUNDREDTH };
            let reach = if !spread.nan() && spread.value() > 0 {
                product(spread, cent)
            } else {
                product(Binary64 { bits: 0 }, cent)
            };
            &&& side == Side::Buy ==> band == (difference(mid, reach), mid)
            &&& side == Side::Sell ==> band == (mid, sum(mid, reach))
        }),
        !mid.nan() && 0 < mid.value() <= (Binary64 { bits: ONE }).value() && (Binary64 {
            bits: ONE,
        }).not_above(spread) ==> (side == Side::Buy ==> band.0.below(mid)) && (side == Side::Sell
            ==> mid.below(band.1)),
{
    lemma_band_is_the_same_everywhere(mid, spread);
    if !mid.nan() && 0 < mid.value() <= (Binary64 { bits: ONE }).value() && (Binary64 {
        bits: ONE,
    }).not_above(spread) {
        lemma_band_is_more_than_the_midpoint(mid, spread);
    }
}

/// Two calls of `reward_band` for one spread keep the order of the midpoints.
pub proof fn lemma_reward_band_calls_in_order(
    side: Side,
    low: Binary64,
    high: Binary64,
    spread: Binary64,
    low_band: (Binary64, Binary64),
    high_band: (Binary64, Binary64),
)
    requires
        call_ensures(reward_band, (side, low, spread), low_band),
        call_ensures(reward_band, (side, high, spread), high_band),
        low.finite(),
        high.finite(),
        low.not_above(high),
        reward_delta(spread).finite(),
    ensures
        low_band.0.not_above(high_band.0),
        low_band.1.not_above(high_band.1),
{
    lemma_bands_follow_the_midpoint(low, high, spread);
}

/// A call of `RewardsClient::reward_range` keeps the midpoint and gives a hundredth of the spread.
pub proof fn lemma_reward_range_call(mid: Binary64, spread: Binary64, range: RewardRange)
    requires
        call_ensures(RewardsClient::reward_range, (mid, spread), range),
    ensures
        range.mid == mid,
        !spread.nan() && spread.value() > 0 ==> range.delta == product(
            spread,
            Binary64 { bits: HUNDREDTH },
        ),
        spread.nan() || spread.value() <= 0 ==> range.delta == product(
            Binary64 { bits: 0 },
            Binary64 { bits: HUNDREDTH },
        ),
{
    lemma_band_is_the_same_everywhere(mid, spread);
}

/// A call of `clip_to_levels` spans every level in the band that has something on it, and ends at
/// such levels.
pub proof fn lemma_clip_to_levels_call(
    levels: Vec<Level>,
    lo: Binary64,
    hi: Binary64,
    range: Option<(Binary64, Binary64)>,
    i: int,
)
    requires
        call_ensures(clip_to_levels, (&levels, lo, hi), range),
        lo.finite(),
        hi.finite(),
        0 <= i < levels@.len(),
    ensures
        !levels@[i].size.nan() && levels@[i].size.value() > 0 && !levels@[i].price.nan()
            && lo.value() - (Binary64 { bits: TRILLIONTH }).value() <= levels@[i].price.value()
            <= hi.value() + (Binary64 { bits: TRILLIONTH }).value() ==> range is Some && (
        range->0).0.value() <= levels@[i].price.value() <= (range->0).1.value(),
        range is Some ==> exists|k: int|
            0 <= k < levels@.len() && (#[trigger] levels@[k]).price == (range->0).0
                && levels@[k].size.value() > 0,
        range is Some ==> exists|k: int|
            0 <= k < levels@.len() && (#[trigger] levels@[k]).price == (range->0).1
                && levels@[k].size.value() > 0,
{
    let level = levels@[i];
    if !level.size.nan() && level.size.value() > 0 && !level.price.nan() && lo.value() - (
    Binary64 { bits: TRILLIONTH }).value() <= level.price.value() <= hi.value() + (Binary64 {
        bits: TRILLIONTH,
    }).value() {
        lemma_levels_in_the_band_are_spanned(levels@, lo, hi, range, i);
    }
    if range is Some {
        lemma_clipped_range_lies_in_the_band(levels@, lo, hi, range->0, lo);
    }
}

/// Two calls of `committed_capital` for orders with the same prices and sizes agree, whatever the
/// sides.
pub proof fn lemma_committed_capital_calls_agree(
    a: Vec<Order>,
    b: Vec<Order>,
    total_a: Binary64,
    total_b: Binary64,
)
    requires
        call_ensures(committed_capital, (&a,), total_a),
        call_ensures(committed_capital, (&b,), total_b),
        a@.len() == b@.len(),
        forall|i: int|
            0 <= i < a@.len() ==> (#[trigger] a@[i]).price == b@[i].price && a@[i].remaining_size
                == b@[i].remaining_size,
    ensures
        total_a == total_b,
{
    lemma_capital_depends_on_prices_and_sizes(a@, b@);
}

/// With an order more, a call of `committed_capital` gives the sum of what it gave and of what the
/// order binds; and what it gives covers every order.
pub proof fn lemma_committed_capital_calls_add_up(
    fewer: Vec<Order>,
    more: Vec<Order>,
    order: Order,
    total: Binary64,
    grown: Binary64,
)
    requires
        call_ensures(committed_capital, (&fewer,), total),
        call_ensures(committed_capital, (&more,), grown),
        more@ == fewer@.push(order),
    ensures
        grown == sum(total, clamped_to_zero(product(order.price, order.remaining_size))),
        fewer@.len() == 0 && !product(order.price, order.remaining_size).nan() && product(
            order.price,
            order.remaining_size,
        ).value() > 0 ==> grown == product(order.price, order.remaining_size),
        forall|i: int|
            0 <= i < more@.len() && !product(
                (#[trigger] more@[i]).price,
                more@[i].remaining_size,
            ).nan() ==> product(more@[i].price, more@[i].remaining_size).value() <= grown.value(),
{
    lemma_every_order_counts(fewer@, order);
    if fewer@.len() == 0 && !product(order.price, order.remaining_size).nan() && product(
        order.price,
        order.remaining_size,
    ).value() > 0 {
        lemma_one_order_binds_its_product(order);
        assert(more@ =~= seq![order]);
    }
    assert forall|i: int|
        0 <= i < more@.len() && !product(
            (#[trigger] more@[i]).price,
            more@[i].remaining_size,
        ).nan() implies product(more@[i].price, more@[i].remaining_size).value()
        <= grown.value() by {
        lemma_capital_covers_every_order(more@, i);
    }
}

/// A call of `parse_current_markets` lists a usable row with its own numbers, the rate being the
/// total one or, without one, the native one; and what it lists, it lists with falling rates.
pub proof fn lemma_parse_current_markets_call(
    rows: Vec<RewardsRow>,
    result: Result<Vec<RewardMarket>, RewardsError>,
    at: int,
    id: String,
    spread: Binary64,
    size: Binary64,
    rate: Binary64,
)
    requires
        call_ensures(
            parse_current_markets,
            (Ok::<RewardsResponse, String>(RewardsResponse { data: Some(rows) }),),
            result,
        ),
        0 <= at < rows@.len(),
        rows@[at].condition_id == Some(id),
        exists|i: int| 0 <= i < id@.len() && !white_space(#[trigger] id@[i]),
        rows@[at].rewards_max_spread == Some(spread),
        rows@[at].rewards_min_size == Some(size),
        rows@[at].total_daily_rate == Some(rate) || (rows@[at].total_daily_rate is None
            && rows@[at].native_daily_rate == Some(rate)),
        spread.finite() && spread.value() > 0,
        size.finite() && size.value() > 0,
        rate.finite() && rate.value() > 0,
    ensures
        result is Ok,
        exists|k: int|
            0 <= k < result->Ok_0@.len() && (
            #[trigger] result->Ok_0@[k]).rewards_max_spread_cents == spread
                && result->Ok_0@[k].rewards_min_size == size && result->Ok_0@[k].daily_rate == rate
                && result->Ok_0@[k].condition_id@ == trimmed(id@),
        forall|i: int, j: int|
            0 <= i <= j < result->Ok_0@.len() ==> (
            #[trigger] result->Ok_0@[i]).daily_rate.value() >= (
            #[trigger] result->Ok_0@[j]).daily_rate.value(),
{
    let response = RewardsResponse { data: Some(rows) };
    let list = result->Ok_0;
    lemma_usable_row_stands_for_its_market(rows@[at], id, spread, size, rate);
    let market = RewardMarketView {
        condition_id: trimmed(id@),
        rewards_max_spread_cents: spread,
        rewards_min_size: size,
        daily_rate: rate,
    };
    lemma_usable_row_is_in_the_list(response, rows, list, at, market);
    lemma_list_ranks_the_rows(response, rows@, list, rate);
}

/// A call of `parse_current_markets` on nothing lists nothing, and on a body that was not decoded
/// gives the cause.
pub proof fn lemma_parse_current_markets_call_on_nothing(
    cause: String,
    result: Result<Vec<RewardMarket>, RewardsError>,
    failure: Result<Vec<RewardMarket>, RewardsError>,
)
    requires
        call_ensures(
            parse_current_markets,
            (Ok::<RewardsResponse, String>(RewardsResponse { data: None }),),
            result,
        ),
        call_ensures(parse_current_markets, (Err::<RewardsResponse, String>(cause),), failure),
    ensures
        result is Ok && result->Ok_0@.len() == 0,
        failure == Err::<Vec<RewardMarket>, RewardsError>(RewardsError::Json(cause)),
{
    let list = result->Ok_0;
    let zero = Binary64 { bits: 0 };
    lemma_list_ranks_the_rows(RewardsResponse { data: None }, Seq::empty(), list, zero);
    let ranked = list@.map_values(
        |m: RewardMarket|
            RewardMarketView {
                condition_id: m.condition_id@,
                rewards_max_spread_cents: m.rewards_max_spread_cents,
                rewards_min_size: m.rewards_min_size,
                daily_rate: m.daily_rate,
            },
    );
    ranked.to_multiset_ensures();
    let none = markets_of(Seq::<RewardsRow>::empty());
    none.to_multiset_ensures();
}

/// A call of `parse_market_detail` gives the first row where that has a usable spread, a usable
/// size and a token, and otherwise an error.
pub proof fn lemma_parse_market_detail_call(
    response: MarketDetailResponse,
    result: Result<RewardMarketDetail, RewardsError>,
)
    requires
        call_ensures(
            parse_market_detail,
            (Ok::<MarketDetailResponse, String>(response),),
            result,
        ),
        response.data is Some,
        response.data->0@.len() > 0,
    ensures
        ({
            let row = response.data->0@[0];
            let spread = row.rewards_max_spread is Some && row.rewards_max_spread->0.finite()
                && row.rewards_max_spread->0.value() > 0;
            let size = row.rewards_min_size is Some && row.rewards_min_size->0.finite()
                && row.rewards_min_size->0.value() > 0;
            let tokens = row.tokens is Some && row.tokens->0@.len() > 0;
            &&& result is Ok <==> spread && size && tokens
            &&& result matches Ok(detail) ==> {
                &&& detail.condition_id@ == row.condition_id@
                &&& row.question is Some ==> detail.question@ == row.question->0@
                &&& row.question is None ==> detail.question@.len() == 0
                &&& detail.tokens@ == row.tokens->0@
                &&& row.rewards_max_spread == Some(detail.rewards_max_spread_cents)
                &&& row.rewards_min_size == Some(detail.rewards_min_size)
            }
            &&& !spread ==> result == Err::<RewardMarketDetail, RewardsError>(
                RewardsError::NoPositiveSpread,
            )
            &&& spread && !size ==> result == Err::<RewardMarketDetail, RewardsError>(
                RewardsError::NoPositiveMinimumSize,
            )
            &&& spread && size && !tokens ==> result == Err::<RewardMarketDetail, RewardsError>(
                RewardsError::NoTokens,
            )
        }),
{
}

/// A call of `outcomes_to_quote` gives every outcome that no order is on, and all of them where
/// there are no orders.
pub proof fn lemma_outcomes_to_quote_call(
    tokens: Vec<RewardToken>,
    orders: Vec<Order>,
    free: Vec<RewardToken>,
    at: int,
)
    requires
        call_ensures(outcomes_to_quote, (tokens, &orders), free),
        0 <= at < tokens@.len(),
    ensures
        orders@.len() == 0 ==> free@ == tokens@,
        (forall|i: int|
            0 <= i < orders@.len() ==> (#[trigger] orders@[i]).token_id@ != tokens@[at].token_id@)
            ==> free@.contains(tokens@[at]),
        forall|k: int, i: int|
            0 <= k < free@.len() && 0 <= i < orders@.len() ==> (#[trigger] free@[k]).token_id@ != (
            #[trigger] orders@[i]).token_id@,
{
    if orders@.len() == 0 {
        lemma_all_outcomes_are_quoted_where_none_is_taken(tokens@, orders@);
    }
    if forall|i: int|
        0 <= i < orders@.len() ==> (#[trigger] orders@[i]).token_id@ != tokens@[at].token_id@ {
        lemma_open_outcome_is_quoted(tokens@, orders@, at);
    }
    lemma_free_outcomes_have_no_order(tokens@, orders@);
    assert forall|k: int, i: int|
        0 <= k < free@.len() && 0 <= i < orders@.len() implies (#[trigger] free@[k]).token_id@ != (
    #[trigger] orders@[i]).token_id@ by {
        assert(!has_token(orders@, free@[k].token_id@));
    }
}

/// Calls of `outcomes_to_quote` on two lists and on the one behind the other agree, so that
/// nothing is left out, doubled or moved.
pub proof fn lemma_outcomes_to_quote_calls_add_up(
    a: Vec<RewardToken>,
    b: Vec<RewardToken>,
    both: Vec<RewardToken>,
    orders: Vec<Order>,
    free_a: Vec<RewardToken>,
    free_b: Vec<RewardToken>,
    free: Vec<RewardToken>,
)
    requires
        both@ == a@ + b@,
        call_ensures(outcomes_to_quote, (a, &orders), free_a),
        call_ensures(outcomes_to_quote, (b, &orders), free_b),
        call_ensures(outcomes_to_quote, (both, &orders), free),
    ensures
        free@ == free_a@ + free_b@,
{
    let any = RewardToken { token_id: arbitrary(), outcome: arbitrary(), price: None };
    lemma_open_outcomes_are_all_there(a@, b@, any, orders@);
}

/// A call of `quote_input` gives the market's numbers, with the midpoint of the book, the listed
/// price or the one fetched, and the tick size of the book or the one fetched, in this order.
pub proof fn lemma_quote_input_call(
    market: RewardMarket,
    token: RewardToken,
    book: Option<&Book>,
    fetched_mid: Option<Binary64>,
    fetched_tick: Option<Binary64>,
    input: Option<QuoteInput>,
)
    requires
        call_ensures(quote_input, (&market, &token, book, fetched_mid, fetched_tick), input),
    ensures
        ({
            let book_mid = if book is Some { (book->0).mid } else { None };
            let mid = book_mid is Some || token.price is Some || fetched_mid is Some;
            let tick = book is Some || fetched_tick is Some;
            &&& input is Some <==> mid && tick
            &&& input matches Some(i) ==> {
                &&& book_mid is Some ==> i.midpoint == book_mid->0
                &&& book_mid is None && token.price is Some ==> i.midpoint == token.price->0
                &&& book_mid is None && token.price is None ==> i.midpoint == fetched_mid->0
                &&& book is Some ==> i.tick_size == (book->0).tick_size
                &&& book is None ==> i.tick_size == fetched_tick->0
                &&& i.condition_id@ == market.condition_id@
                &&& i.token_id@ == token.token_id@
                &&& i.rewards_max_spread_cents == market.rewards_max_spread_cents
                &&& i.rewards_min_size == market.rewards_min_size
                &&& i.daily_rate == market.daily_rate
            }
        }),
{
}

/// A call of `markets_to_scan` gives the first markets, as many as are wanted and one at least.
pub proof fn lemma_markets_to_scan_call(
    ranked: Vec<RewardMarket>,
    max_markets: usize,
    markets: Vec<RewardMarket>,
)
    requires
        call_ensures(markets_to_scan, (ranked, max_markets), markets),
    ensures
        max_markets >= ranked@.len() ==> markets@ == ranked@,
        1 <= max_markets < ranked@.len() ==> markets@ == ranked@.take(max_markets as int),
        max_markets == 0 && ranked@.len() > 0 ==> markets@ == ranked@.take(1),
{
    assert(ranked@.take(ranked@.len() as int) =~= ranked@);
}

/// A call of `apply_cooldowns` changes only replacements: into a keep, with the reason of the
/// cooldown.
pub proof fn lemma_apply_cooldowns_call<R>(
    decision: PricingDecision<R>,
    recently_filled: bool,
    version_mismatch: bool,
    d: PricingDecision<R>,
)
    requires
        call_ensures(apply_cooldowns::<R>, (decision, recently_filled, version_mismatch), d),
    ensures
        ({
            let touched = decision.action is Replace && (recently_filled || version_mismatch);
            &&& touched ==> d.action == DecisionAction::Keep
            &&& !touched ==> d.action == decision.action && d.reason@ == decision.reason@
            &&& touched && recently_filled ==> d.reason@ == decision.reason@
                + "_recent_fill_cooldown"@
            &&& touched && !recently_filled ==> d.reason@ == "order_version_mismatch_cooldown"@
            &&& d.mode == decision.mode
            &&& d.regime == decision.regime
            &&& d.candidate_prices@ == decision.candidate_prices@
            &&& d.chosen_target == decision.chosen_target
            &&& d.risk_overlay == decision.risk_overlay
        }),
{
    assert(d@.reason == d.reason@ && decision@.reason == decision.reason@);
    lemma_cooldown_keeps_with_its_reason(decision@, recently_filled, version_mismatch);
}

/// A call of `cancel_without_reward` decides to cancel, and nothing else.
pub proof fn lemma_cancel_without_reward_call<R>(d: PricingDecision<R>)
    requires
        call_ensures(cancel_without_reward::<R>, (), d),
    ensures
        d.action == DecisionAction::Cancel,
        d.reason@ == "reward_unavailable_fail_closed"@,
        d.mode == PricingMode::Default,
        d.regime == TickRegime::Unsupported,
        d.candidate_prices@.len() == 0,
        d.chosen_target is None,
        d.risk_overlay is None,
{
    assert(d@.reason == d.reason@ && d@.candidate_prices == d.candidate_prices@);
}

/// A call of `request_for` carries the order and the decision.
pub proof fn lemma_request_for_call<R>(
    order: Order,
    decision: PricingDecision<R>,
    request: ExecutionRequest<R>,
)
    requires
        call_ensures(request_for::<R>, (&order, decision), request),
    ensures
        request.order_id@ == order.id@,
        request.token_id@ == order.token_id@,
        request.side == order.side,
        request.old_price == order.price,
        request.size == order.remaining_size,
        request.decision.action == decision.action,
        request.decision.reason@ == decision.reason@,
        request.decision.chosen_target == decision.chosen_target,
        request.decision.risk_overlay == decision.risk_overlay,
        request.decision.candidate_prices@ == decision.candidate_prices@,
        request.decision.mode == decision.mode,
        request.decision.regime == decision.regime,
{
    assert(request.decision@ == decision@);
    assert(request.decision@.reason == request.decision.reason@);
}

/// Calls of `uses_custom` and `settings_or_default`: any of three causes makes custom settings
/// apply, and the settings of a rule come before the default ones.
pub proof fn lemma_custom_settings_calls<S>(
    has_rule: bool,
    custom_by_default: bool,
    ids: Vec<String>,
    order_id: String,
    applies: bool,
    rule: Option<S>,
    default: S,
    settings: S,
)
    requires
        call_ensures(uses_custom, (has_rule, custom_by_default, &ids, &order_id), applies),
        call_ensures(settings_or_default::<S>, (rule, default), settings),
    ensures
        applies <==> has_rule || custom_by_default || exists|i: int|
            0 <= i < ids@.len() && (#[trigger] ids@[i])@ == order_id@,
        rule is Some ==> settings == rule->0,
        rule is None ==> settings == default,
{
}

/// A call of `rule_summary` gives every custom setting in its place, and one text for the default
/// rule.
pub proof fn lemma_rule_summary_call(
    custom: bool,
    offset: &str,
    allow_top: bool,
    least: &str,
    safe_min: &str,
    safe_max: &str,
    target: &str,
    text: String,
)
    requires
        call_ensures(
            rule_summary,
            (custom, offset, allow_top, least, safe_min, safe_max, target),
            text,
        ),
    ensures
        !custom ==> text@ == "default(simple coarse/fine)"@,
        custom ==> ({
            let a = 16 + offset@.len() as int;
            let b = a + 11 + if allow_top { 4int } else { 5int };
            let c = b + 11 + least@.len();
            let d = c + 7 + safe_min@.len();
            let e = d + 1 + safe_max@.len();
            &&& text@.len() == e + 9 + target@.len()
            &&& text@.subrange(16, a) == offset@
            &&& text@.subrange(b + 11, c) == least@
            &&& text@.subrange(c + 7, d) == safe_min@
            &&& text@.subrange(d + 1, e) == safe_max@
            &&& text@.subrange(e + 9, e + 9 + target@.len()) == target@
        }),
{
    lemma_summary_gives_every_setting(
        offset@,
        allow_top,
        least@,
        safe_min@,
        safe_max@,
        target@,
    );
}

/// A call of `follow_step` waits two seconds after a failure, one without anything to follow, and
/// otherwise connects.
pub proof fn lemma_follow_step_call(followed: usize, failed: bool, step: FollowStep)
    requires
        call_ensures(follow_step, (followed, failed), step),
    ensures
        failed ==> step == FollowStep::Pause(2000),
        !failed && followed == 0 ==> step == FollowStep::Pause(1000),
        !failed && followed > 0 ==> step == FollowStep::Connect,
{
}

/// Calls of `is_success` and `failure_message`.
pub proof fn lemma_status_calls(
    code: u16,
    success: bool,
    request: RewardsRequest,
    status: &str,
    text: String,
)
    requires
        call_ensures(is_success, (code,), success),
        call_ensures(failure_message, (request, status), text),
    ensures
        success <==> code / 100 == 2,
        request == RewardsRequest::CurrentMarkets ==> text@
            == "current reward markets failed status="@ + status@,
        request == RewardsRequest::MarketDetail ==> text@ == "reward market detail failed status="@
            + status@,
        request == RewardsRequest::SpreadLookup ==> text@ == "reward market lookup failed status="@
            + status@,
{
}

/// Calls of `subscribed_tokens` and `traded_conditions` give what the orders have, and calls of
/// `sorted_set` and `contains_text` what a list has, and nothing else.
pub proof fn lemma_listing_calls(
    orders: Vec<Order>,
    tokens: Vec<String>,
    conditions: Vec<String>,
    list: Vec<String>,
    set: Vec<String>,
    text: String,
    found: bool,
)
    requires
        call_ensures(subscribed_tokens, (&orders,), tokens),
        call_ensures(traded_conditions, (&orders,), conditions),
        call_ensures(sorted_set, (&list,), set),
        call_ensures(contains_text, (&list, &text), found),
    ensures
        (exists|k: int| 0 <= k < tokens@.len() && (#[trigger] tokens@[k])@ == text@) <==> (exists|
            i: int,
        |
            0 <= i < orders@.len() && (#[trigger] orders@[i]).token_id@ == text@),
        (exists|k: int| 0 <= k < conditions@.len() && (#[trigger] conditions@[k])@ == text@)
            <==> (exists|i: int|
            0 <= i < orders@.len() && (#[trigger] orders@[i]).condition_id@ == text@),
        (exists|k: int| 0 <= k < set@.len() && (#[trigger] set@[k])@ == text@) <==> found,
        found <==> exists|k: int| 0 <= k < list@.len() && (#[trigger] list@[k])@ == text@,
        forall|i: int, j: int|
            0 <= i < j < tokens@.len() ==> (#[trigger] tokens@[i])@ != (#[trigger] tokens@[j])@,
        forall|i: int, j: int|
            0 <= i < j < conditions@.len() ==> (#[trigger] conditions@[i])@ != (
            #[trigger] conditions@[j])@,
{
    assert(lists(tokens@, text@) <==> has_token(orders@, text@));
    assert(lists(conditions@, text@) <==> has_condition(
        orders@,
        text@,
    ));
    assert(lists(set@, text@) <==> lists(list@, text@));
    assert forall|i: int, j: int| 0 <= i < j < tokens@.len() implies (#[trigger] tokens@[i])@ != (
    #[trigger] tokens@[j])@ by {
        if tokens@[i]@ == tokens@[j]@ {
            lemma_ascending_lists_once(tokens@, i, j);
        }
    }
    assert forall|i: int, j: int| 0 <= i < j < conditions@.len() implies (
    #[trigger] conditions@[i])@ != (#[trigger] conditions@[j])@ by {
        if conditions@[i]@ == conditions@[j]@ {
            lemma_ascending_lists_once(conditions@, i, j);
        }
    }
}

/// Calls of `needs_title` and `resolve_labels`: a title is looked up where it is not there, says
/// nothing or says that it is unknown, and only then does what was found count.
pub proof fn lemma_label_calls(
    order: Order,
    needed: bool,
    question: String,
    name: String,
    labels: (String, String),
    own: (String, String),
)
    requires
        call_ensures(needs_title, (&order,), needed),
        call_ensures(resolve_labels, (&order, Some((question, name))), labels),
        call_ensures(resolve_labels, (&order, None::<(String, String)>), own),
    ensures
        order.market_title is None ==> needed,
        order.market_title matches Some(t) ==> (needed <==> says_nothing(t@) || t@
            == "Unknown Market"@),
        order.market_title matches Some(t) ==> own.0@ == t@,
        order.market_title is None ==> own.0@.len() == 0,
        order.outcome matches Some(t) ==> own.1@ == t@,
        order.outcome is None ==> own.1@.len() == 0,
        !needed ==> labels.0@ == own.0@ && labels.1@ == own.1@,
        needed ==> labels.0@ == (if says_nothing(question@) {
            own.0@
        } else {
            question@
        }),
        needed ==> labels.1@ == (if says_nothing(name@) {
            own.1@
        } else {
            name@
        }),
{
    lemma_title_is_missing(order);
    lemma_own_labels_stand_unless_missing(order, question@, name@);
    assert(found_texts(Some((question, name))) == Some((question@, name@)));
}

/// A call of `provisional_row` shows the order, what is known of its market, and what it waits
/// for.
pub proof fn lemma_provisional_row_call(
    order: Order,
    title: String,
    outcome: String,
    mid: Option<Binary64>,
    tick: Option<Binary64>,
    spread: Option<Binary64>,
    row: OrderDashboardRow,
    band: (Binary64, Binary64),
)
    requires
        call_ensures(provisional_row, (&order, &title, &outcome, mid, tick, spread), row),
        mid is Some && spread is Some ==> call_ensures(
            reward_band,
            (order.side, mid->0, spread->0),
            band,
        ),
    ensures
        row.order_id@ == order.id@,
        row.token_id@ == order.token_id@,
        row.side == order.side,
        row.order_price == order.price,
        row.size == order.remaining_size,
        row.mid_price == mid,
        row.reward_tick_size == tick,
        row.market_title@ == (if says_nothing(title@) {
            "Unknown Market"@
        } else {
            title@
        }),
        row.outcome_label@ == (if says_nothing(outcome@) {
            "-"@
        } else {
            outcome@
        }),
        mid is Some && spread is Some ==> row.reward_range_lo == Some(band.0)
            && row.reward_range_hi == Some(band.1),
        mid is None || spread is None ==> row.reward_range_lo is None && row.reward_range_hi
            is None,
        spread is Some ==> row.last_decision_reason@ == "waiting_for_orderbook"@,
        spread is None ==> row.last_decision_reason@ == "reward_unavailable_fail_closed"@,
        tick is None ==> row.tick_regime@ == "pending"@,
        tick is Some ==> row.tick_regime@ == regime_of(tick->0).name(),
        row.pricing_mode@ == "provisional"@,
        row.pricing_rule@ == "provisional(midpoint+tick fallback)"@,
        row.last_candidate_levels@.len() == 0,
{
    lemma_shown_as_it_is(title@, "Unknown Market"@);
    lemma_shown_as_it_is(outcome@, "-"@);
    assert(row@.order_id == row.order_id@ && row@.token_id == row.token_id@);
    assert(row@.market_title == row.market_title@ && row@.outcome_label == row.outcome_label@);
    assert(row@.last_decision_reason == row.last_decision_reason@);
    assert(row@.tick_regime == row.tick_regime@ && row@.pricing_mode == row.pricing_mode@);
    assert(row@.pricing_rule == row.pricing_rule@);
    assert(row@.last_candidate_levels == row.last_candidate_levels@);
}

/// A call of `decided_row` shows the order, what it was priced by, and the decision.
pub proof fn lemma_decided_row_call<R>(
    order: Order,
    title: String,
    outcome: String,
    mid: Binary64,
    range: Option<(Binary64, Binary64)>,
    tick: Binary64,
    rule: String,
    decision: PricingDecision<R>,
    row: OrderDashboardRow,
)
    requires
        call_ensures(
            decided_row::<R>,
            (&order, &title, &outcome, mid, range, tick, rule, &decision),
            row,
        ),
    ensures
        row.order_id@ == order.id@,
        row.token_id@ == order.token_id@,
        row.side == order.side,
        row.order_price == order.price,
        row.size == order.remaining_size,
        row.mid_price == Some(mid),
        row.reward_tick_size == Some(tick),
        range matches Some((lo, hi)) ==> row.reward_range_lo == Some(lo) && row.reward_range_hi
            == Some(hi),
        range is None ==> row.reward_range_lo is None && row.reward_range_hi is None,
        row.market_title@ == (if says_nothing(title@) {
            "Unknown Market"@
        } else {
            title@
        }),
        row.outcome_label@ == (if says_nothing(outcome@) {
            "-"@
        } else {
            outcome@
        }),
        row.pricing_rule@ == rule@,
        row.last_decision_reason@ == decision.reason@,
        row.last_candidate_levels@ == decision.candidate_prices@,
        decision.mode == PricingMode::Default ==> row.pricing_mode@ == "default"@,
        decision.mode == PricingMode::Custom ==> row.pricing_mode@ == "custom"@,
        decision.regime == TickRegime::Coarse ==> row.tick_regime@ == "coarse"@,
        decision.regime == TickRegime::Fine ==> row.tick_regime@ == "fine"@,
        decision.regime == TickRegime::Unsupported ==> row.tick_regime@ == "unsupported"@,
{
    lemma_shown_as_it_is(title@, "Unknown Market"@);
    lemma_shown_as_it_is(outcome@, "-"@);
    assert(row@.order_id == row.order_id@ && row@.token_id == row.token_id@);
    assert(row@.market_title == row.market_title@ && row@.outcome_label == row.outcome_label@);
    assert(row@.last_decision_reason == row.last_decision_reason@);
    assert(row@.tick_regime == row.tick_regime@ && row@.pricing_mode == row.pricing_mode@);
    assert(row@.pricing_rule == row.pricing_rule@);
    assert(row@.last_candidate_levels == row.last_candidate_levels@);
}

/// Calls of `classify_tick_regime` and `classify_tick_regime_label` on one tick size agree.
pub proof fn lemma_tick_regime_calls_agree(tick: Binary64, regime: TickRegime, label: &str)
    requires
        call_ensures(classify_tick_regime, (tick,), regime),
        call_ensures(classify_tick_regime_label, (tick,), label),
    ensures
        regime == regime_of(tick),
        label@ == "coarse"@ <==> regime == TickRegime::Coarse,
        label@ == "fine"@ <==> regime == TickRegime::Fine,
        label@ == "unsupported"@ <==> regime == TickRegime::Unsupported,
{
    lemma_regimes_have_their_names(regime, regime);
}

/// Calls on texts: `trim` leaves the middle, `is_blank` tells where there is none, `is_text` tells
/// whether two texts are one, and of two that are not, `precedes` holds one way round.
pub proof fn lemma_text_calls(
    s: &str,
    cut: String,
    nothing: bool,
    t: &str,
    same: bool,
    first: bool,
    last: bool,
)
    requires
        call_ensures(precedes, (s, t), first),
        call_ensures(precedes, (t, s), last),
        call_ensures(trim, (s,), cut),
        call_ensures(is_blank, (s,), nothing),
        call_ensures(is_text, (s, t), same),
    ensures
        exists|i: int, j: int|
            0 <= i <= j <= s@.len() && cut@ == #[trigger] s@.subrange(i, j) && (forall|k: int|
                0 <= k < s@.len() && !(i <= k < j) ==> white_space(#[trigger] s@[k])) && (i < j
                ==> !white_space(s@[i]) && !white_space(s@[j - 1])),
        nothing <==> says_nothing(s@),
        same <==> s@ == t@,
        same ==> !first && !last,
        !same ==> first != last,
{
    if s@ == t@ {
        lemma_before_irreflexive(s@);
    } else {
        lemma_before_total(s@, t@);
        if first && last {
            lemma_before_transitive(s@, t@, s@);
            lemma_before_irreflexive(s@);
        }
    }
    let (i, j) = lemma_trimmed_is_the_middle(s@);
    lemma_blank_is_white_throughout(s@);
    assert(cut@ == s@.subrange(i, j));
}

/// Calls at the start: a mode is normalised, told apart from the others, and shown as the settings
/// ask.
pub proof fn lemma_startup_calls(
    raw: &str,
    mode: String,
    live_allowed: bool,
    auto: AutoMode,
    dashboard: bool,
    open: bool,
    shown: UserInterface,
)
    requires
        call_ensures(normalize_auto_mode, (raw,), mode),
        call_ensures(resolve_auto_mode, (raw, live_allowed), auto),
        call_ensures(choose_interface, (raw, dashboard, open), shown),
    ensures
        mode@ == normalized(raw@),
        auto.enabled <==> raw@ == "shadow"@ || raw@ == "live"@,
        !auto.enabled && !auto.unknown <==> raw@.len() == 0 || raw@ == "off"@,
        auto.live == live_allowed,
        auto.unconfirmed <==> raw@ == "live"@ && !live_allowed,
        shown == UserInterface::WebOpened <==> lowered(raw@) == "web"@ && dashboard
            && open,
        shown == UserInterface::WebLogged <==> lowered(raw@) == "web"@ && dashboard
            && !open,
        shown == UserInterface::Terminal <==> lowered(raw@) == "tui"@,
{
    lemma_modes_are_told_apart(raw@, live_allowed);
    lemma_interface_follows_its_switches(raw@, dashboard, open);
    if raw@.len() == 0 {
        assert(raw@ =~= Seq::empty());
    }
}

/// Calls of the arithmetic give the numbers nearest to the exact results.
pub proof fn lemma_arithmetic_calls(
    a: Binary64,
    b: Binary64,
    s: Binary64,
    p: Binary64,
    d: Binary64,
    c: Binary64,
)
    requires
        call_ensures(Binary64::plus, (a, b), s),
        call_ensures(Binary64::times, (a, b), p),
        call_ensures(Binary64::minus, (a, b), d),
        a.finite(),
        b.finite(),
        !c.nan(),
    ensures
        s == sum(a, b),
        p == product(a, b),
        d == difference(a, b),
        apart(s.value(), a.value() + b.value()) <= apart(c.value(), a.value() + b.value()),
        apart(pow2(1074) * p.value(), a.value() * b.value()) <= apart(
            pow2(1074) * c.value(),
            a.value() * b.value(),
        ),
{
    lemma_sum_is_closest(a, b, c);
    lemma_product_is_closest(a, b, c);
}

} // verus!
