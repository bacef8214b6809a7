use rust_mm_bot::binary64::Binary64;
use rust_mm_bot::check::{assess, conclude, open_check, Next, Opening};
use rust_mm_bot::decision::{
    apply_cooldowns, cancel_without_reward, request_for, rule_summary, settings_or_default,
    uses_custom, DecisionAction, PricingDecision, PricingMode,
};
use rust_mm_bot::discovery::{markets_to_scan, outcomes_to_quote, quote_input};
use rust_mm_bot::engine::{Book, Engine, OrderStep};
use rust_mm_bot::feeds::{follow_step, FollowStep};
use rust_mm_bot::orders::{Order, Side};
use rust_mm_bot::quoting::Level;
use rust_mm_bot::regime::TickRegime;
use rust_mm_bot::rewards::{RewardMarket, RewardToken, RewardsError};
use rust_mm_bot::rows::{decided_row, needs_title, provisional_row, resolve_labels};
use rust_mm_bot::spreads::Spreads;

const SECOND: u64 = 1_000_000_000;

fn num(x: f64) -> Binary64 {
    Binary64::from_bits(x.to_bits())
}

fn float(x: Binary64) -> f64 {
    f64::from_bits(x.to_bits())
}

fn order(id: &str, side: Side) -> Order {
    Order {
        id: id.to_string(),
        condition_id: "condition".to_string(),
        token_id: "token".to_string(),
        side,
        price: num(0.47),
        remaining_size: num(20.0),
        market_title: Some("Title".to_string()),
        outcome: Some("Yes".to_string()),
    }
}

fn book(mid: Option<f64>) -> Book {
    Book {
        token_id: "token".to_string(),
        tick_size: num(0.001),
        mid: mid.map(num),
        bids: vec![
            Level { price: num(0.49), size: num(1.0) },
            Level { price: num(0.46), size: num(2.0) },
            Level { price: num(0.3), size: num(3.0) },
        ],
        asks: vec![
            Level { price: num(0.51), size: num(1.0) },
            Level { price: num(0.9), size: num(1.0) },
        ],
    }
}

fn decision(action: DecisionAction) -> PricingDecision<u8> {
    PricingDecision {
        action,
        reason: "why".to_string(),
        mode: PricingMode::Custom,
        regime: TickRegime::Fine,
        candidate_prices: vec![num(0.46), num(0.49)],
        chosen_target: Some(num(0.485)),
        risk_overlay: Some(7),
    }
}

fn replace() -> PricingDecision<u8> {
    decision(DecisionAction::Replace { new_price: num(0.48) })
}

#[test]
fn cooldowns_keep_what_would_be_replaced() {
    let d = apply_cooldowns(replace(), true, false);
    assert_eq!((d.action, d.reason.as_str()), (DecisionAction::Keep, "why_recent_fill_cooldown"));
    let d = apply_cooldowns(replace(), false, true);
    assert_eq!(
        (d.action, d.reason.as_str()),
        (DecisionAction::Keep, "order_version_mismatch_cooldown")
    );
    let d = apply_cooldowns(replace(), true, true);
    assert_eq!((d.action, d.reason.as_str()), (DecisionAction::Keep, "why_recent_fill_cooldown"));
    assert_eq!(d.candidate_prices.len(), 2);
    assert_eq!(d.chosen_target, Some(num(0.485)));
    assert_eq!(d.risk_overlay, Some(7));
    let d = apply_cooldowns(replace(), false, false);
    assert_eq!(d.action, DecisionAction::Replace { new_price: num(0.48) });
    assert_eq!(d.reason, "why");
    for action in [DecisionAction::Keep, DecisionAction::Cancel] {
        let d = apply_cooldowns(decision(action), true, true);
        assert_eq!((d.action, d.reason.as_str()), (action, "why"));
    }
}

#[test]
fn an_order_without_reward_is_cancelled() {
    let d = cancel_without_reward::<u8>();
    assert_eq!(d.action, DecisionAction::Cancel);
    assert_eq!(d.reason, "reward_unavailable_fail_closed");
    assert_eq!(d.mode, PricingMode::Default);
    assert_eq!(d.regime, TickRegime::Unsupported);
    assert!(d.candidate_prices.is_empty());
    assert_eq!(d.chosen_target, None);
    assert_eq!(d.risk_overlay, None);
    let request = request_for(&order("o", Side::Sell), d);
    assert_eq!(request.order_id, "o");
    assert_eq!(request.token_id, "token");
    assert_eq!(request.side, Side::Sell);
    assert_eq!(request.old_price, num(0.47));
    assert_eq!(request.size, num(20.0));
}

#[test]
fn custom_pricing_has_three_causes() {
    let ids = vec!["a".to_string(), "o".to_string()];
    let none = vec![];
    let id = "o".to_string();
    assert!(uses_custom(true, false, &none, &id));
    assert!(uses_custom(false, true, &none, &id));
    assert!(uses_custom(false, false, &ids, &id));
    assert!(!uses_custom(false, false, &none, &id));
    assert_eq!(settings_or_default(Some(1), 2), 1);
    assert_eq!(settings_or_default(None, 2), 2);
}

#[test]
fn rules_are_described() {
    assert_eq!(
        rule_summary(true, "2", true, "3", "0.400", "0.600", "0.500"),
        "custom coarse_n=2 allow_top=true min_cands=3 safe=[0.400,0.600] target=0.500"
    );
    assert_eq!(
        rule_summary(false, "2", true, "3", "0.400", "0.600", "0.500"),
        "default(simple coarse/fine)"
    );
    assert!(rule_summary(true, "2", false, "3", "a", "b", "c").contains("allow_top=false"));
}

#[test]
fn titles_are_looked_up_where_they_say_nothing() {
    let mut o = order("o", Side::Buy);
    assert!(!needs_title(&o));
    let found = || Some(("Question".to_string(), "No".to_string()));
    assert_eq!(resolve_labels(&o, found()), ("Title".to_string(), "Yes".to_string()));
    for title in [None, Some(" "), Some("Unknown Market")] {
        o.market_title = title.map(|t| t.to_string());
        assert!(needs_title(&o));
        assert_eq!(resolve_labels(&o, found()), ("Question".to_string(), "No".to_string()));
        let own = (title.unwrap_or("").to_string(), "Yes".to_string());
        assert_eq!(resolve_labels(&o, None), own);
        assert_eq!(resolve_labels(&o, Some((" ".to_string(), "\t".to_string()))), own);
    }
}

#[test]
fn provisional_rows_show_what_is_known() {
    let o = order("o", Side::Sell);
    let title = "T".to_string();
    let blank = " ".to_string();
    let row = provisional_row(&o, &title, &blank, Some(num(0.5)), Some(num(0.01)), Some(num(3.0)));
    assert_eq!(row.order_id, "o");
    assert_eq!(row.market_title, "T");
    assert_eq!(row.outcome_label, "-");
    assert_eq!(row.mid_price, Some(num(0.5)));
    assert_eq!(row.reward_range_lo, Some(num(0.5)));
    assert_eq!(row.reward_range_hi, Some(num(0.5 + 3.0 * 0.01)));
    assert_eq!(row.tick_regime, "coarse");
    assert_eq!(row.pricing_mode, "provisional");
    assert_eq!(row.pricing_rule, "provisional(midpoint+tick fallback)");
    assert_eq!(row.last_decision_reason, "waiting_for_orderbook");
    let row = provisional_row(&o, &blank, &title, Some(num(0.5)), None, None);
    assert_eq!(row.market_title, "Unknown Market");
    assert_eq!(row.outcome_label, "T");
    assert_eq!(row.reward_range_lo, None);
    assert_eq!(row.reward_range_hi, None);
    assert_eq!(row.tick_regime, "pending");
    assert_eq!(row.last_decision_reason, "reward_unavailable_fail_closed");
}

#[test]
fn decided_rows_show_the_decision() {
    let o = order("o", Side::Buy);
    let text = "T".to_string();
    let range = Some((num(0.46), num(0.49)));
    let row =
        decided_row(&o, &text, &text, num(0.5), range, num(0.001), "rule".to_string(), &replace());
    assert_eq!(row.mid_price, Some(num(0.5)));
    assert_eq!(row.reward_range_lo, Some(num(0.46)));
    assert_eq!(row.reward_range_hi, Some(num(0.49)));
    assert_eq!(row.reward_tick_size, Some(num(0.001)));
    assert_eq!(row.pricing_mode, "custom");
    assert_eq!(row.pricing_rule, "rule");
    assert_eq!(row.tick_regime, "fine");
    assert_eq!(row.last_decision_reason, "why");
    assert_eq!(row.last_candidate_levels, vec![num(0.46), num(0.49)]);
}

#[test]
fn orders_are_checked_at_their_intervals() {
    let mut e = Engine::new(0);
    let o = order("o", Side::Buy);
    assert!(e.start_check(&o, 10, 500));
    assert!(!e.start_check(&o, 10 + 4 * SECOND - 1, 500));
    e.on_book(book(Some(0.5)));
    assert!(e.start_check(&o, 10 + 4 * SECOND, 500));
    assert!(!e.start_check(&o, 10 + 4 * SECOND + 499_999_999, 500));
    assert!(e.start_check(&order("p", Side::Buy), 10 + 4 * SECOND + 1, 500));
    assert!(e.start_check(&o, 10 + 4 * SECOND + 500_000_000, 500));
}

#[test]
fn orders_that_are_gone_are_forgotten() {
    let mut e = Engine::new(0);
    let o = order("o", Side::Buy);
    let p = order("p", Side::Buy);
    assert!(e.start_check(&o, 5, 500));
    assert!(e.start_check(&p, 5, 500));
    e.retain_orders(&vec![order("p", Side::Buy)]);
    assert!(e.start_check(&o, 6, 500));
    assert!(!e.start_check(&p, 6, 500));
}

#[test]
fn scans_keep_their_interval() {
    let mut e = Engine::new(100);
    assert!(!e.start_scan(true, 99, 5));
    assert!(!e.start_scan(false, 100, 5));
    assert!(e.start_scan(true, 100, 5));
    assert!(!e.start_scan(true, 100 + 4_999_999, 5));
    assert!(e.start_scan(true, 100 + 5_000_000, 0));
    assert!(!e.start_scan(true, 100 + 5_999_999, 0));
    assert!(e.start_scan(true, 100 + 6_000_000, u64::MAX));
}

#[test]
fn fetched_numbers_stay_fresh_for_a_while() {
    let mut e = Engine::new(0);
    let tokens = vec!["a".to_string(), "b".to_string()];
    let b = "b".to_string();
    assert_eq!(e.stale_midpoints(&tokens, 7), tokens);
    e.on_midpoint(&b, Some(num(0.5)), 7);
    e.on_midpoint(&tokens[0], None, 7);
    assert_eq!(e.stale_midpoints(&tokens, 7 + 2 * SECOND), vec!["a".to_string()]);
    assert_eq!(e.stale_midpoints(&tokens, 8 + 2 * SECOND), tokens);
    assert_eq!(e.stale_midpoints(&tokens, 0), vec!["a".to_string()]);
    e.on_tick_size(&b, Some(num(0.01)), 7);
    e.on_tick_size(&tokens[0], None, 7);
    assert_eq!(e.stale_ticks(&tokens, 7 + 30 * SECOND), vec!["a".to_string()]);
    assert_eq!(e.stale_ticks(&tokens, 8 + 30 * SECOND), tokens);
}

#[test]
fn scoring_starts_false_and_follows_updates() {
    let mut e = Engine::new(0);
    let id = "o".to_string();
    assert!(!e.is_scoring("o"));
    e.on_scoring("o".to_string(), true);
    e.on_order_update(&id);
    assert!(e.is_scoring("o"));
    e.on_order_update(&"p".to_string());
    assert!(!e.is_scoring("p"));
    e.on_scoring("o".to_string(), false);
    assert!(!e.is_scoring("o"));
}

#[test]
fn the_last_book_counts() {
    let mut e = Engine::new(0);
    assert!(e.book("token").is_none());
    e.on_book(book(Some(0.4)));
    e.on_book(book(Some(0.5)));
    assert_eq!(e.book("token").unwrap().mid, Some(num(0.5)));
}

#[test]
fn ticks_fall_back_to_what_was_fetched_and_to_a_cent() {
    let mut e = Engine::new(0);
    let o = order("o", Side::Buy);
    let t = "T".to_string();
    assert_eq!(e.provisional(&o, &t, &t, None).reward_tick_size, Some(num(0.01)));
    e.on_tick_size(&o.token_id, Some(num(0.1)), 0);
    assert_eq!(e.provisional(&o, &t, &t, None).tick_regime, "fine");
    e.on_book(book(None));
    assert_eq!(e.provisional(&o, &t, &t, None).reward_tick_size, Some(num(0.001)));
}

#[test]
fn steps_fail_closed() {
    let mut e = Engine::new(0);
    let o = order("o", Side::Buy);
    assert!(matches!(e.next_step::<u8>(&o, Some(num(3.0))), OrderStep::Wait));
    assert!(matches!(e.next_step::<u8>(&o, None), OrderStep::Cancel(_)));
    assert!(!e.needs_midpoint(&o));
    e.on_book(book(None));
    assert!(e.needs_midpoint(&o));
    assert!(matches!(e.next_step::<u8>(&o, Some(num(3.0))), OrderStep::Price));
    match e.next_step::<u8>(&o, None) {
        OrderStep::Cancel(request) => {
            assert_eq!(request.order_id, "o");
            assert_eq!(request.decision.action, DecisionAction::Cancel);
            assert_eq!(request.decision.reason, "reward_unavailable_fail_closed");
        }
        _ => panic!("not cancelled"),
    }
}

#[test]
fn midpoints_come_from_book_then_fetch_then_memory_then_order() {
    let o = order("o", Side::Buy);
    let mut e = Engine::new(0);
    e.on_book(book(None));
    assert_eq!(e.pricing_inputs(&o, num(4.0), None).mid, num(0.47));
    assert_eq!(e.pricing_inputs(&o, num(4.0), Some(num(0.52))).mid, num(0.52));
    assert_eq!(e.pricing_inputs(&o, num(4.0), None).mid, num(0.52));
    e.on_book(book(Some(0.5)));
    let inputs = e.pricing_inputs(&o, num(4.0), Some(num(0.6)));
    assert_eq!(inputs.mid, num(0.5));
    assert_eq!(float(inputs.delta), 4.0 * 0.01);
    assert_eq!(inputs.tick_size, num(0.001));
    assert_eq!(inputs.range, Some((num(0.46), num(0.49))));
    let s = order("s", Side::Sell);
    assert_eq!(e.pricing_inputs(&s, num(4.0), None).range, Some((num(0.51), num(0.51))));
    assert_eq!(e.pricing_inputs(&s, num(0.5), None).range, None);
    e.on_book(book(None));
    assert_eq!(e.pricing_inputs(&o, num(4.0), None).mid, num(0.5));
}

#[test]
fn checks_open_when_it_is_time() {
    let mut e = Engine::new(0);
    let mut o = order("o", Side::Buy);
    assert_eq!(open_check(&mut e, &o, 1, 500), Opening::Proceed);
    assert_eq!(open_check(&mut e, &o, 2, 500), Opening::Skip);
    o.market_title = None;
    assert_eq!(open_check(&mut e, &o, 1 + 4 * SECOND, 500), Opening::LookUpTitle);
}

#[test]
fn assessments_show_the_order_and_say_what_follows() {
    let mut e = Engine::new(0);
    let o = order("o", Side::Buy);
    let a = assess::<u8>(&mut e, &o, None, None);
    assert_eq!(a.title, "Title");
    assert_eq!(a.row.order_id, "o");
    assert_eq!(a.row.last_decision_reason, "reward_unavailable_fail_closed");
    assert!(matches!(a.next, Next::Cancel(_)));

    let a = assess::<u8>(&mut e, &o, None, Some(num(4.0)));
    assert_eq!(a.row.last_decision_reason, "waiting_for_orderbook");
    assert!(matches!(a.next, Next::Wait));

    e.on_book(book(None));
    let a = assess::<u8>(&mut e, &o, None, Some(num(4.0)));
    assert!(matches!(a.next, Next::FetchMidpoint));
    assert_eq!(a.row.mid_price, None);

    e.on_book(book(Some(0.5)));
    let a = assess::<u8>(&mut e, &o, None, Some(num(4.0)));
    assert_eq!(a.row.mid_price, None);
    let inputs = match a.next {
        Next::Decide(inputs) => inputs,
        _ => panic!("nothing to decide"),
    };
    assert_eq!(inputs.mid, num(0.5));
    assert!(matches!(assess::<u8>(&mut e, &o, None, None).next, Next::Cancel(_)));
    assert_eq!(assess::<u8>(&mut e, &o, None, None).row.mid_price, Some(num(0.5)));

    let (row, request) = conclude(
        &o,
        &a.title,
        &a.outcome,
        &inputs,
        replace(),
        true,
        false,
        "rule".to_string(),
    );
    assert_eq!(row.last_decision_reason, "why_recent_fill_cooldown");
    assert_eq!(row.reward_range_lo, Some(num(0.46)));
    assert_eq!(request.decision.action, DecisionAction::Keep);
    assert_eq!(request.decision.reason, "why_recent_fill_cooldown");
    assert_eq!(request.decision.chosen_target, Some(num(0.485)));
    assert_eq!(request.decision.risk_overlay, Some(7));
}

fn market(id: &str) -> RewardMarket {
    RewardMarket {
        condition_id: id.to_string(),
        rewards_max_spread_cents: num(5.0),
        rewards_min_size: num(20.0),
        daily_rate: num(9.0),
    }
}

fn token(id: &str, price: Option<f64>) -> RewardToken {
    RewardToken { token_id: id.to_string(), outcome: "Yes".to_string(), price: price.map(num) }
}

#[test]
fn scans_take_the_first_markets_and_one_at_least() {
    let list = || vec![market("a"), market("b"), market("c")];
    assert_eq!(markets_to_scan(list(), 2).len(), 2);
    assert_eq!(markets_to_scan(list(), 2)[1].condition_id, "b");
    assert_eq!(markets_to_scan(list(), 0).len(), 1);
    assert_eq!(markets_to_scan(list(), 9).len(), 3);
    assert!(markets_to_scan(vec![], 2).is_empty());
}

#[test]
fn outcomes_with_an_order_are_left_out() {
    let tokens = vec![token("x", None), token("token", None), token("y", None)];
    let free = outcomes_to_quote(tokens, &vec![order("o", Side::Buy)]);
    assert_eq!(free.len(), 2);
    assert_eq!(free[0].token_id, "x");
    assert_eq!(free[1].token_id, "y");
}

#[test]
fn quotes_are_planned_from_the_best_source() {
    let m = market("m");
    let b = book(Some(0.5));
    let input =
        quote_input(&m, &token("t", Some(0.4)), Some(&b), Some(num(0.3)), Some(num(0.1))).unwrap();
    assert_eq!(input.condition_id, "m");
    assert_eq!(input.token_id, "t");
    assert_eq!(input.midpoint, num(0.5));
    assert_eq!(input.tick_size, num(0.001));
    assert_eq!(input.rewards_max_spread_cents, num(5.0));
    assert_eq!(input.rewards_min_size, num(20.0));
    assert_eq!(input.daily_rate, num(9.0));
    let b = book(None);
    let mid = |listed, fetched| {
        quote_input(&m, &token("t", listed), Some(&b), fetched, None).map(|i| float(i.midpoint))
    };
    assert_eq!(mid(Some(0.4), Some(num(0.3))), Some(0.4));
    assert_eq!(mid(None, Some(num(0.3))), Some(0.3));
    assert_eq!(mid(None, None), None);
    let tick = |fetched| {
        quote_input(&m, &token("t", Some(0.4)), None, None, fetched).map(|i| float(i.tick_size))
    };
    assert_eq!(tick(Some(num(0.1))), Some(0.1));
    assert_eq!(tick(None), None);
}

#[test]
fn a_failed_lookup_cancels_the_order() {
    let mut spreads = Spreads::new();
    assert_eq!(spreads.spread("condition"), None);
    spreads.record("condition".to_string(), &Ok(Some(num(4.0))));
    spreads.record("other".to_string(), &Ok(Some(num(2.0))));
    spreads.record("bare".to_string(), &Ok(None));
    assert_eq!(spreads.spread("condition"), Some(num(4.0)));
    assert_eq!(spreads.spread("bare"), None);
    spreads.record("condition".to_string(), &Err(RewardsError::EmptyDetail));
    assert_eq!(spreads.spread("condition"), None);
    assert_eq!(spreads.spread("other"), Some(num(2.0)));

    let mut e = Engine::new(0);
    e.on_book(book(Some(0.5)));
    let o = order("o", Side::Buy);
    let spread = spreads.spread(&o.condition_id);
    assert!(matches!(assess::<u8>(&mut e, &o, None, spread).next, Next::Cancel(_)));
}

#[test]
fn a_snapshot_is_kept_for_the_token_it_was_fetched_for() {
    let mut e = Engine::new(0);
    e.on_snapshot(&"asked".to_string(), book(Some(0.5)));
    assert!(e.book("asked").is_some());
    assert!(e.book("token").is_none());
}

#[test]
fn feeds_pause_without_tokens_and_after_a_failure() {
    assert_eq!(follow_step(0, false), FollowStep::Pause(1000));
    assert_eq!(follow_step(0, true), FollowStep::Pause(2000));
    assert_eq!(follow_step(3, true), FollowStep::Pause(2000));
    assert_eq!(follow_step(3, false), FollowStep::Connect);
}
