use rust_mm_bot::binary64::Binary64;
use rust_mm_bot::orders::{
    committed_capital, contains_text, sorted_set, subscribed_tokens, traded_conditions, Order, Side,
    Subscriptions,
};
use rust_mm_bot::quoting::{clip_to_levels, reward_band, Level};
use rust_mm_bot::rewards::RewardsClient;

fn num(x: f64) -> Binary64 {
    Binary64::from_bits(x.to_bits())
}

fn float(x: Binary64) -> f64 {
    f64::from_bits(x.to_bits())
}

fn order(id: &str, condition: &str, token: &str, price: f64, size: f64) -> Order {
    Order {
        id: id.to_string(),
        condition_id: condition.to_string(),
        token_id: token.to_string(),
        side: Side::Buy,
        price: num(price),
        remaining_size: num(size),
        market_title: None,
        outcome: None,
    }
}

fn strings(list: &[&str]) -> Vec<String> {
    list.iter().map(|s| s.to_string()).collect()
}

#[test]
fn tokens_and_conditions_are_listed_once_and_in_order() {
    let orders = vec![
        order("1", "c2", "t9", 0.5, 1.0),
        order("2", "c1", "t10", 0.5, 1.0),
        order("3", "c2", "t9", 0.5, 1.0),
        order("4", "c3", "a", 0.5, 1.0),
    ];
    assert_eq!(subscribed_tokens(&orders), strings(&["a", "t10", "t9"]));
    assert_eq!(traded_conditions(&orders), strings(&["c1", "c2", "c3"]));
    assert!(subscribed_tokens(&vec![]).is_empty());
    assert_eq!(sorted_set(&strings(&["b", "a", "b"])), strings(&["a", "b"]));
    assert!(contains_text(&strings(&["b", "a"]), &"a".to_string()));
    assert!(!contains_text(&strings(&["b", "a"]), &"c".to_string()));
}

#[test]
fn books_are_fetched_once_for_each_new_token() {
    let mut s = Subscriptions::new();
    let both = vec![order("1", "c", "x", 0.5, 1.0), order("2", "c", "y", 0.5, 1.0)];
    let one = vec![order("1", "c", "x", 0.5, 1.0)];
    assert_eq!(s.poll(&one), strings(&["x"]));
    assert!(s.poll(&one).is_empty());
    assert_eq!(s.poll(&both), strings(&["y"]));
    assert_eq!(s.tokens(), strings(&["x", "y"]));
    assert!(s.poll(&one).is_empty());
    assert_eq!(s.tokens(), strings(&["x"]));
    assert_eq!(s.poll(&both), strings(&["y"]));
}

#[test]
fn capital_adds_up_what_orders_bind() {
    let orders = vec![
        order("1", "c", "x", 0.48, 20.0),
        order("2", "c", "x", 0.1, 3.0),
        order("3", "c", "x", 0.5, -7.0),
        order("4", "c", "x", f64::NAN, 1.0),
    ];
    assert_eq!(float(committed_capital(&orders)), 0.48 * 20.0 + 0.1 * 3.0);
    assert_eq!(float(committed_capital(&vec![])), 0.0);
    assert_eq!(committed_capital(&vec![]), num(-0.0));
    assert_eq!(committed_capital(&vec![order("1", "c", "x", 0.5, 0.0)]), num(0.0));
    let endless = vec![order("1", "c", "x", 1e308, 1e308), order("2", "c", "x", 1.0, 1.0)];
    assert_eq!(float(committed_capital(&endless)), f64::INFINITY);
}

#[test]
fn a_wider_spread_reaches_further() {
    let spreads = [-3.0, 0.0, 1e-320, 0.1, 3.0, 3.0000000000000004, 5.5, 1e308, f64::INFINITY];
    let delta = |s: f64| float(RewardsClient::reward_range(num(0.5), num(s)).delta);
    for pair in spreads.windows(2) {
        assert!(delta(pair[0]) <= delta(pair[1]));
    }
    assert_eq!(delta(5.5), 5.5 * 0.01);
}

#[test]
fn bands_lie_on_the_side_of_the_order() {
    let (lo, hi) = reward_band(Side::Buy, num(0.503), num(5.0));
    assert_eq!((float(lo), float(hi)), (0.503 - 5.0 * 0.01, 0.503));
    let (lo, hi) = reward_band(Side::Sell, num(0.503), num(5.0));
    assert_eq!((float(lo), float(hi)), (0.503, 0.503 + 5.0 * 0.01));
    let (lo, hi) = reward_band(Side::Buy, num(0.5), num(-1.0));
    assert_eq!((float(lo), float(hi)), (0.5, 0.5));
}

fn level(price: f64, size: f64) -> Level {
    Level { price: num(price), size: num(size) }
}

fn clip(levels: Vec<Level>, lo: f64, hi: f64) -> Option<(f64, f64)> {
    clip_to_levels(&levels, num(lo), num(hi)).map(|(a, b)| (float(a), float(b)))
}

#[test]
fn ranges_are_clipped_to_levels_in_the_band() {
    let levels = || {
        vec![
            level(0.50, 10.0),
            level(0.47, 5.0),
            level(0.46, 0.0),
            level(0.48, 1.0),
            level(0.40, 9.0),
            level(f64::NAN, 9.0),
        ]
    };
    assert_eq!(clip(levels(), 0.45, 0.5), Some((0.47, 0.5)));
    assert_eq!(clip(levels(), 0.46, 0.475), Some((0.47, 0.47)));
    assert_eq!(clip(levels(), 0.41, 0.46), None);
    assert_eq!(clip(vec![], 0.0, 1.0), None);
    assert_eq!(clip(levels(), f64::NAN, 1.0), None);
}

#[test]
fn a_level_just_outside_the_band_still_counts() {
    assert_eq!(clip(vec![level(0.45, 1.0)], 0.45 + 5e-13, 0.5), Some((0.45, 0.45)));
    assert_eq!(clip(vec![level(0.45, 1.0)], 0.45 + 5e-12, 0.5), None);
    assert_eq!(clip(vec![level(0.5, 1.0)], 0.4, 0.5 - 5e-13), Some((0.5, 0.5)));
    assert_eq!(clip(vec![level(0.5, 1.0)], 0.4, 0.5 - 5e-12), None);
}
