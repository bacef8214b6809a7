use rust_mm_bot::binary64::Binary64;
use rust_mm_bot::rewards::{
    failure_message, parse_current_markets, parse_market_detail, FetchAction, FetchEvent, MarketDetailResponse,
    MarketDetailRow, RewardMarket, RewardToken, RewardsClient, RewardsError, RewardsRequest,
    RewardsResponse, RewardsRow,
};
use rust_mm_bot::http_status::is_success;
use serde_json::Value;

fn num(x: f64) -> Binary64 {
    Binary64::from_bits(x.to_bits())
}

fn float(x: Binary64) -> f64 {
    f64::from_bits(x.to_bits())
}

fn text(v: &Value, key: &str) -> Option<String> {
    v.get(key).and_then(|x| x.as_str()).map(|s| s.to_string())
}

fn number(v: &Value, key: &str) -> Option<Binary64> {
    v.get(key).and_then(|x| x.as_f64()).map(num)
}

fn rows(v: &Value) -> Option<Vec<Value>> {
    v.get("data").and_then(|x| x.as_array()).cloned()
}

fn markets_payload(body: &str) -> Result<RewardsResponse, String> {
    let value: Value = serde_json::from_str(body).map_err(|e| e.to_string())?;
    let data = rows(&value).map(|list| {
        list.iter()
            .map(|row| RewardsRow {
                condition_id: text(row, "condition_id"),
                rewards_max_spread: number(row, "rewards_max_spread"),
                rewards_min_size: number(row, "rewards_min_size"),
                native_daily_rate: number(row, "native_daily_rate"),
                total_daily_rate: number(row, "total_daily_rate"),
            })
            .collect::<Vec<_>>()
    });
    Ok(RewardsResponse { data })
}

fn detail_payload(body: &str) -> Result<MarketDetailResponse, String> {
    let value: Value = serde_json::from_str(body).map_err(|e| e.to_string())?;
    let data = rows(&value).map(|list| {
        list.iter()
            .map(|row| MarketDetailRow {
                condition_id: text(row, "condition_id").unwrap(),
                question: text(row, "question"),
                tokens: row.get("tokens").and_then(|x| x.as_array()).map(|tokens| {
                    tokens
                        .iter()
                        .map(|t| RewardToken {
                            token_id: text(t, "token_id").unwrap(),
                            outcome: text(t, "outcome").unwrap(),
                            price: number(t, "price"),
                        })
                        .collect::<Vec<_>>()
                }),
                rewards_max_spread: number(row, "rewards_max_spread"),
                rewards_min_size: number(row, "rewards_min_size"),
            })
            .collect::<Vec<_>>()
    });
    Ok(MarketDetailResponse { data })
}

#[test]
fn parses_current_reward_market_for_ranking() {
    let markets = parse_current_markets(markets_payload(
        r#"{"data":[{"condition_id":"condition","rewards_max_spread":5.5,"rewards_min_size":20,"total_daily_rate":12}]}"#,
    ))
    .unwrap();

    assert_eq!(markets.len(), 1);
    assert_eq!(markets[0].condition_id, "condition");
    assert_eq!(float(markets[0].rewards_max_spread_cents), 5.5);
    assert_eq!(float(markets[0].rewards_min_size), 20.0);
    assert_eq!(float(markets[0].daily_rate), 12.0);
}

#[test]
fn parses_market_detail_tokens_for_discovery() {
    let market = parse_market_detail(detail_payload(
        r#"{"data":[{"condition_id":"condition","question":"Q","tokens":[{"token_id":"yes","outcome":"Yes"},{"token_id":"no","outcome":"No"}],"rewards_max_spread":5.5,"rewards_min_size":20}]}"#,
    ))
    .unwrap();

    assert_eq!(market.condition_id, "condition");
    assert_eq!(market.tokens.len(), 2);
    assert_eq!(market.tokens[0].token_id, "yes");
    assert_eq!(market.tokens[1].outcome, "No");
}

fn row(id: &str, spread: f64, size: f64, native: Option<f64>, total: Option<f64>) -> RewardsRow {
    RewardsRow {
        condition_id: Some(id.to_string()),
        rewards_max_spread: Some(num(spread)),
        rewards_min_size: Some(num(size)),
        native_daily_rate: native.map(num),
        total_daily_rate: total.map(num),
    }
}

fn ids(markets: &[RewardMarket]) -> Vec<String> {
    markets.iter().map(|m| m.condition_id.clone()).collect()
}

fn ranked(data: Vec<RewardsRow>) -> Vec<RewardMarket> {
    parse_current_markets(Ok(RewardsResponse { data: Some(data) })).unwrap()
}

#[test]
fn ranks_by_rate_and_keeps_the_order_of_equal_rates() {
    let markets = ranked(vec![
        row("b", 1.0, 1.0, None, Some(2.0)),
        row("a", 1.0, 1.0, None, Some(7.5)),
        row("c", 1.0, 1.0, None, Some(2.0)),
        row("d", 1.0, 1.0, None, Some(1e-300)),
        row("e", 1.0, 1.0, None, Some(9.0)),
        row("f", 1.0, 1.0, None, Some(2.0)),
    ]);
    assert_eq!(ids(&markets), vec!["e", "a", "b", "c", "f", "d"]);
}

#[test]
fn total_rate_comes_before_native_rate() {
    let markets = ranked(vec![
        row("native", 1.0, 1.0, Some(3.0), None),
        row("total", 1.0, 1.0, Some(3.0), Some(4.0)),
        row("broken_total", 1.0, 1.0, Some(3.0), Some(-1.0)),
    ]);
    assert_eq!(ids(&markets), vec!["total", "native"]);
    assert_eq!(float(markets[0].daily_rate), 4.0);
}

#[test]
fn identifiers_are_trimmed_and_blank_ones_dropped() {
    let markets = ranked(vec![
        row(" \u{a0}x \n", 1.0, 1.0, None, Some(1.0)),
        row("  ", 1.0, 1.0, None, Some(1.0)),
        row("", 1.0, 1.0, None, Some(1.0)),
    ]);
    assert_eq!(ids(&markets), vec!["x"]);
}

#[test]
fn unusable_rows_are_dropped() {
    for bad in [0.0, -0.0, -1.0, f64::NAN, f64::INFINITY, f64::NEG_INFINITY] {
        assert!(ranked(vec![row("x", bad, 1.0, None, Some(1.0))]).is_empty());
        assert!(ranked(vec![row("x", 1.0, bad, None, Some(1.0))]).is_empty());
        assert!(ranked(vec![row("x", 1.0, 1.0, None, Some(bad))]).is_empty());
    }
    assert!(ranked(vec![row("x", 1.0, 1.0, None, None)]).is_empty());
    let mut lacking = row("x", 1.0, 1.0, None, Some(1.0));
    lacking.condition_id = None;
    assert!(ranked(vec![lacking]).is_empty());
    let mut lacking = row("x", 1.0, 1.0, None, Some(1.0));
    lacking.rewards_max_spread = None;
    assert!(ranked(vec![lacking]).is_empty());
    let mut lacking = row("x", 1.0, 1.0, None, Some(1.0));
    lacking.rewards_min_size = None;
    assert!(ranked(vec![lacking]).is_empty());
}

#[test]
fn a_list_without_data_is_empty() {
    assert!(parse_current_markets(Ok(RewardsResponse { data: None })).unwrap().is_empty());
    assert!(parse_current_markets(markets_payload("{}")).unwrap().is_empty());
}

#[test]
fn a_body_that_is_no_json_is_an_error() {
    let cause = serde_json::from_str::<Value>("{").unwrap_err().to_string();
    let error = parse_current_markets(markets_payload("{")).unwrap_err();
    assert!(matches!(error, RewardsError::Json(_)));
    assert_eq!(error.message(), cause);
    let error = parse_market_detail(detail_payload("{")).unwrap_err();
    assert!(matches!(error, RewardsError::Json(_)));
    assert_eq!(error.message(), cause);
}

fn detail_row() -> MarketDetailRow {
    MarketDetailRow {
        condition_id: " id ".to_string(),
        question: None,
        tokens: Some(vec![RewardToken {
            token_id: "t".to_string(),
            outcome: "Yes".to_string(),
            price: Some(num(0.25)),
        }]),
        rewards_max_spread: Some(num(3.0)),
        rewards_min_size: Some(num(50.0)),
    }
}

fn detail(row: MarketDetailRow) -> Result<MarketDetailResponse, String> {
    Ok(MarketDetailResponse { data: Some(vec![row]) })
}

#[test]
fn detail_is_taken_over_as_it_is() {
    let market = parse_market_detail(detail(detail_row())).unwrap();
    assert_eq!(market.condition_id, " id ");
    assert_eq!(market.question, "");
    assert_eq!(float(market.rewards_max_spread_cents), 3.0);
    assert_eq!(float(market.rewards_min_size), 50.0);
    assert_eq!(market.tokens[0].price, Some(num(0.25)));
}

#[test]
fn only_the_first_row_of_a_detail_counts() {
    let mut first = detail_row();
    first.condition_id = "first".to_string();
    let second = detail_row();
    let payload = Ok(MarketDetailResponse { data: Some(vec![first, second]) });
    assert_eq!(parse_market_detail(payload).unwrap().condition_id, "first");
}

fn complaint(payload: Result<MarketDetailResponse, String>) -> String {
    parse_market_detail(payload).unwrap_err().message()
}

#[test]
fn details_that_lack_something_are_errors() {
    assert_eq!(complaint(Ok(MarketDetailResponse { data: None })), "empty reward market detail");
    assert_eq!(
        complaint(Ok(MarketDetailResponse { data: Some(vec![]) })),
        "empty reward market detail"
    );

    for spread in [None, Some(0.0), Some(-2.0), Some(f64::NAN), Some(f64::INFINITY)] {
        let mut row = detail_row();
        row.rewards_max_spread = spread.map(num);
        row.rewards_min_size = None;
        assert_eq!(complaint(detail(row)), "reward market detail has no positive spread");
    }
    for size in [None, Some(0.0), Some(-2.0), Some(f64::NAN), Some(f64::INFINITY)] {
        let mut row = detail_row();
        row.rewards_min_size = size.map(num);
        row.tokens = None;
        assert_eq!(complaint(detail(row)), "reward market detail has no positive minimum size");
    }
    for tokens in [None, Some(vec![])] {
        let mut row = detail_row();
        row.tokens = tokens;
        assert_eq!(complaint(detail(row)), "reward market detail has no tokens");
    }
}

#[test]
fn reward_range_turns_cents_into_price() {
    let range = RewardsClient::reward_range(num(0.5), num(5.5));
    assert_eq!(float(range.mid), 0.5);
    assert_eq!(float(range.delta), 5.5 * 0.01);
    for spread in [0.0, -3.0, f64::NAN, f64::NEG_INFINITY] {
        assert_eq!(float(RewardsClient::reward_range(num(0.5), num(spread)).delta), 0.0);
    }
    for spread in [1.0, 2.5, 3.3, 4.5, 1e-320, 1e308, f64::INFINITY] {
        assert_eq!(
            float(RewardsClient::reward_range(num(0.5), num(spread)).delta),
            spread * 0.01
        );
    }
}

fn client() -> RewardsClient {
    RewardsClient::new("http://host".to_string())
}

fn url<R>(action: FetchAction<R>) -> String {
    match action {
        FetchAction::Get(url) => url,
        _ => panic!("no request"),
    }
}

fn failure<R>(action: FetchAction<R>) -> RewardsError {
    match action {
        FetchAction::Return(Err(error)) => error,
        _ => panic!("no failure"),
    }
}

#[test]
fn requests_go_to_their_addresses() {
    let mut c = client();
    assert_eq!(url(c.current_markets(FetchEvent::Begin)), "http://host/rewards/markets/current");
    assert_eq!(url(c.market_detail("0xabc", FetchEvent::Begin)), "http://host/rewards/markets/0xabc");
    assert_eq!(
        url(c.rewards_max_spread_for_market("0xabc", FetchEvent::Begin)),
        "http://host/rewards/markets/0xabc"
    );
}

#[test]
fn the_body_is_read_after_a_success_only() {
    let mut c = client();
    for code in 100..1000u16 {
        let ok = (200..300).contains(&code);
        assert_eq!(matches!(c.current_markets(FetchEvent::Status(code)), FetchAction::ReadBody), ok);
        assert_eq!(
            matches!(c.market_detail("x", FetchEvent::Status(code)), FetchAction::ReadBody),
            ok
        );
        assert_eq!(
            matches!(
                c.rewards_max_spread_for_market("x", FetchEvent::Status(code)),
                FetchAction::ReadBody
            ),
            ok
        );
    }
}

#[test]
fn a_refused_request_tells_its_status() {
    let mut c = client();
    let error = failure(c.current_markets(FetchEvent::Status(404)));
    assert!(matches!(error, RewardsError::Status(RewardsRequest::CurrentMarkets, 404)));
    assert_eq!(error.message(), "current reward markets failed status=404 Not Found");
    let error = failure(c.market_detail("x", FetchEvent::Status(503)));
    assert_eq!(error.message(), "reward market detail failed status=503 Service Unavailable");
    let error = failure(c.rewards_max_spread_for_market("x", FetchEvent::Status(799)));
    assert_eq!(error.message(), "reward market lookup failed status=799 <unknown status code>");
}

#[test]
fn transport_failures_are_passed_on() {
    let mut c = client();
    let error = failure(c.current_markets(FetchEvent::SendFailed("refused".to_string())));
    assert_eq!(error.message(), "refused");
    let error = failure(c.market_detail("x", FetchEvent::BodyFailed("cut off".to_string())));
    assert_eq!(error.message(), "cut off");
    let error =
        failure(c.rewards_max_spread_for_market("x", FetchEvent::SendFailed("down".to_string())));
    assert!(matches!(error, RewardsError::Transport(_)));
}

#[test]
fn bodies_are_parsed_at_the_end_of_a_request() {
    let c = client();
    let body = FetchEvent::Body(Ok(RewardsResponse {
        data: Some(vec![row("m", 1.0, 1.0, None, Some(1.0))]),
    }));
    match c.current_markets(body) {
        FetchAction::Return(Ok(markets)) => assert_eq!(ids(&markets), vec!["m"]),
        _ => panic!("no markets"),
    }
    match c.market_detail("x", FetchEvent::Body(detail(detail_row()))) {
        FetchAction::Return(Ok(market)) => assert_eq!(market.tokens.len(), 1),
        _ => panic!("no market"),
    }
}

fn answer(action: FetchAction<Option<Binary64>>) -> Option<f64> {
    match action {
        FetchAction::Return(Ok(spread)) => spread.map(float),
        _ => panic!("no answer"),
    }
}

#[test]
fn an_answer_is_remembered() {
    let mut c = client();
    let body = FetchEvent::Body(detail(detail_row()));
    assert_eq!(answer(c.rewards_max_spread_for_market("x", body)), Some(3.0));
    assert_eq!(answer(c.rewards_max_spread_for_market("x", FetchEvent::Begin)), Some(3.0));
    url(c.rewards_max_spread_for_market("y", FetchEvent::Begin));
}

#[test]
fn that_a_market_has_no_spread_is_remembered() {
    let mut c = client();
    let body = FetchEvent::Body(Err("no json".to_string()));
    assert_eq!(answer(c.rewards_max_spread_for_market("x", body)), None);
    assert_eq!(answer(c.rewards_max_spread_for_market("x", FetchEvent::Begin)), None);
}

#[test]
fn a_failed_lookup_is_not_remembered() {
    let mut c = client();
    failure(c.rewards_max_spread_for_market("x", FetchEvent::Status(500)));
    failure(c.rewards_max_spread_for_market("x", FetchEvent::BodyFailed("cut".to_string())));
    url(c.rewards_max_spread_for_market("x", FetchEvent::Begin));
}

#[test]
fn codes_from_200_to_299_are_a_success() {
    for code in 0..=1100 {
        let outside = reqwest::StatusCode::from_u16(code).map(|s| s.is_success()).unwrap_or(false);
        assert_eq!(is_success(code), outside);
    }
}

#[test]
fn failure_messages_end_with_the_status() {
    assert_eq!(
        failure_message(RewardsRequest::SpreadLookup, "500 Oops"),
        "reward market lookup failed status=500 Oops"
    );
    assert_eq!(
        failure_message(RewardsRequest::CurrentMarkets, ""),
        "current reward markets failed status="
    );
    assert_eq!(
        failure_message(RewardsRequest::MarketDetail, "1"),
        "reward market detail failed status=1"
    );
}

#[test]
fn the_order_of_the_rows_leaves_the_rates_as_they_are() {
    let rows = || {
        vec![
            row("b", 1.0, 1.0, None, Some(2.0)),
            row(" a ", 1.0, 1.0, None, Some(7.5)),
            row("c", 1.0, 1.0, None, Some(2.0)),
            row("b", 1.0, 1.0, None, Some(2.0)),
        ]
    };
    let rates = |m: &[RewardMarket]| m.iter().map(|x| float(x.daily_rate)).collect::<Vec<_>>();
    let sorted = |m: &[RewardMarket]| {
        let mut list = ids(m);
        list.sort();
        list
    };
    let forward = ranked(rows());
    let backward = ranked(rows().into_iter().rev().collect());
    assert_eq!(rates(&forward), vec![7.5, 2.0, 2.0, 2.0]);
    assert_eq!(rates(&forward), rates(&backward));
    assert_eq!(sorted(&forward), vec!["a", "b", "b", "c"]);
    assert_eq!(sorted(&forward), sorted(&backward));
    let mut with_unusable = rows();
    with_unusable.insert(1, row("x", 0.0, 1.0, None, Some(9.0)));
    assert_eq!(ids(&ranked(with_unusable)), ids(&forward));
}

#[test]
fn a_spread_that_is_not_positive_is_remembered_as_none() {
    let mut client = RewardsClient::new("u".to_string());
    let detail = MarketDetailResponse {
        data: Some(vec![MarketDetailRow {
            condition_id: "c".to_string(),
            question: None,
            tokens: Some(vec![RewardToken {
                token_id: "t".to_string(),
                outcome: "Yes".to_string(),
                price: None,
            }]),
            rewards_max_spread: Some(num(-1.0)),
            rewards_min_size: Some(num(20.0)),
        }]),
    };
    client.rewards_max_spread_for_market("c", FetchEvent::Body(Ok(detail)));
    let again = client.rewards_max_spread_for_market("c", FetchEvent::Begin);
    assert!(matches!(again, FetchAction::Return(Ok(None))));
}
