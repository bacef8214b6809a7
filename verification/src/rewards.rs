use crate::binary64::{clamped_to_zero, product, Binary64, HUNDREDTH};
use crate::http_status::{is_success, status_line, status_text, success};
use crate::text::{trim, trimmed};
use vstd::hash_map::StringHashMap;
use vstd::prelude::*;

verus! {

/// A market that pays rewards.
#[derive(Debug, Clone)]
pub struct RewardMarket {
    pub condition_id: String,
    pub rewards_max_spread_cents: Binary64,
    pub rewards_min_size: Binary64,
    pub daily_rate: Binary64,
}

/// One outcome of a market.
#[derive(Debug, Clone)]
pub struct RewardToken {
    pub token_id: String,
    pub outcome: String,
    pub price: Option<Binary64>,
}

/// A market with its outcomes.
#[derive(Debug, Clone)]
pub struct RewardMarketDetail {
    pub condition_id: String,
    pub question: String,
    pub tokens: Vec<RewardToken>,
    pub rewards_max_spread_cents: Binary64,
    pub rewards_min_size: Binary64,
}

/// A row of the list of current reward markets, as the service sends it.
#[derive(Debug)]
pub struct RewardsRow {
    pub condition_id: Option<String>,
    pub rewards_max_spread: Option<Binary64>,
    pub rewards_min_size: Option<Binary64>,
    pub native_daily_rate: Option<Binary64>,
    pub total_daily_rate: Option<Binary64>,
}

/// The list of current reward markets, as the service sends it.
#[derive(Debug)]
pub struct RewardsResponse {
    pub data: Option<Vec<RewardsRow>>,
}

/// A row of a market's detail, as the service sends it.
#[derive(Debug)]
pub struct MarketDetailRow {
    pub condition_id: String,
    pub question: Option<String>,
    pub tokens: Option<Vec<RewardToken>>,
    pub rewards_max_spread: Option<Binary64>,
    pub rewards_min_size: Option<Binary64>,
}

/// A market's detail, as the service sends it.
#[derive(Debug)]
pub struct MarketDetailResponse {
    pub data: Option<Vec<MarketDetailRow>>,
}

pub struct RewardMarketView {
    pub condition_id: Seq<char>,
    pub rewards_max_spread_cents: Binary64,
    pub rewards_min_size: Binary64,
    pub daily_rate: Binary64,
}

impl View for RewardMarket {
    type V = RewardMarketView;

    open spec fn view(&self) -> RewardMarketView {
        RewardMarketView {
            condition_id: self.condition_id@,
            rewards_max_spread_cents: self.rewards_max_spread_cents,
            rewards_min_size: self.rewards_min_size,
            daily_rate: self.daily_rate,
        }
    }
}

/// The daily rate of a row: the total one, in its absence the native one.
pub open spec fn rate_of(row: RewardsRow) -> Option<Binary64> {
    match row.total_daily_rate {
        Some(rate) => Some(rate),
        None => row.native_daily_rate,
    }
}

/// The market that a row stands for. A row that lacks a field, whose identifier is blank, or
/// whose spread, size or rate is not a finite number above zero stands for none.
pub open spec fn market_of(row: RewardsRow) -> Option<RewardMarketView> {
    match (row.condition_id, row.rewards_max_spread, row.rewards_min_size, rate_of(row)) {
        (Some(id), Some(spread), Some(size), Some(rate)) => {
            if trimmed(id@).len() > 0 && spread.positive() && size.positive() && rate.positive() {
                Some(
                    RewardMarketView {
                        condition_id: trimmed(id@),
                        rewards_max_spread_cents: spread,
                        rewards_min_size: size,
                        daily_rate: rate,
                    },
                )
            } else {
                None
            }
        },
        _ => None,
    }
}

/// The markets that rows stand for, in the order of the rows.
pub open spec fn markets_of(rows: Seq<RewardsRow>) -> Seq<RewardMarketView>
    decreases rows.len(),
{
    if rows.len() == 0 {
        Seq::empty()
    } else {
        let before = markets_of(rows.drop_last());
        match market_of(rows.last()) {
            Some(market) => before.push(market),
            None => before,
        }
    }
}

/// `order` lists the positions of `listed` so that the rates fall and equal rates keep their
/// order, and `ranked` are the markets at those positions.
pub open spec fn ranks(
    listed: Seq<RewardMarketView>,
    ranked: Seq<RewardMarketView>,
    order: Seq<int>,
) -> bool {
    &&& ranked.len() == listed.len()
    &&& order.len() == listed.len()
    &&& order.no_duplicates()
    &&& forall|i: int|
        #![trigger order[i]]
        0 <= i < order.len() ==> 0 <= order[i] < listed.len() && ranked[i] == listed[order[i]]
    &&& forall|i: int, j: int|
        0 <= i < j < order.len() ==> #[trigger] outranks(
            ranked[i],
            order[i],
            ranked[j],
            order[j],
        )
}

/// A higher rate comes first; of equal rates, the lower position.
pub open spec fn outranks(a: RewardMarketView, at_a: int, b: RewardMarketView, at_b: int) -> bool {
    ||| a.daily_rate.rank() > b.daily_rate.rank()
    ||| a.daily_rate.rank() == b.daily_rate.rank() && at_a < at_b
}

/// `ranked` holds the markets of `listed`, the highest daily rate first; of equal rates the one
/// listed first comes first.
pub open spec fn is_ranking(listed: Seq<RewardMarketView>, ranked: Seq<RewardMarketView>) -> bool {
    exists|order: Seq<int>| ranks(listed, ranked, order)
}

/// The models of a list of markets.
pub open spec fn market_views(markets: Seq<RewardMarket>) -> Seq<RewardMarketView> {
    markets.map_values(|m: RewardMarket| m@)
}

fn read_market(row: &RewardsRow) -> (m: Option<RewardMarket>)
    ensures
        m is Some <==> market_of(*row) is Some,
        m is Some ==> Some(m->0@) == market_of(*row),
{
    let rate = match row.total_daily_rate {
        Some(rate) => Some(rate),
        None => row.native_daily_rate,
    };
    match (&row.condition_id, row.rewards_max_spread, row.rewards_min_size, rate) {
        (Some(id), Some(spread), Some(size), Some(rate)) => {
            let condition_id = trim(id.as_str());
            if condition_id.as_str().is_empty() || !spread.is_positive() || !size.is_positive()
                || !rate.is_positive() {
                None
            } else {
                Some(
                    RewardMarket {
                        condition_id,
                        rewards_max_spread_cents: spread,
                        rewards_min_size: size,
                        daily_rate: rate,
                    },
                )
            }
        },
        _ => None,
    }
}

/// Puts a market into a ranking, behind those whose rate is no lower.
fn rank_market(
    ranked: &mut Vec<RewardMarket>,
    market: RewardMarket,
    Ghost(listed): Ghost<Seq<RewardMarketView>>,
)
    requires
        is_ranking(listed, market_views(old(ranked)@)),
    ensures
        is_ranking(listed.push(market@), market_views(final(ranked)@)),
{
    let ghost before = ranked@;
    let ghost order = choose|order: Seq<int>| ranks(listed, market_views(before), order);
    let mut at: usize = 0;
    while at < ranked.len() && !ranked[at].daily_rate.ranks_below(market.daily_rate)
        invariant
            at <= ranked@.len(),
            ranked@ == before,
            forall|i: int|
                0 <= i < at ==> before[i].daily_rate.rank() >= market.daily_rate.rank(),
        decreases ranked@.len() - at,
    {
        at = at + 1;
    }
    ranked.insert(at, market);
    proof {
        let grown = listed.push(market@);
        let now = market_views(ranked@);
        let order2 = order.insert(at as int, listed.len() as int);
        let was = market_views(before);
        assert(now =~= was.insert(at as int, market@));
        assert forall|i: int| 0 <= i < order2.len() implies 0 <= (#[trigger] order2[i])
            < grown.len() && now[i] == grown[order2[i]] by {
            if i < at {
                assert(order2[i] == order[i]);
            } else if i > at {
                assert(order2[i] == order[i - 1]);
            }
        }
        assert forall|i: int, j: int| 0 <= i < j < order2.len() implies #[trigger] outranks(
            now[i],
            order2[i],
            now[j],
            order2[j],
        ) by {
            let i0 = if i < at { i } else { i - 1 };
            let j0 = if j < at { j } else { j - 1 };
            if i != at && j != at {
                assert(outranks(was[i0], order[i0], was[j0], order[j0]));
            } else if j == at {
                assert(order[i] < listed.len());
                assert(was[i] == before[i]@);
            } else {
                assert(was[j0] == before[j0]@);
                if j0 > at {
                    assert(was[at as int] == before[at as int]@);
                    assert(outranks(was[at as int], order[at as int], was[j0], order[j0]));
                }
            }
        }
        assert(order2.no_duplicates());
        assert(ranks(grown, now, order2));
    }
}

/// The requests that the rewards service is sent.
#[derive(Debug, Clone, Copy, PartialEq, Eq, Structural)]
pub enum RewardsRequest {
    CurrentMarkets,
    MarketDetail,
    SpreadLookup,
}

/// What can go wrong between a request to the rewards service and its answer.
#[derive(Debug)]
pub enum RewardsError {
    /// The request could not be sent, or the body of the answer not be read.
    Transport(String),
    /// The answer has a status that is no success.
    Status(RewardsRequest, u16),
    /// The body is not the JSON that was expected.
    Json(String),
    EmptyDetail,
    NoPositiveSpread,
    NoPositiveMinimumSize,
    NoTokens,
}

/// The words before the status in the message of a failed request.
pub open spec fn failure_words(request: RewardsRequest) -> Seq<char> {
    match request {
        RewardsRequest::CurrentMarkets => "current reward markets failed status="@,
        RewardsRequest::MarketDetail => "reward market detail failed status="@,
        RewardsRequest::SpreadLookup => "reward market lookup failed status="@,
    }
}

/// The message of a request that was answered with the given status.
pub fn failure_message(request: RewardsRequest, status: &str) -> (t: String)
    ensures
        t@ == failure_words(request) + status@,
{
    let words = match request {
        RewardsRequest::CurrentMarkets => "current reward markets failed status=",
        RewardsRequest::MarketDetail => "reward market detail failed status=",
        RewardsRequest::SpreadLookup => "reward market lookup failed status=",
    };
    words.to_owned().concat(status)
}

impl RewardsError {
    pub open spec fn text(self) -> Seq<char> {
        match self {
            RewardsError::Transport(cause) => cause@,
            RewardsError::Status(request, code) => failure_words(request) + status_line(code),
            RewardsError::Json(cause) => cause@,
            RewardsError::EmptyDetail => "empty reward market detail"@,
            RewardsError::NoPositiveSpread => "reward market detail has no positive spread"@,
            RewardsError::NoPositiveMinimumSize => {
                "reward market detail has no positive minimum size"@
            },
            RewardsError::NoTokens => "reward market detail has no tokens"@,
        }
    }

    /// The message for a log.
    pub fn message(&self) -> (t: String)
        ensures
            t@ == self.text(),
    {
        match self {
            RewardsError::Transport(cause) => cause.clone(),
            RewardsError::Status(request, code) => failure_message(
                *request,
                status_text(*code).as_str(),
            ),
            RewardsError::Json(cause) => cause.clone(),
            RewardsError::EmptyDetail => "empty reward market detail".to_owned(),
            RewardsError::NoPositiveSpread => {
                "reward market detail has no positive spread".to_owned()
            },
            RewardsError::NoPositiveMinimumSize => {
                "reward market detail has no positive minimum size".to_owned()
            },
            RewardsError::NoTokens => "reward market detail has no tokens".to_owned(),
        }
    }
}

/// The rows of a list; none where the field is missing.
pub open spec fn rows_of(response: RewardsResponse) -> Seq<RewardsRow> {
    match response.data {
        Some(rows) => rows@,
        None => Seq::empty(),
    }
}

/// What a body, decoded or not, is as a list of current markets.
pub open spec fn lists_markets(
    payload: Result<RewardsResponse, String>,
    result: Result<Vec<RewardMarket>, RewardsError>,
) -> bool {
    match payload {
        Ok(response) => result is Ok && is_ranking(
            markets_of(rows_of(response)),
            market_views(result->Ok_0@),
        ),
        Err(cause) => result == Err::<Vec<RewardMarket>, RewardsError>(RewardsError::Json(cause)),
    }
}

/// The usable markets of a decoded body, the highest daily rate first.
pub fn parse_current_markets(payload: Result<RewardsResponse, String>) -> (result: Result<
    Vec<RewardMarket>,
    RewardsError,
>)
    ensures
        lists_markets(payload, result),
{
    let response = match payload {
        Ok(response) => response,
        Err(cause) => return Err(RewardsError::Json(cause)),
    };
    let mut ranked: Vec<RewardMarket> = Vec::new();
    proof {
        let none = Seq::<RewardMarketView>::empty();
        assert(market_views(ranked@) =~= none);
        assert(ranks(none, none, Seq::empty()));
    }
    if let Some(rows) = response.data {
        let mut i: usize = 0;
        assert(rows@.take(0) =~= Seq::empty());
        while i < rows.len()
            invariant
                i <= rows@.len(),
                is_ranking(markets_of(rows@.take(i as int)), market_views(ranked@)),
            decreases rows@.len() - i,
        {
            let ghost listed = markets_of(rows@.take(i as int));
            assert(rows@.take(i + 1).drop_last() =~= rows@.take(i as int));
            if let Some(market) = read_market(&rows[i]) {
                rank_market(&mut ranked, market, Ghost(listed));
            }
            i = i + 1;
        }
        assert(rows@.take(i as int) =~= rows@);
    }
    Ok(ranked)
}

pub struct RewardMarketDetailView {
    pub condition_id: Seq<char>,
    pub question: Seq<char>,
    pub tokens: Seq<RewardToken>,
    pub rewards_max_spread_cents: Binary64,
    pub rewards_min_size: Binary64,
}

impl View for RewardMarketDetail {
    type V = RewardMarketDetailView;

    open spec fn view(&self) -> RewardMarketDetailView {
        RewardMarketDetailView {
            condition_id: self.condition_id@,
            question: self.question@,
            tokens: self.tokens@,
            rewards_max_spread_cents: self.rewards_max_spread_cents,
            rewards_min_size: self.rewards_min_size,
        }
    }
}

/// What a body, decoded or not, is as a market's detail. Only its first row counts.
pub open spec fn detail_of(payload: Result<MarketDetailResponse, String>) -> Result<
    RewardMarketDetailView,
    RewardsError,
> {
    match payload {
        Err(cause) => Err(RewardsError::Json(cause)),
        Ok(response) => {
            if response.data is None || response.data->0@.len() == 0 {
                Err(RewardsError::EmptyDetail)
            } else {
                detail_of_row(response.data->0@[0])
            }
        },
    }
}

pub open spec fn detail_of_row(row: MarketDetailRow) -> Result<
    RewardMarketDetailView,
    RewardsError,
> {
    if row.rewards_max_spread is None || !row.rewards_max_spread->0.positive() {
        Err(RewardsError::NoPositiveSpread)
    } else if row.rewards_min_size is None || !row.rewards_min_size->0.positive() {
        Err(RewardsError::NoPositiveMinimumSize)
    } else if row.tokens is None || row.tokens->0@.len() == 0 {
        Err(RewardsError::NoTokens)
    } else {
        Ok(
            RewardMarketDetailView {
                condition_id: row.condition_id@,
                question: match row.question {
                    Some(question) => question@,
                    None => Seq::empty(),
                },
                tokens: row.tokens->0@,
                rewards_max_spread_cents: row.rewards_max_spread->0,
                rewards_min_size: row.rewards_min_size->0,
            },
        )
    }
}

/// The market of a decoded body.
pub fn parse_market_detail(payload: Result<MarketDetailResponse, String>) -> (result: Result<
    RewardMarketDetail,
    RewardsError,
>)
    ensures
        match result {
            Ok(detail) => detail_of(payload) == Ok::<RewardMarketDetailView, RewardsError>(detail@),
            Err(error) => detail_of(payload) == Err::<RewardMarketDetailView, RewardsError>(error),
        },
{
    let response = match payload {
        Ok(response) => response,
        Err(cause) => return Err(RewardsError::Json(cause)),
    };
    let mut rows = match response.data {
        Some(rows) => rows,
        None => return Err(RewardsError::EmptyDetail),
    };
    if rows.len() == 0 {
        return Err(RewardsError::EmptyDetail);
    }
    let row = rows.remove(0);
    let spread = match row.rewards_max_spread {
        Some(spread) => spread,
        None => return Err(RewardsError::NoPositiveSpread),
    };
    if !spread.is_positive() {
        return Err(RewardsError::NoPositiveSpread);
    }
    let min_size = match row.rewards_min_size {
        Some(min_size) => min_size,
        None => return Err(RewardsError::NoPositiveMinimumSize),
    };
    if !min_size.is_positive() {
        return Err(RewardsError::NoPositiveMinimumSize);
    }
    let tokens = match row.tokens {
        Some(tokens) => tokens,
        None => return Err(RewardsError::NoTokens),
    };
    if tokens.len() == 0 {
        return Err(RewardsError::NoTokens);
    }
    let question = match row.question {
        Some(question) => question,
        None => String::new(),
    };
    Ok(
        RewardMarketDetail {
            condition_id: row.condition_id,
            question,
            tokens,
            rewards_max_spread_cents: spread,
            rewards_min_size: min_size,
        },
    )
}

/// What happens to a request: it begins, cannot be sent, is answered with a status, and the body
/// of the answer cannot be read or arrives, decoded or not.
#[derive(Debug)]
pub enum FetchEvent<T> {
    Begin,
    SendFailed(String),
    Status(u16),
    BodyFailed(String),
    Body(Result<T, String>),
}

/// What to do next about a request: send it, read the body of the answer, or stop.
#[derive(Debug)]
pub enum FetchAction<R> {
    Get(String),
    ReadBody,
    Return(Result<R, RewardsError>),
}

/// The part of the protocol that does not depend on the body: the body is read if and only if
/// the status is a success, and a failure to send or to read ends the request.
pub open spec fn follows_protocol<T, R>(
    request: RewardsRequest,
    event: FetchEvent<T>,
    action: FetchAction<R>,
) -> bool {
    match event {
        FetchEvent::Begin => true,
        FetchEvent::SendFailed(cause) => action == FetchAction::<R>::Return(
            Err(RewardsError::Transport(cause)),
        ),
        FetchEvent::Status(code) => action == (if success(code) {
            FetchAction::<R>::ReadBody
        } else {
            FetchAction::<R>::Return(Err(RewardsError::Status(request, code)))
        }),
        FetchEvent::BodyFailed(cause) => action == FetchAction::<R>::Return(
            Err(RewardsError::Transport(cause)),
        ),
        FetchEvent::Body(_) => action is Return,
    }
}

/// The prices around a midpoint at which orders earn rewards.
#[derive(Debug, Clone, Copy, PartialEq, Eq, Structural)]
pub struct RewardRange {
    pub mid: Binary64,
    pub delta: Binary64,
}

/// A spread in cents as a distance in price; a spread below zero counts as none.
pub open spec fn reward_delta(spread: Binary64) -> Binary64 {
    product(clamped_to_zero(spread), Binary64 { bits: HUNDREDTH })
}

/// The requests to the rewards service, and the spreads that it has answered.
pub struct RewardsClient {
    base_url: String,
    cache: StringHashMap<Option<Binary64>>,
}

/// The spread that a body gives; none where it has no usable market.
pub open spec fn spread_of(payload: Result<MarketDetailResponse, String>) -> Option<Binary64> {
    match detail_of(payload) {
        Ok(detail) => Some(detail.rewards_max_spread_cents),
        Err(_) => None,
    }
}

/// The remembered spreads after an event in the lookup of a market.
pub open spec fn cache_after(
    cache: Map<Seq<char>, Option<Binary64>>,
    condition_id: Seq<char>,
    event: FetchEvent<MarketDetailResponse>,
) -> Map<Seq<char>, Option<Binary64>> {
    match event {
        FetchEvent::Body(payload) => cache.insert(condition_id, spread_of(payload)),
        _ => cache,
    }
}

/// The answer that an event in the lookup of a market gives, if it gives one.
pub open spec fn answer_to(
    cache: Map<Seq<char>, Option<Binary64>>,
    condition_id: Seq<char>,
    event: FetchEvent<MarketDetailResponse>,
) -> Option<Option<Binary64>> {
    match event {
        FetchEvent::Begin => if cache.contains_key(condition_id) {
            Some(cache[condition_id])
        } else {
            None
        },
        FetchEvent::Body(payload) => Some(spread_of(payload)),
        _ => None,
    }
}

impl RewardsClient {
    /// The address of the service.
    pub closed spec fn base(&self) -> Seq<char> {
        self.base_url@
    }

    /// The spreads that are remembered, by condition.
    pub closed spec fn remembered(&self) -> Map<Seq<char>, Option<Binary64>> {
        self.cache@
    }

    pub open spec fn current_markets_url(&self) -> Seq<char> {
        self.base() + "/rewards/markets/current"@
    }

    pub open spec fn market_url(&self, condition_id: Seq<char>) -> Seq<char> {
        self.base() + "/rewards/markets/"@ + condition_id
    }

    pub fn new(base_url: String) -> (client: RewardsClient)
        ensures
            client.base() == base_url@,
            client.remembered() == Map::<Seq<char>, Option<Binary64>>::empty(),
    {
        RewardsClient { base_url, cache: StringHashMap::new() }
    }

    /// The range that a spread in cents spans on either side of a midpoint.
    pub fn reward_range(mid: Binary64, rewards_max_spread: Binary64) -> (range: RewardRange)
        ensures
            range == (RewardRange { mid, delta: reward_delta(rewards_max_spread) }),
    {
        RewardRange {
            mid,
            delta: rewards_max_spread.clamp_to_zero().times(Binary64::from_bits(HUNDREDTH)),
        }
    }

    /// The next step of the request for the current reward markets.
    pub fn current_markets(&self, event: FetchEvent<RewardsResponse>) -> (action: FetchAction<
        Vec<RewardMarket>,
    >)
        ensures
            follows_protocol(RewardsRequest::CurrentMarkets, event, action),
            event is Begin ==> action is Get && action->Get_0@ == self.current_markets_url(),
            event matches FetchEvent::Body(payload) ==> lists_markets(payload, action->Return_0),
    {
        match event {
            FetchEvent::Begin => FetchAction::Get(
                self.base_url.clone().concat("/rewards/markets/current"),
            ),
            FetchEvent::SendFailed(cause) => FetchAction::Return(
                Err(RewardsError::Transport(cause)),
            ),
            FetchEvent::Status(code) => gate(RewardsRequest::CurrentMarkets, code),
            FetchEvent::BodyFailed(cause) => FetchAction::Return(
                Err(RewardsError::Transport(cause)),
            ),
            FetchEvent::Body(payload) => FetchAction::Return(parse_current_markets(payload)),
        }
    }

    /// The next step of the request for a market's detail.
    pub fn market_detail(
        &self,
        condition_id: &str,
        event: FetchEvent<MarketDetailResponse>,
    ) -> (action: FetchAction<RewardMarketDetail>)
        ensures
            follows_protocol(RewardsRequest::MarketDetail, event, action),
            event is Begin ==> action is Get && action->Get_0@ == self.market_url(condition_id@),
            event matches FetchEvent::Body(payload) ==> match action->Return_0 {
                Ok(detail) => detail_of(payload) == Ok::<RewardMarketDetailView, RewardsError>(
                    detail@,
                ),
                Err(error) => detail_of(payload) == Err::<RewardMarketDetailView, RewardsError>(
                    error,
                ),
            },
    {
        match event {
            FetchEvent::Begin => FetchAction::Get(
                self.base_url.clone().concat("/rewards/markets/").concat(condition_id),
            ),
            FetchEvent::SendFailed(cause) => FetchAction::Return(
                Err(RewardsError::Transport(cause)),
            ),
            FetchEvent::Status(code) => gate(RewardsRequest::MarketDetail, code),
            FetchEvent::BodyFailed(cause) => FetchAction::Return(
                Err(RewardsError::Transport(cause)),
            ),
            FetchEvent::Body(payload) => FetchAction::Return(parse_market_detail(payload)),
        }
    }

    /// The next step of the lookup of a market's spread. An answer is remembered, also that a
    /// market has no spread; a failed request is not.
    pub fn rewards_max_spread_for_market(
        &mut self,
        condition_id: &str,
        event: FetchEvent<MarketDetailResponse>,
    ) -> (action: FetchAction<Option<Binary64>>)
        ensures
            final(self).base() == old(self).base(),
            final(self).remembered() == cache_after(old(self).remembered(), condition_id@, event),
            follows_protocol(RewardsRequest::SpreadLookup, event, action),
            match answer_to(old(self).remembered(), condition_id@, event) {
                Some(spread) => action == FetchAction::<Option<Binary64>>::Return(Ok(spread)),
                None => !(action is Return) || action->Return_0 is Err,
            },
            event is Begin && answer_to(old(self).remembered(), condition_id@, event) is None ==> action
                is Get && action->Get_0@ == old(self).market_url(condition_id@),
    {
        match event {
            FetchEvent::Begin => {
                match self.cache.get(condition_id) {
                    Some(spread) => FetchAction::Return(Ok(*spread)),
                    None => FetchAction::Get(
                        self.base_url.clone().concat("/rewards/markets/").concat(condition_id),
                    ),
                }
            },
            FetchEvent::SendFailed(cause) => FetchAction::Return(
                Err(RewardsError::Transport(cause)),
            ),
            FetchEvent::Status(code) => gate(RewardsRequest::SpreadLookup, code),
            FetchEvent::BodyFailed(cause) => FetchAction::Return(
                Err(RewardsError::Transport(cause)),
            ),
            FetchEvent::Body(payload) => {
                let spread = match parse_market_detail(payload) {
                    Ok(detail) => Some(detail.rewards_max_spread_cents),
                    Err(_) => None,
                };
                self.cache.insert(condition_id.to_owned(), spread);
                FetchAction::Return(Ok(spread))
            },
        }
    }
}

fn gate<R>(request: RewardsRequest, code: u16) -> (action: FetchAction<R>)
    ensures
        action == (if success(code) {
            FetchAction::<R>::ReadBody
        } else {
            FetchAction::<R>::Return(Err(RewardsError::Status(request, code)))
        }),
{
    if is_success(code) {
        FetchAction::ReadBody
    } else {
        FetchAction::Return(Err(RewardsError::Status(request, code)))
    }
}

} // verus!
