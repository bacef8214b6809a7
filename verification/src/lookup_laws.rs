use crate::binary64::Binary64;
use crate::http_status::{status_line, success};
use crate::rewards::{
    answer_to, cache_after, detail_of, failure_words, follows_protocol, spread_of, FetchAction,
    FetchEvent, MarketDetailResponse, RewardMarketDetail, RewardMarketDetailView, RewardsClient,
    RewardsError, RewardsRequest,
};
use vstd::prelude::*;

verus! {

/// A detail is that of the first row, and each failure names the first thing that the row lacks: a
/// spread, then a minimum size, both finite and above zero, then a token.
pub proof fn lemma_detail_is_that_of_the_first_row(response: MarketDetailResponse)
    requires
        response.data is Some,
        response.data->0@.len() > 0,
    ensures
        ({
            let row = response.data->0@[0];
            let spread = row.rewards_max_spread is Some && row.rewards_max_spread->0.finite()
                && row.rewards_max_spread->0.value() > 0;
            let size = row.rewards_min_size is Some && row.rewards_min_size->0.finite()
                && row.rewards_min_size->0.value() > 0;
            let tokens = row.tokens is Some && row.tokens->0@.len() > 0;
            match detail_of(Ok(response)) {
                Ok(detail) => {
                    &&& spread && size && tokens
                    &&& detail.condition_id == row.condition_id@
                    &&& row.question matches Some(question) ==> detail.question == question@
                    &&& row.question is None ==> detail.question == Seq::<char>::empty()
                    &&& detail.tokens == row.tokens->0@
                    &&& row.rewards_max_spread == Some(detail.rewards_max_spread_cents)
                    &&& row.rewards_min_size == Some(detail.rewards_min_size)
                },
                Err(RewardsError::NoPositiveSpread) => !spread,
                Err(RewardsError::NoPositiveMinimumSize) => spread && !size,
                Err(RewardsError::NoTokens) => spread && size && !tokens,
                Err(_) => false,
            }
        }),
{
}

/// A body without rows has no detail, and one that was not decoded gives the cause.
pub proof fn lemma_no_row_has_no_detail(payload: Result<MarketDetailResponse, String>)
    ensures
        detail_of(payload) == Err::<RewardMarketDetailView, RewardsError>(RewardsError::EmptyDetail)
            <==> payload is Ok && (payload->Ok_0.data is None || payload->Ok_0.data->0@.len()
            == 0),
        payload matches Err(cause) ==> detail_of(payload) == Err::<
            RewardMarketDetailView,
            RewardsError,
        >(RewardsError::Json(cause)),
{
}

/// What follows the first row makes no difference.
pub proof fn lemma_only_the_first_row_counts(a: MarketDetailResponse, b: MarketDetailResponse)
    requires
        a.data is Some && a.data->0@.len() > 0,
        b.data is Some && b.data->0@.len() > 0,
        a.data->0@[0] == b.data->0@[0],
    ensures
        detail_of(Ok(a)) == detail_of(Ok(b)),
{
}

/// The model of a detail has all of its fields.
pub proof fn lemma_detail_model_is_whole(detail: RewardMarketDetail)
    ensures
        detail@.condition_id == detail.condition_id@,
        detail@.question == detail.question@,
        detail@.tokens == detail.tokens@,
        detail@.rewards_max_spread_cents == detail.rewards_max_spread_cents,
        detail@.rewards_min_size == detail.rewards_min_size,
{
}

/// A body whose first row has a usable spread, a usable minimum size and a token or more answers
/// the lookup with that spread, however many tokens and rows there are, and it is remembered.
pub proof fn lemma_usable_body_answers_with_its_spread(
    cache: Map<Seq<char>, Option<Binary64>>,
    condition_id: Seq<char>,
    response: MarketDetailResponse,
    spread: Binary64,
    size: Binary64,
)
    requires
        response.data is Some && response.data->0@.len() > 0,
        response.data->0@[0].rewards_max_spread == Some(spread),
        response.data->0@[0].rewards_min_size == Some(size),
        response.data->0@[0].tokens is Some && response.data->0@[0].tokens->0@.len() > 0,
        spread.finite() && spread.value() > 0,
        size.finite() && size.value() > 0,
    ensures
        answer_to(cache, condition_id, FetchEvent::Body(Ok(response))) == Some(Some(spread)),
        cache_after(cache, condition_id, FetchEvent::Body(Ok(response))).contains_pair(
            condition_id,
            Some(spread),
        ),
        spread_of(Ok(response)) == Some(spread),
{
}

/// The lookup answers a body with nothing exactly where the body has no detail, and otherwise with
/// the spread of the detail; what it answers, it remembers, and nothing else changes.
pub proof fn lemma_body_is_answered_by_its_detail(
    cache: Map<Seq<char>, Option<Binary64>>,
    condition_id: Seq<char>,
    payload: Result<MarketDetailResponse, String>,
)
    ensures
        ({
            let answer = answer_to(cache, condition_id, FetchEvent::Body(payload));
            let after = cache_after(cache, condition_id, FetchEvent::Body(payload));
            &&& answer is Some
            &&& answer->0 is None <==> detail_of(payload) is Err
            &&& answer->0 matches Some(spread) ==> payload->Ok_0.data->0@[0].rewards_max_spread
                == Some(spread)
            &&& after.contains_pair(condition_id, answer->0)
            &&& forall|other: Seq<char>|
                other != condition_id ==> (#[trigger] after.contains_key(other)
                    <==> cache.contains_key(other)) && (after.contains_key(other) ==> after[other]
                    == cache[other])
        }),
{
}

/// A lookup begins with what is remembered of the market, if anything is; nothing but a body
/// changes what is remembered, and neither a status nor a failure answers it.
pub proof fn lemma_only_bodies_are_remembered(
    cache: Map<Seq<char>, Option<Binary64>>,
    condition_id: Seq<char>,
    event: FetchEvent<MarketDetailResponse>,
)
    ensures
        !(event is Body) ==> cache_after(cache, condition_id, event) == cache,
        event is Begin && cache.contains_key(condition_id) ==> answer_to(cache, condition_id, event)
            == Some(cache[condition_id]),
        event is Begin && !cache.contains_key(condition_id) ==> answer_to(
            cache,
            condition_id,
            event,
        ) is None,
        event is Status || event is SendFailed || event is BodyFailed ==> answer_to(
            cache,
            condition_id,
            event,
        ) is None,
{
}

/// Codes tell of a success where their first of three digits is a 2.
pub proof fn lemma_success_is_the_two_hundreds(code: u16)
    ensures
        success(code) <==> code / 100 == 2,
{
}

/// The body of an answer is read where the code tells of a success, and otherwise the request ends
/// with an error that names the request and the code; a failure ends it with its own cause; and a
/// body ends it in any case.
pub proof fn lemma_request_goes_on_after_a_success_only<T, R>(
    request: RewardsRequest,
    event: FetchEvent<T>,
    action: FetchAction<R>,
)
    requires
        follows_protocol(request, event, action),
    ensures
        event matches FetchEvent::Status(code) ==> {
            &&& action is ReadBody <==> code / 100 == 2
            &&& code / 100 != 2 ==> action == FetchAction::<R>::Return(
                Err(RewardsError::Status(request, code)),
            )
        },
        event matches FetchEvent::SendFailed(cause) ==> action == FetchAction::<R>::Return(
            Err(RewardsError::Transport(cause)),
        ),
        event matches FetchEvent::BodyFailed(cause) ==> action == FetchAction::<R>::Return(
            Err(RewardsError::Transport(cause)),
        ),
        event is Body ==> action is Return,
{
}

/// The address of a market is that of the service, a fixed path, and the market's identifier; the
/// current markets are asked for as if they were the market `current`.
pub proof fn lemma_addresses_end_with_the_market(client: RewardsClient, condition_id: Seq<char>)
    ensures
        client.market_url(condition_id).len() == client.base().len() + 17 + condition_id.len(),
        client.market_url(condition_id).take(client.base().len() as int) == client.base(),
        client.market_url(condition_id).skip((client.base().len() + 17) as int) == condition_id,
        client.market_url(condition_id).take((client.base().len() + 17) as int) == client.market_url(
            Seq::empty(),
        ),
        client.current_markets_url() == client.market_url("current"@),
{
    reveal_strlit("/rewards/markets/");
    reveal_strlit("/rewards/markets/current");
    reveal_strlit("current");
    assert("/rewards/markets/"@.len() == 17);
    let url = client.market_url(condition_id);
    assert(url.take(client.base().len() as int) =~= client.base());
    assert(url.skip((client.base().len() + 17) as int) =~= condition_id);
    assert(url.take((client.base().len() + 17) as int) =~= client.market_url(Seq::empty()));
    assert("/rewards/markets/current"@ =~= "/rewards/markets/"@ + "current"@);
    assert(client.current_markets_url() =~= client.market_url("current"@));
}

/// A message gives the cause as it came, or the status behind words that tell the requests apart.
pub proof fn lemma_messages_give_the_cause(
    cause: String,
    request: RewardsRequest,
    other: RewardsRequest,
    code: u16,
)
    ensures
        RewardsError::Transport(cause).text() == cause@,
        RewardsError::Json(cause).text() == cause@,
        RewardsError::Status(request, code).text().skip(failure_words(request).len() as int)
            == status_line(code),
        RewardsError::Status(request, code).text().take(failure_words(request).len() as int)
            == failure_words(request),
        request != other ==> failure_words(request) != failure_words(other),
        RewardsError::EmptyDetail.text() == "empty reward market detail"@,
        RewardsError::NoPositiveSpread.text() == "reward market detail has no positive spread"@,
        RewardsError::NoPositiveMinimumSize.text()
            == "reward market detail has no positive minimum size"@,
        RewardsError::NoTokens.text() == "reward market detail has no tokens"@,
{
    let text = RewardsError::Status(request, code).text();
    assert(text.skip(failure_words(request).len() as int) =~= status_line(code));
    assert(text.take(failure_words(request).len() as int) =~= failure_words(request));
    reveal_strlit("current reward markets failed status=");
    reveal_strlit("reward market detail failed status=");
    reveal_strlit("reward market lookup failed status=");
    assert("current reward markets failed status="@[0] == 'c');
    assert("reward market detail failed status="@[0] == 'r');
    assert("reward market lookup failed status="@[0] == 'r');
    assert("reward market detail failed status="@[14] == 'd');
    assert("reward market lookup failed status="@[14] == 'l');
}

} // verus!
