use crate::binary64::Binary64;
use crate::number_laws::lemma_rank_follows_the_value;
use crate::reward_laws::{
    lemma_order_is_full, lemma_ranked_markets_are_usable, lemma_ranking_falls, lemma_ranking_keeps_markets,
};
use crate::rewards::{
    lists_markets, market_of, market_views, markets_of, outranks, ranks, rows_of, RewardMarket,
    RewardMarketView, RewardsError, RewardsResponse, RewardsRow,
};
use crate::text::{trimmed, white_space};
use crate::text_laws::lemma_blank_is_white_throughout;
use vstd::prelude::*;

verus! {

/// A row with an identifier that is not white space throughout, and with a spread, a minimum size
/// and a rate that are finite and above zero, stands for a market with just these. The rate is
/// the total one; where the row has none, the native one.
pub proof fn lemma_usable_row_stands_for_its_market(
    row: RewardsRow,
    id: String,
    spread: Binary64,
    size: Binary64,
    rate: Binary64,
)
    requires
        row.condition_id == Some(id),
        exists|i: int| 0 <= i < id@.len() && !white_space(#[trigger] id@[i]),
        row.rewards_max_spread == Some(spread),
        row.rewards_min_size == Some(size),
        row.total_daily_rate == Some(rate) || (row.total_daily_rate is None
            && row.native_daily_rate == Some(rate)),
        spread.finite() && spread.value() > 0,
        size.finite() && size.value() > 0,
        rate.finite() && rate.value() > 0,
    ensures
        market_of(row) == Some(
            RewardMarketView {
                condition_id: trimmed(id@),
                rewards_max_spread_cents: spread,
                rewards_min_size: size,
                daily_rate: rate,
            },
        ),
{
    lemma_blank_is_white_throughout(id@);
}

/// What a row stands for has the row's own identifier, spread, size and rate, and each of them is
/// usable. A total rate that is not usable is not made up for by the native one.
pub proof fn lemma_market_is_that_of_its_row(row: RewardsRow, market: RewardMarketView)
    requires
        market_of(row) == Some(market),
    ensures
        row.condition_id is Some,
        market.condition_id == trimmed(row.condition_id->0@),
        exists|i: int|
            0 <= i < row.condition_id->0@.len() && !white_space(
                #[trigger] row.condition_id->0@[i],
            ),
        row.rewards_max_spread == Some(market.rewards_max_spread_cents),
        row.rewards_min_size == Some(market.rewards_min_size),
        match row.total_daily_rate {
            Some(total) => market.daily_rate == total,
            None => row.native_daily_rate == Some(market.daily_rate),
        },
        market.rewards_max_spread_cents.finite() && market.rewards_max_spread_cents.value() > 0,
        market.rewards_min_size.finite() && market.rewards_min_size.value() > 0,
        market.daily_rate.finite() && market.daily_rate.value() > 0,
{
    let id = row.condition_id->0;
    lemma_blank_is_white_throughout(id@);
    let i = choose|i: int| 0 <= i < id@.len() && !white_space(#[trigger] id@[i]);
    assert(!white_space(id@[i]));
}

/// Every row stands for its market alone: lists that follow one another stand for the markets of
/// the one and then those of the other, and one row for one market or none.
pub proof fn lemma_rows_stand_alone(a: Seq<RewardsRow>, b: Seq<RewardsRow>, row: RewardsRow)
    ensures
        markets_of(a + b) == markets_of(a) + markets_of(b),
        markets_of(seq![row]) == (match market_of(row) {
            Some(market) => seq![market],
            None => Seq::empty(),
        }),
        markets_of(Seq::<RewardsRow>::empty()) == Seq::<RewardMarketView>::empty(),
    decreases b.len(),
{
    reveal_with_fuel(markets_of, 2);
    assert(seq![row].drop_last() =~= Seq::empty());
    if b.len() == 0 {
        assert(a + b =~= a);
        assert(markets_of(a) + markets_of(b) =~= markets_of(a));
    } else {
        assert((a + b).drop_last() =~= a + b.drop_last());
        lemma_rows_stand_alone(a, b.drop_last(), row);
        assert(markets_of(a + b) =~= markets_of(a) + markets_of(b));
    }
}

/// The rows of a body: all that it has, and none where it has no list.
proof fn lemma_rows_are_the_data(response: RewardsResponse)
    ensures
        response.data matches Some(rows) ==> rows_of(response) == rows@,
        response.data is None ==> rows_of(response) == Seq::<RewardsRow>::empty(),
{
}

/// A body that was decoded gives a list; one that was not gives the cause.
pub proof fn lemma_only_what_is_not_decoded_fails(
    payload: Result<RewardsResponse, String>,
    result: Result<Vec<RewardMarket>, RewardsError>,
)
    requires
        lists_markets(payload, result),
    ensures
        payload is Ok <==> result is Ok,
        payload matches Err(cause) ==> result == Err::<Vec<RewardMarket>, RewardsError>(
            RewardsError::Json(cause),
        ),
{
}

/// The list holds the market of every usable row as often as rows stand for it and nothing else,
/// its rates fall, and markets with one rate keep the order of their rows.
pub proof fn lemma_list_ranks_the_rows(
    response: RewardsResponse,
    rows: Seq<RewardsRow>,
    list: Vec<RewardMarket>,
    rate: Binary64,
)
    requires
        lists_markets(Ok(response), Ok(list)),
        rows == (match response.data {
            Some(data) => data@,
            None => Seq::empty(),
        }),
    ensures
        ({
            let ranked = list@.map_values(
                |m: RewardMarket|
                    RewardMarketView {
                        condition_id: m.condition_id@,
                        rewards_max_spread_cents: m.rewards_max_spread_cents,
                        rewards_min_size: m.rewards_min_size,
                        daily_rate: m.daily_rate,
                    },
            );
            let same_rate = |m: RewardMarketView| m.daily_rate == rate;
            &&& ranked.to_multiset() == markets_of(rows).to_multiset()
            &&& ranked.filter(same_rate) == markets_of(rows).filter(same_rate)
        }),
        forall|i: int, j: int|
            0 <= i <= j < list@.len() ==> (#[trigger] list@[i]).daily_rate.value() >= (
            #[trigger] list@[j]).daily_rate.value(),
{
    lemma_rows_are_the_data(response);
    let ranked = list@.map_values(
        |m: RewardMarket|
            RewardMarketView {
                condition_id: m.condition_id@,
                rewards_max_spread_cents: m.rewards_max_spread_cents,
                rewards_min_size: m.rewards_min_size,
                daily_rate: m.daily_rate,
            },
    );
    assert(ranked =~= market_views(list@));
    lemma_ranking_keeps_markets(markets_of(rows), ranked);
    lemma_ranking_falls(markets_of(rows), ranked);
    lemma_ranked_markets_are_usable(rows, ranked);
    let order = choose|order: Seq<int>| ranks(markets_of(rows), ranked, order);
    lemma_equal_rates_keep_their_order(markets_of(rows), ranked, order, rate);
    assert forall|i: int, j: int| 0 <= i <= j < list@.len() implies (
    #[trigger] list@[i]).daily_rate.value() >= (#[trigger] list@[j]).daily_rate.value() by {
        assert(ranked[i].daily_rate == list@[i].daily_rate);
        assert(ranked[j].daily_rate == list@[j].daily_rate);
        lemma_rank_follows_the_value(ranked[j].daily_rate, ranked[i].daily_rate);
    }
}

/// Where one entry lies in a filtered list that it is taken from.
proof fn lemma_filter_around<A>(list: Seq<A>, at: int, pred: spec_fn(A) -> bool)
    requires
        0 <= at < list.len(),
    ensures
        list.filter(pred) == list.take(at).filter(pred) + seq![list[at]].filter(pred) + list.skip(
            at + 1,
        ).filter(pred),
        list.remove(at).filter(pred) == list.take(at).filter(pred) + list.skip(at + 1).filter(pred),
        seq![list[at]].filter(pred) == (if pred(list[at]) {
            seq![list[at]]
        } else {
            Seq::empty()
        }),
{
    let one = seq![list[at]];
    assert(list =~= list.take(at) + one + list.skip(at + 1));
    assert(list.remove(at) =~= list.take(at) + list.skip(at + 1));
    Seq::filter_distributes_over_add(list.take(at) + one, list.skip(at + 1), pred);
    Seq::filter_distributes_over_add(list.take(at), one, pred);
    Seq::filter_distributes_over_add(list.take(at), list.skip(at + 1), pred);
    reveal_with_fuel(Seq::filter, 2);
    assert(one.drop_last() =~= Seq::empty());
    assert(Seq::<A>::empty().push(list[at]) =~= one);
}

proof fn lemma_equal_rates_keep_their_order(
    listed: Seq<RewardMarketView>,
    ranked: Seq<RewardMarketView>,
    order: Seq<int>,
    rate: Binary64,
)
    requires
        ranks(listed, ranked, order),
    ensures
        ranked.filter(|m: RewardMarketView| m.daily_rate == rate) == listed.filter(
            |m: RewardMarketView| m.daily_rate == rate,
        ),
    decreases listed.len(),
{
    let same = |m: RewardMarketView| m.daily_rate == rate;
    if listed.len() == 0 {
        assert(ranked =~= listed);
    } else {
        let last = listed.len() - 1;
        lemma_order_is_full(listed, ranked, order);
        assert(order.contains(last));
        let at = choose|i: int| 0 <= i < order.len() && order[i] == last;
        let fewer = listed.drop_last();
        let ranked2 = ranked.remove(at);
        let order2 = order.remove(at);
        assert forall|i: int| 0 <= i < order2.len() implies 0 <= (#[trigger] order2[i])
            < fewer.len() && ranked2[i] == fewer[order2[i]] by {
            let k = if i < at { i } else { i + 1 };
            assert(order2[i] == order[k] && ranked2[i] == ranked[k]);
            assert(order[k] != order[at]);
        }
        assert forall|i: int, j: int| 0 <= i < j < order2.len() implies #[trigger] outranks(
            ranked2[i],
            order2[i],
            ranked2[j],
            order2[j],
        ) by {
            let k = if i < at { i } else { i + 1 };
            let l = if j < at { j } else { j + 1 };
            assert(outranks(ranked[k], order[k], ranked[l], order[l]));
        }
        assert(order2.no_duplicates()) by {
            assert forall|i: int, j: int|
                0 <= i < order2.len() && 0 <= j < order2.len() && i != j implies order2[i]
                != order2[j] by {
                let k = if i < at { i } else { i + 1 };
                let l = if j < at { j } else { j + 1 };
                assert(order[k] != order[l]);
            }
        }
        lemma_equal_rates_keep_their_order(fewer, ranked2, order2, rate);
        lemma_filter_around(ranked, at, same);
        lemma_filter_around(listed, last, same);
        assert(listed.take(last) =~= fewer);
        assert(listed.skip(last + 1) =~= Seq::empty());
        assert(listed.remove(last) =~= fewer);
        reveal(Seq::filter);
        let tail = ranked.skip(at + 1);
        if same(listed[last]) {
            assert forall|i: int| 0 <= i < tail.len() implies !same(#[trigger] tail[i]) by {
                let k = at + 1 + i;
                assert(tail[i] == ranked[k]);
                assert(outranks(ranked[at], order[at], ranked[k], order[k]));
            }
            lemma_nothing_is_kept(tail, same);
            assert(ranked[at] == listed[last]);
            assert(ranked.filter(same) =~= listed.filter(same));
        } else {
            assert(ranked[at] == listed[last]);
            assert(ranked.filter(same) =~= listed.filter(same));
        }
    }
}

proof fn lemma_nothing_is_kept<A>(list: Seq<A>, pred: spec_fn(A) -> bool)
    requires
        forall|i: int| 0 <= i < list.len() ==> !pred(#[trigger] list[i]),
    ensures
        list.filter(pred) == Seq::<A>::empty(),
    decreases list.len(),
{
    reveal(Seq::filter);
    if list.len() > 0 {
        assert forall|i: int| 0 <= i < list.drop_last().len() implies !pred(
            #[trigger] list.drop_last()[i],
        ) by {
            assert(list[i] == list.drop_last()[i]);
        }
        lemma_nothing_is_kept(list.drop_last(), pred);
        assert(!pred(list.last()));
    } else {
        assert(list =~= Seq::empty());
    }
}

/// The market of every usable row is in the list, with the row's own numbers.
pub proof fn lemma_usable_row_is_in_the_list(
    response: RewardsResponse,
    rows: Vec<RewardsRow>,
    list: Vec<RewardMarket>,
    at: int,
    market: RewardMarketView,
)
    requires
        lists_markets(Ok(response), Ok(list)),
        response.data == Some(rows),
        0 <= at < rows@.len(),
        market_of(rows@[at]) == Some(market),
    ensures
        exists|k: int|
            0 <= k < list@.len() && (#[trigger] list@[k]).condition_id@ == market.condition_id
                && list@[k].rewards_max_spread_cents == market.rewards_max_spread_cents
                && list@[k].rewards_min_size == market.rewards_min_size && list@[k].daily_rate
                == market.daily_rate,
{
    let row = rows@[at];
    let front = rows@.take(at);
    let back = rows@.skip(at + 1);
    lemma_rows_stand_alone(front + seq![row], back, row);
    lemma_rows_stand_alone(front, seq![row], row);
    assert(rows@ =~= front + seq![row] + back);
    let listed = markets_of(rows@);
    assert(listed[markets_of(front).len() as int] == market);
    assert(listed.contains(market));
    lemma_ranking_keeps_markets(listed, market_views(list@));
    assert(market_views(list@).contains(market));
    let k = choose|k: int| 0 <= k < list@.len() && market_views(list@)[k] == market;
    assert(list@[k]@ == market);
}

} // verus!
