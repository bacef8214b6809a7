use crate::binary64::{lemma_rank_is_injective, Binary64};
use crate::rewards::{
    answer_to, cache_after, detail_of, is_ranking, market_of, markets_of, outranks, ranks,
    spread_of, FetchEvent, MarketDetailResponse, RewardMarketView, RewardsRow,
};
use crate::text::{lemma_trimmed_is_trimmed, trimmed};
use vstd::prelude::*;
use vstd::relations::{sorted_by, total_ordering};
use vstd::seq_lib::lemma_sorted_unique;
use vstd::set_lib::{lemma_int_range, lemma_subset_equality, set_int_range};

verus! {

/// In a ranking the daily rates fall.
pub proof fn lemma_ranking_falls(listed: Seq<RewardMarketView>, ranked: Seq<RewardMarketView>)
    requires
        is_ranking(listed, ranked),
    ensures
        forall|i: int, j: int|
            0 <= i <= j < ranked.len() ==> (#[trigger] ranked[i]).daily_rate.rank() >= (
            #[trigger] ranked[j]).daily_rate.rank(),
{
    let order = choose|order: Seq<int>| ranks(listed, ranked, order);
    assert forall|i: int, j: int| 0 <= i <= j < ranked.len() implies (
    #[trigger] ranked[i]).daily_rate.rank() >= (#[trigger] ranked[j]).daily_rate.rank() by {
        if i < j {
            assert(outranks(ranked[i], order[i], ranked[j], order[j]));
        }
    }
}

/// The positions that a ranking lists are all there are.
pub proof fn lemma_order_is_full(
    listed: Seq<RewardMarketView>,
    ranked: Seq<RewardMarketView>,
    order: Seq<int>,
)
    requires
        ranks(listed, ranked, order),
    ensures
        forall|p: int| 0 <= p < listed.len() ==> #[trigger] order.contains(p),
{
    let n = listed.len() as int;
    order.unique_seq_to_set();
    lemma_int_range(0, n);
    assert(order.to_set().subset_of(set_int_range(0, n))) by {
        assert forall|p: int| order.to_set().contains(p) implies set_int_range(0, n).contains(
            p,
        ) by {
            let i = choose|i: int| 0 <= i < order.len() && order[i] == p;
            assert(0 <= order[i] < n);
        }
    }
    lemma_subset_equality(order.to_set(), set_int_range(0, n));
    assert forall|p: int| 0 <= p < listed.len() implies #[trigger] order.contains(p) by {
        assert(set_int_range(0, n).contains(p));
        assert(order.to_set().contains(p));
    }
}

/// `moved` holds what `list` does at the positions that `order` lists, each position once.
spec fn rearranges<A>(list: Seq<A>, moved: Seq<A>, order: Seq<int>) -> bool {
    &&& moved.len() == list.len()
    &&& order.len() == list.len()
    &&& order.no_duplicates()
    &&& forall|i: int|
        #![trigger order[i]]
        0 <= i < order.len() ==> 0 <= order[i] < list.len() && moved[i] == list[order[i]]
}

/// A list that is rearranged holds what it held, each thing as often.
proof fn lemma_rearranged_is_the_same<A>(list: Seq<A>, moved: Seq<A>, order: Seq<int>)
    requires
        rearranges(list, moved, order),
    ensures
        moved.to_multiset() == list.to_multiset(),
    decreases list.len(),
{
    broadcast use vstd::multiset::group_multiset_axioms;

    list.to_multiset_ensures();
    if list.len() == 0 {
        assert(moved =~= list);
    } else {
        let last = list.len() - 1;
        let p = order[last];
        let rest = list.remove(p);
        let shorter = moved.drop_last();
        let order2 = Seq::new(
            last as nat,
            |i: int|
                if order[i] > p {
                    order[i] - 1
                } else {
                    order[i]
                },
        );
        assert forall|i: int| 0 <= i < order2.len() implies 0 <= (#[trigger] order2[i]) < rest.len()
            && shorter[i] == rest[order2[i]] by {
            assert(order[i] != p);
            assert(moved[i] == list[order[i]]);
        }
        assert forall|i: int, j: int|
            0 <= i < order2.len() && 0 <= j < order2.len() && i != j implies order2[i]
            != order2[j] by {
            assert(order[i] != p && order[j] != p && order[i] != order[j]);
        }
        lemma_rearranged_is_the_same(rest, shorter, order2);
        shorter.to_multiset_ensures();
        assert(shorter.push(moved.last()) =~= moved);
        assert(list.contains(list[p]));
        assert(list.to_multiset().remove(list[p]).insert(list[p]) =~= list.to_multiset());
    }
}

/// A ranking holds the markets that were listed, each as often as it was listed.
pub proof fn lemma_ranking_keeps_markets(
    listed: Seq<RewardMarketView>,
    ranked: Seq<RewardMarketView>,
)
    requires
        is_ranking(listed, ranked),
    ensures
        ranked.to_multiset() == listed.to_multiset(),
        ranked.len() == listed.len(),
        forall|m: RewardMarketView| #[trigger] ranked.contains(m) <==> listed.contains(m),
{
    let order = choose|order: Seq<int>| ranks(listed, ranked, order);
    lemma_rearranged_is_the_same(listed, ranked, order);
    listed.to_multiset_ensures();
    ranked.to_multiset_ensures();
    assert forall|m: RewardMarketView| #[trigger] ranked.contains(m) <==> listed.contains(m) by {
        assert(ranked.to_multiset().count(m) == listed.to_multiset().count(m));
    }
}

/// A list has one ranking.
pub proof fn lemma_ranking_is_unique(
    listed: Seq<RewardMarketView>,
    a: Seq<RewardMarketView>,
    b: Seq<RewardMarketView>,
)
    requires
        is_ranking(listed, a),
        is_ranking(listed, b),
    ensures
        a == b,
{
    let x = choose|order: Seq<int>| ranks(listed, a, order);
    let y = choose|order: Seq<int>| ranks(listed, b, order);
    lemma_orders_agree(listed, a, x, b, y, listed.len() as int);
    assert forall|i: int| 0 <= i < a.len() implies a[i] == b[i] by {
        assert(a[i] == listed[x[i]]);
        assert(b[i] == listed[y[i]]);
    }
    assert(a =~= b);
}

proof fn lemma_orders_agree(
    listed: Seq<RewardMarketView>,
    a: Seq<RewardMarketView>,
    x: Seq<int>,
    b: Seq<RewardMarketView>,
    y: Seq<int>,
    n: int,
)
    requires
        ranks(listed, a, x),
        ranks(listed, b, y),
        0 <= n <= listed.len(),
    ensures
        forall|i: int| 0 <= i < n ==> x[i] == y[i],
    decreases n,
{
    if n > 0 {
        let last = n - 1;
        lemma_orders_agree(listed, a, x, b, y, last);
        if x[last] != y[last] {
            lemma_order_is_full(listed, a, x);
            lemma_order_is_full(listed, b, y);
            assert(a[last] == listed[x[last]] && b[last] == listed[y[last]]);
            assert(y.contains(x[last]));
            let j = choose|j: int| 0 <= j < y.len() && y[j] == x[last];
            assert(j > last);
            assert(b[j] == listed[y[j]]);
            assert(outranks(b[last], y[last], b[j], y[j]));
            assert(x.contains(y[last]));
            let k = choose|k: int| 0 <= k < x.len() && x[k] == y[last];
            assert(k > last);
            assert(a[k] == listed[x[k]]);
            assert(outranks(a[last], x[last], a[k], x[k]));
        }
    }
}

/// What a market has to have to be listed.
pub open spec fn usable(market: RewardMarketView) -> bool {
    &&& market.condition_id.len() > 0
    &&& market.condition_id == trimmed(market.condition_id)
    &&& market.rewards_max_spread_cents.positive()
    &&& market.rewards_min_size.positive()
    &&& market.daily_rate.positive()
}

/// Every market that is listed, and so every one that is ranked, has an identifier without white
/// space at its ends and a positive spread, minimum size and rate.
pub proof fn lemma_ranked_markets_are_usable(
    rows: Seq<RewardsRow>,
    ranked: Seq<RewardMarketView>,
)
    requires
        is_ranking(markets_of(rows), ranked),
    ensures
        forall|i: int| 0 <= i < ranked.len() ==> usable(#[trigger] ranked[i]),
{
    lemma_listed_markets_are_usable(rows);
    lemma_ranking_keeps_markets(markets_of(rows), ranked);
    assert forall|i: int| 0 <= i < ranked.len() implies usable(#[trigger] ranked[i]) by {
        assert(ranked.contains(ranked[i]));
        let listed = markets_of(rows);
        assert(listed.contains(ranked[i]));
        let p = choose|p: int| 0 <= p < listed.len() && listed[p] == ranked[i];
        assert(usable(listed[p]));
    }
}

proof fn lemma_listed_markets_are_usable(rows: Seq<RewardsRow>)
    ensures
        forall|i: int| 0 <= i < markets_of(rows).len() ==> usable(#[trigger] markets_of(rows)[i]),
    decreases rows.len(),
{
    if rows.len() > 0 {
        lemma_listed_markets_are_usable(rows.drop_last());
        if let Some(id) = rows.last().condition_id {
            lemma_trimmed_is_trimmed(id@);
        }
        let before = markets_of(rows.drop_last());
        assert forall|i: int| 0 <= i < markets_of(rows).len() implies usable(
            #[trigger] markets_of(rows)[i],
        ) by {
            if i < before.len() {
                assert(markets_of(rows)[i] == before[i]);
                assert(usable(before[i]));
            }
        }
    }
}

/// The daily rates of markets, in their order.
pub open spec fn rates_of(markets: Seq<RewardMarketView>) -> Seq<Binary64> {
    markets.map_values(|m: RewardMarketView| m.daily_rate)
}

/// Rows without one of them stand for the markets without that row's.
proof fn lemma_markets_without_a_row(rows: Seq<RewardsRow>, at: int)
    requires
        0 <= at < rows.len(),
    ensures
        match market_of(rows[at]) {
            Some(market) => markets_of(rows).to_multiset() == markets_of(
                rows.remove(at),
            ).to_multiset().insert(market),
            None => markets_of(rows) == markets_of(rows.remove(at)),
        },
    decreases rows.len(),
{
    broadcast use vstd::multiset::group_multiset_axioms;

    let before = markets_of(rows.drop_last());
    before.to_multiset_ensures();
    if at == rows.len() - 1 {
        assert(rows.remove(at) =~= rows.drop_last());
    } else {
        let fewer = rows.remove(at);
        assert(fewer.drop_last() =~= rows.drop_last().remove(at));
        assert(fewer.last() == rows.last());
        lemma_markets_without_a_row(rows.drop_last(), at);
        markets_of(fewer.drop_last()).to_multiset_ensures();
        if let Some(last) = market_of(rows.last()) {
            if let Some(market) = market_of(rows[at]) {
                let base = markets_of(fewer.drop_last()).to_multiset();
                assert(base.insert(market).insert(last) =~= base.insert(last).insert(market));
            }
        }
    }
}

/// Rows in another order stand for the same markets, each as often.
proof fn lemma_markets_of_reordered_rows(a: Seq<RewardsRow>, b: Seq<RewardsRow>)
    requires
        a.to_multiset() == b.to_multiset(),
    ensures
        markets_of(a).to_multiset() == markets_of(b).to_multiset(),
    decreases a.len(),
{
    broadcast use vstd::multiset::group_multiset_axioms;

    a.to_multiset_ensures();
    b.to_multiset_ensures();
    if a.len() == 0 {
        assert(a =~= b);
    } else {
        let last = a.len() - 1;
        assert(a.contains(a[last]));
        assert(b.to_multiset().count(a[last]) > 0);
        assert(b.contains(a[last]));
        let at = choose|i: int| 0 <= i < b.len() && b[i] == a[last];
        lemma_markets_of_reordered_rows(a.remove(last), b.remove(at));
        lemma_markets_without_a_row(a, last);
        lemma_markets_without_a_row(b, at);
    }
}

/// The same markets in another order have the same rates, each as often.
proof fn lemma_rates_of_reordered_markets(a: Seq<RewardMarketView>, b: Seq<RewardMarketView>)
    requires
        a.to_multiset() == b.to_multiset(),
    ensures
        rates_of(a).to_multiset() == rates_of(b).to_multiset(),
    decreases a.len(),
{
    broadcast use vstd::multiset::group_multiset_axioms;

    a.to_multiset_ensures();
    b.to_multiset_ensures();
    if a.len() == 0 {
        assert(a =~= b);
    } else {
        let last = a.len() - 1;
        assert(a.contains(a[last]));
        assert(b.to_multiset().count(a[last]) > 0);
        assert(b.contains(a[last]));
        let at = choose|i: int| 0 <= i < b.len() && b[i] == a[last];
        lemma_rates_of_reordered_markets(a.remove(last), b.remove(at));
        lemma_rate_is_taken_out(a, last);
        lemma_rate_is_taken_out(b, at);
    }
}

proof fn lemma_rate_is_taken_out(markets: Seq<RewardMarketView>, at: int)
    requires
        0 <= at < markets.len(),
    ensures
        rates_of(markets).to_multiset() == rates_of(markets.remove(at)).to_multiset().insert(
            markets[at].daily_rate,
        ),
{
    let rates = rates_of(markets);
    let fewer = rates_of(markets.remove(at));
    assert(fewer.insert(at, markets[at].daily_rate) =~= rates);
    vstd::seq_lib::to_multiset_insert(fewer, at, markets[at].daily_rate);
}

/// The order in which the service lists its rows changes neither which markets are ranked, and
/// how often, nor the rates from the first place to the last.
pub proof fn lemma_row_order_does_not_matter(
    a: Seq<RewardsRow>,
    b: Seq<RewardsRow>,
    ranked_a: Seq<RewardMarketView>,
    ranked_b: Seq<RewardMarketView>,
)
    requires
        a.to_multiset() == b.to_multiset(),
        is_ranking(markets_of(a), ranked_a),
        is_ranking(markets_of(b), ranked_b),
    ensures
        ranked_a.to_multiset() == ranked_b.to_multiset(),
        rates_of(ranked_a) == rates_of(ranked_b),
{
    lemma_markets_of_reordered_rows(a, b);
    lemma_ranking_keeps_markets(markets_of(a), ranked_a);
    lemma_ranking_keeps_markets(markets_of(b), ranked_b);
    lemma_rates_of_reordered_markets(ranked_a, ranked_b);
    lemma_ranking_falls(markets_of(a), ranked_a);
    lemma_ranking_falls(markets_of(b), ranked_b);
    let falls = |x: Binary64, y: Binary64| x.rank() >= y.rank();
    assert(total_ordering(falls)) by {
        assert forall|x: Binary64, y: Binary64| #[trigger]
            falls(x, y) && #[trigger] falls(y, x) implies x == y by {
            lemma_rank_is_injective(x, y);
        }
    }
    assert(sorted_by(rates_of(ranked_a), falls));
    assert(sorted_by(rates_of(ranked_b), falls));
    lemma_sorted_unique(rates_of(ranked_a), rates_of(ranked_b), falls);
}

/// A row that stands for no market changes nothing, wherever it is put in.
pub proof fn lemma_unusable_row_changes_nothing(
    rows: Seq<RewardsRow>,
    at: int,
    row: RewardsRow,
    ranked: Seq<RewardMarketView>,
    ranked_with: Seq<RewardMarketView>,
)
    requires
        0 <= at <= rows.len(),
        market_of(row) is None,
        is_ranking(markets_of(rows), ranked),
        is_ranking(markets_of(rows.insert(at, row)), ranked_with),
    ensures
        ranked_with == ranked,
{
    lemma_markets_without_a_row(rows.insert(at, row), at);
    assert(rows.insert(at, row).remove(at) =~= rows);
    lemma_ranking_is_unique(markets_of(rows), ranked, ranked_with);
}

/// What a new client remembers after a history of events, each in the lookup of some market.
pub open spec fn remembered_after(
    history: Seq<(Seq<char>, FetchEvent<MarketDetailResponse>)>,
) -> Map<Seq<char>, Option<Binary64>>
    decreases history.len(),
{
    if history.len() == 0 {
        Map::empty()
    } else {
        let (condition_id, event) = history.last();
        cache_after(remembered_after(history.drop_last()), condition_id, event)
    }
}

/// Whatever has happened, every spread that is remembered is a finite number above zero.
pub proof fn lemma_remembered_spreads_are_positive(
    history: Seq<(Seq<char>, FetchEvent<MarketDetailResponse>)>,
    condition_id: Seq<char>,
)
    requires
        remembered_after(history).contains_key(condition_id),
        remembered_after(history)[condition_id] is Some,
    ensures
        remembered_after(history)[condition_id]->0.positive(),
    decreases history.len(),
{
    if history.len() > 0 {
        let (id, event) = history.last();
        if event is Body && id == condition_id {
            let payload = event->Body_0;
            assert(spread_of(payload) is Some);
            assert(detail_of(payload) is Ok);
        } else {
            lemma_remembered_spreads_are_positive(history.drop_last(), condition_id);
        }
    }
}

/// An answer to a lookup is given again, without a request, the next time the lookup begins.
pub proof fn lemma_answer_is_remembered(
    cache: Map<Seq<char>, Option<Binary64>>,
    condition_id: Seq<char>,
    event: FetchEvent<MarketDetailResponse>,
)
    requires
        answer_to(cache, condition_id, event) is Some,
    ensures
        answer_to(cache_after(cache, condition_id, event), condition_id, FetchEvent::Begin)
            == answer_to(cache, condition_id, event),
{
}

/// A lookup changes nothing that is remembered of another market.
pub proof fn lemma_other_markets_are_untouched(
    cache: Map<Seq<char>, Option<Binary64>>,
    condition_id: Seq<char>,
    event: FetchEvent<MarketDetailResponse>,
    other: Seq<char>,
)
    requires
        other != condition_id,
    ensures
        answer_to(cache_after(cache, condition_id, event), other, FetchEvent::Begin) == answer_to(
            cache,
            other,
            FetchEvent::Begin,
        ),
{
}

/// A request that fails leaves what is remembered as it was, so that the next lookup asks again.
pub proof fn lemma_failure_is_not_remembered(
    cache: Map<Seq<char>, Option<Binary64>>,
    condition_id: Seq<char>,
    event: FetchEvent<MarketDetailResponse>,
)
    requires
        answer_to(cache, condition_id, event) is None,
    ensures
        cache_after(cache, condition_id, event) == cache,
{
}

} // verus!
