use crate::binary64::Binary64;
use crate::engine::Book;
use crate::orders::{contains_text, has_token, lists, subscribed_tokens, Order};
use crate::rewards::{RewardMarket, RewardToken};
use vstd::prelude::*;

verus! {

/// What a quote on an outcome is planned from.
#[derive(Debug)]
pub struct QuoteInput {
    pub condition_id: String,
    pub token_id: String,
    pub midpoint: Binary64,
    pub tick_size: Binary64,
    pub rewards_max_spread_cents: Binary64,
    pub rewards_min_size: Binary64,
    pub daily_rate: Binary64,
}

/// How many of the ranked markets are scanned: one at least, if there is one.
pub open spec fn scan_count(available: nat, max_markets: nat) -> nat {
    let wanted = if max_markets == 0 {
        1
    } else {
        max_markets
    };
    if wanted < available {
        wanted
    } else {
        available
    }
}

/// The first of the ranked markets, as many as are scanned.
pub fn markets_to_scan(ranked: Vec<RewardMarket>, max_markets: usize) -> (markets: Vec<RewardMarket>)
    ensures
        markets@ == ranked@.take(scan_count(ranked@.len(), max_markets as nat) as int),
{
    let wanted: usize = if max_markets == 0 { 1 } else { max_markets };
    let mut markets = ranked;
    if wanted < markets.len() {
        markets.truncate(wanted);
    }
    assert(markets@ =~= ranked@.take(scan_count(ranked@.len(), max_markets as nat) as int));
    markets
}

/// The midpoint of an outcome: that of its book, then its listed price, then the one fetched.
pub open spec fn outcome_mid(
    book: Option<Book>,
    listed: Option<Binary64>,
    fetched: Option<Binary64>,
) -> Option<Binary64> {
    if book is Some && book->0.mid is Some {
        book->0.mid
    } else if listed is Some {
        listed
    } else {
        fetched
    }
}

/// The tick size of an outcome: that of its book, then the one fetched.
pub open spec fn outcome_tick(book: Option<Book>, fetched: Option<Binary64>) -> Option<Binary64> {
    match book {
        Some(book) => Some(book.tick_size),
        None => fetched,
    }
}

/// What a quote on an outcome is planned from; nothing where its midpoint or its tick size
/// cannot be told.
pub fn quote_input(
    market: &RewardMarket,
    token: &RewardToken,
    book: Option<&Book>,
    fetched_mid: Option<Binary64>,
    fetched_tick: Option<Binary64>,
) -> (input: Option<QuoteInput>)
    ensures
        ({
            let own = match book {
                Some(book) => Some(*book),
                None => None,
            };
            let mid = outcome_mid(own, token.price, fetched_mid);
            let tick = outcome_tick(own, fetched_tick);
            &&& input is Some <==> mid is Some && tick is Some
            &&& input matches Some(input) ==> {
                &&& input.condition_id@ == market.condition_id@
                &&& input.token_id@ == token.token_id@
                &&& input.midpoint == mid->0
                &&& input.tick_size == tick->0
                &&& input.rewards_max_spread_cents == market.rewards_max_spread_cents
                &&& input.rewards_min_size == market.rewards_min_size
                &&& input.daily_rate == market.daily_rate
            }
        }),
{
    let book_mid = match book {
        Some(book) => book.mid,
        None => None,
    };
    let mid = match (book_mid, token.price) {
        (Some(mid), _) => Some(mid),
        (None, Some(price)) => Some(price),
        (None, None) => fetched_mid,
    };
    let tick = match book {
        Some(book) => Some(book.tick_size),
        None => fetched_tick,
    };
    match (mid, tick) {
        (Some(midpoint), Some(tick_size)) => Some(
            QuoteInput {
                condition_id: market.condition_id.clone(),
                token_id: token.token_id.clone(),
                midpoint,
                tick_size,
                rewards_max_spread_cents: market.rewards_max_spread_cents,
                rewards_min_size: market.rewards_min_size,
                daily_rate: market.daily_rate,
            },
        ),
        _ => None,
    }
}

/// The outcomes that no order is on, in their order.
pub open spec fn free_outcomes(tokens: Seq<RewardToken>, orders: Seq<Order>) -> Seq<RewardToken>
    decreases tokens.len(),
{
    if tokens.len() == 0 {
        Seq::empty()
    } else if has_token(orders, tokens.first().token_id@) {
        free_outcomes(tokens.drop_first(), orders)
    } else {
        seq![tokens.first()] + free_outcomes(tokens.drop_first(), orders)
    }
}

/// The outcomes to plan quotes on: those that no order is on.
pub fn outcomes_to_quote(tokens: Vec<RewardToken>, orders: &Vec<Order>) -> (free: Vec<RewardToken>)
    ensures
        free@ == free_outcomes(tokens@, orders@),
{
    let taken = subscribed_tokens(orders);
    let mut rest = tokens;
    let mut free: Vec<RewardToken> = Vec::new();
    assert(Seq::<RewardToken>::empty() + free_outcomes(tokens@, orders@) =~= free_outcomes(
        tokens@,
        orders@,
    ));
    while rest.len() > 0
        invariant
            forall|t: Seq<char>| #[trigger] lists(taken@, t) <==> has_token(orders@, t),
            free@ + free_outcomes(rest@, orders@) == free_outcomes(tokens@, orders@),
        decreases rest@.len(),
    {
        let ghost before = rest@;
        let ghost chosen = free@;
        let token = rest.remove(0);
        assert(rest@ =~= before.drop_first());
        if !contains_text(&taken, &token.token_id) {
            free.push(token);
            assert(free@ + free_outcomes(rest@, orders@) =~= chosen + (seq![token] + free_outcomes(
                rest@,
                orders@,
            )));
        }
    }
    assert(free@ + free_outcomes(rest@, orders@) =~= free@);
    free
}

/// No quote is planned on an outcome that an order is on.
pub proof fn lemma_free_outcomes_have_no_order(tokens: Seq<RewardToken>, orders: Seq<Order>)
    ensures
        forall|i: int|
            0 <= i < free_outcomes(tokens, orders).len() ==> !has_token(
                orders,
                (#[trigger] free_outcomes(tokens, orders)[i]).token_id@,
            ),
    decreases tokens.len(),
{
    if tokens.len() > 0 {
        let rest = free_outcomes(tokens.drop_first(), orders);
        lemma_free_outcomes_have_no_order(tokens.drop_first(), orders);
        assert forall|i: int|
            0 <= i < free_outcomes(tokens, orders).len() implies !has_token(
            orders,
            (#[trigger] free_outcomes(tokens, orders)[i]).token_id@,
        ) by {
            if has_token(orders, tokens.first().token_id@) {
                assert(free_outcomes(tokens, orders)[i] == rest[i]);
            } else if i > 0 {
                assert(free_outcomes(tokens, orders)[i] == rest[i - 1]);
            }
        }
    }
}

} // verus!
