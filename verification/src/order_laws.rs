use crate::binary64::{clamped_to_zero, lemma_clamped_is_not_negative, product, sum, Binary64, SIGN};
use crate::discovery::{free_outcomes, outcome_mid, outcome_tick, scan_count};
use crate::engine::{ids_of, Book};
use crate::number_laws::{
    lemma_clamped_is_the_greater, lemma_sum_at_the_limits, lemma_sum_beside, lemma_sum_commutes,
    lemma_sum_is_closest,
};
use crate::orders::{
    bootstrap_of, committed, has_condition, has_order, has_token, lemma_committed_is_not_negative,
    listed, lists, tokens_of, Order,
};
use crate::rewards::RewardToken;
use crate::rounding::{lemma_units_order, lemma_units_sign, INFINITY};
use vstd::prelude::*;

verus! {

/// The capital is a matter of prices and sizes alone: neither the sides of the orders nor what
/// else they are makes a difference.
pub proof fn lemma_capital_depends_on_prices_and_sizes(a: Seq<Order>, b: Seq<Order>)
    requires
        a.len() == b.len(),
        forall|i: int|
            0 <= i < a.len() ==> (#[trigger] a[i]).price == b[i].price && a[i].remaining_size
                == b[i].remaining_size,
    ensures
        committed(a) == committed(b),
    decreases a.len(),
{
    if a.len() > 0 {
        let last = a.len() - 1;
        assert(a[last].price == b[last].price && a[last].remaining_size == b[last].remaining_size);
        assert forall|i: int| 0 <= i < a.drop_last().len() implies (
        #[trigger] a.drop_last()[i]).price == b.drop_last()[i].price
            && a.drop_last()[i].remaining_size == b.drop_last()[i].remaining_size by {
            assert(a[i].price == b[i].price);
        }
        lemma_capital_depends_on_prices_and_sizes(a.drop_last(), b.drop_last());
    }
}

/// An order more adds its price times its size, and nothing where that is no number above zero.
pub proof fn lemma_every_order_counts(orders: Seq<Order>, order: Order)
    ensures
        committed(orders.push(order)) == sum(
            committed(orders),
            clamped_to_zero(product(order.price, order.remaining_size)),
        ),
        product(order.price, order.remaining_size).nan() || product(
            order.price,
            order.remaining_size,
        ).value() <= 0 ==> committed(orders.push(order)).value() == committed(orders).value(),
        committed(Seq::<Order>::empty()).value() == 0,
{
    let p = product(order.price, order.remaining_size);
    assert(orders.push(order).drop_last() =~= orders);
    lemma_units_sign(0);
    lemma_clamped_is_the_greater(p);
    lemma_clamped_is_not_negative(p);
    lemma_committed_is_not_negative(orders);
    if p.nan() || p.value() <= 0 {
        let zero = clamped_to_zero(p);
        lemma_sum_at_the_limits(committed(orders), zero);
        if committed(orders).finite() {
            lemma_sum_is_closest(committed(orders), zero, committed(orders));
        }
    }
}

/// A single order binds its price times its size.
pub proof fn lemma_one_order_binds_its_product(order: Order)
    requires
        !product(order.price, order.remaining_size).nan(),
        product(order.price, order.remaining_size).value() > 0,
    ensures
        committed(seq![order]) == product(order.price, order.remaining_size),
{
    let p = product(order.price, order.remaining_size);
    let none = Binary64 { bits: SIGN };
    assert(seq![order].drop_last() =~= Seq::empty());
    reveal_with_fuel(committed, 2);
    lemma_units_sign(0);
    lemma_units_sign(p.magnitude());
    lemma_clamped_is_the_greater(p);
    lemma_sum_commutes(none, p);
    lemma_sum_at_the_limits(p, none);
    if p.finite() {
        lemma_sum_is_closest(p, none, p);
        let s = sum(p, none);
        lemma_units_sign(s.magnitude());
        lemma_units_order(s.magnitude(), p.magnitude());
    }
}

/// What is added to a number without a sign is not above the sum.
proof fn lemma_sum_covers(a: Binary64, b: Binary64)
    requires
        !a.nan(),
        a.value() >= 0,
        !b.nan(),
        b.value() >= 0,
    ensures
        !sum(a, b).nan(),
        sum(a, b).value() >= a.value(),
        sum(a, b).value() >= b.value(),
{
    lemma_units_sign(a.magnitude());
    lemma_units_sign(b.magnitude());
    lemma_units_sign(INFINITY as nat);
    lemma_units_order(a.magnitude(), INFINITY as nat);
    lemma_units_order(b.magnitude(), INFINITY as nat);
    lemma_sum_at_the_limits(a, b);
    lemma_sum_at_the_limits(b, a);
    lemma_sum_commutes(a, b);
    if a.finite() && b.finite() {
        lemma_sum_beside(a, b, a);
        lemma_sum_beside(a, b, b);
    }
}

/// The capital covers every single order, whichever side it is on.
pub proof fn lemma_capital_covers_every_order(orders: Seq<Order>, i: int)
    requires
        0 <= i < orders.len(),
    ensures
        !committed(orders).nan(),
        !product(orders[i].price, orders[i].remaining_size).nan() ==> product(
            orders[i].price,
            orders[i].remaining_size,
        ).value() <= committed(orders).value(),
    decreases orders.len(),
{
    let last = orders.last();
    let p = product(last.price, last.remaining_size);
    lemma_clamped_is_the_greater(p);
    lemma_clamped_is_not_negative(p);
    lemma_committed_is_not_negative(orders.drop_last());
    lemma_sum_covers(committed(orders.drop_last()), clamped_to_zero(p));
    if i < orders.len() - 1 {
        lemma_capital_covers_every_order(orders.drop_last(), i);
        assert(orders.drop_last()[i] == orders[i]);
    }
}

/// An order more never frees capital.
pub proof fn lemma_capital_grows_with_the_orders(orders: Seq<Order>, order: Order)
    ensures
        committed(orders.push(order)).value() >= committed(orders).value(),
{
    let p = product(order.price, order.remaining_size);
    lemma_every_order_counts(orders, order);
    lemma_clamped_is_not_negative(p);
    lemma_committed_is_not_negative(orders);
    lemma_sum_covers(committed(orders), clamped_to_zero(p));
}

/// The tokens that are followed, and the conditions and identifiers that orders have, are those of
/// the orders, whatever else the orders are.
pub proof fn lemma_every_order_is_seen(orders: Seq<Order>, text: Seq<char>)
    ensures
        has_token(orders, text) <==> exists|i: int|
            0 <= i < orders.len() && (#[trigger] orders[i]).token_id@ == text,
        tokens_of(orders).contains(text) <==> exists|i: int|
            0 <= i < orders.len() && (#[trigger] orders[i]).token_id@ == text,
        has_condition(orders, text) <==> exists|i: int|
            0 <= i < orders.len() && (#[trigger] orders[i]).condition_id@ == text,
        has_order(orders, text) <==> exists|i: int|
            0 <= i < orders.len() && (#[trigger] orders[i]).id@ == text,
        ids_of(orders).contains(text) <==> exists|i: int|
            0 <= i < orders.len() && (#[trigger] orders[i]).id@ == text,
{
}

/// A text is in a list where an entry of the list is that text.
pub proof fn lemma_list_holds_its_entries(list: Seq<String>, text: Seq<char>)
    ensures
        lists(list, text) <==> exists|i: int| 0 <= i < list.len() && (#[trigger] list[i])@ == text,
        listed(list).contains(text) <==> exists|i: int|
            0 <= i < list.len() && (#[trigger] list[i])@ == text,
{
}

/// A book is fetched for just the tokens that an order is on and that were not followed before.
pub proof fn lemma_bootstrap_is_for_new_tokens(
    followed: Set<Seq<char>>,
    orders: Seq<Order>,
    token: Seq<char>,
)
    ensures
        bootstrap_of(followed, orders).contains(token) <==> !followed.contains(token) && exists|
            i: int,
        |
            0 <= i < orders.len() && (#[trigger] orders[i]).token_id@ == token,
{
}

/// No order is on the token.
spec fn open_to_quotes(token: RewardToken, orders: Seq<Order>) -> bool {
    forall|i: int| 0 <= i < orders.len() ==> (#[trigger] orders[i]).token_id@ != token.token_id@
}

/// The outcomes of two lists that are open to quotes are those of the one and then those of the
/// other; one outcome is open if and only if no order is on it; so all that are open are there, as
/// often as they are listed and in their order.
pub proof fn lemma_open_outcomes_are_all_there(
    a: Seq<RewardToken>,
    b: Seq<RewardToken>,
    token: RewardToken,
    orders: Seq<Order>,
)
    ensures
        free_outcomes(a + b, orders) == free_outcomes(a, orders) + free_outcomes(b, orders),
        (forall|i: int|
            0 <= i < orders.len() ==> (#[trigger] orders[i]).token_id@ != token.token_id@)
            ==> free_outcomes(seq![token], orders) == seq![token],
        (exists|i: int|
            0 <= i < orders.len() && (#[trigger] orders[i]).token_id@ == token.token_id@)
            ==> free_outcomes(seq![token], orders) == Seq::<RewardToken>::empty(),
    decreases a.len(),
{
    reveal_with_fuel(free_outcomes, 2);
    assert(seq![token].drop_first() =~= Seq::empty());
    if a.len() == 0 {
        assert(a + b =~= b);
        assert(free_outcomes(a, orders) + free_outcomes(b, orders) =~= free_outcomes(b, orders));
    } else {
        assert((a + b).drop_first() =~= a.drop_first() + b);
        lemma_open_outcomes_are_all_there(a.drop_first(), b, token, orders);
        assert(free_outcomes(a + b, orders) =~= free_outcomes(a, orders) + free_outcomes(
            b,
            orders,
        ));
    }
    if open_to_quotes(token, orders) {
        assert(free_outcomes(seq![token], orders) =~= seq![token]);
    }
}

/// Every outcome that no order is on is among those to quote.
pub proof fn lemma_open_outcome_is_quoted(tokens: Seq<RewardToken>, orders: Seq<Order>, at: int)
    requires
        0 <= at < tokens.len(),
        forall|i: int|
            0 <= i < orders.len() ==> (#[trigger] orders[i]).token_id@ != tokens[at].token_id@,
    ensures
        free_outcomes(tokens, orders).contains(tokens[at]),
    decreases tokens.len(),
{
    let token = tokens[at];
    let front = tokens.take(at);
    let back = tokens.skip(at + 1);
    assert(tokens =~= front + seq![token] + back);
    lemma_open_outcomes_are_all_there(front + seq![token], back, token, orders);
    lemma_open_outcomes_are_all_there(front, seq![token], token, orders);
    assert(free_outcomes(tokens, orders)[free_outcomes(front, orders).len() as int] == token);
}

/// Where orders are on none of the outcomes, and so where there are no orders, all are quoted.
pub proof fn lemma_all_outcomes_are_quoted_where_none_is_taken(
    tokens: Seq<RewardToken>,
    orders: Seq<Order>,
)
    requires
        forall|i: int, k: int|
            0 <= i < orders.len() && 0 <= k < tokens.len() ==> (
            #[trigger] orders[i]).token_id@ != (#[trigger] tokens[k]).token_id@,
    ensures
        free_outcomes(tokens, orders) == tokens,
    decreases tokens.len(),
{
    if tokens.len() > 0 {
        let rest = tokens.drop_first();
        assert forall|i: int, k: int| 0 <= i < orders.len() && 0 <= k < rest.len() implies (
        #[trigger] orders[i]).token_id@ != (#[trigger] rest[k]).token_id@ by {
            assert(rest[k] == tokens[k + 1]);
        }
        lemma_all_outcomes_are_quoted_where_none_is_taken(rest, orders);
        assert(tokens[0] == tokens.first());
        assert(seq![tokens.first()] + rest =~= tokens);
    }
}

/// As many markets are scanned as are wanted, one at least, and as there are at most.
pub proof fn lemma_scan_takes_what_is_wanted(available: nat, max_markets: nat)
    ensures
        scan_count(available, max_markets) <= available,
        max_markets >= 1 && max_markets <= available ==> scan_count(available, max_markets)
            == max_markets,
        available <= max_markets ==> scan_count(available, max_markets) == available,
        available >= 1 ==> scan_count(available, 0) == 1,
{
}

/// A midpoint comes from the book, then from the listed price, then from what was fetched; a tick
/// size comes from the book, then from what was fetched. There is one where any of them has one.
pub proof fn lemma_outcome_is_read_from_the_best_source(
    book: Option<Book>,
    price: Option<Binary64>,
    mid: Option<Binary64>,
    tick: Option<Binary64>,
)
    ensures
        book matches Some(b) ==> b.mid is Some ==> outcome_mid(book, price, mid) == b.mid,
        book is None || book->0.mid is None ==> (price is Some ==> outcome_mid(book, price, mid)
            == price) && (price is None ==> outcome_mid(book, price, mid) == mid),
        book matches Some(b) ==> outcome_tick(book, tick) == Some(b.tick_size),
        book is None ==> outcome_tick(book, tick) == tick,
{
}

} // verus!
