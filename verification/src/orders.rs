use crate::binary64::{
    clamped_to_zero, lemma_clamped_is_not_negative, lemma_sum_is_not_negative, product, sum, Binary64,
    SIGN,
};
use crate::rounding::{lemma_exact_is_nearest, lemma_units_sign};
use crate::text::{
    before, lemma_before_irreflexive, lemma_before_total, lemma_before_transitive, precedes,
};
use vstd::prelude::*;

verus! {

#[derive(Debug, Clone, Copy, PartialEq, Eq, Structural)]
pub enum Side {
    Buy,
    Sell,
}

/// An open order, as far as it matters here.
#[derive(Debug)]
pub struct Order {
    pub id: String,
    pub condition_id: String,
    pub token_id: String,
    pub side: Side,
    pub price: Binary64,
    pub remaining_size: Binary64,
    pub market_title: Option<String>,
    pub outcome: Option<String>,
}

/// A text occurs in a list.
pub open spec fn lists(list: Seq<String>, text: Seq<char>) -> bool {
    exists|i: int| 0 <= i < list.len() && (#[trigger] list[i])@ == text
}

/// Some order is on the token.
pub open spec fn has_token(orders: Seq<Order>, token: Seq<char>) -> bool {
    exists|i: int| 0 <= i < orders.len() && (#[trigger] orders[i]).token_id@ == token
}

/// Some order is on the condition.
pub open spec fn has_condition(orders: Seq<Order>, condition: Seq<char>) -> bool {
    exists|i: int| 0 <= i < orders.len() && (#[trigger] orders[i]).condition_id@ == condition
}

/// Some order has the identifier.
pub open spec fn has_order(orders: Seq<Order>, id: Seq<char>) -> bool {
    exists|i: int| 0 <= i < orders.len() && (#[trigger] orders[i]).id@ == id
}

/// Every text comes before all that follow it; so none occurs twice.
pub open spec fn ascending(list: Seq<String>) -> bool {
    forall|i: int, j: int|
        0 <= i < j < list.len() ==> before((#[trigger] list[i])@, (#[trigger] list[j])@)
}

/// An ascending list holds no text twice.
pub proof fn lemma_ascending_lists_once(list: Seq<String>, i: int, j: int)
    requires
        ascending(list),
        0 <= i < list.len(),
        0 <= j < list.len(),
        list[i]@ == list[j]@,
    ensures
        i == j,
{
    lemma_before_irreflexive(list[i]@);
}

pub fn contains_text(list: &Vec<String>, text: &String) -> (b: bool)
    ensures
        b == lists(list@, text@),
{
    let mut i: usize = 0;
    while i < list.len()
        invariant
            i <= list@.len(),
            forall|j: int| 0 <= j < i ==> (#[trigger] list@[j])@ != text@,
        decreases list@.len() - i,
    {
        if list[i] == *text {
            return true;
        }
        i = i + 1;
    }
    false
}

/// Puts a text into an ascending list unless it is there.
fn insert_sorted(list: &mut Vec<String>, text: &String)
    requires
        ascending(old(list)@),
    ensures
        ascending(final(list)@),
        forall|t: Seq<char>| #[trigger]
            lists(final(list)@, t) <==> lists(old(list)@, t) || t == text@,
{
    let ghost was = list@;
    let mut at: usize = 0;
    while at < list.len() && precedes(list[at].as_str(), text.as_str())
        invariant
            at <= list@.len(),
            list@ == was,
            forall|i: int| 0 <= i < at ==> before((#[trigger] was[i])@, text@),
        decreases list@.len() - at,
    {
        at = at + 1;
    }
    if at < list.len() && list[at] == *text {
        proof {
            assert(was[at as int]@ == text@);
        }
        return;
    }
    list.insert(at, text.clone());
    proof {
        let now = list@;
        assert forall|i: int, j: int| 0 <= i < j < now.len() implies before(
            (#[trigger] now[i])@,
            (#[trigger] now[j])@,
        ) by {
            if at < was.len() {
                lemma_before_total(was[at as int]@, text@);
            }
            if i == at {
                assert(now[j] == was[j - 1]);
                if j - 1 > at {
                    lemma_before_transitive(text@, was[at as int]@, was[j - 1]@);
                }
            } else if j == at {
                assert(now[i] == was[i]);
            } else {
                assert(now[i] == was[if i < at { i } else { i - 1 }]);
                assert(now[j] == was[if j < at { j } else { j - 1 }]);
            }
        }
        assert forall|t: Seq<char>| #[trigger] lists(now, t) <==> lists(was, t) || t == text@ by {
            if lists(was, t) {
                let i = choose|i: int| 0 <= i < was.len() && (#[trigger] was[i])@ == t;
                assert(now[if i < at { i } else { i + 1 }] == was[i]);
            }
            if t == text@ {
                assert(now[at as int]@ == t);
            }
            if lists(now, t) {
                let i = choose|i: int| 0 <= i < now.len() && (#[trigger] now[i])@ == t;
                if i != at {
                    assert(now[i] == was[if i < at { i } else { i - 1 }]);
                }
            }
        }
    }
}

/// The texts of a list, each once, in order.
pub fn sorted_set(list: &Vec<String>) -> (set: Vec<String>)
    ensures
        ascending(set@),
        forall|t: Seq<char>| #[trigger] lists(set@, t) <==> lists(list@, t),
{
    let mut set: Vec<String> = Vec::new();
    let mut i: usize = 0;
    while i < list.len()
        invariant
            i <= list@.len(),
            ascending(set@),
            forall|t: Seq<char>| #[trigger] lists(set@, t) <==> lists(list@.take(i as int), t),
        decreases list@.len() - i,
    {
        insert_sorted(&mut set, &list[i]);
        proof {
            lemma_lists_one_more(list@, i as int);
        }
        i = i + 1;
    }
    assert(list@.take(i as int) =~= list@);
    set
}

proof fn lemma_lists_one_more(list: Seq<String>, i: int)
    requires
        0 <= i < list.len(),
    ensures
        forall|t: Seq<char>| #[trigger]
            lists(list.take(i + 1), t) <==> lists(list.take(i), t) || t == list[i]@,
{
    let more = list.take(i + 1);
    let less = list.take(i);
    assert forall|t: Seq<char>| #[trigger] lists(more, t) <==> lists(less, t) || t == list[i]@ by {
        if lists(less, t) {
            let j = choose|j: int| 0 <= j < less.len() && (#[trigger] less[j])@ == t;
            assert(more[j]@ == t);
        }
        assert(more[i] == list[i]);
        if lists(more, t) {
            let j = choose|j: int| 0 <= j < more.len() && (#[trigger] more[j])@ == t;
            if j < i {
                assert(less[j]@ == t);
            }
        }
    }
}

/// The tokens of the orders, each once, in order.
pub fn subscribed_tokens(orders: &Vec<Order>) -> (tokens: Vec<String>)
    ensures
        ascending(tokens@),
        forall|t: Seq<char>| #[trigger] lists(tokens@, t) <==> has_token(orders@, t),
{
    let mut all: Vec<String> = Vec::new();
    let mut i: usize = 0;
    while i < orders.len()
        invariant
            i <= orders@.len(),
            all@.len() == i,
            forall|j: int| 0 <= j < i ==> (#[trigger] all@[j])@ == orders@[j].token_id@,
        decreases orders@.len() - i,
    {
        all.push(orders[i].token_id.clone());
        i = i + 1;
    }
    proof {
        assert forall|t: Seq<char>| #[trigger] lists(all@, t) <==> has_token(orders@, t) by {
            if has_token(orders@, t) {
                let j = choose|j: int|
                    0 <= j < orders@.len() && (#[trigger] orders@[j]).token_id@ == t;
                assert(all@[j]@ == t);
            }
        }
    }
    sorted_set(&all)
}

/// The conditions of the orders, each once, in order.
pub fn traded_conditions(orders: &Vec<Order>) -> (conditions: Vec<String>)
    ensures
        ascending(conditions@),
        forall|t: Seq<char>| #[trigger] lists(conditions@, t) <==> has_condition(orders@, t),
{
    let mut all: Vec<String> = Vec::new();
    let mut i: usize = 0;
    while i < orders.len()
        invariant
            i <= orders@.len(),
            all@.len() == i,
            forall|j: int| 0 <= j < i ==> (#[trigger] all@[j])@ == orders@[j].condition_id@,
        decreases orders@.len() - i,
    {
        all.push(orders[i].condition_id.clone());
        i = i + 1;
    }
    proof {
        assert forall|t: Seq<char>| #[trigger] lists(all@, t) <==> has_condition(orders@, t) by {
            if has_condition(orders@, t) {
                let j = choose|j: int|
                    0 <= j < orders@.len() && (#[trigger] orders@[j]).condition_id@ == t;
                assert(all@[j]@ == t);
            }
        }
    }
    sorted_set(&all)
}

/// The tokens that the program follows: those of the orders that the last poll found.
pub struct Subscriptions {
    tokens: Vec<String>,
}

/// The tokens that orders are on.
pub open spec fn tokens_of(orders: Seq<Order>) -> Set<Seq<char>> {
    Set::new(|t: Seq<char>| has_token(orders, t))
}

/// The tokens of the orders that were not followed before: no update can have brought a book of
/// them, so one has to be fetched.
pub open spec fn bootstrap_of(followed: Set<Seq<char>>, orders: Seq<Order>) -> Set<Seq<char>> {
    tokens_of(orders).difference(followed)
}

/// The texts that occur in a list.
pub open spec fn listed(list: Seq<String>) -> Set<Seq<char>> {
    Set::new(|t: Seq<char>| lists(list, t))
}

impl View for Subscriptions {
    type V = Set<Seq<char>>;

    closed spec fn view(&self) -> Set<Seq<char>> {
        listed(self.tokens@)
    }
}

impl Subscriptions {
    pub fn new() -> (s: Subscriptions)
        ensures
            s@ == Set::<Seq<char>>::empty(),
    {
        let s = Subscriptions { tokens: Vec::new() };
        assert(s@ =~= Set::<Seq<char>>::empty());
        s
    }

    /// Takes over the orders of a poll, and tells which books have to be fetched.
    pub fn poll(&mut self, orders: &Vec<Order>) -> (bootstrap: Vec<String>)
        ensures
            final(self)@ == tokens_of(orders@),
            ascending(bootstrap@),
            listed(bootstrap@) == bootstrap_of(old(self)@, orders@),
    {
        let tokens = subscribed_tokens(orders);
        let mut bootstrap: Vec<String> = Vec::new();
        let mut i: usize = 0;
        while i < tokens.len()
            invariant
                i <= tokens@.len(),
                self.tokens == old(self).tokens,
                ascending(bootstrap@),
                forall|t: Seq<char>| #[trigger]
                    lists(bootstrap@, t) <==> lists(tokens@.take(i as int), t) && !lists(
                        self.tokens@,
                        t,
                    ),
            decreases tokens@.len() - i,
        {
            proof {
                lemma_lists_one_more(tokens@, i as int);
            }
            if !contains_text(&self.tokens, &tokens[i]) {
                insert_sorted(&mut bootstrap, &tokens[i]);
            }
            i = i + 1;
        }
        assert(tokens@.take(i as int) =~= tokens@);
        self.tokens = tokens;
        assert(self@ =~= tokens_of(orders@));
        assert(listed(bootstrap@) =~= bootstrap_of(old(self)@, orders@));
        bootstrap
    }

    /// The tokens that are followed, each once, in order.
    pub fn tokens(&self) -> (tokens: Vec<String>)
        ensures
            ascending(tokens@),
            listed(tokens@) == self@,
    {
        let tokens = sorted_set(&self.tokens);
        assert(listed(tokens@) =~= self@);
        tokens
    }
}

/// A poll that finds the orders of the poll before fetches no book again.
pub proof fn lemma_bootstrap_happens_once(orders: Seq<Order>)
    ensures
        bootstrap_of(tokens_of(orders), orders) == Set::<Seq<char>>::empty(),
{
    assert(bootstrap_of(tokens_of(orders), orders) =~= Set::<Seq<char>>::empty());
}

/// A token that had no order at one poll and has one at the next gets its book fetched.
pub proof fn lemma_returning_token_is_bootstrapped(
    without: Seq<Order>,
    with: Seq<Order>,
    token: Seq<char>,
)
    requires
        !has_token(without, token),
        has_token(with, token),
    ensures
        bootstrap_of(tokens_of(without), with).contains(token),
{
}

/// The capital that the orders bind: price times size of each, nothing where that is no number
/// above zero, added up from the first order on. The sum of none is the negative zero, as for the
/// standard library's sum of numbers.
pub open spec fn committed(orders: Seq<Order>) -> Binary64
    decreases orders.len(),
{
    if orders.len() == 0 {
        Binary64 { bits: SIGN }
    } else {
        sum(
            committed(orders.drop_last()),
            clamped_to_zero(product(orders.last().price, orders.last().remaining_size)),
        )
    }
}

pub fn committed_capital(orders: &Vec<Order>) -> (total: Binary64)
    ensures
        total == committed(orders@),
{
    let mut total = Binary64::from_bits(SIGN);
    let mut i: usize = 0;
    while i < orders.len()
        invariant
            i <= orders@.len(),
            total == committed(orders@.take(i as int)),
        decreases orders@.len() - i,
    {
        assert(orders@.take(i + 1).drop_last() =~= orders@.take(i as int));
        total = total.plus(orders[i].price.times(orders[i].remaining_size).clamp_to_zero());
        i = i + 1;
    }
    assert(orders@.take(i as int) =~= orders@);
    total
}

/// The capital is always a number, and none below zero.
pub proof fn lemma_committed_is_not_negative(orders: Seq<Order>)
    ensures
        !committed(orders).nan(),
        committed(orders).value() >= 0,
        orders.len() > 0 ==> !committed(orders).negative(),
    decreases orders.len(),
{
    lemma_units_sign(0);
    lemma_units_sign(committed(orders).magnitude());
    if orders.len() > 0 {
        let before = committed(orders.drop_last());
        let gain = clamped_to_zero(product(orders.last().price, orders.last().remaining_size));
        lemma_committed_is_not_negative(orders.drop_last());
        lemma_clamped_is_not_negative(product(orders.last().price, orders.last().remaining_size));
        if orders.drop_last().len() > 0 {
            lemma_sum_is_not_negative(before, gain);
        } else if gain.finite() && gain.value() > 0 {
            lemma_exact_is_nearest(gain.magnitude());
        }
    }
}

} // verus!
