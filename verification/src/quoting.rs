use crate::binary64::{
    clamped_to_zero, difference, lemma_clamped_is_not_negative, lemma_difference_not_above,
    lemma_product_grows, lemma_product_is_not_negative, lemma_rank_is_injective, lemma_sum_not_below, sum, Binary64,
    HUNDREDTH, TRILLIONTH,
};
use crate::orders::Side;
use crate::rewards::{reward_delta, RewardsClient};
use crate::rounding::lemma_units_sign;
use vstd::prelude::*;

verus! {

/// A price level of an order book.
#[derive(Debug, Clone, Copy, PartialEq, Eq, Structural)]
pub struct Level {
    pub price: Binary64,
    pub size: Binary64,
}

/// The prices that earn rewards on one side of a market: below the midpoint to buy, above it to
/// sell.
pub open spec fn band_of(side: Side, mid: Binary64, spread: Binary64) -> (Binary64, Binary64) {
    match side {
        Side::Buy => (difference(mid, reward_delta(spread)), mid),
        Side::Sell => (mid, sum(mid, reward_delta(spread))),
    }
}

pub fn reward_band(side: Side, mid: Binary64, spread: Binary64) -> (band: (Binary64, Binary64))
    ensures
        band == band_of(side, mid, spread),
{
    let delta = RewardsClient::reward_range(mid, spread).delta;
    match side {
        Side::Buy => (mid.minus(delta), mid),
        Side::Sell => (mid, mid.plus(delta)),
    }
}

/// A level with something on it, at a price in the band or no further than 1e-12 outside.
pub open spec fn in_band(level: Level, lo: Binary64, hi: Binary64) -> bool {
    let margin = Binary64 { bits: TRILLIONTH };
    &&& (Binary64 { bits: 0 }).below(level.size)
    &&& difference(lo, margin).not_above(level.price)
    &&& level.price.not_above(sum(hi, margin))
}

/// `at` is a level in the band, and no other in it has a lower price.
pub open spec fn is_lowest(levels: Seq<Level>, lo: Binary64, hi: Binary64, at: int) -> bool {
    &&& 0 <= at < levels.len()
    &&& in_band(levels[at], lo, hi)
    &&& forall|i: int|
        0 <= i < levels.len() && in_band(#[trigger] levels[i], lo, hi)
            ==> levels[at].price.rank() <= levels[i].price.rank()
}

/// `at` is a level in the band, and no other in it has a higher price.
pub open spec fn is_highest(levels: Seq<Level>, lo: Binary64, hi: Binary64, at: int) -> bool {
    &&& 0 <= at < levels.len()
    &&& in_band(levels[at], lo, hi)
    &&& forall|i: int|
        0 <= i < levels.len() && in_band(#[trigger] levels[i], lo, hi)
            ==> levels[i].price.rank() <= levels[at].price.rank()
}

/// `range` spans the prices of the levels in the band; there is none where no level is.
pub open spec fn clips(
    levels: Seq<Level>,
    lo: Binary64,
    hi: Binary64,
    range: Option<(Binary64, Binary64)>,
) -> bool {
    match range {
        None => forall|i: int| 0 <= i < levels.len() ==> !in_band(#[trigger] levels[i], lo, hi),
        Some((a, b)) => {
            &&& exists|i: int| #[trigger] is_lowest(levels, lo, hi, i) && levels[i].price == a
            &&& exists|i: int| #[trigger] is_highest(levels, lo, hi, i) && levels[i].price == b
        },
    }
}

/// The lowest and the highest price among the levels in a band.
pub fn clip_to_levels(levels: &Vec<Level>, lo: Binary64, hi: Binary64) -> (range: Option<
    (Binary64, Binary64),
>)
    ensures
        clips(levels@, lo, hi, range),
{
    let margin = Binary64::from_bits(TRILLIONTH);
    let from = lo.minus(margin);
    let to = hi.plus(margin);
    let mut range: Option<(Binary64, Binary64)> = None;
    let mut i: usize = 0;
    assert(levels@.take(0) =~= Seq::empty());
    while i < levels.len()
        invariant
            i <= levels@.len(),
            from == difference(lo, Binary64 { bits: TRILLIONTH }),
            to == sum(hi, Binary64 { bits: TRILLIONTH }),
            clips(levels@.take(i as int), lo, hi, range),
        decreases levels@.len() - i,
    {
        let level = levels[i];
        let inside = Binary64::from_bits(0).less_than(level.size) && from.at_most(level.price)
            && level.price.at_most(to);
        let ghost seen = levels@.take(i as int);
        let ghost more = levels@.take(i + 1);
        let ghost was = range;
        assert(more =~= seen.push(level));
        if inside {
            range = match range {
                None => Some((level.price, level.price)),
                Some((a, b)) => {
                    let low = if level.price.ranks_below(a) { level.price } else { a };
                    let high = if b.ranks_below(level.price) { level.price } else { b };
                    Some((low, high))
                },
            };
        }
        proof {
            lemma_clips_one_more(seen, level, lo, hi, was, range);
        }
        i = i + 1;
    }
    assert(levels@.take(i as int) =~= levels@);
    range
}

proof fn lemma_clips_one_more(
    seen: Seq<Level>,
    level: Level,
    lo: Binary64,
    hi: Binary64,
    was: Option<(Binary64, Binary64)>,
    range: Option<(Binary64, Binary64)>,
)
    requires
        clips(seen, lo, hi, was),
        range == (if !in_band(level, lo, hi) {
            was
        } else {
            match was {
                None => Some((level.price, level.price)),
                Some((a, b)) => Some(
                    (
                        if level.price.rank() < a.rank() {
                            level.price
                        } else {
                            a
                        },
                        if b.rank() < level.price.rank() {
                            level.price
                        } else {
                            b
                        },
                    ),
                ),
            }
        }),
    ensures
        clips(seen.push(level), lo, hi, range),
{
    let more = seen.push(level);
    let last = seen.len() as int;
    assert forall|i: int| 0 <= i < seen.len() implies more[i] == #[trigger] seen[i] by {}
    match was {
        None => {
            if in_band(level, lo, hi) {
                assert(is_lowest(more, lo, hi, last));
                assert(is_highest(more, lo, hi, last));
            }
        },
        Some((a, b)) => {
            let x = choose|i: int| #[trigger] is_lowest(seen, lo, hi, i) && seen[i].price == a;
            let y = choose|i: int| #[trigger] is_highest(seen, lo, hi, i) && seen[i].price == b;
            assert(more[x] == seen[x] && more[y] == seen[y]);
            if in_band(level, lo, hi) && level.price.rank() < a.rank() {
                assert(is_lowest(more, lo, hi, last));
            } else {
                assert(is_lowest(more, lo, hi, x));
            }
            if in_band(level, lo, hi) && b.rank() < level.price.rank() {
                assert(is_highest(more, lo, hi, last));
            } else {
                assert(is_highest(more, lo, hi, y));
            }
        },
    }
}

/// The distance in price is a number, and none below zero.
pub proof fn lemma_delta_is_not_negative(spread: Binary64)
    ensures
        !reward_delta(spread).nan(),
        !reward_delta(spread).negative(),
{
    lemma_clamped_is_not_negative(spread);
    lemma_units_sign(HUNDREDTH as nat);
    lemma_product_is_not_negative(clamped_to_zero(spread), Binary64 { bits: HUNDREDTH });
}

/// The wider the spread, the greater the distance in price.
pub proof fn lemma_delta_grows_with_the_spread(narrow: Binary64, wide: Binary64)
    requires
        narrow.not_above(wide),
    ensures
        reward_delta(narrow).not_above(reward_delta(wide)),
{
    lemma_clamped_is_not_negative(narrow);
    lemma_clamped_is_not_negative(wide);
    lemma_units_sign(HUNDREDTH as nat);
    lemma_units_sign(0);
    lemma_product_grows(
        clamped_to_zero(narrow),
        clamped_to_zero(wide),
        Binary64 { bits: HUNDREDTH },
    );
}

/// The band to buy ends at the midpoint, the band to sell begins there, and neither is turned
/// round.
pub proof fn lemma_band_touches_the_midpoint(side: Side, mid: Binary64, spread: Binary64)
    requires
        mid.finite(),
    ensures
        side == Side::Buy ==> band_of(side, mid, spread).1 == mid,
        side == Side::Sell ==> band_of(side, mid, spread).0 == mid,
        band_of(side, mid, spread).0.not_above(mid),
        mid.not_above(band_of(side, mid, spread).1),
{
    lemma_delta_is_not_negative(spread);
    lemma_sum_not_below(mid, reward_delta(spread));
    lemma_difference_not_above(mid, reward_delta(spread));
}

/// What is clipped is a range: its ends are prices of levels in the band, in order.
pub proof fn lemma_clipped_range_is_in_order(
    levels: Seq<Level>,
    lo: Binary64,
    hi: Binary64,
    range: (Binary64, Binary64),
)
    requires
        clips(levels, lo, hi, Some(range)),
    ensures
        range.0.rank() <= range.1.rank(),
{
    let x = choose|i: int| #[trigger] is_lowest(levels, lo, hi, i) && levels[i].price == range.0;
    let y = choose|i: int| #[trigger] is_highest(levels, lo, hi, i) && levels[i].price == range.1;
    assert(in_band(levels[x], lo, hi));
}

/// The levels and the band determine the clipped range.
pub proof fn lemma_clipped_range_is_unique(
    levels: Seq<Level>,
    lo: Binary64,
    hi: Binary64,
    a: Option<(Binary64, Binary64)>,
    b: Option<(Binary64, Binary64)>,
)
    requires
        clips(levels, lo, hi, a),
        clips(levels, lo, hi, b),
    ensures
        a == b,
{
    if a is Some && b is Some {
        let (a_low, a_high) = a->0;
        let (b_low, b_high) = b->0;
        lemma_lowest_is_one(levels, lo, hi, a_low, b_low);
        lemma_highest_is_one(levels, lo, hi, a_high, b_high);
    } else if a is Some {
        let i = choose|i: int| #[trigger] is_lowest(levels, lo, hi, i);
        assert(in_band(levels[i], lo, hi));
    } else if b is Some {
        let i = choose|i: int| #[trigger] is_lowest(levels, lo, hi, i);
        assert(in_band(levels[i], lo, hi));
    }
}

proof fn lemma_lowest_is_one(
    levels: Seq<Level>,
    lo: Binary64,
    hi: Binary64,
    a: Binary64,
    b: Binary64,
)
    requires
        exists|i: int| #[trigger] is_lowest(levels, lo, hi, i) && levels[i].price == a,
        exists|i: int| #[trigger] is_lowest(levels, lo, hi, i) && levels[i].price == b,
    ensures
        a == b,
{
    let i = choose|i: int| #[trigger] is_lowest(levels, lo, hi, i) && levels[i].price == a;
    let k = choose|i: int| #[trigger] is_lowest(levels, lo, hi, i) && levels[i].price == b;
    assert(in_band(levels[i], lo, hi) && in_band(levels[k], lo, hi));
    lemma_rank_is_injective(a, b);
}

proof fn lemma_highest_is_one(
    levels: Seq<Level>,
    lo: Binary64,
    hi: Binary64,
    a: Binary64,
    b: Binary64,
)
    requires
        exists|i: int| #[trigger] is_highest(levels, lo, hi, i) && levels[i].price == a,
        exists|i: int| #[trigger] is_highest(levels, lo, hi, i) && levels[i].price == b,
    ensures
        a == b,
{
    let i = choose|i: int| #[trigger] is_highest(levels, lo, hi, i) && levels[i].price == a;
    let k = choose|i: int| #[trigger] is_highest(levels, lo, hi, i) && levels[i].price == b;
    assert(in_band(levels[i], lo, hi) && in_band(levels[k], lo, hi));
    lemma_rank_is_injective(a, b);
}

} // verus!
