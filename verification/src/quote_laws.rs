use crate::binary64::{
    clamped_to_zero, difference, lemma_rank_is_injective, negation, product, sum, Binary64,
    HUNDREDTH, ONE, TRILLIONTH,
};
use crate::number_laws::{
    apart, lemma_clamped_is_the_greater, lemma_difference_is_closest,
    lemma_difference_turns_the_sign, lemma_named_numbers, lemma_product_at_the_limits,
    lemma_product_is_closest, lemma_rank_follows_the_value, lemma_sum_at_the_limits,
    lemma_sum_beside, lemma_sum_is_closest, lemma_sums_keep_their_order,
};
use crate::orders::Side;
use crate::quoting::{
    band_of, clips, in_band, is_highest, is_lowest, lemma_delta_grows_with_the_spread,
    lemma_delta_is_not_negative, Level,
};
use crate::rewards::reward_delta;
use crate::rounding::{
    is_nearest, lemma_units_of_parts, lemma_units_order, lemma_units_sign, units, HIDDEN, INFINITY,
};
use vstd::arithmetic::power2::{
    lemma2_to64, lemma_pow2_adds, lemma_pow2_pos, lemma_pow2_strictly_increases, pow2,
};
use vstd::prelude::*;

verus! {

/// A spread above zero reaches a hundredth of itself: no number is nearer to the product of the
/// spread and 0.01 than the distance.
pub proof fn lemma_delta_is_a_hundredth(spread: Binary64, c: Binary64)
    requires
        spread.finite(),
        spread.value() > 0,
        !c.nan(),
    ensures
        ({
            let exact = spread.value() * (Binary64 { bits: HUNDREDTH }).value();
            apart(pow2(1074) * reward_delta(spread).value(), exact) <= apart(
                pow2(1074) * c.value(),
                exact,
            )
        }),
        is_nearest(HUNDREDTH as nat, pow2(1074) as int, 100),
{
    lemma_named_numbers();
    lemma_clamped_is_the_greater(spread);
    lemma_product_is_closest(spread, Binary64 { bits: HUNDREDTH }, c);
}

/// The distance is the product of 0.01 and the spread, or zero where the spread is no number or
/// not above zero, whatever the spread; and the ends of a band are the midpoint and the midpoint
/// less, or plus, that distance, whatever the midpoint.
pub proof fn lemma_band_is_the_same_everywhere(mid: Binary64, spread: Binary64)
    ensures
        ({
            let cent = Binary64 { bits: HUNDREDTH };
            let zero = Binary64 { bits: 0 };
            let delta = if !spread.nan() && spread.value() > 0 {
                product(spread, cent)
            } else {
                product(zero, cent)
            };
            &&& reward_delta(spread) == delta
            &&& band_of(Side::Buy, mid, spread) == (difference(mid, delta), mid)
            &&& band_of(Side::Sell, mid, spread) == (mid, sum(mid, delta))
        }),
{
}

/// A spread that is no number or not above zero reaches nowhere; one without end reaches without
/// end.
pub proof fn lemma_delta_at_the_limits(spread: Binary64)
    ensures
        spread.nan() || spread.value() <= 0 ==> reward_delta(spread).value() == 0,
        spread.infinite() && !spread.negative() ==> reward_delta(spread).infinite() && !reward_delta(
            spread,
        ).negative(),
{
    let cent = Binary64 { bits: HUNDREDTH };
    lemma_clamped_is_the_greater(spread);
    lemma_units_sign(0);
    lemma_units_sign(spread.magnitude());
    lemma_units_sign(HUNDREDTH as nat);
    lemma_product_at_the_limits(clamped_to_zero(spread), cent);
    if spread.nan() || spread.value() <= 0 {
        let zero = clamped_to_zero(spread);
        assert(zero.bits == 0);
        lemma_product_is_closest(zero, cent, zero);
        assert(0 * cent.value() == 0);
        assert(pow2(1074) * 0 == 0);
        lemma_pow2_pos(1074);
        let v = product(zero, cent).value();
        assert(v == 0) by (nonlinear_arith)
            requires
                apart(pow2(1074) * v, 0) <= 0,
                pow2(1074) > 0,
        ;
    }
}

/// The band to buy begins as far below the midpoint as the spread reaches, and the band to sell
/// ends as far above it, wherever the midpoint lies: no number is nearer to the midpoint less, or
/// plus, the distance. The other end is the midpoint.
pub proof fn lemma_band_reaches_as_far_as_the_spread(mid: Binary64, spread: Binary64, c: Binary64)
    requires
        mid.finite(),
        reward_delta(spread).finite(),
        !c.nan(),
    ensures
        ({
            let delta = reward_delta(spread).value();
            let (buy_lo, buy_hi) = band_of(Side::Buy, mid, spread);
            let (sell_lo, sell_hi) = band_of(Side::Sell, mid, spread);
            &&& buy_hi == mid
            &&& sell_lo == mid
            &&& !buy_lo.nan()
            &&& !sell_hi.nan()
            &&& apart(buy_lo.value(), mid.value() - delta) <= apart(c.value(), mid.value() - delta)
            &&& apart(sell_hi.value(), mid.value() + delta) <= apart(
                c.value(),
                mid.value() + delta,
            )
        }),
{
    lemma_difference_is_closest(mid, reward_delta(spread), c);
    lemma_sum_is_closest(mid, reward_delta(spread), c);
}

/// A spread without end makes a band without end on the side of the order.
pub proof fn lemma_endless_spread_makes_an_endless_band(mid: Binary64, spread: Binary64)
    requires
        mid.finite(),
        spread.infinite(),
        !spread.negative(),
    ensures
        band_of(Side::Buy, mid, spread).0.infinite(),
        band_of(Side::Buy, mid, spread).0.negative(),
        band_of(Side::Sell, mid, spread).1.infinite(),
        !band_of(Side::Sell, mid, spread).1.negative(),
{
    lemma_delta_at_the_limits(spread);
    lemma_difference_turns_the_sign(mid, reward_delta(spread));
}

/// Between two midpoints the bands keep the order of the midpoints.
pub proof fn lemma_bands_follow_the_midpoint(low: Binary64, high: Binary64, spread: Binary64)
    requires
        low.finite(),
        high.finite(),
        low.not_above(high),
        reward_delta(spread).finite(),
    ensures
        band_of(Side::Buy, low, spread).0.not_above(band_of(Side::Buy, high, spread).0),
        band_of(Side::Buy, low, spread).1.not_above(band_of(Side::Buy, high, spread).1),
        band_of(Side::Sell, low, spread).0.not_above(band_of(Side::Sell, high, spread).0),
        band_of(Side::Sell, low, spread).1.not_above(band_of(Side::Sell, high, spread).1),
{
    let delta = reward_delta(spread);
    lemma_difference_turns_the_sign(low, delta);
    lemma_difference_turns_the_sign(high, delta);
    let turned = negation(delta);
    lemma_sums_keep_their_order(low, turned, high, turned);
    lemma_sums_keep_their_order(low, delta, high, delta);
}

/// The wider spread makes the wider band around a midpoint.
pub proof fn lemma_wider_spread_makes_a_wider_band(mid: Binary64, narrow: Binary64, wide: Binary64)
    requires
        mid.finite(),
        narrow.not_above(wide),
        reward_delta(wide).finite(),
    ensures
        band_of(Side::Buy, mid, wide).0.not_above(band_of(Side::Buy, mid, narrow).0),
        band_of(Side::Sell, mid, narrow).1.not_above(band_of(Side::Sell, mid, wide).1),
{
    let less = reward_delta(narrow);
    let more = reward_delta(wide);
    lemma_delta_grows_with_the_spread(narrow, wide);
    lemma_delta_is_not_negative(narrow);
    lemma_delta_is_not_negative(wide);
    lemma_units_order(less.magnitude(), more.magnitude());
    lemma_difference_turns_the_sign(mid, less);
    lemma_difference_turns_the_sign(mid, more);
    lemma_sums_keep_their_order(
        mid,
        negation(more),
        mid,
        negation(less),
    );
    lemma_sums_keep_their_order(mid, less, mid, more);
}

/// One pattern up to that of 1 is worth little less than the next.
proof fn lemma_neighbours_are_near(m: nat)
    requires
        m <= ONE,
    ensures
        units(m) < units(m + 1) <= units(m) + pow2(1022),
{
    let h = HIDDEN as nat;
    let exponent = m / h;
    let fraction = m % h;
    let e = if exponent == 0 { 0 } else { (exponent - 1) as nat };
    let sig = if exponent == 0 { fraction } else { h + fraction };
    lemma_units_of_parts(sig, e);
    lemma_units_of_parts(sig + 1, e);
    lemma_units_order(m, m + 1);
    let p = pow2(e) as int;
    assert((sig + 1) * p == sig * p + p) by (nonlinear_arith);
    if e < 1022 {
        lemma_pow2_strictly_increases(e, 1022);
    }
}

/// A spread of a cent or more reaches a hundredth or more.
proof fn lemma_a_cent_reaches_a_hundredth(spread: Binary64)
    requires
        (Binary64 { bits: ONE }).not_above(spread),
    ensures
        !reward_delta(spread).nan(),
        !reward_delta(spread).negative(),
        reward_delta(spread).value() >= units(HUNDREDTH as nat),
{
    let one = Binary64 { bits: ONE };
    let cent = Binary64 { bits: HUNDREDTH };
    lemma_named_numbers();
    lemma_units_sign(ONE as nat);
    lemma_delta_is_a_hundredth(one, cent);
    lemma_delta_grows_with_the_spread(one, spread);
    lemma_delta_is_not_negative(spread);
    lemma_pow2_pos(1074);
    let d = reward_delta(one).value();
    assert(d == cent.value()) by (nonlinear_arith)
        requires
            apart(pow2(1074) * d, pow2(1074) * cent.value()) <= apart(
                pow2(1074) * cent.value(),
                pow2(1074) * cent.value(),
            ),
            pow2(1074) > 0,
    ;
}

/// Around every price up to 1, a spread of a cent or more makes a band that is more than the
/// midpoint: it begins below it to buy, and ends above it to sell.
pub proof fn lemma_band_is_more_than_the_midpoint(mid: Binary64, spread: Binary64)
    requires
        !mid.nan(),
        0 < mid.value() <= (Binary64 { bits: ONE }).value(),
        (Binary64 { bits: ONE }).not_above(spread),
    ensures
        band_of(Side::Buy, mid, spread).0.below(mid),
        mid.below(band_of(Side::Sell, mid, spread).1),
{
    let delta = reward_delta(spread);
    let m = mid.magnitude();
    lemma_a_cent_reaches_a_hundredth(spread);
    lemma_units_sign(m);
    lemma_units_order(m, ONE as nat);
    lemma_units_order(ONE as nat, INFINITY as nat);
    lemma_difference_turns_the_sign(mid, delta);
    if delta.finite() {
        let prev = Binary64 { bits: (mid.bits - 1) as u64 };
        let next = Binary64 { bits: (mid.bits + 1) as u64 };
        lemma_neighbours_are_near((m - 1) as nat);
        lemma_neighbours_are_near(m);
        lemma2_to64();
        lemma_units_of_parts(0x14_7AE1_47AE_147B, 1015);
        lemma_pow2_adds(7, 1015);
        lemma_pow2_pos(1015);
        let p = pow2(1015) as int;
        assert(0x14_7AE1_47AE_147B * p >= 128 * p) by (nonlinear_arith)
            requires
                p > 0,
        ;
        lemma_sum_beside(mid, negation(delta), prev);
        lemma_sum_beside(mid, delta, next);
    } else {
        lemma_units_order(m, INFINITY as nat);
    }
}

/// Every level that has something on it, at a price in the band or no further than 1e-12 outside,
/// lies in the clipped range.
pub proof fn lemma_levels_in_the_band_are_spanned(
    levels: Seq<Level>,
    lo: Binary64,
    hi: Binary64,
    range: Option<(Binary64, Binary64)>,
    i: int,
)
    requires
        clips(levels, lo, hi, range),
        0 <= i < levels.len(),
        !levels[i].size.nan(),
        levels[i].size.value() > 0,
        !levels[i].price.nan(),
        (lo.infinite() && lo.negative()) || (lo.finite() && lo.value() - (Binary64 {
            bits: TRILLIONTH,
        }).value() <= levels[i].price.value()),
        (hi.infinite() && !hi.negative()) || (hi.finite() && levels[i].price.value() <= hi.value()
            + (Binary64 { bits: TRILLIONTH }).value()),
    ensures
        range matches Some((a, b)) && a.value() <= levels[i].price.value() <= b.value(),
{
    lemma_level_is_in_the_band(levels[i], lo, hi);
    lemma_range_is_there_where_a_level_counts(levels, lo, hi, range);
}

proof fn lemma_in_band_is_a_number(level: Level, lo: Binary64, hi: Binary64)
    requires
        in_band(level, lo, hi),
    ensures
        !level.price.nan(),
        !level.size.nan(),
        level.size.value() > 0,
{
    lemma_units_sign(0);
}

proof fn lemma_level_is_in_the_band(level: Level, lo: Binary64, hi: Binary64)
    requires
        !level.size.nan(),
        level.size.value() > 0,
        !level.price.nan(),
        (lo.infinite() && lo.negative()) || (lo.finite() && lo.value() - (Binary64 {
            bits: TRILLIONTH,
        }).value() <= level.price.value()),
        (hi.infinite() && !hi.negative()) || (hi.finite() && level.price.value() <= hi.value() + (
        Binary64 { bits: TRILLIONTH }).value()),
    ensures
        in_band(level, lo, hi),
{
    let margin = Binary64 { bits: TRILLIONTH };
    lemma_units_sign(0);
    lemma_units_order(level.price.magnitude(), INFINITY as nat);
    if lo.finite() {
        lemma_edges(lo, lo, level.price);
    } else {
        lemma_difference_turns_the_sign(lo, margin);
        lemma_sum_at_the_limits(lo, negation(margin));
    }
    if hi.finite() {
        lemma_edges(hi, hi, level.price);
    } else {
        lemma_sum_at_the_limits(hi, margin);
    }
}

/// A level counts in a band if and only if it has something on it and its price lies between the
/// ends with their margins.
pub proof fn lemma_level_counts_by_size_and_price(level: Level, lo: Binary64, hi: Binary64)
    ensures
        ({
            let margin = Binary64 { bits: TRILLIONTH };
            let from = difference(lo, margin);
            let to = sum(hi, margin);
            in_band(level, lo, hi) <==> {
                &&& !level.size.nan() && level.size.value() > 0
                &&& !level.price.nan() && !from.nan() && !to.nan()
                &&& from.value() <= level.price.value() <= to.value()
            }
        }),
{
    lemma_units_sign(0);
}

/// Where no level counts there is no range, and where one does there is one.
pub proof fn lemma_range_is_there_where_a_level_counts(
    levels: Seq<Level>,
    lo: Binary64,
    hi: Binary64,
    range: Option<(Binary64, Binary64)>,
)
    requires
        clips(levels, lo, hi, range),
    ensures
        range is Some <==> exists|i: int|
            0 <= i < levels.len() && in_band(#[trigger] levels[i], lo, hi),
        range matches Some((a, b)) ==> forall|i: int|
            0 <= i < levels.len() && in_band(#[trigger] levels[i], lo, hi) ==> a.value()
                <= levels[i].price.value() <= b.value(),
{
    if range is Some {
        let (a, b) = range->0;
        let x = choose|k: int| #[trigger] is_lowest(levels, lo, hi, k) && levels[k].price == a;
        let y = choose|k: int| #[trigger] is_highest(levels, lo, hi, k) && levels[k].price == b;
        assert(in_band(levels[x], lo, hi) && in_band(levels[y], lo, hi));
        assert forall|i: int|
            0 <= i < levels.len() && in_band(#[trigger] levels[i], lo, hi) implies a.value()
            <= levels[i].price.value() <= b.value() by {
            lemma_rank_follows_the_value(a, levels[i].price);
            lemma_rank_follows_the_value(levels[i].price, b);
        }
    }
}

/// The edges of a band with its margin: what lies beyond the exact edge does not lie short of the
/// rounded one, and the other way round.
proof fn lemma_edges(lo: Binary64, hi: Binary64, c: Binary64)
    requires
        lo.finite(),
        hi.finite(),
        !c.nan(),
    ensures
        ({
            let margin = Binary64 { bits: TRILLIONTH };
            let from = difference(lo, margin);
            let to = sum(hi, margin);
            &&& !from.nan() && !to.nan()
            &&& lo.value() - margin.value() <= c.value() ==> from.value() <= c.value()
            &&& c.value() <= lo.value() - margin.value() ==> c.value() <= from.value()
            &&& c.value() <= hi.value() + margin.value() ==> c.value() <= to.value()
            &&& hi.value() + margin.value() <= c.value() ==> to.value() <= c.value()
        }),
{
    let margin = Binary64 { bits: TRILLIONTH };
    lemma_difference_turns_the_sign(lo, margin);
    lemma_sum_beside(lo, negation(margin), c);
    lemma_sum_beside(hi, margin, c);
}

/// The ends of a clipped range are prices of levels that have something on them, and lie no
/// further than 1e-12 outside the band: no number that does so is beyond them.
pub proof fn lemma_clipped_range_lies_in_the_band(
    levels: Seq<Level>,
    lo: Binary64,
    hi: Binary64,
    range: (Binary64, Binary64),
    c: Binary64,
)
    requires
        clips(levels, lo, hi, Some(range)),
        lo.finite(),
        hi.finite(),
        !c.nan(),
    ensures
        exists|i: int|
            0 <= i < levels.len() && (#[trigger] levels[i]).price == range.0
                && levels[i].size.value() > 0 && !levels[i].size.nan(),
        exists|i: int|
            0 <= i < levels.len() && (#[trigger] levels[i]).price == range.1
                && levels[i].size.value() > 0 && !levels[i].size.nan(),
        !range.0.nan(),
        !range.1.nan(),
        range.0.value() <= range.1.value(),
        c.value() <= lo.value() - (Binary64 { bits: TRILLIONTH }).value() ==> c.value()
            <= range.0.value(),
        hi.value() + (Binary64 { bits: TRILLIONTH }).value() <= c.value() ==> range.1.value()
            <= c.value(),
{
    let x = choose|k: int| #[trigger] is_lowest(levels, lo, hi, k) && levels[k].price == range.0;
    let y = choose|k: int| #[trigger] is_highest(levels, lo, hi, k) && levels[k].price == range.1;
    lemma_in_band_is_a_number(levels[x], lo, hi);
    lemma_in_band_is_a_number(levels[y], lo, hi);
    lemma_edges(lo, hi, c);
    assert(in_band(levels[x], lo, hi) && in_band(levels[y], lo, hi));
    lemma_rank_follows_the_value(range.0, range.1);
}

/// Neither the order of the levels nor how often one occurs changes the clipped range.
pub proof fn lemma_clipping_ignores_the_order(
    a: Seq<Level>,
    b: Seq<Level>,
    lo: Binary64,
    hi: Binary64,
    range_a: Option<(Binary64, Binary64)>,
    range_b: Option<(Binary64, Binary64)>,
)
    requires
        forall|level: Level| #[trigger] a.contains(level) <==> b.contains(level),
        clips(a, lo, hi, range_a),
        clips(b, lo, hi, range_b),
    ensures
        range_a == range_b,
{
    lemma_spanned_by_more(a, b, lo, hi, range_a, range_b);
    lemma_spanned_by_more(b, a, lo, hi, range_b, range_a);
    if range_a is Some {
        let (a_low, a_high) = range_a->0;
        let (b_low, b_high) = range_b->0;
        lemma_rank_is_injective(a_low, b_low);
        lemma_rank_is_injective(a_high, b_high);
    }
}

proof fn lemma_spanned_by_more(
    a: Seq<Level>,
    b: Seq<Level>,
    lo: Binary64,
    hi: Binary64,
    range_a: Option<(Binary64, Binary64)>,
    range_b: Option<(Binary64, Binary64)>,
)
    requires
        forall|level: Level| #[trigger] a.contains(level) ==> b.contains(level),
        clips(a, lo, hi, range_a),
        clips(b, lo, hi, range_b),
    ensures
        range_a matches Some((a_low, a_high)) ==> (range_b matches Some((b_low, b_high)) && {
            &&& b_low.rank() <= a_low.rank()
            &&& a_high.rank() <= b_high.rank()
        }),
{
    if range_a is Some {
        let (a_low, a_high) = range_a->0;
        let x = choose|k: int| #[trigger] is_lowest(a, lo, hi, k) && a[k].price == a_low;
        let y = choose|k: int| #[trigger] is_highest(a, lo, hi, k) && a[k].price == a_high;
        assert(a.contains(a[x]) && a.contains(a[y]));
        let i = choose|i: int| 0 <= i < b.len() && b[i] == a[x];
        let j = choose|j: int| 0 <= j < b.len() && b[j] == a[y];
        assert(in_band(b[i], lo, hi) && in_band(b[j], lo, hi));
    }
}

} // verus!
