use crate::binary64::{
    absolute, clamped_to_zero, difference, lemma_signed, negation, product, signed, sum,
    Binary64, BILLIONTH, HUNDREDTH, MILLIONTH, ONE, SIGN, TENTH, THOUSANDTH, TRILLIONTH,
};
use crate::rounding::{
    is_nearest, lemma_nearest_ordered, lemma_rounded_is_nearest, lemma_units_of_parts, lemma_units_order,
    lemma_units_sign, rounded, units, HIDDEN, INFINITY,
};
use vstd::arithmetic::power2::{lemma2_to64, lemma2_to64_rest, lemma_pow2_adds, lemma_pow2_pos, pow2};
use vstd::prelude::*;

verus! {

/// How far two whole numbers lie apart.
pub open spec fn apart(a: int, b: int) -> int {
    if a < b {
        b - a
    } else {
        a - b
    }
}

/// No pattern is worth something nearer to what was rounded than the one it was rounded to, and
/// where another is equally near, the one that was taken is even.
pub proof fn lemma_nearest_is_closest(m: nat, num: int, den: int, other: nat)
    requires
        den > 0,
        is_nearest(m, num, den),
        other <= INFINITY,
    ensures
        apart(den * units(m), num) <= apart(den * units(other), num),
        other != m && apart(den * units(m), num) == apart(den * units(other), num) ==> m % 2 == 0,
{
    let here = den * units(m);
    let there = den * units(other);
    if other > m {
        let next = den * units(m + 1);
        lemma_units_order(m, m + 1);
        lemma_units_order(m + 1, other);
        assert(here < next <= there && next + here == den * (units(m) + units(m + 1)))
            by (nonlinear_arith)
            requires
                den > 0,
                units(m) < units(m + 1) <= units(other),
                here == den * units(m),
                next == den * units(m + 1),
                there == den * units(other),
        ;
    } else if other < m {
        let prev_m = (m - 1) as nat;
        let prev = den * units(prev_m);
        lemma_units_order(prev_m, m);
        lemma_units_order(other, prev_m);
        assert(there <= prev < here && prev + here == den * (units(prev_m) + units(m)))
            by (nonlinear_arith)
            requires
                den > 0,
                units(other) <= units(prev_m) < units(m),
                here == den * units(m),
                prev == den * units(prev_m),
                there == den * units(other),
        ;
    }
}

/// The product of a whole number and another with its sign turned.
proof fn lemma_turned(den: int, x: int)
    ensures
        den * (-x) == -(den * x),
{
    assert(den * (-x) == -(den * x)) by (nonlinear_arith);
}

/// What is rounded with its sign taken apart is nearest among the numbers with a sign.
proof fn lemma_closest_with_sign(r: Binary64, exact: int, den: int, c: Binary64)
    requires
        den > 0,
        !r.nan(),
        !c.nan(),
        exact != 0 ==> r.negative() == (exact < 0),
        r.magnitude() == rounded(if exact < 0 { -exact } else { exact }, den),
    ensures
        apart(den * r.value(), exact) <= apart(den * c.value(), exact),
        c.value() != r.value() && apart(den * r.value(), exact) == apart(den * c.value(), exact)
            ==> r.magnitude() % 2 == 0,
{
    let size = if exact < 0 { -exact } else { exact };
    let m = r.magnitude();
    let k = c.magnitude();
    lemma_rounded_is_nearest(size, den);
    lemma_nearest_is_closest(m, size, den, k);
    lemma_nearest_is_closest(m, size, den, 0);
    lemma_units_sign(m);
    lemma_units_sign(k);
    lemma_units_order(m, k);
    lemma_turned(den, units(m) as int);
    lemma_turned(den, units(k) as int);
    assert(den * units(0) == 0) by (nonlinear_arith)
        requires
            units(0) == 0,
    ;
    assert(den * units(k) >= 0 && (units(k) > 0 ==> den * units(k) > 0)) by (nonlinear_arith)
        requires
            den > 0,
    ;
    assert(den * units(m) >= 0) by (nonlinear_arith)
        requires
            den > 0,
    ;
    if exact == 0 {
        assert(den * units(m) == 0);
        assert(units(m) == 0) by (nonlinear_arith)
            requires
                den * units(m) == 0,
                den > 0,
        ;
    }
}

/// No number is nearer to the exact sum of two numbers than the sum of `sum`; where another is
/// equally near, the pattern that was taken is even.
pub proof fn lemma_sum_is_closest(a: Binary64, b: Binary64, c: Binary64)
    requires
        a.finite(),
        b.finite(),
        !c.nan(),
    ensures
        !sum(a, b).nan(),
        apart(sum(a, b).value(), a.value() + b.value()) <= apart(c.value(), a.value() + b.value()),
        c.value() != sum(a, b).value() && apart(sum(a, b).value(), a.value() + b.value()) == apart(
            c.value(),
            a.value() + b.value(),
        ) ==> sum(a, b).magnitude() % 2 == 0,
{
    let exact = a.value() + b.value();
    let size = if exact < 0 { -exact } else { exact };
    lemma_rounded_is_nearest(size, 1);
    if exact == 0 {
        lemma_zero_rounds_to_zero(1);
        lemma_signed(a.negative() && b.negative(), 0);
    } else {
        lemma_signed(exact < 0, rounded(size, 1));
    }
    lemma_closest_with_sign(sum(a, b), exact, 1, c);
}

proof fn lemma_zero_rounds_to_zero(den: int)
    requires
        den > 0,
    ensures
        rounded(0, den) == 0,
{
    lemma_rounded_is_nearest(0, den);
    lemma_nearest_is_closest(rounded(0, den), 0, den, 0);
    lemma_units_sign(rounded(0, den));
    let u = units(rounded(0, den)) as int;
    assert(units(0) == 0);
    assert(u == 0) by (nonlinear_arith)
        requires
            apart(den * u, 0) <= apart(den * 0, 0),
            den > 0,
            u >= 0,
    ;
}

/// The sum does not depend on which side comes first.
pub proof fn lemma_sum_commutes(a: Binary64, b: Binary64)
    ensures
        sum(a, b) == sum(b, a),
{
}

/// What is rounded with its sign taken apart keeps its order.
proof fn lemma_signed_rounding_ordered(x: int, y: int)
    requires
        x <= y,
    ensures
        ({
            let r = signed(x < 0, rounded(if x < 0 { -x } else { x }, 1));
            let s = signed(y < 0, rounded(if y < 0 { -y } else { y }, 1));
            &&& !r.nan() && !s.nan()
            &&& r.value() <= s.value()
        }),
{
    let size_x = if x < 0 { -x } else { x };
    let size_y = if y < 0 { -y } else { y };
    let m = rounded(size_x, 1);
    let k = rounded(size_y, 1);
    lemma_rounded_is_nearest(size_x, 1);
    lemma_rounded_is_nearest(size_y, 1);
    lemma_signed(x < 0, m);
    lemma_signed(y < 0, k);
    if size_x <= size_y {
        lemma_nearest_ordered(m, size_x, k, size_y, 1);
    } else {
        lemma_nearest_ordered(k, size_y, m, size_x, 1);
    }
    lemma_units_order(m, k);
}

/// A sum of two finite numbers is worth what their exact sum rounds to.
proof fn lemma_sum_value(a: Binary64, b: Binary64)
    requires
        a.finite(),
        b.finite(),
    ensures
        ({
            let exact = a.value() + b.value();
            let r = signed(exact < 0, rounded(if exact < 0 { -exact } else { exact }, 1));
            !sum(a, b).nan() && sum(a, b).value() == r.value()
        }),
{
    let exact = a.value() + b.value();
    lemma_signed_rounding_ordered(exact, exact);
    if exact == 0 {
        lemma_zero_rounds_to_zero(1);
        lemma_signed(a.negative() && b.negative(), 0);
        lemma_signed(false, 0);
        lemma_units_sign(0);
    }
}

/// The greater exact sum gives the sum that is not smaller.
pub proof fn lemma_sums_keep_their_order(a: Binary64, b: Binary64, c: Binary64, d: Binary64)
    requires
        a.finite(),
        b.finite(),
        c.finite(),
        d.finite(),
        a.value() + b.value() <= c.value() + d.value(),
    ensures
        sum(a, b).not_above(sum(c, d)),
{
    lemma_sum_value(a, b);
    lemma_sum_value(c, d);
    lemma_signed_rounding_ordered(a.value() + b.value(), c.value() + d.value());
}

/// A sum is no number where a side is none or the sides are the two infinities; one infinity
/// gives itself; and a sum that is exactly zero has the sign only where both sides have it.
pub proof fn lemma_sum_at_the_limits(a: Binary64, b: Binary64)
    ensures
        sum(a, b).nan() <==> a.nan() || b.nan() || (a.infinite() && b.infinite() && a.negative()
            != b.negative()),
        a.infinite() && !sum(a, b).nan() ==> sum(a, b) == a,
        a.finite() && b.finite() && a.value() + b.value() == 0 ==> sum(a, b).magnitude() == 0 && (
        sum(a, b).negative() <==> a.negative() && b.negative()),
{
    if a.finite() && b.finite() {
        let exact = a.value() + b.value();
        let size = if exact < 0 { -exact } else { exact };
        lemma_rounded_is_nearest(size, 1);
        lemma_signed(exact < 0, rounded(size, 1));
        lemma_signed(a.negative() && b.negative(), 0);
    }
}

/// A number on one side of an exact sum is not on the other side of the rounded one.
pub proof fn lemma_sum_beside(a: Binary64, b: Binary64, c: Binary64)
    requires
        a.finite(),
        b.finite(),
        !c.nan(),
    ensures
        !sum(a, b).nan(),
        a.value() + b.value() <= c.value() ==> sum(a, b).value() <= c.value(),
        c.value() <= a.value() + b.value() ==> c.value() <= sum(a, b).value(),
{
    lemma_sum_is_closest(a, b, c);
    if c.finite() {
        let zero = Binary64 { bits: 0 };
        lemma_units_sign(0);
        lemma_sum_at_the_limits(c, zero);
        lemma_sum_is_closest(c, zero, c);
        if a.value() + b.value() <= c.value() {
            lemma_sums_keep_their_order(a, b, c, zero);
        }
        if c.value() <= a.value() + b.value() {
            lemma_sums_keep_their_order(c, zero, a, b);
        }
    } else {
        lemma_units_order(sum(a, b).magnitude(), INFINITY as nat);
    }
}

/// To take a number away is to add it with its sign turned, and turning the sign turns the value.
pub proof fn lemma_difference_turns_the_sign(a: Binary64, b: Binary64)
    ensures
        difference(a, b) == sum(a, negation(b)),
        negation(b).value() == -b.value(),
        negation(b).nan() == b.nan(),
        negation(b).finite() == b.finite(),
        negation(b).negative() != b.negative(),
        negation(negation(b)) == b,
{
    lemma_signed(!b.negative(), b.magnitude());
}

/// No number is nearer to the exact difference of two numbers than theirs.
pub proof fn lemma_difference_is_closest(a: Binary64, b: Binary64, c: Binary64)
    requires
        a.finite(),
        b.finite(),
        !c.nan(),
    ensures
        !difference(a, b).nan(),
        apart(difference(a, b).value(), a.value() - b.value()) <= apart(
            c.value(),
            a.value() - b.value(),
        ),
{
    lemma_difference_turns_the_sign(a, b);
    lemma_sum_is_closest(a, negation(b), c);
}

/// A number taken from itself leaves nothing.
pub proof fn lemma_difference_with_itself(a: Binary64)
    requires
        a.finite(),
    ensures
        difference(a, a).bits == 0,
{
    lemma_difference_turns_the_sign(a, a);
}

/// No number is nearer to the exact product of two numbers than theirs; where another is equally
/// near, the pattern that was taken is even.
pub proof fn lemma_product_is_closest(a: Binary64, b: Binary64, c: Binary64)
    requires
        a.finite(),
        b.finite(),
        !c.nan(),
    ensures
        !product(a, b).nan(),
        product(a, b).negative() == (a.negative() != b.negative()),
        apart(pow2(1074) * product(a, b).value(), a.value() * b.value()) <= apart(
            pow2(1074) * c.value(),
            a.value() * b.value(),
        ),
        c.value() != product(a, b).value() && apart(
            pow2(1074) * product(a, b).value(),
            a.value() * b.value(),
        ) == apart(pow2(1074) * c.value(), a.value() * b.value()) ==> product(a, b).magnitude() % 2
            == 0,
{
    let x = units(a.magnitude());
    let y = units(b.magnitude());
    let den = pow2(1074) as int;
    let negative = a.negative() != b.negative();
    let exact = a.value() * b.value();
    lemma_pow2_pos(1074);
    assert((-(x as int)) * y == -(x * y) && x * (-(y as int)) == -(x * y) && (-(x as int)) * (-(
    y as int)) == x * y && x * y >= 0) by (nonlinear_arith);
    lemma_rounded_is_nearest((x * y) as int, den);
    lemma_signed(negative, rounded((x * y) as int, den));
    assert(exact == if negative { -(x * y) } else { (x * y) as int });
    lemma_closest_with_sign(product(a, b), exact, den, c);
}

/// The product does not depend on which side comes first.
pub proof fn lemma_product_commutes(a: Binary64, b: Binary64)
    ensures
        product(a, b) == product(b, a),
{
    assert(units(a.magnitude()) * units(b.magnitude()) == units(b.magnitude()) * units(
        a.magnitude(),
    )) by (nonlinear_arith);
}

/// A product is no number where a side is none or an infinity meets a zero; an infinity otherwise
/// gives an infinity with the sign of the product.
pub proof fn lemma_product_at_the_limits(a: Binary64, b: Binary64)
    ensures
        product(a, b).nan() <==> a.nan() || b.nan() || (a.infinite() && b.magnitude() == 0) || (
        b.infinite() && a.magnitude() == 0),
        a.infinite() && !product(a, b).nan() ==> product(a, b).infinite() && product(
            a,
            b,
        ).negative() == (a.negative() != b.negative()),
{
    if a.finite() && b.finite() {
        lemma_product_is_closest(a, b, a);
    }
}

/// Without its sign a number is worth as much, and not below zero.
pub proof fn lemma_absolute_is_the_size(a: Binary64)
    ensures
        absolute(a).nan() == a.nan(),
        !absolute(a).negative(),
        absolute(a).value() == apart(a.value(), 0),
        absolute(a).finite() == a.finite(),
{
    lemma_signed(false, a.magnitude());
}

/// What is clamped is the greater of the number and zero; what is no number counts as zero.
pub proof fn lemma_clamped_is_the_greater(a: Binary64)
    ensures
        clamped_to_zero(a).value() >= 0,
        !a.nan() ==> clamped_to_zero(a).value() >= a.value(),
        !a.nan() ==> clamped_to_zero(a).value() == a.value() || clamped_to_zero(a).value() == 0,
        !a.nan() && a.value() > 0 ==> clamped_to_zero(a) == a,
        a.nan() ==> clamped_to_zero(a).value() == 0,
{
    lemma_units_sign(0);
    lemma_units_sign(a.magnitude());
}

/// A number is positive where its pattern has no sign and lies between those of zero and of
/// infinity.
pub proof fn lemma_positive_patterns(a: Binary64)
    ensures
        a.positive() <==> 0 < a.bits < INFINITY,
        a.positive() ==> a.value() > 0 && !a.nan() && !a.negative(),
{
    lemma_units_sign(a.magnitude());
}

/// A pattern is that of a finite number, of an infinity, or of no number; the infinities have the
/// greatest exponent and nothing behind it.
pub proof fn lemma_kinds_of_patterns(a: Binary64)
    ensures
        a.infinite() <==> a.bits == INFINITY || a.bits == SIGN + INFINITY,
        a.negative() <==> a.bits >= SIGN,
        a.finite() <==> a.bits < INFINITY || SIGN <= a.bits < SIGN + INFINITY,
        a.nan() <==> !a.finite() && !a.infinite(),
{
}

/// The total order of the patterns is that of the numbers, wherever these differ.
pub proof fn lemma_rank_follows_the_value(a: Binary64, b: Binary64)
    requires
        !a.nan(),
        !b.nan(),
    ensures
        a.value() < b.value() ==> a.rank() < b.rank(),
        a.rank() <= b.rank() ==> a.value() <= b.value(),
        a.below(b) <==> a.value() < b.value(),
        a.not_above(b) <==> a.value() <= b.value(),
{
    lemma_units_order(a.magnitude(), b.magnitude());
    lemma_units_sign(a.magnitude());
    lemma_units_sign(b.magnitude());
}

/// What is no number is neither below nor above anything.
pub proof fn lemma_no_number_has_no_order(a: Binary64, b: Binary64)
    requires
        a.nan() || b.nan(),
    ensures
        !a.below(b),
        !a.not_above(b),
{
}

/// The pattern of a scale and a significand is nearest to a fraction of one, as its neighbours
/// tell.
proof fn lemma_nearest_fraction(m: nat, sig: nat, e: nat, left: nat, over: int)
    requires
        m == e * HIDDEN as nat + sig,
        HIDDEN < sig < 0x1F_FFFF_FFFF_FFFF,
        e + left == 1074,
        m < INFINITY,
        over > 0,
        over * (2 * sig - 1) < 2 * pow2(left) < over * (2 * sig + 1),
    ensures
        is_nearest(m, pow2(1074) as int, over),
{
    lemma_units_of_parts((sig - 1) as nat, e);
    lemma_units_of_parts(sig, e);
    lemma_units_of_parts(sig + 1, e);
    lemma_pow2_pos(e);
    lemma_pow2_adds(e, left);
    let p = pow2(e) as int;
    let q = pow2(left) as int;
    let s = sig as int;
    assert(units((m - 1) as nat) == (s - 1) * p);
    assert(units(m) == s * p);
    assert(units(m + 1) == (s + 1) * p);
    assert(over * ((s - 1) * p + s * p) == (over * (2 * s - 1)) * p) by (nonlinear_arith);
    assert(over * (s * p + (s + 1) * p) == (over * (2 * s + 1)) * p) by (nonlinear_arith);
    assert((over * (2 * s - 1)) * p < 2 * (p * q) < (over * (2 * s + 1)) * p) by (nonlinear_arith)
        requires
            over * (2 * s - 1) < 2 * q < over * (2 * s + 1),
            p > 0,
    ;
}

/// The named patterns are those of the numbers they are named after: 1, and the numbers nearest
/// to 0.1, 0.01, 0.001, 1e-6, 1e-9 and 1e-12.
pub proof fn lemma_named_numbers()
    ensures
        (Binary64 { bits: ONE }).value() == pow2(1074),
        is_nearest(TENTH as nat, pow2(1074) as int, 10),
        is_nearest(HUNDREDTH as nat, pow2(1074) as int, 100),
        is_nearest(THOUSANDTH as nat, pow2(1074) as int, 1000),
        is_nearest(MILLIONTH as nat, pow2(1074) as int, 1_000_000),
        is_nearest(BILLIONTH as nat, pow2(1074) as int, 1_000_000_000),
        is_nearest(TRILLIONTH as nat, pow2(1074) as int, 1_000_000_000_000),
{
    lemma2_to64();
    lemma2_to64_rest();
    lemma_units_of_parts(HIDDEN as nat, 1022);
    lemma_pow2_adds(52, 1022);
    lemma_pow2_adds(64, 8);
    lemma_pow2_adds(64, 18);
    lemma_pow2_adds(64, 28);
    lemma_nearest_fraction(TENTH as nat, 0x19_9999_9999_999A, 1018, 56, 10);
    lemma_nearest_fraction(HUNDREDTH as nat, 0x14_7AE1_47AE_147B, 1015, 59, 100);
    lemma_nearest_fraction(THOUSANDTH as nat, 0x10_624D_D2F1_A9FC, 1012, 62, 1000);
    lemma_nearest_fraction(MILLIONTH as nat, 0x10_C6F7_A0B5_ED8D, 1002, 72, 1_000_000);
    lemma_nearest_fraction(BILLIONTH as nat, 0x11_2E0B_E826_D695, 992, 82, 1_000_000_000);
    lemma_nearest_fraction(TRILLIONTH as nat, 0x11_9799_812D_EA11, 982, 92, 1_000_000_000_000);
}

} // verus!
