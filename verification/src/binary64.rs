use crate::rounding::{
    is_nearest, lemma_exact_is_nearest, lemma_gap_around, lemma_nearest_is_unique,
    lemma_nearest_ordered, lemma_rounded_is_nearest, lemma_units_of_parts, lemma_units_order,
    lemma_units_sign, round_to_nearest, rounded, units, HIDDEN, INFINITY, SIG_END,
};
use vstd::arithmetic::power2::{
    lemma2_to64, lemma2_to64_rest, lemma_pow2_adds, lemma_pow2_pos, lemma_pow2_strictly_increases,
    lemma_pow2_unfold, pow2,
};
use vstd::prelude::*;

verus! {

/// 2^63: the sign bit.
pub const SIGN: u64 = 0x8000_0000_0000_0000;

/// The magnitude pattern that stands for every not-a-number result.
pub const QUIET_NAN: u64 = 0x7FF8_0000_0000_0000;

/// The pattern of 1.0.
pub const ONE: u64 = 0x3FF0_0000_0000_0000;

/// The pattern of 0.1.
pub const TENTH: u64 = 0x3FB9_9999_9999_999A;

/// The pattern of 0.01.
pub const HUNDREDTH: u64 = 0x3F84_7AE1_47AE_147B;

/// The pattern of 0.001.
pub const THOUSANDTH: u64 = 0x3F50_624D_D2F1_A9FC;

/// The pattern of 1e-6.
pub const MILLIONTH: u64 = 0x3EB0_C6F7_A0B5_ED8D;

/// The pattern of 1e-9.
pub const BILLIONTH: u64 = 0x3E11_2E0B_E826_D695;

/// The pattern of 1e-12.
pub const TRILLIONTH: u64 = 0x3D71_9799_812D_EA11;

/// An IEEE 754 binary64 number, held as its bit pattern.
///
/// Two of them are equal when their patterns are: the two zeros differ, and a not-a-number
/// equals itself. Use `less_than` and `at_most` for the order of the numbers.
#[derive(Clone, Copy, Debug, PartialEq, Eq, Structural)]
pub struct Binary64 {
    pub bits: u64,
}

impl Binary64 {
    /// The sign bit is set.
    pub open spec fn negative(self) -> bool {
        self.bits >= SIGN
    }

    /// The pattern without its sign bit.
    pub open spec fn magnitude(self) -> nat {
        (self.bits % SIGN) as nat
    }

    pub open spec fn nan(self) -> bool {
        self.magnitude() > INFINITY
    }

    pub open spec fn infinite(self) -> bool {
        self.magnitude() == INFINITY
    }

    pub open spec fn finite(self) -> bool {
        self.magnitude() < INFINITY
    }

    /// The number in units of 2^-1074; meaningless for a not-a-number.
    pub open spec fn value(self) -> int {
        if self.negative() {
            -(units(self.magnitude()) as int)
        } else {
            units(self.magnitude()) as int
        }
    }

    /// The place in the total order of all patterns: the not-a-numbers with a sign first, then
    /// the numbers in order with the negative zero before the positive one, then the
    /// not-a-numbers without a sign.
    pub open spec fn rank(self) -> int {
        if self.negative() {
            -(self.magnitude() as int) - 1
        } else {
            self.magnitude() as int
        }
    }

    /// IEEE `<`: false as soon as one side is a not-a-number.
    pub open spec fn below(self, other: Binary64) -> bool {
        !self.nan() && !other.nan() && self.value() < other.value()
    }

    /// IEEE `<=`: false as soon as one side is a not-a-number.
    pub open spec fn not_above(self, other: Binary64) -> bool {
        !self.nan() && !other.nan() && self.value() <= other.value()
    }

    /// Finite and greater than zero.
    pub open spec fn positive(self) -> bool {
        self.finite() && self.value() > 0
    }

    pub fn from_bits(bits: u64) -> (x: Binary64)
        ensures
            x.bits == bits,
    {
        Binary64 { bits }
    }

    pub fn to_bits(self) -> (bits: u64)
        ensures
            bits == self.bits,
    {
        self.bits
    }

    pub fn is_nan(self) -> (b: bool)
        ensures
            b == self.nan(),
    {
        self.bits % SIGN > INFINITY
    }

    pub fn is_positive(self) -> (b: bool)
        ensures
            b == self.positive(),
    {
        proof {
            lemma_units_sign(self.magnitude());
        }
        self.bits < INFINITY && self.bits > 0
    }

    pub fn less_than(self, other: Binary64) -> (b: bool)
        ensures
            b == self.below(other),
    {
        let x: u64 = self.bits % SIGN;
        let y: u64 = other.bits % SIGN;
        proof {
            lemma_units_order(x as nat, y as nat);
            lemma_units_sign(x as nat);
            lemma_units_sign(y as nat);
        }
        if x > INFINITY || y > INFINITY {
            false
        } else if self.bits < SIGN {
            other.bits < SIGN && x < y
        } else if other.bits < SIGN {
            x > 0 || y > 0
        } else {
            y < x
        }
    }

    pub fn at_most(self, other: Binary64) -> (b: bool)
        ensures
            b == self.not_above(other),
    {
        !self.is_nan() && !other.is_nan() && !other.less_than(self)
    }

    /// Whether `self` comes before `other` in the total order of the patterns.
    pub fn ranks_below(self, other: Binary64) -> (b: bool)
        ensures
            b == (self.rank() < other.rank()),
    {
        let x: u64 = self.bits % SIGN;
        let y: u64 = other.bits % SIGN;
        if self.bits < SIGN {
            other.bits < SIGN && x < y
        } else {
            other.bits < SIGN || y < x
        }
    }
}

/// The pattern with the given sign and magnitude.
pub open spec fn signed(negative: bool, magnitude: nat) -> Binary64 {
    Binary64 {
        bits: if negative {
            (SIGN + magnitude) as u64
        } else {
            magnitude as u64
        },
    }
}

/// The correctly rounded product.
pub open spec fn product(a: Binary64, b: Binary64) -> Binary64 {
    let negative = a.negative() != b.negative();
    if a.nan() || b.nan() {
        signed(false, QUIET_NAN as nat)
    } else if a.infinite() || b.infinite() {
        if a.magnitude() == 0 || b.magnitude() == 0 {
            signed(false, QUIET_NAN as nat)
        } else {
            signed(negative, INFINITY as nat)
        }
    } else {
        signed(
            negative,
            rounded(
                (units(a.magnitude()) * units(b.magnitude())) as int,
                pow2(1074) as int,
            ),
        )
    }
}

/// The correctly rounded sum. A sum that is exactly zero is the negative zero only where both
/// sides have the sign.
pub open spec fn sum(a: Binary64, b: Binary64) -> Binary64 {
    if a.nan() || b.nan() {
        signed(false, QUIET_NAN as nat)
    } else if a.infinite() && b.infinite() && a.negative() != b.negative() {
        signed(false, QUIET_NAN as nat)
    } else if a.infinite() {
        a
    } else if b.infinite() {
        b
    } else {
        let exact = a.value() + b.value();
        if exact == 0 {
            signed(a.negative() && b.negative(), 0)
        } else {
            signed(exact < 0, rounded(if exact < 0 { -exact } else { exact }, 1))
        }
    }
}

/// The number with its sign turned.
pub open spec fn negation(a: Binary64) -> Binary64 {
    signed(!a.negative(), a.magnitude())
}

/// The correctly rounded difference.
pub open spec fn difference(a: Binary64, b: Binary64) -> Binary64 {
    sum(a, negation(b))
}

/// The number without its sign.
pub open spec fn absolute(a: Binary64) -> Binary64 {
    signed(false, a.magnitude())
}

/// `a`, or zero where `a` is a not-a-number or not greater than zero.
pub open spec fn clamped_to_zero(a: Binary64) -> Binary64 {
    if !a.nan() && a.value() > 0 {
        a
    } else {
        signed(false, 0)
    }
}

/// The significand and the scale of a finite magnitude.
fn parts(m: u64) -> (p: (u64, u32))
    requires
        m < INFINITY,
    ensures
        p.0 < SIG_END,
        p.1 <= 2045,
        p.1 == 0 || p.0 >= HIDDEN,
        m == p.1 * HIDDEN + p.0,
        units(m as nat) == p.0 * pow2(p.1 as nat),
{
    let exponent: u64 = m / HIDDEN;
    let fraction: u64 = m % HIDDEN;
    let p: (u64, u32) = if exponent == 0 {
        (fraction, 0)
    } else {
        (HIDDEN + fraction, (exponent - 1) as u32)
    };
    proof {
        lemma_units_of_parts(p.0 as nat, p.1 as nat);
    }
    p
}

/// 2^d.
fn power_of_two(d: u32) -> (p: u128)
    requires
        d <= 60,
    ensures
        p == pow2(d as nat),
        p <= 0x1000_0000_0000_0000,
{
    proof {
        lemma2_to64();
        lemma2_to64_rest();
    }
    let mut p: u128 = 1;
    let mut i: u32 = 0;
    while i < d
        invariant
            i <= d <= 60,
            p == pow2(i as nat),
            p <= 0x1000_0000_0000_0000,
        decreases d - i,
    {
        proof {
            lemma2_to64_rest();
            lemma_pow2_unfold((i + 1) as nat);
            if i + 1 < 60 {
                lemma_pow2_strictly_increases((i + 1) as nat, 60);
            }
        }
        p = p * 2;
        i = i + 1;
    }
    p
}

/// The exact sum of two magnitudes, or their difference where they have opposite signs.
spec fn combined(a: nat, b: nat, opposite: bool) -> int {
    if opposite {
        units(a) - units(b)
    } else {
        (units(a) + units(b)) as int
    }
}

/// Next to a magnitude whose scale is greater by more than 60, the smaller one is lost in the
/// rounding.
proof fn lemma_small_is_lost(a: nat, b: nat, sig_a: nat, e_a: nat, sig_b: nat, e_b: nat, opposite: bool)
    requires
        a < INFINITY,
        HIDDEN <= sig_a < SIG_END,
        a == e_a * HIDDEN as nat + sig_a,
        sig_b < SIG_END,
        units(b) == sig_b * pow2(e_b),
        e_a > e_b + 60,
    ensures
        is_nearest(a, combined(a, b, opposite), 1),
{
    lemma_gap_around(sig_a, e_a);
    lemma2_to64_rest();
    lemma2_to64();
    lemma_pow2_pos(e_b);
    lemma_pow2_adds(54, e_b);
    let small = pow2(e_b) as int;
    let half = pow2((e_a - 1) as nat) as int;
    lemma_pow2_strictly_increases(54 + e_b, (e_a - 1) as nat);
    lemma_pow2_unfold(e_a);
    assert(2 * (sig_b * small) < 0x40_0000_0000_0000 * small) by (nonlinear_arith)
        requires
            0 <= sig_b < 0x20_0000_0000_0000,
            small > 0,
    ;
}

/// The magnitude that the combination of two finite magnitudes rounds to.
fn combine(a: u64, b: u64, opposite: bool) -> (m: u64)
    requires
        b <= a < INFINITY,
    ensures
        m <= INFINITY,
        m == rounded(combined(a as nat, b as nat, opposite), 1),
{
    let (sig_a, e_a) = parts(a);
    let (sig_b, e_b) = parts(b);
    let ghost exact = combined(a as nat, b as nat, opposite);
    assert(e_a >= e_b);
    let d: u32 = e_a - e_b;
    if d > 60 {
        proof {
            lemma_small_is_lost(
                a as nat,
                b as nat,
                sig_a as nat,
                e_a as nat,
                sig_b as nat,
                e_b as nat,
                opposite,
            );
            lemma_nearest_is_unique(a as nat, rounded(exact, 1), exact, 1);
        }
        return a;
    }
    let p = power_of_two(d);
    let ghost unit = pow2(e_b as nat) as int;
    proof {
        lemma2_to64();
        lemma_pow2_pos(e_b as nat);
        lemma_pow2_adds(d as nat, e_b as nat);
        lemma_units_order(a as nat, b as nat);
        assert(0 <= sig_a * p < 0x2_0000_0000_0000_0000_0000_0000_0000) by (nonlinear_arith)
            requires
                0 <= sig_a < 0x20_0000_0000_0000,
                0 <= p <= 0x1000_0000_0000_0000,
        ;
        assert(units(a as nat) == (sig_a * p) * unit) by (nonlinear_arith)
            requires
                units(a as nat) == sig_a * pow2(e_a as nat),
                pow2(e_a as nat) == p * unit,
        ;
        assert(sig_b <= sig_a * p) by (nonlinear_arith)
            requires
                sig_b * unit <= (sig_a * p) * unit,
                unit > 0,
        ;
        assert((sig_a * p + sig_b) * unit == (sig_a * p) * unit + sig_b * unit)
            by (nonlinear_arith);
        assert((sig_a * p - sig_b) * unit == (sig_a * p) * unit - sig_b * unit)
            by (nonlinear_arith);
    }
    let n: u128 = if opposite {
        sig_a as u128 * p - sig_b as u128
    } else {
        sig_a as u128 * p + sig_b as u128
    };
    round_to_nearest(n, e_b, 0)
}

impl Binary64 {
    pub fn negated(self) -> (r: Binary64)
        ensures
            r == negation(self),
    {
        if self.bits >= SIGN {
            Binary64 { bits: self.bits - SIGN }
        } else {
            Binary64 { bits: self.bits + SIGN }
        }
    }

    pub fn abs(self) -> (r: Binary64)
        ensures
            r == absolute(self),
    {
        Binary64 { bits: self.bits % SIGN }
    }

    /// The sum, rounded to nearest, ties to even.
    pub fn plus(self, other: Binary64) -> (r: Binary64)
        ensures
            r == sum(self, other),
    {
        let x: u64 = self.bits % SIGN;
        let y: u64 = other.bits % SIGN;
        let opposite = (self.bits >= SIGN) != (other.bits >= SIGN);
        if x > INFINITY || y > INFINITY {
            return Binary64 { bits: QUIET_NAN };
        }
        if x == INFINITY {
            if y == INFINITY && opposite {
                return Binary64 { bits: QUIET_NAN };
            }
            return self;
        }
        if y == INFINITY {
            return other;
        }
        proof {
            lemma_units_order(x as nat, y as nat);
            lemma_units_sign(x as nat);
            lemma_units_sign(y as nat);
        }
        if opposite && x == y {
            return Binary64 { bits: 0 };
        }
        if x == 0 && y == 0 {
            return self;
        }
        let larger = if x >= y { self } else { other };
        let m = if x >= y { combine(x, y, opposite) } else { combine(y, x, opposite) };
        if larger.bits >= SIGN {
            Binary64 { bits: SIGN + m }
        } else {
            Binary64 { bits: m }
        }
    }

    /// The difference, rounded to nearest, ties to even.
    pub fn minus(self, other: Binary64) -> (r: Binary64)
        ensures
            r == difference(self, other),
    {
        self.plus(other.negated())
    }

    /// The product, rounded to nearest, ties to even.
    pub fn times(self, other: Binary64) -> (r: Binary64)
        ensures
            r == product(self, other),
    {
        let x: u64 = self.bits % SIGN;
        let y: u64 = other.bits % SIGN;
        let negative = (self.bits >= SIGN) != (other.bits >= SIGN);
        if x > INFINITY || y > INFINITY {
            return Binary64 { bits: QUIET_NAN };
        }
        if x == INFINITY || y == INFINITY {
            if x == 0 || y == 0 {
                return Binary64 { bits: QUIET_NAN };
            }
            return if negative {
                Binary64 { bits: SIGN + INFINITY }
            } else {
                Binary64 { bits: INFINITY }
            };
        }
        let (sig_x, e_x) = parts(x);
        let (sig_y, e_y) = parts(y);
        proof {
            let px = pow2(e_x as nat) as int;
            let py = pow2(e_y as nat) as int;
            lemma_pow2_adds(e_x as nat, e_y as nat);
            assert((sig_x * px) * (sig_y * py) == (sig_x * sig_y) * (px * py)) by (nonlinear_arith);
            assert(0 <= sig_x * sig_y < 0x4_0000_0000_0000_0000_0000_0000_0000) by (nonlinear_arith)
                requires
                    0 <= sig_x < 0x20_0000_0000_0000,
                    0 <= sig_y < 0x20_0000_0000_0000,
            ;
        }
        let m = round_to_nearest(sig_x as u128 * sig_y as u128, e_x + e_y, 1074);
        if negative {
            Binary64 { bits: SIGN + m }
        } else {
            Binary64 { bits: m }
        }
    }

    /// The greater of the number and zero; zero for a not-a-number.
    pub fn clamp_to_zero(self) -> (r: Binary64)
        ensures
            r == clamped_to_zero(self),
    {
        proof {
            lemma_units_sign(self.magnitude());
        }
        if self.bits > 0 && self.bits <= INFINITY {
            self
        } else {
            Binary64 { bits: 0 }
        }
    }
}

/// What is clamped is a number, and has no sign.
pub proof fn lemma_clamped_is_not_negative(a: Binary64)
    ensures
        !clamped_to_zero(a).nan(),
        !clamped_to_zero(a).negative(),
        clamped_to_zero(a).value() >= 0,
{
    lemma_units_sign(a.magnitude());
}

/// The sum of two numbers without a sign is one.
pub proof fn lemma_sum_is_not_negative(a: Binary64, b: Binary64)
    requires
        !a.nan(),
        !a.negative(),
        !b.nan(),
        !b.negative(),
    ensures
        !sum(a, b).nan(),
        !sum(a, b).negative(),
{
    if a.finite() && b.finite() {
        lemma_rounded_is_nearest(a.value() + b.value(), 1);
    }
}

/// The product of a number without a sign and one above zero is a number without a sign.
pub proof fn lemma_product_is_not_negative(a: Binary64, b: Binary64)
    requires
        !a.nan(),
        !a.negative(),
        b.positive(),
        !b.negative(),
    ensures
        !product(a, b).nan(),
        !product(a, b).negative(),
{
    lemma_units_sign(b.magnitude());
    if a.finite() {
        lemma_pow2_pos(1074);
        lemma_rounded_is_nearest(
            (units(a.magnitude()) * units(b.magnitude())) as int,
            pow2(1074) as int,
        );
    }
}

/// The greater of two factors gives the product that is rounded to no less.
proof fn lemma_rounded_products_ordered(x: nat, y: nat, z: nat, den: int)
    requires
        x <= y,
        den > 0,
    ensures
        rounded((x * z) as int, den) <= rounded((y * z) as int, den),
        rounded((y * z) as int, den) <= INFINITY,
{
    assert(0 <= x * z <= y * z) by (nonlinear_arith)
        requires
            x <= y,
    ;
    lemma_rounded_is_nearest((x * z) as int, den);
    lemma_rounded_is_nearest((y * z) as int, den);
    lemma_nearest_ordered(
        rounded((x * z) as int, den),
        (x * z) as int,
        rounded((y * z) as int, den),
        (y * z) as int,
        den,
    );
}

/// Of two numbers without a sign the one with the smaller magnitude is not above the other.
pub proof fn lemma_not_above_by_magnitude(a: Binary64, b: Binary64)
    requires
        !a.negative(),
        !b.negative(),
        !b.nan(),
    ensures
        a.magnitude() <= b.magnitude() <==> a.not_above(b),
{
    lemma_units_order(a.magnitude(), b.magnitude());
}

/// The product of a number without a sign and one above zero grows with the first.
pub proof fn lemma_product_grows(a: Binary64, b: Binary64, c: Binary64)
    requires
        !a.negative(),
        !b.negative(),
        a.not_above(b),
        c.positive(),
        !c.negative(),
    ensures
        product(a, c).not_above(product(b, c)),
{
    lemma_units_sign(c.magnitude());
    lemma_product_is_not_negative(a, c);
    lemma_product_is_not_negative(b, c);
    lemma_not_above_by_magnitude(a, b);
    if b.finite() {
        let den = pow2(1074) as int;
        let x = units(a.magnitude());
        let y = units(b.magnitude());
        let z = units(c.magnitude());
        lemma_pow2_pos(1074);
        lemma_units_order(a.magnitude(), b.magnitude());
        lemma_rounded_products_ordered(x, y, z, den);
        lemma_signed(false, rounded((x * z) as int, den));
        lemma_signed(false, rounded((y * z) as int, den));
    }
    lemma_not_above_by_magnitude(product(a, c), product(b, c));
}

/// A sign and a magnitude make the pattern that has them.
pub proof fn lemma_signed(negative: bool, m: nat)
    requires
        m < SIGN,
    ensures
        signed(negative, m).negative() == negative,
        signed(negative, m).magnitude() == m,
{
}

/// What the rounding does to a sum keeps its place with regard to the left side.
pub proof fn lemma_rounding_keeps_side(a: Binary64, exact: int)
    requires
        a.finite(),
    ensures
        ({
            let r = signed(exact < 0, rounded(if exact < 0 { -exact } else { exact }, 1));
            &&& !r.nan()
            &&& a.value() <= exact ==> a.value() <= r.value()
            &&& exact <= a.value() ==> r.value() <= a.value()
        }),
{
    let size = if exact < 0 { -exact } else { exact };
    let m = rounded(size, 1);
    let w = a.magnitude();
    lemma_rounded_is_nearest(size, 1);
    lemma_signed(exact < 0, m);
    lemma_exact_is_nearest(w);
    if size <= units(w) {
        lemma_nearest_ordered(m, size, w, units(w) as int, 1);
    }
    if units(w) <= size {
        lemma_nearest_ordered(w, units(w) as int, m, size, 1);
    }
    lemma_units_order(m, w);
}

/// To add what is not below zero does not take a number down.
pub proof fn lemma_sum_not_below(a: Binary64, b: Binary64)
    requires
        a.finite(),
        !b.nan(),
        b.value() >= 0,
    ensures
        a.not_above(sum(a, b)),
{
    if b.finite() {
        let exact = a.value() + b.value();
        if exact == 0 {
            lemma_signed(a.negative() && b.negative(), 0);
            assert(units(0) == 0);
        } else {
            lemma_rounding_keeps_side(a, exact);
        }
    } else {
        lemma_units_order(a.magnitude(), INFINITY as nat);
        lemma_units_sign(INFINITY as nat);
    }
}

/// To take away what is not below zero does not take a number up.
pub proof fn lemma_difference_not_above(a: Binary64, b: Binary64)
    requires
        a.finite(),
        !b.nan(),
        b.value() >= 0,
    ensures
        difference(a, b).not_above(a),
{
    let c = negation(b);
    lemma_signed(!b.negative(), b.magnitude());
    assert(c.value() == -b.value());
    if c.finite() {
        let exact = a.value() + c.value();
        if exact == 0 {
            lemma_signed(a.negative() && c.negative(), 0);
            assert(units(0) == 0);
        } else {
            lemma_rounding_keeps_side(a, exact);
        }
    } else {
        lemma_units_order(a.magnitude(), INFINITY as nat);
        lemma_units_sign(INFINITY as nat);
    }
}

/// Patterns with one rank are one pattern.
pub proof fn lemma_rank_is_injective(a: Binary64, b: Binary64)
    requires
        a.rank() == b.rank(),
    ensures
        a == b,
{
}

} // verus!
