use vstd::arithmetic::power2::{
    lemma2_to64, lemma2_to64_rest, lemma_pow2_adds, lemma_pow2_pos, lemma_pow2_strictly_increases,
    lemma_pow2_unfold, pow2,
};
use vstd::prelude::*;

verus! {

/// 2^52: the weight of the hidden bit of a significand.
pub const HIDDEN: u64 = 0x10_0000_0000_0000;

/// 2^53: one more than the largest significand.
pub const SIG_END: u64 = 0x20_0000_0000_0000;

/// The magnitude pattern of infinity. Every finite magnitude lies below it, every
/// not-a-number pattern above it.
pub const INFINITY: u64 = 0x7FF0_0000_0000_0000;

/// What a magnitude pattern is worth, in units of 2^-1074, of which every finite binary64
/// number is a whole multiple. Infinity counts as the number that would follow the largest
/// finite one, which is the place where rounding to nearest starts to overflow.
pub open spec fn units(m: nat) -> nat {
    let exponent = m / HIDDEN as nat;
    let fraction = m % HIDDEN as nat;
    if exponent == 0 {
        fraction
    } else {
        (HIDDEN as nat + fraction) * pow2((exponent - 1) as nat)
    }
}

/// `m` is the magnitude nearest to the exact `num / den` units; of two equally near ones it
/// is the one with the even pattern.
pub open spec fn is_nearest(m: nat, num: int, den: int) -> bool {
    &&& m <= INFINITY
    &&& m > 0 ==> den * (units((m - 1) as nat) + units(m)) <= 2 * num
    &&& m > 0 && m % 2 == 1 ==> den * (units((m - 1) as nat) + units(m)) < 2 * num
    &&& m < INFINITY ==> 2 * num <= den * (units(m) + units(m + 1))
    &&& m < INFINITY && m % 2 == 1 ==> 2 * num < den * (units(m) + units(m + 1))
}

/// The magnitude that `num / den` units round to.
pub open spec fn rounded(num: int, den: int) -> nat {
    choose|m: nat| is_nearest(m, num, den)
}

/// A significand `sig` and a scale `e` make the pattern `e * 2^52 + sig`, which is worth
/// `sig * 2^e` units.
pub proof fn lemma_units_of_parts(sig: nat, e: nat)
    requires
        sig <= SIG_END,
        e == 0 || sig >= HIDDEN,
    ensures
        units(e * HIDDEN as nat + sig) == sig * pow2(e),
{
    let h = HIDDEN as nat;
    let m = e * h + sig;
    lemma2_to64();
    if sig < h {
        assert(m / h == 0);
        assert(m % h == sig);
        assert(pow2(0) == 1);
    } else if sig < SIG_END {
        assert(m == (e + 1) * h + (sig - h)) by (nonlinear_arith)
            requires
                m == e * h + sig,
        ;
        assert(m / h == e + 1 && m % h == sig - h) by (nonlinear_arith)
            requires
                m == (e + 1) * h + (sig - h),
                0 <= sig - h < h,
        ;
    } else {
        assert(m == (e + 2) * h) by (nonlinear_arith)
            requires
                m == e * h + sig,
                sig == 2 * h,
        ;
        assert(m / h == e + 2 && m % h == 0) by (nonlinear_arith)
            requires
                m == (e + 2) * h,
                h > 0,
        ;
        lemma_pow2_unfold(e + 1);
        assert(h * pow2(e + 1) == sig * pow2(e)) by (nonlinear_arith)
            requires
                pow2(e + 1) == 2 * pow2(e),
                sig == 2 * h,
        ;
    }
}

/// The significand and the scale of a pattern.
proof fn lemma_parts_of(m: nat) -> (parts: (nat, nat))
    ensures
        parts.0 < SIG_END,
        parts.1 == 0 || parts.0 >= HIDDEN,
        m == parts.1 * HIDDEN as nat + parts.0,
{
    let h = HIDDEN as nat;
    if m / h == 0 {
        assert(m < h);
        (m, 0)
    } else {
        let e = (m / h - 1) as nat;
        let sig = h + m % h;
        assert(m == e * h + sig) by (nonlinear_arith)
            requires
                m == (m / h) * h + m % h,
                e == m / h - 1,
                sig == h + m % h,
        ;
        (sig, e)
    }
}

proof fn lemma_units_step(m: nat)
    ensures
        units(m) < units(m + 1),
{
    let (sig, e) = lemma_parts_of(m);
    lemma_units_of_parts(sig, e);
    lemma_units_of_parts(sig + 1, e);
    lemma_pow2_pos(e);
    assert((sig + 1) * pow2(e) == sig * pow2(e) + pow2(e)) by (nonlinear_arith);
}

/// A larger magnitude pattern is worth more.
pub proof fn lemma_units_increasing(a: nat, b: nat)
    requires
        a < b,
    ensures
        units(a) < units(b),
    decreases b - a,
{
    lemma_units_step((b - 1) as nat);
    if a < b - 1 {
        lemma_units_increasing(a, (b - 1) as nat);
    }
}

/// Rounding to nearest has one result.
pub proof fn lemma_nearest_is_unique(a: nat, b: nat, num: int, den: int)
    requires
        den > 0,
        is_nearest(a, num, den),
        is_nearest(b, num, den),
    ensures
        a == b,
{
    lemma_nearest_ordered(a, num, b, num, den);
    lemma_nearest_ordered(b, num, a, num, den);
}

/// Rounding to nearest keeps the order of what it rounds.
pub proof fn lemma_nearest_ordered(a: nat, num_a: int, b: nat, num_b: int, den: int)
    requires
        den > 0,
        is_nearest(a, num_a, den),
        is_nearest(b, num_b, den),
        num_a <= num_b,
    ensures
        a <= b,
{
    if b < a {
        let above = (units(b) + units(b + 1)) as int;
        let below = (units((a - 1) as nat) + units(a)) as int;
        if b + 1 < a {
            lemma_units_increasing(b, (a - 1) as nat);
            lemma_units_increasing(b + 1, a);
            assert(den * above < den * below) by (nonlinear_arith)
                requires
                    den > 0,
                    above < below,
            ;
        }
    }
}

/// With `n == sig * 2^k + rem` and `x + k == y + e`, the exact value of `n * 2^x / 2^y` units
/// lies between the neighbours `e * 2^52 + sig` and the next pattern, and `rem` against half of
/// `2^k` says which of them is nearer.
proof fn lemma_between_neighbours(n: nat, x: nat, y: nat, k: nat, e: nat, sig: nat, rem: nat)
    requires
        n == sig * pow2(k) + rem,
        rem < pow2(k),
        x + k == y + e,
        sig < SIG_END,
        e == 0 || sig >= HIDDEN,
    ensures
        ({
            let m = e * HIDDEN as nat + sig;
            let num = (n * pow2(x)) as int;
            let den = pow2(y) as int;
            &&& den > 0
            &&& den * units(m) <= num
            &&& num < den * units(m + 1)
            &&& 2 * rem < pow2(k) <==> 2 * num < den * (units(m) + units(m + 1))
            &&& 2 * rem > pow2(k) <==> 2 * num > den * (units(m) + units(m + 1))
        }),
{
    let m = e * HIDDEN as nat + sig;
    lemma_units_of_parts(sig, e);
    lemma_units_of_parts(sig + 1, e);
    lemma_pow2_pos(x);
    lemma_pow2_pos(y);
    lemma_pow2_adds(x, k);
    lemma_pow2_adds(y, e);
    let px = pow2(x) as int;
    let py = pow2(y) as int;
    let pk = pow2(k) as int;
    let pe = pow2(e) as int;
    let s = sig as int;
    let r = rem as int;
    assert(px * pk == py * pe);
    let u = py * pe;
    assert(py * (s * pe) == s * u) by (nonlinear_arith)
        requires
            u == py * pe,
    ;
    assert(py * ((s + 1) * pe) == s * u + u) by (nonlinear_arith)
        requires
            u == py * pe,
    ;
    assert((s * pk + r) * px == s * u + r * px) by (nonlinear_arith)
        requires
            u == px * pk,
    ;
    assert(0 <= r * px < u) by (nonlinear_arith)
        requires
            0 <= r < pk,
            px > 0,
            u == px * pk,
    ;
    assert(2 * r < pk <==> 2 * (r * px) < u) by (nonlinear_arith)
        requires
            px > 0,
            u == px * pk,
    ;
    assert(2 * r > pk <==> 2 * (r * px) > u) by (nonlinear_arith)
        requires
            px > 0,
            u == px * pk,
    ;
    assert(py * (units(m) + units(m + 1)) == py * units(m) + py * units(m + 1)) by (nonlinear_arith);
}

/// A value below half of the least unit rounds to zero.
proof fn lemma_nearest_zero(num: int, den: int)
    requires
        0 <= 2 * num <= den,
    ensures
        is_nearest(0, num, den),
{
    assert(units(0) == 0);
    assert(units(1) == 1);
    assert(den * (units(0) + units(1)) == den) by (nonlinear_arith)
        requires
            units(0) + units(1) == 1,
    ;
}

/// A value no smaller than infinity's place rounds to infinity.
proof fn lemma_nearest_infinity(num: int, den: int)
    requires
        den > 0,
        den * units(INFINITY as nat) <= num,
    ensures
        is_nearest(INFINITY as nat, num, den),
{
    let top = units(INFINITY as nat) as int;
    let last = units((INFINITY - 1) as nat) as int;
    lemma_units_step((INFINITY - 1) as nat);
    assert(den * (last + top) <= 2 * (den * top)) by (nonlinear_arith)
        requires
            den > 0,
            last < top,
    ;
}

/// Of a value between the neighbours `m` and `m + 1`, the half that it lies in decides.
proof fn lemma_nearest_neighbour(m: nat, num: int, den: int)
    requires
        den > 0,
        m < INFINITY,
        den * units(m) <= num,
        num < den * units(m + 1),
    ensures
        2 * num < den * (units(m) + units(m + 1)) ==> is_nearest(m, num, den),
        2 * num > den * (units(m) + units(m + 1)) ==> is_nearest(m + 1, num, den),
        2 * num == den * (units(m) + units(m + 1)) && m % 2 == 0 ==> is_nearest(m, num, den),
        2 * num == den * (units(m) + units(m + 1)) && m % 2 == 1 ==> is_nearest(m + 1, num, den),
{
    let here = units(m) as int;
    let next = units(m + 1) as int;
    if m > 0 {
        lemma_units_step((m - 1) as nat);
        let prev = units((m - 1) as nat) as int;
        assert(den * (prev + here) < 2 * (den * here)) by (nonlinear_arith)
            requires
                den > 0,
                prev < here,
        ;
    }
    lemma_units_step(m + 1);
    let after = units(m + 2) as int;
    assert(2 * (den * next) < den * (next + after)) by (nonlinear_arith)
        requires
            den > 0,
            next < after,
    ;
}

/// The magnitude nearest to `n * 2^x / 2^y` units, ties to the even pattern.
pub(crate) fn round_to_nearest(n: u128, x: u32, y: u32) -> (m: u64)
    requires
        n < 0x4_0000_0000_0000_0000_0000_0000_0000,
        x <= 8192,
        y <= 8192,
    ensures
        is_nearest(m as nat, n * pow2(x as nat), pow2(y as nat) as int),
        m == rounded(n * pow2(x as nat), pow2(y as nat) as int),
{
    let ghost num = (n * pow2(x as nat)) as int;
    let ghost den = pow2(y as nat) as int;
    proof {
        lemma_pow2_pos(y as nat);
    }
    let mut a: u128 = n;
    let mut b: u32 = x;
    while b > 0 && a < HIDDEN as u128
        invariant
            a < 0x4_0000_0000_0000_0000_0000_0000_0000,
            b <= x <= 8192,
            a * pow2(b as nat) == num,
        decreases b,
    {
        proof {
            lemma_pow2_unfold(b as nat);
            assert((2 * a) * pow2((b - 1) as nat) == num) by (nonlinear_arith)
                requires
                    a * pow2(b as nat) == num,
                    pow2(b as nat) == 2 * pow2((b - 1) as nat),
            ;
        }
        a = a * 2;
        b = b - 1;
    }
    let m = nearest_pattern(a, b, y);
    proof {
        lemma_nearest_is_unique(m as nat, rounded(num, den), num, den);
    }
    m
}

/// The least power of two, with its exponent, by which `n` is to be divided to fit a
/// significand.
fn excess(n: u128) -> (r: (u128, u32))
    requires
        n < 0x4_0000_0000_0000_0000_0000_0000_0000,
    ensures
        r.0 == pow2(r.1 as nat),
        r.0 > 0,
        r.1 <= 61,
        n / r.0 < SIG_END,
        r.1 == 0 || n / r.0 >= HIDDEN,
{
    proof {
        lemma2_to64();
    }
    let mut p: u128 = 1;
    let mut k: u32 = 0;
    while n / p >= SIG_END as u128
        invariant
            n < 0x4_0000_0000_0000_0000_0000_0000_0000,
            0 < p <= 0x4000_0000_0000_0000,
            p == pow2(k as nat),
            k <= 61,
            k > 0 ==> n / p >= HIDDEN,
        decreases 61 - k,
    {
        proof {
            lemma2_to64_rest();
            lemma_pow2_unfold((k + 1) as nat);
            assert(p < 0x2000_0000_0000_0000) by (nonlinear_arith)
                requires
                    n / p >= 0x20_0000_0000_0000,
                    n < 0x4_0000_0000_0000_0000_0000_0000_0000,
                    p > 0,
            ;
            assert(n / (2 * p) as u128 >= HIDDEN) by (nonlinear_arith)
                requires
                    n / p >= 0x20_0000_0000_0000,
                    0 < p < 0x2000_0000_0000_0000,
            ;
        }
        p = p * 2;
        k = k + 1;
    }
    (p, k)
}

/// The same, of an `n` that fills a significand unless there is no `x` left to take from.
fn nearest_pattern(n: u128, x: u32, y: u32) -> (m: u64)
    requires
        x == 0 || n >= HIDDEN,
        n < 0x4_0000_0000_0000_0000_0000_0000_0000,
        x <= 8192,
        y <= 8192,
    ensures
        is_nearest(m as nat, n * pow2(x as nat), pow2(y as nat) as int),
{
    let (p0, k0) = excess(n);
    proof {
        lemma2_to64();
        if k0 == 0 {
            assert(n / 1 == n);
        }
    }
    let mut p: u128 = p0;
    let mut k: u32 = k0;
    while x + k < y
        invariant
            n < 0x4_0000_0000_0000_0000_0000_0000_0000,
            n / p < SIG_END,
            0 < p,
            p == pow2(k as nat),
            k <= 115,
            n / p >= HIDDEN || (k == 0 && x == 0) || x + k <= y,
            x <= 8192,
            y <= 8192,
        decreases 115 - k,
    {
        if k == 115 {
            proof {
                lemma_far_below_one(n as nat, x as nat, y as nat);
            }
            return 0;
        }
        proof {
            lemma_pow2_unfold((k + 1) as nat);
            lemma_pow2_below_115(k as nat);
            assert(n / (2 * p) as u128 <= n / p) by (nonlinear_arith)
                requires
                    0 < p < 0x4_0000_0000_0000_0000_0000_0000_0001,
            ;
        }
        p = p * 2;
        k = k + 1;
    }
    settle(n, x, y, k, p)
}

/// What is less than half of the least unit rounds to zero.
proof fn lemma_far_below_one(n: nat, x: nat, y: nat)
    requires
        n < 0x4_0000_0000_0000_0000_0000_0000_0000,
        x + 115 < y,
    ensures
        is_nearest(0, (n * pow2(x)) as int, pow2(y) as int),
{
    lemma_pow2_pos(x);
    lemma_pow2_adds(x, 115);
    lemma_pow2_adds(x + 115, (y - x - 115) as nat);
    lemma_pow2_pos((y - x - 115) as nat);
    lemma_pow2_of_115();
    let px = pow2(x) as int;
    let rest = pow2((y - x - 115) as nat) as int;
    assert(0 <= 2 * (n * px) <= (px * 0x8_0000_0000_0000_0000_0000_0000_0000int) * rest)
        by (nonlinear_arith)
        requires
            0 <= n < 0x4_0000_0000_0000_0000_0000_0000_0000,
            px > 0,
            rest > 0,
    ;
    lemma_nearest_zero((n * pow2(x)) as int, pow2(y) as int);
}

/// Picks one of the two patterns that enclose `n * 2^x / 2^y` units, where `n / 2^k` is their
/// common significand.
fn settle(n: u128, x: u32, y: u32, k: u32, p: u128) -> (m: u64)
    requires
        x <= 8192,
        y <= 8192,
        k <= 115,
        p == pow2(k as nat),
        p > 0,
        n / p < SIG_END,
        y <= x + k,
        y == x + k || n / p >= HIDDEN,
    ensures
        is_nearest(m as nat, n * pow2(x as nat), pow2(y as nat) as int),
{
    let ghost num = (n * pow2(x as nat)) as int;
    let ghost den = pow2(y as nat) as int;
    let sig: u64 = (n / p) as u64;
    let rem: u128 = n % p;
    let e: u32 = x + k - y;
    proof {
        assert(n == (n / p) * p + n % p) by (nonlinear_arith)
            requires
                p > 0,
        ;
        lemma_between_neighbours(
            n as nat,
            x as nat,
            y as nat,
            k as nat,
            e as nat,
            sig as nat,
            rem as nat,
        );
    }
    if e >= 2046 {
        proof {
            let m = e as nat * HIDDEN as nat + sig as nat;
            lemma_units_order(INFINITY as nat, m);
            let low = units(INFINITY as nat) as int;
            let high = units(m) as int;
            assert(den * low <= den * high) by (nonlinear_arith)
                requires
                    den > 0,
                    low <= high,
            ;
            lemma_nearest_infinity(num, den);
        }
        return INFINITY;
    }
    let m: u64 = e as u64 * HIDDEN + sig;
    proof {
        lemma_nearest_neighbour(m as nat, num, den);
        assert(m % 2 == sig % 2);
    }
    if rem > p - rem || (rem == p - rem && sig % 2 == 1) {
        m + 1
    } else {
        m
    }
}

proof fn lemma_pow2_of_115()
    ensures
        pow2(115) == 0x8_0000_0000_0000_0000_0000_0000_0000,
{
    lemma2_to64();
    lemma2_to64_rest();
    lemma_pow2_adds(60, 55);
}

proof fn lemma_pow2_below_115(k: nat)
    requires
        k < 115,
    ensures
        pow2(k) <= 0x4_0000_0000_0000_0000_0000_0000_0000,
{
    lemma_pow2_of_115();
    lemma_pow2_unfold(115);
    if k < 114 {
        lemma_pow2_strictly_increases(k, 114);
    }
}

/// Only the pattern zero is worth nothing.
pub proof fn lemma_units_sign(m: nat)
    ensures
        units(m) == 0 <==> m == 0,
{
    assert(units(0) == 0);
    if m > 0 {
        lemma_units_increasing(0, m);
    }
}

/// The patterns and what they are worth have one order.
pub proof fn lemma_units_order(a: nat, b: nat)
    ensures
        a < b <==> units(a) < units(b),
        a == b <==> units(a) == units(b),
{
    if a < b {
        lemma_units_increasing(a, b);
    } else if b < a {
        lemma_units_increasing(b, a);
    }
}

/// How far the neighbours of a pattern with a scale above zero are away at least.
pub proof fn lemma_gap_around(sig: nat, e: nat)
    requires
        HIDDEN <= sig < SIG_END,
        e > 0,
    ensures
        ({
            let m = e * HIDDEN as nat + sig;
            &&& units((m - 1) as nat) + pow2((e - 1) as nat) <= units(m)
            &&& units(m) + pow2(e) == units(m + 1)
        }),
{
    let m = e * HIDDEN as nat + sig;
    lemma_units_of_parts(sig, e);
    lemma_units_of_parts(sig + 1, e);
    lemma_pow2_unfold(e);
    lemma_pow2_pos((e - 1) as nat);
    let pe = pow2(e) as int;
    let half = pow2((e - 1) as nat) as int;
    let s = sig as int;
    assert((s + 1) * pe == s * pe + pe) by (nonlinear_arith);
    if sig > HIDDEN {
        lemma_units_of_parts((sig - 1) as nat, e);
        assert((s - 1) * pe + pe == s * pe) by (nonlinear_arith);
    } else {
        let below = (SIG_END - 1) as nat;
        lemma_units_of_parts(below, (e - 1) as nat);
        assert(m - 1 == (e - 1) as nat * HIDDEN as nat + below) by (nonlinear_arith)
            requires
                m == e * HIDDEN as nat + HIDDEN as nat,
                below == 2 * HIDDEN as nat - 1,
                e > 0,
        ;
        assert((below as int) * half + half == s * pe) by (nonlinear_arith)
            requires
                below + 1 == 2 * s,
                pe == 2 * half,
        ;
    }
}

/// Whatever is not below zero has a nearest magnitude.
pub proof fn lemma_rounded_is_nearest(num: int, den: int)
    requires
        num >= 0,
        den > 0,
    ensures
        is_nearest(rounded(num, den), num, den),
{
    let top = units(INFINITY as nat) as int;
    if den * top <= num {
        lemma_nearest_infinity(num, den);
    } else {
        assert(units(0) == 0);
        assert(den * units(0) == 0) by (nonlinear_arith)
            requires
                units(0) == 0,
        ;
        lemma_some_is_nearest(0, num, den);
    }
}

proof fn lemma_some_is_nearest(from: nat, num: int, den: int)
    requires
        den > 0,
        from < INFINITY,
        den * units(from) <= num,
        num < den * units(INFINITY as nat),
    ensures
        exists|m: nat| is_nearest(m, num, den),
    decreases INFINITY - from,
{
    if num < den * units(from + 1) {
        lemma_nearest_neighbour(from, num, den);
        assert(is_nearest(from, num, den) || is_nearest(from + 1, num, den));
    } else {
        lemma_some_is_nearest(from + 1, num, den);
    }
}

/// A magnitude below infinity's rounds to itself.
pub proof fn lemma_exact_is_nearest(m: nat)
    requires
        m < INFINITY,
    ensures
        is_nearest(m, units(m) as int, 1),
        rounded(units(m) as int, 1) == m,
{
    lemma_units_step(m);
    if m > 0 {
        lemma_units_step((m - 1) as nat);
    }
    assert(is_nearest(m, units(m) as int, 1));
    lemma_nearest_is_unique(m, rounded(units(m) as int, 1), units(m) as int, 1);
}

} // verus!
