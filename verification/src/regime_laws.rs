use crate::binary64::{
    absolute, difference, negation, Binary64, BILLIONTH, HUNDREDTH, MILLIONTH, ONE, TENTH,
    THOUSANDTH, TRILLIONTH,
};
use crate::number_laws::{
    apart, lemma_absolute_is_the_size, lemma_difference_turns_the_sign, lemma_sum_at_the_limits,
    lemma_sum_beside,
};
use crate::regime::{near, regime_of, TickRegime};
use crate::rounding::{lemma_units_order, units, INFINITY};
use vstd::prelude::*;

verus! {

/// A number is near a target where the exact distance is below the tolerance. Only for a distance
/// between the tolerance and the number right below it does the rounding decide.
proof fn lemma_near_is_a_matter_of_distance(x: Binary64, target: u64, tolerance: u64)
    requires
        x.finite(),
        0 < target < INFINITY,
        0 < tolerance < INFINITY,
    ensures
        apart(x.value(), units(target as nat) as int) <= units((tolerance - 1) as nat) ==> near(
            x,
            target,
            tolerance,
        ),
        apart(x.value(), units(target as nat) as int) >= units(tolerance as nat) ==> !near(
            x,
            target,
            tolerance,
        ),
{
    let t = Binary64 { bits: target };
    let under = Binary64 { bits: (tolerance - 1) as u64 };
    let limit = Binary64 { bits: tolerance };
    let r = difference(x, t);
    lemma_difference_turns_the_sign(x, t);
    lemma_difference_turns_the_sign(x, under);
    lemma_difference_turns_the_sign(x, limit);
    lemma_sum_beside(x, negation(t), under);
    lemma_sum_beside(x, negation(t), negation(under));
    lemma_sum_beside(x, negation(t), limit);
    lemma_sum_beside(x, negation(t), negation(limit));
    lemma_absolute_is_the_size(r);
    lemma_units_order((tolerance - 1) as nat, tolerance as nat);
}

/// A tick size is coarse where it is 0.01 to within 1e-9, or 1 to within 1e-6; otherwise fine
/// where it is 0.001 to within 1e-12, or 0.1 to within 1e-6; otherwise not supported.
pub proof fn lemma_regime_is_a_matter_of_distance(tick: Binary64)
    requires
        tick.finite(),
    ensures
        ({
            let cent = apart(tick.value(), units(HUNDREDTH as nat) as int);
            let one = apart(tick.value(), units(ONE as nat) as int);
            let thousandth = apart(tick.value(), units(THOUSANDTH as nat) as int);
            let tenth = apart(tick.value(), units(TENTH as nat) as int);
            let coarse = cent <= units((BILLIONTH - 1) as nat) || one <= units(
                (MILLIONTH - 1) as nat,
            );
            let not_coarse = cent >= units(BILLIONTH as nat) && one >= units(MILLIONTH as nat);
            let fine = thousandth <= units((TRILLIONTH - 1) as nat) || tenth <= units(
                (MILLIONTH - 1) as nat,
            );
            let not_fine = thousandth >= units(TRILLIONTH as nat) && tenth >= units(
                MILLIONTH as nat,
            );
            &&& coarse ==> regime_of(tick) == TickRegime::Coarse
            &&& not_coarse && fine ==> regime_of(tick) == TickRegime::Fine
            &&& not_coarse && not_fine ==> regime_of(tick) == TickRegime::Unsupported
            &&& not_coarse ==> regime_of(tick) != TickRegime::Coarse
        }),
{
    lemma_near_is_a_matter_of_distance(tick, HUNDREDTH, BILLIONTH);
    lemma_near_is_a_matter_of_distance(tick, ONE, MILLIONTH);
    lemma_near_is_a_matter_of_distance(tick, THOUSANDTH, TRILLIONTH);
    lemma_near_is_a_matter_of_distance(tick, TENTH, MILLIONTH);
}

/// The distances that decide are those of the tick size, less the target, without its sign; which
/// of the two coarse or fine targets is near makes no difference.
pub proof fn lemma_regime_is_told_by_four_distances(tick: Binary64)
    ensures
        ({
            let cent = absolute(difference(tick, Binary64 { bits: HUNDREDTH }));
            let one = absolute(difference(tick, Binary64 { bits: ONE }));
            let thousandth = absolute(difference(tick, Binary64 { bits: THOUSANDTH }));
            let tenth = absolute(difference(tick, Binary64 { bits: TENTH }));
            let coarse = cent.below(Binary64 { bits: BILLIONTH }) || one.below(
                Binary64 { bits: MILLIONTH },
            );
            let fine = thousandth.below(Binary64 { bits: TRILLIONTH }) || tenth.below(
                Binary64 { bits: MILLIONTH },
            );
            &&& regime_of(tick) == TickRegime::Coarse <==> coarse
            &&& regime_of(tick) == TickRegime::Fine <==> !coarse && fine
        }),
{
}

/// What is not a finite number is no tick size that is supported.
pub proof fn lemma_endless_tick_is_not_supported(tick: Binary64)
    requires
        !tick.finite(),
    ensures
        regime_of(tick) == TickRegime::Unsupported,
{
    lemma_far_from(tick, HUNDREDTH, BILLIONTH);
    lemma_far_from(tick, ONE, MILLIONTH);
    lemma_far_from(tick, THOUSANDTH, TRILLIONTH);
    lemma_far_from(tick, TENTH, MILLIONTH);
}

proof fn lemma_far_from(x: Binary64, target: u64, tolerance: u64)
    requires
        !x.finite(),
        0 < target < INFINITY,
        0 < tolerance < INFINITY,
    ensures
        !near(x, target, tolerance),
{
    let t = Binary64 { bits: target };
    lemma_difference_turns_the_sign(x, t);
    lemma_sum_at_the_limits(x, negation(t));
    lemma_absolute_is_the_size(difference(x, t));
    lemma_units_order(tolerance as nat, INFINITY as nat);
}

/// The names tell the regimes apart.
pub proof fn lemma_regimes_have_their_names(a: TickRegime, b: TickRegime)
    ensures
        a.name() == "coarse"@ <==> a == TickRegime::Coarse,
        a.name() == "fine"@ <==> a == TickRegime::Fine,
        a.name() == "unsupported"@ <==> a == TickRegime::Unsupported,
        a != b ==> a.name() != b.name(),
{
    reveal_strlit("coarse");
    reveal_strlit("fine");
    reveal_strlit("unsupported");
    assert("coarse"@.len() == 6 && "fine"@.len() == 4 && "unsupported"@.len() == 11);
}

} // verus!
