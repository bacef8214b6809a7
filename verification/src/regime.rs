use crate::binary64::{
    absolute, difference, Binary64, BILLIONTH, HUNDREDTH, MILLIONTH, ONE, TENTH, THOUSANDTH, TRILLIONTH,
};
use vstd::prelude::*;

verus! {

/// How fine the prices of a market are.
#[derive(Debug, Clone, Copy, PartialEq, Eq, Structural)]
pub enum TickRegime {
    Coarse,
    Fine,
    Unsupported,
}

/// The distance between `x` and the number with the pattern `target` is below the number with
/// the pattern `tolerance`.
pub open spec fn near(x: Binary64, target: u64, tolerance: u64) -> bool {
    absolute(difference(x, Binary64 { bits: target })).below(Binary64 { bits: tolerance })
}

fn is_near(x: Binary64, target: u64, tolerance: u64) -> (b: bool)
    ensures
        b == near(x, target, tolerance),
{
    x.minus(Binary64::from_bits(target)).abs().less_than(Binary64::from_bits(tolerance))
}

/// The regime of a tick size, given in dollars or in cents: a cent is coarse, a tenth of a cent
/// is fine.
pub open spec fn regime_of(tick: Binary64) -> TickRegime {
    if near(tick, HUNDREDTH, BILLIONTH) || near(tick, ONE, MILLIONTH) {
        TickRegime::Coarse
    } else if near(tick, THOUSANDTH, TRILLIONTH) || near(tick, TENTH, MILLIONTH) {
        TickRegime::Fine
    } else {
        TickRegime::Unsupported
    }
}

impl TickRegime {
    pub open spec fn name(self) -> Seq<char> {
        match self {
            TickRegime::Coarse => "coarse"@,
            TickRegime::Fine => "fine"@,
            TickRegime::Unsupported => "unsupported"@,
        }
    }

    pub fn label(self) -> (t: &'static str)
        ensures
            t@ == self.name(),
    {
        match self {
            TickRegime::Coarse => "coarse",
            TickRegime::Fine => "fine",
            TickRegime::Unsupported => "unsupported",
        }
    }
}

pub fn classify_tick_regime(tick: Binary64) -> (r: TickRegime)
    ensures
        r == regime_of(tick),
{
    if is_near(tick, HUNDREDTH, BILLIONTH) || is_near(tick, ONE, MILLIONTH) {
        TickRegime::Coarse
    } else if is_near(tick, THOUSANDTH, TRILLIONTH) || is_near(tick, TENTH, MILLIONTH) {
        TickRegime::Fine
    } else {
        TickRegime::Unsupported
    }
}

/// The name of a tick size's regime.
pub fn classify_tick_regime_label(tick: Binary64) -> (t: &'static str)
    ensures
        t@ == regime_of(tick).name(),
{
    classify_tick_regime(tick).label()
}

} // verus!
