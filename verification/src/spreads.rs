use crate::binary64::Binary64;
use crate::engine::entry;
use crate::rewards::RewardsError;
use vstd::hash_map::StringHashMap;
use vstd::prelude::*;

verus! {

/// The spreads of the markets that the orders are on, as looked up in one round.
pub struct Spreads {
    found: StringHashMap<Option<Binary64>>,
}

impl View for Spreads {
    type V = Map<Seq<char>, Option<Binary64>>;

    closed spec fn view(&self) -> Map<Seq<char>, Option<Binary64>> {
        self.found@
    }
}

/// The spread that a lookup gives: a failed one gives none.
pub open spec fn spread_from(lookup: Result<Option<Binary64>, RewardsError>) -> Option<Binary64> {
    match lookup {
        Ok(spread) => spread,
        Err(_) => None,
    }
}

/// The spread of a market; none where it was not looked up, or the lookup gave none.
pub open spec fn spread_in(
    found: Map<Seq<char>, Option<Binary64>>,
    condition_id: Seq<char>,
) -> Option<Binary64> {
    match entry(found, condition_id) {
        Some(spread) => spread,
        None => None,
    }
}

impl Spreads {
    pub fn new() -> (s: Spreads)
        ensures
            s@ == Map::<Seq<char>, Option<Binary64>>::empty(),
    {
        Spreads { found: StringHashMap::new() }
    }

    /// Takes down what a lookup gave.
    pub fn record(&mut self, condition_id: String, lookup: &Result<Option<Binary64>, RewardsError>)
        ensures
            final(self)@ == old(self)@.insert(condition_id@, spread_from(*lookup)),
    {
        let spread = match lookup {
            Ok(spread) => *spread,
            Err(_) => None,
        };
        self.found.insert(condition_id, spread);
    }

    /// The spread of a market, if it is known.
    pub fn spread(&self, condition_id: &str) -> (spread: Option<Binary64>)
        ensures
            spread == spread_in(self@, condition_id@),
    {
        match self.found.get(condition_id) {
            Some(spread) => *spread,
            None => None,
        }
    }
}

/// A market whose lookup failed has no spread, whatever an earlier lookup gave.
pub proof fn lemma_failed_lookup_gives_no_spread(
    found: Map<Seq<char>, Option<Binary64>>,
    condition_id: Seq<char>,
    error: RewardsError,
)
    ensures
        spread_in(found.insert(condition_id, spread_from(Err(error))), condition_id) is None,
{
}

/// A lookup of one market leaves the spread of another as it was.
pub proof fn lemma_lookup_spares_other_markets(
    found: Map<Seq<char>, Option<Binary64>>,
    condition_id: Seq<char>,
    lookup: Result<Option<Binary64>, RewardsError>,
    other: Seq<char>,
)
    requires
        other != condition_id,
    ensures
        spread_in(found.insert(condition_id, spread_from(lookup)), other) == spread_in(
            found,
            other,
        ),
{
}

} // verus!
