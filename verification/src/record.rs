//! The record that a worker leaves on disk when fuzzing stops.

use crate::decimal::{decimal, from_decimal, parsed, to_decimal};
use vstd::prelude::*;

verus! {

/// A worker's seed and the number of sessions it ran, both as decimal
/// text. A worker started again with the two repeats what the first did.
#[derive(Debug, PartialEq, Eq)]
pub struct SeedAndIterations {
    pub seed: String,
    pub iterations: String,
}

impl SeedAndIterations {
    /// The record of a worker with the seed `seed` that ran `iterations`
    /// sessions.
    pub fn new(seed: u64, iterations: u64) -> (r: Self)
        ensures
            r.seed@ == decimal(seed as nat),
            r.iterations@ == decimal(iterations as nat),
    {
        SeedAndIterations { seed: to_decimal(seed), iterations: to_decimal(iterations) }
    }

    /// The seed and the number of sessions that the record holds, if both
    /// texts are numbers.
    pub fn numbers(&self) -> (r: Option<(u64, u64)>)
        ensures
            r == match (parsed(self.seed@), parsed(self.iterations@)) {
                (Some(seed), Some(iterations)) => Some((seed, iterations)),
                _ => None,
            },
    {
        match from_decimal(self.seed.as_str()) {
            Some(seed) => match from_decimal(self.iterations.as_str()) {
                Some(iterations) => Some((seed, iterations)),
                None => None,
            },
            None => None,
        }
    }
}

/// A record gives back the numbers it was made of.
pub proof fn lemma_record_round_trip(record: SeedAndIterations, seed: u64, iterations: u64)
    requires
        record.seed@ == decimal(seed as nat),
        record.iterations@ == decimal(iterations as nat),
    ensures
        parsed(record.seed@) == Some(seed),
        parsed(record.iterations@) == Some(iterations),
{
    crate::decimal::lemma_round_trip(seed);
    crate::decimal::lemma_round_trip(iterations);
}

} // verus!
