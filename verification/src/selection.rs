//! Configuration values of the evolution engine's selection strategies.
//! The strategies themselves act on genome fitness scores and live with the
//! rest of the evolution machinery, outside this library's verified core.

use vstd::prelude::*;

verus! {

/// Tournament selection: repeatedly samples a fixed number of candidates
/// and keeps the fittest.
#[derive(Debug, Clone, Copy, PartialEq, Eq, Structural)]
pub struct TournamentSelection {
    pub tournament_size: usize,
}

/// Roulette-wheel selection: samples candidates with probability
/// proportional to fitness.
#[derive(Debug, Clone, Copy, PartialEq, Eq, Structural)]
pub struct RouletteWheelSelection;

/// Elitist selection: always keeps the fittest candidates.
#[derive(Debug, Clone, Copy, PartialEq, Eq, Structural)]
pub struct ElitistSelection {
    pub elite_count: usize,
}

impl TournamentSelection {
    /// Builds a tournament selection with the given tournament size.
    pub fn new(tournament_size: usize) -> (r: TournamentSelection)
        ensures
            r.tournament_size == tournament_size,
    {
        TournamentSelection { tournament_size }
    }
}

impl ElitistSelection {
    /// Builds an elitist selection that keeps the given number of elites.
    pub fn new(elite_count: usize) -> (r: ElitistSelection)
        ensures
            r.elite_count == elite_count,
    {
        ElitistSelection { elite_count }
    }
}

} // verus!
