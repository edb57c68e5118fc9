//! Data carried between the simulation loop and its collaborators: the
//! kinds of environmental events, and the per-agent results of one tick's
//! actions.

use vstd::prelude::*;

use std::collections::HashMap;

verus! {

/// The kinds of environmental events a simulation tick can raise.
#[derive(Debug, Clone, Copy, PartialEq, Eq, Structural)]
pub enum EventType {
    ResourceScarcity,
    ResourceAbundance,
    MemoryCompaction,
    TerritorialShift,
    PopulationPressure,
    EnergeticStorm,
}

/// The outcome of one agent's action in a tick, with a description.
#[derive(Debug, Clone)]
pub enum ActionResult {
    Success(String),
    Partial(String),
    Failed(String),
}

/// The outcomes of one tick's actions, keyed by agent id.
#[derive(Debug)]
pub struct ActionResults {
    pub results: HashMap<u32, ActionResult>,
}

impl ActionResults {
    /// Builds an empty result set.
    pub fn new() -> (r: ActionResults)
        ensures
            r.results@ == Map::<u32, ActionResult>::empty(),
    {
        ActionResults { results: HashMap::new() }
    }

    /// Records one agent's result, replacing any earlier result under the
    /// same agent id.
    pub fn add_result(&mut self, warrior_id: u32, result: ActionResult)
        ensures
            final(self).results@ == old(self).results@.insert(warrior_id, result),
    {
        self.results.insert(warrior_id, result);
    }
}

} // verus!
