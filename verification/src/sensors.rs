//! The sensor inputs an agent reads from its surroundings, and the kinds
//! of resources it can collect. The readings themselves are produced by the
//! simulation loop, outside this library's verified core.

use vstd::prelude::*;

verus! {

/// The eight sensor inputs of an agent.
#[derive(Debug, Clone, Copy, PartialEq, Eq, Structural)]
pub enum SensorType {
    Energy,
    NeighborProximity,
    ResourceDensity,
    TerritoryPressure,
    Population,
    Threat,
    Age,
    LineageDepth,
}

/// The kinds of resources the environment spawns.
#[derive(Debug, Clone, Copy, PartialEq, Eq, Structural)]
pub enum ResourceType {
    Energy,
    Computational,
    Territory,
}

} // verus!
