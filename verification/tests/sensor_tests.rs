//! Tests of the agent-facing sensor and event vocabulary.

use neural_network_arena::environment::{ActionResult, ActionResults, EventType};
use neural_network_arena::selection::{
    ElitistSelection, RouletteWheelSelection, TournamentSelection,
};
use neural_network_arena::sensors::{ResourceType, SensorType};

#[test]
fn test_all_eight_sensors_exist() {
    // Test that all 8 required sensor types exist (MVP requirement)
    let sensor_types = vec![
        SensorType::Energy,
        SensorType::NeighborProximity,
        SensorType::ResourceDensity,
        SensorType::TerritoryPressure,
        SensorType::Population,
        SensorType::Threat,
        SensorType::Age,
        SensorType::LineageDepth,
    ];

    assert_eq!(sensor_types.len(), 8, "MVP requires exactly 8 sensor inputs");
}

#[test]
fn test_resource_and_event_kinds() {
    let resources = vec![
        ResourceType::Energy,
        ResourceType::Computational,
        ResourceType::Territory,
    ];
    assert_eq!(resources.len(), 3);

    let events = vec![
        EventType::ResourceScarcity,
        EventType::ResourceAbundance,
        EventType::MemoryCompaction,
        EventType::TerritorialShift,
        EventType::PopulationPressure,
        EventType::EnergeticStorm,
    ];
    assert_eq!(events.len(), 6);
    assert_ne!(events[0], events[1]);
}

#[test]
fn test_action_results_keyed_by_agent() {
    let mut results = ActionResults::new();
    assert_eq!(results.results.len(), 0);
    results.add_result(4, ActionResult::Success(String::from("moved")));
    results.add_result(9, ActionResult::Failed(String::from("blocked")));
    results.add_result(4, ActionResult::Partial(String::from("grazed")));
    assert_eq!(results.results.len(), 2);
    match results.results.get(&4) {
        Some(ActionResult::Partial(text)) => assert_eq!(text, "grazed"),
        _ => panic!("latest result under an id should win"),
    }
}

#[test]
fn test_selection_configurations() {
    let tournament = TournamentSelection::new(5);
    assert_eq!(tournament.tournament_size, 5);
    let elitist = ElitistSelection::new(3);
    assert_eq!(elitist.elite_count, 3);
    let _wheel = RouletteWheelSelection;
}
