use gpio_manager::levels::{
    logical_of_physical, physical_of_logical, resolve_pull, translate_edge,
    InternPullResistorState, LogicLevel, PinState, ResolvedPull, TriggerEdge,
};

#[test]
fn logical_to_physical_and_back() {
    for level in [LogicLevel::HIGH, LogicLevel::LOW] {
        for state in [PinState::HIGH, PinState::LOW] {
            let wire = physical_of_logical(level, state);
            assert_eq!(logical_of_physical(level, wire), state);
        }
    }
}

#[test]
fn opposite_conventions_drive_opposite_wires() {
    // The same logical HIGH is realised as opposite physical levels under
    // the two conventions, and each reads back as logical HIGH.
    let wire_active_high = physical_of_logical(LogicLevel::HIGH, PinState::HIGH);
    let wire_active_low = physical_of_logical(LogicLevel::LOW, PinState::HIGH);
    assert!(wire_active_high);
    assert!(!wire_active_low);
    assert_eq!(logical_of_physical(LogicLevel::HIGH, wire_active_high), PinState::HIGH);
    assert_eq!(logical_of_physical(LogicLevel::LOW, wire_active_low), PinState::HIGH);
}

#[test]
fn edge_translation_swaps_only_under_active_low() {
    assert_eq!(translate_edge(LogicLevel::HIGH, TriggerEdge::RISING), TriggerEdge::RISING);
    assert_eq!(translate_edge(LogicLevel::HIGH, TriggerEdge::FALLING), TriggerEdge::FALLING);
    assert_eq!(translate_edge(LogicLevel::HIGH, TriggerEdge::BOTH), TriggerEdge::BOTH);
    assert_eq!(translate_edge(LogicLevel::LOW, TriggerEdge::RISING), TriggerEdge::FALLING);
    assert_eq!(translate_edge(LogicLevel::LOW, TriggerEdge::FALLING), TriggerEdge::RISING);
    assert_eq!(translate_edge(LogicLevel::LOW, TriggerEdge::BOTH), TriggerEdge::BOTH);
}

#[test]
fn edge_translation_is_an_involution() {
    for level in [LogicLevel::HIGH, LogicLevel::LOW] {
        for edge in [TriggerEdge::RISING, TriggerEdge::FALLING, TriggerEdge::BOTH] {
            assert_eq!(translate_edge(level, translate_edge(level, edge)), edge);
        }
    }
}

#[test]
fn auto_pull_makes_idle_line_read_logical_low() {
    assert_eq!(
        resolve_pull(InternPullResistorState::AUTO, LogicLevel::HIGH),
        ResolvedPull::PullDown
    );
    assert_eq!(
        resolve_pull(InternPullResistorState::AUTO, LogicLevel::LOW),
        ResolvedPull::PullUp
    );
    assert_eq!(
        resolve_pull(InternPullResistorState::PULLUP, LogicLevel::HIGH),
        ResolvedPull::PullUp
    );
    assert_eq!(
        resolve_pull(InternPullResistorState::PULLDOWN, LogicLevel::LOW),
        ResolvedPull::PullDown
    );
    assert_eq!(
        resolve_pull(InternPullResistorState::EXTERNAL, LogicLevel::HIGH),
        ResolvedPull::Floating
    );
}
