//! Logic-level and trigger-edge translation.
//!
//! A pin carries an active-high or active-low convention (`LogicLevel`).
//! Every boolean that crosses the hardware boundary is translated through
//! that convention: logical pin states to physical line levels and back,
//! logical trigger edges to physical edges and back, and the automatic
//! pull-resistor choice that makes the idle line read as logical LOW.

use vstd::prelude::*;

verus! {

/// Active-high (`HIGH`) or active-low (`LOW`) signalling convention,
/// fixed when a pin is assigned.
#[derive(Clone, Copy, Debug, PartialEq, Eq, Structural)]
pub enum LogicLevel {
    HIGH,
    LOW,
}

/// Logical state of a pin, as seen by the caller (after translation
/// through the pin's `LogicLevel`).
#[derive(Clone, Copy, Debug, PartialEq, Eq, Structural)]
pub enum PinState {
    HIGH,
    LOW,
}

/// Edge selector for interrupt registration and dispatch.
#[derive(Clone, Copy, Debug, PartialEq, Eq, Structural)]
pub enum TriggerEdge {
    RISING,
    FALLING,
    BOTH,
}

/// Pull-resistor policy requested by the caller for an input pin.
/// `AUTO` resolves from the pin's logic level so that the idle line
/// reads as the pin's logical LOW.
#[derive(Clone, Copy, Debug, PartialEq, Eq, Structural)]
pub enum InternPullResistorState {
    PULLUP,
    PULLDOWN,
    EXTERNAL,
    AUTO,
}

/// Concrete pull-resistor configuration handed to the line driver.
#[derive(Clone, Copy, Debug, PartialEq, Eq, Structural)]
pub enum ResolvedPull {
    PullUp,
    PullDown,
    Floating,
}

/// Logical state read from a physical line level: the state is HIGH
/// exactly when the physical level matches the convention's active level.
pub open spec fn spec_logical_of_physical(level: LogicLevel, physical_high: bool) -> PinState {
    if physical_high == (level is HIGH) {
        PinState::HIGH
    } else {
        PinState::LOW
    }
}

/// Physical line level that realises a logical state under a convention.
pub open spec fn spec_physical_of_logical(level: LogicLevel, state: PinState) -> bool {
    (state is HIGH) == (level is HIGH)
}

/// Edge translation: rising and falling swap under an active-low
/// convention; `BOTH` is never swapped. The same map serves in both
/// directions (logical to physical and physical to logical) because it
/// is an involution.
pub open spec fn spec_translate_edge(level: LogicLevel, edge: TriggerEdge) -> TriggerEdge {
    match edge {
        TriggerEdge::BOTH => TriggerEdge::BOTH,
        TriggerEdge::RISING => if level is HIGH {
            TriggerEdge::RISING
        } else {
            TriggerEdge::FALLING
        },
        TriggerEdge::FALLING => if level is HIGH {
            TriggerEdge::FALLING
        } else {
            TriggerEdge::RISING
        },
    }
}

/// Pull policy resolution: `AUTO` picks pull-down for active-high pins and
/// pull-up for active-low pins, so the unconnected line reads logical LOW.
pub open spec fn spec_resolve_pull(policy: InternPullResistorState, level: LogicLevel) -> ResolvedPull {
    match policy {
        InternPullResistorState::PULLUP => ResolvedPull::PullUp,
        InternPullResistorState::PULLDOWN => ResolvedPull::PullDown,
        InternPullResistorState::EXTERNAL => ResolvedPull::Floating,
        InternPullResistorState::AUTO => if level is HIGH {
            ResolvedPull::PullDown
        } else {
            ResolvedPull::PullUp
        },
    }
}

/// Translate a physical line level into the logical pin state.
pub fn logical_of_physical(level: LogicLevel, physical_high: bool) -> (state: PinState)
    ensures
        state == spec_logical_of_physical(level, physical_high),
{
    if physical_high == matches!(level, LogicLevel::HIGH) {
        PinState::HIGH
    } else {
        PinState::LOW
    }
}

/// Translate a logical pin state into the physical line level to drive.
pub fn physical_of_logical(level: LogicLevel, state: PinState) -> (physical_high: bool)
    ensures
        physical_high == spec_physical_of_logical(level, state),
{
    matches!(state, PinState::HIGH) == matches!(level, LogicLevel::HIGH)
}

/// Translate a trigger edge through a logic-level convention.
pub fn translate_edge(level: LogicLevel, edge: TriggerEdge) -> (translated: TriggerEdge)
    ensures
        translated == spec_translate_edge(level, edge),
{
    match edge {
        TriggerEdge::BOTH => TriggerEdge::BOTH,
        TriggerEdge::RISING => match level {
            LogicLevel::HIGH => TriggerEdge::RISING,
            LogicLevel::LOW => TriggerEdge::FALLING,
        },
        TriggerEdge::FALLING => match level {
            LogicLevel::HIGH => TriggerEdge::FALLING,
            LogicLevel::LOW => TriggerEdge::RISING,
        },
    }
}

/// Resolve a pull policy against a logic level.
pub fn resolve_pull(policy: InternPullResistorState, level: LogicLevel) -> (pull: ResolvedPull)
    ensures
        pull == spec_resolve_pull(policy, level),
{
    match policy {
        InternPullResistorState::PULLUP => ResolvedPull::PullUp,
        InternPullResistorState::PULLDOWN => ResolvedPull::PullDown,
        InternPullResistorState::EXTERNAL => ResolvedPull::Floating,
        InternPullResistorState::AUTO => match level {
            LogicLevel::HIGH => ResolvedPull::PullDown,
            LogicLevel::LOW => ResolvedPull::PullUp,
        },
    }
}

/// Logic-level round trip: reading back a physical level that was written
/// for a logical state returns that state, under any convention. Two pins
/// wired identically but configured with opposite conventions therefore
/// report the same logical boolean for what their writer intended.
pub proof fn lemma_logic_level_round_trip(level: LogicLevel, state: PinState)
    ensures
        spec_logical_of_physical(level, spec_physical_of_logical(level, state)) == state,
{
}

/// Edge translation is an involution: translating twice through the same
/// convention returns the original edge, so one map serves for both the
/// logical-to-physical and the physical-to-logical direction.
pub proof fn lemma_translate_edge_involution(level: LogicLevel, edge: TriggerEdge)
    ensures
        spec_translate_edge(level, spec_translate_edge(level, edge)) == edge,
{
}

} // verus!
