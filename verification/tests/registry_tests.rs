use gpio_manager::channels::PWMManager;
use gpio_manager::errors::PinError;
use gpio_manager::levels::{InternPullResistorState, LogicLevel, PinState, ResolvedPull, TriggerEdge};
use gpio_manager::registry::{PinManager, ResetAction, SoftPwmCommand};

fn fresh() -> (PinManager, PWMManager) {
    (PinManager::new(), PWMManager::new())
}

#[test]
fn add_input_resolves_auto_pull() {
    let (mut pins, hw) = fresh();
    let pull = pins
        .add_input_pin(18, InternPullResistorState::AUTO, LogicLevel::HIGH, true, &hw)
        .unwrap();
    assert_eq!(pull, ResolvedPull::PullDown);
    assert!(pins.is_input_pin(18));
    assert!(!pins.is_output_pin(18));
}

#[test]
fn conflict_rejection_between_roles() {
    let (mut pins, hw) = fresh();
    pins.add_input_pin(4, InternPullResistorState::EXTERNAL, LogicLevel::HIGH, true, &hw)
        .unwrap();
    // An input pin cannot be claimed as output without a reset.
    assert_eq!(
        pins.add_output_pin(4, PinState::LOW, LogicLevel::HIGH, true, &hw),
        Err(PinError::Conflict)
    );
    // Nor can software PWM be configured on it.
    assert_eq!(
        pins.setup_pwm(4, &Some(1_000_000_000), &None, &None, &None, LogicLevel::HIGH, true, &hw),
        Err(PinError::Conflict)
    );
    // And an output pin cannot be claimed as input.
    pins.add_output_pin(5, PinState::LOW, LogicLevel::HIGH, true, &hw).unwrap();
    assert_eq!(
        pins.add_input_pin(5, InternPullResistorState::AUTO, LogicLevel::HIGH, true, &hw),
        Err(PinError::Conflict)
    );
}

#[test]
fn output_write_then_input_read_round_trips_for_both_conventions() {
    let (mut pins, hw) = fresh();
    // Two otherwise-identical pins with opposite conventions: writing the
    // same logical state drives opposite wires, and reading each wire back
    // through its own convention yields the same logical boolean.
    pins.add_output_pin(10, PinState::LOW, LogicLevel::HIGH, true, &hw).unwrap();
    pins.add_output_pin(11, PinState::LOW, LogicLevel::LOW, true, &hw).unwrap();
    let wire_high = pins.set_output_pin(10, PinState::HIGH).unwrap();
    let wire_low = pins.set_output_pin(11, PinState::HIGH).unwrap();
    assert!(wire_high);
    assert!(!wire_low);

    pins.add_input_pin(20, InternPullResistorState::EXTERNAL, LogicLevel::HIGH, true, &hw)
        .unwrap();
    pins.add_input_pin(21, InternPullResistorState::EXTERNAL, LogicLevel::LOW, true, &hw)
        .unwrap();
    assert_eq!(pins.get_pin(20, wire_high), Ok(PinState::HIGH));
    assert_eq!(pins.get_pin(21, wire_low), Ok(PinState::HIGH));
}

#[test]
fn get_pin_role_errors() {
    let (mut pins, hw) = fresh();
    pins.add_output_pin(7, PinState::LOW, LogicLevel::HIGH, true, &hw).unwrap();
    assert_eq!(pins.get_pin(7, true), Err(PinError::Conflict));
    assert_eq!(pins.get_pin(8, true), Err(PinError::NotConfigured));
}

#[test]
fn set_output_role_errors() {
    let (mut pins, hw) = fresh();
    pins.add_input_pin(3, InternPullResistorState::AUTO, LogicLevel::HIGH, true, &hw).unwrap();
    assert_eq!(pins.set_output_pin(3, PinState::HIGH), Err(PinError::Conflict));
    assert_eq!(pins.set_output_pin(9, PinState::HIGH), Err(PinError::NotConfigured));
}

#[test]
fn callback_fanout_in_registration_order() {
    let (mut pins, hw) = fresh();
    pins.add_input_pin(18, InternPullResistorState::EXTERNAL, LogicLevel::HIGH, true, &hw)
        .unwrap();
    let (id_rising, first) = pins
        .assign_callback(18, TriggerEdge::RISING, false, true)
        .unwrap();
    assert!(first);
    let (id_falling, first) = pins
        .assign_callback(18, TriggerEdge::FALLING, false, false)
        .unwrap();
    assert!(!first);
    let (id_both, _) = pins.assign_callback(18, TriggerEdge::BOTH, true, false).unwrap();

    // A single physical rising event on an active-high pin fires exactly
    // the RISING and BOTH callbacks, in registration order.
    let plan = pins.dispatch_plan(18, TriggerEdge::RISING);
    assert_eq!(plan.len(), 2);
    assert_eq!(plan[0].id, id_rising);
    assert_eq!(plan[1].id, id_both);
    assert!(plan.iter().all(|inv| inv.id != id_falling));
    assert_eq!(plan[0].logical_edge, TriggerEdge::RISING);
    assert_eq!(plan[1].logical_edge, TriggerEdge::RISING);
    assert!(plan[0].send_edge);
    assert!(plan[1].send_time);
}

#[test]
fn callback_fanout_edge_swap_under_active_low() {
    let (mut pins, hw) = fresh();
    pins.add_input_pin(18, InternPullResistorState::EXTERNAL, LogicLevel::LOW, true, &hw)
        .unwrap();
    let (_id_rising, _) = pins
        .assign_callback(18, TriggerEdge::RISING, false, false)
        .unwrap();
    let (id_falling, _) = pins
        .assign_callback(18, TriggerEdge::FALLING, false, false)
        .unwrap();
    let (id_both, _) = pins.assign_callback(18, TriggerEdge::BOTH, false, true).unwrap();

    // The same physical rising event now fires the callbacks registered
    // for the logical FALLING edge (and BOTH), and reports logical FALLING.
    let plan = pins.dispatch_plan(18, TriggerEdge::RISING);
    assert_eq!(plan.len(), 2);
    assert_eq!(plan[0].id, id_falling);
    assert_eq!(plan[1].id, id_both);
    assert_eq!(plan[1].logical_edge, TriggerEdge::FALLING);
}

#[test]
fn dispatch_plan_is_empty_without_callbacks_or_claim() {
    let (mut pins, hw) = fresh();
    assert_eq!(pins.dispatch_plan(18, TriggerEdge::RISING).len(), 0);
    pins.add_input_pin(18, InternPullResistorState::EXTERNAL, LogicLevel::HIGH, true, &hw)
        .unwrap();
    assert_eq!(pins.dispatch_plan(18, TriggerEdge::RISING).len(), 0);
}

#[test]
fn assign_callback_requires_input_pin() {
    let (mut pins, hw) = fresh();
    assert_eq!(
        pins.assign_callback(18, TriggerEdge::BOTH, false, false),
        Err(PinError::NotConfigured)
    );
    pins.add_output_pin(18, PinState::LOW, LogicLevel::HIGH, true, &hw).unwrap();
    assert_eq!(
        pins.assign_callback(18, TriggerEdge::BOTH, false, false),
        Err(PinError::NotConfigured)
    );
}

#[test]
fn unassign_callback_by_identity() {
    let (mut pins, hw) = fresh();
    pins.add_input_pin(18, InternPullResistorState::EXTERNAL, LogicLevel::HIGH, true, &hw)
        .unwrap();
    let (id_a, _) = pins.assign_callback(18, TriggerEdge::RISING, false, false).unwrap();
    let (id_b, _) = pins.assign_callback(18, TriggerEdge::BOTH, false, false).unwrap();

    // Removing one callback leaves the other delivering.
    assert_eq!(pins.unassign_callback(18, id_a), Ok(false));
    let plan = pins.dispatch_plan(18, TriggerEdge::RISING);
    assert_eq!(plan.len(), 1);
    assert_eq!(plan[0].id, id_b);

    // An unknown identity is rejected.
    assert_eq!(pins.unassign_callback(18, id_a), Err(PinError::InvalidParameter));

    // Removing the last callback reports that the list became empty.
    assert_eq!(pins.unassign_callback(18, id_b), Ok(true));
    assert_eq!(pins.dispatch_plan(18, TriggerEdge::RISING).len(), 0);
}

#[test]
fn unassign_callbacks_clears_all() {
    let (mut pins, hw) = fresh();
    pins.add_input_pin(18, InternPullResistorState::EXTERNAL, LogicLevel::HIGH, true, &hw)
        .unwrap();
    pins.assign_callback(18, TriggerEdge::RISING, false, false).unwrap();
    pins.assign_callback(18, TriggerEdge::FALLING, false, false).unwrap();
    assert_eq!(pins.unassign_callbacks(18), Ok(()));
    assert_eq!(pins.dispatch_plan(18, TriggerEdge::RISING).len(), 0);
    assert_eq!(pins.unassign_callbacks(19), Err(PinError::NotConfigured));
}

#[test]
fn wait_for_edge_translates_the_trigger() {
    let (mut pins, hw) = fresh();
    pins.add_input_pin(6, InternPullResistorState::EXTERNAL, LogicLevel::LOW, true, &hw)
        .unwrap();
    assert_eq!(pins.wait_for_edge(6, TriggerEdge::RISING), Ok(TriggerEdge::FALLING));
    assert_eq!(pins.wait_for_edge(6, TriggerEdge::BOTH), Ok(TriggerEdge::BOTH));
    assert_eq!(pins.wait_for_edge(7, TriggerEdge::BOTH), Err(PinError::NotConfigured));
}

#[test]
fn soft_pwm_lifecycle_active_high() {
    let (mut pins, hw) = fresh();
    let resting = pins
        .setup_pwm(
            12,
            &Some(2_000_000_000),
            &Some(25_000_000),
            &None,
            &None,
            LogicLevel::HIGH,
            true,
            &hw,
        )
        .unwrap();
    // The new output rests at the physical realisation of logical LOW.
    assert!(!resting);
    assert!(pins.is_output_pin(12));

    let cmd = pins.start_pwm(12).unwrap();
    assert_eq!(
        cmd,
        SoftPwmCommand::Program { frequency_uhz: 2_000_000_000, duty_cycle_upct: 25_000_000 }
    );
    // While the waveform runs, plain writes are refused.
    assert_eq!(pins.set_output_pin(12, PinState::HIGH), Err(PinError::Conflict));

    let cmd = pins.stop_pwm(12).unwrap();
    assert_eq!(cmd, SoftPwmCommand::Stop { physical_high: false });
    // Once stopped, the pin can be driven again.
    assert_eq!(pins.set_output_pin(12, PinState::HIGH), Ok(true));
}

#[test]
fn soft_pwm_active_low_complements_duty_and_rests_high() {
    let (mut pins, hw) = fresh();
    let resting = pins
        .setup_pwm(
            13,
            &Some(1_000_000_000),
            &Some(25_000_000),
            &None,
            &None,
            LogicLevel::LOW,
            true,
            &hw,
        )
        .unwrap();
    assert!(resting);
    let cmd = pins.start_pwm(13).unwrap();
    assert_eq!(
        cmd,
        SoftPwmCommand::Program { frequency_uhz: 1_000_000_000, duty_cycle_upct: 75_000_000 }
    );
    let cmd = pins.stop_pwm(13).unwrap();
    assert_eq!(cmd, SoftPwmCommand::Stop { physical_high: true });
}

#[test]
fn soft_pwm_setters_rederive() {
    let (mut pins, hw) = fresh();
    pins.setup_pwm(12, &Some(1_000_000_000), &None, &None, &None, LogicLevel::HIGH, true, &hw)
        .unwrap();
    // 1000 Hz: a 0.25 ms pulse is a quarter of the 1 ms period.
    let cmd = pins.set_pwm_pulse_width(12, 250_000).unwrap();
    assert_eq!(
        cmd,
        SoftPwmCommand::Stop { physical_high: false }
    );
    pins.start_pwm(12).unwrap();
    let cmd = pins.set_pwm_duty_cycle(12, 50_000_000).unwrap();
    assert_eq!(
        cmd,
        SoftPwmCommand::Program { frequency_uhz: 1_000_000_000, duty_cycle_upct: 50_000_000 }
    );
    // 4 ms period: 250 Hz.
    let cmd = pins.set_pwm_period(12, 4_000_000).unwrap();
    assert_eq!(
        cmd,
        SoftPwmCommand::Program { frequency_uhz: 250_000_000, duty_cycle_upct: 50_000_000 }
    );
    let cmd = pins.set_pwm_frequency(12, 500_000_000).unwrap();
    assert_eq!(
        cmd,
        SoftPwmCommand::Program { frequency_uhz: 500_000_000, duty_cycle_upct: 50_000_000 }
    );
}

#[test]
fn soft_pwm_setter_errors() {
    let (mut pins, hw) = fresh();
    assert_eq!(pins.set_pwm_duty_cycle(12, 50_000_000), Err(PinError::NotConfigured));
    assert_eq!(pins.start_pwm(12), Err(PinError::NotConfigured));
    assert_eq!(pins.stop_pwm(12), Err(PinError::NotConfigured));
    pins.setup_pwm(12, &Some(1_000_000_000), &None, &None, &None, LogicLevel::HIGH, true, &hw)
        .unwrap();
    assert_eq!(pins.set_pwm_duty_cycle(12, 100_000_100), Err(PinError::InvalidParameter));
    assert_eq!(pins.set_pwm_duty_cycle(12, -1), Err(PinError::InvalidParameter));
    assert_eq!(pins.set_pwm_frequency(12, -1), Err(PinError::InvalidParameter));
    assert_eq!(pins.set_pwm_period(12, 0), Err(PinError::InvalidParameter));
    // 1000 Hz: a 2 ms pulse exceeds the 1 ms period.
    assert_eq!(pins.set_pwm_pulse_width(12, 2_000_000), Err(PinError::InvalidParameter));
}

#[test]
fn setup_pwm_rejects_double_configuration() {
    let (mut pins, hw) = fresh();
    pins.setup_pwm(12, &Some(1_000_000_000), &None, &None, &None, LogicLevel::HIGH, true, &hw)
        .unwrap();
    assert_eq!(
        pins.setup_pwm(12, &Some(1_000_000_000), &None, &None, &None, LogicLevel::HIGH, true, &hw),
        Err(PinError::Conflict)
    );
}

#[test]
fn reset_clears_state_and_allows_reclaim() {
    let (mut pins, hw) = fresh();
    pins.add_input_pin(4, InternPullResistorState::AUTO, LogicLevel::HIGH, true, &hw).unwrap();
    pins.assign_callback(4, TriggerEdge::BOTH, false, false).unwrap();

    let action = pins.reset_pin(4);
    assert_eq!(action, ResetAction::Input { had_callbacks: true });
    assert!(!pins.is_input_pin(4));
    assert!(!pins.is_output_pin(4));
    assert_eq!(pins.dispatch_plan(4, TriggerEdge::RISING).len(), 0);

    // The pin can immediately be claimed afresh, in either role.
    pins.add_output_pin(4, PinState::LOW, LogicLevel::HIGH, true, &hw).unwrap();
    let action = pins.reset_pin(4);
    assert_eq!(action, ResetAction::Output { physical_high: false });
    pins.add_input_pin(4, InternPullResistorState::AUTO, LogicLevel::HIGH, true, &hw).unwrap();
}

#[test]
fn reset_of_pwm_pin_reports_teardown() {
    let (mut pins, hw) = fresh();
    pins.setup_pwm(12, &Some(1_000_000_000), &None, &None, &None, LogicLevel::LOW, true, &hw)
        .unwrap();
    let action = pins.reset_pin(12);
    assert_eq!(action, ResetAction::OutputPwm { physical_high: true });
    assert!(!pins.is_output_pin(12));
    // A fresh software PWM setup on the pin succeeds again.
    pins.setup_pwm(12, &Some(1_000_000_000), &None, &None, &None, LogicLevel::HIGH, true, &hw)
        .unwrap();
}

#[test]
fn reset_of_unknown_pin_is_a_no_op() {
    let (mut pins, _hw) = fresh();
    assert_eq!(pins.reset_pin(42), ResetAction::NotPresent);
}

#[test]
fn cleanup_resets_inputs_then_outputs() {
    let (mut pins, hw) = fresh();
    pins.add_input_pin(4, InternPullResistorState::AUTO, LogicLevel::HIGH, true, &hw).unwrap();
    pins.add_input_pin(5, InternPullResistorState::AUTO, LogicLevel::LOW, false, &hw).unwrap();
    pins.add_output_pin(6, PinState::HIGH, LogicLevel::HIGH, true, &hw).unwrap();
    pins.setup_pwm(7, &Some(1_000_000_000), &None, &None, &None, LogicLevel::HIGH, true, &hw)
        .unwrap();

    let actions = pins.cleanup();
    let reset_pins: Vec<u8> = actions.iter().map(|(p, _)| *p).collect();
    assert_eq!(reset_pins, vec![4, 5, 6, 7]);
    assert!(matches!(actions[0].1, ResetAction::Input { .. }));
    assert!(matches!(actions[3].1, ResetAction::OutputPwm { .. }));

    for p in [4u8, 5, 6, 7] {
        assert!(!pins.is_input_pin(p));
        assert!(!pins.is_output_pin(p));
    }
    // Everything can be claimed afresh.
    pins.add_output_pin(4, PinState::LOW, LogicLevel::HIGH, true, &hw).unwrap();
}

#[test]
fn set_reset_on_exit_needs_a_claimed_pin() {
    let (mut pins, hw) = fresh();
    assert_eq!(pins.set_reset_on_exit(4, true), Err(PinError::NotConfigured));
    pins.add_input_pin(4, InternPullResistorState::AUTO, LogicLevel::HIGH, false, &hw).unwrap();
    assert_eq!(pins.set_reset_on_exit(4, true), Ok(()));
    pins.add_output_pin(5, PinState::LOW, LogicLevel::HIGH, false, &hw).unwrap();
    assert_eq!(pins.set_reset_on_exit(5, true), Ok(()));
}
