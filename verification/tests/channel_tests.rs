use gpio_manager::channels::{channel_to_pin, BoardModel, PWMManager, PWMPolarity};
use gpio_manager::errors::PinError;
use gpio_manager::levels::{InternPullResistorState, LogicLevel};
use gpio_manager::pinmux::{decimal_string, hw_pwm_setup, set_gpio_to_pwm_other, set_gpio_to_pwm_pi5};
use gpio_manager::registry::PinManager;

#[test]
fn channel_routing_tables() {
    assert_eq!(channel_to_pin(BoardModel::Pi5, 0), Some(12));
    assert_eq!(channel_to_pin(BoardModel::Pi5, 1), Some(13));
    assert_eq!(channel_to_pin(BoardModel::Pi5, 2), Some(18));
    assert_eq!(channel_to_pin(BoardModel::Pi5, 3), Some(19));
    assert_eq!(channel_to_pin(BoardModel::Pi5, 4), None);
    assert_eq!(channel_to_pin(BoardModel::Other, 0), Some(18));
    assert_eq!(channel_to_pin(BoardModel::Other, 1), Some(19));
    assert_eq!(channel_to_pin(BoardModel::Other, 2), None);
}

#[test]
fn decimal_strings() {
    assert_eq!(decimal_string(0), "0");
    assert_eq!(decimal_string(7), "7");
    assert_eq!(decimal_string(18), "18");
    assert_eq!(decimal_string(255), "255");
    assert_eq!(decimal_string(1000), "1000");
}

#[test]
fn pinmux_argument_lists() {
    assert_eq!(hw_pwm_setup(18, "a5"), vec!["set", "18", "a5", "pd"]);
    assert_eq!(set_gpio_to_pwm_pi5(12), vec!["set", "12", "a0", "pd"]);
    assert_eq!(set_gpio_to_pwm_pi5(13), vec!["set", "13", "a0", "pd"]);
    assert_eq!(set_gpio_to_pwm_pi5(18), vec!["set", "18", "a3", "pd"]);
    assert_eq!(set_gpio_to_pwm_other(19), vec!["set", "19", "a5", "pd"]);
}

#[test]
fn setup_pwm_channel_builds_the_hardware_plan() {
    let pins = PinManager::new();
    let mut hw = PWMManager::new();
    let plan = hw
        .setup_pwm_channel(
            0,
            &Some(1_000_000_000),
            &Some(50_000_000),
            &None,
            &None,
            LogicLevel::HIGH,
            true,
            BoardModel::Pi5,
            &pins,
        )
        .unwrap();
    assert_eq!(plan.pin_num, 12);
    assert_eq!(plan.pinctrl_args, vec!["set", "12", "a0", "pd"]);
    assert_eq!(plan.frequency_uhz, 1_000_000_000);
    assert_eq!(plan.duty_cycle_upct, 50_000_000);
    assert_eq!(plan.polarity, PWMPolarity::NORMAL);
    assert!(plan.reset_on_exit);
    assert!(hw.is_pin_pwm(12));
    assert!(!hw.is_pin_pwm(18));
}

#[test]
fn setup_pwm_channel_active_low_requests_inverse_polarity() {
    let pins = PinManager::new();
    let mut hw = PWMManager::new();
    let plan = hw
        .setup_pwm_channel(
            0,
            &None,
            &None,
            &Some(20_000_000),
            &Some(5_000_000),
            LogicLevel::LOW,
            false,
            BoardModel::Other,
            &pins,
        )
        .unwrap();
    assert_eq!(plan.pin_num, 18);
    assert_eq!(plan.pinctrl_args, vec!["set", "18", "a5", "pd"]);
    assert_eq!(plan.frequency_uhz, 50_000_000);
    assert_eq!(plan.duty_cycle_upct, 25_000_000);
    assert_eq!(plan.polarity, PWMPolarity::INVERSE);
}

#[test]
fn setup_pwm_channel_rejects_unknown_channels() {
    let pins = PinManager::new();
    let mut hw = PWMManager::new();
    assert!(matches!(
        hw.setup_pwm_channel(
            4,
            &None,
            &None,
            &None,
            &None,
            LogicLevel::HIGH,
            true,
            BoardModel::Pi5,
            &pins,
        ),
        Err(PinError::InvalidParameter)
    ));
    assert!(matches!(
        hw.setup_pwm_channel(
            2,
            &None,
            &None,
            &None,
            &None,
            LogicLevel::HIGH,
            true,
            BoardModel::Other,
            &pins,
        ),
        Err(PinError::InvalidParameter)
    ));
}

#[test]
fn setup_pwm_channel_refuses_gpio_claimed_pins() {
    let mut pins = PinManager::new();
    let mut hw = PWMManager::new();
    pins.add_input_pin(18, InternPullResistorState::AUTO, LogicLevel::HIGH, true, &hw)
        .unwrap();
    assert!(matches!(
        hw.setup_pwm_channel(
            0,
            &None,
            &None,
            &None,
            &None,
            LogicLevel::HIGH,
            true,
            BoardModel::Other,
            &pins,
        ),
        Err(PinError::Conflict)
    ));
}

#[test]
fn gpio_claim_refuses_hardware_routed_pins() {
    let pins = PinManager::new();
    let mut hw = PWMManager::new();
    hw.setup_pwm_channel(
        0,
        &None,
        &None,
        &None,
        &None,
        LogicLevel::HIGH,
        true,
        BoardModel::Other,
        &pins,
    )
    .unwrap();
    let mut pins = pins;
    assert_eq!(
        pins.add_input_pin(18, InternPullResistorState::AUTO, LogicLevel::HIGH, true, &hw),
        Err(PinError::Conflict)
    );
    assert_eq!(
        pins.add_output_pin(
            18,
            gpio_manager::levels::PinState::LOW,
            LogicLevel::HIGH,
            true,
            &hw
        ),
        Err(PinError::Conflict)
    );
    // After the channel is reset, the pin is free again.
    hw.reset_pwm_channel(0).unwrap();
    pins.add_input_pin(18, InternPullResistorState::AUTO, LogicLevel::HIGH, true, &hw)
        .unwrap();
}

#[test]
fn double_channel_setup_conflicts() {
    let pins = PinManager::new();
    let mut hw = PWMManager::new();
    hw.setup_pwm_channel(
        1,
        &None,
        &None,
        &None,
        &None,
        LogicLevel::HIGH,
        true,
        BoardModel::Other,
        &pins,
    )
    .unwrap();
    assert!(matches!(
        hw.setup_pwm_channel(
            1,
            &None,
            &None,
            &None,
            &None,
            LogicLevel::HIGH,
            true,
            BoardModel::Other,
            &pins,
        ),
        Err(PinError::Conflict)
    ));
}

#[test]
fn channel_parameters_round_trip_through_getters() {
    let pins = PinManager::new();
    let mut hw = PWMManager::new();
    hw.setup_pwm_channel(
        0,
        &Some(1_000_000_000),
        &Some(50_000_000),
        &None,
        &None,
        LogicLevel::HIGH,
        true,
        BoardModel::Other,
        &pins,
    )
    .unwrap();
    assert_eq!(hw.get_frequency(0), Ok(1_000_000_000));
    // 1000 Hz: a 1 ms period.
    assert_eq!(hw.get_period(0), Ok(1_000_000));
    // Half of it on duty.
    assert_eq!(hw.get_pulse_width(0), Ok(500_000));
    assert_eq!(hw.get_duty_cycle(0), Ok(50_000_000));

    // A quarter-period pulse rederives a 25 % duty cycle.
    assert_eq!(hw.set_pulse_width(0, 250_000), Ok(()));
    assert_eq!(hw.get_duty_cycle(0), Ok(25_000_000));
    // A 4 ms period rederives a 250 Hz frequency.
    assert_eq!(hw.set_period(0, 4_000_000), Ok(()));
    assert_eq!(hw.get_frequency(0), Ok(250_000_000));
    assert_eq!(hw.set_frequency(0, 2_000_000_000), Ok(()));
    assert_eq!(hw.get_frequency(0), Ok(2_000_000_000));
    assert_eq!(hw.set_duty_cycle(0, 75_000_000), Ok(()));
    assert_eq!(hw.get_duty_cycle(0), Ok(75_000_000));
}

#[test]
fn channel_setter_errors() {
    let pins = PinManager::new();
    let mut hw = PWMManager::new();
    assert_eq!(hw.set_duty_cycle(0, 10_000_000), Err(PinError::NotConfigured));
    assert_eq!(hw.get_frequency(0), Err(PinError::NotConfigured));
    assert_eq!(hw.start_pwm_channel(0), Err(PinError::NotConfigured));
    assert_eq!(hw.stop_pwm_channel(0), Err(PinError::NotConfigured));
    assert_eq!(hw.reset_pwm_channel(0), Err(PinError::NotConfigured));
    hw.setup_pwm_channel(
        0,
        &Some(1_000_000_000),
        &None,
        &None,
        &None,
        LogicLevel::HIGH,
        true,
        BoardModel::Other,
        &pins,
    )
    .unwrap();
    assert_eq!(hw.set_duty_cycle(0, 100_000_100), Err(PinError::InvalidParameter));
    assert_eq!(hw.set_duty_cycle(0, -1), Err(PinError::InvalidParameter));
    assert_eq!(hw.set_frequency(0, 0), Err(PinError::InvalidParameter));
    assert_eq!(hw.set_period(0, -1), Err(PinError::InvalidParameter));
    assert_eq!(hw.set_pulse_width(0, -1), Err(PinError::InvalidParameter));
    // 1000 Hz: a 2 ms pulse exceeds the 1 ms period.
    assert_eq!(hw.set_pulse_width(0, 2_000_000), Err(PinError::InvalidParameter));
    assert_eq!(hw.start_pwm_channel(0), Ok(()));
    assert_eq!(hw.stop_pwm_channel(0), Ok(()));
}

#[test]
fn channel_cleanup_empties_the_controller() {
    let pins = PinManager::new();
    let mut hw = PWMManager::new();
    hw.setup_pwm_channel(
        0,
        &None,
        &None,
        &None,
        &None,
        LogicLevel::HIGH,
        true,
        BoardModel::Other,
        &pins,
    )
    .unwrap();
    hw.setup_pwm_channel(
        1,
        &None,
        &None,
        &None,
        &None,
        LogicLevel::HIGH,
        true,
        BoardModel::Other,
        &pins,
    )
    .unwrap();
    let torn_down = hw.cleanup();
    assert_eq!(torn_down, vec![0, 1]);
    assert!(!hw.is_pin_pwm(18));
    assert!(!hw.is_pin_pwm(19));
    assert_eq!(hw.get_frequency(0), Err(PinError::NotConfigured));
}
