use gpio_manager::errors::PinError;
use gpio_manager::pwm::{
    check_pwm_values, compute_pwm_values, derive_pwm_config, DEFAULT_FREQUENCY_UHZ,
    DUTY_FULL_UPCT,
};

#[test]
fn period_and_pulse_derive_frequency_and_duty() {
    // 20 ms period, 5 ms pulse width: 50 Hz at 25 % duty.
    let (frequency, duty) = compute_pwm_values(
        &None,
        &None,
        &Some(20_000_000),
        &Some(5_000_000),
    );
    assert_eq!(frequency, 50_000_000);
    assert_eq!(duty, 25_000_000);
}

#[test]
fn derive_accepts_period_and_pulse() {
    let c = derive_pwm_config(&None, &None, &Some(20_000_000), &Some(5_000_000)).unwrap();
    assert_eq!(c, (50_000_000, 25_000_000));
}

#[test]
fn defaults_when_nothing_given() {
    let (frequency, duty) = compute_pwm_values(&None, &None, &None, &None);
    assert_eq!(frequency, DEFAULT_FREQUENCY_UHZ);
    assert_eq!(duty, 0);
}

#[test]
fn explicit_frequency_wins_over_period() {
    let (frequency, _) = compute_pwm_values(&Some(2_000_000_000), &None, &Some(20_000_000), &None);
    assert_eq!(frequency, 2_000_000_000);
}

#[test]
fn explicit_duty_wins_over_pulse_width() {
    let (_, duty) = compute_pwm_values(
        &Some(50_000_000),
        &Some(40_000_000),
        &None,
        &Some(1_000_000),
    );
    assert_eq!(duty, 40_000_000);
}

#[test]
fn duty_cycle_boundaries() {
    // Exactly 100 % and exactly 0 % are accepted.
    assert!(check_pwm_values(&None, &Some(DUTY_FULL_UPCT), &None, &None).is_ok());
    assert!(check_pwm_values(&None, &Some(0), &None, &None).is_ok());
    // A hair above 100 % and a hair below 0 % are rejected.
    assert_eq!(
        check_pwm_values(&None, &Some(DUTY_FULL_UPCT + 100), &None, &None),
        Err(PinError::InvalidParameter)
    );
    assert_eq!(
        check_pwm_values(&None, &Some(-100), &None, &None),
        Err(PinError::InvalidParameter)
    );
}

#[test]
fn pulse_wider_than_period_rejected() {
    assert_eq!(
        check_pwm_values(&None, &None, &Some(10_000_000), &Some(11_000_000)),
        Err(PinError::InvalidParameter)
    );
}

#[test]
fn negative_inputs_rejected() {
    assert_eq!(
        check_pwm_values(&None, &None, &Some(-1), &None),
        Err(PinError::InvalidParameter)
    );
    assert_eq!(
        check_pwm_values(&None, &None, &None, &Some(-1)),
        Err(PinError::InvalidParameter)
    );
    assert_eq!(
        check_pwm_values(&Some(-1), &None, &None, &None),
        Err(PinError::InvalidParameter)
    );
}

#[test]
fn implied_duty_beyond_full_rejected() {
    // 100 Hz implies a 10 ms period; a 20 ms pulse cannot fit.
    assert_eq!(
        derive_pwm_config(&Some(100_000_000), &None, &None, &Some(20_000_000)),
        Err(PinError::InvalidParameter)
    );
}

#[test]
fn zero_period_cannot_stand_in_for_frequency() {
    // The range check alone admits a zero period ...
    assert!(check_pwm_values(&None, &None, &Some(0), &None).is_ok());
    // ... but no frequency can be derived from it.
    assert_eq!(
        derive_pwm_config(&None, &None, &Some(0), &None),
        Err(PinError::InvalidParameter)
    );
}

#[test]
fn zero_frequency_gives_zero_duty_from_pulse() {
    let (frequency, duty) = compute_pwm_values(&Some(0), &None, &None, &Some(5_000_000));
    assert_eq!(frequency, 0);
    assert_eq!(duty, 0);
}
