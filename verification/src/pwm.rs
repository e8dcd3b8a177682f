//! PWM parameter derivation.
//!
//! Callers may express a PWM waveform in four mutually overlapping
//! conventions: frequency, duty cycle, period, pulse width. This module
//! derives the canonical (frequency, duty-cycle) pair with fixed precedence
//! rules and validates the inputs before any state is touched. Both the
//! software-PWM path and the hardware-PWM-channel path go through the one
//! derivation function here.
//!
//! Quantities are exact fixed-point integers:
//! - frequency in microhertz (`1 Hz = 1_000_000`),
//! - duty cycle in micropercent (`100 % = 100_000_000`),
//! - period and pulse width in nanoseconds (`1 ms = 1_000_000`).
//!
//! With these scales the reciprocal relation is
//! `frequency_uhz * period_ns = 10^15` and the duty relation is
//! `duty_upct = pulse_ns * frequency_uhz / 10^7`, both over plain integers.

use vstd::prelude::*;

use crate::errors::PinError;

verus! {

/// Default frequency when neither frequency nor period is given: 1000 Hz.
pub const DEFAULT_FREQUENCY_UHZ: i64 = 1_000_000_000;

/// A full 100 % duty cycle in micropercent.
pub const DUTY_FULL_UPCT: i64 = 100_000_000;

/// `frequency_uhz * period_ns` for an exact reciprocal pair (10^15).
pub const RECIPROCAL_DIVIDEND: i64 = 1_000_000_000_000_000;

/// Divisor in `duty_upct = pulse_ns * frequency_uhz / DUTY_DIVISOR` (10^7).
pub const DUTY_DIVISOR: i64 = 10_000_000;

/// Frequency precedence: an explicit frequency wins; otherwise a given
/// period determines it by the reciprocal relation; otherwise the default.
pub open spec fn spec_derived_frequency(frequency_uhz: Option<i64>, period_ns: Option<i64>) -> int {
    match frequency_uhz {
        Some(f) => f as int,
        None => match period_ns {
            Some(p) => RECIPROCAL_DIVIDEND as int / p as int,
            None => DEFAULT_FREQUENCY_UHZ as int,
        },
    }
}

/// Duty-cycle precedence: an explicit duty cycle wins; otherwise a given
/// pulse width determines it against the derived frequency (zero when the
/// frequency is not positive); otherwise zero.
pub open spec fn spec_derived_duty(
    duty_cycle_upct: Option<i64>,
    pulse_width_ns: Option<i64>,
    frequency: int,
) -> int {
    match duty_cycle_upct {
        Some(d) => d as int,
        None => match pulse_width_ns {
            Some(pw) => if frequency > 0 {
                pw * frequency / (DUTY_DIVISOR as int)
            } else {
                0
            },
            None => 0,
        },
    }
}

/// Range validation of the four optional inputs: duty cycle within
/// [0, 100 %], period, pulse width and frequency non-negative, and the
/// pulse width no wider than the period when both are given.
pub open spec fn spec_pwm_args_valid(
    frequency_uhz: Option<i64>,
    duty_cycle_upct: Option<i64>,
    period_ns: Option<i64>,
    pulse_width_ns: Option<i64>,
) -> bool {
    &&& (duty_cycle_upct matches Some(d) ==> 0 <= d <= DUTY_FULL_UPCT)
    &&& (period_ns matches Some(p) ==> p >= 0)
    &&& (pulse_width_ns matches Some(pw) ==> pw >= 0)
    &&& (pulse_width_ns matches Some(pw) ==> (period_ns matches Some(p) ==> pw <= p))
    &&& (frequency_uhz matches Some(f) ==> f >= 0)
}

/// Full admissibility of a request: the ranges hold, a period that must
/// stand in for the frequency is positive, and the given pulse width does
/// not imply a duty cycle beyond 100 % of the derived period.
pub open spec fn spec_pwm_derivable(
    frequency_uhz: Option<i64>,
    duty_cycle_upct: Option<i64>,
    period_ns: Option<i64>,
    pulse_width_ns: Option<i64>,
) -> bool {
    &&& spec_pwm_args_valid(frequency_uhz, duty_cycle_upct, period_ns, pulse_width_ns)
    &&& (frequency_uhz is None ==> (period_ns matches Some(p) ==> p > 0))
    &&& (pulse_width_ns matches Some(pw) ==> !(spec_derived_frequency(
        frequency_uhz,
        period_ns,
    ) > 0 && pw * spec_derived_frequency(frequency_uhz, period_ns) > RECIPROCAL_DIVIDEND))
}

/// Validate the four optional PWM inputs, accepting exactly the requests
/// that `spec_pwm_args_valid` admits.
pub fn check_pwm_values(
    frequency_uhz: &Option<i64>,
    duty_cycle_upct: &Option<i64>,
    period_ns: &Option<i64>,
    pulse_width_ns: &Option<i64>,
) -> (r: Result<(), PinError>)
    ensures
        r is Ok <==> spec_pwm_args_valid(
            *frequency_uhz,
            *duty_cycle_upct,
            *period_ns,
            *pulse_width_ns,
        ),
        r matches Err(e) ==> e == PinError::InvalidParameter,
{
    if let Some(d) = duty_cycle_upct {
        if *d > DUTY_FULL_UPCT || *d < 0 {
            return Err(PinError::InvalidParameter);
        }
    }
    if let Some(p) = period_ns {
        if *p < 0 {
            return Err(PinError::InvalidParameter);
        }
    }
    if let Some(pw) = pulse_width_ns {
        if *pw < 0 {
            return Err(PinError::InvalidParameter);
        }
    }
    if let Some(pw) = pulse_width_ns {
        if let Some(p) = period_ns {
            if *pw > *p {
                return Err(PinError::InvalidParameter);
            }
        }
    }
    if let Some(f) = frequency_uhz {
        if *f < 0 {
            return Err(PinError::InvalidParameter);
        }
    }
    Ok(())
}

/// Apply the precedence rules to already-validated inputs and return the
/// canonical `(frequency_uhz, duty_cycle_upct)` pair.
pub fn compute_pwm_values(
    frequency_uhz: &Option<i64>,
    duty_cycle_upct: &Option<i64>,
    period_ns: &Option<i64>,
    pulse_width_ns: &Option<i64>,
) -> (r: (i64, i64))
    requires
        frequency_uhz is None ==> (period_ns matches Some(p) ==> p > 0),
        duty_cycle_upct is None ==> (pulse_width_ns matches Some(pw) ==> (
            spec_derived_frequency(*frequency_uhz, *period_ns) > 0 ==> pw >= 0
                && pw * spec_derived_frequency(*frequency_uhz, *period_ns) / (DUTY_DIVISOR as int)
                <= i64::MAX
        )),
    ensures
        r.0 == spec_derived_frequency(*frequency_uhz, *period_ns),
        r.1 == spec_derived_duty(*duty_cycle_upct, *pulse_width_ns, r.0 as int),
{
    let frequency: i64 = match frequency_uhz {
        Some(f) => *f,
        None => match period_ns {
            Some(p) => RECIPROCAL_DIVIDEND / *p,
            None => DEFAULT_FREQUENCY_UHZ,
        },
    };

    let duty: i64 = match duty_cycle_upct {
        Some(d) => *d,
        None => match pulse_width_ns {
            Some(pw) => {
                if frequency > 0 {
                    let scaled: i128 = (*pw as i128) * (frequency as i128) / (DUTY_DIVISOR as i128);
                    scaled as i64
                } else {
                    0
                }
            },
            None => 0,
        },
    };

    (frequency, duty)
}

/// The one centralized derivation: validate, derive, and confirm that a
/// given pulse width fits within the derived period. Returns the canonical
/// `(frequency_uhz, duty_cycle_upct)` pair, which always satisfies the
/// configuration invariant `frequency >= 0 && 0 <= duty <= 100 %`.
pub fn derive_pwm_config(
    frequency_uhz: &Option<i64>,
    duty_cycle_upct: &Option<i64>,
    period_ns: &Option<i64>,
    pulse_width_ns: &Option<i64>,
) -> (r: Result<(i64, i64), PinError>)
    ensures
        r is Ok <==> spec_pwm_derivable(
            *frequency_uhz,
            *duty_cycle_upct,
            *period_ns,
            *pulse_width_ns,
        ),
        r matches Ok(c) ==> {
            &&& c.0 == spec_derived_frequency(*frequency_uhz, *period_ns)
            &&& c.1 == spec_derived_duty(*duty_cycle_upct, *pulse_width_ns, c.0 as int)
            &&& 0 <= c.0
            &&& 0 <= c.1 <= DUTY_FULL_UPCT
        },
        r matches Err(e) ==> e == PinError::InvalidParameter,
{
    match check_pwm_values(frequency_uhz, duty_cycle_upct, period_ns, pulse_width_ns) {
        Ok(()) => (),
        Err(e) => {
            return Err(e);
        },
    }

    if frequency_uhz.is_none() {
        if let Some(p) = period_ns {
            if *p == 0 {
                return Err(PinError::InvalidParameter);
            }
        }
    }

    let frequency: i64 = match frequency_uhz {
        Some(f) => *f,
        None => match period_ns {
            Some(p) => RECIPROCAL_DIVIDEND / *p,
            None => DEFAULT_FREQUENCY_UHZ,
        },
    };
    proof {
        if frequency_uhz is None {
            match *period_ns {
                Some(p) => {
                    vstd::arithmetic::div_mod::lemma_div_pos_is_pos(
                        RECIPROCAL_DIVIDEND as int,
                        p as int,
                    );
                },
                None => {},
            }
        }
    }
    assert(frequency == spec_derived_frequency(*frequency_uhz, *period_ns));
    assert(frequency >= 0);

    if let Some(pw) = pulse_width_ns {
        if frequency > 0 {
            proof {
                assert(0 <= (*pw as int) * (frequency as int) <= i64::MAX * i64::MAX)
                    by (nonlinear_arith)
                    requires
                        0 <= *pw <= i64::MAX,
                        0 <= frequency <= i64::MAX,
                ;
            }
            let scaled_pulse: i128 = (*pw as i128) * (frequency as i128);
            if scaled_pulse > RECIPROCAL_DIVIDEND as i128 {
                return Err(PinError::InvalidParameter);
            }
        }
    }

    proof {
        if duty_cycle_upct is None && frequency > 0 {
            match *pulse_width_ns {
                Some(pw) => {
                    vstd::arithmetic::div_mod::lemma_div_is_ordered(
                        pw * frequency as int,
                        RECIPROCAL_DIVIDEND as int,
                        DUTY_DIVISOR as int,
                    );
                    vstd::arithmetic::div_mod::lemma_div_pos_is_pos(
                        pw * frequency as int,
                        DUTY_DIVISOR as int,
                    );
                    assert(RECIPROCAL_DIVIDEND as int / DUTY_DIVISOR as int == DUTY_FULL_UPCT);
                },
                None => {},
            }
        }
    }

    let (fc, dc) = compute_pwm_values(frequency_uhz, duty_cycle_upct, period_ns, pulse_width_ns);
    Ok((fc, dc))
}

/// Exact inverse period of a positive frequency (nanoseconds).
pub open spec fn spec_inverse_period(frequency_uhz: int) -> int {
    RECIPROCAL_DIVIDEND as int / frequency_uhz
}

/// Pulse width realising a duty cycle within a period (nanoseconds).
pub open spec fn spec_inverse_pulse(duty_cycle_upct: int, period_ns: int) -> int {
    duty_cycle_upct * period_ns / (DUTY_FULL_UPCT as int)
}

/// Derivation round trip: a canonical pair `(f, d)` re-expressed as the
/// period `10^15 / f` and the pulse width `d * period / 100 %` derives back
/// to exactly `(f, d)`, whenever those two inverse divisions are exact.
/// (With inexact divisions the re-expressed request lands on the nearest
/// representable waveform instead, and the round trip is only approximate.)
pub proof fn lemma_pwm_derivation_round_trip(f: int, d: int)
    requires
        0 < f,
        0 <= d <= DUTY_FULL_UPCT,
        RECIPROCAL_DIVIDEND as int % f == 0,
        (d * spec_inverse_period(f)) % (DUTY_FULL_UPCT as int) == 0,
    ensures
        spec_derived_frequency(None, Some(spec_inverse_period(f) as i64)) == f,
        spec_derived_duty(
            None,
            Some(spec_inverse_pulse(d, spec_inverse_period(f)) as i64),
            f,
        ) == d,
{
    let big = RECIPROCAL_DIVIDEND as int;
    let full = DUTY_FULL_UPCT as int;
    let tenm = DUTY_DIVISOR as int;
    let period = spec_inverse_period(f);
    let pulse = spec_inverse_pulse(d, period);

    assert(f <= big) by {
        if f > big {
            vstd::arithmetic::div_mod::lemma_small_mod(big as nat, f as nat);
        }
    };

    // The exact reciprocal: f * period == 10^15, hence period in i64 range
    // and 10^15 / period == f.
    vstd::arithmetic::div_mod::lemma_fundamental_div_mod(big, f);
    assert(f * period == big);
    assert(period >= 1) by (nonlinear_arith)
        requires
            f * period == big,
            0 < f <= big,
            big > 0,
    ;
    assert(period <= big) by (nonlinear_arith)
        requires
            f * period == big,
            f >= 1,
            period >= 1,
    ;
    assert(big / period == f) by {
        vstd::arithmetic::div_mod::lemma_fundamental_div_mod_converse(big, period, f, 0);
    };
    assert(spec_derived_frequency(None, Some(period as i64)) == f);

    // The exact pulse width: pulse * 100% == d * period, hence
    // pulse * f == d * 10^7 and pulse * f / 10^7 == d.
    vstd::arithmetic::div_mod::lemma_fundamental_div_mod(d * period, full);
    assert(pulse * full == d * period);
    assert(0 <= pulse) by (nonlinear_arith)
        requires
            pulse * full == d * period,
            0 <= d,
            0 <= period,
            full > 0,
    ;
    assert(pulse * f * full == d * period * f == d * big == d * full * tenm) by (nonlinear_arith)
        requires
            pulse * full == d * period,
            f * period == big,
            big == full * tenm,
    ;
    assert(pulse * f == d * tenm) by (nonlinear_arith)
        requires
            pulse * f * full == d * full * tenm,
            full > 0,
    ;
    assert(pulse <= period) by (nonlinear_arith)
        requires
            pulse * full == d * period,
            0 <= d <= full,
            0 <= period,
            0 <= pulse,
            full > 0,
    ;
    assert(pulse * f / tenm == d) by {
        vstd::arithmetic::div_mod::lemma_fundamental_div_mod_converse(pulse * f, tenm, d, 0);
    };
    assert(spec_derived_duty(None, Some(pulse as i64), f) == d);
}

} // verus!
