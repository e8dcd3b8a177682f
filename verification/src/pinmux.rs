//! Pin-multiplexer command derivation.
//!
//! Routing a hardware PWM channel to its physical pin requires switching
//! that pin's electrical alternate function through a privileged external
//! helper. The helper is driven by a four-word command line; this module
//! derives that argument list — including the board-dependent alternate
//! function code — so the unverified shell only has to execute it.

use vstd::prelude::*;

verus! {

/// The decimal digit character for `d` (0 to 9).
pub open spec fn spec_digit_char(d: nat) -> char {
    if d == 0 {
        '0'
    } else if d == 1 {
        '1'
    } else if d == 2 {
        '2'
    } else if d == 3 {
        '3'
    } else if d == 4 {
        '4'
    } else if d == 5 {
        '5'
    } else if d == 6 {
        '6'
    } else if d == 7 {
        '7'
    } else if d == 8 {
        '8'
    } else {
        '9'
    }
}

/// The decimal digit string of `n`, most significant digit first, with no
/// leading zeros (a single `'0'` for zero).
pub open spec fn spec_decimal(n: nat) -> Seq<char>
    decreases n,
{
    if n < 10 {
        seq![spec_digit_char(n)]
    } else {
        spec_decimal(n / 10).push(spec_digit_char(n % 10))
    }
}

/// The single-character string for a decimal digit.
fn digit_str(d: usize) -> (r: &'static str)
    requires
        d < 10,
    ensures
        r@ == seq![spec_digit_char(d as nat)],
{
    proof {
        reveal_strlit("0");
        reveal_strlit("1");
        reveal_strlit("2");
        reveal_strlit("3");
        reveal_strlit("4");
        reveal_strlit("5");
        reveal_strlit("6");
        reveal_strlit("7");
        reveal_strlit("8");
        reveal_strlit("9");
    }
    match d {
        0 => "0",
        1 => "1",
        2 => "2",
        3 => "3",
        4 => "4",
        5 => "5",
        6 => "6",
        7 => "7",
        8 => "8",
        _ => "9",
    }
}

/// Formats `n` in decimal.
pub fn decimal_string(n: usize) -> (s: String)
    ensures
        s@ == spec_decimal(n as nat),
    decreases n,
{
    if n < 10 {
        String::from_str(digit_str(n))
    } else {
        let mut s = decimal_string(n / 10);
        s.append(digit_str(n % 10));
        s
    }
}

/// The argument list for one pin-multiplexer invocation: set `pin` to the
/// alternate function named by `command`, with a pull-down.
pub fn hw_pwm_setup(pin: usize, command: &str) -> (r: Vec<String>)
    ensures
        r@.len() == 4,
        r@[0]@ == "set"@,
        r@[1]@ == spec_decimal(pin as nat),
        r@[2]@ == command@,
        r@[3]@ == "pd"@,
{
    let mut r: Vec<String> = Vec::new();
    r.push(String::from_str("set"));
    r.push(decimal_string(pin));
    r.push(String::from_str(command));
    r.push(String::from_str("pd"));
    r
}

/// Alternate-function selection for the board revision with four hardware
/// PWM lines: pins 12 and 13 use code `a0`, the others use `a3`.
pub fn set_gpio_to_pwm_pi5(pin: usize) -> (r: Vec<String>)
    ensures
        r@.len() == 4,
        r@[0]@ == "set"@,
        r@[1]@ == spec_decimal(pin as nat),
        r@[2]@ == if pin == 12 || pin == 13 {
            "a0"@
        } else {
            "a3"@
        },
        r@[3]@ == "pd"@,
{
    match pin {
        12 => hw_pwm_setup(pin, "a0"),
        13 => hw_pwm_setup(pin, "a0"),
        _ => hw_pwm_setup(pin, "a3"),
    }
}

/// Alternate-function selection for earlier board revisions with two
/// hardware PWM lines: code `a5` on every PWM-capable pin.
pub fn set_gpio_to_pwm_other(pin: usize) -> (r: Vec<String>)
    ensures
        r@.len() == 4,
        r@[0]@ == "set"@,
        r@[1]@ == spec_decimal(pin as nat),
        r@[2]@ == "a5"@,
        r@[3]@ == "pd"@,
{
    hw_pwm_setup(pin, "a5")
}

} // verus!
