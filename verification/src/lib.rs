//! Verified model of an exclusive-ownership GPIO pin registry with
//! edge-interrupt callback dispatch and PWM parameter derivation.
//!
//! The library keeps a consistent picture of which pin is claimed in which
//! role (input, output, software PWM, hardware PWM channel), translates
//! between logical and physical signal conventions, and derives canonical
//! PWM parameters from the four overlapping input conventions. All hardware
//! access (GPIO lines, PWM peripherals, the pin-multiplexer helper) is left
//! to a thin unverified shell that consults this model before acting.

pub mod channels;
pub mod errors;
pub mod levels;
pub mod pinmux;
pub mod pwm;
pub mod registry;
pub mod vecmap;
