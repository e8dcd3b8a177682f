//! Error taxonomy shared by every configuration entry point.

use vstd::prelude::*;

verus! {

/// Failure kinds surfaced to the caller.
///
/// - `Conflict`: the pin or channel is already claimed in an incompatible
///   role; checked before any state mutation.
/// - `NotConfigured`: the operation targets a pin or channel that was never
///   set up in the required role.
/// - `InvalidParameter`: an out-of-range numeric input.
/// - `HardwareFailure`: the underlying line, peripheral or bus provider
///   reported an error. The verified model never produces this variant; it
///   exists for the unverified shell that performs the hardware calls.
#[derive(Clone, Copy, Debug, PartialEq, Eq, Structural)]
pub enum PinError {
    Conflict,
    NotConfigured,
    InvalidParameter,
    HardwareFailure,
}

} // verus!
