//! Hardware PWM channel controller.
//!
//! Dedicated PWM peripherals are exposed as numbered channels, each routed
//! to a fixed physical pin that depends on the board revision. The
//! controller owns the per-channel configuration, refuses a channel whose
//! backing pin is already claimed as GPIO, and answers the reverse
//! question — whether a pin is routed to some configured channel — that
//! the pin registry asks before claiming a pin.

use vstd::prelude::*;

use crate::errors::PinError;
use crate::levels::LogicLevel;
use crate::pinmux::{set_gpio_to_pwm_other, set_gpio_to_pwm_pi5, spec_decimal};
use crate::pwm::{
    check_pwm_values, derive_pwm_config, spec_derived_duty, spec_derived_frequency,
    spec_pwm_args_valid, spec_pwm_derivable, DUTY_DIVISOR, DUTY_FULL_UPCT, RECIPROCAL_DIVIDEND,
};
use crate::registry::PinManager;
use crate::vecmap::VecMap;

verus! {

/// Polarity of the generated waveform. An active-low channel asks the
/// peripheral for hardware polarity inversion instead of complementing
/// the duty cycle.
#[derive(Clone, Copy, Debug, PartialEq, Eq, Structural)]
pub enum PWMPolarity {
    NORMAL,
    INVERSE,
}

/// Board revision as far as hardware PWM routing is concerned: the newer
/// revision exposes four channels (pins 12, 13, 18, 19), earlier ones two
/// (pins 18, 19).
#[derive(Clone, Copy, Debug, PartialEq, Eq, Structural)]
pub enum BoardModel {
    Pi5,
    Other,
}

/// Configuration of one armed hardware PWM channel.
#[derive(Clone, Copy, Debug, PartialEq, Eq, Structural)]
pub struct HwPwmChannel {
    /// Physical pin the channel is routed to.
    pub pin_num: u8,
    /// Frequency in microhertz.
    pub frequency: i64,
    /// Duty cycle in micropercent.
    pub duty_cycle: i64,
    /// Hardware polarity, derived from the requested logic level.
    pub polarity: PWMPolarity,
    /// Whether the peripheral is returned to a safe state on release.
    pub reset_on_exit: bool,
    /// Whether the waveform is currently enabled.
    pub is_active: bool,
}

/// The physical pin a channel is routed to on a board model, when the
/// channel number exists there.
pub open spec fn spec_channel_to_pin(model: BoardModel, channel_num: u8) -> Option<u8> {
    match model {
        BoardModel::Pi5 => if channel_num == 0 {
            Some(12u8)
        } else if channel_num == 1 {
            Some(13u8)
        } else if channel_num == 2 {
            Some(18u8)
        } else if channel_num == 3 {
            Some(19u8)
        } else {
            None
        },
        BoardModel::Other => if channel_num == 0 {
            Some(18u8)
        } else if channel_num == 1 {
            Some(19u8)
        } else {
            None
        },
    }
}

/// Resolve a channel number to its physical pin for a board model.
pub fn channel_to_pin(model: BoardModel, channel_num: u8) -> (r: Option<u8>)
    ensures
        r == spec_channel_to_pin(model, channel_num),
{
    match model {
        BoardModel::Pi5 => match channel_num {
            0 => Some(12),
            1 => Some(13),
            2 => Some(18),
            3 => Some(19),
            _ => None,
        },
        BoardModel::Other => match channel_num {
            0 => Some(18),
            1 => Some(19),
            _ => None,
        },
    }
}

/// Hardware polarity realising a logic-level convention.
pub open spec fn spec_polarity_of_level(level: LogicLevel) -> PWMPolarity {
    match level {
        LogicLevel::HIGH => PWMPolarity::NORMAL,
        LogicLevel::LOW => PWMPolarity::INVERSE,
    }
}

/// Map a logic-level convention to the hardware polarity to request.
pub fn polarity_of_level(level: LogicLevel) -> (r: PWMPolarity)
    ensures
        r == spec_polarity_of_level(level),
{
    match level {
        LogicLevel::HIGH => PWMPolarity::NORMAL,
        LogicLevel::LOW => PWMPolarity::INVERSE,
    }
}

/// Derived period of a channel in nanoseconds (zero when the stored
/// frequency is zero).
pub open spec fn spec_channel_period_ns(cfg: HwPwmChannel) -> int {
    if cfg.frequency > 0 {
        RECIPROCAL_DIVIDEND as int / cfg.frequency as int
    } else {
        0
    }
}

/// Derived pulse width of a channel in nanoseconds.
pub open spec fn spec_channel_pulse_ns(cfg: HwPwmChannel) -> int {
    cfg.duty_cycle * spec_channel_period_ns(cfg) / (DUTY_FULL_UPCT as int)
}

/// Owner of the hardware PWM channel configurations.
pub struct PWMManager {
    pwm_channels: VecMap<HwPwmChannel>,
}

impl PWMManager {
    /// The channel configurations, keyed by channel number.
    pub closed spec fn channels(self) -> Map<u8, HwPwmChannel> {
        self.pwm_channels@
    }

    /// Well-formedness: every configured channel has a non-negative
    /// frequency and a duty cycle within [0, 100 %].
    pub closed spec fn wf(self) -> bool {
        &&& self.pwm_channels.wf()
        &&& forall|ch: u8|
            #[trigger] self.channels().contains_key(ch) ==> 0 <= self.channels()[ch].frequency
                && 0 <= self.channels()[ch].duty_cycle <= DUTY_FULL_UPCT
    }

    /// Whether some configured channel is routed to `pin_num`.
    pub open spec fn spec_routes_pin(self, pin_num: u8) -> bool {
        exists|ch: u8|
            #[trigger] self.channels().contains_key(ch) && self.channels()[ch].pin_num == pin_num
    }

    /// Creates a controller with no configured channel.
    pub fn new() -> (m: PWMManager)
        ensures
            m.wf(),
            m.channels() == Map::<u8, HwPwmChannel>::empty(),
    {
        PWMManager { pwm_channels: VecMap::new() }
    }

    /// Whether `pin_num` is routed to some configured channel, i.e. whether
    /// it must be refused as a GPIO pin.
    pub fn is_pin_pwm(&self, pin_num: u8) -> (r: bool)
        requires
            self.wf(),
        ensures
            r == self.spec_routes_pin(pin_num),
    {
        let channel_nums = self.pwm_channels.keys();
        let n = channel_nums.len();
        let mut idx: usize = 0;
        while idx < n
            invariant
                n == channel_nums@.len(),
                0 <= idx <= n,
                self.wf(),
                channel_nums@ == self.pwm_channels.key_seq(),
                forall|k: u8| channel_nums@.contains(k) <==> self.channels().contains_key(k),
                forall|j: int|
                    0 <= j < idx ==> self.channels()[channel_nums@[j]].pin_num != pin_num,
            decreases n - idx,
        {
            let ch = channel_nums[idx];
            proof {
                assert(channel_nums@.contains(channel_nums@[idx as int]));
            }
            match self.pwm_channels.get(ch) {
                Some(cfg) => {
                    if cfg.pin_num == pin_num {
                        return true;
                    }
                },
                None => {},
            }
            idx = idx + 1;
        }
        proof {
            if self.spec_routes_pin(pin_num) {
                let ch = choose|ch: u8|
                    #[trigger] self.channels().contains_key(ch) && self.channels()[ch].pin_num
                        == pin_num;
                assert(channel_nums@.contains(ch));
                let j = choose|j: int| 0 <= j < channel_nums@.len() && channel_nums@[j] == ch;
                assert(self.channels()[channel_nums@[j]].pin_num != pin_num);
            }
        }
        false
    }

    /// Sets whether a configured channel resets the peripheral on release.
    pub fn set_reset_on_exit(&mut self, channel_num: u8, reset_on_exit: bool) -> (r: Result<
        (),
        PinError,
    >)
        requires
            old(self).wf(),
        ensures
            final(self).wf(),
            r is Ok <==> old(self).channels().contains_key(channel_num),
            r matches Err(e) ==> e == PinError::NotConfigured && *final(self) == *old(self),
            r is Ok ==> final(self).channels() == old(self).channels().insert(
                channel_num,
                (HwPwmChannel {
                    reset_on_exit,
                    ..old(self).channels()[channel_num]
                }),
            ),
    {
        match self.pwm_channels.get(channel_num) {
            Some(cfg) => {
                let updated = HwPwmChannel { reset_on_exit, ..*cfg };
                self.pwm_channels.insert(channel_num, updated);
                Ok(())
            },
            None => Err(PinError::NotConfigured),
        }
    }

    /// Enables the waveform on a configured channel.
    pub fn start_pwm_channel(&mut self, channel_num: u8) -> (r: Result<(), PinError>)
        requires
            old(self).wf(),
        ensures
            final(self).wf(),
            r is Ok <==> old(self).channels().contains_key(channel_num),
            r matches Err(e) ==> e == PinError::NotConfigured && *final(self) == *old(self),
            r is Ok ==> final(self).channels() == old(self).channels().insert(
                channel_num,
                (HwPwmChannel {
                    is_active: true,
                    ..old(self).channels()[channel_num]
                }),
            ),
    {
        match self.pwm_channels.get(channel_num) {
            Some(cfg) => {
                let updated = HwPwmChannel { is_active: true, ..*cfg };
                self.pwm_channels.insert(channel_num, updated);
                Ok(())
            },
            None => Err(PinError::NotConfigured),
        }
    }

    /// Disables the waveform on a configured channel.
    pub fn stop_pwm_channel(&mut self, channel_num: u8) -> (r: Result<(), PinError>)
        requires
            old(self).wf(),
        ensures
            final(self).wf(),
            r is Ok <==> old(self).channels().contains_key(channel_num),
            r matches Err(e) ==> e == PinError::NotConfigured && *final(self) == *old(self),
            r is Ok ==> final(self).channels() == old(self).channels().insert(
                channel_num,
                (HwPwmChannel {
                    is_active: false,
                    ..old(self).channels()[channel_num]
                }),
            ),
    {
        match self.pwm_channels.get(channel_num) {
            Some(cfg) => {
                let updated = HwPwmChannel { is_active: false, ..*cfg };
                self.pwm_channels.insert(channel_num, updated);
                Ok(())
            },
            None => Err(PinError::NotConfigured),
        }
    }

    /// Removes a configured channel, releasing its routing claim. The
    /// channel is marked to reset on release and stopped first, as the
    /// returned (previous) configuration no longer matters.
    pub fn reset_pwm_channel(&mut self, channel_num: u8) -> (r: Result<(), PinError>)
        requires
            old(self).wf(),
        ensures
            final(self).wf(),
            r is Ok <==> old(self).channels().contains_key(channel_num),
            r matches Err(e) ==> e == PinError::NotConfigured && *final(self) == *old(self),
            r is Ok ==> final(self).channels() == old(self).channels().remove(channel_num),
    {
        match self.pwm_channels.remove(channel_num) {
            Some(_) => Ok(()),
            None => Err(PinError::NotConfigured),
        }
    }

    /// Sets the duty cycle (micropercent) of a configured channel.
    pub fn set_duty_cycle(&mut self, channel_num: u8, duty_cycle_upct: i64) -> (r: Result<
        (),
        PinError,
    >)
        requires
            old(self).wf(),
        ensures
            final(self).wf(),
            r is Err ==> *final(self) == *old(self),
            !(0 <= duty_cycle_upct <= DUTY_FULL_UPCT) ==> r == Err::<(), PinError>(PinError::InvalidParameter),
            (0 <= duty_cycle_upct <= DUTY_FULL_UPCT && !old(self).channels().contains_key(
                channel_num,
            )) ==> r == Err::<(), PinError>(PinError::NotConfigured),
            r is Ok <==> (0 <= duty_cycle_upct <= DUTY_FULL_UPCT && old(
                self,
            ).channels().contains_key(channel_num)),
            r is Ok ==> final(self).channels() == old(self).channels().insert(
                channel_num,
                (HwPwmChannel {
                    duty_cycle: duty_cycle_upct,
                    ..old(self).channels()[channel_num]
                }),
            ),
    {
        if duty_cycle_upct > DUTY_FULL_UPCT || duty_cycle_upct < 0 {
            return Err(PinError::InvalidParameter);
        }
        match self.pwm_channels.get(channel_num) {
            Some(cfg) => {
                let updated = HwPwmChannel { duty_cycle: duty_cycle_upct, ..*cfg };
                self.pwm_channels.insert(channel_num, updated);
                Ok(())
            },
            None => Err(PinError::NotConfigured),
        }
    }

    /// Sets the frequency (microhertz) of a configured channel; it must be
    /// positive. The duty cycle is kept.
    pub fn set_frequency(&mut self, channel_num: u8, frequency_uhz: i64) -> (r: Result<
        (),
        PinError,
    >)
        requires
            old(self).wf(),
        ensures
            final(self).wf(),
            r is Err ==> *final(self) == *old(self),
            frequency_uhz <= 0 ==> r == Err::<(), PinError>(PinError::InvalidParameter),
            (frequency_uhz > 0 && !old(self).channels().contains_key(channel_num)) ==> r == Err::<(), PinError>(
                PinError::NotConfigured,
            ),
            r is Ok <==> (frequency_uhz > 0 && old(self).channels().contains_key(channel_num)),
            r is Ok ==> final(self).channels() == old(self).channels().insert(
                channel_num,
                (HwPwmChannel {
                    frequency: frequency_uhz,
                    ..old(self).channels()[channel_num]
                }),
            ),
    {
        if frequency_uhz <= 0 {
            return Err(PinError::InvalidParameter);
        }
        match self.pwm_channels.get(channel_num) {
            Some(cfg) => {
                let updated = HwPwmChannel { frequency: frequency_uhz, ..*cfg };
                self.pwm_channels.insert(channel_num, updated);
                Ok(())
            },
            None => Err(PinError::NotConfigured),
        }
    }

    /// Sets the period (nanoseconds) of a configured channel; it must be
    /// positive, and determines the frequency by the reciprocal relation.
    pub fn set_period(&mut self, channel_num: u8, period_ns: i64) -> (r: Result<(), PinError>)
        requires
            old(self).wf(),
        ensures
            final(self).wf(),
            r is Err ==> *final(self) == *old(self),
            period_ns <= 0 ==> r == Err::<(), PinError>(PinError::InvalidParameter),
            (period_ns > 0 && !old(self).channels().contains_key(channel_num)) ==> r == Err::<(), PinError>(
                PinError::NotConfigured,
            ),
            r is Ok <==> (period_ns > 0 && old(self).channels().contains_key(channel_num)),
            r is Ok ==> final(self).channels() == old(self).channels().insert(
                channel_num,
                (HwPwmChannel {
                    frequency: (RECIPROCAL_DIVIDEND as int / period_ns as int) as i64,
                    ..old(self).channels()[channel_num]
                }),
            ),
    {
        if period_ns <= 0 {
            return Err(PinError::InvalidParameter);
        }
        match self.pwm_channels.get(channel_num) {
            Some(cfg) => {
                let frequency: i64 = RECIPROCAL_DIVIDEND / period_ns;
                proof {
                    vstd::arithmetic::div_mod::lemma_div_pos_is_pos(
                        RECIPROCAL_DIVIDEND as int,
                        period_ns as int,
                    );
                }
                let updated = HwPwmChannel { frequency, ..*cfg };
                self.pwm_channels.insert(channel_num, updated);
                Ok(())
            },
            None => Err(PinError::NotConfigured),
        }
    }

    /// Sets the pulse width (nanoseconds) of a configured channel. The
    /// pulse must not be wider than the channel's derived period; it
    /// determines the duty cycle against the stored frequency (zero when
    /// the frequency is zero).
    pub fn set_pulse_width(&mut self, channel_num: u8, pulse_width_ns: i64) -> (r: Result<
        (),
        PinError,
    >)
        requires
            old(self).wf(),
        ensures
            final(self).wf(),
            r is Err ==> *final(self) == *old(self),
            pulse_width_ns < 0 ==> r == Err::<(), PinError>(PinError::InvalidParameter),
            (pulse_width_ns >= 0 && !old(self).channels().contains_key(channel_num)) ==> r == Err::<(), PinError>(
                PinError::NotConfigured,
            ),
            (pulse_width_ns >= 0 && old(self).channels().contains_key(channel_num) && old(
                self,
            ).channels()[channel_num].frequency > 0 && pulse_width_ns * old(
                self,
            ).channels()[channel_num].frequency > RECIPROCAL_DIVIDEND) ==> r == Err::<(), PinError>(
                PinError::InvalidParameter,
            ),
            r is Ok <==> (pulse_width_ns >= 0 && old(self).channels().contains_key(channel_num)
                && !(old(self).channels()[channel_num].frequency > 0 && pulse_width_ns * old(
                self,
            ).channels()[channel_num].frequency > RECIPROCAL_DIVIDEND)),
            r is Ok ==> final(self).channels() == old(self).channels().insert(
                channel_num,
                (HwPwmChannel {
                    duty_cycle: if old(self).channels()[channel_num].frequency > 0 {
                        (pulse_width_ns * old(self).channels()[channel_num].frequency / (
                        DUTY_DIVISOR as int)) as i64
                    } else {
                        0
                    },
                    ..old(self).channels()[channel_num]
                }),
            ),
    {
        if pulse_width_ns < 0 {
            return Err(PinError::InvalidParameter);
        }
        match self.pwm_channels.get(channel_num) {
            Some(cfg) => {
                let duty_cycle: i64 = if cfg.frequency > 0 {
                    proof {
                        assert(0 <= (pulse_width_ns as int) * (cfg.frequency as int) <= i64::MAX
                            * i64::MAX) by (nonlinear_arith)
                            requires
                                0 <= pulse_width_ns <= i64::MAX,
                                0 < cfg.frequency <= i64::MAX,
                        ;
                    }
                    let scaled: i128 = (pulse_width_ns as i128) * (cfg.frequency as i128);
                    if scaled > RECIPROCAL_DIVIDEND as i128 {
                        return Err(PinError::InvalidParameter);
                    }
                    proof {
                        vstd::arithmetic::div_mod::lemma_div_is_ordered(
                            pulse_width_ns * cfg.frequency as int,
                            RECIPROCAL_DIVIDEND as int,
                            DUTY_DIVISOR as int,
                        );
                        vstd::arithmetic::div_mod::lemma_div_pos_is_pos(
                            pulse_width_ns * cfg.frequency as int,
                            DUTY_DIVISOR as int,
                        );
                        assert(RECIPROCAL_DIVIDEND as int / DUTY_DIVISOR as int == DUTY_FULL_UPCT);
                    }
                    (scaled / DUTY_DIVISOR as i128) as i64
                } else {
                    0
                };
                let updated = HwPwmChannel { duty_cycle, ..*cfg };
                self.pwm_channels.insert(channel_num, updated);
                Ok(())
            },
            None => Err(PinError::NotConfigured),
        }
    }

    /// Reads the frequency (microhertz) of a configured channel.
    pub fn get_frequency(&self, channel_num: u8) -> (r: Result<i64, PinError>)
        requires
            self.wf(),
        ensures
            r matches Ok(f) ==> self.channels().contains_key(channel_num) && f
                == self.channels()[channel_num].frequency,
            r matches Err(e) ==> e == PinError::NotConfigured && !self.channels().contains_key(
                channel_num,
            ),
    {
        match self.pwm_channels.get(channel_num) {
            Some(cfg) => Ok(cfg.frequency),
            None => Err(PinError::NotConfigured),
        }
    }

    /// Reads the derived period (nanoseconds) of a configured channel.
    pub fn get_period(&self, channel_num: u8) -> (r: Result<i64, PinError>)
        requires
            self.wf(),
        ensures
            r matches Ok(p) ==> self.channels().contains_key(channel_num) && p
                == spec_channel_period_ns(self.channels()[channel_num]),
            r matches Err(e) ==> e == PinError::NotConfigured && !self.channels().contains_key(
                channel_num,
            ),
    {
        match self.pwm_channels.get(channel_num) {
            Some(cfg) => {
                if cfg.frequency > 0 {
                    proof {
                        vstd::arithmetic::div_mod::lemma_div_pos_is_pos(
                            RECIPROCAL_DIVIDEND as int,
                            cfg.frequency as int,
                        );
                    }
                    Ok(RECIPROCAL_DIVIDEND / cfg.frequency)
                } else {
                    Ok(0)
                }
            },
            None => Err(PinError::NotConfigured),
        }
    }

    /// Reads the derived pulse width (nanoseconds) of a configured channel.
    pub fn get_pulse_width(&self, channel_num: u8) -> (r: Result<i64, PinError>)
        requires
            self.wf(),
        ensures
            r matches Ok(pw) ==> self.channels().contains_key(channel_num) && pw
                == spec_channel_pulse_ns(self.channels()[channel_num]),
            r matches Err(e) ==> e == PinError::NotConfigured && !self.channels().contains_key(
                channel_num,
            ),
    {
        match self.pwm_channels.get(channel_num) {
            Some(cfg) => {
                let period: i64 = if cfg.frequency > 0 {
                    proof {
                        vstd::arithmetic::div_mod::lemma_div_pos_is_pos(
                            RECIPROCAL_DIVIDEND as int,
                            cfg.frequency as int,
                        );
                        vstd::arithmetic::div_mod::lemma_div_nonincreasing(
                            RECIPROCAL_DIVIDEND as int,
                            cfg.frequency as int,
                        );
                    }
                    RECIPROCAL_DIVIDEND / cfg.frequency
                } else {
                    0
                };
                proof {
                    assert(0 <= (cfg.duty_cycle as int) * (period as int) <= i64::MAX * i64::MAX)
                        by (nonlinear_arith)
                        requires
                            0 <= cfg.duty_cycle <= i64::MAX,
                            0 <= period <= i64::MAX,
                    ;
                    vstd::arithmetic::div_mod::lemma_div_pos_is_pos(
                        cfg.duty_cycle * period as int,
                        DUTY_FULL_UPCT as int,
                    );
                    assert(cfg.duty_cycle * (period as int) <= DUTY_FULL_UPCT * (period as int))
                        by (nonlinear_arith)
                        requires
                            0 <= cfg.duty_cycle <= DUTY_FULL_UPCT,
                            0 <= period,
                    ;
                    vstd::arithmetic::div_mod::lemma_div_is_ordered(
                        cfg.duty_cycle * period as int,
                        DUTY_FULL_UPCT * period as int,
                        DUTY_FULL_UPCT as int,
                    );
                    vstd::arithmetic::div_mod::lemma_div_multiples_vanish(
                        period as int,
                        DUTY_FULL_UPCT as int,
                    );
                }
                let scaled: i128 = (cfg.duty_cycle as i128) * (period as i128) / (DUTY_FULL_UPCT
                    as i128);
                Ok(scaled as i64)
            },
            None => Err(PinError::NotConfigured),
        }
    }

    /// Reads the duty cycle (micropercent) of a configured channel.
    pub fn get_duty_cycle(&self, channel_num: u8) -> (r: Result<i64, PinError>)
        requires
            self.wf(),
        ensures
            r matches Ok(d) ==> self.channels().contains_key(channel_num) && d
                == self.channels()[channel_num].duty_cycle,
            r matches Err(e) ==> e == PinError::NotConfigured && !self.channels().contains_key(
                channel_num,
            ),
    {
        match self.pwm_channels.get(channel_num) {
            Some(cfg) => Ok(cfg.duty_cycle),
            None => Err(PinError::NotConfigured),
        }
    }

    /// Removes every configured channel and returns the channel numbers
    /// that were configured, for the shell to tear down in that order.
    pub fn cleanup(&mut self) -> (r: Vec<u8>)
        requires
            old(self).wf(),
        ensures
            final(self).wf(),
            final(self).channels() == Map::<u8, HwPwmChannel>::empty(),
            forall|ch: u8| r@.contains(ch) <==> old(self).channels().contains_key(ch),
    {
        let channel_nums = self.pwm_channels.keys();
        let n = channel_nums.len();
        let mut idx: usize = 0;
        while idx < n
            invariant
                n == channel_nums@.len(),
                0 <= idx <= n,
                self.pwm_channels.wf(),
                forall|k: u8| channel_nums@.contains(k) <==> old(self).channels().contains_key(k),
                forall|k: u8| #[trigger]
                    self.channels().contains_key(k) ==> old(self).channels().contains_key(k),
                forall|k: u8| #[trigger]
                    self.channels().contains_key(k) ==> !channel_nums@.take(idx as int).contains(
                        k,
                    ),
                forall|k: u8|
                    (old(self).channels().contains_key(k) && !channel_nums@.take(
                        idx as int,
                    ).contains(k)) ==> self.channels().contains_key(k),
            decreases n - idx,
        {
            let ghost pre = *self;
            self.pwm_channels.remove(channel_nums[idx]);
            proof {
                assert forall|k: u8| #[trigger]
                    self.channels().contains_key(k) implies old(self).channels().contains_key(
                    k,
                ) by {
                    assert(pre.channels().contains_key(k));
                }
                assert forall|k: u8| #[trigger]
                    self.channels().contains_key(k) implies !channel_nums@.take(
                    idx + 1,
                ).contains(k) by {
                    assert(!pre.channels().remove(channel_nums@[idx as int]).contains_key(
                        channel_nums@[idx as int],
                    ));
                    if channel_nums@.take(idx + 1).contains(k) {
                        let j = choose|j: int|
                            0 <= j < idx + 1 && #[trigger] channel_nums@.take(idx + 1)[j] == k;
                        if j < idx {
                            assert(channel_nums@.take(idx as int)[j] == k);
                            assert(channel_nums@.take(idx as int).contains(k));
                        }
                    }
                }
                assert forall|k: u8|
                    (old(self).channels().contains_key(k) && !channel_nums@.take(idx + 1).contains(
                        k,
                    )) implies self.channels().contains_key(k) by {
                    assert(channel_nums@.take(idx + 1)[idx as int] == channel_nums@[idx as int]);
                    if !channel_nums@.take(idx as int).contains(k) {
                        if k != channel_nums@[idx as int] {
                            assert(pre.channels().contains_key(k));
                        }
                    } else {
                        let j = choose|j: int|
                            0 <= j < idx && channel_nums@.take(idx as int)[j] == k;
                        assert(channel_nums@.take(idx + 1)[j] == k);
                    }
                }
            }
            idx = idx + 1;
        }
        proof {
            assert(final(self).channels() =~= Map::<u8, HwPwmChannel>::empty()) by {
                assert forall|k: u8| !(#[trigger] self.channels().contains_key(k)) by {
                    if self.channels().contains_key(k) {
                        assert(channel_nums@.take(n as int) =~= channel_nums@);
                    }
                }
            }
        }
        channel_nums
    }
}

/// The alternate-function code the pin multiplexer needs to route a pin
/// to its PWM peripheral, per board model.
pub open spec fn spec_alt_function_code(model: BoardModel, pin_num: u8) -> Seq<char> {
    match model {
        BoardModel::Pi5 => if pin_num == 12 || pin_num == 13 {
            "a0"@
        } else {
            "a3"@
        },
        BoardModel::Other => "a5"@,
    }
}

/// Everything the shell must do to arm a freshly configured hardware PWM
/// channel: switch the pin's electrical function with the pin-multiplexer
/// arguments, then open the peripheral with these parameters, disabled.
#[derive(Clone, Debug)]
pub struct HwSetupPlan {
    /// Physical pin the channel is routed to.
    pub pin_num: u8,
    /// Argument list for the pin-multiplexer helper.
    pub pinctrl_args: Vec<String>,
    /// Frequency in microhertz.
    pub frequency_uhz: i64,
    /// Duty cycle in micropercent.
    pub duty_cycle_upct: i64,
    /// Hardware polarity to request.
    pub polarity: PWMPolarity,
    /// Whether the peripheral resets on release.
    pub reset_on_exit: bool,
}

impl PWMManager {
    /// Configures a hardware PWM channel: resolves the board-dependent
    /// channel-to-pin routing, confirms with the pin registry that the
    /// backing pin is free, validates and derives the waveform parameters,
    /// and records the channel, disabled. Fails with `InvalidParameter`
    /// for a channel number the board does not expose or for out-of-range
    /// waveform inputs, and with `Conflict` when the backing pin is
    /// GPIO-claimed or the channel is already configured. Validation
    /// precedes every mutation. Returns the hardware plan the shell must
    /// execute.
    pub fn setup_pwm_channel(
        &mut self,
        channel_num: u8,
        frequency_uhz: &Option<i64>,
        duty_cycle_upct: &Option<i64>,
        period_ns: &Option<i64>,
        pulse_width_ns: &Option<i64>,
        logic_level: LogicLevel,
        reset_on_exit: bool,
        model: BoardModel,
        pins: &PinManager,
    ) -> (r: Result<HwSetupPlan, PinError>)
        requires
            old(self).wf(),
            pins.wf(),
        ensures
            final(self).wf(),
            r is Err ==> *final(self) == *old(self),
            spec_channel_to_pin(model, channel_num) is None ==> (r matches Err(e) && e
                == PinError::InvalidParameter),
            r is Ok <==> (spec_channel_to_pin(model, channel_num) matches Some(pin) && !pins.inputs().contains_key(
                pin,
            ) && !pins.outputs().contains_key(pin) && spec_pwm_derivable(
                *frequency_uhz,
                *duty_cycle_upct,
                *period_ns,
                *pulse_width_ns,
            ) && !old(self).channels().contains_key(channel_num)),
            (spec_channel_to_pin(model, channel_num) matches Some(pin) && (pins.inputs().contains_key(
                pin,
            ) || pins.outputs().contains_key(pin))) ==> (r matches Err(e) && e == PinError::Conflict),
            (spec_channel_to_pin(model, channel_num) matches Some(pin)
                && !pins.inputs().contains_key(pin) && !pins.outputs().contains_key(pin)
                && !spec_pwm_args_valid(
                *frequency_uhz,
                *duty_cycle_upct,
                *period_ns,
                *pulse_width_ns,
            )) ==> (r matches Err(e) && e == PinError::InvalidParameter),
            (spec_channel_to_pin(model, channel_num) matches Some(pin)
                && !pins.inputs().contains_key(pin) && !pins.outputs().contains_key(pin)
                && spec_pwm_args_valid(
                *frequency_uhz,
                *duty_cycle_upct,
                *period_ns,
                *pulse_width_ns,
            ) && old(self).channels().contains_key(channel_num)) ==> (r matches Err(e) && e
                == PinError::Conflict),
            r matches Ok(plan) ==> {
                let pin = spec_channel_to_pin(model, channel_num)->0;
                let frequency = spec_derived_frequency(*frequency_uhz, *period_ns);
                let duty = spec_derived_duty(*duty_cycle_upct, *pulse_width_ns, frequency);
                &&& final(self).channels() == old(self).channels().insert(
                    channel_num,
                    (HwPwmChannel {
                        pin_num: pin,
                        frequency: frequency as i64,
                        duty_cycle: duty as i64,
                        polarity: spec_polarity_of_level(logic_level),
                        reset_on_exit,
                        is_active: false,
                    }),
                )
                &&& plan.pin_num == pin
                &&& plan.frequency_uhz == frequency
                &&& plan.duty_cycle_upct == duty
                &&& plan.polarity == spec_polarity_of_level(logic_level)
                &&& plan.reset_on_exit == reset_on_exit
                &&& plan.pinctrl_args@.len() == 4
                &&& plan.pinctrl_args@[0]@ == "set"@
                &&& plan.pinctrl_args@[1]@ == spec_decimal(pin as nat)
                &&& plan.pinctrl_args@[2]@ == spec_alt_function_code(model, pin)
                &&& plan.pinctrl_args@[3]@ == "pd"@
            },
            pins.spec_disjoint_from_hw(*old(self)) ==> pins.spec_disjoint_from_hw(*final(self)),
    {
        let pin_num = match channel_to_pin(model, channel_num) {
            Some(p) => p,
            None => {
                return Err(PinError::InvalidParameter);
            },
        };
        if pins.is_input_pin(pin_num) {
            return Err(PinError::Conflict);
        }
        if pins.is_output_pin(pin_num) {
            return Err(PinError::Conflict);
        }
        match check_pwm_values(frequency_uhz, duty_cycle_upct, period_ns, pulse_width_ns) {
            Ok(()) => (),
            Err(e) => {
                return Err(e);
            },
        }
        if self.pwm_channels.contains_key(channel_num) {
            return Err(PinError::Conflict);
        }
        let derived = match derive_pwm_config(
            frequency_uhz,
            duty_cycle_upct,
            period_ns,
            pulse_width_ns,
        ) {
            Ok(c) => c,
            Err(e) => {
                return Err(e);
            },
        };
        let polarity = polarity_of_level(logic_level);
        let pinctrl_args = match model {
            BoardModel::Pi5 => set_gpio_to_pwm_pi5(pin_num as usize),
            BoardModel::Other => set_gpio_to_pwm_other(pin_num as usize),
        };
        self.pwm_channels.insert(
            channel_num,
            HwPwmChannel {
                pin_num,
                frequency: derived.0,
                duty_cycle: derived.1,
                polarity,
                reset_on_exit,
                is_active: false,
            },
        );
        proof {
            assert forall|ch: u8| #[trigger]
                self.channels().contains_key(ch) implies 0 <= self.channels()[ch].frequency && 0
                <= self.channels()[ch].duty_cycle <= DUTY_FULL_UPCT by {
                if ch != channel_num {
                    assert(old(self).channels().contains_key(ch));
                }
            }
            if pins.spec_disjoint_from_hw(*old(self)) {
                assert forall|p: u8| #[trigger]
                    pins.inputs().contains_key(p) implies !self.spec_routes_pin(p) by {
                    assert(!old(self).spec_routes_pin(p));
                    if self.spec_routes_pin(p) {
                        let ch = choose|ch: u8|
                            #[trigger] self.channels().contains_key(ch)
                                && self.channels()[ch].pin_num == p;
                        if ch == channel_num {
                            assert(p == pin_num);
                        } else {
                            assert(old(self).channels().contains_key(ch));
                            assert(old(self).spec_routes_pin(p));
                        }
                    }
                }
                assert forall|p: u8| #[trigger]
                    pins.outputs().contains_key(p) implies !self.spec_routes_pin(p) by {
                    assert(!old(self).spec_routes_pin(p));
                    if self.spec_routes_pin(p) {
                        let ch = choose|ch: u8|
                            #[trigger] self.channels().contains_key(ch)
                                && self.channels()[ch].pin_num == p;
                        if ch == channel_num {
                            assert(p == pin_num);
                        } else {
                            assert(old(self).channels().contains_key(ch));
                            assert(old(self).spec_routes_pin(p));
                        }
                    }
                }
            }
        }
        Ok(
            HwSetupPlan {
                pin_num,
                pinctrl_args,
                frequency_uhz: derived.0,
                duty_cycle_upct: derived.1,
                polarity,
                reset_on_exit,
            },
        )
    }
}

} // verus!
