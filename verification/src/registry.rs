//! The pin registry: the exclusive-ownership authority.
//!
//! `PinManager` holds the complete logical state of the GPIO subsystem —
//! which pin is an input or an output, with which conventions, which
//! callbacks are attached where, and which pins carry a software PWM
//! configuration. Every configuration entry point validates against this
//! state before mutating it, so a pin is never claimed in two roles at
//! once. The registry itself performs no hardware access: operations that
//! need a hardware effect return a description of that effect (the
//! resolved pull, the physical level to drive, a PWM command, a reset
//! plan) for the unverified shell to execute.

use vstd::prelude::*;

use crate::channels::PWMManager;
use crate::errors::PinError;
use crate::levels::{
    spec_logical_of_physical, spec_physical_of_logical, spec_resolve_pull, spec_translate_edge,
    logical_of_physical, physical_of_logical, resolve_pull, translate_edge, InternPullResistorState,
    LogicLevel, PinState, ResolvedPull, TriggerEdge,
};
use crate::pwm::{
    derive_pwm_config, spec_derived_duty, spec_derived_frequency, spec_pwm_args_valid,
    spec_pwm_derivable, DUTY_DIVISOR, DUTY_FULL_UPCT, RECIPROCAL_DIVIDEND,
};
use crate::vecmap::VecMap;

verus! {

/// Configuration of a claimed input pin.
#[derive(Clone, Copy, Debug, PartialEq, Eq, Structural)]
pub struct InputPinConfig {
    /// Active-high or active-low convention, fixed at assignment.
    pub logic_level: LogicLevel,
    /// The pull-resistor configuration the line was claimed with.
    pub pull: ResolvedPull,
    /// Whether the line is returned to a safe default on release.
    pub reset_on_exit: bool,
}

/// Configuration of a claimed output pin.
#[derive(Clone, Copy, Debug, PartialEq, Eq, Structural)]
pub struct OutputPinConfig {
    /// Active-high or active-low convention, fixed at assignment.
    pub logic_level: LogicLevel,
    /// Whether the line is returned to a safe default on release.
    pub reset_on_exit: bool,
    /// The physical level the line is currently driven to.
    pub physical_high: bool,
}

/// One registered callback on an input pin. The callable itself and its
/// extra arguments live outside the verified model, keyed by `id`.
#[derive(Clone, Copy, Debug, PartialEq, Eq, Structural)]
pub struct CallbackRecord {
    /// Identity of the callback, unique per pin, used for detaching.
    pub id: u64,
    /// The *physical* edge this record fires on, translated through the
    /// pin's logic level at registration time. `BOTH` matches every edge.
    pub trigger_edge: TriggerEdge,
    /// Whether the event timestamp is prepended to the arguments.
    pub send_time: bool,
    /// Whether the (logical) event edge is passed to the callback.
    pub send_edge: bool,
}

/// Software PWM configuration of an output pin.
#[derive(Clone, Copy, Debug, PartialEq, Eq, Structural)]
pub struct PwmConfig {
    /// Frequency in microhertz.
    pub frequency: i64,
    /// Duty cycle in micropercent (of the logical waveform).
    pub duty_cycle: i64,
    /// The pin's convention; an active-low pin realises its waveform by
    /// complementing the duty cycle.
    pub logic_level: LogicLevel,
    /// Whether the waveform is currently running.
    pub is_active: bool,
}

/// Hardware effect of (re)applying a pin's software PWM configuration.
#[derive(Clone, Copy, Debug, PartialEq, Eq, Structural)]
pub enum SoftPwmCommand {
    /// Program the line driver with this frequency (microhertz) and
    /// effective duty cycle (micropercent, already complemented for an
    /// active-low pin).
    Program { frequency_uhz: i64, duty_cycle_upct: i64 },
    /// Stop the waveform and drive the line to the pin's resting level
    /// (the physical realisation of logical LOW).
    Stop { physical_high: bool },
}

/// Hardware teardown required after a pin was removed from the registry.
#[derive(Clone, Copy, Debug, PartialEq, Eq, Structural)]
pub enum ResetAction {
    /// The pin was not registered; nothing to do.
    NotPresent,
    /// An input pin was released: clear any edge interrupt, mark the line
    /// to reset on release, and drop the handle.
    Input { had_callbacks: bool },
    /// An output pin with a software PWM configuration was released: clear
    /// the waveform, drive the resting level, mark to reset, and drop.
    OutputPwm { physical_high: bool },
    /// A plain output pin was released: drive the resting level (logical
    /// LOW), mark to reset, and drop.
    Output { physical_high: bool },
}

/// A software PWM configuration within range.
pub open spec fn spec_pwm_config_valid(cfg: PwmConfig) -> bool {
    &&& 0 <= cfg.frequency
    &&& 0 <= cfg.duty_cycle <= DUTY_FULL_UPCT
}

/// A callback list as stored per pin: non-empty, with identities that are
/// pairwise distinct and below the registry's id counter.
pub open spec fn spec_callback_list_valid(list: Seq<CallbackRecord>, next_id: u64) -> bool {
    &&& list.len() > 0
    &&& forall|i: int| 0 <= i < list.len() ==> #[trigger] list[i].id < next_id
    &&& forall|i: int, j: int| 0 <= i < j < list.len() ==> list[i].id != list[j].id
}

/// The hardware effect of a pin's software PWM configuration: program the
/// effective waveform while active, otherwise stop and rest at logical LOW.
pub open spec fn spec_soft_pwm_command(cfg: PwmConfig) -> SoftPwmCommand {
    if cfg.is_active {
        SoftPwmCommand::Program {
            frequency_uhz: cfg.frequency,
            duty_cycle_upct: if cfg.logic_level is LOW {
                (DUTY_FULL_UPCT - cfg.duty_cycle) as i64
            } else {
                cfg.duty_cycle
            },
        }
    } else {
        SoftPwmCommand::Stop {
            physical_high: spec_physical_of_logical(cfg.logic_level, PinState::LOW),
        }
    }
}

/// The exclusive-ownership map from pin number to role and configuration.
pub struct PinManager {
    input_pins: VecMap<InputPinConfig>,
    output_pins: VecMap<OutputPinConfig>,
    callbacks: VecMap<Vec<CallbackRecord>>,
    pwm_setup: VecMap<PwmConfig>,
    next_callback_id: u64,
}

impl PinManager {
    /// The claimed input pins.
    pub closed spec fn inputs(self) -> Map<u8, InputPinConfig> {
        self.input_pins@
    }

    /// The claimed output pins.
    pub closed spec fn outputs(self) -> Map<u8, OutputPinConfig> {
        self.output_pins@
    }

    /// The callback lists, keyed by input pin.
    pub closed spec fn callback_lists(self) -> Map<u8, Seq<CallbackRecord>> {
        self.callbacks@.map_values(|v: Vec<CallbackRecord>| v@)
    }

    /// The software PWM configurations, keyed by output pin.
    pub closed spec fn pwm(self) -> Map<u8, PwmConfig> {
        self.pwm_setup@
    }

    /// The next callback identity to hand out.
    pub closed spec fn next_id(self) -> u64 {
        self.next_callback_id
    }

    /// Well-formedness, maintained by every operation:
    /// - a pin is in at most one of the input and output roles;
    /// - a software PWM configuration exists only for an output pin, and
    ///   is within range;
    /// - callbacks exist only for input pins, in non-empty lists with
    ///   distinct identities below the id counter.
    pub closed spec fn wf(self) -> bool {
        &&& self.input_pins.wf()
        &&& self.output_pins.wf()
        &&& self.callbacks.wf()
        &&& self.pwm_setup.wf()
        &&& forall|p: u8| #[trigger]
            self.inputs().contains_key(p) ==> !self.outputs().contains_key(p)
        &&& forall|p: u8| #[trigger]
            self.pwm().contains_key(p) ==> self.outputs().contains_key(p)
        &&& forall|p: u8| #[trigger]
            self.callback_lists().contains_key(p) ==> self.inputs().contains_key(p)
        &&& forall|p: u8| #[trigger]
            self.pwm().contains_key(p) ==> spec_pwm_config_valid(self.pwm()[p])
        &&& forall|p: u8| #[trigger]
            self.callback_lists().contains_key(p) ==> spec_callback_list_valid(
                self.callback_lists()[p],
                self.next_callback_id,
            )
    }

    /// Role exclusivity as a statement about the abstract state: a pin is
    /// in at most one of the input and output roles, and a software PWM
    /// configuration exists only while its pin is an output.
    pub open spec fn spec_exclusive(self) -> bool {
        &&& forall|p: u8|
            !(#[trigger] self.inputs().contains_key(p) && self.outputs().contains_key(p))
        &&& forall|p: u8| #[trigger]
            self.pwm().contains_key(p) ==> self.outputs().contains_key(p)
    }

    /// Exclusivity: every well-formed registry keeps each pin in at most
    /// one of the input and output roles, with software PWM only on
    /// outputs. Since the constructor establishes well-formedness and
    /// every operation preserves it, this holds after any sequence of
    /// calls.
    pub proof fn lemma_exclusivity(self)
        requires
            self.wf(),
        ensures
            self.spec_exclusive(),
    {
    }

    /// No pin claimed by this registry is routed to a hardware PWM
    /// channel of `hw`.
    pub open spec fn spec_disjoint_from_hw(self, hw: PWMManager) -> bool {
        &&& forall|p: u8| #[trigger] self.inputs().contains_key(p) ==> !hw.spec_routes_pin(p)
        &&& forall|p: u8| #[trigger] self.outputs().contains_key(p) ==> !hw.spec_routes_pin(p)
    }

    /// Creates an empty registry.
    pub fn new() -> (m: PinManager)
        ensures
            m.wf(),
            m.inputs() == Map::<u8, InputPinConfig>::empty(),
            m.outputs() == Map::<u8, OutputPinConfig>::empty(),
            m.callback_lists() == Map::<u8, Seq<CallbackRecord>>::empty(),
            m.pwm() == Map::<u8, PwmConfig>::empty(),
            m.next_id() == 0,
    {
        let m = PinManager {
            input_pins: VecMap::new(),
            output_pins: VecMap::new(),
            callbacks: VecMap::new(),
            pwm_setup: VecMap::new(),
            next_callback_id: 0,
        };
        proof {
            assert(m.callback_lists() =~= Map::<u8, Seq<CallbackRecord>>::empty());
        }
        m
    }

    /// Whether `pin_num` is currently an input pin.
    pub fn is_input_pin(&self, pin_num: u8) -> (r: bool)
        requires
            self.wf(),
        ensures
            r == self.inputs().contains_key(pin_num),
    {
        self.input_pins.contains_key(pin_num)
    }

    /// Whether `pin_num` is currently an output pin.
    pub fn is_output_pin(&self, pin_num: u8) -> (r: bool)
        requires
            self.wf(),
        ensures
            r == self.outputs().contains_key(pin_num),
    {
        self.output_pins.contains_key(pin_num)
    }

    /// Claims `pin_num` as an input pin. Fails with `Conflict` when the
    /// pin is routed to a hardware PWM channel or already an output pin;
    /// re-claiming an input pin replaces its configuration (existing
    /// callbacks stay attached). Returns the resolved pull configuration
    /// for the shell to claim the line with.
    pub fn add_input_pin(
        &mut self,
        pin_num: u8,
        pull_resistor_state: InternPullResistorState,
        logic_level: LogicLevel,
        reset_on_exit: bool,
        hw: &PWMManager,
    ) -> (r: Result<ResolvedPull, PinError>)
        requires
            old(self).wf(),
            hw.wf(),
        ensures
            final(self).wf(),
            final(self).next_id() == old(self).next_id(),
            r is Ok <==> (!hw.spec_routes_pin(pin_num) && !old(self).outputs().contains_key(
                pin_num,
            )),
            r matches Err(e) ==> e == PinError::Conflict && *final(self) == *old(self),
            r matches Ok(pull) ==> {
                &&& pull == spec_resolve_pull(pull_resistor_state, logic_level)
                &&& final(self).inputs() == old(self).inputs().insert(
                    pin_num,
                    (InputPinConfig {
                        logic_level,
                        pull: spec_resolve_pull(pull_resistor_state, logic_level),
                        reset_on_exit,
                    }),
                )
                &&& final(self).outputs() == old(self).outputs()
                &&& final(self).callback_lists() == old(self).callback_lists()
                &&& final(self).pwm() == old(self).pwm()
            },
            old(self).spec_disjoint_from_hw(*hw) ==> final(self).spec_disjoint_from_hw(*hw),
    {
        if hw.is_pin_pwm(pin_num) {
            return Err(PinError::Conflict);
        }
        if self.output_pins.contains_key(pin_num) {
            return Err(PinError::Conflict);
        }
        let pull = resolve_pull(pull_resistor_state, logic_level);
        self.input_pins.insert(
            pin_num,
            InputPinConfig { logic_level, pull, reset_on_exit },
        );
        proof {
            assert(self.pwm() == old(self).pwm());
            assert(self.outputs() == old(self).outputs());
            assert(self.callback_lists() == old(self).callback_lists());
            assert(self.next_id() == old(self).next_id());
            assert(self.inputs() == old(self).inputs().insert(
                pin_num,
                InputPinConfig {
                    logic_level,
                    pull: spec_resolve_pull(pull_resistor_state, logic_level),
                    reset_on_exit,
                },
            ));
            assert forall|p: u8| #[trigger]
                self.inputs().contains_key(p) implies !self.outputs().contains_key(p) by {
                if p != pin_num {
                    assert(old(self).inputs().contains_key(p));
                }
            }
            assert forall|p: u8| #[trigger]
                self.callback_lists().contains_key(p) implies self.inputs().contains_key(p) by {
                assert(old(self).callback_lists().contains_key(p));
            }
            if old(self).spec_disjoint_from_hw(*hw) {
                assert forall|p: u8| #[trigger]
                    self.inputs().contains_key(p) implies !hw.spec_routes_pin(p) by {
                    if p != pin_num {
                        assert(old(self).inputs().contains_key(p));
                    }
                }
            }
        }
        Ok(pull)
    }

    /// Claims `pin_num` as an output pin, initially driven to the physical
    /// realisation of `pin_state` under `logic_level`. Fails with
    /// `Conflict` when the pin is routed to a hardware PWM channel or
    /// already an input pin; re-claiming an output pin replaces its
    /// configuration. Returns the physical level to drive.
    pub fn add_output_pin(
        &mut self,
        pin_num: u8,
        pin_state: PinState,
        logic_level: LogicLevel,
        reset_on_exit: bool,
        hw: &PWMManager,
    ) -> (r: Result<bool, PinError>)
        requires
            old(self).wf(),
            hw.wf(),
        ensures
            final(self).wf(),
            final(self).next_id() == old(self).next_id(),
            r is Ok <==> (!hw.spec_routes_pin(pin_num) && !old(self).inputs().contains_key(
                pin_num,
            )),
            r matches Err(e) ==> e == PinError::Conflict && *final(self) == *old(self),
            r matches Ok(physical_high) ==> {
                &&& physical_high == spec_physical_of_logical(logic_level, pin_state)
                &&& final(self).outputs() == old(self).outputs().insert(
                    pin_num,
                    (OutputPinConfig {
                        logic_level,
                        reset_on_exit,
                        physical_high: spec_physical_of_logical(logic_level, pin_state),
                    }),
                )
                &&& final(self).inputs() == old(self).inputs()
                &&& final(self).callback_lists() == old(self).callback_lists()
                &&& final(self).pwm() == old(self).pwm()
            },
            old(self).spec_disjoint_from_hw(*hw) ==> final(self).spec_disjoint_from_hw(*hw),
    {
        if hw.is_pin_pwm(pin_num) {
            return Err(PinError::Conflict);
        }
        if self.input_pins.contains_key(pin_num) {
            return Err(PinError::Conflict);
        }
        let physical_high = physical_of_logical(logic_level, pin_state);
        self.output_pins.insert(
            pin_num,
            OutputPinConfig { logic_level, reset_on_exit, physical_high },
        );
        proof {
            assert(self.inputs() == old(self).inputs());
            assert(self.callback_lists() == old(self).callback_lists());
            assert(self.pwm() == old(self).pwm());
            assert(self.next_id() == old(self).next_id());
            assert forall|p: u8| #[trigger]
                self.inputs().contains_key(p) implies !self.outputs().contains_key(p) by {
                assert(!old(self).inputs().contains_key(pin_num));
            }
            assert forall|p: u8| #[trigger]
                self.pwm().contains_key(p) implies self.outputs().contains_key(p) by {
                assert(old(self).pwm().contains_key(p));
            }
            if old(self).spec_disjoint_from_hw(*hw) {
                assert forall|p: u8| #[trigger]
                    self.outputs().contains_key(p) implies !hw.spec_routes_pin(p) by {
                    if p != pin_num {
                        assert(old(self).outputs().contains_key(p));
                    }
                }
            }
        }
        Ok(physical_high)
    }

    /// Sets the reset-on-release flag of a claimed pin (either role).
    pub fn set_reset_on_exit(&mut self, pin_num: u8, reset_on_exit: bool) -> (r: Result<
        (),
        PinError,
    >)
        requires
            old(self).wf(),
        ensures
            final(self).wf(),
            final(self).next_id() == old(self).next_id(),
            r is Ok <==> (old(self).outputs().contains_key(pin_num) || old(
                self,
            ).inputs().contains_key(pin_num)),
            r matches Err(e) ==> e == PinError::NotConfigured && *final(self) == *old(self),
            old(self).outputs().contains_key(pin_num) ==> {
                &&& final(self).outputs() == old(self).outputs().insert(
                    pin_num,
                    (OutputPinConfig {
                        reset_on_exit,
                        ..old(self).outputs()[pin_num]
                    }),
                )
                &&& final(self).inputs() == old(self).inputs()
            },
            (!old(self).outputs().contains_key(pin_num) && old(self).inputs().contains_key(
                pin_num,
            )) ==> {
                &&& final(self).inputs() == old(self).inputs().insert(
                    pin_num,
                    (InputPinConfig {
                        reset_on_exit,
                        ..old(self).inputs()[pin_num]
                    }),
                )
                &&& final(self).outputs() == old(self).outputs()
            },
            final(self).callback_lists() == old(self).callback_lists(),
            final(self).pwm() == old(self).pwm(),
    {
        match self.output_pins.get(pin_num) {
            Some(cfg) => {
                let updated = OutputPinConfig { reset_on_exit, ..*cfg };
                self.output_pins.insert(pin_num, updated);
                proof {
                    assert(self.inputs() == old(self).inputs());
                    assert(self.callback_lists() == old(self).callback_lists());
                    assert(self.pwm() == old(self).pwm());
                    assert(self.next_id() == old(self).next_id());
                    assert forall|p: u8| #[trigger]
                        self.inputs().contains_key(p) implies !self.outputs().contains_key(p) by {
                        if p == pin_num {
                            assert(old(self).outputs().contains_key(pin_num));
                        }
                    }
                    assert forall|p: u8| #[trigger]
                        self.pwm().contains_key(p) implies self.outputs().contains_key(p) by {
                        assert(old(self).outputs().contains_key(p));
                    }
                }
                Ok(())
            },
            None => match self.input_pins.get(pin_num) {
                Some(cfg) => {
                    let updated = InputPinConfig { reset_on_exit, ..*cfg };
                    self.input_pins.insert(pin_num, updated);
                    proof {
                        assert(self.outputs() == old(self).outputs());
                        assert(self.callback_lists() == old(self).callback_lists());
                        assert(self.pwm() == old(self).pwm());
                        assert(self.next_id() == old(self).next_id());
                        assert forall|p: u8| #[trigger]
                            self.inputs().contains_key(p) implies !self.outputs().contains_key(
                            p,
                        ) by {
                            if p != pin_num {
                                assert(old(self).inputs().contains_key(p));
                            }
                        }
                        assert forall|p: u8| #[trigger]
                            self.callback_lists().contains_key(p) implies self.inputs().contains_key(
                            p,
                        ) by {
                            assert(old(self).inputs().contains_key(p));
                        }
                    }
                    Ok(())
                },
                None => Err(PinError::NotConfigured),
            },
        }
    }

    /// Reads an input pin: translates the sampled physical level through
    /// the pin's logic level. Fails with `Conflict` on an output pin and
    /// `NotConfigured` on an unclaimed pin.
    pub fn get_pin(&self, pin_num: u8, physical_high: bool) -> (r: Result<PinState, PinError>)
        requires
            self.wf(),
        ensures
            r is Ok <==> (!self.outputs().contains_key(pin_num) && self.inputs().contains_key(
                pin_num,
            )),
            self.outputs().contains_key(pin_num) ==> r == Err::<PinState, PinError>(
                PinError::Conflict,
            ),
            (!self.outputs().contains_key(pin_num) && !self.inputs().contains_key(pin_num))
                ==> r == Err::<PinState, PinError>(PinError::NotConfigured),
            r matches Ok(state) ==> state == spec_logical_of_physical(
                self.inputs()[pin_num].logic_level,
                physical_high,
            ),
    {
        if self.output_pins.contains_key(pin_num) {
            return Err(PinError::Conflict);
        }
        match self.input_pins.get(pin_num) {
            Some(cfg) => Ok(logical_of_physical(cfg.logic_level, physical_high)),
            None => Err(PinError::NotConfigured),
        }
    }

    /// The hardware command that realises the current software PWM
    /// configuration of `pwm_pin`: the effective waveform while active
    /// (an active-low pin complements its duty cycle), or a stop at the
    /// resting level. Fails with `NotConfigured` when no configuration
    /// exists.
    pub fn set_pwm(&self, pwm_pin: u8) -> (r: Result<SoftPwmCommand, PinError>)
        requires
            self.wf(),
        ensures
            r is Ok <==> self.pwm().contains_key(pwm_pin),
            r matches Ok(cmd) ==> cmd == spec_soft_pwm_command(self.pwm()[pwm_pin]),
            r matches Err(e) ==> e == PinError::NotConfigured,
    {
        match self.pwm_setup.get(pwm_pin) {
            Some(cfg) => {
                if cfg.is_active {
                    let duty_cycle_upct: i64 = match cfg.logic_level {
                        LogicLevel::LOW => DUTY_FULL_UPCT - cfg.duty_cycle,
                        LogicLevel::HIGH => cfg.duty_cycle,
                    };
                    Ok(SoftPwmCommand::Program { frequency_uhz: cfg.frequency, duty_cycle_upct })
                } else {
                    Ok(
                        SoftPwmCommand::Stop {
                            physical_high: physical_of_logical(cfg.logic_level, PinState::LOW),
                        },
                    )
                }
            },
            None => Err(PinError::NotConfigured),
        }
    }

    /// Configures software PWM on a free pin: validates the four optional
    /// waveform inputs, claims the pin as an output resting at logical
    /// LOW, and stores the derived configuration, inactive. Fails with
    /// `Conflict` when the pin is hardware-PWM-routed, already PWM
    /// configured, or claimed in either GPIO role, and with
    /// `InvalidParameter` when the inputs are out of range or
    /// inconsistent. Validation precedes every mutation. Returns the
    /// physical level to drive on the newly claimed line.
    pub fn setup_pwm(
        &mut self,
        pin_num: u8,
        frequency_uhz: &Option<i64>,
        duty_cycle_upct: &Option<i64>,
        period_ns: &Option<i64>,
        pulse_width_ns: &Option<i64>,
        logic_level: LogicLevel,
        reset_on_exit: bool,
        hw: &PWMManager,
    ) -> (r: Result<bool, PinError>)
        requires
            old(self).wf(),
            hw.wf(),
        ensures
            final(self).wf(),
            final(self).next_id() == old(self).next_id(),
            r is Ok <==> (!hw.spec_routes_pin(pin_num) && spec_pwm_derivable(
                *frequency_uhz,
                *duty_cycle_upct,
                *period_ns,
                *pulse_width_ns,
            ) && !old(self).pwm().contains_key(pin_num) && !old(self).inputs().contains_key(
                pin_num,
            ) && !old(self).outputs().contains_key(pin_num)),
            r is Err ==> *final(self) == *old(self),
            hw.spec_routes_pin(pin_num) ==> r == Err::<bool, PinError>(PinError::Conflict),
            (!hw.spec_routes_pin(pin_num) && !spec_pwm_args_valid(
                *frequency_uhz,
                *duty_cycle_upct,
                *period_ns,
                *pulse_width_ns,
            )) ==> r == Err::<bool, PinError>(PinError::InvalidParameter),
            (!hw.spec_routes_pin(pin_num) && spec_pwm_args_valid(
                *frequency_uhz,
                *duty_cycle_upct,
                *period_ns,
                *pulse_width_ns,
            ) && (old(self).pwm().contains_key(pin_num) || old(self).inputs().contains_key(
                pin_num,
            ) || old(self).outputs().contains_key(pin_num))) ==> r == Err::<bool, PinError>(
                PinError::Conflict,
            ),
            r matches Ok(physical_high) ==> {
                &&& physical_high == spec_physical_of_logical(logic_level, PinState::LOW)
                &&& final(self).outputs() == old(self).outputs().insert(
                    pin_num,
                    (OutputPinConfig {
                        logic_level,
                        reset_on_exit,
                        physical_high: spec_physical_of_logical(logic_level, PinState::LOW),
                    }),
                )
                &&& final(self).pwm() == old(self).pwm().insert(
                    pin_num,
                    (PwmConfig {
                        frequency: spec_derived_frequency(*frequency_uhz, *period_ns) as i64,
                        duty_cycle: spec_derived_duty(
                            *duty_cycle_upct,
                            *pulse_width_ns,
                            spec_derived_frequency(*frequency_uhz, *period_ns),
                        ) as i64,
                        logic_level,
                        is_active: false,
                    }),
                )
                &&& final(self).inputs() == old(self).inputs()
                &&& final(self).callback_lists() == old(self).callback_lists()
            },
            old(self).spec_disjoint_from_hw(*hw) ==> final(self).spec_disjoint_from_hw(*hw),
    {
        if hw.is_pin_pwm(pin_num) {
            return Err(PinError::Conflict);
        }
        match crate::pwm::check_pwm_values(
            frequency_uhz,
            duty_cycle_upct,
            period_ns,
            pulse_width_ns,
        ) {
            Ok(()) => (),
            Err(e) => {
                return Err(e);
            },
        }
        if self.pwm_setup.contains_key(pin_num) {
            return Err(PinError::Conflict);
        }
        if self.input_pins.contains_key(pin_num) {
            return Err(PinError::Conflict);
        }
        if self.output_pins.contains_key(pin_num) {
            return Err(PinError::Conflict);
        }
        let derived = match derive_pwm_config(
            frequency_uhz,
            duty_cycle_upct,
            period_ns,
            pulse_width_ns,
        ) {
            Ok(c) => c,
            Err(e) => {
                return Err(e);
            },
        };
        let physical_high = physical_of_logical(logic_level, PinState::LOW);
        self.output_pins.insert(
            pin_num,
            OutputPinConfig { logic_level, reset_on_exit, physical_high },
        );
        self.pwm_setup.insert(
            pin_num,
            PwmConfig {
                frequency: derived.0,
                duty_cycle: derived.1,
                logic_level,
                is_active: false,
            },
        );
        proof {
            assert(self.inputs() == old(self).inputs());
            assert(self.callback_lists() == old(self).callback_lists());
            assert(self.next_id() == old(self).next_id());
            assert forall|p: u8| #[trigger]
                self.inputs().contains_key(p) implies !self.outputs().contains_key(p) by {
                assert(!old(self).inputs().contains_key(pin_num));
            }
            assert forall|p: u8| #[trigger]
                self.pwm().contains_key(p) implies self.outputs().contains_key(p) by {
                if p != pin_num {
                    assert(old(self).pwm().contains_key(p));
                }
            }
            assert forall|p: u8| #[trigger]
                self.pwm().contains_key(p) implies spec_pwm_config_valid(self.pwm()[p]) by {
                if p != pin_num {
                    assert(old(self).pwm().contains_key(p));
                }
            }
            if old(self).spec_disjoint_from_hw(*hw) {
                assert forall|p: u8| #[trigger]
                    self.outputs().contains_key(p) implies !hw.spec_routes_pin(p) by {
                    if p != pin_num {
                        assert(old(self).outputs().contains_key(p));
                    }
                }
            }
        }
        Ok(physical_high)
    }

    /// Sets the duty cycle (micropercent) of a pin's software PWM
    /// configuration and returns the command that reapplies the waveform.
    pub fn set_pwm_duty_cycle(&mut self, pin_num: u8, duty_cycle_upct: i64) -> (r: Result<
        SoftPwmCommand,
        PinError,
    >)
        requires
            old(self).wf(),
        ensures
            final(self).wf(),
            final(self).next_id() == old(self).next_id(),
            r is Err ==> *final(self) == *old(self),
            !(0 <= duty_cycle_upct <= DUTY_FULL_UPCT) ==> r == Err::<SoftPwmCommand, PinError>(
                PinError::InvalidParameter,
            ),
            (0 <= duty_cycle_upct <= DUTY_FULL_UPCT && !old(self).pwm().contains_key(pin_num))
                ==> r == Err::<SoftPwmCommand, PinError>(PinError::NotConfigured),
            r is Ok <==> (0 <= duty_cycle_upct <= DUTY_FULL_UPCT && old(self).pwm().contains_key(
                pin_num,
            )),
            r matches Ok(cmd) ==> {
                &&& final(self).pwm() == old(self).pwm().insert(
                    pin_num,
                    (PwmConfig {
                        duty_cycle: duty_cycle_upct,
                        ..old(self).pwm()[pin_num]
                    }),
                )
                &&& cmd == spec_soft_pwm_command(final(self).pwm()[pin_num])
                &&& final(self).inputs() == old(self).inputs()
                &&& final(self).outputs() == old(self).outputs()
                &&& final(self).callback_lists() == old(self).callback_lists()
            },
    {
        if duty_cycle_upct > DUTY_FULL_UPCT || duty_cycle_upct < 0 {
            return Err(PinError::InvalidParameter);
        }
        match self.pwm_setup.get(pin_num) {
            Some(cfg) => {
                let updated = PwmConfig { duty_cycle: duty_cycle_upct, ..*cfg };
                self.pwm_setup.insert(pin_num, updated);
                proof {
                    assert(self.inputs() == old(self).inputs());
                    assert(self.outputs() == old(self).outputs());
                    assert(self.callback_lists() == old(self).callback_lists());
                    self.lemma_wf_after_pwm_update(*old(self), pin_num, updated);
                }
                let cmd = match self.set_pwm(pin_num) {
                    Ok(c) => c,
                    Err(e) => {
                        proof {
                            assert(false);
                        }
                        return Err(e);
                    },
                };
                Ok(cmd)
            },
            None => Err(PinError::NotConfigured),
        }
    }

    /// Sets the frequency (microhertz) of a pin's software PWM
    /// configuration; it must be non-negative. Returns the reapply
    /// command.
    pub fn set_pwm_frequency(&mut self, pin_num: u8, frequency_uhz: i64) -> (r: Result<
        SoftPwmCommand,
        PinError,
    >)
        requires
            old(self).wf(),
        ensures
            final(self).wf(),
            final(self).next_id() == old(self).next_id(),
            r is Err ==> *final(self) == *old(self),
            frequency_uhz < 0 ==> r == Err::<SoftPwmCommand, PinError>(PinError::InvalidParameter),
            (frequency_uhz >= 0 && !old(self).pwm().contains_key(pin_num)) ==> r == Err::<
                SoftPwmCommand,
                PinError,
            >(PinError::NotConfigured),
            r is Ok <==> (frequency_uhz >= 0 && old(self).pwm().contains_key(pin_num)),
            r matches Ok(cmd) ==> {
                &&& final(self).pwm() == old(self).pwm().insert(
                    pin_num,
                    (PwmConfig {
                        frequency: frequency_uhz,
                        ..old(self).pwm()[pin_num]
                    }),
                )
                &&& cmd == spec_soft_pwm_command(final(self).pwm()[pin_num])
                &&& final(self).inputs() == old(self).inputs()
                &&& final(self).outputs() == old(self).outputs()
                &&& final(self).callback_lists() == old(self).callback_lists()
            },
    {
        if frequency_uhz < 0 {
            return Err(PinError::InvalidParameter);
        }
        match self.pwm_setup.get(pin_num) {
            Some(cfg) => {
                let updated = PwmConfig { frequency: frequency_uhz, ..*cfg };
                self.pwm_setup.insert(pin_num, updated);
                proof {
                    assert(self.inputs() == old(self).inputs());
                    assert(self.outputs() == old(self).outputs());
                    assert(self.callback_lists() == old(self).callback_lists());
                    self.lemma_wf_after_pwm_update(*old(self), pin_num, updated);
                }
                let cmd = match self.set_pwm(pin_num) {
                    Ok(c) => c,
                    Err(e) => {
                        proof {
                            assert(false);
                        }
                        return Err(e);
                    },
                };
                Ok(cmd)
            },
            None => Err(PinError::NotConfigured),
        }
    }

    /// Sets the period (nanoseconds) of a pin's software PWM
    /// configuration; it must be positive, and determines the frequency
    /// by the reciprocal relation. Returns the reapply command.
    pub fn set_pwm_period(&mut self, pin_num: u8, period_ns: i64) -> (r: Result<
        SoftPwmCommand,
        PinError,
    >)
        requires
            old(self).wf(),
        ensures
            final(self).wf(),
            final(self).next_id() == old(self).next_id(),
            r is Err ==> *final(self) == *old(self),
            period_ns <= 0 ==> r == Err::<SoftPwmCommand, PinError>(PinError::InvalidParameter),
            (period_ns > 0 && !old(self).pwm().contains_key(pin_num)) ==> r == Err::<
                SoftPwmCommand,
                PinError,
            >(PinError::NotConfigured),
            r is Ok <==> (period_ns > 0 && old(self).pwm().contains_key(pin_num)),
            r matches Ok(cmd) ==> {
                &&& final(self).pwm() == old(self).pwm().insert(
                    pin_num,
                    (PwmConfig {
                        frequency: (RECIPROCAL_DIVIDEND as int / period_ns as int) as i64,
                        ..old(self).pwm()[pin_num]
                    }),
                )
                &&& cmd == spec_soft_pwm_command(final(self).pwm()[pin_num])
                &&& final(self).inputs() == old(self).inputs()
                &&& final(self).outputs() == old(self).outputs()
                &&& final(self).callback_lists() == old(self).callback_lists()
            },
    {
        if period_ns <= 0 {
            return Err(PinError::InvalidParameter);
        }
        match self.pwm_setup.get(pin_num) {
            Some(cfg) => {
                let frequency: i64 = RECIPROCAL_DIVIDEND / period_ns;
                proof {
                    vstd::arithmetic::div_mod::lemma_div_pos_is_pos(
                        RECIPROCAL_DIVIDEND as int,
                        period_ns as int,
                    );
                }
                let updated = PwmConfig { frequency, ..*cfg };
                self.pwm_setup.insert(pin_num, updated);
                proof {
                    assert(self.inputs() == old(self).inputs());
                    assert(self.outputs() == old(self).outputs());
                    assert(self.callback_lists() == old(self).callback_lists());
                    self.lemma_wf_after_pwm_update(*old(self), pin_num, updated);
                }
                let cmd = match self.set_pwm(pin_num) {
                    Ok(c) => c,
                    Err(e) => {
                        proof {
                            assert(false);
                        }
                        return Err(e);
                    },
                };
                Ok(cmd)
            },
            None => Err(PinError::NotConfigured),
        }
    }

    /// Sets the pulse width (nanoseconds) of a pin's software PWM
    /// configuration. The pulse must not be wider than the period derived
    /// from the stored frequency; it determines the duty cycle (zero when
    /// the stored frequency is zero). Returns the reapply command.
    pub fn set_pwm_pulse_width(&mut self, pin_num: u8, pulse_width_ns: i64) -> (r: Result<
        SoftPwmCommand,
        PinError,
    >)
        requires
            old(self).wf(),
        ensures
            final(self).wf(),
            final(self).next_id() == old(self).next_id(),
            r is Err ==> *final(self) == *old(self),
            pulse_width_ns < 0 ==> r == Err::<SoftPwmCommand, PinError>(
                PinError::InvalidParameter,
            ),
            (pulse_width_ns >= 0 && !old(self).pwm().contains_key(pin_num)) ==> r == Err::<
                SoftPwmCommand,
                PinError,
            >(PinError::NotConfigured),
            (pulse_width_ns >= 0 && old(self).pwm().contains_key(pin_num) && old(
                self,
            ).pwm()[pin_num].frequency > 0 && pulse_width_ns * old(self).pwm()[pin_num].frequency
                > RECIPROCAL_DIVIDEND) ==> r == Err::<SoftPwmCommand, PinError>(
                PinError::InvalidParameter,
            ),
            r is Ok <==> (pulse_width_ns >= 0 && old(self).pwm().contains_key(pin_num) && !(old(
                self,
            ).pwm()[pin_num].frequency > 0 && pulse_width_ns * old(self).pwm()[pin_num].frequency
                > RECIPROCAL_DIVIDEND)),
            r matches Ok(cmd) ==> {
                &&& final(self).pwm() == old(self).pwm().insert(
                    pin_num,
                    (PwmConfig {
                        duty_cycle: if old(self).pwm()[pin_num].frequency > 0 {
                            (pulse_width_ns * old(self).pwm()[pin_num].frequency / (
                            DUTY_DIVISOR as int)) as i64
                        } else {
                            0
                        },
                        ..old(self).pwm()[pin_num]
                    }),
                )
                &&& cmd == spec_soft_pwm_command(final(self).pwm()[pin_num])
                &&& final(self).inputs() == old(self).inputs()
                &&& final(self).outputs() == old(self).outputs()
                &&& final(self).callback_lists() == old(self).callback_lists()
            },
    {
        if pulse_width_ns < 0 {
            return Err(PinError::InvalidParameter);
        }
        match self.pwm_setup.get(pin_num) {
            Some(cfg) => {
                let duty_cycle: i64 = if cfg.frequency > 0 {
                    proof {
                        assert(0 <= (pulse_width_ns as int) * (cfg.frequency as int) <= i64::MAX
                            * i64::MAX) by (nonlinear_arith)
                            requires
                                0 <= pulse_width_ns <= i64::MAX,
                                0 < cfg.frequency <= i64::MAX,
                        ;
                    }
                    let scaled: i128 = (pulse_width_ns as i128) * (cfg.frequency as i128);
                    if scaled > RECIPROCAL_DIVIDEND as i128 {
                        return Err(PinError::InvalidParameter);
                    }
                    proof {
                        vstd::arithmetic::div_mod::lemma_div_is_ordered(
                            pulse_width_ns * cfg.frequency as int,
                            RECIPROCAL_DIVIDEND as int,
                            DUTY_DIVISOR as int,
                        );
                        vstd::arithmetic::div_mod::lemma_div_pos_is_pos(
                            pulse_width_ns * cfg.frequency as int,
                            DUTY_DIVISOR as int,
                        );
                        assert(RECIPROCAL_DIVIDEND as int / DUTY_DIVISOR as int == DUTY_FULL_UPCT);
                    }
                    (scaled / DUTY_DIVISOR as i128) as i64
                } else {
                    0
                };
                let updated = PwmConfig { duty_cycle, ..*cfg };
                self.pwm_setup.insert(pin_num, updated);
                proof {
                    assert(self.inputs() == old(self).inputs());
                    assert(self.outputs() == old(self).outputs());
                    assert(self.callback_lists() == old(self).callback_lists());
                    self.lemma_wf_after_pwm_update(*old(self), pin_num, updated);
                }
                let cmd = match self.set_pwm(pin_num) {
                    Ok(c) => c,
                    Err(e) => {
                        proof {
                            assert(false);
                        }
                        return Err(e);
                    },
                };
                Ok(cmd)
            },
            None => Err(PinError::NotConfigured),
        }
    }

    /// Marks a pin's software PWM configuration active and returns the
    /// command that programs the waveform.
    pub fn start_pwm(&mut self, pin_num: u8) -> (r: Result<SoftPwmCommand, PinError>)
        requires
            old(self).wf(),
        ensures
            final(self).wf(),
            final(self).next_id() == old(self).next_id(),
            r is Ok <==> old(self).pwm().contains_key(pin_num),
            r matches Err(e) ==> e == PinError::NotConfigured && *final(self) == *old(self),
            r matches Ok(cmd) ==> {
                &&& final(self).pwm() == old(self).pwm().insert(
                    pin_num,
                    (PwmConfig { is_active: true, ..old(self).pwm()[pin_num] }),
                )
                &&& cmd == spec_soft_pwm_command(final(self).pwm()[pin_num])
                &&& final(self).inputs() == old(self).inputs()
                &&& final(self).outputs() == old(self).outputs()
                &&& final(self).callback_lists() == old(self).callback_lists()
            },
    {
        match self.pwm_setup.get(pin_num) {
            Some(cfg) => {
                let updated = PwmConfig { is_active: true, ..*cfg };
                self.pwm_setup.insert(pin_num, updated);
                proof {
                    assert(self.inputs() == old(self).inputs());
                    assert(self.outputs() == old(self).outputs());
                    assert(self.callback_lists() == old(self).callback_lists());
                    self.lemma_wf_after_pwm_update(*old(self), pin_num, updated);
                }
                let cmd = match self.set_pwm(pin_num) {
                    Ok(c) => c,
                    Err(e) => {
                        proof {
                            assert(false);
                        }
                        return Err(e);
                    },
                };
                Ok(cmd)
            },
            None => Err(PinError::NotConfigured),
        }
    }

    /// Marks a pin's software PWM configuration inactive and returns the
    /// command that stops the waveform at the resting level.
    pub fn stop_pwm(&mut self, pin_num: u8) -> (r: Result<SoftPwmCommand, PinError>)
        requires
            old(self).wf(),
        ensures
            final(self).wf(),
            final(self).next_id() == old(self).next_id(),
            r is Ok <==> old(self).pwm().contains_key(pin_num),
            r matches Err(e) ==> e == PinError::NotConfigured && *final(self) == *old(self),
            r matches Ok(cmd) ==> {
                &&& final(self).pwm() == old(self).pwm().insert(
                    pin_num,
                    (PwmConfig { is_active: false, ..old(self).pwm()[pin_num] }),
                )
                &&& cmd == spec_soft_pwm_command(final(self).pwm()[pin_num])
                &&& final(self).inputs() == old(self).inputs()
                &&& final(self).outputs() == old(self).outputs()
                &&& final(self).callback_lists() == old(self).callback_lists()
            },
    {
        match self.pwm_setup.get(pin_num) {
            Some(cfg) => {
                let updated = PwmConfig { is_active: false, ..*cfg };
                self.pwm_setup.insert(pin_num, updated);
                proof {
                    assert(self.inputs() == old(self).inputs());
                    assert(self.outputs() == old(self).outputs());
                    assert(self.callback_lists() == old(self).callback_lists());
                    self.lemma_wf_after_pwm_update(*old(self), pin_num, updated);
                }
                let cmd = match self.set_pwm(pin_num) {
                    Ok(c) => c,
                    Err(e) => {
                        proof {
                            assert(false);
                        }
                        return Err(e);
                    },
                };
                Ok(cmd)
            },
            None => Err(PinError::NotConfigured),
        }
    }

    /// Drives an output pin to the physical realisation of `pin_state`.
    /// Fails with `Conflict` on an input pin or while a software PWM
    /// waveform is active on the pin (it must be stopped or reset first),
    /// and with `NotConfigured` on an unclaimed pin. Returns the physical
    /// level to drive.
    pub fn set_output_pin(&mut self, pin_num: u8, pin_state: PinState) -> (r: Result<
        bool,
        PinError,
    >)
        requires
            old(self).wf(),
        ensures
            final(self).wf(),
            final(self).next_id() == old(self).next_id(),
            r is Err ==> *final(self) == *old(self),
            old(self).inputs().contains_key(pin_num) ==> r == Err::<bool, PinError>(
                PinError::Conflict,
            ),
            (!old(self).inputs().contains_key(pin_num) && old(self).pwm().contains_key(pin_num)
                && old(self).pwm()[pin_num].is_active) ==> r == Err::<bool, PinError>(
                PinError::Conflict,
            ),
            (!old(self).inputs().contains_key(pin_num) && !(old(self).pwm().contains_key(pin_num)
                && old(self).pwm()[pin_num].is_active) && !old(self).outputs().contains_key(
                pin_num,
            )) ==> r == Err::<bool, PinError>(PinError::NotConfigured),
            r is Ok <==> (!old(self).inputs().contains_key(pin_num) && !(old(
                self,
            ).pwm().contains_key(pin_num) && old(self).pwm()[pin_num].is_active) && old(
                self,
            ).outputs().contains_key(pin_num)),
            r matches Ok(physical_high) ==> {
                &&& physical_high == spec_physical_of_logical(
                    old(self).outputs()[pin_num].logic_level,
                    pin_state,
                )
                &&& final(self).outputs() == old(self).outputs().insert(
                    pin_num,
                    (OutputPinConfig {
                        physical_high: spec_physical_of_logical(
                            old(self).outputs()[pin_num].logic_level,
                            pin_state,
                        ),
                        ..old(self).outputs()[pin_num]
                    }),
                )
                &&& final(self).inputs() == old(self).inputs()
                &&& final(self).callback_lists() == old(self).callback_lists()
                &&& final(self).pwm() == old(self).pwm()
            },
    {
        if self.input_pins.contains_key(pin_num) {
            return Err(PinError::Conflict);
        }
        let pwm_active = match self.pwm_setup.get(pin_num) {
            Some(cfg) => cfg.is_active,
            None => false,
        };
        if pwm_active {
            return Err(PinError::Conflict);
        }
        match self.output_pins.get(pin_num) {
            Some(cfg) => {
                let physical_high = physical_of_logical(cfg.logic_level, pin_state);
                let updated = OutputPinConfig { physical_high, ..*cfg };
                self.output_pins.insert(pin_num, updated);
                proof {
                    assert(self.inputs() == old(self).inputs());
                    assert(self.callback_lists() == old(self).callback_lists());
                    assert(self.pwm() == old(self).pwm());
                    assert(self.next_id() == old(self).next_id());
                    assert forall|p: u8| #[trigger]
                        self.inputs().contains_key(p) implies !self.outputs().contains_key(p) by {
                        if p == pin_num {
                            assert(old(self).outputs().contains_key(pin_num));
                        }
                    }
                    assert forall|p: u8| #[trigger]
                        self.pwm().contains_key(p) implies self.outputs().contains_key(p) by {
                        assert(old(self).outputs().contains_key(p));
                    }
                }
                Ok(physical_high)
            },
            None => Err(PinError::NotConfigured),
        }
    }

    /// Replacing one software PWM configuration with another in-range one
    /// keeps the registry well-formed.
    proof fn lemma_wf_after_pwm_update(self, pre: PinManager, pin_num: u8, cfg: PwmConfig)
        requires
            pre.wf(),
            pre.pwm().contains_key(pin_num),
            self.inputs() == pre.inputs(),
            self.outputs() == pre.outputs(),
            self.callback_lists() == pre.callback_lists(),
            self.next_id() == pre.next_id(),
            self.input_pins.wf(),
            self.output_pins.wf(),
            self.callbacks.wf(),
            self.pwm_setup.wf(),
            spec_pwm_config_valid(cfg),
            self.pwm() == pre.pwm().insert(pin_num, cfg),
        ensures
            self.wf(),
    {
        assert forall|p: u8| #[trigger]
            self.pwm().contains_key(p) implies self.outputs().contains_key(p) by {
            if p != pin_num {
                assert(pre.pwm().contains_key(p));
            }
        }
        assert forall|p: u8| #[trigger]
            self.pwm().contains_key(p) implies spec_pwm_config_valid(self.pwm()[p]) by {
            if p != pin_num {
                assert(pre.pwm().contains_key(p));
            }
        }
    }

    /// Registers a callback on an input pin. The requested edge is
    /// translated into the physical convention once, here. Returns the
    /// callback's identity and whether this is the pin's first callback —
    /// in which case the shell must install the one shared hardware edge
    /// interrupt (for both edges, with the caller's debounce window).
    /// Fails with `NotConfigured` when the pin is not an input pin, and
    /// with `InvalidParameter` in the unreachable case that the 64-bit
    /// identity counter is exhausted.
    pub fn assign_callback(
        &mut self,
        pin_num: u8,
        trigger_edge: TriggerEdge,
        send_time: bool,
        send_edge: bool,
    ) -> (r: Result<(u64, bool), PinError>)
        requires
            old(self).wf(),
        ensures
            final(self).wf(),
            r is Err ==> *final(self) == *old(self),
            !old(self).inputs().contains_key(pin_num) ==> r == Err::<(u64, bool), PinError>(
                PinError::NotConfigured,
            ),
            (old(self).inputs().contains_key(pin_num) && old(self).next_id() == u64::MAX)
                ==> r == Err::<(u64, bool), PinError>(PinError::InvalidParameter),
            r is Ok <==> (old(self).inputs().contains_key(pin_num) && old(self).next_id()
                < u64::MAX),
            r matches Ok(ok) ==> {
                &&& ok.0 == old(self).next_id()
                &&& ok.1 == !old(self).callback_lists().contains_key(pin_num)
                &&& final(self).next_id() == old(self).next_id() + 1
                &&& final(self).callback_lists() == old(self).callback_lists().insert(
                    pin_num,
                    (if old(self).callback_lists().contains_key(pin_num) {
                        old(self).callback_lists()[pin_num]
                    } else {
                        Seq::<CallbackRecord>::empty()
                    }).push(
                        (CallbackRecord {
                            id: old(self).next_id(),
                            trigger_edge: spec_translate_edge(
                                old(self).inputs()[pin_num].logic_level,
                                trigger_edge,
                            ),
                            send_time,
                            send_edge,
                        }),
                    ),
                )
                &&& final(self).inputs() == old(self).inputs()
                &&& final(self).outputs() == old(self).outputs()
                &&& final(self).pwm() == old(self).pwm()
            },
    {
        let logic_level = match self.input_pins.get(pin_num) {
            Some(cfg) => cfg.logic_level,
            None => {
                return Err(PinError::NotConfigured);
            },
        };
        if self.next_callback_id == u64::MAX {
            return Err(PinError::InvalidParameter);
        }
        let id = self.next_callback_id;
        let translated = translate_edge(logic_level, trigger_edge);
        let record = CallbackRecord { id, trigger_edge: translated, send_time, send_edge };
        let (mut list, first) = match self.callbacks.remove(pin_num) {
            Some(v) => (v, false),
            None => (Vec::new(), true),
        };
        let ghost old_list = list@;
        list.push(record);
        self.callbacks.insert(pin_num, list);
        self.next_callback_id = id + 1;
        proof {
            assert(self.inputs() == old(self).inputs());
            assert(self.outputs() == old(self).outputs());
            assert(self.pwm() == old(self).pwm());
            assert(self.callback_lists() =~= old(self).callback_lists().insert(
                pin_num,
                old_list.push(record),
            ));
            if !first {
                assert(old_list == old(self).callback_lists()[pin_num]);
            }
            assert forall|p: u8| #[trigger]
                self.callback_lists().contains_key(p) implies self.inputs().contains_key(p) by {
                if p != pin_num {
                    assert(old(self).callback_lists().contains_key(p));
                }
            }
            assert forall|p: u8| #[trigger]
                self.callback_lists().contains_key(p) implies spec_callback_list_valid(
                self.callback_lists()[p],
                self.next_callback_id,
            ) by {
                if p != pin_num {
                    assert(old(self).callback_lists().contains_key(p));
                    assert(spec_callback_list_valid(
                        old(self).callback_lists()[p],
                        old(self).next_callback_id,
                    ));
                    assert forall|i: int|
                        0 <= i < self.callback_lists()[p].len() implies #[trigger] self.callback_lists()[p][i].id
                        < self.next_callback_id by {
                        assert(self.callback_lists()[p][i].id < old(self).next_callback_id);
                    }
                } else {
                    let new_list = self.callback_lists()[p];
                    assert(new_list == old_list.push(record));
                    if !first {
                        assert(spec_callback_list_valid(old_list, old(self).next_callback_id));
                    }
                    assert forall|i: int|
                        0 <= i < new_list.len() implies #[trigger] new_list[i].id
                        < self.next_callback_id by {
                        if i < old_list.len() {
                            assert(old_list[i].id < old(self).next_callback_id);
                        }
                    }
                    assert forall|i: int, j: int|
                        0 <= i < j < new_list.len() implies new_list[i].id != new_list[j].id by {
                        if j < old_list.len() {
                            assert(old_list[i].id != old_list[j].id);
                        } else {
                            assert(new_list[j].id == id);
                            assert(old_list[i].id < old(self).next_callback_id);
                        }
                    }
                }
            }
        }
        Ok((id, first))
    }

    /// Detaches every callback from an input pin; the shell must also
    /// clear the pin's hardware edge interrupt.
    pub fn unassign_callbacks(&mut self, pin_num: u8) -> (r: Result<(), PinError>)
        requires
            old(self).wf(),
        ensures
            final(self).wf(),
            r is Ok <==> old(self).inputs().contains_key(pin_num),
            r matches Err(e) ==> e == PinError::NotConfigured && *final(self) == *old(self),
            r is Ok ==> {
                &&& final(self).callback_lists() == old(self).callback_lists().remove(pin_num)
                &&& final(self).inputs() == old(self).inputs()
                &&& final(self).outputs() == old(self).outputs()
                &&& final(self).pwm() == old(self).pwm()
                &&& final(self).next_id() == old(self).next_id()
            },
    {
        if !self.input_pins.contains_key(pin_num) {
            return Err(PinError::NotConfigured);
        }
        self.callbacks.remove(pin_num);
        proof {
            assert(self.inputs() == old(self).inputs());
            assert(self.outputs() == old(self).outputs());
            assert(self.pwm() == old(self).pwm());
            assert(self.next_id() == old(self).next_id());
            assert(self.callback_lists() =~= old(self).callback_lists().remove(pin_num));
            assert forall|p: u8| #[trigger]
                self.callback_lists().contains_key(p) implies self.inputs().contains_key(p) by {
                assert(old(self).callback_lists().contains_key(p));
            }
            assert forall|p: u8| #[trigger]
                self.callback_lists().contains_key(p) implies spec_callback_list_valid(
                self.callback_lists()[p],
                self.next_callback_id,
            ) by {
                assert(old(self).callback_lists().contains_key(p));
            }
        }
        Ok(())
    }

    /// The position of the callback with identity `id` in a list.
    pub open spec fn spec_callback_index(list: Seq<CallbackRecord>, id: u64) -> int {
        choose|i: int| 0 <= i < list.len() && (#[trigger] list[i]).id == id
    }

    /// Whether some callback in a list carries identity `id`.
    pub open spec fn spec_has_callback(list: Seq<CallbackRecord>, id: u64) -> bool {
        exists|i: int| 0 <= i < list.len() && (#[trigger] list[i]).id == id
    }

    /// Detaches the single callback with the given identity from an input
    /// pin. Returns whether the pin's callback list became empty — in
    /// which case the shell must clear the hardware edge interrupt.
    /// Fails with `NotConfigured` when the pin is not an input pin, and
    /// with `InvalidParameter` when no callback carries that identity.
    pub fn unassign_callback(&mut self, pin_num: u8, callback_id: u64) -> (r: Result<
        bool,
        PinError,
    >)
        requires
            old(self).wf(),
        ensures
            final(self).wf(),
            r is Err ==> *final(self) == *old(self),
            !old(self).inputs().contains_key(pin_num) ==> r == Err::<bool, PinError>(
                PinError::NotConfigured,
            ),
            r is Ok <==> (old(self).inputs().contains_key(pin_num) && old(
                self,
            ).callback_lists().contains_key(pin_num) && Self::spec_has_callback(
                old(self).callback_lists()[pin_num],
                callback_id,
            )),
            r matches Err(e) ==> e == PinError::NotConfigured || e == PinError::InvalidParameter,
            r matches Ok(now_empty) ==> {
                let list = old(self).callback_lists()[pin_num];
                let i = Self::spec_callback_index(list, callback_id);
                &&& now_empty == (list.len() == 1)
                &&& final(self).callback_lists() == if list.len() == 1 {
                    old(self).callback_lists().remove(pin_num)
                } else {
                    old(self).callback_lists().insert(pin_num, list.remove(i))
                }
                &&& final(self).inputs() == old(self).inputs()
                &&& final(self).outputs() == old(self).outputs()
                &&& final(self).pwm() == old(self).pwm()
                &&& final(self).next_id() == old(self).next_id()
            },
    {
        if !self.input_pins.contains_key(pin_num) {
            return Err(PinError::NotConfigured);
        }
        let found: Option<usize> = match self.callbacks.get(pin_num) {
            Some(list_ref) => {
                proof {
                    assert(list_ref@ == self.callback_lists()[pin_num]);
                }
                let n = list_ref.len();
                let mut idx: usize = 0;
                let mut found: Option<usize> = None;
                while idx < n
                    invariant
                        n == list_ref@.len(),
                        0 <= idx <= n,
                        match found {
                            Some(i) => i < n && list_ref@[i as int].id == callback_id,
                            None => forall|j: int|
                                0 <= j < idx ==> list_ref@[j].id != callback_id,
                        },
                    decreases n - idx,
                {
                    if found.is_none() && list_ref[idx].id == callback_id {
                        found = Some(idx);
                    }
                    idx = idx + 1;
                }
                proof {
                    if found is None && Self::spec_has_callback(list_ref@, callback_id) {
                        let i = choose|i: int|
                            0 <= i < list_ref@.len() && (#[trigger] list_ref@[i]).id
                                == callback_id;
                        assert(list_ref@[i].id != callback_id);
                    }
                }
                found
            },
            None => None,
        };
        match found {
            Some(idx) => {
                let mut list = match self.callbacks.remove(pin_num) {
                    Some(v) => v,
                    None => {
                        proof {
                            assert(false);
                        }
                        return Err(PinError::InvalidParameter);
                    },
                };
                let ghost old_list = list@;
                proof {
                    assert(old(self).callback_lists().contains_key(pin_num));
                    assert(old_list == old(self).callback_lists()[pin_num]);
                    assert(Self::spec_has_callback(old_list, callback_id));
                    assert(spec_callback_list_valid(old_list, old(self).next_callback_id));
                    let i = Self::spec_callback_index(old_list, callback_id);
                    assert(0 <= i < old_list.len());
                    if i < idx as int {
                        assert(old_list[i].id != old_list[idx as int].id);
                    } else if i > idx as int {
                        assert(old_list[idx as int].id != old_list[i].id);
                    }
                    assert(i == idx as int);
                }
                list.remove(idx);
                let now_empty = list.is_empty();
                if now_empty {
                    proof {
                        assert(self.callback_lists() =~= old(self).callback_lists().remove(
                            pin_num,
                        ));
                    }
                } else {
                    self.callbacks.insert(pin_num, list);
                    proof {
                        assert(self.callback_lists() =~= old(self).callback_lists().insert(
                            pin_num,
                            old_list.remove(idx as int),
                        ));
                    }
                }
                proof {
                    assert(self.inputs() == old(self).inputs());
                    assert(self.outputs() == old(self).outputs());
                    assert(self.pwm() == old(self).pwm());
                    assert(self.next_id() == old(self).next_id());
                    assert forall|p: u8| #[trigger]
                        self.callback_lists().contains_key(p) implies self.inputs().contains_key(
                        p,
                    ) by {
                        assert(old(self).callback_lists().contains_key(p));
                    }
                    assert forall|p: u8| #[trigger]
                        self.callback_lists().contains_key(p) implies spec_callback_list_valid(
                        self.callback_lists()[p],
                        self.next_callback_id,
                    ) by {
                        assert(old(self).callback_lists().contains_key(p));
                        assert(spec_callback_list_valid(
                            old(self).callback_lists()[p],
                            self.next_callback_id,
                        ));
                        if p == pin_num {
                            let shortened = self.callback_lists()[p];
                            assert(shortened == old_list.remove(idx as int));
                            assert forall|i: int|
                                0 <= i < shortened.len() implies #[trigger] shortened[i].id
                                < self.next_callback_id by {
                                if i < idx as int {
                                    assert(shortened[i] == old_list[i]);
                                } else {
                                    assert(shortened[i] == old_list[i + 1]);
                                }
                            }
                            assert forall|i: int, j: int|
                                0 <= i < j < shortened.len() implies shortened[i].id
                                != shortened[j].id by {
                                let pi = if i < idx as int {
                                    i
                                } else {
                                    i + 1
                                };
                                let pj = if j < idx as int {
                                    j
                                } else {
                                    j + 1
                                };
                                assert(shortened[i] == old_list[pi]);
                                assert(shortened[j] == old_list[pj]);
                                assert(old_list[pi].id != old_list[pj].id);
                            }
                        }
                    }
                }
                Ok(now_empty)
            },
            None => Err(PinError::InvalidParameter),
        }
    }

    /// Validates a blocking edge wait on an input pin and returns the
    /// physical edge the shell must arm the interrupt for (the caller's
    /// requested edge, translated through the pin's convention).
    pub fn wait_for_edge(&self, pin_num: u8, trigger_edge: TriggerEdge) -> (r: Result<
        TriggerEdge,
        PinError,
    >)
        requires
            self.wf(),
        ensures
            r is Ok <==> self.inputs().contains_key(pin_num),
            r matches Err(e) ==> e == PinError::NotConfigured,
            r matches Ok(physical) ==> physical == spec_translate_edge(
                self.inputs()[pin_num].logic_level,
                trigger_edge,
            ),
    {
        match self.input_pins.get(pin_num) {
            Some(cfg) => Ok(translate_edge(cfg.logic_level, trigger_edge)),
            None => Err(PinError::NotConfigured),
        }
    }
}

/// Whether a callback registered for `record_edge` fires on a physical
/// `event_edge` (`BOTH` always fires).
pub open spec fn spec_edge_matches(record_edge: TriggerEdge, event_edge: TriggerEdge) -> bool {
    record_edge is BOTH || record_edge == event_edge
}

/// One callback invocation the shell must perform for an event, in list
/// order: the callback's identity, which optional arguments to prepend,
/// and the logical edge to report.
#[derive(Clone, Copy, Debug, PartialEq, Eq, Structural)]
pub struct CallbackInvocation {
    /// Identity of the callback to invoke.
    pub id: u64,
    /// Whether to prepend the event timestamp.
    pub send_time: bool,
    /// Whether to pass the logical edge.
    pub send_edge: bool,
    /// The event's edge, translated into the pin's logical convention.
    pub logical_edge: TriggerEdge,
}

/// The invocation derived from one matching callback record.
pub open spec fn spec_invocation_of(
    record: CallbackRecord,
    logical_edge: TriggerEdge,
) -> CallbackInvocation {
    CallbackInvocation {
        id: record.id,
        send_time: record.send_time,
        send_edge: record.send_edge,
        logical_edge,
    }
}

/// Appending one element to a sequence extends its filtered view by that
/// element exactly when the predicate holds of it.
proof fn lemma_filter_push<A>(s: Seq<A>, x: A, pred: spec_fn(A) -> bool)
    ensures
        s.push(x).filter(pred) == if pred(x) {
            s.filter(pred).push(x)
        } else {
            s.filter(pred)
        },
{
    reveal_with_fuel(Seq::filter, 2);
    assert(s.push(x).drop_last() =~= s);
    assert(s.push(x).last() == x);
}

impl PinManager {
    /// The callbacks a physical edge event on `pin_num` must fan out to,
    /// in registration order: exactly the records whose trigger edge
    /// matches the event (`BOTH` always matches), each paired with the
    /// logical edge to report. Empty when the event edge is not a single
    /// edge, or the pin has no input claim or no callbacks.
    pub open spec fn spec_dispatch_plan(
        self,
        pin_num: u8,
        physical_edge: TriggerEdge,
    ) -> Seq<CallbackInvocation> {
        if physical_edge is BOTH || !self.inputs().contains_key(pin_num)
            || !self.callback_lists().contains_key(pin_num) {
            Seq::empty()
        } else {
            self.callback_lists()[pin_num].filter(
                |record: CallbackRecord| spec_edge_matches(record.trigger_edge, physical_edge),
            ).map_values(
                |record: CallbackRecord|
                    spec_invocation_of(
                        record,
                        spec_translate_edge(self.inputs()[pin_num].logic_level, physical_edge),
                    ),
            )
        }
    }

    /// The decision half of the interrupt trampoline: given the physical
    /// edge of a hardware event, selects the callbacks to invoke, in
    /// registration order. The shell snapshots this plan under the lock,
    /// releases the lock, and only then invokes the callables.
    pub fn dispatch_plan(&self, pin_num: u8, physical_edge: TriggerEdge) -> (r: Vec<
        CallbackInvocation,
    >)
        requires
            self.wf(),
        ensures
            r@ == self.spec_dispatch_plan(pin_num, physical_edge),
    {
        let mut r: Vec<CallbackInvocation> = Vec::new();
        if matches!(physical_edge, TriggerEdge::BOTH) {
            proof {
                assert(r@ =~= self.spec_dispatch_plan(pin_num, physical_edge));
            }
            return r;
        }
        let logic_level = match self.input_pins.get(pin_num) {
            Some(cfg) => cfg.logic_level,
            None => {
                proof {
                    assert(r@ =~= self.spec_dispatch_plan(pin_num, physical_edge));
                }
                return r;
            },
        };
        let list = match self.callbacks.get(pin_num) {
            Some(l) => l,
            None => {
                proof {
                    assert(r@ =~= self.spec_dispatch_plan(pin_num, physical_edge));
                }
                return r;
            },
        };
        let logical_edge = translate_edge(logic_level, physical_edge);
        let ghost pred = |record: CallbackRecord|
            spec_edge_matches(record.trigger_edge, physical_edge);
        let ghost to_invocation = |record: CallbackRecord|
            spec_invocation_of(record, spec_translate_edge(logic_level, physical_edge));
        let n = list.len();
        let mut idx: usize = 0;
        while idx < n
            invariant
                n == list@.len(),
                0 <= idx <= n,
                r@ == list@.take(idx as int).filter(pred).map_values(to_invocation),
                logical_edge == spec_translate_edge(logic_level, physical_edge),
                pred == (|record: CallbackRecord|
                    spec_edge_matches(record.trigger_edge, physical_edge)),
                to_invocation == (|record: CallbackRecord|
                    spec_invocation_of(record, spec_translate_edge(logic_level, physical_edge))),
            decreases n - idx,
        {
            let record = list[idx];
            proof {
                assert(list@.take(idx + 1).drop_last() =~= list@.take(idx as int));
                lemma_filter_push(list@.take(idx as int), record, pred);
                assert(list@.take(idx + 1) == list@.take(idx as int).push(record));
            }
            let fires = match record.trigger_edge {
                TriggerEdge::BOTH => true,
                TriggerEdge::RISING => matches!(physical_edge, TriggerEdge::RISING),
                TriggerEdge::FALLING => matches!(physical_edge, TriggerEdge::FALLING),
            };
            if fires {
                r.push(
                    CallbackInvocation {
                        id: record.id,
                        send_time: record.send_time,
                        send_edge: record.send_edge,
                        logical_edge,
                    },
                );
                proof {
                    assert(r@ =~= list@.take(idx + 1).filter(pred).map_values(to_invocation));
                }
            } else {
                proof {
                    assert(r@ =~= list@.take(idx + 1).filter(pred).map_values(to_invocation));
                }
            }
            idx = idx + 1;
        }
        proof {
            assert(list@.take(n as int) =~= list@);
            assert(list@ == self.callback_lists()[pin_num]);
        }
        r
    }

    /// The hardware teardown a reset of `pin_num` requires, given the
    /// registry state before the reset.
    pub open spec fn spec_reset_action(self, pin_num: u8) -> ResetAction {
        if self.inputs().contains_key(pin_num) {
            ResetAction::Input { had_callbacks: self.callback_lists().contains_key(pin_num) }
        } else if self.outputs().contains_key(pin_num) {
            if self.pwm().contains_key(pin_num) {
                ResetAction::OutputPwm {
                    physical_high: spec_physical_of_logical(
                        self.outputs()[pin_num].logic_level,
                        PinState::LOW,
                    ),
                }
            } else {
                ResetAction::Output {
                    physical_high: spec_physical_of_logical(
                        self.outputs()[pin_num].logic_level,
                        PinState::LOW,
                    ),
                }
            }
        } else {
            ResetAction::NotPresent
        }
    }

    /// Releases `pin_num` entirely: the pin leaves both role maps, loses
    /// its callbacks and any software PWM configuration, and can be
    /// claimed afresh. Succeeds also on an unregistered pin. Returns the
    /// hardware teardown the shell must perform (which always marks the
    /// line to reset on release, so the physical line does not stay
    /// active after the logical release).
    pub fn reset_pin(&mut self, pin_num: u8) -> (r: ResetAction)
        requires
            old(self).wf(),
        ensures
            final(self).wf(),
            final(self).inputs() == old(self).inputs().remove(pin_num),
            final(self).outputs() == old(self).outputs().remove(pin_num),
            final(self).callback_lists() == old(self).callback_lists().remove(pin_num),
            final(self).pwm() == old(self).pwm().remove(pin_num),
            final(self).next_id() == old(self).next_id(),
            r == old(self).spec_reset_action(pin_num),
    {
        match self.input_pins.remove(pin_num) {
            Some(_) => {
                let had_callbacks = match self.callbacks.remove(pin_num) {
                    Some(_) => true,
                    None => false,
                };
                proof {
                    assert(old(self).inputs().contains_key(pin_num));
                    assert(self.callback_lists() =~= old(self).callback_lists().remove(pin_num));
                    assert(self.outputs() =~= old(self).outputs().remove(pin_num)) by {
                        assert(!old(self).outputs().contains_key(pin_num));
                    }
                    assert(self.pwm() =~= old(self).pwm().remove(pin_num)) by {
                        if old(self).pwm().contains_key(pin_num) {
                            assert(old(self).outputs().contains_key(pin_num));
                        }
                    }
                    assert(had_callbacks == old(self).callback_lists().contains_key(pin_num));
                    self.lemma_wf_after_removal(*old(self), pin_num);
                }
                ResetAction::Input { had_callbacks }
            },
            None => match self.output_pins.remove(pin_num) {
                Some(cfg) => {
                    let pwm_existed = match self.pwm_setup.remove(pin_num) {
                        Some(_) => true,
                        None => false,
                    };
                    let physical_high = physical_of_logical(cfg.logic_level, PinState::LOW);
                    proof {
                        assert(old(self).outputs().contains_key(pin_num));
                        assert(!old(self).inputs().contains_key(pin_num)) by {
                            if old(self).inputs().contains_key(pin_num) {
                                assert(!old(self).outputs().contains_key(pin_num));
                            }
                        }
                        assert(self.inputs() =~= old(self).inputs().remove(pin_num));
                        assert(self.callback_lists() =~= old(self).callback_lists().remove(
                            pin_num,
                        )) by {
                            if old(self).callback_lists().contains_key(pin_num) {
                                assert(old(self).inputs().contains_key(pin_num));
                            }
                        }
                        assert(pwm_existed == old(self).pwm().contains_key(pin_num));
                        self.lemma_wf_after_removal(*old(self), pin_num);
                    }
                    if pwm_existed {
                        ResetAction::OutputPwm { physical_high }
                    } else {
                        ResetAction::Output { physical_high }
                    }
                },
                None => {
                    proof {
                        assert(self.inputs() =~= old(self).inputs().remove(pin_num));
                        assert(self.outputs() =~= old(self).outputs().remove(pin_num));
                        assert(self.callback_lists() =~= old(self).callback_lists().remove(
                            pin_num,
                        )) by {
                            if old(self).callback_lists().contains_key(pin_num) {
                                assert(old(self).inputs().contains_key(pin_num));
                            }
                        }
                        assert(self.pwm() =~= old(self).pwm().remove(pin_num)) by {
                            if old(self).pwm().contains_key(pin_num) {
                                assert(old(self).outputs().contains_key(pin_num));
                            }
                        }
                        self.lemma_wf_after_removal(*old(self), pin_num);
                    }
                    ResetAction::NotPresent
                },
            },
        }
    }

    /// Removing one pin from every map of a well-formed registry keeps it
    /// well-formed.
    proof fn lemma_wf_after_removal(self, pre: PinManager, pin_num: u8)
        requires
            pre.wf(),
            self.inputs() == pre.inputs().remove(pin_num),
            self.outputs() == pre.outputs().remove(pin_num),
            self.callback_lists() == pre.callback_lists().remove(pin_num),
            self.pwm() == pre.pwm().remove(pin_num),
            self.next_id() == pre.next_id(),
            self.input_pins.wf(),
            self.output_pins.wf(),
            self.callbacks.wf(),
            self.pwm_setup.wf(),
        ensures
            self.wf(),
    {
        assert forall|p: u8| #[trigger]
            self.inputs().contains_key(p) implies !self.outputs().contains_key(p) by {
            assert(pre.inputs().contains_key(p));
        }
        assert forall|p: u8| #[trigger]
            self.pwm().contains_key(p) implies self.outputs().contains_key(p) by {
            assert(pre.pwm().contains_key(p));
        }
        assert forall|p: u8| #[trigger]
            self.callback_lists().contains_key(p) implies self.inputs().contains_key(p) by {
            assert(pre.callback_lists().contains_key(p));
        }
        assert forall|p: u8| #[trigger]
            self.pwm().contains_key(p) implies spec_pwm_config_valid(self.pwm()[p]) by {
            assert(pre.pwm().contains_key(p));
        }
        assert forall|p: u8| #[trigger]
            self.callback_lists().contains_key(p) implies spec_callback_list_valid(
            self.callback_lists()[p],
            self.next_callback_id,
        ) by {
            assert(pre.callback_lists().contains_key(p));
            assert(spec_callback_list_valid(pre.callback_lists()[p], pre.next_callback_id));
        }
    }

    /// Resets every tracked pin — input pins first, then output pins,
    /// each fully reset before the next — leaving the registry empty.
    /// Returns the pins in reset order, each with the hardware teardown
    /// the shell must perform; the shell stops at its first hardware
    /// failure (fail-fast, matching the configuration calls' policy).
    pub fn cleanup(&mut self) -> (r: Vec<(u8, ResetAction)>)
        requires
            old(self).wf(),
        ensures
            final(self).wf(),
            final(self).inputs() == Map::<u8, InputPinConfig>::empty(),
            final(self).outputs() == Map::<u8, OutputPinConfig>::empty(),
            final(self).callback_lists() == Map::<u8, Seq<CallbackRecord>>::empty(),
            final(self).pwm() == Map::<u8, PwmConfig>::empty(),
            forall|i: int|
                0 <= i < r@.len() ==> (old(self).inputs().contains_key((#[trigger] r@[i]).0)
                    || old(self).outputs().contains_key(r@[i].0)),
            forall|p: u8| #[trigger]
                old(self).inputs().contains_key(p) ==> exists|i: int|
                    0 <= i < r@.len() && (#[trigger] r@[i]).0 == p,
            forall|p: u8| #[trigger]
                old(self).outputs().contains_key(p) ==> exists|i: int|
                    0 <= i < r@.len() && (#[trigger] r@[i]).0 == p,
            forall|i: int, j: int|
                #![trigger r@[i], r@[j]]
                (0 <= i < j < r@.len() && old(self).outputs().contains_key(r@[i].0)) ==> !old(
                    self,
                ).inputs().contains_key(r@[j].0),
    {
        let mut r: Vec<(u8, ResetAction)> = Vec::new();
        let input_keys = self.input_pins.keys();
        let n = input_keys.len();
        let mut idx: usize = 0;
        while idx < n
            invariant
                n == input_keys@.len(),
                0 <= idx <= n,
                self.wf(),
                self.next_id() == old(self).next_id(),
                forall|k: u8| input_keys@.contains(k) <==> old(self).inputs().contains_key(k),
                forall|i: int, j: int|
                    0 <= i < j < input_keys@.len() ==> input_keys@[i] != input_keys@[j],
                forall|p: u8|
                    #[trigger] self.inputs().contains_key(p) <==> (old(
                        self,
                    ).inputs().contains_key(p) && !input_keys@.take(idx as int).contains(p)),
                self.outputs() == old(self).outputs(),
                forall|p: u8| #[trigger]
                    self.callback_lists().contains_key(p) ==> old(
                        self,
                    ).callback_lists().contains_key(p),
                self.pwm() == old(self).pwm(),
                forall|i: int|
                    0 <= i < r@.len() ==> old(self).inputs().contains_key((#[trigger] r@[i]).0),
                forall|p: u8|
                    (old(self).inputs().contains_key(p) && #[trigger] input_keys@.take(
                        idx as int,
                    ).contains(p)) ==> exists|i: int|
                        0 <= i < r@.len() && (#[trigger] r@[i]).0 == p,
            decreases n - idx,
        {
            let pin = input_keys[idx];
            let ghost pre = *self;
            proof {
                assert(input_keys@.contains(input_keys@[idx as int]));
            }
            let ghost r_pre = r@;
            let action = self.reset_pin(pin);
            r.push((pin, action));
            proof {
                assert(input_keys@.take(idx + 1)[idx as int] == input_keys@[idx as int]);
                assert forall|p: u8|
                    #[trigger] self.inputs().contains_key(p) implies (old(
                    self,
                ).inputs().contains_key(p) && !input_keys@.take(idx + 1).contains(p)) by {
                    assert(pre.inputs().contains_key(p));
                    if input_keys@.take(idx + 1).contains(p) {
                        let j = choose|j: int|
                            0 <= j < idx + 1 && #[trigger] input_keys@.take(idx + 1)[j] == p;
                        if j < idx {
                            assert(input_keys@.take(idx as int)[j] == p);
                            assert(input_keys@.take(idx as int).contains(p));
                        }
                    }
                }
                assert forall|p: u8|
                    (old(self).inputs().contains_key(p) && !input_keys@.take(idx + 1).contains(
                        p,
                    )) implies self.inputs().contains_key(p) by {
                    if !input_keys@.take(idx as int).contains(p) {
                        assert(pre.inputs().contains_key(p) || p == pin);
                        if p == pin {
                            assert(input_keys@.take(idx + 1).contains(p));
                        }
                    } else {
                        let j = choose|j: int|
                            0 <= j < idx && #[trigger] input_keys@.take(idx as int)[j] == p;
                        assert(input_keys@.take(idx + 1)[j] == p);
                        assert(input_keys@.take(idx + 1).contains(p));
                    }
                }
                assert(self.outputs() =~= old(self).outputs()) by {
                    assert(!pre.outputs().contains_key(pin)) by {
                        assert(pre.inputs().contains_key(pin)) by {
                            if input_keys@.take(idx as int).contains(pin) {
                                let j = choose|j: int|
                                    0 <= j < idx && #[trigger] input_keys@.take(idx as int)[j]
                                        == pin;
                                assert(input_keys@[j] == input_keys@[idx as int]);
                            }
                        }
                    }
                }
                assert(self.pwm() =~= old(self).pwm()) by {
                    assert(!pre.pwm().contains_key(pin)) by {
                        if pre.pwm().contains_key(pin) {
                            assert(pre.outputs().contains_key(pin));
                        }
                    }
                }
                assert forall|p: u8|
                    (old(self).inputs().contains_key(p) && #[trigger] input_keys@.take(
                        idx + 1,
                    ).contains(p)) implies exists|i: int|
                    0 <= i < r@.len() && (#[trigger] r@[i]).0 == p by {
                    if p == pin {
                        assert(r@[r@.len() - 1].0 == p);
                    } else {
                        let j = choose|j: int|
                            0 <= j < idx + 1 && #[trigger] input_keys@.take(idx + 1)[j] == p;
                        assert(j < idx);
                        assert(input_keys@.take(idx as int)[j] == p);
                        assert(input_keys@.take(idx as int).contains(p));
                        let i = choose|i: int|
                            0 <= i < r_pre.len() && (#[trigger] r_pre[i]).0 == p;
                        assert(r@[i].0 == p);
                    }
                }
            }
            idx = idx + 1;
        }
        proof {
            assert(input_keys@.take(n as int) =~= input_keys@);
            assert(self.inputs() =~= Map::<u8, InputPinConfig>::empty()) by {
                assert forall|p: u8| !(#[trigger] self.inputs().contains_key(p)) by {
                    if self.inputs().contains_key(p) {
                        assert(input_keys@.contains(p));
                    }
                }
            }
            assert(self.callback_lists() =~= Map::<u8, Seq<CallbackRecord>>::empty()) by {
                assert forall|p: u8| !(#[trigger] self.callback_lists().contains_key(p)) by {
                    if self.callback_lists().contains_key(p) {
                        assert(self.inputs().contains_key(p));
                    }
                }
            }
        }
        let ghost mid = *self;
        let ghost r_mid = r@;
        let output_keys = self.output_pins.keys();
        let m = output_keys.len();
        let mut odx: usize = 0;
        while odx < m
            invariant
                m == output_keys@.len(),
                0 <= odx <= m,
                self.wf(),
                forall|k: u8| output_keys@.contains(k) <==> old(self).outputs().contains_key(k),
                forall|i: int, j: int|
                    0 <= i < j < output_keys@.len() ==> output_keys@[i] != output_keys@[j],
                self.inputs() == Map::<u8, InputPinConfig>::empty(),
                self.callback_lists() == Map::<u8, Seq<CallbackRecord>>::empty(),
                forall|p: u8|
                    #[trigger] self.outputs().contains_key(p) <==> (old(
                        self,
                    ).outputs().contains_key(p) && !output_keys@.take(odx as int).contains(p)),
                forall|p: u8| #[trigger]
                    self.pwm().contains_key(p) ==> self.outputs().contains_key(p),
                r_mid.len() <= r@.len(),
                forall|i: int| 0 <= i < r_mid.len() ==> r@[i] == r_mid[i],
                forall|i: int|
                    0 <= i < r_mid.len() ==> old(self).inputs().contains_key(
                        (#[trigger] r_mid[i]).0,
                    ),
                forall|i: int|
                    r_mid.len() <= i < r@.len() ==> old(self).outputs().contains_key(
                        (#[trigger] r@[i]).0,
                    ),
                forall|i: int|
                    0 <= i < r@.len() ==> (old(self).inputs().contains_key((#[trigger] r@[i]).0)
                        || old(self).outputs().contains_key(r@[i].0)),
                forall|p: u8|
                    (old(self).inputs().contains_key(p) && #[trigger] input_keys@.contains(p))
                        ==> exists|i: int| 0 <= i < r@.len() && (#[trigger] r@[i]).0 == p,
                forall|p: u8|
                    (old(self).outputs().contains_key(p) && #[trigger] output_keys@.take(
                        odx as int,
                    ).contains(p)) ==> exists|i: int|
                        0 <= i < r@.len() && (#[trigger] r@[i]).0 == p,
            decreases m - odx,
        {
            let pin = output_keys[odx];
            let ghost pre = *self;
            proof {
                assert(output_keys@.contains(output_keys@[odx as int]));
            }
            let ghost r_pre = r@;
            let action = self.reset_pin(pin);
            r.push((pin, action));
            proof {
                assert(output_keys@.take(odx + 1)[odx as int] == output_keys@[odx as int]);
                assert(self.inputs() =~= Map::<u8, InputPinConfig>::empty());
                assert(self.callback_lists() =~= Map::<u8, Seq<CallbackRecord>>::empty());
                assert forall|p: u8|
                    #[trigger] self.outputs().contains_key(p) implies (old(
                    self,
                ).outputs().contains_key(p) && !output_keys@.take(odx + 1).contains(p)) by {
                    assert(pre.outputs().contains_key(p));
                    if output_keys@.take(odx + 1).contains(p) {
                        let j = choose|j: int|
                            0 <= j < odx + 1 && #[trigger] output_keys@.take(odx + 1)[j] == p;
                        if j < odx {
                            assert(output_keys@.take(odx as int)[j] == p);
                            assert(output_keys@.take(odx as int).contains(p));
                        }
                    }
                }
                assert forall|p: u8|
                    (old(self).outputs().contains_key(p) && !output_keys@.take(odx + 1).contains(
                        p,
                    )) implies self.outputs().contains_key(p) by {
                    if !output_keys@.take(odx as int).contains(p) {
                        assert(pre.outputs().contains_key(p) || p == pin);
                        if p == pin {
                            assert(output_keys@.take(odx + 1).contains(p));
                        }
                    } else {
                        let j = choose|j: int|
                            0 <= j < odx && #[trigger] output_keys@.take(odx as int)[j] == p;
                        assert(output_keys@.take(odx + 1)[j] == p);
                        assert(output_keys@.take(odx + 1).contains(p));
                    }
                }
                assert forall|p: u8|
                    (old(self).inputs().contains_key(p) && #[trigger] input_keys@.contains(
                        p,
                    )) implies exists|i: int| 0 <= i < r@.len() && (#[trigger] r@[i]).0 == p by {
                    let i = choose|i: int| 0 <= i < r_pre.len() && (#[trigger] r_pre[i]).0 == p;
                    assert(r@[i].0 == p);
                }
                assert forall|p: u8|
                    (old(self).outputs().contains_key(p) && #[trigger] output_keys@.take(
                        odx + 1,
                    ).contains(p)) implies exists|i: int|
                    0 <= i < r@.len() && (#[trigger] r@[i]).0 == p by {
                    if p == pin {
                        assert(r@[r@.len() - 1].0 == p);
                    } else {
                        let j = choose|j: int|
                            0 <= j < odx + 1 && #[trigger] output_keys@.take(odx + 1)[j] == p;
                        assert(j < odx);
                        assert(output_keys@.take(odx as int)[j] == p);
                        assert(output_keys@.take(odx as int).contains(p));
                        let i = choose|i: int|
                            0 <= i < r_pre.len() && (#[trigger] r_pre[i]).0 == p;
                        assert(r@[i].0 == p);
                    }
                }
            }
            odx = odx + 1;
        }
        proof {
            assert(output_keys@.take(m as int) =~= output_keys@);
            assert(self.outputs() =~= Map::<u8, OutputPinConfig>::empty()) by {
                assert forall|p: u8| !(#[trigger] self.outputs().contains_key(p)) by {
                    if self.outputs().contains_key(p) {
                        assert(output_keys@.contains(p));
                    }
                }
            }
            assert(self.pwm() =~= Map::<u8, PwmConfig>::empty()) by {
                assert forall|p: u8| !(#[trigger] self.pwm().contains_key(p)) by {
                    if self.pwm().contains_key(p) {
                        assert(self.outputs().contains_key(p));
                    }
                }
            }
            assert forall|p: u8| #[trigger]
                old(self).inputs().contains_key(p) implies exists|i: int|
                0 <= i < r@.len() && (#[trigger] r@[i]).0 == p by {
                assert(input_keys@.contains(p));
            }
            assert forall|p: u8| #[trigger]
                old(self).outputs().contains_key(p) implies exists|i: int|
                0 <= i < r@.len() && (#[trigger] r@[i]).0 == p by {
                assert(output_keys@.contains(p));
            }
            assert forall|i: int, j: int|
                #![trigger r@[i], r@[j]]
                (0 <= i < j < r@.len() && old(self).outputs().contains_key(
                    r@[i].0,
                )) implies !old(self).inputs().contains_key(r@[j].0) by {
                // Input-pin entries form the prefix, and no pin is in both
                // roles, so an output-pin entry is never followed by an
                // input-pin one.
                if i < r_mid.len() {
                    assert(old(self).inputs().contains_key(r_mid[i].0));
                    assert(r@[i] == r_mid[i]);
                }
                assert(r_mid.len() <= i);
                assert(old(self).outputs().contains_key(r@[j].0));
            }
        }
        r
    }
}

} // verus!
