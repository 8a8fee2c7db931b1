//! Two very small state machines built from light switches.
//! The state is the state of the switches.

use vstd::prelude::*;

verus! {

/// A state machine: a set of states and the transitions between them.
pub trait StateMachine {
    /// The states of the machine.
    type State;
    /// The transitions that move the machine from one state to the next.
    type Transition;

    /// The state that follows `starting_state` under transition `t`.
    fn next_state(starting_state: &Self::State, t: &Self::Transition) -> Self::State;
}

/// The state of a single switch after it is toggled.
pub open spec fn light_next(s: bool) -> bool {
    !s
}

/// A single light switch; the state is whether the switch is on.
pub struct LightSwitch;

impl StateMachine for LightSwitch {
    type State = bool;
    type Transition = ();

    /// Toggling is the only transition.
    fn next_state(starting_state: &bool, t: &()) -> (next: bool)
        ensures
            next == light_next(*starting_state),
    {
        !*starting_state
    }
}

/// Two light switches with one weird property:
/// whenever switch one is turned off, switch two also goes off.
pub struct WeirdSwitchMachine;

/// The state of the two bulbs.
#[derive(PartialEq, Eq, Debug, Structural)]
pub struct TwoBulbs {
    pub first_bulb: bool,
    pub second_bulb: bool,
}

/// The two transitions: toggling the first or the second switch.
pub enum Toggle {
    FirstSwitch,
    SecondSwitch,
}

/// The state that follows `s` when `t` is toggled.
pub open spec fn weird_next(s: TwoBulbs, t: Toggle) -> TwoBulbs {
    match t {
        Toggle::FirstSwitch => TwoBulbs {
            first_bulb: !s.first_bulb,
            second_bulb: if s.first_bulb { false } else { s.second_bulb },
        },
        Toggle::SecondSwitch => TwoBulbs { first_bulb: s.first_bulb, second_bulb: !s.second_bulb },
    }
}

impl StateMachine for WeirdSwitchMachine {
    type State = TwoBulbs;
    type Transition = Toggle;

    fn next_state(starting_state: &TwoBulbs, t: &Toggle) -> (next: TwoBulbs)
        ensures
            next == weird_next(*starting_state, *t),
    {
        let mut first_bulb = starting_state.first_bulb;
        let mut second_bulb = starting_state.second_bulb;

        match t {
            Toggle::FirstSwitch => {
                first_bulb = !first_bulb;
                if !first_bulb {
                    second_bulb = false;
                }
                TwoBulbs { first_bulb, second_bulb }
            },
            Toggle::SecondSwitch => {
                second_bulb = !starting_state.second_bulb;
                TwoBulbs { first_bulb, second_bulb }
            },
        }
    }
}

/// Toggling a single switch twice gives back the state it started in.
pub proof fn lemma_light_switch_toggle_twice(s: bool)
    ensures
        light_next(light_next(s)) == s,
{
}

/// Whenever the first switch turns off, the second bulb is off too.
pub proof fn lemma_first_off_turns_second_off(s: TwoBulbs)
    ensures
        !weird_next(s, Toggle::FirstSwitch).first_bulb ==> !weird_next(
            s,
            Toggle::FirstSwitch,
        ).second_bulb,
{
}

/// Toggling the second switch never changes the first bulb, and toggling it
/// twice gives back the state it started in.
pub proof fn lemma_second_switch_independent(s: TwoBulbs)
    ensures
        weird_next(s, Toggle::SecondSwitch).first_bulb == s.first_bulb,
        weird_next(weird_next(s, Toggle::SecondSwitch), Toggle::SecondSwitch) == s,
{
}

/// Toggling the first switch never turns the second bulb on.
pub proof fn lemma_first_switch_never_lights_second(s: TwoBulbs)
    ensures
        weird_next(s, Toggle::FirstSwitch).second_bulb ==> s.second_bulb,
{
}

} // verus!
