use chain_dkim::state_machine::{LightSwitch, StateMachine, Toggle, TwoBulbs, WeirdSwitchMachine};

#[test]
fn sm_1_light_switch_toggles_off() {
    assert!(!LightSwitch::next_state(&true, &()));
}

#[test]
fn sm_1_light_switch_toggles_on() {
    assert!(LightSwitch::next_state(&false, &()));
}

#[test]
fn sm_1_two_switches_first_goes_on() {
    let state = TwoBulbs { first_bulb: false, second_bulb: false };

    assert_eq!(
        WeirdSwitchMachine::next_state(&state, &Toggle::FirstSwitch),
        TwoBulbs { first_bulb: true, second_bulb: false }
    );
}

#[test]
fn sm_1_two_switches_first_goes_off_second_was_on() {
    // The special case: the second bulb goes off with the first.
    let state = TwoBulbs { first_bulb: true, second_bulb: true };

    assert_eq!(
        WeirdSwitchMachine::next_state(&state, &Toggle::FirstSwitch),
        TwoBulbs { first_bulb: false, second_bulb: false }
    );
}

#[test]
fn sm_1_two_switches_first_goes_off_second_was_off() {
    // Next to the special case: the second bulb stays off.
    let state = TwoBulbs { first_bulb: true, second_bulb: false };

    assert_eq!(
        WeirdSwitchMachine::next_state(&state, &Toggle::FirstSwitch),
        TwoBulbs { first_bulb: false, second_bulb: false }
    );
}

#[test]
fn sm_1_two_switches_second_goes_on() {
    let state = TwoBulbs { first_bulb: false, second_bulb: false };

    assert_eq!(
        WeirdSwitchMachine::next_state(&state, &Toggle::SecondSwitch),
        TwoBulbs { first_bulb: false, second_bulb: true }
    );
}

#[test]
fn sm_1_two_switches_second_goes_off() {
    let state = TwoBulbs { first_bulb: true, second_bulb: true };

    assert_eq!(
        WeirdSwitchMachine::next_state(&state, &Toggle::SecondSwitch),
        TwoBulbs { first_bulb: true, second_bulb: false }
    );
}

#[test]
fn light_switch_toggled_twice_is_unchanged() {
    for s in [true, false] {
        let once = LightSwitch::next_state(&s, &());
        assert_eq!(LightSwitch::next_state(&once, &()), s);
    }
}

#[test]
fn first_switch_off_from_on_keeps_second_off_and_second_switch_keeps_first() {
    for (a, b) in [(false, false), (false, true), (true, false), (true, true)] {
        let s = TwoBulbs { first_bulb: a, second_bulb: b };
        let n = WeirdSwitchMachine::next_state(&s, &Toggle::FirstSwitch);
        if !n.first_bulb {
            assert!(!n.second_bulb);
        }
        let m = WeirdSwitchMachine::next_state(&s, &Toggle::SecondSwitch);
        assert_eq!(m.first_bulb, a);
        let back = WeirdSwitchMachine::next_state(&m, &Toggle::SecondSwitch);
        assert_eq!(back, TwoBulbs { first_bulb: a, second_bulb: b });
    }
}
