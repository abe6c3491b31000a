use ras::controller::{Axis, Button, ButtonState, ControllerInfo, Controllers, ControllerState};

fn device(name: &str, instance_id: i32) -> ControllerInfo {
    ControllerInfo::new(name.to_string(), format!("map:{}", name), true, instance_id)
}

fn pool_of_one(buttons: u16) -> Controllers {
    let mut c = Controllers::new(vec![Some(device("pad", 1))]);
    assert!(c.set_input(0, buttons, vec![0; 6]));
    c
}

const A_BIT: u16 = 1 << 0;
const B_BIT: u16 = 1 << 1;
const DPAD_RIGHT_BIT: u16 = 1 << 14;

#[test]
fn zero_devices_all_queries_absent() {
    let c = Controllers::new(Vec::new());
    assert_eq!(c.num(), 0);
    assert!(!c.any());
    assert!(!c.slot_exists(0));
    let state = ControllerState::new(&c);
    assert_eq!(c.name(0), None);
    assert_eq!(c.mapping(0), None);
    assert_eq!(c.attached(0), None);
    assert_eq!(c.instance_id(0), None);
    assert_eq!(c.axis(0, Axis::LeftX), None);
    assert_eq!(c.button(0, Button::A), None);
    assert_eq!(c.button_down(0, Button::A, &state), None);
    assert_eq!(c.button_up(0, Button::A, &state), None);
}

#[test]
fn enumeration_skips_devices_that_failed_to_open() {
    let c = Controllers::new(vec![None, Some(device("one", 11)), None, Some(device("two", 22))]);
    assert_eq!(c.num(), 2);
    assert!(c.any());
    assert!(c.slot_exists(1));
    assert!(!c.slot_exists(2));
    // Slots follow enumeration order of the opened devices.
    assert_eq!(c.name(0), Some("one".to_string()));
    assert_eq!(c.name(1), Some("two".to_string()));
    assert_eq!(c.instance_id(0), Some(11));
    assert_eq!(c.instance_id(1), Some(22));
}

#[test]
fn identity_accessors_answer_per_slot() {
    let c = Controllers::new(vec![Some(device("alpha", 7))]);
    assert_eq!(c.name(0), Some("alpha".to_string()));
    assert_eq!(c.mapping(0), Some("map:alpha".to_string()));
    assert_eq!(c.attached(0), Some(true));
    assert_eq!(c.instance_id(0), Some(7));
    assert_eq!(c.name(1), None);
}

#[test]
fn axis_values_answer_per_axis() {
    let mut c = Controllers::new(vec![Some(device("pad", 1))]);
    assert!(c.set_input(0, 0, vec![10, -20, 30, -40, 50, -60]));
    assert_eq!(c.axis(0, Axis::LeftX), Some(10));
    assert_eq!(c.axis(0, Axis::LeftY), Some(-20));
    assert_eq!(c.axis(0, Axis::RightX), Some(30));
    assert_eq!(c.axis(0, Axis::RightY), Some(-40));
    assert_eq!(c.axis(0, Axis::TriggerLeft), Some(50));
    assert_eq!(c.axis(0, Axis::TriggerRight), Some(-60));
    assert_eq!(c.axis(1, Axis::LeftX), None);
}

#[test]
fn set_input_rejects_out_of_range_slot() {
    let mut c = Controllers::new(vec![Some(device("pad", 1))]);
    assert!(!c.set_input(3, A_BIT, vec![0; 6]));
    assert_eq!(c.button(0, Button::A), Some(false));
}

#[test]
fn button_bitmask_reads_one_bit_per_button() {
    let c = pool_of_one(A_BIT | DPAD_RIGHT_BIT);
    assert_eq!(c.button(0, Button::A), Some(true));
    assert_eq!(c.button(0, Button::DPadRight), Some(true));
    assert_eq!(c.button(0, Button::B), Some(false));
    assert_eq!(c.button(0, Button::Start), Some(false));
    assert_eq!(c.button(1, Button::A), None);
}

#[test]
fn button_state_activate_deactivate() {
    let mut mask = ButtonState::new();
    assert!(!mask.button(Button::Guide));
    mask.activate(Button::Guide);
    mask.activate(Button::DPadLeft);
    assert!(mask.button(Button::Guide));
    assert!(mask.button(Button::DPadLeft));
    assert!(!mask.button(Button::A));
    mask.deactivate(Button::Guide);
    assert!(!mask.button(Button::Guide));
    assert!(mask.button(Button::DPadLeft));
}

#[test]
fn pressed_iff_held_now_and_not_before() {
    // Previous tick: nothing held. Current tick: A held.
    let c = pool_of_one(A_BIT);
    let state = ControllerState::new(&c);
    assert_eq!(c.button_down(0, Button::A, &state), Some(true));
    assert_eq!(c.button_up(0, Button::A, &state), Some(false));
    assert_eq!(c.button_down(0, Button::B, &state), Some(false));
    // Out-of-range slot is absent, not false.
    assert_eq!(c.button_down(9, Button::A, &state), None);
}

#[test]
fn released_iff_held_before_and_not_now() {
    let mut c = pool_of_one(B_BIT);
    let mut state = ControllerState::new(&c);
    state.update(&c);
    // B goes from held to not held.
    assert!(c.set_input(0, 0, vec![0; 6]));
    assert_eq!(c.button_up(0, Button::B, &state), Some(true));
    assert_eq!(c.button_down(0, Button::B, &state), Some(false));
}

#[test]
fn pressed_and_released_complement_on_changed_cases() {
    let combos: [(u16, u16); 4] = [(0, 0), (0, A_BIT), (A_BIT, 0), (A_BIT, A_BIT)];
    for (before, now) in combos {
        let mut c = pool_of_one(before);
        let mut state = ControllerState::new(&c);
        state.update(&c);
        assert!(c.set_input(0, now, vec![0; 6]));
        let pressed = c.button_down(0, Button::A, &state).unwrap();
        let released = c.button_up(0, Button::A, &state).unwrap();
        // Never both.
        assert!(!(pressed && released));
        if before == now {
            // Unchanged state: both false.
            assert!(!pressed && !released);
        } else {
            // Changed state: exactly one.
            assert!(pressed != released);
        }
    }
}

#[test]
fn capture_copies_held_state_and_is_idempotent() {
    let mut c = pool_of_one(A_BIT | B_BIT);
    let mut state = ControllerState::new(&c);
    assert_eq!(state.button(0, Button::A), Some(false));
    state.update(&c);
    // After capture the snapshot agrees with the pool on every button.
    assert_eq!(state.button(0, Button::A), Some(true));
    assert_eq!(state.button(0, Button::B), Some(true));
    assert_eq!(state.button(0, Button::X), Some(false));
    // With no pool change there are no further transitions.
    assert_eq!(c.button_down(0, Button::A, &state), Some(false));
    assert_eq!(c.button_up(0, Button::A, &state), Some(false));
    // A second capture changes nothing.
    state.update(&c);
    assert_eq!(state.button(0, Button::A), Some(true));
    assert_eq!(c.button_down(0, Button::A, &state), Some(false));
    assert_eq!(c.button_up(0, Button::A, &state), Some(false));
}

#[test]
fn snapshot_query_absent_out_of_range() {
    let c = Controllers::new(vec![Some(device("pad", 1))]);
    let state = ControllerState::new(&c);
    assert_eq!(state.button(0, Button::A), Some(false));
    assert_eq!(state.button(1, Button::A), None);
}

#[test]
fn snapshot_of_empty_pool_is_empty() {
    let c = Controllers::new(Vec::new());
    let state = ControllerState::new(&c);
    assert_eq!(state.button(0, Button::A), None);
}
