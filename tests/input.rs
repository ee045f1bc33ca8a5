use roomcore::gamepad::GamePads;
use roomcore::input::{Buttons, Keyboard};

#[test]
fn key_just_pressed_once() {
    let mut kb = Keyboard::new();
    kb.key_event(4, true, false);
    assert!(kb.is_down(4));
    assert!(kb.just_pressed(4));
    kb.advance_frame();
    assert!(kb.is_down(4));
    assert!(!kb.just_pressed(4));
    kb.key_event(4, true, true);
    assert!(!kb.just_pressed(4));
    kb.key_event(4, false, false);
    assert!(kb.just_released(4));
    assert!(!kb.is_down(4));
    kb.advance_frame();
    assert!(!kb.just_released(4));
}

#[test]
fn key_out_of_range_ignored() {
    let mut kb = Keyboard::new();
    kb.key_event(100000, true, false);
    assert!(!kb.is_down(100000));
    assert!(!kb.just_pressed(100000));
}

#[test]
fn buttons_start_up() {
    let b = Buttons::new(3);
    assert_eq!(b.len(), 3);
    assert!(!b.is_down(0) && !b.just_pressed(2) && !b.just_released(1));
}

#[test]
fn pad_event_after_disconnect_reads_up() {
    let mut pads = GamePads::new();
    pads.connected_event(7);
    pads.button_event(7, 0, true);
    assert!(pads.is_down(7, 0));
    pads.removed_event(7);
    pads.button_event(7, 0, true);
    pads.axis_event(7, 1, 30000);
    assert!(!pads.is_down(7, 0));
    assert!(!pads.just_pressed(7, 0));
    assert_eq!(pads.axis(7, 1, 8000, 32000), 0);
}

#[test]
fn pad_buttons_and_axes() {
    let mut pads = GamePads::new();
    pads.connected_event(3);
    pads.connected_event(9);
    pads.button_event(3, 2, true);
    assert!(pads.just_pressed(3, 2));
    assert!(!pads.is_down(9, 2));
    pads.advance_frame();
    assert!(pads.is_down(3, 2));
    assert!(!pads.just_pressed(3, 2));
    pads.button_event(3, 2, false);
    assert!(pads.just_released(3, 2));
    pads.axis_event(3, 1, 20000);
    assert_eq!(pads.axis(3, 1, 8000, 32000), 500000);
    pads.axis_event(9, 0, -32768);
    assert_eq!(pads.axis(9, 0, 8000, 32000), -1000000);
    assert_eq!(pads.axis(3, 0, 8000, 32000), 0);
    pads.removed_event(3);
    assert!(!pads.is_down(3, 2));
    assert_eq!(pads.axis(9, 0, 8000, 32000), -1000000);
}

#[test]
fn pad_reconnect_keeps_state() {
    let mut pads = GamePads::new();
    pads.connected_event(1);
    pads.button_event(1, 0, true);
    pads.connected_event(1);
    assert!(pads.is_down(1, 0));
}

#[test]
fn pad_stick_radial() {
    let mut pads = GamePads::new();
    pads.connected_event(5);
    assert_eq!(pads.stick(5, 0, 1, 1000, 10000), roomcore::deadzone::Vec2::new(0, 0));
    pads.axis_event(5, 0, 3000);
    pads.axis_event(5, 1, -4000);
    assert_eq!(pads.stick(5, 0, 1, 1000, 10000), roomcore::deadzone::Vec2::new(266666, -355555));
    pads.axis_event(5, 0, 300);
    pads.axis_event(5, 1, 400);
    assert_eq!(pads.stick(5, 0, 1, 1000, 10000), roomcore::deadzone::Vec2::new(0, 0));
    assert_eq!(pads.stick(5, 0, 9, 1000, 10000), roomcore::deadzone::Vec2::new(0, 0));
    assert_eq!(pads.stick(6, 0, 1, 1000, 10000), roomcore::deadzone::Vec2::new(0, 0));
}
