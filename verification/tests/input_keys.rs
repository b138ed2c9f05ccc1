use voxel_engine::input::{axis, Key, KeyState};

#[test]
fn input_state_maps_keyboard_axes() {
    let mut input = KeyState::default();
    input.handle_key(Key::W, true, false);
    input.handle_key(Key::D, true, false);
    input.handle_key(Key::ShiftLeft, true, false);
    input.handle_key(Key::Space, true, false);

    assert_eq!(input.move_forward(), 1);
    assert_eq!(input.move_right(), 1);
    assert!(input.sprint);
    assert!(input.jump_pressed);
}

#[test]
fn clear_focus_state_resets_pressed_input() {
    let mut input = KeyState {
        forward: true,
        back: true,
        left: true,
        right: true,
        sprint: true,
        jump_held: true,
        jump_pressed: true,
        cursor_captured: true,
        received_raw_mouse: true,
    };

    input.clear_focus_state();

    assert_eq!(input.move_forward(), 0);
    assert_eq!(input.move_right(), 0);
    assert!(!input.jump_pressed);
    assert!(!input.sprint);
    assert!(!input.cursor_captured);
    assert!(!input.received_raw_mouse);
    assert_eq!(input, KeyState::default());
}

#[test]
fn axis_follows_the_single_held_control() {
    assert_eq!(axis(true, false), 1);
    assert_eq!(axis(false, true), -1);
    assert_eq!(axis(true, true), 0);
    assert_eq!(axis(false, false), 0);
}

#[test]
fn opposite_keys_cancel_and_release_restores() {
    let mut input = KeyState::default();
    input.handle_key(Key::S, true, false);
    assert_eq!(input.move_forward(), -1);
    input.handle_key(Key::W, true, false);
    assert_eq!(input.move_forward(), 0);
    input.handle_key(Key::S, false, false);
    assert_eq!(input.move_forward(), 1);
    input.handle_key(Key::A, true, false);
    assert_eq!(input.move_right(), -1);
}

#[test]
fn held_space_starts_one_jump() {
    let mut input = KeyState::default();
    input.handle_key(Key::Space, true, false);
    assert!(input.jump_pressed);
    input.end_frame();
    assert!(!input.jump_pressed);
    assert!(input.jump_held);

    input.handle_key(Key::Space, true, true);
    assert!(!input.jump_pressed);
    input.handle_key(Key::Space, true, false);
    assert!(!input.jump_pressed);

    input.handle_key(Key::Space, false, false);
    input.handle_key(Key::Space, true, false);
    assert!(input.jump_pressed);
}

#[test]
fn other_keys_change_nothing() {
    let mut input = KeyState::default();
    input.handle_key(Key::W, true, false);
    let before = input;
    input.handle_key(Key::Other, true, false);
    assert_eq!(input, before);
}

#[test]
fn cursor_is_tracked_only_when_captured_without_raw_motion() {
    let mut input = KeyState::default();
    assert!(!input.tracks_cursor());
    input.cursor_captured = true;
    assert!(input.tracks_cursor());
    input.received_raw_mouse = true;
    assert!(!input.tracks_cursor());
    input.end_frame();
    assert!(input.tracks_cursor());
}
