use naive::input::{
    key_name_to_code, mouse_name_to_button, InputBindings, InputState, InputTrigger, KeyCode, MouseButton,
};

#[test]
fn test_default_bindings() {
    let bindings = InputBindings::default();
    assert!(bindings.contains_action("move_forward"));
    assert!(bindings.contains_action("jump"));
}

#[test]
fn test_key_name_mapping() {
    assert_eq!(key_name_to_code("W"), Some(KeyCode::KeyW));
    assert_eq!(key_name_to_code("Space"), Some(KeyCode::Space));
    assert_eq!(key_name_to_code("ShiftLeft"), Some(KeyCode::ShiftLeft));
    assert_eq!(key_name_to_code("Invalid"), None);
}

#[test]
fn test_input_state_pressed() {
    let bindings = InputBindings::default();
    let mut state = InputState::new(bindings);
    assert!(!state.pressed("move_forward"));

    // Simulate W key press
    state.key_event(KeyCode::KeyW, true);
    assert!(state.pressed("move_forward"));
}

#[test]
fn test_axis_2d() {
    let bindings = InputBindings::default();
    let mut state = InputState::new(bindings);

    state.key_event(KeyCode::KeyW, true);
    state.key_event(KeyCode::KeyD, true);

    let (x, y) = state.axis_2d("move_forward", "move_backward", "move_left", "move_right");
    // The raw direction, which the program scales to unit length.
    assert!(y > 0);
    assert!(x > 0);
    assert_eq!((x, y), (1, 1));
}

#[test]
fn mouse_names_and_default_attack() {
    assert_eq!(mouse_name_to_button("Left"), Some(MouseButton::Left));
    assert_eq!(mouse_name_to_button("Right"), Some(MouseButton::Right));
    assert_eq!(mouse_name_to_button("Wheel"), None);
    let b = InputBindings::default();
    let idx = b.find_action("attack").unwrap();
    match &b.actions[idx].1[0] {
        InputTrigger::Mouse(m) => assert_eq!(m, "Left"),
        other => panic!("unexpected {:?}", other),
    }
    assert!(!b.contains_action("fly"));
}

#[test]
fn key_events_and_frames() {
    let mut s = InputState::new(InputBindings::default());
    s.key_event(KeyCode::Space, true);
    assert!(s.just_pressed("jump"));
    assert!(s.pressed("jump"));
    s.begin_frame();
    assert!(!s.just_pressed("jump"));
    assert!(s.pressed("jump"));
    // a repeated press of a held key is not a new press
    s.key_event(KeyCode::Space, true);
    assert!(!s.just_pressed("jump"));
    s.key_event(KeyCode::Space, false);
    assert!(s.just_released("jump"));
    assert!(!s.pressed("jump"));
    s.begin_frame();
    assert!(!s.just_released("jump"));
}

#[test]
fn injected_keys_take_effect_next_frame() {
    let mut s = InputState::new(InputBindings::default());
    s.inject_key_press("E");
    assert!(!s.pressed("interact"));
    s.begin_frame();
    assert!(s.pressed("interact"));
    assert!(s.just_pressed("interact"));
    assert!(s.any_just_pressed());
    s.begin_frame();
    assert!(s.pressed("interact"));
    assert!(!s.just_pressed("interact"));
    // the last of a press and a release queued in one frame wins
    s.inject_key_press("E");
    s.inject_key_release("E");
    s.begin_frame();
    assert!(!s.pressed("interact"));
    assert!(s.just_released("interact"));
    // unknown names do nothing
    s.inject_key_press("Nope");
    s.begin_frame();
    assert!(!s.any_just_pressed());
}

#[test]
fn mouse_attack_and_axis_cancel() {
    let mut s = InputState::new(InputBindings::default());
    s.mouse_button_event(MouseButton::Left, true);
    assert!(s.just_pressed("attack"));
    s.inject_mouse_release(MouseButton::Left);
    s.begin_frame();
    assert!(!s.pressed("attack"));
    s.key_event(KeyCode::KeyW, true);
    s.key_event(KeyCode::KeyS, true);
    assert_eq!(s.axis_2d("move_forward", "move_backward", "move_left", "move_right"), (0, 0));
    s.key_event(KeyCode::KeyA, true);
    assert_eq!(s.axis_2d("move_forward", "move_backward", "move_left", "move_right"), (-1, 0));
    assert!(s.key_held(KeyCode::KeyA));
    assert!(s.just_pressed_key(KeyCode::KeyA));
}

#[test]
fn cursor_capture_flag() {
    let mut s = InputState::new(InputBindings::default());
    assert!(!s.cursor_captured());
    s.set_cursor_captured(true);
    assert!(s.cursor_captured());
}
