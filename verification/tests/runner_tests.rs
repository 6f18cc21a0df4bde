use naive::events::GameEvent;
use naive::input::{InputBindings, InputState};
use naive::test_runner::{action_to_key, event_occurred, inject_test_input, select_test_functions};

#[test]
fn test_action_to_key_mapping() {
    assert_eq!(action_to_key("interact"), "E");
    assert_eq!(action_to_key("jump"), "Space");
    assert_eq!(action_to_key("move_forward"), "W");
}

#[test]
fn action_aliases_and_passthrough() {
    assert_eq!(action_to_key("forward"), "W");
    assert_eq!(action_to_key("backward"), "S");
    assert_eq!(action_to_key("left"), "A");
    assert_eq!(action_to_key("right"), "D");
    assert_eq!(action_to_key("sprint"), "ShiftLeft");
    assert_eq!(action_to_key("attack"), "Left");
    assert_eq!(action_to_key("Q"), "Q");
}

#[test]
fn injected_test_input_drives_actions() {
    let mut s = InputState::new(InputBindings::default());
    inject_test_input(&mut s, "jump", "press", None);
    s.begin_frame();
    assert!(s.pressed("jump"));
    inject_test_input(&mut s, "jump", "release", None);
    s.begin_frame();
    assert!(!s.pressed("jump"));

    inject_test_input(&mut s, "", "axis", Some((1, -1)));
    s.begin_frame();
    assert!(s.pressed("move_right"));
    assert!(s.pressed("move_backward"));
    assert!(!s.pressed("move_forward"));
    assert!(!s.pressed("move_left"));

    inject_test_input(&mut s, "", "axis", Some((0, 0)));
    s.begin_frame();
    assert!(!s.pressed("move_right"));
    assert!(!s.pressed("move_backward"));

    // an unknown kind and an axis without a value change nothing
    inject_test_input(&mut s, "jump", "tap", None);
    inject_test_input(&mut s, "", "axis", None);
    s.begin_frame();
    assert!(!s.any_just_pressed());
}

fn event(t: &str, fields: &[(&str, Option<&str>)]) -> GameEvent<Vec<(String, Option<String>)>> {
    GameEvent {
        event_type: t.to_string(),
        payload: fields.iter().map(|(k, v)| (k.to_string(), v.map(|s| s.to_string()))).collect(),
    }
}

#[test]
fn expected_events_with_filters() {
    let log = vec![
        event("door.opened", &[("door", Some("north")), ("count", None)]),
        event("enemy.killed", &[("enemy", Some("goblin"))]),
    ];
    assert!(event_occurred(&log, "door.opened", &vec![]));
    assert!(event_occurred(&log, "door.opened", &vec![("door".to_string(), "north".to_string())]));
    assert!(!event_occurred(&log, "door.opened", &vec![("door".to_string(), "south".to_string())]));
    // a field whose value is not a string never matches
    assert!(!event_occurred(&log, "door.opened", &vec![("count".to_string(), "3".to_string())]));
    assert!(!event_occurred(&log, "door.closed", &vec![]));
    assert!(event_occurred(&log, "enemy.killed", &vec![("enemy".to_string(), "goblin".to_string())]));
}

#[test]
fn test_functions_are_sorted() {
    let globals = vec![
        ("test_b".to_string(), true),
        ("helper".to_string(), true),
        ("test_a".to_string(), true),
        ("test_value".to_string(), false),
    ];
    assert_eq!(select_test_functions(globals), vec!["test_a".to_string(), "test_b".to_string()]);
}
