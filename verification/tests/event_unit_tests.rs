use rust_barrier::event::Event;

#[test]
fn test_mouse_events() {
    let move_event = Event::MouseMove { x: -100, y: 500 };
    assert!(matches!(move_event, Event::MouseMove { x: -100, y: 500 }));

    let valid_button = Event::new_mouse_button(1, true);
    assert!(valid_button.is_some());

    let invalid_button = Event::new_mouse_button(6, true);
    assert!(invalid_button.is_none());
}

#[test]
fn test_keyboard_events() {
    let valid_key = Event::new_key_press(65, "A".to_string());
    assert!(valid_key.is_some());

    let invalid_key = Event::new_key_press(65, "".to_string());
    assert!(invalid_key.is_none());
}

#[test]
fn test_screen_switch() {
    let switch = Event::ScreenSwitch { to_screen: "linux-1".to_string() };
    assert!(matches!(switch, Event::ScreenSwitch { to_screen } if to_screen == "linux-1"));
}

#[test]
fn test_control_events() {
    let heartbeat = Event::Heartbeat;
    assert!(matches!(heartbeat, Event::Heartbeat));

    let error = Event::Error("connection lost".to_string());
    assert!(matches!(error, Event::Error(msg) if msg == "connection lost"));
}

#[test]
fn test_event_constructors() {
    assert!(Event::new_mouse_button(1, true).is_some());
    assert!(Event::new_mouse_button(6, true).is_none());

    assert!(Event::new_key_press(65, "A".to_string()).is_some());
    assert!(Event::new_key_press(65, "".to_string()).is_none());
}

#[test]
fn test_mouse_button_range_bounds() {
    assert!(Event::new_mouse_button(0, true).is_none());
    assert!(Event::new_mouse_button(5, false).is_some());
    assert!(Event::new_mouse_button(255, true).is_none());
    for b in 1u8..=5u8 {
        let e = Event::new_mouse_button(b, true).unwrap();
        assert_eq!(e, Event::MouseButton { button: b, pressed: true });
    }
}

#[test]
fn test_key_release_constructor() {
    let valid = Event::new_key_release(65, "A".to_string());
    assert_eq!(valid.unwrap(), Event::KeyRelease { code: 65, name: "A".to_string() });
    assert!(Event::new_key_release(65, "".to_string()).is_none());
}

#[test]
fn test_input_classification() {
    assert!(Event::MouseMove { x: 0, y: 0 }.is_input());
    assert!(Event::MouseMove { x: 0, y: 0 }.is_pointer());
    assert!(!Event::MouseMove { x: 0, y: 0 }.is_keyboard());
    assert!(Event::KeyPress { code: 1, name: "a".to_string() }.is_keyboard());
    assert!(Event::KeyRelease { code: 1, name: "a".to_string() }.is_input());
    assert!(!Event::Heartbeat.is_input());
    assert!(!Event::ScreenSwitch { to_screen: "s".to_string() }.is_input());
    assert!(!Event::Error("e".to_string()).is_input());
}

#[test]
fn test_duplicate_preserves_content() {
    let events = vec![
        Event::MouseMove { x: -3, y: 4 },
        Event::MouseButton { button: 2, pressed: false },
        Event::KeyPress { code: 65, name: "A".to_string() },
        Event::ScreenSwitch { to_screen: "left".to_string() },
        Event::Heartbeat,
        Event::Error("oops".to_string()),
    ];
    for e in &events {
        assert_eq!(e.duplicate(), *e);
    }
}

#[test]
fn test_event_equality_is_structural() {
    let a = Event::KeyPress { code: 65, name: "A".to_string() };
    let b = Event::KeyPress { code: 65, name: "A".to_string() };
    let c = Event::KeyPress { code: 65, name: "B".to_string() };
    assert_eq!(a, b);
    assert_ne!(a, c);
    assert_ne!(a, Event::KeyRelease { code: 65, name: "A".to_string() });
    assert_eq!(Event::Heartbeat, Event::Heartbeat);
}
