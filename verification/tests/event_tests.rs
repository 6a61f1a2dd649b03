use rust_barrier::codec::decode_event;
use rust_barrier::codec::encode_event;
use rust_barrier::event::Event;

#[test]
fn test_event_serialization() {
    let event = Event::MouseMove { x: 100, y: 200 };
    let serialized = encode_event(&event);
    let deserialized: Event = decode_event(serialized.as_slice()).unwrap();
    assert_eq!(event, deserialized);
}

#[test]
fn event_tests_test_event_serialization() {
    let event = Event::MouseMove { x: 100, y: 200 };
    let serialized = encode_event(&event);
    let deserialized: Event = decode_event(serialized.as_slice()).unwrap();
    assert_eq!(event, deserialized);
}

#[test]
fn test_all_event_types() {
    let events = vec![
        Event::MouseMove { x: 100, y: 200 },
        Event::MouseMove { x: -2147483648, y: 2147483647 },
        Event::MouseButton { button: 1, pressed: true },
        Event::MouseButton { button: 5, pressed: false },
        Event::KeyPress { code: 65, name: "A".to_string() },
        Event::KeyRelease { code: 65, name: "A".to_string() },
        Event::KeyPress { code: 37, name: "Control_L".to_string() },
        Event::ScreenSwitch { to_screen: "windows-pc".to_string() },
        Event::Heartbeat,
        Event::Error("test error".to_string()),
        Event::Error("".to_string()),
        Event::KeyPress { code: 1, name: "\u{00e9}\u{4e2d}\u{1f600}".to_string() },
    ];

    for event in events {
        let bytes = encode_event(&event);
        let decoded = decode_event(bytes.as_slice()).unwrap();
        assert_eq!(decoded, event);
    }
}

#[test]
fn test_exact_wire_bytes_heartbeat() {
    // One fixed expected encoding: a heartbeat is its tag byte alone.
    let bytes = encode_event(&Event::Heartbeat);
    assert_eq!(bytes, vec![6u8]);
}

#[test]
fn test_exact_wire_bytes_mouse_button() {
    // Tag, button, pressed flag.
    let bytes = encode_event(&Event::MouseButton { button: 3, pressed: true });
    assert_eq!(bytes, vec![2u8, 3u8, 1u8]);
}

#[test]
fn test_exact_wire_bytes_key_press() {
    // Tag, code (little-endian u16), character count (u64), one scalar per
    // character (u32 each).
    let bytes = encode_event(&Event::KeyPress { code: 65, name: "A".to_string() });
    let expected = vec![
        3u8, // tag
        65, 0, // code
        1, 0, 0, 0, 0, 0, 0, 0, // one character
        65, 0, 0, 0, // 'A'
    ];
    assert_eq!(bytes, expected);
}
