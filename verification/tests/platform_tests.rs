use rust_barrier::event::Event;
use rust_barrier::platform::finish_injection;
use rust_barrier::platform::translate;
use rust_barrier::platform::GrabState;
use rust_barrier::platform::NativeEvent;
use rust_barrier::platform::PlatformError;

#[test]
fn test_linux_key_mapping() {
    let x11_key: u16 = 65; // 'A'

    let event = Event::new_key_press(x11_key, "A".to_string()).unwrap();

    assert_eq!(event, Event::KeyPress { code: 65, name: "A".to_string() });
}

#[test]
fn test_windows_key_mapping() {
    let vk: u16 = 0x41; // 'A'

    let event = Event::new_key_press(vk, "A".to_string()).unwrap();

    assert_eq!(event, Event::KeyPress { code: 0x41, name: "A".to_string() });
}

#[test]
fn test_translate_motion() {
    let r = translate(NativeEvent::Motion { x: -7, y: 1024 });
    assert_eq!(r.unwrap(), Event::MouseMove { x: -7, y: 1024 });
}

#[test]
fn test_translate_validates_buttons() {
    assert_eq!(
        translate(NativeEvent::Button { detail: 3, pressed: true }).unwrap(),
        Event::MouseButton { button: 3, pressed: true }
    );
    // Outside the modeled set: horizontal-scroll buttons map to nothing.
    assert!(translate(NativeEvent::Button { detail: 6, pressed: true }).is_none());
}

#[test]
fn test_translate_keys() {
    assert_eq!(
        translate(NativeEvent::Key { code: 65, name: "A".to_string(), pressed: true }).unwrap(),
        Event::KeyPress { code: 65, name: "A".to_string() }
    );
    assert_eq!(
        translate(NativeEvent::Key { code: 65, name: "A".to_string(), pressed: false }).unwrap(),
        Event::KeyRelease { code: 65, name: "A".to_string() }
    );
    assert!(translate(NativeEvent::Key { code: 65, name: "".to_string(), pressed: true }).is_none());
    assert!(translate(NativeEvent::Other).is_none());
}

#[test]
fn test_grab_released_on_injection_error() {
    // A simulated platform error during injection still ends with the
    // exclusive grab released.
    let failure = Err(PlatformError::Injection("synthesis refused".to_string()));
    let (grab, err) = finish_injection(GrabState::Held, failure);
    assert_eq!(grab, GrabState::Released);
    assert!(matches!(err, Some(PlatformError::Injection(_))));
}

#[test]
fn test_grab_released_on_injection_success() {
    let (grab, err) = finish_injection(GrabState::Held, Ok(()));
    assert_eq!(grab, GrabState::Released);
    assert!(err.is_none());
}
