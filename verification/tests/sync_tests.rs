use rust_barrier::event::Event;
use rust_barrier::sync::Synchronizer;
use rust_barrier::sync::TimedEvent;
use rust_barrier::transport::DeviceId;

#[test]
fn test_concurrent_input_resolution() {
    let mut sync = Synchronizer::new();

    let event1 = TimedEvent::new(Event::MouseMove { x: 100, y: 200 }, 1);
    let event2 = TimedEvent::new(Event::MouseMove { x: 150, y: 250 }, 1);

    sync.add_event(event1.clone(), DeviceId(0));
    sync.add_event(event2.clone(), DeviceId(1));

    let resolved = sync.resolve_conflicts();

    // Last writer wins on a tied logical clock.
    assert!(resolved.contains(&event2));
    assert!(!resolved.contains(&event1));
}

#[test]
fn test_conflict_resolution_is_deterministic() {
    // Repeated runs with the same input decide identically.
    let mut outcomes = Vec::new();
    for _ in 0..3 {
        let mut sync = Synchronizer::new();
        sync.add_event(TimedEvent::new(Event::MouseMove { x: 1, y: 1 }, 1), DeviceId(0));
        sync.add_event(TimedEvent::new(Event::MouseMove { x: 2, y: 2 }, 1), DeviceId(1));
        sync.add_event(TimedEvent::new(Event::MouseMove { x: 3, y: 3 }, 2), DeviceId(0));
        outcomes.push(sync.resolve_conflicts());
    }
    assert_eq!(outcomes[0], outcomes[1]);
    assert_eq!(outcomes[1], outcomes[2]);
}

#[test]
fn test_authority_discards_other_origins() {
    // Events from origin A and origin B overlap a screen switch to B: all
    // A-events after the switch are discarded, all B-events accepted.
    let a = DeviceId(10);
    let b = DeviceId(20);
    let mut sync = Synchronizer::new();
    sync.register_screen("screen-b".to_string(), b);
    sync.handle_screen_switch(&"screen-b".to_string());

    let b1 = TimedEvent::new(Event::MouseMove { x: 1, y: 1 }, 1);
    let a1 = TimedEvent::new(Event::MouseMove { x: 9, y: 9 }, 2);
    let b2 = TimedEvent::new(Event::MouseMove { x: 2, y: 2 }, 3);
    let a2 = TimedEvent::new(Event::MouseMove { x: 8, y: 8 }, 4);

    sync.add_event(b1.clone(), b);
    sync.add_event(a1.clone(), a);
    sync.add_event(b2.clone(), b);
    sync.add_event(a2.clone(), a);

    let resolved = sync.resolve_conflicts();
    assert_eq!(resolved, vec![b1, b2]);
    assert_eq!(sync.discard_count(), 2);
}

#[test]
fn test_stale_clock_discarded() {
    let d = DeviceId(1);
    let mut sync = Synchronizer::new();
    sync.add_event(TimedEvent::new(Event::MouseMove { x: 1, y: 1 }, 5), d);
    sync.add_event(TimedEvent::new(Event::MouseMove { x: 2, y: 2 }, 5), d);
    sync.add_event(TimedEvent::new(Event::MouseMove { x: 3, y: 3 }, 4), d);
    sync.add_event(TimedEvent::new(Event::MouseMove { x: 4, y: 4 }, 6), d);
    let resolved = sync.resolve_conflicts();
    // Only strict clock advances are accepted.
    assert_eq!(resolved.len(), 2);
    assert!(matches!(resolved[0].event, Event::MouseMove { x: 1, y: 1 }));
    assert!(matches!(resolved[1].event, Event::MouseMove { x: 4, y: 4 }));
    assert_eq!(sync.discard_count(), 2);
}

#[test]
fn test_ties_across_targets_do_not_conflict() {
    // A pointer event and a keyboard event with the same clock value do
    // not compete: different logical targets.
    let mut sync = Synchronizer::new();
    let pointer = TimedEvent::new(Event::MouseMove { x: 1, y: 1 }, 1);
    let keyboard = TimedEvent::new(Event::KeyPress { code: 65, name: "A".to_string() }, 1);
    sync.add_event(pointer.clone(), DeviceId(0));
    sync.add_event(keyboard.clone(), DeviceId(1));
    let resolved = sync.resolve_conflicts();
    assert_eq!(resolved, vec![pointer, keyboard]);
    assert_eq!(sync.discard_count(), 0);
}

#[test]
fn test_switch_to_unknown_screen_keeps_authority() {
    let mut sync = Synchronizer::new();
    sync.register_screen("known".to_string(), DeviceId(4));
    sync.handle_screen_switch(&"known".to_string());
    sync.handle_screen_switch(&"unknown".to_string());
    // Only the known screen's origin is accepted afterwards.
    let keep = TimedEvent::new(Event::MouseMove { x: 1, y: 1 }, 1);
    sync.add_event(keep.clone(), DeviceId(4));
    sync.add_event(TimedEvent::new(Event::MouseMove { x: 2, y: 2 }, 1), DeviceId(5));
    let resolved = sync.resolve_conflicts();
    assert_eq!(resolved, vec![keep]);
}
