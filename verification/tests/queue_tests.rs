use rust_barrier::event::Event;
use rust_barrier::queue::EventQueue;
use rust_barrier::sync::Synchronizer;
use rust_barrier::transport::DeviceId;

#[test]
fn test_dispatcher_preserves_client_order() {
    // The client sends a mouse move then a button press; the dispatcher
    // output is exactly those two events, in that order.
    let mut queue = EventQueue::new(32);
    let mut sync = Synchronizer::new();

    assert!(queue.add_event(Event::MouseMove { x: 100, y: 200 }));
    assert!(queue.add_event(Event::new_mouse_button(1, true).unwrap()));

    let out = queue.process_events(&mut sync);
    assert_eq!(
        out.injected,
        vec![
            Event::MouseMove { x: 100, y: 200 },
            Event::MouseButton { button: 1, pressed: true },
        ]
    );
    assert_eq!(out.heartbeats, 0);
    assert!(out.diagnostics.is_empty());
}

#[test]
fn test_bounded_queue_refuses_when_full() {
    let mut queue = EventQueue::new(2);
    assert!(queue.add_event(Event::Heartbeat));
    assert!(queue.add_event(Event::Heartbeat));
    // The producer must suspend: the event is refused, not dropped.
    assert!(!queue.add_event(Event::Heartbeat));

    let mut sync = Synchronizer::new();
    let out = queue.process_events(&mut sync);
    assert_eq!(out.heartbeats, 2);
    // Drained: there is room again.
    assert!(queue.add_event(Event::Heartbeat));
}

#[test]
fn test_dispatcher_routes_heartbeats_and_errors() {
    let mut queue = EventQueue::new(8);
    let mut sync = Synchronizer::new();
    assert!(queue.add_event(Event::Heartbeat));
    assert!(queue.add_event(Event::Error("transient glitch".to_string())));
    assert!(queue.add_event(Event::MouseMove { x: 1, y: 2 }));
    assert!(queue.add_event(Event::Heartbeat));

    let out = queue.process_events(&mut sync);
    assert_eq!(out.heartbeats, 2);
    assert_eq!(out.diagnostics, vec!["transient glitch".to_string()]);
    assert_eq!(out.injected, vec![Event::MouseMove { x: 1, y: 2 }]);
}

#[test]
fn test_dispatcher_applies_screen_switch_authority() {
    let mut queue = EventQueue::new(8);
    let mut sync = Synchronizer::new();
    let remote = DeviceId(7);
    sync.register_screen("remote-screen".to_string(), remote);

    // The local origin feeds an event, the switch hands authority to the
    // remote screen, and from then on only the remote origin passes.
    assert!(queue.add_remote_event(remote, 1, Event::MouseMove { x: 5, y: 5 }));
    assert!(queue.add_event(Event::ScreenSwitch { to_screen: "remote-screen".to_string() }));
    assert!(queue.add_event(Event::MouseMove { x: 1, y: 1 }));
    assert!(queue.add_remote_event(remote, 2, Event::MouseMove { x: 6, y: 6 }));

    let out = queue.process_events(&mut sync);
    assert_eq!(
        out.injected,
        vec![Event::MouseMove { x: 5, y: 5 }, Event::MouseMove { x: 6, y: 6 }]
    );
    assert_eq!(sync.discard_count(), 1);
}

#[test]
fn test_local_origin_under_authority() {
    // Once the handshake has assigned this host its device id, locally
    // captured events carry it and pass under the matching authority.
    let mut queue = EventQueue::new(4);
    queue.set_local_origin(DeviceId(3));
    let mut sync = Synchronizer::new();
    sync.register_screen("here".to_string(), DeviceId(3));
    sync.handle_screen_switch(&"here".to_string());
    assert!(queue.add_event(Event::MouseMove { x: 1, y: 1 }));
    let out = queue.process_events(&mut sync);
    assert_eq!(out.injected, vec![Event::MouseMove { x: 1, y: 1 }]);
    assert_eq!(sync.discard_count(), 0);
}

#[test]
fn test_local_events_get_increasing_clocks() {
    let mut queue = EventQueue::new(8);
    let mut sync = Synchronizer::new();
    for i in 0..5 {
        assert!(queue.add_event(Event::MouseMove { x: i, y: i }));
    }
    let out = queue.process_events(&mut sync);
    // All five pass: strictly increasing local clocks never conflict.
    assert_eq!(out.injected.len(), 5);
    for (i, e) in out.injected.iter().enumerate() {
        let i = i as i32;
        assert!(matches!(e, Event::MouseMove { x, y } if *x == i && *y == i));
    }
}
