use rust_barrier::event::Event;
use rust_barrier::transport::send_with_fallback;
use rust_barrier::transport::Channel;
use rust_barrier::transport::DeviceId;
use rust_barrier::transport::ReceiveOutcome;
use rust_barrier::transport::ReceiverState;
use rust_barrier::transport::SendOutcome;
use rust_barrier::transport::Sender;
use rust_barrier::transport::TransportClass;
use rust_barrier::transport::TransportError;

#[test]
fn test_event_creation() {
    let envelope = rust_barrier::transport::Envelope {
        event: Event::MouseMove { x: 100, y: 200 },
        transport_class: TransportClass::Fast,
        sequence: 1,
        origin: DeviceId(1),
    };
    assert!(matches!(envelope.event, Event::MouseMove { x: 100, y: 200 }));
}

#[test]
fn test_sender_stamps_per_class_counters() {
    let mut sender = Sender::new(DeviceId(3));
    let e1 = sender.stamp(Event::Heartbeat, TransportClass::Reliable).unwrap();
    let e2 = sender.stamp(Event::Heartbeat, TransportClass::Reliable).unwrap();
    let f1 = sender.stamp(Event::Heartbeat, TransportClass::Fast).unwrap();
    assert_eq!(e1.sequence, 0);
    assert_eq!(e2.sequence, 1);
    // The fast stream counts independently: not globally unique.
    assert_eq!(f1.sequence, 0);
    assert_eq!(e1.origin, DeviceId(3));
}

#[test]
fn test_reliable_ordering_n_events() {
    // Ordering over the reliable path: N events sent with increasing
    // sequence numbers arrive in the same order and every one is in
    // order for the receiver.
    let mut sender = Sender::new(DeviceId(1));
    let mut channel = Channel::new();
    for i in 0..100 {
        let env = sender
            .stamp(Event::MouseMove { x: i, y: i }, TransportClass::Reliable)
            .unwrap();
        channel.send(env).unwrap();
    }
    let mut receiver = ReceiverState::new();
    for i in 0..100 {
        let env = channel.recv().unwrap().unwrap();
        assert!(matches!(env.event, Event::MouseMove { x, y } if x == i && y == i));
        assert_eq!(env.sequence, i as u32);
        let outcome = receiver.observe(env.transport_class, env.sequence);
        assert_eq!(outcome, ReceiveOutcome::Accept);
    }
    assert!(channel.recv().unwrap().is_none());
}

#[test]
fn test_fast_loss_tolerance() {
    // Message k = 2 is dropped in transit; k - 1 and k + 1 still go
    // through, without blocking or erroring.
    let mut receiver = ReceiverState::new();
    assert_eq!(receiver.observe(TransportClass::Fast, 0), ReceiveOutcome::Accept);
    assert_eq!(receiver.observe(TransportClass::Fast, 1), ReceiveOutcome::Accept);
    let after_gap = receiver.observe(TransportClass::Fast, 3);
    assert_eq!(after_gap, ReceiveOutcome::AcceptWithGap { missed: 1 });
}

#[test]
fn test_fast_late_packet_dropped_not_fatal() {
    let mut receiver = ReceiverState::new();
    assert_eq!(receiver.observe(TransportClass::Fast, 5), ReceiveOutcome::AcceptWithGap { missed: 5 });
    // The late packet 2 is dropped as stale; never a protocol violation.
    assert_eq!(receiver.observe(TransportClass::Fast, 2), ReceiveOutcome::DropStale);
    assert_eq!(receiver.observe(TransportClass::Fast, 6), ReceiveOutcome::Accept);
}

#[test]
fn test_reliable_gap_is_protocol_violation() {
    let mut receiver = ReceiverState::new();
    assert_eq!(receiver.observe(TransportClass::Reliable, 0), ReceiveOutcome::Accept);
    assert_eq!(receiver.observe(TransportClass::Reliable, 2), ReceiveOutcome::ProtocolViolation);
    // A regression is a violation as well.
    assert_eq!(receiver.observe(TransportClass::Reliable, 0), ReceiveOutcome::ProtocolViolation);
}

#[test]
fn test_send_fallback_to_reliable() {
    // The fast channel fails: the event must be retried once on the
    // reliable channel, never silently dropped.
    let mut sender = Sender::new(DeviceId(2));
    let mut fast = Channel::new();
    let mut reliable = Channel::new();
    fast.close();
    let outcome = send_with_fallback(
        &mut sender,
        &mut fast,
        &mut reliable,
        Event::MouseMove { x: 9, y: 9 },
    );
    assert_eq!(outcome, SendOutcome::SentReliableFallback);
    let env = reliable.recv().unwrap().unwrap();
    assert_eq!(env.transport_class, TransportClass::Reliable);
    assert!(matches!(env.event, Event::MouseMove { x: 9, y: 9 }));
}

#[test]
fn test_send_fast_when_channel_open() {
    let mut sender = Sender::new(DeviceId(2));
    let mut fast = Channel::new();
    let mut reliable = Channel::new();
    let outcome = send_with_fallback(
        &mut sender,
        &mut fast,
        &mut reliable,
        Event::MouseMove { x: 1, y: 1 },
    );
    assert_eq!(outcome, SendOutcome::SentFast);
    assert!(reliable.recv().unwrap().is_none());
    let env = fast.recv().unwrap().unwrap();
    assert_eq!(env.transport_class, TransportClass::Fast);
}

#[test]
fn test_closed_channel_terminates_receive() {
    let mut channel = Channel::new();
    channel.send(rust_barrier::transport::Envelope {
        event: Event::Heartbeat,
        transport_class: TransportClass::Reliable,
        sequence: 0,
        origin: DeviceId(1),
    }).unwrap();
    channel.close();
    // Pending envelopes drain, then the stream signals closure.
    assert!(channel.recv().unwrap().is_some());
    assert!(matches!(channel.recv(), Err(TransportError::ConnectionClosed)));
    assert!(matches!(channel.send(rust_barrier::transport::Envelope {
        event: Event::Heartbeat,
        transport_class: TransportClass::Reliable,
        sequence: 1,
        origin: DeviceId(1),
    }), Err(TransportError::ConnectionClosed)));
}
