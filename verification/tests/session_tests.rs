use rust_barrier::event::Event;
use rust_barrier::session::AuthenticationError;
use rust_barrier::session::HandshakeMessage;
use rust_barrier::session::Session;
use rust_barrier::session::SessionConfig;
use rust_barrier::session::SessionPhase;
use rust_barrier::transport::DeviceId;
use rust_barrier::transport::Envelope;
use rust_barrier::transport::ReceiveOutcome;
use rust_barrier::transport::TransportClass;

fn test_config() -> SessionConfig {
    SessionConfig { heartbeat_timeout: 10, disconnect_timeout: 30 }
}

#[test]
fn test_handshake_success() {
    let mut session = Session::new(test_config(), 0);
    assert_eq!(session.phase, SessionPhase::Connecting);
    session.on_connected();
    assert_eq!(session.phase, SessionPhase::Authenticating);

    let msg = HandshakeMessage { device_id: DeviceId(9), credential: b"secret".to_vec() };
    let reply = session.authenticate(&msg, &b"secret".to_vec()).unwrap();
    assert!(reply.accepted);
    assert_eq!(session.phase, SessionPhase::Active);
    assert!(session.authenticated);
    assert_eq!(session.device_id, DeviceId(9));
}

#[test]
fn test_handshake_rejects_wrong_credential() {
    let mut session = Session::new(test_config(), 0);
    session.on_connected();
    let msg = HandshakeMessage { device_id: DeviceId(9), credential: b"wrong_password".to_vec() };
    let r = session.authenticate(&msg, &b"secret".to_vec());
    assert!(matches!(r, Err(AuthenticationError::CredentialMismatch)));
    // Terminal: the session never resurrects.
    assert_eq!(session.phase, SessionPhase::Failed);
    assert!(!session.authenticated);
    let retry = session.authenticate(&msg, &b"secret".to_vec());
    assert!(matches!(retry, Err(AuthenticationError::NotAuthenticating)));
}

#[test]
fn test_no_events_accepted_before_authentication() {
    let mut session = Session::new(test_config(), 0);
    let key = Event::KeyPress { code: 65, name: "A".to_string() };
    assert!(!session.may_accept(&key));
    assert!(session.may_accept(&Event::Heartbeat));
    session.on_connected();
    assert!(!session.may_accept(&key));
    let msg = HandshakeMessage { device_id: DeviceId(1), credential: b"s".to_vec() };
    session.authenticate(&msg, &b"s".to_vec()).unwrap();
    assert!(session.may_accept(&key));
}

#[test]
fn test_heartbeat_timeout_degrades_then_disconnects() {
    let mut session = Session::new(test_config(), 0);
    session.on_connected();
    let msg = HandshakeMessage { device_id: DeviceId(1), credential: b"s".to_vec() };
    session.authenticate(&msg, &b"s".to_vec()).unwrap();

    // Within the heartbeat timeout nothing changes.
    assert!(!session.on_tick(10));
    assert_eq!(session.phase, SessionPhase::Active);
    // Beyond it, the session degrades: the fast channel is distrusted.
    assert!(!session.on_tick(11));
    assert_eq!(session.phase, SessionPhase::Degraded);
    // Beyond the longer timeout, the session disconnects terminally.
    assert!(!session.on_tick(31));
    assert_eq!(session.phase, SessionPhase::Disconnected);
}

#[test]
fn test_heartbeat_timeout_releases_grab() {
    // No heartbeat for longer than the configured timeout: the session
    // transitions to Disconnected and releases the held grab.
    let mut session = Session::new(test_config(), 0);
    session.on_connected();
    let msg = HandshakeMessage { device_id: DeviceId(1), credential: b"s".to_vec() };
    session.authenticate(&msg, &b"s".to_vec()).unwrap();
    session.grant_grab();
    assert!(session.holds_grab);

    let released = session.on_tick(31);
    assert!(released);
    assert!(!session.holds_grab);
    assert_eq!(session.phase, SessionPhase::Disconnected);
}

#[test]
fn test_heartbeat_recovers_degraded_session() {
    let mut session = Session::new(test_config(), 0);
    session.on_connected();
    let msg = HandshakeMessage { device_id: DeviceId(1), credential: b"s".to_vec() };
    session.authenticate(&msg, &b"s".to_vec()).unwrap();
    session.on_tick(11);
    assert_eq!(session.phase, SessionPhase::Degraded);
    session.on_heartbeat(12);
    assert_eq!(session.phase, SessionPhase::Active);
    assert!(!session.on_tick(13));
    assert_eq!(session.phase, SessionPhase::Active);
}

#[test]
fn test_reliable_violation_disconnects_and_releases_grab() {
    let mut session = Session::new(test_config(), 0);
    session.on_connected();
    let msg = HandshakeMessage { device_id: DeviceId(1), credential: b"s".to_vec() };
    session.authenticate(&msg, &b"s".to_vec()).unwrap();
    session.grant_grab();

    let ok = Envelope {
        event: Event::Heartbeat,
        transport_class: TransportClass::Reliable,
        sequence: 0,
        origin: DeviceId(1),
    };
    let (outcome, released) = session.observe_envelope(&ok);
    assert_eq!(outcome, ReceiveOutcome::Accept);
    assert!(!released);

    // Sequence 2 skips 1: stream corruption, terminal.
    let gap = Envelope {
        event: Event::Heartbeat,
        transport_class: TransportClass::Reliable,
        sequence: 2,
        origin: DeviceId(1),
    };
    let (outcome, released) = session.observe_envelope(&gap);
    assert_eq!(outcome, ReceiveOutcome::ProtocolViolation);
    assert!(released);
    assert_eq!(session.phase, SessionPhase::Disconnected);
    assert!(!session.holds_grab);
}

#[test]
fn test_fast_gap_does_not_disconnect() {
    let mut session = Session::new(test_config(), 0);
    session.on_connected();
    let msg = HandshakeMessage { device_id: DeviceId(1), credential: b"s".to_vec() };
    session.authenticate(&msg, &b"s".to_vec()).unwrap();

    let fast = |sequence: u32| Envelope {
        event: Event::MouseMove { x: 0, y: 0 },
        transport_class: TransportClass::Fast,
        sequence,
        origin: DeviceId(1),
    };
    let (o0, _) = session.observe_envelope(&fast(0));
    assert_eq!(o0, ReceiveOutcome::Accept);
    let (o5, _) = session.observe_envelope(&fast(5));
    assert_eq!(o5, ReceiveOutcome::AcceptWithGap { missed: 4 });
    assert_eq!(session.phase, SessionPhase::Active);
}
