use rust_barrier::codec::decode_envelope;
use rust_barrier::codec::decode_event;
use rust_barrier::codec::encode_envelope;
use rust_barrier::codec::encode_event;
use rust_barrier::codec::frame_message;
use rust_barrier::codec::take_frame;
use rust_barrier::codec::DecodeError;
use rust_barrier::event::Event;
use rust_barrier::transport::DeviceId;
use rust_barrier::transport::Envelope;
use rust_barrier::transport::TransportClass;

#[test]
fn test_envelope_roundtrip() {
    let env = Envelope {
        event: Event::KeyPress { code: 65, name: "A".to_string() },
        transport_class: TransportClass::Reliable,
        sequence: 42,
        origin: DeviceId(7),
    };
    let bytes = encode_envelope(&env);
    let back = decode_envelope(bytes.as_slice()).unwrap();
    assert_eq!(back.event, env.event);
    assert_eq!(back.transport_class, env.transport_class);
    assert_eq!(back.sequence, env.sequence);
    assert_eq!(back.origin, env.origin);
}

#[test]
fn test_envelope_roundtrip_fast() {
    let env = Envelope {
        event: Event::MouseMove { x: -5, y: 12 },
        transport_class: TransportClass::Fast,
        sequence: 0,
        origin: DeviceId(0),
    };
    let bytes = encode_envelope(&env);
    let back = decode_envelope(bytes.as_slice()).unwrap();
    assert_eq!(back.event, env.event);
    assert_eq!(back.transport_class, TransportClass::Fast);
}

#[test]
fn test_decode_rejects_unknown_tag() {
    let r = decode_event(&[200u8]);
    assert!(matches!(r, Err(DecodeError::Malformed)));
}

#[test]
fn test_decode_rejects_truncated_payload() {
    let bytes = encode_event(&Event::MouseMove { x: 1, y: 2 });
    let r = decode_event(&bytes[..bytes.len() - 1]);
    assert!(matches!(r, Err(DecodeError::Malformed)));
}

#[test]
fn test_decode_rejects_trailing_bytes() {
    let mut bytes = encode_event(&Event::Heartbeat);
    bytes.push(0);
    let r = decode_event(bytes.as_slice());
    assert!(matches!(r, Err(DecodeError::TrailingData)));
}

#[test]
fn test_decode_rejects_invalid_button() {
    // A peer cannot smuggle in what construction forbids: button 6 on the
    // wire does not decode.
    let bytes = vec![2u8, 6u8, 1u8];
    let r = decode_event(bytes.as_slice());
    assert!(matches!(r, Err(DecodeError::Malformed)));
}

#[test]
fn test_decode_rejects_empty_key_name() {
    let bytes = vec![
        3u8, // key-press tag
        65, 0, // code
        0, 0, 0, 0, 0, 0, 0, 0, // zero characters
    ];
    let r = decode_event(bytes.as_slice());
    assert!(matches!(r, Err(DecodeError::Malformed)));
}

#[test]
fn test_decode_rejects_surrogate_scalar() {
    // 0xD800 is not a Unicode scalar value; such a character does not
    // decode.
    let bytes = vec![
        5u8, // screen-switch tag
        1, 0, 0, 0, 0, 0, 0, 0, // one character
        0x00, 0xD8, 0, 0, // a surrogate
    ];
    let r = decode_event(bytes.as_slice());
    assert!(matches!(r, Err(DecodeError::Malformed)));
}

#[test]
fn test_frame_roundtrip() {
    let msg = encode_event(&Event::ScreenSwitch { to_screen: "left".to_string() });
    let framed = frame_message(msg.as_slice());
    let (taken, used) = take_frame(framed.as_slice()).unwrap();
    assert_eq!(taken, msg);
    assert_eq!(used, framed.len());
}

#[test]
fn test_frame_incomplete_stream() {
    let msg = encode_event(&Event::Heartbeat);
    let framed = frame_message(msg.as_slice());
    // While the frame has not fully arrived, nothing is taken.
    assert!(take_frame(&framed[..framed.len() - 1]).is_none());
    assert!(take_frame(&framed[..4]).is_none());
}

#[test]
fn test_frame_stream_with_following_bytes() {
    // Two frames back to back on one byte stream split cleanly.
    let msg1 = encode_event(&Event::MouseMove { x: 1, y: 2 });
    let msg2 = encode_event(&Event::Heartbeat);
    let mut stream = frame_message(msg1.as_slice());
    stream.extend(frame_message(msg2.as_slice()));

    let (taken1, used1) = take_frame(stream.as_slice()).unwrap();
    assert_eq!(taken1, msg1);
    let (taken2, used2) = take_frame(&stream[used1..]).unwrap();
    assert_eq!(taken2, msg2);
    assert_eq!(used1 + used2, stream.len());
}

#[test]
fn test_handshake_roundtrip() {
    let msg = rust_barrier::session::HandshakeMessage {
        device_id: DeviceId(12),
        credential: vec![1, 2, 3, 255, 0],
    };
    let bytes = rust_barrier::codec::encode_handshake(&msg);
    let back = rust_barrier::codec::decode_handshake(bytes.as_slice()).unwrap();
    assert_eq!(back.device_id, DeviceId(12));
    assert_eq!(back.credential, vec![1, 2, 3, 255, 0]);
}

#[test]
fn test_handshake_reply_roundtrip() {
    for accepted in [true, false] {
        let reply = rust_barrier::session::HandshakeReply { accepted };
        let bytes = rust_barrier::codec::encode_handshake_reply(&reply);
        let back = rust_barrier::codec::decode_handshake_reply(bytes.as_slice()).unwrap();
        assert_eq!(back, reply);
    }
    // A reply is exactly one flag byte; anything else is malformed.
    assert!(rust_barrier::codec::decode_handshake_reply(&[2u8]).is_err());
    assert!(rust_barrier::codec::decode_handshake_reply(&[1u8, 0u8]).is_err());
}

#[test]
fn test_handshake_rejects_truncated() {
    let msg = rust_barrier::session::HandshakeMessage {
        device_id: DeviceId(12),
        credential: vec![9, 9, 9],
    };
    let bytes = rust_barrier::codec::encode_handshake(&msg);
    let r = rust_barrier::codec::decode_handshake(&bytes[..bytes.len() - 1]);
    assert!(matches!(r, Err(DecodeError::Malformed)));
}

#[test]
fn test_invalid_button_is_not_transmitted() {
    // Construction of an out-of-range button yields no event, so nothing
    // exists to encode or send.
    let event = Event::new_mouse_button(6, true);
    assert!(event.is_none());
}
