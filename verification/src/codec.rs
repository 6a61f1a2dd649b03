//! The wire codec: a self-framing binary encoding for events and envelopes.
//!
//! Layout, all integers little-endian: an event is a tag byte followed by its
//! fields; strings are a u64 character count followed by one u32 Unicode
//! scalar per character; an envelope is a class byte, a u32 sequence, a u64
//! origin and the event; a reliable-stream frame is a u64 payload length
//! followed by the payload, so framing is unambiguous on a byte stream.
//!
//! Decoding validates what construction validates (button range, non-empty
//! key names), so no invalid event can enter through the wire. The codec is
//! proved to round-trip: decoding an encoding yields the original value.

use vstd::prelude::*;
use vstd::bytes::spec_u16_to_le_bytes;
use vstd::bytes::spec_u16_from_le_bytes;
use vstd::bytes::lemma_auto_spec_u16_to_from_le_bytes;
use vstd::bytes::spec_u32_to_le_bytes;
use vstd::bytes::spec_u32_from_le_bytes;
use vstd::bytes::lemma_auto_spec_u32_to_from_le_bytes;
use vstd::bytes::spec_u64_to_le_bytes;
use vstd::bytes::spec_u64_from_le_bytes;
use vstd::bytes::lemma_auto_spec_u64_to_from_le_bytes;
use vstd::bytes::u16_to_le_bytes;
use vstd::bytes::u16_from_le_bytes;
use vstd::bytes::u32_to_le_bytes;
use vstd::bytes::u32_from_le_bytes;
use vstd::bytes::u64_to_le_bytes;
use vstd::bytes::u64_from_le_bytes;
use vstd::utf8::is_scalar;
use vstd::utf8::char_is_scalar;
use vstd::utf8::char_u32_cast;
use vstd::slice::slice_subrange;
use vstd::slice::slice_index_get;
use vstd::slice::slice_to_vec;
use vstd::string::StrSliceExecFns;

use crate::event::Event;
use crate::event::EventV;
use crate::event::wf_event;
use crate::transport::TransportClass;
use crate::transport::DeviceId;
use crate::transport::Envelope;
use crate::transport::EnvelopeV;
use crate::session::HandshakeMessage;
use crate::session::HandshakeMessageV;
use crate::session::HandshakeReply;

verus! {

pub const TAG_MOUSE_MOVE: u8 = 1;

pub const TAG_MOUSE_BUTTON: u8 = 2;

pub const TAG_KEY_PRESS: u8 = 3;

pub const TAG_KEY_RELEASE: u8 = 4;

pub const TAG_SCREEN_SWITCH: u8 = 5;

pub const TAG_HEARTBEAT: u8 = 6;

pub const TAG_ERROR: u8 = 7;

/// Why a payload was rejected: it does not parse as one value (bytes
/// missing, an unknown tag, an impossible field), or bytes trail a complete
/// value, so the payload boundary is wrong.
#[derive(Clone, Copy, Debug, PartialEq, Eq, Structural)]
pub enum DecodeError {
    Malformed,
    TrailingData,
}

// ---------------------------------------------------------------------------
// Specification: encoding
// ---------------------------------------------------------------------------
/// Signed coordinates ride as unsigned bytes, shifted by 2^31 so the mapping
/// needs no bit-level reasoning.
pub open spec fn i32_to_wire(x: i32) -> u32 {
    (x + 0x8000_0000) as u32
}

pub open spec fn wire_to_i32(v: u32) -> i32 {
    (v - 0x8000_0000) as i32
}

pub open spec fn enc_bool(b: bool) -> Seq<u8> {
    if b {
        seq![1u8]
    } else {
        seq![0u8]
    }
}

pub open spec fn enc_char(c: char) -> Seq<u8> {
    spec_u32_to_le_bytes(c as u32)
}

pub open spec fn enc_chars(s: Seq<char>) -> Seq<u8>
    decreases s.len(),
{
    if s.len() == 0 {
        Seq::empty()
    } else {
        enc_char(s[0]) + enc_chars(s.drop_first())
    }
}

/// A string is its character count (u64) followed by its characters.
pub open spec fn enc_str(s: Seq<char>) -> Seq<u8>
    recommends
        s.len() <= u64::MAX,
{
    spec_u64_to_le_bytes(s.len() as u64) + enc_chars(s)
}

/// The byte encoding of one event: a tag byte, then the fields.
pub open spec fn spec_encode_event(e: EventV) -> Seq<u8> {
    match e {
        EventV::MouseMove { x, y } => seq![TAG_MOUSE_MOVE] + spec_u32_to_le_bytes(i32_to_wire(x))
            + spec_u32_to_le_bytes(i32_to_wire(y)),
        EventV::MouseButton { button, pressed } => seq![TAG_MOUSE_BUTTON] + seq![button] + enc_bool(
            pressed,
        ),
        EventV::KeyPress { code, name } => seq![TAG_KEY_PRESS] + spec_u16_to_le_bytes(code)
            + enc_str(name),
        EventV::KeyRelease { code, name } => seq![TAG_KEY_RELEASE] + spec_u16_to_le_bytes(code)
            + enc_str(name),
        EventV::ScreenSwitch { to_screen } => seq![TAG_SCREEN_SWITCH] + enc_str(to_screen),
        EventV::Heartbeat => seq![TAG_HEARTBEAT],
        EventV::Error(message) => seq![TAG_ERROR] + enc_str(message),
    }
}

pub open spec fn class_byte(c: TransportClass) -> u8 {
    match c {
        TransportClass::Reliable => 0,
        TransportClass::Fast => 1,
    }
}

/// The byte encoding of an envelope: class, sequence, origin, then the event.
pub open spec fn spec_encode_envelope(v: EnvelopeV) -> Seq<u8> {
    seq![class_byte(v.transport_class)] + spec_u32_to_le_bytes(v.sequence) + spec_u64_to_le_bytes(
        v.origin.0,
    ) + spec_encode_event(v.event)
}

/// A reliable-stream frame: the payload length (u64), then the payload.
pub open spec fn spec_frame(msg: Seq<u8>) -> Seq<u8>
    recommends
        msg.len() <= u64::MAX,
{
    spec_u64_to_le_bytes(msg.len() as u64) + msg
}

// ---------------------------------------------------------------------------
// Specification: parsing. Each parser reads at a position and returns the
// value with the position just past it, or `None` when the bytes do not
// hold one.
// ---------------------------------------------------------------------------
pub open spec fn parse_u8_at(b: Seq<u8>, i: int) -> Option<(u8, int)> {
    if 0 <= i && i + 1 <= b.len() {
        Some((b[i], i + 1))
    } else {
        None
    }
}

pub open spec fn parse_u16_at(b: Seq<u8>, i: int) -> Option<(u16, int)> {
    if 0 <= i && i + 2 <= b.len() {
        Some((spec_u16_from_le_bytes(b.subrange(i, i + 2)), i + 2))
    } else {
        None
    }
}

pub open spec fn parse_u32_at(b: Seq<u8>, i: int) -> Option<(u32, int)> {
    if 0 <= i && i + 4 <= b.len() {
        Some((spec_u32_from_le_bytes(b.subrange(i, i + 4)), i + 4))
    } else {
        None
    }
}

pub open spec fn parse_u64_at(b: Seq<u8>, i: int) -> Option<(u64, int)> {
    if 0 <= i && i + 8 <= b.len() {
        Some((spec_u64_from_le_bytes(b.subrange(i, i + 8)), i + 8))
    } else {
        None
    }
}

pub open spec fn parse_bool_at(b: Seq<u8>, i: int) -> Option<(bool, int)> {
    match parse_u8_at(b, i) {
        Some((v, j)) => if v == 0 {
            Some((false, j))
        } else if v == 1 {
            Some((true, j))
        } else {
            None
        },
        None => None,
    }
}

/// Only valid Unicode scalars parse as characters.
pub open spec fn parse_char_at(b: Seq<u8>, i: int) -> Option<(char, int)> {
    match parse_u32_at(b, i) {
        Some((v, j)) => if is_scalar(v) {
            Some((v as char, j))
        } else {
            None
        },
        None => None,
    }
}

pub open spec fn parse_chars_at(b: Seq<u8>, i: int, n: nat) -> Option<(Seq<char>, int)>
    decreases n,
{
    if n == 0 {
        Some((Seq::empty(), i))
    } else {
        match parse_char_at(b, i) {
            Some((c, j)) => match parse_chars_at(b, j, (n - 1) as nat) {
                Some((s, k)) => Some((seq![c] + s, k)),
                None => None,
            },
            None => None,
        }
    }
}

pub open spec fn parse_str_at(b: Seq<u8>, i: int) -> Option<(Seq<char>, int)> {
    match parse_u64_at(b, i) {
        Some((n, j)) => parse_chars_at(b, j, n as nat),
        None => None,
    }
}

/// Parses one event, enforcing the construction-time invariants: a mouse
/// button outside 1..=5, an empty key name, an unknown tag or a flag byte
/// other than 0 or 1 does not parse.
pub open spec fn parse_event_at(b: Seq<u8>, i: int) -> Option<(EventV, int)> {
    match parse_u8_at(b, i) {
        Some((tag, j)) => if tag == TAG_MOUSE_MOVE {
            match parse_u32_at(b, j) {
                Some((xv, k)) => match parse_u32_at(b, k) {
                    Some((yv, l)) => Some(
                        (EventV::MouseMove { x: wire_to_i32(xv), y: wire_to_i32(yv) }, l),
                    ),
                    None => None,
                },
                None => None,
            }
        } else if tag == TAG_MOUSE_BUTTON {
            match parse_u8_at(b, j) {
                Some((button, k)) => if 1 <= button <= 5 {
                    match parse_bool_at(b, k) {
                        Some((p, l)) => Some((EventV::MouseButton { button, pressed: p }, l)),
                        None => None,
                    }
                } else {
                    None
                },
                None => None,
            }
        } else if tag == TAG_KEY_PRESS {
            match parse_u16_at(b, j) {
                Some((code, k)) => match parse_str_at(b, k) {
                    Some((name, l)) => if name.len() > 0 {
                        Some((EventV::KeyPress { code, name }, l))
                    } else {
                        None
                    },
                    None => None,
                },
                None => None,
            }
        } else if tag == TAG_KEY_RELEASE {
            match parse_u16_at(b, j) {
                Some((code, k)) => match parse_str_at(b, k) {
                    Some((name, l)) => if name.len() > 0 {
                        Some((EventV::KeyRelease { code, name }, l))
                    } else {
                        None
                    },
                    None => None,
                },
                None => None,
            }
        } else if tag == TAG_SCREEN_SWITCH {
            match parse_str_at(b, j) {
                Some((to_screen, l)) => Some((EventV::ScreenSwitch { to_screen }, l)),
                None => None,
            }
        } else if tag == TAG_HEARTBEAT {
            Some((EventV::Heartbeat, j))
        } else if tag == TAG_ERROR {
            match parse_str_at(b, j) {
                Some((message, l)) => Some((EventV::Error(message), l)),
                None => None,
            }
        } else {
            None
        },
        None => None,
    }
}

pub open spec fn parse_class_at(b: Seq<u8>, i: int) -> Option<(TransportClass, int)> {
    match parse_u8_at(b, i) {
        Some((v, j)) => if v == 0 {
            Some((TransportClass::Reliable, j))
        } else if v == 1 {
            Some((TransportClass::Fast, j))
        } else {
            None
        },
        None => None,
    }
}

pub open spec fn parse_envelope_at(b: Seq<u8>, i: int) -> Option<(EnvelopeV, int)> {
    match parse_class_at(b, i) {
        Some((class, j)) => match parse_u32_at(b, j) {
            Some((sequence, k)) => match parse_u64_at(b, k) {
                Some((origin, l)) => match parse_event_at(b, l) {
                    Some((event, m)) => Some(
                        (
                            EnvelopeV {
                                event,
                                transport_class: class,
                                sequence,
                                origin: DeviceId(origin),
                            },
                            m,
                        ),
                    ),
                    None => None,
                },
                None => None,
            },
            None => None,
        },
        None => None,
    }
}

/// A whole payload decodes as one event exactly when it parses and nothing
/// trails it.
pub open spec fn spec_decode_event(b: Seq<u8>) -> Option<EventV> {
    match parse_event_at(b, 0) {
        Some((e, j)) => if j == b.len() {
            Some(e)
        } else {
            None
        },
        None => None,
    }
}

pub open spec fn spec_decode_envelope(b: Seq<u8>) -> Option<EnvelopeV> {
    match parse_envelope_at(b, 0) {
        Some((v, j)) => if j == b.len() {
            Some(v)
        } else {
            None
        },
        None => None,
    }
}

/// A byte string on the wire: its length (u64), then its bytes.
pub open spec fn enc_bytes(s: Seq<u8>) -> Seq<u8>
    recommends
        s.len() <= u64::MAX,
{
    spec_u64_to_le_bytes(s.len() as u64) + s
}

pub open spec fn parse_bytes_at(b: Seq<u8>, i: int) -> Option<(Seq<u8>, int)> {
    match parse_u64_at(b, i) {
        Some((n, j)) => if j + n <= b.len() {
            Some((b.subrange(j, j + n), j + n))
        } else {
            None
        },
        None => None,
    }
}

/// The handshake message both sides send immediately after connect: the
/// sender's device id, then its credential bytes.
pub open spec fn spec_encode_handshake(m: HandshakeMessageV) -> Seq<u8> {
    spec_u64_to_le_bytes(m.device_id.0) + enc_bytes(m.credential)
}

pub open spec fn parse_handshake_at(b: Seq<u8>, i: int) -> Option<(HandshakeMessageV, int)> {
    match parse_u64_at(b, i) {
        Some((device, j)) => match parse_bytes_at(b, j) {
            Some((credential, k)) => Some(
                (HandshakeMessageV { device_id: DeviceId(device), credential }, k),
            ),
            None => None,
        },
        None => None,
    }
}

pub open spec fn spec_decode_handshake(b: Seq<u8>) -> Option<HandshakeMessageV> {
    match parse_handshake_at(b, 0) {
        Some((m, j)) => if j == b.len() {
            Some(m)
        } else {
            None
        },
        None => None,
    }
}

/// The handshake reply: one flag byte.
pub open spec fn spec_encode_handshake_reply(r: HandshakeReply) -> Seq<u8> {
    enc_bool(r.accepted)
}

pub open spec fn spec_decode_handshake_reply(b: Seq<u8>) -> Option<HandshakeReply> {
    match parse_bool_at(b, 0) {
        Some((accepted, j)) => if j == b.len() {
            Some(HandshakeReply { accepted })
        } else {
            None
        },
        None => None,
    }
}

/// Splitting a byte stream at a frame boundary: the payload and what
/// follows it, once the length prefix and the whole payload have arrived.
pub open spec fn spec_take_frame(b: Seq<u8>) -> Option<(Seq<u8>, Seq<u8>)> {
    match parse_u64_at(b, 0) {
        Some((n, j)) => if j + n <= b.len() {
            Some((b.subrange(j, j + n), b.subrange(j + n, b.len() as int)))
        } else {
            None
        },
        None => None,
    }
}

// ---------------------------------------------------------------------------
// Round-trip lemmas: parsing at a position where an encoding sits yields
// the encoded value and stops just past it.
// ---------------------------------------------------------------------------
pub proof fn lemma_parse_u8_at(b: Seq<u8>, i: int, x: u8)
    requires
        0 <= i,
        i + 1 <= b.len(),
        b.subrange(i, i + 1) == seq![x],
    ensures
        parse_u8_at(b, i) == Some((x, i + 1)),
{
    assert(b[i] == b.subrange(i, i + 1)[0]);
}

pub proof fn lemma_parse_u16_at(b: Seq<u8>, i: int, x: u16)
    requires
        0 <= i,
        i + 2 <= b.len(),
        b.subrange(i, i + 2) == spec_u16_to_le_bytes(x),
    ensures
        parse_u16_at(b, i) == Some((x, i + 2)),
{
    lemma_auto_spec_u16_to_from_le_bytes();
    assert(spec_u16_to_le_bytes(x).len() == 2);
    assert(spec_u16_from_le_bytes(spec_u16_to_le_bytes(x)) == x);
    assert(spec_u16_from_le_bytes(b.subrange(i, i + 2)) == x);
}

pub proof fn lemma_parse_u32_at(b: Seq<u8>, i: int, x: u32)
    requires
        0 <= i,
        i + 4 <= b.len(),
        b.subrange(i, i + 4) == spec_u32_to_le_bytes(x),
    ensures
        parse_u32_at(b, i) == Some((x, i + 4)),
{
    lemma_auto_spec_u32_to_from_le_bytes();
    assert(spec_u32_to_le_bytes(x).len() == 4);
    assert(spec_u32_from_le_bytes(spec_u32_to_le_bytes(x)) == x);
    assert(spec_u32_from_le_bytes(b.subrange(i, i + 4)) == x);
}

pub proof fn lemma_parse_u64_at(b: Seq<u8>, i: int, x: u64)
    requires
        0 <= i,
        i + 8 <= b.len(),
        b.subrange(i, i + 8) == spec_u64_to_le_bytes(x),
    ensures
        parse_u64_at(b, i) == Some((x, i + 8)),
{
    lemma_auto_spec_u64_to_from_le_bytes();
}

pub proof fn lemma_parse_bool_at(b: Seq<u8>, i: int, x: bool)
    requires
        0 <= i,
        i + 1 <= b.len(),
        b.subrange(i, i + 1) == enc_bool(x),
    ensures
        parse_bool_at(b, i) == Some((x, i + 1)),
{
    if x {
        lemma_parse_u8_at(b, i, 1u8);
    } else {
        lemma_parse_u8_at(b, i, 0u8);
    }
}

pub proof fn lemma_parse_char_at(b: Seq<u8>, i: int, c: char)
    requires
        0 <= i,
        i + 4 <= b.len(),
        b.subrange(i, i + 4) == enc_char(c),
    ensures
        parse_char_at(b, i) == Some((c, i + 4)),
{
    lemma_parse_u32_at(b, i, c as u32);
    char_is_scalar(c);
    char_u32_cast(c, c as u32);
}

/// Each character encodes to exactly 4 bytes.
pub proof fn lemma_enc_chars_len(s: Seq<char>)
    ensures
        enc_chars(s).len() == 4 * s.len(),
    decreases s.len(),
{
    if s.len() == 0 {
    } else {
        lemma_auto_spec_u32_to_from_le_bytes();
        lemma_enc_chars_len(s.drop_first());
    }
}

pub proof fn lemma_parse_chars_at(b: Seq<u8>, i: int, s: Seq<char>)
    requires
        0 <= i,
        i + 4 * s.len() <= b.len(),
        b.subrange(i, i + 4 * s.len()) == enc_chars(s),
    ensures
        parse_chars_at(b, i, s.len()) == Some((s, i + 4 * s.len())),
    decreases s.len(),
{
    if s.len() == 0 {
        assert(Seq::<char>::empty() =~= s);
    } else {
        let c = s[0];
        let rest = s.drop_first();
        lemma_auto_spec_u32_to_from_le_bytes();
        lemma_enc_chars_len(rest);
        assert(b.subrange(i, i + 4) =~= enc_char(c)) by {
            assert forall|k: int| 0 <= k < 4 implies b.subrange(i, i + 4)[k] == enc_char(c)[k] by {
                assert(b.subrange(i, i + 4)[k] == b.subrange(i, i + 4 * s.len())[k]);
            }
        }
        lemma_parse_char_at(b, i, c);
        assert(b.subrange(i + 4, i + 4 + 4 * rest.len()) =~= enc_chars(rest)) by {
            assert forall|k: int| 0 <= k < 4 * rest.len() implies b.subrange(
                i + 4,
                i + 4 + 4 * rest.len(),
            )[k] == enc_chars(rest)[k] by {
                assert(b.subrange(i + 4, i + 4 + 4 * rest.len())[k] == b.subrange(
                    i,
                    i + 4 * s.len(),
                )[k + 4]);
                assert(enc_chars(s)[k + 4] == enc_chars(rest)[k]);
            }
        }
        lemma_parse_chars_at(b, i + 4, rest);
        assert(seq![c] + rest =~= s);
    }
}

/// A string encodes to 8 bytes of length plus 4 bytes per character.
pub proof fn lemma_enc_str_len(s: Seq<char>)
    ensures
        enc_str(s).len() == 8 + 4 * s.len(),
{
    lemma_auto_spec_u64_to_from_le_bytes();
    lemma_enc_chars_len(s);
}

pub proof fn lemma_parse_str_at(b: Seq<u8>, i: int, s: Seq<char>)
    requires
        0 <= i,
        s.len() <= u64::MAX,
        i + 8 + 4 * s.len() <= b.len(),
        b.subrange(i, i + 8 + 4 * s.len()) == enc_str(s),
    ensures
        parse_str_at(b, i) == Some((s, i + 8 + 4 * s.len())),
{
    lemma_auto_spec_u64_to_from_le_bytes();
    lemma_enc_chars_len(s);
    let lenbytes = spec_u64_to_le_bytes(s.len() as u64);
    assert(b.subrange(i, i + 8) =~= lenbytes) by {
        assert forall|k: int| 0 <= k < 8 implies b.subrange(i, i + 8)[k] == lenbytes[k] by {
            assert(b.subrange(i, i + 8)[k] == b.subrange(i, i + 8 + 4 * s.len())[k]);
            assert(enc_str(s)[k] == lenbytes[k]);
        }
    }
    lemma_parse_u64_at(b, i, s.len() as u64);
    assert(b.subrange(i + 8, i + 8 + 4 * s.len()) =~= enc_chars(s)) by {
        assert forall|k: int| 0 <= k < 4 * s.len() implies b.subrange(
            i + 8,
            i + 8 + 4 * s.len(),
        )[k] == enc_chars(s)[k] by {
            assert(b.subrange(i + 8, i + 8 + 4 * s.len())[k] == b.subrange(
                i,
                i + 8 + 4 * s.len(),
            )[k + 8]);
            assert(enc_str(s)[k + 8] == enc_chars(s)[k]);
        }
    }
    lemma_parse_chars_at(b, i + 8, s);
}

/// Seeing an encoding through a window: when the window `[i, i+len)` of `b`
/// holds `whole`, any sub-window of it holds the matching part of `whole`.
pub proof fn lemma_window(b: Seq<u8>, i: int, len: int, off1: int, off2: int, whole: Seq<u8>)
    requires
        0 <= i,
        i + len <= b.len(),
        b.subrange(i, i + len) == whole,
        whole.len() == len,
        0 <= off1 <= off2 <= len,
    ensures
        b.subrange(i + off1, i + off2) == whole.subrange(off1, off2),
{
    assert(b.subrange(i + off1, i + off2) =~= whole.subrange(off1, off2)) by {
        assert forall|k: int| 0 <= k < off2 - off1 implies b.subrange(i + off1, i + off2)[k]
            == whole.subrange(off1, off2)[k] by {
            assert(b.subrange(i + off1, i + off2)[k] == b[i + off1 + k]);
            assert(b[i + off1 + k] == b.subrange(i, i + len)[off1 + k]);
        }
    }
}

/// The shifted coordinate mapping is inverse to itself.
pub proof fn lemma_wire_i32(x: i32)
    ensures
        wire_to_i32(i32_to_wire(x)) == x,
{
}

pub proof fn lemma_parse_event_at(b: Seq<u8>, i: int, e: EventV)
    requires
        wf_event(e),
        0 <= i,
        i + spec_encode_event(e).len() <= b.len(),
        b.subrange(i, i + spec_encode_event(e).len()) == spec_encode_event(e),
    ensures
        parse_event_at(b, i) == Some((e, i + spec_encode_event(e).len())),
{
    lemma_auto_spec_u16_to_from_le_bytes();
    lemma_auto_spec_u32_to_from_le_bytes();
    lemma_auto_spec_u64_to_from_le_bytes();
    let whole = spec_encode_event(e);
    let len = whole.len() as int;
    match e {
        EventV::MouseMove { x, y } => {
            let xb = spec_u32_to_le_bytes(i32_to_wire(x));
            let yb = spec_u32_to_le_bytes(i32_to_wire(y));
            assert(whole.subrange(0, 1) =~= seq![TAG_MOUSE_MOVE]);
            assert(whole.subrange(1, 5) =~= xb);
            assert(whole.subrange(5, 9) =~= yb);
            lemma_window(b, i, len, 0, 1, whole);
            lemma_window(b, i, len, 1, 5, whole);
            lemma_window(b, i, len, 5, 9, whole);
            lemma_parse_u8_at(b, i, TAG_MOUSE_MOVE);
            lemma_parse_u32_at(b, i + 1, i32_to_wire(x));
            lemma_parse_u32_at(b, i + 5, i32_to_wire(y));
            lemma_wire_i32(x);
            lemma_wire_i32(y);
        },
        EventV::MouseButton { button, pressed } => {
            assert(whole.subrange(0, 1) =~= seq![TAG_MOUSE_BUTTON]);
            assert(whole.subrange(1, 2) =~= seq![button]);
            assert(whole.subrange(2, 3) =~= enc_bool(pressed));
            lemma_window(b, i, len, 0, 1, whole);
            lemma_window(b, i, len, 1, 2, whole);
            lemma_window(b, i, len, 2, 3, whole);
            lemma_parse_u8_at(b, i, TAG_MOUSE_BUTTON);
            lemma_parse_u8_at(b, i + 1, button);
            lemma_parse_bool_at(b, i + 2, pressed);
        },
        EventV::KeyPress { code, name } => {
            lemma_enc_str_len(name);
            let cb = spec_u16_to_le_bytes(code);
            assert(whole.subrange(0, 1) =~= seq![TAG_KEY_PRESS]);
            assert(whole.subrange(1, 3) =~= cb);
            assert(whole.subrange(3, len) =~= enc_str(name));
            lemma_window(b, i, len, 0, 1, whole);
            lemma_window(b, i, len, 1, 3, whole);
            lemma_window(b, i, len, 3, len, whole);
            lemma_parse_u8_at(b, i, TAG_KEY_PRESS);
            lemma_parse_u16_at(b, i + 1, code);
            lemma_parse_str_at(b, i + 3, name);
        },
        EventV::KeyRelease { code, name } => {
            lemma_enc_str_len(name);
            let cb = spec_u16_to_le_bytes(code);
            assert(whole.subrange(0, 1) =~= seq![TAG_KEY_RELEASE]);
            assert(whole.subrange(1, 3) =~= cb);
            assert(whole.subrange(3, len) =~= enc_str(name));
            lemma_window(b, i, len, 0, 1, whole);
            lemma_window(b, i, len, 1, 3, whole);
            lemma_window(b, i, len, 3, len, whole);
            lemma_parse_u8_at(b, i, TAG_KEY_RELEASE);
            lemma_parse_u16_at(b, i + 1, code);
            lemma_parse_str_at(b, i + 3, name);
        },
        EventV::ScreenSwitch { to_screen } => {
            lemma_enc_str_len(to_screen);
            assert(whole.subrange(0, 1) =~= seq![TAG_SCREEN_SWITCH]);
            assert(whole.subrange(1, len) =~= enc_str(to_screen));
            lemma_window(b, i, len, 0, 1, whole);
            lemma_window(b, i, len, 1, len, whole);
            lemma_parse_u8_at(b, i, TAG_SCREEN_SWITCH);
            lemma_parse_str_at(b, i + 1, to_screen);
        },
        EventV::Heartbeat => {
            assert(whole.subrange(0, 1) =~= seq![TAG_HEARTBEAT]);
            lemma_window(b, i, len, 0, 1, whole);
            lemma_parse_u8_at(b, i, TAG_HEARTBEAT);
        },
        EventV::Error(message) => {
            lemma_enc_str_len(message);
            assert(whole.subrange(0, 1) =~= seq![TAG_ERROR]);
            assert(whole.subrange(1, len) =~= enc_str(message));
            lemma_window(b, i, len, 0, 1, whole);
            lemma_window(b, i, len, 1, len, whole);
            lemma_parse_u8_at(b, i, TAG_ERROR);
            lemma_parse_str_at(b, i + 1, message);
        },
    }
}

/// Decoding inverts encoding: every well-formed event comes back from its
/// own bytes unchanged.
pub proof fn lemma_event_round_trip(e: EventV)
    requires
        wf_event(e),
    ensures
        spec_decode_event(spec_encode_event(e)) == Some(e),
{
    let b = spec_encode_event(e);
    assert(b.subrange(0, b.len() as int) =~= b);
    lemma_parse_event_at(b, 0, e);
}

pub proof fn lemma_parse_envelope_at(b: Seq<u8>, i: int, v: EnvelopeV)
    requires
        crate::transport::wf_envelope(v),
        0 <= i,
        i + spec_encode_envelope(v).len() <= b.len(),
        b.subrange(i, i + spec_encode_envelope(v).len()) == spec_encode_envelope(v),
    ensures
        parse_envelope_at(b, i) == Some((v, i + spec_encode_envelope(v).len())),
{
    lemma_auto_spec_u32_to_from_le_bytes();
    lemma_auto_spec_u64_to_from_le_bytes();
    let whole = spec_encode_envelope(v);
    let len = whole.len() as int;
    let eb = spec_encode_event(v.event);
    assert(whole.subrange(0, 1) =~= seq![class_byte(v.transport_class)]);
    assert(whole.subrange(1, 5) =~= spec_u32_to_le_bytes(v.sequence));
    assert(whole.subrange(5, 13) =~= spec_u64_to_le_bytes(v.origin.0));
    assert(whole.subrange(13, len) =~= eb);
    lemma_window(b, i, len, 0, 1, whole);
    lemma_window(b, i, len, 1, 5, whole);
    lemma_window(b, i, len, 5, 13, whole);
    lemma_window(b, i, len, 13, len, whole);
    lemma_parse_u8_at(b, i, class_byte(v.transport_class));
    lemma_parse_u32_at(b, i + 1, v.sequence);
    lemma_parse_u64_at(b, i + 5, v.origin.0);
    lemma_parse_event_at(b, i + 13, v.event);
}

/// Decoding inverts encoding for envelopes as well.
pub proof fn lemma_envelope_round_trip(v: EnvelopeV)
    requires
        crate::transport::wf_envelope(v),
    ensures
        spec_decode_envelope(spec_encode_envelope(v)) == Some(v),
{
    let b = spec_encode_envelope(v);
    assert(b.subrange(0, b.len() as int) =~= b);
    lemma_parse_envelope_at(b, 0, v);
}

/// Framing is unambiguous on a byte stream: after a whole frame arrives,
/// splitting returns exactly the framed payload and exactly what followed
/// it, wherever the stream was cut.
pub proof fn lemma_take_frame(msg: Seq<u8>, rest: Seq<u8>)
    requires
        msg.len() <= u64::MAX,
    ensures
        spec_take_frame(spec_frame(msg) + rest) == Some((msg, rest)),
{
    lemma_auto_spec_u64_to_from_le_bytes();
    let b = spec_frame(msg) + rest;
    let n = msg.len() as u64;
    assert(b.subrange(0, 8) =~= spec_u64_to_le_bytes(n));
    lemma_parse_u64_at(b, 0, n);
    assert(b.subrange(8, 8 + msg.len() as int) =~= msg);
    assert(b.subrange(8 + msg.len() as int, b.len() as int) =~= rest);
}

/// Parsed characters number exactly what was asked for, four bytes each.
pub proof fn lemma_parse_chars_shape(b: Seq<u8>, i: int, n: nat)
    ensures
        parse_chars_at(b, i, n) matches Some((s, k)) ==> s.len() == n && k == i + 4 * n,
    decreases n,
{
    if n == 0 {
    } else {
        match parse_char_at(b, i) {
            Some((c, j)) => {
                lemma_parse_chars_shape(b, j, (n - 1) as nat);
            },
            None => {},
        }
    }
}

/// Nothing invalid enters through the wire: whatever byte string decodes
/// as an event yields a well-formed one — the construction-time invariants
/// hold of it.
pub proof fn lemma_decoded_event_wf(b: Seq<u8>, i: int)
    ensures
        parse_event_at(b, i) matches Some((e, j)) ==> wf_event(e),
{
    match parse_u8_at(b, i) {
        Some((tag, j)) => {
            if tag == TAG_KEY_PRESS || tag == TAG_KEY_RELEASE {
                match parse_u16_at(b, j) {
                    Some((code, k)) => {
                        match parse_u64_at(b, k) {
                            Some((n, l)) => {
                                lemma_parse_chars_shape(b, l, n as nat);
                            },
                            None => {},
                        }
                    },
                    None => {},
                }
            } else if tag == TAG_SCREEN_SWITCH || tag == TAG_ERROR {
                match parse_u64_at(b, j) {
                    Some((n, l)) => {
                        lemma_parse_chars_shape(b, l, n as nat);
                    },
                    None => {},
                }
            }
        },
        None => {},
    }
}

pub proof fn lemma_parse_bytes_at(b: Seq<u8>, i: int, s: Seq<u8>)
    requires
        0 <= i,
        s.len() <= u64::MAX,
        i + 8 + s.len() <= b.len(),
        b.subrange(i, i + 8 + s.len()) == enc_bytes(s),
    ensures
        parse_bytes_at(b, i) == Some((s, i + 8 + s.len())),
{
    lemma_auto_spec_u64_to_from_le_bytes();
    let len = 8 + s.len() as int;
    lemma_window(b, i, len, 0, 8, enc_bytes(s));
    assert(enc_bytes(s).subrange(0, 8) =~= spec_u64_to_le_bytes(s.len() as u64));
    lemma_parse_u64_at(b, i, s.len() as u64);
    lemma_window(b, i, len, 8, len, enc_bytes(s));
    assert(enc_bytes(s).subrange(8, len) =~= s);
}

/// Decoding inverts encoding for the handshake message.
pub proof fn lemma_handshake_round_trip(m: HandshakeMessageV)
    requires
        m.credential.len() <= u64::MAX,
    ensures
        spec_decode_handshake(spec_encode_handshake(m)) == Some(m),
{
    lemma_auto_spec_u64_to_from_le_bytes();
    let b = spec_encode_handshake(m);
    let len = b.len() as int;
    assert(b.subrange(0, len) =~= b);
    lemma_window(b, 0, len, 0, 8, b);
    assert(b.subrange(0, 8) =~= spec_u64_to_le_bytes(m.device_id.0));
    lemma_parse_u64_at(b, 0, m.device_id.0);
    assert(b.subrange(8, len) =~= enc_bytes(m.credential));
    lemma_parse_bytes_at(b, 8, m.credential);
}

/// Decoding inverts encoding for the handshake reply.
pub proof fn lemma_handshake_reply_round_trip(r: HandshakeReply)
    ensures
        spec_decode_handshake_reply(spec_encode_handshake_reply(r)) == Some(r),
{
    let b = spec_encode_handshake_reply(r);
    assert(b.subrange(0, 1) =~= b);
    lemma_parse_bool_at(b, 0, r.accepted);
}

/// The whole reliable-stream path composed: an envelope framed onto a byte
/// stream splits back off at the frame boundary, whatever follows it, and
/// its payload decodes to the envelope unchanged.
pub proof fn lemma_framed_envelope_round_trip(v: EnvelopeV, rest: Seq<u8>)
    requires
        crate::transport::wf_envelope(v),
        spec_encode_envelope(v).len() <= u64::MAX,
    ensures
        spec_take_frame(spec_frame(spec_encode_envelope(v)) + rest) == Some(
            (spec_encode_envelope(v), rest),
        ),
        spec_decode_envelope(spec_encode_envelope(v)) == Some(v),
{
    lemma_take_frame(spec_encode_envelope(v), rest);
    lemma_envelope_round_trip(v);
}

// ---------------------------------------------------------------------------
// Trusted boundary: the two standard-library calls the codec needs and
// vstd does not specify.
// ---------------------------------------------------------------------------
/// Relies on char::from_u32: it returns `Some` exactly for Unicode scalar
/// values (not a surrogate, at most 0x10FFFF), and the returned character
/// has the argument as its scalar value.
pub assume_specification[ char::from_u32 ](v: u32) -> (r: Option<char>)
    ensures
        r is Some <==> is_scalar(v),
        r matches Some(c) ==> c as u32 == v,
;

/// Relies on String::push: it appends the given character at the end.
#[verifier::external_body]
fn push_char(s: &mut String, c: char)
    ensures
        final (s)@ == old(s)@.push(c),
{
    s.push(c);
}

// ---------------------------------------------------------------------------
// Executable encoding
// ---------------------------------------------------------------------------
fn push_u16(out: &mut Vec<u8>, x: u16)
    ensures
        final (out)@ == old(out)@ + spec_u16_to_le_bytes(x),
{
    let mut bytes = u16_to_le_bytes(x);
    out.append(&mut bytes);
}

fn push_u32(out: &mut Vec<u8>, x: u32)
    ensures
        final (out)@ == old(out)@ + spec_u32_to_le_bytes(x),
{
    let mut bytes = u32_to_le_bytes(x);
    out.append(&mut bytes);
}

fn push_u64(out: &mut Vec<u8>, x: u64)
    ensures
        final (out)@ == old(out)@ + spec_u64_to_le_bytes(x),
{
    let mut bytes = u64_to_le_bytes(x);
    out.append(&mut bytes);
}

/// Character encodings concatenate over string concatenation.
proof fn lemma_enc_chars_app(a: Seq<char>, b: Seq<char>)
    ensures
        enc_chars(a + b) == enc_chars(a) + enc_chars(b),
    decreases a.len(),
{
    if a.len() == 0 {
        assert(a + b =~= b);
        assert(enc_chars(a) + enc_chars(b) =~= enc_chars(b));
    } else {
        assert((a + b).drop_first() =~= a.drop_first() + b);
        lemma_enc_chars_app(a.drop_first(), b);
        assert(enc_char((a + b)[0]) + (enc_chars(a.drop_first()) + enc_chars(b)) =~= (enc_char(a[0])
            + enc_chars(a.drop_first())) + enc_chars(b));
    }
}

proof fn lemma_enc_chars_snoc(s: Seq<char>, i: int)
    requires
        0 <= i < s.len(),
    ensures
        enc_chars(s.take(i + 1)) == enc_chars(s.take(i)) + enc_char(s[i]),
{
    let single = seq![s[i]];
    assert(s.take(i + 1) =~= s.take(i) + single);
    lemma_enc_chars_app(s.take(i), single);
    assert(single.drop_first() =~= Seq::<char>::empty());
    assert(enc_chars(single) == enc_char(single[0]) + enc_chars(single.drop_first()));
    assert(enc_chars(Seq::<char>::empty()) == Seq::<u8>::empty());
    assert(enc_char(s[i]) + Seq::<u8>::empty() =~= enc_char(s[i]));
}

/// Appends the wire form of a string: character count, then one scalar per
/// character.
fn push_str_bytes(out: &mut Vec<u8>, s: &str)
    ensures
        final (out)@ == old(out)@ + enc_str(s@),
{
    let n = s.unicode_len();
    push_u64(out, n as u64);
    let ghost base = out@;
    let mut i: usize = 0;
    while i < n
        invariant
            i <= n,
            n as nat == s@.len(),
            out@ == base + enc_chars(s@.take(i as int)),
        decreases n - i,
    {
        let c = s.get_char(i);
        push_u32(out, c as u32);
        proof {
            lemma_enc_chars_snoc(s@, i as int);
        }
        i = i + 1;
    }
    proof {
        assert(s@.take(n as int) =~= s@);
        assert(base + enc_chars(s@) =~= old(out)@ + enc_str(s@)) by {
            assert(base =~= old(out)@ + spec_u64_to_le_bytes(s@.len() as u64));
        }
    }
}

/// Encodes one event to its wire bytes.
pub fn encode_event(e: &Event) -> (out: Vec<u8>)
    ensures
        out@ == spec_encode_event(e@),
{
    let mut out: Vec<u8> = Vec::new();
    match e {
        Event::MouseMove { x, y } => {
            out.push(TAG_MOUSE_MOVE);
            push_u32(&mut out, (((*x as i64) + 0x8000_0000i64) as u32));
            push_u32(&mut out, (((*y as i64) + 0x8000_0000i64) as u32));
            proof {
                assert(out@ =~= spec_encode_event(e@));
            }
        },
        Event::MouseButton { button, pressed } => {
            out.push(TAG_MOUSE_BUTTON);
            out.push(*button);
            out.push(if *pressed {
                1
            } else {
                0
            });
            proof {
                assert(out@ =~= spec_encode_event(e@));
            }
        },
        Event::KeyPress { code, name } => {
            out.push(TAG_KEY_PRESS);
            push_u16(&mut out, *code);
            push_str_bytes(&mut out, name.as_str());
            proof {
                assert(out@ =~= spec_encode_event(e@));
            }
        },
        Event::KeyRelease { code, name } => {
            out.push(TAG_KEY_RELEASE);
            push_u16(&mut out, *code);
            push_str_bytes(&mut out, name.as_str());
            proof {
                assert(out@ =~= spec_encode_event(e@));
            }
        },
        Event::ScreenSwitch { to_screen } => {
            out.push(TAG_SCREEN_SWITCH);
            push_str_bytes(&mut out, to_screen.as_str());
            proof {
                assert(out@ =~= spec_encode_event(e@));
            }
        },
        Event::Heartbeat => {
            out.push(TAG_HEARTBEAT);
            proof {
                assert(out@ =~= spec_encode_event(e@));
            }
        },
        Event::Error(message) => {
            out.push(TAG_ERROR);
            push_str_bytes(&mut out, message.as_str());
            proof {
                assert(out@ =~= spec_encode_event(e@));
            }
        },
    }
    out
}

/// Encodes an envelope: class byte, sequence, origin, then the event.
pub fn encode_envelope(env: &Envelope) -> (out: Vec<u8>)
    ensures
        out@ == spec_encode_envelope(env@),
{
    let mut out: Vec<u8> = Vec::new();
    match env.transport_class {
        TransportClass::Reliable => out.push(0u8),
        TransportClass::Fast => out.push(1u8),
    }
    push_u32(&mut out, env.sequence);
    push_u64(&mut out, env.origin.0);
    let mut body = encode_event(&env.event);
    out.append(&mut body);
    proof {
        assert(out@ =~= spec_encode_envelope(env@));
    }
    out
}

/// Wraps a payload for the reliable byte stream: length prefix, then the
/// payload, so the receiver can split frames unambiguously.
pub fn frame_message(msg: &[u8]) -> (out: Vec<u8>)
    ensures
        out@ == spec_frame(msg@),
{
    let mut out: Vec<u8> = Vec::new();
    push_u64(&mut out, msg.len() as u64);
    let mut body = slice_to_vec(msg);
    out.append(&mut body);
    proof {
        assert(out@ =~= spec_frame(msg@));
    }
    out
}

// ---------------------------------------------------------------------------
// Executable parsing: each reader mirrors its specification parser exactly.
// ---------------------------------------------------------------------------
fn read_u8(data: &[u8], pos: usize) -> (r: Option<(u8, usize)>)
    ensures
        match r {
            Some((x, p)) => parse_u8_at(data@, pos as int) == Some((x, p as int)) && p
                <= data@.len(),
            None => parse_u8_at(data@, pos as int) is None,
        },
{
    if pos < data.len() {
        Some((*slice_index_get(data, pos), pos + 1))
    } else {
        None
    }
}

fn read_u16(data: &[u8], pos: usize) -> (r: Option<(u16, usize)>)
    ensures
        match r {
            Some((x, p)) => parse_u16_at(data@, pos as int) == Some((x, p as int)) && p
                <= data@.len(),
            None => parse_u16_at(data@, pos as int) is None,
        },
{
    if pos < data.len() && data.len() - pos >= 2 {
        let x = u16_from_le_bytes(slice_subrange(data, pos, pos + 2));
        Some((x, pos + 2))
    } else {
        None
    }
}

fn read_u32(data: &[u8], pos: usize) -> (r: Option<(u32, usize)>)
    ensures
        match r {
            Some((x, p)) => parse_u32_at(data@, pos as int) == Some((x, p as int)) && p
                <= data@.len(),
            None => parse_u32_at(data@, pos as int) is None,
        },
{
    if pos < data.len() && data.len() - pos >= 4 {
        let x = u32_from_le_bytes(slice_subrange(data, pos, pos + 4));
        Some((x, pos + 4))
    } else {
        None
    }
}

fn read_u64(data: &[u8], pos: usize) -> (r: Option<(u64, usize)>)
    ensures
        match r {
            Some((x, p)) => parse_u64_at(data@, pos as int) == Some((x, p as int)) && p
                <= data@.len(),
            None => parse_u64_at(data@, pos as int) is None,
        },
{
    if pos < data.len() && data.len() - pos >= 8 {
        let x = u64_from_le_bytes(slice_subrange(data, pos, pos + 8));
        Some((x, pos + 8))
    } else {
        None
    }
}

fn read_bool(data: &[u8], pos: usize) -> (r: Option<(bool, usize)>)
    ensures
        match r {
            Some((x, p)) => parse_bool_at(data@, pos as int) == Some((x, p as int)) && p
                <= data@.len(),
            None => parse_bool_at(data@, pos as int) is None,
        },
{
    match read_u8(data, pos) {
        Some((v, p)) => {
            if v == 0 {
                Some((false, p))
            } else if v == 1 {
                Some((true, p))
            } else {
                None
            }
        },
        None => None,
    }
}

fn read_char(data: &[u8], pos: usize) -> (r: Option<(char, usize)>)
    ensures
        match r {
            Some((c, p)) => parse_char_at(data@, pos as int) == Some((c, p as int)) && p
                <= data@.len(),
            None => parse_char_at(data@, pos as int) is None,
        },
{
    match read_u32(data, pos) {
        Some((v, p)) => {
            match char::from_u32(v) {
                Some(c) => {
                    proof {
                        char_u32_cast(c, v);
                    }
                    Some((c, p))
                },
                None => None,
            }
        },
        None => None,
    }
}

fn read_str(data: &[u8], pos: usize) -> (r: Option<(String, usize)>)
    ensures
        match r {
            Some((s, p)) => parse_str_at(data@, pos as int) == Some((s@, p as int)) && p
                <= data@.len(),
            None => parse_str_at(data@, pos as int) is None,
        },
{
    let (n, start) = match read_u64(data, pos) {
        Some(v) => v,
        None => {
            return None;
        },
    };
    let mut s = String::new();
    let mut cur = start;
    let mut i: u64 = 0;
    while i < n
        invariant
            i <= n,
            cur <= data@.len(),
            s@.len() == i,
            parse_u64_at(data@, pos as int) == Some((n, start as int)),
            parse_chars_at(data@, start as int, n as nat) == (match parse_chars_at(
                data@,
                cur as int,
                (n - i) as nat,
            ) {
                Some((t, k)) => Some((s@ + t, k)),
                None => None::<(Seq<char>, int)>,
            }),
        decreases n - i,
    {
        match read_char(data, cur) {
            Some((c, p)) => {
                proof {
                    assert(parse_chars_at(data@, cur as int, (n - i) as nat) == (
                    match parse_chars_at(data@, p as int, (n - i - 1) as nat) {
                        Some((t, k)) => Some((seq![c] + t, k)),
                        None => None::<(Seq<char>, int)>,
                    }));
                }
                let ghost s_prev = s@;
                push_char(&mut s, c);
                proof {
                    assert forall|t: Seq<char>| true implies s@ + t == (s_prev + (seq![c] + t)) by {
                        assert(s@ + t =~= s_prev + (seq![c] + t));
                    }
                }
                cur = p;
                i = i + 1;
            },
            None => {
                return None;
            },
        }
    }
    proof {
        assert(s@ + Seq::<char>::empty() =~= s@);
    }
    Some((s, cur))
}

fn read_event(data: &[u8], pos: usize) -> (r: Option<(Event, usize)>)
    ensures
        match r {
            Some((ev, p)) => parse_event_at(data@, pos as int) == Some((ev@, p as int)) && p
                <= data@.len(),
            None => parse_event_at(data@, pos as int) is None,
        },
{
    let (tag, j) = match read_u8(data, pos) {
        Some(v) => v,
        None => {
            return None;
        },
    };
    if tag == TAG_MOUSE_MOVE {
        let (xv, k) = match read_u32(data, j) {
            Some(v) => v,
            None => {
                return None;
            },
        };
        let (yv, l) = match read_u32(data, k) {
            Some(v) => v,
            None => {
                return None;
            },
        };
        let x = ((xv as i64) - 0x8000_0000i64) as i32;
        let y = ((yv as i64) - 0x8000_0000i64) as i32;
        Some((Event::MouseMove { x, y }, l))
    } else if tag == TAG_MOUSE_BUTTON {
        let (button, k) = match read_u8(data, j) {
            Some(v) => v,
            None => {
                return None;
            },
        };
        if 1 <= button && button <= 5 {
            let (pressed, l) = match read_bool(data, k) {
                Some(v) => v,
                None => {
                    return None;
                },
            };
            Some((Event::MouseButton { button, pressed }, l))
        } else {
            None
        }
    } else if tag == TAG_KEY_PRESS {
        let (code, k) = match read_u16(data, j) {
            Some(v) => v,
            None => {
                return None;
            },
        };
        let (name, l) = match read_str(data, k) {
            Some(v) => v,
            None => {
                return None;
            },
        };
        if name.as_str().unicode_len() > 0 {
            Some((Event::KeyPress { code, name }, l))
        } else {
            None
        }
    } else if tag == TAG_KEY_RELEASE {
        let (code, k) = match read_u16(data, j) {
            Some(v) => v,
            None => {
                return None;
            },
        };
        let (name, l) = match read_str(data, k) {
            Some(v) => v,
            None => {
                return None;
            },
        };
        if name.as_str().unicode_len() > 0 {
            Some((Event::KeyRelease { code, name }, l))
        } else {
            None
        }
    } else if tag == TAG_SCREEN_SWITCH {
        let (to_screen, l) = match read_str(data, j) {
            Some(v) => v,
            None => {
                return None;
            },
        };
        Some((Event::ScreenSwitch { to_screen }, l))
    } else if tag == TAG_HEARTBEAT {
        Some((Event::Heartbeat, j))
    } else if tag == TAG_ERROR {
        let (message, l) = match read_str(data, j) {
            Some(v) => v,
            None => {
                return None;
            },
        };
        Some((Event::Error(message), l))
    } else {
        None
    }
}

fn read_class(data: &[u8], pos: usize) -> (r: Option<(TransportClass, usize)>)
    ensures
        match r {
            Some((c, p)) => parse_class_at(data@, pos as int) == Some((c, p as int)) && p
                <= data@.len(),
            None => parse_class_at(data@, pos as int) is None,
        },
{
    match read_u8(data, pos) {
        Some((v, p)) => {
            if v == 0 {
                Some((TransportClass::Reliable, p))
            } else if v == 1 {
                Some((TransportClass::Fast, p))
            } else {
                None
            }
        },
        None => None,
    }
}

/// Decodes one whole payload as an event. Succeeds exactly when the bytes
/// are the encoding of one (necessarily well-formed) event with nothing
/// trailing; a malformed payload is reported, never delivered.
pub fn decode_event(data: &[u8]) -> (r: Result<Event, DecodeError>)
    ensures
        match r {
            Ok(ev) => spec_decode_event(data@) == Some(ev@) && wf_event(ev@),
            Err(_) => spec_decode_event(data@) is None,
        },
{
    proof {
        lemma_decoded_event_wf(data@, 0);
    }
    match read_event(data, 0) {
        Some((ev, p)) => {
            if p == data.len() {
                Ok(ev)
            } else {
                Err(DecodeError::TrailingData)
            }
        },
        None => Err(DecodeError::Malformed),
    }
}

/// Decodes one whole payload as an envelope, under the same exact contract
/// as [`decode_event`].
pub fn decode_envelope(data: &[u8]) -> (r: Result<Envelope, DecodeError>)
    ensures
        match r {
            Ok(env) => spec_decode_envelope(data@) == Some(env@) && crate::transport::wf_envelope(
                env@,
            ),
            Err(_) => spec_decode_envelope(data@) is None,
        },
{
    let (class, j) = match read_class(data, 0) {
        Some(v) => v,
        None => {
            return Err(DecodeError::Malformed);
        },
    };
    let (sequence, k) = match read_u32(data, j) {
        Some(v) => v,
        None => {
            return Err(DecodeError::Malformed);
        },
    };
    let (origin, l) = match read_u64(data, k) {
        Some(v) => v,
        None => {
            return Err(DecodeError::Malformed);
        },
    };
    proof {
        lemma_decoded_event_wf(data@, l as int);
    }
    let (event, m) = match read_event(data, l) {
        Some(v) => v,
        None => {
            return Err(DecodeError::Malformed);
        },
    };
    if m == data.len() {
        Ok(Envelope { event, transport_class: class, sequence, origin: DeviceId(origin) })
    } else {
        Err(DecodeError::TrailingData)
    }
}

/// Encodes a handshake message for the wire.
pub fn encode_handshake(m: &HandshakeMessage) -> (out: Vec<u8>)
    ensures
        out@ == spec_encode_handshake(m@),
{
    let mut out: Vec<u8> = Vec::new();
    push_u64(&mut out, m.device_id.0);
    push_u64(&mut out, m.credential.len() as u64);
    let mut body = slice_to_vec(m.credential.as_slice());
    out.append(&mut body);
    proof {
        assert(out@ =~= spec_encode_handshake(m@));
    }
    out
}

fn read_bytes(data: &[u8], pos: usize) -> (r: Option<(Vec<u8>, usize)>)
    ensures
        match r {
            Some((s, p)) => parse_bytes_at(data@, pos as int) == Some((s@, p as int)) && p
                <= data@.len(),
            None => parse_bytes_at(data@, pos as int) is None,
        },
{
    let (n, j) = match read_u64(data, pos) {
        Some(v) => v,
        None => {
            return None;
        },
    };
    if n <= (data.len() - j) as u64 {
        let p = j + (n as usize);
        Some((slice_to_vec(slice_subrange(data, j, p)), p))
    } else {
        None
    }
}

/// Decodes a whole payload as a handshake message, under the same exact
/// contract as [`decode_event`].
pub fn decode_handshake(data: &[u8]) -> (r: Result<HandshakeMessage, DecodeError>)
    ensures
        match r {
            Ok(m) => spec_decode_handshake(data@) == Some(m@),
            Err(_) => spec_decode_handshake(data@) is None,
        },
{
    let (device, j) = match read_u64(data, 0) {
        Some(v) => v,
        None => {
            return Err(DecodeError::Malformed);
        },
    };
    let (credential, k) = match read_bytes(data, j) {
        Some(v) => v,
        None => {
            return Err(DecodeError::Malformed);
        },
    };
    if k == data.len() {
        Ok(HandshakeMessage { device_id: DeviceId(device), credential })
    } else {
        Err(DecodeError::TrailingData)
    }
}

/// Encodes a handshake reply for the wire.
pub fn encode_handshake_reply(r: &HandshakeReply) -> (out: Vec<u8>)
    ensures
        out@ == spec_encode_handshake_reply(*r),
{
    let mut out: Vec<u8> = Vec::new();
    out.push(if r.accepted {
        1
    } else {
        0
    });
    proof {
        assert(out@ =~= spec_encode_handshake_reply(*r));
    }
    out
}

/// Decodes a whole payload as a handshake reply, under the same exact
/// contract as [`decode_event`].
pub fn decode_handshake_reply(data: &[u8]) -> (r: Result<HandshakeReply, DecodeError>)
    ensures
        match r {
            Ok(reply) => spec_decode_handshake_reply(data@) == Some(reply),
            Err(_) => spec_decode_handshake_reply(data@) is None,
        },
{
    match read_bool(data, 0) {
        Some((accepted, j)) => {
            if j == data.len() {
                Ok(HandshakeReply { accepted })
            } else {
                Err(DecodeError::TrailingData)
            }
        },
        None => Err(DecodeError::Malformed),
    }
}

/// Splits the next frame off an accumulated reliable byte stream: the
/// payload and the number of bytes consumed, or `None` while the frame is
/// still incomplete.
pub fn take_frame(buf: &[u8]) -> (r: Option<(Vec<u8>, usize)>)
    ensures
        match r {
            Some((msg, used)) => {
                &&& used <= buf@.len()
                &&& spec_take_frame(buf@) == Some(
                    (msg@, buf@.subrange(used as int, buf@.len() as int)),
                )
            },
            None => spec_take_frame(buf@) is None,
        },
{
    let (n, j) = match read_u64(buf, 0) {
        Some(v) => v,
        None => {
            return None;
        },
    };
    if n <= (buf.len() - j) as u64 {
        let used = j + (n as usize);
        let msg = slice_to_vec(slice_subrange(buf, j, used));
        Some((msg, used))
    } else {
        None
    }
}

} // verus!
