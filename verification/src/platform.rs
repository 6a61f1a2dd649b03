//! The contract boundary toward platform capture and injection. The
//! platform itself (display server, input synthesis) lives outside the
//! library; here stand the pure pieces: translating a native input event
//! into the modeled event set, and the grab-accounting rule that the
//! exclusive input grab is released on every exit path of an injection,
//! error included.

use vstd::prelude::*;

use crate::event::Event;
use crate::event::EventV;
use crate::event::wf_event;

verus! {

/// Capture or injection failure; surfaced to the operator, never fatal to
/// the library's own state.
#[derive(Clone, Debug)]
pub enum PlatformError {
    /// The display-server connection failed.
    Connection(String),
    /// Acquiring the exclusive input grab failed.
    Grab(String),
    /// Synthesizing an input event failed.
    Injection(String),
}

/// Whether the single system-wide exclusive input grab is currently held.
/// Modeled as an owned value passed through scoped operations, never a
/// free-floating global.
#[derive(Clone, Copy, Debug, PartialEq, Eq, Structural)]
pub enum GrabState {
    Held,
    Released,
}

/// Closes one injection attempt: whatever the platform reported — success
/// or a `PlatformError` — the exclusive grab comes back released, so a
/// failing injection can never leave input captured. The error, if any,
/// is passed through for operator visibility.
pub fn finish_injection(grab: GrabState, outcome: Result<(), PlatformError>) -> (r: (
    GrabState,
    Option<PlatformError>,
))
    ensures
        r.0 == GrabState::Released,
        match outcome {
            Ok(u) => r.1 is None,
            Err(e) => r.1 == Some(e),
        },
{
    match outcome {
        Ok(()) => (GrabState::Released, None),
        Err(e) => (GrabState::Released, Some(e)),
    }
}

/// What the library reads out of one native input event; the platform
/// adapter fills this in from its own event types.
pub enum NativeEvent {
    /// Pointer motion in screen coordinates.
    Motion { x: i16, y: i16 },
    /// A pointer button changed state; `detail` is the native button
    /// number.
    Button { detail: u8, pressed: bool },
    /// A key changed state; `name` is the symbolic key name the platform
    /// resolved for `code`.
    Key { code: u16, name: String, pressed: bool },
    /// Anything outside the modeled set.
    Other,
}

/// Model of a [`NativeEvent`].
pub enum NativeEventV {
    Motion { x: i16, y: i16 },
    Button { detail: u8, pressed: bool },
    Key { code: u16, name: Seq<char>, pressed: bool },
    Other,
}

impl View for NativeEvent {
    type V = NativeEventV;

    open spec fn view(&self) -> NativeEventV {
        match self {
            NativeEvent::Motion { x, y } => NativeEventV::Motion { x: *x, y: *y },
            NativeEvent::Button { detail, pressed } => NativeEventV::Button {
                detail: *detail,
                pressed: *pressed,
            },
            NativeEvent::Key { code, name, pressed } => NativeEventV::Key {
                code: *code,
                name: name@,
                pressed: *pressed,
            },
            NativeEvent::Other => NativeEventV::Other,
        }
    }
}

/// The pure native-to-modeled mapping: motion becomes absolute mouse
/// movement, buttons and keys pass through the validating constructors,
/// and whatever falls outside the modeled set — an out-of-range button, a
/// key without a name, an unmodeled kind — maps to nothing.
pub open spec fn spec_translate(n: NativeEventV) -> Option<EventV> {
    match n {
        NativeEventV::Motion { x, y } => Some(EventV::MouseMove { x: x as i32, y: y as i32 }),
        NativeEventV::Button { detail, pressed } => if 1 <= detail <= 5 {
            Some(EventV::MouseButton { button: detail, pressed })
        } else {
            None
        },
        NativeEventV::Key { code, name, pressed } => if name.len() > 0 {
            if pressed {
                Some(EventV::KeyPress { code, name })
            } else {
                Some(EventV::KeyRelease { code, name })
            }
        } else {
            None
        },
        NativeEventV::Other => None,
    }
}

/// Translates one native event into the modeled event set; `None` for
/// events outside it. Every translated event satisfies the model's
/// construction invariants.
pub fn translate(native: NativeEvent) -> (r: Option<Event>)
    ensures
        match r {
            Some(e) => spec_translate(native@) == Some(e@) && wf_event(e@),
            None => spec_translate(native@) is None,
        },
{
    match native {
        NativeEvent::Motion { x, y } => Some(Event::MouseMove { x: x as i32, y: y as i32 }),
        NativeEvent::Button { detail, pressed } => Event::new_mouse_button(detail, pressed),
        NativeEvent::Key { code, name, pressed } => {
            if pressed {
                Event::new_key_press(code, name)
            } else {
                Event::new_key_release(code, name)
            }
        },
        NativeEvent::Other => None,
    }
}

} // verus!
