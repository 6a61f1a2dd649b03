//! The typed input-event model: every event that can cross the wire, with
//! validation enforced at construction (mouse buttons in 1..=5, key names
//! non-empty) so that no invalid event ever enters the system.

use vstd::prelude::*;

verus! {

/// Mathematical model of an [`Event`]: identical shape, with strings modeled
/// as character sequences so contracts can speak of their contents.
pub enum EventV {
    MouseMove { x: i32, y: i32 },
    MouseButton { button: u8, pressed: bool },
    KeyPress { code: u16, name: Seq<char> },
    KeyRelease { code: u16, name: Seq<char> },
    ScreenSwitch { to_screen: Seq<char> },
    Heartbeat,
    Error(Seq<char>),
}

/// A transmittable input or control event. Immutable value type, compared by
/// structural content.
#[derive(Clone, Debug)]
pub enum Event {
    /// Absolute screen coordinates.
    MouseMove { x: i32, y: i32 },
    /// Validated range: `button` is always in 1..=5 when built through
    /// [`Event::new_mouse_button`].
    MouseButton { button: u8, pressed: bool },
    /// Platform-independent key identity: numeric code plus symbolic name.
    KeyPress { code: u16, name: String },
    KeyRelease { code: u16, name: String },
    /// Hand-off of input authority to another logical screen.
    ScreenSwitch { to_screen: String },
    /// Liveness signal; carries no payload.
    Heartbeat,
    /// A diagnostic carried as data; never a control-flow exception.
    Error(String),
}

impl View for Event {
    type V = EventV;

    open spec fn view(&self) -> EventV {
        match self {
            Event::MouseMove { x, y } => EventV::MouseMove { x: *x, y: *y },
            Event::MouseButton { button, pressed } => EventV::MouseButton {
                button: *button,
                pressed: *pressed,
            },
            Event::KeyPress { code, name } => EventV::KeyPress { code: *code, name: name@ },
            Event::KeyRelease { code, name } => EventV::KeyRelease { code: *code, name: name@ },
            Event::ScreenSwitch { to_screen } => EventV::ScreenSwitch { to_screen: to_screen@ },
            Event::Heartbeat => EventV::Heartbeat,
            Event::Error(message) => EventV::Error(message@),
        }
    }
}

/// The construction-time invariants of the event model: mouse buttons lie in
/// 1..=5 and key names are non-empty. String lengths are bounded so that a
/// length prefix fits on the wire.
pub open spec fn wf_event(e: EventV) -> bool {
    match e {
        EventV::MouseMove { x, y } => true,
        EventV::MouseButton { button, pressed } => 1 <= button <= 5,
        EventV::KeyPress { code, name } => 0 < name.len() <= u64::MAX,
        EventV::KeyRelease { code, name } => 0 < name.len() <= u64::MAX,
        EventV::ScreenSwitch { to_screen } => to_screen.len() <= u64::MAX,
        EventV::Heartbeat => true,
        EventV::Error(message) => message.len() <= u64::MAX,
    }
}

impl Event {
    /// Builds a mouse-button event, rejecting any button outside 1..=5: the
    /// validated range is enforced here, not downstream.
    pub fn new_mouse_button(button: u8, pressed: bool) -> (r: Option<Event>)
        ensures
            r is Some <==> 1 <= button <= 5,
            r matches Some(e) ==> e@ == (EventV::MouseButton { button, pressed }) && wf_event(e@),
    {
        if 1 <= button && button <= 5 {
            Some(Event::MouseButton { button, pressed })
        } else {
            None
        }
    }

    /// Builds a key-press event, rejecting an empty symbolic name.
    pub fn new_key_press(code: u16, name: String) -> (r: Option<Event>)
        ensures
            r is Some <==> name@.len() > 0,
            r matches Some(e) ==> e@ == (EventV::KeyPress { code, name: name@ }) && wf_event(e@),
    {
        let n = name.as_str().unicode_len();
        if n == 0 {
            None
        } else {
            Some(Event::KeyPress { code, name })
        }
    }

    /// Builds a key-release event, rejecting an empty symbolic name.
    pub fn new_key_release(code: u16, name: String) -> (r: Option<Event>)
        ensures
            r is Some <==> name@.len() > 0,
            r matches Some(e) ==> e@ == (EventV::KeyRelease { code, name: name@ }) && wf_event(e@),
    {
        let n = name.as_str().unicode_len();
        if n == 0 {
            None
        } else {
            Some(Event::KeyRelease { code, name })
        }
    }

    /// Structural copy with a proved relation to the original, for use where
    /// contracts must track the duplicated value.
    pub fn duplicate(&self) -> (r: Event)
        ensures
            r@ == self@,
    {
        match self {
            Event::MouseMove { x, y } => Event::MouseMove { x: *x, y: *y },
            Event::MouseButton { button, pressed } => Event::MouseButton {
                button: *button,
                pressed: *pressed,
            },
            Event::KeyPress { code, name } => Event::KeyPress { code: *code, name: name.clone() },
            Event::KeyRelease { code, name } => Event::KeyRelease {
                code: *code,
                name: name.clone(),
            },
            Event::ScreenSwitch { to_screen } => Event::ScreenSwitch {
                to_screen: to_screen.clone(),
            },
            Event::Heartbeat => Event::Heartbeat,
            Event::Error(message) => Event::Error(message.clone()),
        }
    }

    /// True when the event drives the logical pointer.
    pub fn is_pointer(&self) -> (r: bool)
        ensures
            r == is_pointer_event(self@),
    {
        match self {
            Event::MouseMove { .. } => true,
            Event::MouseButton { .. } => true,
            _ => false,
        }
    }

    /// True when the event drives the logical keyboard.
    pub fn is_keyboard(&self) -> (r: bool)
        ensures
            r == is_keyboard_event(self@),
    {
        match self {
            Event::KeyPress { .. } => true,
            Event::KeyRelease { .. } => true,
            _ => false,
        }
    }

    /// True when the event is one of the four raw input kinds that are routed
    /// to the synchronizer rather than to control handling.
    pub fn is_input(&self) -> (r: bool)
        ensures
            r == is_input_event(self@),
    {
        match self {
            Event::MouseMove { .. } => true,
            Event::MouseButton { .. } => true,
            Event::KeyPress { .. } => true,
            Event::KeyRelease { .. } => true,
            _ => false,
        }
    }
}

/// Pointer-target events: they compete for the single logical pointer.
pub open spec fn is_pointer_event(e: EventV) -> bool {
    match e {
        EventV::MouseMove { x, y } => true,
        EventV::MouseButton { button, pressed } => true,
        _ => false,
    }
}

/// Keyboard-target events: they compete for the single logical keyboard.
pub open spec fn is_keyboard_event(e: EventV) -> bool {
    match e {
        EventV::KeyPress { code, name } => true,
        EventV::KeyRelease { code, name } => true,
        _ => false,
    }
}

/// The raw input kinds (as opposed to control events): what the dispatcher
/// hands to the synchronizer.
pub open spec fn is_input_event(e: EventV) -> bool {
    is_pointer_event(e) || is_keyboard_event(e)
}

impl PartialEq for Event {
    fn eq(&self, other: &Event) -> (r: bool) {
        match (self, other) {
            (Event::MouseMove { x: x1, y: y1 }, Event::MouseMove { x: x2, y: y2 }) => x1 == x2
                && y1 == y2,
            (
                Event::MouseButton { button: b1, pressed: p1 },
                Event::MouseButton { button: b2, pressed: p2 },
            ) => b1 == b2 && p1 == p2,
            (
                Event::KeyPress { code: c1, name: n1 },
                Event::KeyPress { code: c2, name: n2 },
            ) => c1 == c2 && *n1 == *n2,
            (
                Event::KeyRelease { code: c1, name: n1 },
                Event::KeyRelease { code: c2, name: n2 },
            ) => c1 == c2 && *n1 == *n2,
            (
                Event::ScreenSwitch { to_screen: s1 },
                Event::ScreenSwitch { to_screen: s2 },
            ) => *s1 == *s2,
            (Event::Heartbeat, Event::Heartbeat) => true,
            (Event::Error(m1), Event::Error(m2)) => *m1 == *m2,
            _ => false,
        }
    }
}

impl vstd::std_specs::cmp::PartialEqSpecImpl for Event {
    open spec fn obeys_eq_spec() -> bool {
        true
    }

    open spec fn eq_spec(&self, other: &Event) -> bool {
        self@ == other@
    }
}

} // verus!
