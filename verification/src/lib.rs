//! Core of a keyboard/mouse input-sharing relay: a typed event model with
//! validated construction, a self-framing wire codec proved to round-trip,
//! dual-transport sequencing with ordering and loss detection, a bounded
//! event queue and dispatcher, a synchronizer that resolves competing input
//! origins deterministically, and a per-peer session state machine with
//! handshake, heartbeat liveness and guaranteed grab release.
//!
//! All I/O (sockets, timers, display servers) lives outside this crate; the
//! library works on plain values and states its behaviour in contracts.

pub mod event;
pub mod transport;
pub mod codec;
pub mod sync;
pub mod session;
pub mod platform;
pub mod queue;

pub use event::Event;
pub use event::EventV;
pub use transport::DeviceId;
pub use transport::Envelope;
pub use transport::TransportClass;
