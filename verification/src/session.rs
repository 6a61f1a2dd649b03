//! Per-peer session lifecycle: handshake and authentication, heartbeat
//! liveness, and the terminal transitions that close a connection. A
//! session authenticates exactly once, accepts input events only while it
//! is live, treats a reliable-stream violation as fatal, and releases the
//! exclusive input grab on every terminal transition — a session never
//! resurrects silently.

use vstd::prelude::*;

use crate::event::Event;
use crate::event::EventV;
use crate::transport::DeviceId;
use crate::transport::Envelope;
use crate::transport::ReceiverState;
use crate::transport::ReceiveOutcome;
use crate::transport::TransportClass;
use crate::transport::reliable_expected;
use crate::transport::fast_fresh;

verus! {

/// The lifecycle of one peer connection. `Disconnected` and `Failed` are
/// terminal: a new session must be created to retry.
#[derive(Clone, Copy, Debug, PartialEq, Eq, Structural)]
pub enum SessionPhase {
    Connecting,
    Authenticating,
    Active,
    Degraded,
    Disconnected,
    Failed,
}

/// Handshake failure: terminal for the session.
#[derive(Clone, Copy, Debug, PartialEq, Eq, Structural)]
pub enum AuthenticationError {
    /// The offered credential does not match the expected one.
    CredentialMismatch,
    /// The session is not in its authenticating phase.
    NotAuthenticating,
}

/// Liveness configuration: missing heartbeats beyond `heartbeat_timeout`
/// degrades the session (the fast channel is distrusted); no traffic at
/// all beyond the longer `disconnect_timeout` disconnects it.
#[derive(Clone, Copy, Debug, PartialEq, Eq, Structural)]
pub struct SessionConfig {
    pub heartbeat_timeout: u64,
    pub disconnect_timeout: u64,
}

pub open spec fn wf_config(c: SessionConfig) -> bool {
    0 < c.heartbeat_timeout <= c.disconnect_timeout
}

/// What both sides send immediately after connect.
pub struct HandshakeMessage {
    pub device_id: DeviceId,
    pub credential: Vec<u8>,
}

/// Model of a [`HandshakeMessage`].
pub struct HandshakeMessageV {
    pub device_id: DeviceId,
    pub credential: Seq<u8>,
}

impl View for HandshakeMessage {
    type V = HandshakeMessageV;

    open spec fn view(&self) -> HandshakeMessageV {
        HandshakeMessageV { device_id: self.device_id, credential: self.credential@ }
    }
}

/// What each side replies.
#[derive(Clone, Copy, Debug, PartialEq, Eq, Structural)]
pub struct HandshakeReply {
    pub accepted: bool,
}

/// Per-peer session state.
pub struct Session {
    /// The peer's capture origin; assigned during handshake.
    pub device_id: DeviceId,
    pub phase: SessionPhase,
    /// Set exactly once, on successful authentication, before any event
    /// other than handshake or heartbeat is accepted.
    pub authenticated: bool,
    pub last_heartbeat_at: u64,
    /// Highest sequence seen per transport class on this peer's streams.
    pub receiver: ReceiverState,
    pub config: SessionConfig,
    /// Whether this peer currently provides the locally captured input
    /// under the platform's exclusive grab.
    pub holds_grab: bool,
}

impl Session {
    /// The structural invariant: sane timeouts, and the authentication
    /// flag agrees with the phase — never set before the handshake
    /// succeeds, always set while the session accepts traffic.
    pub open spec fn wf(&self) -> bool {
        &&& wf_config(self.config)
        &&& (self.phase == SessionPhase::Connecting || self.phase == SessionPhase::Authenticating
            || self.phase == SessionPhase::Failed) ==> !self.authenticated
        &&& (self.phase == SessionPhase::Active || self.phase == SessionPhase::Degraded)
            ==> self.authenticated
    }

    /// A session in a terminal phase never accepts anything again.
    pub open spec fn is_terminal(&self) -> bool {
        self.phase == SessionPhase::Disconnected || self.phase == SessionPhase::Failed
    }

    pub fn new(config: SessionConfig, now: u64) -> (r: Session)
        requires
            wf_config(config),
        ensures
            r.wf(),
            r.phase == SessionPhase::Connecting,
            !r.authenticated,
            r.last_heartbeat_at == now,
            r.receiver.last_reliable_seq_seen is None,
            r.receiver.last_fast_seq_seen is None,
            r.config == config,
            !r.holds_grab,
    {
        Session {
            device_id: DeviceId(0),
            phase: SessionPhase::Connecting,
            authenticated: false,
            last_heartbeat_at: now,
            receiver: ReceiverState::new(),
            config,
            holds_grab: false,
        }
    }

    /// The transport-level connect succeeded: the handshake may begin.
    /// In any other phase the call changes nothing.
    pub fn on_connected(&mut self)
        requires
            old(self).wf(),
        ensures
            final (self).wf(),
            old(self).phase == SessionPhase::Connecting ==> final (self).phase
                == SessionPhase::Authenticating,
            old(self).phase != SessionPhase::Connecting ==> final (self).phase == old(self).phase,
            final (self).device_id == old(self).device_id,
            final (self).authenticated == old(self).authenticated,
            final (self).last_heartbeat_at == old(self).last_heartbeat_at,
            final (self).receiver == old(self).receiver,
            final (self).config == old(self).config,
            final (self).holds_grab == old(self).holds_grab,
    {
        if matches!(self.phase, SessionPhase::Connecting) {
            self.phase = SessionPhase::Authenticating;
        }
    }

    /// Checks the peer's handshake. Succeeds exactly when the session is
    /// authenticating and the offered credential matches: the session
    /// becomes `Active`, adopts the peer's device id, and `authenticated`
    /// turns true — its one and only transition, since no other phase can
    /// reach this branch again. A mismatch is terminal (`Failed`); in any
    /// other phase nothing changes and the handshake is refused.
    pub fn authenticate(&mut self, offered: &HandshakeMessage, expected_credential: &Vec<u8>) -> (r:
        Result<HandshakeReply, AuthenticationError>)
        requires
            old(self).wf(),
        ensures
            final (self).wf(),
            match r {
                Ok(reply) => {
                    &&& reply.accepted
                    &&& old(self).phase == SessionPhase::Authenticating
                    &&& offered.credential@ == expected_credential@
                    &&& final (self).phase == SessionPhase::Active
                    &&& final (self).authenticated
                    &&& !old(self).authenticated
                    &&& final (self).device_id == offered.device_id
                },
                Err(AuthenticationError::CredentialMismatch) => {
                    &&& old(self).phase == SessionPhase::Authenticating
                    &&& offered.credential@ != expected_credential@
                    &&& final (self).phase == SessionPhase::Failed
                    &&& !final (self).authenticated
                    &&& final (self).device_id == old(self).device_id
                },
                Err(AuthenticationError::NotAuthenticating) => {
                    &&& old(self).phase != SessionPhase::Authenticating
                    &&& *final (self) == *old(self)
                },
            },
            final (self).last_heartbeat_at == old(self).last_heartbeat_at,
            final (self).receiver == old(self).receiver,
            final (self).config == old(self).config,
            final (self).holds_grab == old(self).holds_grab,
    {
        if !matches!(self.phase, SessionPhase::Authenticating) {
            return Err(AuthenticationError::NotAuthenticating);
        }
        if offered.credential == *expected_credential {
            proof {
                assert(offered.credential@ =~= expected_credential@);
            }
            self.phase = SessionPhase::Active;
            self.authenticated = true;
            self.device_id = offered.device_id;
            Ok(HandshakeReply { accepted: true })
        } else {
            proof {
                if offered.credential@ == expected_credential@ {
                    assert(offered.credential@ =~= expected_credential@);
                }
            }
            self.phase = SessionPhase::Failed;
            Err(AuthenticationError::CredentialMismatch)
        }
    }

    /// Which events this session currently lets through: heartbeats (and
    /// the handshake, which is not an event) always; anything else only
    /// once authenticated and live.
    pub fn may_accept(&self, e: &Event) -> (r: bool)
        ensures
            r == (e@ == EventV::Heartbeat || ((self.phase == SessionPhase::Active || self.phase
                == SessionPhase::Degraded) && self.authenticated)),
    {
        match e {
            Event::Heartbeat => true,
            _ => (matches!(self.phase, SessionPhase::Active) || matches!(
                self.phase,
                SessionPhase::Degraded,
            )) && self.authenticated,
        }
    }

    /// A heartbeat arrived: liveness is refreshed, and a degraded session
    /// recovers, since the peer is demonstrably alive. Anywhere outside
    /// the live phases the heartbeat only refreshes the timestamp.
    pub fn on_heartbeat(&mut self, now: u64)
        requires
            old(self).wf(),
            now >= old(self).last_heartbeat_at,
        ensures
            final (self).wf(),
            final (self).last_heartbeat_at == now,
            old(self).phase == SessionPhase::Degraded ==> final (self).phase
                == SessionPhase::Active,
            old(self).phase != SessionPhase::Degraded ==> final (self).phase == old(self).phase,
            final (self).device_id == old(self).device_id,
            final (self).authenticated == old(self).authenticated,
            final (self).receiver == old(self).receiver,
            final (self).config == old(self).config,
            final (self).holds_grab == old(self).holds_grab,
    {
        self.last_heartbeat_at = now;
        if matches!(self.phase, SessionPhase::Degraded) {
            self.phase = SessionPhase::Active;
        }
    }

    /// The periodic liveness check. In a live phase: silence longer than
    /// `disconnect_timeout` disconnects the session — terminally — and
    /// releases any held grab, so the local operator regains control;
    /// shorter silence beyond `heartbeat_timeout` degrades an `Active`
    /// session (the fast channel is no longer trusted). Returns whether
    /// the exclusive grab was released by this call.
    pub fn on_tick(&mut self, now: u64) -> (released: bool)
        requires
            old(self).wf(),
            now >= old(self).last_heartbeat_at,
        ensures
            final (self).wf(),
            ({
                let elapsed = now - old(self).last_heartbeat_at;
                let live = old(self).phase == SessionPhase::Active || old(self).phase
                    == SessionPhase::Degraded;
                &&& (live && elapsed > old(self).config.disconnect_timeout) ==> {
                    &&& final (self).phase == SessionPhase::Disconnected
                    &&& !final (self).holds_grab
                    &&& released == old(self).holds_grab
                }
                &&& (old(self).phase == SessionPhase::Active && elapsed
                    <= old(self).config.disconnect_timeout && elapsed > old(
                    self,
                ).config.heartbeat_timeout) ==> {
                    &&& final (self).phase == SessionPhase::Degraded
                    &&& final (self).holds_grab == old(self).holds_grab
                    &&& !released
                }
                &&& (old(self).phase == SessionPhase::Active && elapsed <= old(
                    self,
                ).config.heartbeat_timeout) ==> final (self).phase == SessionPhase::Active
                &&& (old(self).phase == SessionPhase::Degraded && elapsed <= old(
                    self,
                ).config.disconnect_timeout) ==> final (self).phase == SessionPhase::Degraded
                &&& !live ==> *final (self) == *old(self) && !released
                &&& (live && elapsed <= old(self).config.disconnect_timeout) ==> {
                    &&& final (self).holds_grab == old(self).holds_grab
                    &&& !released
                }
            }),
            final (self).device_id == old(self).device_id,
            final (self).authenticated == old(self).authenticated,
            final (self).last_heartbeat_at == old(self).last_heartbeat_at,
            final (self).receiver == old(self).receiver,
            final (self).config == old(self).config,
    {
        let live = matches!(self.phase, SessionPhase::Active) || matches!(
            self.phase,
            SessionPhase::Degraded,
        );
        if !live {
            return false;
        }
        let elapsed = now - self.last_heartbeat_at;
        if elapsed > self.config.disconnect_timeout {
            self.phase = SessionPhase::Disconnected;
            let released = self.holds_grab;
            self.holds_grab = false;
            released
        } else {
            if matches!(self.phase, SessionPhase::Active) && elapsed
                > self.config.heartbeat_timeout {
                self.phase = SessionPhase::Degraded;
            }
            false
        }
    }

    /// This session's peer now provides the locally captured input: the
    /// exclusive grab is accounted to it until a terminal transition
    /// releases it.
    pub fn grant_grab(&mut self)
        requires
            old(self).wf(),
        ensures
            final (self).wf(),
            final (self).holds_grab,
            final (self).phase == old(self).phase,
            final (self).device_id == old(self).device_id,
            final (self).authenticated == old(self).authenticated,
            final (self).last_heartbeat_at == old(self).last_heartbeat_at,
            final (self).receiver == old(self).receiver,
            final (self).config == old(self).config,
    {
        self.holds_grab = true;
    }

    /// Books one incoming envelope against this peer's streams. On the
    /// fast channel nothing is ever fatal; on the reliable channel a gap
    /// or regression is a protocol violation that disconnects the session
    /// — terminally — and releases any held grab. Returns the receive
    /// outcome and whether the grab was released by this call.
    pub fn observe_envelope(&mut self, env: &Envelope) -> (r: (ReceiveOutcome, bool))
        requires
            old(self).wf(),
        ensures
            final (self).wf(),
            final (self).device_id == old(self).device_id,
            final (self).authenticated == old(self).authenticated,
            final (self).last_heartbeat_at == old(self).last_heartbeat_at,
            final (self).config == old(self).config,
            env@.transport_class == TransportClass::Reliable ==> {
                &&& final (self).receiver.last_fast_seq_seen == old(
                    self,
                ).receiver.last_fast_seq_seen
                &&& if env@.sequence == reliable_expected(
                    old(self).receiver.last_reliable_seq_seen,
                ) {
                    &&& r.0 == ReceiveOutcome::Accept
                    &&& final (self).receiver.last_reliable_seq_seen == Some(env@.sequence)
                    &&& final (self).phase == old(self).phase
                    &&& final (self).holds_grab == old(self).holds_grab
                    &&& !r.1
                } else {
                    &&& r.0 == ReceiveOutcome::ProtocolViolation
                    &&& final (self).phase == SessionPhase::Disconnected
                    &&& !final (self).holds_grab
                    &&& r.1 == old(self).holds_grab
                    &&& final (self).receiver.last_reliable_seq_seen == old(
                        self,
                    ).receiver.last_reliable_seq_seen
                }
            },
            env@.transport_class == TransportClass::Fast ==> {
                &&& r.0 != ReceiveOutcome::ProtocolViolation
                &&& final (self).phase == old(self).phase
                &&& final (self).holds_grab == old(self).holds_grab
                &&& !r.1
                &&& final (self).receiver.last_reliable_seq_seen == old(
                    self,
                ).receiver.last_reliable_seq_seen
                &&& (fast_fresh(old(self).receiver.last_fast_seq_seen, env@.sequence) ==> r.0
                    != ReceiveOutcome::DropStale && final (self).receiver.last_fast_seq_seen
                    == Some(env@.sequence))
                &&& (!fast_fresh(old(self).receiver.last_fast_seq_seen, env@.sequence) ==> r.0
                    == ReceiveOutcome::DropStale && final (self).receiver.last_fast_seq_seen
                    == old(self).receiver.last_fast_seq_seen)
            },
    {
        let outcome = self.receiver.observe(env.transport_class, env.sequence);
        if matches!(outcome, ReceiveOutcome::ProtocolViolation) {
            self.phase = SessionPhase::Disconnected;
            let released = self.holds_grab;
            self.holds_grab = false;
            (outcome, released)
        } else {
            (outcome, false)
        }
    }
}

} // verus!
