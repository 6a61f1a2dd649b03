//! Transport-level value types and the delivery model: envelopes stamp each
//! event with a transport class, a per-(origin, class) sequence number and a
//! capture origin; the sender stamps monotonically, the receiver detects
//! ordering violations on the reliable channel and tolerates gaps on the
//! fast one.

use vstd::prelude::*;

use crate::event::Event;
use crate::event::EventV;
use crate::event::wf_event;

verus! {

/// The two delivery paths: `Reliable` is ordered and lossless, `Fast` is
/// low-latency and may drop or reorder.
#[derive(Clone, Copy, Debug, PartialEq, Eq, Structural)]
pub enum TransportClass {
    Reliable,
    Fast,
}

/// Identifies a capture origin (one physical input source on a named
/// screen). Stable for the lifetime of a session; assigned during handshake.
#[derive(Clone, Copy, Debug, PartialEq, Eq, Structural)]
pub struct DeviceId(pub u64);

/// Wraps an [`Event`] for transport. `sequence` is a per-(origin,
/// transport_class) counter starting at 0; it is not unique across classes.
#[derive(Clone, Debug)]
pub struct Envelope {
    pub event: Event,
    pub transport_class: TransportClass,
    pub sequence: u32,
    pub origin: DeviceId,
}

/// Mathematical model of an [`Envelope`].
pub struct EnvelopeV {
    pub event: EventV,
    pub transport_class: TransportClass,
    pub sequence: u32,
    pub origin: DeviceId,
}

impl View for Envelope {
    type V = EnvelopeV;

    open spec fn view(&self) -> EnvelopeV {
        EnvelopeV {
            event: self.event@,
            transport_class: self.transport_class,
            sequence: self.sequence,
            origin: self.origin,
        }
    }
}

/// A well-formed envelope carries a well-formed event.
pub open spec fn wf_envelope(v: EnvelopeV) -> bool {
    wf_event(v.event)
}

/// Send-side failure of a transport channel.
#[derive(Clone, Copy, Debug, PartialEq, Eq, Structural)]
pub enum TransportError {
    /// The underlying connection refused or lost the message.
    SendFailed,
    /// The peer disconnected; the channel carries nothing any more.
    ConnectionClosed,
    /// The per-stream sequence space is used up; no further envelope can be
    /// stamped on this (origin, class) stream.
    SequenceExhausted,
}

/// Stamps outgoing envelopes for one origin: keeps one monotonically
/// increasing counter per transport class, each starting at 0.
pub struct Sender {
    pub origin: DeviceId,
    pub next_reliable: u32,
    pub next_fast: u32,
}

impl Sender {
    /// The counter the next envelope of the given class will carry.
    pub open spec fn spec_next(&self, class: TransportClass) -> u32 {
        match class {
            TransportClass::Reliable => self.next_reliable,
            TransportClass::Fast => self.next_fast,
        }
    }

    pub fn new(origin: DeviceId) -> (r: Sender)
        ensures
            r.origin == origin,
            r.next_reliable == 0,
            r.next_fast == 0,
    {
        Sender { origin, next_reliable: 0, next_fast: 0 }
    }

    /// Wraps an event into an envelope on the given class, stamping the next
    /// sequence number and advancing that class's counter; the other class's
    /// counter is untouched. Fails only when the 32-bit sequence space of
    /// that stream is exhausted.
    pub fn stamp(&mut self, event: Event, class: TransportClass) -> (r: Result<
        Envelope,
        TransportError,
    >)
        ensures
            match r {
                Ok(env) => {
                    &&& old(self).spec_next(class) < u32::MAX
                    &&& env@.event == event@
                    &&& env@.transport_class == class
                    &&& env@.origin == old(self).origin
                    &&& env@.sequence == old(self).spec_next(class)
                    &&& final (self).spec_next(class) == old(self).spec_next(class) + 1
                },
                Err(e) => {
                    &&& e == TransportError::SequenceExhausted
                    &&& old(self).spec_next(class) == u32::MAX
                    &&& *final (self) == *old(self)
                },
            },
            final (self).origin == old(self).origin,
            class != TransportClass::Reliable ==> final (self).next_reliable == old(
                self,
            ).next_reliable,
            class != TransportClass::Fast ==> final (self).next_fast == old(self).next_fast,
    {
        match class {
            TransportClass::Reliable => {
                if self.next_reliable == u32::MAX {
                    return Err(TransportError::SequenceExhausted);
                }
                let seq = self.next_reliable;
                self.next_reliable = self.next_reliable + 1;
                Ok(Envelope { event, transport_class: class, sequence: seq, origin: self.origin })
            },
            TransportClass::Fast => {
                if self.next_fast == u32::MAX {
                    return Err(TransportError::SequenceExhausted);
                }
                let seq = self.next_fast;
                self.next_fast = self.next_fast + 1;
                Ok(Envelope { event, transport_class: class, sequence: seq, origin: self.origin })
            },
        }
    }
}

/// What the receive side decided about one incoming envelope.
#[derive(Clone, Copy, Debug, PartialEq, Eq, Structural)]
pub enum ReceiveOutcome {
    /// In order on its stream; deliver it.
    Accept,
    /// Fast-channel gap: `missed` sequence numbers were lost in transit; the
    /// envelope itself is delivered (best-effort channel).
    AcceptWithGap { missed: u32 },
    /// Fast-channel envelope at or below the highest sequence already seen:
    /// a duplicate or a late reordered packet; dropped, never an error.
    DropStale,
    /// Reliable-channel gap or regression: stream corruption, a protocol
    /// violation that must terminate the session.
    ProtocolViolation,
}

/// Receive-side bookkeeping for one peer: the highest sequence seen on each
/// transport class, `None` until the first envelope of that class arrives.
pub struct ReceiverState {
    pub last_reliable_seq_seen: Option<u32>,
    pub last_fast_seq_seen: Option<u32>,
}

/// The sequence number the reliable stream owes next: 0 at the start, then
/// exactly one more than the last one seen.
pub open spec fn reliable_expected(last: Option<u32>) -> int {
    match last {
        Option::None => 0,
        Option::Some(s) => s + 1,
    }
}

/// A fast-channel envelope is delivered exactly when it advances the highest
/// sequence seen on that stream.
pub open spec fn fast_fresh(last: Option<u32>, seq: u32) -> bool {
    match last {
        Option::None => true,
        Option::Some(s) => seq > s,
    }
}

impl ReceiverState {
    pub fn new() -> (r: ReceiverState)
        ensures
            r.last_reliable_seq_seen is None,
            r.last_fast_seq_seen is None,
    {
        ReceiverState { last_reliable_seq_seen: None, last_fast_seq_seen: None }
    }

    /// Classifies one incoming envelope per the loss/reorder rules: on
    /// `Reliable` only the exactly-next sequence is in order and anything
    /// else is a protocol violation; on `Fast` any forward step is delivered
    /// (a jump reports how many were lost) and anything else is dropped as
    /// stale, never an error.
    pub fn observe(&mut self, class: TransportClass, seq: u32) -> (r: ReceiveOutcome)
        ensures
            class == TransportClass::Reliable ==> {
                &&& final (self).last_fast_seq_seen == old(self).last_fast_seq_seen
                &&& if seq == reliable_expected(old(self).last_reliable_seq_seen) {
                    &&& r == ReceiveOutcome::Accept
                    &&& final (self).last_reliable_seq_seen == Some(seq)
                } else {
                    &&& r == ReceiveOutcome::ProtocolViolation
                    &&& final (self).last_reliable_seq_seen == old(self).last_reliable_seq_seen
                }
            },
            class == TransportClass::Fast ==> {
                &&& final (self).last_reliable_seq_seen == old(self).last_reliable_seq_seen
                &&& if fast_fresh(old(self).last_fast_seq_seen, seq) {
                    &&& final (self).last_fast_seq_seen == Some(seq)
                    &&& r == (match old(self).last_fast_seq_seen {
                        Option::None => if seq == 0 {
                            ReceiveOutcome::Accept
                        } else {
                            ReceiveOutcome::AcceptWithGap { missed: seq }
                        },
                        Option::Some(s) => if seq == s + 1 {
                            ReceiveOutcome::Accept
                        } else {
                            ReceiveOutcome::AcceptWithGap { missed: (seq - s - 1) as u32 }
                        },
                    })
                } else {
                    &&& r == ReceiveOutcome::DropStale
                    &&& final (self).last_fast_seq_seen == old(self).last_fast_seq_seen
                }
            },
    {
        match class {
            TransportClass::Reliable => {
                let in_order = match self.last_reliable_seq_seen {
                    None => seq == 0,
                    Some(s) => s < u32::MAX && seq == s + 1,
                };
                if in_order {
                    self.last_reliable_seq_seen = Some(seq);
                    ReceiveOutcome::Accept
                } else {
                    ReceiveOutcome::ProtocolViolation
                }
            },
            TransportClass::Fast => {
                match self.last_fast_seq_seen {
                    None => {
                        self.last_fast_seq_seen = Some(seq);
                        if seq == 0 {
                            ReceiveOutcome::Accept
                        } else {
                            ReceiveOutcome::AcceptWithGap { missed: seq }
                        }
                    },
                    Some(s) => {
                        if seq > s {
                            self.last_fast_seq_seen = Some(seq);
                            if seq == s + 1 {
                                ReceiveOutcome::Accept
                            } else {
                                ReceiveOutcome::AcceptWithGap { missed: seq - s - 1 }
                            }
                        } else {
                            ReceiveOutcome::DropStale
                        }
                    },
                }
            },
        }
    }
}

/// An in-order, lossless queue of envelopes: the model of one reliable
/// connection between two peers. Senders append, the receiver takes from
/// the front; nothing is dropped, duplicated or reordered.
pub struct Channel {
    pub queue: Vec<Envelope>,
    pub closed: bool,
}

impl Channel {
    pub fn new() -> (r: Channel)
        ensures
            r.queue@.len() == 0,
            !r.closed,
    {
        Channel { queue: Vec::new(), closed: false }
    }

    /// Appends at the back; delivery order equals send order. Fails only on
    /// a closed channel, leaving the queue untouched.
    pub fn send(&mut self, env: Envelope) -> (r: Result<(), TransportError>)
        ensures
            match r {
                Ok(()) => {
                    &&& !old(self).closed
                    &&& final (self).queue@ == old(self).queue@.push(env)
                    &&& !final (self).closed
                },
                Err(e) => {
                    &&& old(self).closed
                    &&& e == TransportError::ConnectionClosed
                    &&& *final (self) == *old(self)
                },
            },
    {
        if self.closed {
            Err(TransportError::ConnectionClosed)
        } else {
            self.queue.push(env);
            Ok(())
        }
    }

    /// Takes from the front; yields `None` when nothing is pending, and
    /// `ConnectionClosed` once the channel is closed and drained, which
    /// terminates the receive sequence.
    pub fn recv(&mut self) -> (r: Result<Option<Envelope>, TransportError>)
        ensures
            match r {
                Ok(Some(env)) => {
                    &&& old(self).queue@.len() > 0
                    &&& env == old(self).queue@[0]
                    &&& final (self).queue@ == old(self).queue@.drop_first()
                    &&& final (self).closed == old(self).closed
                },
                Ok(None) => {
                    &&& old(self).queue@.len() == 0
                    &&& !old(self).closed
                    &&& *final (self) == *old(self)
                },
                Err(e) => {
                    &&& e == TransportError::ConnectionClosed
                    &&& old(self).queue@.len() == 0
                    &&& old(self).closed
                    &&& *final (self) == *old(self)
                },
            },
    {
        if self.queue.len() == 0 {
            if self.closed {
                Err(TransportError::ConnectionClosed)
            } else {
                Ok(None)
            }
        } else {
            let env = self.queue.remove(0);
            Ok(Some(env))
        }
    }

    /// Marks the peer as disconnected; pending envelopes may still be
    /// drained.
    pub fn close(&mut self)
        ensures
            final (self).queue@ == old(self).queue@,
            final (self).closed,
    {
        self.closed = true;
    }
}

/// How an outgoing event fared under the fallback policy.
#[derive(Clone, Copy, Debug, PartialEq, Eq, Structural)]
pub enum SendOutcome {
    /// Delivered to the fast channel.
    SentFast,
    /// The fast channel refused it; delivered to the reliable channel on
    /// the one mandated retry.
    SentReliableFallback,
    /// Both channels refused it; only now may the event be treated as
    /// lost, and the caller is told so.
    Lost,
}

/// The dispatcher's send policy for high-frequency input: try the fast
/// channel first; if it fails, retry exactly once on the reliable channel
/// before treating the event as lost — a user-input event is never
/// silently dropped.
pub fn send_with_fallback(sender: &mut Sender, fast: &mut Channel, reliable: &mut Channel, event: Event) -> (r: SendOutcome)
    ensures
        match r {
            SendOutcome::SentFast => {
                &&& old(sender).next_fast < u32::MAX
                &&& !old(fast).closed
                &&& final (fast).queue@.len() == old(fast).queue@.len() + 1
                &&& final (fast).queue@ == old(fast).queue@.push(final (fast).queue@.last())
                &&& final (fast).queue@.last()@.event == event@
                &&& final (fast).queue@.last()@.transport_class == TransportClass::Fast
                &&& final (fast).queue@.last()@.sequence == old(sender).next_fast
                &&& final (fast).queue@.last()@.origin == old(sender).origin
                &&& *final (reliable) == *old(reliable)
                &&& final (sender).next_fast == old(sender).next_fast + 1
                &&& final (sender).next_reliable == old(sender).next_reliable
            },
            SendOutcome::SentReliableFallback => {
                &&& (old(sender).next_fast == u32::MAX || old(fast).closed)
                &&& old(sender).next_reliable < u32::MAX
                &&& !old(reliable).closed
                &&& final (reliable).queue@.len() == old(reliable).queue@.len() + 1
                &&& final (reliable).queue@ == old(reliable).queue@.push(
                    final (reliable).queue@.last(),
                )
                &&& final (reliable).queue@.last()@.event == event@
                &&& final (reliable).queue@.last()@.transport_class == TransportClass::Reliable
                &&& final (reliable).queue@.last()@.sequence == old(sender).next_reliable
                &&& final (reliable).queue@.last()@.origin == old(sender).origin
                &&& final (fast).queue@ == old(fast).queue@
                &&& final (sender).next_reliable == old(sender).next_reliable + 1
            },
            SendOutcome::Lost => {
                &&& (old(sender).next_fast == u32::MAX || old(fast).closed)
                &&& (old(sender).next_reliable == u32::MAX || old(reliable).closed)
                &&& final (fast).queue@ == old(fast).queue@
                &&& final (reliable).queue@ == old(reliable).queue@
            },
        },
        final (sender).origin == old(sender).origin,
{
    let retry = event.duplicate();
    match sender.stamp(event, TransportClass::Fast) {
        Ok(env) => {
            match fast.send(env) {
                Ok(()) => {
                    return SendOutcome::SentFast;
                },
                Err(_) => {},
            }
        },
        Err(_) => {},
    }
    match sender.stamp(retry, TransportClass::Reliable) {
        Ok(env) => {
            match reliable.send(env) {
                Ok(()) => SendOutcome::SentReliableFallback,
                Err(_) => SendOutcome::Lost,
            }
        },
        Err(_) => SendOutcome::Lost,
    }
}

/// The receiver, with `last` as the highest reliable sequence seen so far,
/// accepts this stream of sequence numbers one after another, each in
/// order on arrival.
pub open spec fn reliable_accepts_all(last: Option<u32>, seqs: Seq<u32>) -> bool
    decreases seqs.len(),
{
    if seqs.len() == 0 {
        true
    } else {
        &&& seqs[0] == reliable_expected(last)
        &&& reliable_accepts_all(Some(seqs[0]), seqs.drop_first())
    }
}

/// Reliable-channel ordering: a consecutive run of sequence numbers,
/// starting exactly where the receiver's stream stands, is accepted
/// envelope by envelope in the order sent — for every length, so in
/// particular for every N >= 1 from a fresh stream. Together with the
/// channel contract (delivery order equals send order) the receiver
/// observes the events in the order they were sent.
pub proof fn lemma_reliable_in_order(seqs: Seq<u32>, last: Option<u32>)
    requires
        forall|i: int| 0 <= i < seqs.len() ==> seqs[i] == reliable_expected(last) + i,
        reliable_expected(last) + seqs.len() <= u32::MAX + 1,
    ensures
        reliable_accepts_all(last, seqs),
    decreases seqs.len(),
{
    if seqs.len() == 0 {
    } else {
        let first = seqs[0];
        let rest = seqs.drop_first();
        assert(forall|i: int| 0 <= i < rest.len() ==> rest[i] == seqs[i + 1]);
        lemma_reliable_in_order(rest, Some(first));
    }
}

/// Fast-channel loss tolerance: when message `k` of a stream is lost in
/// transit, its neighbours still go through — after delivering `k - 1`,
/// the arrival of `k + 1` is again delivered (with a gap report), never
/// dropped and never an error; on the fast channel no arrival is ever a
/// protocol violation, so nothing blocks the stream.
pub proof fn lemma_fast_loss_tolerance(last: Option<u32>, k: u32)
    requires
        1 <= k < u32::MAX,
        fast_fresh(last, (k - 1) as u32),
    ensures
        fast_fresh(last, (k - 1) as u32),
        fast_fresh(Some((k - 1) as u32), (k + 1) as u32),
{
}

} // verus!
