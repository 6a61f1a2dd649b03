//! The event queue and dispatcher: the single ingestion point where local
//! capture, the network receive paths and the timer hand their events to
//! one consumer. The queue is bounded — a full queue refuses the event and
//! the producer suspends instead of dropping input silently. Draining
//! routes each event by kind: raw input to the synchronizer, screen
//! switches to the authority hand-off, heartbeats to liveness, errors to
//! diagnostics; one resolution pass then yields the injectable output in
//! authoritative order.

use vstd::prelude::*;

use crate::event::Event;
use crate::event::EventV;
use crate::event::is_input_event;
use crate::transport::DeviceId;
use crate::sync::PendingV;
use crate::sync::Synchronizer;
use crate::sync::TimedEvent;
use crate::sync::TimedEventV;
use crate::sync::pend_view;
use crate::sync::screen_of;
use crate::sync::spec_resolve;
use crate::sync::sat_add_u64;

verus! {

/// One queued event with its provenance: which origin produced it and its
/// logical-clock value on that origin.
pub struct QueueItem {
    pub origin: DeviceId,
    pub time: u64,
    pub event: Event,
}

/// Model of a [`QueueItem`].
pub struct QueueItemV {
    pub origin: DeviceId,
    pub time: u64,
    pub event: EventV,
}

impl View for QueueItem {
    type V = QueueItemV;

    open spec fn view(&self) -> QueueItemV {
        QueueItemV { origin: self.origin, time: self.time, event: self.event@ }
    }
}

/// The view of a whole queue.
pub open spec fn queue_view(s: Seq<QueueItem>) -> Seq<QueueItemV> {
    s.map_values(|x: QueueItem| x@)
}

/// The raw input events of a batch, as synchronizer pendings, in arrival
/// order.
pub open spec fn input_pendings(items: Seq<QueueItemV>) -> Seq<PendingV>
    decreases items.len(),
{
    if items.len() == 0 {
        Seq::empty()
    } else {
        let pre = input_pendings(items.drop_last());
        let it = items.last();
        if is_input_event(it.event) {
            pre.push(PendingV { origin: it.origin, event: it.event, time: it.time })
        } else {
            pre
        }
    }
}

/// The authority after the batch's screen switches are applied in order:
/// each switch to a registered screen hands authority to that screen's
/// origin; a switch to an unknown screen changes nothing.
pub open spec fn authority_after(
    screens: Seq<(String, DeviceId)>,
    auth: Option<DeviceId>,
    items: Seq<QueueItemV>,
) -> Option<DeviceId>
    decreases items.len(),
{
    if items.len() == 0 {
        auth
    } else {
        let pre = authority_after(screens, auth, items.drop_last());
        match items.last().event {
            EventV::ScreenSwitch { to_screen } => match screen_of(screens, to_screen) {
                Option::Some(d) => Some(d),
                Option::None => pre,
            },
            _ => pre,
        }
    }
}

/// How many heartbeats the batch carries.
pub open spec fn heartbeat_total(items: Seq<QueueItemV>) -> nat
    decreases items.len(),
{
    if items.len() == 0 {
        0
    } else {
        heartbeat_total(items.drop_last()) + (if items.last().event == EventV::Heartbeat {
            1nat
        } else {
            0nat
        })
    }
}

/// The diagnostic messages the batch carries, in order.
pub open spec fn diagnostic_msgs(items: Seq<QueueItemV>) -> Seq<Seq<char>>
    decreases items.len(),
{
    if items.len() == 0 {
        Seq::empty()
    } else {
        let pre = diagnostic_msgs(items.drop_last());
        match items.last().event {
            EventV::Error(message) => pre.push(message),
            _ => pre,
        }
    }
}

/// What one drain of the dispatcher produced.
pub struct DispatchOutput {
    /// The accepted input events, in authoritative order, ready for local
    /// injection.
    pub injected: Vec<Event>,
    /// How many heartbeats were routed to liveness tracking.
    pub heartbeats: u64,
    /// The diagnostic messages of the batch's error events.
    pub diagnostics: Vec<String>,
}

/// The bounded ingestion queue in front of the dispatcher.
pub struct EventQueue {
    pub items: Vec<QueueItem>,
    /// The configured queue depth before producers suspend.
    pub capacity: usize,
    /// The origin stamped on locally captured events.
    pub local_origin: DeviceId,
    /// The logical clock for locally captured events; each accepted local
    /// event strictly advances it.
    pub local_clock: u64,
}

impl EventQueue {
    /// A queue that suspends producers once `buffer_size` events wait.
    pub fn new(buffer_size: usize) -> (r: EventQueue)
        ensures
            r.items@.len() == 0,
            r.capacity == buffer_size,
            r.local_origin == DeviceId(0),
            r.local_clock == 0,
    {
        EventQueue { items: Vec::new(), capacity: buffer_size, local_origin: DeviceId(0), local_clock: 0 }
    }

    /// Names the origin under which locally captured events are stamped;
    /// set once the handshake has assigned this host its device id.
    pub fn set_local_origin(&mut self, origin: DeviceId)
        ensures
            final (self).local_origin == origin,
            final (self).items@ == old(self).items@,
            final (self).capacity == old(self).capacity,
            final (self).local_clock == old(self).local_clock,
    {
        self.local_origin = origin;
    }

    /// Enqueues one locally captured event, stamping it with this host's
    /// origin and the next local clock value. `false` — the queue is full
    /// (or the clock exhausted) and the producer must suspend and retry;
    /// the event is refused, never dropped silently.
    pub fn add_event(&mut self, event: Event) -> (accepted: bool)
        ensures
            accepted <==> (old(self).items@.len() < old(self).capacity && old(self).local_clock
                < u64::MAX),
            accepted ==> {
                &&& final (self).items@ == old(self).items@.push(
                    QueueItem {
                        origin: old(self).local_origin,
                        time: (old(self).local_clock + 1) as u64,
                        event,
                    },
                )
                &&& final (self).local_clock == old(self).local_clock + 1
            },
            !accepted ==> *final (self) == *old(self),
            final (self).capacity == old(self).capacity,
            final (self).local_origin == old(self).local_origin,
    {
        if self.items.len() < self.capacity && self.local_clock < u64::MAX {
            self.local_clock = self.local_clock + 1;
            self.items.push(QueueItem { origin: self.local_origin, time: self.local_clock, event });
            true
        } else {
            false
        }
    }

    /// Enqueues one event received from the network, already carrying its
    /// origin and clock value. `false` — the queue is full and the
    /// network producer must suspend.
    pub fn add_remote_event(&mut self, origin: DeviceId, time: u64, event: Event) -> (accepted:
        bool)
        ensures
            accepted <==> old(self).items@.len() < old(self).capacity,
            accepted ==> final (self).items@ == old(self).items@.push(
                QueueItem { origin, time, event },
            ),
            !accepted ==> *final (self) == *old(self),
            final (self).capacity == old(self).capacity,
            final (self).local_origin == old(self).local_origin,
            final (self).local_clock == old(self).local_clock,
    {
        if self.items.len() < self.capacity {
            self.items.push(QueueItem { origin, time, event });
            true
        } else {
            false
        }
    }

    /// Drains the queue in arrival order, routing every event — raw input
    /// into the synchronizer, screen switches into the authority hand-off,
    /// heartbeats and diagnostics into the output — then resolves the
    /// batch once under the final authority. The injectable output is the
    /// resolution's accepted events, in order.
    pub fn process_events(&mut self, sync: &mut Synchronizer) -> (out: DispatchOutput)
        ensures
            ({
                let itemsv = queue_view(old(self).items@);
                let auth1 = authority_after(old(sync).screens@, old(sync).authority, itemsv);
                let res = spec_resolve(
                    pend_view(old(sync).pending@) + input_pendings(itemsv),
                    auth1,
                    old(sync).clocks@,
                );
                &&& out.injected@.map_values(|e: Event| e@) == res.accepted.map_values(
                    |te: TimedEventV| te.event,
                )
                &&& out.heartbeats as nat == heartbeat_total(itemsv)
                &&& out.diagnostics@.map_values(|s: String| s@) == diagnostic_msgs(itemsv)
                &&& final (sync).authority == auth1
                &&& final (sync).clocks@ == res.clocks
                &&& final (sync).discarded == sat_add_u64(old(sync).discarded, res.discarded)
            }),
            final (sync).pending@.len() == 0,
            final (sync).screens@ == old(sync).screens@,
            final (self).items@.len() == 0,
            final (self).capacity == old(self).capacity,
            final (self).local_origin == old(self).local_origin,
            final (self).local_clock == old(self).local_clock,
    {
        let ghost itemsv = queue_view(self.items@);
        let ghost screens0 = sync.screens@;
        let ghost auth0 = sync.authority;
        let ghost pend0 = pend_view(sync.pending@);
        let n = self.items.len();
        let mut hb: u64 = 0;
        let mut diags: Vec<String> = Vec::new();
        let mut i: usize = 0;
        proof {
            assert(itemsv.take(0) =~= Seq::<QueueItemV>::empty());
            assert(pend_view(sync.pending@) =~= pend0 + input_pendings(itemsv.take(0)));
            assert(diags@.map_values(|s: String| s@) =~= diagnostic_msgs(itemsv.take(0)));
        }
        while i < n
            invariant
                i <= n,
                n == self.items@.len(),
                self.items@ == old(self).items@,
                self.capacity == old(self).capacity,
                self.local_origin == old(self).local_origin,
                self.local_clock == old(self).local_clock,
                itemsv == queue_view(self.items@),
                sync.screens@ == screens0,
                sync.clocks@ == old(sync).clocks@,
                sync.discarded == old(sync).discarded,
                pend_view(sync.pending@) == pend0 + input_pendings(itemsv.take(i as int)),
                sync.authority == authority_after(screens0, auth0, itemsv.take(i as int)),
                hb as nat == heartbeat_total(itemsv.take(i as int)),
                hb <= i,
                diags@.map_values(|s: String| s@) == diagnostic_msgs(itemsv.take(i as int)),
            decreases n - i,
        {
            proof {
                assert(itemsv.take(i as int + 1).drop_last() =~= itemsv.take(i as int));
                assert(itemsv.take(i as int + 1).last() == itemsv[i as int]);
                assert(itemsv[i as int] == self.items@[i as int]@);
            }
            match &self.items[i].event {
                Event::ScreenSwitch { to_screen } => {
                    sync.handle_screen_switch(to_screen);
                },
                Event::Heartbeat => {
                    hb = hb + 1;
                },
                Event::Error(message) => {
                    let ghost dprev = diags@;
                    diags.push(message.clone());
                    proof {
                        assert(diags@.map_values(|s: String| s@) =~= dprev.map_values(
                            |s: String| s@,
                        ).push(message@));
                    }
                },
                _ => {
                    let te = TimedEvent::new(self.items[i].event.duplicate(), self.items[i].time);
                    let origin = self.items[i].origin;
                    let ghost pprev = sync.pending@;
                    sync.add_event(te, origin);
                    proof {
                        assert(is_input_event(itemsv[i as int].event));
                        assert(pend_view(sync.pending@) =~= pend_view(pprev).push(
                            PendingV {
                                origin: itemsv[i as int].origin,
                                event: itemsv[i as int].event,
                                time: itemsv[i as int].time,
                            },
                        ));
                        assert(pend0 + input_pendings(itemsv.take(i as int + 1)) =~= (pend0
                            + input_pendings(itemsv.take(i as int))).push(
                            PendingV {
                                origin: itemsv[i as int].origin,
                                event: itemsv[i as int].event,
                                time: itemsv[i as int].time,
                            },
                        ));
                    }
                },
            }
            i = i + 1;
        }
        proof {
            assert(itemsv.take(n as int) =~= itemsv);
        }
        let accepted = sync.resolve_conflicts();
        let ghost res = spec_resolve(pend0 + input_pendings(itemsv), authority_after(screens0, auth0, itemsv), old(sync).clocks@);
        let m = accepted.len();
        let mut injected: Vec<Event> = Vec::new();
        let mut j: usize = 0;
        proof {
            assert(accepted@.map_values(|te: TimedEvent| te@) == res.accepted);
            assert(injected@.map_values(|e: Event| e@) =~= res.accepted.map_values(
                |te: TimedEventV| te.event,
            ).take(0));
        }
        while j < m
            invariant
                j <= m,
                m == accepted@.len(),
                accepted@.map_values(|te: TimedEvent| te@) == res.accepted,
                injected@.map_values(|e: Event| e@) == res.accepted.map_values(
                    |te: TimedEventV| te.event,
                ).take(j as int),
            decreases m - j,
        {
            let ghost iprev = injected@;
            let ev = accepted[j].event.duplicate();
            injected.push(ev);
            proof {
                assert(accepted@.map_values(|te: TimedEvent| te@)[j as int] == accepted@[j as int]@);
                assert(ev@ == res.accepted[j as int].event);
                assert(injected@ == iprev.push(ev));
                assert(injected@.map_values(|e: Event| e@) =~= iprev.map_values(
                    |e: Event| e@,
                ).push(ev@));
                assert(res.accepted.map_values(|te: TimedEventV| te.event).take(j as int + 1)
                    =~= res.accepted.map_values(|te: TimedEventV| te.event).take(j as int).push(
                    res.accepted[j as int].event,
                ));
            }
            j = j + 1;
        }
        proof {
            assert(res.accepted.map_values(|te: TimedEventV| te.event).take(
                res.accepted.len() as int,
            ) =~= res.accepted.map_values(|te: TimedEventV| te.event));
        }
        self.items.clear();
        DispatchOutput { injected, heartbeats: hb, diagnostics: diags }
    }
}

} // verus!
