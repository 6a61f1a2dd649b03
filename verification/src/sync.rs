//! The synchronizer: when more than one capture origin competes for the
//! same logical pointer or keyboard, it decides deterministically which
//! events are accepted and which are discarded.
//!
//! Each event carries its origin's logical-clock entry. Acceptance, batch
//! by batch in arrival order: an event must strictly advance its origin's
//! last accepted clock; once a `ScreenSwitch` has named an authority, only
//! the authority's events are accepted (stragglers from the previous owner
//! are discarded whatever their timestamp); before any authority exists, a
//! tie — same logical target, same clock value, different origin — goes to
//! the later arrival (last-writer-wins). Discards are counted as
//! diagnostics, never surfaced as errors.

use vstd::prelude::*;

use crate::event::Event;
use crate::event::EventV;
use crate::event::is_pointer_event;
use crate::event::is_keyboard_event;
use crate::transport::DeviceId;
use vstd::pervasive::VecAdditionalExecFns;

verus! {

/// An event stamped with its origin's logical-clock value; what the
/// synchronizer orders and compares.
#[derive(Clone, Debug)]
pub struct TimedEvent {
    pub event: Event,
    pub time: u64,
}

/// Model of a [`TimedEvent`].
pub struct TimedEventV {
    pub event: EventV,
    pub time: u64,
}

impl View for TimedEvent {
    type V = TimedEventV;

    open spec fn view(&self) -> TimedEventV {
        TimedEventV { event: self.event@, time: self.time }
    }
}

impl TimedEvent {
    pub fn new(event: Event, time: u64) -> (r: TimedEvent)
        ensures
            r@.event == event@,
            r@.time == time,
    {
        TimedEvent { event, time }
    }
}

impl PartialEq for TimedEvent {
    fn eq(&self, other: &TimedEvent) -> (r: bool) {
        self.time == other.time && self.event == other.event
    }
}

impl vstd::std_specs::cmp::PartialEqSpecImpl for TimedEvent {
    open spec fn obeys_eq_spec() -> bool {
        true
    }

    open spec fn eq_spec(&self, other: &TimedEvent) -> bool {
        self@ == other@
    }
}

/// One pending entry: an event, its clock value and the origin that
/// produced it.
pub struct PendingV {
    pub origin: DeviceId,
    pub event: EventV,
    pub time: u64,
}

/// Two events compete for the same logical target when both drive the
/// pointer or both drive the keyboard.
pub open spec fn same_target(a: EventV, b: EventV) -> bool {
    (is_pointer_event(a) && is_pointer_event(b)) || (is_keyboard_event(a) && is_keyboard_event(b))
}

// ---------------------------------------------------------------------------
// The per-origin clock table: an association list from origin to the last
// accepted clock value, looked up by first match.
// ---------------------------------------------------------------------------
pub open spec fn clock_of(s: Seq<(DeviceId, u64)>, d: DeviceId) -> Option<u64>
    decreases s.len(),
{
    if s.len() == 0 {
        None
    } else if s[0].0 == d {
        Some(s[0].1)
    } else {
        clock_of(s.drop_first(), d)
    }
}

/// Replaces the first entry for `d`, or appends one.
pub open spec fn upsert(s: Seq<(DeviceId, u64)>, d: DeviceId, t: u64) -> Seq<(DeviceId, u64)>
    decreases s.len(),
{
    if s.len() == 0 {
        seq![(d, t)]
    } else if s[0].0 == d {
        seq![(d, t)] + s.drop_first()
    } else {
        seq![s[0]] + upsert(s.drop_first(), d, t)
    }
}

/// An event's clock strictly advances its origin's last accepted value.
pub open spec fn fresh_for(clocks: Seq<(DeviceId, u64)>, d: DeviceId, t: u64) -> bool {
    match clock_of(clocks, d) {
        None => true,
        Some(t0) => t > t0,
    }
}

pub proof fn lemma_clock_of_upsert(s: Seq<(DeviceId, u64)>, d: DeviceId, t: u64, q: DeviceId)
    ensures
        clock_of(upsert(s, d, t), d) == Some(t),
        q != d ==> clock_of(upsert(s, d, t), q) == clock_of(s, q),
    decreases s.len(),
{
    if s.len() == 0 {
        assert(upsert(s, d, t) == seq![(d, t)]);
        assert(upsert(s, d, t).drop_first() =~= Seq::<(DeviceId, u64)>::empty());
        if q != d {
            assert(clock_of(upsert(s, d, t), q) == clock_of(
                Seq::<(DeviceId, u64)>::empty(),
                q,
            ));
            assert(clock_of(Seq::<(DeviceId, u64)>::empty(), q) is None);
        }
    } else if s[0].0 == d {
        let u = upsert(s, d, t);
        assert(u == seq![(d, t)] + s.drop_first());
        assert(u[0] == (d, t));
        assert(u.drop_first() =~= s.drop_first());
    } else {
        let u = upsert(s, d, t);
        assert(u == seq![s[0]] + upsert(s.drop_first(), d, t));
        assert(u[0] == s[0]);
        assert(u.drop_first() =~= upsert(s.drop_first(), d, t));
        lemma_clock_of_upsert(s.drop_first(), d, t, q);
    }
}

/// When the first entry for `d` sits at index `i`, the lookup returns it.
pub proof fn lemma_clock_of_first_match(s: Seq<(DeviceId, u64)>, d: DeviceId, i: int)
    requires
        0 <= i < s.len(),
        s[i].0 == d,
        forall|k: int| 0 <= k < i ==> s[k].0 != d,
    ensures
        clock_of(s, d) == Some(s[i].1),
    decreases i,
{
    if i == 0 {
    } else {
        assert(s.drop_first()[i - 1] == s[i]);
        assert(forall|k: int| 0 <= k < i - 1 ==> s.drop_first()[k] == s[k + 1]);
        lemma_clock_of_first_match(s.drop_first(), d, i - 1);
    }
}

pub proof fn lemma_clock_of_no_match(s: Seq<(DeviceId, u64)>, d: DeviceId)
    requires
        forall|k: int| 0 <= k < s.len() ==> s[k].0 != d,
    ensures
        clock_of(s, d) is None,
    decreases s.len(),
{
    if s.len() == 0 {
    } else {
        assert(forall|k: int| 0 <= k < s.len() - 1 ==> s.drop_first()[k] == s[k + 1]);
        lemma_clock_of_no_match(s.drop_first(), d);
    }
}

/// When the first entry for `d` sits at index `i`, upserting overwrites it
/// in place.
pub proof fn lemma_upsert_found(s: Seq<(DeviceId, u64)>, d: DeviceId, t: u64, i: int)
    requires
        0 <= i < s.len(),
        s[i].0 == d,
        forall|k: int| 0 <= k < i ==> s[k].0 != d,
    ensures
        upsert(s, d, t) == s.update(i, (d, t)),
    decreases i,
{
    if i == 0 {
        assert(seq![(d, t)] + s.drop_first() =~= s.update(0, (d, t)));
    } else {
        assert(s.drop_first()[i - 1] == s[i]);
        assert(forall|k: int| 0 <= k < i - 1 ==> s.drop_first()[k] == s[k + 1]);
        lemma_upsert_found(s.drop_first(), d, t, i - 1);
        assert(seq![s[0]] + s.drop_first().update(i - 1, (d, t)) =~= s.update(i, (d, t)));
    }
}

pub proof fn lemma_upsert_missing(s: Seq<(DeviceId, u64)>, d: DeviceId, t: u64)
    requires
        forall|k: int| 0 <= k < s.len() ==> s[k].0 != d,
    ensures
        upsert(s, d, t) == s.push((d, t)),
    decreases s.len(),
{
    if s.len() == 0 {
        assert(seq![(d, t)] =~= s.push((d, t)));
    } else {
        assert(forall|k: int| 0 <= k < s.len() - 1 ==> s.drop_first()[k] == s[k + 1]);
        lemma_upsert_missing(s.drop_first(), d, t);
        assert(seq![s[0]] + s.drop_first().push((d, t)) =~= s.push((d, t)));
    }
}

// ---------------------------------------------------------------------------
// The resolution rule
// ---------------------------------------------------------------------------
/// `other` beats `h` in a tie: a competing event for the same target with
/// the same clock value from a different origin.
pub open spec fn beats(other: PendingV, h: PendingV) -> bool {
    other.origin != h.origin && other.time == h.time && same_target(other.event, h.event)
}

/// Whether the first pending event is accepted, given what still follows
/// it, the current authority and the clock table: it must strictly advance
/// its origin's clock; under an authority only the authority's events pass;
/// with no authority yet, a tie goes to the later arrival.
pub open spec fn accept_head(
    h: PendingV,
    rest: Seq<PendingV>,
    auth: Option<DeviceId>,
    clocks: Seq<(DeviceId, u64)>,
) -> bool {
    &&& fresh_for(clocks, h.origin, h.time)
    &&& match auth {
        Option::Some(a) => h.origin == a,
        Option::None => !(exists|j: int| 0 <= j < rest.len() && beats(rest[j], h)),
    }
}

/// The outcome of resolving one batch: the accepted events in order, the
/// clock table afterwards, and how many events were discarded.
pub struct ResolutionV {
    pub accepted: Seq<TimedEventV>,
    pub clocks: Seq<(DeviceId, u64)>,
    pub discarded: nat,
}

/// Resolves a pending batch in arrival order. A pure function of its
/// inputs: repeated runs over the same input decide identically.
pub open spec fn spec_resolve(
    p: Seq<PendingV>,
    auth: Option<DeviceId>,
    clocks: Seq<(DeviceId, u64)>,
) -> ResolutionV
    decreases p.len(),
{
    if p.len() == 0 {
        ResolutionV { accepted: Seq::empty(), clocks, discarded: 0 }
    } else {
        let h = p[0];
        let rest = p.drop_first();
        if accept_head(h, rest, auth, clocks) {
            let tail = spec_resolve(rest, auth, upsert(clocks, h.origin, h.time));
            ResolutionV {
                accepted: seq![TimedEventV { event: h.event, time: h.time }] + tail.accepted,
                clocks: tail.clocks,
                discarded: tail.discarded,
            }
        } else {
            let tail = spec_resolve(rest, auth, clocks);
            ResolutionV {
                accepted: tail.accepted,
                clocks: tail.clocks,
                discarded: tail.discarded + 1,
            }
        }
    }
}

/// The view of a pending queue.
pub open spec fn pend_view(s: Seq<(DeviceId, TimedEvent)>) -> Seq<PendingV> {
    s.map_values(|x: (DeviceId, TimedEvent)| PendingV { origin: x.0, event: x.1.event@, time: x.1.time })
}

/// Adding a count of discards to the running total, capped at the top of
/// the counter.
pub open spec fn sat_add_u64(a: u64, b: nat) -> u64 {
    if a + b <= u64::MAX {
        (a + b) as u64
    } else {
        u64::MAX
    }
}

/// First-match lookup of a screen name in the registry.
pub open spec fn screen_of(s: Seq<(String, DeviceId)>, name: Seq<char>) -> Option<DeviceId>
    decreases s.len(),
{
    if s.len() == 0 {
        None
    } else if s[0].0@ == name {
        Some(s[0].1)
    } else {
        screen_of(s.drop_first(), name)
    }
}

// ---------------------------------------------------------------------------
// The synchronizer itself
// ---------------------------------------------------------------------------
/// Per-target conflict-resolution state: the batch of pending events, the
/// clock table of last accepted values, the origin currently holding input
/// authority (set by the most recent resolvable `ScreenSwitch`), the screen
/// registry filled during handshake, and the running discard count.
pub struct Synchronizer {
    pub pending: Vec<(DeviceId, TimedEvent)>,
    pub authority: Option<DeviceId>,
    pub clocks: Vec<(DeviceId, u64)>,
    pub screens: Vec<(String, DeviceId)>,
    pub discarded: u64,
}

/// Looks up the last accepted clock value of an origin.
fn lookup_clock(clocks: &Vec<(DeviceId, u64)>, d: DeviceId) -> (r: Option<u64>)
    ensures
        r == clock_of(clocks@, d),
{
    let n = clocks.len();
    let mut j: usize = 0;
    while j < n
        invariant
            j <= n,
            n == clocks@.len(),
            forall|k: int| 0 <= k < j ==> clocks@[k].0 != d,
        decreases n - j,
    {
        if clocks[j].0 == d {
            proof {
                lemma_clock_of_first_match(clocks@, d, j as int);
            }
            return Some(clocks[j].1);
        }
        j = j + 1;
    }
    proof {
        lemma_clock_of_no_match(clocks@, d);
    }
    None
}

/// Records a newly accepted clock value for an origin.
fn set_clock(clocks: &mut Vec<(DeviceId, u64)>, d: DeviceId, t: u64)
    ensures
        final (clocks)@ == upsert(old(clocks)@, d, t),
{
    let n = clocks.len();
    let mut j: usize = 0;
    while j < n
        invariant
            j <= n,
            n == clocks@.len(),
            clocks@ == old(clocks)@,
            forall|k: int| 0 <= k < j ==> clocks@[k].0 != d,
        decreases n - j,
    {
        if clocks[j].0 == d {
            proof {
                lemma_upsert_found(clocks@, d, t, j as int);
            }
            clocks.set(j, (d, t));
            return ;
        }
        j = j + 1;
    }
    proof {
        lemma_upsert_missing(clocks@, d, t);
    }
    clocks.push((d, t));
}

impl Synchronizer {
    pub fn new() -> (r: Synchronizer)
        ensures
            r.pending@.len() == 0,
            r.authority is None,
            r.clocks@.len() == 0,
            r.screens@.len() == 0,
            r.discarded == 0,
    {
        Synchronizer {
            pending: Vec::new(),
            authority: None,
            clocks: Vec::new(),
            screens: Vec::new(),
            discarded: 0,
        }
    }

    /// Queues one event from the given origin for the next resolution.
    pub fn add_event(&mut self, te: TimedEvent, origin: DeviceId)
        ensures
            final (self).pending@ == old(self).pending@.push((origin, te)),
            final (self).authority == old(self).authority,
            final (self).clocks@ == old(self).clocks@,
            final (self).screens@ == old(self).screens@,
            final (self).discarded == old(self).discarded,
    {
        self.pending.push((origin, te));
    }

    /// Hands input authority to an origin; takes effect for the whole next
    /// resolution, atomically.
    pub fn set_authority(&mut self, d: DeviceId)
        ensures
            final (self).authority == Some(d),
            final (self).pending@ == old(self).pending@,
            final (self).clocks@ == old(self).clocks@,
            final (self).screens@ == old(self).screens@,
            final (self).discarded == old(self).discarded,
    {
        self.authority = Some(d);
    }

    /// Registers which origin drives a named screen; done once per peer at
    /// handshake time.
    pub fn register_screen(&mut self, name: String, device: DeviceId)
        ensures
            final (self).screens@ == old(self).screens@.push((name, device)),
            final (self).pending@ == old(self).pending@,
            final (self).authority == old(self).authority,
            final (self).clocks@ == old(self).clocks@,
            final (self).discarded == old(self).discarded,
    {
        self.screens.push((name, device));
    }

    /// The authority hand-off: a `ScreenSwitch` names a screen; if it is
    /// registered, its origin becomes the authority, else the switch is
    /// ignored.
    pub fn handle_screen_switch(&mut self, to_screen: &String)
        ensures
            final (self).authority == (match screen_of(old(self).screens@, to_screen@) {
                Option::Some(d) => Some(d),
                Option::None => old(self).authority,
            }),
            final (self).pending@ == old(self).pending@,
            final (self).clocks@ == old(self).clocks@,
            final (self).screens@ == old(self).screens@,
            final (self).discarded == old(self).discarded,
    {
        let n = self.screens.len();
        let mut j: usize = 0;
        while j < n
            invariant
                j <= n,
                n == self.screens@.len(),
                *self == *old(self),
                forall|k: int| 0 <= k < j ==> self.screens@[k].0@ != to_screen@,
            decreases n - j,
        {
            if self.screens[j].0.eq(to_screen) {
                proof {
                    lemma_screen_of_first_match(self.screens@, to_screen@, j as int);
                }
                let d = self.screens[j].1;
                self.authority = Some(d);
                return ;
            }
            j = j + 1;
        }
        proof {
            lemma_screen_of_no_match(self.screens@, to_screen@);
        }
    }

    /// Resolves the pending batch in arrival order and returns the accepted
    /// events, ready for local injection, in their authoritative order; the
    /// clock table advances and the discards join the running count. The
    /// decision is a pure function of the batch, the authority and the
    /// clock table, so repeated runs over the same input decide
    /// identically.
    pub fn resolve_conflicts(&mut self) -> (out: Vec<TimedEvent>)
        ensures
            ({
                let res = spec_resolve(
                    pend_view(old(self).pending@),
                    old(self).authority,
                    old(self).clocks@,
                );
                &&& out@.map_values(|te: TimedEvent| te@) == res.accepted
                &&& final (self).clocks@ == res.clocks
                &&& final (self).discarded == sat_add_u64(old(self).discarded, res.discarded)
            }),
            final (self).pending@.len() == 0,
            final (self).authority == old(self).authority,
            final (self).screens@ == old(self).screens@,
    {
        let ghost p_full = pend_view(self.pending@);
        let ghost auth0 = self.authority;
        let ghost clocks0 = self.clocks@;
        let ghost full = spec_resolve(p_full, auth0, clocks0);
        let n = self.pending.len();
        let mut out: Vec<TimedEvent> = Vec::new();
        let mut disc: u64 = 0;
        let mut i: usize = 0;
        proof {
            assert(p_full.subrange(0, n as int) =~= p_full);
            assert(out@.map_values(|te: TimedEvent| te@) + full.accepted =~= full.accepted);
        }
        while i < n
            invariant
                i <= n,
                n == self.pending@.len(),
                self.pending@ == old(self).pending@,
                self.authority == auth0,
                self.screens@ == old(self).screens@,
                self.discarded == old(self).discarded,
                p_full == pend_view(self.pending@),
                full == spec_resolve(p_full, auth0, clocks0),
                disc <= i,
                ({
                    let tail = spec_resolve(
                        p_full.subrange(i as int, n as int),
                        auth0,
                        self.clocks@,
                    );
                    &&& full.accepted == out@.map_values(|te: TimedEvent| te@) + tail.accepted
                    &&& full.clocks == tail.clocks
                    &&& full.discarded == disc + tail.discarded
                }),
            decreases n - i,
        {
            let ghost sub = p_full.subrange(i as int, n as int);
            let ghost h = p_full[i as int];
            let ghost rest = p_full.subrange(i as int + 1, n as int);
            let ghost cprev = self.clocks@;
            proof {
                assert(sub[0] == h);
                assert(sub.drop_first() =~= rest);
            }
            let origin: DeviceId = self.pending[i].0;
            let t: u64 = self.pending[i].1.time;
            proof {
                assert(h == (PendingV {
                    origin,
                    event: self.pending@[i as int].1.event@,
                    time: t,
                }));
            }
            let fresh = match lookup_clock(&self.clocks, origin) {
                Some(t0) => t > t0,
                None => true,
            };
            proof {
                assert(fresh == fresh_for(cprev, origin, t));
            }
            let accept: bool;
            match self.authority {
                Some(a) => {
                    accept = fresh && origin == a;
                },
                None => {
                    let mut found = false;
                    let mut k = i + 1;
                    while k < n
                        invariant
                            i < n,
                            i + 1 <= k <= n,
                            n == self.pending@.len(),
                            self.pending@ == old(self).pending@,
                            p_full == pend_view(self.pending@),
                            h == p_full[i as int],
                            origin == h.origin,
                            t == h.time,
                            found == exists|j: int|
                                i + 1 <= j < k && beats(p_full[j], p_full[i as int]),
                        decreases n - k,
                    {
                        let ok = self.pending[k].0;
                        let tk = self.pending[k].1.time;
                        if ok != origin && tk == t {
                            let pk = self.pending[k].1.event.is_pointer();
                            let pi = self.pending[i].1.event.is_pointer();
                            let kk = self.pending[k].1.event.is_keyboard();
                            let ki = self.pending[i].1.event.is_keyboard();
                            let same = (pk && pi) || (kk && ki);
                            if same {
                                proof {
                                    assert(beats(p_full[k as int], p_full[i as int]));
                                }
                                found = true;
                            }
                        }
                        k = k + 1;
                    }
                    proof {
                        if found {
                            let j = choose|j: int|
                                i + 1 <= j < n && beats(p_full[j], p_full[i as int]);
                            assert(rest[j - (i as int + 1)] == p_full[j]);
                        }
                        if exists|j: int| 0 <= j < rest.len() && beats(rest[j], h) {
                            let j = choose|j: int| 0 <= j < rest.len() && beats(rest[j], h);
                            assert(p_full[i as int + 1 + j] == rest[j]);
                        }
                    }
                    accept = fresh && !found;
                },
            }
            proof {
                assert(accept == accept_head(h, rest, auth0, cprev));
            }
            if accept {
                let ev = self.pending[i].1.event.duplicate();
                let ghost out_prev = out@;
                out.push(TimedEvent { event: ev, time: t });
                set_clock(&mut self.clocks, origin, t);
                proof {
                    let tail_prev = spec_resolve(sub, auth0, cprev);
                    let tail_next = spec_resolve(rest, auth0, upsert(cprev, origin, t));
                    assert(tail_prev.accepted == seq![TimedEventV { event: h.event, time: h.time }]
                        + tail_next.accepted);
                    assert(out@.map_values(|te: TimedEvent| te@) =~= out_prev.map_values(
                        |te: TimedEvent| te@,
                    ).push(TimedEventV { event: h.event, time: h.time }));
                    assert(out_prev.map_values(|te: TimedEvent| te@) + tail_prev.accepted
                        =~= out@.map_values(|te: TimedEvent| te@) + tail_next.accepted);
                }
            } else {
                proof {
                    let tail_prev = spec_resolve(sub, auth0, cprev);
                    let tail_next = spec_resolve(rest, auth0, cprev);
                    assert(tail_prev.accepted == tail_next.accepted);
                    assert(tail_prev.discarded == tail_next.discarded + 1);
                }
                disc = disc + 1;
            }
            i = i + 1;
        }
        proof {
            assert(p_full.subrange(n as int, n as int) =~= Seq::<PendingV>::empty());
            let tail = spec_resolve(Seq::<PendingV>::empty(), auth0, self.clocks@);
            assert(tail.accepted =~= Seq::<TimedEventV>::empty());
            assert(out@.map_values(|te: TimedEvent| te@) + tail.accepted =~= out@.map_values(
                |te: TimedEvent| te@,
            ));
        }
        self.pending.clear();
        let d0 = self.discarded;
        self.discarded = if d0 <= u64::MAX - disc {
            d0 + disc
        } else {
            u64::MAX
        };
        out
    }

    /// How many events conflict resolution has discarded so far; a
    /// diagnostic, never an error.
    pub fn discard_count(&self) -> (r: u64)
        ensures
            r == self.discarded,
    {
        self.discarded
    }
}

/// One authoritative source, as in normal operation: a batch from a single
/// origin whose clock values strictly increase and advance that origin's
/// table entry is accepted in full, in arrival order, with nothing
/// discarded.
pub proof fn lemma_single_origin_in_order(p: Seq<PendingV>, d: DeviceId, clocks: Seq<(DeviceId, u64)>)
    requires
        forall|i: int| 0 <= i < p.len() ==> p[i].origin == d,
        forall|i: int| 0 <= i < p.len() ==> fresh_for(clocks, d, p[i].time),
        forall|i: int, j: int| 0 <= i < j < p.len() ==> p[i].time < p[j].time,
    ensures
        spec_resolve(p, None, clocks).accepted == p.map_values(
            |x: PendingV| TimedEventV { event: x.event, time: x.time },
        ),
        spec_resolve(p, None, clocks).discarded == 0,
    decreases p.len(),
{
    if p.len() == 0 {
        assert(p.map_values(|x: PendingV| TimedEventV { event: x.event, time: x.time })
            =~= Seq::<TimedEventV>::empty());
    } else {
        let h = p[0];
        let rest = p.drop_first();
        assert(forall|i: int| 0 <= i < rest.len() ==> rest[i] == p[i + 1]);
        assert(accept_head(h, rest, None, clocks));
        let c2 = upsert(clocks, h.origin, h.time);
        assert forall|i: int| 0 <= i < rest.len() implies fresh_for(c2, d, rest[i].time) by {
            lemma_clock_of_upsert(clocks, d, h.time, d);
            assert(p[0].time < p[i + 1].time);
        }
        lemma_single_origin_in_order(rest, d, c2);
        assert(seq![TimedEventV { event: h.event, time: h.time }] + rest.map_values(
            |x: PendingV| TimedEventV { event: x.event, time: x.time },
        ) =~= p.map_values(|x: PendingV| TimedEventV { event: x.event, time: x.time }));
    }
}

/// The (event, time) payload of each pending entry from one origin, in
/// arrival order.
pub open spec fn events_from(p: Seq<PendingV>, d: DeviceId) -> Seq<TimedEventV>
    decreases p.len(),
{
    if p.len() == 0 {
        Seq::empty()
    } else if p[0].origin == d {
        seq![TimedEventV { event: p[0].event, time: p[0].time }] + events_from(p.drop_first(), d)
    } else {
        events_from(p.drop_first(), d)
    }
}

/// Conflict resolution around an authority hand-off: once the authority is
/// `b`, a batch in which `b`'s events carry strictly increasing clock
/// values that advance `b`'s clock table entry resolves to exactly `b`'s
/// events, in order, and every event from every other origin — whatever
/// its timestamp — is discarded. Being a pure function of its input, the
/// outcome is identical across repeated runs.
pub proof fn lemma_authority_wins(p: Seq<PendingV>, b: DeviceId, clocks: Seq<(DeviceId, u64)>)
    requires
        forall|i: int| 0 <= i < p.len() && p[i].origin == b ==> fresh_for(clocks, b, p[i].time),
        forall|i: int, j: int|
            0 <= i < j < p.len() && p[i].origin == b && p[j].origin == b ==> p[i].time < p[j].time,
    ensures
        spec_resolve(p, Some(b), clocks).accepted == events_from(p, b),
        spec_resolve(p, Some(b), clocks).discarded == p.len() - events_from(p, b).len(),
        events_from(p, b).len() <= p.len(),
    decreases p.len(),
{
    if p.len() == 0 {
    } else {
        let h = p[0];
        let rest = p.drop_first();
        assert(forall|i: int| 0 <= i < rest.len() ==> rest[i] == p[i + 1]);
        if h.origin == b {
            assert(fresh_for(clocks, b, h.time));
            assert(accept_head(h, rest, Some(b), clocks));
            let c2 = upsert(clocks, b, h.time);
            assert forall|i: int| 0 <= i < rest.len() && rest[i].origin == b implies fresh_for(
                c2,
                b,
                rest[i].time,
            ) by {
                lemma_clock_of_upsert(clocks, b, h.time, b);
                assert(p[0].time < p[i + 1].time);
            }
            lemma_authority_wins(rest, b, c2);
        } else {
            assert(!accept_head(h, rest, Some(b), clocks));
            lemma_authority_wins(rest, b, clocks);
        }
    }
}

pub proof fn lemma_screen_of_first_match(s: Seq<(String, DeviceId)>, name: Seq<char>, i: int)
    requires
        0 <= i < s.len(),
        s[i].0@ == name,
        forall|k: int| 0 <= k < i ==> s[k].0@ != name,
    ensures
        screen_of(s, name) == Some(s[i].1),
    decreases i,
{
    if i == 0 {
    } else {
        assert(s.drop_first()[i - 1] == s[i]);
        assert(forall|k: int| 0 <= k < i - 1 ==> s.drop_first()[k] == s[k + 1]);
        lemma_screen_of_first_match(s.drop_first(), name, i - 1);
    }
}

pub proof fn lemma_screen_of_no_match(s: Seq<(String, DeviceId)>, name: Seq<char>)
    requires
        forall|k: int| 0 <= k < s.len() ==> s[k].0@ != name,
    ensures
        screen_of(s, name) is None,
    decreases s.len(),
{
    if s.len() == 0 {
    } else {
        assert(forall|k: int| 0 <= k < s.len() - 1 ==> s.drop_first()[k] == s[k + 1]);
        lemma_screen_of_no_match(s.drop_first(), name);
    }
}

} // verus!
