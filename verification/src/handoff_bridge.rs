//! Handing over to a successor: new requests wait, and those under way are finished first.
use crate::scaler::{PoolerPicture, PoolerStats};
use vstd::prelude::*;

verus! {

/// The state of the pooler before the first measurement.
pub fn new_pooler_stats() -> (r: PoolerStats)
    ensures
        r@ == (PoolerPicture {
            live_workers: 0,
            max_workers: 0,
            aggregate_centicores: 0,
            per_worker_centicores: 0,
            at_ceiling: false,
            last_action: seq![],
        }),
{
    PoolerStats::default()
}

/// What the loop that accepts requests and the one that hands over share.
#[derive(Clone, Copy, Debug, PartialEq, Eq, Structural)]
pub struct SharedState {
    /// No new request is accepted.
    pub accept_paused: bool,
    /// Requests under way.
    pub in_flight: u32,
}

/// How far a drain got.
#[derive(Clone, Copy, Debug, PartialEq, Eq, Structural)]
pub struct DrainReport {
    pub open_conns_remaining: u32,
    pub accept_closed: bool,
}

/// Whether another request may be waited for: that is not paused, and one more can be counted.
pub open spec fn may_wait(s: SharedState) -> bool {
    !s.accept_paused && s.in_flight < u32::MAX
}

/// Requests are accepted, and none is under way.
pub open spec fn idle() -> SharedState {
    SharedState { accept_paused: false, in_flight: 0 }
}

/// How far a drain got, once it is over.
pub open spec fn drained(s: SharedState, now_ns: u64, deadline_ns: u64) -> Option<DrainReport> {
    if s.in_flight == 0 || now_ns >= deadline_ns {
        Some(DrainReport { open_conns_remaining: s.in_flight, accept_closed: true })
    } else {
        None
    }
}

impl SharedState {
    /// Requests are accepted, and none is under way.
    pub fn new() -> (r: SharedState)
        ensures
            r == idle(),
    {
        SharedState { accept_paused: false, in_flight: 0 }
    }

    /// Whether the loop that accepts requests may wait for another one.
    pub fn accepts(&self) -> (r: bool)
        ensures
            r == may_wait(*self),
    {
        !self.accept_paused && self.in_flight < u32::MAX
    }

    /// A request was accepted.
    pub fn on_accept(&mut self)
        requires
            old(self).in_flight < u32::MAX,
        ensures
            *final(self) == after(
                Serving { shared: *old(self), waiting: true },
                Change::Accept,
            ).shared,
    {
        self.in_flight = self.in_flight + 1;
    }

    /// A request was finished.
    pub fn on_done(&mut self)
        requires
            old(self).in_flight > 0,
        ensures
            *final(self) == after(
                Serving { shared: *old(self), waiting: false },
                Change::Done,
            ).shared,
    {
        self.in_flight = self.in_flight - 1;
    }

    /// Starts to drain: from now on no request is accepted.
    pub fn begin_drain(&mut self)
        ensures
            *final(self) == after(
                Serving { shared: *old(self), waiting: false },
                Change::BeginDrain,
            ).shared,
    {
        self.accept_paused = true;
    }

    /// How far the drain got, once it is over: nothing is under way, or the time is up.
    pub fn drain_step(&self, now_ns: u64, deadline_ns: u64) -> (r: Option<DrainReport>)
        ensures
            r == drained(*self, now_ns, deadline_ns),
    {
        if self.in_flight > 0 && now_ns < deadline_ns {
            None
        } else {
            Some(DrainReport { open_conns_remaining: self.in_flight, accept_closed: true })
        }
    }

    /// The handover was called off: requests are accepted again.
    pub fn resume_after_abort(&mut self)
        ensures
            *final(self) == after(
                Serving { shared: *old(self), waiting: false },
                Change::Resume,
            ).shared,
    {
        self.accept_paused = false;
    }

    /// How many requests are under way.
    pub fn open_conns(&self) -> (r: u32)
        ensures
            r == self.in_flight,
    {
        self.in_flight
    }
}

/// The shared state, and whether the loop that accepts requests is waiting for one.
pub struct Serving {
    pub shared: SharedState,
    pub waiting: bool,
}

/// A change of the state.
pub enum Change {
    /// The loop starts to wait for a request.
    Wait,
    /// The request that the loop waits for is there.
    Accept,
    Done,
    BeginDrain,
    Resume,
}

/// Whether a change can happen: the loop starts to wait only where that is allowed, it accepts what
/// it waits for even if that is no longer allowed, and only a request that is under way can be
/// finished.
pub open spec fn possible(s: Serving, c: Change) -> bool {
    match c {
        Change::Wait => !s.waiting && may_wait(s.shared),
        Change::Accept => s.waiting,
        Change::Done => s.shared.in_flight > 0,
        _ => true,
    }
}

/// The state after a change.
pub open spec fn after(s: Serving, c: Change) -> Serving {
    match c {
        Change::Wait => Serving { waiting: true, ..s },
        Change::Accept => Serving {
            shared: SharedState { in_flight: (s.shared.in_flight + 1) as u32, ..s.shared },
            waiting: false,
        },
        Change::Done => Serving {
            shared: SharedState { in_flight: (s.shared.in_flight - 1) as u32, ..s.shared },
            ..s
        },
        Change::BeginDrain => Serving {
            shared: SharedState { accept_paused: true, ..s.shared },
            ..s
        },
        Change::Resume => Serving {
            shared: SharedState { accept_paused: false, ..s.shared },
            ..s
        },
    }
}

/// The state after several changes.
pub open spec fn after_all(s: Serving, cs: Seq<Change>) -> Serving
    decreases cs.len(),
{
    if cs.len() == 0 {
        s
    } else {
        after(after_all(s, cs.drop_last()), cs.last())
    }
}

/// Every change could happen when it did.
pub open spec fn all_possible(s: Serving, cs: Seq<Change>) -> bool
    decreases cs.len(),
{
    cs.len() > 0 ==> all_possible(s, cs.drop_last()) && possible(
        after_all(s, cs.drop_last()),
        cs.last(),
    )
}

/// The requests that a drain may have to wait for: those under way, and the one that the loop is
/// waiting for.
pub open spec fn owed(s: Serving) -> int {
    s.shared.in_flight + if s.waiting {
        1int
    } else {
        0int
    }
}

/// The count of requests never runs over: the loop waits for one more only while there is room.
pub proof fn law_count_has_room(s: Serving, cs: Seq<Change>)
    requires
        owed(s) <= u32::MAX,
        all_possible(s, cs),
    ensures
        owed(after_all(s, cs)) <= u32::MAX,
    decreases cs.len(),
{
    if cs.len() > 0 {
        law_count_has_room(s, cs.drop_last());
    }
}

/// From the start of a drain until it is called off, no request is added to those under way and
/// the one that was being waited for: what a drain waits for never grows, and at most one request
/// is accepted after its start.
pub proof fn law_drain_only_shrinks(s: Serving, cs: Seq<Change>)
    requires
        s.shared.accept_paused,
        owed(s) <= u32::MAX,
        all_possible(s, cs),
        forall|i: int| 0 <= i < cs.len() ==> cs[i] != Change::Resume,
    ensures
        after_all(s, cs).shared.accept_paused,
        owed(after_all(s, cs)) <= owed(s),
        after_all(s, cs).waiting ==> s.waiting,
        !s.waiting ==> after_all(s, cs).shared.in_flight <= s.shared.in_flight,
    decreases cs.len(),
{
    if cs.len() > 0 {
        assert(cs.last() == cs[cs.len() - 1]);
        assert forall|i: int| 0 <= i < cs.drop_last().len() implies cs.drop_last()[i]
            != Change::Resume by {
            assert(cs.drop_last()[i] == cs[i]);
        }
        law_drain_only_shrinks(s, cs.drop_last());
    }
}

/// A drain is over exactly when nothing is under way or its time is up, and tells how many requests
/// it left behind: none, unless its time was up.
pub proof fn law_drain_ends(s: SharedState, now_ns: u64, deadline_ns: u64)
    ensures
        drained(s, now_ns, deadline_ns) is None <==> s.in_flight > 0 && now_ns < deadline_ns,
        drained(s, now_ns, deadline_ns) matches Some(r) ==> r.accept_closed
            && r.open_conns_remaining == s.in_flight,
        now_ns < deadline_ns ==> (drained(s, now_ns, deadline_ns) matches Some(r)
            ==> r.open_conns_remaining == 0),
{
}

/// A drain that starts and is called off leaves things as they were, but for requests that came to an
/// end meanwhile.
pub proof fn law_called_off_drain_leaves_no_trace(s: Serving)
    requires
        !s.shared.accept_paused,
    ensures
        after(after(s, Change::BeginDrain), Change::Resume) == s,
        !may_wait(after(s, Change::BeginDrain).shared),
        may_wait(s.shared) ==> may_wait(after(after(s, Change::BeginDrain), Change::Resume).shared),
{
}

/// Each request that is accepted is counted once, and each that is finished is taken off the count;
/// neither a drain nor its end changes it.
pub proof fn law_requests_are_counted(s: Serving)
    requires
        s.shared.in_flight < u32::MAX,
    ensures
        after(s, Change::Accept).shared.in_flight == s.shared.in_flight + 1,
        s.shared.in_flight > 0 ==> after(s, Change::Done).shared.in_flight == s.shared.in_flight - 1,
        after(s, Change::BeginDrain).shared == (SharedState { accept_paused: true, ..s.shared }),
        after(s, Change::Resume).shared == (SharedState { accept_paused: false, ..s.shared }),
        after(s, Change::Accept).shared.accept_paused == s.shared.accept_paused,
        after(s, Change::Done).shared.accept_paused == s.shared.accept_paused,
        may_wait(s.shared) <==> !s.shared.accept_paused,
{
}

/// A state without requests accepts the next one, and a drain of it is over at once.
pub proof fn law_idle_state_drains_at_once(now_ns: u64, deadline_ns: u64)
    ensures
        may_wait(idle()),
        drained(idle(), now_ns, deadline_ns) == Some(
            DrainReport { open_conns_remaining: 0, accept_closed: true },
        ),
{
}

} // verus!
