//! The end of the HTTP server: a drain that takes no longer than it may.

use vstd::prelude::*;

verus! {

/// Where the serving stands.
#[derive(Clone, Copy, PartialEq, Eq, Structural, Debug)]
pub enum ServePhase {
    /// Not told to end.
    Serving,
    /// Told to end, and finishing what is in flight, since this time.
    Draining { since: u64 },
}

/// What happened.
#[derive(Clone, Copy, PartialEq, Eq, Structural, Debug)]
pub enum ServeEvent {
    /// The server ended, with success or with an error.
    Ended { ok: bool },
    /// The server was told to end.
    Armed,
    /// Time has passed.
    Tick,
}

/// How the serving ended: the server's result, and whether requests were
/// abandoned.
#[derive(Clone, Copy, PartialEq, Eq, Structural, Debug)]
pub struct ServeEnd {
    pub ok: bool,
    pub grace_expired: bool,
}

/// What an event at `now` leads to, when a drain may take `grace`.
pub open spec fn serve_next(p: ServePhase, e: ServeEvent, now: u64, grace: u64) -> (
    ServePhase,
    Option<ServeEnd>,
) {
    match e {
        ServeEvent::Ended { ok } => (p, Some(ServeEnd { ok, grace_expired: false })),
        ServeEvent::Armed => match p {
            ServePhase::Serving => (ServePhase::Draining { since: now }, None),
            ServePhase::Draining { .. } => (p, None),
        },
        ServeEvent::Tick => match p {
            ServePhase::Draining { since } if now >= since && now - since >= grace => (
                p,
                Some(ServeEnd { ok: true, grace_expired: true }),
            ),
            _ => (p, None),
        },
    }
}

/// Takes an event at `now`; how the serving ended, once it has. The clock for
/// the drain starts when the server is told to end.
pub fn drive_serve_with_grace(p: &mut ServePhase, e: ServeEvent, now: u64, grace: u64) -> (r:
    Option<ServeEnd>)
    ensures
        (*final(p), r) == serve_next(*old(p), e, now, grace),
{
    match e {
        ServeEvent::Ended { ok } => Some(ServeEnd { ok, grace_expired: false }),
        ServeEvent::Armed => {
            if *p == ServePhase::Serving {
                *p = ServePhase::Draining { since: now };
            }
            None
        },
        ServeEvent::Tick => match *p {
            ServePhase::Draining { since } => if now >= since && now - since >= grace {
                Some(ServeEnd { ok: true, grace_expired: true })
            } else {
                None
            },
            ServePhase::Serving => None,
        },
    }
}

/// A run of the serving: the events with their times.
pub open spec fn serve_after(events: Seq<(ServeEvent, u64)>, grace: u64) -> (
    ServePhase,
    Option<ServeEnd>,
)
    decreases events.len(),
{
    if events.len() == 0 {
        (ServePhase::Serving, None)
    } else {
        let before = serve_after(events.drop_last(), grace);
        if before.1 is Some {
            before
        } else {
            serve_next(before.0, events.last().0, events.last().1, grace)
        }
    }
}

proof fn draining_was_armed(events: Seq<(ServeEvent, u64)>, grace: u64)
    ensures
        serve_after(events, grace).0 matches ServePhase::Draining { since } ==> exists|i: int|
            0 <= i < events.len() && #[trigger] events[i] == (ServeEvent::Armed, since),
        serve_after(events, grace).1 matches Some(end) ==> end.grace_expired ==> exists|
            i: int,
            j: int,
        |
            0 <= i < events.len() && 0 <= j < events.len() && (#[trigger] events[i]).0
                == ServeEvent::Armed && (#[trigger] events[j]).1 - events[i].1 >= grace,
    decreases events.len(),
{
    if events.len() > 0 {
        let shorter = events.drop_last();
        draining_was_armed(shorter, grace);
        assert(events[events.len() - 1] == events.last());
        if let ServePhase::Draining { since } = serve_after(shorter, grace).0 {
            let i = choose|i: int|
                0 <= i < shorter.len() && #[trigger] shorter[i] == (ServeEvent::Armed, since);
            assert(events[i] == (ServeEvent::Armed, since));
        }
        if serve_after(shorter, grace).1 matches Some(end) && end.grace_expired {
            let (i, j) = choose|i: int, j: int|
                0 <= i < shorter.len() && 0 <= j < shorter.len() && (#[trigger] shorter[i]).0
                    == ServeEvent::Armed && (#[trigger] shorter[j]).1 - shorter[i].1 >= grace;
            assert(events[i] == shorter[i]);
            assert(events[j] == shorter[j]);
        }
    }
}

/// Requests are abandoned only after the server was told to end, and no sooner
/// than the grace period after that: uptime alone never ends it.
pub proof fn requests_are_abandoned_only_after_the_grace(
    events: Seq<(ServeEvent, u64)>,
    grace: u64,
    end: ServeEnd,
)
    requires
        serve_after(events, grace).1 == Some(end),
        end.grace_expired,
    ensures
        exists|i: int, j: int|
            0 <= i < events.len() && 0 <= j < events.len() && (#[trigger] events[i]).0
                == ServeEvent::Armed && (#[trigger] events[j]).1 - events[i].1 >= grace,
{
    draining_was_armed(events, grace);
}

/// Whether the server was told to end at this event of a run, and not before.
pub open spec fn first_told(events: Seq<(ServeEvent, u64)>, i: int) -> bool {
    &&& 0 <= i < events.len()
    &&& events[i].0 is Armed
    &&& forall|j: int| 0 <= j < i ==> !((#[trigger] events[j]).0 is Armed)
}

proof fn draining_since_told(events: Seq<(ServeEvent, u64)>, grace: u64)
    requires
        serve_after(events, grace).1 is None,
    ensures
        serve_after(events, grace).0 is Serving <==> (forall|j: int|
            0 <= j < events.len() ==> !((#[trigger] events[j]).0 is Armed)),
        forall|i: int| #[trigger]
            first_told(events, i) ==> serve_after(events, grace).0 == (ServePhase::Draining {
                since: events[i].1,
            }),
    decreases events.len(),
{
    if events.len() > 0 {
        let shorter = events.drop_last();
        let last = events.len() - 1;
        draining_since_told(shorter, grace);
        assert(events[last] == events.last());
        assert forall|i: int| #[trigger] first_told(events, i) implies serve_after(events, grace).0
            == (ServePhase::Draining { since: events[i].1 }) by {
            if i < last {
                assert forall|j: int| 0 <= j < i implies !((#[trigger] shorter[j]).0 is Armed) by {
                    assert(shorter[j] == events[j]);
                }
                assert(first_told(shorter, i));
            } else {
                assert forall|j: int| 0 <= j < shorter.len() implies !((#[trigger] shorter[j]).0
                    is Armed) by {
                    assert(shorter[j] == events[j]);
                }
            }
        }
        if serve_after(events, grace).0 is Serving {
            assert forall|j: int| 0 <= j < events.len() implies !((#[trigger] events[j]).0
                is Armed) by {
                if j < last {
                    assert(shorter[j] == events[j]);
                }
            }
        }
        if forall|j: int| 0 <= j < events.len() ==> !((#[trigger] events[j]).0 is Armed) {
            assert forall|j: int| 0 <= j < shorter.len() implies !((#[trigger] shorter[j]).0
                is Armed) by {
                assert(shorter[j] == events[j]);
            }
        }
    }
}

/// The end of the server ends the serving with the server's own result, before it
/// was told to end and while it drains: no request counts as abandoned then.
pub proof fn the_servers_end_is_the_end(
    events: Seq<(ServeEvent, u64)>,
    grace: u64,
    ok: bool,
    now: u64,
)
    requires
        serve_after(events, grace).1 is None,
    ensures
        serve_after(events.push((ServeEvent::Ended { ok }, now)), grace).1 matches Some(end) && end.ok
            == ok && !end.grace_expired,
{
    assert(events.push((ServeEvent::Ended { ok }, now)).drop_last() =~= events);
}

/// A drain ends at the first look at the clock after the grace period, counted
/// from when the server was first told to end: with success, and with requests
/// abandoned. A look before that ends nothing, and neither does one at a server
/// that was not told to end, nor the telling itself.
pub proof fn a_drain_ends_with_its_grace(
    events: Seq<(ServeEvent, u64)>,
    grace: u64,
    now: u64,
)
    requires
        serve_after(events, grace).1 is None,
    ensures
        forall|i: int| #[trigger]
            first_told(events, i) ==> ({
                let end = serve_after(events.push((ServeEvent::Tick, now)), grace).1;
                &&& now - events[i].1 >= grace && now >= events[i].1 ==> (end matches Some(e) && e.ok
                    && e.grace_expired)
                &&& now - events[i].1 < grace ==> end is None
            }),
        (forall|j: int| 0 <= j < events.len() ==> !((#[trigger] events[j]).0 is Armed))
            ==> serve_after(events.push((ServeEvent::Tick, now)), grace).1 is None,
        serve_after(events.push((ServeEvent::Armed, now)), grace).1 is None,
{
    draining_since_told(events, grace);
    assert(events.push((ServeEvent::Tick, now)).drop_last() =~= events);
    assert(events.push((ServeEvent::Armed, now)).drop_last() =~= events);
}

/// The serving ends once: what comes later changes nothing.
pub proof fn the_end_stays(events: Seq<(ServeEvent, u64)>, grace: u64, e: ServeEvent, now: u64)
    requires
        serve_after(events, grace).1 is Some,
    ensures
        serve_after(events.push((e, now)), grace).1 == serve_after(events, grace).1,
{
    assert(events.push((e, now)).drop_last() =~= events);
}

} // verus!
