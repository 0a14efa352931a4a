//! The heartbeat of a recovery: keeping its claims young while it lives.
//!
//! An old claim counts as orphaned. So a live recovery refreshes each of its
//! claims every [`CLAIM_BEAT`], in steps short enough to stop promptly.

use vstd::prelude::*;

use crate::identity::ops::{KeyOp, CLAIM_BEAT, CLAIM_BEAT_GRANULE, CLAIM_SWEEP_MIN_AGE};

verus! {

/// Where a heartbeat stands.
#[derive(Clone, Copy, PartialEq, Eq, Structural, Debug)]
pub enum BeatPhase {
    /// Has it been told to stop? So much has been slept of the beat.
    CheckSleep { slept: u64 },
    /// Sleep one granule.
    Sleep { slept: u64 },
    /// Has it been told to stop, before the claim at this place?
    CheckClaim { at: usize },
    /// Set the claim's time.
    Stamp { at: usize },
    /// Append to the claim, where its time cannot be set.
    Append { at: usize },
    Stopped,
}

/// What happened.
#[derive(Clone, Copy, PartialEq, Eq, Structural, Debug)]
pub enum BeatEvent {
    /// Whether it has been told to stop.
    Stop(bool),
    /// The operation succeeded.
    Done,
    /// The operation failed.
    Failed,
}

/// The first phase of a heartbeat.
pub open spec fn beat_start() -> BeatPhase {
    BeatPhase::CheckSleep { slept: 0 }
}

/// The phase after so much sleep: sleep on, or begin with the claims.
pub open spec fn after_sleep(slept: u64, claims: nat) -> BeatPhase {
    if slept < CLAIM_BEAT {
        BeatPhase::CheckSleep { slept }
    } else {
        claim_or_sleep(0, claims)
    }
}

/// The claim at this place; behind the last one, the next beat.
pub open spec fn claim_or_sleep(at: int, claims: nat) -> BeatPhase {
    if at < claims {
        BeatPhase::CheckClaim { at: at as usize }
    } else {
        beat_start()
    }
}

/// What an event leads to, for a heartbeat of so many claims.
pub open spec fn beat_next_spec(p: BeatPhase, e: BeatEvent, claims: nat) -> BeatPhase {
    match p {
        BeatPhase::CheckSleep { slept } => if e == BeatEvent::Stop(true) {
            BeatPhase::Stopped
        } else {
            BeatPhase::Sleep { slept }
        },
        BeatPhase::Sleep { slept } => after_sleep((slept + CLAIM_BEAT_GRANULE) as u64, claims),
        BeatPhase::CheckClaim { at } => if e == BeatEvent::Stop(true) {
            BeatPhase::Stopped
        } else {
            BeatPhase::Stamp { at }
        },
        BeatPhase::Stamp { at } => if e is Failed {
            BeatPhase::Append { at }
        } else {
            claim_or_sleep(at + 1, claims)
        },
        BeatPhase::Append { at } => claim_or_sleep(at + 1, claims),
        BeatPhase::Stopped => BeatPhase::Stopped,
    }
}

/// Whether a phase is one of a heartbeat of so many claims.
pub open spec fn beat_wf(p: BeatPhase, claims: nat) -> bool {
    match p {
        BeatPhase::CheckSleep { slept } => slept < CLAIM_BEAT,
        BeatPhase::Sleep { slept } => slept < CLAIM_BEAT,
        BeatPhase::CheckClaim { at } => at < claims,
        BeatPhase::Stamp { at } => at < claims,
        BeatPhase::Append { at } => at < claims,
        BeatPhase::Stopped => true,
    }
}

/// Begins a heartbeat.
pub fn claim_heartbeat() -> (r: BeatPhase)
    ensures
        r == beat_start(),
        forall|claims: nat| #[trigger] beat_wf(r, claims),
{
    BeatPhase::CheckSleep { slept: 0 }
}

/// The operation that a phase waits for; `None` where it only looks whether it
/// has been told to stop, or has stopped.
pub fn beat_op(p: BeatPhase, claims: &Vec<u32>) -> (r: Option<KeyOp>)
    requires
        beat_wf(p, claims@.len()),
    ensures
        r == (match p {
            BeatPhase::Sleep { .. } => Some(KeyOp::Pause(CLAIM_BEAT_GRANULE)),
            BeatPhase::Stamp { at } => Some(KeyOp::StampClaim(claims@[at as int])),
            BeatPhase::Append { at } => Some(KeyOp::AppendClaim(claims@[at as int])),
            _ => None,
        }),
        r == beat_op_spec(p, claims@),
{
    match p {
        BeatPhase::Sleep { .. } => Some(KeyOp::Pause(CLAIM_BEAT_GRANULE)),
        BeatPhase::Stamp { at } => Some(KeyOp::StampClaim(claims[at])),
        BeatPhase::Append { at } => Some(KeyOp::AppendClaim(claims[at])),
        _ => None,
    }
}

/// What an event leads to, for a heartbeat of so many claims.
pub fn beat_next(p: BeatPhase, e: BeatEvent, claims: usize) -> (r: BeatPhase)
    requires
        beat_wf(p, claims as nat),
    ensures
        r == beat_next_spec(p, e, claims as nat),
        beat_wf(r, claims as nat),
{
    match p {
        BeatPhase::CheckSleep { slept } => if e == BeatEvent::Stop(true) {
            BeatPhase::Stopped
        } else {
            BeatPhase::Sleep { slept }
        },
        BeatPhase::Sleep { slept } => {
            let slept: u64 = slept + CLAIM_BEAT_GRANULE;
            if slept < CLAIM_BEAT {
                BeatPhase::CheckSleep { slept }
            } else if claims > 0 {
                BeatPhase::CheckClaim { at: 0 }
            } else {
                BeatPhase::CheckSleep { slept: 0 }
            }
        },
        BeatPhase::CheckClaim { at } => if e == BeatEvent::Stop(true) {
            BeatPhase::Stopped
        } else {
            BeatPhase::Stamp { at }
        },
        BeatPhase::Stamp { at } => match e {
            BeatEvent::Failed => BeatPhase::Append { at },
            _ => if at + 1 < claims {
                BeatPhase::CheckClaim { at: at + 1 }
            } else {
                BeatPhase::CheckSleep { slept: 0 }
            },
        },
        BeatPhase::Append { at } => if at + 1 < claims {
            BeatPhase::CheckClaim { at: at + 1 }
        } else {
            BeatPhase::CheckSleep { slept: 0 }
        },
        BeatPhase::Stopped => BeatPhase::Stopped,
    }
}

/// The time slept in a run of events from the phase `p`.
pub open spec fn slept_in(p: BeatPhase, events: Seq<BeatEvent>, claims: nat) -> nat
    decreases events.len(),
{
    if events.len() == 0 {
        0
    } else {
        (if p is Sleep { CLAIM_BEAT_GRANULE as nat } else { 0 }) + slept_in(
            beat_next_spec(p, events[0], claims),
            events.drop_first(),
            claims,
        )
    }
}

/// The phase after a run of events from the phase `p`.
pub open spec fn beat_after(p: BeatPhase, events: Seq<BeatEvent>, claims: nat) -> BeatPhase
    decreases events.len(),
{
    if events.len() == 0 {
        p
    } else {
        beat_after(beat_next_spec(p, events[0], claims), events.drop_first(), claims)
    }
}

/// Whether the run comes to a claim before its end.
pub open spec fn meets_a_claim(p: BeatPhase, events: Seq<BeatEvent>, claims: nat) -> bool
    decreases events.len(),
{
    p is CheckClaim || (events.len() > 0 && meets_a_claim(
        beat_next_spec(p, events[0], claims),
        events.drop_first(),
        claims,
    ))
}

proof fn sleep_is_bounded(p: BeatPhase, events: Seq<BeatEvent>, claims: nat)
    requires
        claims > 0,
        claims <= usize::MAX,
        p matches BeatPhase::CheckSleep { slept } ==> slept < CLAIM_BEAT && slept
            % CLAIM_BEAT_GRANULE == 0,
        p matches BeatPhase::Sleep { slept } ==> slept < CLAIM_BEAT && slept % CLAIM_BEAT_GRANULE
            == 0,
        p is CheckSleep || p is Sleep || p is Stopped || p is CheckClaim,
        !meets_a_claim(p, events, claims),
    ensures
        slept_in(p, events, claims) + (match p {
            BeatPhase::CheckSleep { slept } => slept as nat,
            BeatPhase::Sleep { slept } => slept as nat,
            _ => 0,
        }) <= CLAIM_BEAT,
        p is Stopped ==> slept_in(p, events, claims) == 0,
    decreases events.len(),
{
    if events.len() > 0 {
        let q = beat_next_spec(p, events[0], claims);
        assert(q is CheckClaim ==> meets_a_claim(q, events.drop_first(), claims));
        sleep_is_bounded(q, events.drop_first(), claims);
    }
}

/// A live recovery's claims do not age out: from the start of a beat, a
/// heartbeat that has claims and has not come to one of them has slept at most
/// a quarter of the age at which a claim counts as orphaned.
pub proof fn claims_are_refreshed_in_time(events: Seq<BeatEvent>, claims: nat)
    requires
        claims > 0,
        claims <= usize::MAX,
        !meets_a_claim(beat_start(), events, claims),
    ensures
        4 * slept_in(beat_start(), events, claims) <= CLAIM_SWEEP_MIN_AGE,
{
    sleep_is_bounded(beat_start(), events, claims);
}

/// A heartbeat that has been told to stop does nothing more.
pub proof fn a_stopped_heartbeat_stays_stopped(events: Seq<BeatEvent>, claims: nat)
    ensures
        beat_after(BeatPhase::Stopped, events, claims) is Stopped,
    decreases events.len(),
{
    if events.len() > 0 {
        a_stopped_heartbeat_stays_stopped(events.drop_first(), claims);
    }
}

/// The operation that a phase waits for, where it waits for one.
pub open spec fn beat_op_spec(p: BeatPhase, claims: Seq<u32>) -> Option<KeyOp> {
    match p {
        BeatPhase::Sleep { .. } => Some(KeyOp::Pause(CLAIM_BEAT_GRANULE)),
        BeatPhase::Stamp { at } => Some(KeyOp::StampClaim(claims[at as int])),
        BeatPhase::Append { at } => Some(KeyOp::AppendClaim(claims[at as int])),
        _ => None,
    }
}

/// A heartbeat works on the claim at which it stands: it sets that claim's time, or
/// appends to it; and it sleeps a quarter of a second at a time.
pub proof fn a_beat_works_on_its_claim(at: usize, claims: Seq<u32>, slept: u64)
    requires
        at < claims.len(),
    ensures
        beat_op_spec(BeatPhase::Stamp { at }, claims) == Some(KeyOp::StampClaim(claims[at as int])),
        beat_op_spec(BeatPhase::Append { at }, claims) == Some(
            KeyOp::AppendClaim(claims[at as int]),
        ),
        beat_op_spec(BeatPhase::Sleep { slept }, claims) == Some(KeyOp::Pause(250_000_000)),
        beat_op_spec(BeatPhase::CheckClaim { at }, claims) is None,
        beat_op_spec(BeatPhase::CheckSleep { slept }, claims) is None,
        beat_op_spec(BeatPhase::Stopped, claims) is None,
{
}

/// Whether the run came to setting the time of this claim.
pub open spec fn stamps(p: BeatPhase, events: Seq<BeatEvent>, claims: nat, i: int) -> bool
    decreases events.len(),
{
    (p matches BeatPhase::Stamp { at } && at == i) || (events.len() > 0 && stamps(
        beat_next_spec(p, events[0], claims),
        events.drop_first(),
        claims,
        i,
    ))
}

/// A beat refreshes every claim: a run from the first claim on that comes to the
/// next sleep, and is not told to stop, has set the time of each of the claims.
pub proof fn a_beat_refreshes_every_claim(events: Seq<BeatEvent>, claims: nat, i: int)
    requires
        0 <= i < claims,
        claims <= usize::MAX,
        beat_after(BeatPhase::CheckClaim { at: 0 }, events, claims) is CheckSleep || beat_after(
            BeatPhase::CheckClaim { at: 0 },
            events,
            claims,
        ) is Sleep,
        !events.contains(BeatEvent::Stop(true)),
    ensures
        stamps(BeatPhase::CheckClaim { at: 0 }, events, claims, i),
{
    refreshing_goes_on(BeatPhase::CheckClaim { at: 0 }, events, claims, i);
}

proof fn refreshing_goes_on(p: BeatPhase, events: Seq<BeatEvent>, claims: nat, i: int)
    requires
        0 <= i < claims,
        claims <= usize::MAX,
        match p {
            BeatPhase::CheckClaim { at } => at <= i,
            BeatPhase::Stamp { at } => at <= i,
            BeatPhase::Append { at } => at < i,
            _ => false,
        },
        beat_after(p, events, claims) is CheckSleep || beat_after(p, events, claims) is Sleep,
        !events.contains(BeatEvent::Stop(true)),
    ensures
        stamps(p, events, claims, i),
    decreases events.len(),
{
    if !(p matches BeatPhase::Stamp { at } && at == i) {
        assert(events.contains(events[0]));
        let rest = events.drop_first();
        assert forall|e: BeatEvent| rest.contains(e) implies events.contains(e) by {
            let k = choose|k: int| 0 <= k < rest.len() && rest[k] == e;
            assert(events[k + 1] == e);
        }
        refreshing_goes_on(beat_next_spec(p, events[0], claims), rest, claims, i);
    }
}

/// A heartbeat stops when it is told to, whether it sleeps or refreshes; and a
/// claim whose time cannot be set is appended to.
pub proof fn heartbeats_stop_and_fall_back(p: BeatPhase, claims: nat, slept: u64, at: usize)
    ensures
        beat_next_spec(BeatPhase::CheckSleep { slept }, BeatEvent::Stop(true), claims) is Stopped,
        beat_next_spec(BeatPhase::CheckClaim { at }, BeatEvent::Stop(true), claims) is Stopped,
        beat_next_spec(BeatPhase::CheckSleep { slept }, BeatEvent::Stop(false), claims)
            == (BeatPhase::Sleep { slept }),
        beat_next_spec(BeatPhase::CheckClaim { at }, BeatEvent::Stop(false), claims)
            == (BeatPhase::Stamp { at }),
        beat_next_spec(BeatPhase::Stamp { at }, BeatEvent::Failed, claims) == (BeatPhase::Append {
            at,
        }),
        !(beat_next_spec(BeatPhase::Stamp { at }, BeatEvent::Done, claims) is Append),
{
}

/// A heartbeat sleeps for a whole beat before it refreshes: a run from the start of
/// a beat that has come to a claim for the first time has slept ten times a quarter
/// of a second.
pub proof fn a_beat_begins_with_its_sleep(events: Seq<BeatEvent>, claims: nat)
    requires
        claims > 0,
        claims <= usize::MAX,
        beat_after(beat_start(), events, claims) is CheckClaim,
        events.len() > 0 && !meets_a_claim(beat_start(), events.drop_last(), claims),
    ensures
        slept_in(beat_start(), events, claims) == 2_500_000_000,
{
    the_sleep_adds_up(beat_start(), events, claims);
}

proof fn the_sleep_adds_up(p: BeatPhase, events: Seq<BeatEvent>, claims: nat)
    requires
        claims > 0,
        claims <= usize::MAX,
        match p {
            BeatPhase::CheckSleep { slept } => slept < CLAIM_BEAT && slept % 250_000_000 == 0,
            BeatPhase::Sleep { slept } => slept < CLAIM_BEAT && slept % 250_000_000 == 0,
            _ => false,
        },
        beat_after(p, events, claims) is CheckClaim,
        events.len() > 0 && !meets_a_claim(p, events.drop_last(), claims),
    ensures
        slept_in(p, events, claims) + (match p {
            BeatPhase::CheckSleep { slept } => slept as nat,
            BeatPhase::Sleep { slept } => slept as nat,
            _ => 0,
        }) == 2_500_000_000,
    decreases events.len(),
{
    let q = beat_next_spec(p, events[0], claims);
    let rest = events.drop_first();
    if q is CheckClaim {
        if rest.len() > 0 {
            assert(events.drop_last().drop_first() =~= rest.drop_last());
            assert(events.drop_last()[0] == events[0]);
            assert(meets_a_claim(q, rest.drop_last(), claims));
        }
        assert(slept_in(q, rest, claims) == 0);
    } else if q is Stopped {
        a_stopped_heartbeat_stays_stopped(rest, claims);
    } else {
        if rest.len() == 0 {
            assert(beat_after(q, rest, claims) == q);
        }
        assert(events.drop_last().drop_first() =~= rest.drop_last());
        assert(events.drop_last()[0] == events[0]);
        the_sleep_adds_up(q, rest, claims);
    }
}

/// What led to each phase of a heartbeat. The sleep adds up by granules to the beat;
/// then the claims come, in order, each stamped after a look whether to stop, and
/// appended to where the stamp failed; and behind the last one a new sleep begins.
pub proof fn what_leads_through_a_heartbeat(p: BeatPhase, e: BeatEvent, claims: nat)
    requires
        beat_wf(p, claims),
        claims <= usize::MAX,
        !(p is Stopped),
    ensures
        ({
            let over = match p {
                BeatPhase::Stamp { at } => if e is Failed {
                    None
                } else {
                    Some(at as int)
                },
                BeatPhase::Append { at } => Some(at as int),
                BeatPhase::Sleep { slept } => if slept + 250_000_000 >= 2_500_000_000 {
                    Some(-1)
                } else {
                    None
                },
                _ => None,
            };
            match beat_next_spec(p, e, claims) {
                BeatPhase::CheckSleep { slept } => {
                    ||| slept > 0 && over is None && (p matches BeatPhase::Sleep { slept: s } && s
                        + 250_000_000 == slept)
                    ||| slept == 0 && (over matches Some(at) && at + 1 >= claims)
                },
                BeatPhase::Sleep { slept } => p == (BeatPhase::CheckSleep { slept }) && e
                    != BeatEvent::Stop(true),
                BeatPhase::CheckClaim { at } => at < claims && over == Some(at - 1),
                BeatPhase::Stamp { at } => p == (BeatPhase::CheckClaim { at }) && e
                    != BeatEvent::Stop(true),
                BeatPhase::Append { at } => p == (BeatPhase::Stamp { at }) && e is Failed,
                BeatPhase::Stopped => e == BeatEvent::Stop(true) && (p is CheckSleep || p
                    is CheckClaim),
            }
        }),
{
}

} // verus!
