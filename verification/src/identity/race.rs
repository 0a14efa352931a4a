//! Starts that run side by side on one key directory.
//!
//! A step is one operation of one of them, in any order. They share the identity
//! key, the files that a recovery may claim, and, where they belong to one
//! process, the names of the temporary files.

use vstd::prelude::*;

use crate::identity::boot::{
    boot_next, boot_start, boot_waits_for, BootView, KeyEnd, KeyStage,
};
use crate::identity::disk::{
    disk_step, key_is, making, publish_on_disk, publish_stays_on_disk, start_on_disk,
    start_stays_on_disk, temp_of, KeyDisk, KeyFile, Keys,
};
use crate::identity::ops::{answers, FileRef, KeyOp, Reply};
use crate::identity::publish::{
    publish_next_spec, publish_op_spec, publish_start, KeyPublish, PublishNext, PublishPhase,
};
use crate::identity::recover::RecoverStage;

verus! {

/// The files that the starts share: the identity key, the temporary files of
/// each process, and the names of the files that a recovery may claim. A claim
/// is not among the latter while its holder lives, who keeps it young.
pub struct SharedDisk {
    pub key: Option<KeyFile>,
    pub temps: Map<u32, Map<u32, KeyFile>>,
    pub claimable: Set<Seq<char>>,
}

/// The identity key and the temporary files of one process.
pub open spec fn seen_by(d: SharedDisk, process: u32) -> KeyDisk {
    KeyDisk { key: d.key, temps: d.temps[process] }
}

/// The names of files that a start knows by their numbers: its publish markers,
/// and the files that were listed to it.
pub struct Names {
    pub markers: spec_fn(u32) -> Seq<char>,
    pub listed: spec_fn(u64) -> Seq<char>,
}

/// Whether `op`, asked by `process`, can be answered with `reply` on the disk
/// `d`, and can leave the disk `e`: the files of other processes stay, a marker
/// is there from its making on, and a file can be claimed or removed once.
pub open spec fn shared_step(
    keys: Keys,
    process: u32,
    names: Names,
    d: SharedDisk,
    op: KeyOp,
    reply: Reply,
    e: SharedDisk,
) -> bool {
    &&& disk_step(keys, seen_by(d, process), op, reply, seen_by(e, process))
    &&& forall|other: u32| other != process ==> #[trigger] e.temps[other] == d.temps[other]
    &&& match op {
        KeyOp::CreateNew(FileRef::Marker(m)) => if reply is Failed {
            e.claimable == d.claimable
        } else {
            let name = (names.markers)(m);
            !d.claimable.contains(name) && e.claimable == d.claimable.insert(name)
        },
        _ => match taken(names, op) {
            Some(name) => if reply is Failed {
                e.claimable == d.claimable
            } else {
                d.claimable.contains(name) && e.claimable == d.claimable.remove(name)
            },
            None => e.claimable.subset_of(d.claimable),
        },
    }
}

/// The marker or claim that an operation takes: a recovery by renaming it to a
/// claim, a publish by removing its marker.
pub open spec fn taken(names: Names, op: KeyOp) -> Option<Seq<char>> {
    match op {
        KeyOp::Rename(FileRef::Listed(id), FileRef::Claim(_)) => Some((names.listed)(id)),
        KeyOp::Remove(FileRef::Marker(m)) => Some((names.markers)(m)),
        _ => None,
    }
}

/// Whether the temporary files other than this one are what they were.
spec fn other_temps_stay(d: KeyDisk, held: Option<u32>, e: KeyDisk) -> bool {
    forall|n: u32| #[trigger]
        d.temps.contains_key(n) && held != Some(n) ==> e.temps.contains_key(n) && e.temps[n]
            == d.temps[n]
}

/// Whether the identity key is there or not as before, with the same text.
spec fn same_text(d: KeyDisk, e: KeyDisk) -> bool {
    &&& d.key is Some == e.key is Some
    &&& d.key matches Some(f) ==> key_is(e, f.text)
}

proof fn publish_touches(
    keys: Keys,
    p: PublishPhase,
    key: u64,
    reply: Reply,
    d: KeyDisk,
    e: KeyDisk,
)
    requires
        publish_on_disk(keys, p, key, d),
        answers(publish_op_spec(p, key), reply),
        disk_step(keys, d, publish_op_spec(p, key), reply, e),
    ensures
        other_temps_stay(d, temp_of(p), e),
        same_text(d, e) || d.key is None || making(p),
{
}

/// One publish among several: the key that it publishes, its process, the names of
/// its files, and where it has got to.
pub struct OnePublish {
    pub keys: Keys,
    pub key: u64,
    pub process: u32,
    pub names: Names,
    pub next: PublishNext,
}

/// Publishes that run side by side, and the disk that they share.
pub struct Publishes {
    pub all: Seq<OnePublish>,
    pub disk: SharedDisk,
}

/// One operation of one of the publishes: its reply, when that came, and the disk
/// behind it.
pub struct PublishEvent {
    pub who: int,
    pub reply: Reply,
    pub now: u64,
    pub disk: SharedDisk,
}

/// Whether none of the publishes has begun.
pub open spec fn publishes_begin(w: Publishes) -> bool {
    forall|i: int|
        0 <= i < w.all.len() ==> (#[trigger] w.all[i]).next == PublishNext::Go(publish_start())
}

/// Whether this can happen next.
pub open spec fn publishes_step(w: Publishes, e: PublishEvent) -> bool {
    &&& 0 <= e.who < w.all.len()
    &&& w.all[e.who].next matches PublishNext::Go(p) && {
        let op = publish_op_spec(p, w.all[e.who].key);
        &&& answers(op, e.reply)
        &&& shared_step(
            w.all[e.who].keys,
            w.all[e.who].process,
            w.all[e.who].names,
            w.disk,
            op,
            e.reply,
            e.disk,
        )
    }
}

/// What it leads to.
pub open spec fn publishes_next(w: Publishes, e: PublishEvent) -> Publishes {
    let one = w.all[e.who];
    let next = match one.next {
        PublishNext::Go(p) => publish_next_spec(p, e.reply, e.now),
        end => end,
    };
    Publishes { all: w.all.update(e.who, OnePublish { next, ..one }), disk: e.disk }
}

/// Where the publishes have got to with these operations.
pub open spec fn publishes_after(w: Publishes, run: Seq<PublishEvent>) -> Publishes
    decreases run.len(),
{
    if run.len() == 0 {
        w
    } else {
        publishes_next(publishes_after(w, run.drop_last()), run.last())
    }
}

/// Whether these are operations of the publishes from their beginning, in an
/// order in which they can come.
pub open spec fn are_publishes(w: Publishes, run: Seq<PublishEvent>) -> bool
    decreases run.len(),
{
    if run.len() == 0 {
        publishes_begin(w)
    } else {
        &&& are_publishes(w, run.drop_last())
        &&& publishes_step(publishes_after(w, run.drop_last()), run.last())
    }
}

/// Whether the identity key is the one that this publish has made.
spec fn made(next: PublishNext) -> bool {
    match next {
        PublishNext::Go(p) => making(p) || p is SyncFinal || p is SyncFinalDir || p is Commit || p
            is SyncCommitDir || p is SyncLinkedDir || (p matches PublishPhase::DropTemp { end, .. }
            && end is Linked),
        PublishNext::End(end) => end is Won,
    }
}

/// The temporary file that a publish holds.
spec fn held(next: PublishNext) -> Option<u32> {
    match next {
        PublishNext::Go(p) => temp_of(p),
        PublishNext::End(_) => None,
    }
}

/// What one publish knows of the disk.
spec fn publish_knows(one: OnePublish, d: SharedDisk) -> bool {
    &&& made(one.next) ==> d.key is Some
    &&& match one.next {
        PublishNext::Go(p) => publish_on_disk(one.keys, p, one.key, seen_by(d, one.process)),
        PublishNext::End(end) => end is Won ==> key_is(
            seen_by(d, one.process),
            (one.keys.pems)(one.key),
        ),
    }
}

/// Whether two publishes keep out of each other's way.
spec fn publishes_apart(a: OnePublish, b: OnePublish) -> bool {
    &&& !(made(a.next) && made(b.next))
    &&& a.process == b.process && held(a.next) is Some ==> held(a.next) != held(b.next)
}

#[verifier::opaque]
spec fn publishes_in_order(w: Publishes) -> bool {
    &&& forall|i: int| 0 <= i < w.all.len() ==> publish_knows(#[trigger] w.all[i], w.disk)
    &&& forall|i: int, j: int|
        0 <= i < w.all.len() && 0 <= j < w.all.len() && i != j ==> publishes_apart(
            #[trigger] w.all[i],
            #[trigger] w.all[j],
        )
}

proof fn one_publish_steps(one: OnePublish, p: PublishPhase, e: PublishEvent, d: SharedDisk)
    requires
        one.next == PublishNext::Go(p),
        publish_knows(one, d),
        answers(publish_op_spec(p, one.key), e.reply),
        disk_step(
            one.keys,
            seen_by(d, one.process),
            publish_op_spec(p, one.key),
            e.reply,
            seen_by(e.disk, one.process),
        ),
    ensures
        ({
            let next = publish_next_spec(p, e.reply, e.now);
            &&& publish_knows(OnePublish { next, ..one }, e.disk)
            &&& made(next) ==> made(one.next) || d.key is None
            &&& held(next) matches Some(n) ==> held(one.next) == Some(n)
                || !seen_by(d, one.process).temps.contains_key(n)
        }),
        other_temps_stay(seen_by(d, one.process), held(one.next), seen_by(e.disk, one.process)),
        same_text(seen_by(d, one.process), seen_by(e.disk, one.process)) || d.key is None || made(
            one.next,
        ),
{
    let (before, after) = (seen_by(d, one.process), seen_by(e.disk, one.process));
    publish_stays_on_disk(one.keys, p, one.key, e.reply, e.now, before, after);
    publish_touches(one.keys, p, one.key, e.reply, before, after);
}

proof fn a_publish_step_keeps_order(w: Publishes, e: PublishEvent)
    requires
        publishes_in_order(w),
        publishes_step(w, e),
    ensures
        publishes_in_order(publishes_next(w, e)),
{
    reveal(publishes_in_order);
    let after = publishes_next(w, e);
    let mover = w.all[e.who];
    let p = mover.next->Go_0;
    one_publish_steps(mover, p, e, w.disk);
    assert forall|i: int| 0 <= i < after.all.len() implies publish_knows(
        #[trigger] after.all[i],
        after.disk,
    ) by {
        let one = w.all[i];
        assert(publish_knows(one, w.disk));
        if i != e.who {
            assert(publishes_apart(mover, one));
            assert(after.all[i] == one);
        }
    }
    assert forall|i: int, j: int|
        0 <= i < after.all.len() && 0 <= j < after.all.len() && i != j implies publishes_apart(
        #[trigger] after.all[i],
        #[trigger] after.all[j],
    ) by {
        assert(publishes_apart(w.all[i], w.all[j]));
        assert(publish_knows(w.all[i], w.disk));
        assert(publish_knows(w.all[j], w.disk));
    }
}

proof fn publishes_stay_in_order(w: Publishes, run: Seq<PublishEvent>)
    requires
        are_publishes(w, run),
    ensures
        publishes_in_order(publishes_after(w, run)),
        publishes_after(w, run).all.len() == w.all.len(),
        forall|i: int|
            0 <= i < w.all.len() ==> (#[trigger] publishes_after(w, run).all[i]).keys
                == w.all[i].keys && publishes_after(w, run).all[i].key == w.all[i].key,
    decreases run.len(),
{
    if run.len() == 0 {
        reveal(publishes_in_order);
    } else {
        publishes_stay_in_order(w, run.drop_last());
        a_publish_step_keeps_order(publishes_after(w, run.drop_last()), run.last());
    }
}

/// Of publishes that run side by side, whether they link the key or create it
/// directly, at most one wins; and from then on the identity key holds what it
/// published, whatever the others do.
pub proof fn at_most_one_publish_wins(w: Publishes, run: Seq<PublishEvent>, i: int)
    requires
        are_publishes(w, run),
        0 <= i < w.all.len(),
        publishes_after(w, run).all[i].next == PublishNext::End(KeyPublish::Won),
    ensures
        forall|j: int|
            0 <= j < w.all.len() && (#[trigger] publishes_after(w, run).all[j]).next
                == PublishNext::End(KeyPublish::Won) ==> j == i,
        publishes_after(w, run).disk.key matches Some(f) && f.text == (w.all[i].keys.pems)(
            w.all[i].key,
        ),
{
    reveal(publishes_in_order);
    publishes_stay_in_order(w, run);
    let after = publishes_after(w, run);
    assert(publish_knows(after.all[i], after.disk));
    assert forall|j: int|
        0 <= j < w.all.len() && (#[trigger] after.all[j]).next == PublishNext::End(
            KeyPublish::Won,
        ) implies j == i by {
        if j != i {
            assert(publishes_apart(after.all[i], after.all[j]));
        }
    }
}

/// The phase of the publish that a start is in.
pub open spec fn publish_of(v: BootView) -> Option<PublishPhase> {
    match v.stage {
        KeyStage::Adopt { publish, .. } => Some(publish),
        KeyStage::Publish { publish, .. } => Some(publish),
        KeyStage::Recover { .. } => match v.recovery.stage {
            RecoverStage::Restore { publish, .. } => Some(publish),
            _ => None,
        },
        _ => None,
    }
}

/// The temporary file that a start holds.
pub open spec fn start_holds(v: BootView) -> Option<u32> {
    match publish_of(v) {
        Some(p) => temp_of(p),
        None => None,
    }
}

/// Whether a recovery has claimed a file and may move the identity key away.
pub open spec fn clearing(v: BootView) -> bool {
    v.stage is Recover && match v.recovery.stage {
        RecoverStage::List | RecoverStage::Probe { .. } | RecoverStage::Claim { .. } =>
            v.recovery.claims.len() > 0,
        RecoverStage::Stamp { .. } | RecoverStage::Append { .. } | RecoverStage::Heartbeat
        | RecoverStage::Reparse(_) | RecoverStage::FindFree { .. }
        | RecoverStage::ProbeQuarantine { .. } | RecoverStage::Quarantine { .. }
        | RecoverStage::RemoveFinal => true,
        _ => false,
    }
}

/// Whether a start may change or remove the identity key that is there.
spec fn handles(v: BootView) -> bool {
    clearing(v) || (publish_of(v) matches Some(p) && making(p))
}

/// Whether a start has found the identity key unreadable and may go on to recover
/// it.
spec fn stirred(v: BootView) -> bool {
    v.stage is Recover || (v.stage matches KeyStage::Load { load, .. } && load.phase is Look)
}

/// Whether a publish has not left the way by the link.
spec fn by_link(p: PublishPhase) -> bool {
    match p {
        PublishPhase::CreateTemp { .. } | PublishPhase::Link { .. }
        | PublishPhase::SyncLinkedDir => true,
        PublishPhase::DropTemp { end, .. } => !(end is Refused),
        _ => temp_of(p) is Some,
    }
}

/// Whether a start publishes by the link alone.
spec fn links_only(v: BootView) -> bool {
    publish_of(v) matches Some(p) ==> by_link(p)
}

/// Whether the identity key is there and is none.
pub open spec fn unreadable(parses: spec_fn(Seq<char>) -> bool, key: Option<KeyFile>) -> bool {
    key matches Some(f) && !parses(f.text)
}

/// Whether an operation took a file for a recovery.
spec fn claimed(op: KeyOp, reply: Reply) -> bool {
    !(reply is Failed) && (op matches KeyOp::Rename(from, to) && from is Listed && to is Claim)
}

/// Whether the link's failure, where it failed, was that the name is taken.
pub open spec fn link_answered(op: KeyOp, reply: Reply) -> bool {
    op is HardLink ==> (reply matches Reply::Failed(e) ==> e.kind is AlreadyExists)
}

proof fn one_start_touches(
    keys: Keys,
    v: BootView,
    op: KeyOp,
    reply: Reply,
    now: u64,
    d: KeyDisk,
    e: KeyDisk,
)
    requires
        start_on_disk(keys, v, None, d),
        boot_waits_for(v, op),
        answers(op, reply),
        disk_step(keys, d, op, reply, e),
    ensures
        other_temps_stay(d, start_holds(v), e),
        same_text(d, e) || d.key is None || handles(v),
        start_holds(boot_next(v, reply, now).0) matches Some(n) ==> start_holds(v) == Some(n)
            || !d.temps.contains_key(n),
{
    reveal(start_on_disk);
    match v.stage {
        KeyStage::Adopt { key, publish, .. } => {
            publish_touches(keys, publish, key, reply, d, e);
        },
        KeyStage::Publish { key, publish } => {
            publish_touches(keys, publish, key, reply, d, e);
        },
        KeyStage::Recover { .. } => {
            if let RecoverStage::Restore { key, publish, .. } = v.recovery.stage {
                publish_touches(keys, publish, key, reply, d, e);
            }
        },
        _ => {},
    }
}

proof fn one_start_changes(
    keys: Keys,
    v: BootView,
    op: KeyOp,
    reply: Reply,
    now: u64,
    d: KeyDisk,
    e: KeyDisk,
)
    requires
        start_on_disk(keys, v, None, d),
        boot_waits_for(v, op),
        answers(op, reply),
        disk_step(keys, d, op, reply, e),
    ensures
        ({
            let w = boot_next(v, reply, now).0;
            &&& clearing(w) ==> (clearing(v) || claimed(op, reply)) && same_text(d, e)
            &&& (publish_of(w) matches Some(p) && making(p)) ==> (publish_of(v) matches Some(q)
                && making(q)) || d.key is None
            &&& stirred(w) ==> stirred(v) || (unreadable(keys.parses, d.key) && e == d)
            &&& links_only(v) && link_answered(op, reply) ==> links_only(w)
        }),
        links_only(v) ==> !(op matches KeyOp::CreateNew(f) && f is Marker),
        links_only(v) && keys.sound() && unreadable(keys.parses, e.key) ==> unreadable(
            keys.parses,
            d.key,
        ),
        claimed(op, reply) ==> stirred(v),
{
    reveal(start_on_disk);
}

/// What a start knows of the disk stays true while another start steps.
proof fn others_leave_it_true(
    keys: Keys,
    v: BootView,
    end: Option<KeyEnd>,
    d: KeyDisk,
    held: Option<u32>,
    e: KeyDisk,
)
    requires
        start_on_disk(keys, v, end, d),
        keys.sound(),
        same_text(d, e) || d.key is None || (unreadable(keys.parses, d.key) && !handles(v)),
        other_temps_stay(d, held, e),
        start_holds(v) is Some ==> start_holds(v) != held,
    ensures
        start_on_disk(keys, v, end, e),
{
    reveal(start_on_disk);
}

/// One start among several: its keys, its process, the names of its files, where
/// it has got to, and its outcome once there is one.
pub struct OneStart {
    pub keys: Keys,
    pub process: u32,
    pub names: Names,
    pub view: BootView,
    pub end: Option<KeyEnd>,
}

/// Starts that run side by side, which texts are read as a key, and the disk that
/// they share.
pub struct Starts {
    pub all: Seq<OneStart>,
    pub parses: spec_fn(Seq<char>) -> bool,
    pub disk: SharedDisk,
}

/// One operation of one of the starts: its reply, when that came, and the disk
/// behind it.
pub struct StartEvent {
    pub who: int,
    pub op: KeyOp,
    pub reply: Reply,
    pub now: u64,
    pub disk: SharedDisk,
}

/// What is known of how the starts run.
#[derive(Clone, Copy, PartialEq, Eq, Structural, Debug)]
pub enum Course {
    /// The key can be linked: a link that fails does so because the name is taken.
    /// An identity key that is unreadable at the beginning has at most one file
    /// beside it that a recovery may claim.
    Linking,
    /// The key is linked or created directly, and no start makes a recovery.
    Unrecovered,
    /// Anything else: the key may be created directly while others recover.
    Open,
}

/// Whether there is at most one of them.
pub open spec fn at_most_one(names: Set<Seq<char>>) -> bool {
    forall|a: Seq<char>, b: Seq<char>| #[trigger]
        names.contains(a) && #[trigger] names.contains(b) ==> a == b
}

/// Whether none of the starts has begun. They agree on which texts are keys, what
/// each writes for a key is one, and an empty file is none.
pub open spec fn starts_begin(g: Starts, course: Course) -> bool {
    &&& forall|i: int|
        0 <= i < g.all.len() ==> {
            &&& boot_start((#[trigger] g.all[i]).view)
            &&& g.all[i].end is None
            &&& g.all[i].keys.sound()
            &&& g.all[i].keys.parses == g.parses
        }
    &&& !(g.parses)(Seq::empty())
    &&& course is Linking && unreadable(g.parses, g.disk.key) ==> at_most_one(g.disk.claimable)
}

/// What the operation leads to.
pub open spec fn starts_next(g: Starts, e: StartEvent) -> Starts {
    let one = g.all[e.who];
    let (view, end) = boot_next(one.view, e.reply, e.now);
    Starts { all: g.all.update(e.who, OneStart { view, end, ..one }), disk: e.disk, ..g }
}

/// Whether this can happen next.
pub open spec fn starts_step(g: Starts, course: Course, e: StartEvent) -> bool {
    &&& 0 <= e.who < g.all.len()
    &&& g.all[e.who].end is None
    &&& boot_waits_for(g.all[e.who].view, e.op)
    &&& answers(e.op, e.reply)
    &&& shared_step(
        g.all[e.who].keys,
        g.all[e.who].process,
        g.all[e.who].names,
        g.disk,
        e.op,
        e.reply,
        e.disk,
    )
    &&& match course {
        Course::Linking => link_answered(e.op, e.reply),
        Course::Unrecovered => !(starts_next(g, e).all[e.who].view.stage is Recover),
        Course::Open => true,
    }
}

/// Where the starts have got to with these operations.
pub open spec fn starts_after(g: Starts, run: Seq<StartEvent>) -> Starts
    decreases run.len(),
{
    if run.len() == 0 {
        g
    } else {
        starts_next(starts_after(g, run.drop_last()), run.last())
    }
}

/// Whether these are operations of the starts from their beginning, in an order
/// in which they can come.
pub open spec fn are_starts(g: Starts, course: Course, run: Seq<StartEvent>) -> bool
    decreases run.len(),
{
    if run.len() == 0 {
        starts_begin(g, course)
    } else {
        &&& are_starts(g, course, run.drop_last())
        &&& starts_step(starts_after(g, run.drop_last()), course, run.last())
    }
}

/// What holds of one start.
spec fn start_in_order(one: OneStart, g: Starts, course: Course) -> bool {
    &&& start_on_disk(one.keys, one.view, one.end, seen_by(g.disk, one.process))
    &&& one.keys.sound()
    &&& one.keys.parses == g.parses
    &&& handles(one.view) ==> unreadable(g.parses, g.disk.key)
    &&& match course {
        Course::Linking => {
            &&& links_only(one.view)
            &&& stirred(one.view) ==> at_most_one(g.disk.claimable)
            &&& forall|name: Seq<char>|
                stirred(one.view) && #[trigger] g.disk.claimable.contains(name) ==> unreadable(
                    g.parses,
                    g.disk.key,
                ) && !clearing(one.view)
        },
        Course::Unrecovered => !(one.view.stage is Recover),
        Course::Open => false,
    }
}

/// Whether two starts keep out of each other's way.
spec fn starts_apart(a: OneStart, b: OneStart) -> bool {
    &&& !(handles(a.view) && handles(b.view))
    &&& a.process == b.process && start_holds(a.view) is Some ==> start_holds(a.view)
        != start_holds(b.view)
}

#[verifier::opaque]
spec fn starts_in_order(g: Starts, course: Course) -> bool {
    &&& forall|i: int| 0 <= i < g.all.len() ==> start_in_order(#[trigger] g.all[i], g, course)
    &&& forall|i: int, j: int|
        0 <= i < g.all.len() && 0 <= j < g.all.len() && i != j ==> starts_apart(
            #[trigger] g.all[i],
            #[trigger] g.all[j],
        )
    &&& !(g.parses)(Seq::empty())
    &&& course is Linking && unreadable(g.parses, g.disk.key) ==> at_most_one(g.disk.claimable)
}

/// What a start knows while it has created the key and not written it.
proof fn made_keys_are_empty(keys: Keys, v: BootView, end: Option<KeyEnd>, d: KeyDisk)
    requires
        start_on_disk(keys, v, end, d),
        publish_of(v) matches Some(p) && making(p),
    ensures
        key_is(d, Seq::empty()),
{
    reveal(start_on_disk);
}

proof fn the_mover_stays_in_order(g: Starts, course: Course, e: StartEvent)
    requires
        starts_in_order(g, course),
        starts_step(g, course, e),
    ensures
        start_in_order(starts_next(g, e).all[e.who], starts_next(g, e), course),
        handles(starts_next(g, e).all[e.who].view) ==> handles(g.all[e.who].view) || (forall|
            i: int,
        |
            0 <= i < g.all.len() && i != e.who ==> !handles((#[trigger] g.all[i]).view)),
{
    reveal(starts_in_order);
    let one = g.all[e.who];
    let (d, f) = (seen_by(g.disk, one.process), seen_by(e.disk, one.process));
    let (view, end) = boot_next(one.view, e.reply, e.now);
    assert(start_in_order(one, g, course));
    start_stays_on_disk(one.keys, one.view, e.op, e.reply, e.now, d, f);
    one_start_touches(one.keys, one.view, e.op, e.reply, e.now, d, f);
    one_start_changes(one.keys, one.view, e.op, e.reply, e.now, d, f);
    if publish_of(view) matches Some(p) && making(p) {
        made_keys_are_empty(one.keys, view, end, f);
    }
    if handles(view) && !handles(one.view) {
        assert forall|i: int| 0 <= i < g.all.len() && i != e.who implies !handles(
            (#[trigger] g.all[i]).view,
        ) by {
            assert(start_in_order(g.all[i], g, course));
            if g.disk.key is Some {
                assert(claimed(e.op, e.reply));
            }
        }
    }
}

proof fn the_others_stay_in_order(g: Starts, course: Course, e: StartEvent, i: int)
    requires
        starts_in_order(g, course),
        starts_step(g, course, e),
        0 <= i < g.all.len(),
        i != e.who,
    ensures
        start_in_order(g.all[i], starts_next(g, e), course),
{
    reveal(starts_in_order);
    let one = g.all[e.who];
    let other = g.all[i];
    let (d, f) = (seen_by(g.disk, one.process), seen_by(e.disk, one.process));
    assert(start_in_order(one, g, course));
    assert(start_in_order(other, g, course));
    assert(starts_apart(one, other));
    assert(starts_apart(other, one));
    one_start_touches(one.keys, one.view, e.op, e.reply, e.now, d, f);
    one_start_changes(one.keys, one.view, e.op, e.reply, e.now, d, f);
    let (od, of) = (seen_by(g.disk, other.process), seen_by(e.disk, other.process));
    let held = if one.process == other.process { start_holds(one.view) } else { None };
    assert(other_temps_stay(od, held, of));
    others_leave_it_true(other.keys, other.view, other.end, od, held, of);
}

proof fn a_start_step_keeps_order(g: Starts, course: Course, e: StartEvent)
    requires
        starts_in_order(g, course),
        starts_step(g, course, e),
    ensures
        starts_in_order(starts_next(g, e), course),
{
    reveal(starts_in_order);
    let after = starts_next(g, e);
    let one = g.all[e.who];
    let (d, f) = (seen_by(g.disk, one.process), seen_by(e.disk, one.process));
    assert(start_in_order(one, g, course));
    the_mover_stays_in_order(g, course, e);
    one_start_touches(one.keys, one.view, e.op, e.reply, e.now, d, f);
    one_start_changes(one.keys, one.view, e.op, e.reply, e.now, d, f);
    assert forall|i: int| 0 <= i < after.all.len() implies start_in_order(
        #[trigger] after.all[i],
        after,
        course,
    ) by {
        if i != e.who {
            the_others_stay_in_order(g, course, e, i);
            assert(after.all[i] == g.all[i]);
        }
    }
    assert forall|i: int, j: int|
        0 <= i < after.all.len() && 0 <= j < after.all.len() && i != j implies starts_apart(
        #[trigger] after.all[i],
        #[trigger] after.all[j],
    ) by {
        assert(starts_apart(g.all[i], g.all[j]));
        let other = if i == e.who { j } else { i };
        assert(start_in_order(g.all[other], g, course));
        held_temps_are_there(
            g.all[other].keys,
            g.all[other].view,
            g.all[other].end,
            seen_by(g.disk, g.all[other].process),
        );
    }
}

proof fn held_temps_are_there(keys: Keys, v: BootView, end: Option<KeyEnd>, d: KeyDisk)
    requires
        start_on_disk(keys, v, end, d),
    ensures
        start_holds(v) matches Some(n) ==> d.temps.contains_key(n),
{
    reveal(start_on_disk);
}

proof fn starts_stay_in_order(g: Starts, course: Course, run: Seq<StartEvent>)
    requires
        are_starts(g, course, run),
        !(course is Open),
    ensures
        starts_in_order(starts_after(g, run), course),
        starts_after(g, run).all.len() == g.all.len(),
        forall|i: int|
            0 <= i < g.all.len() ==> (#[trigger] starts_after(g, run).all[i]).keys
                == g.all[i].keys,
    decreases run.len(),
{
    if run.len() == 0 {
        starts_begin_in_order(g, course);
    } else {
        starts_stay_in_order(g, course, run.drop_last());
        a_start_step_keeps_order(starts_after(g, run.drop_last()), course, run.last());
    }
}

proof fn starts_begin_in_order(g: Starts, course: Course)
    requires
        starts_begin(g, course),
        !(course is Open),
    ensures
        starts_in_order(g, course),
{
    reveal(starts_in_order);
    reveal(start_on_disk);
    assert forall|i: int| 0 <= i < g.all.len() implies start_in_order(
        #[trigger] g.all[i],
        g,
        course,
    ) by {
        assert(boot_start(g.all[i].view));
    }
    assert forall|i: int, j: int|
        0 <= i < g.all.len() && 0 <= j < g.all.len() && i != j implies starts_apart(
        #[trigger] g.all[i],
        #[trigger] g.all[j],
    ) by {
        assert(boot_start(g.all[i].view));
    }
}

/// Starts that race on one key path end with one identity: those that return a
/// key return the same one, and it is the identity key from then on, whatever the
/// others still do and however their operations interleave. That holds where no
/// start makes a recovery; and it holds through recoveries where the key can be
/// linked, from a path without a key, with a key, or with what one crash has left
/// there.
pub proof fn concurrent_starts_converge(
    g: Starts,
    course: Course,
    run: Seq<StartEvent>,
    i: int,
    j: int,
    first: u64,
    second: u64,
)
    requires
        are_starts(g, course, run),
        !(course is Open),
        0 <= i < g.all.len(),
        0 <= j < g.all.len(),
        starts_after(g, run).all[i].end == Some(KeyEnd::Key(first)),
        starts_after(g, run).all[j].end == Some(KeyEnd::Key(second)),
    ensures
        (g.all[i].keys.pems)(first) == (g.all[j].keys.pems)(second),
        starts_after(g, run).disk.key matches Some(f) && f.text == (g.all[i].keys.pems)(first),
{
    starts_stay_in_order(g, course, run);
    let after = starts_after(g, run);
    returned_keys_are_there(after, course, i, first);
    returned_keys_are_there(after, course, j, second);
}

proof fn returned_keys_are_there(g: Starts, course: Course, i: int, key: u64)
    requires
        starts_in_order(g, course),
        0 <= i < g.all.len(),
        g.all[i].end == Some(KeyEnd::Key(key)),
    ensures
        g.disk.key matches Some(f) && f.text == (g.all[i].keys.pems)(key),
{
    reveal(starts_in_order);
    reveal(start_on_disk);
    assert(start_in_order(g.all[i], g, course));
}

/// At most one of the starts has the identity key in hand, to move it away after
/// it claimed what a crash has left; and it moves away no key that can be read.
pub proof fn one_start_clears_the_key(
    g: Starts,
    course: Course,
    run: Seq<StartEvent>,
    i: int,
    j: int,
)
    requires
        are_starts(g, course, run),
        !(course is Open),
        0 <= i < g.all.len(),
        0 <= j < g.all.len(),
        clearing(starts_after(g, run).all[i].view),
        clearing(starts_after(g, run).all[j].view),
    ensures
        i == j,
        unreadable(g.parses, starts_after(g, run).disk.key),
{
    reveal(starts_in_order);
    starts_stay_in_order(g, course, run);
    let after = starts_after(g, run);
    same_parses(g, run);
    assert(start_in_order(after.all[i], after, course));
    if i != j {
        assert(starts_apart(after.all[i], after.all[j]));
    }
}

proof fn same_parses(g: Starts, run: Seq<StartEvent>)
    ensures
        starts_after(g, run).parses == g.parses,
    decreases run.len(),
{
    if run.len() > 0 {
        same_parses(g, run.drop_last());
    }
}

/// Whether the operation of a step took the file with this name.
pub open spec fn takes(g: Starts, e: StartEvent, name: Seq<char>) -> bool {
    !(e.reply is Failed) && taken(g.all[e.who].names, e.op) == Some(name)
}

/// Whether the operation of a step made a marker with this name.
pub open spec fn makes_marker(g: Starts, e: StartEvent, name: Seq<char>) -> bool {
    !(e.reply is Failed) && (e.op matches KeyOp::CreateNew(FileRef::Marker(m)) && (
    g.all[e.who].names.markers)(m) == name)
}

/// What the last step does to the files that can be claimed.
proof fn the_last_step_takes(g: Starts, course: Course, run: Seq<StartEvent>, name: Seq<char>)
    requires
        are_starts(g, course, run),
        run.len() > 0,
    ensures
        ({
            let before = starts_after(g, run.drop_last()).disk.claimable;
            let after = starts_after(g, run).disk.claimable;
            &&& are_starts(g, course, run.drop_last())
            &&& takes(g, run.last(), name) ==> before.contains(name) && !after.contains(name)
            &&& !makes_marker(g, run.last(), name) && after.contains(name) ==> before.contains(name)
        }),
{
    names_stay(g, course, run.drop_last());
}

proof fn names_stay(g: Starts, course: Course, run: Seq<StartEvent>)
    requires
        are_starts(g, course, run),
    ensures
        starts_after(g, run).all.len() == g.all.len(),
        forall|i: int|
            0 <= i < g.all.len() ==> (#[trigger] starts_after(g, run).all[i]).names
                == g.all[i].names,
    decreases run.len(),
{
    if run.len() > 0 {
        names_stay(g, course, run.drop_last());
    }
}

proof fn a_taken_file_is_gone(
    g: Starts,
    course: Course,
    run: Seq<StartEvent>,
    first: int,
    name: Seq<char>,
)
    requires
        are_starts(g, course, run),
        0 <= first < run.len(),
        takes(g, run[first], name),
        forall|k: int| first < k < run.len() ==> !makes_marker(g, #[trigger] run[k], name),
    ensures
        !starts_after(g, run).disk.claimable.contains(name),
    decreases run.len(),
{
    let before = run.drop_last();
    the_last_step_takes(g, course, run, name);
    if first < run.len() - 1 {
        assert(before[first] == run[first]);
        assert forall|k: int| first < k < before.len() implies !makes_marker(
            g,
            #[trigger] before[k],
            name,
        ) by {
            assert(before[k] == run[k]);
        }
        a_taken_file_is_gone(g, course, before, first, name);
        assert(!makes_marker(g, run[run.len() - 1], name));
    }
}

/// Exactly one side takes a round: of a publish that commits by removing its
/// marker and the recoveries that claim it, one succeeds. Whatever the starts do,
/// once an operation has taken a marker or a claim, no other takes it, unless a
/// marker of that name is made anew.
pub proof fn one_side_takes_the_round(
    g: Starts,
    course: Course,
    run: Seq<StartEvent>,
    first: int,
    second: int,
    name: Seq<char>,
)
    requires
        are_starts(g, course, run),
        0 <= first < second < run.len(),
        takes(g, run[first], name),
        takes(g, run[second], name),
    ensures
        exists|k: int| first < k < second && makes_marker(g, #[trigger] run[k], name),
    decreases run.len(),
{
    let before = run.drop_last();
    the_last_step_takes(g, course, run, name);
    if second < run.len() - 1 {
        assert(before[first] == run[first]);
        assert(before[second] == run[second]);
        one_side_takes_the_round(g, course, before, first, second, name);
        let k = choose|k: int| first < k < second && makes_marker(g, #[trigger] before[k], name);
        assert(makes_marker(g, run[k], name));
    } else if forall|k: int| first < k < second ==> !makes_marker(g, #[trigger] run[k], name) {
        assert(before[first] == run[first]);
        assert forall|k: int| first < k < before.len() implies !makes_marker(
            g,
            #[trigger] before[k],
            name,
        ) by {
            assert(before[k] == run[k]);
        }
        a_taken_file_is_gone(g, course, before, first, name);
    }
}

/// A publish whose marker a recovery has claimed does not win: its commit fails,
/// and it waits for the claims instead.
pub proof fn a_claimed_publish_does_not_win(
    g: Starts,
    course: Course,
    run: Seq<StartEvent>,
    claim: int,
    m: u32,
    publish: PublishPhase,
)
    requires
        are_starts(g, course, run),
        0 <= claim < run.len() - 1,
        takes(g, run[claim], (g.all[run.last().who].names.markers)(m)),
        forall|k: int|
            claim < k < run.len() ==> !makes_marker(
                g,
                #[trigger] run[k],
                (g.all[run.last().who].names.markers)(m),
            ),
        publish_of(starts_after(g, run.drop_last()).all[run.last().who].view) == Some(publish),
        publish matches PublishPhase::Commit { m: n, .. } && n == m,
    ensures
        run.last().reply is Failed,
        publish_of(starts_after(g, run).all[run.last().who].view) matches Some(next) && next
            is AwaitClaims,
{
    let who = run.last().who;
    assert(run.last().op == KeyOp::Remove(FileRef::Marker(m)));
    if !(run.last().reply is Failed) {
        one_side_takes_the_round(
            g,
            course,
            run,
            claim,
            run.len() - 1,
            (g.all[who].names.markers)(m),
        );
    }
}

} // verus!
