//! What a start leaves on disk, and what the next start makes of it.
//!
//! The files are those that a start can make an identity key from under a name
//! of its own: the identity key and the temporary files. Here one start runs at
//! a time; starts that run side by side are in [`crate::identity::race`].

use vstd::prelude::*;

use crate::identity::boot::{
    boot_after, boot_answer, boot_next, boot_run, boot_start, boot_waits_for, AfterClaims,
    BootEvents, BootView, KeyEnd, KeyFailure, KeyStage,
};
use crate::identity::load::{
    boot_load_next_spec, boot_load_op_spec, content_error, BootLoad, BootLoadNext, BootLoadPhase,
    LoadPhase,
};
use crate::identity::ops::{answers, is_key_mode, key_modes_in_numbers, FileRef, KeyOp, Reply};
use crate::identity::publish::{
    publish_next_spec, publish_op_spec, LinkEnd, PublishNext, PublishPhase,
};
use crate::identity::recover::{
    recover_next, recover_waits_for, AfterRelease, RecoverStage, RecoverView, Recovery,
};
use crate::identity::supersede::{
    sibling_next_spec, sibling_op_spec, SiblingPhase, SiblingView, SupersedePhase,
};
use crate::identity::sweep::SweepPhase;

verus! {

/// The keys as texts: the PEM text of each key, by the number that the start's
/// caller has for it, and which texts are read as a key.
pub struct Keys {
    pub pems: spec_fn(u64) -> Seq<char>,
    pub parses: spec_fn(Seq<char>) -> bool,
}

impl Keys {
    /// Whether the text of every key is read as a key.
    pub open spec fn sound(self) -> bool {
        forall|key: u64| (self.parses)(#[trigger] (self.pems)(key))
    }
}

/// A key file: what it holds, and its mode.
pub struct KeyFile {
    pub text: Seq<char>,
    pub mode: u32,
}

/// The identity key and the start's temporary files.
pub struct KeyDisk {
    pub key: Option<KeyFile>,
    pub temps: Map<u32, KeyFile>,
}

/// Whether the identity key holds this text.
pub open spec fn key_is(d: KeyDisk, text: Seq<char>) -> bool {
    d.key matches Some(f) && f.text == text
}

/// Whether `op` can be answered with `reply` on the disk `d`, and can leave the
/// disk `e`. A reading tells what is there; a file is created or linked only
/// where there is none; what a failed write leaves is open, and so is the mode
/// that a file has after it was set.
pub open spec fn disk_step(keys: Keys, d: KeyDisk, op: KeyOp, reply: Reply, e: KeyDisk) -> bool {
    let done = !(reply is Failed);
    match op {
        KeyOp::Exists(FileRef::Final) => reply == Reply::Present(d.key is Some) && e == d,
        KeyOp::CreateNew(FileRef::Final) => if done {
            d.key is None && key_is(e, Seq::empty()) && e.temps == d.temps
        } else {
            e == d
        },
        KeyOp::CreateNew(FileRef::Temp(n)) => if done {
            &&& !d.temps.contains_key(n)
            &&& e.key == d.key
            &&& e.temps.contains_key(n)
            &&& e.temps == d.temps.insert(n, e.temps[n])
            &&& e.temps[n].text == Seq::<char>::empty()
        } else {
            e == d
        },
        KeyOp::Tighten(FileRef::Final) => {
            &&& e.temps == d.temps
            &&& e.key is Some == d.key is Some
            &&& d.key matches Some(f) ==> key_is(e, f.text)
        },
        KeyOp::Tighten(FileRef::Temp(n)) => {
            &&& e.key == d.key
            &&& if d.temps.contains_key(n) {
                &&& e.temps.contains_key(n)
                &&& e.temps == d.temps.insert(n, e.temps[n])
                &&& e.temps[n].text == d.temps[n].text
            } else {
                e.temps == d.temps
            }
        },
        KeyOp::Stat(FileRef::Final) => e == d && (reply matches Reply::Mode(m) ==> (d.key matches
            Some(f) && f.mode == m)),
        KeyOp::WriteKey(FileRef::Final, k) => {
            &&& e.temps == d.temps
            &&& e.key is Some == d.key is Some
            &&& d.key matches Some(f) ==> e.key->0.mode == f.mode && (done ==> key_is(
                e,
                (keys.pems)(k),
            ))
        },
        KeyOp::WriteKey(FileRef::Temp(n), k) => {
            &&& e.key == d.key
            &&& e.temps.contains_key(n)
            &&& e.temps == d.temps.insert(n, e.temps[n])
            &&& done ==> e.temps[n].text == (keys.pems)(k)
        },
        KeyOp::HardLink(FileRef::Temp(n), FileRef::Final) => if done {
            &&& d.key is None
            &&& d.temps.contains_key(n)
            &&& e == (KeyDisk { key: Some(d.temps[n]), ..d })
        } else {
            e == d
        },
        KeyOp::Remove(FileRef::Final) | KeyOp::Rename(FileRef::Final, _) => if done {
            e == (KeyDisk { key: None, ..d })
        } else {
            e == d
        },
        KeyOp::Remove(FileRef::Temp(n)) => if done {
            e == (KeyDisk { temps: d.temps.remove(n), ..d })
        } else {
            e == d
        },
        KeyOp::ReadKey(FileRef::Final) => {
            &&& e == d
            &&& reply matches Reply::Key(k) ==> key_is(d, (keys.pems)(k))
            &&& reply is BadKey ==> (d.key matches Some(f) && !(keys.parses)(f.text))
        },
        _ => e == d,
    }
}

/// One operation of a start: its reply, when that came, and the disk behind it.
pub struct DiskEvent {
    pub op: KeyOp,
    pub reply: Reply,
    pub now: u64,
    pub disk: KeyDisk,
}

/// Where a start has got to with these operations, and its outcome once there is
/// one.
pub open spec fn start_after(start: BootView, run: Seq<DiskEvent>) -> (BootView, Option<KeyEnd>)
    decreases run.len(),
{
    if run.len() == 0 {
        (start, None)
    } else {
        let before = start_after(start, run.drop_last());
        if before.1 is Some {
            before
        } else {
            boot_next(before.0, run.last().reply, run.last().now)
        }
    }
}

/// The disk behind these operations, from the disk `d`.
pub open spec fn disk_after(d: KeyDisk, run: Seq<DiskEvent>) -> KeyDisk {
    if run.len() == 0 {
        d
    } else {
        run.last().disk
    }
}

/// Whether these are the operations of a start, from the disk `d`, with replies
/// that tell what is on disk.
pub open spec fn is_start(keys: Keys, start: BootView, d: KeyDisk, run: Seq<DiskEvent>) -> bool
    decreases run.len(),
{
    if run.len() == 0 {
        boot_start(start)
    } else {
        let before = run.drop_last();
        let e = run.last();
        &&& is_start(keys, start, d, before)
        &&& start_after(start, before).1 is None
        &&& boot_waits_for(start_after(start, before).0, e.op)
        &&& answers(e.op, e.reply)
        &&& disk_step(keys, disk_after(d, before), e.op, e.reply, e.disk)
    }
}

/// The replies of these operations, with the times at which they came.
pub open spec fn replies(run: Seq<DiskEvent>) -> BootEvents {
    run.map_values(|e: DiskEvent| (e.reply, e.now))
}

/// The operations of a start, seen without the disk, are a run of it, and lead
/// to the same state and outcome.
pub proof fn starts_on_a_disk_are_runs(
    keys: Keys,
    start: BootView,
    d: KeyDisk,
    run: Seq<DiskEvent>,
)
    requires
        is_start(keys, start, d, run),
    ensures
        boot_run(start, replies(run)),
        boot_after(start, replies(run)) == start_after(start, run),
    decreases run.len(),
{
    if run.len() > 0 {
        let before = run.drop_last();
        starts_on_a_disk_are_runs(keys, start, d, before);
        assert(replies(run).drop_last() =~= replies(before));
        replies_answer(start_after(start, before).0, run.last().op, run.last().reply);
    }
}

pub(crate) proof fn replies_answer(v: BootView, op: KeyOp, reply: Reply)
    requires
        boot_waits_for(v, op),
        answers(op, reply),
    ensures
        boot_answer(v, reply),
{
    if v.stage is Recover {
        assert(recover_waits_for(v.recovery, op) && answers(op, reply));
    }
}

/// The temporary file that a publish has made and not yet dropped.
pub open spec fn temp_of(p: PublishPhase) -> Option<u32> {
    match p {
        PublishPhase::TightenTemp { n } => Some(n),
        PublishPhase::VerifyTemp { n } => Some(n),
        PublishPhase::WriteTemp { n } => Some(n),
        PublishPhase::SyncTemp { n } => Some(n),
        PublishPhase::DiscardTemp { n, .. } => Some(n),
        PublishPhase::Link { n } => Some(n),
        PublishPhase::DropTemp { n, .. } => Some(n),
        _ => None,
    }
}

/// Whether a publish has created the identity key and not yet written it.
pub open spec fn making(p: PublishPhase) -> bool {
    p is TightenFinal || p is VerifyFinal || p is DiscardFinal || p is WriteFinal
}

/// What a phase of a publish knows of the disk.
pub open spec fn publish_on_disk(keys: Keys, p: PublishPhase, key: u64, d: KeyDisk) -> bool {
    &&& temp_of(p) matches Some(n) ==> d.temps.contains_key(n)
    &&& making(p) ==> key_is(d, Seq::empty())
    &&& match p {
        PublishPhase::SyncTemp { n } => d.temps[n].text == (keys.pems)(key),
        PublishPhase::Link { n } => d.temps[n].text == (keys.pems)(key),
        PublishPhase::DropTemp { end: LinkEnd::Linked, .. } | PublishPhase::SyncLinkedDir
        | PublishPhase::SyncFinalDir { .. } | PublishPhase::Commit { .. }
        | PublishPhase::SyncFinal { .. } | PublishPhase::SyncCommitDir => key_is(
            d,
            (keys.pems)(key),
        ),
        PublishPhase::DropMarker { end, .. } => !(end is Won),
        _ => true,
    }
}

pub(crate) proof fn publish_stays_on_disk(
    keys: Keys,
    p: PublishPhase,
    key: u64,
    reply: Reply,
    now: u64,
    d: KeyDisk,
    e: KeyDisk,
)
    requires
        publish_on_disk(keys, p, key, d),
        answers(publish_op_spec(p, key), reply),
        disk_step(keys, d, publish_op_spec(p, key), reply, e),
    ensures
        match publish_next_spec(p, reply, now) {
            PublishNext::Go(q) => publish_on_disk(keys, q, key, e),
            PublishNext::End(end) => end is Won ==> key_is(e, (keys.pems)(key)),
        },
{
}

proof fn loaded_keys_are_on_disk(
    keys: Keys,
    b: BootLoad,
    reply: Reply,
    now: u64,
    d: KeyDisk,
    e: KeyDisk,
)
    requires
        answers(boot_load_op_spec(b), reply),
        disk_step(keys, d, boot_load_op_spec(b), reply, e),
    ensures
        boot_load_next_spec(b, reply, now) matches BootLoadNext::Loaded(k) ==> key_is(
            e,
            (keys.pems)(k),
        ),
{
}

/// Whether a superseding leaves the identity key where it is.
pub open spec fn moves_another(p: SupersedePhase) -> bool {
    match p {
        SupersedePhase::Probe { file, .. } => !(file is Final),
        SupersedePhase::Move { file, .. } => !(file is Final),
    }
}

/// The superseding of siblings moves listed files only.
pub open spec fn siblings_are_listed(s: SiblingView) -> bool {
    s.phase matches SiblingPhase::Move { phase, .. } ==> match phase {
        SupersedePhase::Probe { file, .. } => file is Listed,
        SupersedePhase::Move { file, .. } => file is Listed,
    }
}

proof fn siblings_leave_the_key(
    keys: Keys,
    s: SiblingView,
    reply: Reply,
    d: KeyDisk,
    e: KeyDisk,
)
    requires
        siblings_are_listed(s),
        disk_step(keys, d, sibling_op_spec(s), reply, e),
    ensures
        siblings_are_listed(sibling_next_spec(s, reply)),
        e == d,
{
}

/// What a stage of a recovery knows of the disk.
pub open spec fn recovery_on_disk(keys: Keys, v: RecoverView, d: KeyDisk) -> bool {
    match v.stage {
        RecoverStage::Restore { key, publish, .. } => publish_on_disk(keys, publish, key, d),
        RecoverStage::Siblings { key, .. } => key_is(d, (keys.pems)(key)) && siblings_are_listed(
            v.siblings,
        ),
        RecoverStage::DropQuarantine { key, .. } => key_is(d, (keys.pems)(key)),
        RecoverStage::SyncRestored { key } => key_is(d, (keys.pems)(key)),
        RecoverStage::Supersede { phase } => moves_another(phase),
        RecoverStage::Release { next: AfterRelease::Return(Recovery::Loaded(key)) } => key_is(
            d,
            (keys.pems)(key),
        ),
        _ => true,
    }
}

proof fn recovery_stays_on_disk(
    keys: Keys,
    v: RecoverView,
    op: KeyOp,
    reply: Reply,
    now: u64,
    d: KeyDisk,
    e: KeyDisk,
)
    requires
        recovery_on_disk(keys, v, d),
        recover_waits_for(v, op),
        answers(op, reply),
        disk_step(keys, d, op, reply, e),
    ensures
        recovery_on_disk(keys, recover_next(v, reply, now).0, e),
        recover_next(v, reply, now).1 matches Some(Recovery::Loaded(k)) ==> key_is(
            e,
            (keys.pems)(k),
        ),
{
    match v.stage {
        RecoverStage::Restore { key, publish, .. } => {
            publish_stays_on_disk(keys, publish, key, reply, now, d, e);
        },
        RecoverStage::Siblings { .. } => {
            siblings_leave_the_key(keys, v.siblings, reply, d, e);
        },
        RecoverStage::Reload(b) => {
            loaded_keys_are_on_disk(keys, b, reply, now, d, e);
        },
        _ => {},
    }
}

/// What a stage of a start knows of the disk.
#[verifier::opaque]
pub open spec fn start_on_disk(keys: Keys, v: BootView, end: Option<KeyEnd>, d: KeyDisk) -> bool {
    &&& end matches Some(KeyEnd::Key(key)) ==> key_is(d, (keys.pems)(key))
    &&& match v.stage {
        KeyStage::Recover { .. } => recovery_on_disk(keys, v.recovery, d),
        KeyStage::Adopt { key, publish, .. } => publish_on_disk(keys, publish, key, d),
        KeyStage::AdoptSiblings { key, .. } => key_is(d, (keys.pems)(key)) && siblings_are_listed(
            v.siblings,
        ),
        KeyStage::DropAdopted { key, .. } => key_is(d, (keys.pems)(key)),
        KeyStage::SyncAdopted { key } => key_is(d, (keys.pems)(key)),
        KeyStage::SupersedeAdopted { phase } => moves_another(phase),
        KeyStage::Publish { key, publish } => publish_on_disk(keys, publish, key, d),
        KeyStage::Release { next: AfterClaims::Healthy(key) } => key_is(d, (keys.pems)(key)),
        KeyStage::Sweep { key } => key_is(d, (keys.pems)(key)),
        _ => true,
    }
}

pub(crate) proof fn start_stays_on_disk(
    keys: Keys,
    v: BootView,
    op: KeyOp,
    reply: Reply,
    now: u64,
    d: KeyDisk,
    e: KeyDisk,
)
    requires
        start_on_disk(keys, v, None, d),
        boot_waits_for(v, op),
        answers(op, reply),
        disk_step(keys, d, op, reply, e),
    ensures
        start_on_disk(keys, boot_next(v, reply, now).0, boot_next(v, reply, now).1, e),
{
    reveal(start_on_disk);
    match v.stage {
        KeyStage::Load { load, .. } => {
            loaded_keys_are_on_disk(keys, load, reply, now, d, e);
        },
        KeyStage::AdoptReload(b) => {
            loaded_keys_are_on_disk(keys, b, reply, now, d, e);
        },
        KeyStage::Recover { .. } => {
            recovery_stays_on_disk(keys, v.recovery, op, reply, now, d, e);
        },
        KeyStage::Adopt { key, publish, .. } => {
            publish_stays_on_disk(keys, publish, key, reply, now, d, e);
        },
        KeyStage::AdoptSiblings { .. } => {
            siblings_leave_the_key(keys, v.siblings, reply, d, e);
        },
        KeyStage::Publish { key, publish } => {
            publish_stays_on_disk(keys, publish, key, reply, now, d, e);
        },
        _ => {},
    }
}

proof fn starts_stay_on_disk(keys: Keys, start: BootView, d: KeyDisk, run: Seq<DiskEvent>)
    requires
        is_start(keys, start, d, run),
    ensures
        start_on_disk(
            keys,
            start_after(start, run).0,
            start_after(start, run).1,
            disk_after(d, run),
        ),
    decreases run.len(),
{
    if run.len() == 0 {
        reveal(start_on_disk);
    } else {
        let before = run.drop_last();
        let e = run.last();
        starts_stay_on_disk(keys, start, d, before);
        start_stays_on_disk(
            keys,
            start_after(start, before).0,
            e.op,
            e.reply,
            e.now,
            disk_after(d, before),
            e.disk,
        );
    }
}

/// A start that returns a key, loaded, restored, adopted or generated, leaves
/// that very key at the identity key's name.
pub proof fn the_returned_key_is_on_disk(
    keys: Keys,
    start: BootView,
    d: KeyDisk,
    run: Seq<DiskEvent>,
    key: u64,
)
    requires
        is_start(keys, start, d, run),
        start_after(start, run).1 == Some(KeyEnd::Key(key)),
    ensures
        key_is(disk_after(d, run), (keys.pems)(key)),
{
    reveal(start_on_disk);
    starts_stay_on_disk(keys, start, d, run);
}

/// Whether an operation makes, changes, moves or removes a key file, or makes a
/// key.
pub open spec fn makes_or_moves(op: KeyOp) -> bool {
    match op {
        KeyOp::CreateNew(_) | KeyOp::WriteKey(_, _) | KeyOp::HardLink(_, _) | KeyOp::Remove(_)
        | KeyOp::Rename(_, _) | KeyOp::GenerateKey => true,
        _ => false,
    }
}

/// Whether the operation on the identity key did not fail, and, where it set the
/// mode, made it 0600.
pub open spec fn dealt_with(e: DiskEvent) -> bool {
    match e.op {
        KeyOp::Stat(FileRef::Final) | KeyOp::ReadKey(FileRef::Final) => !(e.reply is Failed),
        KeyOp::Tighten(FileRef::Final) => e.reply is Done && (e.disk.key matches Some(f)
            && is_key_mode(f.mode)),
        _ => true,
    }
}

/// Whether the identity key holds this text and has the mode 0600.
pub open spec fn secured(d: KeyDisk, text: Seq<char>) -> bool {
    d.key matches Some(f) && f.text == text && is_key_mode(f.mode)
}

/// Where a start stands that finds a key in order, after `steps` operations.
#[verifier::opaque]
spec fn goes_well(
    keys: Keys,
    v: BootView,
    end: Option<KeyEnd>,
    d: KeyDisk,
    text: Seq<char>,
    steps: nat,
) -> bool {
    &&& key_is(d, text)
    &&& (keys.parses)(text)
    &&& match v.stage {
        KeyStage::CheckKey => steps == 0 && end is None,
        KeyStage::Load { load, .. } => end is None && match load.phase {
            BootLoadPhase::Attempt(LoadPhase::Look) => steps == 1,
            BootLoadPhase::Attempt(LoadPhase::Tighten) => steps == 2,
            BootLoadPhase::Attempt(LoadPhase::Verify) => steps <= 3 && secured(d, text),
            BootLoadPhase::Attempt(LoadPhase::Read) => steps <= 4 && secured(d, text),
            _ => false,
        },
        KeyStage::Release { next: AfterClaims::Healthy(key) } => end is None && steps <= 5
            && secured(d, text) && (keys.pems)(key) == text,
        KeyStage::Sweep { key } => end is None && secured(d, text) && (keys.pems)(key) == text && (
        match v.sweep.phase {
            SweepPhase::SyncKey => steps <= 6,
            SweepPhase::SyncDir => steps <= 7,
            SweepPhase::List => steps <= 8,
            SweepPhase::Remove => steps <= 9,
            SweepPhase::SyncAgain => steps <= 10,
            SweepPhase::Finished => false,
        }),
        KeyStage::Finished => steps <= 11 && secured(d, text) && (end matches Some(
            KeyEnd::Key(key),
        ) && (keys.pems)(key) == text),
        _ => false,
    }
}

proof fn a_step_goes_well(
    keys: Keys,
    v: BootView,
    e: DiskEvent,
    d: KeyDisk,
    text: Seq<char>,
    steps: nat,
)
    requires
        goes_well(keys, v, None, d, text, steps),
        boot_waits_for(v, e.op),
        answers(e.op, e.reply),
        disk_step(keys, d, e.op, e.reply, e.disk),
        dealt_with(e),
    ensures
        goes_well(
            keys,
            boot_next(v, e.reply, e.now).0,
            boot_next(v, e.reply, e.now).1,
            e.disk,
            text,
            steps + 1,
        ),
{
    reveal(goes_well);
}

proof fn steps_go_well(
    keys: Keys,
    start: BootView,
    d: KeyDisk,
    run: Seq<DiskEvent>,
    text: Seq<char>,
)
    requires
        is_start(keys, start, d, run),
        key_is(d, text),
        (keys.parses)(text),
        forall|i: int| 0 <= i < run.len() ==> dealt_with(#[trigger] run[i]),
    ensures
        goes_well(
            keys,
            start_after(start, run).0,
            start_after(start, run).1,
            disk_after(d, run),
            text,
            run.len(),
        ),
    decreases run.len(),
{
    if run.len() == 0 {
        reveal(goes_well);
    } else {
        let before = run.drop_last();
        assert forall|i: int| 0 <= i < before.len() implies dealt_with(#[trigger] before[i]) by {
            assert(before[i] == run[i]);
        }
        steps_go_well(keys, start, d, before, text);
        assert(dealt_with(run[run.len() - 1]));
        a_step_goes_well(
            keys,
            start_after(start, before).0,
            run.last(),
            disk_after(d, before),
            text,
            before.len(),
        );
    }
}

/// Where a start stands that finds a key.
#[verifier::opaque]
spec fn keeps(keys: Keys, v: BootView, end: Option<KeyEnd>, d: KeyDisk, text: Seq<char>) -> bool {
    &&& key_is(d, text)
    &&& (keys.parses)(text)
    &&& match v.stage {
        KeyStage::CheckKey => end is None,
        KeyStage::Load { load, .. } => end is None && match load.phase {
            BootLoadPhase::Attempt(LoadPhase::Read) => secured(d, text),
            BootLoadPhase::Look(_) => false,
            _ => true,
        },
        KeyStage::Release { next: AfterClaims::Healthy(key) } => end is None && secured(d, text)
            && (keys.pems)(key) == text,
        KeyStage::Release { next: AfterClaims::Fail(why) } => end is None && not_its_content(why),
        KeyStage::Sweep { key } => end is None && secured(d, text) && (keys.pems)(key) == text,
        KeyStage::Finished => match end {
            Some(KeyEnd::Key(key)) => secured(d, text) && (keys.pems)(key) == text,
            Some(KeyEnd::Failed(why)) => not_its_content(why),
            None => false,
        },
        _ => false,
    }
}

/// Whether a start failed because the file system did not let it have the
/// identity key, and not because of what the key holds.
pub open spec fn not_its_content(why: KeyFailure) -> bool {
    why matches KeyFailure::Load(e) && !content_error(e)
}

proof fn a_step_keeps(keys: Keys, v: BootView, e: DiskEvent, d: KeyDisk, text: Seq<char>)
    requires
        keeps(keys, v, None, d, text),
        boot_waits_for(v, e.op),
        answers(e.op, e.reply),
        disk_step(keys, d, e.op, e.reply, e.disk),
    ensures
        keeps(
            keys,
            boot_next(v, e.reply, e.now).0,
            boot_next(v, e.reply, e.now).1,
            e.disk,
            text,
        ),
        !makes_or_moves(e.op),
{
    reveal(keeps);
}

proof fn steps_keep(keys: Keys, start: BootView, d: KeyDisk, run: Seq<DiskEvent>, text: Seq<char>)
    requires
        is_start(keys, start, d, run),
        key_is(d, text),
        (keys.parses)(text),
    ensures
        keeps(
            keys,
            start_after(start, run).0,
            start_after(start, run).1,
            disk_after(d, run),
            text,
        ),
        forall|i: int| 0 <= i < run.len() ==> !makes_or_moves((#[trigger] run[i]).op),
    decreases run.len(),
{
    if run.len() == 0 {
        reveal(keeps);
    } else {
        let before = run.drop_last();
        steps_keep(keys, start, d, before, text);
        a_step_keeps(keys, start_after(start, before).0, run.last(), disk_after(d, before), text);
        assert forall|i: int| 0 <= i < run.len() implies !makes_or_moves(
            (#[trigger] run[i]).op,
        ) by {
            if i < before.len() {
                assert(before[i] == run[i]);
            }
        }
    }
}

/// A start that finds an identity key never replaces it, whatever fails: it
/// makes, writes, moves and removes no key file and generates no key, and the
/// key's text stays what it is at every step. It returns that key, whose mode is
/// 0600 then, or fails because the file system did not let it have the key.
pub proof fn an_existing_key_is_kept(
    keys: Keys,
    start: BootView,
    d: KeyDisk,
    run: Seq<DiskEvent>,
    text: Seq<char>,
)
    requires
        is_start(keys, start, d, run),
        key_is(d, text),
        (keys.parses)(text),
    ensures
        forall|i: int| 0 <= i < run.len() ==> !makes_or_moves((#[trigger] run[i]).op),
        key_is(disk_after(d, run), text),
        match start_after(start, run).1 {
            None => true,
            Some(KeyEnd::Key(key)) => (keys.pems)(key) == text && secured(
                disk_after(d, run),
                text,
            ),
            Some(KeyEnd::Failed(why)) => not_its_content(why),
        },
{
    reveal(keeps);
    steps_keep(keys, start, d, run, text);
}

/// A start that finds an identity key returns it, where no operation on the key
/// fails: after at most eleven operations it has ended, with that key, and the
/// key's mode is 0600.
pub proof fn an_existing_key_is_loaded(
    keys: Keys,
    start: BootView,
    d: KeyDisk,
    run: Seq<DiskEvent>,
    text: Seq<char>,
)
    requires
        is_start(keys, start, d, run),
        key_is(d, text),
        (keys.parses)(text),
        forall|i: int| 0 <= i < run.len() ==> dealt_with(#[trigger] run[i]),
    ensures
        run.len() <= 11,
        match start_after(start, run).1 {
            None => run.len() < 11,
            Some(KeyEnd::Key(key)) => (keys.pems)(key) == text && secured(
                disk_after(d, run),
                text,
            ),
            Some(KeyEnd::Failed(_)) => false,
        },
{
    steps_go_well(keys, start, d, run, text);
    reveal(goes_well);
}

/// The identity stays from one start to the next, whatever became of the key's
/// mode in between, where what is written for a key is read as a key. A start
/// after one that returned a key neither replaces that key nor changes its text,
/// and returns it or fails because the file system did not let it have the key.
/// Where no operation on the key fails, it ends after at most eleven operations,
/// with that key.
pub proof fn the_identity_survives_a_restart(
    first_keys: Keys,
    first: BootView,
    d: KeyDisk,
    first_run: Seq<DiskEvent>,
    first_key: u64,
    keys: Keys,
    start: BootView,
    between: KeyDisk,
    run: Seq<DiskEvent>,
)
    requires
        is_start(first_keys, first, d, first_run),
        start_after(first, first_run).1 == Some(KeyEnd::Key(first_key)),
        first_keys.sound(),
        disk_after(d, first_run).key matches Some(f) ==> key_is(between, f.text),
        keys.parses == first_keys.parses,
        is_start(keys, start, between, run),
    ensures
        forall|i: int| 0 <= i < run.len() ==> !makes_or_moves((#[trigger] run[i]).op),
        key_is(disk_after(between, run), (first_keys.pems)(first_key)),
        match start_after(start, run).1 {
            None => true,
            Some(KeyEnd::Key(key)) => (keys.pems)(key) == (first_keys.pems)(first_key) && secured(
                disk_after(between, run),
                (first_keys.pems)(first_key),
            ),
            Some(KeyEnd::Failed(why)) => not_its_content(why),
        },
        (forall|i: int| 0 <= i < run.len() ==> dealt_with(#[trigger] run[i])) ==> {
            &&& run.len() <= 11
            &&& start_after(start, run).1 is None ==> run.len() < 11
            &&& !(start_after(start, run).1 matches Some(KeyEnd::Failed(_)))
        },
{
    the_returned_key_is_on_disk(first_keys, first, d, first_run, first_key);
    an_existing_key_is_kept(keys, start, between, run, (first_keys.pems)(first_key));
    if forall|i: int| 0 <= i < run.len() ==> dealt_with(#[trigger] run[i]) {
        an_existing_key_is_loaded(keys, start, between, run, (first_keys.pems)(first_key));
    }
}

/// Whether an operation on a temporary file, from the disk `d`, tells its mode and
/// leaves it: a stat tells the mode that the file has, and a writing does not change
/// it.
pub open spec fn temp_modes_are_told(d: KeyDisk, e: DiskEvent) -> bool {
    match e.op {
        KeyOp::Stat(FileRef::Temp(n)) => e.reply matches Reply::Mode(m) ==> d.temps[n].mode == m,
        KeyOp::WriteKey(FileRef::Temp(n), _) => e.disk.temps[n].mode == d.temps[n].mode,
        _ => true,
    }
}

/// Whether the identity key is there with the mode 0600, in the nine permission
/// bits.
pub open spec fn key_is_0600(d: KeyDisk) -> bool {
    d.key matches Some(f) && f.mode % 0o1000 == 0o600
}

/// What a phase of a publish knows of the modes.
pub open spec fn publish_is_0600(p: PublishPhase, d: KeyDisk) -> bool {
    match p {
        PublishPhase::WriteTemp { n } | PublishPhase::SyncTemp { n } | PublishPhase::Link { n } =>
            d.temps[n].mode % 0o1000 == 0o600,
        PublishPhase::DropTemp { end: LinkEnd::Linked, .. } | PublishPhase::SyncLinkedDir
        | PublishPhase::WriteFinal { .. } | PublishPhase::SyncFinal { .. }
        | PublishPhase::SyncFinalDir { .. } | PublishPhase::Commit { .. }
        | PublishPhase::SyncCommitDir => key_is_0600(d),
        _ => true,
    }
}

proof fn publishing_stays_0600(
    keys: Keys,
    p: PublishPhase,
    key: u64,
    e: DiskEvent,
    d: KeyDisk,
)
    requires
        publish_on_disk(keys, p, key, d),
        publish_is_0600(p, d),
        e.op == publish_op_spec(p, key),
        answers(e.op, e.reply),
        disk_step(keys, d, e.op, e.reply, e.disk),
        temp_modes_are_told(d, e),
    ensures
        match publish_next_spec(p, e.reply, e.now) {
            PublishNext::Go(q) => publish_is_0600(q, e.disk),
            PublishNext::End(end) => end is Won ==> key_is_0600(e.disk),
        },
{
    if let Reply::Mode(m) = e.reply {
        key_modes_in_numbers(m);
    }
}

/// Whether the attempts to load the key read it only while it has the mode 0600.
pub open spec fn reading_is_0600(b: BootLoad, d: KeyDisk) -> bool {
    b.phase == BootLoadPhase::Attempt(LoadPhase::Read) ==> key_is_0600(d)
}

proof fn loading_stays_0600(keys: Keys, b: BootLoad, e: DiskEvent, d: KeyDisk)
    requires
        reading_is_0600(b, d),
        e.op == boot_load_op_spec(b),
        answers(e.op, e.reply),
        disk_step(keys, d, e.op, e.reply, e.disk),
    ensures
        match boot_load_next_spec(b, e.reply, e.now) {
            BootLoadNext::Go(c) => reading_is_0600(c, e.disk),
            BootLoadNext::Loaded(_) => key_is_0600(e.disk),
            _ => true,
        },
{
    if let Reply::Mode(m) = e.reply {
        key_modes_in_numbers(m);
    }
}

/// What a stage of a recovery knows of the modes.
pub open spec fn recovery_is_0600(v: RecoverView, d: KeyDisk) -> bool {
    match v.stage {
        RecoverStage::Reparse(LoadPhase::Read) => key_is_0600(d),
        RecoverStage::Restore { publish, .. } => publish_is_0600(publish, d),
        RecoverStage::Siblings { .. } | RecoverStage::DropQuarantine { .. }
        | RecoverStage::SyncRestored { .. } => key_is_0600(d),
        RecoverStage::Release { next: AfterRelease::Return(Recovery::Loaded(_)) } => key_is_0600(
            d,
        ),
        RecoverStage::Reload(b) => reading_is_0600(b, d),
        _ => true,
    }
}

proof fn recovering_stays_0600(keys: Keys, v: RecoverView, e: DiskEvent, d: KeyDisk)
    requires
        recovery_on_disk(keys, v, d),
        recovery_is_0600(v, d),
        recover_waits_for(v, e.op),
        answers(e.op, e.reply),
        disk_step(keys, d, e.op, e.reply, e.disk),
        temp_modes_are_told(d, e),
    ensures
        recovery_is_0600(recover_next(v, e.reply, e.now).0, e.disk),
        recover_next(v, e.reply, e.now).1 matches Some(Recovery::Loaded(_)) ==> key_is_0600(
            e.disk,
        ),
{
    match v.stage {
        RecoverStage::Reparse(_) => {
            if let Reply::Mode(m) = e.reply {
                key_modes_in_numbers(m);
            }
        },
        RecoverStage::Restore { key, publish, .. } => {
            publishing_stays_0600(keys, publish, key, e, d);
        },
        RecoverStage::Siblings { .. } => {
            siblings_leave_the_key(keys, v.siblings, e.reply, d, e.disk);
        },
        RecoverStage::Reload(b) => {
            loading_stays_0600(keys, b, e, d);
        },
        _ => {},
    }
}

/// What a stage of a start knows of the modes.
#[verifier::opaque]
pub open spec fn start_is_0600(v: BootView, end: Option<KeyEnd>, d: KeyDisk) -> bool {
    &&& end matches Some(KeyEnd::Key(_)) ==> key_is_0600(d)
    &&& match v.stage {
        KeyStage::Load { load, .. } => reading_is_0600(load, d),
        KeyStage::AdoptReload(load) => reading_is_0600(load, d),
        KeyStage::Recover { .. } => recovery_is_0600(v.recovery, d),
        KeyStage::Adopt { publish, .. } => publish_is_0600(publish, d),
        KeyStage::Publish { publish, .. } => publish_is_0600(publish, d),
        KeyStage::AdoptSiblings { .. } | KeyStage::DropAdopted { .. }
        | KeyStage::SyncAdopted { .. } | KeyStage::Sweep { .. } => key_is_0600(d),
        KeyStage::Release { next: AfterClaims::Healthy(_) } => key_is_0600(d),
        _ => true,
    }
}

proof fn starting_stays_0600(keys: Keys, v: BootView, e: DiskEvent, d: KeyDisk)
    requires
        start_on_disk(keys, v, None, d),
        start_is_0600(v, None, d),
        boot_waits_for(v, e.op),
        answers(e.op, e.reply),
        disk_step(keys, d, e.op, e.reply, e.disk),
        temp_modes_are_told(d, e),
    ensures
        start_is_0600(boot_next(v, e.reply, e.now).0, boot_next(v, e.reply, e.now).1, e.disk),
        e.op == KeyOp::ReadKey(FileRef::Final) ==> key_is_0600(d),
{
    reveal(start_on_disk);
    reveal(start_is_0600);
    match v.stage {
        KeyStage::Load { load, .. } => {
            loading_stays_0600(keys, load, e, d);
        },
        KeyStage::AdoptReload(b) => {
            loading_stays_0600(keys, b, e, d);
        },
        KeyStage::Recover { .. } => {
            recovering_stays_0600(keys, v.recovery, e, d);
        },
        KeyStage::Adopt { key, publish, .. } => {
            publishing_stays_0600(keys, publish, key, e, d);
        },
        KeyStage::AdoptSiblings { .. } => {
            siblings_leave_the_key(keys, v.siblings, e.reply, d, e.disk);
        },
        KeyStage::Publish { key, publish } => {
            publishing_stays_0600(keys, publish, key, e, d);
        },
        _ => {},
    }
}

/// Whether all operations of a run tell the modes of temporary files.
pub open spec fn all_temp_modes_are_told(d: KeyDisk, run: Seq<DiskEvent>) -> bool {
    forall|i: int|
        0 <= i < run.len() ==> temp_modes_are_told(
            disk_after(d, run.take(i)),
            #[trigger] run[i],
        )
}

/// The identity key is read only while its mode is 0600, and a start that returns a
/// key, loaded, restored, adopted or generated, leaves that key with the mode 0600:
/// its owner may read and write it, and nobody else may do anything.
pub proof fn returned_keys_are_0600(
    keys: Keys,
    start: BootView,
    d: KeyDisk,
    run: Seq<DiskEvent>,
)
    requires
        is_start(keys, start, d, run),
        all_temp_modes_are_told(d, run),
    ensures
        start_after(start, run).1 matches Some(KeyEnd::Key(_)) ==> (disk_after(
            d,
            run,
        ).key matches Some(f) && f.mode % 0o1000 == 0o600),
        forall|i: int|
            0 <= i < run.len() && (#[trigger] run[i]).op == KeyOp::ReadKey(FileRef::Final) ==> (
            disk_after(d, run.take(i)).key matches Some(f) && f.mode % 0o1000 == 0o600),
        start_is_0600(start_after(start, run).0, start_after(start, run).1, disk_after(d, run)),
    decreases run.len(),
{
    if run.len() == 0 {
        reveal(start_is_0600);
    } else {
        let before = run.drop_last();
        let e = run.last();
        assert forall|i: int| 0 <= i < before.len() implies temp_modes_are_told(
            disk_after(d, before.take(i)),
            #[trigger] before[i],
        ) by {
            assert(before[i] == run[i]);
            assert(before.take(i) =~= run.take(i));
        }
        returned_keys_are_0600(keys, start, d, before);
        starts_stay_on_disk(keys, start, d, before);
        assert(run.take(run.len() - 1) =~= before);
        assert(temp_modes_are_told(disk_after(d, run.take(run.len() - 1)), run[run.len() - 1]));
        starting_stays_0600(keys, start_after(start, before).0, e, disk_after(d, before));
        assert forall|i: int|
            0 <= i < run.len() && (#[trigger] run[i]).op == KeyOp::ReadKey(
                FileRef::Final,
            ) implies key_is_0600(disk_after(d, run.take(i))) by {
            if i < before.len() {
                assert(before[i] == run[i]);
                assert(before.take(i) =~= run.take(i));
            }
        }
        reveal(start_is_0600);
    }
}

/// An identity key with a loose mode, one that lets its group or others do anything
/// or its owner less or more than read and write, is tightened before it is read.
pub proof fn loose_keys_are_tightened_before_they_are_read(
    keys: Keys,
    start: BootView,
    d: KeyDisk,
    run: Seq<DiskEvent>,
    text: Seq<char>,
    k: int,
)
    requires
        is_start(keys, start, d, run),
        key_is(d, text),
        (keys.parses)(text),
        d.key matches Some(f) ==> f.mode % 0o1000 != 0o600,
        0 <= k < run.len(),
        run[k].op == KeyOp::ReadKey(FileRef::Final),
    ensures
        exists|j: int| 0 <= j < k && (#[trigger] run[j]).op == KeyOp::Tighten(FileRef::Final),
    decreases run.len(),
{
    let before = run.drop_last();
    if k < before.len() {
        assert(before[k] == run[k]);
        prefixes_are_starts(keys, start, d, run);
        loose_keys_are_tightened_before_they_are_read(keys, start, d, before, text, k);
        let j = choose|j: int|
            0 <= j < k && (#[trigger] before[j]).op == KeyOp::Tighten(FileRef::Final);
        assert(run[j] == before[j]);
    } else {
        assert(run[k] == run.last());
        a_key_that_is_read_last_is_secured(keys, start, d, run, text);
        prefixes_are_starts(keys, start, d, run);
        modes_change_by_tightening(keys, start, d, before, text);
        let j = choose|j: int|
            0 <= j < before.len() && (#[trigger] before[j]).op == KeyOp::Tighten(FileRef::Final);
        assert(run[j] == before[j]);
    }
}

proof fn prefixes_are_starts(keys: Keys, start: BootView, d: KeyDisk, run: Seq<DiskEvent>)
    requires
        is_start(keys, start, d, run),
        run.len() > 0,
    ensures
        is_start(keys, start, d, run.drop_last()),
{
}

proof fn a_key_that_is_read_last_is_secured(
    keys: Keys,
    start: BootView,
    d: KeyDisk,
    run: Seq<DiskEvent>,
    text: Seq<char>,
)
    requires
        is_start(keys, start, d, run),
        key_is(d, text),
        (keys.parses)(text),
        run.len() > 0,
        run.last().op == KeyOp::ReadKey(FileRef::Final),
    ensures
        disk_after(d, run.drop_last()).key is Some,
        disk_after(d, run.drop_last()).key->0.mode % 0o1000 == 0o600,
{
    let before = run.drop_last();
    steps_keep(keys, start, d, before, text);
    a_key_that_is_read_is_secured(
        keys,
        start_after(start, before).0,
        run.last().op,
        disk_after(d, before),
        text,
    );
    key_modes_in_numbers(disk_after(d, before).key->0.mode);
}

proof fn modes_change_by_tightening(
    keys: Keys,
    start: BootView,
    d: KeyDisk,
    run: Seq<DiskEvent>,
    text: Seq<char>,
)
    requires
        is_start(keys, start, d, run),
        key_is(d, text),
        (keys.parses)(text),
        disk_after(d, run).key is Some,
        disk_after(d, run).key->0.mode != d.key->0.mode,
    ensures
        exists|j: int|
            0 <= j < run.len() && (#[trigger] run[j]).op == KeyOp::Tighten(FileRef::Final),
{
    if forall|j: int|
        0 <= j < run.len() ==> (#[trigger] run[j]).op != KeyOp::Tighten(FileRef::Final) {
        modes_stay_without_tightening(keys, start, d, run, text);
    }
}

proof fn a_key_that_is_read_is_secured(
    keys: Keys,
    v: BootView,
    op: KeyOp,
    d: KeyDisk,
    text: Seq<char>,
)
    requires
        keeps(keys, v, None, d, text),
        boot_waits_for(v, op),
        op == KeyOp::ReadKey(FileRef::Final),
    ensures
        secured(d, text),
{
    reveal(keeps);
}

proof fn modes_stay_without_tightening(
    keys: Keys,
    start: BootView,
    d: KeyDisk,
    run: Seq<DiskEvent>,
    text: Seq<char>,
)
    requires
        is_start(keys, start, d, run),
        key_is(d, text),
        (keys.parses)(text),
        forall|j: int|
            0 <= j < run.len() ==> (#[trigger] run[j]).op != KeyOp::Tighten(FileRef::Final),
    ensures
        disk_after(d, run).key is Some,
        disk_after(d, run).key->0.mode == d.key->0.mode,
    decreases run.len(),
{
    if run.len() > 0 {
        let before = run.drop_last();
        assert forall|j: int| 0 <= j < before.len() implies (#[trigger] before[j]).op
            != KeyOp::Tighten(FileRef::Final) by {
            assert(before[j] == run[j]);
        }
        modes_stay_without_tightening(keys, start, d, before, text);
        steps_keep(keys, start, d, run, text);
        assert(run[run.len() - 1] == run.last());
        assert(!makes_or_moves(run[run.len() - 1].op));
    }
}

} // verus!
