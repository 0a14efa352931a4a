//! Recovery after a crash in the middle of a publish.
//!
//! A start that finds an unreadable key beside a publish marker (or beside an
//! orphaned claim of an earlier recovery) takes over the round: it renames every
//! such file to a claim of its own, which stops a publisher that is still
//! alive from counting itself the winner. Then it reads the key once more. Only
//! if the content is still at fault does it move the key out of the way. A key
//! that turns out to be whole after all is put back.

use vstd::prelude::*;

use crate::identity::load::{
    boot_load_next, boot_load_next_spec, boot_load_op, boot_load_op_spec, boot_load_start,
    content_error, is_key_content_error, is_missing_file, load_existing_key, load_next,
    load_next_spec, load_op, load_op_spec, load_racing_key, missing_file, BootLoad, BootLoadNext,
    LoadError, LoadNext, LoadPhase,
};
use crate::identity::ops::{
    answers, listed, listing_fits, FileRef, IoError, IoKind, KeyOp, Reply, KEY_TEMP_ATTEMPTS,
};
use crate::identity::publish::{
    publish_key_atomically, publish_next, publish_next_spec, publish_op, publish_op_spec,
    publish_start, KeyPublish, PublishFailure, PublishNext, PublishPhase,
};
use crate::identity::supersede::{
    sibling_next_spec, sibling_op_spec, sibling_start, siblings_keep_wf, supersede_next,
    supersede_next_spec, supersede_op, supersede_op_spec, supersede_quarantine, SiblingPhase,
    SiblingSupersede, SiblingView, SupersedeNext, SupersedePhase,
};
use crate::identity::sweep::remove_listed;

verus! {

/// Why a recovery failed.
#[derive(Clone, Copy, PartialEq, Eq, Structural, Debug)]
pub enum RecoverFailure {
    /// The key could not be read again after claiming, for a reason that says
    /// nothing of its content. Nothing was moved.
    Reparse(LoadError),
    /// The key could be neither moved away nor removed.
    Stuck { load: LoadError, error: IoError },
    /// The key in quarantine was whole and could not be put back; it is kept.
    Restore { quarantine: u32, why: PublishFailure },
}

/// How a recovery ended.
#[derive(Clone, Copy, PartialEq, Eq, Structural, Debug)]
pub enum Recovery {
    /// The round is claimed and the key out of the way: generate a new one,
    /// while the claims are held.
    Claimed,
    /// The round was resolved: this is the key.
    Loaded(u64),
    /// The round was resolved by others, and their key could not be loaded.
    NotLoaded(LoadError),
    Failed(RecoverFailure),
}

/// What follows the release of the claims.
#[derive(Clone, Copy, PartialEq, Eq, Structural, Debug)]
pub enum AfterRelease {
    Return(Recovery),
    Reload,
}

/// Where a recovery stands: the operation that it waits for.
#[derive(Clone, Copy, PartialEq, Eq, Structural, Debug)]
pub enum RecoverStage {
    /// List the files to claim.
    List,
    /// Is the claim name free? The item's place, the names tried for it, and
    /// the name.
    Probe { at: usize, tries: u32, name: u32 },
    /// Rename the item to the claim.
    Claim { at: usize, tries: u32, name: u32 },
    /// Make the claim young.
    Stamp { at: usize, name: u32 },
    /// Make the claim young, the other way.
    Append { at: usize, name: u32 },
    Heartbeat,
    Reparse(LoadPhase),
    /// Find the first free quarantine name.
    FindFree { n: u32 },
    ProbeQuarantine { n: u32 },
    Quarantine { n: u32 },
    RemoveFinal,
    /// Does the quarantine hold a whole key?
    CheckQuarantine { n: u32 },
    /// Put it back.
    Restore { n: u32, key: u64, publish: PublishPhase },
    Siblings { n: u32, key: u64 },
    DropQuarantine { n: u32, key: u64 },
    SyncRestored { key: u64 },
    Supersede { phase: SupersedePhase },
    ListMarkers,
    DropMarkers,
    SyncDir,
    Release { next: AfterRelease },
    Reload(BootLoad),
    Finished,
}

/// A recovery.
#[derive(Debug)]
pub struct CrashRecovery {
    pub stage: RecoverStage,
    /// The error that led here.
    pub load_error: LoadError,
    /// The files to claim, later the markers to remove.
    pub items: Vec<u64>,
    /// The claims held.
    pub claims: Vec<u32>,
    pub siblings: SiblingSupersede,
}

/// A recovery as the contracts see it.
pub struct RecoverView {
    pub stage: RecoverStage,
    pub load_error: LoadError,
    pub items: Seq<u64>,
    pub claims: Seq<u32>,
    pub siblings: SiblingView,
}

impl View for CrashRecovery {
    type V = RecoverView;

    open spec fn view(&self) -> RecoverView {
        RecoverView {
            stage: self.stage,
            load_error: self.load_error,
            items: self.items@,
            claims: self.claims@,
            siblings: self.siblings@,
        }
    }
}

impl RecoverView {
    /// Whether the item it stands at exists.
    pub open spec fn wf(self) -> bool {
        &&& self.siblings.wf()
        &&& self.items.len() <= usize::MAX
        &&& match self.stage {
            RecoverStage::Probe { at, .. } => at < self.items.len(),
            RecoverStage::Claim { at, .. } => at < self.items.len(),
            RecoverStage::Stamp { at, .. } => at < self.items.len(),
            RecoverStage::Append { at, .. } => at < self.items.len(),
            RecoverStage::Siblings { .. } => !(self.siblings.phase is Finished),
            _ => true,
        }
    }

    /// The same recovery at another stage.
    pub open spec fn at(self, stage: RecoverStage) -> RecoverView {
        RecoverView { stage, ..self }
    }
}

/// The start of a recovery after the load error `e`.
pub open spec fn recover_start(e: LoadError) -> RecoverView {
    RecoverView {
        stage: RecoverStage::List,
        load_error: e,
        items: Seq::empty(),
        claims: Seq::empty(),
        siblings: SiblingView { phase: SiblingPhase::Finished, siblings: Seq::empty() },
    }
}

/// Whether `op` is the operation that the recovery waits for.
pub open spec fn recover_waits_for(v: RecoverView, op: KeyOp) -> bool {
    match v.stage {
        RecoverStage::List => op is ListClaimables,
        RecoverStage::Probe { name, .. } => op == KeyOp::Exists(FileRef::Claim(name)),
        RecoverStage::Claim { at, name, .. } => op == KeyOp::Rename(
            FileRef::Listed(v.items[at as int]),
            FileRef::Claim(name),
        ),
        RecoverStage::Stamp { name, .. } => op == KeyOp::StampClaim(name),
        RecoverStage::Append { name, .. } => op == KeyOp::AppendClaim(name),
        RecoverStage::Heartbeat => op matches KeyOp::StartHeartbeat(c) && c@ == v.claims,
        RecoverStage::Reparse(p) => op == load_op_spec(p),
        RecoverStage::FindFree { n } => op == KeyOp::Exists(FileRef::Quarantine(n)),
        RecoverStage::ProbeQuarantine { n } => op == KeyOp::Exists(FileRef::Quarantine(n)),
        RecoverStage::Quarantine { n } => op == KeyOp::Rename(
            FileRef::Final,
            FileRef::Quarantine(n),
        ),
        RecoverStage::RemoveFinal => op == KeyOp::Remove(FileRef::Final),
        RecoverStage::CheckQuarantine { n } => op == KeyOp::ReadKey(FileRef::Quarantine(n)),
        RecoverStage::Restore { key, publish, .. } => op == publish_op_spec(publish, key),
        RecoverStage::Siblings { .. } => op == sibling_op_spec(v.siblings),
        RecoverStage::DropQuarantine { n, .. } => op == KeyOp::Remove(FileRef::Quarantine(n)),
        RecoverStage::SyncRestored { .. } => op is SyncDir,
        RecoverStage::Supersede { phase } => op == supersede_op_spec(phase),
        RecoverStage::ListMarkers => op is ListMarkers,
        RecoverStage::DropMarkers => op matches KeyOp::RemoveListed(ids) && ids@ == v.items,
        RecoverStage::SyncDir => op is SyncDir,
        RecoverStage::Release { .. } => op matches KeyOp::ReleaseClaims(c) && c@ == v.claims,
        RecoverStage::Reload(b) => op == boot_load_op_spec(b),
        RecoverStage::Finished => op == KeyOp::Pause(0),
    }
}

/// Whether the recovery can be answered with `reply`.
pub open spec fn recover_answer(v: RecoverView, reply: Reply) -> bool {
    exists|op: KeyOp| #[trigger] recover_waits_for(v, op) && answers(op, reply)
}

/// On to the item at this place; behind the last one, on with what was claimed.
pub open spec fn claim_item(v: RecoverView, at: int, name: u32, now: u64) -> RecoverView {
    if at < v.items.len() {
        v.at(RecoverStage::Probe { at: at as usize, tries: 0, name })
    } else if v.claims.len() == 0 {
        v.at(RecoverStage::Reload(boot_load_start(false, now)))
    } else {
        v.at(RecoverStage::Heartbeat)
    }
}

/// On to the next claim name for the item, as far as there is one.
pub open spec fn claim_name(
    v: RecoverView,
    at: usize,
    tries: u32,
    name: u32,
    now: u64,
) -> RecoverView {
    if tries + 1 < KEY_TEMP_ATTEMPTS {
        v.at(RecoverStage::Probe { at, tries: (tries + 1) as u32, name: after(name) })
    } else {
        claim_item(v, at + 1, after(name), now)
    }
}

/// The claim name after `name`.
pub open spec fn after(name: u32) -> u32 {
    if name == u32::MAX { 0 } else { (name + 1) as u32 }
}

/// On to the next quarantine name; behind the last one, remove the key.
pub open spec fn quarantine_name(v: RecoverView, n: u32) -> RecoverView {
    if n + 1 < KEY_TEMP_ATTEMPTS {
        v.at(RecoverStage::ProbeQuarantine { n: (n + 1) as u32 })
    } else {
        v.at(RecoverStage::RemoveFinal)
    }
}

/// Release the claims, then return `r`.
pub open spec fn release_and_return(v: RecoverView, r: Recovery) -> RecoverView {
    v.at(RecoverStage::Release { next: AfterRelease::Return(r) })
}

/// Where the reply leads in the claiming.
pub open spec fn claiming_next(v: RecoverView, reply: Reply, now: u64) -> RecoverView {
    match v.stage {
        RecoverStage::List => claim_item(
            RecoverView { items: listed(reply), ..v },
            0,
            0,
            now,
        ),
        RecoverStage::Probe { at, tries, name } => if reply == Reply::Present(true) {
            claim_name(v, at, tries, name, now)
        } else {
            v.at(RecoverStage::Claim { at, tries, name })
        },
        RecoverStage::Claim { at, tries, name } => match reply {
            Reply::Failed(e) => if e.kind is NotFound {
                claim_item(v, at + 1, after(name), now)
            } else {
                claim_name(v, at, tries, name, now)
            },
            _ => v.at(RecoverStage::Stamp { at, name }),
        },
        RecoverStage::Stamp { at, name } => if reply is Failed {
            v.at(RecoverStage::Append { at, name })
        } else {
            claim_item(
                RecoverView { claims: v.claims.push(name), ..v },
                at + 1,
                after(name),
                now,
            )
        },
        RecoverStage::Append { at, name } => claim_item(
            RecoverView { claims: v.claims.push(name), ..v },
            at + 1,
            after(name),
            now,
        ),
        _ => v.at(RecoverStage::Reparse(LoadPhase::Look)),
    }
}

/// Where the reply leads between the second reading and the quarantine.
pub open spec fn quarantining_next(v: RecoverView, reply: Reply) -> RecoverView {
    match v.stage {
        RecoverStage::Reparse(p) => match load_next_spec(p, reply) {
            LoadNext::Go(q) => v.at(RecoverStage::Reparse(q)),
            LoadNext::Loaded(k) => release_and_return(v, Recovery::Loaded(k)),
            LoadNext::Failed(e) => if content_error(e) || missing_file(e) {
                v.at(RecoverStage::FindFree { n: 0 })
            } else {
                release_and_return(v, Recovery::Failed(RecoverFailure::Reparse(e)))
            },
        },
        RecoverStage::FindFree { n } => if reply == Reply::Present(true) {
            if n + 1 < KEY_TEMP_ATTEMPTS {
                v.at(RecoverStage::FindFree { n: (n + 1) as u32 })
            } else {
                v.at(RecoverStage::ProbeQuarantine { n: 0 })
            }
        } else {
            v.at(RecoverStage::ProbeQuarantine { n })
        },
        RecoverStage::ProbeQuarantine { n } => if reply == Reply::Present(true) {
            quarantine_name(v, n)
        } else {
            v.at(RecoverStage::Quarantine { n })
        },
        RecoverStage::Quarantine { n } => match reply {
            Reply::Failed(e) => if e.kind is NotFound {
                v.at(RecoverStage::ListMarkers)
            } else {
                quarantine_name(v, n)
            },
            _ => v.at(RecoverStage::CheckQuarantine { n }),
        },
        RecoverStage::RemoveFinal => match reply {
            Reply::Failed(e) if !(e.kind is NotFound) => release_and_return(
                v,
                Recovery::Failed(RecoverFailure::Stuck { load: v.load_error, error: e }),
            ),
            _ => v.at(RecoverStage::ListMarkers),
        },
        RecoverStage::CheckQuarantine { n } => match reply {
            Reply::Key(key) => v.at(RecoverStage::Restore { n, key, publish: publish_start() }),
            _ => v.at(RecoverStage::ListMarkers),
        },
        _ => v,
    }
}

/// Where the reply leads in the restoring of a whole key.
pub open spec fn restoring_next(v: RecoverView, reply: Reply, now: u64) -> RecoverView {
    match v.stage {
        RecoverStage::Restore { n, key, publish } => match publish_next_spec(publish, reply, now) {
            PublishNext::Go(q) => v.at(RecoverStage::Restore { n, key, publish: q }),
            PublishNext::End(KeyPublish::Won) => RecoverView {
                siblings: sibling_start(FileRef::Quarantine(n)),
                ..v.at(RecoverStage::Siblings { n, key })
            },
            PublishNext::End(KeyPublish::Lost) => v.at(
                RecoverStage::Supersede {
                    phase: SupersedePhase::Probe { file: FileRef::Quarantine(n), n: 0 },
                },
            ),
            PublishNext::End(KeyPublish::Failed(why)) => release_and_return(
                v,
                Recovery::Failed(RecoverFailure::Restore { quarantine: n, why }),
            ),
        },
        RecoverStage::Siblings { n, key } => {
            let s = sibling_next_spec(v.siblings, reply);
            let w = RecoverView { siblings: s, ..v };
            if s.phase is Finished {
                w.at(RecoverStage::DropQuarantine { n, key })
            } else {
                w
            }
        },
        RecoverStage::DropQuarantine { key, .. } => v.at(RecoverStage::SyncRestored { key }),
        RecoverStage::SyncRestored { key } => release_and_return(v, Recovery::Loaded(key)),
        RecoverStage::Supersede { phase } => match supersede_next_spec(phase, reply) {
            SupersedeNext::Go(q) => v.at(RecoverStage::Supersede { phase: q }),
            SupersedeNext::End(_) => v.at(RecoverStage::Release { next: AfterRelease::Reload }),
        },
        _ => v,
    }
}

/// The recovery has ended.
pub open spec fn recover_end(v: RecoverView, r: Recovery) -> (RecoverView, Option<Recovery>) {
    (v.at(RecoverStage::Finished), Some(r))
}

/// What the reply to the operation, received at `now`, leads to.
pub open spec fn recover_next(v: RecoverView, reply: Reply, now: u64) -> (
    RecoverView,
    Option<Recovery>,
) {
    match v.stage {
        RecoverStage::List | RecoverStage::Probe { .. } | RecoverStage::Claim { .. }
        | RecoverStage::Stamp { .. } | RecoverStage::Append { .. } | RecoverStage::Heartbeat => (
            claiming_next(v, reply, now),
            None,
        ),
        RecoverStage::Reparse(_) | RecoverStage::FindFree { .. }
        | RecoverStage::ProbeQuarantine { .. } | RecoverStage::Quarantine { .. }
        | RecoverStage::RemoveFinal | RecoverStage::CheckQuarantine { .. } => (
            quarantining_next(v, reply),
            None,
        ),
        RecoverStage::Restore { .. } | RecoverStage::Siblings { .. }
        | RecoverStage::DropQuarantine { .. } | RecoverStage::SyncRestored { .. }
        | RecoverStage::Supersede { .. } => (restoring_next(v, reply, now), None),
        RecoverStage::ListMarkers => (
            RecoverView { items: listed(reply), ..v.at(RecoverStage::DropMarkers) },
            None,
        ),
        RecoverStage::DropMarkers => (v.at(RecoverStage::SyncDir), None),
        RecoverStage::SyncDir => recover_end(v, Recovery::Claimed),
        RecoverStage::Release { next } => {
            let w = RecoverView { claims: Seq::empty(), ..v };
            match next {
                AfterRelease::Return(r) => recover_end(w, r),
                AfterRelease::Reload => (
                    w.at(RecoverStage::Reload(boot_load_start(false, now))),
                    None,
                ),
            }
        },
        RecoverStage::Reload(b) => match boot_load_next_spec(b, reply, now) {
            BootLoadNext::Go(c) => (v.at(RecoverStage::Reload(c)), None),
            BootLoadNext::Loaded(k) => recover_end(v, Recovery::Loaded(k)),
            BootLoadNext::CrashSignature(e) => recover_end(v, Recovery::NotLoaded(e)),
            BootLoadNext::Failed(e) => recover_end(v, Recovery::NotLoaded(e)),
        },
        RecoverStage::Finished => (v, None),
    }
}

/// A copy of a list of claims.
pub fn copy_claims(claims: &Vec<u32>) -> (r: Vec<u32>)
    ensures
        r@ == claims@,
{
    let mut out: Vec<u32> = Vec::new();
    let mut i: usize = 0;
    while i < claims.len()
        invariant
            i <= claims.len(),
            out@ == claims@.take(i as int),
        decreases claims.len() - i,
    {
        assert(claims@.take(i as int + 1) =~= claims@.take(i as int).push(claims@[i as int]));
        out.push(claims[i]);
        i = i + 1;
    }
    assert(claims@.take(claims.len() as int) =~= claims@);
    out
}

impl CrashRecovery {
    /// No recovery.
    pub fn idle() -> (r: Self)
        ensures
            r@.stage is Finished,
            r@.claims.len() == 0,
            r@.wf(),
    {
        CrashRecovery {
            stage: RecoverStage::Finished,
            load_error: LoadError::Content(0),
            items: Vec::new(),
            claims: Vec::new(),
            siblings: SiblingSupersede::idle(),
        }
    }

    /// Begins a recovery after the load error `e`.
    pub fn recover_crashed_publish(e: LoadError) -> (r: Self)
        ensures
            r@ == recover_start(e),
            r@.wf(),
    {
        CrashRecovery {
            stage: RecoverStage::List,
            load_error: e,
            items: Vec::new(),
            claims: Vec::new(),
            siblings: SiblingSupersede::idle(),
        }
    }

    /// The operation that the recovery waits for.
    pub fn op(&self) -> (r: KeyOp)
        requires
            self@.wf(),
        ensures
            recover_waits_for(self@, r),
    {
        match self.stage {
            RecoverStage::List => KeyOp::ListClaimables,
            RecoverStage::Probe { name, .. } => KeyOp::Exists(FileRef::Claim(name)),
            RecoverStage::Claim { at, name, .. } => KeyOp::Rename(
                FileRef::Listed(self.items[at]),
                FileRef::Claim(name),
            ),
            RecoverStage::Stamp { name, .. } => KeyOp::StampClaim(name),
            RecoverStage::Append { name, .. } => KeyOp::AppendClaim(name),
            RecoverStage::Heartbeat => KeyOp::StartHeartbeat(copy_claims(&self.claims)),
            RecoverStage::Reparse(p) => load_op(p),
            RecoverStage::FindFree { n } => KeyOp::Exists(FileRef::Quarantine(n)),
            RecoverStage::ProbeQuarantine { n } => KeyOp::Exists(FileRef::Quarantine(n)),
            RecoverStage::Quarantine { n } => KeyOp::Rename(
                FileRef::Final,
                FileRef::Quarantine(n),
            ),
            RecoverStage::RemoveFinal => KeyOp::Remove(FileRef::Final),
            RecoverStage::CheckQuarantine { n } => KeyOp::ReadKey(FileRef::Quarantine(n)),
            RecoverStage::Restore { key, publish, .. } => publish_op(publish, key),
            RecoverStage::Siblings { .. } => self.siblings.op(),
            RecoverStage::DropQuarantine { n, .. } => KeyOp::Remove(FileRef::Quarantine(n)),
            RecoverStage::SyncRestored { .. } => KeyOp::SyncDir,
            RecoverStage::Supersede { phase } => supersede_op(phase),
            RecoverStage::ListMarkers => KeyOp::ListMarkers,
            RecoverStage::DropMarkers => remove_listed(&self.items),
            RecoverStage::SyncDir => KeyOp::SyncDir,
            RecoverStage::Release { .. } => KeyOp::ReleaseClaims(copy_claims(&self.claims)),
            RecoverStage::Reload(b) => boot_load_op(b),
            RecoverStage::Finished => KeyOp::Pause(0),
        }
    }

    fn claim_item(&mut self, at: usize, name: u32, now: u64)
        requires
            old(self)@.siblings.wf(),
            old(self)@.items.len() <= usize::MAX,
        ensures
            final(self)@ == claim_item(old(self)@, at as int, name, now),
            final(self)@.wf(),
    {
        if at < self.items.len() {
            self.stage = RecoverStage::Probe { at, tries: 0, name };
        } else if self.claims.len() == 0 {
            self.stage = RecoverStage::Reload(load_racing_key(now));
        } else {
            self.stage = RecoverStage::Heartbeat;
        }
    }

    fn claim_name(&mut self, at: usize, tries: u32, name: u32, now: u64)
        requires
            at < old(self)@.items.len(),
            old(self)@.items.len() <= usize::MAX,
            old(self)@.siblings.wf(),
        ensures
            final(self)@ == claim_name(old(self)@, at, tries, name, now),
            final(self)@.wf(),
    {
        let next: u32 = name.wrapping_add(1);
        if tries < KEY_TEMP_ATTEMPTS - 1 {
            self.stage = RecoverStage::Probe { at, tries: tries + 1, name: next };
        } else {
            self.claim_item(at + 1, next, now);
        }
    }

    fn claiming(&mut self, reply: Reply, now: u64)
        requires
            old(self)@.wf(),
            recover_answer(old(self)@, reply),
            old(self)@.stage is List || old(self)@.stage is Probe || old(self)@.stage is Claim
                || old(self)@.stage is Stamp || old(self)@.stage is Append || old(self)@.stage
                is Heartbeat,
        ensures
            final(self)@ == claiming_next(old(self)@, reply, now),
            final(self)@.wf(),
    {
        proof {
            listing_fits(reply);
        }
        match self.stage {
            RecoverStage::List => {
                self.items = reply.into_ids();
                self.claim_item(0, 0, now);
            },
            RecoverStage::Probe { at, tries, name } => {
                if reply.present() {
                    self.claim_name(at, tries, name, now);
                } else {
                    self.stage = RecoverStage::Claim { at, tries, name };
                }
            },
            RecoverStage::Claim { at, tries, name } => match reply.error() {
                Some(e) => {
                    if e.kind == IoKind::NotFound {
                        self.claim_item(at + 1, name.wrapping_add(1), now);
                    } else {
                        self.claim_name(at, tries, name, now);
                    }
                },
                None => {
                    self.stage = RecoverStage::Stamp { at, name };
                },
            },
            RecoverStage::Stamp { at, name } => match reply.error() {
                Some(_) => {
                    self.stage = RecoverStage::Append { at, name };
                },
                None => {
                    self.claims.push(name);
                    self.claim_item(at + 1, name.wrapping_add(1), now);
                },
            },
            RecoverStage::Append { at, name } => {
                self.claims.push(name);
                self.claim_item(at + 1, name.wrapping_add(1), now);
            },
            _ => {
                self.stage = RecoverStage::Reparse(load_existing_key());
            },
        }
    }

    fn quarantine_name(&mut self, n: u32)
        requires
            old(self)@.siblings.wf(),
            old(self)@.items.len() <= usize::MAX,
        ensures
            final(self)@ == quarantine_name(old(self)@, n),
            final(self)@.wf(),
    {
        if n < KEY_TEMP_ATTEMPTS - 1 {
            self.stage = RecoverStage::ProbeQuarantine { n: n + 1 };
        } else {
            self.stage = RecoverStage::RemoveFinal;
        }
    }

    fn release_and_return(&mut self, r: Recovery)
        requires
            old(self)@.siblings.wf(),
            old(self)@.items.len() <= usize::MAX,
        ensures
            final(self)@ == release_and_return(old(self)@, r),
            final(self)@.wf(),
    {
        self.stage = RecoverStage::Release { next: AfterRelease::Return(r) };
    }

    fn quarantining(&mut self, reply: Reply)
        requires
            old(self)@.wf(),
            recover_answer(old(self)@, reply),
            old(self)@.stage is Reparse || old(self)@.stage is FindFree || old(self)@.stage
                is ProbeQuarantine || old(self)@.stage is Quarantine || old(self)@.stage
                is RemoveFinal || old(self)@.stage is CheckQuarantine,
        ensures
            final(self)@ == quarantining_next(old(self)@, reply),
            final(self)@.wf(),
    {
        match self.stage {
            RecoverStage::Reparse(p) => match load_next(p, &reply) {
                LoadNext::Go(q) => {
                    self.stage = RecoverStage::Reparse(q);
                },
                LoadNext::Loaded(k) => {
                    self.release_and_return(Recovery::Loaded(k));
                },
                LoadNext::Failed(e) => {
                    if is_key_content_error(&e) || is_missing_file(&e) {
                        self.stage = RecoverStage::FindFree { n: 0 };
                    } else {
                        self.release_and_return(Recovery::Failed(RecoverFailure::Reparse(e)));
                    }
                },
            },
            RecoverStage::FindFree { n } => {
                if !reply.present() {
                    self.stage = RecoverStage::ProbeQuarantine { n };
                } else if n < KEY_TEMP_ATTEMPTS - 1 {
                    self.stage = RecoverStage::FindFree { n: n + 1 };
                } else {
                    self.stage = RecoverStage::ProbeQuarantine { n: 0 };
                }
            },
            RecoverStage::ProbeQuarantine { n } => {
                if reply.present() {
                    self.quarantine_name(n);
                } else {
                    self.stage = RecoverStage::Quarantine { n };
                }
            },
            RecoverStage::Quarantine { n } => match reply.error() {
                Some(e) => {
                    if e.kind == IoKind::NotFound {
                        self.stage = RecoverStage::ListMarkers;
                    } else {
                        self.quarantine_name(n);
                    }
                },
                None => {
                    self.stage = RecoverStage::CheckQuarantine { n };
                },
            },
            RecoverStage::RemoveFinal => match reply.error() {
                Some(e) => {
                    if e.kind == IoKind::NotFound {
                        self.stage = RecoverStage::ListMarkers;
                    } else {
                        let load = self.load_error;
                        self.release_and_return(
                            Recovery::Failed(RecoverFailure::Stuck { load, error: e }),
                        );
                    }
                },
                None => {
                    self.stage = RecoverStage::ListMarkers;
                },
            },
            RecoverStage::CheckQuarantine { n } => match reply {
                Reply::Key(key) => {
                    self.stage = RecoverStage::Restore {
                        n,
                        key,
                        publish: publish_key_atomically(),
                    };
                },
                _ => {
                    self.stage = RecoverStage::ListMarkers;
                },
            },
            _ => {},
        }
    }

    fn restoring(&mut self, reply: Reply, now: u64)
        requires
            old(self)@.wf(),
            recover_answer(old(self)@, reply),
            old(self)@.stage is Restore || old(self)@.stage is Siblings || old(self)@.stage
                is DropQuarantine || old(self)@.stage is SyncRestored || old(self)@.stage
                is Supersede,
        ensures
            final(self)@ == restoring_next(old(self)@, reply, now),
            final(self)@.wf(),
    {
        match self.stage {
            RecoverStage::Restore { n, key, publish } => {
                proof {
                    restore_answers(publish, key, reply);
                }
                match publish_next(publish, &reply, now) {
                    PublishNext::Go(q) => {
                        self.stage = RecoverStage::Restore { n, key, publish: q };
                    },
                    PublishNext::End(KeyPublish::Won) => {
                        self.stage = RecoverStage::Siblings { n, key };
                        self.siblings = SiblingSupersede::supersede_sibling_quarantines(
                            FileRef::Quarantine(n),
                        );
                    },
                    PublishNext::End(KeyPublish::Lost) => {
                        self.stage = RecoverStage::Supersede {
                            phase: supersede_quarantine(FileRef::Quarantine(n)),
                        };
                    },
                    PublishNext::End(KeyPublish::Failed(why)) => {
                        self.release_and_return(
                            Recovery::Failed(RecoverFailure::Restore { quarantine: n, why }),
                        );
                    },
                }
            },
            RecoverStage::Siblings { n, key } => {
                self.siblings.step(reply);
                match self.siblings.phase {
                    SiblingPhase::Finished => {
                        self.stage = RecoverStage::DropQuarantine { n, key };
                    },
                    _ => {},
                }
            },
            RecoverStage::DropQuarantine { key, .. } => {
                self.stage = RecoverStage::SyncRestored { key };
            },
            RecoverStage::SyncRestored { key } => {
                self.release_and_return(Recovery::Loaded(key));
            },
            RecoverStage::Supersede { phase } => match supersede_next(phase, &reply) {
                SupersedeNext::Go(q) => {
                    self.stage = RecoverStage::Supersede { phase: q };
                },
                SupersedeNext::End(_) => {
                    self.stage = RecoverStage::Release { next: AfterRelease::Reload };
                },
            },
            _ => {},
        }
    }

    /// Takes the reply to the operation; the outcome, once there is one.
    pub fn step(&mut self, reply: Reply, now: u64) -> (r: Option<Recovery>)
        requires
            old(self)@.wf(),
            recover_answer(old(self)@, reply),
        ensures
            (final(self)@, r) == recover_next(old(self)@, reply, now),
            final(self)@.wf(),
    {
        proof {
            listing_fits(reply);
        }
        match self.stage {
            RecoverStage::List | RecoverStage::Probe { .. } | RecoverStage::Claim { .. }
            | RecoverStage::Stamp { .. } | RecoverStage::Append { .. }
            | RecoverStage::Heartbeat => {
                self.claiming(reply, now);
                None
            },
            RecoverStage::Reparse(_) | RecoverStage::FindFree { .. }
            | RecoverStage::ProbeQuarantine { .. } | RecoverStage::Quarantine { .. }
            | RecoverStage::RemoveFinal | RecoverStage::CheckQuarantine { .. } => {
                self.quarantining(reply);
                None
            },
            RecoverStage::Restore { .. } | RecoverStage::Siblings { .. }
            | RecoverStage::DropQuarantine { .. } | RecoverStage::SyncRestored { .. }
            | RecoverStage::Supersede { .. } => {
                self.restoring(reply, now);
                None
            },
            RecoverStage::ListMarkers => {
                self.items = reply.into_ids();
                self.stage = RecoverStage::DropMarkers;
                None
            },
            RecoverStage::DropMarkers => {
                self.stage = RecoverStage::SyncDir;
                None
            },
            RecoverStage::SyncDir => {
                self.stage = RecoverStage::Finished;
                Some(Recovery::Claimed)
            },
            RecoverStage::Release { next } => {
                self.claims = Vec::new();
                match next {
                    AfterRelease::Return(r) => {
                        self.stage = RecoverStage::Finished;
                        Some(r)
                    },
                    AfterRelease::Reload => {
                        self.stage = RecoverStage::Reload(load_racing_key(now));
                        None
                    },
                }
            },
            RecoverStage::Reload(b) => match boot_load_next(b, &reply, now) {
                BootLoadNext::Go(c) => {
                    self.stage = RecoverStage::Reload(c);
                    None
                },
                BootLoadNext::Loaded(k) => {
                    self.stage = RecoverStage::Finished;
                    Some(Recovery::Loaded(k))
                },
                BootLoadNext::CrashSignature(e) => {
                    self.stage = RecoverStage::Finished;
                    Some(Recovery::NotLoaded(e))
                },
                BootLoadNext::Failed(e) => {
                    self.stage = RecoverStage::Finished;
                    Some(Recovery::NotLoaded(e))
                },
            },
            RecoverStage::Finished => None,
        }
    }
}

/// Whether the claims that a recovery holds fit its stage: none before the
/// first, some from the last one claimed to their release.
pub open spec fn claims_fit_stage(v: RecoverView) -> bool {
    &&& v.stage is List || v.stage is Reload ==> v.claims.len() == 0
    &&& !(v.stage is List || v.stage is Probe || v.stage is Claim || v.stage is Stamp || v.stage
        is Append || v.stage is Reload || v.stage is Finished) ==> v.claims.len() > 0
    &&& v.stage matches RecoverStage::Release { next } ==> next != AfterRelease::Return(
        Recovery::Claimed,
    )
}

/// The claims keep fitting the stage, and a recovery that ends holds claims
/// exactly if the caller has to generate a key.
pub proof fn claims_fit_next_stage(v: RecoverView, reply: Reply, now: u64)
    requires
        claims_fit_stage(v),
        !(v.stage is Finished),
    ensures
        ({
            let (w, end) = recover_next(v, reply, now);
            &&& claims_fit_stage(w)
            &&& w.stage is Finished <==> end is Some
            &&& end is Some ==> (end == Some(Recovery::Claimed) <==> w.claims.len() > 0)
        }),
{
}

/// The key that a stage of a recovery is about, where it has one.
pub open spec fn key_of_recovery(stage: RecoverStage) -> Option<u64> {
    match stage {
        RecoverStage::Restore { key, .. } => Some(key),
        RecoverStage::Siblings { key, .. } => Some(key),
        RecoverStage::DropQuarantine { key, .. } => Some(key),
        RecoverStage::SyncRestored { key } => Some(key),
        RecoverStage::Release { next: AfterRelease::Return(Recovery::Loaded(key)) } => Some(key),
        _ => None,
    }
}

/// A key that a recovery is about, or ends with, is the one it was about before
/// or the one it has just read.
pub proof fn recovery_keys_come_up(v: RecoverView, reply: Reply, now: u64)
    requires
        recover_answer(v, reply),
    ensures
        key_of_recovery(recover_next(v, reply, now).0.stage) matches Some(key) ==> key_of_recovery(
            v.stage,
        ) == Some(key) || reply == Reply::Key(key),
        recover_next(v, reply, now).1 matches Some(Recovery::Loaded(key)) ==> key_of_recovery(
            v.stage,
        ) == Some(key) || reply == Reply::Key(key),
{
}

/// A step stays at a place that exists.
pub proof fn recovery_keeps_wf(v: RecoverView, reply: Reply, now: u64)
    requires
        v.wf(),
    ensures
        recover_next(v, reply, now).0.wf(),
{
    siblings_keep_wf(v.siblings, reply);
    listing_fits(reply);
}

/// A run of a recovery: the replies, with the times at which they came.
pub type RecoverEvents = Seq<(Reply, u64)>;

/// Where a run has led: the recovery, and its outcome once there is one.
pub open spec fn recover_after(e: LoadError, events: RecoverEvents) -> (
    RecoverView,
    Option<Recovery>,
)
    decreases events.len(),
{
    if events.len() == 0 {
        (recover_start(e), None)
    } else {
        let before = recover_after(e, events.drop_last());
        if before.1 is Some {
            before
        } else {
            recover_next(before.0, events.last().0, events.last().1)
        }
    }
}

/// The stage of a run before its event `at`.
pub open spec fn stage_before(e: LoadError, events: RecoverEvents, at: int) -> RecoverStage {
    recover_after(e, events.take(at)).0.stage
}

/// Whether the run, at its event `at`, read the key again after claiming and
/// found its content at fault, or no key at all.
pub open spec fn found_unreadable(e: LoadError, events: RecoverEvents, at: int) -> bool {
    &&& 0 <= at < events.len()
    &&& stage_before(e, events, at) matches RecoverStage::Reparse(p) && load_next_spec(
        p,
        events[at].0,
    ) matches LoadNext::Failed(why) && (content_error(why) || missing_file(why))
}

/// Whether the stage lies between the second reading and the release.
spec fn past_reparse(stage: RecoverStage) -> bool {
    stage is FindFree || stage is ProbeQuarantine || stage is Quarantine || stage is RemoveFinal
        || stage is CheckQuarantine || stage is Restore || stage is Siblings || stage
        is DropQuarantine || stage is SyncRestored || stage is Supersede || stage is ListMarkers
        || stage is DropMarkers || stage is SyncDir
}

proof fn recovery_knows(e: LoadError, events: RecoverEvents)
    ensures
        ({
            let (v, end) = recover_after(e, events);
            &&& past_reparse(v.stage) ==> v.claims.len() > 0 && exists|i: int|
                found_unreadable(e, events, i)
            &&& (v.stage is Heartbeat || v.stage is Reparse || v.stage is Release)
                ==> v.claims.len() > 0
            &&& v.stage is List || v.stage is Reload ==> v.claims.len() == 0
            &&& v.stage is Finished <==> end is Some
            &&& end == Some(Recovery::Claimed) ==> v.claims.len() > 0 && exists|i: int|
                found_unreadable(e, events, i)
            &&& end is Some && end != Some(Recovery::Claimed) ==> v.claims.len() == 0
            &&& v.stage matches RecoverStage::Release { next } ==> next != AfterRelease::Return(
                Recovery::Claimed,
            )
        }),
    decreases events.len(),
{
    if events.len() > 0 {
        let shorter = events.drop_last();
        recovery_knows(e, shorter);
        let last = events.len() - 1;
        assert(events.take(last) =~= shorter);
        let before = recover_after(e, shorter);
        if exists|i: int| found_unreadable(e, shorter, i) {
            let i = choose|i: int| found_unreadable(e, shorter, i);
            assert(shorter.take(i) =~= events.take(i));
            assert(found_unreadable(e, events, i));
        }
        if before.1 is None && before.0.stage is Reparse && recover_after(e, events).0.stage
            is FindFree {
            assert(found_unreadable(e, events, last));
        }
    }
}

/// The identity key is moved away or removed only by a recovery that holds a
/// claim, and only after it has read the key once more, since claiming, and
/// found its content at fault or the key gone.
pub proof fn key_is_moved_only_when_unreadable(e: LoadError, events: RecoverEvents)
    requires
        recover_after(e, events).0.stage is Quarantine || recover_after(e, events).0.stage
            is RemoveFinal,
    ensures
        recover_after(e, events).0.claims.len() > 0,
        exists|i: int| found_unreadable(e, events, i),
{
    recovery_knows(e, events);
}

/// A recovery that ends holds its claims exactly if the caller has to generate
/// a key; every other end, each failure included, comes after their release.
pub proof fn claims_are_held_only_for_the_follow_up(e: LoadError, events: RecoverEvents)
    requires
        recover_after(e, events).1 is Some,
    ensures
        recover_after(e, events).1 == Some(Recovery::Claimed) <==> recover_after(
            e,
            events,
        ).0.claims.len() > 0,
{
    recovery_knows(e, events);
}

spec fn after_a_move(stage: RecoverStage, end: Option<Recovery>) -> bool {
    ||| stage is ProbeQuarantine
    ||| stage is Quarantine
    ||| stage is RemoveFinal
    ||| stage is CheckQuarantine
    ||| stage is Restore
    ||| stage is Siblings
    ||| stage is DropQuarantine
    ||| stage is SyncRestored
    ||| stage is Supersede
    ||| stage is ListMarkers
    ||| stage is DropMarkers
    ||| stage is SyncDir
    ||| stage is Reload
    ||| (stage matches RecoverStage::Release { next } && !(next matches AfterRelease::Return(
        Recovery::Failed(RecoverFailure::Reparse(_)),
    )))
    ||| (stage is Finished && end is Some && !(end matches Some(
        Recovery::Failed(RecoverFailure::Reparse(_)),
    )))
}

proof fn a_move_leaves_its_trace(e: LoadError, events: RecoverEvents, at: int)
    requires
        0 <= at <= events.len(),
        stage_before(e, events, at) is Quarantine || stage_before(e, events, at) is RemoveFinal,
    ensures
        after_a_move(recover_after(e, events).0.stage, recover_after(e, events).1),
    decreases events.len(),
{
    if at == events.len() {
        assert(events.take(at) =~= events);
    } else {
        let shorter = events.drop_last();
        assert(shorter.take(at) =~= events.take(at));
        a_move_leaves_its_trace(e, shorter, at);
        recovery_knows(e, shorter);
    }
}

/// A failure to read the key again that says nothing of its content moves
/// nothing: the run never was about to move or remove the key.
pub proof fn transient_failures_move_nothing(
    e: LoadError,
    events: RecoverEvents,
    why: LoadError,
    at: int,
)
    requires
        recover_after(e, events).1 == Some(Recovery::Failed(RecoverFailure::Reparse(why))),
        0 <= at <= events.len(),
    ensures
        !(stage_before(e, events, at) is Quarantine),
        !(stage_before(e, events, at) is RemoveFinal),
{
    if stage_before(e, events, at) is Quarantine || stage_before(e, events, at) is RemoveFinal {
        a_move_leaves_its_trace(e, events, at);
        recovery_knows(e, events);
    }
}

/// Whether the run tried to claim the item at place `k`.
pub open spec fn item_tried(e: LoadError, events: RecoverEvents, k: int) -> bool {
    exists|i: int|
        0 <= i <= events.len() && (#[trigger] stage_before(e, events, i) matches
            RecoverStage::Probe { at, tries, name } && at == k)
}

spec fn place(stage: RecoverStage) -> Option<int> {
    match stage {
        RecoverStage::Probe { at, .. } => Some(at as int),
        RecoverStage::Claim { at, .. } => Some(at as int),
        RecoverStage::Stamp { at, .. } => Some(at as int),
        RecoverStage::Append { at, .. } => Some(at as int),
        _ => None,
    }
}

proof fn items_tried_so_far(e: LoadError, events: RecoverEvents, k: int)
    requires
        0 <= k,
        ({
            let v = recover_after(e, events).0;
            ||| place(v.stage) is Some && k <= place(v.stage)->0
            ||| v.stage is Heartbeat && k < v.items.len()
        }),
    ensures
        item_tried(e, events, k),
    decreases events.len(),
{
    if events.len() > 0 {
        let shorter = events.drop_last();
        let last = events.len() as int;
        let v = recover_after(e, shorter).0;
        let w = recover_after(e, events).0;
        assert(events.take(last) =~= events);
        let tried_before = (place(v.stage) is Some && k <= place(v.stage)->0) || (v.stage
            is Heartbeat && k < v.items.len());
        if tried_before {
            items_tried_so_far(e, shorter, k);
            let i = choose|i: int|
                0 <= i <= shorter.len() && (#[trigger] stage_before(e, shorter, i) matches
                    RecoverStage::Probe { at, tries, name } && at == k);
            assert(shorter.take(i) =~= events.take(i));
            assert(stage_before(e, events, i) == stage_before(e, shorter, i));
        } else {
            assert(w.stage is Probe && place(w.stage) == Some(k));
            assert(stage_before(e, events, last) == w.stage);
        }
    }
}

/// A recovery claims the whole round: before it goes on with its claims, it
/// has tried to claim every file that was listed.
pub proof fn every_listed_file_is_tried(e: LoadError, events: RecoverEvents, k: int)
    requires
        recover_after(e, events).0.stage is Heartbeat,
        0 <= k < recover_after(e, events).0.items.len(),
    ensures
        item_tried(e, events, k),
{
    items_tried_so_far(e, events, k);
}

/// Claims and quarantines take free names: a file is renamed to a claim, and
/// the key to a quarantine, only where the name was free a moment ago.
pub proof fn recovery_moves_to_free_names(v: RecoverView, reply: Reply, now: u64)
    requires
        recover_answer(v, reply),
        !(v.stage is Finished),
    ensures
        recover_next(v, reply, now).0.stage matches RecoverStage::Claim { at, tries, name }
            ==> v.stage == (RecoverStage::Probe { at, tries, name }) && reply == Reply::Present(
            false,
        ),
        recover_next(v, reply, now).0.stage matches RecoverStage::Quarantine { n } ==> v.stage
            == (RecoverStage::ProbeQuarantine { n }) && reply == Reply::Present(false),
{
}

/// A whole key that was put back: its siblings leave the adoptable class before
/// the quarantine is removed.
pub proof fn siblings_go_before_the_quarantine(v: RecoverView, reply: Reply, now: u64)
    requires
        recover_answer(v, reply),
        recover_next(v, reply, now).0.stage is DropQuarantine,
    ensures
        v.stage is Siblings,
        recover_next(v, reply, now).0.siblings.phase is Finished,
{
}

/// A whole key in quarantine whose restore was lost leaves the adoptable class:
/// the run supersedes it before the claims are released.
pub proof fn lost_restores_are_superseded(v: RecoverView, reply: Reply, now: u64, n: u32, key: u64)
    requires
        v.stage matches RecoverStage::Restore { n: m, key: k, publish } && m == n && k == key
            && publish_next_spec(publish, reply, now) == PublishNext::End(KeyPublish::Lost),
    ensures
        recover_next(v, reply, now).0.stage == (RecoverStage::Supersede {
            phase: SupersedePhase::Probe { file: FileRef::Quarantine(n), n: 0 },
        }),
{
}

/// Which key is published makes no difference to what can be replied.
pub proof fn restore_answers(p: PublishPhase, key: u64, reply: Reply)
    requires
        answers(publish_op_spec(p, key), reply),
    ensures
        answers(publish_op_spec(p, 0), reply),
{
}

/// The place of the item that a reply ends the claiming of, if it ends one: the
/// listing comes before the first. An item is over once it is claimed and stamped,
/// once it is gone, and once sixty-four names for its claim have failed.
pub open spec fn item_over(v: RecoverView, reply: Reply) -> Option<int> {
    let gone = reply matches Reply::Failed(e) && e.kind is NotFound;
    match v.stage {
        RecoverStage::List => Some(-1),
        RecoverStage::Probe { at, tries, .. } => if reply == Reply::Present(true) && tries >= 63 {
            Some(at as int)
        } else {
            None
        },
        RecoverStage::Claim { at, tries, .. } => if gone || (reply is Failed && tries >= 63) {
            Some(at as int)
        } else {
            None
        },
        RecoverStage::Stamp { at, .. } => if reply is Failed {
            None
        } else {
            Some(at as int)
        },
        RecoverStage::Append { at, .. } => Some(at as int),
        _ => None,
    }
}

/// The claim name before the first that comes next.
pub open spec fn name_used(v: RecoverView) -> u32 {
    match v.stage {
        RecoverStage::List => u32::MAX,
        RecoverStage::Probe { name, .. } => name,
        RecoverStage::Claim { name, .. } => name,
        RecoverStage::Stamp { name, .. } => name,
        RecoverStage::Append { name, .. } => name,
        _ => 0,
    }
}

/// What led to each stage of a recovery up to the second reading. The items are
/// claimed in order, each under a name of its own, numbered from zero on, and
/// renamed only to a name that was free. Behind the last one the key is read again
/// under the heartbeat of the claims; where nothing was claimed, others have the
/// round, and their key is loaded.
pub proof fn what_leads_through_the_claiming(v: RecoverView, reply: Reply, now: u64)
    requires
        v.wf(),
        recover_answer(v, reply),
        !(v.stage is Finished),
    ensures
        ({
            let (w, end) = recover_next(v, reply, now);
            let gone = reply matches Reply::Failed(e) && e.kind is NotFound;
            let over = item_over(v, reply);
            let behind = over matches Some(at) && at + 1 >= w.items.len();
            &&& w.load_error == v.load_error
            &&& w.items == (if v.stage is List || v.stage is ListMarkers {
                listed(reply)
            } else {
                v.items
            })
            &&& w.claims == (match v.stage {
                RecoverStage::Stamp { name, .. } if !(reply is Failed) => v.claims.push(name),
                RecoverStage::Append { name, .. } => v.claims.push(name),
                RecoverStage::Release { .. } => Seq::empty(),
                _ => v.claims,
            })
            &&& match w.stage {
                RecoverStage::List => false,
                RecoverStage::Probe { at, tries, name } => {
                    &&& at < w.items.len()
                    &&& name as int == (name_used(v) + 1) % 0x1_0000_0000
                    &&& tries == 0 ==> over == Some(at - 1)
                    &&& tries > 0 ==> tries < 64 && over is None && match v.stage {
                        RecoverStage::Probe { at: a, tries: t, .. } => a == at && t + 1 == tries
                            && reply == Reply::Present(true),
                        RecoverStage::Claim { at: a, tries: t, .. } => a == at && t + 1 == tries
                            && reply is Failed && !gone,
                        _ => false,
                    }
                },
                RecoverStage::Claim { at, tries, name } => v.stage == (RecoverStage::Probe {
                    at,
                    tries,
                    name,
                }) && reply == Reply::Present(false),
                RecoverStage::Stamp { at, name } => (v.stage matches RecoverStage::Claim {
                    at: a,
                    name: m,
                    ..
                } && a == at && m == name) && !(reply is Failed),
                RecoverStage::Append { at, name } => v.stage == (RecoverStage::Stamp { at, name })
                    && reply is Failed,
                RecoverStage::Heartbeat => behind && w.claims.len() > 0,
                RecoverStage::Reparse(q) => (v.stage is Heartbeat && q is Look) || (v.stage
                    matches RecoverStage::Reparse(p) && load_next_spec(p, reply) == LoadNext::Go(q)),
                RecoverStage::Reload(b) => {
                    ||| b == boot_load_start(false, now) && behind && w.claims.len() == 0
                    ||| b == boot_load_start(false, now) && v.stage == (RecoverStage::Release {
                        next: AfterRelease::Reload,
                    })
                    ||| v.stage matches RecoverStage::Reload(c) && boot_load_next_spec(c, reply, now)
                        == BootLoadNext::Go(b)
                },
                _ => true,
            }
        }),
{
    let op = choose|op: KeyOp| #[trigger] recover_waits_for(v, op) && answers(op, reply);
    assert(recover_waits_for(v, op) && answers(op, reply));
}

/// What led to each stage of a recovery behind the second reading. The key is
/// moved away only after the content was at fault or the file missing, to the first
/// quarantine name that was free; where no name can be had, it is removed. What was
/// moved is read: a whole key is published again, and what is not gives way to the
/// removal of the markers. A key that was put back has its siblings superseded
/// before its quarantine goes; one that lost is superseded itself.
pub proof fn what_leads_through_the_quarantine(v: RecoverView, reply: Reply, now: u64)
    requires
        v.wf(),
        recover_answer(v, reply),
        !(v.stage is Finished),
    ensures
        ({
            let (w, end) = recover_next(v, reply, now);
            let gone = reply matches Reply::Failed(e) && e.kind is NotFound;
            let taken = reply == Reply::Present(true);
            let published = match v.stage {
                RecoverStage::Restore { publish, .. } => match publish_next_spec(
                    publish,
                    reply,
                    now,
                ) {
                    PublishNext::End(e) => Some(e),
                    _ => None,
                },
                _ => None,
            };
            match w.stage {
                RecoverStage::FindFree { n } => {
                    ||| n == 0 && (v.stage matches RecoverStage::Reparse(p) && (load_next_spec(
                        p,
                        reply,
                    ) matches LoadNext::Failed(e) && (e is Content || missing_file(e))))
                    ||| 0 < n < 64 && taken && v.stage == (RecoverStage::FindFree {
                        n: (n - 1) as u32,
                    })
                },
                RecoverStage::ProbeQuarantine { n } => {
                    ||| v.stage == (RecoverStage::FindFree { n }) && !taken
                    ||| n == 0 && taken && (v.stage matches RecoverStage::FindFree { n: k } && k
                        >= 63)
                    ||| 0 < n < 64 && taken && v.stage == (RecoverStage::ProbeQuarantine {
                        n: (n - 1) as u32,
                    })
                    ||| 0 < n < 64 && reply is Failed && !gone && v.stage == (
                    RecoverStage::Quarantine { n: (n - 1) as u32 })
                },
                RecoverStage::Quarantine { n } => v.stage == (RecoverStage::ProbeQuarantine { n })
                    && !taken,
                RecoverStage::RemoveFinal => {
                    ||| taken && (v.stage matches RecoverStage::ProbeQuarantine { n } && n >= 63)
                    ||| reply is Failed && !gone && (v.stage matches RecoverStage::Quarantine { n }
                        && n >= 63)
                },
                RecoverStage::CheckQuarantine { n } => v.stage == (RecoverStage::Quarantine { n })
                    && !(reply is Failed),
                RecoverStage::Restore { n, key, publish } => {
                    ||| v.stage == (RecoverStage::CheckQuarantine { n }) && reply == Reply::Key(key)
                        && publish == (PublishPhase::CreateTemp { n: 0 })
                    ||| v.stage matches RecoverStage::Restore { n: m, key: k, publish: p } && m == n
                        && k == key && publish_next_spec(p, reply, now) == PublishNext::Go(publish)
                },
                RecoverStage::Siblings { n, key } => {
                    ||| published == Some(KeyPublish::Won) && w.siblings.phase == (
                    SiblingPhase::List { kept: FileRef::Quarantine(n) }) && (v.stage
                        matches RecoverStage::Restore { n: m, key: k, .. } && m == n && k == key)
                    ||| v.stage == (RecoverStage::Siblings { n, key }) && w.siblings
                        == sibling_next_spec(v.siblings, reply) && !(w.siblings.phase is Finished)
                },
                RecoverStage::DropQuarantine { n, key } => v.stage == (RecoverStage::Siblings {
                    n,
                    key,
                }) && sibling_next_spec(v.siblings, reply).phase is Finished,
                RecoverStage::SyncRestored { key } => v.stage matches RecoverStage::DropQuarantine {
                    key: k,
                    ..
                } && k == key,
                RecoverStage::Supersede { phase } => {
                    ||| published == Some(KeyPublish::Lost) && (v.stage
                        matches RecoverStage::Restore { n, .. } && phase == (
                    SupersedePhase::Probe { file: FileRef::Quarantine(n), n: 0 }))
                    ||| v.stage matches RecoverStage::Supersede { phase: p } && supersede_next_spec(
                        p,
                        reply,
                    ) == SupersedeNext::Go(phase)
                },
                RecoverStage::ListMarkers => {
                    ||| v.stage is Quarantine && gone
                    ||| v.stage is RemoveFinal && (gone || !(reply is Failed))
                    ||| v.stage is CheckQuarantine && !(reply is Key)
                },
                RecoverStage::DropMarkers => v.stage is ListMarkers,
                RecoverStage::SyncDir => v.stage is DropMarkers,
                _ => true,
            }
        }),
{
    let op = choose|op: KeyOp| #[trigger] recover_waits_for(v, op) && answers(op, reply);
    assert(recover_waits_for(v, op) && answers(op, reply));
}

/// What led to the release of the claims, and to each end of a recovery. A key is
/// what was read or put back. Without an error of the content nothing is moved and
/// the error is told; a key that is stuck, or was not put back, is told with its
/// reason. The claims are held for what follows only once the markers are gone and
/// the directory is flushed.
pub proof fn what_leads_out_of_a_recovery(v: RecoverView, reply: Reply, now: u64)
    requires
        v.wf(),
        recover_answer(v, reply),
        !(v.stage is Finished),
    ensures
        ({
            let (w, end) = recover_next(v, reply, now);
            let gone = reply matches Reply::Failed(e) && e.kind is NotFound;
            &&& w.stage is Finished <==> end is Some
            &&& w.stage matches RecoverStage::Release { next } ==> match next {
                AfterRelease::Reload => v.stage matches RecoverStage::Supersede { phase }
                    && supersede_next_spec(phase, reply) is End,
                AfterRelease::Return(Recovery::Claimed) => false,
                AfterRelease::Return(Recovery::NotLoaded(_)) => false,
                AfterRelease::Return(Recovery::Loaded(k)) => {
                    ||| v.stage == (RecoverStage::SyncRestored { key: k })
                    ||| v.stage matches RecoverStage::Reparse(p) && load_next_spec(p, reply)
                        == LoadNext::Loaded(k)
                },
                AfterRelease::Return(Recovery::Failed(why)) => match why {
                    RecoverFailure::Reparse(e) => !(e is Content) && !missing_file(e) && (v.stage
                        matches RecoverStage::Reparse(p) && load_next_spec(p, reply)
                        == LoadNext::Failed(e)),
                    RecoverFailure::Stuck { load, error } => v.stage is RemoveFinal && load
                        == v.load_error && reply == Reply::Failed(error) && !gone,
                    RecoverFailure::Restore { quarantine, why } => v.stage
                        matches RecoverStage::Restore { n, publish, .. } && n == quarantine
                        && publish_next_spec(publish, reply, now) == PublishNext::End(
                        KeyPublish::Failed(why),
                    ),
                },
            }
            &&& end matches Some(r) ==> {
                ||| v.stage == (RecoverStage::Release { next: AfterRelease::Return(r) })
                ||| v.stage is SyncDir && r is Claimed
                ||| v.stage matches RecoverStage::Reload(b) && match r {
                    Recovery::Loaded(k) => boot_load_next_spec(b, reply, now)
                        == BootLoadNext::Loaded(k),
                    Recovery::NotLoaded(e) => boot_load_next_spec(b, reply, now)
                        == BootLoadNext::Failed(e) || boot_load_next_spec(b, reply, now)
                        == BootLoadNext::CrashSignature(e),
                    _ => false,
                }
            }
        }),
{
    let op = choose|op: KeyOp| #[trigger] recover_waits_for(v, op) && answers(op, reply);
    assert(recover_waits_for(v, op) && answers(op, reply));
}

/// What a recovery waits for: it lists what may be claimed and what markers are
/// left, renames the item that it stands at to its claim and the identity key to
/// its quarantine, stamps the claim it has just made, keeps the claims it holds
/// alive, removes what it has listed, and releases what it holds.
pub proof fn what_a_recovery_waits_for(v: RecoverView, op: KeyOp)
    requires
        recover_waits_for(v, op),
    ensures
        v.stage is List ==> op is ListClaimables,
        v.stage matches RecoverStage::Probe { name, .. } ==> op == KeyOp::Exists(
            FileRef::Claim(name),
        ),
        v.stage matches RecoverStage::Claim { at, name, .. } ==> op == KeyOp::Rename(
            FileRef::Listed(v.items[at as int]),
            FileRef::Claim(name),
        ),
        v.stage matches RecoverStage::Stamp { name, .. } ==> op == KeyOp::StampClaim(name),
        v.stage matches RecoverStage::Append { name, .. } ==> op == KeyOp::AppendClaim(name),
        v.stage is Heartbeat ==> (op matches KeyOp::StartHeartbeat(c) && c@ == v.claims),
        v.stage matches RecoverStage::FindFree { n } ==> op == KeyOp::Exists(
            FileRef::Quarantine(n),
        ),
        v.stage matches RecoverStage::ProbeQuarantine { n } ==> op == KeyOp::Exists(
            FileRef::Quarantine(n),
        ),
        v.stage matches RecoverStage::Quarantine { n } ==> op == KeyOp::Rename(
            FileRef::Final,
            FileRef::Quarantine(n),
        ),
        v.stage is RemoveFinal ==> op == KeyOp::Remove(FileRef::Final),
        v.stage matches RecoverStage::CheckQuarantine { n } ==> op == KeyOp::ReadKey(
            FileRef::Quarantine(n),
        ),
        v.stage matches RecoverStage::DropQuarantine { n, .. } ==> op == KeyOp::Remove(
            FileRef::Quarantine(n),
        ),
        v.stage is SyncRestored || v.stage is SyncDir ==> op is SyncDir,
        v.stage is ListMarkers ==> op is ListMarkers,
        v.stage is DropMarkers ==> (op matches KeyOp::RemoveListed(ids) && ids@ == v.items),
        v.stage is Release ==> (op matches KeyOp::ReleaseClaims(c) && c@ == v.claims),
        v.stage matches RecoverStage::Reparse(p) ==> op == load_op_spec(p),
        v.stage matches RecoverStage::Restore { key, publish, .. } ==> op == publish_op_spec(
            publish,
            key,
        ),
        v.stage is Siblings ==> op == sibling_op_spec(v.siblings),
        v.stage matches RecoverStage::Supersede { phase } ==> op == supersede_op_spec(phase),
        v.stage matches RecoverStage::Reload(b) ==> op == boot_load_op_spec(b),
{
}

/// A recovery begins with the listing, without claims, and remembers its error.
pub proof fn recoveries_begin(e: LoadError)
    ensures
        recover_start(e).stage is List,
        recover_start(e).load_error == e,
        recover_start(e).claims.len() == 0,
        recover_start(e).items.len() == 0,
{
}

} // verus!
