//! The identity key at the start of the node: load it, recover it, adopt a
//! stranded one, or generate a new one.

use vstd::prelude::*;

use crate::identity::load::{
    boot_load_key, boot_load_next, boot_load_next_spec, boot_load_op, boot_load_op_spec,
    boot_load_start, content_error, load_racing_key, BootLoad, BootLoadNext, BootLoadPhase,
    LoadError,
};
use crate::identity::ops::{answers, listed, listing_fits, FileRef, IoError, KeyOp, Reply};
use crate::identity::publish::{
    publish_key_atomically, publish_next, publish_next_spec, publish_op, publish_op_spec,
    publish_start, KeyPublish, PublishFailure, PublishNext, PublishPhase,
};
use crate::identity::recover::{
    claims_fit_next_stage, claims_fit_stage, copy_claims, key_of_recovery, recover_answer,
    recover_next, recover_start, recover_waits_for, recovery_keeps_wf, recovery_keys_come_up,
    restore_answers, CrashRecovery, RecoverFailure, RecoverView, Recovery,
};
use crate::identity::supersede::{
    sibling_next_spec, sibling_op_spec, sibling_start, siblings_keep_wf, supersede_next,
    supersede_next_spec, supersede_op, supersede_op_spec, supersede_quarantine, SiblingPhase,
    SiblingSupersede, SiblingView, SupersedeNext, SupersedePhase,
};
use crate::identity::sweep::{
    sweep_answer, sweep_next_spec, sweep_start, sweep_waits_for, Sweep, SweepPhase, SweepView,
};

verus! {

/// Why the node has no identity key.
#[derive(Clone, Copy, PartialEq, Eq, Structural, Debug)]
pub enum KeyFailure {
    Load(LoadError),
    Recover(RecoverFailure),
    /// A stranded key could not be published; it is kept.
    Adopt { id: u64, why: PublishFailure },
    Generate(IoError),
    CreateParent(IoError),
    Publish(PublishFailure),
}

/// How the start ended.
#[derive(Clone, Copy, PartialEq, Eq, Structural, Debug)]
pub enum KeyEnd {
    Key(u64),
    Failed(KeyFailure),
}

/// What follows the release of the claims.
#[derive(Clone, Copy, PartialEq, Eq, Structural, Debug)]
pub enum AfterClaims {
    /// Sweep, then return the key.
    Healthy(u64),
    Fail(KeyFailure),
}

/// Where a start stands: the operation that it waits for. `first` tells the
/// load at the beginning of a pass from the load after a lost publish.
#[derive(Clone, Copy, PartialEq, Eq, Structural, Debug)]
pub enum KeyStage {
    CheckKey,
    Load { load: BootLoad, first: bool },
    Recover { first: bool },
    /// List the quarantined keys that may be adopted.
    Scan,
    /// Does the one at this place hold a key?
    TryAdopt { at: usize },
    Adopt { id: u64, key: u64, publish: PublishPhase },
    AdoptSiblings { id: u64, key: u64 },
    DropAdopted { id: u64, key: u64 },
    SyncAdopted { key: u64 },
    SupersedeAdopted { phase: SupersedePhase },
    AdoptReload(BootLoad),
    Generate,
    CreateParent { key: u64 },
    Publish { key: u64, publish: PublishPhase },
    Release { next: AfterClaims },
    Sweep { key: u64 },
    Finished,
}

/// The start's way to the identity key.
#[derive(Debug)]
pub struct KeyBoot {
    pub stage: KeyStage,
    /// The pass: 0, or 1 after a recovery that followed a lost publish.
    pub pass: u32,
    /// Whether a recovery may still be made.
    pub recovery_allowed: bool,
    /// The claims of a recovery that was made.
    pub claims: Vec<u32>,
    /// The quarantined keys that may be adopted.
    pub queue: Vec<u64>,
    pub recovery: CrashRecovery,
    pub siblings: SiblingSupersede,
    pub sweep: Sweep,
}

/// The start's way to the identity key, as the contracts see it.
pub struct BootView {
    pub stage: KeyStage,
    pub pass: u32,
    pub recovery_allowed: bool,
    pub claims: Seq<u32>,
    pub queue: Seq<u64>,
    pub recovery: RecoverView,
    pub siblings: SiblingView,
    pub sweep: SweepView,
}

impl View for KeyBoot {
    type V = BootView;

    open spec fn view(&self) -> BootView {
        BootView {
            stage: self.stage,
            pass: self.pass,
            recovery_allowed: self.recovery_allowed,
            claims: self.claims@,
            queue: self.queue@,
            recovery: self.recovery@,
            siblings: self.siblings@,
            sweep: self.sweep@,
        }
    }
}

impl BootView {
    /// At most two passes, at most one recovery, and a place that exists.
    pub open spec fn wf(self) -> bool {
        &&& self.recovery.wf()
        &&& self.siblings.wf()
        &&& self.queue.len() <= usize::MAX
        &&& self.pass <= 1
        &&& self.pass == 1 ==> !self.recovery_allowed
        &&& match self.stage {
            KeyStage::Load { load, .. } => load.crash_exit == self.recovery_allowed && (load.phase
                matches BootLoadPhase::Look(e) ==> load.crash_exit && content_error(e)),
            KeyStage::Recover { .. } => self.recovery_allowed && !(self.recovery.stage is Finished)
                && content_error(self.recovery.load_error),
            KeyStage::TryAdopt { at } => at < self.queue.len(),
            KeyStage::AdoptSiblings { .. } => !(self.siblings.phase is Finished),
            KeyStage::Sweep { .. } => !(self.sweep.phase is Finished),
            _ => true,
        }
    }

    /// The same start at another stage.
    pub open spec fn at(self, stage: KeyStage) -> BootView {
        BootView { stage, ..self }
    }
}

/// Whether `op` is the operation that the start waits for.
pub open spec fn boot_waits_for(v: BootView, op: KeyOp) -> bool {
    match v.stage {
        KeyStage::CheckKey => op == KeyOp::Exists(FileRef::Final),
        KeyStage::Load { load, .. } => op == boot_load_op_spec(load),
        KeyStage::Recover { .. } => recover_waits_for(v.recovery, op),
        KeyStage::Scan => op is ListAdoptable,
        KeyStage::TryAdopt { at } => op == KeyOp::ReadKey(FileRef::Listed(v.queue[at as int])),
        KeyStage::Adopt { key, publish, .. } => op == publish_op_spec(publish, key),
        KeyStage::AdoptSiblings { .. } => op == sibling_op_spec(v.siblings),
        KeyStage::DropAdopted { id, .. } => op == KeyOp::Remove(FileRef::Listed(id)),
        KeyStage::SyncAdopted { .. } => op is SyncDir,
        KeyStage::SupersedeAdopted { phase } => op == supersede_op_spec(phase),
        KeyStage::AdoptReload(b) => op == boot_load_op_spec(b),
        KeyStage::Generate => op is GenerateKey,
        KeyStage::CreateParent { .. } => op is CreateParent,
        KeyStage::Publish { key, publish } => op == publish_op_spec(publish, key),
        KeyStage::Release { .. } => op matches KeyOp::ReleaseClaims(c) && c@ == v.claims,
        KeyStage::Sweep { .. } => sweep_waits_for(v.sweep, op),
        KeyStage::Finished => op == KeyOp::Pause(0),
    }
}

/// Whether the start can be answered with `reply`.
pub open spec fn boot_answer(v: BootView, reply: Reply) -> bool {
    match v.stage {
        KeyStage::Recover { .. } => recover_answer(v.recovery, reply),
        KeyStage::Sweep { .. } => sweep_answer(v.sweep, reply),
        KeyStage::Release { .. } => reply is Done,
        KeyStage::Scan => reply is Ids || reply is Failed,
        KeyStage::Generate => reply is Key || reply is Failed,
        KeyStage::CreateParent { .. } | KeyStage::SyncAdopted { .. } => reply is Done || reply
            is Failed,
        _ => exists|op: KeyOp| #[trigger] boot_waits_for(v, op) && answers(op, reply),
    }
}

/// Release the claims, then go on as `next` says.
pub open spec fn release_then(v: BootView, next: AfterClaims) -> BootView {
    v.at(KeyStage::Release { next })
}

/// Sweep, then return the key.
pub open spec fn sweep_then_return(v: BootView, key: u64) -> BootView {
    BootView { sweep: sweep_start(), ..v.at(KeyStage::Sweep { key }) }
}

/// On to the quarantined key at this place; behind the last one, generate.
pub open spec fn adopt_at(v: BootView, at: int) -> BootView {
    if at < v.queue.len() {
        v.at(KeyStage::TryAdopt { at: at as usize })
    } else {
        v.at(KeyStage::Generate)
    }
}

/// Where the end of the attempts to load leads.
pub open spec fn load_end(v: BootView, next: BootLoadNext, first: bool) -> BootView {
    match next {
        BootLoadNext::Go(load) => v.at(KeyStage::Load { load, first }),
        BootLoadNext::Loaded(key) => release_then(v, AfterClaims::Healthy(key)),
        BootLoadNext::CrashSignature(e) => BootView {
            recovery: recover_start(e),
            ..v.at(KeyStage::Recover { first })
        },
        BootLoadNext::Failed(e) => release_then(v, AfterClaims::Fail(KeyFailure::Load(e))),
    }
}

/// Where the end of a recovery leads.
pub open spec fn recovery_end(v: BootView, end: Recovery, first: bool) -> (
    BootView,
    Option<KeyEnd>,
) {
    match end {
        Recovery::Claimed => {
            let w = BootView { claims: v.recovery.claims, recovery_allowed: false, ..v };
            if first {
                (w.at(KeyStage::Scan), None)
            } else {
                (BootView { pass: (v.pass + 1) as u32, ..w.at(KeyStage::CheckKey) }, None)
            }
        },
        Recovery::Loaded(key) => if first {
            (sweep_then_return(v, key), None)
        } else {
            (release_then(v, AfterClaims::Healthy(key)), None)
        },
        Recovery::NotLoaded(e) => failed(v, KeyFailure::Load(e), first),
        Recovery::Failed(why) => failed(v, KeyFailure::Recover(why), first),
    }
}

/// Fail, at once or after the release of the claims.
pub open spec fn failed(v: BootView, why: KeyFailure, at_once: bool) -> (
    BootView,
    Option<KeyEnd>,
) {
    if at_once {
        (v.at(KeyStage::Finished), Some(KeyEnd::Failed(why)))
    } else {
        (release_then(v, AfterClaims::Fail(why)), None)
    }
}

/// Where the reply leads in the adoption of a stranded key.
pub open spec fn adopting_next(v: BootView, reply: Reply, now: u64) -> BootView {
    match v.stage {
        KeyStage::Scan => adopt_at(BootView { queue: listed(reply), ..v }, 0),
        KeyStage::TryAdopt { at } => match reply {
            Reply::Key(key) => v.at(
                KeyStage::Adopt { id: v.queue[at as int], key, publish: publish_start() },
            ),
            _ => adopt_at(v, at + 1),
        },
        KeyStage::Adopt { id, key, publish } => match publish_next_spec(publish, reply, now) {
            PublishNext::Go(q) => v.at(KeyStage::Adopt { id, key, publish: q }),
            PublishNext::End(KeyPublish::Won) => BootView {
                siblings: sibling_start(FileRef::Listed(id)),
                ..v.at(KeyStage::AdoptSiblings { id, key })
            },
            PublishNext::End(KeyPublish::Lost) => v.at(
                KeyStage::SupersedeAdopted {
                    phase: SupersedePhase::Probe { file: FileRef::Listed(id), n: 0 },
                },
            ),
            PublishNext::End(KeyPublish::Failed(why)) => release_then(
                v,
                AfterClaims::Fail(KeyFailure::Adopt { id, why }),
            ),
        },
        KeyStage::AdoptSiblings { id, key } => {
            let s = sibling_next_spec(v.siblings, reply);
            let w = BootView { siblings: s, ..v };
            if s.phase is Finished {
                w.at(KeyStage::DropAdopted { id, key })
            } else {
                w
            }
        },
        KeyStage::DropAdopted { key, .. } => v.at(KeyStage::SyncAdopted { key }),
        KeyStage::SyncAdopted { key } => release_then(v, AfterClaims::Healthy(key)),
        KeyStage::SupersedeAdopted { phase } => match supersede_next_spec(phase, reply) {
            SupersedeNext::Go(q) => v.at(KeyStage::SupersedeAdopted { phase: q }),
            SupersedeNext::End(_) => v.at(KeyStage::AdoptReload(boot_load_start(false, now))),
        },
        KeyStage::AdoptReload(b) => match boot_load_next_spec(b, reply, now) {
            BootLoadNext::Go(c) => v.at(KeyStage::AdoptReload(c)),
            BootLoadNext::Loaded(key) => release_then(v, AfterClaims::Healthy(key)),
            BootLoadNext::CrashSignature(e) => release_then(
                v,
                AfterClaims::Fail(KeyFailure::Load(e)),
            ),
            BootLoadNext::Failed(e) => release_then(v, AfterClaims::Fail(KeyFailure::Load(e))),
        },
        _ => v,
    }
}

/// Where the reply leads in the generation of a new key.
pub open spec fn generating_next(v: BootView, reply: Reply, now: u64) -> BootView {
    match v.stage {
        KeyStage::Generate => match reply {
            Reply::Key(key) => v.at(KeyStage::CreateParent { key }),
            _ => release_then(v, AfterClaims::Fail(KeyFailure::Generate(reply->Failed_0))),
        },
        KeyStage::CreateParent { key } => match reply {
            Reply::Failed(e) => release_then(v, AfterClaims::Fail(KeyFailure::CreateParent(e))),
            _ => v.at(KeyStage::Publish { key, publish: publish_start() }),
        },
        KeyStage::Publish { key, publish } => match publish_next_spec(publish, reply, now) {
            PublishNext::Go(q) => v.at(KeyStage::Publish { key, publish: q }),
            PublishNext::End(KeyPublish::Won) => release_then(v, AfterClaims::Healthy(key)),
            PublishNext::End(KeyPublish::Lost) => v.at(
                KeyStage::Load { load: boot_load_start(v.recovery_allowed, now), first: false },
            ),
            PublishNext::End(KeyPublish::Failed(why)) => release_then(
                v,
                AfterClaims::Fail(KeyFailure::Publish(why)),
            ),
        },
        _ => v,
    }
}

/// What the reply to the operation, received at `now`, leads to.
pub open spec fn boot_next(v: BootView, reply: Reply, now: u64) -> (BootView, Option<KeyEnd>) {
    match v.stage {
        KeyStage::CheckKey => if reply == Reply::Present(true) {
            (
                v.at(
                    KeyStage::Load { load: boot_load_start(v.recovery_allowed, now), first: true },
                ),
                None,
            )
        } else {
            (v.at(KeyStage::Scan), None)
        },
        KeyStage::Load { load, first } => (
            load_end(v, boot_load_next_spec(load, reply, now), first),
            None,
        ),
        KeyStage::Recover { first } => {
            let (r, end) = recover_next(v.recovery, reply, now);
            let w = BootView { recovery: r, ..v };
            match end {
                None => (w, None),
                Some(e) => recovery_end(w, e, first),
            }
        },
        KeyStage::Scan | KeyStage::TryAdopt { .. } | KeyStage::Adopt { .. }
        | KeyStage::AdoptSiblings { .. } | KeyStage::DropAdopted { .. }
        | KeyStage::SyncAdopted { .. } | KeyStage::SupersedeAdopted { .. }
        | KeyStage::AdoptReload(_) => (adopting_next(v, reply, now), None),
        KeyStage::Generate | KeyStage::CreateParent { .. } | KeyStage::Publish { .. } => (
            generating_next(v, reply, now),
            None,
        ),
        KeyStage::Release { next } => {
            let w = BootView { claims: Seq::empty(), ..v };
            match next {
                AfterClaims::Healthy(key) => (sweep_then_return(w, key), None),
                AfterClaims::Fail(why) => (
                    w.at(KeyStage::Finished),
                    Some(KeyEnd::Failed(why)),
                ),
            }
        },
        KeyStage::Sweep { key } => {
            let s = sweep_next_spec(v.sweep, reply);
            let w = BootView { sweep: s, ..v };
            if s.phase is Finished {
                (w.at(KeyStage::Finished), Some(KeyEnd::Key(key)))
            } else {
                (w, None)
            }
        },
        KeyStage::Finished => (v, None),
    }
}

/// Whether `v` is the beginning of a start.
pub open spec fn boot_start(v: BootView) -> bool {
    &&& v.wf()
    &&& v.stage is CheckKey
    &&& v.pass == 0
    &&& v.recovery_allowed
    &&& v.claims.len() == 0
    &&& v.queue.len() == 0
}

impl KeyBoot {
    /// Begins the start's way to the identity key.
    pub fn load_or_create_keypair() -> (r: Self)
        ensures
            boot_start(r@),
            r@.wf(),
    {
        KeyBoot {
            stage: KeyStage::CheckKey,
            pass: 0,
            recovery_allowed: true,
            claims: Vec::new(),
            queue: Vec::new(),
            recovery: CrashRecovery::idle(),
            siblings: SiblingSupersede::idle(),
            sweep: Sweep::idle(),
        }
    }

    /// The operation that the start waits for.
    pub fn op(&self) -> (r: KeyOp)
        requires
            self@.wf(),
        ensures
            boot_waits_for(self@, r),
    {
        match self.stage {
            KeyStage::CheckKey => KeyOp::Exists(FileRef::Final),
            KeyStage::Load { load, .. } => boot_load_op(load),
            KeyStage::Recover { .. } => self.recovery.op(),
            KeyStage::Scan => KeyOp::ListAdoptable,
            KeyStage::TryAdopt { at } => KeyOp::ReadKey(FileRef::Listed(self.queue[at])),
            KeyStage::Adopt { key, publish, .. } => publish_op(publish, key),
            KeyStage::AdoptSiblings { .. } => self.siblings.op(),
            KeyStage::DropAdopted { id, .. } => KeyOp::Remove(FileRef::Listed(id)),
            KeyStage::SyncAdopted { .. } => KeyOp::SyncDir,
            KeyStage::SupersedeAdopted { phase } => supersede_op(phase),
            KeyStage::AdoptReload(b) => boot_load_op(b),
            KeyStage::Generate => KeyOp::GenerateKey,
            KeyStage::CreateParent { .. } => KeyOp::CreateParent,
            KeyStage::Publish { key, publish } => publish_op(publish, key),
            KeyStage::Release { .. } => KeyOp::ReleaseClaims(copy_claims(&self.claims)),
            KeyStage::Sweep { .. } => self.sweep.op(),
            KeyStage::Finished => KeyOp::Pause(0),
        }
    }

    fn release_then(&mut self, next: AfterClaims)
        requires
            old(self)@.wf(),
        ensures
            final(self)@ == release_then(old(self)@, next),
            final(self)@.wf(),
    {
        self.stage = KeyStage::Release { next };
    }

    fn sweep_then_return(&mut self, key: u64)
        requires
            old(self)@.wf(),
        ensures
            final(self)@ == sweep_then_return(old(self)@, key),
            final(self)@.wf(),
    {
        self.stage = KeyStage::Sweep { key };
        self.sweep = Sweep::sweep_stale_markers();
    }

    fn adopt_at(&mut self, at: usize)
        requires
            old(self)@.recovery.wf(),
            old(self)@.siblings.wf(),
            old(self)@.queue.len() <= usize::MAX,
            old(self)@.pass <= 1,
            old(self)@.pass == 1 ==> !old(self)@.recovery_allowed,
        ensures
            final(self)@ == adopt_at(old(self)@, at as int),
            final(self)@.wf(),
    {
        if at < self.queue.len() {
            self.stage = KeyStage::TryAdopt { at };
        } else {
            self.stage = KeyStage::Generate;
        }
    }

    fn load_end(&mut self, next: BootLoadNext, first: bool)
        requires
            old(self)@.wf(),
            next matches BootLoadNext::Go(load) ==> load.crash_exit == old(self)@.recovery_allowed
                && (load.phase matches BootLoadPhase::Look(e) ==> load.crash_exit
                && content_error(e)),
            next matches BootLoadNext::CrashSignature(e) ==> old(self)@.recovery_allowed
                && content_error(e),
        ensures
            final(self)@ == load_end(old(self)@, next, first),
            final(self)@.wf(),
    {
        match next {
            BootLoadNext::Go(load) => {
                self.stage = KeyStage::Load { load, first };
            },
            BootLoadNext::Loaded(key) => {
                self.release_then(AfterClaims::Healthy(key));
            },
            BootLoadNext::CrashSignature(e) => {
                self.stage = KeyStage::Recover { first };
                self.recovery = CrashRecovery::recover_crashed_publish(e);
            },
            BootLoadNext::Failed(e) => {
                self.release_then(AfterClaims::Fail(KeyFailure::Load(e)));
            },
        }
    }

    fn fail(&mut self, why: KeyFailure, at_once: bool) -> (r: Option<KeyEnd>)
        requires
            old(self)@.recovery.wf(),
            old(self)@.siblings.wf(),
            old(self)@.queue.len() <= usize::MAX,
            old(self)@.pass <= 1,
            old(self)@.pass == 1 ==> !old(self)@.recovery_allowed,
        ensures
            (final(self)@, r) == failed(old(self)@, why, at_once),
            final(self)@.wf(),
    {
        if at_once {
            self.stage = KeyStage::Finished;
            Some(KeyEnd::Failed(why))
        } else {
            self.stage = KeyStage::Release { next: AfterClaims::Fail(why) };
            None
        }
    }

    fn recovery_end(&mut self, end: Recovery, first: bool) -> (r: Option<KeyEnd>)
        requires
            old(self)@.recovery.wf(),
            old(self)@.siblings.wf(),
            old(self)@.queue.len() <= usize::MAX,
            old(self)@.pass == 0,
        ensures
            (final(self)@, r) == recovery_end(old(self)@, end, first),
            final(self)@.wf(),
    {
        match end {
            Recovery::Claimed => {
                self.claims = copy_claims(&self.recovery.claims);
                self.recovery_allowed = false;
                if first {
                    self.stage = KeyStage::Scan;
                } else {
                    self.pass = self.pass + 1;
                    self.stage = KeyStage::CheckKey;
                }
                None
            },
            Recovery::Loaded(key) => {
                if first {
                    self.stage = KeyStage::Sweep { key };
                    self.sweep = Sweep::sweep_stale_markers();
                } else {
                    self.stage = KeyStage::Release { next: AfterClaims::Healthy(key) };
                }
                None
            },
            Recovery::NotLoaded(e) => self.fail(KeyFailure::Load(e), first),
            Recovery::Failed(why) => self.fail(KeyFailure::Recover(why), first),
        }
    }

    fn adopting(&mut self, reply: Reply, now: u64)
        requires
            old(self)@.wf(),
            boot_answer(old(self)@, reply),
            old(self)@.stage is Scan || old(self)@.stage is TryAdopt || old(self)@.stage is Adopt
                || old(self)@.stage is AdoptSiblings || old(self)@.stage is DropAdopted || old(
                self,
            )@.stage is SyncAdopted || old(self)@.stage is SupersedeAdopted || old(self)@.stage
                is AdoptReload,
        ensures
            final(self)@ == adopting_next(old(self)@, reply, now),
            final(self)@.wf(),
    {
        proof {
            listing_fits(reply);
        }
        match self.stage {
            KeyStage::Scan => {
                self.queue = reply.into_ids();
                self.adopt_at(0);
            },
            KeyStage::TryAdopt { at } => match reply {
                Reply::Key(key) => {
                    self.stage = KeyStage::Adopt {
                        id: self.queue[at],
                        key,
                        publish: publish_key_atomically(),
                    };
                },
                _ => {
                    self.adopt_at(at + 1);
                },
            },
            KeyStage::Adopt { id, key, publish } => {
                proof {
                    restore_answers(publish, key, reply);
                }
                match publish_next(publish, &reply, now) {
                    PublishNext::Go(q) => {
                        self.stage = KeyStage::Adopt { id, key, publish: q };
                    },
                    PublishNext::End(KeyPublish::Won) => {
                        self.stage = KeyStage::AdoptSiblings { id, key };
                        self.siblings = SiblingSupersede::supersede_sibling_quarantines(
                            FileRef::Listed(id),
                        );
                    },
                    PublishNext::End(KeyPublish::Lost) => {
                        self.stage = KeyStage::SupersedeAdopted {
                            phase: supersede_quarantine(FileRef::Listed(id)),
                        };
                    },
                    PublishNext::End(KeyPublish::Failed(why)) => {
                        self.release_then(AfterClaims::Fail(KeyFailure::Adopt { id, why }));
                    },
                }
            },
            KeyStage::AdoptSiblings { id, key } => {
                self.siblings.step(reply);
                match self.siblings.phase {
                    SiblingPhase::Finished => {
                        self.stage = KeyStage::DropAdopted { id, key };
                    },
                    _ => {},
                }
            },
            KeyStage::DropAdopted { key, .. } => {
                self.stage = KeyStage::SyncAdopted { key };
            },
            KeyStage::SyncAdopted { key } => {
                self.release_then(AfterClaims::Healthy(key));
            },
            KeyStage::SupersedeAdopted { phase } => match supersede_next(phase, &reply) {
                SupersedeNext::Go(q) => {
                    self.stage = KeyStage::SupersedeAdopted { phase: q };
                },
                SupersedeNext::End(_) => {
                    self.stage = KeyStage::AdoptReload(load_racing_key(now));
                },
            },
            KeyStage::AdoptReload(b) => match boot_load_next(b, &reply, now) {
                BootLoadNext::Go(c) => {
                    self.stage = KeyStage::AdoptReload(c);
                },
                BootLoadNext::Loaded(key) => {
                    self.release_then(AfterClaims::Healthy(key));
                },
                BootLoadNext::CrashSignature(e) => {
                    self.release_then(AfterClaims::Fail(KeyFailure::Load(e)));
                },
                BootLoadNext::Failed(e) => {
                    self.release_then(AfterClaims::Fail(KeyFailure::Load(e)));
                },
            },
            _ => {},
        }
    }

    fn generating(&mut self, reply: Reply, now: u64)
        requires
            old(self)@.wf(),
            boot_answer(old(self)@, reply),
            old(self)@.stage is Generate || old(self)@.stage is CreateParent || old(self)@.stage
                is Publish,
        ensures
            final(self)@ == generating_next(old(self)@, reply, now),
            final(self)@.wf(),
    {
        match self.stage {
            KeyStage::Generate => match reply {
                Reply::Key(key) => {
                    self.stage = KeyStage::CreateParent { key };
                },
                Reply::Failed(e) => {
                    self.release_then(AfterClaims::Fail(KeyFailure::Generate(e)));
                },
                _ => {},
            },
            KeyStage::CreateParent { key } => match reply.error() {
                Some(e) => {
                    self.release_then(AfterClaims::Fail(KeyFailure::CreateParent(e)));
                },
                None => {
                    self.stage = KeyStage::Publish { key, publish: publish_key_atomically() };
                },
            },
            KeyStage::Publish { key, publish } => {
                proof {
                    restore_answers(publish, key, reply);
                }
                match publish_next(publish, &reply, now) {
                    PublishNext::Go(q) => {
                        self.stage = KeyStage::Publish { key, publish: q };
                    },
                    PublishNext::End(KeyPublish::Won) => {
                        self.release_then(AfterClaims::Healthy(key));
                    },
                    PublishNext::End(KeyPublish::Lost) => {
                        self.stage = KeyStage::Load {
                            load: boot_load_key(self.recovery_allowed, now),
                            first: false,
                        };
                    },
                    PublishNext::End(KeyPublish::Failed(why)) => {
                        self.release_then(AfterClaims::Fail(KeyFailure::Publish(why)));
                    },
                }
            },
            _ => {},
        }
    }

    /// Takes the reply to the operation; the outcome, once there is one.
    pub fn step(&mut self, reply: Reply, now: u64) -> (r: Option<KeyEnd>)
        requires
            old(self)@.wf(),
            boot_answer(old(self)@, reply),
        ensures
            (final(self)@, r) == boot_next(old(self)@, reply, now),
            final(self)@.wf(),
    {
        match self.stage {
            KeyStage::CheckKey => {
                if reply.present() {
                    self.stage = KeyStage::Load {
                        load: boot_load_key(self.recovery_allowed, now),
                        first: true,
                    };
                } else {
                    self.stage = KeyStage::Scan;
                }
                None
            },
            KeyStage::Load { load, first } => {
                let next = boot_load_next(load, &reply, now);
                self.load_end(next, first);
                None
            },
            KeyStage::Recover { first } => match self.recovery.step(reply, now) {
                None => None,
                Some(end) => self.recovery_end(end, first),
            },
            KeyStage::Scan | KeyStage::TryAdopt { .. } | KeyStage::Adopt { .. }
            | KeyStage::AdoptSiblings { .. } | KeyStage::DropAdopted { .. }
            | KeyStage::SyncAdopted { .. } | KeyStage::SupersedeAdopted { .. }
            | KeyStage::AdoptReload(_) => {
                self.adopting(reply, now);
                None
            },
            KeyStage::Generate | KeyStage::CreateParent { .. } | KeyStage::Publish { .. } => {
                self.generating(reply, now);
                None
            },
            KeyStage::Release { next } => {
                self.claims = Vec::new();
                match next {
                    AfterClaims::Healthy(key) => {
                        self.sweep_then_return(key);
                        None
                    },
                    AfterClaims::Fail(why) => {
                        self.stage = KeyStage::Finished;
                        Some(KeyEnd::Failed(why))
                    },
                }
            },
            KeyStage::Sweep { key } => {
                self.sweep.step(reply);
                match self.sweep.phase {
                    SweepPhase::Finished => {
                        self.stage = KeyStage::Finished;
                        Some(KeyEnd::Key(key))
                    },
                    _ => None,
                }
            },
            KeyStage::Finished => None,
        }
    }
}

/// A run of a start: the replies, with the times at which they came.
pub type BootEvents = Seq<(Reply, u64)>;

/// Where a run from `start` has led: the start, and its outcome once there is
/// one.
pub open spec fn boot_after(start: BootView, events: BootEvents) -> (BootView, Option<KeyEnd>)
    decreases events.len(),
{
    if events.len() == 0 {
        (start, None)
    } else {
        let before = boot_after(start, events.drop_last());
        if before.1 is Some {
            before
        } else {
            boot_next(before.0, events.last().0, events.last().1)
        }
    }
}

/// Whether every reply of a run answers an operation that was waited for.
pub open spec fn boot_run(start: BootView, events: BootEvents) -> bool
    decreases events.len(),
{
    events.len() > 0 ==> {
        &&& boot_run(start, events.drop_last())
        &&& boot_after(start, events.drop_last()).1 is None
        &&& boot_answer(boot_after(start, events.drop_last()).0, events.last().0)
    }
}

/// The stage of a run before its event `at`.
pub open spec fn boot_stage(start: BootView, events: BootEvents, at: int) -> KeyStage {
    boot_after(start, events.take(at)).0.stage
}

/// The recovery claims that a start holds.
pub open spec fn held_claims(v: BootView) -> Seq<u32> {
    if v.stage is Recover { v.recovery.claims } else { v.claims }
}

/// What every stage of a start knows.
pub open spec fn boot_knows(v: BootView, end: Option<KeyEnd>) -> bool {
    &&& v.wf()
    &&& v.stage is Finished <==> end is Some
    &&& v.recovery_allowed ==> v.claims.len() == 0
    &&& v.stage is Recover ==> claims_fit_stage(v.recovery)
    &&& v.stage is Sweep || v.stage is Finished ==> v.claims.len() == 0
}

proof fn load_step_keeps_crash_exit(b: BootLoad, reply: Reply, now: u64)
    requires
        answers(boot_load_op_spec(b), reply),
        b.phase matches BootLoadPhase::Look(e) ==> b.crash_exit && content_error(e),
    ensures
        boot_load_next_spec(b, reply, now) matches BootLoadNext::Go(c) ==> c.crash_exit
            == b.crash_exit && (c.phase matches BootLoadPhase::Look(e) ==> c.crash_exit
            && content_error(e)),
        boot_load_next_spec(b, reply, now) matches BootLoadNext::CrashSignature(e) ==> b.crash_exit
            && content_error(e),
{
}

pub(crate) proof fn boot_step_knows(v: BootView, reply: Reply, now: u64)
    requires
        boot_knows(v, None),
        boot_answer(v, reply),
    ensures
        boot_knows(boot_next(v, reply, now).0, boot_next(v, reply, now).1),
{
    listing_fits(reply);
    match v.stage {
        KeyStage::Load { load, .. } => {
            load_step_keeps_crash_exit(load, reply, now);
        },
        KeyStage::Recover { .. } => {
            claims_fit_next_stage(v.recovery, reply, now);
            recovery_keeps_wf(v.recovery, reply, now);
        },
        KeyStage::AdoptSiblings { .. } => {
            siblings_keep_wf(v.siblings, reply);
        },
        _ => {},
    }
}

proof fn boot_run_knows(start: BootView, events: BootEvents)
    requires
        boot_start(start),
        boot_run(start, events),
    ensures
        boot_knows(boot_after(start, events).0, boot_after(start, events).1),
    decreases events.len(),
{
    if events.len() > 0 {
        boot_run_knows(start, events.drop_last());
        boot_step_knows(
            boot_after(start, events.drop_last()).0,
            events.last().0,
            events.last().1,
        );
    }
}

/// A start that ends, in whatever way, holds no recovery claims.
pub proof fn claims_never_outlive_the_start(start: BootView, events: BootEvents)
    requires
        boot_start(start),
        boot_run(start, events),
        boot_after(start, events).1 is Some,
    ensures
        held_claims(boot_after(start, events).0).len() == 0,
{
    boot_run_knows(start, events);
}

/// Claims that a start holds go only by their release: no other operation
/// changes them once they are held by the start.
pub proof fn claims_go_only_by_their_release(
    start: BootView,
    events: BootEvents,
    reply: Reply,
    now: u64,
)
    requires
        boot_start(start),
        boot_run(start, events.push((reply, now))),
        !(boot_after(start, events).0.stage is Recover),
        held_claims(boot_after(start, events).0).len() > 0,
        held_claims(boot_after(start, events.push((reply, now))).0) != held_claims(
            boot_after(start, events).0,
        ),
    ensures
        boot_after(start, events).0.stage is Release,
{
    let longer = events.push((reply, now));
    assert(longer.drop_last() =~= events);
    boot_run_knows(start, events);
    let v = boot_after(start, events).0;
    if let KeyStage::Load { load, .. } = v.stage {
        load_step_keeps_crash_exit(load, reply, now);
    }
}

/// A start makes at most two passes, and recovers only where the content of the
/// key was at fault and no recovery was made before.
pub proof fn passes_and_recoveries_are_bounded(start: BootView, events: BootEvents)
    requires
        boot_start(start),
        boot_run(start, events),
    ensures
        boot_after(start, events).0.pass <= 1,
        boot_after(start, events).0.stage is Recover ==> boot_after(start, events).0.pass == 0
            && boot_after(start, events).0.recovery_allowed && content_error(
            boot_after(start, events).0.recovery.load_error,
        ),
{
    boot_run_knows(start, events);
}

spec fn no_recovery_ahead(v: BootView) -> bool {
    &&& !(v.stage is Recover)
    &&& !v.recovery_allowed || v.stage is Release || v.stage is Sweep || v.stage is Finished
}

proof fn leaving_the_recovery(v: BootView, reply: Reply, now: u64)
    requires
        v.stage is Recover,
        !(boot_next(v, reply, now).0.stage is Recover),
    ensures
        no_recovery_ahead(boot_next(v, reply, now).0),
{
}

proof fn recovery_does_not_come_back(start: BootView, events: BootEvents, i: int)
    requires
        boot_start(start),
        boot_run(start, events),
        0 <= i <= events.len(),
        no_recovery_ahead(boot_after(start, events.take(i)).0),
    ensures
        no_recovery_ahead(boot_after(start, events).0),
    decreases events.len(),
{
    if i == events.len() {
        assert(events.take(i) =~= events);
    } else {
        let shorter = events.drop_last();
        assert(shorter.take(i) =~= events.take(i));
        recovery_does_not_come_back(start, shorter, i);
        boot_run_knows(start, shorter);
        let v = boot_after(start, shorter).0;
        if let KeyStage::Load { load, .. } = v.stage {
            load_step_keeps_crash_exit(load, events.last().0, events.last().1);
        }
    }
}

proof fn prefixes_are_runs(start: BootView, events: BootEvents, i: int)
    requires
        boot_run(start, events),
        0 <= i <= events.len(),
    ensures
        boot_run(start, events.take(i)),
    decreases events.len(),
{
    if i == events.len() {
        assert(events.take(i) =~= events);
    } else {
        assert(events.drop_last().take(i) =~= events.take(i));
        prefixes_are_runs(start, events.drop_last(), i);
    }
}

proof fn nothing_ahead_after_leaving(start: BootView, events: BootEvents)
    requires
        boot_start(start),
        boot_run(start, events),
        events.len() > 0,
        boot_after(start, events.drop_last()).0.stage is Recover,
        !(boot_after(start, events).0.stage is Recover),
    ensures
        no_recovery_ahead(boot_after(start, events).0),
{
    boot_run_knows(start, events.drop_last());
    leaving_the_recovery(
        boot_after(start, events.drop_last()).0,
        events.last().0,
        events.last().1,
    );
}

#[verifier::opaque]
spec fn recovers_at(start: BootView, events: BootEvents, n: int) -> bool {
    boot_stage(start, events, n) is Recover
}

#[verifier::opaque]
spec fn nothing_ahead_at(start: BootView, events: BootEvents, n: int) -> bool {
    no_recovery_ahead(boot_after(start, events.take(n)).0)
}

proof fn leaving_at(start: BootView, events: BootEvents, j: int)
    requires
        boot_start(start),
        boot_run(start, events),
        0 < j <= events.len(),
        recovers_at(start, events, j - 1),
        !recovers_at(start, events, j),
    ensures
        nothing_ahead_at(start, events, j),
{
    reveal(recovers_at);
    reveal(nothing_ahead_at);
    assert(events.take(j).drop_last() =~= events.take(j - 1));
    prefixes_are_runs(start, events, j);
    nothing_ahead_after_leaving(start, events.take(j));
}

proof fn none_later(start: BootView, events: BootEvents, j: int, k: int)
    requires
        boot_start(start),
        boot_run(start, events),
        0 <= j <= k <= events.len(),
        nothing_ahead_at(start, events, j),
    ensures
        !recovers_at(start, events, k),
{
    reveal(recovers_at);
    reveal(nothing_ahead_at);
    prefixes_are_runs(start, events, k);
    assert(events.take(k).take(j) =~= events.take(j));
    recovery_does_not_come_back(start, events.take(k), j);
}

proof fn no_gap(start: BootView, events: BootEvents, i: int, j: int, k: int)
    requires
        boot_start(start),
        boot_run(start, events),
        0 <= i <= j <= k <= events.len(),
        recovers_at(start, events, i),
        recovers_at(start, events, k),
    ensures
        recovers_at(start, events, j),
    decreases j - i,
{
    if j > i {
        no_gap(start, events, i, j - 1, k);
        if !recovers_at(start, events, j) {
            leaving_at(start, events, j);
            none_later(start, events, j, k);
        }
    }
}

/// A start recovers at most once: the stages at which a run recovers follow
/// each other without a gap.
pub proof fn recovery_runs_at_most_once(
    start: BootView,
    events: BootEvents,
    i: int,
    j: int,
    k: int,
)
    requires
        boot_start(start),
        boot_run(start, events),
        0 <= i <= j <= k <= events.len(),
        boot_stage(start, events, i) is Recover,
        boot_stage(start, events, k) is Recover,
    ensures
        boot_stage(start, events, j) is Recover,
{
    reveal(recovers_at);
    no_gap(start, events, i, j, k);
}

/// Every start that returns a key has swept before it: the key comes out of a
/// sweep, and every sweep was begun from its beginning.
pub proof fn healthy_starts_have_swept(v: BootView, reply: Reply, now: u64)
    requires
        v.wf(),
        boot_answer(v, reply),
    ensures
        boot_next(v, reply, now).1 matches Some(KeyEnd::Key(key)) ==> v.stage == (KeyStage::Sweep {
            key,
        }),
        boot_next(v, reply, now).0.stage is Sweep && !(v.stage is Sweep) ==> boot_next(
            v,
            reply,
            now,
        ).0.sweep == sweep_start(),
{
}

/// The key that a stage of a start is about, where it has one.
pub open spec fn key_in_hand(stage: KeyStage) -> Option<u64> {
    match stage {
        KeyStage::Adopt { key, .. } => Some(key),
        KeyStage::AdoptSiblings { key, .. } => Some(key),
        KeyStage::DropAdopted { key, .. } => Some(key),
        KeyStage::SyncAdopted { key } => Some(key),
        KeyStage::CreateParent { key } => Some(key),
        KeyStage::Publish { key, .. } => Some(key),
        KeyStage::Release { next: AfterClaims::Healthy(key) } => Some(key),
        KeyStage::Sweep { key } => Some(key),
        _ => None,
    }
}

/// Whether the key was read or generated in the run.
pub open spec fn came_up(events: BootEvents, key: u64) -> bool {
    exists|i: int| 0 <= i < events.len() && #[trigger] events[i].0 == Reply::Key(key)
}

proof fn keys_of_a_step(v: BootView, reply: Reply, now: u64)
    requires
        boot_answer(v, reply),
    ensures
        ({
            let (w, end) = boot_next(v, reply, now);
            let held = if v.stage is Recover {
                key_of_recovery(v.recovery.stage)
            } else {
                key_in_hand(v.stage)
            };
            &&& key_in_hand(w.stage) matches Some(key) ==> held == Some(key) || reply == Reply::Key(
                key,
            )
            &&& end matches Some(KeyEnd::Key(key)) ==> held == Some(key)
            &&& w.stage is Recover ==> (key_of_recovery(w.recovery.stage) matches Some(key) ==> held
                == Some(key) || reply == Reply::Key(key))
        }),
{
    if v.stage is Recover {
        recovery_keys_come_up(v.recovery, reply, now);
    }
}

proof fn keys_in_hand_came_up(start: BootView, events: BootEvents)
    requires
        boot_start(start),
        boot_run(start, events),
    ensures
        key_in_hand(boot_after(start, events).0.stage) matches Some(key) ==> came_up(events, key),
        boot_after(start, events).1 matches Some(KeyEnd::Key(key)) ==> came_up(events, key),
        boot_after(start, events).0.stage is Recover ==> (key_of_recovery(
            boot_after(start, events).0.recovery.stage,
        ) matches Some(key) ==> came_up(events, key)),
    decreases events.len(),
{
    if events.len() > 0 {
        let shorter = events.drop_last();
        keys_in_hand_came_up(start, shorter);
        boot_run_knows(start, shorter);
        let (v, _) = boot_after(start, shorter);
        let reply = events.last().0;
        assert(events[events.len() - 1].0 == reply);
        assert forall|key: u64| came_up(shorter, key) implies came_up(events, key) by {
            let i = choose|i: int| 0 <= i < shorter.len() && #[trigger] shorter[i].0 == Reply::Key(
                key,
            );
            assert(events[i].0 == Reply::Key(key));
        }
        keys_of_a_step(v, reply, events.last().1);
    }
}

/// The key that a start returns is one that it has read or generated.
pub proof fn the_key_was_read_or_generated(start: BootView, events: BootEvents, key: u64)
    requires
        boot_start(start),
        boot_run(start, events),
        boot_after(start, events).1 == Some(KeyEnd::Key(key)),
    ensures
        came_up(events, key),
{
    keys_in_hand_came_up(start, events);
}

/// Whether the run looked into the quarantined key at place `k`, and found no
/// key.
pub open spec fn looked_in_vain(start: BootView, events: BootEvents, k: int) -> bool {
    exists|i: int|
        0 <= i < events.len() && (#[trigger] boot_stage(start, events, i) matches
            KeyStage::TryAdopt { at } && at == k) && !(events[i].0 is Key)
}

proof fn looked_so_far(start: BootView, events: BootEvents, k: int)
    requires
        boot_start(start),
        boot_run(start, events),
        0 <= k,
        ({
            let v = boot_after(start, events).0;
            ||| v.stage matches KeyStage::TryAdopt { at } && k < at
            ||| v.stage is Generate && k < v.queue.len()
        }),
    ensures
        looked_in_vain(start, events, k),
    decreases events.len(),
{
    if events.len() > 0 {
        let shorter = events.drop_last();
        let last = events.len() - 1;
        assert(events.take(last) =~= shorter);
        let v = boot_after(start, shorter).0;
        boot_run_knows(start, shorter);
        if v.stage matches KeyStage::TryAdopt { at } && at == k {
            assert(boot_stage(start, events, last) == v.stage);
        } else {
            looked_so_far(start, shorter, k);
            let i = choose|i: int|
                0 <= i < shorter.len() && (#[trigger] boot_stage(start, shorter, i) matches
                    KeyStage::TryAdopt { at } && at == k) && !(shorter[i].0 is Key);
            assert(shorter.take(i) =~= events.take(i));
            assert(boot_stage(start, events, i) == boot_stage(start, shorter, i));
            assert(events[i] == shorter[i]);
        }
    }
}

/// No new identity is made while a stranded one can be adopted: a key is
/// generated only after every young quarantined key that was listed has been
/// looked into in vain.
pub proof fn generation_follows_the_scan(start: BootView, events: BootEvents, k: int)
    requires
        boot_start(start),
        boot_run(start, events),
        boot_after(start, events).0.stage is Generate,
        0 <= k < boot_after(start, events).0.queue.len(),
    ensures
        looked_in_vain(start, events, k),
{
    looked_so_far(start, events, k);
}

/// An adopted key: its siblings leave the adoptable class before the
/// quarantine is removed.
pub proof fn siblings_go_before_the_adopted(v: BootView, reply: Reply, now: u64)
    requires
        v.wf(),
        boot_answer(v, reply),
        boot_next(v, reply, now).0.stage is DropAdopted,
    ensures
        v.stage is AdoptSiblings,
        boot_next(v, reply, now).0.siblings.phase is Finished,
{
}

/// A stranded key whose adoption was lost leaves the adoptable class.
pub proof fn lost_adoptions_are_superseded(v: BootView, reply: Reply, now: u64, id: u64)
    requires
        v.stage matches KeyStage::Adopt { id: i, key, publish } && i == id && publish_next_spec(
            publish,
            reply,
            now,
        ) == PublishNext::End(KeyPublish::Lost),
    ensures
        boot_next(v, reply, now).0.stage == (KeyStage::SupersedeAdopted {
            phase: SupersedePhase::Probe { file: FileRef::Listed(id), n: 0 },
        }),
{
}

/// What led to each stage of a start, and to each of its ends. The key is looked
/// for, and loaded where it is there; else the quarantined keys are tried, in order,
/// and behind the last one a new key is generated, its directory made, and it is
/// published. A crash that the attempts told is recovered from. A key that was
/// claimed away is made anew; where a publish was lost before, by another pass. A
/// lost publish loads the key of the winner. The claims are released before the
/// sweep, and the sweep comes before the key is returned.
pub proof fn what_leads_through_a_start(v: BootView, reply: Reply, now: u64)
    requires
        v.wf(),
        boot_answer(v, reply),
        !(v.stage is Finished),
    ensures
        ({
            let (w, end) = boot_next(v, reply, now);
            let loading = match v.stage {
                KeyStage::Load { load, .. } => Some(boot_load_next_spec(load, reply, now)),
                _ => None,
            };
            let first = match v.stage {
                KeyStage::Load { first, .. } => first,
                KeyStage::Recover { first } => first,
                _ => true,
            };
            let recovered = match v.stage {
                KeyStage::Recover { .. } => recover_next(v.recovery, reply, now).1,
                _ => None,
            };
            let published = match v.stage {
                KeyStage::Publish { publish, .. } => Some(publish_next_spec(publish, reply, now)),
                _ => None,
            };
            let adopted = match v.stage {
                KeyStage::Adopt { publish, .. } => Some(publish_next_spec(publish, reply, now)),
                _ => None,
            };
            match w.stage {
                KeyStage::CheckKey => recovered == Some(Recovery::Claimed) && !first && w.pass
                    == v.pass + 1,
                KeyStage::Load { load, first: f } => {
                    ||| v.stage is CheckKey && reply == Reply::Present(true) && f && load
                        == boot_load_start(v.recovery_allowed, now)
                    ||| published == Some(PublishNext::End(KeyPublish::Lost)) && !f && load
                        == boot_load_start(v.recovery_allowed, now)
                    ||| loading == Some(BootLoadNext::Go(load)) && f == first
                },
                KeyStage::Recover { first: f } => f == first && ((v.stage is Recover && recovered
                    is None && w.recovery == recover_next(v.recovery, reply, now).0) || (loading
                    matches Some(BootLoadNext::CrashSignature(e)) && w.recovery == recover_start(
                    e,
                ))),
                KeyStage::Scan => (v.stage is CheckKey && reply == Reply::Present(false)) || (
                recovered == Some(Recovery::Claimed) && first),
                KeyStage::TryAdopt { at } => at < w.queue.len() && ((v.stage is Scan && at == 0
                    && w.queue == listed(reply)) || (at > 0 && v.stage == (KeyStage::TryAdopt {
                    at: (at - 1) as usize,
                }) && !(reply is Key) && w.queue == v.queue)),
                KeyStage::Generate => (v.stage is Scan && listed(reply).len() == 0) || (v.stage
                    matches KeyStage::TryAdopt { at } && at + 1 >= v.queue.len() && !(reply
                    is Key)),
                KeyStage::Adopt { id, key, publish } => {
                    ||| publish == (PublishPhase::CreateTemp { n: 0 }) && reply == Reply::Key(key)
                        && (v.stage matches KeyStage::TryAdopt { at } && id == v.queue[at as int])
                    ||| adopted == Some(PublishNext::Go(publish)) && (v.stage
                        matches KeyStage::Adopt { id: i, key: k, .. } && i == id && k == key)
                },
                KeyStage::AdoptSiblings { id, key } => {
                    ||| adopted == Some(PublishNext::End(KeyPublish::Won)) && w.siblings.phase == (
                    SiblingPhase::List { kept: FileRef::Listed(id) }) && (v.stage
                        matches KeyStage::Adopt { id: i, key: k, .. } && i == id && k == key)
                    ||| v.stage == (KeyStage::AdoptSiblings { id, key }) && w.siblings
                        == sibling_next_spec(v.siblings, reply) && !(w.siblings.phase is Finished)
                },
                KeyStage::DropAdopted { id, key } => v.stage == (KeyStage::AdoptSiblings {
                    id,
                    key,
                }) && sibling_next_spec(v.siblings, reply).phase is Finished,
                KeyStage::SyncAdopted { key } => v.stage matches KeyStage::DropAdopted {
                    key: k,
                    ..
                } && k == key,
                KeyStage::SupersedeAdopted { phase } => {
                    ||| adopted == Some(PublishNext::End(KeyPublish::Lost)) && (v.stage
                        matches KeyStage::Adopt { id, .. } && phase == (SupersedePhase::Probe {
                        file: FileRef::Listed(id),
                        n: 0,
                    }))
                    ||| v.stage matches KeyStage::SupersedeAdopted { phase: p }
                        && supersede_next_spec(p, reply) == SupersedeNext::Go(phase)
                },
                KeyStage::AdoptReload(b) => {
                    ||| b == boot_load_start(false, now) && (v.stage
                        matches KeyStage::SupersedeAdopted { phase } && supersede_next_spec(
                        phase,
                        reply,
                    ) is End)
                    ||| v.stage matches KeyStage::AdoptReload(c) && boot_load_next_spec(
                        c,
                        reply,
                        now,
                    ) == BootLoadNext::Go(b)
                },
                KeyStage::CreateParent { key } => v.stage is Generate && reply == Reply::Key(key),
                KeyStage::Publish { key, publish } => {
                    ||| v.stage == (KeyStage::CreateParent { key }) && !(reply is Failed) && publish
                        == (PublishPhase::CreateTemp { n: 0 })
                    ||| published == Some(PublishNext::Go(publish)) && (v.stage
                        matches KeyStage::Publish { key: k, .. } && k == key)
                },
                KeyStage::Release { .. } => true,
                KeyStage::Sweep { key } => {
                    ||| v.stage == (KeyStage::Release { next: AfterClaims::Healthy(key) })
                        && w.sweep.phase is SyncKey
                    ||| recovered == Some(Recovery::Loaded(key)) && first && w.sweep.phase
                        is SyncKey
                    ||| v.stage == (KeyStage::Sweep { key }) && w.sweep == sweep_next_spec(
                        v.sweep,
                        reply,
                    ) && !(w.sweep.phase is Finished)
                },
                KeyStage::Finished => match end {
                    Some(KeyEnd::Key(key)) => v.stage == (KeyStage::Sweep { key })
                        && sweep_next_spec(v.sweep, reply).phase is Finished,
                    Some(KeyEnd::Failed(why)) => {
                        ||| v.stage == (KeyStage::Release { next: AfterClaims::Fail(why) })
                        ||| first && (recovered matches Some(Recovery::NotLoaded(e)) && why
                            == KeyFailure::Load(e))
                        ||| first && (recovered matches Some(Recovery::Failed(r)) && why
                            == KeyFailure::Recover(r))
                    },
                    None => false,
                },
            }
        }),
{
    boot_answers_fit(v, reply);
}

/// What led to the release of the claims: a key in hand, or a failure, each with
/// where it came from.
pub proof fn what_leads_to_the_release(v: BootView, reply: Reply, now: u64)
    requires
        v.wf(),
        boot_answer(v, reply),
        !(v.stage is Finished),
    ensures
        ({
            let (w, end) = boot_next(v, reply, now);
            let recovered = match v.stage {
                KeyStage::Recover { .. } => recover_next(v.recovery, reply, now).1,
                _ => None,
            };
            w.stage matches KeyStage::Release { next } ==> match next {
                AfterClaims::Healthy(key) => match v.stage {
                    KeyStage::Load { load, .. } => boot_load_next_spec(load, reply, now)
                        == BootLoadNext::Loaded(key),
                    KeyStage::AdoptReload(load) => boot_load_next_spec(load, reply, now)
                        == BootLoadNext::Loaded(key),
                    KeyStage::Recover { first } => !first && recovered == Some(
                        Recovery::Loaded(key),
                    ),
                    KeyStage::SyncAdopted { key: k } => k == key,
                    KeyStage::Publish { key: k, publish } => k == key && publish_next_spec(
                        publish,
                        reply,
                        now,
                    ) == PublishNext::End(KeyPublish::Won),
                    _ => false,
                },
                AfterClaims::Fail(KeyFailure::Load(e)) => match v.stage {
                    KeyStage::Load { load, .. } => boot_load_next_spec(load, reply, now)
                        == BootLoadNext::Failed(e),
                    KeyStage::AdoptReload(load) => boot_load_next_spec(load, reply, now)
                        == BootLoadNext::Failed(e) || boot_load_next_spec(load, reply, now)
                        == BootLoadNext::CrashSignature(e),
                    KeyStage::Recover { first } => !first && recovered == Some(
                        Recovery::NotLoaded(e),
                    ),
                    _ => false,
                },
                AfterClaims::Fail(KeyFailure::Recover(r)) => recovered == Some(Recovery::Failed(r))
                    && v.stage == (KeyStage::Recover { first: false }),
                AfterClaims::Fail(KeyFailure::Adopt { id, why }) => v.stage
                    matches KeyStage::Adopt { id: i, publish, .. } && i == id && publish_next_spec(
                    publish,
                    reply,
                    now,
                ) == PublishNext::End(KeyPublish::Failed(why)),
                AfterClaims::Fail(KeyFailure::Generate(e)) => v.stage is Generate && reply
                    == Reply::Failed(e),
                AfterClaims::Fail(KeyFailure::CreateParent(e)) => v.stage is CreateParent && reply
                    == Reply::Failed(e),
                AfterClaims::Fail(KeyFailure::Publish(why)) => v.stage
                    matches KeyStage::Publish { publish, .. } && publish_next_spec(
                    publish,
                    reply,
                    now,
                ) == PublishNext::End(KeyPublish::Failed(why)),
            }
        }),
{
    boot_answers_fit(v, reply);
}

/// What a step leaves as it is: the pass, unless a recovery that follows a lost
/// publish has claimed the round; the claims, unless a recovery hands them over or
/// they are released; and the leave to recover, which only such a recovery takes.
pub proof fn what_a_step_of_a_start_keeps(v: BootView, reply: Reply, now: u64)
    requires
        v.wf(),
        boot_answer(v, reply),
        !(v.stage is Finished),
    ensures
        ({
            let (w, end) = boot_next(v, reply, now);
            let claimed = v.stage is Recover && recover_next(v.recovery, reply, now).1 == Some(
                Recovery::Claimed,
            );
            &&& w.pass == (if claimed && v.stage == (KeyStage::Recover { first: false }) {
                v.pass + 1
            } else {
                v.pass as int
            })
            &&& w.recovery_allowed <==> v.recovery_allowed && !claimed
            &&& w.claims == (if claimed {
                recover_next(v.recovery, reply, now).0.claims
            } else if v.stage is Release {
                Seq::empty()
            } else {
                v.claims
            })
            &&& w.stage is Finished <==> end is Some
        }),
{
}

/// The replies that a start can be given are of the kind that its operation has.
proof fn boot_answers_fit(v: BootView, reply: Reply)
    requires
        boot_answer(v, reply),
    ensures
        v.stage is CheckKey ==> reply is Present,
        v.stage is TryAdopt ==> reply is Key || reply is BadKey || reply is Failed,
        v.stage matches KeyStage::Adopt { key, publish, .. } ==> answers(
            publish_op_spec(publish, key),
            reply,
        ),
        v.stage matches KeyStage::Publish { key, publish } ==> answers(
            publish_op_spec(publish, key),
            reply,
        ),
{
    if !(v.stage is Recover || v.stage is Sweep || v.stage is Release || v.stage is Scan || v.stage
        is Generate || v.stage is CreateParent || v.stage is SyncAdopted) {
        let op = choose|op: KeyOp| #[trigger] boot_waits_for(v, op) && answers(op, reply);
        assert(boot_waits_for(v, op) && answers(op, reply));
    }
}

/// What a start waits for: it asks for the identity key, lists what may be adopted,
/// reads what it stands at, generates a key and makes its directory, removes what
/// it adopted, and releases the claims it holds.
pub proof fn what_a_start_waits_for(v: BootView, op: KeyOp)
    requires
        boot_waits_for(v, op),
    ensures
        v.stage is CheckKey ==> op == KeyOp::Exists(FileRef::Final),
        v.stage is Scan ==> op is ListAdoptable,
        v.stage matches KeyStage::TryAdopt { at } ==> op == KeyOp::ReadKey(
            FileRef::Listed(v.queue[at as int]),
        ),
        v.stage matches KeyStage::DropAdopted { id, .. } ==> op == KeyOp::Remove(
            FileRef::Listed(id),
        ),
        v.stage is SyncAdopted ==> op is SyncDir,
        v.stage is Generate ==> op is GenerateKey,
        v.stage is CreateParent ==> op is CreateParent,
        v.stage is Release ==> (op matches KeyOp::ReleaseClaims(c) && c@ == v.claims),
        v.stage matches KeyStage::Load { load, .. } ==> op == boot_load_op_spec(load),
        v.stage matches KeyStage::AdoptReload(load) ==> op == boot_load_op_spec(load),
        v.stage is Recover ==> recover_waits_for(v.recovery, op),
        v.stage matches KeyStage::Adopt { key, publish, .. } ==> op == publish_op_spec(
            publish,
            key,
        ),
        v.stage matches KeyStage::Publish { key, publish } ==> op == publish_op_spec(publish, key),
        v.stage is AdoptSiblings ==> op == sibling_op_spec(v.siblings),
        v.stage matches KeyStage::SupersedeAdopted { phase } ==> op == supersede_op_spec(phase),
        v.stage is Sweep ==> sweep_waits_for(v.sweep, op),
{
}

} // verus!
