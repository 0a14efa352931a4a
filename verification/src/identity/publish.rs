//! Publishing a key: how the bytes of a new key reach the identity key's name.
//!
//! The key is written to a temporary file, made durable, and linked to its
//! final name, which either shows the whole key or fails because the name is
//! taken. Where the file system cannot link, the final file is created
//! directly. Then the window in which it is incomplete is bracketed by a marker
//! file: the marker is made first and goes last, so that a crash in between
//! leaves the two together and a later start can tell what happened.

use vstd::prelude::*;

use crate::identity::ops::{
    answers, elapsed, elapsed_spec, is_key_mode, key_mode_ok, key_modes_in_numbers, listed, FileRef,
    IoError, IoKind, KeyOp, Reply, CLAIM_WAIT_BOUND, KEY_TEMP_ATTEMPTS, POLL_PAUSE,
};

verus! {

/// Why a file could not be secured.
#[derive(Clone, Copy, PartialEq, Eq, Structural, Debug)]
pub enum Insecure {
    /// The mode could not be set.
    Tighten(IoError),
    /// The mode could not be read.
    Stat(IoError),
    /// The mode is another than 0600.
    Mode(u32),
}

/// Why a publish failed. Every failure after a refused link carries the link's
/// error too.
#[derive(Clone, Copy, PartialEq, Eq, Structural, Debug)]
pub enum PublishFailure {
    TempCreate(IoError),
    TempNamesTaken,
    TempInsecure { n: u32, cause: Insecure },
    /// The key could not be written to the temporary file, or not flushed.
    TempWrite(IoError),
    /// The key is linked, but the directory could not be flushed.
    LinkedDirSync(IoError),
    MarkerCreate { error: IoError, link: IoError },
    MarkerNamesTaken { link: IoError },
    FinalCreate { error: IoError, link: IoError },
    FinalInsecure { cause: Insecure, link: IoError },
    /// The key could not be written; file and marker stay for recovery.
    FinalWrite { error: IoError, link: IoError },
    /// The key was written and not flushed; file and marker stay for recovery.
    FinalSync { error: IoError, link: IoError },
    /// The key is complete, but the directory could not be flushed.
    FinalDirSync { error: IoError, link: IoError },
    /// A recovering peer took over and its claims did not clear in time.
    Unsettled { marker: IoError, link: IoError },
}

/// How a publish ended.
#[derive(Clone, Copy, PartialEq, Eq, Structural, Debug)]
pub enum KeyPublish {
    /// The identity key is the one that was published.
    Won,
    /// Another start published; its key stands.
    Lost,
    Failed(PublishFailure),
}

/// How the link ended.
#[derive(Clone, Copy, PartialEq, Eq, Structural, Debug)]
pub enum LinkEnd {
    Linked,
    Taken,
    Refused(IoError),
}

/// Where a publish stands: the operation that it waits for.
#[derive(Clone, Copy, PartialEq, Eq, Structural, Debug)]
pub enum PublishPhase {
    CreateTemp { n: u32 },
    TightenTemp { n: u32 },
    VerifyTemp { n: u32 },
    WriteTemp { n: u32 },
    SyncTemp { n: u32 },
    /// Remove the temporary file, then fail.
    DiscardTemp { n: u32, failure: PublishFailure },
    Link { n: u32 },
    /// Remove the temporary file after the link.
    DropTemp { n: u32, end: LinkEnd },
    SyncLinkedDir,
    CreateMarker { m: u32, link: IoError },
    SyncMarkerDir { m: u32, link: IoError },
    CreateFinal { m: u32, link: IoError },
    TightenFinal { m: u32, link: IoError },
    VerifyFinal { m: u32, link: IoError },
    /// Remove the still empty final file, then the marker, then fail.
    DiscardFinal { m: u32, failure: PublishFailure },
    /// Remove the marker, then end.
    DropMarker { m: u32, end: KeyPublish },
    WriteFinal { m: u32, link: IoError },
    SyncFinal { m: u32, link: IoError },
    SyncFinalDir { m: u32, link: IoError },
    /// Remove the marker: the publish counts only if that succeeds.
    Commit { m: u32, link: IoError },
    SyncCommitDir,
    /// Look whether recovery claims are left.
    AwaitClaims { since: u64, marker: IoError, link: IoError },
    /// Sleep before looking again.
    PauseForClaims { since: u64, marker: IoError, link: IoError },
}

/// What a step of a publish leads to.
#[derive(Clone, Copy, PartialEq, Eq, Structural, Debug)]
pub enum PublishNext {
    Go(PublishPhase),
    End(KeyPublish),
}

/// The first phase of a publish.
pub open spec fn publish_start() -> PublishPhase {
    PublishPhase::CreateTemp { n: 0 }
}

/// The operation that a phase waits for, when `key` is published.
pub open spec fn publish_op_spec(p: PublishPhase, key: u64) -> KeyOp {
    match p {
        PublishPhase::CreateTemp { n } => KeyOp::CreateNew(FileRef::Temp(n)),
        PublishPhase::TightenTemp { n } => KeyOp::Tighten(FileRef::Temp(n)),
        PublishPhase::VerifyTemp { n } => KeyOp::Stat(FileRef::Temp(n)),
        PublishPhase::WriteTemp { n } => KeyOp::WriteKey(FileRef::Temp(n), key),
        PublishPhase::SyncTemp { n } => KeyOp::SyncFile(FileRef::Temp(n)),
        PublishPhase::DiscardTemp { n, .. } => KeyOp::Remove(FileRef::Temp(n)),
        PublishPhase::Link { n } => KeyOp::HardLink(FileRef::Temp(n), FileRef::Final),
        PublishPhase::DropTemp { n, .. } => KeyOp::Remove(FileRef::Temp(n)),
        PublishPhase::SyncLinkedDir => KeyOp::SyncDir,
        PublishPhase::CreateMarker { m, .. } => KeyOp::CreateNew(FileRef::Marker(m)),
        PublishPhase::SyncMarkerDir { .. } => KeyOp::SyncDir,
        PublishPhase::CreateFinal { .. } => KeyOp::CreateNew(FileRef::Final),
        PublishPhase::TightenFinal { .. } => KeyOp::Tighten(FileRef::Final),
        PublishPhase::VerifyFinal { .. } => KeyOp::Stat(FileRef::Final),
        PublishPhase::DiscardFinal { .. } => KeyOp::Remove(FileRef::Final),
        PublishPhase::DropMarker { m, .. } => KeyOp::Remove(FileRef::Marker(m)),
        PublishPhase::WriteFinal { .. } => KeyOp::WriteKey(FileRef::Final, key),
        PublishPhase::SyncFinal { .. } => KeyOp::SyncFile(FileRef::Final),
        PublishPhase::SyncFinalDir { .. } => KeyOp::SyncDir,
        PublishPhase::Commit { m, .. } => KeyOp::Remove(FileRef::Marker(m)),
        PublishPhase::SyncCommitDir => KeyOp::SyncDir,
        PublishPhase::AwaitClaims { .. } => KeyOp::ListClaims,
        PublishPhase::PauseForClaims { .. } => KeyOp::Pause(POLL_PAUSE),
    }
}

/// What the reply to a phase's operation, received at `now`, leads to.
pub open spec fn publish_next_spec(p: PublishPhase, reply: Reply, now: u64) -> PublishNext {
    let failed = reply is Failed;
    let error = reply->Failed_0;
    match p {
        PublishPhase::CreateTemp { n } => if !failed {
            PublishNext::Go(PublishPhase::TightenTemp { n })
        } else if error.kind is AlreadyExists {
            if n + 1 < KEY_TEMP_ATTEMPTS {
                PublishNext::Go(PublishPhase::CreateTemp { n: (n + 1) as u32 })
            } else {
                PublishNext::End(KeyPublish::Failed(PublishFailure::TempNamesTaken))
            }
        } else {
            PublishNext::End(KeyPublish::Failed(PublishFailure::TempCreate(error)))
        },
        PublishPhase::TightenTemp { n } => if failed {
            discard_temp(n, PublishFailure::TempInsecure { n, cause: Insecure::Tighten(error) })
        } else {
            PublishNext::Go(PublishPhase::VerifyTemp { n })
        },
        PublishPhase::VerifyTemp { n } => if failed {
            discard_temp(n, PublishFailure::TempInsecure { n, cause: Insecure::Stat(error) })
        } else if is_key_mode(reply->Mode_0) {
            PublishNext::Go(PublishPhase::WriteTemp { n })
        } else {
            discard_temp(n, PublishFailure::TempInsecure { n, cause: Insecure::Mode(reply->Mode_0) })
        },
        PublishPhase::WriteTemp { n } => if failed {
            discard_temp(n, PublishFailure::TempWrite(error))
        } else {
            PublishNext::Go(PublishPhase::SyncTemp { n })
        },
        PublishPhase::SyncTemp { n } => if failed {
            discard_temp(n, PublishFailure::TempWrite(error))
        } else {
            PublishNext::Go(PublishPhase::Link { n })
        },
        PublishPhase::DiscardTemp { n, failure } => PublishNext::End(KeyPublish::Failed(failure)),
        PublishPhase::Link { n } => PublishNext::Go(
            PublishPhase::DropTemp {
                n,
                end: if !failed {
                    LinkEnd::Linked
                } else if error.kind is AlreadyExists {
                    LinkEnd::Taken
                } else {
                    LinkEnd::Refused(error)
                },
            },
        ),
        PublishPhase::DropTemp { n, end } => match end {
            LinkEnd::Linked => PublishNext::Go(PublishPhase::SyncLinkedDir),
            LinkEnd::Taken => PublishNext::End(KeyPublish::Lost),
            LinkEnd::Refused(link) => PublishNext::Go(PublishPhase::CreateMarker { m: 0, link }),
        },
        PublishPhase::SyncLinkedDir => if failed {
            PublishNext::End(KeyPublish::Failed(PublishFailure::LinkedDirSync(error)))
        } else {
            PublishNext::End(KeyPublish::Won)
        },
        PublishPhase::CreateMarker { m, link } => if !failed {
            PublishNext::Go(PublishPhase::SyncMarkerDir { m, link })
        } else if error.kind is AlreadyExists {
            if m + 1 < KEY_TEMP_ATTEMPTS {
                PublishNext::Go(PublishPhase::CreateMarker { m: (m + 1) as u32, link })
            } else {
                PublishNext::End(KeyPublish::Failed(PublishFailure::MarkerNamesTaken { link }))
            }
        } else {
            PublishNext::End(KeyPublish::Failed(PublishFailure::MarkerCreate { error, link }))
        },
        PublishPhase::SyncMarkerDir { m, link } => PublishNext::Go(
            PublishPhase::CreateFinal { m, link },
        ),
        PublishPhase::CreateFinal { m, link } => if !failed {
            PublishNext::Go(PublishPhase::TightenFinal { m, link })
        } else if error.kind is AlreadyExists {
            PublishNext::Go(PublishPhase::DropMarker { m, end: KeyPublish::Lost })
        } else {
            PublishNext::Go(
                PublishPhase::DropMarker {
                    m,
                    end: KeyPublish::Failed(PublishFailure::FinalCreate { error, link }),
                },
            )
        },
        PublishPhase::TightenFinal { m, link } => if failed {
            discard_final(m, PublishFailure::FinalInsecure { cause: Insecure::Tighten(error), link })
        } else {
            PublishNext::Go(PublishPhase::VerifyFinal { m, link })
        },
        PublishPhase::VerifyFinal { m, link } => if failed {
            discard_final(m, PublishFailure::FinalInsecure { cause: Insecure::Stat(error), link })
        } else if is_key_mode(reply->Mode_0) {
            PublishNext::Go(PublishPhase::WriteFinal { m, link })
        } else {
            discard_final(
                m,
                PublishFailure::FinalInsecure { cause: Insecure::Mode(reply->Mode_0), link },
            )
        },
        PublishPhase::DiscardFinal { m, failure } => PublishNext::Go(
            PublishPhase::DropMarker { m, end: KeyPublish::Failed(failure) },
        ),
        PublishPhase::DropMarker { m, end } => PublishNext::End(end),
        PublishPhase::WriteFinal { m, link } => if failed {
            PublishNext::End(KeyPublish::Failed(PublishFailure::FinalWrite { error, link }))
        } else {
            PublishNext::Go(PublishPhase::SyncFinal { m, link })
        },
        PublishPhase::SyncFinal { m, link } => if failed {
            PublishNext::End(KeyPublish::Failed(PublishFailure::FinalSync { error, link }))
        } else {
            PublishNext::Go(PublishPhase::SyncFinalDir { m, link })
        },
        PublishPhase::SyncFinalDir { m, link } => if failed {
            PublishNext::Go(
                PublishPhase::DropMarker {
                    m,
                    end: KeyPublish::Failed(PublishFailure::FinalDirSync { error, link }),
                },
            )
        } else {
            PublishNext::Go(PublishPhase::Commit { m, link })
        },
        PublishPhase::Commit { m, link } => if failed {
            PublishNext::Go(PublishPhase::AwaitClaims { since: now, marker: error, link })
        } else {
            PublishNext::Go(PublishPhase::SyncCommitDir)
        },
        PublishPhase::SyncCommitDir => PublishNext::End(KeyPublish::Won),
        PublishPhase::AwaitClaims { since, marker, link } => if listed(reply).len() == 0 {
            PublishNext::End(KeyPublish::Lost)
        } else if elapsed_spec(since, now) >= CLAIM_WAIT_BOUND {
            PublishNext::End(KeyPublish::Failed(PublishFailure::Unsettled { marker, link }))
        } else {
            PublishNext::Go(PublishPhase::PauseForClaims { since, marker, link })
        },
        PublishPhase::PauseForClaims { since, marker, link } => PublishNext::Go(
            PublishPhase::AwaitClaims { since, marker, link },
        ),
    }
}

/// Remove the temporary file, then fail.
pub open spec fn discard_temp(n: u32, failure: PublishFailure) -> PublishNext {
    PublishNext::Go(PublishPhase::DiscardTemp { n, failure })
}

/// Remove the empty final file, then the marker, then fail.
pub open spec fn discard_final(m: u32, failure: PublishFailure) -> PublishNext {
    PublishNext::Go(PublishPhase::DiscardFinal { m, failure })
}

/// Begins the publish of a key.
pub fn publish_key_atomically() -> (r: PublishPhase)
    ensures
        r == publish_start(),
{
    PublishPhase::CreateTemp { n: 0 }
}

/// The operation that a phase waits for, when `key` is published.
pub fn publish_op(p: PublishPhase, key: u64) -> (r: KeyOp)
    ensures
        r == publish_op_spec(p, key),
{
    match p {
        PublishPhase::CreateTemp { n } => KeyOp::CreateNew(FileRef::Temp(n)),
        PublishPhase::TightenTemp { n } => KeyOp::Tighten(FileRef::Temp(n)),
        PublishPhase::VerifyTemp { n } => KeyOp::Stat(FileRef::Temp(n)),
        PublishPhase::WriteTemp { n } => KeyOp::WriteKey(FileRef::Temp(n), key),
        PublishPhase::SyncTemp { n } => KeyOp::SyncFile(FileRef::Temp(n)),
        PublishPhase::DiscardTemp { n, .. } => KeyOp::Remove(FileRef::Temp(n)),
        PublishPhase::Link { n } => KeyOp::HardLink(FileRef::Temp(n), FileRef::Final),
        PublishPhase::DropTemp { n, .. } => KeyOp::Remove(FileRef::Temp(n)),
        PublishPhase::SyncLinkedDir => KeyOp::SyncDir,
        PublishPhase::CreateMarker { m, .. } => KeyOp::CreateNew(FileRef::Marker(m)),
        PublishPhase::SyncMarkerDir { .. } => KeyOp::SyncDir,
        PublishPhase::CreateFinal { .. } => KeyOp::CreateNew(FileRef::Final),
        PublishPhase::TightenFinal { .. } => KeyOp::Tighten(FileRef::Final),
        PublishPhase::VerifyFinal { .. } => KeyOp::Stat(FileRef::Final),
        PublishPhase::DiscardFinal { .. } => KeyOp::Remove(FileRef::Final),
        PublishPhase::DropMarker { m, .. } => KeyOp::Remove(FileRef::Marker(m)),
        PublishPhase::WriteFinal { .. } => KeyOp::WriteKey(FileRef::Final, key),
        PublishPhase::SyncFinal { .. } => KeyOp::SyncFile(FileRef::Final),
        PublishPhase::SyncFinalDir { .. } => KeyOp::SyncDir,
        PublishPhase::Commit { m, .. } => KeyOp::Remove(FileRef::Marker(m)),
        PublishPhase::SyncCommitDir => KeyOp::SyncDir,
        PublishPhase::AwaitClaims { .. } => KeyOp::ListClaims,
        PublishPhase::PauseForClaims { .. } => KeyOp::Pause(POLL_PAUSE),
    }
}

/// What the reply to a phase's operation, received at `now`, leads to.
pub fn publish_next(p: PublishPhase, reply: &Reply, now: u64) -> (r: PublishNext)
    requires
        answers(publish_op_spec(p, 0), *reply),
    ensures
        r == publish_next_spec(p, *reply, now),
{
    let error = reply.error();
    match p {
        PublishPhase::CreateTemp { .. } | PublishPhase::TightenTemp { .. }
        | PublishPhase::VerifyTemp { .. } | PublishPhase::WriteTemp { .. }
        | PublishPhase::SyncTemp { .. } | PublishPhase::DiscardTemp { .. }
        | PublishPhase::Link { .. } | PublishPhase::DropTemp { .. }
        | PublishPhase::SyncLinkedDir => link_next(p, reply, error),
        PublishPhase::AwaitClaims { since, marker, link } => {
            let none = match reply {
                Reply::Ids(ids) => ids.len() == 0,
                _ => true,
            };
            if none {
                PublishNext::End(KeyPublish::Lost)
            } else if elapsed(since, now) >= CLAIM_WAIT_BOUND {
                PublishNext::End(KeyPublish::Failed(PublishFailure::Unsettled { marker, link }))
            } else {
                PublishNext::Go(PublishPhase::PauseForClaims { since, marker, link })
            }
        },
        PublishPhase::PauseForClaims { since, marker, link } => PublishNext::Go(
            PublishPhase::AwaitClaims { since, marker, link },
        ),
        _ => publish_key_fallback(p, reply, error, now),
    }
}

/// The steps of the publish by a hard link.
fn link_next(p: PublishPhase, reply: &Reply, error: Option<IoError>) -> (r: PublishNext)
    requires
        answers(publish_op_spec(p, 0), *reply),
        error == (match *reply {
            Reply::Failed(e) => Some(e),
            _ => None,
        }),
        p is CreateTemp || p is TightenTemp || p is VerifyTemp || p is WriteTemp || p is SyncTemp
            || p is DiscardTemp || p is Link || p is DropTemp || p is SyncLinkedDir,
    ensures
        forall|now: u64| r == #[trigger] publish_next_spec(p, *reply, now),
{
    match p {
        PublishPhase::CreateTemp { n } => match error {
            None => PublishNext::Go(PublishPhase::TightenTemp { n }),
            Some(e) => if e.kind == IoKind::AlreadyExists {
                if n < KEY_TEMP_ATTEMPTS - 1 {
                    PublishNext::Go(PublishPhase::CreateTemp { n: n + 1 })
                } else {
                    PublishNext::End(KeyPublish::Failed(PublishFailure::TempNamesTaken))
                }
            } else {
                PublishNext::End(KeyPublish::Failed(PublishFailure::TempCreate(e)))
            },
        },
        PublishPhase::TightenTemp { n } => match error {
            Some(e) => PublishNext::Go(
                PublishPhase::DiscardTemp {
                    n,
                    failure: PublishFailure::TempInsecure { n, cause: Insecure::Tighten(e) },
                },
            ),
            None => PublishNext::Go(PublishPhase::VerifyTemp { n }),
        },
        PublishPhase::VerifyTemp { n } => match secure(reply) {
            Some(cause) => PublishNext::Go(
                PublishPhase::DiscardTemp {
                    n,
                    failure: PublishFailure::TempInsecure { n, cause },
                },
            ),
            None => PublishNext::Go(PublishPhase::WriteTemp { n }),
        },
        PublishPhase::WriteTemp { n } => match error {
            Some(e) => PublishNext::Go(
                PublishPhase::DiscardTemp { n, failure: PublishFailure::TempWrite(e) },
            ),
            None => PublishNext::Go(PublishPhase::SyncTemp { n }),
        },
        PublishPhase::SyncTemp { n } => match error {
            Some(e) => PublishNext::Go(
                PublishPhase::DiscardTemp { n, failure: PublishFailure::TempWrite(e) },
            ),
            None => PublishNext::Go(PublishPhase::Link { n }),
        },
        PublishPhase::DiscardTemp { failure, .. } => PublishNext::End(KeyPublish::Failed(failure)),
        PublishPhase::Link { n } => {
            let end = match error {
                None => LinkEnd::Linked,
                Some(e) => if e.kind == IoKind::AlreadyExists {
                    LinkEnd::Taken
                } else {
                    LinkEnd::Refused(e)
                },
            };
            PublishNext::Go(PublishPhase::DropTemp { n, end })
        },
        PublishPhase::DropTemp { end, .. } => match end {
            LinkEnd::Linked => PublishNext::Go(PublishPhase::SyncLinkedDir),
            LinkEnd::Taken => PublishNext::End(KeyPublish::Lost),
            LinkEnd::Refused(link) => PublishNext::Go(PublishPhase::CreateMarker { m: 0, link }),
        },
        _ => match error {
            Some(e) => PublishNext::End(KeyPublish::Failed(PublishFailure::LinkedDirSync(e))),
            None => PublishNext::End(KeyPublish::Won),
        },
    }
}

/// Why a file is not secure, going by the reply to a look at its mode.
fn secure(reply: &Reply) -> (r: Option<Insecure>)
    requires
        reply is Mode || reply is Failed,
    ensures
        r == (match *reply {
            Reply::Mode(m) => if is_key_mode(m) { None } else { Some(Insecure::Mode(m)) },
            Reply::Failed(e) => Some(Insecure::Stat(e)),
            _ => None,
        }),
{
    match reply {
        Reply::Mode(m) => if key_mode_ok(*m) {
            None
        } else {
            Some(Insecure::Mode(*m))
        },
        Reply::Failed(e) => Some(Insecure::Stat(*e)),
        _ => None,
    }
}

/// The steps of the publish without a link, from the marker's creation to its
/// removal.
fn publish_key_fallback(p: PublishPhase, reply: &Reply, error: Option<IoError>, now: u64) -> (r:
    PublishNext)
    requires
        answers(publish_op_spec(p, 0), *reply),
        error == (match *reply {
            Reply::Failed(e) => Some(e),
            _ => None,
        }),
        p is CreateMarker || p is SyncMarkerDir || p is CreateFinal || p is TightenFinal
            || p is VerifyFinal || p is DiscardFinal || p is DropMarker || p is WriteFinal
            || p is SyncFinal || p is SyncFinalDir || p is Commit || p is SyncCommitDir,
    ensures
        r == publish_next_spec(p, *reply, now),
{
    match p {
        PublishPhase::CreateMarker { m, link } => match error {
            None => PublishNext::Go(PublishPhase::SyncMarkerDir { m, link }),
            Some(e) => if e.kind == IoKind::AlreadyExists {
                if m < KEY_TEMP_ATTEMPTS - 1 {
                    PublishNext::Go(PublishPhase::CreateMarker { m: m + 1, link })
                } else {
                    PublishNext::End(KeyPublish::Failed(PublishFailure::MarkerNamesTaken { link }))
                }
            } else {
                PublishNext::End(
                    KeyPublish::Failed(PublishFailure::MarkerCreate { error: e, link }),
                )
            },
        },
        PublishPhase::SyncMarkerDir { m, link } => PublishNext::Go(
            PublishPhase::CreateFinal { m, link },
        ),
        PublishPhase::CreateFinal { m, link } => match error {
            None => PublishNext::Go(PublishPhase::TightenFinal { m, link }),
            Some(e) => {
                let end = if e.kind == IoKind::AlreadyExists {
                    KeyPublish::Lost
                } else {
                    KeyPublish::Failed(PublishFailure::FinalCreate { error: e, link })
                };
                PublishNext::Go(PublishPhase::DropMarker { m, end })
            },
        },
        PublishPhase::TightenFinal { m, link } => match error {
            Some(e) => PublishNext::Go(
                PublishPhase::DiscardFinal {
                    m,
                    failure: PublishFailure::FinalInsecure { cause: Insecure::Tighten(e), link },
                },
            ),
            None => PublishNext::Go(PublishPhase::VerifyFinal { m, link }),
        },
        PublishPhase::VerifyFinal { m, link } => match secure(reply) {
            Some(cause) => PublishNext::Go(
                PublishPhase::DiscardFinal {
                    m,
                    failure: PublishFailure::FinalInsecure { cause, link },
                },
            ),
            None => PublishNext::Go(PublishPhase::WriteFinal { m, link }),
        },
        PublishPhase::DiscardFinal { m, failure } => PublishNext::Go(
            PublishPhase::DropMarker { m, end: KeyPublish::Failed(failure) },
        ),
        PublishPhase::DropMarker { end, .. } => PublishNext::End(end),
        PublishPhase::WriteFinal { m, link } => match error {
            Some(e) => PublishNext::End(
                KeyPublish::Failed(PublishFailure::FinalWrite { error: e, link }),
            ),
            None => PublishNext::Go(PublishPhase::SyncFinal { m, link }),
        },
        PublishPhase::SyncFinal { m, link } => match error {
            Some(e) => PublishNext::End(
                KeyPublish::Failed(PublishFailure::FinalSync { error: e, link }),
            ),
            None => PublishNext::Go(PublishPhase::SyncFinalDir { m, link }),
        },
        PublishPhase::SyncFinalDir { m, link } => match error {
            Some(e) => PublishNext::Go(
                PublishPhase::DropMarker {
                    m,
                    end: KeyPublish::Failed(PublishFailure::FinalDirSync { error: e, link }),
                },
            ),
            None => PublishNext::Go(PublishPhase::Commit { m, link }),
        },
        PublishPhase::Commit { link, .. } => match error {
            Some(e) => PublishNext::Go(PublishPhase::AwaitClaims { since: now, marker: e, link }),
            None => PublishNext::Go(PublishPhase::SyncCommitDir),
        },
        _ => PublishNext::End(KeyPublish::Won),
    }
}

/// A run of a publish: the replies to its operations, with the times at which
/// they came.
pub type PublishEvents = Seq<(Reply, u64)>;

/// Where a run has led.
pub open spec fn publish_after(events: PublishEvents) -> PublishNext
    decreases events.len(),
{
    if events.len() == 0 {
        PublishNext::Go(publish_start())
    } else {
        match publish_after(events.drop_last()) {
            PublishNext::Go(p) => publish_next_spec(p, events.last().0, events.last().1),
            PublishNext::End(end) => PublishNext::End(end),
        }
    }
}

/// Whether every reply of a run answers an operation that was waited for.
pub open spec fn publish_run(events: PublishEvents) -> bool
    decreases events.len(),
{
    events.len() > 0 ==> {
        &&& publish_run(events.drop_last())
        &&& publish_after(events.drop_last()) matches PublishNext::Go(p) && answers(
            publish_op_spec(p, 0),
            events.last().0,
        )
    }
}

/// What a file holds that the publish made.
pub enum Content {
    /// The publish has no such file.
    Absent,
    /// Created, nothing written.
    Empty,
    /// A write failed half way.
    Partial,
    /// The whole key, not flushed.
    Written,
    /// The whole key, flushed to disk.
    Durable,
}

/// The files that a publish has made and not removed.
pub struct PublishFiles {
    pub temp: Content,
    pub marker: bool,
    pub key: Content,
}

/// The files after the reply to a phase's operation. A removal that fails
/// leaves the file.
pub open spec fn publish_effect(p: PublishPhase, reply: Reply, f: PublishFiles) -> PublishFiles {
    let ok = !(reply is Failed);
    match p {
        PublishPhase::CreateTemp { .. } => if ok {
            PublishFiles { temp: Content::Empty, ..f }
        } else {
            f
        },
        PublishPhase::WriteTemp { .. } => PublishFiles {
            temp: if ok { Content::Written } else { Content::Partial },
            ..f
        },
        PublishPhase::SyncTemp { .. } => if ok {
            PublishFiles { temp: Content::Durable, ..f }
        } else {
            f
        },
        PublishPhase::DiscardTemp { .. } | PublishPhase::DropTemp { .. } => if ok {
            PublishFiles { temp: Content::Absent, ..f }
        } else {
            f
        },
        PublishPhase::Link { .. } => if ok {
            PublishFiles { key: f.temp, ..f }
        } else {
            f
        },
        PublishPhase::CreateMarker { .. } => if ok {
            PublishFiles { marker: true, ..f }
        } else {
            f
        },
        PublishPhase::CreateFinal { .. } => if ok {
            PublishFiles { key: Content::Empty, ..f }
        } else {
            f
        },
        PublishPhase::DiscardFinal { .. } => if ok {
            PublishFiles { key: Content::Absent, ..f }
        } else {
            f
        },
        PublishPhase::WriteFinal { .. } => PublishFiles {
            key: if ok { Content::Written } else { Content::Partial },
            ..f
        },
        PublishPhase::SyncFinal { .. } => if ok {
            PublishFiles { key: Content::Durable, ..f }
        } else {
            f
        },
        PublishPhase::DropMarker { .. } | PublishPhase::Commit { .. } => if ok {
            PublishFiles { marker: false, ..f }
        } else {
            f
        },
        _ => f,
    }
}

/// The files that a run has made and not removed.
pub open spec fn publish_files(events: PublishEvents) -> PublishFiles
    decreases events.len(),
{
    if events.len() == 0 {
        PublishFiles { temp: Content::Absent, marker: false, key: Content::Absent }
    } else {
        let before = publish_files(events.drop_last());
        match publish_after(events.drop_last()) {
            PublishNext::Go(p) => publish_effect(p, events.last().0, before),
            PublishNext::End(_) => before,
        }
    }
}

/// Whether the removal of an empty final file failed in the run.
pub open spec fn empty_final_stuck(events: PublishEvents) -> bool
    decreases events.len(),
{
    events.len() > 0 && (empty_final_stuck(events.drop_last()) || (publish_after(
        events.drop_last(),
    ) matches PublishNext::Go(p) && p is DiscardFinal && events.last().0 is Failed))
}

/// What a phase knows of the files.
spec fn phase_knows(next: PublishNext, f: PublishFiles, stuck: bool) -> bool {
    match next {
        PublishNext::Go(p) => match p {
            PublishPhase::CreateTemp { n } => f.temp is Absent && !f.marker && f.key is Absent
                && n < KEY_TEMP_ATTEMPTS,
            PublishPhase::TightenTemp { .. } | PublishPhase::VerifyTemp { .. }
            | PublishPhase::WriteTemp { .. } => f.temp is Empty && !f.marker && f.key is Absent,
            PublishPhase::SyncTemp { .. } => f.temp is Written && !f.marker && f.key is Absent,
            PublishPhase::DiscardTemp { .. } => !f.marker && f.key is Absent,
            PublishPhase::Link { .. } => f.temp is Durable && !f.marker && f.key is Absent,
            PublishPhase::DropTemp { end, .. } => !f.marker && (if end is Linked {
                f.key is Durable
            } else {
                f.key is Absent
            }),
            PublishPhase::SyncLinkedDir => !f.marker && f.key is Durable,
            PublishPhase::CreateMarker { m, .. } => !f.marker && f.key is Absent && m
                < KEY_TEMP_ATTEMPTS,
            PublishPhase::SyncMarkerDir { .. } | PublishPhase::CreateFinal { .. } => f.marker
                && f.key is Absent,
            PublishPhase::TightenFinal { .. } | PublishPhase::VerifyFinal { .. }
            | PublishPhase::WriteFinal { .. } | PublishPhase::DiscardFinal { .. } => f.marker
                && f.key is Empty,
            PublishPhase::DropMarker { end, .. } => f.marker && !(end is Won) && (f.key is Absent
                || f.key is Durable || (stuck && f.key is Empty)) && (end is Lost ==> f.key
                is Absent) && !(end matches KeyPublish::Failed(why) && (why is FinalWrite
                || why is FinalSync || why is Unsettled)) && (end matches KeyPublish::Failed(why)
                && why is FinalInsecure && !stuck ==> f.key is Absent),
            PublishPhase::SyncFinal { .. } => f.marker && f.key is Written,
            PublishPhase::SyncFinalDir { .. } | PublishPhase::Commit { .. } => f.marker && f.key
                is Durable,
            PublishPhase::SyncCommitDir => !f.marker && f.key is Durable,
            PublishPhase::AwaitClaims { .. } | PublishPhase::PauseForClaims { .. } => f.marker
                && f.key is Durable,
        },
        PublishNext::End(end) => match end {
            KeyPublish::Won => f.key is Durable && !f.marker,
            KeyPublish::Lost => f.key is Absent || (f.key is Durable && f.marker),
            KeyPublish::Failed(why) => {
                &&& (why is FinalWrite ==> f.key is Partial && f.marker)
                &&& (why is FinalSync ==> f.key is Written && f.marker)
                &&& (why is Unsettled ==> f.key is Durable && f.marker)
                &&& (!(why is FinalWrite) && !(why is FinalSync) ==> f.key is Absent || f.key
                    is Durable || (stuck && f.key is Empty))
                &&& (why is FinalInsecure && !stuck ==> f.key is Absent)
            },
        },
    }
}

proof fn phases_know(events: PublishEvents)
    requires
        publish_run(events),
    ensures
        phase_knows(publish_after(events), publish_files(events), empty_final_stuck(events)),
    decreases events.len(),
{
    if events.len() > 0 {
        phases_know(events.drop_last());
    }
}

/// No key byte reaches a file before its mode was seen to be 0600: a run that
/// is about to write the key has just received the file's mode.
pub proof fn key_is_written_only_to_secured_files(events: PublishEvents)
    requires
        publish_run(events),
        publish_after(events) matches PublishNext::Go(p) && (p is WriteTemp || p is WriteFinal),
    ensures
        events.len() > 0,
        events.last().0 is Mode,
        is_key_mode(events.last().0->Mode_0),
{
}

/// A crash leaves no incomplete key without its marker: wherever a run stands,
/// if the final file that it made is not yet whole and durable, the marker
/// stands beside it. The one exception is a run in which the removal of the
/// still empty file failed.
pub proof fn marker_brackets_the_incomplete_key(events: PublishEvents)
    requires
        publish_run(events),
        !empty_final_stuck(events),
    ensures
        publish_files(events).key is Absent || publish_files(events).key is Durable
            || publish_files(events).marker,
{
    phases_know(events);
}

/// A publish touches only a final file that it made: it writes, tightens,
/// flushes or removes the identity key only after it has created it itself.
pub proof fn publish_never_touches_a_foreign_key(events: PublishEvents, p: PublishPhase, key: u64)
    requires
        publish_run(events),
        publish_after(events) == PublishNext::Go(p),
        ({
            let op = publish_op_spec(p, key);
            op == KeyOp::WriteKey(FileRef::Final, key) || op == KeyOp::Tighten(FileRef::Final)
                || op == KeyOp::Remove(FileRef::Final) || op == KeyOp::SyncFile(FileRef::Final)
        }),
    ensures
        !(publish_files(events).key is Absent),
{
    phases_know(events);
}

/// The identity key is created directly only while the marker stands.
pub proof fn marker_precedes_the_key(events: PublishEvents)
    requires
        publish_run(events),
        publish_after(events) matches PublishNext::Go(p) && p is CreateFinal,
    ensures
        publish_files(events).marker,
{
    phases_know(events);
}

/// A publish that won left the whole key on disk, and no marker.
pub proof fn winning_is_durable(events: PublishEvents)
    requires
        publish_run(events),
        publish_after(events) == PublishNext::End(KeyPublish::Won),
    ensures
        publish_files(events).key is Durable,
        !publish_files(events).marker,
{
    phases_know(events);
}

/// A publish that lost left no key of its own, unless a peer took its marker:
/// then it saw a directory without recovery claims just before.
pub proof fn losing_leaves_the_winner(events: PublishEvents)
    requires
        publish_run(events),
        publish_after(events) == PublishNext::End(KeyPublish::Lost),
    ensures
        publish_files(events).key is Absent || (publish_after(events.drop_last())
            matches PublishNext::Go(p) && p is AwaitClaims && listed(events.last().0).len() == 0),
{
    phases_know(events.drop_last());
    phases_know(events);
}

/// A failed write or flush of the identity key leaves both the file and its
/// marker for recovery.
pub proof fn failed_writes_leave_file_and_marker(events: PublishEvents, why: PublishFailure)
    requires
        publish_run(events),
        publish_after(events) == PublishNext::End(KeyPublish::Failed(why)),
        why is FinalWrite || why is FinalSync,
    ensures
        publish_files(events).marker,
        publish_files(events).key is Partial || publish_files(events).key is Written,
{
    phases_know(events);
}

/// Every other failure leaves no incomplete key, unless the removal of the
/// empty file failed.
pub proof fn other_failures_leave_no_incomplete_key(events: PublishEvents, why: PublishFailure)
    requires
        publish_run(events),
        publish_after(events) == PublishNext::End(KeyPublish::Failed(why)),
        !(why is FinalWrite) && !(why is FinalSync),
        !empty_final_stuck(events),
    ensures
        publish_files(events).key is Absent || publish_files(events).key is Durable,
{
    phases_know(events);
}

/// A publish without a link counts only after it has removed its own marker:
/// if that removal fails, the publish never ends as won.
pub proof fn a_lost_marker_demotes(events: PublishEvents, at: int)
    requires
        publish_run(events),
        0 <= at < events.len(),
        publish_after(events.take(at)) matches PublishNext::Go(p) && p is Commit,
        events[at].0 is Failed,
    ensures
        publish_after(events) != PublishNext::End(KeyPublish::Won),
        publish_after(events) matches PublishNext::Go(p) ==> p is AwaitClaims || p
            is PauseForClaims,
    decreases events.len(),
{
    if at == events.len() - 1 {
        assert(events.take(at) =~= events.drop_last());
    } else {
        let shorter = events.drop_last();
        assert(shorter.take(at) =~= events.take(at));
        assert(shorter[at] == events[at]);
        a_lost_marker_demotes(shorter, at);
    }
}

/// Names are tried at most [`KEY_TEMP_ATTEMPTS`] times: no run asks for a
/// temporary file or a marker with a higher number.
pub proof fn names_are_bounded(events: PublishEvents)
    requires
        publish_run(events),
    ensures
        publish_after(events) matches PublishNext::Go(PublishPhase::CreateTemp { n }) ==> n
            < KEY_TEMP_ATTEMPTS,
        publish_after(events) matches PublishNext::Go(PublishPhase::CreateMarker { m, link })
            ==> m < KEY_TEMP_ATTEMPTS,
{
    phases_know(events);
}

/// The link's error that a failure carries.
pub open spec fn link_error(why: PublishFailure) -> Option<IoError> {
    match why {
        PublishFailure::MarkerCreate { link, .. } => Some(link),
        PublishFailure::MarkerNamesTaken { link } => Some(link),
        PublishFailure::FinalCreate { link, .. } => Some(link),
        PublishFailure::FinalInsecure { link, .. } => Some(link),
        PublishFailure::FinalWrite { link, .. } => Some(link),
        PublishFailure::FinalSync { link, .. } => Some(link),
        PublishFailure::FinalDirSync { link, .. } => Some(link),
        PublishFailure::Unsettled { link, .. } => Some(link),
        _ => None,
    }
}

/// The error with which the link of a run was refused, where it was, for another
/// reason than that the name is taken.
pub open spec fn refused_link(events: PublishEvents) -> Option<IoError>
    decreases events.len(),
{
    if events.len() == 0 {
        None
    } else {
        match publish_after(events.drop_last()) {
            PublishNext::Go(PublishPhase::Link { .. }) => match events.last().0 {
                Reply::Failed(e) if !(e.kind is AlreadyExists) => Some(e),
                _ => None,
            },
            _ => refused_link(events.drop_last()),
        }
    }
}

/// What a phase knows of the link.
spec fn phase_carries(next: PublishNext, link: Option<IoError>) -> bool {
    match next {
        PublishNext::Go(p) => match p {
            PublishPhase::CreateTemp { .. } | PublishPhase::TightenTemp { .. }
            | PublishPhase::VerifyTemp { .. } | PublishPhase::WriteTemp { .. }
            | PublishPhase::SyncTemp { .. } | PublishPhase::Link { .. }
            | PublishPhase::SyncLinkedDir => link is None,
            PublishPhase::DiscardTemp { failure, .. } => link is None && link_error(failure)
                is None,
            PublishPhase::DropTemp { end, .. } => link == (match end {
                LinkEnd::Refused(e) => Some(e),
                _ => None,
            }),
            PublishPhase::CreateMarker { link: l, .. } => link == Some(l),
            PublishPhase::SyncMarkerDir { link: l, .. } => link == Some(l),
            PublishPhase::CreateFinal { link: l, .. } => link == Some(l),
            PublishPhase::TightenFinal { link: l, .. } => link == Some(l),
            PublishPhase::VerifyFinal { link: l, .. } => link == Some(l),
            PublishPhase::DiscardFinal { failure, .. } => link_error(failure) == link,
            PublishPhase::DropMarker { end, .. } => end matches KeyPublish::Failed(why)
                ==> link_error(why) == link,
            PublishPhase::WriteFinal { link: l, .. } => link == Some(l),
            PublishPhase::SyncFinal { link: l, .. } => link == Some(l),
            PublishPhase::SyncFinalDir { link: l, .. } => link == Some(l),
            PublishPhase::Commit { link: l, .. } => link == Some(l),
            PublishPhase::SyncCommitDir => true,
            PublishPhase::AwaitClaims { link: l, .. } => link == Some(l),
            PublishPhase::PauseForClaims { link: l, .. } => link == Some(l),
        },
        PublishNext::End(end) => end matches KeyPublish::Failed(why) ==> link_error(why) == link,
    }
}

/// A failure carries the link's error exactly if the link was refused: whatever
/// step of the fallback fails, the error that led there is not lost.
pub proof fn failures_carry_the_link_error(events: PublishEvents)
    requires
        publish_run(events),
    ensures
        publish_after(events) matches PublishNext::End(KeyPublish::Failed(why)) ==> link_error(why)
            == refused_link(events),
{
    phases_carry(events);
}

proof fn phases_carry(events: PublishEvents)
    requires
        publish_run(events),
    ensures
        phase_carries(publish_after(events), refused_link(events)),
    decreases events.len(),
{
    if events.len() > 0 {
        phases_carry(events.drop_last());
    }
}

/// Whether a reply says that the name is taken.
pub open spec fn name_taken(reply: Reply) -> bool {
    reply matches Reply::Failed(e) && e.kind is AlreadyExists
}

/// Whether the operation failed, for another reason than that the name is taken.
pub open spec fn failed_otherwise(reply: Reply, e: IoError) -> bool {
    reply == Reply::Failed(e) && !(e.kind is AlreadyExists)
}

/// Whether a reply is the mode 0600, in the nine permission bits.
pub open spec fn tells_0600(reply: Reply) -> bool {
    reply matches Reply::Mode(m) && m % 0o1000 == 0o600
}

/// Whether a file could not be secured for this reason.
pub open spec fn not_secured(cause: Insecure, tightening: bool, reply: Reply) -> bool {
    match cause {
        Insecure::Tighten(e) => tightening && reply == Reply::Failed(e),
        Insecure::Stat(e) => !tightening && reply == Reply::Failed(e),
        Insecure::Mode(m) => !tightening && reply == Reply::Mode(m) && m % 0o1000 != 0o600,
    }
}

/// What led to each phase of a publish, and to each of its ends. The next name is
/// tried after a taken one, up to the sixty-fourth. A file is written only after
/// it was secured, flushed only after it was written, linked only after it was
/// flushed. A marker comes only after a refused link, the final file only after
/// the marker, and the marker goes only after the final file is on disk. The
/// publish wins once the name is linked and the directory flushed, or once it has
/// removed its own marker. It loses to a name that was taken, and where a peer
/// took its marker and has left no claim. Every failure names what failed.
pub proof fn what_leads_through_a_publish(p: PublishPhase, key: u64, reply: Reply, now: u64)
    requires
        answers(publish_op_spec(p, key), reply),
    ensures
        ({
            let done = !(reply is Failed);
            match publish_next_spec(p, reply, now) {
                PublishNext::Go(q) => match q {
                    PublishPhase::CreateTemp { n } => 0 < n < 64 && p == (
                    PublishPhase::CreateTemp { n: (n - 1) as u32 }) && name_taken(reply),
                    PublishPhase::TightenTemp { n } => p == (PublishPhase::CreateTemp { n }) && done,
                    PublishPhase::VerifyTemp { n } => p == (PublishPhase::TightenTemp { n }) && done,
                    PublishPhase::WriteTemp { n } => p == (PublishPhase::VerifyTemp { n })
                        && tells_0600(reply),
                    PublishPhase::SyncTemp { n } => p == (PublishPhase::WriteTemp { n }) && done,
                    PublishPhase::Link { n } => p == (PublishPhase::SyncTemp { n }) && done,
                    PublishPhase::DiscardTemp { n, failure } => match failure {
                        PublishFailure::TempInsecure { n: m, cause } => m == n && ((p == (
                        PublishPhase::TightenTemp { n }) && not_secured(cause, true, reply)) || (p
                            == (PublishPhase::VerifyTemp { n }) && not_secured(
                            cause,
                            false,
                            reply,
                        ))),
                        PublishFailure::TempWrite(e) => reply == Reply::Failed(e) && (p == (
                        PublishPhase::WriteTemp { n }) || p == (PublishPhase::SyncTemp { n })),
                        _ => false,
                    },
                    PublishPhase::DropTemp { n, end } => p == (PublishPhase::Link { n }) && match end {
                        LinkEnd::Linked => done,
                        LinkEnd::Taken => name_taken(reply),
                        LinkEnd::Refused(e) => failed_otherwise(reply, e),
                    },
                    PublishPhase::SyncLinkedDir => p matches PublishPhase::DropTemp { end, .. } && end
                        is Linked,
                    PublishPhase::CreateMarker { m, link } => (m == 0 && (p
                        matches PublishPhase::DropTemp { end, .. } && end == LinkEnd::Refused(
                        link,
                    )))
                        || (0 < m < 64 && p == (PublishPhase::CreateMarker {
                        m: (m - 1) as u32,
                        link,
                    }) && name_taken(reply)),
                    PublishPhase::SyncMarkerDir { m, link } => p == (PublishPhase::CreateMarker {
                        m,
                        link,
                    }) && done,
                    PublishPhase::CreateFinal { m, link } => p == (PublishPhase::SyncMarkerDir {
                        m,
                        link,
                    }),
                    PublishPhase::TightenFinal { m, link } => p == (PublishPhase::CreateFinal {
                        m,
                        link,
                    }) && done,
                    PublishPhase::VerifyFinal { m, link } => p == (PublishPhase::TightenFinal {
                        m,
                        link,
                    }) && done,
                    PublishPhase::WriteFinal { m, link } => p == (PublishPhase::VerifyFinal {
                        m,
                        link,
                    }) && tells_0600(reply),
                    PublishPhase::DiscardFinal { m, failure } => match failure {
                        PublishFailure::FinalInsecure { cause, link } => (p == (
                        PublishPhase::TightenFinal { m, link }) && not_secured(cause, true, reply))
                            || (p == (PublishPhase::VerifyFinal { m, link }) && not_secured(
                            cause,
                            false,
                            reply,
                        )),
                        _ => false,
                    },
                    PublishPhase::SyncFinal { m, link } => p == (PublishPhase::WriteFinal {
                        m,
                        link,
                    }) && done,
                    PublishPhase::SyncFinalDir { m, link } => p == (PublishPhase::SyncFinal {
                        m,
                        link,
                    }) && done,
                    PublishPhase::Commit { m, link } => p == (PublishPhase::SyncFinalDir {
                        m,
                        link,
                    }) && done,
                    PublishPhase::SyncCommitDir => p is Commit && done,
                    PublishPhase::DropMarker { m, end } => match end {
                        KeyPublish::Won => false,
                        KeyPublish::Lost => p matches PublishPhase::CreateFinal { m: k, .. } && k == m
                            && name_taken(reply),
                        KeyPublish::Failed(why) => (match why {
                            PublishFailure::FinalCreate { error, link } => p == (
                            PublishPhase::CreateFinal { m, link }) && failed_otherwise(
                                reply,
                                error,
                            ),
                            PublishFailure::FinalDirSync { error, link } => p == (
                            PublishPhase::SyncFinalDir { m, link }) && reply == Reply::Failed(error),
                            _ => false,
                        }) || p == (PublishPhase::DiscardFinal { m, failure: why }),
                    },
                    PublishPhase::AwaitClaims { since, marker, link } => (since == now && (p
                        matches PublishPhase::Commit { link: l, .. } && l == link) && reply
                        == Reply::Failed(marker)) || p == (PublishPhase::PauseForClaims {
                        since,
                        marker,
                        link,
                    }),
                    PublishPhase::PauseForClaims { since, marker, link } => p == (
                    PublishPhase::AwaitClaims { since, marker, link }) && listed(reply).len() > 0
                        && now < since + 11_000_000_000,
                },
                PublishNext::End(KeyPublish::Won) => (p is SyncLinkedDir && done) || p
                    is SyncCommitDir || (p matches PublishPhase::DropMarker { end, .. } && end
                    is Won),
                PublishNext::End(KeyPublish::Lost) => (p matches PublishPhase::DropTemp { end, .. }
                    && end is Taken) || (p matches PublishPhase::DropMarker { end, .. } && end
                    is Lost) || (p is AwaitClaims && listed(reply).len() == 0),
                PublishNext::End(KeyPublish::Failed(why)) => (match why {
                    PublishFailure::TempCreate(e) => p is CreateTemp && failed_otherwise(reply, e),
                    PublishFailure::TempNamesTaken => p matches PublishPhase::CreateTemp { n } && n
                        >= 63 && name_taken(reply),
                    PublishFailure::LinkedDirSync(e) => p is SyncLinkedDir && reply
                        == Reply::Failed(e),
                    PublishFailure::MarkerCreate { error, link } => p
                        matches PublishPhase::CreateMarker { link: l, .. } && l == link
                        && failed_otherwise(reply, error),
                    PublishFailure::MarkerNamesTaken { link } => p
                        matches PublishPhase::CreateMarker { m, link: l } && l == link && m >= 63
                        && name_taken(reply),
                    PublishFailure::FinalWrite { error, link } => p
                        matches PublishPhase::WriteFinal { link: l, .. } && l == link && reply
                        == Reply::Failed(error),
                    PublishFailure::FinalSync { error, link } => p
                        matches PublishPhase::SyncFinal { link: l, .. } && l == link && reply
                        == Reply::Failed(error),
                    PublishFailure::Unsettled { marker, link } => p
                        matches PublishPhase::AwaitClaims { since, marker: k, link: l } && k == marker
                        && l == link && listed(reply).len() > 0 && now >= since + 11_000_000_000,
                    _ => false,
                }) || (p matches PublishPhase::DiscardTemp { failure, .. } && failure == why) || (p
                    matches PublishPhase::DropMarker { end, .. } && end == KeyPublish::Failed(why)),
            }
        }),
{
    if let Reply::Mode(m) = reply {
        key_modes_in_numbers(m);
    }
}

/// What a publish works on: the temporary file and the marker of its number, and
/// the identity key. The key is written to the file that was created for it, that
/// file is flushed, and the temporary file is what is linked.
pub proof fn a_publish_works_on_its_files(p: PublishPhase, key: u64)
    ensures
        match publish_op_spec(p, key) {
            KeyOp::CreateNew(FileRef::Temp(n)) => p == (PublishPhase::CreateTemp { n }),
            KeyOp::CreateNew(FileRef::Marker(n)) => p
                matches PublishPhase::CreateMarker { m, .. } && m == n,
            KeyOp::CreateNew(FileRef::Final) => p is CreateFinal,
            KeyOp::Tighten(FileRef::Temp(n)) => p == (PublishPhase::TightenTemp { n }),
            KeyOp::Tighten(FileRef::Final) => p is TightenFinal,
            KeyOp::Stat(FileRef::Temp(n)) => p == (PublishPhase::VerifyTemp { n }),
            KeyOp::Stat(FileRef::Final) => p is VerifyFinal,
            KeyOp::WriteKey(FileRef::Temp(n), k) => p == (PublishPhase::WriteTemp { n }) && k == key,
            KeyOp::WriteKey(FileRef::Final, k) => p is WriteFinal && k == key,
            KeyOp::SyncFile(FileRef::Temp(n)) => p == (PublishPhase::SyncTemp { n }),
            KeyOp::SyncFile(FileRef::Final) => p is SyncFinal,
            KeyOp::HardLink(FileRef::Temp(n), FileRef::Final) => p == (PublishPhase::Link { n }),
            KeyOp::Remove(FileRef::Temp(n)) => (p matches PublishPhase::DiscardTemp { n: k, .. } && k
                == n) || (p matches PublishPhase::DropTemp { n: k, .. } && k == n),
            KeyOp::Remove(FileRef::Marker(n)) => (p matches PublishPhase::DropMarker { m, .. } && m
                == n) || (p matches PublishPhase::Commit { m, .. } && m == n),
            KeyOp::Remove(FileRef::Final) => p is DiscardFinal,
            KeyOp::SyncDir => p is SyncLinkedDir || p is SyncMarkerDir || p is SyncFinalDir || p
                is SyncCommitDir,
            KeyOp::ListClaims => p is AwaitClaims,
            KeyOp::Pause(t) => p is PauseForClaims && t == 2_000_000,
            _ => false,
        },
{
}

/// Whether the reply of a run at this place is none of a failure: it is no error,
/// and a mode is 0600.
pub open spec fn goes_well_at(events: PublishEvents, i: int) -> bool {
    !(events[i].0 is Failed) && (events[i].0 is Mode ==> tells_0600(events[i].0))
}

/// A publish that nothing goes against wins, after eight operations: it creates
/// its temporary file, secures it, writes and flushes it, links it, removes it and
/// flushes the directory.
pub proof fn an_undisturbed_publish_wins(events: PublishEvents, key: u64)
    requires
        publish_run(events),
        forall|i: int| #![trigger events[i]] 0 <= i < events.len() ==> goes_well_at(events, i),
    ensures
        events.len() <= 8,
        events.len() == 8 ==> publish_after(events) == PublishNext::End(KeyPublish::Won),
        events.len() < 8 ==> (publish_after(events) matches PublishNext::Go(p) && publish_op_spec(
            p,
            key,
        ) == (if events.len() == 0 {
            KeyOp::CreateNew(FileRef::Temp(0))
        } else if events.len() == 1 {
            KeyOp::Tighten(FileRef::Temp(0))
        } else if events.len() == 2 {
            KeyOp::Stat(FileRef::Temp(0))
        } else if events.len() == 3 {
            KeyOp::WriteKey(FileRef::Temp(0), key)
        } else if events.len() == 4 {
            KeyOp::SyncFile(FileRef::Temp(0))
        } else if events.len() == 5 {
            KeyOp::HardLink(FileRef::Temp(0), FileRef::Final)
        } else if events.len() == 6 {
            KeyOp::Remove(FileRef::Temp(0))
        } else {
            KeyOp::SyncDir
        })),
        events.len() == 6 ==> (publish_after(events) matches PublishNext::Go(
            PublishPhase::DropTemp { end, .. },
        ) && end is Linked),
        events.len() == 7 ==> publish_after(events) == PublishNext::Go(PublishPhase::SyncLinkedDir),
    decreases events.len(),
{
    if events.len() > 0 {
        let before = events.drop_last();
        assert forall|i: int| #![trigger before[i]] 0 <= i < before.len() implies goes_well_at(
            before,
            i,
        ) by {
            assert(events[i] == before[i]);
            assert(goes_well_at(events, i));
        }
        an_undisturbed_publish_wins(before, key);
        assert(events[events.len() - 1] == events.last());
        assert(goes_well_at(events, events.len() - 1));
        if let Reply::Mode(m) = events.last().0 {
            key_modes_in_numbers(m);
        }
    }
}

/// The number of the marker that a phase holds, if it holds one.
pub open spec fn marker_number(p: PublishPhase) -> Option<u32> {
    match p {
        PublishPhase::CreateMarker { m, .. } => Some(m),
        PublishPhase::SyncMarkerDir { m, .. } => Some(m),
        PublishPhase::CreateFinal { m, .. } => Some(m),
        PublishPhase::TightenFinal { m, .. } => Some(m),
        PublishPhase::VerifyFinal { m, .. } => Some(m),
        PublishPhase::WriteFinal { m, .. } => Some(m),
        PublishPhase::SyncFinal { m, .. } => Some(m),
        PublishPhase::SyncFinalDir { m, .. } => Some(m),
        PublishPhase::Commit { m, .. } => Some(m),
        _ => None,
    }
}

/// A publish whose link is refused, and that nothing else goes against, wins too:
/// it makes a marker, creates the identity key itself, secures it, writes and
/// flushes it, flushes the directory and removes the marker, with the directory
/// flushed behind each name.
pub proof fn a_publish_without_links_wins(events: PublishEvents, key: u64)
    requires
        publish_run(events),
        forall|i: int| #![trigger events[i]]
            0 <= i < events.len() && i != 5 ==> goes_well_at(events, i),
        events.len() > 5 ==> events[5].0 is Failed && !name_taken(events[5].0),
    ensures
        events.len() <= 17,
        events.len() == 17 ==> publish_after(events) == PublishNext::End(KeyPublish::Won),
        5 < events.len() < 17 ==> (publish_after(events) matches PublishNext::Go(p)
            && publish_op_spec(p, key) == (if events.len() == 6 {
            KeyOp::Remove(FileRef::Temp(0))
        } else if events.len() == 7 {
            KeyOp::CreateNew(FileRef::Marker(0))
        } else if events.len() == 9 {
            KeyOp::CreateNew(FileRef::Final)
        } else if events.len() == 10 {
            KeyOp::Tighten(FileRef::Final)
        } else if events.len() == 11 {
            KeyOp::Stat(FileRef::Final)
        } else if events.len() == 12 {
            KeyOp::WriteKey(FileRef::Final, key)
        } else if events.len() == 13 {
            KeyOp::SyncFile(FileRef::Final)
        } else if events.len() == 15 {
            KeyOp::Remove(FileRef::Marker(0))
        } else {
            KeyOp::SyncDir
        })),
        ({
            let next = publish_after(events);
            let n = events.len();
            &&& n <= 5 ==> next == PublishNext::Go(
                if n == 0 {
                    PublishPhase::CreateTemp { n: 0 }
                } else if n == 1 {
                    PublishPhase::TightenTemp { n: 0 }
                } else if n == 2 {
                    PublishPhase::VerifyTemp { n: 0 }
                } else if n == 3 {
                    PublishPhase::WriteTemp { n: 0 }
                } else if n == 4 {
                    PublishPhase::SyncTemp { n: 0 }
                } else {
                    PublishPhase::Link { n: 0 }
                },
            )
            &&& n == 6 ==> (next matches PublishNext::Go(PublishPhase::DropTemp { end, .. }) && end
                is Refused)
            &&& 7 <= n <= 15 ==> (next matches PublishNext::Go(p) && marker_number(p) == Some(0u32))
            &&& n == 8 ==> (next matches PublishNext::Go(p) && p is SyncMarkerDir)
            &&& n == 14 ==> (next matches PublishNext::Go(p) && p is SyncFinalDir)
            &&& n == 15 ==> (next matches PublishNext::Go(p) && p is Commit)
            &&& n == 16 ==> next == PublishNext::Go(PublishPhase::SyncCommitDir)
        }),
    decreases events.len(),
{
    if events.len() > 0 {
        let before = events.drop_last();
        assert forall|i: int| #![trigger before[i]]
            0 <= i < before.len() && i != 5 implies goes_well_at(before, i) by {
            assert(events[i] == before[i]);
            assert(goes_well_at(events, i));
        }
        if before.len() > 5 {
            assert(before[5] == events[5]);
        }
        a_publish_without_links_wins(before, key);
        assert(events[events.len() - 1] == events.last());
        if events.len() != 6 {
            assert(goes_well_at(events, events.len() - 1));
        }
        if let Reply::Mode(m) = events.last().0 {
            key_modes_in_numbers(m);
        }
    }
}

} // verus!
