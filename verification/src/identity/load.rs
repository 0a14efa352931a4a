//! Loading the identity key: one attempt, and the attempts of a start that may
//! meet a key still being published.

use vstd::prelude::*;

use crate::identity::ops::{
    answers, elapsed, elapsed_spec, is_key_mode, key_mode_ok, key_modes_in_numbers, listed, FileRef,
    IoError, IoKind, KeyOp, Reply, CRASH_SIGNATURE_MIN_PERSIST, KEY_RACE_DEADLINE, POLL_PAUSE,
};

verus! {

/// Why a key could not be loaded.
#[derive(Clone, Copy, PartialEq, Eq, Structural, Debug)]
pub enum LoadError {
    /// A loose mode could not be tightened.
    Tighten(IoError),
    /// The mode could not be read.
    Stat(IoError),
    /// The mode is another than 0600.
    Mode(u32),
    /// The file could not be read.
    Read(IoError),
    /// The file holds no key; the caller's number for the parse error.
    Content(u64),
}

/// Whether the file's content is at fault, and not the file system.
pub open spec fn content_error(e: LoadError) -> bool {
    e is Content
}

/// Whether the file's content is at fault, and not the file system.
pub fn is_key_content_error(e: &LoadError) -> (r: bool)
    ensures
        r == content_error(*e),
{
    match e {
        LoadError::Content(_) => true,
        _ => false,
    }
}

/// Whether the file was missing.
pub open spec fn missing_file(e: LoadError) -> bool {
    match e {
        LoadError::Tighten(io) => io.kind is NotFound,
        LoadError::Stat(io) => io.kind is NotFound,
        LoadError::Read(io) => io.kind is NotFound,
        _ => false,
    }
}

/// Whether the file was missing.
pub fn is_missing_file(e: &LoadError) -> (r: bool)
    ensures
        r == missing_file(*e),
{
    match e {
        LoadError::Tighten(io) => io.kind == IoKind::NotFound,
        LoadError::Stat(io) => io.kind == IoKind::NotFound,
        LoadError::Read(io) => io.kind == IoKind::NotFound,
        _ => false,
    }
}

/// Where one attempt stands: the operation on the identity key that it waits
/// for.
#[derive(Clone, Copy, PartialEq, Eq, Structural, Debug)]
pub enum LoadPhase {
    /// Is the mode loose?
    Look,
    Tighten,
    Verify,
    Read,
}

/// What a step of an attempt leads to.
#[derive(Clone, Copy, PartialEq, Eq, Structural, Debug)]
pub enum LoadNext {
    Go(LoadPhase),
    Loaded(u64),
    Failed(LoadError),
}

/// The operation that a phase of an attempt waits for.
pub open spec fn load_op_spec(p: LoadPhase) -> KeyOp {
    match p {
        LoadPhase::Look | LoadPhase::Verify => KeyOp::Stat(FileRef::Final),
        LoadPhase::Tighten => KeyOp::Tighten(FileRef::Final),
        LoadPhase::Read => KeyOp::ReadKey(FileRef::Final),
    }
}

/// What the reply to a phase's operation leads to. A loose mode is tightened;
/// a key is read only once its mode was seen to be 0600.
pub open spec fn load_next_spec(p: LoadPhase, reply: Reply) -> LoadNext {
    match p {
        LoadPhase::Look => match reply {
            Reply::Mode(m) if !is_key_mode(m) => LoadNext::Go(LoadPhase::Tighten),
            _ => LoadNext::Go(LoadPhase::Verify),
        },
        LoadPhase::Tighten => match reply {
            Reply::Failed(e) => LoadNext::Failed(LoadError::Tighten(e)),
            _ => LoadNext::Go(LoadPhase::Verify),
        },
        LoadPhase::Verify => match reply {
            Reply::Failed(e) => LoadNext::Failed(LoadError::Stat(e)),
            _ => if is_key_mode(reply->Mode_0) {
                LoadNext::Go(LoadPhase::Read)
            } else {
                LoadNext::Failed(LoadError::Mode(reply->Mode_0))
            },
        },
        LoadPhase::Read => match reply {
            Reply::Failed(e) => LoadNext::Failed(LoadError::Read(e)),
            Reply::BadKey(id) => LoadNext::Failed(LoadError::Content(id)),
            _ => LoadNext::Loaded(reply->Key_0),
        },
    }
}

/// Begins an attempt to load the identity key.
pub fn load_existing_key() -> (r: LoadPhase)
    ensures
        r is Look,
{
    LoadPhase::Look
}

/// The operation that a phase of an attempt waits for.
pub fn load_op(p: LoadPhase) -> (r: KeyOp)
    ensures
        r == load_op_spec(p),
{
    match p {
        LoadPhase::Look | LoadPhase::Verify => KeyOp::Stat(FileRef::Final),
        LoadPhase::Tighten => KeyOp::Tighten(FileRef::Final),
        LoadPhase::Read => KeyOp::ReadKey(FileRef::Final),
    }
}

/// What the reply to a phase's operation leads to.
pub fn load_next(p: LoadPhase, reply: &Reply) -> (r: LoadNext)
    requires
        answers(load_op_spec(p), *reply),
    ensures
        r == load_next_spec(p, *reply),
{
    match p {
        LoadPhase::Look => match reply {
            Reply::Mode(m) => if key_mode_ok(*m) {
                LoadNext::Go(LoadPhase::Verify)
            } else {
                LoadNext::Go(LoadPhase::Tighten)
            },
            _ => LoadNext::Go(LoadPhase::Verify),
        },
        LoadPhase::Tighten => match reply.error() {
            Some(e) => LoadNext::Failed(LoadError::Tighten(e)),
            None => LoadNext::Go(LoadPhase::Verify),
        },
        LoadPhase::Verify => match reply {
            Reply::Mode(m) => if key_mode_ok(*m) {
                LoadNext::Go(LoadPhase::Read)
            } else {
                LoadNext::Failed(LoadError::Mode(*m))
            },
            Reply::Failed(e) => LoadNext::Failed(LoadError::Stat(*e)),
            _ => LoadNext::Go(LoadPhase::Look),
        },
        LoadPhase::Read => match reply {
            Reply::Key(k) => LoadNext::Loaded(*k),
            Reply::BadKey(id) => LoadNext::Failed(LoadError::Content(*id)),
            Reply::Failed(e) => LoadNext::Failed(LoadError::Read(*e)),
            _ => LoadNext::Go(LoadPhase::Look),
        },
    }
}

/// A key is read only right after its mode was seen to be 0600.
pub proof fn key_is_read_only_when_secured(p: LoadPhase, reply: Reply)
    requires
        answers(load_op_spec(p), reply),
        load_next_spec(p, reply) == LoadNext::Go(LoadPhase::Read),
    ensures
        p is Verify,
        reply is Mode,
        is_key_mode(reply->Mode_0),
{
}

/// Where the attempts of a start stand.
#[derive(Clone, Copy, PartialEq, Eq, Structural, Debug)]
pub enum BootLoadPhase {
    /// In an attempt.
    Attempt(LoadPhase),
    /// An attempt failed on the content; are there files to claim?
    Look(LoadError),
    /// Sleep before the next attempt.
    Pause,
}

/// The attempts of a start.
#[derive(Clone, Copy, PartialEq, Eq, Structural, Debug)]
pub struct BootLoad {
    pub phase: BootLoadPhase,
    /// Whether the crash signature ends the attempts.
    pub crash_exit: bool,
    /// When the attempts began.
    pub started: u64,
    /// Since when the crash signature was seen without a break.
    pub signature_since: Option<u64>,
}

/// How the attempts of a start ended, or that they go on.
#[derive(Clone, Copy, PartialEq, Eq, Structural, Debug)]
pub enum BootLoadNext {
    Go(BootLoad),
    Loaded(u64),
    /// The content is at fault, and files to claim stood beside it for
    /// [`CRASH_SIGNATURE_MIN_PERSIST`].
    CrashSignature(LoadError),
    /// Any other failure, after [`KEY_RACE_DEADLINE`].
    Failed(LoadError),
}

/// The attempts of a start that begin at `now`.
pub open spec fn boot_load_start(crash_exit: bool, now: u64) -> BootLoad {
    BootLoad {
        phase: BootLoadPhase::Attempt(LoadPhase::Look),
        crash_exit,
        started: now,
        signature_since: None,
    }
}

/// The operation that the attempts wait for.
pub open spec fn boot_load_op_spec(b: BootLoad) -> KeyOp {
    match b.phase {
        BootLoadPhase::Attempt(p) => load_op_spec(p),
        BootLoadPhase::Look(_) => KeyOp::ListClaimables,
        BootLoadPhase::Pause => KeyOp::Pause(POLL_PAUSE),
    }
}

/// After a failed attempt: give up once the deadline has passed, else pause.
pub open spec fn retry_or_fail(b: BootLoad, e: LoadError, now: u64) -> BootLoadNext {
    if elapsed_spec(b.started, now) >= KEY_RACE_DEADLINE {
        BootLoadNext::Failed(e)
    } else {
        BootLoadNext::Go(BootLoad { phase: BootLoadPhase::Pause, ..b })
    }
}

/// What the reply to the operation that the attempts wait for leads to.
pub open spec fn boot_load_next_spec(b: BootLoad, reply: Reply, now: u64) -> BootLoadNext {
    match b.phase {
        BootLoadPhase::Attempt(p) => match load_next_spec(p, reply) {
            LoadNext::Go(q) => BootLoadNext::Go(
                BootLoad { phase: BootLoadPhase::Attempt(q), ..b },
            ),
            LoadNext::Loaded(k) => BootLoadNext::Loaded(k),
            LoadNext::Failed(e) => if b.crash_exit && content_error(e) {
                BootLoadNext::Go(BootLoad { phase: BootLoadPhase::Look(e), ..b })
            } else {
                retry_or_fail(BootLoad { signature_since: None, ..b }, e, now)
            },
        },
        BootLoadPhase::Look(e) => if listed(reply).len() == 0 {
            retry_or_fail(BootLoad { signature_since: None, ..b }, e, now)
        } else {
            let since = match b.signature_since {
                Some(s) => s,
                None => now,
            };
            if elapsed_spec(since, now) >= CRASH_SIGNATURE_MIN_PERSIST {
                BootLoadNext::CrashSignature(e)
            } else {
                retry_or_fail(BootLoad { signature_since: Some(since), ..b }, e, now)
            }
        },
        BootLoadPhase::Pause => BootLoadNext::Go(
            BootLoad { phase: BootLoadPhase::Attempt(LoadPhase::Look), ..b },
        ),
    }
}

/// Begins the attempts of a start. With `crash_exit`, a persisting crash
/// signature ends them.
pub fn boot_load_key(crash_exit: bool, now: u64) -> (r: BootLoad)
    ensures
        r == boot_load_start(crash_exit, now),
{
    BootLoad {
        phase: BootLoadPhase::Attempt(LoadPhase::Look),
        crash_exit,
        started: now,
        signature_since: None,
    }
}

/// Begins the attempts to load a key that another start may be publishing.
pub fn load_racing_key(now: u64) -> (r: BootLoad)
    ensures
        r == boot_load_start(false, now),
{
    boot_load_key(false, now)
}

/// The operation that the attempts wait for.
pub fn boot_load_op(b: BootLoad) -> (r: KeyOp)
    ensures
        r == boot_load_op_spec(b),
{
    match b.phase {
        BootLoadPhase::Attempt(p) => load_op(p),
        BootLoadPhase::Look(_) => KeyOp::ListClaimables,
        BootLoadPhase::Pause => KeyOp::Pause(POLL_PAUSE),
    }
}

fn after_failure(b: BootLoad, e: LoadError, now: u64) -> (r: BootLoadNext)
    ensures
        r == retry_or_fail(b, e, now),
{
    if elapsed(b.started, now) >= KEY_RACE_DEADLINE {
        BootLoadNext::Failed(e)
    } else {
        BootLoadNext::Go(BootLoad { phase: BootLoadPhase::Pause, ..b })
    }
}

/// What the reply to the operation that the attempts wait for leads to.
pub fn boot_load_next(b: BootLoad, reply: &Reply, now: u64) -> (r: BootLoadNext)
    requires
        answers(boot_load_op_spec(b), *reply),
    ensures
        r == boot_load_next_spec(b, *reply, now),
{
    match b.phase {
        BootLoadPhase::Attempt(p) => match load_next(p, reply) {
            LoadNext::Go(q) => BootLoadNext::Go(
                BootLoad { phase: BootLoadPhase::Attempt(q), ..b },
            ),
            LoadNext::Loaded(k) => BootLoadNext::Loaded(k),
            LoadNext::Failed(e) => if b.crash_exit && is_key_content_error(&e) {
                BootLoadNext::Go(BootLoad { phase: BootLoadPhase::Look(e), ..b })
            } else {
                after_failure(BootLoad { signature_since: None, ..b }, e, now)
            },
        },
        BootLoadPhase::Look(e) => {
            let none = match reply {
                Reply::Ids(ids) => ids.len() == 0,
                _ => true,
            };
            if none {
                after_failure(BootLoad { signature_since: None, ..b }, e, now)
            } else {
                let since: u64 = match b.signature_since {
                    Some(s) => s,
                    None => now,
                };
                if elapsed(since, now) >= CRASH_SIGNATURE_MIN_PERSIST {
                    BootLoadNext::CrashSignature(e)
                } else {
                    after_failure(BootLoad { signature_since: Some(since), ..b }, e, now)
                }
            }
        },
        BootLoadPhase::Pause => BootLoadNext::Go(
            BootLoad { phase: BootLoadPhase::Attempt(LoadPhase::Look), ..b },
        ),
    }
}

/// A run of the attempts: the replies, with the times at which they came.
pub type LoadEvents = Seq<(Reply, u64)>;

/// Where a run has led.
pub open spec fn boot_load_after(crash_exit: bool, start: u64, events: LoadEvents) -> BootLoadNext
    decreases events.len(),
{
    if events.len() == 0 {
        BootLoadNext::Go(boot_load_start(crash_exit, start))
    } else {
        match boot_load_after(crash_exit, start, events.drop_last()) {
            BootLoadNext::Go(b) => boot_load_next_spec(b, events.last().0, events.last().1),
            end => end,
        }
    }
}

/// Whether every reply of a run answers an operation that was waited for.
pub open spec fn boot_load_run(crash_exit: bool, start: u64, events: LoadEvents) -> bool
    decreases events.len(),
{
    events.len() > 0 ==> {
        &&& boot_load_run(crash_exit, start, events.drop_last())
        &&& boot_load_after(crash_exit, start, events.drop_last()) matches BootLoadNext::Go(b)
            && answers(boot_load_op_spec(b), events.last().0)
    }
}

/// Whether the run, at its event `at`, looked for files to claim after a
/// failure of the content, and found some.
pub open spec fn signature_seen(crash_exit: bool, start: u64, events: LoadEvents, at: int) -> bool {
    &&& 0 <= at < events.len()
    &&& boot_load_after(crash_exit, start, events.take(at)) matches BootLoadNext::Go(b)
        && b.phase is Look && content_error(b.phase->Look_0) && listed(events[at].0).len() > 0
}

/// Whether the run, at its event `at`, ended an attempt without the crash
/// signature: with a failure of another kind, or with nothing to claim.
pub open spec fn signature_missed(
    crash_exit: bool,
    start: u64,
    events: LoadEvents,
    at: int,
) -> bool {
    &&& 0 <= at < events.len()
    &&& boot_load_after(crash_exit, start, events.take(at)) matches BootLoadNext::Go(b) && ((
    b.phase is Look && listed(events[at].0).len() == 0) || (b.phase matches BootLoadPhase::Attempt(
        p,
    ) && load_next_spec(p, events[at].0) matches LoadNext::Failed(e) && !content_error(e)))
}

proof fn look_is_after_a_content_error(crash_exit: bool, start: u64, events: LoadEvents)
    requires
        boot_load_run(crash_exit, start, events),
    ensures
        boot_load_after(crash_exit, start, events) matches BootLoadNext::Go(b) ==> b.crash_exit
            == crash_exit && b.started == start && (b.phase matches BootLoadPhase::Look(e)
            ==> crash_exit && content_error(e)),
    decreases events.len(),
{
    if events.len() > 0 {
        look_is_after_a_content_error(crash_exit, start, events.drop_last());
    }
}

/// A recorded signature time is the time of a sighting since which none was
/// missed.
proof fn signature_time_is_a_sighting(crash_exit: bool, start: u64, events: LoadEvents, s: u64)
    requires
        boot_load_run(crash_exit, start, events),
        boot_load_after(crash_exit, start, events) matches BootLoadNext::Go(b)
            && b.signature_since == Some(s),
    ensures
        exists|i: int|
            #[trigger] signature_seen(crash_exit, start, events, i) && events[i].1 == s && forall|
                j: int,
            |
                i < j < events.len() ==> !#[trigger] signature_missed(crash_exit, start, events, j),
    decreases events.len(),
{
    let shorter = events.drop_last();
    let last = events.len() - 1;
    assert(events.take(last) =~= shorter);
    look_is_after_a_content_error(crash_exit, start, shorter);
    assert forall|j: int| 0 <= j < last implies #[trigger] signature_missed(
        crash_exit,
        start,
        shorter,
        j,
    ) == signature_missed(crash_exit, start, events, j) by {
        assert(shorter.take(j) =~= events.take(j));
    }
    let b = boot_load_after(crash_exit, start, shorter)->Go_0;
    if b.phase is Look && b.signature_since is None {
        assert(signature_seen(crash_exit, start, events, last));
    } else {
        assert(b.signature_since == Some(s));
        signature_time_is_a_sighting(crash_exit, start, shorter, s);
        let i = choose|i: int|
            #[trigger] signature_seen(crash_exit, start, shorter, i) && shorter[i].1 == s && forall|
                j: int,
            |
                i < j < shorter.len() ==> !#[trigger] signature_missed(
                    crash_exit,
                    start,
                    shorter,
                    j,
                );
        assert(shorter.take(i) =~= events.take(i));
        assert(signature_seen(crash_exit, start, events, i));
        assert(!signature_missed(crash_exit, start, events, last));
        assert forall|j: int| i < j < events.len() implies !#[trigger] signature_missed(
            crash_exit,
            start,
            events,
            j,
        ) by {
            if j < last {
                assert(!signature_missed(crash_exit, start, shorter, j));
            }
        }
    }
}

/// A crash is seen only where the content stayed at fault beside files to
/// claim: the run saw the crash signature at some time, saw it again
/// [`CRASH_SIGNATURE_MIN_PERSIST`] later or more, and missed it at no attempt
/// in between. And it is seen only where it may end the attempts.
pub proof fn crash_signature_has_persisted(
    crash_exit: bool,
    start: u64,
    events: LoadEvents,
    e: LoadError,
)
    requires
        boot_load_run(crash_exit, start, events),
        boot_load_after(crash_exit, start, events) == BootLoadNext::CrashSignature(e),
    ensures
        crash_exit,
        content_error(e),
        signature_seen(crash_exit, start, events, events.len() - 1),
        exists|i: int|
            #[trigger] signature_seen(crash_exit, start, events, i) && elapsed_spec(
                events[i].1,
                events.last().1,
            ) >= CRASH_SIGNATURE_MIN_PERSIST && forall|j: int|
                i < j < events.len() ==> !#[trigger] signature_missed(crash_exit, start, events, j),
{
    let shorter = events.drop_last();
    let last = events.len() - 1;
    assert(events.take(last) =~= shorter);
    look_is_after_a_content_error(crash_exit, start, shorter);
    let b = boot_load_after(crash_exit, start, shorter)->Go_0;
    assert(signature_seen(crash_exit, start, events, last));
    let s = b.signature_since->0;
    assert(b.signature_since is Some);
    signature_time_is_a_sighting(crash_exit, start, shorter, s);
    let i = choose|i: int|
        #[trigger] signature_seen(crash_exit, start, shorter, i) && shorter[i].1 == s && forall|
            j: int,
        |
            i < j < shorter.len() ==> !#[trigger] signature_missed(crash_exit, start, shorter, j);
    assert(shorter.take(i) =~= events.take(i));
    assert(signature_seen(crash_exit, start, events, i));
    assert forall|j: int| i < j < events.len() implies !#[trigger] signature_missed(
        crash_exit,
        start,
        events,
        j,
    ) by {
        if j < last {
            assert(shorter.take(j) =~= events.take(j));
            assert(!signature_missed(crash_exit, start, shorter, j));
        }
    }
}

/// The attempts fail only after [`KEY_RACE_DEADLINE`].
pub proof fn failure_waits_for_the_deadline(
    crash_exit: bool,
    start: u64,
    events: LoadEvents,
    e: LoadError,
)
    requires
        boot_load_run(crash_exit, start, events),
        boot_load_after(crash_exit, start, events) == BootLoadNext::Failed(e),
    ensures
        events.len() > 0,
        elapsed_spec(start, events.last().1) >= KEY_RACE_DEADLINE,
{
    look_is_after_a_content_error(crash_exit, start, events.drop_last());
}

/// What an attempt makes of a mode: a file whose nine permission bits are others
/// than those of 0600 is tightened before anything else is done with it; and a
/// file that is still not 0600 after that is not read: the attempt fails, and
/// names the mode.
pub proof fn loose_modes_are_tightened_or_refused(m: u32)
    ensures
        m % 0o1000 != 0o600 ==> load_next_spec(LoadPhase::Look, Reply::Mode(m)) == LoadNext::Go(
            LoadPhase::Tighten,
        ),
        m % 0o1000 == 0o600 ==> load_next_spec(LoadPhase::Look, Reply::Mode(m)) == LoadNext::Go(
            LoadPhase::Verify,
        ),
        m % 0o1000 == 0o600 ==> load_next_spec(LoadPhase::Verify, Reply::Mode(m)) == LoadNext::Go(
            LoadPhase::Read,
        ),
        m % 0o1000 != 0o600 ==> load_next_spec(LoadPhase::Verify, Reply::Mode(m))
            == LoadNext::Failed(LoadError::Mode(m)),
{
    key_modes_in_numbers(m);
}

/// Where one attempt leads.
pub open spec fn load_after(replies: Seq<Reply>) -> LoadNext
    decreases replies.len(),
{
    if replies.len() == 0 {
        LoadNext::Go(LoadPhase::Look)
    } else {
        match load_after(replies.drop_last()) {
            LoadNext::Go(p) => load_next_spec(p, replies.last()),
            end => end,
        }
    }
}

/// Whether every reply of an attempt answers an operation that was waited for.
pub open spec fn load_run(replies: Seq<Reply>) -> bool
    decreases replies.len(),
{
    replies.len() > 0 ==> {
        &&& load_run(replies.drop_last())
        &&& load_after(replies.drop_last()) matches LoadNext::Go(p) && answers(
            load_op_spec(p),
            replies.last(),
        )
    }
}

/// An attempt from beginning to end. The mode is looked at. Where it was told and
/// is not 0600, it is set; a failure of that is the attempt's. Then the mode is
/// looked at again, which has to succeed and show 0600. Then the file is read, and
/// the attempt ends with the key that was read, or with why there is none.
pub proof fn an_attempt_looks_tightens_verifies_and_reads(replies: Seq<Reply>)
    requires
        load_run(replies),
    ensures
        ({
            let loose = replies.len() > 0 && (replies[0] matches Reply::Mode(m) && m % 0o1000
                != 0o600);
            let v = if loose { 2int } else { 1int };
            let sealed = replies.len() > v && (replies[v] matches Reply::Mode(m) && m % 0o1000
                == 0o600);
            &&& replies.len() <= v + 2
            &&& match load_after(replies) {
                LoadNext::Go(p) => {
                    &&& replies.len() == 0 <==> p is Look
                    &&& p is Tighten <==> loose && replies.len() == 1
                    &&& p is Verify <==> replies.len() == v && (loose ==> !(replies[1] is Failed))
                    &&& p is Read <==> replies.len() == v + 1 && sealed
                },
                LoadNext::Loaded(k) => replies.len() == v + 2 && sealed && replies[v + 1]
                    == Reply::Key(k),
                LoadNext::Failed(e) => match e {
                    LoadError::Tighten(io) => loose && replies.len() == 2 && replies[1]
                        == Reply::Failed(io),
                    LoadError::Stat(io) => replies.len() == v + 1 && replies[v] == Reply::Failed(io),
                    LoadError::Mode(m) => replies.len() == v + 1 && replies[v] == Reply::Mode(m) && m
                        % 0o1000 != 0o600,
                    LoadError::Read(io) => replies.len() == v + 2 && sealed && replies[v + 1]
                        == Reply::Failed(io),
                    LoadError::Content(id) => replies.len() == v + 2 && sealed && replies[v + 1]
                        == Reply::BadKey(id),
                },
            }
        }),
    decreases replies.len(),
{
    if replies.len() > 0 {
        let before = replies.drop_last();
        an_attempt_looks_tightens_verifies_and_reads(before);
        if replies.last() is Mode {
            key_modes_in_numbers(replies.last()->Mode_0);
        }
        assert forall|i: int| 0 <= i < before.len() implies before[i] == replies[i] by {}
    }
}

/// The operations of an attempt are all on the identity key: the looks ask for its
/// mode, and the others set the mode and read the key.
pub proof fn attempts_work_on_the_identity_key(p: LoadPhase)
    ensures
        load_op_spec(p) == KeyOp::Stat(FileRef::Final) <==> p is Look || p is Verify,
        load_op_spec(p) == KeyOp::Tighten(FileRef::Final) <==> p is Tighten,
        load_op_spec(p) == KeyOp::ReadKey(FileRef::Final) <==> p is Read,
{
}

/// What led to each state of a start's attempts, and to each of their ends. An
/// attempt goes on as attempts do. Files to claim are looked for only after a
/// failure of the content, and only where a crash may end the attempts; a crash is
/// told only once they were there for a quarter of a second, without a break. Any
/// other failure is the end only once five seconds have passed since the attempts
/// began, and is paused after before that; and after a pause a new attempt begins.
/// A key that was read is the end at once.
pub proof fn what_leads_through_the_attempts(b: BootLoad, reply: Reply, now: u64)
    requires
        answers(boot_load_op_spec(b), reply),
    ensures
        ({
            let failure = match b.phase {
                BootLoadPhase::Attempt(p) => match load_next_spec(p, reply) {
                    LoadNext::Failed(e) => Some(e),
                    _ => None,
                },
                BootLoadPhase::Look(e) => Some(e),
                BootLoadPhase::Pause => None,
            };
            let seen = b.phase is Look && listed(reply).len() > 0;
            let since = match b.signature_since {
                Some(s) if seen => s,
                _ => now,
            };
            match boot_load_next_spec(b, reply, now) {
                BootLoadNext::Loaded(k) => b.phase matches BootLoadPhase::Attempt(p) && p is Read
                    && reply == Reply::Key(k),
                BootLoadNext::CrashSignature(e) => seen && failure == Some(e) && now >= since
                    + 250_000_000,
                BootLoadNext::Failed(e) => {
                    &&& failure == Some(e)
                    &&& now >= b.started + 5_000_000_000
                    &&& seen ==> now < since + 250_000_000
                    &&& b.phase is Attempt ==> !(b.crash_exit && e is Content)
                },
                BootLoadNext::Go(c) => {
                    &&& c.crash_exit == b.crash_exit
                    &&& c.started == b.started
                    &&& match c.phase {
                        BootLoadPhase::Attempt(q) => {
                            &&& c.signature_since == b.signature_since
                            &&& (b.phase is Pause && q is Look) || (b.phase
                                matches BootLoadPhase::Attempt(p) && load_next_spec(p, reply)
                                == LoadNext::Go(q))
                        },
                        BootLoadPhase::Look(e) => b.phase is Attempt && failure == Some(e)
                            && b.crash_exit && e is Content && c.signature_since
                            == b.signature_since,
                        BootLoadPhase::Pause => {
                            &&& failure is Some
                            &&& now < b.started + 5_000_000_000
                            &&& seen ==> now < since + 250_000_000 && c.signature_since == Some(
                                since,
                            )
                            &&& !seen ==> c.signature_since is None
                            &&& b.phase is Attempt ==> !(b.crash_exit && failure->0 is Content)
                        },
                    }
                },
            }
        }),
{
}

/// What the attempts wait for: in an attempt what the attempt waits for, after a
/// failure of the content a listing of the files to claim, and else a pause of two
/// milliseconds. They begin with a new attempt, and with no crash seen.
pub proof fn what_the_attempts_wait_for(b: BootLoad, crash_exit: bool, now: u64)
    ensures
        b.phase matches BootLoadPhase::Attempt(p) ==> boot_load_op_spec(b) == load_op_spec(p),
        b.phase is Look ==> boot_load_op_spec(b) is ListClaimables,
        b.phase is Pause ==> boot_load_op_spec(b) == KeyOp::Pause(2_000_000),
        boot_load_start(crash_exit, now).phase == BootLoadPhase::Attempt(LoadPhase::Look),
        boot_load_start(crash_exit, now).crash_exit == crash_exit,
        boot_load_start(crash_exit, now).started == now,
        boot_load_start(crash_exit, now).signature_since is None,
{
}

/// Only a file that was read and holds no key has its content at fault; and a file
/// is missing where an operation on it says so.
pub proof fn kinds_of_load_errors(e: LoadError)
    ensures
        content_error(e) <==> e is Content,
        missing_file(e) <==> match e {
            LoadError::Tighten(io) => io.kind is NotFound,
            LoadError::Stat(io) => io.kind is NotFound,
            LoadError::Read(io) => io.kind is NotFound,
            LoadError::Mode(_) => false,
            LoadError::Content(_) => false,
        },
{
}

} // verus!
