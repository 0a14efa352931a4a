//! The decisions of a node that is spawned for a test: what its files are called, and how it is
//! torn down so that neither its database connections nor its directory outlive it.

use crate::state::repo_key::{owner_slug, slug_of};
use crate::text::{concat2, concat3, decimal, decimal_injective, decimal_string};
use vstd::prelude::*;

verus! {

/// The name of the directory for the repositories of the `n`-th node of a process.
pub open spec fn repos_dir_text(pid: nat, n: nat) -> Seq<char> {
    "gitlawb-deny-harness-"@ + decimal(pid) + "-"@ + decimal(n)
}

/// The name of the directory for the repositories of the `n`-th node of a process.
pub fn unique_repos_dir(pid: u32, n: u64) -> (r: String)
    ensures
        r@ == repos_dir_text(pid as nat, n as nat),
{
    let head = concat3("gitlawb-deny-harness-", decimal_string(pid as u64).as_str(), "-");
    concat2(head.as_str(), decimal_string(n).as_str())
}

/// Two nodes of one process never share a directory.
pub proof fn directories_are_distinct(pid: nat, a: nat, b: nat)
    requires
        a != b,
    ensures
        repos_dir_text(pid, a) != repos_dir_text(pid, b),
{
    let head = "gitlawb-deny-harness-"@ + decimal(pid) + "-"@;
    if repos_dir_text(pid, a) == repos_dir_text(pid, b) {
        assert(repos_dir_text(pid, a).skip(head.len() as int) =~= decimal(a));
        assert(repos_dir_text(pid, b).skip(head.len() as int) =~= decimal(b));
        decimal_injective(a, b);
    }
}

/// Where the bare repository of an owner lies below the directory of the repositories: the
/// owner's directory, and the repository's directory in it.
pub fn bare_repo_path(owner_did: &str, name: &str) -> (r: (String, String))
    ensures
        r.0@ == owner_slug(owner_did@),
        r.1@ == name@ + ".git"@,
{
    (slug_of(owner_did), concat2(name, ".git"))
}

/// The directory of the work tree from which a bare repository is cloned.
pub fn source_dir(name: &str) -> (r: String)
    ensures
        r@ == "src-"@ + name@,
{
    concat2("src-", name)
}

/// The disk path that a seeded repository's record carries.
pub fn seeded_disk_path(name: &str) -> (r: String)
    ensures
        r@ == "/tmp/"@ + name@,
{
    concat2("/tmp/", name)
}

/// The blob of a seeded issue.
pub fn seeded_issue(author_did: &str) -> (r: String)
    ensures
        r@ == "{\"author\":\""@ + author_did@ + "\"}"@,
{
    concat3("{\"author\":\"", author_did, "\"}")
}

/// The URL of a node that listens on `address`.
pub fn base_url(address: &str) -> (r: String)
    ensures
        r@ == "http://"@ + address@,
{
    concat2("http://", address)
}

/// How the task that serves ended.
#[derive(Clone, Copy, PartialEq, Eq, Structural, Debug)]
pub enum ServeTeardown {
    /// It returned, with success or with an error.
    Graceful { ok: bool },
    /// It did not return in time and was aborted.
    TimedOutAborted,
}

/// What was seen of the task that serves.
#[derive(Clone, Copy, PartialEq, Eq, Structural, Debug)]
pub enum JoinEvent {
    /// It returned, with success or with an error.
    Finished { ok: bool },
    /// The time for the join has run out.
    Elapsed,
    /// It ended because it was aborted.
    Cancelled,
    /// It panicked.
    Panicked,
}

/// What follows from it.
#[derive(Clone, Copy, PartialEq, Eq, Structural, Debug)]
pub enum JoinNext {
    /// Wait on.
    Wait,
    /// Abort the task, and wait until it is gone.
    Abort,
    /// The join is over.
    Joined(ServeTeardown),
    /// The task panicked, and so does the caller.
    Panic,
}

/// What follows from an event, where `aborted` tells whether the task was aborted already.
pub open spec fn join_next(aborted: bool, e: JoinEvent) -> JoinNext {
    match e {
        JoinEvent::Finished { ok } => JoinNext::Joined(ServeTeardown::Graceful { ok }),
        JoinEvent::Elapsed => if aborted {
            JoinNext::Wait
        } else {
            JoinNext::Abort
        },
        JoinEvent::Cancelled => if aborted {
            JoinNext::Joined(ServeTeardown::TimedOutAborted)
        } else {
            JoinNext::Panic
        },
        JoinEvent::Panicked => JoinNext::Panic,
    }
}

/// What follows from an event of the task, where `aborted` tells whether it was aborted already.
/// A task that returns while it is being aborted has returned: it was not wedged.
pub fn join_or_abort(aborted: bool, e: JoinEvent) -> (r: JoinNext)
    ensures
        r == join_next(aborted, e),
{
    match e {
        JoinEvent::Finished { ok } => JoinNext::Joined(ServeTeardown::Graceful { ok }),
        JoinEvent::Elapsed => if aborted {
            JoinNext::Wait
        } else {
            JoinNext::Abort
        },
        JoinEvent::Cancelled => if aborted {
            JoinNext::Joined(ServeTeardown::TimedOutAborted)
        } else {
            JoinNext::Panic
        },
        JoinEvent::Panicked => JoinNext::Panic,
    }
}

/// Where a teardown stands: what it does next.
#[derive(Clone, Copy, PartialEq, Eq, Structural, Debug)]
pub enum TeardownPhase {
    /// Tell the server to end.
    Signal { serving: bool },
    /// Wait for the task that serves.
    Join,
    /// Abort the task, and wait until it is gone.
    Abort,
    /// Close the connections to the database.
    ClosePool { outcome: Option<ServeTeardown> },
    /// Remove the directory of the repositories.
    RemoveDir { outcome: Option<ServeTeardown> },
}

/// What came of the last action.
#[derive(Clone, Copy, PartialEq, Eq, Structural, Debug)]
pub enum TeardownEvent {
    /// The action was performed, whether it succeeded or not.
    Performed,
    /// The task that serves was seen.
    Task(JoinEvent),
}

/// How a teardown ends.
#[derive(Clone, Copy, PartialEq, Eq, Structural, Debug)]
pub enum TeardownEnd {
    /// All is well.
    Clean,
    /// The server ended with an error: the test panics.
    ServeFailed,
    /// The server did not end in time: the test panics.
    Wedged,
    /// The task that serves panicked, and so does the test.
    ServePanicked,
}

/// The verdict on how the task that serves ended; there may have been none.
pub open spec fn verdict(outcome: Option<ServeTeardown>) -> TeardownEnd {
    match outcome {
        Some(ServeTeardown::Graceful { ok }) => if ok {
            TeardownEnd::Clean
        } else {
            TeardownEnd::ServeFailed
        },
        Some(ServeTeardown::TimedOutAborted) => TeardownEnd::Wedged,
        None => TeardownEnd::Clean,
    }
}

/// What an event leads to; the teardown's end, once it has one.
pub open spec fn teardown_next(p: TeardownPhase, e: TeardownEvent) -> (
    TeardownPhase,
    Option<TeardownEnd>,
) {
    match (p, e) {
        (TeardownPhase::Signal { serving }, TeardownEvent::Performed) => if serving {
            (TeardownPhase::Join, None)
        } else {
            (TeardownPhase::ClosePool { outcome: None }, None)
        },
        (TeardownPhase::Join, TeardownEvent::Task(seen)) => match join_next(false, seen) {
            JoinNext::Wait => (p, None),
            JoinNext::Abort => (TeardownPhase::Abort, None),
            JoinNext::Joined(how) => (TeardownPhase::ClosePool { outcome: Some(how) }, None),
            JoinNext::Panic => (p, Some(TeardownEnd::ServePanicked)),
        },
        (TeardownPhase::Abort, TeardownEvent::Task(seen)) => match join_next(true, seen) {
            JoinNext::Wait => (p, None),
            JoinNext::Abort => (p, None),
            JoinNext::Joined(how) => (TeardownPhase::ClosePool { outcome: Some(how) }, None),
            JoinNext::Panic => (p, Some(TeardownEnd::ServePanicked)),
        },
        (TeardownPhase::ClosePool { outcome }, TeardownEvent::Performed) => (
            TeardownPhase::RemoveDir { outcome },
            None,
        ),
        (TeardownPhase::RemoveDir { outcome }, TeardownEvent::Performed) => (
            p,
            Some(verdict(outcome)),
        ),
        _ => (p, None),
    }
}

/// The start of a teardown; `serving` tells whether there is a task that serves.
pub fn shutdown(serving: bool) -> (r: TeardownPhase)
    ensures
        r == (TeardownPhase::Signal { serving }),
{
    TeardownPhase::Signal { serving }
}

/// Takes what came of the last action; the teardown's end, once it has one.
pub fn shutdown_step(p: &mut TeardownPhase, e: TeardownEvent) -> (r: Option<TeardownEnd>)
    ensures
        (*final(p), r) == teardown_next(*old(p), e),
{
    match (*p, e) {
        (TeardownPhase::Signal { serving }, TeardownEvent::Performed) => {
            if serving {
                *p = TeardownPhase::Join;
            } else {
                *p = TeardownPhase::ClosePool { outcome: None };
            }
            None
        },
        (TeardownPhase::Join, TeardownEvent::Task(seen)) => match join_or_abort(false, seen) {
            JoinNext::Wait => None,
            JoinNext::Abort => {
                *p = TeardownPhase::Abort;
                None
            },
            JoinNext::Joined(how) => {
                *p = TeardownPhase::ClosePool { outcome: Some(how) };
                None
            },
            JoinNext::Panic => Some(TeardownEnd::ServePanicked),
        },
        (TeardownPhase::Abort, TeardownEvent::Task(seen)) => match join_or_abort(true, seen) {
            JoinNext::Wait => None,
            JoinNext::Abort => None,
            JoinNext::Joined(how) => {
                *p = TeardownPhase::ClosePool { outcome: Some(how) };
                None
            },
            JoinNext::Panic => Some(TeardownEnd::ServePanicked),
        },
        (TeardownPhase::ClosePool { outcome }, TeardownEvent::Performed) => {
            *p = TeardownPhase::RemoveDir { outcome };
            None
        },
        (TeardownPhase::RemoveDir { outcome }, TeardownEvent::Performed) => Some(
            match outcome {
                Some(ServeTeardown::Graceful { ok }) => if ok {
                    TeardownEnd::Clean
                } else {
                    TeardownEnd::ServeFailed
                },
                Some(ServeTeardown::TimedOutAborted) => TeardownEnd::Wedged,
                None => TeardownEnd::Clean,
            },
        ),
        _ => None,
    }
}

/// The phase and the end after these events.
pub open spec fn teardown_after(serving: bool, events: Seq<TeardownEvent>) -> (
    TeardownPhase,
    Option<TeardownEnd>,
)
    decreases events.len(),
{
    if events.len() == 0 {
        (TeardownPhase::Signal { serving }, None)
    } else {
        let before = teardown_after(serving, events.drop_last());
        if before.1 is Some {
            before
        } else {
            teardown_next(before.0, events.last())
        }
    }
}

/// Among the states up to these events there was one in which the action of a phase of this
/// kind was due and then performed.
pub open spec fn was_performed(
    serving: bool,
    events: Seq<TeardownEvent>,
    kind: spec_fn(TeardownPhase) -> bool,
) -> bool {
    exists|i: int|
        0 <= i < events.len() && #[trigger] events[i] == TeardownEvent::Performed && kind(
            teardown_after(serving, events.take(i)).0,
        )
}

proof fn performed_before(
    serving: bool,
    events: Seq<TeardownEvent>,
    kind: spec_fn(TeardownPhase) -> bool,
)
    requires
        events.len() > 0,
        was_performed(serving, events.drop_last(), kind),
    ensures
        was_performed(serving, events, kind),
{
    let shorter = events.drop_last();
    let i = choose|i: int|
        0 <= i < shorter.len() && #[trigger] shorter[i] == TeardownEvent::Performed && kind(
            teardown_after(serving, shorter.take(i)).0,
        );
    assert(events[i] == shorter[i]);
    assert(events.take(i) =~= shorter.take(i));
}

proof fn release_comes_first(serving: bool, events: Seq<TeardownEvent>)
    ensures
        teardown_after(serving, events).0 is RemoveDir ==> was_performed(
            serving,
            events,
            |p: TeardownPhase| p is ClosePool,
        ),
        teardown_after(serving, events).1 matches Some(end) ==> end != TeardownEnd::ServePanicked
            ==> was_performed(serving, events, |p: TeardownPhase| p is ClosePool)
            && was_performed(serving, events, |p: TeardownPhase| p is RemoveDir),
    decreases events.len(),
{
    if events.len() > 0 {
        let shorter = events.drop_last();
        release_comes_first(serving, shorter);
        let close = |p: TeardownPhase| p is ClosePool;
        let remove = |p: TeardownPhase| p is RemoveDir;
        let last = events.len() - 1;
        assert(events.take(last) =~= shorter);
        assert(events[last] == events.last());
        if was_performed(serving, shorter, close) {
            performed_before(serving, events, close);
        }
        if was_performed(serving, shorter, remove) {
            performed_before(serving, events, remove);
        }
    }
}

/// A teardown that ends, well or with a panic of the test, has first closed the connections and
/// removed the directory. The one exception is a task that panicked itself.
pub proof fn everything_is_released_first(
    serving: bool,
    events: Seq<TeardownEvent>,
    end: TeardownEnd,
)
    requires
        teardown_after(serving, events).1 == Some(end),
        end != TeardownEnd::ServePanicked,
    ensures
        was_performed(serving, events, |p: TeardownPhase| p is ClosePool),
        was_performed(serving, events, |p: TeardownPhase| p is RemoveDir),
{
    release_comes_first(serving, events);
}

/// What dropping a node that was not torn down does; the directory is removed in any case.
#[derive(Clone, Copy, PartialEq, Eq, Structural, Debug)]
pub struct DropPlan {
    /// Tell the server to end.
    pub signal: bool,
    /// Abort the task that serves.
    pub abort: bool,
}

/// What dropping a node does, where `abort_only` suppresses the signal and `serving` tells
/// whether the task that serves was not joined yet.
pub fn drop_plan(abort_only: bool, serving: bool) -> (r: DropPlan)
    ensures
        r == (DropPlan { signal: !abort_only, abort: serving }),
{
    DropPlan { signal: !abort_only, abort: serving }
}

/// What led to each outcome of the join. A task that returned is joined with what it
/// returned, aborted or not. The time that has run out leads to the abort, once. A
/// task that ended because it was aborted was wedged; one that ended so and was not
/// aborted, or that panicked, is a panic.
pub proof fn what_leads_through_a_join(aborted: bool, e: JoinEvent)
    ensures
        match join_next(aborted, e) {
            JoinNext::Wait => aborted && e is Elapsed,
            JoinNext::Abort => !aborted && e is Elapsed,
            JoinNext::Joined(ServeTeardown::Graceful { ok }) => e == (JoinEvent::Finished { ok }),
            JoinNext::Joined(ServeTeardown::TimedOutAborted) => aborted && e is Cancelled,
            JoinNext::Panic => e is Panicked || (!aborted && e is Cancelled),
        },
{
}

/// What led to each phase of a teardown, and to each of its ends.
pub proof fn what_leads_through_a_teardown(p: TeardownPhase, e: TeardownEvent)
    ensures
        ({
            let (q, end) = teardown_next(p, e);
            let seen = match (p, e) {
                (TeardownPhase::Join, TeardownEvent::Task(seen)) => Some(seen),
                (TeardownPhase::Abort, TeardownEvent::Task(seen)) => Some(seen),
                _ => None,
            };
            &&& q != p ==> end is None && match q {
                TeardownPhase::Signal { .. } => false,
                TeardownPhase::Join => p == (TeardownPhase::Signal { serving: true }) && e
                    is Performed,
                TeardownPhase::Abort => p is Join && seen == Some(JoinEvent::Elapsed),
                TeardownPhase::ClosePool { outcome: None } => p == (TeardownPhase::Signal {
                    serving: false,
                }) && e is Performed,
                TeardownPhase::ClosePool { outcome: Some(ServeTeardown::Graceful { ok }) } => seen
                    == Some(JoinEvent::Finished { ok }),
                TeardownPhase::ClosePool { outcome: Some(ServeTeardown::TimedOutAborted) } => p
                    is Abort && seen == Some(JoinEvent::Cancelled),
                TeardownPhase::RemoveDir { outcome } => p == (TeardownPhase::ClosePool { outcome })
                    && e is Performed,
            }
            &&& end matches Some(how) ==> match how {
                TeardownEnd::Clean => e is Performed && (p == (TeardownPhase::RemoveDir {
                    outcome: None,
                }) || p == (TeardownPhase::RemoveDir {
                    outcome: Some(ServeTeardown::Graceful { ok: true }),
                })),
                TeardownEnd::ServeFailed => e is Performed && p == (TeardownPhase::RemoveDir {
                    outcome: Some(ServeTeardown::Graceful { ok: false }),
                }),
                TeardownEnd::Wedged => e is Performed && p == (TeardownPhase::RemoveDir {
                    outcome: Some(ServeTeardown::TimedOutAborted),
                }),
                TeardownEnd::ServePanicked => seen == Some(JoinEvent::Panicked) || (p is Join
                    && seen == Some(JoinEvent::Cancelled)),
            }
            &&& e is Performed && (p is Signal || p is ClosePool) ==> q != p
            &&& e is Performed && p is RemoveDir ==> end is Some
            &&& (seen matches Some(s) && s is Finished) ==> q is ClosePool
            &&& p is Join && seen == Some(JoinEvent::Elapsed) ==> q is Abort
            &&& p is Abort && seen == Some(JoinEvent::Cancelled) ==> q is ClosePool
            &&& seen == Some(JoinEvent::Panicked) ==> end is Some
        }),
{
}

/// A teardown that goes well takes four steps: the server is told to end, its task
/// returns, the connections are closed, the directory is removed. The test then
/// panics exactly if the server ended with an error.
pub proof fn an_undisturbed_teardown(ok: bool)
    ensures
        teardown_after(
            true,
            seq![
                TeardownEvent::Performed,
                TeardownEvent::Task(JoinEvent::Finished { ok }),
                TeardownEvent::Performed,
                TeardownEvent::Performed,
            ],
        ).1 == Some(
            if ok {
                TeardownEnd::Clean
            } else {
                TeardownEnd::ServeFailed
            },
        ),
        teardown_after(
            false,
            seq![TeardownEvent::Performed, TeardownEvent::Performed, TeardownEvent::Performed],
        ).1 == Some(TeardownEnd::Clean),
{
    reveal_with_fuel(teardown_after, 5);
    let all = seq![
        TeardownEvent::Performed,
        TeardownEvent::Task(JoinEvent::Finished { ok }),
        TeardownEvent::Performed,
        TeardownEvent::Performed,
    ];
    assert(all.drop_last().drop_last().drop_last().drop_last() =~= Seq::empty());
    let none = seq![TeardownEvent::Performed, TeardownEvent::Performed, TeardownEvent::Performed];
    assert(none.drop_last().drop_last().drop_last() =~= Seq::empty());
}

} // verus!
