//! One writer per repository.
//!
//! A writer takes its repository's lease before it writes. A second writer
//! waits for it; past a bound it goes on without, so that a lease whose holder
//! never returned it cannot block the repository for good. Only so many writers
//! may wait at once: the next one is turned away.
//!
//! The permits themselves are the caller's: a repository's entry names the
//! semaphore, with one permit, on which its writers wait.

use vstd::hash_map::StringHashMap;
use vstd::prelude::*;

verus! {

broadcast use vstd::hash_map::group_hash_map_axioms;

/// A repository's entry.
#[derive(Clone, Copy, PartialEq, Eq, Structural, Debug)]
pub struct LeaseSlot {
    /// The semaphore on which the repository's writers wait.
    pub sem: u64,
    /// How many writers refer to the entry, holding or waiting.
    pub refs: usize,
    /// How many of them wait.
    pub waiters: usize,
}

/// The entries of all repositories.
pub type LeaseMap = Map<Seq<char>, LeaseSlot>;

/// The leases of all repositories.
pub struct RepoWriteLeases {
    slots: StringHashMap<LeaseSlot>,
    max_waiters: usize,
    next_sem: u64,
}

/// A writer on its way to the lease.
pub struct LeaseRequest {
    repo_id: String,
    sem: u64,
    waiting: bool,
}

/// A lease that is held. Without a permit it was taken after a wait that was
/// too long.
pub struct RepoWriteLease {
    repo_id: String,
    permit: bool,
}

/// What a writer has to do after it has tried to get the permit.
pub enum TryOutcome {
    /// It has the lease.
    Held(RepoWriteLease),
    /// It waits for the permit of the semaphore.
    Wait(LeaseRequest),
    /// Too many wait already: it is turned away.
    Shed,
}

/// How a wait for the permit ended.
#[derive(Clone, Copy, PartialEq, Eq, Structural, Debug)]
pub enum WaitEnd {
    /// With the permit.
    Granted,
    /// The semaphore was closed.
    Closed,
    /// The bound passed.
    Elapsed,
}

/// The entries with one more reference to the repository's; a new entry gets
/// the semaphore `fresh`.
pub open spec fn referred(m: LeaseMap, repo: Seq<char>, fresh: u64) -> LeaseMap {
    if m.contains_key(repo) {
        m.insert(repo, LeaseSlot { refs: (m[repo].refs + 1) as usize, ..m[repo] })
    } else {
        m.insert(repo, LeaseSlot { sem: fresh, refs: 1, waiters: 0 })
    }
}

/// The entries with one reference less; an entry without any goes.
pub open spec fn dereferred(m: LeaseMap, repo: Seq<char>) -> LeaseMap {
    if !m.contains_key(repo) {
        m
    } else if m[repo].refs <= 1 {
        m.remove(repo)
    } else {
        m.insert(repo, LeaseSlot { refs: (m[repo].refs - 1) as usize, ..m[repo] })
    }
}

/// Whether one more writer may wait.
pub open spec fn may_wait(m: LeaseMap, repo: Seq<char>, max_waiters: usize) -> bool {
    !m.contains_key(repo) || m[repo].waiters < max_waiters
}

/// The entries with one more waiting writer.
pub open spec fn waiting(m: LeaseMap, repo: Seq<char>) -> LeaseMap {
    if m.contains_key(repo) {
        m.insert(repo, LeaseSlot { waiters: (m[repo].waiters + 1) as usize, ..m[repo] })
    } else {
        m
    }
}

/// The entries with one waiting writer less.
pub open spec fn done_waiting(m: LeaseMap, repo: Seq<char>) -> LeaseMap {
    if m.contains_key(repo) {
        m.insert(
            repo,
            LeaseSlot {
                waiters: if m[repo].waiters == 0 {
                    0
                } else {
                    (m[repo].waiters - 1) as usize
                },
                ..m[repo]
            },
        )
    } else {
        m
    }
}

/// The references to a repository's entry.
pub open spec fn refs_of(m: LeaseMap, repo: Seq<char>) -> int {
    if m.contains_key(repo) { m[repo].refs as int } else { 0 }
}

/// The writers that wait for a repository's lease.
pub open spec fn waiters_of(m: LeaseMap, repo: Seq<char>) -> int {
    if m.contains_key(repo) { m[repo].waiters as int } else { 0 }
}

impl LeaseRequest {
    /// The repository.
    pub closed spec fn repo(&self) -> Seq<char> {
        self.repo_id@
    }

    /// The semaphore whose permit is to be had.
    pub closed spec fn spec_sem(&self) -> u64 {
        self.sem
    }

    /// Whether it is counted as waiting.
    pub closed spec fn is_waiting(&self) -> bool {
        self.waiting
    }

    /// The semaphore whose permit is to be had.
    pub fn semaphore(&self) -> (r: u64)
        ensures
            r == self.spec_sem(),
    {
        self.sem
    }
}

impl RepoWriteLease {
    /// The repository.
    pub closed spec fn repo(&self) -> Seq<char> {
        self.repo_id@
    }

    /// Whether it came with a permit.
    pub closed spec fn spec_has_permit(&self) -> bool {
        self.permit
    }

    /// Whether it came with a permit.
    pub fn has_permit(&self) -> (r: bool)
        ensures
            r == self.spec_has_permit(),
    {
        self.permit
    }
}

impl View for RepoWriteLeases {
    type V = LeaseMap;

    closed spec fn view(&self) -> LeaseMap {
        self.slots@
    }
}

impl RepoWriteLeases {
    /// The most writers that may wait for one repository.
    pub closed spec fn limit(&self) -> usize {
        self.max_waiters
    }

    /// The semaphore that the next new entry gets.
    pub closed spec fn fresh(&self) -> u64 {
        self.next_sem
    }

    /// The entries are finitely many, every one is referred to, no more writers
    /// wait than may, and every semaphore was given out before.
    pub open spec fn wf(&self) -> bool {
        &&& self.limit() >= 1
        &&& self@.dom().finite()
        &&& forall|repo: Seq<char>| #[trigger]
            self@.contains_key(repo) ==> self@[repo].refs >= 1 && self@[repo].waiters
                <= self.limit() && self@[repo].sem < self.fresh()
        &&& forall|a: Seq<char>, b: Seq<char>| #[trigger]
            self@.contains_key(a) && #[trigger] self@.contains_key(b) && a != b ==> self@[a].sem
                != self@[b].sem
    }

    /// No entries. At least one writer may wait, whatever the limit says.
    pub fn new(max_waiters: usize) -> (r: Self)
        ensures
            r@ == Map::<Seq<char>, LeaseSlot>::empty(),
            r.limit() == (if max_waiters == 0 { 1 } else { max_waiters }),
            r.limit() == waiters_allowed(max_waiters),
            r.fresh() == 0,
            r.wf(),
    {
        RepoWriteLeases {
            slots: StringHashMap::new(),
            max_waiters: if max_waiters == 0 { 1 } else { max_waiters },
            next_sem: 0,
        }
    }

    fn slot_of(&self, repo_id: &str) -> (r: Option<LeaseSlot>)
        ensures
            r is Some == self@.contains_key(repo_id@),
            r is Some ==> r->0 == self@[repo_id@],
    {
        match self.slots.get(repo_id) {
            Some(slot) => Some(*slot),
            None => None,
        }
    }

    /// Whether one more writer can begin to acquire the repository's lease:
    /// neither the references nor the semaphores' numbers have run out.
    pub fn has_room(&self, repo_id: &str) -> (r: bool)
        ensures
            r == (refs_of(self@, repo_id@) < usize::MAX && self.fresh() < u64::MAX),
    {
        self.refs_for(repo_id) < usize::MAX && self.next_sem < u64::MAX
    }

    /// Begins to acquire the repository's lease: refers to its entry. The
    /// caller then tries to get the permit of the request's semaphore.
    pub fn acquire(&mut self, repo_id: &str) -> (r: LeaseRequest)
        requires
            old(self).wf(),
            refs_of(old(self)@, repo_id@) < usize::MAX,
            old(self).fresh() < u64::MAX,
        ensures
            final(self).wf(),
            final(self).limit() == old(self).limit(),
            final(self)@ == referred(old(self)@, repo_id@, old(self).fresh()),
            final(self).fresh() == (if old(self)@.contains_key(repo_id@) {
                old(self).fresh() as int
            } else {
                old(self).fresh() + 1
            }),
            r.repo() == repo_id@,
            r.spec_sem() == final(self)@[repo_id@].sem,
            !r.is_waiting(),
            (final(self)@, final(self).fresh() as int, r.spec_sem()) == acquire_step(
                old(self)@,
                old(self).fresh(),
                repo_id@,
            ),
    {
        let slot = match self.slot_of(repo_id) {
            Some(slot) => LeaseSlot { sem: slot.sem, refs: slot.refs + 1, waiters: slot.waiters },
            None => {
                let sem: u64 = self.next_sem;
                self.next_sem = sem + 1;
                LeaseSlot { sem, refs: 1, waiters: 0 }
            },
        };
        self.slots.insert(repo_id.to_owned(), slot);
        LeaseRequest { repo_id: repo_id.to_owned(), sem: slot.sem, waiting: false }
    }

    /// Goes on after the attempt to get the permit: with it, the lease is held;
    /// without, the writer waits, or is turned away where too many do.
    pub fn tried(&mut self, request: LeaseRequest, got_permit: bool) -> (r: TryOutcome)
        requires
            old(self).wf(),
        ensures
            final(self).wf(),
            final(self).limit() == old(self).limit(),
            final(self).fresh() == old(self).fresh(),
            got_permit ==> {
                &&& r matches TryOutcome::Held(lease)
                &&& lease.repo() == request.repo()
                &&& lease.spec_has_permit()
                &&& final(self)@ == old(self)@
            },
            !got_permit && may_wait(old(self)@, request.repo(), old(self).limit()) ==> {
                &&& r matches TryOutcome::Wait(next)
                &&& next.repo() == request.repo()
                &&& next.spec_sem() == request.spec_sem()
                &&& next.is_waiting()
                &&& final(self)@ == waiting(old(self)@, request.repo())
            },
            !got_permit && !may_wait(old(self)@, request.repo(), old(self).limit()) ==> {
                &&& r is Shed
                &&& final(self)@ == dereferred(old(self)@, request.repo())
            },
            (final(self)@, tried_end(r)) == tried_step(
                old(self)@,
                old(self).limit(),
                request.repo(),
                got_permit,
            ),
    {
        if got_permit {
            return TryOutcome::Held(RepoWriteLease { repo_id: request.repo_id, permit: true });
        }
        match self.slot_of(request.repo_id.as_str()) {
            Some(slot) => {
                if slot.waiters >= self.max_waiters {
                    self.release_lease_ref(request.repo_id.as_str());
                    return TryOutcome::Shed;
                }
                self.slots.insert(
                    request.repo_id.clone(),
                    LeaseSlot { sem: slot.sem, refs: slot.refs, waiters: slot.waiters + 1 },
                );
            },
            None => {},
        }
        TryOutcome::Wait(
            LeaseRequest { repo_id: request.repo_id, sem: request.sem, waiting: true },
        )
    }

    fn release_waiter(&mut self, repo_id: &str)
        requires
            old(self).wf(),
        ensures
            final(self).wf(),
            final(self).limit() == old(self).limit(),
            final(self).fresh() == old(self).fresh(),
            final(self)@ == done_waiting(old(self)@, repo_id@),
    {
        match self.slot_of(repo_id) {
            Some(slot) => {
                self.slots.insert(
                    repo_id.to_owned(),
                    LeaseSlot {
                        sem: slot.sem,
                        refs: slot.refs,
                        waiters: slot.waiters.saturating_sub(1),
                    },
                );
            },
            None => {},
        }
    }

    fn release_lease_ref(&mut self, repo_id: &str)
        requires
            old(self).wf(),
        ensures
            final(self).wf(),
            final(self).limit() == old(self).limit(),
            final(self).fresh() == old(self).fresh(),
            final(self)@ == dereferred(old(self)@, repo_id@),
    {
        match self.slot_of(repo_id) {
            Some(slot) => {
                let refs: usize = slot.refs.saturating_sub(1);
                if refs == 0 {
                    self.slots.remove(repo_id);
                } else {
                    self.slots.insert(
                        repo_id.to_owned(),
                        LeaseSlot { sem: slot.sem, refs, waiters: slot.waiters },
                    );
                }
            },
            None => {},
        }
    }

    /// Goes on after the wait for the permit: the writer no longer waits, and
    /// has the lease, without a permit where the wait ended otherwise.
    pub fn waited(&mut self, request: LeaseRequest, end: WaitEnd) -> (r: RepoWriteLease)
        requires
            old(self).wf(),
        ensures
            final(self).wf(),
            final(self).limit() == old(self).limit(),
            final(self).fresh() == old(self).fresh(),
            r.repo() == request.repo(),
            r.spec_has_permit() == (end is Granted),
            final(self)@ == (if request.is_waiting() {
                done_waiting(old(self)@, request.repo())
            } else {
                old(self)@
            }),
            (final(self)@, r.spec_has_permit()) == waited_step(
                old(self)@,
                request.repo(),
                request.is_waiting(),
                end,
            ),
    {
        if request.waiting {
            self.release_waiter(request.repo_id.as_str());
        }
        let permit = match end {
            WaitEnd::Granted => true,
            _ => false,
        };
        RepoWriteLease { repo_id: request.repo_id, permit }
    }

    /// Gives up a request: its waiting place and its reference go.
    pub fn cancel(&mut self, request: LeaseRequest)
        requires
            old(self).wf(),
        ensures
            final(self).wf(),
            final(self).limit() == old(self).limit(),
            final(self).fresh() == old(self).fresh(),
            final(self)@ == dereferred(
                (if request.is_waiting() {
                    done_waiting(old(self)@, request.repo())
                } else {
                    old(self)@
                }),
                request.repo(),
            ),
            final(self)@ == cancel_step(old(self)@, request.repo(), request.is_waiting()),
    {
        if request.waiting {
            self.release_waiter(request.repo_id.as_str());
        }
        self.release_lease_ref(request.repo_id.as_str());
    }

    /// Returns a lease: its reference goes, and with the last one the entry.
    pub fn release(&mut self, lease: RepoWriteLease)
        requires
            old(self).wf(),
        ensures
            final(self).wf(),
            final(self).limit() == old(self).limit(),
            final(self).fresh() == old(self).fresh(),
            final(self)@ == dereferred(old(self)@, lease.repo()),
            final(self)@ == release_step(old(self)@, lease.repo()),
    {
        self.release_lease_ref(lease.repo_id.as_str());
    }

    /// The number of repositories with an entry.
    pub fn len(&self) -> (r: usize)
        requires
            self.wf(),
        ensures
            r == self@.len(),
    {
        self.slots.len()
    }

    /// Whether no repository has an entry.
    pub fn is_empty(&self) -> (r: bool)
        requires
            self.wf(),
        ensures
            r == (self@.len() == 0),
            r == (forall|repo: Seq<char>| !#[trigger] self@.contains_key(repo)),
    {
        proof {
            if self@.len() == 0 {
                assert(self@.dom() =~= Set::empty());
            } else {
                assert(self@.contains_key(self@.dom().choose()));
            }
        }
        self.len() == 0
    }

    /// How many writers refer to the repository's entry, holding or waiting.
    pub fn refs_for(&self, repo_id: &str) -> (r: usize)
        ensures
            r == refs_of(self@, repo_id@),
    {
        match self.slot_of(repo_id) {
            Some(slot) => slot.refs,
            None => 0,
        }
    }

    /// How many writers wait for the repository's lease.
    pub fn waiters_for(&self, repo_id: &str) -> (r: usize)
        ensures
            r == waiters_of(self@, repo_id@),
    {
        match self.slot_of(repo_id) {
            Some(slot) => slot.waiters,
            None => 0,
        }
    }
}

/// A writer that is turned away leaves nothing behind: the entries are as they
/// were before it came.
pub proof fn shedding_leaves_no_trace(m: LeaseMap, repo: Seq<char>, fresh: u64)
    requires
        refs_of(m, repo) < usize::MAX,
        m.contains_key(repo) ==> m[repo].refs >= 1,
    ensures
        dereferred(referred(m, repo, fresh), repo) == m,
{
    assert(dereferred(referred(m, repo, fresh), repo) =~= m);
}

/// A writer that gives up while it waits leaves nothing behind.
pub proof fn cancelling_leaves_no_trace(m: LeaseMap, repo: Seq<char>, fresh: u64)
    requires
        refs_of(m, repo) < usize::MAX,
        waiters_of(m, repo) < usize::MAX,
        m.contains_key(repo) ==> m[repo].refs >= 1,
    ensures
        dereferred(done_waiting(waiting(referred(m, repo, fresh), repo), repo), repo) == m,
{
    assert(dereferred(done_waiting(waiting(referred(m, repo, fresh), repo), repo), repo) =~= m);
}

/// A writer that got the lease and returned it leaves nothing behind, whether
/// it waited or not.
pub proof fn a_returned_lease_leaves_no_trace(m: LeaseMap, repo: Seq<char>, fresh: u64)
    requires
        refs_of(m, repo) < usize::MAX,
        waiters_of(m, repo) < usize::MAX,
        m.contains_key(repo) ==> m[repo].refs >= 1,
    ensures
        dereferred(referred(m, repo, fresh), repo) == m,
        dereferred(done_waiting(waiting(referred(m, repo, fresh), repo), repo), repo) == m,
{
    shedding_leaves_no_trace(m, repo, fresh);
    cancelling_leaves_no_trace(m, repo, fresh);
}

/// Who may wait depends on how many wait, not on how many hold: a lease that
/// was never returned keeps no writer from waiting.
pub proof fn holders_do_not_count_as_waiters(
    m: LeaseMap,
    repo: Seq<char>,
    fresh: u64,
    max_waiters: usize,
)
    requires
        max_waiters >= 1,
        refs_of(m, repo) < usize::MAX,
    ensures
        may_wait(referred(m, repo, fresh), repo, max_waiters) <==> waiters_of(m, repo)
            < max_waiters,
{
}

/// All writers of a repository that refer to its entry at the same time wait
/// on one semaphore: whatever another writer does, of this repository or of
/// another, an entry that is still referred to keeps its semaphore.
pub proof fn writers_share_the_semaphore(
    m: LeaseMap,
    repo: Seq<char>,
    other: Seq<char>,
    fresh: u64,
)
    requires
        m.contains_key(repo),
        refs_of(m, other) < usize::MAX,
    ensures
        referred(m, other, fresh)[repo].sem == m[repo].sem,
        waiting(m, other)[repo].sem == m[repo].sem,
        done_waiting(m, other)[repo].sem == m[repo].sem,
        m[repo].refs > 1 || other != repo ==> dereferred(m, other).contains_key(repo)
            && dereferred(m, other)[repo].sem == m[repo].sem,
{
}

/// What writers do, one step at a time.
pub enum WriterEvent {
    /// A writer begins to acquire the repository's lease.
    Begin(Seq<char>),
    /// A writer begins to wait for the permit.
    Park(Seq<char>),
    /// A writer waits no longer.
    Unpark(Seq<char>),
    /// A writer gets the permit of the repository's semaphore.
    Grant(Seq<char>),
    /// A writer with a permit returns the lease.
    Return(Seq<char>),
    /// A writer without a permit leaves: turned away, given up, or returning a
    /// lease without a permit.
    Leave(Seq<char>),
}

/// The entries, the next semaphore, the semaphores whose permit is taken, and of
/// each repository the writers that have come and not left, those of them that
/// wait, and those that hold a permit.
pub struct WriterWorld {
    pub entries: LeaseMap,
    pub fresh: u64,
    pub taken: Set<u64>,
    pub writers: spec_fn(Seq<char>) -> int,
    pub parked: spec_fn(Seq<char>) -> int,
    pub holders: spec_fn(Seq<char>) -> int,
}

/// No writer has come yet.
pub open spec fn no_writers() -> WriterWorld {
    WriterWorld {
        entries: Map::empty(),
        fresh: 0,
        taken: Set::empty(),
        writers: |repo: Seq<char>| 0int,
        parked: |repo: Seq<char>| 0int,
        holders: |repo: Seq<char>| 0int,
    }
}

/// The count with `by` more for the repository.
pub open spec fn counted(count: spec_fn(Seq<char>) -> int, repo: Seq<char>, by: int) -> spec_fn(
    Seq<char>,
) -> int {
    |r: Seq<char>|
        if r == repo {
            count(r) + by
        } else {
            count(r)
        }
}

/// Whether an event can happen: a permit is granted only where it is not taken
/// and a writer is there to take it; only a writer that is there waits or
/// leaves, and it does not leave while it waits.
pub open spec fn can_happen(w: WriterWorld, e: WriterEvent) -> bool {
    match e {
        WriterEvent::Begin(repo) => refs_of(w.entries, repo) < usize::MAX && w.fresh < u64::MAX,
        WriterEvent::Park(repo) => (w.writers)(repo) > (w.parked)(repo),
        WriterEvent::Unpark(repo) => (w.parked)(repo) > 0,
        WriterEvent::Grant(repo) => w.entries.contains_key(repo) && !w.taken.contains(
            w.entries[repo].sem,
        ) && (w.writers)(repo) > (w.holders)(repo),
        WriterEvent::Return(repo) => (w.holders)(repo) > 0 && (w.writers)(repo) > (w.parked)(repo),
        WriterEvent::Leave(repo) => (w.writers)(repo) > (w.holders)(repo) && (w.writers)(repo) > (
        w.parked)(repo),
    }
}

/// The world after an event.
pub open spec fn writer_step(w: WriterWorld, e: WriterEvent) -> WriterWorld {
    match e {
        WriterEvent::Begin(repo) => WriterWorld {
            entries: referred(w.entries, repo, w.fresh),
            fresh: if w.entries.contains_key(repo) { w.fresh } else { (w.fresh + 1) as u64 },
            writers: counted(w.writers, repo, 1),
            ..w
        },
        WriterEvent::Park(repo) => WriterWorld {
            entries: waiting(w.entries, repo),
            parked: counted(w.parked, repo, 1),
            ..w
        },
        WriterEvent::Unpark(repo) => WriterWorld {
            entries: done_waiting(w.entries, repo),
            parked: counted(w.parked, repo, -1),
            ..w
        },
        WriterEvent::Grant(repo) => WriterWorld {
            taken: w.taken.insert(w.entries[repo].sem),
            holders: counted(w.holders, repo, 1),
            ..w
        },
        WriterEvent::Return(repo) => WriterWorld {
            entries: dereferred(w.entries, repo),
            taken: w.taken.remove(w.entries[repo].sem),
            writers: counted(w.writers, repo, -1),
            holders: counted(w.holders, repo, -1),
            ..w
        },
        WriterEvent::Leave(repo) => WriterWorld {
            entries: dereferred(w.entries, repo),
            writers: counted(w.writers, repo, -1),
            ..w
        },
    }
}

/// The world after a sequence of events.
pub open spec fn writer_run(events: Seq<WriterEvent>) -> WriterWorld
    decreases events.len(),
{
    if events.len() == 0 {
        no_writers()
    } else {
        writer_step(writer_run(events.drop_last()), events.last())
    }
}

/// Whether each event of the sequence could happen when it did.
pub open spec fn writers_behave(events: Seq<WriterEvent>) -> bool
    decreases events.len(),
{
    events.len() > 0 ==> writers_behave(events.drop_last()) && can_happen(
        writer_run(events.drop_last()),
        events.last(),
    )
}

/// What holds of one repository.
spec fn writers_counted(w: WriterWorld, repo: Seq<char>) -> bool {
    &&& (w.writers)(repo) == refs_of(w.entries, repo)
    &&& (w.parked)(repo) == waiters_of(w.entries, repo)
    &&& 0 <= (w.parked)(repo) <= (w.writers)(repo)
    &&& (w.holders)(repo) <= (w.writers)(repo)
    &&& (w.holders)(repo) == (if w.entries.contains_key(repo) && w.taken.contains(
        w.entries[repo].sem,
    ) {
        1int
    } else {
        0int
    })
}

spec fn writers_know(w: WriterWorld) -> bool {
    &&& w.entries.dom().finite()
    &&& forall|repo: Seq<char>| #[trigger]
        w.entries.contains_key(repo) ==> w.entries[repo].refs >= 1 && w.entries[repo].sem
            < w.fresh
    &&& forall|a: Seq<char>, b: Seq<char>| #[trigger]
        w.entries.contains_key(a) && #[trigger] w.entries.contains_key(b) && a != b
            ==> w.entries[a].sem != w.entries[b].sem
    &&& forall|sem: u64| #[trigger] w.taken.contains(sem) ==> sem < w.fresh
    &&& forall|repo: Seq<char>| #[trigger] writers_counted(w, repo)
}

proof fn writers_run_knows(events: Seq<WriterEvent>)
    requires
        writers_behave(events),
    ensures
        writers_know(writer_run(events)),
    decreases events.len(),
{
    if events.len() > 0 {
        writers_run_knows(events.drop_last());
        let w = writer_run(events.drop_last());
        let v = writer_run(events);
        let repo = match events.last() {
            WriterEvent::Begin(r) => r,
            WriterEvent::Park(r) => r,
            WriterEvent::Unpark(r) => r,
            WriterEvent::Grant(r) => r,
            WriterEvent::Return(r) => r,
            WriterEvent::Leave(r) => r,
        };
        assert(writers_counted(w, repo));
        assert forall|r: Seq<char>| #[trigger] writers_counted(v, r) by {
            assert(writers_counted(w, r));
            if r != repo && w.entries.contains_key(r) && w.entries.contains_key(repo) {
                assert(w.entries[r].sem != w.entries[repo].sem);
            }
        }
    }
}

/// At most one writer of a repository holds a permit, however writers come,
/// wait, are turned away, give up and return: as long as the semaphores give
/// each permit to one writer at a time.
pub proof fn one_permit_per_repository(events: Seq<WriterEvent>, repo: Seq<char>)
    requires
        writers_behave(events),
    ensures
        (writer_run(events).holders)(repo) <= 1,
{
    writers_run_knows(events);
    assert(writers_counted(writer_run(events), repo));
}

/// Whatever writers did, the entries count the writers that are there: as many
/// refer to a repository's entry as have come and not left, as many wait as
/// wait, and a repository that no writer is left of has no entry.
pub proof fn entries_count_the_writers(events: Seq<WriterEvent>, repo: Seq<char>)
    requires
        writers_behave(events),
    ensures
        refs_of(writer_run(events).entries, repo) == (writer_run(events).writers)(repo),
        waiters_of(writer_run(events).entries, repo) == (writer_run(events).parked)(repo),
        writer_run(events).entries.contains_key(repo) <==> (writer_run(events).writers)(repo) > 0,
        writer_run(events).entries.dom().finite(),
{
    writers_run_knows(events);
    assert(writers_counted(writer_run(events), repo));
}

/// Writers of different repositories never wait for each other: whatever
/// writers did, no two repositories share a semaphore.
pub proof fn repositories_have_semaphores_of_their_own(
    events: Seq<WriterEvent>,
    a: Seq<char>,
    b: Seq<char>,
)
    requires
        writers_behave(events),
        a != b,
        writer_run(events).entries.contains_key(a),
        writer_run(events).entries.contains_key(b),
    ensures
        writer_run(events).entries[a].sem != writer_run(events).entries[b].sem,
{
    writers_run_knows(events);
}

/// Writers of one repository do not touch another's entry.
pub proof fn repositories_are_independent(
    m: LeaseMap,
    repo: Seq<char>,
    other: Seq<char>,
    fresh: u64,
)
    requires
        repo != other,
    ensures
        refs_of(referred(m, other, fresh), repo) == refs_of(m, repo),
        waiters_of(referred(m, other, fresh), repo) == waiters_of(m, repo),
        refs_of(dereferred(m, other), repo) == refs_of(m, repo),
        waiters_of(waiting(m, other), repo) == waiters_of(m, repo),
        waiters_of(done_waiting(m, other), repo) == waiters_of(m, repo),
{
}

/// How many writers may wait for one repository.
pub open spec fn waiters_allowed(max_waiters: usize) -> usize {
    if max_waiters == 0 {
        1
    } else {
        max_waiters
    }
}

/// As many writers may wait as the limit says, and one where it says none.
pub proof fn some_writer_may_always_wait(max_waiters: usize)
    ensures
        waiters_allowed(max_waiters) >= 1,
        max_waiters >= 1 ==> waiters_allowed(max_waiters) == max_waiters,
        waiters_allowed(0) == 1,
{
}

/// The entries and the next semaphore after a writer has begun to acquire, and the
/// semaphore on which it waits.
pub open spec fn acquire_step(m: LeaseMap, fresh: u64, repo: Seq<char>) -> (LeaseMap, int, u64) {
    (
        referred(m, repo, fresh),
        if m.contains_key(repo) {
            fresh as int
        } else {
            fresh + 1
        },
        referred(m, repo, fresh)[repo].sem,
    )
}

/// What came of an attempt to get the permit.
#[derive(Clone, Copy, PartialEq, Eq, Structural, Debug)]
pub enum TryEnd {
    Held,
    Wait,
    Shed,
}

/// What came of an attempt to get the permit.
pub open spec fn tried_end(r: TryOutcome) -> TryEnd {
    match r {
        TryOutcome::Held(_) => TryEnd::Held,
        TryOutcome::Wait(_) => TryEnd::Wait,
        TryOutcome::Shed => TryEnd::Shed,
    }
}

/// The entries after an attempt to get the permit, and what came of it.
pub open spec fn tried_step(m: LeaseMap, limit: usize, repo: Seq<char>, got_permit: bool) -> (
    LeaseMap,
    TryEnd,
) {
    if got_permit {
        (m, TryEnd::Held)
    } else if may_wait(m, repo, limit) {
        (waiting(m, repo), TryEnd::Wait)
    } else {
        (dereferred(m, repo), TryEnd::Shed)
    }
}

/// The entries after a wait, and whether the writer has a permit.
pub open spec fn waited_step(m: LeaseMap, repo: Seq<char>, was_waiting: bool, end: WaitEnd) -> (
    LeaseMap,
    bool,
) {
    (
        if was_waiting {
            done_waiting(m, repo)
        } else {
            m
        },
        end is Granted,
    )
}

/// The entries after a request was given up.
pub open spec fn cancel_step(m: LeaseMap, repo: Seq<char>, was_waiting: bool) -> LeaseMap {
    dereferred(
        if was_waiting {
            done_waiting(m, repo)
        } else {
            m
        },
        repo,
    )
}

/// The entries after a lease was returned.
pub open spec fn release_step(m: LeaseMap, repo: Seq<char>) -> LeaseMap {
    dereferred(m, repo)
}

/// A writer that comes refers to its repository's entry once more, and to no
/// other; where the repository has an entry, it waits on that entry's semaphore,
/// and where it has none, on one that no other repository has.
pub proof fn writers_join_their_repository(
    m: LeaseMap,
    fresh: u64,
    repo: Seq<char>,
    other: Seq<char>,
)
    requires
        refs_of(m, repo) < usize::MAX,
        forall|r: Seq<char>| #[trigger] m.contains_key(r) ==> m[r].sem < fresh,
    ensures
        ({
            let (after, next, sem) = acquire_step(m, fresh, repo);
            &&& refs_of(after, repo) == refs_of(m, repo) + 1
            &&& waiters_of(after, repo) == waiters_of(m, repo)
            &&& after.contains_key(repo) && after[repo].sem == sem && sem < next
            &&& m.contains_key(repo) ==> sem == m[repo].sem && next == fresh
            &&& !m.contains_key(repo) ==> (m.contains_key(other) ==> m[other].sem != sem)
            &&& other != repo ==> after.contains_key(other) == m.contains_key(other) && after[other]
                == m[other]
        }),
{
}

/// A writer has the lease exactly if it got the permit. Without it, it waits as
/// long as fewer wait than may, and is then counted; otherwise it is turned away,
/// and its reference goes.
pub proof fn a_writer_holds_waits_or_is_turned_away(
    m: LeaseMap,
    limit: usize,
    repo: Seq<char>,
    got_permit: bool,
)
    requires
        m.contains_key(repo),
        m[repo].refs >= 1,
        m[repo].waiters <= limit,
    ensures
        ({
            let (after, end) = tried_step(m, limit, repo, got_permit);
            &&& end is Held <==> got_permit
            &&& end is Wait <==> !got_permit && waiters_of(m, repo) < limit
            &&& end is Shed <==> !got_permit && waiters_of(m, repo) >= limit
            &&& end is Held ==> after == m
            &&& end is Wait ==> waiters_of(after, repo) == waiters_of(m, repo) + 1 && refs_of(
                after,
                repo,
            ) == refs_of(m, repo)
            &&& end is Shed ==> refs_of(after, repo) == refs_of(m, repo) - 1
        }),
{
}

/// However a wait ends, the writer goes on with the lease and waits no longer: it
/// has a permit exactly if it was granted one.
pub proof fn every_wait_ends_with_the_lease(m: LeaseMap, repo: Seq<char>, end: WaitEnd)
    requires
        m.contains_key(repo),
        m[repo].waiters >= 1,
    ensures
        waited_step(m, repo, true, WaitEnd::Granted).1,
        !waited_step(m, repo, true, WaitEnd::Elapsed).1,
        !waited_step(m, repo, true, WaitEnd::Closed).1,
        waiters_of(waited_step(m, repo, true, end).0, repo) == waiters_of(m, repo) - 1,
        refs_of(waited_step(m, repo, true, end).0, repo) == refs_of(m, repo),
        waited_step(m, repo, false, end).0 == m,
{
}

/// Whatever way a writer takes, once it is gone the entries are as they were
/// before it came: turned away, given up before or during the wait, or done with
/// the lease, with a wait before it or without.
pub proof fn every_way_out_leaves_no_trace(
    m: LeaseMap,
    fresh: u64,
    repo: Seq<char>,
    limit: usize,
    end: WaitEnd,
)
    requires
        refs_of(m, repo) < usize::MAX,
        m.contains_key(repo) ==> m[repo].refs >= 1 && m[repo].waiters <= limit,
        limit >= 1,
    ensures
        ({
            let come = acquire_step(m, fresh, repo).0;
            let (held, _) = tried_step(come, limit, repo, true);
            let (tried, how) = tried_step(come, limit, repo, false);
            &&& release_step(held, repo) == m
            &&& cancel_step(come, repo, false) == m
            &&& how is Shed ==> tried == m
            &&& how is Wait ==> cancel_step(tried, repo, true) == m
            &&& how is Wait ==> release_step(waited_step(tried, repo, true, end).0, repo) == m
        }),
{
    shedding_leaves_no_trace(m, repo, fresh);
    if waiters_of(m, repo) < limit {
        cancelling_leaves_no_trace(m, repo, fresh);
    }
}

/// A try that holds the lease, waits for it or is turned away has ended so.
pub proof fn tries_end_as_they_tell(o: TryOutcome)
    ensures
        o is Held <==> tried_end(o) is Held,
        o is Wait <==> tried_end(o) is Wait,
        o is Shed <==> tried_end(o) is Shed,
{
}

} // verus!
