//! One encryption task per repository.
//!
//! A push that finds a task in flight for its repository starts no second one:
//! it leaves its reference updates in the task's pending slot, and the task
//! drains the slot before it ends.

use vstd::hash_map::StringHashMap;
use vstd::prelude::*;

verus! {

broadcast use vstd::hash_map::group_hash_map_axioms;

/// The most reference updates that a pending slot holds. A slot that would hold
/// more asks for a scan of the whole repository instead.
pub const MAX_PENDING_TIP_PAIRS: usize = 1024;

/// What pushes have left for the task in flight.
#[derive(Debug, Clone, PartialEq, Eq)]
pub enum PendingWork {
    /// The reference updates of the pushes, as pairs of an old and a new
    /// commit. An empty list is no work.
    Tips(Vec<(String, String)>),
    /// Scan the whole repository.
    FullScan,
}

/// A reference update as the contracts see it.
pub type PairView = (Seq<char>, Seq<char>);

/// What pushes have left for the task in flight, as the contracts see it.
pub enum WorkView {
    Tips(Seq<PairView>),
    FullScan,
}

/// The reference updates as the contracts see them.
pub open spec fn pair_views(pairs: Seq<(String, String)>) -> Seq<PairView> {
    pairs.map_values(|p: (String, String)| (p.0@, p.1@))
}

impl View for PendingWork {
    type V = WorkView;

    open spec fn view(&self) -> WorkView {
        match *self {
            PendingWork::Tips(pairs) => WorkView::Tips(pair_views(pairs@)),
            PendingWork::FullScan => WorkView::FullScan,
        }
    }
}

/// No work.
pub open spec fn no_work() -> WorkView {
    WorkView::Tips(Seq::empty())
}

/// The slot after the updates `pairs` have been added to it.
pub open spec fn merged(slot: WorkView, pairs: Seq<PairView>) -> WorkView {
    match slot {
        WorkView::FullScan => WorkView::FullScan,
        WorkView::Tips(held) => if held.len() + pairs.len() > MAX_PENDING_TIP_PAIRS {
            WorkView::FullScan
        } else {
            WorkView::Tips(held + pairs)
        },
    }
}

/// Whether draining `work` handles the update `pair`.
pub open spec fn covers(work: WorkView, pair: PairView) -> bool {
    match work {
        WorkView::FullScan => true,
        WorkView::Tips(held) => held.contains(pair),
    }
}

fn copy_pairs(pairs: &Vec<(String, String)>) -> (r: Vec<(String, String)>)
    ensures
        pair_views(r@) == pair_views(pairs@),
{
    let mut out: Vec<(String, String)> = Vec::new();
    let mut i: usize = 0;
    while i < pairs.len()
        invariant
            i <= pairs.len(),
            out.len() == i,
            forall|j: int| 0 <= j < i ==> out[j].0@ == pairs[j].0@ && out[j].1@ == pairs[j].1@,
        decreases pairs.len() - i,
    {
        out.push((pairs[i].0.clone(), pairs[i].1.clone()));
        i = i + 1;
    }
    assert(pair_views(out@) =~= pair_views(pairs@));
    out
}

fn copy_work(work: &PendingWork) -> (r: PendingWork)
    ensures
        r@ == work@,
{
    match work {
        PendingWork::Tips(pairs) => PendingWork::Tips(copy_pairs(pairs)),
        PendingWork::FullScan => PendingWork::FullScan,
    }
}

/// Adds the updates of a push to a pending slot.
pub fn merge_pending(slot: &mut PendingWork, pairs: Vec<(String, String)>)
    ensures
        final(slot)@ == merged(old(slot)@, pair_views(pairs@)),
{
    let full = match slot {
        PendingWork::FullScan => true,
        PendingWork::Tips(held) => held.len().saturating_add(pairs.len()) > MAX_PENDING_TIP_PAIRS,
    };
    if full {
        *slot = PendingWork::FullScan;
    } else {
        let mut pairs = pairs;
        match slot {
            PendingWork::Tips(held) => {
                proof {
                    assert(pair_views(held@ + pairs@) =~= pair_views(held@) + pair_views(pairs@));
                }
                held.append(&mut pairs);
            },
            PendingWork::FullScan => {},
        }
    }
}

/// The repositories with a task in flight, and what pushes have left for each
/// task.
pub struct EncryptInflight {
    repos: StringHashMap<PendingWork>,
}

/// Held by the task in flight for a repository.
///
/// An armed guard stands for a slot of its own. A disarmed one does not: the
/// slot may belong to a later task.
pub struct EncryptInflightGuard {
    repo_id: String,
    armed: bool,
}

/// What a push has to do.
pub enum BeginOutcome {
    /// No task was in flight: start one, with this guard.
    Admitted(EncryptInflightGuard),
    /// A task is in flight, and the push's updates are in its slot.
    Coalesced,
}

/// What a task has to do after a round.
pub enum FinishOutcome {
    /// Another round, on this work; the guard is still armed.
    Pending(EncryptInflightGuard, PendingWork),
    /// End; the slot is gone and the guard disarmed.
    Finished(EncryptInflightGuard),
}

impl EncryptInflightGuard {
    /// The repository that the guard is for.
    pub closed spec fn repo(&self) -> Seq<char> {
        self.repo_id@
    }

    /// Whether the guard stands for a slot.
    pub closed spec fn is_armed(&self) -> bool {
        self.armed
    }

    /// Ends a round: takes the work that pushes have left, or, where there is
    /// none, removes the slot and disarms the guard.
    pub fn finish_or_take_pending(self, inflight: &mut EncryptInflight) -> (r: FinishOutcome)
        requires
            old(inflight).wf(),
        ensures
            final(inflight).wf(),
            old(inflight)@.contains_key(self.repo()) && old(inflight)@[self.repo()] != no_work()
                ==> {
                &&& r matches FinishOutcome::Pending(guard, work)
                &&& guard == self
                &&& work@ == old(inflight)@[self.repo()]
                &&& final(inflight)@ == old(inflight)@.insert(self.repo(), no_work())
            },
            !old(inflight)@.contains_key(self.repo()) || old(inflight)@[self.repo()] == no_work()
                ==> {
                &&& r matches FinishOutcome::Finished(guard)
                &&& guard.repo() == self.repo()
                &&& !guard.is_armed()
                &&& final(inflight)@ == old(inflight)@.remove(self.repo())
            },
            (
                final(inflight)@,
                match r {
                    FinishOutcome::Pending(_, work) => Some(work@),
                    FinishOutcome::Finished(_) => None,
                },
            ) == round_step(old(inflight)@, self.repo()),
    {
        let taken = match inflight.repos.get(self.repo_id.as_str()) {
            Some(work) => {
                let idle = match work {
                    PendingWork::Tips(pairs) => pairs.len() == 0,
                    PendingWork::FullScan => false,
                };
                proof {
                    if let PendingWork::Tips(pairs) = work {
                        assert(pair_views(pairs@).len() == pairs@.len());
                        if pairs@.len() == 0 {
                            assert(pair_views(pairs@) =~= Seq::empty());
                        }
                    }
                    assert(idle == (work@ == no_work()));
                }
                if idle {
                    None
                } else {
                    Some(copy_work(work))
                }
            },
            None => None,
        };
        match taken {
            Some(work) => {
                inflight.repos.insert(self.repo_id.clone(), PendingWork::Tips(Vec::new()));
                assert(pair_views(Seq::empty()) =~= Seq::empty());
                assert(inflight@ =~= old(inflight)@.insert(self.repo(), no_work()));
                FinishOutcome::Pending(self, work)
            },
            None => {
                inflight.repos.remove(self.repo_id.as_str());
                assert(inflight@ =~= old(inflight)@.remove(self.repo()));
                FinishOutcome::Finished(EncryptInflightGuard { repo_id: self.repo_id, armed: false })
            },
        }
    }

    /// Drops the guard of a task that ended without finishing, and returns the
    /// work that is lost with it. A disarmed guard is dropped without effect.
    pub fn abandon(self, inflight: &mut EncryptInflight) -> (lost: Option<PendingWork>)
        requires
            old(inflight).wf(),
        ensures
            final(inflight).wf(),
            !self.is_armed() ==> lost is None && final(inflight)@ == old(inflight)@,
            self.is_armed() ==> {
                &&& final(inflight)@ == old(inflight)@.remove(self.repo())
                &&& lost is Some == (old(inflight)@.contains_key(self.repo()) && old(
                    inflight,
                )@[self.repo()] != no_work())
                &&& lost is Some ==> lost->0@ == old(inflight)@[self.repo()]
            },
            (
                final(inflight)@,
                match lost {
                    Some(work) => Some(work@),
                    None => None,
                },
            ) == crash_step(old(inflight)@, self.repo(), self.is_armed()),
    {
        if !self.armed {
            return None;
        }
        match self.finish_or_take_pending(inflight) {
            FinishOutcome::Pending(guard, work) => {
                let ghost drained = inflight@;
                inflight.repos.remove(guard.repo_id.as_str());
                assert(inflight@ =~= drained.remove(self.repo()));
                assert(inflight@ =~= old(inflight)@.remove(self.repo()));
                Some(work)
            },
            FinishOutcome::Finished(_) => None,
        }
    }
}

impl View for EncryptInflight {
    type V = Map<Seq<char>, WorkView>;

    closed spec fn view(&self) -> Map<Seq<char>, WorkView> {
        self.repos@.map_values(|w: PendingWork| w@)
    }
}

impl EncryptInflight {
    /// Finitely many repositories have a task.
    pub open spec fn wf(&self) -> bool {
        self@.dom().finite()
    }

    /// No task is in flight.
    pub fn new() -> (r: Self)
        ensures
            r.wf(),
            r@ == Map::<Seq<char>, WorkView>::empty(),
    {
        let r = EncryptInflight { repos: StringHashMap::new() };
        assert(r@ =~= Map::<Seq<char>, WorkView>::empty());
        r
    }

    /// Begins a task for the repository, or leaves the push's updates for the
    /// task in flight.
    pub fn try_begin(&mut self, repo_id: &str, tip_pairs: Vec<(String, String)>) -> (r:
        BeginOutcome)
        requires
            old(self).wf(),
        ensures
            final(self).wf(),
            !old(self)@.contains_key(repo_id@) ==> {
                &&& r matches BeginOutcome::Admitted(guard)
                &&& guard.repo() == repo_id@
                &&& guard.is_armed()
                &&& final(self)@ == old(self)@.insert(repo_id@, no_work())
            },
            old(self)@.contains_key(repo_id@) ==> {
                &&& r is Coalesced
                &&& final(self)@ == old(self)@.insert(
                    repo_id@,
                    merged(old(self)@[repo_id@], pair_views(tip_pairs@)),
                )
            },
            (final(self)@, r is Admitted) == push_step(
                old(self)@,
                repo_id@,
                pair_views(tip_pairs@),
            ),
    {
        let held = match self.repos.get(repo_id) {
            Some(work) => Some(copy_work(work)),
            None => None,
        };
        match held {
            None => {
                self.repos.insert(repo_id.to_owned(), PendingWork::Tips(Vec::new()));
                assert(pair_views(Seq::empty()) =~= Seq::empty());
                assert(self@ =~= old(self)@.insert(repo_id@, no_work()));
                BeginOutcome::Admitted(
                    EncryptInflightGuard { repo_id: repo_id.to_owned(), armed: true },
                )
            },
            Some(mut work) => {
                merge_pending(&mut work, tip_pairs);
                self.repos.insert(repo_id.to_owned(), work);
                assert(self@ =~= old(self)@.insert(
                    repo_id@,
                    merged(old(self)@[repo_id@], pair_views(tip_pairs@)),
                ));
                BeginOutcome::Coalesced
            },
        }
    }

    /// The number of repositories with a task in flight.
    pub fn len(&self) -> (r: usize)
        requires
            self.wf(),
        ensures
            r == self@.len(),
            r == 0 <==> self@.is_empty(),
    {
        proof {
            assert(self@.dom() =~= self.repos@.dom());
            no_length_no_key(self@);
        }
        self.repos.len()
    }

    /// Whether no task is in flight.
    pub fn is_empty(&self) -> (r: bool)
        requires
            self.wf(),
        ensures
            r == (self@.len() == 0),
            r == (forall|repo: Seq<char>| !#[trigger] self@.contains_key(repo)),
    {
        proof {
            no_length_no_key(self@);
        }
        self.len() == 0
    }

    /// What pushes have left for the task in flight for the repository; `None`
    /// where there is no task.
    pub fn pending_for(&self, repo_id: &str) -> (r: Option<PendingWork>)
        ensures
            r is Some == self@.contains_key(repo_id@),
            r is Some ==> r->0@ == self@[repo_id@],
    {
        match self.repos.get(repo_id) {
            Some(work) => Some(copy_work(work)),
            None => None,
        }
    }
}

proof fn no_length_no_key(m: Map<Seq<char>, WorkView>)
    requires
        m.dom().finite(),
    ensures
        m.len() == 0 <==> (forall|repo: Seq<char>| !#[trigger] m.contains_key(repo)),
        m.len() == 0 <==> m.is_empty(),
{
    if m.len() == 0 {
        assert(m.dom() =~= Set::empty());
    } else {
        assert(m.contains_key(m.dom().choose()));
    }
}

/// Adding updates to a slot loses nothing: whatever the slot covered is still
/// covered, and so is every added update.
pub proof fn merging_loses_nothing(slot: WorkView, pairs: Seq<PairView>, pair: PairView)
    requires
        covers(slot, pair) || pairs.contains(pair),
    ensures
        covers(merged(slot, pairs), pair),
{
    if let WorkView::Tips(held) = slot {
        let all = held + pairs;
        if held.contains(pair) {
            let i = choose|i: int| 0 <= i < held.len() && held[i] == pair;
            assert(all[i] == pair);
        } else {
            let i = choose|i: int| 0 <= i < pairs.len() && pairs[i] == pair;
            assert(all[held.len() + i] == pair);
        }
    }
}

/// A slot within the bound stays within it.
pub proof fn merging_keeps_the_bound(slot: WorkView, pairs: Seq<PairView>)
    requires
        slot matches WorkView::Tips(held) ==> held.len() <= MAX_PENDING_TIP_PAIRS,
    ensures
        merged(slot, pairs) matches WorkView::Tips(held) ==> held.len() <= MAX_PENDING_TIP_PAIRS,
{
}

/// What happens at the table, one operation at a time.
pub enum TaskEvent {
    /// A push of the repository with these updates.
    Push(Seq<char>, Seq<PairView>),
    /// The repository's task ends a round.
    Round(Seq<char>),
    /// The repository's task ends without finishing.
    Crash(Seq<char>),
}

/// The table and the number of tasks (armed guards) of each repository.
pub struct TaskWorld {
    pub slots: Map<Seq<char>, WorkView>,
    pub tasks: spec_fn(Seq<char>) -> nat,
}

/// Nothing in flight.
pub open spec fn quiet() -> TaskWorld {
    TaskWorld { slots: Map::empty(), tasks: |repo: Seq<char>| 0 }
}

/// The world after an event. A round or a crash is an event of a repository
/// with a task only.
pub open spec fn task_step(w: TaskWorld, e: TaskEvent) -> TaskWorld {
    match e {
        TaskEvent::Push(repo, pairs) => if w.slots.contains_key(repo) {
            TaskWorld { slots: w.slots.insert(repo, merged(w.slots[repo], pairs)), ..w }
        } else {
            TaskWorld {
                slots: w.slots.insert(repo, no_work()),
                tasks: |r: Seq<char>| if r == repo { (w.tasks)(r) + 1 } else { (w.tasks)(r) },
            }
        },
        TaskEvent::Round(repo) => if (w.tasks)(repo) == 0 {
            w
        } else if w.slots.contains_key(repo) && w.slots[repo] != no_work() {
            TaskWorld { slots: w.slots.insert(repo, no_work()), ..w }
        } else {
            ended(w, repo)
        },
        TaskEvent::Crash(repo) => if (w.tasks)(repo) == 0 {
            w
        } else {
            ended(w, repo)
        },
    }
}

/// The world after a task of the repository has ended.
pub open spec fn ended(w: TaskWorld, repo: Seq<char>) -> TaskWorld {
    TaskWorld {
        slots: w.slots.remove(repo),
        tasks: |r: Seq<char>| if r == repo { ((w.tasks)(r) - 1) as nat } else { (w.tasks)(r) },
    }
}

/// The world after a sequence of events.
pub open spec fn task_run(events: Seq<TaskEvent>) -> TaskWorld
    decreases events.len(),
{
    if events.len() == 0 {
        quiet()
    } else {
        task_step(task_run(events.drop_last()), events.last())
    }
}

/// However pushes, rounds and crashes follow each other, a repository has at
/// most one task, and it has one exactly if it has a slot.
pub proof fn one_task_per_repository(events: Seq<TaskEvent>, repo: Seq<char>)
    ensures
        (task_run(events).tasks)(repo) == (if task_run(events).slots.contains_key(repo) {
            1nat
        } else {
            0nat
        }),
    decreases events.len(),
{
    if events.len() > 0 {
        one_task_per_repository(events.drop_last(), repo);
        let w = task_run(events.drop_last());
        let other = match events.last() {
            TaskEvent::Push(r, _) => r,
            TaskEvent::Round(r) => r,
            TaskEvent::Crash(r) => r,
        };
        one_task_per_repository(events.drop_last(), other);
    }
}

/// A push is never lost while its repository's task lives: from the push until
/// the task ends a round or crashes, the update it left is covered by the slot.
pub proof fn coalesced_updates_wait_for_the_task(
    before: Seq<TaskEvent>,
    after: Seq<TaskEvent>,
    repo: Seq<char>,
    pairs: Seq<PairView>,
    pair: PairView,
)
    requires
        task_run(before).slots.contains_key(repo),
        pairs.contains(pair),
        forall|i: int|
            0 <= i < after.len() ==> #[trigger] after[i] != TaskEvent::Round(repo) && after[i]
                != TaskEvent::Crash(repo),
    ensures
        task_run(before.push(TaskEvent::Push(repo, pairs)) + after).slots.contains_key(repo),
        covers(
            task_run(before.push(TaskEvent::Push(repo, pairs)) + after).slots[repo],
            pair,
        ),
    decreases after.len(),
{
    let pushed = before.push(TaskEvent::Push(repo, pairs));
    if after.len() == 0 {
        assert(pushed + after =~= pushed);
        assert(pushed.drop_last() =~= before);
        merging_loses_nothing(task_run(before).slots[repo], pairs, pair);
    } else {
        let all = pushed + after;
        assert(all.drop_last() =~= pushed + after.drop_last());
        assert(all.last() == after.last());
        coalesced_updates_wait_for_the_task(before, after.drop_last(), repo, pairs, pair);
        let w = task_run(pushed + after.drop_last());
        assert(after[after.len() - 1] == after.last());
        if let TaskEvent::Push(r, more) = after.last() {
            if r == repo {
                merging_loses_nothing(w.slots[repo], more, pair);
            }
        }
    }
}

/// What the task takes up in a round is all that the slot covered.
pub proof fn a_round_takes_all(w: TaskWorld, repo: Seq<char>, pair: PairView)
    requires
        w.slots.contains_key(repo),
        (w.tasks)(repo) > 0,
        covers(w.slots[repo], pair),
    ensures
        w.slots[repo] != no_work(),
        task_step(w, TaskEvent::Round(repo)).slots[repo] == no_work(),
        (task_step(w, TaskEvent::Round(repo)).tasks)(repo) == (w.tasks)(repo),
{
}

/// However pushes, rounds and crashes follow each other, the table is finite:
/// it has the length 0 exactly if no repository has a slot.
pub proof fn a_table_of_no_length_has_no_slot(events: Seq<TaskEvent>)
    ensures
        task_run(events).slots.dom().finite(),
        task_run(events).slots.len() == 0 <==> (forall|repo: Seq<char>|
            !#[trigger] task_run(events).slots.contains_key(repo)),
    decreases events.len(),
{
    if events.len() > 0 {
        a_table_of_no_length_has_no_slot(events.drop_last());
    }
    no_length_no_key(task_run(events).slots);
}

/// What a repository's task has received and taken up since it began: the
/// updates of the pushes that were left for it, those of the rounds' work, and
/// whether a round had to scan the whole repository.
pub struct TaskLedger {
    pub pushed: Seq<PairView>,
    pub taken: Seq<PairView>,
    pub scanned: bool,
}

/// The ledger of the repository's last task after a sequence of events.
pub open spec fn ledger(events: Seq<TaskEvent>, repo: Seq<char>) -> TaskLedger
    decreases events.len(),
{
    if events.len() == 0 {
        TaskLedger { pushed: Seq::empty(), taken: Seq::empty(), scanned: false }
    } else {
        let before = ledger(events.drop_last(), repo);
        let slots = task_run(events.drop_last()).slots;
        match events.last() {
            TaskEvent::Push(r, pairs) if r == repo => if slots.contains_key(repo) {
                TaskLedger { pushed: before.pushed + pairs, ..before }
            } else {
                TaskLedger { pushed: Seq::empty(), taken: Seq::empty(), scanned: false }
            },
            TaskEvent::Round(r) if r == repo && slots.contains_key(repo) => match slots[repo] {
                WorkView::Tips(held) => TaskLedger { taken: before.taken + held, ..before },
                WorkView::FullScan => TaskLedger { scanned: true, ..before },
            },
            _ => before,
        }
    }
}

/// As long as no round has to scan the whole repository, nothing is lost,
/// repeated or put out of order: the updates that were left for the task are
/// those that its rounds have taken up, in their order, and behind them those
/// that the slot holds. A round finds the slot empty, and the task ends, only
/// when they are exactly those that were taken up.
pub proof fn rounds_take_the_pushes_in_order(events: Seq<TaskEvent>, repo: Seq<char>)
    requires
        task_run(events).slots.contains_key(repo),
        !ledger(events, repo).scanned,
    ensures
        task_run(events).slots[repo] matches WorkView::Tips(held) ==> ledger(events, repo).pushed
            == ledger(events, repo).taken + held,
        task_run(events).slots[repo] == no_work() ==> {
            &&& ledger(events, repo).taken == ledger(events, repo).pushed
            &&& !task_run(events.push(TaskEvent::Round(repo))).slots.contains_key(repo)
        },
    decreases events.len(),
{
    one_task_per_repository(events, repo);
    let next = events.push(TaskEvent::Round(repo));
    assert(next.drop_last() =~= events);
    if events.len() > 0 {
        let shorter = events.drop_last();
        let w = task_run(shorter);
        one_task_per_repository(shorter, repo);
        let other = match events.last() {
            TaskEvent::Push(r, _) => r,
            TaskEvent::Round(r) => r,
            TaskEvent::Crash(r) => r,
        };
        one_task_per_repository(shorter, other);
        if w.slots.contains_key(repo) {
            rounds_take_the_pushes_in_order(shorter, repo);
        }
        let l = ledger(events, repo);
        if let WorkView::Tips(held) = task_run(events).slots[repo] {
            assert(l.pushed =~= l.taken + held);
        }
    }
}

/// The table after a push, and whether the push begins a task.
pub open spec fn push_step(
    slots: Map<Seq<char>, WorkView>,
    repo: Seq<char>,
    pairs: Seq<PairView>,
) -> (Map<Seq<char>, WorkView>, bool) {
    if slots.contains_key(repo) {
        (slots.insert(repo, merged(slots[repo], pairs)), false)
    } else {
        (slots.insert(repo, no_work()), true)
    }
}

/// The table after a round, and the work of the next one where there is one.
pub open spec fn round_step(slots: Map<Seq<char>, WorkView>, repo: Seq<char>) -> (
    Map<Seq<char>, WorkView>,
    Option<WorkView>,
) {
    if slots.contains_key(repo) && slots[repo] != no_work() {
        (slots.insert(repo, no_work()), Some(slots[repo]))
    } else {
        (slots.remove(repo), None)
    }
}

/// The table after a task ended without finishing, and the work that is lost.
pub open spec fn crash_step(slots: Map<Seq<char>, WorkView>, repo: Seq<char>, armed: bool) -> (
    Map<Seq<char>, WorkView>,
    Option<WorkView>,
) {
    if armed {
        (
            slots.remove(repo),
            if slots.contains_key(repo) && slots[repo] != no_work() {
                Some(slots[repo])
            } else {
                None
            },
        )
    } else {
        (slots, None)
    }
}

/// A slot keeps the updates themselves, in their order, as long as it holds no
/// more than 1024; a scan of the whole repository takes their place exactly where
/// there would be more, or where one is asked for already.
pub proof fn slots_keep_updates_up_to_the_bound(held: Seq<PairView>, pairs: Seq<PairView>)
    ensures
        merged(WorkView::FullScan, pairs) is FullScan,
        held.len() + pairs.len() <= 1024 <==> !(merged(WorkView::Tips(held), pairs) is FullScan),
        merged(WorkView::Tips(held), pairs) matches WorkView::Tips(all) ==> {
            &&& all.len() == held.len() + pairs.len()
            &&& forall|i: int| 0 <= i < held.len() ==> #[trigger] all[i] == held[i]
            &&& forall|i: int| 0 <= i < pairs.len() ==> all[held.len() + i] == #[trigger] pairs[i]
        },
{
}

/// A push begins a task exactly if its repository has none, and then it leaves
/// nothing behind: the task works on the push itself. Otherwise all that it
/// brings, and all that was there, is left for the task in flight. No push touches
/// another repository.
pub proof fn pushes_begin_a_task_or_are_left(
    slots: Map<Seq<char>, WorkView>,
    repo: Seq<char>,
    pairs: Seq<PairView>,
    other: Seq<char>,
    pair: PairView,
)
    ensures
        ({
            let (after, begins) = push_step(slots, repo, pairs);
            &&& begins <==> !slots.contains_key(repo)
            &&& after.contains_key(repo)
            &&& begins ==> after[repo] == WorkView::Tips(Seq::empty())
            &&& !begins && (covers(slots[repo], pair) || pairs.contains(pair)) ==> covers(
                after[repo],
                pair,
            )
            &&& other != repo ==> after.contains_key(other) == slots.contains_key(other)
                && after[other] == slots[other]
        }),
{
    if slots.contains_key(repo) && (covers(slots[repo], pair) || pairs.contains(pair)) {
        merging_loses_nothing(slots[repo], pairs, pair);
    }
}

/// A round hands out what was left, whole, and leaves the slot in place and empty
/// for what comes during the next one; where nothing was left, it ends the task
/// and the slot goes. So the task ends only after a round that found nothing.
pub proof fn rounds_hand_out_what_was_left(
    slots: Map<Seq<char>, WorkView>,
    repo: Seq<char>,
    other: Seq<char>,
)
    ensures
        ({
            let (after, work) = round_step(slots, repo);
            let left = slots.contains_key(repo) && slots[repo] != WorkView::Tips(Seq::empty());
            &&& work is Some <==> left
            &&& left ==> work == Some(slots[repo]) && after.contains_key(repo) && after[repo]
                == WorkView::Tips(Seq::empty())
            &&& !left ==> !after.contains_key(repo)
            &&& other != repo ==> after.contains_key(other) == slots.contains_key(other)
                && after[other] == slots[other]
        }),
{
}

/// A task that ends without finishing gives up its slot, so that the next push
/// begins a new one, and tells what was left in it. A guard that is not armed has
/// no slot to give up, and leaves that of a later task.
pub proof fn crashes_free_the_repository(
    slots: Map<Seq<char>, WorkView>,
    repo: Seq<char>,
    pairs: Seq<PairView>,
)
    ensures
        !crash_step(slots, repo, true).0.contains_key(repo),
        push_step(crash_step(slots, repo, true).0, repo, pairs).1,
        crash_step(slots, repo, true).1 matches Some(work) ==> slots.contains_key(repo) && work
            == slots[repo],
        slots.contains_key(repo) && slots[repo] != WorkView::Tips(Seq::empty()) ==> crash_step(
            slots,
            repo,
            true,
        ).1 is Some,
        crash_step(slots, repo, false) == (slots, None::<WorkView>),
{
}

/// What happens at the table is what its operations do: pushes, rounds and crashes
/// change it as the operations say, and a repository gets a task exactly with a
/// push that begins one.
pub proof fn events_are_the_operations(w: TaskWorld, repo: Seq<char>, pairs: Seq<PairView>)
    requires
        (w.tasks)(repo) == (if w.slots.contains_key(repo) { 1nat } else { 0nat }),
    ensures
        ({
            let after = task_step(w, TaskEvent::Push(repo, pairs));
            &&& after.slots == push_step(w.slots, repo, pairs).0
            &&& push_step(w.slots, repo, pairs).1 <==> (after.tasks)(repo) == (w.tasks)(repo) + 1
        }),
        w.slots.contains_key(repo) ==> {
            let after = task_step(w, TaskEvent::Round(repo));
            &&& after.slots == round_step(w.slots, repo).0
            &&& round_step(w.slots, repo).1 is None <==> (after.tasks)(repo) == 0
            &&& task_step(w, TaskEvent::Crash(repo)).slots == crash_step(w.slots, repo, true).0
        },
{
}

} // verus!
