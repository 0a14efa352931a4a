use gitlawb_node::state::budgets::{
    ipfs_legacy_probe_budget, ipfs_legacy_scan_row_budget, ipfs_work_budget, IpfsLimits,
};
use gitlawb_node::state::encrypt_inflight::{
    merge_pending, BeginOutcome, EncryptInflight, EncryptInflightGuard, FinishOutcome,
    PendingWork, MAX_PENDING_TIP_PAIRS,
};
use gitlawb_node::state::leases::{
    LeaseRequest, RepoWriteLease, RepoWriteLeases, TryOutcome, WaitEnd,
};
use gitlawb_node::state::scan_token::{derive_scan_token_key, expand_scan_token_key};
use gitlawb_node::state::shutdown::ShutdownSignal;
use std::collections::HashSet;

/// The semaphores of the writers, each with one permit.
struct Permits {
    taken: HashSet<u64>,
}

impl Permits {
    fn try_take(&mut self, sem: u64) -> bool {
        self.taken.insert(sem)
    }
}

enum Writer {
    Held(RepoWriteLease, u64),
    Parked(LeaseRequest, u64),
    Shed,
}

fn try_acquire(leases: &mut RepoWriteLeases, permits: &mut Permits, repo: &str) -> Writer {
    assert!(leases.has_room(repo));
    let request = leases.acquire(repo);
    let sem = request.semaphore();
    let got = permits.try_take(sem);
    match leases.tried(request, got) {
        TryOutcome::Held(lease) => Writer::Held(lease, sem),
        TryOutcome::Wait(request) => Writer::Parked(request, sem),
        TryOutcome::Shed => Writer::Shed,
    }
}

fn held(w: Writer) -> (RepoWriteLease, u64) {
    match w {
        Writer::Held(lease, sem) => (lease, sem),
        _ => panic!("the lease must be had"),
    }
}

fn parked(w: Writer) -> (LeaseRequest, u64) {
    match w {
        Writer::Parked(request, sem) => (request, sem),
        _ => panic!("the writer must wait"),
    }
}

fn give_back(leases: &mut RepoWriteLeases, permits: &mut Permits, lease: RepoWriteLease, sem: u64) {
    if lease.has_permit() {
        permits.taken.remove(&sem);
    }
    leases.release(lease);
}

fn no_permits() -> Permits {
    Permits {
        taken: HashSet::new(),
    }
}

#[test]
fn serializes_same_repo_frees_key_and_steals_on_leak() {
    let (mut leases, mut permits) = (RepoWriteLeases::new(8), no_permits());
    let (a, sem) = held(try_acquire(&mut leases, &mut permits, "repo1"));
    let (waiting, same) = parked(try_acquire(&mut leases, &mut permits, "repo1"));
    assert_eq!(sem, same, "writers of a repository share the semaphore");
    leases.cancel(waiting);
    give_back(&mut leases, &mut permits, a, sem);
    let (b, sem) = held(try_acquire(&mut leases, &mut permits, "repo1"));
    give_back(&mut leases, &mut permits, b, sem);
    assert!(leases.is_empty(), "the entry goes with its last writer");
    let (x, sx) = held(try_acquire(&mut leases, &mut permits, "repoX"));
    let (y, sy) = held(try_acquire(&mut leases, &mut permits, "repoY"));
    assert_ne!(sx, sy, "distinct repositories do not serialise");
    assert_eq!(leases.len(), 2);
    give_back(&mut leases, &mut permits, x, sx);
    give_back(&mut leases, &mut permits, y, sy);
    assert!(leases.is_empty());
}

#[test]
fn steal_on_leaked_lease_still_works_under_the_waiter_cap() {
    let (mut leases, mut permits) = (RepoWriteLeases::new(1), no_permits());
    let (_leaked, _) = held(try_acquire(&mut leases, &mut permits, "repoZ"));
    assert_eq!(leases.refs_for("repoZ"), 1);
    let (waiting, sem) = parked(try_acquire(&mut leases, &mut permits, "repoZ"));
    let stolen = leases.waited(waiting, WaitEnd::Elapsed);
    assert!(!stolen.has_permit(), "a stolen lease has no permit");
    assert_eq!(leases.waiters_for("repoZ"), 0);
    assert_eq!(leases.refs_for("repoZ"), 2);
    give_back(&mut leases, &mut permits, stolen, sem);
    assert_eq!(leases.refs_for("repoZ"), 1);
}

#[test]
fn shed_waiter_leaves_no_ref_or_waiter_residue() {
    let (mut leases, mut permits) = (RepoWriteLeases::new(1), no_permits());
    let (holder, sem) = held(try_acquire(&mut leases, &mut permits, "repoS"));
    let (waiting, _) = parked(try_acquire(&mut leases, &mut permits, "repoS"));
    assert_eq!(leases.waiters_for("repoS"), 1);
    assert!(matches!(
        try_acquire(&mut leases, &mut permits, "repoS"),
        Writer::Shed
    ));
    assert_eq!(leases.refs_for("repoS"), 2);
    assert_eq!(leases.waiters_for("repoS"), 1);
    give_back(&mut leases, &mut permits, holder, sem);
    assert!(permits.try_take(sem));
    let promoted = leases.waited(waiting, WaitEnd::Granted);
    assert!(promoted.has_permit());
    give_back(&mut leases, &mut permits, promoted, sem);
    assert!(leases.is_empty());
}

#[test]
fn cancelled_waiter_does_not_strand_the_refcount() {
    let (mut leases, mut permits) = (RepoWriteLeases::new(8), no_permits());
    let (a, sem) = held(try_acquire(&mut leases, &mut permits, "repoC"));
    let (waiting, _) = parked(try_acquire(&mut leases, &mut permits, "repoC"));
    leases.cancel(waiting);
    give_back(&mut leases, &mut permits, a, sem);
    assert!(leases.is_empty());
}

#[test]
fn cancelled_waiter_releases_its_waiter_slot() {
    let (mut leases, mut permits) = (RepoWriteLeases::new(1), no_permits());
    let (holder, sem) = held(try_acquire(&mut leases, &mut permits, "repoX2"));
    let (waiting, _) = parked(try_acquire(&mut leases, &mut permits, "repoX2"));
    leases.cancel(waiting);
    assert_eq!(leases.waiters_for("repoX2"), 0);
    let (next, _) = parked(try_acquire(&mut leases, &mut permits, "repoX2"));
    leases.cancel(next);
    give_back(&mut leases, &mut permits, holder, sem);
}

#[test]
fn uncontended_acquire_spends_no_waiter_budget() {
    let (mut leases, mut permits) = (RepoWriteLeases::new(1), no_permits());
    let (holder, sem) = held(try_acquire(&mut leases, &mut permits, "repoF"));
    assert_eq!(leases.waiters_for("repoF"), 0);
    let (waiting, _) = parked(try_acquire(&mut leases, &mut permits, "repoF"));
    assert_eq!(leases.waiters_for("repoF"), 1);
    give_back(&mut leases, &mut permits, holder, sem);
    assert!(permits.try_take(sem));
    let promoted = leases.waited(waiting, WaitEnd::Granted);
    assert_eq!(leases.waiters_for("repoF"), 0);
    let (third, _) = parked(try_acquire(&mut leases, &mut permits, "repoF"));
    leases.cancel(third);
    give_back(&mut leases, &mut permits, promoted, sem);
}

#[test]
fn a_limit_of_zero_lets_one_writer_wait() {
    let (mut leases, mut permits) = (RepoWriteLeases::new(0), no_permits());
    let (holder, _) = held(try_acquire(&mut leases, &mut permits, "r"));
    let (waiting, _) = parked(try_acquire(&mut leases, &mut permits, "r"));
    assert!(matches!(
        try_acquire(&mut leases, &mut permits, "r"),
        Writer::Shed
    ));
    let closed = leases.waited(waiting, WaitEnd::Closed);
    assert!(!closed.has_permit());
    leases.release(closed);
    leases.release(holder);
    assert!(leases.is_empty());
}

fn pair(a: &str, b: &str) -> (String, String) {
    (a.to_string(), b.to_string())
}

fn begin(inflight: &mut EncryptInflight, repo: &str) -> EncryptInflightGuard {
    match inflight.try_begin(repo, vec![pair("0", "1")]) {
        BeginOutcome::Admitted(guard) => guard,
        BeginOutcome::Coalesced => panic!("no task was in flight"),
    }
}

#[test]
fn pushes_during_a_task_are_left_for_it() {
    let mut inflight = EncryptInflight::new();
    let guard = begin(&mut inflight, "r");
    assert_eq!(inflight.pending_for("r"), Some(PendingWork::Tips(vec![])));
    assert!(matches!(
        inflight.try_begin("r", vec![pair("1", "2")]),
        BeginOutcome::Coalesced
    ));
    assert!(matches!(
        inflight.try_begin("r", vec![pair("2", "3"), pair("1", "2")]),
        BeginOutcome::Coalesced
    ));
    assert_eq!(inflight.len(), 1);
    let guard = match guard.finish_or_take_pending(&mut inflight) {
        FinishOutcome::Pending(guard, PendingWork::Tips(tips)) => {
            assert!(tips.contains(&pair("1", "2")) && tips.contains(&pair("2", "3")));
            guard
        }
        _ => panic!("work was left"),
    };
    let guard = match guard.finish_or_take_pending(&mut inflight) {
        FinishOutcome::Finished(guard) => guard,
        FinishOutcome::Pending(_, _) => panic!("all work was taken"),
    };
    assert!(inflight.is_empty());
    let later = begin(&mut inflight, "r");
    assert_eq!(guard.abandon(&mut inflight), None);
    assert_eq!(inflight.len(), 1, "a disarmed guard leaves a later task's slot");
    assert_eq!(later.abandon(&mut inflight), None);
    assert!(inflight.is_empty());
}

#[test]
fn rounds_take_the_updates_in_their_order() {
    let mut inflight = EncryptInflight::new();
    let mut guard = begin(&mut inflight, "r");
    let pushes = [
        vec![vec![pair("1", "2")], vec![pair("2", "3"), pair("1", "2")]],
        vec![vec![pair("3", "4")]],
    ];
    let mut taken = Vec::new();
    for round in &pushes {
        for tips in round {
            inflight.try_begin("r", tips.clone());
        }
        guard = match guard.finish_or_take_pending(&mut inflight) {
            FinishOutcome::Pending(guard, PendingWork::Tips(tips)) => {
                taken.extend(tips);
                guard
            }
            _ => panic!("work was left"),
        };
    }
    assert!(matches!(
        guard.finish_or_take_pending(&mut inflight),
        FinishOutcome::Finished(_)
    ));
    assert_eq!(taken, pushes.concat().concat());
    assert!(inflight.is_empty());
    assert_eq!(inflight.len(), 0);
    assert_eq!(inflight.pending_for("r"), None);
}

#[test]
fn a_crashed_task_frees_its_repository_and_loses_its_work() {
    let mut inflight = EncryptInflight::new();
    let guard = begin(&mut inflight, "r");
    inflight.try_begin("r", vec![pair("1", "2")]);
    assert_eq!(
        guard.abandon(&mut inflight),
        Some(PendingWork::Tips(vec![pair("1", "2")]))
    );
    assert_eq!(inflight.pending_for("r"), None);
    begin(&mut inflight, "r");
}

#[test]
fn a_full_slot_asks_for_a_full_scan() {
    let mut slot = PendingWork::Tips(vec![]);
    for i in 0..MAX_PENDING_TIP_PAIRS {
        merge_pending(&mut slot, vec![pair("x", &i.to_string())]);
    }
    match &slot {
        PendingWork::Tips(tips) => assert_eq!(tips.len(), MAX_PENDING_TIP_PAIRS),
        PendingWork::FullScan => panic!("the slot still holds all updates"),
    }
    merge_pending(&mut slot, vec![pair("x", "one more")]);
    assert_eq!(slot, PendingWork::FullScan);
    merge_pending(&mut slot, vec![pair("x", "y")]);
    assert_eq!(slot, PendingWork::FullScan);
}

#[test]
fn scan_token_key_survives_a_restart_of_the_same_identity() {
    let seed = vec![7u8; 32];
    let reloaded = seed.clone();
    assert_eq!(derive_scan_token_key(&seed), derive_scan_token_key(&reloaded));
    assert_eq!(
        derive_scan_token_key(&seed),
        vec![
            101, 107, 255, 113, 245, 116, 128, 226, 178, 44, 252, 156, 202, 74, 157, 35, 208, 93,
            208, 144, 103, 246, 62, 12, 90, 154, 70, 1, 166, 233, 81, 23
        ]
    );
}

#[test]
fn scan_token_key_does_not_open_under_a_different_identity() {
    assert_ne!(
        derive_scan_token_key(&vec![7u8; 32]),
        derive_scan_token_key(&vec![8u8; 32])
    );
}

#[test]
fn scan_token_key_is_not_the_signing_seed() {
    let seed = vec![7u8; 32];
    assert_ne!(derive_scan_token_key(&seed), seed);
    assert_ne!(expand_scan_token_key(&seed), seed);
}

#[test]
fn the_work_budget_covers_one_resolution() {
    let limits = |rate: usize| IpfsLimits {
        ipfs_rate_limit: rate,
        ipfs_max_legacy_probes: 256,
        ipfs_max_legacy_scan_rows: 1001,
        ipfs_max_repos_walked: 64,
    };
    // 256 probes, 11 pages of 100 rows, 4 walks.
    assert_eq!(ipfs_work_budget(&limits(1), 100, 4), 271);
    assert_eq!(ipfs_work_budget(&limits(1), 100, 400), 331);
    assert_eq!(ipfs_work_budget(&limits(600), 100, 4), 600);
    assert_eq!(ipfs_work_budget(&limits(0), 0, 4), 0);
    assert_eq!(ipfs_legacy_probe_budget(&limits(1)), 256);
    assert_eq!(ipfs_legacy_scan_row_budget(&limits(1)), 1001);
}

#[test]
fn the_shutdown_signal_stays_set() {
    let mut signal = ShutdownSignal::new();
    assert!(!signal.is_shutting_down());
    assert!(signal.shutdown());
    assert!(!signal.shutdown());
    assert!(signal.is_shutting_down());
}
