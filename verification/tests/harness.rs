use gitlawb_node::test_harness::{
    bare_repo_path, base_url, drop_plan, join_or_abort, seeded_disk_path, seeded_issue, shutdown,
    shutdown_step, source_dir, unique_repos_dir, DropPlan, JoinEvent, JoinNext, ServeTeardown,
    TeardownEnd, TeardownEvent, TeardownPhase,
};

#[test]
fn join_or_abort_aborts_a_wedged_task_on_timeout() {
    assert_eq!(join_or_abort(false, JoinEvent::Elapsed), JoinNext::Abort);
    assert_eq!(
        join_or_abort(true, JoinEvent::Cancelled),
        JoinNext::Joined(ServeTeardown::TimedOutAborted)
    );
    assert_eq!(
        join_or_abort(true, JoinEvent::Finished { ok: true }),
        JoinNext::Joined(ServeTeardown::Graceful { ok: true }),
        "a task that finished is never wedged"
    );
    assert_eq!(join_or_abort(true, JoinEvent::Panicked), JoinNext::Panic);
}

#[test]
fn join_or_abort_reports_graceful_when_task_exits_in_time() {
    assert_eq!(
        join_or_abort(false, JoinEvent::Finished { ok: true }),
        JoinNext::Joined(ServeTeardown::Graceful { ok: true })
    );
}

fn tear_down(serving: bool, task: &[JoinEvent]) -> (Vec<TeardownPhase>, TeardownEnd) {
    let mut p = shutdown(serving);
    let mut seen = task.iter();
    let mut phases = Vec::new();
    loop {
        phases.push(p);
        let e = match p {
            TeardownPhase::Join | TeardownPhase::Abort => TeardownEvent::Task(*seen.next().unwrap()),
            _ => TeardownEvent::Performed,
        };
        if let Some(end) = shutdown_step(&mut p, e) {
            return (phases, end);
        }
    }
}

#[test]
fn a_teardown_releases_everything_before_it_ends() {
    let cases = [
        (true, vec![JoinEvent::Finished { ok: true }], TeardownEnd::Clean),
        (true, vec![JoinEvent::Finished { ok: false }], TeardownEnd::ServeFailed),
        (true, vec![JoinEvent::Elapsed, JoinEvent::Cancelled], TeardownEnd::Wedged),
        (false, vec![], TeardownEnd::Clean),
    ];
    for (serving, task, expected) in cases {
        let (phases, end) = tear_down(serving, &task);
        assert_eq!(end, expected);
        assert!(phases.iter().any(|p| matches!(p, TeardownPhase::ClosePool { .. })));
        assert!(matches!(phases.last(), Some(TeardownPhase::RemoveDir { .. })));
    }
    assert_eq!(
        tear_down(true, &[JoinEvent::Panicked]).1,
        TeardownEnd::ServePanicked
    );
}

#[test]
fn dropping_signals_and_aborts() {
    assert_eq!(
        drop_plan(false, true),
        DropPlan {
            signal: true,
            abort: true
        }
    );
    assert_eq!(
        drop_plan(true, false),
        DropPlan {
            signal: false,
            abort: false
        }
    );
}

#[test]
fn fixtures_have_their_names() {
    assert_eq!(unique_repos_dir(12, 3), "gitlawb-deny-harness-12-3");
    assert_ne!(unique_repos_dir(12, 3), unique_repos_dir(12, 4));
    assert_eq!(
        bare_repo_path("did:web:a/b", "r"),
        ("did_web_a_b".to_string(), "r.git".to_string())
    );
    assert_eq!(source_dir("r"), "src-r");
    assert_eq!(seeded_disk_path("r"), "/tmp/r");
    assert_eq!(seeded_issue("did:key:z"), "{\"author\":\"did:key:z\"}");
    assert_eq!(base_url("127.0.0.1:1"), "http://127.0.0.1:1");
}
