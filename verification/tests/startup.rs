use gitlawb_node::startup::db_retry::{
    database_retry_delay_secs, is_likely_permanent_db_error, DbError, DbEvent, DbPhase, DbRetry,
};
use gitlawb_node::startup::gossip::{
    announce_body, announce_url, health_url, is_alive, peer_to_add, read_announce_reply,
    AnnounceReply, Gossip, GossipEvent, GossipPhase,
};
use gitlawb_node::startup::limits::{
    limit_from_env, limiters, LimiterSettings, DEFAULT_CREATE_LIMIT, DEFAULT_PUSH_LIMIT,
};
use gitlawb_node::startup::operator::{
    build_operator_client, operator_action, operator_enabled, OperatorAction, OperatorSettings,
    OperatorStep,
};
use gitlawb_node::startup::plan::{
    after_db_wait, connected_peers_gauge, database_label, degraded_body, degraded_json,
    metrics_reply, own_did_record, start_plan, AfterDbWait, DbWaitEnd, DegradedEnd, StartPlan,
    StartSettings, DEGRADED_STATUS,
};
use gitlawb_node::startup::run::{NodeRun, RunEnd, RunEvent, RunSettings, RunStep};
use gitlawb_node::startup::serve::{drive_serve_with_grace, ServeEnd, ServeEvent, ServePhase};

#[test]
fn retry_delays_double_up_to_the_maximum() {
    assert_eq!(database_retry_delay_secs(2, 60, 0), 2);
    assert_eq!(database_retry_delay_secs(2, 60, 1), 2);
    assert_eq!(database_retry_delay_secs(2, 60, 2), 4);
    assert_eq!(database_retry_delay_secs(2, 60, 5), 32);
    assert_eq!(database_retry_delay_secs(2, 60, 6), 60);
    assert_eq!(database_retry_delay_secs(2, 60, u64::MAX), 60);
    assert_eq!(database_retry_delay_secs(1, u64::MAX, 64), 1 << 63);
    assert_eq!(database_retry_delay_secs(1, u64::MAX, 65), 1 << 63);
    assert_eq!(database_retry_delay_secs(3, u64::MAX, 65), u64::MAX);
    assert_eq!(database_retry_delay_secs(0, 60, 30), 0);
}

#[test]
fn rejections_are_permanent() {
    let code = |c: &str| DbError::Database(Some(c.to_string()));
    assert!(is_likely_permanent_db_error(&DbError::Configuration));
    assert!(is_likely_permanent_db_error(&code("28P01")));
    assert!(is_likely_permanent_db_error(&code("3D000")));
    assert!(!is_likely_permanent_db_error(&code("3D001")));
    assert!(!is_likely_permanent_db_error(&code("3D")));
    assert!(!is_likely_permanent_db_error(&code("3D0000")));
    assert!(!is_likely_permanent_db_error(&code("53300")));
    assert!(!is_likely_permanent_db_error(&code("2")));
    assert!(!is_likely_permanent_db_error(&DbError::Database(None)));
    assert!(!is_likely_permanent_db_error(&DbError::Other));
}

#[test]
fn connecting_goes_on_until_it_succeeds() {
    let mut retry = DbRetry::connect_db_with_retry(2, 60);
    retry.step(DbEvent::Shutdown(false));
    assert_eq!(retry.phase, DbPhase::Attempt);
    assert_eq!(retry.attempts, 1);
    retry.step(DbEvent::Failed(DbError::Other));
    assert_eq!(retry.phase, DbPhase::Sleep(2));
    retry.step(DbEvent::Slept);
    retry.step(DbEvent::Shutdown(false));
    retry.step(DbEvent::Failed(DbError::Configuration));
    assert_eq!(retry.phase, DbPhase::Sleep(60));
    assert_eq!(retry.next_retry_secs, 60);
    retry.step(DbEvent::SignalChanged {
        gone: false,
        value: false,
    });
    retry.step(DbEvent::Shutdown(false));
    retry.step(DbEvent::Connected);
    assert_eq!(retry.phase, DbPhase::Connected);
    assert_eq!(retry.attempts, 3);
}

#[test]
fn connecting_ends_with_the_signal() {
    let mut retry = DbRetry::connect_db_with_retry(9, 3);
    assert_eq!(retry.max_secs, 9);
    retry.step(DbEvent::Shutdown(true));
    assert_eq!(retry.phase, DbPhase::Stopped);
    let mut retry = DbRetry::connect_db_with_retry(9, 3);
    retry.step(DbEvent::Shutdown(false));
    retry.step(DbEvent::Failed(DbError::Other));
    retry.step(DbEvent::SignalChanged {
        gone: true,
        value: false,
    });
    assert_eq!(retry.phase, DbPhase::Stopped);
}

#[test]
fn limits_come_from_the_environment() {
    let limit = |v: &str| limit_from_env(Some(v.to_string()), DEFAULT_CREATE_LIMIT);
    assert_eq!(limit_from_env(None, DEFAULT_CREATE_LIMIT), 120);
    assert_eq!(limit_from_env(None, DEFAULT_PUSH_LIMIT), 600);
    assert_eq!(limit("7"), 7);
    assert_eq!(limit(" 7\n"), 7);
    for space in (0..=char::MAX as u32).filter_map(char::from_u32) {
        let white = matches!(
            space,
            '\u{9}'..='\u{d}'
                | ' '
                | '\u{85}'
                | '\u{a0}'
                | '\u{1680}'
                | '\u{2000}'..='\u{200a}'
                | '\u{2028}'
                | '\u{2029}'
                | '\u{202f}'
                | '\u{205f}'
                | '\u{3000}'
        );
        assert_eq!(white, space.is_whitespace(), "{space:?}");
        let read = limit(&format!("{space}7{space}"));
        assert_eq!(read == 7, white, "white space around it is dropped, {space:?}");
    }
    assert_eq!(limit("+7"), 7);
    assert_eq!(limit("0"), 0);
    assert_eq!(limit("007"), 7);
    assert_eq!(limit(""), 120);
    assert_eq!(limit("+"), 120);
    assert_eq!(limit("-1"), 120);
    assert_eq!(limit("7x"), 120);
    assert_eq!(limit("99999999999999999999999"), 120);
    assert_eq!(limit("18446744073709551615"), usize::MAX);
    assert_eq!(limit("18446744073709551616"), 120);
}

#[test]
fn limiters_have_the_common_window() {
    let l = limiters(None, Some("0".to_string()), 60, 0);
    assert_eq!(
        l.create_by_did,
        LimiterSettings {
            limit: 10,
            window_secs: 3600,
            max_keys: 200_000
        }
    );
    assert_eq!(l.create_by_ip.limit, 120);
    assert!(!l.create_by_ip.is_off());
    assert_eq!(l.push.limit, 0);
    assert!(l.push.is_off());
    assert_eq!(l.sync_trigger.limit, 60);
    assert!(l.peer_write.is_off());
}

fn settings(address: &str) -> OperatorSettings {
    OperatorSettings {
        chain_rpc_url: "http://chain".to_string(),
        operator_private_key: "key".to_string(),
        contract_node_staking: address.to_string(),
        heartbeat_interval_hours: 6,
        operator_strict_mode: true,
    }
}

#[test]
fn operators_need_a_contract_address() {
    let config = build_operator_client(
        &settings("0x00000000000000000000000000000000000000Ff"),
        "did:key:z",
    )
    .expect("an address");
    let mut address = vec![0u8; 20];
    address[19] = 255;
    assert_eq!(config.contract_address, address);
    assert_eq!(config.heartbeat_interval_secs, 21_600);
    assert_eq!(config.rpc_url, "http://chain");
    assert_eq!(config.private_key, "key");
    assert_eq!(config.node_did, "did:key:z");
    assert!(config.strict_mode);
    assert!(build_operator_client(
        &settings("00000000000000000000000000000000000000ff"),
        "did"
    )
    .is_some());
    assert!(build_operator_client(&settings("0x00"), "did").is_none());
    assert!(build_operator_client(&settings(""), "did").is_none());
    assert!(build_operator_client(
        &settings("0x0000000000000000000000000000000000000zff"),
        "did"
    )
    .is_none());
}

#[test]
fn operator_failures_end_a_strict_node() {
    assert!(operator_enabled("0x1", "k"));
    assert!(!operator_enabled("", "k"));
    assert!(!operator_enabled("0x1", ""));
    assert_eq!(
        operator_action(OperatorStep::Checked, true),
        OperatorAction::Heartbeat
    );
    assert_eq!(
        operator_action(OperatorStep::CheckFailed, true),
        OperatorAction::Fail
    );
    assert_eq!(
        operator_action(OperatorStep::NoClient, false),
        OperatorAction::GoOn
    );
}

#[test]
fn hung_drain_is_abandoned_after_grace() {
    let mut p = ServePhase::Serving;
    assert_eq!(drive_serve_with_grace(&mut p, ServeEvent::Armed, 10, 50), None);
    assert_eq!(drive_serve_with_grace(&mut p, ServeEvent::Tick, 59, 50), None);
    assert_eq!(
        drive_serve_with_grace(&mut p, ServeEvent::Tick, 60, 50),
        Some(ServeEnd {
            ok: true,
            grace_expired: true
        })
    );
}

#[test]
fn completed_drain_keeps_result_and_does_not_expire() {
    let mut p = ServePhase::Serving;
    assert_eq!(
        drive_serve_with_grace(&mut p, ServeEvent::Ended { ok: true }, 0, 3600),
        Some(ServeEnd {
            ok: true,
            grace_expired: false
        })
    );
    assert_eq!(
        drive_serve_with_grace(&mut p, ServeEvent::Ended { ok: false }, 0, 3600),
        Some(ServeEnd {
            ok: false,
            grace_expired: false
        })
    );
}

#[test]
fn grace_clock_starts_at_signal_not_call() {
    let mut p = ServePhase::Serving;
    for now in 0..80 {
        assert_eq!(drive_serve_with_grace(&mut p, ServeEvent::Tick, now, 10), None);
    }
    assert_eq!(
        drive_serve_with_grace(&mut p, ServeEvent::Ended { ok: true }, 80, 10),
        Some(ServeEnd {
            ok: true,
            grace_expired: false
        })
    );
}

#[test]
fn peer_urls_lose_their_last_slashes() {
    assert_eq!(
        announce_url("https://a.example//"),
        "https://a.example/api/v1/peers/announce"
    );
    assert_eq!(health_url("https://a.example"), "https://a.example/health");
    assert_eq!(health_url("/"), "/health");
}

#[test]
fn announcements_bring_new_peers() {
    let reply = |success: bool, did: Option<&str>, url: Option<&str>| AnnounceReply {
        success,
        node_did: did.map(|s| s.to_string()),
        node_url: url.map(|s| s.to_string()),
    };
    assert_eq!(
        peer_to_add(reply(true, Some("d"), Some("u"))),
        Some(("d".to_string(), "u".to_string()))
    );
    assert_eq!(peer_to_add(reply(false, Some("d"), Some("u"))), None);
    assert_eq!(peer_to_add(reply(true, Some("d"), Some(""))), None);
    assert_eq!(peer_to_add(reply(true, None, Some("u"))), None);
    assert_eq!(peer_to_add(reply(true, Some("d"), None)), None);
}

#[test]
fn a_peer_is_alive_if_it_answers_with_success() {
    assert!(is_alive(Some(200)));
    assert!(is_alive(Some(299)));
    assert!(!is_alive(Some(302)));
    assert!(!is_alive(Some(199)));
    assert!(!is_alive(None));
}

#[test]
fn the_gossip_announces_then_pings() {
    let mut g = Gossip::gossip_task(2);
    g.step(GossipEvent::DelayOver);
    for at in 0..2 {
        assert_eq!(g.phase, GossipPhase::CheckStop { at });
        g.step(GossipEvent::Stop(false));
        assert_eq!(g.phase, GossipPhase::Announce { at });
        g.step(GossipEvent::Announced);
    }
    assert_eq!(g.phase, GossipPhase::Wait);
    g.step(GossipEvent::Tick);
    g.step(GossipEvent::Peers(None));
    assert_eq!(g.phase, GossipPhase::Wait);
    g.step(GossipEvent::Tick);
    g.step(GossipEvent::Peers(Some(1)));
    g.step(GossipEvent::Pinged(true));
    assert_eq!(g.phase, GossipPhase::Mark { at: 0, ok: true });
    g.step(GossipEvent::Marked);
    g.step(GossipEvent::SignalChanged(false));
    assert_eq!(g.phase, GossipPhase::Wait);
    g.step(GossipEvent::SignalChanged(true));
    assert_eq!(g.phase, GossipPhase::Ended);
}

#[test]
fn the_gossip_ends_with_the_signal() {
    let mut g = Gossip::gossip_task(1);
    g.step(GossipEvent::SignalChanged(true));
    assert_eq!(g.phase, GossipPhase::Ended);
    let mut g = Gossip::gossip_task(1);
    g.step(GossipEvent::SignalChanged(false));
    g.step(GossipEvent::Stop(true));
    assert_eq!(g.phase, GossipPhase::Ended);
}

#[test]
fn what_is_configured_is_started() {
    let plan = start_plan(&StartSettings {
        public_read: false,
        metrics_addr: "127.0.0.1:9100".to_string(),
        p2p_port: 0,
        tigris_bucket: String::new(),
        auto_sync: true,
        contract_node_staking: "0x1".to_string(),
        operator_private_key: String::new(),
    });
    assert!(plan.warn_private_read);
    assert!(plan.metrics);
    assert!(!plan.p2p);
    assert!(!plan.tigris);
    assert!(plan.sync);
    assert!(!plan.operator);
}

#[test]
fn the_wait_for_the_database_ends() {
    assert_eq!(after_db_wait(DbWaitEnd::Connected), AfterDbWait::GoOn);
    assert_eq!(after_db_wait(DbWaitEnd::GivenUp), AfterDbWait::AbortAndExit);
    for end in [
        DegradedEnd::Stopped,
        DegradedEnd::Failed,
        DegradedEnd::TaskFailed,
    ] {
        assert_eq!(
            after_db_wait(DbWaitEnd::Degraded {
                end,
                shutting_down: false
            }),
            AfterDbWait::Fail(end)
        );
        assert_eq!(
            after_db_wait(DbWaitEnd::Degraded {
                end,
                shutting_down: true
            }),
            AfterDbWait::Exit
        );
    }
}

#[test]
fn the_database_label_hides_the_password() {
    assert_eq!(database_label("postgres://u:p@w@host/db"), "host/db");
    assert_eq!(database_label("host/db"), "host/db");
    assert_eq!(database_label("u@"), "");
}

#[test]
fn peers_are_counted_where_the_network_answers() {
    assert_eq!(connected_peers_gauge(true, Some(4)), 4);
    assert_eq!(connected_peers_gauge(true, None), 0);
    assert_eq!(connected_peers_gauge(false, Some(4)), 0);
}

#[test]
fn the_node_tells_where_it_is() {
    let record = own_did_record(
        "did".to_string(),
        None,
        "peer".to_string(),
        4001,
        "now".to_string(),
    );
    assert_eq!(record.http_url, "");
    assert_eq!(record.p2p_port, 4001);
    assert_eq!(
        own_did_record(
            "did".to_string(),
            Some("u".to_string()),
            "peer".to_string(),
            4001,
            "now".to_string()
        )
        .http_url,
        "u"
    );
}

#[test]
fn degraded_answers_tell_the_state() {
    let body = degraded_body("code", "message", 3, 8, None);
    assert_eq!(DEGRADED_STATUS, 503);
    assert_eq!(body.status, "degraded");
    assert_eq!(body.database, "initializing");
    assert_eq!(body.error, "code");
    assert_eq!(body.message, "message");
    assert_eq!((body.db_attempts, body.db_next_retry_secs), (3, 8));
    assert!(body.node.is_none());
    let node = degraded_body(
        "code",
        "message",
        3,
        8,
        Some(("1.0".to_string(), "did".to_string())),
    )
    .node
    .unwrap();
    assert_eq!(node.name, "gitlawb-node");
    assert_eq!(node.version, "1.0");
    assert_eq!(node.did, "did");
}

#[test]
fn degraded_answers_are_json() {
    let body = degraded_body("db_unavailable", "say \"why\"", 3, 8, None);
    assert_eq!(
        degraded_json(&body),
        "{\"database\":\"initializing\",\"db_attempts\":3,\"db_next_retry_secs\":8,\
         \"error\":\"db_unavailable\",\"message\":\"say \\\"why\\\"\",\"status\":\"degraded\"}"
    );
    let body = degraded_body(
        "e",
        "m",
        0,
        0,
        Some(("1.0".to_string(), "did:key:z".to_string())),
    );
    let value: serde_json::Value = serde_json::from_str(&degraded_json(&body)).unwrap();
    assert_eq!(value["name"], "gitlawb-node");
    assert_eq!(value["version"], "1.0");
    assert_eq!(value["did"], "did:key:z");
    assert_eq!(value["status"], "degraded");
    assert_eq!(value.to_string(), degraded_json(&body));
}

#[test]
fn announcements_are_json() {
    assert_eq!(
        announce_body("did:key:z", "https://a\n"),
        "{\"did\":\"did:key:z\",\"http_url\":\"https://a\\n\"}"
    );
    assert_eq!(
        announce_body("\"\\/\u{8}\u{c}\r\t", "\u{0}\u{1f} \u{7f}\u{e9}"),
        "{\"did\":\"\\\"\\\\/\\b\\f\\r\\t\",\
         \"http_url\":\"\\u0000\\u001f \u{7f}\u{e9}\"}"
    );
}

#[test]
fn answers_to_announcements_are_read() {
    let read = |body: &str| read_announce_reply(true, &body.as_bytes().to_vec());
    let reply = read("{\"node_did\":\"d\",\"node_url\":\"u\",\"x\":1}");
    assert!(reply.success);
    assert_eq!(peer_to_add(reply), Some(("d".to_string(), "u".to_string())));
    assert_eq!(peer_to_add(read("{\"node_did\":7,\"node_url\":\"u\"}")), None);
    assert_eq!(peer_to_add(read("{\"node_did\":\"d\"}")), None);
    assert_eq!(peer_to_add(read("[1]")), None);
    assert_eq!(peer_to_add(read("no json")), None);
}

fn run_settings(all: bool, strict: bool) -> RunSettings {
    RunSettings {
        plan: StartPlan {
            warn_private_read: false,
            metrics: all,
            p2p: all,
            tigris: all,
            sync: all,
            operator: all,
        },
        public_url: all,
        operator_strict_mode: strict,
    }
}

/// Runs the node with an answer for each step, and returns the steps and the end.
fn run_node(
    settings: RunSettings,
    answer: &dyn Fn(RunStep) -> RunEvent,
) -> (Vec<RunStep>, RunEnd) {
    let mut run = NodeRun::run(settings);
    let mut steps = Vec::new();
    loop {
        steps.push(run.step);
        if let Some(end) = run.step(answer(run.step)) {
            assert_eq!(run.step, RunStep::Ended);
            return (steps, end);
        }
    }
}

fn went_well(step: RunStep) -> RunEvent {
    match step {
        RunStep::AwaitDatabase => RunEvent::Waited(DbWaitEnd::Connected),
        _ => RunEvent::Done,
    }
}

#[test]
fn a_full_run_does_every_step_in_order() {
    let (steps, end) = run_node(run_settings(true, false), &went_well);
    assert_eq!(end, RunEnd::Clean);
    assert_eq!(
        steps,
        vec![
            RunStep::LoadIdentity,
            RunStep::ScheduleResweep,
            RunStep::InitMetrics,
            RunStep::WatchSignals,
            RunStep::BindHttp,
            RunStep::StartMetricsServer,
            RunStep::StartDegradedServer,
            RunStep::AwaitDatabase,
            RunStep::DrainDegradedServer,
            RunStep::PruneSelfPeers,
            RunStep::PruneNonPublicPeers,
            RunStep::CreateReposDir,
            RunStep::StartP2p,
            RunStep::BuildHttpClient,
            RunStep::OpenTigris,
            RunStep::InitCaptcha,
            RunStep::StartPeerGauge,
            RunStep::StartCleanup,
            RunStep::TakeOverListener,
            RunStep::PublishDid,
            RunStep::StartGossip,
            RunStep::StartSync,
            RunStep::BuildOperator,
            RunStep::CheckOperator,
            RunStep::StartHeartbeat,
            RunStep::Serve,
            RunStep::StopMetricsServer { ok: true },
        ]
    );
    let (steps, end) = run_node(run_settings(false, false), &went_well);
    assert_eq!(end, RunEnd::Clean);
    assert_eq!(steps.len(), 17);
    assert_eq!(steps[steps.len() - 1], RunStep::Serve);
}

#[test]
fn failures_of_optional_parts_are_survived() {
    for part in [
        RunStep::StartMetricsServer,
        RunStep::PruneSelfPeers,
        RunStep::PruneNonPublicPeers,
        RunStep::StartP2p,
        RunStep::OpenTigris,
        RunStep::BuildOperator,
        RunStep::CheckOperator,
    ] {
        let (steps, end) = run_node(run_settings(true, false), &|step| {
            if step == part {
                RunEvent::Failed
            } else {
                went_well(step)
            }
        });
        assert_eq!(end, RunEnd::Clean, "{part:?}");
        assert!(steps.contains(&RunStep::Serve));
        if part == RunStep::StartP2p {
            assert!(!steps.contains(&RunStep::PublishDid));
        }
    }
}

#[test]
fn failures_of_required_parts_end_the_run() {
    for part in [
        RunStep::LoadIdentity,
        RunStep::BindHttp,
        RunStep::CreateReposDir,
        RunStep::BuildHttpClient,
        RunStep::TakeOverListener,
        RunStep::Serve,
    ] {
        let fails = |step: RunStep| {
            if step == part {
                RunEvent::Failed
            } else {
                went_well(step)
            }
        };
        assert_eq!(run_node(run_settings(true, false), &fails).1, RunEnd::Failed(part));
        assert_eq!(run_node(run_settings(false, false), &fails).1, RunEnd::Failed(part));
    }
    for (part, step) in [
        (RunStep::BuildOperator, OperatorStep::NoClient),
        (RunStep::CheckOperator, OperatorStep::CheckFailed),
    ] {
        let (_, end) = run_node(run_settings(true, true), &|s| {
            if s == part {
                RunEvent::Failed
            } else {
                went_well(s)
            }
        });
        assert_eq!(end, RunEnd::Operator(step));
    }
}

#[test]
fn a_run_without_a_database_ends_early() {
    let with = |how: DbWaitEnd| {
        run_node(run_settings(true, false), &move |step| match step {
            RunStep::AwaitDatabase => RunEvent::Waited(how),
            _ => RunEvent::Done,
        })
    };
    let (steps, end) = with(DbWaitEnd::GivenUp);
    assert_eq!(end, RunEnd::Clean);
    assert_eq!(steps[steps.len() - 1], RunStep::AbortDegradedServer);
    let (_, end) = with(DbWaitEnd::Degraded {
        end: DegradedEnd::Failed,
        shutting_down: false,
    });
    assert_eq!(end, RunEnd::DegradedServer(DegradedEnd::Failed));
    let (_, end) = with(DbWaitEnd::Degraded {
        end: DegradedEnd::Stopped,
        shutting_down: true,
    });
    assert_eq!(end, RunEnd::Clean);
}

#[test]
fn the_metrics_server_answers() {
    let ok = metrics_reply(Ok("text".to_string()));
    assert_eq!(ok.status, 200);
    assert_eq!(ok.content_type, "text/plain; version=0.0.4; charset=utf-8");
    assert_eq!(ok.body, "text");
    let err = metrics_reply(Err("why".to_string()));
    assert_eq!(err.status, 500);
    assert_eq!(err.content_type, "text/plain; charset=utf-8");
    assert_eq!(err.body, "metrics encode error: why");
}
