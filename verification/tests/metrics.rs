use gitlawb_node::metrics::{
    encode, init, record_auth_failure, record_auth_success, record_fetch, record_push,
    record_sync_processed, record_webhook_delivery, set_peers_connected, MetricsError,
    NodeMetrics,
};

fn started() -> Option<NodeMetrics> {
    let mut metrics = None;
    init(&mut metrics, "0.0.0-test", "did:key:test");
    metrics
}

#[test]
fn encode_after_init_returns_prometheus_text() {
    let mut metrics = started();
    record_push(&mut metrics, "alice/repo");
    let body = encode(&metrics, "").expect("encode should succeed after init");
    assert!(body.contains("# HELP gitlawb_info"), "{body}");
    assert!(body.contains("# TYPE gitlawb_pushes_total counter"), "{body}");
    assert!(
        body.contains("gitlawb_pushes_total{repo=\"alice/repo\"} 1"),
        "{body}"
    );
}

#[test]
fn record_helpers_are_noops_before_init() {
    let mut metrics: Option<NodeMetrics> = None;
    record_push(&mut metrics, "test/repo");
    record_fetch(&mut metrics, "test/repo");
    record_auth_success(&mut metrics, "test/route");
    record_auth_failure(&mut metrics, "test/route", "test_reason");
    record_sync_processed(&mut metrics, "done");
    record_webhook_delivery(&mut metrics, "ok");
    set_peers_connected(&mut metrics, 0);
    assert!(metrics.is_none());
}

#[test]
fn encode_before_init_returns_error() {
    let metrics: Option<NodeMetrics> = None;
    let err = encode(&metrics, "").expect_err("there is nothing to encode");
    assert_eq!(err, MetricsError::NeverInitialised);
    assert_eq!(err.message(), "Error: metrics::init() was never called");
}

#[test]
fn fresh_metrics_show_the_node_and_its_peers() {
    assert_eq!(
        encode(&started(), "").unwrap(),
        "# HELP gitlawb_info Constant 1 labelled with version and node DID\n\
         # TYPE gitlawb_info gauge\n\
         gitlawb_info{did=\"did:key:test\",version=\"0.0.0-test\"} 1\n\
         # HELP gitlawb_peers_connected Currently connected libp2p peers\n\
         # TYPE gitlawb_peers_connected gauge\n\
         gitlawb_peers_connected 0\n"
    );
}

#[test]
fn every_event_is_counted_under_its_name() {
    let mut metrics = started();
    record_push(&mut metrics, "a/r");
    record_push(&mut metrics, "a/r");
    record_push(&mut metrics, "b/r");
    record_fetch(&mut metrics, "a/r");
    record_auth_success(&mut metrics, "/x");
    record_auth_failure(&mut metrics, "/x", "expired");
    record_sync_processed(&mut metrics, "done");
    record_webhook_delivery(&mut metrics, "ok");
    set_peers_connected(&mut metrics, -3);
    assert_eq!(
        encode(&metrics, "# the pack sizes\n").unwrap(),
        "# HELP gitlawb_auth_failures_total Total HTTP signature checks that failed\n\
         # TYPE gitlawb_auth_failures_total counter\n\
         gitlawb_auth_failures_total{reason=\"expired\",route=\"/x\"} 1\n\
         # HELP gitlawb_auth_successes_total Total HTTP signature checks that passed\n\
         # TYPE gitlawb_auth_successes_total counter\n\
         gitlawb_auth_successes_total{route=\"/x\"} 1\n\
         # HELP gitlawb_fetches_total Total successful git fetch (upload-pack) completions\n\
         # TYPE gitlawb_fetches_total counter\n\
         gitlawb_fetches_total{repo=\"a/r\"} 1\n\
         # HELP gitlawb_info Constant 1 labelled with version and node DID\n\
         # TYPE gitlawb_info gauge\n\
         gitlawb_info{did=\"did:key:test\",version=\"0.0.0-test\"} 1\n\
         # the pack sizes\n\
         # HELP gitlawb_peers_connected Currently connected libp2p peers\n\
         # TYPE gitlawb_peers_connected gauge\n\
         gitlawb_peers_connected -3\n\
         # HELP gitlawb_pushes_total Total successful git push (receive-pack) completions\n\
         # TYPE gitlawb_pushes_total counter\n\
         gitlawb_pushes_total{repo=\"a/r\"} 2\n\
         gitlawb_pushes_total{repo=\"b/r\"} 1\n\
         # HELP gitlawb_sync_queue_processed_total Total sync_queue items the worker has processed\n\
         # TYPE gitlawb_sync_queue_processed_total counter\n\
         gitlawb_sync_queue_processed_total{status=\"done\"} 1\n\
         # HELP gitlawb_webhook_deliveries_total Total webhook delivery attempts and their outcomes\n\
         # TYPE gitlawb_webhook_deliveries_total counter\n\
         gitlawb_webhook_deliveries_total{result=\"ok\"} 1\n"
    );
}

#[test]
fn starting_twice_changes_nothing() {
    let mut metrics = started();
    record_push(&mut metrics, "a/r");
    let before = encode(&metrics, "").unwrap();
    init(&mut metrics, "another", "did");
    assert_eq!(encode(&metrics, "").unwrap(), before);
}

#[test]
fn label_values_that_read_alike_share_a_series() {
    let mut metrics = started();
    record_auth_failure(&mut metrics, "ab", "c");
    record_auth_failure(&mut metrics, "a", "bc");
    let text = encode(&metrics, "").unwrap();
    assert!(
        text.contains("gitlawb_auth_failures_total{reason=\"c\",route=\"ab\"} 2\n"),
        "{text}"
    );
}
