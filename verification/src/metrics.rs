//! The node's metrics: counters and gauges of the `prometheus` crate, what each event does to
//! them, and the text that shows them.
//!
//! A node that was never initialised has no metrics (`None`): recording is then a no-op, and
//! there is no text to show.

use crate::text::has_prefix;
use vstd::prelude::*;

verus! {

/// One time series of a family: the label values that it was first asked for with, and a value.
pub type CounterSeries = Map<u64, (Seq<Seq<char>>, u64)>;

/// The series of a family of gauges.
pub type GaugeSeries = Map<u64, (Seq<Seq<char>>, i64)>;

/// The texts that a list of string slices holds.
pub open spec fn texts(list: Seq<&str>) -> Seq<Seq<char>> {
    Seq::new(list.len(), |i: int| list[i]@)
}

/// A letter, or an underscore.
pub open spec fn is_word_char(c: char) -> bool {
    ||| 'a' <= c <= 'z'
    ||| 'A' <= c <= 'Z'
    ||| c == '_'
}

/// The first `n` characters of `s` are letters, digits, underscores or, where `colon` says so,
/// colons.
pub open spec fn word_up_to(s: Seq<char>, n: nat, colon: bool) -> bool
    decreases n,
{
    n == 0 || {
        &&& is_word_char(s[n - 1]) || '0' <= s[n - 1] <= '9' || (colon && s[n - 1] == ':')
        &&& word_up_to(s, (n - 1) as nat, colon)
    }
}

/// A name of a metric (which may hold colons) or of a label (which may not).
pub open spec fn is_name(s: Seq<char>, colon: bool) -> bool {
    &&& s.len() > 0
    &&& !('0' <= s[0] <= '9')
    &&& word_up_to(s, s.len(), colon)
}

/// A family of metrics can be described by this name, help text and list of label names.
pub open spec fn is_family(name: Seq<char>, help: Seq<char>, labels: Seq<Seq<char>>) -> bool {
    &&& is_name(name, true)
    &&& help.len() > 0
    &&& forall|i: int| 0 <= i < labels.len() ==> is_name(#[trigger] labels[i], false)
    &&& labels.no_duplicates()
}

/// A family of counters, one for each combination of label values.
///
/// The field is a `prometheus::IntCounterVec`. It is never handed out and never cloned into a
/// value that outlives a call, so a counter changes only through a `&mut` of this type.
#[verifier::external_body]
pub struct Counters {
    inner: prometheus::IntCounterVec,
}

/// A family of gauges, one for each combination of label values: a `prometheus::IntGaugeVec`,
/// held as `Counters` holds its field.
#[verifier::external_body]
pub struct Gauges {
    inner: prometheus::IntGaugeVec,
}

/// A gauge without labels: a `prometheus::IntGauge`, held as `Counters` holds its field.
#[verifier::external_body]
pub struct Gauge {
    inner: prometheus::IntGauge,
}

/// The name, the help text and the label names that a family of counters was made with.
pub uninterp spec fn counters_family(c: Counters) -> (Seq<char>, Seq<char>, Seq<Seq<char>>);

/// The series of a family of counters, by the key of their label values.
pub uninterp spec fn counters_series(c: Counters) -> Map<u64, (Seq<Seq<char>>, u64)>;

/// The name, the help text and the label names that a family of gauges was made with.
pub uninterp spec fn gauges_family(g: Gauges) -> (Seq<char>, Seq<char>, Seq<Seq<char>>);

/// The series of a family of gauges, by the key of their label values.
pub uninterp spec fn gauges_series(g: Gauges) -> Map<u64, (Seq<Seq<char>>, i64)>;

/// The name and the help text that a gauge was made with.
pub uninterp spec fn gauge_family(g: Gauge) -> (Seq<char>, Seq<char>);

/// The value of a gauge.
pub uninterp spec fn gauge_value(g: Gauge) -> i64;

/// The hash of label values that read, one after the other, as this text.
pub uninterp spec fn label_hash(joined: Seq<char>) -> u64;

/// The label values, one after the other, with nothing between them.
pub open spec fn joined(values: Seq<Seq<char>>) -> Seq<char>
    decreases values.len(),
{
    if values.len() == 0 {
        Seq::empty()
    } else {
        joined(values.drop_last()) + values.last()
    }
}

/// The key under which a family keeps the series of these label values: the hash of their bytes,
/// one value after the other.
pub open spec fn label_key(values: Seq<Seq<char>>) -> u64 {
    label_hash(joined(values))
}

/// The text that shows a family of counters.
pub uninterp spec fn counters_shown(
    name: Seq<char>,
    help: Seq<char>,
    labels: Seq<Seq<char>>,
    series: Map<u64, (Seq<Seq<char>>, u64)>,
) -> Seq<char>;

/// The text that shows a family of gauges.
pub uninterp spec fn gauges_shown(
    name: Seq<char>,
    help: Seq<char>,
    labels: Seq<Seq<char>>,
    series: Map<u64, (Seq<Seq<char>>, i64)>,
) -> Seq<char>;

/// The text that shows a gauge without labels.
pub uninterp spec fn gauge_shown(name: Seq<char>, help: Seq<char>, value: i64) -> Seq<char>;

/// What a counter stands at after one more event: it wraps around at the end of its range.
pub open spec fn one_more(value: u64) -> u64 {
    if value == u64::MAX {
        0
    } else {
        (value + 1) as u64
    }
}

/// The series of a family after one more event with label values of this key: a series that was
/// not there yet starts at one, under these values.
pub open spec fn counted(
    series: CounterSeries,
    key: u64,
    values: Seq<Seq<char>>,
) -> CounterSeries {
    if series.contains_key(key) {
        series.insert(key, (series[key].0, one_more(series[key].1)))
    } else {
        series.insert(key, (values, 1))
    }
}

/// The series of a family of gauges after the one of label values of this key was set.
pub open spec fn placed(
    series: GaugeSeries,
    key: u64,
    values: Seq<Seq<char>>,
    value: i64,
) -> GaugeSeries {
    if series.contains_key(key) {
        series.insert(key, (series[key].0, value))
    } else {
        series.insert(key, (values, value))
    }
}

/// The start of a shown family.
pub open spec fn help_line_start(name: Seq<char>) -> Seq<char> {
    "# HELP "@ + name + " "@
}

/// `prometheus::IntCounterVec::new`: a family with this description and no series yet. It fails
/// only on a description that is not one.
#[verifier::external_body]
fn new_counters(name: &str, help: &str, labels: &Vec<&str>) -> (r: Counters)
    requires
        is_family(name@, help@, texts(labels@)),
    ensures
        counters_family(r) == (name@, help@, texts(labels@)),
        counters_series(r) == CounterSeries::empty(),
{
    let opts = prometheus::Opts::new(name, help);
    let inner = prometheus::IntCounterVec::new(opts, labels).expect("a valid description");
    Counters { inner }
}

/// `prometheus::IntCounterVec::with_label_values`, then `inc` on the counter: the series under
/// the values' key stands one higher, and is made first where it was missing. The call panics
/// on a number of values other than the number of label names.
#[verifier::external_body]
fn count(counters: &mut Counters, values: &Vec<&str>)
    requires
        counters_family(*old(counters)).2.len() == values@.len(),
    ensures
        counters_family(*final(counters)) == counters_family(*old(counters)),
        counters_series(*final(counters)) == counted(
            counters_series(*old(counters)),
            label_hash(joined(texts(values@))),
            texts(values@),
        ),
{
    counters.inner.with_label_values(values).inc();
}

/// `prometheus::Registry::gather` and `prometheus::TextEncoder::encode_to_string` on a registry
/// that holds this family alone: the text depends on the description and the series only. A
/// family without series is left out; another starts with the line of its help text.
#[verifier::external_body]
fn show_counters(counters: &Counters) -> (r: String)
    ensures
        r@ == counters_shown(
            counters_family(*counters).0,
            counters_family(*counters).1,
            counters_family(*counters).2,
            counters_series(*counters),
        ),
        counters_series(*counters) == CounterSeries::empty() ==> r@.len() == 0,
        counters_series(*counters) != CounterSeries::empty() ==> has_prefix(
            r@,
            help_line_start(counters_family(*counters).0),
        ),
{
    let registry = prometheus::Registry::new();
    registry.register(Box::new(counters.inner.clone())).expect("the only collector");
    let families = registry.gather();
    prometheus::TextEncoder::new().encode_to_string(&families).expect("gathered families")
}

/// `prometheus::IntGaugeVec::new`: a family with this description and no series yet. It fails
/// only on a description that is not one.
#[verifier::external_body]
fn new_gauges(name: &str, help: &str, labels: &Vec<&str>) -> (r: Gauges)
    requires
        is_family(name@, help@, texts(labels@)),
    ensures
        gauges_family(r) == (name@, help@, texts(labels@)),
        gauges_series(r) == GaugeSeries::empty(),
{
    let opts = prometheus::Opts::new(name, help);
    let inner = prometheus::IntGaugeVec::new(opts, labels).expect("a valid description");
    Gauges { inner }
}

/// `prometheus::IntGaugeVec::with_label_values`, then `set` on the gauge: the series under the
/// values' key stands at the value, and is made first where it was missing. The call panics on
/// a number of values other than the number of label names.
#[verifier::external_body]
fn place(gauges: &mut Gauges, values: &Vec<&str>, value: i64)
    requires
        gauges_family(*old(gauges)).2.len() == values@.len(),
    ensures
        gauges_family(*final(gauges)) == gauges_family(*old(gauges)),
        gauges_series(*final(gauges)) == placed(
            gauges_series(*old(gauges)),
            label_hash(joined(texts(values@))),
            texts(values@),
            value,
        ),
{
    gauges.inner.with_label_values(values).set(value);
}

/// `prometheus::Registry::gather` and `prometheus::TextEncoder::encode_to_string` on a registry
/// that holds this family alone: the text depends on the description and the series only. A
/// family without series is left out; another starts with the line of its help text.
#[verifier::external_body]
fn show_gauges(gauges: &Gauges) -> (r: String)
    ensures
        r@ == gauges_shown(
            gauges_family(*gauges).0,
            gauges_family(*gauges).1,
            gauges_family(*gauges).2,
            gauges_series(*gauges),
        ),
        gauges_series(*gauges) == GaugeSeries::empty() ==> r@.len() == 0,
        gauges_series(*gauges) != GaugeSeries::empty() ==> has_prefix(
            r@,
            help_line_start(gauges_family(*gauges).0),
        ),
{
    let registry = prometheus::Registry::new();
    registry.register(Box::new(gauges.inner.clone())).expect("the only collector");
    let families = registry.gather();
    prometheus::TextEncoder::new().encode_to_string(&families).expect("gathered families")
}

/// `prometheus::IntGauge::with_opts`: a gauge with this description that stands at zero. It
/// fails only on a description that is not one.
#[verifier::external_body]
fn new_gauge(name: &str, help: &str) -> (r: Gauge)
    requires
        is_family(name@, help@, Seq::empty()),
    ensures
        gauge_family(r) == (name@, help@),
        gauge_value(r) == 0,
{
    let opts = prometheus::Opts::new(name, help);
    let inner = prometheus::IntGauge::with_opts(opts).expect("a valid description");
    Gauge { inner }
}

/// `prometheus::IntGauge::set`: the gauge stands at the value.
#[verifier::external_body]
fn set_gauge(gauge: &mut Gauge, value: i64)
    ensures
        gauge_family(*final(gauge)) == gauge_family(*old(gauge)),
        gauge_value(*final(gauge)) == value,
{
    gauge.inner.set(value);
}

/// `prometheus::Registry::gather` and `prometheus::TextEncoder::encode_to_string` on a registry
/// that holds this gauge alone: the text depends on the description and the value only, and
/// starts with the line of the help text.
#[verifier::external_body]
fn show_gauge(gauge: &Gauge) -> (r: String)
    ensures
        r@ == gauge_shown(gauge_family(*gauge).0, gauge_family(*gauge).1, gauge_value(*gauge)),
        has_prefix(r@, help_line_start(gauge_family(*gauge).0)),
{
    let registry = prometheus::Registry::new();
    registry.register(Box::new(gauge.inner.clone())).expect("the only collector");
    let families = registry.gather();
    prometheus::TextEncoder::new().encode_to_string(&families).expect("gathered families")
}

/// The metrics of an initialised node.
pub struct NodeMetrics {
    pub info: Gauges,
    pub pushes: Counters,
    pub fetches: Counters,
    pub auth_successes: Counters,
    pub auth_failures: Counters,
    pub sync_processed: Counters,
    pub webhook_deliveries: Counters,
    pub peers_connected: Gauge,
}

/// The description of `gitlawb_info`.
pub open spec fn info_family() -> (Seq<char>, Seq<char>, Seq<Seq<char>>) {
    (
        "gitlawb_info"@,
        "Constant 1 labelled with version and node DID"@,
        seq!["version"@, "did"@],
    )
}

/// The description of `gitlawb_pushes_total`.
pub open spec fn pushes_family() -> (Seq<char>, Seq<char>, Seq<Seq<char>>) {
    (
        "gitlawb_pushes_total"@,
        "Total successful git push (receive-pack) completions"@,
        seq!["repo"@],
    )
}

/// The description of `gitlawb_fetches_total`.
pub open spec fn fetches_family() -> (Seq<char>, Seq<char>, Seq<Seq<char>>) {
    (
        "gitlawb_fetches_total"@,
        "Total successful git fetch (upload-pack) completions"@,
        seq!["repo"@],
    )
}

/// The description of `gitlawb_auth_successes_total`.
pub open spec fn auth_successes_family() -> (Seq<char>, Seq<char>, Seq<Seq<char>>) {
    (
        "gitlawb_auth_successes_total"@,
        "Total HTTP signature checks that passed"@,
        seq!["route"@],
    )
}

/// The description of `gitlawb_auth_failures_total`.
pub open spec fn auth_failures_family() -> (Seq<char>, Seq<char>, Seq<Seq<char>>) {
    (
        "gitlawb_auth_failures_total"@,
        "Total HTTP signature checks that failed"@,
        seq!["route"@, "reason"@],
    )
}

/// The description of `gitlawb_sync_queue_processed_total`.
pub open spec fn sync_processed_family() -> (Seq<char>, Seq<char>, Seq<Seq<char>>) {
    (
        "gitlawb_sync_queue_processed_total"@,
        "Total sync_queue items the worker has processed"@,
        seq!["status"@],
    )
}

/// The description of `gitlawb_webhook_deliveries_total`.
pub open spec fn webhook_deliveries_family() -> (Seq<char>, Seq<char>, Seq<Seq<char>>) {
    (
        "gitlawb_webhook_deliveries_total"@,
        "Total webhook delivery attempts and their outcomes"@,
        seq!["result"@],
    )
}

/// The name and the help text of `gitlawb_peers_connected`.
pub open spec fn peers_connected_family() -> (Seq<char>, Seq<char>) {
    ("gitlawb_peers_connected"@, "Currently connected libp2p peers"@)
}

impl NodeMetrics {
    /// Every metric has its description.
    pub open spec fn wf(self) -> bool {
        &&& gauges_family(self.info) == info_family()
        &&& counters_family(self.pushes) == pushes_family()
        &&& counters_family(self.fetches) == fetches_family()
        &&& counters_family(self.auth_successes) == auth_successes_family()
        &&& counters_family(self.auth_failures) == auth_failures_family()
        &&& counters_family(self.sync_processed) == sync_processed_family()
        &&& counters_family(self.webhook_deliveries) == webhook_deliveries_family()
        &&& gauge_family(self.peers_connected) == peers_connected_family()
    }

    /// What the metrics are right after the start: nothing was counted, nobody is connected,
    /// and the node tells its version and its DID.
    pub open spec fn fresh(self, version: Seq<char>, did: Seq<char>) -> bool {
        &&& self.wf()
        &&& gauges_series(self.info) == placed(
            GaugeSeries::empty(),
            label_key(seq![version, did]),
            seq![version, did],
            1,
        )
        &&& counters_series(self.pushes) == CounterSeries::empty()
        &&& counters_series(self.fetches) == CounterSeries::empty()
        &&& counters_series(self.auth_successes) == CounterSeries::empty()
        &&& counters_series(self.auth_failures) == CounterSeries::empty()
        &&& counters_series(self.sync_processed) == CounterSeries::empty()
        &&& counters_series(self.webhook_deliveries) == CounterSeries::empty()
        &&& gauge_value(self.peers_connected) == 0
    }
}

/// The metrics of a node, if any, have their descriptions.
pub open spec fn metrics_wf(metrics: Option<NodeMetrics>) -> bool {
    metrics matches Some(m) ==> m.wf()
}

proof fn labels_are_names()
    ensures
        is_name("version"@, false),
        is_name("did"@, false),
        "version"@ != "did"@,
        is_name("repo"@, false),
        is_name("route"@, false),
        is_name("reason"@, false),
        "route"@ != "reason"@,
        is_name("status"@, false),
        is_name("result"@, false),
{
    reveal_with_fuel(word_up_to, 8);
    reveal_strlit("version");
    reveal_strlit("did");
    reveal_strlit("repo");
    reveal_strlit("route");
    reveal_strlit("reason");
    reveal_strlit("status");
    reveal_strlit("result");
}

proof fn short_metrics_are_names()
    ensures
        is_name("gitlawb_info"@, true),
        is_name("gitlawb_pushes_total"@, true),
        is_name("gitlawb_fetches_total"@, true),
        is_name("gitlawb_peers_connected"@, true),
{
    reveal_with_fuel(word_up_to, 24);
    reveal_strlit("gitlawb_info");
    reveal_strlit("gitlawb_pushes_total");
    reveal_strlit("gitlawb_fetches_total");
    reveal_strlit("gitlawb_peers_connected");
}

proof fn long_metrics_are_names()
    ensures
        is_name("gitlawb_auth_successes_total"@, true),
        is_name("gitlawb_auth_failures_total"@, true),
        is_name("gitlawb_sync_queue_processed_total"@, true),
        is_name("gitlawb_webhook_deliveries_total"@, true),
{
    reveal_with_fuel(word_up_to, 35);
    reveal_strlit("gitlawb_auth_successes_total");
    reveal_strlit("gitlawb_auth_failures_total");
    reveal_strlit("gitlawb_sync_queue_processed_total");
    reveal_strlit("gitlawb_webhook_deliveries_total");
}

proof fn helps_are_texts()
    ensures
        info_family().1.len() > 0,
        pushes_family().1.len() > 0,
        fetches_family().1.len() > 0,
        auth_successes_family().1.len() > 0,
        auth_failures_family().1.len() > 0,
        sync_processed_family().1.len() > 0,
        webhook_deliveries_family().1.len() > 0,
        peers_connected_family().1.len() > 0,
{
    reveal_strlit("Constant 1 labelled with version and node DID");
    reveal_strlit("Total successful git push (receive-pack) completions");
    reveal_strlit("Total successful git fetch (upload-pack) completions");
    reveal_strlit("Total HTTP signature checks that passed");
    reveal_strlit("Total HTTP signature checks that failed");
    reveal_strlit("Total sync_queue items the worker has processed");
    reveal_strlit("Total webhook delivery attempts and their outcomes");
    reveal_strlit("Currently connected libp2p peers");
}

/// Starts the metrics of a node. On a node that has metrics already this does nothing.
pub fn init(metrics: &mut Option<NodeMetrics>, version: &str, node_did: &str)
    ensures
        *old(metrics) is Some ==> *final(metrics) == *old(metrics),
        *old(metrics) is None ==> (*final(metrics) matches Some(m) && m.fresh(
            version@,
            node_did@,
        )),
{
    if metrics.is_some() {
        return ;
    }
    proof {
        labels_are_names();
        short_metrics_are_names();
        long_metrics_are_names();
        helps_are_texts();
    }
    let version_did: Vec<&str> = vec!["version", "did"];
    let repo: Vec<&str> = vec!["repo"];
    let route: Vec<&str> = vec!["route"];
    let route_reason: Vec<&str> = vec!["route", "reason"];
    let status: Vec<&str> = vec!["status"];
    let result: Vec<&str> = vec!["result"];
    proof {
        assert(texts(version_did@) =~= seq!["version"@, "did"@]);
        assert(texts(repo@) =~= seq!["repo"@]);
        assert(texts(route@) =~= seq!["route"@]);
        assert(texts(route_reason@) =~= seq!["route"@, "reason"@]);
        assert(texts(status@) =~= seq!["status"@]);
        assert(texts(result@) =~= seq!["result"@]);
    }
    let mut info = new_gauges(
        "gitlawb_info",
        "Constant 1 labelled with version and node DID",
        &version_did,
    );
    let values: Vec<&str> = vec![version, node_did];
    proof {
        assert(texts(values@) =~= seq![version@, node_did@]);
    }
    place(&mut info, &values, 1);
    let pushes = new_counters(
        "gitlawb_pushes_total",
        "Total successful git push (receive-pack) completions",
        &repo,
    );
    let fetches = new_counters(
        "gitlawb_fetches_total",
        "Total successful git fetch (upload-pack) completions",
        &repo,
    );
    let auth_successes = new_counters(
        "gitlawb_auth_successes_total",
        "Total HTTP signature checks that passed",
        &route,
    );
    let auth_failures = new_counters(
        "gitlawb_auth_failures_total",
        "Total HTTP signature checks that failed",
        &route_reason,
    );
    let sync_processed = new_counters(
        "gitlawb_sync_queue_processed_total",
        "Total sync_queue items the worker has processed",
        &status,
    );
    let webhook_deliveries = new_counters(
        "gitlawb_webhook_deliveries_total",
        "Total webhook delivery attempts and their outcomes",
        &result,
    );
    let peers_connected = new_gauge("gitlawb_peers_connected", "Currently connected libp2p peers");
    *metrics = Some(
        NodeMetrics {
            info,
            pushes,
            fetches,
            auth_successes,
            auth_failures,
            sync_processed,
            webhook_deliveries,
            peers_connected,
        },
    );
}

/// Records one successful push. The repository is written `owner_short/repo_name`. Without metrics this does nothing.
pub fn record_push(metrics: &mut Option<NodeMetrics>, repo: &str)
    requires
        metrics_wf(*old(metrics)),
    ensures
        metrics_wf(*final(metrics)),
        *old(metrics) is None ==> *final(metrics) is None,
        *old(metrics) matches Some(o) ==> (*final(metrics) matches Some(n) && n == (NodeMetrics {
            pushes: n.pushes,
            ..o
        }) && counters_series(n.pushes) == counted(
            counters_series(o.pushes),
            label_key(seq![repo@]),
            seq![repo@],
        )),
{
    match metrics {
        Some(m) => {
            let values: Vec<&str> = vec![repo];
            proof {
                assert(texts(values@) =~= seq![repo@]);
            }
            count(&mut m.pushes, &values);
        },
        None => {},
    }
}

/// Records one successful fetch. Without metrics this does nothing.
pub fn record_fetch(metrics: &mut Option<NodeMetrics>, repo: &str)
    requires
        metrics_wf(*old(metrics)),
    ensures
        metrics_wf(*final(metrics)),
        *old(metrics) is None ==> *final(metrics) is None,
        *old(metrics) matches Some(o) ==> (*final(metrics) matches Some(n) && n == (NodeMetrics {
            fetches: n.fetches,
            ..o
        }) && counters_series(n.fetches) == counted(
            counters_series(o.fetches),
            label_key(seq![repo@]),
            seq![repo@],
        )),
{
    match metrics {
        Some(m) => {
            let values: Vec<&str> = vec![repo];
            proof {
                assert(texts(values@) =~= seq![repo@]);
            }
            count(&mut m.fetches, &values);
        },
        None => {},
    }
}

/// Records one signature check that passed. Without metrics this does nothing.
pub fn record_auth_success(metrics: &mut Option<NodeMetrics>, route: &str)
    requires
        metrics_wf(*old(metrics)),
    ensures
        metrics_wf(*final(metrics)),
        *old(metrics) is None ==> *final(metrics) is None,
        *old(metrics) matches Some(o) ==> (*final(metrics) matches Some(n) && n == (NodeMetrics {
            auth_successes: n.auth_successes,
            ..o
        }) && counters_series(n.auth_successes) == counted(
            counters_series(o.auth_successes),
            label_key(seq![route@]),
            seq![route@],
        )),
{
    match metrics {
        Some(m) => {
            let values: Vec<&str> = vec![route];
            proof {
                assert(texts(values@) =~= seq![route@]);
            }
            count(&mut m.auth_successes, &values);
        },
        None => {},
    }
}

/// Records one signature check that failed, with a short token for the reason (`expired`,
/// `bad_signature`, `missing_header`). Without metrics this does nothing.
pub fn record_auth_failure(metrics: &mut Option<NodeMetrics>, route: &str, reason: &str)
    requires
        metrics_wf(*old(metrics)),
    ensures
        metrics_wf(*final(metrics)),
        *old(metrics) is None ==> *final(metrics) is None,
        *old(metrics) matches Some(o) ==> (*final(metrics) matches Some(n) && n == (NodeMetrics {
            auth_failures: n.auth_failures,
            ..o
        }) && counters_series(n.auth_failures) == counted(
            counters_series(o.auth_failures),
            label_key(seq![route@, reason@]),
            seq![route@, reason@],
        )),
{
    match metrics {
        Some(m) => {
            let values: Vec<&str> = vec![route, reason];
            proof {
                assert(texts(values@) =~= seq![route@, reason@]);
            }
            count(&mut m.auth_failures, &values);
        },
        None => {},
    }
}

/// Records what became of one item of the sync queue (`done`, `failed`, `skipped`, `rejected`,
/// `deferred`). Without metrics this does nothing.
pub fn record_sync_processed(metrics: &mut Option<NodeMetrics>, status: &str)
    requires
        metrics_wf(*old(metrics)),
    ensures
        metrics_wf(*final(metrics)),
        *old(metrics) is None ==> *final(metrics) is None,
        *old(metrics) matches Some(o) ==> (*final(metrics) matches Some(n) && n == (NodeMetrics {
            sync_processed: n.sync_processed,
            ..o
        }) && counters_series(n.sync_processed) == counted(
            counters_series(o.sync_processed),
            label_key(seq![status@]),
            seq![status@],
        )),
{
    match metrics {
        Some(m) => {
            let values: Vec<&str> = vec![status];
            proof {
                assert(texts(values@) =~= seq![status@]);
            }
            count(&mut m.sync_processed, &values);
        },
        None => {},
    }
}

/// Records what became of one webhook delivery (`ok`, `http_error`, `network_error`,
/// `skipped`). Without metrics this does nothing.
pub fn record_webhook_delivery(metrics: &mut Option<NodeMetrics>, result: &str)
    requires
        metrics_wf(*old(metrics)),
    ensures
        metrics_wf(*final(metrics)),
        *old(metrics) is None ==> *final(metrics) is None,
        *old(metrics) matches Some(o) ==> (*final(metrics) matches Some(n) && n == (NodeMetrics {
            webhook_deliveries: n.webhook_deliveries,
            ..o
        }) && counters_series(n.webhook_deliveries) == counted(
            counters_series(o.webhook_deliveries),
            label_key(seq![result@]),
            seq![result@],
        )),
{
    match metrics {
        Some(m) => {
            let values: Vec<&str> = vec![result];
            proof {
                assert(texts(values@) =~= seq![result@]);
            }
            count(&mut m.webhook_deliveries, &values);
        },
        None => {},
    }
}

/// Sets the number of connected peers. Without metrics this does nothing.
pub fn set_peers_connected(metrics: &mut Option<NodeMetrics>, count: i64)
    requires
        metrics_wf(*old(metrics)),
    ensures
        metrics_wf(*final(metrics)),
        *old(metrics) is None ==> *final(metrics) is None,
        *old(metrics) matches Some(o) ==> (*final(metrics) matches Some(n) && n == (NodeMetrics {
            peers_connected: n.peers_connected,
            ..o
        }) && gauge_value(n.peers_connected) == count),
{
    match metrics {
        Some(m) => {
            set_gauge(&mut m.peers_connected, count);
        },
        None => {},
    }
}

/// Why there is no text to show.
#[derive(Clone, Copy, PartialEq, Eq, Structural, Debug)]
pub enum MetricsError {
    NeverInitialised,
}

impl MetricsError {
    /// The error in words.
    pub fn message(&self) -> (r: String)
        ensures
            r@ == "Error: metrics::init() was never called"@,
    {
        "Error: metrics::init() was never called".to_string()
    }
}

/// The text of a family of counters.
pub open spec fn counters_section(c: Counters) -> Seq<char> {
    counters_shown(
        counters_family(c).0,
        counters_family(c).1,
        counters_family(c).2,
        counters_series(c),
    )
}

/// The text of a family of gauges.
pub open spec fn gauges_section(g: Gauges) -> Seq<char> {
    gauges_shown(gauges_family(g).0, gauges_family(g).1, gauges_family(g).2, gauges_series(g))
}

/// The text of a gauge without labels.
pub open spec fn gauge_section(g: Gauge) -> Seq<char> {
    gauge_shown(gauge_family(g).0, gauge_family(g).1, gauge_value(g))
}

/// The text of all metrics: the sections in the order of the metrics' names, with the section
/// of `gitlawb_pack_size_bytes` at its place.
pub open spec fn exposition(m: NodeMetrics, pack_sizes: Seq<char>) -> Seq<char> {
    counters_section(m.auth_failures) + counters_section(m.auth_successes) + counters_section(
        m.fetches,
    ) + gauges_section(m.info) + pack_sizes + gauge_section(m.peers_connected) + counters_section(
        m.pushes,
    ) + counters_section(m.sync_processed) + counters_section(m.webhook_deliveries)
}

/// A family of counters is shown if and only if something was counted, and then begins with the
/// line of its help text.
pub open spec fn counters_are_shown(c: Counters) -> bool {
    &&& counters_series(c) == CounterSeries::empty() ==> counters_section(c).len() == 0
    &&& counters_series(c) != CounterSeries::empty() ==> has_prefix(
        counters_section(c),
        help_line_start(counters_family(c).0),
    )
}

/// The metrics in the text format of Prometheus. `pack_sizes` is the section of the histogram
/// `gitlawb_pack_size_bytes`, in the same format.
pub fn encode(metrics: &Option<NodeMetrics>, pack_sizes: &str) -> (r: Result<String, MetricsError>)
    ensures
        *metrics is None ==> r == Err::<String, MetricsError>(MetricsError::NeverInitialised),
        *metrics matches Some(m) ==> (r matches Ok(text) && text@ == exposition(m, pack_sizes@)),
        *metrics matches Some(m) ==> {
            &&& counters_are_shown(m.auth_failures)
            &&& counters_are_shown(m.auth_successes)
            &&& counters_are_shown(m.fetches)
            &&& counters_are_shown(m.pushes)
            &&& counters_are_shown(m.sync_processed)
            &&& counters_are_shown(m.webhook_deliveries)
            &&& has_prefix(
                gauge_section(m.peers_connected),
                help_line_start(gauge_family(m.peers_connected).0),
            )
            &&& gauges_series(m.info) != GaugeSeries::empty() ==> has_prefix(
                gauges_section(m.info),
                help_line_start(gauges_family(m.info).0),
            )
        },
{
    match metrics {
        None => Err(MetricsError::NeverInitialised),
        Some(m) => {
            let mut text = show_counters(&m.auth_failures);
            text.append(show_counters(&m.auth_successes).as_str());
            text.append(show_counters(&m.fetches).as_str());
            text.append(show_gauges(&m.info).as_str());
            text.append(pack_sizes);
            text.append(show_gauge(&m.peers_connected).as_str());
            text.append(show_counters(&m.pushes).as_str());
            text.append(show_counters(&m.sync_processed).as_str());
            text.append(show_counters(&m.webhook_deliveries).as_str());
            Ok(text)
        },
    }
}

/// What a family has counted for these label values.
pub open spec fn count_of(series: CounterSeries, values: Seq<Seq<char>>) -> u64 {
    let key = label_key(values);
    if series.contains_key(key) {
        series[key].1
    } else {
        0
    }
}

/// A family after `n` events with the same label values.
pub open spec fn counted_times(
    series: CounterSeries,
    values: Seq<Seq<char>>,
    n: nat,
) -> CounterSeries
    decreases n,
{
    if n == 0 {
        series
    } else {
        counted(counted_times(series, values, (n - 1) as nat), label_key(values), values)
    }
}

/// No event is lost: after `n` events with the same label values the family has counted `n`
/// more for them, up to the wrap at the end of the counter's range.
pub proof fn events_add_up(series: CounterSeries, values: Seq<Seq<char>>, n: nat)
    ensures
        count_of(counted_times(series, values, n), values) == (count_of(series, values) + n) % (
        u64::MAX + 1),
    decreases n,
{
    if n > 0 {
        events_add_up(series, values, (n - 1) as nat);
        let before = counted_times(series, values, (n - 1) as nat);
        let c = count_of(before, values) as int;
        let m = u64::MAX + 1;
        let total = count_of(series, values) + n;
        assert(c == (total - 1) % m);
        assert(total % m == (if c == m - 1 { 0 } else { c + 1 })) by (nonlinear_arith)
            requires
                c == (total - 1) % m,
                m == 0x1_0000_0000_0000_0000,
        ;
    }
}

/// An event counts only for its own label values: values with another key keep their count.
pub proof fn events_keep_apart(
    series: CounterSeries,
    values: Seq<Seq<char>>,
    other: Seq<Seq<char>>,
)
    requires
        label_key(values) != label_key(other),
    ensures
        count_of(counted(series, label_key(values), values), other) == count_of(series, other),
{
}

/// Label values that read the same, one after the other, share a series: an event with the ones
/// counts for the others too.
pub proof fn values_that_join_alike_share_a_series(
    series: CounterSeries,
    values: Seq<Seq<char>>,
    other: Seq<Seq<char>>,
)
    requires
        joined(values) == joined(other),
    ensures
        count_of(counted(series, label_key(values), values), other) == one_more(
            count_of(series, other),
        ),
{
}

/// A series keeps the label values that it was made with.
pub proof fn series_keep_their_labels(series: CounterSeries, key: u64, values: Seq<Seq<char>>)
    ensures
        forall|k: u64| #[trigger]
            series.contains_key(k) ==> counted(series, key, values).contains_key(k) && counted(
                series,
                key,
                values,
            )[k].0 == series[k].0,
{
}

} // verus!
