//! What the node starts, and what it answers until it has started.

use vstd::prelude::*;

use crate::json::{json_string, json_string_of};
use crate::p2p::wire::DidRecord;
use crate::startup::operator::operator_enabled;
use crate::text::{after_last, concat2, concat3, decimal, decimal_string, text_after_last};

verus! {

/// The part of the configuration that decides what is started.
#[derive(Debug)]
pub struct StartSettings {
    pub public_read: bool,
    pub metrics_addr: String,
    pub p2p_port: u16,
    pub tigris_bucket: String,
    pub auto_sync: bool,
    pub contract_node_staking: String,
    pub operator_private_key: String,
}

/// What is started.
#[derive(Clone, Copy, PartialEq, Eq, Structural, Debug)]
pub struct StartPlan {
    /// Warn that private reads are not enforced.
    pub warn_private_read: bool,
    pub metrics: bool,
    pub p2p: bool,
    pub tigris: bool,
    pub sync: bool,
    pub operator: bool,
}

/// Decides what is started: each part for which something is configured.
pub fn start_plan(s: &StartSettings) -> (r: StartPlan)
    ensures
        r == (StartPlan {
            warn_private_read: !s.public_read,
            metrics: s.metrics_addr@.len() > 0,
            p2p: s.p2p_port > 0,
            tigris: s.tigris_bucket@.len() > 0,
            sync: s.auto_sync,
            operator: s.contract_node_staking@.len() > 0 && s.operator_private_key@.len() > 0,
        }),
        r == plan_of(*s),
{
    StartPlan {
        warn_private_read: !s.public_read,
        metrics: !s.metrics_addr.as_str().is_empty(),
        p2p: s.p2p_port > 0,
        tigris: !s.tigris_bucket.as_str().is_empty(),
        sync: s.auto_sync,
        operator: operator_enabled(
            s.contract_node_staking.as_str(),
            s.operator_private_key.as_str(),
        ),
    }
}

/// How the server that answers until the database is there came to its end.
#[derive(Clone, Copy, PartialEq, Eq, Structural, Debug)]
pub enum DegradedEnd {
    Stopped,
    Failed,
    TaskFailed,
}

/// What ended the wait for the database.
#[derive(Clone, Copy, PartialEq, Eq, Structural, Debug)]
pub enum DbWaitEnd {
    Connected,
    /// The connecting was told to end.
    GivenUp,
    /// The other server ended first; whether the node was told to end.
    Degraded { end: DegradedEnd, shutting_down: bool },
}

/// What follows the wait for the database.
#[derive(Clone, Copy, PartialEq, Eq, Structural, Debug)]
pub enum AfterDbWait {
    /// Start in full.
    GoOn,
    /// Stop the other server, and end without an error.
    AbortAndExit,
    /// End without an error.
    Exit,
    /// End with an error.
    Fail(DegradedEnd),
}

/// What follows the wait for the database.
pub fn after_db_wait(end: DbWaitEnd) -> (r: AfterDbWait)
    ensures
        r == (match end {
            DbWaitEnd::Connected => AfterDbWait::GoOn,
            DbWaitEnd::GivenUp => AfterDbWait::AbortAndExit,
            DbWaitEnd::Degraded { end, shutting_down } => if shutting_down {
                AfterDbWait::Exit
            } else {
                AfterDbWait::Fail(end)
            },
        }),
        r == after_wait(end),
{
    match end {
        DbWaitEnd::Connected => AfterDbWait::GoOn,
        DbWaitEnd::GivenUp => AfterDbWait::AbortAndExit,
        DbWaitEnd::Degraded { end, shutting_down } => if shutting_down {
            AfterDbWait::Exit
        } else {
            AfterDbWait::Fail(end)
        },
    }
}

/// What may be shown of the database's URL: what stands behind its last `@`,
/// so no user and no password.
pub fn database_label(database_url: &str) -> (r: String)
    ensures
        r@ == after_last(database_url@, '@'),
{
    text_after_last(database_url, '@')
}

/// The label holds no `@`: nothing that stands before one is shown.
pub proof fn label_shows_nothing_before_an_at(url: Seq<char>)
    ensures
        !after_last(url, '@').contains('@'),
        url.len() >= after_last(url, '@').len(),
        after_last(url, '@') == url.skip(url.len() - after_last(url, '@').len()),
        after_last(url, '@').len() < url.len() ==> url[url.len() - after_last(url, '@').len() - 1]
            == '@',
    decreases url.len(),
{
    if url.len() == 0 || url.last() == '@' {
        assert(after_last(url, '@') =~= url.skip(url.len() as int));
    } else {
        label_shows_nothing_before_an_at(url.drop_last());
        let before = after_last(url.drop_last(), '@');
        let all = after_last(url, '@');
        assert forall|i: int| 0 <= i < all.len() implies all[i] != '@' by {
            if i < before.len() {
                assert(all[i] == before[i]);
            }
        }
        assert(all =~= url.skip(url.len() - all.len()));
    }
}

/// The number of connected peers to show: none where the network is off or does
/// not answer.
pub fn connected_peers_gauge(p2p_enabled: bool, status: Option<usize>) -> (r: i64)
    ensures
        r == (if p2p_enabled && status is Some {
            status->0 as i64
        } else {
            0
        }),
        r == peers_shown(p2p_enabled, status),
{
    if p2p_enabled {
        match status {
            Some(n) => {
                #[verifier::truncate]
                (n as i64)
            },
            None => 0,
        }
    } else {
        0
    }
}

/// The record that tells the network where this node is.
pub fn own_did_record(
    did: String,
    public_url: Option<String>,
    peer_id: String,
    p2p_port: u16,
    timestamp: String,
) -> (r: DidRecord)
    ensures
        r.did == did,
        r.http_url@ == (match public_url {
            Some(url) => url@,
            None => Seq::empty(),
        }),
        r.peer_id == peer_id,
        r.p2p_port == p2p_port,
        r.timestamp == timestamp,
{
    let http_url = match public_url {
        Some(url) => url,
        None => String::new(),
    };
    DidRecord { did, http_url, peer_id, p2p_port, timestamp }
}

/// The status of every answer until the database is there.
pub const DEGRADED_STATUS: u16 = 503;

/// What is answered until the database is there.
#[derive(Debug)]
pub struct DegradedBody {
    pub status: String,
    pub database: String,
    pub error: String,
    pub message: String,
    pub db_attempts: u64,
    pub db_next_retry_secs: u64,
    /// The node, in the answer that tells it.
    pub node: Option<NodeInfo>,
}

/// Which node answers.
#[derive(Debug)]
pub struct NodeInfo {
    pub name: String,
    pub version: String,
    pub did: String,
}

/// What is answered until the database is there; at the root, with the node.
pub fn degraded_body(
    code: &str,
    message: &str,
    attempts: u64,
    next_retry_secs: u64,
    node: Option<(String, String)>,
) -> (r: DegradedBody)
    ensures
        r.status@ == "degraded"@,
        r.database@ == "initializing"@,
        r.error@ == code@,
        r.message@ == message@,
        r.db_attempts == attempts,
        r.db_next_retry_secs == next_retry_secs,
        r.node is Some == node is Some,
        node matches Some(n) ==> r.node->0.name@ == "gitlawb-node"@ && r.node->0.version == n.0
            && r.node->0.did == n.1,
{
    DegradedBody {
        status: "degraded".to_owned(),
        database: "initializing".to_owned(),
        error: code.to_owned(),
        message: message.to_owned(),
        db_attempts: attempts,
        db_next_retry_secs: next_retry_secs,
        node: match node {
            Some((version, did)) => Some(
                NodeInfo { name: "gitlawb-node".to_owned(), version, did },
            ),
            None => None,
        },
    }
}

/// The fields of an answer up to the node's DID, as JSON.
pub open spec fn degraded_head(b: DegradedBody) -> Seq<char> {
    "{\"database\":"@ + json_string_of(b.database@) + ",\"db_attempts\":"@ + decimal(
        b.db_attempts as nat,
    ) + ",\"db_next_retry_secs\":"@ + decimal(b.db_next_retry_secs as nat)
}

/// The fields that every answer has behind the node's DID, as JSON.
pub open spec fn degraded_reason(b: DegradedBody) -> Seq<char> {
    ",\"error\":"@ + json_string_of(b.error@) + ",\"message\":"@ + json_string_of(b.message@)
}

/// An answer as a JSON object, its fields in the order of their names.
pub open spec fn degraded_text(b: DegradedBody) -> Seq<char> {
    let status = ",\"status\":"@ + json_string_of(b.status@);
    match b.node {
        Some(n) => degraded_head(b) + (",\"did\":"@ + json_string_of(n.did@)) + degraded_reason(b) + (
        ",\"name\":"@ + json_string_of(n.name@)) + status + (",\"version\":"@ + json_string_of(
            n.version@,
        )) + "}"@,
        None => degraded_head(b) + degraded_reason(b) + status + "}"@,
    }
}

/// A field of a JSON object that holds a text, with the comma before it.
fn text_field(key: &str, text: &str) -> (r: String)
    ensures
        r@ == key@ + json_string_of(text@),
{
    concat2(key, json_string(text).as_str())
}

/// The answer as a JSON object.
pub fn degraded_json(b: &DegradedBody) -> (r: String)
    ensures
        r@ == degraded_text(*b),
{
    let database = text_field("{\"database\":", b.database.as_str());
    let attempts = concat3(
        database.as_str(),
        ",\"db_attempts\":",
        decimal_string(b.db_attempts).as_str(),
    );
    let head = concat3(
        attempts.as_str(),
        ",\"db_next_retry_secs\":",
        decimal_string(b.db_next_retry_secs).as_str(),
    );
    let error = text_field(",\"error\":", b.error.as_str());
    let reason = concat3(
        error.as_str(),
        ",\"message\":",
        json_string(b.message.as_str()).as_str(),
    );
    let status = text_field(",\"status\":", b.status.as_str());
    match &b.node {
        Some(n) => {
            let did = text_field(",\"did\":", n.did.as_str());
            let name = text_field(",\"name\":", n.name.as_str());
            let version = text_field(",\"version\":", n.version.as_str());
            let first = concat3(head.as_str(), did.as_str(), reason.as_str());
            let second = concat3(first.as_str(), name.as_str(), status.as_str());
            concat3(second.as_str(), version.as_str(), "}")
        },
        None => {
            let all = concat3(head.as_str(), reason.as_str(), status.as_str());
            concat2(all.as_str(), "}")
        },
    }
}

/// An answer of the metrics server.
#[derive(Debug)]
pub struct MetricsReply {
    pub status: u16,
    pub content_type: String,
    pub body: String,
}

/// The answer of the metrics server: the metrics, or why there are none.
pub fn metrics_reply(encoded: Result<String, String>) -> (r: MetricsReply)
    ensures
        encoded matches Ok(text) ==> r.status == 200 && r.content_type@
            == "text/plain; version=0.0.4; charset=utf-8"@ && r.body == text,
        encoded matches Err(why) ==> r.status == 500 && r.content_type@
            == "text/plain; charset=utf-8"@ && r.body@ == "metrics encode error: "@ + why@,
{
    match encoded {
        Ok(text) => MetricsReply {
            status: 200,
            content_type: "text/plain; version=0.0.4; charset=utf-8".to_owned(),
            body: text,
        },
        Err(why) => MetricsReply {
            status: 500,
            content_type: "text/plain; charset=utf-8".to_owned(),
            body: concat2("metrics encode error: ", why.as_str()),
        },
    }
}

/// What is started for these settings.
pub open spec fn plan_of(s: StartSettings) -> StartPlan {
    StartPlan {
        warn_private_read: !s.public_read,
        metrics: s.metrics_addr@.len() > 0,
        p2p: s.p2p_port > 0,
        tigris: s.tigris_bucket@.len() > 0,
        sync: s.auto_sync,
        operator: s.contract_node_staking@.len() > 0 && s.operator_private_key@.len() > 0,
    }
}

/// Each part is started exactly if something is configured for it, whatever is
/// configured for the others; the part of the contract needs both its address and
/// a key.
pub proof fn parts_are_started_for_what_is_configured(s: StartSettings)
    ensures
        plan_of(s).metrics <==> s.metrics_addr@ != Seq::<char>::empty(),
        plan_of(s).p2p <==> s.p2p_port != 0,
        plan_of(s).tigris <==> s.tigris_bucket@ != Seq::<char>::empty(),
        plan_of(s).sync <==> s.auto_sync,
        plan_of(s).operator <==> s.contract_node_staking@ != Seq::<char>::empty()
            && s.operator_private_key@ != Seq::<char>::empty(),
        plan_of(s).warn_private_read <==> !s.public_read,
{
    assert(s.metrics_addr@.len() == 0 ==> s.metrics_addr@ =~= Seq::<char>::empty());
    assert(s.tigris_bucket@.len() == 0 ==> s.tigris_bucket@ =~= Seq::<char>::empty());
    assert(s.contract_node_staking@.len() == 0 ==> s.contract_node_staking@ =~= Seq::<
        char,
    >::empty());
    assert(s.operator_private_key@.len() == 0 ==> s.operator_private_key@ =~= Seq::<
        char,
    >::empty());
}

/// What follows the wait.
pub open spec fn after_wait(end: DbWaitEnd) -> AfterDbWait {
    match end {
        DbWaitEnd::Connected => AfterDbWait::GoOn,
        DbWaitEnd::GivenUp => AfterDbWait::AbortAndExit,
        DbWaitEnd::Degraded { end, shutting_down } => if shutting_down {
            AfterDbWait::Exit
        } else {
            AfterDbWait::Fail(end)
        },
    }
}

/// The node starts in full exactly if the database is connected; it ends with an
/// error exactly if the other server ended and nobody told the node to end, and
/// the error is how that server ended; and it stops that server exactly if it is
/// still there.
pub proof fn what_follows_the_wait(end: DbWaitEnd)
    ensures
        after_wait(end) is GoOn <==> end is Connected,
        after_wait(end) is AbortAndExit <==> end is GivenUp,
        match after_wait(end) {
            AfterDbWait::Fail(why) => end == (DbWaitEnd::Degraded {
                end: why,
                shutting_down: false,
            }),
            _ => !(end matches DbWaitEnd::Degraded { shutting_down, .. } && !shutting_down),
        },
        after_wait(end) is Exit <==> (end matches DbWaitEnd::Degraded { shutting_down, .. }
            && shutting_down),
{
}

/// The number of connected peers to show.
pub open spec fn peers_shown(p2p_enabled: bool, status: Option<usize>) -> i64 {
    if p2p_enabled && status is Some {
        status->0 as i64
    } else {
        0
    }
}

/// The number that the network tells is shown as it is; without a network, or
/// without its answer, zero.
pub proof fn shown_peers_are_the_connected_ones(status: Option<usize>)
    ensures
        peers_shown(false, status) == 0,
        peers_shown(true, None) == 0,
        status matches Some(n) ==> n <= i64::MAX ==> peers_shown(true, status) == n,
{
}

/// What stands behind the last `@` of a database's URL does not depend on what
/// stands before it: neither the user nor the password shows.
pub proof fn labels_are_free_of_credentials(
    one: Seq<char>,
    other: Seq<char>,
    host: Seq<char>,
)
    requires
        !host.contains('@'),
    ensures
        after_last(one + seq!['@'] + host, '@') == host,
        after_last(one + seq!['@'] + host, '@') == after_last(other + seq!['@'] + host, '@'),
        after_last(host, '@') == host,
    decreases host.len(),
{
    if host.len() == 0 {
        assert((one + seq!['@'] + host).last() == '@');
        assert((other + seq!['@'] + host).last() == '@');
        assert(host =~= Seq::<char>::empty());
    } else {
        let less = host.drop_last();
        assert(host[host.len() - 1] == host.last());
        assert forall|i: int| 0 <= i < less.len() implies less[i] != '@' by {
            assert(host[i] == less[i]);
        }
        labels_are_free_of_credentials(one, other, less);
        assert((one + seq!['@'] + host).drop_last() =~= one + seq!['@'] + less);
        assert((other + seq!['@'] + host).drop_last() =~= other + seq!['@'] + less);
        assert((one + seq!['@'] + host).last() == host.last());
        assert((other + seq!['@'] + host).last() == host.last());
        assert(less.push(host.last()) =~= host);
    }
}

} // verus!
