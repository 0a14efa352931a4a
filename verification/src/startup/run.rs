//! The run of the node, from its start to its end: what is done in which order, and which
//! failures end it.

use vstd::prelude::*;

use crate::startup::operator::{operator_action, OperatorAction, OperatorStep};
use crate::startup::plan::{after_db_wait, AfterDbWait, DbWaitEnd, DegradedEnd, StartPlan};

verus! {

/// How often the gauge of connected peers is set, in seconds.
pub const PEER_GAUGE_INTERVAL_SECS: u64 = 15;

/// How often the rate limiters and the expired proofs are swept, in seconds.
pub const CLEANUP_INTERVAL_SECS: u64 = 300;

/// How long after its start the node publishes its DID record, in seconds.
pub const DID_PUBLISH_DELAY_SECS: u64 = 5;

/// What the node does next.
#[derive(Clone, Copy, PartialEq, Eq, Structural, Debug)]
pub enum RunStep {
    /// Load the identity key, or make one.
    LoadIdentity,
    /// Have the claims beside the key swept once more, later.
    ScheduleResweep,
    InitMetrics,
    /// Wait for the signals that end the process.
    WatchSignals,
    /// Bind the address of the HTTP server.
    BindHttp,
    StartMetricsServer,
    /// Answer, until the database is there, that it is not.
    StartDegradedServer,
    AwaitDatabase,
    /// The node ends: stop the server that answered so far.
    AbortDegradedServer,
    /// The database is there: let the server that answered so far drain.
    DrainDegradedServer,
    /// Forget peers that are this node itself.
    PruneSelfPeers,
    /// Forget peers with addresses that are not public.
    PruneNonPublicPeers,
    CreateReposDir,
    StartP2p,
    BuildHttpClient,
    OpenTigris,
    InitCaptcha,
    /// Show the number of connected peers from time to time.
    StartPeerGauge,
    /// Drop what the limiters and the proofs no longer need from time to time.
    StartCleanup,
    /// Take the bound address over from the server that answered so far.
    TakeOverListener,
    /// Tell the network where the node is.
    PublishDid,
    StartGossip,
    StartSync,
    BuildOperator,
    CheckOperator,
    StartHeartbeat,
    /// Serve until the node is told to end and the requests are finished.
    Serve,
    /// Stop the metrics server; the result of serving.
    StopMetricsServer { ok: bool },
    Ended,
}

/// What came of a step.
#[derive(Clone, Copy, PartialEq, Eq, Structural, Debug)]
pub enum RunEvent {
    Done,
    Failed,
    /// How the wait for the database ended.
    Waited(DbWaitEnd),
}

/// How the run ended.
#[derive(Clone, Copy, PartialEq, Eq, Structural, Debug)]
pub enum RunEnd {
    /// Without an error.
    Clean,
    /// A step that the node cannot do without failed.
    Failed(RunStep),
    /// The server that answered so far ended before the database was there.
    DegradedServer(DegradedEnd),
    /// The setup with the staking contract failed, in strict mode.
    Operator(OperatorStep),
}

/// What is configured, as far as it decides the order.
#[derive(Clone, Copy, PartialEq, Eq, Structural, Debug)]
pub struct RunSettings {
    pub plan: StartPlan,
    /// The node has a public URL.
    pub public_url: bool,
    pub operator_strict_mode: bool,
}

/// The run of the node.
#[derive(Clone, Copy, PartialEq, Eq, Structural, Debug)]
pub struct NodeRun {
    pub settings: RunSettings,
    pub step: RunStep,
    /// The metrics server runs.
    pub metrics_up: bool,
    /// The network runs.
    pub p2p_up: bool,
}

/// The steps whose failure ends the node.
pub open spec fn required(step: RunStep) -> bool {
    ||| step is LoadIdentity
    ||| step is BindHttp
    ||| step is CreateReposDir
    ||| step is BuildHttpClient
    ||| step is TakeOverListener
}

/// Whether an event answers a step.
pub open spec fn run_event_fits(step: RunStep, e: RunEvent) -> bool {
    &&& !(step is Ended)
    &&& step is AwaitDatabase <==> e is Waited
}

/// The step behind the ones of the staking contract.
pub open spec fn to_operator(s: RunSettings) -> RunStep {
    if s.plan.operator {
        RunStep::BuildOperator
    } else {
        RunStep::Serve
    }
}

/// The step behind the gossip.
pub open spec fn to_sync(s: RunSettings) -> RunStep {
    if s.plan.sync {
        RunStep::StartSync
    } else {
        to_operator(s)
    }
}

/// The step that follows one that went well, or that the node can do without.
pub open spec fn following(s: RunSettings, step: RunStep, p2p_up: bool) -> RunStep {
    match step {
        RunStep::LoadIdentity => RunStep::ScheduleResweep,
        RunStep::ScheduleResweep => RunStep::InitMetrics,
        RunStep::InitMetrics => RunStep::WatchSignals,
        RunStep::WatchSignals => RunStep::BindHttp,
        RunStep::BindHttp => if s.plan.metrics {
            RunStep::StartMetricsServer
        } else {
            RunStep::StartDegradedServer
        },
        RunStep::StartMetricsServer => RunStep::StartDegradedServer,
        RunStep::StartDegradedServer => RunStep::AwaitDatabase,
        RunStep::DrainDegradedServer => if s.public_url {
            RunStep::PruneSelfPeers
        } else {
            RunStep::PruneNonPublicPeers
        },
        RunStep::PruneSelfPeers => RunStep::PruneNonPublicPeers,
        RunStep::PruneNonPublicPeers => RunStep::CreateReposDir,
        RunStep::CreateReposDir => if s.plan.p2p {
            RunStep::StartP2p
        } else {
            RunStep::BuildHttpClient
        },
        RunStep::StartP2p => RunStep::BuildHttpClient,
        RunStep::BuildHttpClient => if s.plan.tigris {
            RunStep::OpenTigris
        } else {
            RunStep::InitCaptcha
        },
        RunStep::OpenTigris => RunStep::InitCaptcha,
        RunStep::InitCaptcha => RunStep::StartPeerGauge,
        RunStep::StartPeerGauge => RunStep::StartCleanup,
        RunStep::StartCleanup => RunStep::TakeOverListener,
        RunStep::TakeOverListener => if p2p_up {
            RunStep::PublishDid
        } else {
            RunStep::StartGossip
        },
        RunStep::PublishDid => RunStep::StartGossip,
        RunStep::StartGossip => to_sync(s),
        RunStep::StartSync => to_operator(s),
        RunStep::BuildOperator => RunStep::CheckOperator,
        RunStep::CheckOperator => RunStep::StartHeartbeat,
        RunStep::StartHeartbeat => RunStep::Serve,
        _ => RunStep::Ended,
    }
}

/// The run at another step.
pub open spec fn at(r: NodeRun, step: RunStep) -> NodeRun {
    NodeRun { step, ..r }
}

/// The run at its end.
pub open spec fn ended(r: NodeRun, end: RunEnd) -> (NodeRun, Option<RunEnd>) {
    (at(r, RunStep::Ended), Some(end))
}

/// What follows a failed step of the setup with the staking contract.
pub open spec fn after_operator_failure(r: NodeRun, step: OperatorStep) -> (
    NodeRun,
    Option<RunEnd>,
) {
    if r.settings.operator_strict_mode {
        ended(r, RunEnd::Operator(step))
    } else {
        (at(r, RunStep::Serve), None)
    }
}

/// What an event leads to; the end of the run, once it has one.
pub open spec fn run_next(r: NodeRun, e: RunEvent) -> (NodeRun, Option<RunEnd>) {
    let failed = e is Failed;
    match r.step {
        RunStep::AwaitDatabase => match e {
            RunEvent::Waited(DbWaitEnd::Connected) => (at(r, RunStep::DrainDegradedServer), None),
            RunEvent::Waited(DbWaitEnd::GivenUp) => (at(r, RunStep::AbortDegradedServer), None),
            RunEvent::Waited(DbWaitEnd::Degraded { end, shutting_down }) => if shutting_down {
                ended(r, RunEnd::Clean)
            } else {
                ended(r, RunEnd::DegradedServer(end))
            },
            _ => (r, None),
        },
        RunStep::AbortDegradedServer => ended(r, RunEnd::Clean),
        RunStep::StartMetricsServer => (
            NodeRun { metrics_up: !failed, ..at(r, RunStep::StartDegradedServer) },
            None,
        ),
        RunStep::StartP2p => (
            NodeRun { p2p_up: !failed, ..at(r, RunStep::BuildHttpClient) },
            None,
        ),
        RunStep::BuildOperator if failed => after_operator_failure(r, OperatorStep::NoClient),
        RunStep::CheckOperator if failed => after_operator_failure(r, OperatorStep::CheckFailed),
        RunStep::Serve => if r.metrics_up {
            (at(r, RunStep::StopMetricsServer { ok: !failed }), None)
        } else if failed {
            ended(r, RunEnd::Failed(RunStep::Serve))
        } else {
            ended(r, RunEnd::Clean)
        },
        RunStep::StopMetricsServer { ok } => if ok {
            ended(r, RunEnd::Clean)
        } else {
            ended(r, RunEnd::Failed(RunStep::Serve))
        },
        _ => if failed && required(r.step) {
            ended(r, RunEnd::Failed(r.step))
        } else {
            (at(r, following(r.settings, r.step, r.p2p_up)), None)
        },
    }
}

fn next_step(s: &RunSettings, step: RunStep, p2p_up: bool) -> (r: RunStep)
    ensures
        r == following(*s, step, p2p_up),
{
    let operator = if s.plan.operator {
        RunStep::BuildOperator
    } else {
        RunStep::Serve
    };
    match step {
        RunStep::LoadIdentity => RunStep::ScheduleResweep,
        RunStep::ScheduleResweep => RunStep::InitMetrics,
        RunStep::InitMetrics => RunStep::WatchSignals,
        RunStep::WatchSignals => RunStep::BindHttp,
        RunStep::BindHttp => if s.plan.metrics {
            RunStep::StartMetricsServer
        } else {
            RunStep::StartDegradedServer
        },
        RunStep::StartMetricsServer => RunStep::StartDegradedServer,
        RunStep::StartDegradedServer => RunStep::AwaitDatabase,
        RunStep::DrainDegradedServer => if s.public_url {
            RunStep::PruneSelfPeers
        } else {
            RunStep::PruneNonPublicPeers
        },
        RunStep::PruneSelfPeers => RunStep::PruneNonPublicPeers,
        RunStep::PruneNonPublicPeers => RunStep::CreateReposDir,
        RunStep::CreateReposDir => if s.plan.p2p {
            RunStep::StartP2p
        } else {
            RunStep::BuildHttpClient
        },
        RunStep::StartP2p => RunStep::BuildHttpClient,
        RunStep::BuildHttpClient => if s.plan.tigris {
            RunStep::OpenTigris
        } else {
            RunStep::InitCaptcha
        },
        RunStep::OpenTigris => RunStep::InitCaptcha,
        RunStep::InitCaptcha => RunStep::StartPeerGauge,
        RunStep::StartPeerGauge => RunStep::StartCleanup,
        RunStep::StartCleanup => RunStep::TakeOverListener,
        RunStep::TakeOverListener => if p2p_up {
            RunStep::PublishDid
        } else {
            RunStep::StartGossip
        },
        RunStep::PublishDid => RunStep::StartGossip,
        RunStep::StartGossip => if s.plan.sync {
            RunStep::StartSync
        } else {
            operator
        },
        RunStep::StartSync => operator,
        RunStep::BuildOperator => RunStep::CheckOperator,
        RunStep::CheckOperator => RunStep::StartHeartbeat,
        RunStep::StartHeartbeat => RunStep::Serve,
        _ => RunStep::Ended,
    }
}

fn is_required(step: RunStep) -> (r: bool)
    ensures
        r == required(step),
{
    match step {
        RunStep::LoadIdentity => true,
        RunStep::BindHttp => true,
        RunStep::CreateReposDir => true,
        RunStep::BuildHttpClient => true,
        RunStep::TakeOverListener => true,
        _ => false,
    }
}

impl NodeRun {
    /// Begins the run.
    pub fn run(settings: RunSettings) -> (r: Self)
        ensures
            r == run_start(settings),
    {
        NodeRun { settings, step: RunStep::LoadIdentity, metrics_up: false, p2p_up: false }
    }

    fn end(&mut self, end: RunEnd) -> (r: Option<RunEnd>)
        ensures
            (*final(self), r) == ended(*old(self), end),
    {
        self.step = RunStep::Ended;
        Some(end)
    }

    fn operator_failed(&mut self, step: OperatorStep) -> (r: Option<RunEnd>)
        requires
            !(step is Checked),
        ensures
            (*final(self), r) == after_operator_failure(*old(self), step),
    {
        match operator_action(step, self.settings.operator_strict_mode) {
            OperatorAction::Fail => self.end(RunEnd::Operator(step)),
            _ => {
                self.step = RunStep::Serve;
                None
            },
        }
    }

    /// Takes what came of the step; the end of the run, once it has one.
    pub fn step(&mut self, e: RunEvent) -> (r: Option<RunEnd>)
        requires
            run_event_fits(old(self).step, e),
        ensures
            (*final(self), r) == run_next(*old(self), e),
    {
        let failed = e == RunEvent::Failed;
        match self.step {
            RunStep::AwaitDatabase => match e {
                RunEvent::Waited(how) => match after_db_wait(how) {
                    AfterDbWait::GoOn => {
                        self.step = RunStep::DrainDegradedServer;
                        None
                    },
                    AfterDbWait::AbortAndExit => {
                        self.step = RunStep::AbortDegradedServer;
                        None
                    },
                    AfterDbWait::Exit => self.end(RunEnd::Clean),
                    AfterDbWait::Fail(end) => self.end(RunEnd::DegradedServer(end)),
                },
                _ => None,
            },
            RunStep::AbortDegradedServer => self.end(RunEnd::Clean),
            RunStep::StartMetricsServer => {
                self.metrics_up = !failed;
                self.step = RunStep::StartDegradedServer;
                None
            },
            RunStep::StartP2p => {
                self.p2p_up = !failed;
                self.step = RunStep::BuildHttpClient;
                None
            },
            RunStep::BuildOperator if failed => self.operator_failed(OperatorStep::NoClient),
            RunStep::CheckOperator if failed => self.operator_failed(OperatorStep::CheckFailed),
            RunStep::Serve => {
                if self.metrics_up {
                    self.step = RunStep::StopMetricsServer { ok: !failed };
                    None
                } else if failed {
                    self.end(RunEnd::Failed(RunStep::Serve))
                } else {
                    self.end(RunEnd::Clean)
                }
            },
            RunStep::StopMetricsServer { ok } => {
                if ok {
                    self.end(RunEnd::Clean)
                } else {
                    self.end(RunEnd::Failed(RunStep::Serve))
                }
            },
            _ => {
                let step = self.step;
                if failed && is_required(step) {
                    self.end(RunEnd::Failed(step))
                } else {
                    self.step = next_step(&self.settings, step, self.p2p_up);
                    None
                }
            },
        }
    }
}

/// A run that has not begun.
pub open spec fn run_start(settings: RunSettings) -> NodeRun {
    NodeRun { settings, step: RunStep::LoadIdentity, metrics_up: false, p2p_up: false }
}

/// The place of a step in the order of the steps.
pub open spec fn place(step: RunStep) -> nat {
    match step {
        RunStep::LoadIdentity => 0,
        RunStep::ScheduleResweep => 1,
        RunStep::InitMetrics => 2,
        RunStep::WatchSignals => 3,
        RunStep::BindHttp => 4,
        RunStep::StartMetricsServer => 5,
        RunStep::StartDegradedServer => 6,
        RunStep::AwaitDatabase => 7,
        RunStep::AbortDegradedServer => 8,
        RunStep::DrainDegradedServer => 9,
        RunStep::PruneSelfPeers => 10,
        RunStep::PruneNonPublicPeers => 11,
        RunStep::CreateReposDir => 12,
        RunStep::StartP2p => 13,
        RunStep::BuildHttpClient => 14,
        RunStep::OpenTigris => 15,
        RunStep::InitCaptcha => 16,
        RunStep::StartPeerGauge => 17,
        RunStep::StartCleanup => 18,
        RunStep::TakeOverListener => 19,
        RunStep::PublishDid => 20,
        RunStep::StartGossip => 21,
        RunStep::StartSync => 22,
        RunStep::BuildOperator => 23,
        RunStep::CheckOperator => 24,
        RunStep::StartHeartbeat => 25,
        RunStep::Serve => 26,
        RunStep::StopMetricsServer { .. } => 27,
        RunStep::Ended => 28,
    }
}

/// The run goes forward only: no step is done twice, so the identity is there before anything
/// else, the metrics are served before the database is waited for, and the node serves last.
pub proof fn steps_go_forward(r: NodeRun, e: RunEvent)
    requires
        run_event_fits(r.step, e),
    ensures
        place(run_next(r, e).0.step) > place(r.step),
        run_next(r, e).0.step is Ended <==> run_next(r, e).1 is Some,
        run_next(r, e).0.settings == r.settings,
{
}

/// A part that the node can do without never ends it: where such a step fails, the run goes on.
pub proof fn optional_failures_are_survived(r: NodeRun)
    requires
        run_event_fits(r.step, RunEvent::Failed),
        !required(r.step),
        place(r.step) < place(RunStep::Serve),
        !(r.step is AbortDegradedServer),
        r.step is BuildOperator || r.step is CheckOperator ==> !r.settings.operator_strict_mode,
    ensures
        run_next(r, RunEvent::Failed).1 is None,
{
}

/// A part that the node cannot do without ends it with an error, and the error tells the step.
pub proof fn required_failures_end_the_run(r: NodeRun)
    requires
        required(r.step),
    ensures
        run_next(r, RunEvent::Failed).1 == Some(RunEnd::Failed(r.step)),
{
}

/// The run after these events.
pub open spec fn run_after(settings: RunSettings, events: Seq<RunEvent>) -> (
    NodeRun,
    Option<RunEnd>,
)
    decreases events.len(),
{
    if events.len() == 0 {
        (run_start(settings), None)
    } else {
        let before = run_after(settings, events.drop_last());
        if before.1 is Some {
            before
        } else {
            run_next(before.0, events.last())
        }
    }
}

/// Every event of the run answers the step that was due.
pub open spec fn is_run(settings: RunSettings, events: Seq<RunEvent>) -> bool
    decreases events.len(),
{
    events.len() == 0 || {
        let before = run_after(settings, events.drop_last());
        &&& is_run(settings, events.drop_last())
        &&& before.1 is None
        &&& run_event_fits(before.0.step, events.last())
    }
}

/// The steps that use the database, or serve from it, are done only once it is connected.
pub proof fn the_database_comes_first(settings: RunSettings, events: Seq<RunEvent>)
    requires
        is_run(settings, events),
        place(run_after(settings, events).0.step) > place(RunStep::AbortDegradedServer),
        !(run_after(settings, events).0.step is Ended),
    ensures
        events.contains(RunEvent::Waited(DbWaitEnd::Connected)),
    decreases events.len(),
{
    if events.len() > 0 {
        let shorter = events.drop_last();
        let before = run_after(settings, shorter);
        assert(events[events.len() - 1] == events.last());
        if place(before.0.step) > place(RunStep::AbortDegradedServer) {
            steps_go_forward(before.0, events.last());
            the_database_comes_first(settings, shorter);
            let i = choose|i: int|
                0 <= i < shorter.len() && shorter[i] == RunEvent::Waited(DbWaitEnd::Connected);
            assert(events[i] == shorter[i]);
        }
    }
}

/// A node whose metrics server started stops it before it ends by serving.
pub proof fn the_metrics_server_is_stopped(r: NodeRun, e: RunEvent)
    requires
        run_event_fits(r.step, e),
        r.step is Serve,
        r.metrics_up,
    ensures
        run_next(r, e).1 is None,
        run_next(r, e).0.step == (RunStep::StopMetricsServer { ok: !(e is Failed) }),
{
}

/// Whether the configuration asks for a step, of those that it decides; the other
/// steps before the serving are always asked for.
pub open spec fn asked_for(s: RunSettings, step: RunStep) -> bool {
    match step {
        RunStep::StartMetricsServer => s.plan.metrics,
        RunStep::PruneSelfPeers => s.public_url,
        RunStep::StartP2p => s.plan.p2p,
        RunStep::OpenTigris => s.plan.tigris,
        RunStep::StartSync => s.plan.sync,
        RunStep::BuildOperator => s.plan.operator,
        _ => true,
    }
}

/// Whether a step is done for what came of an earlier one.
pub open spec fn depends_on_another(step: RunStep) -> bool {
    ||| step is AbortDegradedServer
    ||| step is PublishDid
    ||| step is CheckOperator
    ||| step is StartHeartbeat
    ||| step is StopMetricsServer
    ||| step is Ended
}

/// Whether the run came to the step, and what came of it there.
pub open spec fn came_to(
    settings: RunSettings,
    events: Seq<RunEvent>,
    k: int,
    step: RunStep,
) -> bool {
    0 <= k < events.len() && run_after(settings, events.take(k)).0.step == step
}

proof fn taking_less(events: Seq<RunEvent>, k: int)
    requires
        0 <= k < events.len(),
    ensures
        events.drop_last().take(k) == events.take(k),
        events.take(events.len() - 1) == events.drop_last(),
{
    assert(events.drop_last().take(k) =~= events.take(k));
    assert(events.take(events.len() - 1) =~= events.drop_last());
}

proof fn nothing_asked_for_is_between(r: NodeRun, e: RunEvent, step: RunStep)
    requires
        run_event_fits(r.step, e),
        run_next(r, e).1 is None,
        place(r.step) < place(step) < place(run_next(r, e).0.step),
    ensures
        !asked_for(r.settings, step) || depends_on_another(step),
{
}

proof fn settings_stay(settings: RunSettings, events: Seq<RunEvent>)
    requires
        is_run(settings, events),
    ensures
        run_after(settings, events).0.settings == settings,
        run_after(settings, events).0.step is Ended <==> run_after(settings, events).1 is Some,
    decreases events.len(),
{
    if events.len() > 0 {
        settings_stay(settings, events.drop_last());
        steps_go_forward(run_after(settings, events.drop_last()).0, events.last());
    }
}

/// Every part that is asked for is started: a run that has not ended has come to
/// every step before the one at which it stands, of those that its configuration
/// asks for.
pub proof fn every_part_is_started(settings: RunSettings, events: Seq<RunEvent>, step: RunStep)
    requires
        is_run(settings, events),
        run_after(settings, events).1 is None,
        place(step) < place(run_after(settings, events).0.step),
        asked_for(settings, step),
        !depends_on_another(step),
    ensures
        exists|k: int| came_to(settings, events, k, step),
    decreases events.len(),
{
    settings_stay(settings, events);
    if events.len() > 0 {
        let shorter = events.drop_last();
        let before = run_after(settings, shorter).0;
        let last = events.len() - 1;
        taking_less(events, last);
        settings_stay(settings, shorter);
        if place(step) < place(before.step) {
            every_part_is_started(settings, shorter, step);
            let k = choose|k: int| came_to(settings, shorter, k, step);
            taking_less(events, k);
            assert(came_to(settings, events, k, step));
        } else if place(step) == place(before.step) {
            assert(before.step == step);
            assert(came_to(settings, events, last, step));
        } else {
            nothing_asked_for_is_between(before, events.last(), step);
        }
    }
}

/// No part is started that is not asked for.
pub proof fn only_what_is_asked_for_is_started(settings: RunSettings, events: Seq<RunEvent>)
    requires
        is_run(settings, events),
    ensures
        asked_for(settings, run_after(settings, events).0.step),
    decreases events.len(),
{
    if events.len() > 0 {
        only_what_is_asked_for_is_started(settings, events.drop_last());
        settings_stay(settings, events.drop_last());
    }
}

/// What comes of the network and of the metrics server is remembered: each is up
/// once its step went well, and stays as its step left it.
pub proof fn what_is_up_was_started(r: NodeRun, e: RunEvent)
    requires
        run_event_fits(r.step, e),
    ensures
        run_next(r, e).0.p2p_up == (if r.step is StartP2p { e is Done } else { r.p2p_up }),
        run_next(r, e).0.metrics_up == (if r.step is StartMetricsServer {
            e is Done
        } else {
            r.metrics_up
        }),
{
}

/// The node tells the network where it is exactly if the network is up; and it
/// checks the contract only once it has a client for it, and sends heartbeats only
/// once the check went well.
pub proof fn what_depends_on_another_step(r: NodeRun, e: RunEvent)
    requires
        run_event_fits(r.step, e),
        run_next(r, e).1 is None,
    ensures
        r.step is TakeOverListener ==> (run_next(r, e).0.step is PublishDid <==> r.p2p_up),
        run_next(r, e).0.step is PublishDid ==> r.step is TakeOverListener,
        run_next(r, e).0.step is CheckOperator <==> r.step is BuildOperator && !(e is Failed),
        run_next(r, e).0.step is StartHeartbeat <==> r.step is CheckOperator && !(e is Failed),
        run_next(r, e).0.step is AbortDegradedServer <==> e == RunEvent::Waited(
            DbWaitEnd::GivenUp,
        ),
        run_next(r, e).0.step is DrainDegradedServer <==> e == RunEvent::Waited(
            DbWaitEnd::Connected,
        ),
{
}

/// How a run ends. Without the identity, the address, the directory of the
/// repositories, the client or the listener it ends with an error that names the
/// step. Told to end while it waits for the database, it ends without an error;
/// where the server that answers meanwhile ends by itself, with that as the error.
/// In strict mode a failure with the contract ends it. Else it ends with the
/// result of the serving, whether or not a metrics server is to be stopped first.
pub proof fn how_runs_end(r: NodeRun, e: RunEvent)
    requires
        run_event_fits(r.step, e),
    ensures
        run_next(r, e).1 == (match r.step {
            RunStep::LoadIdentity | RunStep::BindHttp | RunStep::CreateReposDir
            | RunStep::BuildHttpClient | RunStep::TakeOverListener => if e is Failed {
                Some(RunEnd::Failed(r.step))
            } else {
                None
            },
            RunStep::AwaitDatabase => match e {
                RunEvent::Waited(DbWaitEnd::Degraded { end, shutting_down }) => Some(
                    if shutting_down {
                        RunEnd::Clean
                    } else {
                        RunEnd::DegradedServer(end)
                    },
                ),
                _ => None,
            },
            RunStep::AbortDegradedServer => Some(RunEnd::Clean),
            RunStep::BuildOperator => if e is Failed && r.settings.operator_strict_mode {
                Some(RunEnd::Operator(OperatorStep::NoClient))
            } else {
                None
            },
            RunStep::CheckOperator => if e is Failed && r.settings.operator_strict_mode {
                Some(RunEnd::Operator(OperatorStep::CheckFailed))
            } else {
                None
            },
            RunStep::Serve => if r.metrics_up {
                None
            } else if e is Failed {
                Some(RunEnd::Failed(RunStep::Serve))
            } else {
                Some(RunEnd::Clean)
            },
            RunStep::StopMetricsServer { ok } => Some(
                if ok {
                    RunEnd::Clean
                } else {
                    RunEnd::Failed(RunStep::Serve)
                },
            ),
            _ => None,
        }),
        r.step is Serve && r.metrics_up ==> (forall|later: RunEvent|
            run_next(#[trigger] run_next(r, e).0, later).1 == Some(
                if e is Failed {
                    RunEnd::Failed(RunStep::Serve)
                } else {
                    RunEnd::Clean
                },
            )),
        !r.settings.operator_strict_mode && e is Failed && (r.step is BuildOperator || r.step
            is CheckOperator) ==> run_next(r, e).0.step is Serve,
        r.step is StartHeartbeat ==> run_next(r, e).0.step is Serve,
{
}

/// A run begins with the identity, and with nothing up.
pub proof fn runs_begin(settings: RunSettings)
    ensures
        run_start(settings).step is LoadIdentity,
        !run_start(settings).metrics_up,
        !run_start(settings).p2p_up,
        run_start(settings).settings == settings,
{
}

} // verus!
