//! Telling other nodes of this one, and looking after the known ones.

use vstd::prelude::*;

use crate::json::{json_field, json_string, json_string_of, json_text_field};
use crate::text::{concat2, concat3, trim_end, trim_end_of};

verus! {

/// The path at which a node takes announcements.
pub const ANNOUNCE_PATH: &'static str = "/api/v1/peers/announce";

/// The path at which a node says that it is alive.
pub const HEALTH_PATH: &'static str = "/health";

/// The delay before the first announcement, in seconds.
pub const GOSSIP_DELAY_SECS: u64 = 2;

/// The time that one announcement may take, in seconds.
pub const ANNOUNCE_TIMEOUT_SECS: u64 = 5;

/// The time between two rounds of pings, in seconds.
pub const PING_INTERVAL_SECS: u64 = 300;

/// Where to announce this node to the peer: its URL without slashes at the end,
/// and the path.
pub fn announce_url(peer_url: &str) -> (r: String)
    ensures
        r@ == trim_end(peer_url@, '/') + ANNOUNCE_PATH@,
{
    concat2(trim_end_of(peer_url, '/').as_str(), ANNOUNCE_PATH)
}

/// Where to ask whether the peer is alive.
pub fn health_url(peer_url: &str) -> (r: String)
    ensures
        r@ == trim_end(peer_url@, '/') + HEALTH_PATH@,
{
    concat2(trim_end_of(peer_url, '/').as_str(), HEALTH_PATH)
}

/// A trimmed URL does not end in a slash.
pub proof fn urls_have_one_slash(url: Seq<char>)
    ensures
        trim_end(url, '/').len() > 0 ==> trim_end(url, '/').last() != '/',
    decreases url.len(),
{
    if url.len() > 0 && url.last() == '/' {
        urls_have_one_slash(url.drop_last());
    }
}

/// The announcement of this node: a JSON object with its DID and its URL.
pub fn announce_body(my_did: &str, my_url: &str) -> (r: String)
    ensures
        r@ == "{\"did\":"@ + json_string_of(my_did@) + ",\"http_url\":"@ + json_string_of(
            my_url@,
        ) + "}"@,
{
    let head = concat3("{\"did\":", json_string(my_did).as_str(), ",\"http_url\":");
    concat3(head.as_str(), json_string(my_url).as_str(), "}")
}

/// What a node answered to an announcement.
#[derive(Debug)]
pub struct AnnounceReply {
    /// Whether it accepted.
    pub success: bool,
    /// Its DID, where the answer holds one.
    pub node_did: Option<String>,
    /// Its URL, where the answer holds one.
    pub node_url: Option<String>,
}

/// Whether an answer names a node to add: it was accepted, and gives a DID and
/// a URL that is not empty.
pub open spec fn names_a_peer(reply: AnnounceReply) -> bool {
    reply.success && reply.node_did is Some && reply.node_url is Some && reply.node_url->0@.len()
        > 0
}

/// The DID and the URL of the node to add after an announcement.
pub fn peer_to_add(reply: AnnounceReply) -> (r: Option<(String, String)>)
    ensures
        r is Some == names_a_peer(reply),
        r matches Some((did, url)) ==> did == reply.node_did->0 && url == reply.node_url->0,
{
    if !reply.success {
        return None;
    }
    match (reply.node_did, reply.node_url) {
        (Some(did), Some(url)) => if url.as_str().is_empty() {
            None
        } else {
            Some((did, url))
        },
        _ => None,
    }
}

/// Reads the answer to an announcement: its status, and what its body tells of
/// the node.
pub fn read_announce_reply(success: bool, body: &Vec<u8>) -> (r: AnnounceReply)
    ensures
        r.success == success,
        r.node_did is Some == json_text_field(body@, "node_did"@) is Some,
        r.node_did is Some ==> r.node_did->0@ == json_text_field(body@, "node_did"@)->0,
        r.node_url is Some == json_text_field(body@, "node_url"@) is Some,
        r.node_url is Some ==> r.node_url->0@ == json_text_field(body@, "node_url"@)->0,
{
    AnnounceReply {
        success,
        node_did: json_field(body, "node_did"),
        node_url: json_field(body, "node_url"),
    }
}

/// Whether a peer is alive: it answered, with a status of success.
pub fn is_alive(status: Option<u16>) -> (r: bool)
    ensures
        r == (status matches Some(code) && 200 <= code < 300),
{
    match status {
        Some(code) => 200 <= code && code < 300,
        None => false,
    }
}

/// Where the gossip stands: what it waits for.
#[derive(Clone, Copy, PartialEq, Eq, Structural, Debug)]
pub enum GossipPhase {
    /// The delay at the start, or a change of the shutdown signal.
    Delay,
    /// Whether the node is to end, before the announcement to this peer.
    CheckStop { at: usize },
    /// The announcement to this peer.
    Announce { at: usize },
    /// The next round of pings, or a change of the shutdown signal.
    Wait,
    /// The list of known peers.
    ListPeers,
    /// The ping of this known peer.
    Ping { at: usize },
    /// The recording of its result.
    Mark { at: usize, ok: bool },
    Ended,
}

/// What happened.
#[derive(Clone, Copy, PartialEq, Eq, Structural, Debug)]
pub enum GossipEvent {
    DelayOver,
    /// The shutdown signal changed to this.
    SignalChanged(bool),
    /// Whether the node is to end.
    Stop(bool),
    /// The announcement is over, in whatever way.
    Announced,
    Tick,
    /// The number of known peers; `None` where they could not be listed.
    Peers(Option<usize>),
    /// Whether the peer is alive.
    Pinged(bool),
    Marked,
}

/// The gossip.
#[derive(Clone, Copy, PartialEq, Eq, Structural, Debug)]
pub struct Gossip {
    pub phase: GossipPhase,
    /// The peers to announce the node to.
    pub bootstrap: usize,
    /// The known peers of this round.
    pub known: usize,
}

/// On to the announcement to this peer; behind the last one, wait.
pub open spec fn announce_from(g: Gossip, at: int) -> Gossip {
    if at < g.bootstrap {
        Gossip { phase: GossipPhase::CheckStop { at: at as usize }, ..g }
    } else {
        Gossip { phase: GossipPhase::Wait, ..g }
    }
}

/// On to the ping of this peer; behind the last one, wait.
pub open spec fn ping_from(g: Gossip, at: int) -> Gossip {
    if at < g.known {
        Gossip { phase: GossipPhase::Ping { at: at as usize }, ..g }
    } else {
        Gossip { phase: GossipPhase::Wait, ..g }
    }
}

/// Whether an event answers what the phase waits for.
pub open spec fn gossip_event_fits(p: GossipPhase, e: GossipEvent) -> bool {
    match p {
        GossipPhase::Delay => e is DelayOver || e is SignalChanged,
        GossipPhase::CheckStop { .. } => e is Stop,
        GossipPhase::Announce { .. } => e is Announced,
        GossipPhase::Wait => e is Tick || e is SignalChanged,
        GossipPhase::ListPeers => e is Peers,
        GossipPhase::Ping { .. } => e is Pinged,
        GossipPhase::Mark { .. } => e is Marked,
        GossipPhase::Ended => false,
    }
}

/// What an event leads to.
pub open spec fn gossip_next(g: Gossip, e: GossipEvent) -> Gossip {
    let ended = Gossip { phase: GossipPhase::Ended, ..g };
    match g.phase {
        GossipPhase::Delay => if e == GossipEvent::SignalChanged(true) {
            ended
        } else {
            announce_from(g, 0)
        },
        GossipPhase::CheckStop { at } => if e == GossipEvent::Stop(true) {
            ended
        } else {
            Gossip { phase: GossipPhase::Announce { at }, ..g }
        },
        GossipPhase::Announce { at } => announce_from(g, at + 1),
        GossipPhase::Wait => if e == GossipEvent::SignalChanged(true) {
            ended
        } else if e is Tick {
            Gossip { phase: GossipPhase::ListPeers, ..g }
        } else {
            g
        },
        GossipPhase::ListPeers => match e {
            GossipEvent::Peers(Some(n)) => ping_from(Gossip { known: n, ..g }, 0),
            _ => Gossip { phase: GossipPhase::Wait, ..g },
        },
        GossipPhase::Ping { at } => match e {
            GossipEvent::Pinged(ok) => Gossip { phase: GossipPhase::Mark { at, ok }, ..g },
            _ => g,
        },
        GossipPhase::Mark { at, .. } => ping_from(g, at + 1),
        GossipPhase::Ended => g,
    }
}

impl Gossip {
    /// Whether the peer it stands at exists.
    pub open spec fn wf(self) -> bool {
        match self.phase {
            GossipPhase::CheckStop { at } => at < self.bootstrap,
            GossipPhase::Announce { at } => at < self.bootstrap,
            GossipPhase::Ping { at } => at < self.known,
            GossipPhase::Mark { at, .. } => at < self.known,
            _ => true,
        }
    }

    /// Begins the gossip with so many peers to announce the node to.
    pub fn gossip_task(bootstrap: usize) -> (r: Self)
        ensures
            r == (Gossip { phase: GossipPhase::Delay, bootstrap, known: 0 }),
            r.wf(),
    {
        Gossip { phase: GossipPhase::Delay, bootstrap, known: 0 }
    }

    fn announce_from(&mut self, at: usize)
        ensures
            *final(self) == announce_from(*old(self), at as int),
            final(self).wf(),
    {
        if at < self.bootstrap {
            self.phase = GossipPhase::CheckStop { at };
        } else {
            self.phase = GossipPhase::Wait;
        }
    }

    fn ping_from(&mut self, at: usize)
        ensures
            *final(self) == ping_from(*old(self), at as int),
            final(self).wf(),
    {
        if at < self.known {
            self.phase = GossipPhase::Ping { at };
        } else {
            self.phase = GossipPhase::Wait;
        }
    }

    /// Takes an event.
    pub fn step(&mut self, e: GossipEvent)
        requires
            old(self).wf(),
            gossip_event_fits(old(self).phase, e),
        ensures
            *final(self) == gossip_next(*old(self), e),
            final(self).wf(),
    {
        match self.phase {
            GossipPhase::Delay => {
                if e == GossipEvent::SignalChanged(true) {
                    self.phase = GossipPhase::Ended;
                } else {
                    self.announce_from(0);
                }
            },
            GossipPhase::CheckStop { at } => {
                if e == GossipEvent::Stop(true) {
                    self.phase = GossipPhase::Ended;
                } else {
                    self.phase = GossipPhase::Announce { at };
                }
            },
            GossipPhase::Announce { at } => {
                self.announce_from(at + 1);
            },
            GossipPhase::Wait => {
                if e == GossipEvent::SignalChanged(true) {
                    self.phase = GossipPhase::Ended;
                } else if e == GossipEvent::Tick {
                    self.phase = GossipPhase::ListPeers;
                }
            },
            GossipPhase::ListPeers => match e {
                GossipEvent::Peers(Some(n)) => {
                    self.known = n;
                    self.ping_from(0);
                },
                _ => {
                    self.phase = GossipPhase::Wait;
                },
            },
            GossipPhase::Ping { at } => match e {
                GossipEvent::Pinged(ok) => {
                    self.phase = GossipPhase::Mark { at, ok };
                },
                _ => {},
            },
            GossipPhase::Mark { at, .. } => {
                self.ping_from(at + 1);
            },
            GossipPhase::Ended => {},
        }
    }
}

/// A node that was told to end announces itself to nobody more: an announcement
/// is made only right after the signal was seen not to be set.
pub proof fn announcements_respect_the_signal(g: Gossip, e: GossipEvent, at: usize)
    requires
        gossip_event_fits(g.phase, e),
        gossip_next(g, e).phase == (GossipPhase::Announce { at }),
    ensures
        g.phase == (GossipPhase::CheckStop { at }),
        e == GossipEvent::Stop(false),
{
}

/// Every known peer's result is recorded for that peer: a recording follows the
/// ping of the same peer and holds its result.
pub proof fn results_belong_to_their_peer(g: Gossip, e: GossipEvent, at: usize, ok: bool)
    requires
        gossip_event_fits(g.phase, e),
        gossip_next(g, e).phase == (GossipPhase::Mark { at, ok }),
    ensures
        g.phase == (GossipPhase::Ping { at }),
        e == GossipEvent::Pinged(ok),
{
}

/// Where a run of events leads.
pub open spec fn gossip_after(g: Gossip, events: Seq<GossipEvent>) -> Gossip
    decreases events.len(),
{
    if events.len() == 0 {
        g
    } else {
        gossip_next(gossip_after(g, events.drop_last()), events.last())
    }
}

/// Whether every event of a run answers what was waited for.
pub open spec fn gossip_run(g: Gossip, events: Seq<GossipEvent>) -> bool
    decreases events.len(),
{
    events.len() > 0 ==> {
        &&& gossip_run(g, events.drop_last())
        &&& gossip_event_fits(gossip_after(g, events.drop_last()).phase, events.last())
    }
}

/// A round reaches every known peer, in order: from the listing of `n` peers on,
/// the run pings the first and records its result, pings the second, and so on up
/// to the last, and only then waits for the next round.
pub proof fn a_round_reaches_every_peer(g: Gossip, n: usize, events: Seq<GossipEvent>)
    requires
        g.phase is ListPeers,
        0 < events.len() <= 2 * n + 1,
        events[0] == GossipEvent::Peers(Some(n)),
        gossip_run(g, events),
    ensures
        ({
            let after = gossip_after(g, events);
            let i = (events.len() - 1) / 2;
            &&& after.known == n
            &&& after.bootstrap == g.bootstrap
            &&& events.len() == 2 * n + 1 ==> after.phase is Wait
            &&& events.len() < 2 * n + 1 && events.len() % 2 == 1 ==> (after.phase
                matches GossipPhase::Ping { at } && at == i)
            &&& events.len() % 2 == 0 ==> (after.phase matches GossipPhase::Mark { at, ok } && at == i
                && events.last() == GossipEvent::Pinged(ok))
        }),
    decreases events.len(),
{
    let before = events.drop_last();
    if events.len() == 1 {
        assert(before =~= Seq::<GossipEvent>::empty());
        assert(gossip_after(g, before) == g);
    } else {
        assert(before[0] == events[0]);
        a_round_reaches_every_peer(g, n, before);
    }
}

/// The node announces itself to every peer that it was started with, in order:
/// once the delay is over, the run asks whether to end and then announces to the
/// first, asks again and announces to the second, and so on up to the last, and
/// then waits for the rounds of pings. Told to end, it announces no more.
pub proof fn every_bootstrap_peer_is_announced_to(g: Gossip, events: Seq<GossipEvent>)
    requires
        g.phase is Delay,
        0 < events.len() <= 2 * g.bootstrap + 1,
        gossip_run(g, events),
    ensures
        ({
            let after = gossip_after(g, events);
            let i = (events.len() - 1) / 2;
            let told = events[0] == GossipEvent::SignalChanged(true) || events.last()
                == GossipEvent::Stop(true);
            &&& after.bootstrap == g.bootstrap
            &&& told <==> after.phase is Ended
            &&& !told && events.len() == 2 * g.bootstrap + 1 ==> after.phase is Wait
            &&& !told && events.len() < 2 * g.bootstrap + 1 && events.len() % 2 == 1 ==> (after.phase
                matches GossipPhase::CheckStop { at } && at == i)
            &&& !told && events.len() % 2 == 0 ==> (after.phase
                matches GossipPhase::Announce { at } && at == i)
        }),
    decreases events.len(),
{
    let before = events.drop_last();
    if events.len() == 1 {
        assert(before =~= Seq::<GossipEvent>::empty());
        assert(gossip_after(g, before) == g);
    } else {
        assert(before[0] == events[0]);
        every_bootstrap_peer_is_announced_to(g, before);
    }
}

/// Between two rounds the gossip waits: a tick begins the next round, the signal
/// to end ends it, and any other change of the signal does neither. A round whose
/// peers cannot be listed is left out.
pub proof fn rounds_go_on_until_the_signal(g: Gossip, e: GossipEvent)
    requires
        gossip_event_fits(g.phase, e),
    ensures
        g.phase is Wait && e is Tick ==> gossip_next(g, e).phase is ListPeers,
        g.phase is Wait && e == GossipEvent::SignalChanged(false) ==> gossip_next(g, e).phase
            is Wait,
        g.phase is ListPeers && e == GossipEvent::Peers(None) ==> gossip_next(g, e).phase is Wait,
        gossip_next(g, e).phase is Ended <==> e == GossipEvent::SignalChanged(true) || e
            == GossipEvent::Stop(true),
{
}

/// What led to each phase of the gossip. The announcements begin with the first
/// peer, ask before each whether the node is to end, and go on with the next. A round
/// lists the known peers and begins with the first of them; each is pinged, marked
/// with what the ping told, and followed by the next. The end comes only by the
/// signal.
pub proof fn what_leads_through_the_gossip(g: Gossip, e: GossipEvent)
    requires
        g.wf(),
        gossip_event_fits(g.phase, e),
    ensures
        ({
            let h = gossip_next(g, e);
            let announced = match g.phase {
                GossipPhase::Delay => Some(-1int),
                GossipPhase::Announce { at } => Some(at as int),
                _ => None,
            };
            let marked = match g.phase {
                GossipPhase::ListPeers => Some(-1int),
                GossipPhase::Mark { at, .. } => Some(at as int),
                _ => None,
            };
            &&& h.bootstrap == g.bootstrap
            &&& h.known == (match e {
                GossipEvent::Peers(Some(n)) => n,
                _ => g.known,
            })
            &&& match h.phase {
                GossipPhase::Delay => false,
                GossipPhase::CheckStop { at } => announced == Some(at - 1) && at < h.bootstrap && e
                    != GossipEvent::SignalChanged(true),
                GossipPhase::Announce { at } => g.phase == (GossipPhase::CheckStop { at }) && e
                    == GossipEvent::Stop(false),
                GossipPhase::Wait => {
                    ||| (announced matches Some(at) && at + 1 >= h.bootstrap) && e
                        != GossipEvent::SignalChanged(true)
                    ||| (marked matches Some(at) && at + 1 >= h.known)
                    ||| g.phase is ListPeers && e == GossipEvent::Peers(None)
                    ||| g.phase is Wait && e == GossipEvent::SignalChanged(false)
                },
                GossipPhase::ListPeers => g.phase is Wait && e is Tick,
                GossipPhase::Ping { at } => marked == Some(at - 1) && at < h.known && e
                    != GossipEvent::Peers(None),
                GossipPhase::Mark { at, ok } => g.phase == (GossipPhase::Ping { at }) && e
                    == GossipEvent::Pinged(ok),
                GossipPhase::Ended => e == GossipEvent::SignalChanged(true) || e
                    == GossipEvent::Stop(true),
            }
        }),
{
}

/// The delays and times of the gossip, and the paths that it asks for.
pub proof fn gossip_in_numbers()
    ensures
        GOSSIP_DELAY_SECS == 2,
        ANNOUNCE_TIMEOUT_SECS == 5,
        PING_INTERVAL_SECS == 5 * 60,
        ANNOUNCE_PATH@ == "/api/v1/peers/announce"@,
        HEALTH_PATH@ == "/health"@,
{
}

/// A node is added after an announcement exactly if it accepted and told both its DID
/// and a URL; an empty URL is none.
pub proof fn nodes_that_accept_and_tell_who_they_are_are_added(reply: AnnounceReply)
    ensures
        !reply.success ==> !names_a_peer(reply),
        reply.node_did is None ==> !names_a_peer(reply),
        reply.node_url is None ==> !names_a_peer(reply),
        reply.node_url matches Some(url) ==> url@.len() == 0 ==> !names_a_peer(reply),
        reply.success && reply.node_did is Some ==> (reply.node_url matches Some(url) ==> url@.len()
            > 0 ==> names_a_peer(reply)),
{
}

} // verus!
