//! What the node sends and receives over the network.

use vstd::prelude::*;

verus! {

/// A reference of a repository has moved.
#[derive(Debug, Clone)]
pub struct RefUpdateEvent {
    /// DID of the node that announces the update.
    pub node_did: String,
    /// DID of the agent who pushed.
    pub pusher_did: String,
    /// The repository, as owner and name.
    pub repo: String,
    /// DID of the repository's owner; older nodes do not send it.
    pub owner_did: Option<String>,
    pub ref_name: String,
    /// The commit before the push.
    pub old_sha: String,
    /// The commit after the push.
    pub new_sha: String,
    pub timestamp: String,
    /// The certificate of the update, where there is one.
    pub cert_id: Option<String>,
    /// The IPFS content id of the commit, once it is pinned.
    pub cid: Option<String>,
}

/// Where a DID's node is.
#[derive(Debug, Clone)]
pub struct DidRecord {
    pub did: String,
    pub http_url: String,
    pub peer_id: String,
    pub p2p_port: u16,
    pub timestamp: String,
}

/// The state of the network layer.
#[derive(Debug, Clone)]
pub struct SwarmStatus {
    pub connected_peers: usize,
    pub gossipsub_mesh_peers: usize,
    pub gossipsub_all_peers: usize,
    pub listen_addrs: Vec<String>,
}

/// A reference update as it is stored when it has come in.
#[derive(Debug, Clone)]
pub struct ReceivedRefUpdate {
    pub id: String,
    pub node_did: String,
    pub pusher_did: String,
    pub repo: String,
    pub owner_did: Option<String>,
    pub ref_name: String,
    pub old_sha: String,
    pub new_sha: String,
    pub timestamp: String,
    pub cert_id: Option<String>,
    pub received_at: String,
    /// The peer that passed it on.
    pub from_peer: String,
}

/// A repository's reference to be fetched from another node.
#[derive(Debug, Clone)]
pub struct SyncRequest {
    pub repo: String,
    pub node_did: String,
    pub ref_name: String,
    pub new_sha: String,
    pub cid: Option<String>,
}

/// What to do with a reference update that has come in.
#[derive(Debug)]
pub struct GossipActions {
    pub store: ReceivedRefUpdate,
    pub sync: Option<SyncRequest>,
}

fn copy_option(s: &Option<String>) -> (r: Option<String>)
    ensures
        r == *s,
{
    match s {
        Some(t) => Some(t.clone()),
        None => None,
    }
}

/// Takes up a reference update that `from_peer` passed on: it is stored under
/// `id`, and, where the node follows others, its reference is to be fetched.
pub fn receive_ref_update(
    event: &RefUpdateEvent,
    id: String,
    received_at: String,
    from_peer: String,
    auto_sync: bool,
) -> (r: GossipActions)
    ensures
        r.store == (ReceivedRefUpdate {
            id,
            node_did: event.node_did,
            pusher_did: event.pusher_did,
            repo: event.repo,
            owner_did: event.owner_did,
            ref_name: event.ref_name,
            old_sha: event.old_sha,
            new_sha: event.new_sha,
            timestamp: event.timestamp,
            cert_id: event.cert_id,
            received_at,
            from_peer,
        }),
        r.sync == (if auto_sync {
            Some(
                SyncRequest {
                    repo: event.repo,
                    node_did: event.node_did,
                    ref_name: event.ref_name,
                    new_sha: event.new_sha,
                    cid: event.cid,
                },
            )
        } else {
            None
        }),
        r.store == stored_update(*event, id, received_at, from_peer),
        r.sync == sync_request(*event, auto_sync),
{
    let store = ReceivedRefUpdate {
        id,
        node_did: event.node_did.clone(),
        pusher_did: event.pusher_did.clone(),
        repo: event.repo.clone(),
        owner_did: copy_option(&event.owner_did),
        ref_name: event.ref_name.clone(),
        old_sha: event.old_sha.clone(),
        new_sha: event.new_sha.clone(),
        timestamp: event.timestamp.clone(),
        cert_id: copy_option(&event.cert_id),
        received_at,
        from_peer,
    };
    let sync = if auto_sync {
        Some(
            SyncRequest {
                repo: event.repo.clone(),
                node_did: event.node_did.clone(),
                ref_name: event.ref_name.clone(),
                new_sha: event.new_sha.clone(),
                cid: copy_option(&event.cid),
            },
        )
    } else {
        None
    };
    GossipActions { store, sync }
}

/// What is stored of an update that has come in.
pub open spec fn stored_update(
    event: RefUpdateEvent,
    id: String,
    received_at: String,
    from_peer: String,
) -> ReceivedRefUpdate {
    ReceivedRefUpdate {
        id,
        node_did: event.node_did,
        pusher_did: event.pusher_did,
        repo: event.repo,
        owner_did: event.owner_did,
        ref_name: event.ref_name,
        old_sha: event.old_sha,
        new_sha: event.new_sha,
        timestamp: event.timestamp,
        cert_id: event.cert_id,
        received_at,
        from_peer,
    }
}

/// What is to be fetched for an update that has come in.
pub open spec fn sync_request(event: RefUpdateEvent, auto_sync: bool) -> Option<SyncRequest> {
    if auto_sync {
        Some(
            SyncRequest {
                repo: event.repo,
                node_did: event.node_did,
                ref_name: event.ref_name,
                new_sha: event.new_sha,
                cid: event.cid,
            },
        )
    } else {
        None
    }
}

/// Nothing of an update is lost or mixed up when it is stored: two updates that
/// are stored alike, under one id at one time from one peer, say the same of the
/// repository, the reference, the commits before and after, the people, the
/// certificate and the time; and the store tells each of them, and where the
/// update came from.
pub proof fn stored_updates_tell_what_came_in(
    a: RefUpdateEvent,
    b: RefUpdateEvent,
    id: String,
    received_at: String,
    from_peer: String,
)
    ensures
        ({
            let s = stored_update(a, id, received_at, from_peer);
            &&& s.id == id && s.received_at == received_at && s.from_peer == from_peer
            &&& s.old_sha == a.old_sha && s.new_sha == a.new_sha && s.ref_name == a.ref_name
            &&& s.repo == a.repo && s.node_did == a.node_did && s.pusher_did == a.pusher_did
            &&& s.owner_did == a.owner_did && s.cert_id == a.cert_id && s.timestamp == a.timestamp
        }),
        stored_update(a, id, received_at, from_peer) == stored_update(
            b,
            id,
            received_at,
            from_peer,
        ) ==> (RefUpdateEvent { cid: b.cid, ..a }) == b,
{
}

/// A node that follows others fetches the reference at the commit after the push,
/// from the node that announced it; one that does not fetches nothing.
pub proof fn followers_fetch_the_new_commit(event: RefUpdateEvent)
    ensures
        sync_request(event, false) is None,
        sync_request(event, true) matches Some(s) && s.repo == event.repo && s.node_did
            == event.node_did && s.ref_name == event.ref_name && s.new_sha == event.new_sha && s.cid
            == event.cid,
{
}

} // verus!
