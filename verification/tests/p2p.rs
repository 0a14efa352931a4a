use gitlawb_node::p2p::address_book::{
    canonical_report, IdentifyAddressBook, IdentifyAddressChanges, IDENTIFY_ADDRESS_LIMIT,
    IDENTIFY_ADDRESS_TTL, IDENTIFY_ADDRESS_WINDOW, IDENTIFY_GLOBAL_ADDRESS_LIMIT,
    IDENTIFY_NEW_ADDRESS_LIMIT, IDENTIFY_REPORT_ADDRESS_LIMIT,
};
use gitlawb_node::p2p::keys::{
    bootstrap_addresses, did_to_kad_key, listen_addresses, local_peer_id, message_id,
    message_id_of_hash,
};
use gitlawb_node::p2p::swarm::{is_explicit_address, ExplicitAddresses, SwarmCore};
use gitlawb_node::p2p::wire::{receive_ref_update, RefUpdateEvent};
use libp2p_core::{Multiaddr, PeerId};
use std::collections::hash_map::DefaultHasher;
use std::hash::{Hash, Hasher};

const NOW: u64 = 5_000_000_000;
const SECOND: u64 = 1_000_000_000;

fn new_peer() -> (PeerId, Vec<u8>) {
    let peer = PeerId::random();
    (peer, peer.to_bytes())
}

fn plain_address(octet: u8, port: u16) -> Multiaddr {
    format!("/ip4/192.0.2.{octet}/udp/{port}/quic-v1")
        .parse::<Multiaddr>()
        .unwrap()
}

fn identify_address(peer: &PeerId, octet: u8, port: u16) -> Vec<u8> {
    plain_address(octet, port).with_p2p(*peer).unwrap().to_vec()
}

fn nothing() -> IdentifyAddressChanges {
    IdentifyAddressChanges {
        added: Vec::new(),
        refreshed: Vec::new(),
        removed: Vec::new(),
    }
}

fn addresses_of(book: &IdentifyAddressBook, peer: &Vec<u8>) -> Vec<Vec<u8>> {
    match book.peers.iter().find(|row| row.peer == *peer) {
        Some(row) => row.addresses.iter().map(|a| a.address.clone()).collect(),
        None => Vec::new(),
    }
}

#[test]
fn identify_empty_reports_do_not_retain_peer_entries() {
    let mut book = IdentifyAddressBook::new();
    let foreign = identify_address(&PeerId::random(), 1, 10_000);
    for _ in 0..IDENTIFY_GLOBAL_ADDRESS_LIMIT + 1 {
        let (_, peer) = new_peer();
        assert_eq!(book.update(&peer, NOW, &vec![]), nothing());
        assert_eq!(book.update(&peer, NOW, &vec![foreign.clone()]), nothing());
    }
    assert!(book.peers.is_empty());
    assert_eq!(book.address_count, 0);
}

#[test]
fn identify_report_processing_stops_at_the_input_limit() {
    let (id, peer) = new_peer();
    let foreign = identify_address(&PeerId::random(), 1, 10_000);
    let accepted = identify_address(&id, 2, 10_001);
    let ignored = identify_address(&id, 3, 10_002);
    let mut report = vec![foreign; IDENTIFY_REPORT_ADDRESS_LIMIT - 1];
    report.push(accepted.clone());
    report.push(ignored);
    let mut book = IdentifyAddressBook::new();
    let changes = book.update(&peer, NOW, &report);
    assert_eq!(changes.added, vec![accepted]);
    assert!(changes.removed.is_empty());
    assert_eq!(book.address_count, 1);
}

#[test]
fn identify_addresses_grow_without_eviction_below_the_peer_cap() {
    let (id, peer) = new_peer();
    let first = identify_address(&id, 1, 10_000);
    let second = identify_address(&id, 2, 10_001);
    let mut book = IdentifyAddressBook::new();
    book.update(&peer, NOW, &vec![first]);
    let changes = book.update(&peer, NOW + IDENTIFY_ADDRESS_WINDOW, &vec![second.clone()]);
    assert_eq!(changes.added, vec![second]);
    assert!(changes.removed.is_empty());
    assert_eq!(addresses_of(&book, &peer).len(), 2);
    assert_eq!(book.address_count, 2);
}

#[test]
fn held_addresses_end_in_their_peer() {
    let mut book = IdentifyAddressBook::new();
    let peers = [new_peer(), new_peer()];
    for (i, (id, peer)) in peers.iter().enumerate() {
        let report = vec![
            plain_address(1, 10_000 + i as u16).to_vec(),
            identify_address(id, 2, 10_001),
            identify_address(&PeerId::random(), 3, 10_002),
        ];
        book.update(peer, NOW, &report);
    }
    book.expire(NOW + 1);
    for (id, peer) in &peers {
        let held = addresses_of(&book, peer);
        assert_eq!(held.len(), 2);
        for address in held {
            let address = Multiaddr::try_from(address).unwrap();
            assert_eq!(address.clone().with_p2p(*id), Ok(address));
        }
    }
}

#[test]
fn identify_global_budget_rejects_new_admissions() {
    let mut book = IdentifyAddressBook::new();
    let mut first = None;
    for index in 0..IDENTIFY_GLOBAL_ADDRESS_LIMIT {
        let (id, peer) = new_peer();
        let address = identify_address(&id, 1, 10_000 + index as u16);
        book.update(&peer, NOW, &vec![address.clone()]);
        if first.is_none() {
            first = Some((id, peer, address));
        }
    }
    let (id, peer, refreshed) = first.unwrap();
    let new_address = identify_address(&id, 2, 30_000);
    let changes = book.update(
        &peer,
        NOW + IDENTIFY_ADDRESS_WINDOW,
        &vec![new_address, refreshed.clone()],
    );
    assert!(changes.added.is_empty());
    assert!(changes.removed.is_empty());
    assert_eq!(changes.refreshed, vec![refreshed.clone()]);
    assert_eq!(book.peers.len(), IDENTIFY_GLOBAL_ADDRESS_LIMIT);
    assert_eq!(book.address_count, IDENTIFY_GLOBAL_ADDRESS_LIMIT);
    assert_eq!(addresses_of(&book, &peer), vec![refreshed]);
}

#[test]
fn identify_per_peer_eviction_applies_at_full_global_budget() {
    let mut book = IdentifyAddressBook::new();
    let (id, victim) = new_peer();
    let victim_addresses: Vec<Vec<u8>> = (0..IDENTIFY_ADDRESS_LIMIT)
        .map(|index| identify_address(&id, index as u8 + 1, 10_000 + index as u16))
        .collect();
    book.update(&victim, NOW, &victim_addresses);
    for index in 0..IDENTIFY_GLOBAL_ADDRESS_LIMIT - IDENTIFY_ADDRESS_LIMIT {
        let (other, peer) = new_peer();
        let address = identify_address(&other, 200, 20_000 + index as u16);
        book.update(&peer, NOW, &vec![address]);
    }
    assert_eq!(book.address_count, IDENTIFY_GLOBAL_ADDRESS_LIMIT);
    let ninth = identify_address(&id, 100, 30_000);
    let changes = book.update(&victim, NOW + IDENTIFY_ADDRESS_WINDOW, &vec![ninth.clone()]);
    assert_eq!(changes.added, vec![ninth]);
    assert_eq!(
        changes.removed,
        vec![(victim.clone(), victim_addresses[0].clone())]
    );
    assert_eq!(book.address_count, IDENTIFY_GLOBAL_ADDRESS_LIMIT);
    assert_eq!(addresses_of(&book, &victim).len(), IDENTIFY_ADDRESS_LIMIT);
}

#[test]
fn explicit_address_helper_detects_retained_addresses() {
    let (id, peer) = new_peer();
    let (_, other) = new_peer();
    let address = identify_address(&id, 1, 10_000);
    let mut explicit = ExplicitAddresses::new();
    assert!(!is_explicit_address(&explicit, &peer, &address));
    explicit.insert(&peer, &address);
    assert!(is_explicit_address(&explicit, &peer, &address));
    assert!(!is_explicit_address(&explicit, &other, &address));
    assert!(!is_explicit_address(
        &explicit,
        &peer,
        &identify_address(&id, 2, 10_001)
    ));
}

#[test]
fn identify_addresses_are_capped_with_fifo_eviction() {
    let (id, peer) = new_peer();
    let initial: Vec<Vec<u8>> = (0..IDENTIFY_ADDRESS_LIMIT)
        .map(|index| identify_address(&id, index as u8 + 1, 10_000 + index as u16))
        .collect();
    let replacement = identify_address(&id, 200, 20_000);
    let mut book = IdentifyAddressBook::new();
    let first = book.update(&peer, NOW, &initial);
    assert_eq!(first.added, initial);
    assert!(first.removed.is_empty());
    let second = book.update(
        &peer,
        NOW + IDENTIFY_ADDRESS_WINDOW,
        &vec![replacement.clone()],
    );
    assert_eq!(second.added, vec![replacement]);
    assert_eq!(second.removed, vec![(peer, initial[0].clone())]);
}

#[test]
fn identify_oversized_reports_keep_the_same_refreshed_subset() {
    let (id, peer) = new_peer();
    let mut report: Vec<Vec<u8>> = (0..IDENTIFY_ADDRESS_LIMIT + 2)
        .map(|index| identify_address(&id, index as u8 + 1, 10_000 + index as u16))
        .collect();
    let mut book = IdentifyAddressBook::new();
    let first = book.update(&peer, NOW, &report);
    assert_eq!(first.added.len(), IDENTIFY_ADDRESS_LIMIT);
    assert_eq!(first.removed.len(), 0);
    let retained = first.added.clone();
    report.reverse();
    let second = book.update(&peer, NOW + IDENTIFY_ADDRESS_WINDOW, &report);
    assert!(second.added.is_empty());
    assert!(second.removed.is_empty());
    assert_eq!(addresses_of(&book, &peer), retained);
}

#[test]
fn identify_addresses_rate_limit_new_entries_across_updates() {
    let (id, peer) = new_peer();
    let initial: Vec<Vec<u8>> = (0..IDENTIFY_NEW_ADDRESS_LIMIT)
        .map(|index| identify_address(&id, index as u8 + 1, 10_000 + index as u16))
        .collect();
    let replacement = identify_address(&id, 200, 20_000);
    let mut book = IdentifyAddressBook::new();
    assert_eq!(book.update(&peer, NOW, &initial).added, initial);
    assert!(book
        .update(&peer, NOW, &vec![replacement.clone()])
        .added
        .is_empty());
    assert_eq!(
        book.update(
            &peer,
            NOW + IDENTIFY_ADDRESS_WINDOW,
            &vec![replacement.clone()]
        )
        .added,
        vec![replacement]
    );
}

#[test]
fn identify_addresses_have_a_global_budget_across_peers() {
    let mut book = IdentifyAddressBook::new();
    let mut first = None;
    for index in 0..IDENTIFY_GLOBAL_ADDRESS_LIMIT {
        let (id, peer) = new_peer();
        let address = identify_address(&id, (index % 254) as u8 + 1, 10_000 + index as u16);
        if first.is_none() {
            first = Some((id, peer.clone(), address.clone()));
        }
        assert!(book.update(&peer, NOW, &vec![address]).removed.is_empty());
    }
    let (id, peer, first_address) = first.unwrap();
    let address = identify_address(&id, 250, 30_000);
    let changes = book.update(&peer, NOW + IDENTIFY_ADDRESS_WINDOW, &vec![address]);
    assert!(changes.added.is_empty());
    assert!(changes.removed.is_empty());
    assert_eq!(addresses_of(&book, &peer), vec![first_address]);
    assert_eq!(book.address_count, IDENTIFY_GLOBAL_ADDRESS_LIMIT);
}

#[test]
fn identify_addresses_refresh_and_expire() {
    let (id, peer) = new_peer();
    let address = identify_address(&id, 1, 10_000);
    let mut book = IdentifyAddressBook::new();
    assert_eq!(
        book.update(&peer, NOW, &vec![address.clone()]).added,
        vec![address.clone()]
    );
    let refreshed = NOW + IDENTIFY_ADDRESS_TTL - SECOND;
    let refresh = book.update(&peer, refreshed, &vec![address.clone()]);
    assert!(refresh.added.is_empty());
    assert!(refresh.removed.is_empty());
    assert_eq!(refresh.refreshed, vec![address.clone()]);
    assert!(book.expire(NOW + IDENTIFY_ADDRESS_TTL + SECOND).is_empty());
    assert_eq!(
        book.expire(refreshed + IDENTIFY_ADDRESS_TTL + SECOND),
        vec![(peer, address)]
    );
}

#[test]
fn identify_addresses_reject_foreign_peer_suffixes() {
    let (_, peer) = new_peer();
    let address = identify_address(&PeerId::random(), 1, 10_000);
    let mut book = IdentifyAddressBook::new();
    assert!(book.update(&peer, NOW, &vec![address]).added.is_empty());
}

#[test]
fn identify_addresses_canonicalize_the_peer_suffix_once() {
    let (id, peer) = new_peer();
    let raw = plain_address(1, 10_000).to_vec();
    let canonical = identify_address(&id, 1, 10_000);
    let mut book = IdentifyAddressBook::new();
    assert_eq!(
        book.update(&peer, NOW, &vec![raw.clone()]).added,
        vec![canonical.clone()]
    );
    assert_ne!(raw, canonical);
    assert_eq!(
        canonical_report(&peer, &vec![canonical.clone(), vec![0xff, 0xff]]),
        vec![canonical],
        "an address that has the suffix keeps it, and bytes that are no address go"
    );
}

#[test]
fn reports_in_any_order_are_taken_up_alike() {
    let (id, peer) = new_peer();
    let a = identify_address(&id, 1, 10_000);
    let b = identify_address(&id, 2, 10_000);
    let mut one = IdentifyAddressBook::new();
    let mut two = IdentifyAddressBook::new();
    assert_eq!(
        one.update(&peer, NOW, &vec![a.clone(), b.clone(), a.clone()]),
        two.update(&peer, NOW, &vec![b, a])
    );
}

#[test]
fn expiring_one_peer_leaves_the_others() {
    let (id_a, a) = new_peer();
    let (id_b, b) = new_peer();
    let mut book = IdentifyAddressBook::new();
    let of_a = identify_address(&id_a, 1, 1);
    book.update(&a, NOW, &vec![of_a.clone()]);
    book.update(&b, NOW, &vec![identify_address(&id_b, 2, 2)]);
    assert_eq!(
        book.expire_peer(&a, NOW + IDENTIFY_ADDRESS_TTL),
        vec![(a.clone(), of_a)]
    );
    assert_eq!(addresses_of(&book, &b).len(), 1);
    assert!(addresses_of(&book, &a).is_empty());
}

#[test]
fn configured_addresses_stay_in_the_routing_table() {
    let (id, peer) = new_peer();
    let mut core = SwarmCore::new();
    let raw = plain_address(1, 10_000).to_vec();
    let suffixed = identify_address(&id, 1, 10_000);
    assert_eq!(core.add_known_peer(&peer, &raw), Some(suffixed.clone()));
    let changes = core.identified(&peer, NOW, &vec![raw.clone()]);
    assert_eq!(changes.add, vec![suffixed]);
    assert!(changes.remove.is_empty());
    assert!(
        core.cleanup(NOW + IDENTIFY_ADDRESS_TTL).is_empty(),
        "a configured address is not taken out, though its report is due"
    );
    let foreign = identify_address(&PeerId::random(), 3, 3);
    assert_eq!(core.add_known_peer(&peer, &foreign), None);

    let learned = identify_address(&id, 9, 9);
    core.identified(&peer, NOW, &vec![learned.clone()]);
    assert_eq!(
        core.cleanup(NOW + IDENTIFY_ADDRESS_TTL),
        vec![(peer.clone(), learned)]
    );
    assert_eq!(core.add_suffixed_peer(&peer, None), None);
}

#[test]
fn a_cleanup_hands_out_each_address_once() {
    let (id_a, a) = new_peer();
    let (id_b, b) = new_peer();
    let mut core = SwarmCore::new();
    let of_a = vec![identify_address(&id_a, 1, 1), identify_address(&id_a, 2, 2)];
    let of_b = identify_address(&id_b, 1, 1);
    let known = identify_address(&id_b, 3, 3);
    assert_eq!(core.add_known_peer(&b, &known), Some(known.clone()));
    core.identified(&a, NOW, &of_a);
    core.identified(&a, NOW + SECOND, &of_a);
    core.identified(&b, NOW, &vec![of_b.clone(), known, of_b.clone()]);
    assert_eq!(core.book.address_count, 4);
    let mut out = core.cleanup(NOW + SECOND + IDENTIFY_ADDRESS_TTL);
    out.sort();
    let mut expected = vec![
        (a.clone(), of_a[0].clone()),
        (a, of_a[1].clone()),
        (b, of_b),
    ];
    expected.sort();
    assert_eq!(out, expected);
    assert_eq!(core.book.address_count, 0);
    assert!(core.cleanup(NOW + SECOND + IDENTIFY_ADDRESS_TTL).is_empty());
}

#[test]
fn books_stay_in_bounds_over_reports_and_expiries() {
    let peers: Vec<(PeerId, Vec<u8>)> = (0..40).map(|_| new_peer()).collect();
    let mut book = IdentifyAddressBook::new();
    let mut now = NOW;
    let mut most = 0;
    for round in 0..30u16 {
        for (index, (id, peer)) in peers.iter().enumerate() {
            let report: Vec<Vec<u8>> = (0..40)
                .map(|n| identify_address(id, index as u8 + 1, round * 40 + n + 1))
                .collect();
            book.update(peer, now, &report);
        }
        if round % 7 == 6 {
            book.expire(now);
        }
        let held: usize = book.peers.iter().map(|row| row.addresses.len()).sum();
        assert_eq!(book.address_count, held);
        assert!(held <= IDENTIFY_GLOBAL_ADDRESS_LIMIT);
        assert!(book
            .peers
            .iter()
            .all(|row| row.addresses.len() <= IDENTIFY_ADDRESS_LIMIT));
        most = most.max(held);
        now += IDENTIFY_ADDRESS_WINDOW;
    }
    assert!(most > 0);
    book.expire(now + IDENTIFY_ADDRESS_TTL);
    assert_eq!(book.address_count, 0);
    assert!(book.peers.iter().all(|row| row.addresses.is_empty()));
}

#[test]
fn a_lookup_is_answered_once() {
    let mut core = SwarmCore::new();
    core.lookup_started(4, 40);
    core.lookup_started(5, 50);
    assert_eq!(core.lookup_ended(4), Some(40));
    assert_eq!(core.lookup_ended(4), None);
    assert_eq!(core.lookup_ended(5), Some(50));
    assert_eq!(core.lookup_ended(6), None);
    core.lookup_started(4, 41);
    assert_eq!(core.lookup_ended(4), Some(41), "a query started again is answered again");
}

#[test]
fn the_peer_id_comes_from_the_identity_key() {
    let seed = vec![7u8; 32];
    let key = libp2p_identity::Keypair::ed25519_from_bytes(seed.clone()).unwrap();
    let id = PeerId::from(key.public());
    assert_eq!(local_peer_id(&seed), id.to_bytes());
    assert_ne!(local_peer_id(&seed), local_peer_id(&vec![8u8; 32]));
}

#[test]
fn texts_that_are_no_addresses_are_left_out() {
    let texts = vec![
        "/ip4/192.0.2.1/udp/4001/quic-v1".to_string(),
        "example.com".to_string(),
        "/ip4/192.0.2.2/udp/4001/quic-v1".to_string(),
        "/ip4/300.0.0.1".to_string(),
    ];
    assert_eq!(
        bootstrap_addresses(&texts),
        vec![plain_address(1, 4001).to_vec(), plain_address(2, 4001).to_vec()]
    );
}

#[test]
fn message_ids_come_from_the_data() {
    assert_eq!(message_id_of_hash(1234), "1234");
    let data = vec![1u8, 2, 3];
    let mut hasher = DefaultHasher::new();
    data.hash(&mut hasher);
    assert_eq!(message_id(&data), hasher.finish().to_string());
    assert_ne!(message_id(&data), message_id(&vec![1, 2]));
}

#[test]
fn records_are_stored_under_the_did() {
    assert_eq!(
        did_to_kad_key("did:key:z6Mk\u{e9}"),
        "/gitlawb/did/did:key:z6Mk\u{e9}".as_bytes().to_vec()
    );
}

#[test]
fn the_node_listens_on_both_families() {
    assert_eq!(
        listen_addresses(4001),
        (
            "/ip4/0.0.0.0/udp/4001/quic-v1".to_string(),
            "/ip6/::/udp/4001/quic-v1".to_string()
        )
    );
}

#[test]
fn received_updates_are_stored_and_followed() {
    let event = RefUpdateEvent {
        node_did: "did:key:zNode".to_string(),
        pusher_did: "did:key:zPusher".to_string(),
        repo: "zOwner/myrepo".to_string(),
        owner_did: Some("did:key:zOwner".to_string()),
        ref_name: "refs/heads/main".to_string(),
        old_sha: "0000000000000000000000000000000000000000".to_string(),
        new_sha: "aaaaaaaaaaaaaaaaaaaaaaaaaaaaaaaaaaaaaaaa".to_string(),
        timestamp: "2026-07-02T12:00:00Z".to_string(),
        cert_id: None,
        cid: Some("bafy".to_string()),
    };
    let take = |sync: bool| {
        receive_ref_update(
            &event,
            "id".to_string(),
            "later".to_string(),
            "peer".to_string(),
            sync,
        )
    };
    let actions = take(true);
    assert_eq!(actions.store.id, "id");
    assert_eq!(actions.store.repo, "zOwner/myrepo");
    assert_eq!(actions.store.owner_did, Some("did:key:zOwner".to_string()));
    assert_eq!(actions.store.timestamp, "2026-07-02T12:00:00Z");
    assert_eq!(actions.store.received_at, "later");
    assert_eq!(actions.store.from_peer, "peer");
    let sync = actions.sync.expect("the node follows others");
    assert_eq!(sync.node_did, "did:key:zNode");
    assert_eq!(sync.new_sha, event.new_sha);
    assert_eq!(sync.cid, Some("bafy".to_string()));
    assert!(take(false).sync.is_none());
}
