//! The decisions of the network's event loop.
//!
//! The caller drives the network: it reports each event here and carries out
//! what is returned on the routing table, on the waiting lookups and on the
//! database.

use std::collections::HashMap;

use vstd::prelude::*;

use crate::bytes::{contents, copy_bytes, same_bytes};
use crate::p2p::address_book::{
    book_suffixed, canonical, due_of, expired_book, expired_row, looked_at, pair_contents, row_of,
    update_changes, updated_row, with_p2p, with_peer_suffix, with_row, ChangesView,
    IdentifyAddressBook, RowView, IDENTIFY_ADDRESS_TTL,
};
use crate::p2p::reports::{
    expiries_drop_what_has_ended, in_bounds, leased, leases_after, reported_addresses_are_told,
    reports_in_sets,
};

verus! {

broadcast use vstd::std_specs::hash::group_hash_axioms;

/// A peer and an address of it.
pub type PeerAddress = (Seq<u8>, Seq<u8>);

/// The addresses that were configured for peers. They stay in the routing table
/// whatever peers report.
#[derive(Debug)]
pub struct ExplicitAddresses {
    pub pairs: Vec<(Vec<u8>, Vec<u8>)>,
}

impl View for ExplicitAddresses {
    type V = Set<PeerAddress>;

    open spec fn view(&self) -> Set<PeerAddress> {
        pair_contents(self.pairs@).to_set()
    }
}

/// Whether the address was configured for the peer.
pub fn is_explicit_address(explicit: &ExplicitAddresses, peer: &Vec<u8>, address: &Vec<u8>) -> (r:
    bool)
    ensures
        r == explicit@.contains((peer@, address@)),
{
    let mut i: usize = 0;
    while i < explicit.pairs.len()
        invariant
            i <= explicit.pairs.len(),
            forall|j: int|
                0 <= j < i ==> #[trigger] pair_contents(explicit.pairs@)[j] != (peer@, address@),
        decreases explicit.pairs.len() - i,
    {
        if same_bytes(&explicit.pairs[i].0, peer) && same_bytes(&explicit.pairs[i].1, address) {
            assert(pair_contents(explicit.pairs@)[i as int] == (peer@, address@));
            return true;
        }
        i = i + 1;
    }
    false
}

impl ExplicitAddresses {
    /// No addresses.
    pub fn new() -> (r: Self)
        ensures
            r@ == Set::<PeerAddress>::empty(),
    {
        let r = ExplicitAddresses { pairs: Vec::new() };
        assert(pair_contents(r.pairs@) =~= Seq::<PeerAddress>::empty());
        assert(r@ =~= Set::<PeerAddress>::empty());
        r
    }

    /// Adds an address of a peer.
    pub fn insert(&mut self, peer: &Vec<u8>, address: &Vec<u8>)
        ensures
            final(self)@ == old(self)@.insert((peer@, address@)),
    {
        let ghost before = pair_contents(self.pairs@);
        if !is_explicit_address(self, peer, address) {
            let pair = (copy_bytes(peer), copy_bytes(address));
            proof {
                let after = pair_contents(self.pairs@.push(pair));
                assert(after =~= before.push((peer@, address@)));
                assert forall|x: PeerAddress| #[trigger] after.to_set().contains(x)
                    <==> before.to_set().insert((peer@, address@)).contains(x) by {
                    if before.contains(x) {
                        let i = choose|i: int| 0 <= i < before.len() && before[i] == x;
                        assert(after[i] == x);
                    }
                    if x == (peer@, address@) {
                        assert(after[before.len() as int] == x);
                    }
                }
                assert(after.to_set() =~= before.to_set().insert((peer@, address@)));
            }
            self.pairs.push(pair);
        } else {
            assert(self@ =~= old(self)@.insert((peer@, address@)));
        }
    }
}

/// The pairs that were not configured, in order.
pub open spec fn not_explicit(pairs: Seq<PeerAddress>, explicit: Set<PeerAddress>) -> Seq<
    PeerAddress,
>
    decreases pairs.len(),
{
    if pairs.len() == 0 {
        Seq::empty()
    } else {
        let before = not_explicit(pairs.drop_last(), explicit);
        if explicit.contains(pairs.last()) {
            before
        } else {
            before.push(pairs.last())
        }
    }
}

fn drop_explicit(pairs: Vec<(Vec<u8>, Vec<u8>)>, explicit: &ExplicitAddresses) -> (r: Vec<
    (Vec<u8>, Vec<u8>),
>)
    ensures
        pair_contents(r@) == not_explicit(pair_contents(pairs@), explicit@),
{
    let mut out: Vec<(Vec<u8>, Vec<u8>)> = Vec::new();
    let mut i: usize = 0;
    let ghost all = pair_contents(pairs@);
    proof {
        assert(all.take(0) =~= Seq::<PeerAddress>::empty());
        assert(pair_contents(out@) =~= Seq::<PeerAddress>::empty());
    }
    while i < pairs.len()
        invariant
            i <= pairs.len(),
            all == pair_contents(pairs@),
            pair_contents(out@) == not_explicit(all.take(i as int), explicit@),
        decreases pairs.len() - i,
    {
        proof {
            assert(all.take(i as int + 1).drop_last() =~= all.take(i as int));
            assert(all.take(i as int + 1).last() == all[i as int]);
            assert(all[i as int] == (pairs@[i as int].0@, pairs@[i as int].1@));
        }
        if !is_explicit_address(explicit, &pairs[i].0, &pairs[i].1) {
            let pair = (copy_bytes(&pairs[i].0), copy_bytes(&pairs[i].1));
            proof {
                assert(pair_contents(out@.push(pair)) =~= pair_contents(out@).push(
                    (pair.0@, pair.1@),
                ));
            }
            out.push(pair);
        }
        i = i + 1;
    }
    proof {
        assert(all.take(all.len() as int) =~= all);
    }
    out
}

/// Changes to the routing table: first the removals, then the additions.
#[derive(Debug)]
pub struct RoutingChanges {
    /// Peer and address.
    pub remove: Vec<(Vec<u8>, Vec<u8>)>,
    /// Addresses of the peer that reported.
    pub add: Vec<Vec<u8>>,
}

/// The state of the event loop: the reported addresses, the configured ones,
/// and the lookups that wait for a reply.
pub struct SwarmCore {
    pub book: IdentifyAddressBook,
    pub explicit: ExplicitAddresses,
    /// The ticket of each running query.
    pub pending: HashMap<u64, u64>,
}

impl SwarmCore {
    /// Nothing is known.
    pub fn new() -> (r: Self)
        ensures
            r.book.wf(),
            r.book@ == Map::<Seq<u8>, RowView>::empty(),
            r.explicit@ == Set::<PeerAddress>::empty(),
            r.pending@ == Map::<u64, u64>::empty(),
            book_suffixed(r.book@),
    {
        SwarmCore {
            book: IdentifyAddressBook::new(),
            explicit: ExplicitAddresses::new(),
            pending: HashMap::new(),
        }
    }

    /// Drops the reported addresses that are due, and returns those to take out
    /// of the routing table: the ones that were not configured.
    pub fn cleanup(&mut self, now: u64) -> (r: Vec<(Vec<u8>, Vec<u8>)>)
        requires
            old(self).book.wf(),
        ensures
            final(self).book.wf(),
            final(self).explicit == old(self).explicit,
            final(self).pending == old(self).pending,
            forall|p: Seq<u8>| #[trigger]
                row_of(final(self).book@, p) == expired_row(row_of(old(self).book@, p), now),
            forall|p: Seq<u8>, a: Seq<u8>| #[trigger]
                pair_contents(r@).contains((p, a)) <==> due_of(
                    row_of(old(self).book@, p),
                    now,
                ).contains(a) && !old(self).explicit@.contains((p, a)),
            pair_contents(r@).no_duplicates(),
            r@.len() <= old(self).book.address_count - final(self).book.address_count,
            final(self).book@ == expired_book(old(self).book@, now),
            pair_contents(r@).to_set() == taken_out(old(self).book@, old(self).explicit@, now),
            book_suffixed(old(self).book@) ==> book_suffixed(final(self).book@),
    {
        let dropped = self.book.expire(now);
        let ghost all = pair_contents(dropped@);
        let r = drop_explicit(dropped, &self.explicit);
        proof {
            leaving_out_repeats_nothing(all, self.explicit@);
            assert(pair_contents(r@).len() == r@.len());
            assert forall|p: Seq<u8>, a: Seq<u8>| #[trigger] pair_contents(r@).contains((p, a))
                <==> due_of(row_of(old(self).book@, p), now).contains(a) && !old(
                self,
            ).explicit@.contains((p, a)) by {
                explicit_pairs_are_left_out(all, self.explicit@, (p, a));
                assert(all.contains((p, a)) <==> due_of(
                    row_of(old(self).book@, p),
                    now,
                ).contains(a));
            }
            assert(pair_contents(r@).to_set() =~= taken_out(
                old(self).book@,
                old(self).explicit@,
                now,
            )) by {
                assert forall|x: PeerAddress| #[trigger] pair_contents(r@).to_set().contains(x)
                    <==> taken_out(old(self).book@, old(self).explicit@, now).contains(x) by {
                    assert(pair_contents(r@).contains((x.0, x.1)) <==> pair_contents(r@).contains(
                        x,
                    ));
                }
            }
        }
        r
    }

    /// Takes up what a peer reports of its addresses.
    pub fn identified(&mut self, peer: &Vec<u8>, now: u64, addresses: &Vec<Vec<u8>>) -> (r:
        RoutingChanges)
        requires
            old(self).book.wf(),
            now + IDENTIFY_ADDRESS_TTL <= u64::MAX,
        ensures
            final(self).book.wf(),
            final(self).explicit == old(self).explicit,
            final(self).pending == old(self).pending,
            ({
                let before = row_of(old(self).book@, peer@);
                let count = old(self).book.address_count as nat;
                let reported = canonical(looked_at(contents(addresses@)), peer@);
                let changes = update_changes(peer@, before, count, now, reported);
                &&& final(self).book@ == with_row(
                    old(self).book@,
                    peer@,
                    updated_row(before, count, now, reported),
                )
                &&& pair_contents(r.remove@) == not_explicit(changes.removed, old(self).explicit@)
                &&& contents(r.add@) == changes.refreshed + changes.added
                &&& (pair_contents(r.remove@), contents(r.add@)) == routing_changes(
                    changes,
                    old(self).explicit@,
                )
            }),
            book_suffixed(old(self).book@) ==> book_suffixed(final(self).book@),
    {
        let changes = self.book.update(peer, now, addresses);
        let mut add = changes.refreshed;
        let mut added = changes.added;
        proof {
            assert(contents(add@ + added@) =~= contents(add@) + contents(added@));
        }
        add.append(&mut added);
        RoutingChanges { remove: drop_explicit(changes.removed, &self.explicit), add }
    }

    /// Adds a configured address of a peer, and returns it with the peer's
    /// suffix, for the routing table; `None`, and nothing is added, where it
    /// cannot have the suffix.
    pub fn add_known_peer(&mut self, peer: &Vec<u8>, address: &Vec<u8>) -> (r: Option<Vec<u8>>)
        ensures
            final(self).book == old(self).book,
            final(self).pending == old(self).pending,
            r is Some == with_peer_suffix(address@, peer@) is Some,
            r is Some ==> r->0@ == with_peer_suffix(address@, peer@)->0 && final(self).explicit@
                == old(self).explicit@.insert((peer@, r->0@)),
            r is None ==> final(self).explicit == old(self).explicit,
            final(self).explicit@ == configured(
                old(self).explicit@,
                peer@,
                with_peer_suffix(address@, peer@),
            ),
    {
        let suffixed = with_p2p(address, peer);
        self.add_suffixed_peer(peer, suffixed)
    }

    /// Adds a configured address of a peer that has the peer's suffix already;
    /// without one, nothing is added.
    pub fn add_suffixed_peer(&mut self, peer: &Vec<u8>, suffixed: Option<Vec<u8>>) -> (r: Option<
        Vec<u8>,
    >)
        ensures
            final(self).book == old(self).book,
            final(self).pending == old(self).pending,
            r == suffixed,
            suffixed is Some ==> final(self).explicit@ == old(self).explicit@.insert(
                (peer@, suffixed->0@),
            ),
            suffixed is None ==> final(self).explicit == old(self).explicit,
            final(self).explicit@ == configured(
                old(self).explicit@,
                peer@,
                match suffixed {
                    Some(a) => Some(a@),
                    None => None,
                },
            ),
    {
        match suffixed {
            Some(a) => {
                self.explicit.insert(peer, &a);
                Some(a)
            },
            None => None,
        }
    }

    /// A lookup was started as the query, for the ticket.
    pub fn lookup_started(&mut self, query: u64, ticket: u64)
        ensures
            final(self).book == old(self).book,
            final(self).explicit == old(self).explicit,
            final(self).pending@ == old(self).pending@.insert(query, ticket),
            final(self).pending@ == lookup_begun(old(self).pending@, query, ticket),
    {
        let _ = self.pending.insert(query, ticket);
    }

    /// The query has found a record, or has failed: the ticket to reply to. A
    /// query that was answered before has none.
    pub fn lookup_ended(&mut self, query: u64) -> (r: Option<u64>)
        ensures
            final(self).book == old(self).book,
            final(self).explicit == old(self).explicit,
            final(self).pending@ == old(self).pending@.remove(query),
            r == (if old(self).pending@.contains_key(query) {
                Some(old(self).pending@[query])
            } else {
                None
            }),
            (final(self).pending@, r) == lookup_done(old(self).pending@, query),
    {
        let r = self.pending.remove(&query);
        assert(self.pending@ =~= old(self).pending@.remove(query));
        r
    }
}

proof fn leaving_out_repeats_nothing(pairs: Seq<PeerAddress>, explicit: Set<PeerAddress>)
    ensures
        not_explicit(pairs, explicit).len() <= pairs.len(),
        pairs.no_duplicates() ==> not_explicit(pairs, explicit).no_duplicates(),
    decreases pairs.len(),
{
    if pairs.len() > 0 {
        let shorter = pairs.drop_last();
        leaving_out_repeats_nothing(shorter, explicit);
        let before = not_explicit(shorter, explicit);
        if pairs.no_duplicates() {
            assert(shorter.no_duplicates());
            assert forall|i: int| 0 <= i < before.len() implies #[trigger] before[i]
                != pairs.last() by {
                explicit_pairs_are_left_out(shorter, explicit, before[i]);
                let j = choose|j: int| 0 <= j < shorter.len() && shorter[j] == before[i];
                assert(pairs[j] != pairs[pairs.len() - 1]);
            }
        }
    }
}

/// Leaving out the configured pairs leaves exactly the others.
pub proof fn explicit_pairs_are_left_out(
    pairs: Seq<PeerAddress>,
    explicit: Set<PeerAddress>,
    x: PeerAddress,
)
    ensures
        not_explicit(pairs, explicit).contains(x) <==> pairs.contains(x) && !explicit.contains(x),
    decreases pairs.len(),
{
    if pairs.len() > 0 {
        let shorter = pairs.drop_last();
        let before = not_explicit(shorter, explicit);
        explicit_pairs_are_left_out(shorter, explicit, x);
        let out = not_explicit(pairs, explicit);
        if out.contains(x) {
            let i = choose|i: int| 0 <= i < out.len() && out[i] == x;
            if i < before.len() {
                assert(before[i] == x);
                let j = choose|j: int| 0 <= j < shorter.len() && shorter[j] == x;
                assert(pairs[j] == x);
            } else {
                assert(pairs[pairs.len() - 1] == x);
            }
        }
        if pairs.contains(x) && !explicit.contains(x) {
            let j = choose|j: int| 0 <= j < pairs.len() && pairs[j] == x;
            if j < shorter.len() {
                assert(shorter[j] == x);
                let i = choose|i: int| 0 <= i < before.len() && before[i] == x;
                assert(out[i] == x);
            } else {
                assert(out[before.len() as int] == x);
            }
        }
    }
}

/// A configured address is never taken out of the routing table on account of
/// what peers report, or fail to report again.
pub proof fn configured_addresses_stay(
    removed: Seq<PeerAddress>,
    explicit: Set<PeerAddress>,
    x: PeerAddress,
)
    requires
        explicit.contains(x),
    ensures
        !not_explicit(removed, explicit).contains(x),
{
    explicit_pairs_are_left_out(removed, explicit, x);
}

/// The pairs that a cleanup takes out of the routing table.
pub open spec fn taken_out(
    book: Map<Seq<u8>, RowView>,
    explicit: Set<PeerAddress>,
    now: u64,
) -> Set<PeerAddress> {
    Set::new(
        |x: PeerAddress| due_of(row_of(book, x.0), now).contains(x.1) && !explicit.contains(x),
    )
}

/// What a report changes in the routing table: the removals and the additions.
pub open spec fn routing_changes(c: ChangesView, explicit: Set<PeerAddress>) -> (
    Seq<PeerAddress>,
    Seq<Seq<u8>>,
) {
    (not_explicit(c.removed, explicit), c.refreshed + c.added)
}

/// The configured addresses after one more was given for a peer.
pub open spec fn configured(
    explicit: Set<PeerAddress>,
    peer: Seq<u8>,
    suffixed: Option<Seq<u8>>,
) -> Set<PeerAddress> {
    match suffixed {
        Some(a) => explicit.insert((peer, a)),
        None => explicit,
    }
}

/// A cleanup takes out of the routing table what has ended and was not configured:
/// all of it, and nothing else.
pub proof fn cleanups_take_out_what_has_ended(
    book: Map<Seq<u8>, RowView>,
    explicit: Set<PeerAddress>,
    now: u64,
    peer: Seq<u8>,
    a: Seq<u8>,
)
    ensures
        taken_out(book, explicit, now).contains((peer, a)) <==> {
            &&& book.contains_key(peer)
            &&& exists|i: int|
                0 <= i < book[peer].leases.len() && (#[trigger] book[peer].leases[i]).address == a
                    && book[peer].leases[i].expires_at <= now
            &&& !explicit.contains((peer, a))
        },
{
    expiries_drop_what_has_ended(book, now, peer, a);
}

/// A report of a peer puts into the routing table every reported address that the
/// peer now has, and no other; and takes out of it every address that the peer no
/// longer has and that was not configured, and no other.
pub proof fn reports_reach_the_routing_table(
    peer: Seq<u8>,
    row: Option<RowView>,
    count: nat,
    now: u64,
    reported: Seq<Seq<u8>>,
    explicit: Set<PeerAddress>,
    a: Seq<u8>,
)
    requires
        in_bounds(row, count),
        now + 1_800_000_000_000 <= u64::MAX,
    ensures
        ({
            let (remove, add) = routing_changes(
                update_changes(peer, row, count, now, reported),
                explicit,
            );
            let after = leases_after(row, count, now, reported);
            &&& add.contains(a) <==> reported.contains(a) && leased(after, a)
            &&& remove.contains((peer, a)) && !reported.contains(a) ==> !leased(after, a)
            &&& !leased(after, a) && row is Some && leased(row->0.leases, a) && !explicit.contains(
                (peer, a),
            ) ==> remove.contains((peer, a))
            &&& explicit.contains((peer, a)) ==> !remove.contains((peer, a))
        }),
{
    let c = update_changes(peer, row, count, now, reported);
    let after = leases_after(row, count, now, reported);
    explicit_pairs_are_left_out(c.removed, explicit, (peer, a));
    reports_in_sets(peer, row, count, now, reported, a);
    if leased(after, a) && reported.contains(a) {
        reported_addresses_are_told(peer, row, count, now, reported, a);
    }
    if c.refreshed.contains(a) {
        let i = choose|i: int| 0 <= i < c.refreshed.len() && c.refreshed[i] == a;
        assert((c.refreshed + c.added)[i] == a);
    }
    if c.added.contains(a) {
        let i = choose|i: int| 0 <= i < c.added.len() && c.added[i] == a;
        assert((c.refreshed + c.added)[c.refreshed.len() + i] == a);
    }
}

/// An address is configured once it was given and can end in the peer's id; what
/// was configured before stays.
pub proof fn configuring_adds_one(
    explicit: Set<PeerAddress>,
    peer: Seq<u8>,
    suffixed: Option<Seq<u8>>,
    x: PeerAddress,
)
    ensures
        configured(explicit, peer, suffixed).contains(x) <==> explicit.contains(x) || (x.0 == peer
            && suffixed == Some(x.1)),
{
}

/// What changes the routing table.
pub enum RoutingEvent {
    /// Reported addresses of these peers were due.
    Due(Seq<PeerAddress>),
    /// A peer's report removed some addresses and added others.
    Report(Seq<u8>, Seq<PeerAddress>, Seq<Seq<u8>>),
    /// An address was configured for a peer.
    Configured(Seq<u8>, Seq<u8>),
}

/// The configured addresses and the routing table.
pub struct RoutingWorld {
    pub explicit: Set<PeerAddress>,
    pub routes: Set<PeerAddress>,
}

/// The world after an event, as the event loop handles it: configured
/// addresses are left out of every removal.
pub open spec fn routing_step(w: RoutingWorld, e: RoutingEvent) -> RoutingWorld {
    match e {
        RoutingEvent::Due(pairs) => RoutingWorld {
            routes: w.routes.difference(not_explicit(pairs, w.explicit).to_set()),
            ..w
        },
        RoutingEvent::Report(peer, removed, added) => RoutingWorld {
            routes: w.routes.difference(not_explicit(removed, w.explicit).to_set()).union(
                crate::p2p::address_book::with_peer(peer, added).to_set(),
            ),
            ..w
        },
        RoutingEvent::Configured(peer, address) => RoutingWorld {
            explicit: w.explicit.insert((peer, address)),
            routes: w.routes.insert((peer, address)),
        },
    }
}

/// The world after a sequence of events, from one without addresses.
pub open spec fn routing_run(events: Seq<RoutingEvent>) -> RoutingWorld
    decreases events.len(),
{
    if events.len() == 0 {
        RoutingWorld { explicit: Set::empty(), routes: Set::empty() }
    } else {
        routing_step(routing_run(events.drop_last()), events.last())
    }
}

/// However reports, expiries and configurations follow each other, every
/// configured address is in the routing table.
pub proof fn configured_addresses_are_always_routed(events: Seq<RoutingEvent>, x: PeerAddress)
    requires
        routing_run(events).explicit.contains(x),
    ensures
        routing_run(events).routes.contains(x),
    decreases events.len(),
{
    if events.len() > 0 {
        let w = routing_run(events.drop_last());
        match events.last() {
            RoutingEvent::Due(pairs) => {
                configured_addresses_are_always_routed(events.drop_last(), x);
                explicit_pairs_are_left_out(pairs, w.explicit, x);
            },
            RoutingEvent::Report(_, removed, _) => {
                configured_addresses_are_always_routed(events.drop_last(), x);
                explicit_pairs_are_left_out(removed, w.explicit, x);
            },
            RoutingEvent::Configured(peer, address) => {
                if x != (peer, address) {
                    configured_addresses_are_always_routed(events.drop_last(), x);
                }
            },
        }
    }
}

/// The running queries after another one was started for the ticket.
pub open spec fn lookup_begun(pending: Map<u64, u64>, query: u64, ticket: u64) -> Map<u64, u64> {
    pending.insert(query, ticket)
}

/// The running queries after one has ended, and the ticket to reply to.
pub open spec fn lookup_done(pending: Map<u64, u64>, query: u64) -> (Map<u64, u64>, Option<u64>) {
    (
        pending.remove(query),
        if pending.contains_key(query) {
            Some(pending[query])
        } else {
            None
        },
    )
}

/// What happens to lookups.
pub enum LookupEvent {
    /// A lookup was started as the query, for the ticket.
    Started { query: u64, ticket: u64 },
    /// The query has found a record, or has failed.
    Ended { query: u64 },
}

/// The tickets of the running queries after a sequence of events.
pub open spec fn lookups_after(events: Seq<LookupEvent>) -> Map<u64, u64>
    decreases events.len(),
{
    if events.len() == 0 {
        Map::empty()
    } else {
        let before = lookups_after(events.drop_last());
        match events.last() {
            LookupEvent::Started { query, ticket } => lookup_begun(before, query, ticket),
            LookupEvent::Ended { query } => lookup_done(before, query).0,
        }
    }
}

/// The ticket that is replied to when the query ends after these events.
pub open spec fn ticket_of(events: Seq<LookupEvent>, query: u64) -> Option<u64> {
    lookup_done(lookups_after(events), query).1
}

/// A lookup is answered once, with its own ticket: the first time that its query
/// ends it has the ticket it was started for, whatever happened to other queries
/// in between, and from then on it has none, until it is started again.
pub proof fn lookups_are_answered_once(
    before: Seq<LookupEvent>,
    query: u64,
    ticket: u64,
    between: Seq<LookupEvent>,
)
    requires
        forall|i: int| #![trigger between[i]]
            0 <= i < between.len() ==> match between[i] {
                LookupEvent::Started { query: q, .. } => q != query,
                LookupEvent::Ended { query: q } => q != query,
            },
    ensures
        ticket_of(before.push(LookupEvent::Started { query, ticket }) + between, query) == Some(
            ticket,
        ),
        ticket_of(before.push(LookupEvent::Ended { query }) + between, query) is None,
    decreases between.len(),
{
    let started = before.push(LookupEvent::Started { query, ticket });
    let ended = before.push(LookupEvent::Ended { query });
    if between.len() == 0 {
        assert(started + between =~= started);
        assert(ended + between =~= ended);
        assert(started.drop_last() =~= before);
        assert(ended.drop_last() =~= before);
    } else {
        lookups_are_answered_once(before, query, ticket, between.drop_last());
        assert((started + between).drop_last() =~= started + between.drop_last());
        assert((ended + between).drop_last() =~= ended + between.drop_last());
        assert(between[between.len() - 1] == between.last());
    }
}

} // verus!
