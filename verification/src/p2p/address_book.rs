//! The addresses that peers report of themselves.
//!
//! A peer's report is not to be trusted: the book bounds what one peer and what
//! all peers together can put into it. A peer's new addresses never push out
//! another peer's.

use vstd::prelude::*;

use crate::bytes::{
    contents, copy_bytes, insert_sorted, same_bytes, sorted_once,
    sorted_once_depends_on_the_set,
};

verus! {

/// The most addresses kept of one peer.
pub const IDENTIFY_ADDRESS_LIMIT: usize = 8;

/// The most addresses of one report that are looked at.
pub const IDENTIFY_REPORT_ADDRESS_LIMIT: usize = 64;

/// The most new addresses of one peer in a window.
pub const IDENTIFY_NEW_ADDRESS_LIMIT: usize = 8;

/// The most addresses kept of all peers together.
pub const IDENTIFY_GLOBAL_ADDRESS_LIMIT: usize = 1024;

/// The window for new addresses, in nanoseconds.
pub const IDENTIFY_ADDRESS_WINDOW: u64 = 60_000_000_000;

/// How long an address is kept without being reported again, in nanoseconds.
pub const IDENTIFY_ADDRESS_TTL: u64 = 1_800_000_000_000;

/// How often old addresses are dropped, in nanoseconds.
pub const IDENTIFY_ADDRESS_CLEANUP_INTERVAL: u64 = 60_000_000_000;

/// What `multiaddr::Multiaddr::with_p2p` makes of an address and a peer: the
/// address with the peer's id at its end. `None` where the address ends in
/// another peer's id, and where the bytes are no address or no peer id.
pub uninterp spec fn with_peer_suffix(address: Seq<u8>, peer: Seq<u8>) -> Option<Seq<u8>>;

/// `multiaddr::Multiaddr::with_p2p`, on the bytes of an address and of a peer
/// id (`Multiaddr::try_from`, `PeerId::from_bytes`). The result is determined
/// by the two; and an address that already ends in the peer's id, as every
/// result does, is returned as it is.
#[verifier::external_body]
pub(crate) fn with_p2p(address: &Vec<u8>, peer: &Vec<u8>) -> (r: Option<Vec<u8>>)
    ensures
        r is Some == with_peer_suffix(address@, peer@) is Some,
        r is Some ==> r->0@ == with_peer_suffix(address@, peer@)->0,
        r is Some ==> with_peer_suffix(r->0@, peer@) == Some(r->0@),
{
    let address = libp2p_core::Multiaddr::try_from(address.clone()).ok()?;
    let peer = libp2p_core::PeerId::from_bytes(peer).ok()?;
    address.with_p2p(peer).ok().map(|a| a.to_vec())
}

/// An address and when it is dropped.
#[derive(Debug)]
pub struct IdentifyAddress {
    pub address: Vec<u8>,
    pub expires_at: u64,
}

/// The addresses of one peer, oldest first.
#[derive(Debug)]
pub struct IdentifyPeerAddresses {
    pub peer: Vec<u8>,
    pub addresses: Vec<IdentifyAddress>,
    /// When the current window for new addresses began.
    pub window_started: u64,
    /// How many new addresses it has seen.
    pub new_addresses: usize,
}

/// What an update has changed.
#[derive(Debug, PartialEq, Eq)]
pub struct IdentifyAddressChanges {
    pub added: Vec<Vec<u8>>,
    pub refreshed: Vec<Vec<u8>>,
    /// Peer and address.
    pub removed: Vec<(Vec<u8>, Vec<u8>)>,
}

/// The addresses of all peers.
#[derive(Debug)]
pub struct IdentifyAddressBook {
    pub peers: Vec<IdentifyPeerAddresses>,
    pub address_count: usize,
}

/// An address and when it is dropped, as the contracts see it.
pub struct LeaseView {
    pub address: Seq<u8>,
    pub expires_at: u64,
}

/// The addresses of one peer, as the contracts see them.
pub struct RowView {
    pub leases: Seq<LeaseView>,
    pub window_started: u64,
    pub new_addresses: usize,
}

/// What an update has changed, as the contracts see it.
pub struct ChangesView {
    pub added: Seq<Seq<u8>>,
    pub refreshed: Seq<Seq<u8>>,
    pub removed: Seq<(Seq<u8>, Seq<u8>)>,
}

impl View for IdentifyAddress {
    type V = LeaseView;

    open spec fn view(&self) -> LeaseView {
        LeaseView { address: self.address@, expires_at: self.expires_at }
    }
}

/// The addresses of a peer, as the contracts see them.
pub open spec fn lease_views(addresses: Seq<IdentifyAddress>) -> Seq<LeaseView> {
    addresses.map_values(|a: IdentifyAddress| a@)
}

impl View for IdentifyPeerAddresses {
    type V = RowView;

    open spec fn view(&self) -> RowView {
        RowView {
            leases: lease_views(self.addresses@),
            window_started: self.window_started,
            new_addresses: self.new_addresses,
        }
    }
}

/// The pairs of peer and address, as the contracts see them.
pub open spec fn pair_contents(pairs: Seq<(Vec<u8>, Vec<u8>)>) -> Seq<(Seq<u8>, Seq<u8>)> {
    pairs.map_values(|p: (Vec<u8>, Vec<u8>)| (p.0@, p.1@))
}

impl View for IdentifyAddressChanges {
    type V = ChangesView;

    open spec fn view(&self) -> ChangesView {
        ChangesView {
            added: contents(self.added@),
            refreshed: contents(self.refreshed@),
            removed: pair_contents(self.removed@),
        }
    }
}

/// Whether the row at place `i` is the peer's.
pub open spec fn is_row_of(rows: Seq<IdentifyPeerAddresses>, peer: Seq<u8>, i: int) -> bool {
    0 <= i < rows.len() && rows[i].peer@ == peer
}

/// The rows by peer.
pub open spec fn row_map(rows: Seq<IdentifyPeerAddresses>) -> Map<Seq<u8>, RowView> {
    Map::new(
        |peer: Seq<u8>| exists|i: int| is_row_of(rows, peer, i),
        |peer: Seq<u8>| rows[choose|i: int| is_row_of(rows, peer, i)]@,
    )
}

/// Whether no peer has two rows.
pub open spec fn one_row_each(rows: Seq<IdentifyPeerAddresses>) -> bool {
    forall|i: int, j: int|
        0 <= i < j < rows.len() ==> (#[trigger] rows[i]).peer@ != (#[trigger] rows[j]).peer@
}

/// The number of addresses in the rows.
pub open spec fn total(rows: Seq<IdentifyPeerAddresses>) -> nat
    decreases rows.len(),
{
    if rows.len() == 0 {
        0
    } else {
        total(rows.drop_last()) + rows.last().addresses@.len()
    }
}

/// Whether the row holds the address.
pub open spec fn holds(row: RowView, address: Seq<u8>) -> bool {
    exists|i: int| 0 <= i < row.leases.len() && (#[trigger] row.leases[i]).address == address
}

/// Whether a row holds some addresses, none twice, within the limits.
pub open spec fn row_wf(row: RowView) -> bool {
    &&& 0 < row.leases.len() <= IDENTIFY_ADDRESS_LIMIT
    &&& row.new_addresses <= IDENTIFY_NEW_ADDRESS_LIMIT
    &&& distinct(row.leases)
}

/// Whether no address occurs twice.
pub open spec fn distinct(leases: Seq<LeaseView>) -> bool {
    forall|i: int, j: int|
        0 <= i < j < leases.len() ==> (#[trigger] leases[i]).address != (#[trigger]
        leases[j]).address
}

/// Whether every address of the row ends in the peer's id.
pub open spec fn row_suffixed(row: RowView, peer: Seq<u8>) -> bool {
    forall|i: int|
        0 <= i < row.leases.len() ==> with_peer_suffix((#[trigger] row.leases[i]).address, peer)
            == Some(row.leases[i].address)
}

/// Whether every address of the book ends in the id of the peer whose row holds
/// it.
pub open spec fn book_suffixed(book: Map<Seq<u8>, RowView>) -> bool {
    forall|peer: Seq<u8>| #[trigger]
        book.contains_key(peer) ==> row_suffixed(book[peer], peer)
}

impl View for IdentifyAddressBook {
    type V = Map<Seq<u8>, RowView>;

    open spec fn view(&self) -> Map<Seq<u8>, RowView> {
        row_map(self.peers@)
    }
}

impl IdentifyAddressBook {
    /// One row for each peer, none empty, all within the limits, and the count
    /// right.
    pub open spec fn wf(&self) -> bool {
        &&& one_row_each(self.peers@)
        &&& forall|i: int| 0 <= i < self.peers@.len() ==> row_wf((#[trigger] self.peers@[i])@)
        &&& self.address_count == total(self.peers@)
        &&& self.address_count <= IDENTIFY_GLOBAL_ADDRESS_LIMIT
    }
}

proof fn row_map_at(rows: Seq<IdentifyPeerAddresses>, i: int)
    requires
        one_row_each(rows),
        0 <= i < rows.len(),
    ensures
        row_map(rows).contains_key(rows[i].peer@),
        row_map(rows)[rows[i].peer@] == rows[i]@,
{
    let peer = rows[i].peer@;
    assert(is_row_of(rows, peer, i));
    let j = choose|j: int| is_row_of(rows, peer, j);
    assert(is_row_of(rows, peer, j));
    assert(i == j);
}

proof fn rows_are_wf(book: IdentifyAddressBook, peer: Seq<u8>)
    requires
        book.wf(),
    ensures
        book@.contains_key(peer) ==> row_wf(book@[peer]),
{
    if book@.contains_key(peer) {
        let i = choose|i: int| is_row_of(book.peers@, peer, i);
        assert(is_row_of(book.peers@, peer, i));
        row_map_at(book.peers@, i);
        assert(row_wf(book.peers@[i]@));
    }
}

proof fn row_map_remove(rows: Seq<IdentifyPeerAddresses>, i: int)
    requires
        one_row_each(rows),
        0 <= i < rows.len(),
    ensures
        one_row_each(rows.remove(i)),
        row_map(rows.remove(i)) == row_map(rows).remove(rows[i].peer@),
        total(rows.remove(i)) + rows[i].addresses@.len() == total(rows),
{
    let less = rows.remove(i);
    let gone = rows[i].peer@;
    assert forall|a: int, b: int| 0 <= a < b < less.len() implies (#[trigger] less[a]).peer@ != (
    #[trigger] less[b]).peer@ by {
        let c = if a < i { a } else { a + 1 };
        let d = if b < i { b } else { b + 1 };
        assert(less[a] == rows[c]);
        assert(less[b] == rows[d]);
    }
    assert forall|peer: Seq<u8>| #[trigger] row_map(less).contains_key(peer) <==> row_map(
        rows,
    ).remove(gone).contains_key(peer) by {
        if row_map(less).contains_key(peer) {
            let a = choose|a: int| is_row_of(less, peer, a);
            let c = if a < i { a } else { a + 1 };
            assert(less[a] == rows[c]);
            assert(is_row_of(rows, peer, c));
            if peer == gone {
                if c < i {
                    assert(rows[c].peer@ != rows[i].peer@);
                } else {
                    assert(rows[i].peer@ != rows[c].peer@);
                }
            }
        }
        if row_map(rows).remove(gone).contains_key(peer) {
            let c = choose|c: int| is_row_of(rows, peer, c);
            assert(c != i);
            let a = if c < i { c } else { c - 1 };
            assert(less[a] == rows[c]);
            assert(is_row_of(less, peer, a));
        }
    }
    assert forall|peer: Seq<u8>| #[trigger] row_map(less).contains_key(peer) implies row_map(
        less,
    )[peer] == row_map(rows).remove(gone)[peer] by {
        let a = choose|a: int| is_row_of(less, peer, a);
        let c = if a < i { a } else { a + 1 };
        assert(less[a] == rows[c]);
        row_map_at(less, a);
        row_map_at(rows, c);
    }
    assert(row_map(less) =~= row_map(rows).remove(gone));
    total_remove(rows, i);
}

proof fn total_remove(rows: Seq<IdentifyPeerAddresses>, i: int)
    requires
        0 <= i < rows.len(),
    ensures
        total(rows.remove(i)) + rows[i].addresses@.len() == total(rows),
    decreases rows.len(),
{
    if i == rows.len() - 1 {
        assert(rows.remove(i) =~= rows.drop_last());
    } else {
        total_remove(rows.drop_last(), i);
        assert(rows.remove(i).drop_last() =~= rows.drop_last().remove(i));
        assert(rows.remove(i).last() == rows.last());
    }
}

proof fn row_map_push(rows: Seq<IdentifyPeerAddresses>, row: IdentifyPeerAddresses)
    requires
        one_row_each(rows),
        !row_map(rows).contains_key(row.peer@),
    ensures
        one_row_each(rows.push(row)),
        row_map(rows.push(row)) == row_map(rows).insert(row.peer@, row@),
        total(rows.push(row)) == total(rows) + row.addresses@.len(),
{
    let more = rows.push(row);
    assert(more.drop_last() =~= rows);
    assert forall|a: int, b: int| 0 <= a < b < more.len() implies (#[trigger] more[a]).peer@ != (
    #[trigger] more[b]).peer@ by {
        if b == rows.len() {
            assert(is_row_of(rows, rows[a].peer@, a));
        }
    }
    assert forall|peer: Seq<u8>| #[trigger] row_map(more).contains_key(peer) <==> row_map(
        rows,
    ).insert(row.peer@, row@).contains_key(peer) by {
        if row_map(more).contains_key(peer) {
            let a = choose|a: int| is_row_of(more, peer, a);
            if a < rows.len() {
                assert(is_row_of(rows, peer, a));
            }
        }
        if row_map(rows).contains_key(peer) {
            let a = choose|a: int| is_row_of(rows, peer, a);
            assert(is_row_of(more, peer, a));
        }
        if peer == row.peer@ {
            assert(is_row_of(more, peer, rows.len() as int));
        }
    }
    assert forall|peer: Seq<u8>| #[trigger] row_map(more).contains_key(peer) implies row_map(
        more,
    )[peer] == row_map(rows).insert(row.peer@, row@)[peer] by {
        let a = choose|a: int| is_row_of(more, peer, a);
        row_map_at(more, a);
        if a < rows.len() {
            row_map_at(rows, a);
            assert(peer != row.peer@);
        }
    }
    assert(row_map(more) =~= row_map(rows).insert(row.peer@, row@));
}

/// The leases that are not yet due at `now`.
pub open spec fn live(leases: Seq<LeaseView>, now: u64) -> Seq<LeaseView>
    decreases leases.len(),
{
    if leases.len() == 0 {
        Seq::empty()
    } else if leases.last().expires_at <= now {
        live(leases.drop_last(), now)
    } else {
        live(leases.drop_last(), now).push(leases.last())
    }
}

/// The addresses of the leases that are due at `now`, in order.
pub open spec fn due(leases: Seq<LeaseView>, now: u64) -> Seq<Seq<u8>>
    decreases leases.len(),
{
    if leases.len() == 0 {
        Seq::empty()
    } else if leases.last().expires_at <= now {
        due(leases.drop_last(), now).push(leases.last().address)
    } else {
        due(leases.drop_last(), now)
    }
}

/// The row of a peer after the due leases are dropped; `None` where none is
/// left.
pub open spec fn expired_row(row: Option<RowView>, now: u64) -> Option<RowView> {
    match row {
        None => None,
        Some(r) => if live(r.leases, now).len() == 0 {
            None
        } else {
            Some(RowView { leases: live(r.leases, now), ..r })
        },
    }
}

/// The book after the due leases of all peers are dropped.
pub open spec fn expired_book(book: Map<Seq<u8>, RowView>, now: u64) -> Map<Seq<u8>, RowView> {
    Map::new(
        |peer: Seq<u8>| book.contains_key(peer) && expired_row(Some(book[peer]), now) is Some,
        |peer: Seq<u8>| expired_row(Some(book[peer]), now)->0,
    )
}

/// The addresses of one peer that are due.
pub open spec fn due_of(row: Option<RowView>, now: u64) -> Seq<Seq<u8>> {
    match row {
        None => Seq::empty(),
        Some(r) => due(r.leases, now),
    }
}

/// The addresses, each with the peer.
pub open spec fn with_peer(peer: Seq<u8>, addresses: Seq<Seq<u8>>) -> Seq<(Seq<u8>, Seq<u8>)> {
    addresses.map_values(|a: Seq<u8>| (peer, a))
}

/// The row with which an update goes on: the one there is, or a new one, with a
/// new window where the old one is over.
pub open spec fn opened_row(row: Option<RowView>, now: u64) -> RowView {
    match row {
        None => RowView { leases: Seq::empty(), window_started: now, new_addresses: 0 },
        Some(r) => if now >= r.window_started && now - r.window_started
            >= IDENTIFY_ADDRESS_WINDOW {
            RowView { window_started: now, new_addresses: 0, ..r }
        } else {
            r
        },
    }
}

/// The lease, renewed where its address is reported.
pub open spec fn renewed(l: LeaseView, now: u64, reported: Seq<Seq<u8>>) -> LeaseView {
    if reported.contains(l.address) {
        LeaseView { address: l.address, expires_at: (now + IDENTIFY_ADDRESS_TTL) as u64 }
    } else {
        l
    }
}

/// The row with the reported addresses renewed.
pub open spec fn renewed_row(row: RowView, now: u64, reported: Seq<Seq<u8>>) -> RowView {
    RowView { leases: row.leases.map_values(|l: LeaseView| renewed(l, now, reported)), ..row }
}

/// The addresses of the leases that are reported, in order.
pub open spec fn reported_of(leases: Seq<LeaseView>, reported: Seq<Seq<u8>>) -> Seq<Seq<u8>>
    decreases leases.len(),
{
    if leases.len() == 0 {
        Seq::empty()
    } else {
        let before = reported_of(leases.drop_last(), reported);
        if reported.contains(leases.last().address) {
            before.push(leases.last().address)
        } else {
            before
        }
    }
}

/// The reported addresses that the row does not hold.
pub open spec fn unknown(reported: Seq<Seq<u8>>, row: RowView) -> Seq<Seq<u8>>
    decreases reported.len(),
{
    if reported.len() == 0 {
        Seq::empty()
    } else {
        let before = unknown(reported.drop_last(), row);
        if holds(row, reported.last()) {
            before
        } else {
            before.push(reported.last())
        }
    }
}

/// The first lease whose address is not reported.
pub open spec fn first_unreported(leases: Seq<LeaseView>, reported: Seq<Seq<u8>>) -> Option<int>
    decreases leases.len(),
{
    if leases.len() == 0 {
        None
    } else {
        match first_unreported(leases.drop_last(), reported) {
            Some(i) => Some(i),
            None => if reported.contains(leases.last().address) {
                None
            } else {
                Some(leases.len() - 1)
            },
        }
    }
}

/// How far an admission has come: the row, the number of addresses of all
/// peers, and what was added and removed.
pub struct Admission {
    pub row: RowView,
    pub count: nat,
    pub added: Seq<Seq<u8>>,
    pub removed: Seq<Seq<u8>>,
}

/// The admission of one more address; `None` where it is refused, and all
/// further ones with it. A full row gives up its oldest address that is not
/// reported; where all are, and where all peers together have no room, the
/// address is refused.
pub open spec fn admit_one(s: Admission, address: Seq<u8>, now: u64, reported: Seq<Seq<u8>>) -> (
    Admission,
    bool,
) {
    if s.row.new_addresses >= IDENTIFY_NEW_ADDRESS_LIMIT {
        (s, false)
    } else if s.row.leases.len() < IDENTIFY_ADDRESS_LIMIT {
        place(s, address, now)
    } else {
        match first_unreported(s.row.leases, reported) {
            None => (s, false),
            Some(i) => place(
                Admission {
                    row: RowView { leases: s.row.leases.remove(i), ..s.row },
                    count: (s.count - 1) as nat,
                    removed: s.removed.push(s.row.leases[i].address),
                    ..s
                },
                address,
                now,
            ),
        }
    }
}

/// The address put behind the others, as far as all peers together have room.
pub open spec fn place(s: Admission, address: Seq<u8>, now: u64) -> (Admission, bool) {
    if s.count >= IDENTIFY_GLOBAL_ADDRESS_LIMIT {
        (s, false)
    } else {
        (
            Admission {
                row: RowView {
                    leases: s.row.leases.push(
                        LeaseView { address, expires_at: (now + IDENTIFY_ADDRESS_TTL) as u64 },
                    ),
                    new_addresses: (s.row.new_addresses + 1) as usize,
                    ..s.row
                },
                count: s.count + 1,
                added: s.added.push(address),
                ..s
            },
            true,
        )
    }
}

/// The admission of the addresses in order, up to the first refusal.
pub open spec fn admit_all(
    s: Admission,
    addresses: Seq<Seq<u8>>,
    now: u64,
    reported: Seq<Seq<u8>>,
) -> Admission
    decreases addresses.len(),
{
    if addresses.len() == 0 {
        s
    } else {
        let (next, admitted) = admit_one(s, addresses[0], now, reported);
        if admitted {
            admit_all(next, addresses.drop_first(), now, reported)
        } else {
            next
        }
    }
}

/// The admission of what a peer reports, into the row `row`.
pub open spec fn admission(row: RowView, count: nat, now: u64, reported: Seq<Seq<u8>>) -> Admission {
    admit_all(
        Admission {
            row: renewed_row(row, now, reported),
            count,
            added: Seq::empty(),
            removed: Seq::empty(),
        },
        sorted_once(unknown(reported, row)),
        now,
        reported,
    )
}

/// The number of addresses of all peers after the due ones of one are dropped.
pub open spec fn count_after_expiry(row: Option<RowView>, count: nat, now: u64) -> nat {
    (count - due_of(row, now).len()) as nat
}

/// The row of a peer after its report; `None` where the peer has none.
pub open spec fn updated_row(
    row: Option<RowView>,
    count: nat,
    now: u64,
    reported: Seq<Seq<u8>>,
) -> Option<RowView> {
    let kept = expired_row(row, now);
    if reported.len() == 0 && kept is None {
        None
    } else {
        let a = admission(
            opened_row(kept, now),
            count_after_expiry(row, count, now),
            now,
            reported,
        );
        if a.row.leases.len() == 0 {
            None
        } else {
            Some(a.row)
        }
    }
}

/// What the report of a peer changes.
pub open spec fn update_changes(
    peer: Seq<u8>,
    row: Option<RowView>,
    count: nat,
    now: u64,
    reported: Seq<Seq<u8>>,
) -> ChangesView {
    let kept = expired_row(row, now);
    if reported.len() == 0 && kept is None {
        ChangesView {
            added: Seq::empty(),
            refreshed: Seq::empty(),
            removed: with_peer(peer, due_of(row, now)),
        }
    } else {
        let open = opened_row(kept, now);
        let a = admission(open, count_after_expiry(row, count, now), now, reported);
        ChangesView {
            added: a.added,
            refreshed: reported_of(open.leases, reported),
            removed: with_peer(peer, due_of(row, now)) + with_peer(peer, a.removed),
        }
    }
}

/// The row of a peer, where it has one.
pub open spec fn row_of(book: Map<Seq<u8>, RowView>, peer: Seq<u8>) -> Option<RowView> {
    if book.contains_key(peer) { Some(book[peer]) } else { None }
}

/// The book with another row, or none, for a peer.
pub open spec fn with_row(book: Map<Seq<u8>, RowView>, peer: Seq<u8>, row: Option<RowView>) -> Map<
    Seq<u8>,
    RowView,
> {
    match row {
        Some(r) => book.insert(peer, r),
        None => book.remove(peer),
    }
}

/// The addresses of the report with the peer's suffix, those left out that
/// cannot have it.
pub open spec fn canonical(report: Seq<Seq<u8>>, peer: Seq<u8>) -> Seq<Seq<u8>>
    decreases report.len(),
{
    if report.len() == 0 {
        Seq::empty()
    } else {
        let before = canonical(report.drop_last(), peer);
        match with_peer_suffix(report.last(), peer) {
            Some(a) => before.push(a),
            None => before,
        }
    }
}

/// Whether the list holds the byte string.
fn list_has(list: &Vec<Vec<u8>>, a: &Vec<u8>) -> (r: bool)
    ensures
        r == contents(list@).contains(a@),
{
    let mut i: usize = 0;
    while i < list.len()
        invariant
            i <= list.len(),
            forall|j: int| 0 <= j < i ==> contents(list@)[j] != a@,
        decreases list.len() - i,
    {
        if same_bytes(&list[i], a) {
            assert(contents(list@)[i as int] == a@);
            return true;
        }
        i = i + 1;
    }
    false
}

fn row_has(row: &IdentifyPeerAddresses, a: &Vec<u8>) -> (r: bool)
    ensures
        r == holds(row@, a@),
{
    let mut i: usize = 0;
    while i < row.addresses.len()
        invariant
            i <= row.addresses.len(),
            forall|j: int| 0 <= j < i ==> (#[trigger] row@.leases[j]).address != a@,
        decreases row.addresses.len() - i,
    {
        if same_bytes(&row.addresses[i].address, a) {
            assert(row@.leases[i as int].address == a@);
            return true;
        }
        i = i + 1;
    }
    false
}

/// Drops the due leases of a row, and returns their addresses.
fn expire_state(row: &mut IdentifyPeerAddresses, now: u64) -> (r: Vec<Vec<u8>>)
    ensures
        final(row).peer == old(row).peer,
        final(row)@ == (RowView { leases: live(old(row)@.leases, now), ..old(row)@ }),
        contents(r@) == due(old(row)@.leases, now),
{
    let mut kept: Vec<IdentifyAddress> = Vec::new();
    let mut dropped: Vec<Vec<u8>> = Vec::new();
    let mut i: usize = 0;
    let ghost all = row@.leases;
    proof {
        assert(all.take(0) =~= Seq::<LeaseView>::empty());
        assert(lease_views(kept@) =~= Seq::<LeaseView>::empty());
        assert(contents(dropped@) =~= Seq::<Seq<u8>>::empty());
    }
    while i < row.addresses.len()
        invariant
            i <= row.addresses.len(),
            *row == *old(row),
            all == lease_views(row.addresses@),
            lease_views(kept@) == live(all.take(i as int), now),
            contents(dropped@) == due(all.take(i as int), now),
        decreases row.addresses.len() - i,
    {
        proof {
            assert(all.take(i as int + 1).drop_last() =~= all.take(i as int));
            assert(all.take(i as int + 1).last() == all[i as int]);
        }
        let address = copy_bytes(&row.addresses[i].address);
        let expires_at: u64 = row.addresses[i].expires_at;
        if expires_at <= now {
            proof {
                assert(contents(dropped@.push(address)) =~= contents(dropped@).push(address@));
            }
            dropped.push(address);
        } else {
            let lease = IdentifyAddress { address, expires_at };
            proof {
                assert(lease_views(kept@.push(lease)) =~= lease_views(kept@).push(lease@));
            }
            kept.push(lease);
        }
        i = i + 1;
    }
    proof {
        assert(all.take(all.len() as int) =~= all);
    }
    row.addresses = kept;
    dropped
}

pub(crate) proof fn live_is_part(leases: Seq<LeaseView>, now: u64)
    ensures
        live(leases, now).len() + due(leases, now).len() == leases.len(),
        distinct(leases) ==> distinct(live(leases, now)),
        forall|i: int|
            0 <= i < live(leases, now).len() ==> exists|j: int|
                0 <= j < leases.len() && leases[j] == #[trigger] live(leases, now)[i],
        forall|i: int|
            0 <= i < live(leases, now).len() ==> (#[trigger] live(leases, now)[i]).expires_at > now,
    decreases leases.len(),
{
    if leases.len() > 0 {
        let shorter = leases.drop_last();
        live_is_part(shorter, now);
        let kept = live(leases, now);
        assert forall|i: int| 0 <= i < kept.len() implies exists|j: int|
            0 <= j < leases.len() && leases[j] == #[trigger] kept[i] by {
            if i < live(shorter, now).len() {
                assert(kept[i] == live(shorter, now)[i]);
                let j = choose|j: int| 0 <= j < shorter.len() && shorter[j] == live(shorter, now)[i];
                assert(leases[j] == kept[i]);
            } else {
                assert(leases[leases.len() - 1] == kept[i]);
            }
        }
        if distinct(leases) {
            assert(distinct(shorter));
            assert forall|i: int, j: int| 0 <= i < j < kept.len() implies (#[trigger]
            kept[i]).address != (#[trigger] kept[j]).address by {
                if j == live(shorter, now).len() {
                    assert(kept[i] == live(shorter, now)[i]);
                    let k = choose|k: int|
                        0 <= k < shorter.len() && shorter[k] == live(shorter, now)[i];
                    assert(leases[k].address != leases[leases.len() - 1].address);
                } else {
                    assert(kept[i] == live(shorter, now)[i]);
                    assert(kept[j] == live(shorter, now)[j]);
                }
            }
        }
    }
}

proof fn due_is_part(leases: Seq<LeaseView>, now: u64, i: int)
    requires
        0 <= i < due(leases, now).len(),
    ensures
        exists|j: int|
            0 <= j < leases.len() && (#[trigger] leases[j]).address == due(leases, now)[i],
    decreases leases.len(),
{
    let shorter = leases.drop_last();
    if i < due(shorter, now).len() {
        due_is_part(shorter, now, i);
        let j = choose|j: int|
            0 <= j < shorter.len() && (#[trigger] shorter[j]).address == due(shorter, now)[i];
        assert(leases[j].address == due(leases, now)[i]);
    } else {
        assert(leases[leases.len() - 1].address == due(leases, now)[i]);
    }
}

proof fn due_is_distinct(leases: Seq<LeaseView>, now: u64)
    requires
        distinct(leases),
    ensures
        due(leases, now).no_duplicates(),
    decreases leases.len(),
{
    if leases.len() > 0 {
        let shorter = leases.drop_last();
        assert(distinct(shorter));
        due_is_distinct(shorter, now);
        let dropped = due(shorter, now);
        assert forall|i: int| 0 <= i < dropped.len() implies #[trigger] dropped[i]
            != leases.last().address by {
            due_is_part(shorter, now, i);
            let j = choose|j: int|
                0 <= j < shorter.len() && (#[trigger] shorter[j]).address == dropped[i];
            assert(leases[j].address != leases[leases.len() - 1].address);
        }
    }
}

/// Whether every address of the list ends in the peer's id already.
pub open spec fn all_suffixed(list: Seq<Seq<u8>>, peer: Seq<u8>) -> bool {
    forall|i: int|
        0 <= i < list.len() ==> with_peer_suffix(#[trigger] list[i], peer) == Some(list[i])
}

/// The addresses of a report that can have the peer's suffix, with it; of a
/// long report only the first [`IDENTIFY_REPORT_ADDRESS_LIMIT`].
pub fn canonical_report(peer: &Vec<u8>, report: &Vec<Vec<u8>>) -> (r: Vec<Vec<u8>>)
    ensures
        contents(r@) == canonical(looked_at(contents(report@)), peer@),
        all_suffixed(contents(r@), peer@),
{
    let mut out: Vec<Vec<u8>> = Vec::new();
    let mut i: usize = 0;
    let ghost all = contents(report@);
    proof {
        assert(all.take(0) =~= Seq::<Seq<u8>>::empty());
        assert(contents(out@) =~= Seq::<Seq<u8>>::empty());
    }
    while i < report.len() && i < IDENTIFY_REPORT_ADDRESS_LIMIT
        invariant
            i <= report.len(),
            i <= IDENTIFY_REPORT_ADDRESS_LIMIT,
            all == contents(report@),
            contents(out@) == canonical(all.take(i as int), peer@),
            all_suffixed(contents(out@), peer@),
        decreases report.len() - i,
    {
        proof {
            assert(all.take(i as int + 1).drop_last() =~= all.take(i as int));
            assert(all.take(i as int + 1).last() == all[i as int]);
        }
        match with_p2p(&report[i], peer) {
            Some(a) => {
                proof {
                    assert(contents(out@.push(a)) =~= contents(out@).push(a@));
                }
                out.push(a);
            },
            None => {},
        }
        i = i + 1;
    }
    proof {
        assert(all.take(i as int) =~= looked_at(all));
    }
    out
}

/// Renews the reported leases of a row, and returns their addresses.
fn renew(row: &mut IdentifyPeerAddresses, now: u64, reported: &Vec<Vec<u8>>) -> (r: Vec<Vec<u8>>)
    requires
        now + IDENTIFY_ADDRESS_TTL <= u64::MAX,
    ensures
        final(row).peer == old(row).peer,
        final(row)@ == renewed_row(old(row)@, now, contents(reported@)),
        contents(r@) == reported_of(old(row)@.leases, contents(reported@)),
{
    let mut kept: Vec<IdentifyAddress> = Vec::new();
    let mut refreshed: Vec<Vec<u8>> = Vec::new();
    let mut i: usize = 0;
    let ghost all = row@.leases;
    let ghost rep = contents(reported@);
    proof {
        assert(all.take(0) =~= Seq::<LeaseView>::empty());
        assert(contents(refreshed@) =~= Seq::<Seq<u8>>::empty());
    }
    while i < row.addresses.len()
        invariant
            i <= row.addresses.len(),
            *row == *old(row),
            now + IDENTIFY_ADDRESS_TTL <= u64::MAX,
            all == lease_views(row.addresses@),
            rep == contents(reported@),
            kept.len() == i,
            forall|j: int| 0 <= j < i ==> (#[trigger] kept[j])@ == renewed(all[j], now, rep),
            contents(refreshed@) == reported_of(all.take(i as int), rep),
        decreases row.addresses.len() - i,
    {
        proof {
            assert(all.take(i as int + 1).drop_last() =~= all.take(i as int));
            assert(all.take(i as int + 1).last() == all[i as int]);
        }
        let address = copy_bytes(&row.addresses[i].address);
        if list_has(reported, &row.addresses[i].address) {
            let again = copy_bytes(&row.addresses[i].address);
            proof {
                assert(contents(refreshed@.push(again)) =~= contents(refreshed@).push(again@));
            }
            refreshed.push(again);
            kept.push(IdentifyAddress { address, expires_at: now + IDENTIFY_ADDRESS_TTL });
        } else {
            kept.push(IdentifyAddress { address, expires_at: row.addresses[i].expires_at });
        }
        i = i + 1;
    }
    proof {
        assert(all.take(all.len() as int) =~= all);
        assert(lease_views(kept@) =~= all.map_values(|l: LeaseView| renewed(l, now, rep)));
    }
    row.addresses = kept;
    refreshed
}

/// The reported addresses that the row does not hold, sorted.
fn candidates(reported: &Vec<Vec<u8>>, row: &IdentifyPeerAddresses) -> (r: Vec<Vec<u8>>)
    ensures
        contents(r@) == sorted_once(unknown(contents(reported@), row@)),
{
    let mut out: Vec<Vec<u8>> = Vec::new();
    let mut i: usize = 0;
    let ghost all = contents(reported@);
    proof {
        assert(all.take(0) =~= Seq::<Seq<u8>>::empty());
        assert(contents(out@) =~= Seq::<Seq<u8>>::empty());
    }
    while i < reported.len()
        invariant
            i <= reported.len(),
            all == contents(reported@),
            contents(out@) == sorted_once(unknown(all.take(i as int), row@)),
        decreases reported.len() - i,
    {
        proof {
            assert(all.take(i as int + 1).drop_last() =~= all.take(i as int));
            assert(all.take(i as int + 1).last() == all[i as int]);
            let before = unknown(all.take(i as int), row@);
            assert(before.push(all[i as int]).drop_last() =~= before);
        }
        if !row_has(row, &reported[i]) {
            insert_sorted(&mut out, copy_bytes(&reported[i]));
        }
        i = i + 1;
    }
    proof {
        assert(all.take(all.len() as int) =~= all);
    }
    out
}

fn find_unreported(row: &IdentifyPeerAddresses, reported: &Vec<Vec<u8>>) -> (r: Option<usize>)
    ensures
        r is Some == first_unreported(row@.leases, contents(reported@)) is Some,
        r is Some ==> r->0 == first_unreported(row@.leases, contents(reported@))->0 && r->0
            < row.addresses@.len(),
{
    let mut i: usize = 0;
    let ghost all = row@.leases;
    let ghost rep = contents(reported@);
    proof {
        assert(all.take(0) =~= Seq::<LeaseView>::empty());
    }
    while i < row.addresses.len()
        invariant
            i <= row.addresses.len(),
            all == lease_views(row.addresses@),
            rep == contents(reported@),
            first_unreported(all.take(i as int), rep) is None,
        decreases row.addresses.len() - i,
    {
        proof {
            assert(all.take(i as int + 1).drop_last() =~= all.take(i as int));
            assert(all.take(i as int + 1).last() == all[i as int]);
        }
        if !list_has(reported, &row.addresses[i].address) {
            proof {
                first_unreported_extends(all, rep, i as int + 1);
            }
            return Some(i);
        }
        i = i + 1;
    }
    proof {
        assert(all.take(all.len() as int) =~= all);
    }
    None
}

proof fn first_unreported_extends(leases: Seq<LeaseView>, reported: Seq<Seq<u8>>, n: int)
    requires
        0 <= n <= leases.len(),
        first_unreported(leases.take(n), reported) is Some,
    ensures
        first_unreported(leases, reported) == first_unreported(leases.take(n), reported),
    decreases leases.len(),
{
    if n == leases.len() {
        assert(leases.take(n) =~= leases);
    } else {
        assert(leases.drop_last().take(n) =~= leases.take(n));
        first_unreported_extends(leases.drop_last(), reported, n);
    }
}

pub(crate) proof fn first_unreported_is_a_place(leases: Seq<LeaseView>, reported: Seq<Seq<u8>>)
    ensures
        first_unreported(leases, reported) matches Some(i) ==> 0 <= i < leases.len()
            && !reported.contains(leases[i].address),
    decreases leases.len(),
{
    if leases.len() > 0 {
        first_unreported_is_a_place(leases.drop_last(), reported);
    }
}

/// Whether an admission is within the limits.
pub open spec fn admission_wf(s: Admission) -> bool {
    &&& s.row.leases.len() <= IDENTIFY_ADDRESS_LIMIT
    &&& s.row.leases.len() <= s.count <= IDENTIFY_GLOBAL_ADDRESS_LIMIT
    &&& s.row.new_addresses <= IDENTIFY_NEW_ADDRESS_LIMIT
    &&& distinct(s.row.leases)
}

pub(crate) proof fn admit_one_keeps(s: Admission, address: Seq<u8>, now: u64, reported: Seq<Seq<u8>>)
    requires
        admission_wf(s),
        !holds(s.row, address),
    ensures
        admission_wf(admit_one(s, address, now, reported).0),
        forall|a: Seq<u8>|
            a != address && !holds(s.row, a) ==> !#[trigger] holds(
                admit_one(s, address, now, reported).0.row,
                a,
            ),
        admit_one(s, address, now, reported).0.count - admit_one(
            s,
            address,
            now,
            reported,
        ).0.row.leases.len() == s.count - s.row.leases.len(),
{
    first_unreported_is_a_place(s.row.leases, reported);
    let next = admit_one(s, address, now, reported).0;
    let old = s.row.leases;
    let new = next.row.leases;
    let cut = if s.row.new_addresses < IDENTIFY_NEW_ADDRESS_LIMIT && old.len()
        >= IDENTIFY_ADDRESS_LIMIT && first_unreported(old, reported) is Some {
        first_unreported(old, reported)->0
    } else {
        old.len() as int
    };
    assert forall|i: int| 0 <= i < new.len() implies (#[trigger] new[i]).address == address || (
    exists|j: int| 0 <= j < old.len() && j != cut && old[j] == new[i]) by {
        if i < cut && i < old.len() {
            assert(old[i] == new[i]);
        } else if i + 1 < old.len() {
            assert(old[i + 1] == new[i]);
        }
    }
    assert forall|i: int, j: int| 0 <= i < j < new.len() implies (#[trigger] new[i]).address != (
    #[trigger] new[j]).address by {
        let a = if i < cut { i } else { i + 1 };
        let b = if j < cut { j } else { j + 1 };
        if b < old.len() {
            assert(new[i] == old[a]);
            assert(new[j] == old[b]);
        } else {
            assert(new[i] == old[a]);
            assert(old[a].address != address);
        }
    }
    assert forall|a: Seq<u8>| a != address && !holds(s.row, a) implies !#[trigger] holds(
        next.row,
        a,
    ) by {
        if holds(next.row, a) {
            let i = choose|i: int| 0 <= i < new.len() && (#[trigger] new[i]).address == a;
            let j = choose|j: int| 0 <= j < old.len() && j != cut && old[j] == new[i];
            assert(old[j].address == a);
        }
    }
}

/// Admits the addresses in order, up to the first refusal; returns those added
/// and those removed.
fn admit_new(
    row: &mut IdentifyPeerAddresses,
    count: &mut usize,
    now: u64,
    reported: &Vec<Vec<u8>>,
    addresses: Vec<Vec<u8>>,
) -> (r: (Vec<Vec<u8>>, Vec<Vec<u8>>))
    requires
        now + IDENTIFY_ADDRESS_TTL <= u64::MAX,
        admission_wf(
            (Admission {
                row: old(row)@,
                count: *old(count) as nat,
                added: Seq::empty(),
                removed: Seq::empty(),
            }),
        ),
        forall|i: int|
            0 <= i < addresses@.len() ==> !holds(old(row)@, #[trigger] addresses@[i]@),
        forall|i: int, j: int|
            0 <= i < j < addresses@.len() ==> #[trigger] addresses@[i]@ != #[trigger]
            addresses@[j]@,
    ensures
        final(row).peer == old(row).peer,
        ({
            let start = Admission {
                row: old(row)@,
                count: *old(count) as nat,
                added: Seq::empty(),
                removed: Seq::empty(),
            };
            let end = admit_all(start, contents(addresses@), now, contents(reported@));
            &&& end == (Admission {
                row: final(row)@,
                count: *final(count) as nat,
                added: contents(r.0@),
                removed: contents(r.1@),
            })
            &&& admission_wf(end)
            &&& end.count - end.row.leases.len() == start.count - start.row.leases.len()
        }),
{
    let mut added: Vec<Vec<u8>> = Vec::new();
    let mut removed: Vec<Vec<u8>> = Vec::new();
    let mut i: usize = 0;
    let ghost rep = contents(reported@);
    let ghost all = contents(addresses@);
    let ghost start = Admission {
        row: row@,
        count: *count as nat,
        added: Seq::empty(),
        removed: Seq::empty(),
    };
    let ghost mut s = start;
    proof {
        assert(all.skip(0) =~= all);
        assert(contents(added@) =~= Seq::<Seq<u8>>::empty());
        assert(contents(removed@) =~= Seq::<Seq<u8>>::empty());
    }
    while i < addresses.len()
        invariant
            i <= addresses.len(),
            now + IDENTIFY_ADDRESS_TTL <= u64::MAX,
            row.peer == old(row).peer,
            rep == contents(reported@),
            all == contents(addresses@),
            start == (Admission {
                row: old(row)@,
                count: *old(count) as nat,
                added: Seq::empty(),
                removed: Seq::empty(),
            }),
            s == (Admission {
                row: row@,
                count: *count as nat,
                added: contents(added@),
                removed: contents(removed@),
            }),
            admission_wf(s),
            s.count - s.row.leases.len() == start.count - start.row.leases.len(),
            admit_all(s, all.skip(i as int), now, rep) == admit_all(start, all, now, rep),
            forall|j: int| i <= j < addresses@.len() ==> !holds(row@, #[trigger] addresses@[j]@),
            forall|j: int, k: int|
                0 <= j < k < addresses@.len() ==> #[trigger] addresses@[j]@ != #[trigger]
                addresses@[k]@,
        decreases addresses.len() - i,
    {
        let ghost address = addresses@[i as int]@;
        let ghost next = admit_one(s, address, now, rep);
        proof {
            assert(all.skip(i as int)[0] == address);
            assert(all.skip(i as int).drop_first() =~= all.skip(i as int + 1));
            admit_one_keeps(s, address, now, rep);
            first_unreported_is_a_place(s.row.leases, rep);
        }
        if row.new_addresses >= IDENTIFY_NEW_ADDRESS_LIMIT {
            return (added, removed);
        }
        if row.addresses.len() >= IDENTIFY_ADDRESS_LIMIT {
            match find_unreported(row, reported) {
                None => {
                    return (added, removed);
                },
                Some(at) => {
                    proof {
                        assert(lease_views(row.addresses@.remove(at as int)) =~= lease_views(
                            row.addresses@,
                        ).remove(at as int));
                    }
                    let gone = row.addresses.remove(at);
                    *count = *count - 1;
                    proof {
                        assert(contents(removed@.push(gone.address)) =~= contents(removed@).push(
                            gone.address@,
                        ));
                    }
                    removed.push(gone.address);
                },
            }
        }
        if *count >= IDENTIFY_GLOBAL_ADDRESS_LIMIT {
            return (added, removed);
        }
        let lease = IdentifyAddress {
            address: copy_bytes(&addresses[i]),
            expires_at: now + IDENTIFY_ADDRESS_TTL,
        };
        let copy = copy_bytes(&addresses[i]);
        proof {
            assert(lease_views(row.addresses@.push(lease)) =~= lease_views(row.addresses@).push(
                lease@,
            ));
            assert(contents(added@.push(copy)) =~= contents(added@).push(copy@));
        }
        row.new_addresses = row.new_addresses + 1;
        row.addresses.push(lease);
        *count = *count + 1;
        added.push(copy);
        proof {
            s = next.0;
            assert forall|j: int| i + 1 <= j < addresses@.len() implies !holds(
                row@,
                #[trigger] addresses@[j]@,
            ) by {
                assert(addresses@[i as int]@ != addresses@[j]@);
            }
        }
        i = i + 1;
    }
    proof {
        assert(all.skip(all.len() as int) =~= Seq::<Seq<u8>>::empty());
    }
    (added, removed)
}

/// The addresses, each with the peer.
fn pairs_of(peer: &Vec<u8>, addresses: &Vec<Vec<u8>>) -> (r: Vec<(Vec<u8>, Vec<u8>)>)
    ensures
        pair_contents(r@) == with_peer(peer@, contents(addresses@)),
{
    let mut out: Vec<(Vec<u8>, Vec<u8>)> = Vec::new();
    let mut i: usize = 0;
    while i < addresses.len()
        invariant
            i <= addresses.len(),
            out.len() == i,
            forall|j: int|
                0 <= j < i ==> (#[trigger] out[j]).0@ == peer@ && out[j].1@ == addresses[j]@,
        decreases addresses.len() - i,
    {
        out.push((copy_bytes(peer), copy_bytes(&addresses[i])));
        i = i + 1;
    }
    assert(pair_contents(out@) =~= with_peer(peer@, contents(addresses@)));
    out
}

pub(crate) proof fn unknown_is_not_held(reported: Seq<Seq<u8>>, row: RowView, a: Seq<u8>)
    ensures
        unknown(reported, row).contains(a) <==> reported.contains(a) && !holds(row, a),
    decreases reported.len(),
{
    if reported.len() > 0 {
        let shorter = reported.drop_last();
        unknown_is_not_held(shorter, row, a);
        let before = unknown(shorter, row);
        if unknown(reported, row).contains(a) {
            let i = choose|i: int|
                0 <= i < unknown(reported, row).len() && unknown(reported, row)[i] == a;
            if i < before.len() {
                assert(before[i] == a);
                let j = choose|j: int| 0 <= j < shorter.len() && shorter[j] == a;
                assert(reported[j] == a);
            } else {
                assert(reported[reported.len() - 1] == a);
            }
        }
        if reported.contains(a) && !holds(row, a) {
            let j = choose|j: int| 0 <= j < reported.len() && reported[j] == a;
            if j < shorter.len() {
                assert(shorter[j] == a);
                let i = choose|i: int| 0 <= i < before.len() && before[i] == a;
                assert(unknown(reported, row)[i] == a);
            } else {
                assert(unknown(reported, row)[before.len() as int] == a);
            }
        }
    }
}

pub(crate) proof fn renewed_row_keeps_addresses(row: RowView, now: u64, reported: Seq<Seq<u8>>)
    ensures
        renewed_row(row, now, reported).leases.len() == row.leases.len(),
        distinct(row.leases) ==> distinct(renewed_row(row, now, reported).leases),
        forall|a: Seq<u8>| #[trigger] holds(renewed_row(row, now, reported), a) <==> holds(row, a),
{
    let new = renewed_row(row, now, reported).leases;
    assert forall|i: int| 0 <= i < new.len() implies (#[trigger] new[i]).address
        == row.leases[i].address by {}
    assert forall|a: Seq<u8>| #[trigger] holds(renewed_row(row, now, reported), a) <==> holds(
        row,
        a,
    ) by {
        if holds(row, a) {
            let i = choose|i: int|
                0 <= i < row.leases.len() && (#[trigger] row.leases[i]).address == a;
            assert(new[i].address == a);
        }
        if holds(renewed_row(row, now, reported), a) {
            let i = choose|i: int| 0 <= i < new.len() && (#[trigger] new[i]).address == a;
            assert(row.leases[i].address == a);
        }
    }
    if distinct(row.leases) {
        assert forall|i: int, j: int| 0 <= i < j < new.len() implies (#[trigger] new[i]).address
            != (#[trigger] new[j]).address by {
            assert(row.leases[i].address != row.leases[j].address);
        }
    }
}

impl IdentifyAddressBook {
    /// No addresses.
    pub fn new() -> (r: Self)
        ensures
            r.wf(),
            r@ == Map::<Seq<u8>, RowView>::empty(),
            r.address_count == 0,
            book_suffixed(r@),
    {
        let r = IdentifyAddressBook { peers: Vec::new(), address_count: 0 };
        assert(r@ =~= Map::<Seq<u8>, RowView>::empty());
        r
    }

    fn find(&self, peer: &Vec<u8>) -> (r: Option<usize>)
        ensures
            r is Some == self@.contains_key(peer@),
            r is Some ==> is_row_of(self.peers@, peer@, r->0 as int),
    {
        let mut i: usize = 0;
        while i < self.peers.len()
            invariant
                i <= self.peers.len(),
                forall|j: int| 0 <= j < i ==> !#[trigger] is_row_of(self.peers@, peer@, j),
            decreases self.peers.len() - i,
        {
            if same_bytes(&self.peers[i].peer, peer) {
                assert(is_row_of(self.peers@, peer@, i as int));
                return Some(i);
            }
            i = i + 1;
        }
        None
    }

    /// Takes the row of a peer out of the book.
    fn take_row(&mut self, peer: &Vec<u8>) -> (r: Option<IdentifyPeerAddresses>)
        requires
            old(self).wf(),
        ensures
            r is Some == old(self)@.contains_key(peer@),
            r is Some ==> r->0@ == old(self)@[peer@] && r->0.peer@ == peer@ && row_wf(r->0@),
            final(self)@ == old(self)@.remove(peer@),
            one_row_each(final(self).peers@),
            forall|i: int|
                0 <= i < final(self).peers@.len() ==> row_wf((#[trigger] final(self).peers@[i])@),
            final(self).address_count == old(self).address_count,
            final(self).address_count == total(final(self).peers@) + (match r {
                Some(row) => row.addresses@.len(),
                None => 0,
            }),
    {
        match self.find(peer) {
            Some(i) => {
                proof {
                    row_map_at(self.peers@, i as int);
                    row_map_remove(self.peers@, i as int);
                }
                Some(self.peers.remove(i))
            },
            None => {
                assert(self@ =~= old(self)@.remove(peer@));
                None
            },
        }
    }

    /// Drops the due addresses of one peer, and returns them.
    pub fn expire_peer(&mut self, peer: &Vec<u8>, now: u64) -> (r: Vec<(Vec<u8>, Vec<u8>)>)
        requires
            old(self).wf(),
        ensures
            final(self).wf(),
            pair_contents(r@) == with_peer(peer@, due_of(row_of(old(self)@, peer@), now)),
            final(self)@ == with_row(
                old(self)@,
                peer@,
                expired_row(row_of(old(self)@, peer@), now),
            ),
            final(self).address_count == old(self).address_count - r@.len(),
            book_suffixed(old(self)@) ==> book_suffixed(final(self)@),
    {
        let ghost before = row_of(self@, peer@);
        proof {
            if book_suffixed(old(self)@) {
                expiry_keeps_suffixes(before, peer@, now);
            }
        }
        match self.take_row(peer) {
            None => {
                let none: Vec<(Vec<u8>, Vec<u8>)> = Vec::new();
                assert(pair_contents(none@) =~= with_peer(peer@, due_of(before, now)));
                none
            },
            Some(mut row) => {
                proof {
                    live_is_part(row@.leases, now);
                }
                let dropped = expire_state(&mut row, now);
                let pairs = pairs_of(peer, &dropped);
                proof {
                    assert(pair_contents(pairs@).len() == pairs@.len());
                    assert(contents(dropped@).len() == dropped@.len());
                    assert(row@.leases.len() == row.addresses@.len());
                }
                self.address_count = self.address_count - dropped.len();
                if row.addresses.len() > 0 {
                    proof {
                        row_map_push(self.peers@, row);
                        assert(row_wf(row@));
                    }
                    self.peers.push(row);
                }
                assert(self@ =~= with_row(old(self)@, peer@, expired_row(before, now)));
                pairs
            },
        }
    }

    /// Takes up what a peer reports: first the due addresses go, then the ones
    /// it has are renewed where they are reported, then new ones are admitted
    /// in order, within the limits. `reported` holds the addresses with the
    /// peer's suffix.
    pub fn update_canonical(&mut self, peer: &Vec<u8>, now: u64, reported: &Vec<Vec<u8>>) -> (r:
        IdentifyAddressChanges)
        requires
            old(self).wf(),
            now + IDENTIFY_ADDRESS_TTL <= u64::MAX,
        ensures
            final(self).wf(),
            r@ == update_changes(
                peer@,
                row_of(old(self)@, peer@),
                old(self).address_count as nat,
                now,
                contents(reported@),
            ),
            final(self)@ == with_row(
                old(self)@,
                peer@,
                updated_row(
                    row_of(old(self)@, peer@),
                    old(self).address_count as nat,
                    now,
                    contents(reported@),
                ),
            ),
            book_suffixed(old(self)@) && all_suffixed(contents(reported@), peer@)
                ==> book_suffixed(final(self)@),
    {
        let ghost before = row_of(self@, peer@);
        let ghost rep = contents(reported@);
        proof {
            if book_suffixed(self@) && all_suffixed(rep, peer@) {
                held_addresses_end_in_their_peer(
                    before,
                    peer@,
                    self.address_count as nat,
                    now,
                    rep,
                );
            }
        }
        let ghost kept = expired_row(before, now);
        let ghost count0 = self.address_count as nat;
        let removed = self.expire_peer(peer, now);
        proof {
            assert(with_peer(peer@, due_of(before, now)).len() == due_of(before, now).len());
            assert(pair_contents(removed@).len() == removed@.len());
            assert(self.address_count as nat == count_after_expiry(before, count0, now));
        }
        let taken = self.take_row(peer);
        let mut row = match taken {
            Some(row) => row,
            None => {
                if reported.len() == 0 {
                    let changes = IdentifyAddressChanges {
                        added: Vec::new(),
                        refreshed: Vec::new(),
                        removed,
                    };
                    proof {
                        assert(contents(changes.added@) =~= Seq::<Seq<u8>>::empty());
                        assert(contents(changes.refreshed@) =~= Seq::<Seq<u8>>::empty());
                        assert(rep.len() == 0);
                        assert(self@ =~= with_row(
                            old(self)@,
                            peer@,
                            updated_row(before, count0, now, rep),
                        ));
                    }
                    return changes;
                }
                let fresh = IdentifyPeerAddresses {
                    peer: copy_bytes(peer),
                    addresses: Vec::new(),
                    window_started: now,
                    new_addresses: 0,
                };
                assert(fresh@.leases =~= Seq::<LeaseView>::empty());
                fresh
            },
        };
        if now.saturating_sub(row.window_started) >= IDENTIFY_ADDRESS_WINDOW {
            row.window_started = now;
            row.new_addresses = 0;
        }
        let ghost open = opened_row(kept, now);
        assert(row@ == open);
        let new = candidates(reported, &row);
        let refreshed = renew(&mut row, now, reported);
        let mut count: usize = self.address_count;
        let ghost start = Admission {
            row: row@,
            count: count as nat,
            added: Seq::empty(),
            removed: Seq::empty(),
        };
        proof {
            renewed_row_keeps_addresses(open, now, rep);
            crate::bytes::sorted_once_sorts(unknown(rep, open));
            assert forall|i: int| 0 <= i < new@.len() implies !holds(
                row@,
                #[trigger] new@[i]@,
            ) by {
                let c = contents(new@);
                assert(c[i] == new@[i]@);
                assert(c.contains(c[i]));
                unknown_is_not_held(rep, open, c[i]);
            }
            assert forall|i: int, j: int| 0 <= i < j < new@.len() implies #[trigger] new@[i]@
                != #[trigger] new@[j]@ by {
                let c = contents(new@);
                assert(crate::bytes::bytes_lt(c[i], c[j]));
                crate::bytes::bytes_lt_trichotomy(c[i], c[j]);
            }
            assert(row@.leases.len() == open.leases.len());
            assert(row.addresses@.len() == row@.leases.len());
        }
        let (added, evicted) = admit_new(&mut row, &mut count, now, reported, new);
        let gone = pairs_of(peer, &evicted);
        let mut removed = removed;
        let mut gone = gone;
        proof {
            assert(pair_contents(removed@ + gone@) =~= pair_contents(removed@) + pair_contents(
                gone@,
            ));
            assert(row.addresses@.len() == row@.leases.len());
        }
        removed.append(&mut gone);
        self.address_count = count;
        if row.addresses.len() > 0 {
            proof {
                row_map_push(self.peers@, row);
            }
            self.peers.push(row);
        }
        assert(self@ =~= with_row(old(self)@, peer@, updated_row(before, count0, now, rep)));
        IdentifyAddressChanges { added, refreshed, removed }
    }

    /// Takes up what a peer reports of its addresses.
    pub fn update(&mut self, peer: &Vec<u8>, now: u64, addresses: &Vec<Vec<u8>>) -> (r:
        IdentifyAddressChanges)
        requires
            old(self).wf(),
            now + IDENTIFY_ADDRESS_TTL <= u64::MAX,
        ensures
            final(self).wf(),
            r@ == update_changes(
                peer@,
                row_of(old(self)@, peer@),
                old(self).address_count as nat,
                now,
                canonical(looked_at(contents(addresses@)), peer@),
            ),
            final(self)@ == with_row(
                old(self)@,
                peer@,
                updated_row(
                    row_of(old(self)@, peer@),
                    old(self).address_count as nat,
                    now,
                    canonical(looked_at(contents(addresses@)), peer@),
                ),
            ),
            all_suffixed(r@.added, peer@),
            all_suffixed(canonical(looked_at(contents(addresses@)), peer@), peer@),
            book_suffixed(old(self)@) ==> book_suffixed(final(self)@),
    {
        let reported = canonical_report(peer, addresses);
        let ghost rep = contents(reported@);
        let ghost before = row_of(self@, peer@);
        let ghost count = self.address_count as nat;
        let changes = self.update_canonical(peer, now, &reported);
        proof {
            let added = update_changes(peer@, before, count, now, rep).added;
            assert forall|i: int| 0 <= i < added.len() implies with_peer_suffix(
                #[trigger] added[i],
                peer@,
            ) == Some(added[i]) by {
                added_addresses_are_reported(peer@, before, count, now, rep, i);
                let k = choose|k: int| 0 <= k < rep.len() && rep[k] == added[i];
                assert(with_peer_suffix(rep[k], peer@) == Some(rep[k]));
            }
        }
        changes
    }

    /// The peers of the book, as they stand.
    fn peer_list(&self) -> (r: Vec<Vec<u8>>)
        ensures
            r@.len() == self.peers@.len(),
            forall|i: int| 0 <= i < r@.len() ==> (#[trigger] r@[i])@ == self.peers@[i].peer@,
    {
        let mut out: Vec<Vec<u8>> = Vec::new();
        let mut i: usize = 0;
        while i < self.peers.len()
            invariant
                i <= self.peers.len(),
                out.len() == i,
                forall|j: int| 0 <= j < i ==> (#[trigger] out@[j])@ == self.peers@[j].peer@,
            decreases self.peers.len() - i,
        {
            out.push(copy_bytes(&self.peers[i].peer));
            i = i + 1;
        }
        out
    }

    /// Drops the due addresses of all peers, and returns them.
    pub fn expire(&mut self, now: u64) -> (r: Vec<(Vec<u8>, Vec<u8>)>)
        requires
            old(self).wf(),
        ensures
            final(self).wf(),
            forall|p: Seq<u8>| #[trigger]
                row_of(final(self)@, p) == expired_row(row_of(old(self)@, p), now),
            forall|p: Seq<u8>, a: Seq<u8>| #[trigger]
                pair_contents(r@).contains((p, a)) <==> due_of(
                    row_of(old(self)@, p),
                    now,
                ).contains(a),
            final(self)@ == expired_book(old(self)@, now),
            pair_contents(r@).no_duplicates(),
            r@.len() == old(self).address_count - final(self).address_count,
            book_suffixed(old(self)@) ==> book_suffixed(final(self)@),
    {
        let peers = self.peer_list();
        let ghost before = self@;
        let ghost rows = self.peers@;
        let mut removed: Vec<(Vec<u8>, Vec<u8>)> = Vec::new();
        let mut i: usize = 0;
        while i < peers.len()
            invariant
                i <= peers.len(),
                self.wf(),
                book_suffixed(old(self)@) ==> book_suffixed(self@),
                before == row_map(rows),
                one_row_each(rows),
                peers@.len() == rows.len(),
                forall|j: int| 0 <= j < peers@.len() ==> (#[trigger] peers@[j])@ == rows[j].peer@,
                forall|p: Seq<u8>| #[trigger]
                    row_of(self@, p) == (if among(rows, p, i as int) {
                        expired_row(row_of(before, p), now)
                    } else {
                        row_of(before, p)
                    }),
                forall|p: Seq<u8>, a: Seq<u8>| #[trigger]
                    pair_contents(removed@).contains((p, a)) <==> among(rows, p, i as int)
                        && due_of(row_of(before, p), now).contains(a),
                pair_contents(removed@).no_duplicates(),
                removed@.len() + self.address_count == old(self).address_count,
            decreases peers.len() - i,
        {
            let ghost held = self@;
            let ghost so_far = pair_contents(removed@);
            let ghost peer = peers@[i as int]@;
            proof {
                assert(rows[i as int].peer@ == peer);
                assert forall|j: int| 0 <= j < i implies (#[trigger] rows[j]).peer@ != peer by {
                    assert(rows[j].peer@ != rows[i as int].peer@);
                }
                assert(!among(rows, peer, i as int));
                assert(row_of(held, peer) == row_of(before, peer));
                rows_are_wf(*self, peer);
            }
            let mut dropped = self.expire_peer(&peers[i], now);
            proof {
                let fresh = pair_contents(dropped@);
                let due_here = due_of(row_of(before, peer), now);
                assert(pair_contents(removed@ + dropped@) =~= so_far + fresh);
                if let Some(row) = row_of(before, peer) {
                    due_is_distinct(row.leases, now);
                }
                assert forall|a: int, b: int|
                    0 <= a < so_far.len() && 0 <= b < fresh.len() implies so_far[a] != fresh[b] by {
                    assert(fresh[b].0 == peer);
                    assert(so_far.contains((so_far[a].0, so_far[a].1)));
                }
                assert forall|p: Seq<u8>| among(rows, p, i as int + 1) <==> among(
                    rows,
                    p,
                    i as int,
                ) || p == peer by {
                    if among(rows, p, i as int + 1) {
                        let j = choose|j: int| 0 <= j < i + 1 && (#[trigger] rows[j]).peer@ == p;
                        if j < i {
                            assert(among(rows, p, i as int));
                        }
                    }
                    if among(rows, p, i as int) {
                        let j = choose|j: int| 0 <= j < i && (#[trigger] rows[j]).peer@ == p;
                        assert(rows[j].peer@ == p);
                    }
                }
                assert forall|p: Seq<u8>| #[trigger] row_of(self@, p) == (if among(
                    rows,
                    p,
                    i as int + 1,
                ) {
                    expired_row(row_of(before, p), now)
                } else {
                    row_of(before, p)
                }) by {
                    assert(row_of(held, p) == (if among(rows, p, i as int) {
                        expired_row(row_of(before, p), now)
                    } else {
                        row_of(before, p)
                    }));
                }
                assert forall|p: Seq<u8>, a: Seq<u8>| #[trigger]
                    (so_far + fresh).contains((p, a)) <==> among(rows, p, i as int + 1) && due_of(
                    row_of(before, p),
                    now,
                ).contains(a) by {
                    pairs_of_one_peer(peer, due_here, p, a);
                    joined(so_far, fresh, (p, a));
                    assert(so_far.contains((p, a)) <==> among(rows, p, i as int) && due_of(
                        row_of(before, p),
                        now,
                    ).contains(a));
                }
            }
            removed.append(&mut dropped);
            i = i + 1;
        }
        proof {
            assert forall|p: Seq<u8>| #[trigger] row_of(self@, p) == expired_row(
                row_of(before, p),
                now,
            ) by {
                if before.contains_key(p) {
                    let j = choose|j: int| is_row_of(rows, p, j);
                    assert(rows[j].peer@ == p);
                    assert(among(rows, p, i as int));
                }
            }
            assert forall|p: Seq<u8>, a: Seq<u8>| #[trigger] pair_contents(removed@).contains(
                (p, a),
            ) <==> due_of(row_of(before, p), now).contains(a) by {
                if before.contains_key(p) {
                    let j = choose|j: int| is_row_of(rows, p, j);
                    assert(rows[j].peer@ == p);
                    assert(among(rows, p, i as int));
                }
            }
            let after = expired_book(before, now);
            assert forall|p: Seq<u8>| #[trigger] self@.contains_key(p) <==> after.contains_key(
                p,
            ) by {
                assert(row_of(self@, p) == expired_row(row_of(before, p), now));
            }
            assert forall|p: Seq<u8>| #[trigger] self@.contains_key(p) implies self@[p]
                == after[p] by {
                assert(row_of(self@, p) == expired_row(row_of(before, p), now));
            }
            assert(self@ =~= after);
        }
        removed
    }
}

/// Whether the peer is among the first `n` rows.
spec fn among(rows: Seq<IdentifyPeerAddresses>, peer: Seq<u8>, n: int) -> bool {
    exists|j: int| 0 <= j < n && (#[trigger] rows[j]).peer@ == peer
}

proof fn pairs_of_one_peer(peer: Seq<u8>, addresses: Seq<Seq<u8>>, p: Seq<u8>, a: Seq<u8>)
    ensures
        with_peer(peer, addresses).contains((p, a)) <==> p == peer && addresses.contains(a),
{
    if addresses.contains(a) {
        let i = choose|i: int| 0 <= i < addresses.len() && addresses[i] == a;
        assert(with_peer(peer, addresses)[i] == (peer, a));
    }
}

proof fn joined<T>(a: Seq<T>, b: Seq<T>, x: T)
    ensures
        (a + b).contains(x) <==> a.contains(x) || b.contains(x),
{
    if a.contains(x) {
        let i = choose|i: int| 0 <= i < a.len() && a[i] == x;
        assert((a + b)[i] == x);
    }
    if b.contains(x) {
        let i = choose|i: int| 0 <= i < b.len() && b[i] == x;
        assert((a + b)[a.len() + i] == x);
    }
}

proof fn admitted_addresses_are_offered(
    s: Admission,
    addresses: Seq<Seq<u8>>,
    now: u64,
    reported: Seq<Seq<u8>>,
    i: int,
)
    requires
        0 <= i < admit_all(s, addresses, now, reported).added.len(),
    ensures
        ({
            let added = admit_all(s, addresses, now, reported).added;
            ||| i < s.added.len() && added[i] == s.added[i]
            ||| addresses.contains(added[i])
        }),
    decreases addresses.len(),
{
    if addresses.len() > 0 {
        let (next, ok) = admit_one(s, addresses[0], now, reported);
        if ok {
            admitted_addresses_are_offered(next, addresses.drop_first(), now, reported, i);
            let added = admit_all(s, addresses, now, reported).added;
            assert(addresses.contains(addresses[0]));
            if addresses.drop_first().contains(added[i]) {
                let k = choose|k: int|
                    0 <= k < addresses.drop_first().len() && addresses.drop_first()[k] == added[i];
                assert(addresses[k + 1] == added[i]);
            }
        }
    }
}

proof fn expiry_keeps_suffixes(row: Option<RowView>, peer: Seq<u8>, now: u64)
    requires
        row matches Some(r) ==> row_suffixed(r, peer),
    ensures
        expired_row(row, now) matches Some(r) ==> row_suffixed(r, peer),
{
    if let Some(r) = row {
        live_is_part(r.leases, now);
        let kept = live(r.leases, now);
        assert forall|i: int| 0 <= i < kept.len() implies with_peer_suffix(
            (#[trigger] kept[i]).address,
            peer,
        ) == Some(kept[i].address) by {
            let j = choose|j: int| 0 <= j < r.leases.len() && r.leases[j] == kept[i];
            assert(r.leases[j].address == kept[i].address);
        }
    }
}

proof fn admission_keeps_suffixes(
    s: Admission,
    addresses: Seq<Seq<u8>>,
    now: u64,
    reported: Seq<Seq<u8>>,
    peer: Seq<u8>,
)
    requires
        row_suffixed(s.row, peer),
        all_suffixed(addresses, peer),
    ensures
        row_suffixed(admit_all(s, addresses, now, reported).row, peer),
    decreases addresses.len(),
{
    if addresses.len() > 0 {
        let (next, ok) = admit_one(s, addresses[0], now, reported);
        first_unreported_is_a_place(s.row.leases, reported);
        assert(with_peer_suffix(addresses[0], peer) == Some(addresses[0]));
        let rest = addresses.drop_first();
        assert forall|i: int| 0 <= i < rest.len() implies with_peer_suffix(#[trigger] rest[i], peer)
            == Some(rest[i]) by {
            assert(addresses[i + 1] == rest[i]);
        }
        assert(row_suffixed(next.row, peer));
        if ok {
            admission_keeps_suffixes(next, rest, now, reported, peer);
        }
    }
}

/// Every address that the book holds of a peer ends in that peer's id: a report
/// and an expiry keep it so, where the reported addresses end in it.
pub proof fn held_addresses_end_in_their_peer(
    row: Option<RowView>,
    peer: Seq<u8>,
    count: nat,
    now: u64,
    reported: Seq<Seq<u8>>,
)
    requires
        row matches Some(r) ==> row_suffixed(r, peer),
        all_suffixed(reported, peer),
    ensures
        expired_row(row, now) matches Some(r) ==> row_suffixed(r, peer),
        updated_row(row, count, now, reported) matches Some(r) ==> row_suffixed(r, peer),
{
    expiry_keeps_suffixes(row, peer, now);
    let open = opened_row(expired_row(row, now), now);
    assert(row_suffixed(open, peer));
    let renewed = renewed_row(open, now, reported);
    assert forall|i: int| 0 <= i < renewed.leases.len() implies with_peer_suffix(
        (#[trigger] renewed.leases[i]).address,
        peer,
    ) == Some(renewed.leases[i].address) by {
        assert(renewed.leases[i].address == open.leases[i].address);
    }
    let new = unknown(reported, open);
    let sorted = sorted_once(new);
    crate::bytes::sorted_once_sorts(new);
    assert forall|i: int| 0 <= i < sorted.len() implies with_peer_suffix(#[trigger] sorted[i], peer)
        == Some(sorted[i]) by {
        assert(sorted.contains(sorted[i]));
        unknown_is_not_held(reported, open, sorted[i]);
        let k = choose|k: int| 0 <= k < reported.len() && reported[k] == sorted[i];
        assert(with_peer_suffix(reported[k], peer) == Some(reported[k]));
    }
    let s = Admission {
        row: renewed,
        count: count_after_expiry(row, count, now),
        added: Seq::empty(),
        removed: Seq::empty(),
    };
    admission_keeps_suffixes(s, sorted, now, reported, peer);
}

/// Only reported addresses are added.
pub proof fn added_addresses_are_reported(
    peer: Seq<u8>,
    row: Option<RowView>,
    count: nat,
    now: u64,
    reported: Seq<Seq<u8>>,
    i: int,
)
    requires
        0 <= i < update_changes(peer, row, count, now, reported).added.len(),
    ensures
        reported.contains(update_changes(peer, row, count, now, reported).added[i]),
{
    let kept = expired_row(row, now);
    if !(reported.len() == 0 && kept is None) {
        let open = opened_row(kept, now);
        let s = Admission {
            row: renewed_row(open, now, reported),
            count: count_after_expiry(row, count, now),
            added: Seq::empty(),
            removed: Seq::empty(),
        };
        let new = unknown(reported, open);
        admitted_addresses_are_offered(s, sorted_once(new), now, reported, i);
        crate::bytes::sorted_once_sorts(new);
        let a = update_changes(peer, row, count, now, reported).added[i];
        assert(sorted_once(new).contains(a));
        unknown_is_not_held(reported, open, a);
    }
}

proof fn reported_addresses_stay(
    s: Admission,
    addresses: Seq<Seq<u8>>,
    now: u64,
    reported: Seq<Seq<u8>>,
    a: Seq<u8>,
)
    requires
        reported.contains(a),
        holds(s.row, a),
    ensures
        holds(admit_all(s, addresses, now, reported).row, a),
    decreases addresses.len(),
{
    if addresses.len() > 0 {
        let (next, ok) = admit_one(s, addresses[0], now, reported);
        first_unreported_is_a_place(s.row.leases, reported);
        let i = choose|i: int|
            0 <= i < s.row.leases.len() && (#[trigger] s.row.leases[i]).address == a;
        assert(holds(next.row, a)) by {
            let cut = first_unreported(s.row.leases, reported);
            if next.row.leases.len() > i && next.row.leases[i] == s.row.leases[i] {
                assert(next.row.leases[i].address == a);
            } else {
                assert(next.row.leases[i - 1] == s.row.leases[i]);
                assert(next.row.leases[i - 1].address == a);
            }
        }
        if ok {
            reported_addresses_stay(next, addresses.drop_first(), now, reported, a);
        }
    }
}

/// What a peer keeps reporting it keeps: an address that the peer has, that is
/// not due, and that it reports, is in the book after the report.
pub proof fn reported_addresses_are_kept(
    row: RowView,
    count: nat,
    now: u64,
    reported: Seq<Seq<u8>>,
    a: Seq<u8>,
)
    requires
        reported.contains(a),
        expired_row(Some(row), now) is Some,
        holds(expired_row(Some(row), now)->0, a),
    ensures
        updated_row(Some(row), count, now, reported) is Some,
        holds(updated_row(Some(row), count, now, reported)->0, a),
{
    let open = opened_row(expired_row(Some(row), now), now);
    assert(open.leases == expired_row(Some(row), now)->0.leases);
    let k = choose|k: int|
        0 <= k < expired_row(Some(row), now)->0.leases.len() && (#[trigger] expired_row(
            Some(row),
            now,
        )->0.leases[k]).address == a;
    assert(open.leases[k].address == a);
    renewed_row_keeps_addresses(open, now, reported);
    let s = Admission {
        row: renewed_row(open, now, reported),
        count: count_after_expiry(Some(row), count, now),
        added: Seq::empty(),
        removed: Seq::empty(),
    };
    assert(holds(s.row, a));
    reported_addresses_stay(s, sorted_once(unknown(reported, open)), now, reported, a);
}

/// A report touches no other peer: their rows stay, and only addresses of the
/// reporting peer are removed.
pub proof fn reports_touch_only_their_peer(
    book: Map<Seq<u8>, RowView>,
    peer: Seq<u8>,
    other: Seq<u8>,
    count: nat,
    now: u64,
    reported: Seq<Seq<u8>>,
    i: int,
)
    requires
        other != peer,
        0 <= i < update_changes(peer, row_of(book, peer), count, now, reported).removed.len(),
    ensures
        row_of(
            with_row(book, peer, updated_row(row_of(book, peer), count, now, reported)),
            other,
        ) == row_of(book, other),
        update_changes(peer, row_of(book, peer), count, now, reported).removed[i].0 == peer,
{
}

/// A peer without addresses that reports none of use changes nothing.
pub proof fn useless_reports_change_nothing(peer: Seq<u8>, count: nat, now: u64)
    ensures
        updated_row(None, count, now, Seq::empty()) is None,
        update_changes(peer, None, count, now, Seq::empty()) == (ChangesView {
            added: Seq::empty(),
            refreshed: Seq::empty(),
            removed: Seq::empty(),
        }),
{
    assert(with_peer(peer, Seq::empty()) =~= Seq::<(Seq<u8>, Seq<u8>)>::empty());
}

/// When all peers together have no room, and the peer's own row is not full, a
/// new address is refused and nothing is removed for it.
pub proof fn no_room_refuses(s: Admission, addresses: Seq<Seq<u8>>, now: u64, reported: Seq<Seq<u8>>)
    requires
        s.count >= IDENTIFY_GLOBAL_ADDRESS_LIMIT,
        s.row.leases.len() < IDENTIFY_ADDRESS_LIMIT,
    ensures
        admit_all(s, addresses, now, reported) == s,
{
}

spec fn same_set(a: Seq<Seq<u8>>, b: Seq<Seq<u8>>) -> bool {
    forall|x: Seq<u8>| a.contains(x) <==> b.contains(x)
}

proof fn reported_of_by_set(leases: Seq<LeaseView>, a: Seq<Seq<u8>>, b: Seq<Seq<u8>>)
    requires
        same_set(a, b),
    ensures
        reported_of(leases, a) == reported_of(leases, b),
        first_unreported(leases, a) == first_unreported(leases, b),
    decreases leases.len(),
{
    if leases.len() > 0 {
        reported_of_by_set(leases.drop_last(), a, b);
        assert(a.contains(leases.last().address) <==> b.contains(leases.last().address));
    }
}

proof fn admit_all_by_set(
    s: Admission,
    addresses: Seq<Seq<u8>>,
    now: u64,
    a: Seq<Seq<u8>>,
    b: Seq<Seq<u8>>,
)
    requires
        same_set(a, b),
    ensures
        admit_all(s, addresses, now, a) == admit_all(s, addresses, now, b),
    decreases addresses.len(),
{
    if addresses.len() > 0 {
        reported_of_by_set(s.row.leases, a, b);
        let (next, ok) = admit_one(s, addresses[0], now, a);
        assert(admit_one(s, addresses[0], now, b) == (next, ok));
        if ok {
            admit_all_by_set(next, addresses.drop_first(), now, a, b);
        }
    }
}

/// The order of a report, and repetitions in it, make no difference: reports of
/// the same addresses have the same effect.
pub proof fn order_of_a_report_is_irrelevant(
    peer: Seq<u8>,
    row: Option<RowView>,
    count: nat,
    now: u64,
    a: Seq<Seq<u8>>,
    b: Seq<Seq<u8>>,
)
    requires
        forall|x: Seq<u8>| a.contains(x) <==> b.contains(x),
    ensures
        updated_row(row, count, now, a) == updated_row(row, count, now, b),
        update_changes(peer, row, count, now, a) == update_changes(peer, row, count, now, b),
{
    assert(a.len() == 0 <==> b.len() == 0) by {
        if a.len() > 0 {
            assert(a.contains(a[0]));
        }
        if b.len() > 0 {
            assert(b.contains(b[0]));
        }
    }
    let open = opened_row(expired_row(row, now), now);
    assert(same_set(a, b));
    reported_of_by_set(open.leases, a, b);
    assert(renewed_row(open, now, a).leases =~= renewed_row(open, now, b).leases) by {
        assert forall|i: int| 0 <= i < open.leases.len() implies renewed(open.leases[i], now, a)
            == renewed(open.leases[i], now, b) by {
            assert(a.contains(open.leases[i].address) <==> b.contains(open.leases[i].address));
        }
    }
    assert forall|x: Seq<u8>| unknown(a, open).contains(x) <==> unknown(b, open).contains(x) by {
        unknown_is_not_held(a, open, x);
        unknown_is_not_held(b, open, x);
    }
    sorted_once_depends_on_the_set(unknown(a, open), unknown(b, open));
    let s = Admission {
        row: renewed_row(open, now, a),
        count: count_after_expiry(row, count, now),
        added: Seq::empty(),
        removed: Seq::empty(),
    };
    admit_all_by_set(s, sorted_once(unknown(a, open)), now, a, b);
}

/// What is kept at an expiry is not due, and what is due goes.
pub proof fn expiry_keeps_what_is_not_due(leases: Seq<LeaseView>, now: u64)
    ensures
        forall|i: int|
            0 <= i < live(leases, now).len() ==> (#[trigger] live(leases, now)[i]).expires_at > now,
        live(leases, now).len() + due(leases, now).len() == leases.len(),
{
    live_is_part(leases, now);
}

/// The part of a report that is looked at.
pub open spec fn looked_at(report: Seq<Seq<u8>>) -> Seq<Seq<u8>> {
    if report.len() <= IDENTIFY_REPORT_ADDRESS_LIMIT {
        report
    } else {
        report.take(IDENTIFY_REPORT_ADDRESS_LIMIT as int)
    }
}

/// The number of addresses in a row, where there is one.
pub open spec fn held_of(row: Option<RowView>) -> nat {
    match row {
        None => 0,
        Some(r) => r.leases.len(),
    }
}

/// The number of addresses in all rows of a book.
pub open spec fn held_in_all(book: Map<Seq<u8>, RowView>) -> nat
    decreases book.dom().len(),
    when book.dom().finite()
{
    if book.dom().len() == 0 {
        0
    } else {
        let peer = book.dom().choose();
        book[peer].leases.len() + held_in_all(book.remove(peer))
    }
}

proof fn held_without(book: Map<Seq<u8>, RowView>, peer: Seq<u8>)
    requires
        book.dom().finite(),
    ensures
        held_in_all(book) == held_in_all(book.remove(peer)) + held_of(row_of(book, peer)),
    decreases book.dom().len(),
{
    if book.contains_key(peer) {
        let first = book.dom().choose();
        assert(book.dom().contains(first));
        if first != peer {
            held_without(book.remove(first), peer);
            held_without(book.remove(peer), first);
            assert(book.remove(first).remove(peer) =~= book.remove(peer).remove(first));
        }
    } else {
        assert(book.remove(peer) =~= book);
    }
}

proof fn held_with_row(book: Map<Seq<u8>, RowView>, peer: Seq<u8>, row: Option<RowView>)
    requires
        book.dom().finite(),
    ensures
        with_row(book, peer, row).dom().finite(),
        held_in_all(with_row(book, peer, row)) + held_of(row_of(book, peer)) == held_in_all(book)
            + held_of(row),
{
    let after = with_row(book, peer, row);
    held_without(book, peer);
    held_without(after, peer);
    assert(after.remove(peer) =~= book.remove(peer));
}

proof fn held_of_less(book: Map<Seq<u8>, RowView>, less: Map<Seq<u8>, RowView>)
    requires
        book.dom().finite(),
        less.dom().finite(),
        forall|peer: Seq<u8>| held_of(#[trigger] row_of(less, peer)) <= held_of(row_of(book, peer)),
        forall|peer: Seq<u8>| #[trigger] less.contains_key(peer) ==> book.contains_key(peer),
    ensures
        held_in_all(less) <= held_in_all(book),
    decreases book.dom().len(),
{
    if book.dom().len() == 0 {
        assert(book.dom() =~= Set::empty());
        assert(less.dom() =~= Set::empty());
    } else {
        let peer = book.dom().choose();
        assert(book.dom().contains(peer));
        held_without(less, peer);
        assert(held_of(row_of(less, peer)) <= held_of(row_of(book, peer)));
        assert forall|p: Seq<u8>|
            held_of(#[trigger] row_of(less.remove(peer), p)) <= held_of(
                row_of(book.remove(peer), p),
            ) by {
            assert(held_of(row_of(less, p)) <= held_of(row_of(book, p)));
        }
        held_of_less(book.remove(peer), less.remove(peer));
    }
}

/// The book counts its addresses right: the count is the number of addresses in
/// all rows.
pub proof fn the_count_is_right(book: IdentifyAddressBook)
    requires
        book.wf(),
    ensures
        book@.dom().finite(),
        book.address_count == held_in_all(book@),
{
    rows_are_counted(book.peers@);
}

proof fn rows_are_counted(rows: Seq<IdentifyPeerAddresses>)
    requires
        one_row_each(rows),
    ensures
        row_map(rows).dom().finite(),
        held_in_all(row_map(rows)) == total(rows),
    decreases rows.len(),
{
    if rows.len() == 0 {
        assert(row_map(rows).dom() =~= Set::empty());
    } else {
        let last = rows.len() - 1;
        let peer = rows[last].peer@;
        row_map_remove(rows, last);
        row_map_at(rows, last);
        assert(rows.remove(last) =~= rows.drop_last());
        rows_are_counted(rows.drop_last());
        let m = row_map(rows);
        assert(m.dom() =~= m.remove(peer).dom().insert(peer));
        held_without(m, peer);
        assert(rows[last]@.leases.len() == rows[last].addresses@.len());
    }
}

proof fn admit_all_keeps(
    s: Admission,
    addresses: Seq<Seq<u8>>,
    now: u64,
    reported: Seq<Seq<u8>>,
)
    requires
        admission_wf(s),
        addresses.no_duplicates(),
        forall|i: int| 0 <= i < addresses.len() ==> !holds(s.row, #[trigger] addresses[i]),
    ensures
        ({
            let a = admit_all(s, addresses, now, reported);
            &&& admission_wf(a)
            &&& a.count - a.row.leases.len() == s.count - s.row.leases.len()
        }),
    decreases addresses.len(),
{
    if addresses.len() > 0 {
        let (next, ok) = admit_one(s, addresses[0], now, reported);
        admit_one_keeps(s, addresses[0], now, reported);
        let rest = addresses.drop_first();
        assert forall|i: int| 0 <= i < rest.len() implies !holds(next.row, #[trigger] rest[i]) by {
            assert(rest[i] == addresses[i + 1]);
            assert(addresses[i + 1] != addresses[0]);
        }
        if ok {
            admit_all_keeps(next, rest, now, reported);
        }
    }
}

pub(crate) proof fn expiry_keeps_rows(row: RowView, now: u64)
    requires
        row_wf(row),
    ensures
        expired_row(Some(row), now) matches Some(r) ==> row_wf(r),
        held_of(expired_row(Some(row), now)) + due(row.leases, now).len() == row.leases.len(),
{
    live_is_part(row.leases, now);
}

proof fn reports_keep_rows(row: Option<RowView>, count: nat, now: u64, reported: Seq<Seq<u8>>)
    requires
        row matches Some(r) ==> row_wf(r),
        held_of(row) <= count <= IDENTIFY_GLOBAL_ADDRESS_LIMIT,
    ensures
        updated_row(row, count, now, reported) matches Some(r) ==> row_wf(r),
        count - held_of(row) + held_of(updated_row(row, count, now, reported))
            <= IDENTIFY_GLOBAL_ADDRESS_LIMIT,
{
    if let Some(r) = row {
        expiry_keeps_rows(r, now);
    }
    let kept = expired_row(row, now);
    let open = opened_row(kept, now);
    renewed_row_keeps_addresses(open, now, reported);
    let new = unknown(reported, open);
    let sorted = sorted_once(new);
    crate::bytes::sorted_once_sorts(new);
    let s = Admission {
        row: renewed_row(open, now, reported),
        count: count_after_expiry(row, count, now),
        added: Seq::empty(),
        removed: Seq::empty(),
    };
    assert(distinct(open.leases));
    assert forall|i: int| 0 <= i < sorted.len() implies !holds(s.row, #[trigger] sorted[i]) by {
        assert(sorted.contains(sorted[i]));
        unknown_is_not_held(reported, open, sorted[i]);
    }
    assert forall|i: int, j: int| 0 <= i < sorted.len() && 0 <= j < sorted.len() && i
        != j implies sorted[i] != sorted[j] by {
        crate::bytes::bytes_lt_trichotomy(sorted[i], sorted[j]);
        if i < j {
            assert(crate::bytes::bytes_lt(sorted[i], sorted[j]));
        } else {
            assert(crate::bytes::bytes_lt(sorted[j], sorted[i]));
        }
    }
    admit_all_keeps(s, sorted, now, reported);
}

/// What happens to a book.
pub enum BookEvent {
    /// A peer reports these addresses, which end in its id.
    Report { peer: Seq<u8>, now: u64, reported: Seq<Seq<u8>> },
    /// Old addresses of all peers are dropped.
    Expiry { now: u64 },
}

/// The book after a sequence of events, from one without addresses, as
/// [`IdentifyAddressBook::update`] and [`IdentifyAddressBook::expire`] leave it.
pub open spec fn book_after(events: Seq<BookEvent>) -> Map<Seq<u8>, RowView>
    decreases events.len(),
{
    if events.len() == 0 {
        Map::empty()
    } else {
        let book = book_after(events.drop_last());
        match events.last() {
            BookEvent::Report { peer, now, reported } => with_row(
                book,
                peer,
                updated_row(row_of(book, peer), held_in_all(book), now, reported),
            ),
            BookEvent::Expiry { now } => expired_book(book, now),
        }
    }
}

/// However reports and expiries follow each other, the book stays in bounds: all
/// rows together hold no more than [`IDENTIFY_GLOBAL_ADDRESS_LIMIT`] addresses;
/// every row holds at least one and at most [`IDENTIFY_ADDRESS_LIMIT`], none
/// twice, each ending in the id of the row's peer; and no row has seen more than
/// [`IDENTIFY_NEW_ADDRESS_LIMIT`] new ones in its window.
pub proof fn books_stay_in_bounds(events: Seq<BookEvent>)
    requires
        forall|i: int| #![trigger events[i]]
            0 <= i < events.len() ==> (events[i] matches BookEvent::Report { peer, reported, .. }
                ==> all_suffixed(reported, peer)),
    ensures
        book_after(events).dom().finite(),
        held_in_all(book_after(events)) <= IDENTIFY_GLOBAL_ADDRESS_LIMIT,
        forall|peer: Seq<u8>| #[trigger]
            book_after(events).contains_key(peer) ==> row_wf(book_after(events)[peer])
                && row_suffixed(book_after(events)[peer], peer),
    decreases events.len(),
{
    let after = book_after(events);
    if events.len() == 0 {
        assert(after.dom() =~= Set::empty());
    } else {
        let before = events.drop_last();
        assert forall|i: int| #![trigger before[i]] 0 <= i < before.len() implies (before[i] matches
            BookEvent::Report { peer, reported, .. } ==> all_suffixed(reported, peer)) by {
            assert(before[i] == events[i]);
        }
        books_stay_in_bounds(before);
        let book = book_after(before);
        assert(events[events.len() - 1] == events.last());
        match events.last() {
            BookEvent::Report { peer, now, reported } => {
                let row = row_of(book, peer);
                let count = held_in_all(book);
                held_without(book, peer);
                reports_keep_rows(row, count, now, reported);
                held_addresses_end_in_their_peer(row, peer, count, now, reported);
                held_with_row(book, peer, updated_row(row, count, now, reported));
            },
            BookEvent::Expiry { now } => {
                assert(after.dom().subset_of(book.dom()));
                vstd::set_lib::lemma_len_subset(after.dom(), book.dom());
                assert forall|p: Seq<u8>|
                    held_of(#[trigger] row_of(after, p)) <= held_of(row_of(book, p)) by {
                    if book.contains_key(p) {
                        expiry_keeps_rows(book[p], now);
                    }
                }
                held_of_less(book, after);
                assert forall|p: Seq<u8>| #[trigger] after.contains_key(p) implies row_wf(after[p])
                    && row_suffixed(after[p], p) by {
                    expiry_keeps_rows(book[p], now);
                    expiry_keeps_suffixes(Some(book[p]), p, now);
                }
            },
        }
    }
}

} // verus!
