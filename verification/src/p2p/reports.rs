//! What the report of a peer does to its addresses in the book.

use vstd::prelude::*;

use crate::bytes::{bytes_lt, bytes_lt_trichotomy, sorted_once, sorted_once_sorts};
use crate::p2p::address_book::{
    admission_wf, admit_all, admit_one, admit_one_keeps, canonical, count_after_expiry, distinct,
    due, due_of, expired_book, expired_row, expiry_keeps_rows, first_unreported,
    first_unreported_is_a_place, held_of, holds, live, live_is_part, looked_at, opened_row, renewed,
    renewed_row, renewed_row_keeps_addresses, reported_of, row_of, row_wf, unknown,
    unknown_is_not_held, update_changes, updated_row, with_peer, with_peer_suffix, Admission,
    LeaseView, RowView, IDENTIFY_ADDRESS_CLEANUP_INTERVAL, IDENTIFY_ADDRESS_LIMIT, IDENTIFY_ADDRESS_TTL,
    IDENTIFY_ADDRESS_WINDOW, IDENTIFY_GLOBAL_ADDRESS_LIMIT, IDENTIFY_NEW_ADDRESS_LIMIT,
    IDENTIFY_REPORT_ADDRESS_LIMIT,
};

verus! {

/// The leases of a peer that are not due at `now`, oldest first.
pub open spec fn held(row: Option<RowView>, now: u64) -> Seq<LeaseView> {
    match row {
        None => Seq::empty(),
        Some(r) => r.leases.filter(|l: LeaseView| l.expires_at > now),
    }
}

/// Whether one of the leases is of this address.
pub open spec fn leased(leases: Seq<LeaseView>, a: Seq<u8>) -> bool {
    exists|i: int| 0 <= i < leases.len() && (#[trigger] leases[i]).address == a
}

/// The leases of a peer after its report.
pub open spec fn leases_after(
    row: Option<RowView>,
    count: nat,
    now: u64,
    reported: Seq<Seq<u8>>,
) -> Seq<LeaseView> {
    match updated_row(row, count, now, reported) {
        None => Seq::empty(),
        Some(r) => r.leases,
    }
}

/// What holds of a peer's addresses in the book before a report, and of the number
/// of all addresses.
pub open spec fn in_bounds(row: Option<RowView>, count: nat) -> bool {
    &&& row matches Some(r) ==> row_wf(r)
    &&& held_of(row) <= count <= IDENTIFY_GLOBAL_ADDRESS_LIMIT
}

proof fn filters_agree(
    s: Seq<LeaseView>,
    p: spec_fn(LeaseView) -> bool,
    q: spec_fn(LeaseView) -> bool,
)
    requires
        forall|i: int| 0 <= i < s.len() ==> p(#[trigger] s[i]) == q(s[i]),
    ensures
        s.filter(p) == s.filter(q),
    decreases s.len(),
{
    reveal(Seq::filter);
    if s.len() > 0 {
        assert forall|i: int| 0 <= i < s.drop_last().len() implies p(
            #[trigger] s.drop_last()[i],
        ) == q(s.drop_last()[i]) by {
            assert(s[i] == s.drop_last()[i]);
        }
        filters_agree(s.drop_last(), p, q);
        assert(p(s[s.len() - 1]) == q(s[s.len() - 1]));
    }
}

proof fn filter_of_all(s: Seq<LeaseView>, p: spec_fn(LeaseView) -> bool)
    requires
        forall|i: int| 0 <= i < s.len() ==> p(#[trigger] s[i]),
    ensures
        s.filter(p) == s,
    decreases s.len(),
{
    reveal(Seq::filter);
    if s.len() > 0 {
        assert forall|i: int| 0 <= i < s.drop_last().len() implies p(#[trigger] s.drop_last()[i]) by {
            assert(s[i] == s.drop_last()[i]);
        }
        filter_of_all(s.drop_last(), p);
        assert(p(s[s.len() - 1]));
        assert(s.drop_last().push(s.last()) =~= s);
    }
}

proof fn filter_members(s: Seq<LeaseView>, p: spec_fn(LeaseView) -> bool, l: LeaseView)
    ensures
        s.filter(p).contains(l) <==> s.contains(l) && p(l),
{
    if s.filter(p).contains(l) {
        let i = choose|i: int| 0 <= i < s.filter(p).len() && s.filter(p)[i] == l;
        s.lemma_filter_pred(p, i);
        s.lemma_filter_contains_rev(p, l);
    }
    if s.contains(l) && p(l) {
        let i = choose|i: int| 0 <= i < s.len() && s[i] == l;
        s.lemma_filter_contains(p, i);
    }
}

/// What is live at a time are the leases that end later, in their order; and what
/// is due are the addresses of the others, in theirs.
pub proof fn leases_are_live_until_they_end(leases: Seq<LeaseView>, now: u64)
    ensures
        live(leases, now) == leases.filter(|l: LeaseView| l.expires_at > now),
        due(leases, now) == leases.filter(|l: LeaseView| l.expires_at <= now).map_values(
            |l: LeaseView| l.address,
        ),
    decreases leases.len(),
{
    reveal(Seq::filter);
    if leases.len() > 0 {
        leases_are_live_until_they_end(leases.drop_last(), now);
    }
    assert(due(leases, now) =~= leases.filter(|l: LeaseView| l.expires_at <= now).map_values(
        |l: LeaseView| l.address,
    ));
}

proof fn reported_of_filters(leases: Seq<LeaseView>, reported: Seq<Seq<u8>>)
    ensures
        reported_of(leases, reported) == leases.filter(
            |l: LeaseView| reported.contains(l.address),
        ).map_values(|l: LeaseView| l.address),
    decreases leases.len(),
{
    reveal(Seq::filter);
    if leases.len() > 0 {
        reported_of_filters(leases.drop_last(), reported);
    }
    assert(reported_of(leases, reported) =~= leases.filter(
        |l: LeaseView| reported.contains(l.address),
    ).map_values(|l: LeaseView| l.address));
}

proof fn the_first_unreported_is_first(leases: Seq<LeaseView>, reported: Seq<Seq<u8>>)
    ensures
        first_unreported(leases, reported) matches Some(i) ==> 0 <= i < leases.len() && (forall|
            j: int,
        |
            0 <= j < i ==> reported.contains((#[trigger] leases[j]).address)),
        first_unreported(leases, reported) is None ==> (forall|j: int|
            0 <= j < leases.len() ==> reported.contains((#[trigger] leases[j]).address)),
    decreases leases.len(),
{
    if leases.len() > 0 {
        let shorter = leases.drop_last();
        the_first_unreported_is_first(shorter, reported);
        assert forall|j: int| 0 <= j < shorter.len() implies shorter[j] == leases[j] by {}
    }
}

/// The leases of the list that are not of one of these addresses.
spec fn without(leases: Seq<LeaseView>, out: Seq<Seq<u8>>) -> Seq<LeaseView> {
    leases.filter(|l: LeaseView| !out.contains(l.address))
}

/// What an admission of the first `n` of these addresses has done.
spec fn admitted(
    s: Admission,
    a: Admission,
    addresses: Seq<Seq<u8>>,
    n: int,
    now: u64,
    reported: Seq<Seq<u8>>,
) -> bool {
    let out = a.removed.skip(s.removed.len() as int);
    let kept = without(s.row.leases, out);
    &&& 0 <= n <= addresses.len()
    &&& a.added == s.added + addresses.take(n)
    &&& a.removed.len() >= s.removed.len()
    &&& a.removed == s.removed + out
    &&& kept.len() + out.len() == s.row.leases.len()
    &&& a.row.leases.len() == kept.len() + n
    &&& a.row.leases.take(kept.len() as int) == kept
    &&& forall|k: int|
        0 <= k < n ==> #[trigger] a.row.leases[kept.len() + k] == (LeaseView {
            address: addresses[k],
            expires_at: (now + IDENTIFY_ADDRESS_TTL) as u64,
        })
    &&& forall|k: int|
        0 <= k < out.len() ==> !reported.contains(#[trigger] out[k]) && leased(
            s.row.leases,
            out[k],
        )
    &&& forall|i: int, j: int|
        0 <= i < j < s.row.leases.len() && out.contains((#[trigger] s.row.leases[j]).address)
            && !reported.contains((#[trigger] s.row.leases[i]).address) ==> out.contains(
            s.row.leases[i].address,
        )
    &&& a.row.leases.len() <= IDENTIFY_ADDRESS_LIMIT
    &&& out.len() > 0 ==> a.row.leases.len() == IDENTIFY_ADDRESS_LIMIT
    &&& a.row.new_addresses == s.row.new_addresses + n
    &&& a.row.window_started == s.row.window_started
    &&& a.count == s.count - out.len() + n
    &&& a.count <= IDENTIFY_GLOBAL_ADDRESS_LIMIT
    &&& n < addresses.len() ==> {
        ||| a.row.new_addresses >= IDENTIFY_NEW_ADDRESS_LIMIT
        ||| a.row.leases.len() >= IDENTIFY_ADDRESS_LIMIT && (forall|i: int|
            0 <= i < a.row.leases.len() ==> reported.contains(
                (#[trigger] a.row.leases[i]).address,
            ))
        ||| a.row.leases.len() < IDENTIFY_ADDRESS_LIMIT && a.count
            >= IDENTIFY_GLOBAL_ADDRESS_LIMIT
    }
}

proof fn leaving_out_one(leases: Seq<LeaseView>, cut: int, out: Seq<Seq<u8>>)
    requires
        distinct(leases),
        0 <= cut < leases.len(),
    ensures
        without(leases.remove(cut), out) == without(leases, seq![leases[cut].address] + out),
{
    let e = leases[cut].address;
    let more = seq![e] + out;
    let p = |l: LeaseView| !out.contains(l.address);
    let q = |l: LeaseView| !more.contains(l.address);
    let (front, back) = (leases.take(cut), leases.skip(cut + 1));
    let mid = seq![leases[cut]];
    assert(leases.remove(cut) =~= front + back);
    assert(leases =~= front + (mid + back));
    Seq::filter_distributes_over_add(front, back, p);
    Seq::filter_distributes_over_add(front, mid + back, q);
    Seq::filter_distributes_over_add(mid, back, q);
    assert(mid.filter(q) =~= Seq::<LeaseView>::empty()) by {
        reveal(Seq::filter);
        assert(more[0] == e);
        assert(!q(mid[0]));
        assert(mid.drop_last() =~= Seq::<LeaseView>::empty());
        assert(mid.drop_last().filter(q) =~= Seq::<LeaseView>::empty());
    }
    assert forall|l: LeaseView| l.address != e implies p(l) == q(l) by {
        if out.contains(l.address) {
            let k = choose|k: int| 0 <= k < out.len() && out[k] == l.address;
            assert(more[k + 1] == l.address);
        }
        if more.contains(l.address) {
            let k = choose|k: int| 0 <= k < more.len() && more[k] == l.address;
            assert(out[k - 1] == l.address);
        }
    }
    assert forall|i: int| 0 <= i < front.len() implies p(#[trigger] front[i]) == q(front[i]) by {
        assert(leases[i].address != leases[cut].address);
    }
    assert forall|i: int| 0 <= i < back.len() implies p(#[trigger] back[i]) == q(back[i]) by {
        assert(back[i] == leases[cut + 1 + i]);
        assert(leases[cut].address != leases[cut + 1 + i].address);
    }
    filters_agree(front, p, q);
    filters_agree(back, p, q);
    assert(without(leases, more) =~= front.filter(q) + back.filter(q));
}

proof fn pushed_is_kept(leases: Seq<LeaseView>, l: LeaseView, out: Seq<Seq<u8>>)
    requires
        !out.contains(l.address),
    ensures
        without(leases.push(l), out) == without(leases, out).push(l),
{
    reveal(Seq::filter);
    assert(leases.push(l).drop_last() =~= leases);
}

proof fn nothing_left_out(leases: Seq<LeaseView>)
    ensures
        without(leases, Seq::empty()) == leases,
{
    filter_of_all(leases, |l: LeaseView| !Seq::<Seq<u8>>::empty().contains(l.address));
}

proof fn no_admission(
    s: Admission,
    addresses: Seq<Seq<u8>>,
    now: u64,
    reported: Seq<Seq<u8>>,
)
    requires
        admission_wf(s),
        addresses.len() > 0 ==> !admit_one(s, addresses[0], now, reported).1,
        admit_all(s, addresses, now, reported) == s,
    ensures
        admitted(s, s, addresses, 0, now, reported),
{
    let out = s.removed.skip(s.removed.len() as int);
    assert(out =~= Seq::<Seq<u8>>::empty());
    nothing_left_out(s.row.leases);
    assert(s.row.leases.take(s.row.leases.len() as int) =~= s.row.leases);
    assert(s.added + addresses.take(0) =~= s.added);
    assert(s.removed + out =~= s.removed);
    the_first_unreported_is_first(s.row.leases, reported);
}

#[verifier::rlimit(40)]
#[verifier::spinoff_prover]
proof fn admissions_compose(
    s: Admission,
    next: Admission,
    a: Admission,
    addresses: Seq<Seq<u8>>,
    n: int,
    now: u64,
    reported: Seq<Seq<u8>>,
)
    requires
        admission_wf(s),
        addresses.len() > 0,
        reported.contains(addresses[0]),
        !holds(s.row, addresses[0]),
        admit_one(s, addresses[0], now, reported) == (next, true),
        admitted(next, a, addresses.drop_first(), n, now, reported),
    ensures
        admitted(s, a, addresses, n + 1, now, reported),
{
    let rest = addresses.drop_first();
    let old = s.row.leases;
    let l = LeaseView { address: addresses[0], expires_at: (now + IDENTIFY_ADDRESS_TTL) as u64 };
    let later = a.removed.skip(next.removed.len() as int);
    let out = a.removed.skip(s.removed.len() as int);
    the_first_unreported_is_first(old, reported);
    first_unreported_is_a_place(old, reported);
    assert(s.added + addresses.take(n + 1) =~= next.added + rest.take(n));
    if later.contains(l.address) {
        let k = choose|k: int| 0 <= k < later.len() && later[k] == l.address;
        assert(!reported.contains(later[k]));
    }
    if old.len() < IDENTIFY_ADDRESS_LIMIT {
        assert(next.row.leases == old.push(l));
        assert(later == out);
        pushed_is_kept(old, l, out);
        assert forall|k: int| 0 <= k < out.len() implies leased(old, #[trigger] out[k]) by {
            let m = choose|m: int|
                0 <= m < next.row.leases.len() && (#[trigger] next.row.leases[m]).address == out[k];
            assert(old[m].address == out[k]);
        }
        assert forall|i: int, j: int|
            0 <= i < j < old.len() && out.contains((#[trigger] old[j]).address) && !reported.contains(
                (#[trigger] old[i]).address,
            ) implies out.contains(old[i].address) by {
            assert(next.row.leases[i] == old[i] && next.row.leases[j] == old[j]);
        }
    } else {
        let cut = first_unreported(old, reported)->0;
        let e = old[cut].address;
        let less = old.remove(cut);
        assert(next.row.leases == less.push(l));
        assert(next.removed == s.removed.push(e));
        assert(out =~= seq![e] + later);
        assert(out[0] == e);
        pushed_is_kept(less, l, later);
        leaving_out_one(old, cut, later);
        assert(s.removed + out =~= next.removed + later);
        assert forall|k: int| 0 <= k < out.len() implies !reported.contains(#[trigger] out[k])
            && leased(old, out[k]) by {
            if k > 0 {
                assert(out[k] == later[k - 1]);
                let m = choose|m: int|
                    0 <= m < next.row.leases.len() && (#[trigger] next.row.leases[m]).address
                        == out[k];
                assert(m < less.len());
                let o = if m < cut { m } else { m + 1 };
                assert(old[o].address == out[k]);
            } else {
                assert(old[cut].address == out[k]);
            }
        }
        assert forall|i: int, j: int|
            0 <= i < j < old.len() && out.contains((#[trigger] old[j]).address) && !reported.contains(
                (#[trigger] old[i]).address,
            ) implies out.contains(old[i].address) by {
            assert(i >= cut);
            if i > cut {
                let k = choose|k: int| 0 <= k < out.len() && out[k] == old[j].address;
                assert(old[cut].address != old[j].address);
                assert(later[k - 1] == old[j].address);
                assert(next.row.leases[i - 1] == old[i] && next.row.leases[j - 1] == old[j]);
                assert(later.contains(old[i].address));
                let m = choose|m: int| 0 <= m < later.len() && later[m] == old[i].address;
                assert(out[m + 1] == old[i].address);
            }
        }
    }
    let kept = without(old, out);
    assert(without(next.row.leases, later) == kept.push(l));
    let taken = a.row.leases.take(kept.len() as int + 1);
    assert(taken == kept.push(l));
    assert(a.row.leases[kept.len() as int] == taken[kept.len() as int]);
    assert(a.row.leases.take(kept.len() as int) =~= taken.take(kept.len() as int));
    assert(taken.take(kept.len() as int) =~= kept);
    assert forall|k: int| 0 <= k < n + 1 implies #[trigger] a.row.leases[kept.len() + k] == (
    LeaseView { address: addresses[k], expires_at: (now + IDENTIFY_ADDRESS_TTL) as u64 }) by {
        if k > 0 {
            assert(a.row.leases[(kept.len() + 1) + (k - 1)] == (LeaseView {
                address: rest[k - 1],
                expires_at: (now + IDENTIFY_ADDRESS_TTL) as u64,
            }));
        }
    }
}

proof fn admission_in_full(
    s: Admission,
    addresses: Seq<Seq<u8>>,
    now: u64,
    reported: Seq<Seq<u8>>,
) -> (n: int)
    requires
        admission_wf(s),
        addresses.no_duplicates(),
        forall|i: int|
            0 <= i < addresses.len() ==> !holds(s.row, #[trigger] addresses[i])
                && reported.contains(addresses[i]),
    ensures
        admitted(s, admit_all(s, addresses, now, reported), addresses, n, now, reported),
    decreases addresses.len(),
{
    if addresses.len() == 0 {
        no_admission(s, addresses, now, reported);
        0
    } else {
        let (next, ok) = admit_one(s, addresses[0], now, reported);
        assert(!holds(s.row, addresses[0]) && reported.contains(addresses[0]));
        admit_one_keeps(s, addresses[0], now, reported);
        if ok {
            let rest = addresses.drop_first();
            assert forall|i: int| 0 <= i < rest.len() implies !holds(next.row, #[trigger] rest[i])
                && reported.contains(rest[i]) by {
                assert(rest[i] == addresses[i + 1]);
                assert(addresses[i + 1] != addresses[0]);
            }
            let n = admission_in_full(next, rest, now, reported);
            admissions_compose(
                s,
                next,
                admit_all(next, rest, now, reported),
                addresses,
                n,
                now,
                reported,
            );
            n + 1
        } else {
            first_unreported_is_a_place(s.row.leases, reported);
            no_admission(s, addresses, now, reported);
            0
        }
    }
}

/// The admission with which a report goes on after the due leases are dropped.
spec fn admission_start(
    row: Option<RowView>,
    count: nat,
    now: u64,
    reported: Seq<Seq<u8>>,
) -> Admission {
    Admission {
        row: renewed_row(opened_row(expired_row(row, now), now), now, reported),
        count: count_after_expiry(row, count, now),
        added: Seq::empty(),
        removed: Seq::empty(),
    }
}

/// The new addresses of a report, in order.
spec fn offered(row: Option<RowView>, now: u64, reported: Seq<Seq<u8>>) -> Seq<Seq<u8>> {
    sorted_once(unknown(reported, opened_row(expired_row(row, now), now)))
}

/// The addresses that a report pushes out.
spec fn pushed_out(
    row: Option<RowView>,
    count: nat,
    now: u64,
    reported: Seq<Seq<u8>>,
) -> Seq<Seq<u8>> {
    admit_all(
        admission_start(row, count, now, reported),
        offered(row, now, reported),
        now,
        reported,
    ).removed
}

proof fn reports_open_what_is_held(row: Option<RowView>, count: nat, now: u64)
    requires
        in_bounds(row, count),
    ensures
        opened_row(expired_row(row, now), now).leases == held(row, now),
        distinct(held(row, now)),
        held(row, now).len() <= IDENTIFY_ADDRESS_LIMIT,
        held(row, now).len() + due_of(row, now).len() == held_of(row),
        opened_row(expired_row(row, now), now).new_addresses <= IDENTIFY_NEW_ADDRESS_LIMIT,
{
    if let Some(r) = row {
        leases_are_live_until_they_end(r.leases, now);
        live_is_part(r.leases, now);
        expiry_keeps_rows(r, now);
        assert(held(row, now) =~= live(r.leases, now));
        if live(r.leases, now).len() == 0 {
            assert(held(row, now) =~= Seq::<LeaseView>::empty());
        }
    } else {
        assert(held(row, now) =~= Seq::<LeaseView>::empty());
    }
}

proof fn offers_are_new(row: Option<RowView>, count: nat, now: u64, reported: Seq<Seq<u8>>)
    requires
        in_bounds(row, count),
    ensures
        ({
            let list = offered(row, now, reported);
            let s = admission_start(row, count, now, reported);
            &&& admission_wf(s)
            &&& list.no_duplicates()
            &&& forall|i: int|
                0 <= i < list.len() ==> !holds(s.row, #[trigger] list[i]) && reported.contains(
                    list[i],
                ) && !leased(held(row, now), list[i])
            &&& forall|a: Seq<u8>| #[trigger]
                reported.contains(a) && !leased(held(row, now), a) ==> list.contains(a)
            &&& forall|i: int, j: int|
                0 <= i < j < list.len() ==> bytes_lt(#[trigger] list[i], #[trigger] list[j])
            &&& s.row.leases.len() == held(row, now).len()
            &&& forall|i: int|
                0 <= i < s.row.leases.len() ==> (#[trigger] s.row.leases[i]).address == held(
                    row,
                    now,
                )[i].address
        }),
{
    reports_open_what_is_held(row, count, now);
    let open = opened_row(expired_row(row, now), now);
    let s = admission_start(row, count, now, reported);
    let list = offered(row, now, reported);
    renewed_row_keeps_addresses(open, now, reported);
    sorted_once_sorts(unknown(reported, open));
    assert forall|i: int| 0 <= i < list.len() implies !holds(s.row, #[trigger] list[i])
        && reported.contains(list[i]) && !leased(held(row, now), list[i]) by {
        assert(list.contains(list[i]));
        unknown_is_not_held(reported, open, list[i]);
    }
    assert forall|a: Seq<u8>| #[trigger]
        reported.contains(a) && !leased(held(row, now), a) implies list.contains(a) by {
        unknown_is_not_held(reported, open, a);
    }
    assert forall|i: int, j: int| 0 <= i < list.len() && 0 <= j < list.len() && i
        != j implies list[i] != list[j] by {
        bytes_lt_trichotomy(list[i], list[j]);
        if i < j {
            assert(bytes_lt(list[i], list[j]));
        } else {
            assert(bytes_lt(list[j], list[i]));
        }
    }
}

/// What a report comes to: how many of the offered addresses are taken, which of
/// the held ones are pushed out, and what is left.
spec fn comes_to(
    peer: Seq<u8>,
    row: Option<RowView>,
    count: nat,
    now: u64,
    reported: Seq<Seq<u8>>,
    n: int,
) -> bool {
    let s = admission_start(row, count, now, reported);
    let list = offered(row, now, reported);
    let a = admit_all(s, list, now, reported);
    let c = update_changes(peer, row, count, now, reported);
    &&& admitted(s, a, list, n, now, reported)
    &&& c.added == list.take(n)
    &&& c.removed == with_peer(peer, due_of(row, now)) + with_peer(
        peer,
        pushed_out(row, count, now, reported),
    )
    &&& leases_after(row, count, now, reported) == a.row.leases
    &&& updated_row(row, count, now, reported) matches Some(r) ==> r == a.row
    &&& updated_row(row, count, now, reported) is None <==> a.row.leases.len() == 0
    &&& c.refreshed == held(row, now).filter(
        |l: LeaseView| reported.contains(l.address),
    ).map_values(|l: LeaseView| l.address)
}

proof fn a_report_comes_to(
    peer: Seq<u8>,
    row: Option<RowView>,
    count: nat,
    now: u64,
    reported: Seq<Seq<u8>>,
) -> (n: int)
    requires
        in_bounds(row, count),
    ensures
        comes_to(peer, row, count, now, reported, n),
{
    let s = admission_start(row, count, now, reported);
    let list = offered(row, now, reported);
    offers_are_new(row, count, now, reported);
    reports_open_what_is_held(row, count, now);
    reported_of_filters(held(row, now), reported);
    let n = admission_in_full(s, list, now, reported);
    let a = admit_all(s, list, now, reported);
    assert(s.added + list.take(n) =~= list.take(n));
    assert(a.added == list.take(n));
    let c = update_changes(peer, row, count, now, reported);
    if reported.len() == 0 && expired_row(row, now) is None {
        assert(held(row, now).len() == 0);
        if list.len() > 0 {
            assert(reported.contains(list[0]));
        }
        assert(list =~= Seq::<Seq<u8>>::empty());
        assert(a == s);
        assert(with_peer(peer, due_of(row, now)) + with_peer(peer, a.removed) =~= with_peer(
            peer,
            due_of(row, now),
        ));
        assert(held(row, now).filter(|l: LeaseView| reported.contains(l.address)).len() == 0) by {
            held(row, now).lemma_filter_len(|l: LeaseView| reported.contains(l.address));
        }
        assert(c.refreshed =~= held(row, now).filter(
            |l: LeaseView| reported.contains(l.address),
        ).map_values(|l: LeaseView| l.address));
        assert(c.added =~= list.take(n));
        assert(leases_after(row, count, now, reported) =~= a.row.leases);
    } else if a.row.leases.len() == 0 {
        assert(leases_after(row, count, now, reported) =~= a.row.leases);
    }
    n
}

/// What a report refreshes: the addresses that the peer held, not yet due, and
/// that the report names, all of them, each once, in the order in which they were
/// held.
pub proof fn refreshed_addresses_are_held_and_reported(
    peer: Seq<u8>,
    row: Option<RowView>,
    count: nat,
    now: u64,
    reported: Seq<Seq<u8>>,
)
    requires
        in_bounds(row, count),
    ensures
        ({
            let refreshed = update_changes(peer, row, count, now, reported).refreshed;
            &&& forall|a: Seq<u8>| #[trigger]
                refreshed.contains(a) <==> reported.contains(a) && leased(held(row, now), a)
            &&& refreshed.no_duplicates()
            &&& refreshed == held(row, now).filter(
                |l: LeaseView| reported.contains(l.address),
            ).map_values(|l: LeaseView| l.address)
        }),
{
    let n = a_report_comes_to(peer, row, count, now, reported);
    reports_open_what_is_held(row, count, now);
    let all = held(row, now);
    let p = |l: LeaseView| reported.contains(l.address);
    let some = all.filter(p);
    let refreshed = update_changes(peer, row, count, now, reported).refreshed;
    assert forall|a: Seq<u8>| #[trigger] refreshed.contains(a) <==> reported.contains(a) && leased(
        all,
        a,
    ) by {
        if refreshed.contains(a) {
            let i = choose|i: int| 0 <= i < refreshed.len() && refreshed[i] == a;
            assert(some.contains(some[i]));
            filter_members(all, p, some[i]);
            let j = choose|j: int| 0 <= j < all.len() && all[j] == some[i];
            assert(all[j].address == a);
        }
        if reported.contains(a) && leased(all, a) {
            let j = choose|j: int| 0 <= j < all.len() && (#[trigger] all[j]).address == a;
            assert(all.contains(all[j]));
            filter_members(all, p, all[j]);
            let i = choose|i: int| 0 <= i < some.len() && some[i] == all[j];
            assert(refreshed[i] == a);
        }
    }
    filters_stay_distinct(all, p);
}

proof fn filters_stay_distinct(s: Seq<LeaseView>, p: spec_fn(LeaseView) -> bool)
    requires
        distinct(s),
    ensures
        distinct(s.filter(p)),
        s.filter(p).map_values(|l: LeaseView| l.address).no_duplicates(),
    decreases s.len(),
{
    reveal(Seq::filter);
    if s.len() > 0 {
        let shorter = s.drop_last();
        assert(distinct(shorter));
        filters_stay_distinct(shorter, p);
        let some = s.filter(p);
        let before = shorter.filter(p);
        assert forall|i: int, j: int| 0 <= i < j < some.len() implies (#[trigger] some[i]).address
            != (#[trigger] some[j]).address by {
            assert(some[i] == before[i]);
            if j < before.len() {
                assert(some[j] == before[j]);
            } else {
                assert(before.contains(before[i]));
                filter_members(shorter, p, before[i]);
                let k = choose|k: int| 0 <= k < shorter.len() && shorter[k] == before[i];
                assert(s[k].address != s[s.len() - 1].address);
            }
        }
    }
    let some = s.filter(p);
    let names = some.map_values(|l: LeaseView| l.address);
    assert forall|i: int, j: int| 0 <= i < names.len() && 0 <= j < names.len() && i
        != j implies names[i] != names[j] by {
        if i < j {
            assert(some[i].address != some[j].address);
        } else {
            assert(some[j].address != some[i].address);
        }
    }
}

/// What a report adds: addresses that it names and that the peer did not hold, in
/// the order of their bytes; those that it leaves out come later in that order.
pub proof fn added_addresses_are_new_and_reported(
    peer: Seq<u8>,
    row: Option<RowView>,
    count: nat,
    now: u64,
    reported: Seq<Seq<u8>>,
)
    requires
        in_bounds(row, count),
    ensures
        ({
            let added = update_changes(peer, row, count, now, reported).added;
            &&& forall|i: int|
                0 <= i < added.len() ==> reported.contains(#[trigger] added[i]) && !leased(
                    held(row, now),
                    added[i],
                )
            &&& forall|i: int, j: int|
                0 <= i < j < added.len() ==> bytes_lt(#[trigger] added[i], #[trigger] added[j])
            &&& forall|i: int, a: Seq<u8>|
                0 <= i < added.len() && reported.contains(a) && !leased(held(row, now), a)
                    && !added.contains(a) ==> bytes_lt(#[trigger] added[i], a) && #[trigger]
                    reported.contains(a)
        }),
{
    let n = a_report_comes_to(peer, row, count, now, reported);
    offers_are_new(row, count, now, reported);
    let list = offered(row, now, reported);
    let added = update_changes(peer, row, count, now, reported).added;
    assert forall|i: int, a: Seq<u8>|
        0 <= i < added.len() && reported.contains(a) && !leased(held(row, now), a)
            && !added.contains(a) implies bytes_lt(#[trigger] added[i], a) && #[trigger]
        reported.contains(a) by {
        assert(list.contains(a));
        let j = choose|j: int| 0 <= j < list.len() && list[j] == a;
        if j < n {
            assert(added[j] == a);
        }
        assert(bytes_lt(list[i], list[j]));
    }
}

/// New addresses are taken while there is room: one that is reported, was not held
/// and is not added was refused because the window has seen all the new addresses
/// that it may, or because the peer's row is full of reported addresses, or because
/// all peers together hold as many as they may. Then nothing is lost for it.
pub proof fn new_addresses_are_taken_while_there_is_room(
    peer: Seq<u8>,
    row: Option<RowView>,
    count: nat,
    now: u64,
    reported: Seq<Seq<u8>>,
    a: Seq<u8>,
)
    requires
        in_bounds(row, count),
        reported.contains(a),
        !leased(held(row, now), a),
        !update_changes(peer, row, count, now, reported).added.contains(a),
    ensures
        ({
            let added = update_changes(peer, row, count, now, reported).added;
            let after = leases_after(row, count, now, reported);
            ||| new_in_window(row, now) + added.len() >= 8
            ||| after.len() == 8 && (forall|i: int|
                0 <= i < after.len() ==> reported.contains((#[trigger] after[i]).address))
            ||| after.len() < 8 && count - held_of(row) + after.len() == 1024
        }),
{
    let n = a_report_comes_to(peer, row, count, now, reported);
    offers_are_new(row, count, now, reported);
    reports_open_what_is_held(row, count, now);
    let list = offered(row, now, reported);
    let added = update_changes(peer, row, count, now, reported).added;
    assert(list.contains(a));
    let j = choose|j: int| 0 <= j < list.len() && list[j] == a;
    if j < n {
        assert(added[j] == a);
    }
    let s = admission_start(row, count, now, reported);
    let x = admit_all(s, list, now, reported);
    let out = x.removed.skip(0);
    assert(out =~= x.removed);
    windows_count_what_is_new(row, count, now);
}

/// The new addresses that the window of a peer has seen before a report at `now`:
/// none where the window is over, and none where the peer holds no address.
pub open spec fn new_in_window(row: Option<RowView>, now: u64) -> nat {
    match row {
        Some(r) => if held(row, now).len() > 0 && now - r.window_started < 60_000_000_000 {
            r.new_addresses as nat
        } else {
            0
        },
        None => 0,
    }
}

proof fn windows_count_what_is_new(row: Option<RowView>, count: nat, now: u64)
    requires
        in_bounds(row, count),
    ensures
        opened_row(expired_row(row, now), now).new_addresses == new_in_window(row, now),
        opened_row(expired_row(row, now), now).window_started == (if row is Some && held(
            row,
            now,
        ).len() > 0 && now - row->0.window_started < 60_000_000_000 {
            row->0.window_started
        } else {
            now
        }),
{
    reports_open_what_is_held(row, count, now);
    if let Some(r) = row {
        leases_are_live_until_they_end(r.leases, now);
    }
}

/// The window of a peer counts its new addresses: a report in the window adds to
/// it, and one after its end, or of a peer that holds nothing, begins a new one.
pub proof fn windows_count_new_addresses(
    peer: Seq<u8>,
    row: Option<RowView>,
    count: nat,
    now: u64,
    reported: Seq<Seq<u8>>,
)
    requires
        in_bounds(row, count),
    ensures
        updated_row(row, count, now, reported) matches Some(r) ==> {
            let added = update_changes(peer, row, count, now, reported).added;
            let same = row is Some && held(row, now).len() > 0 && now - row->0.window_started
                < 60_000_000_000;
            &&& r.window_started == (if same { row->0.window_started } else { now })
            &&& r.new_addresses == (if same { row->0.new_addresses as int } else { 0 }) + added.len()
        },
{
    let n = a_report_comes_to(peer, row, count, now, reported);
    windows_count_what_is_new(row, count, now);
}

/// What a report leaves: what was held and is not removed, in its order, and behind
/// it what was added, in its order. A reported address is held for half an hour
/// from the report on; any other keeps its time.
pub proof fn what_a_report_leaves(
    peer: Seq<u8>,
    row: Option<RowView>,
    count: nat,
    now: u64,
    reported: Seq<Seq<u8>>,
)
    requires
        in_bounds(row, count),
        now + 1_800_000_000_000 <= u64::MAX,
    ensures
        ({
            let c = update_changes(peer, row, count, now, reported);
            let after = leases_after(row, count, now, reported);
            let kept = held(row, now).filter(
                |l: LeaseView| !c.removed.contains((peer, l.address)),
            );
            &&& after.len() == kept.len() + c.added.len()
            &&& forall|i: int|
                0 <= i < after.len() ==> (#[trigger] after[i]).address == (if i < kept.len() {
                    kept[i].address
                } else {
                    c.added[i - kept.len()]
                })
            &&& forall|i: int|
                0 <= i < after.len() ==> (#[trigger] after[i]).expires_at == (if reported.contains(
                    after[i].address,
                ) {
                    now + 1_800_000_000_000
                } else {
                    kept[i].expires_at as int
                })
            &&& forall|i: int|
                kept.len() <= i < after.len() ==> reported.contains((#[trigger] after[i]).address)
            &&& updated_row(row, count, now, reported) is None <==> after.len() == 0
        }),
{
    let n = a_report_comes_to(peer, row, count, now, reported);
    offers_are_new(row, count, now, reported);
    reports_open_what_is_held(row, count, now);
    let c = update_changes(peer, row, count, now, reported);
    let after = leases_after(row, count, now, reported);
    let all = held(row, now);
    let s = admission_start(row, count, now, reported);
    let list = offered(row, now, reported);
    let a = admit_all(s, list, now, reported);
    let out = a.removed.skip(0);
    assert(out =~= a.removed);
    let p = |l: LeaseView| !c.removed.contains((peer, l.address));
    let q = |l: LeaseView| !out.contains(l.address);
    assert forall|i: int| 0 <= i < all.len() implies p(#[trigger] all[i]) == q(all[i]) by {
        what_goes(peer, row, count, now, reported, all[i].address);
        assert(leased(all, all[i].address));
    }
    filters_agree(all, p, q);
    renewing_leaves_alike(all, now, reported, out);
    let kept = all.filter(q);
    let left = without(s.row.leases, out);
    assert(s.row.leases =~= renewed_all(all, now, reported));
    assert forall|i: int| 0 <= i < after.len() implies (#[trigger] after[i]).address == (if i
        < kept.len() {
        kept[i].address
    } else {
        c.added[i - kept.len()]
    }) && after[i].expires_at == (if reported.contains(after[i].address) {
        now + 1_800_000_000_000
    } else {
        kept[i].expires_at as int
    }) && (i >= kept.len() ==> reported.contains(after[i].address)) by {
        if i < kept.len() {
            assert(a.row.leases.take(left.len() as int)[i] == left[i]);
        } else {
            let k = i - kept.len();
            assert(a.row.leases[left.len() + k].address == list[k]);
            assert(reported.contains(list[k]));
        }
    }
}

spec fn renewed_all(leases: Seq<LeaseView>, now: u64, reported: Seq<Seq<u8>>) -> Seq<LeaseView> {
    leases.map_values(|l: LeaseView| renewed(l, now, reported))
}

proof fn renewing_leaves_alike(
    leases: Seq<LeaseView>,
    now: u64,
    reported: Seq<Seq<u8>>,
    out: Seq<Seq<u8>>,
)
    requires
        now + 1_800_000_000_000 <= u64::MAX,
    ensures
        ({
            let left = without(renewed_all(leases, now, reported), out);
            let kept = without(leases, out);
            &&& left.len() == kept.len()
            &&& forall|i: int|
                0 <= i < kept.len() ==> (#[trigger] left[i]).address == kept[i].address
                    && left[i].expires_at == (if reported.contains(kept[i].address) {
                    now + 1_800_000_000_000
                } else {
                    kept[i].expires_at as int
                })
        }),
    decreases leases.len(),
{
    reveal(Seq::filter);
    if leases.len() > 0 {
        let shorter = leases.drop_last();
        renewing_leaves_alike(shorter, now, reported, out);
        let more = renewed_all(leases, now, reported);
        assert(more.drop_last() =~= renewed_all(shorter, now, reported));
        let left = without(more, out);
        let kept = without(leases, out);
        assert forall|i: int| 0 <= i < kept.len() implies (#[trigger] left[i]).address
            == kept[i].address && left[i].expires_at == (if reported.contains(kept[i].address) {
            now + 1_800_000_000_000
        } else {
            kept[i].expires_at as int
        }) by {
            let before = without(shorter, out);
            if i < before.len() {
                assert(left[i] == without(renewed_all(shorter, now, reported), out)[i]);
                assert(kept[i] == before[i]);
            }
        }
    }
}

/// What is removed of the addresses that were held.
proof fn what_goes(
    peer: Seq<u8>,
    row: Option<RowView>,
    count: nat,
    now: u64,
    reported: Seq<Seq<u8>>,
    a: Seq<u8>,
)
    requires
        in_bounds(row, count),
    ensures
        leased(held(row, now), a) ==> (update_changes(
            peer,
            row,
            count,
            now,
            reported,
        ).removed.contains((peer, a)) <==> pushed_out(row, count, now, reported).contains(a)),
        row matches Some(r) && !leased(held(row, now), a) && leased(r.leases, a) ==> due_of(
            row,
            now,
        ).contains(a),
        due_of(row, now).contains(a) ==> row is Some && leased(row->0.leases, a) && !leased(
            held(row, now),
            a,
        ),
{
    let n = a_report_comes_to(peer, row, count, now, reported);
    let c = update_changes(peer, row, count, now, reported);
    let gone = due_of(row, now);
    let out = pushed_out(row, count, now, reported);
    let (first, second) = (with_peer(peer, gone), with_peer(peer, out));
    if out.contains(a) {
        let i = choose|i: int| 0 <= i < out.len() && out[i] == a;
        assert(second[i] == (peer, a));
        assert(c.removed[first.len() + i] == (peer, a));
    }
    if let Some(r) = row {
        leases_are_live_until_they_end(r.leases, now);
        let p = |l: LeaseView| l.expires_at > now;
        let q = |l: LeaseView| l.expires_at <= now;
        let old = r.leases.filter(q);
        let all = held(row, now);
        if gone.contains(a) {
            let i = choose|i: int| 0 <= i < gone.len() && gone[i] == a;
            assert(old.contains(old[i]));
            filter_members(r.leases, q, old[i]);
            let j = choose|j: int| 0 <= j < r.leases.len() && r.leases[j] == old[i];
            assert(r.leases[j].address == a);
            if leased(all, a) {
                let k = choose|k: int| 0 <= k < all.len() && (#[trigger] all[k]).address == a;
                assert(all.contains(all[k]));
                filter_members(r.leases, p, all[k]);
                let m = choose|m: int| 0 <= m < r.leases.len() && r.leases[m] == all[k];
                assert(r.leases[m].address == r.leases[j].address);
                assert(m == j) by {
                    if m < j {
                        assert(r.leases[m].address != r.leases[j].address);
                    } else if j < m {
                        assert(r.leases[j].address != r.leases[m].address);
                    }
                }
            }
        }
        if leased(r.leases, a) && !leased(all, a) {
            let j = choose|j: int|
                0 <= j < r.leases.len() && (#[trigger] r.leases[j]).address == a;
            let l = r.leases[j];
            assert(r.leases.contains(l));
            filter_members(r.leases, p, l);
            filter_members(r.leases, q, l);
            if all.contains(l) {
                let k = choose|k: int| 0 <= k < all.len() && all[k] == l;
                assert(all[k].address == a);
            }
            let i = choose|i: int| 0 <= i < old.len() && old[i] == l;
            assert(gone[i] == a);
        }
    }
    if leased(held(row, now), a) && c.removed.contains((peer, a)) {
        let i = choose|i: int| 0 <= i < c.removed.len() && c.removed[i] == (peer, a);
        if i < first.len() {
            assert(gone[i] == a);
            assert(gone.contains(a));
        } else {
            assert(out[i - first.len()] == a);
        }
    }
}

/// What a report removes: the addresses that are due, and of the others only ones
/// that the report does not name, only where the peer's row is then full, the
/// oldest first, and no more than the added ones push out. All are addresses of
/// the peer that reports.
pub proof fn what_a_report_removes(
    peer: Seq<u8>,
    row: Option<RowView>,
    count: nat,
    now: u64,
    reported: Seq<Seq<u8>>,
)
    requires
        in_bounds(row, count),
    ensures
        ({
            let c = update_changes(peer, row, count, now, reported);
            let all = held(row, now);
            let after = leases_after(row, count, now, reported);
            &&& forall|i: int|
                0 <= i < c.removed.len() ==> (#[trigger] c.removed[i]).0 == peer && row is Some
                    && leased(row->0.leases, c.removed[i].1)
            &&& forall|i: int|
                row is Some && 0 <= i < row->0.leases.len() && (#[trigger] row->0.leases[i]).expires_at
                    <= now ==> c.removed.contains((peer, row->0.leases[i].address))
            &&& forall|i: int|
                0 <= i < all.len() && c.removed.contains((peer, (#[trigger] all[i]).address))
                    ==> !reported.contains(all[i].address) && after.len() == 8 && c.added.len() > 0
            &&& forall|i: int, j: int|
                0 <= i < j < all.len() && c.removed.contains((peer, (#[trigger] all[j]).address))
                    && !reported.contains((#[trigger] all[i]).address) ==> c.removed.contains(
                    (peer, all[i].address),
                )
            &&& c.removed.len() + after.len() == held_of(row) + c.added.len()
        }),
{
    let n = a_report_comes_to(peer, row, count, now, reported);
    offers_are_new(row, count, now, reported);
    reports_open_what_is_held(row, count, now);
    let c = update_changes(peer, row, count, now, reported);
    let all = held(row, now);
    let s = admission_start(row, count, now, reported);
    let list = offered(row, now, reported);
    let x = admit_all(s, list, now, reported);
    let out = x.removed.skip(0);
    assert(out =~= x.removed);
    assert(out == pushed_out(row, count, now, reported));
    let gone = due_of(row, now);
    assert forall|i: int| 0 <= i < c.removed.len() implies (#[trigger] c.removed[i]).0 == peer && row
        is Some && leased(row->0.leases, c.removed[i].1) by {
        let a = c.removed[i].1;
        what_goes(peer, row, count, now, reported, a);
        if i < gone.len() {
            assert(gone[i] == a);
            assert(gone.contains(a));
        } else {
            let k = i - gone.len();
            assert(out[k] == a);
            let m = choose|m: int|
                0 <= m < s.row.leases.len() && (#[trigger] s.row.leases[m]).address == a;
            assert(all[m].address == a);
            assert(row is Some);
            assert(all.contains(all[m]));
            filter_members(row->0.leases, |l: LeaseView| l.expires_at > now, all[m]);
            let j = choose|j: int| 0 <= j < row->0.leases.len() && row->0.leases[j] == all[m];
            assert(row->0.leases[j].address == a);
        }
    }
    assert forall|i: int|
        row is Some && 0 <= i < row->0.leases.len() && (#[trigger] row->0.leases[i]).expires_at
            <= now implies c.removed.contains((peer, row->0.leases[i].address)) by {
        let r = row->0;
        let l = r.leases[i];
        leases_are_live_until_they_end(r.leases, now);
        let q = |l: LeaseView| l.expires_at <= now;
        assert(r.leases.contains(l));
        filter_members(r.leases, q, l);
        let old = r.leases.filter(q);
        let k = choose|k: int| 0 <= k < old.len() && old[k] == l;
        assert(gone[k] == l.address);
        assert(c.removed[k] == (peer, l.address));
    }
    assert forall|i: int| 0 <= i < all.len() implies (c.removed.contains(
        (peer, (#[trigger] all[i]).address),
    ) <==> out.contains(all[i].address)) by {
        assert(leased(all, all[i].address));
        what_goes(peer, row, count, now, reported, all[i].address);
    }
    assert forall|i: int|
        0 <= i < all.len() && c.removed.contains((peer, (#[trigger] all[i]).address)) implies !reported.contains(
    all[i].address) && leases_after(row, count, now, reported).len() == 8 && c.added.len() > 0 by {
        let k = choose|k: int| 0 <= k < out.len() && out[k] == all[i].address;
        assert(!reported.contains(out[k]));
    }
    assert forall|i: int, j: int|
        0 <= i < j < all.len() && c.removed.contains((peer, (#[trigger] all[j]).address))
            && !reported.contains((#[trigger] all[i]).address) implies c.removed.contains(
        (peer, all[i].address),
    ) by {
        assert(s.row.leases[j].address == all[j].address);
        assert(s.row.leases[i].address == all[i].address);
        assert(out.contains(all[j].address));
        assert(out.contains(all[i].address));
    }
}

/// Every reported address that the peer has after its report was refreshed or
/// added, so that it goes into the routing table again.
pub proof fn reported_addresses_are_told(
    peer: Seq<u8>,
    row: Option<RowView>,
    count: nat,
    now: u64,
    reported: Seq<Seq<u8>>,
    a: Seq<u8>,
)
    requires
        in_bounds(row, count),
        now + 1_800_000_000_000 <= u64::MAX,
        reported.contains(a),
        leased(leases_after(row, count, now, reported), a),
    ensures
        update_changes(peer, row, count, now, reported).refreshed.contains(a) || update_changes(
            peer,
            row,
            count,
            now,
            reported,
        ).added.contains(a),
{
    what_a_report_leaves(peer, row, count, now, reported);
    refreshed_addresses_are_held_and_reported(peer, row, count, now, reported);
    let c = update_changes(peer, row, count, now, reported);
    let after = leases_after(row, count, now, reported);
    let p = |l: LeaseView| !c.removed.contains((peer, l.address));
    let kept = held(row, now).filter(p);
    let i = choose|i: int| 0 <= i < after.len() && (#[trigger] after[i]).address == a;
    if i < kept.len() {
        assert(kept.contains(kept[i]));
        filter_members(held(row, now), p, kept[i]);
        let k = choose|k: int| 0 <= k < held(row, now).len() && held(row, now)[k] == kept[i];
        assert(held(row, now)[k].address == a);
    } else {
        assert(c.added[i - kept.len()] == a);
    }
}

/// The bounds of the book: eight addresses and eight new ones in a minute for a
/// peer, the first 64 of a report, 1024 in all; an address is kept for half an
/// hour, and old ones are looked for every minute.
pub proof fn bounds_of_the_book()
    ensures
        IDENTIFY_ADDRESS_LIMIT == 8,
        IDENTIFY_NEW_ADDRESS_LIMIT == 8,
        IDENTIFY_REPORT_ADDRESS_LIMIT == 64,
        IDENTIFY_GLOBAL_ADDRESS_LIMIT == 1024,
        IDENTIFY_ADDRESS_WINDOW == 60_000_000_000,
        IDENTIFY_ADDRESS_TTL == 30 * IDENTIFY_ADDRESS_WINDOW,
        IDENTIFY_ADDRESS_CLEANUP_INTERVAL == 60_000_000_000,
{
}

/// What an expiry does: of every peer the leases that have ended go, the others
/// stay as they are, in their order, and so does the peer's window. A peer of whom
/// nothing is left is forgotten. What is told as gone is what has ended.
pub proof fn expiries_drop_what_has_ended(
    book: Map<Seq<u8>, RowView>,
    now: u64,
    peer: Seq<u8>,
    a: Seq<u8>,
)
    ensures
        ({
            let after = expired_book(book, now);
            &&& after.contains_key(peer) <==> book.contains_key(peer) && (exists|i: int|
                0 <= i < book[peer].leases.len() && (#[trigger] book[peer].leases[i]).expires_at
                    > now)
            &&& after.contains_key(peer) ==> {
                &&& after[peer].leases == book[peer].leases.filter(
                    |l: LeaseView| l.expires_at > now,
                )
                &&& after[peer].window_started == book[peer].window_started
                &&& after[peer].new_addresses == book[peer].new_addresses
            }
            &&& due_of(row_of(book, peer), now).contains(a) <==> book.contains_key(peer) && (exists|
                i: int,
            |
                0 <= i < book[peer].leases.len() && (#[trigger] book[peer].leases[i]).address == a
                    && book[peer].leases[i].expires_at <= now)
        }),
{
    if book.contains_key(peer) {
        let leases = book[peer].leases;
        leases_are_live_until_they_end(leases, now);
        let p = |l: LeaseView| l.expires_at > now;
        let q = |l: LeaseView| l.expires_at <= now;
        let (kept, old) = (leases.filter(p), leases.filter(q));
        let gone = due(leases, now);
        if kept.len() > 0 {
            assert(kept.contains(kept[0]));
            filter_members(leases, p, kept[0]);
            let i = choose|i: int| 0 <= i < leases.len() && leases[i] == kept[0];
            assert(leases[i].expires_at > now);
        }
        if exists|i: int| 0 <= i < leases.len() && (#[trigger] leases[i]).expires_at > now {
            let i = choose|i: int| 0 <= i < leases.len() && (#[trigger] leases[i]).expires_at > now;
            assert(leases.contains(leases[i]));
            filter_members(leases, p, leases[i]);
        }
        if gone.contains(a) {
            let k = choose|k: int| 0 <= k < gone.len() && gone[k] == a;
            assert(old.contains(old[k]));
            filter_members(leases, q, old[k]);
            let i = choose|i: int| 0 <= i < leases.len() && leases[i] == old[k];
            assert(leases[i].address == a && leases[i].expires_at <= now);
        }
        if exists|i: int|
            0 <= i < leases.len() && (#[trigger] leases[i]).address == a && leases[i].expires_at
                <= now {
            let i = choose|i: int|
                0 <= i < leases.len() && (#[trigger] leases[i]).address == a && leases[i].expires_at
                    <= now;
            assert(leases.contains(leases[i]));
            filter_members(leases, q, leases[i]);
            let k = choose|k: int| 0 <= k < old.len() && old[k] == leases[i];
            assert(gone[k] == a);
        }
    }
}

/// What of a report counts: of its first 64 addresses those that can end in the
/// peer's id, with it at their end; no other address, and none of them left out.
pub proof fn reports_are_read_up_to_their_limit(report: Seq<Seq<u8>>, peer: Seq<u8>, a: Seq<u8>)
    ensures
        canonical(looked_at(report), peer).contains(a) <==> exists|i: int|
            0 <= i < report.len() && i < 64 && with_peer_suffix(#[trigger] report[i], peer) == Some(a),
        canonical(looked_at(report), peer).len() <= 64,
{
    let seen = looked_at(report);
    canonical_members(seen, peer, a);
    if exists|i: int|
        0 <= i < report.len() && i < 64 && with_peer_suffix(#[trigger] report[i], peer) == Some(a) {
        let i = choose|i: int|
            0 <= i < report.len() && i < 64 && with_peer_suffix(#[trigger] report[i], peer) == Some(
                a,
            );
        assert(seen[i] == report[i]);
    }
    if exists|i: int| 0 <= i < seen.len() && with_peer_suffix(#[trigger] seen[i], peer) == Some(a) {
        let i = choose|i: int|
            0 <= i < seen.len() && with_peer_suffix(#[trigger] seen[i], peer) == Some(a);
        assert(seen[i] == report[i]);
    }
}

proof fn canonical_members(report: Seq<Seq<u8>>, peer: Seq<u8>, a: Seq<u8>)
    ensures
        canonical(report, peer).contains(a) <==> exists|i: int|
            0 <= i < report.len() && with_peer_suffix(#[trigger] report[i], peer) == Some(a),
        canonical(report, peer).len() <= report.len(),
    decreases report.len(),
{
    let list = canonical(report, peer);
    if report.len() > 0 {
        let shorter = report.drop_last();
        let before = canonical(shorter, peer);
        let last = report.len() - 1;
        canonical_members(shorter, peer, a);
        if list.contains(a) {
            let k = choose|k: int| 0 <= k < list.len() && list[k] == a;
            if k < before.len() {
                assert(before[k] == a);
                let i = choose|i: int|
                    0 <= i < shorter.len() && with_peer_suffix(#[trigger] shorter[i], peer) == Some(
                        a,
                    );
                assert(report[i] == shorter[i]);
            } else {
                assert(with_peer_suffix(report[last], peer) == Some(a));
            }
        }
        if exists|i: int|
            0 <= i < report.len() && with_peer_suffix(#[trigger] report[i], peer) == Some(a) {
            let i = choose|i: int|
                0 <= i < report.len() && with_peer_suffix(#[trigger] report[i], peer) == Some(a);
            if i < last {
                assert(shorter[i] == report[i]);
                let k = choose|k: int| 0 <= k < before.len() && before[k] == a;
                assert(list[k] == a);
            } else {
                assert(list[before.len() as int] == a);
            }
        }
    }
}

/// What a report does to one address: it stays or comes, and is refreshed, added
/// and removed, as follows from whether the peer held it and whether it is
/// reported.
pub proof fn reports_in_sets(
    peer: Seq<u8>,
    row: Option<RowView>,
    count: nat,
    now: u64,
    reported: Seq<Seq<u8>>,
    a: Seq<u8>,
)
    requires
        in_bounds(row, count),
        now + 1_800_000_000_000 <= u64::MAX,
    ensures
        ({
            let c = update_changes(peer, row, count, now, reported);
            let after = leases_after(row, count, now, reported);
            let before = leased(held(row, now), a);
            &&& c.refreshed.contains(a) <==> before && reported.contains(a)
            &&& c.added.contains(a) <==> !before && leased(after, a)
            &&& c.added.contains(a) ==> reported.contains(a)
            &&& before ==> (c.removed.contains((peer, a)) <==> !leased(after, a))
            &&& before && reported.contains(a) ==> leased(after, a)
            &&& !before ==> (c.removed.contains((peer, a)) <==> row is Some && leased(
                row->0.leases,
                a,
            ))
        }),
{
    let c = update_changes(peer, row, count, now, reported);
    let after = leases_after(row, count, now, reported);
    let all = held(row, now);
    what_a_report_leaves(peer, row, count, now, reported);
    what_a_report_removes(peer, row, count, now, reported);
    refreshed_addresses_are_held_and_reported(peer, row, count, now, reported);
    added_addresses_are_new_and_reported(peer, row, count, now, reported);
    what_goes(peer, row, count, now, reported, a);
    let p = |l: LeaseView| !c.removed.contains((peer, l.address));
    let kept = all.filter(p);
    if leased(after, a) {
        let i = choose|i: int| 0 <= i < after.len() && (#[trigger] after[i]).address == a;
        if i < kept.len() {
            assert(kept.contains(kept[i]));
            filter_members(all, p, kept[i]);
            let k = choose|k: int| 0 <= k < all.len() && all[k] == kept[i];
            assert(all[k].address == a);
        } else {
            assert(c.added[i - kept.len()] == a);
        }
    }
    if c.added.contains(a) {
        let i = choose|i: int| 0 <= i < c.added.len() && c.added[i] == a;
        assert(after[kept.len() + i].address == a);
    }
    if leased(all, a) {
        let k = choose|k: int| 0 <= k < all.len() && (#[trigger] all[k]).address == a;
        if !c.removed.contains((peer, a)) {
            assert(all.contains(all[k]));
            filter_members(all, p, all[k]);
            let i = choose|i: int| 0 <= i < kept.len() && kept[i] == all[k];
            assert(after[i].address == a);
        }
    }
    let gone = due_of(row, now);
    let n = a_report_comes_to(peer, row, count, now, reported);
    if gone.contains(a) {
        let i = choose|i: int| 0 <= i < gone.len() && gone[i] == a;
        assert(with_peer(peer, gone)[i] == (peer, a));
        assert(c.removed[i] == (peer, a));
    }
    if c.removed.contains((peer, a)) {
        let i = choose|i: int| 0 <= i < c.removed.len() && c.removed[i] == (peer, a);
        assert(c.removed[i].1 == a);
    }
}

} // verus!
