//! What a listing of the key directory says: which files are publish markers,
//! recovery claims or quarantined keys, and which of them count as old.

use vstd::prelude::*;

use crate::identity::names::{
    class_prefix, class_word, class_words, classes_are_disjoint, publishing_prefix,
    quarantined_prefix, recovering_prefix, superseded_prefix,
};
use crate::identity::ops::{CLAIM_SWEEP_MIN_AGE, SUPERSEDED_RETENTION};
use crate::text::{chars_of, has_prefix, prefixes_stand_before_the_rest, starts_with};

verus! {

/// One entry of a directory listing.
#[derive(Debug)]
pub struct DirEntry {
    /// The caller's number for the file.
    pub id: u64,
    /// The file name, where it is text.
    pub name: Option<String>,
    /// The modification time in nanoseconds since the epoch, where it can be
    /// read.
    pub modified: Option<i128>,
}

/// One entry of a directory listing, as the contracts see it.
pub struct EntryView {
    pub id: u64,
    pub name: Option<Seq<char>>,
    pub modified: Option<i128>,
}

impl View for DirEntry {
    type V = EntryView;

    open spec fn view(&self) -> EntryView {
        EntryView {
            id: self.id,
            name: match self.name {
                Some(n) => Some(n@),
                None => None,
            },
            modified: self.modified,
        }
    }
}

/// The listing as the contracts see it.
pub open spec fn views(entries: Seq<DirEntry>) -> Seq<EntryView> {
    entries.map_values(|e: DirEntry| e@)
}

/// The ids of a listing.
pub open spec fn ids(entries: Seq<EntryView>) -> Seq<u64> {
    entries.map_values(|e: EntryView| e.id)
}

/// Whether the entry's name is text and belongs to the class.
pub open spec fn in_class(e: EntryView, stem: Seq<char>, class: Seq<char>) -> bool {
    e.name is Some && has_prefix(e.name->0, class_prefix(stem, class))
}

/// Whether the entry is at least `age` old. An entry whose time cannot be read,
/// or lies in the future, is not.
pub open spec fn at_least(e: EntryView, now: i128, age: int) -> bool {
    e.modified is Some && e.modified->0 <= now && now - e.modified->0 >= age
}

/// Whether the entry is known to be younger than `age`. An entry whose time
/// lies in the future is; one whose time cannot be read is not.
pub open spec fn younger_than(e: EntryView, now: i128, age: int) -> bool {
    e.modified is Some && (e.modified->0 > now || now - e.modified->0 < age) && age > 0
}

/// Whether a recovery may claim the entry: a publish marker always, a recovery
/// claim once it is orphaned.
pub open spec fn claimable(e: EntryView, stem: Seq<char>, now: i128) -> bool {
    in_class(e, stem, "publishing"@) || (in_class(e, stem, "recovering"@) && at_least(
        e,
        now,
        CLAIM_SWEEP_MIN_AGE as int,
    ))
}

/// Whether a sweep beside a healthy key removes the entry: a publish marker
/// always, a recovery claim once it is orphaned, a superseded or quarantined
/// key once its retention is over.
pub open spec fn stale(e: EntryView, stem: Seq<char>, now: i128) -> bool {
    claimable(e, stem, now) || ((in_class(e, stem, "superseded"@) || in_class(
        e,
        stem,
        "quarantined"@,
    )) && at_least(e, now, SUPERSEDED_RETENTION as int))
}

/// Whether the entry is a quarantined key young enough to be adopted.
pub open spec fn adoptable(e: EntryView, stem: Seq<char>, now: i128) -> bool {
    in_class(e, stem, "quarantined"@) && younger_than(e, now, CLAIM_SWEEP_MIN_AGE as int)
}

/// Lexicographic order of texts by their characters.
pub open spec fn lex_le(a: Seq<char>, b: Seq<char>) -> bool
    decreases a.len(),
{
    if a.len() == 0 {
        true
    } else if b.len() == 0 {
        false
    } else if a[0] != b[0] {
        a[0] < b[0]
    } else {
        lex_le(a.drop_first(), b.drop_first())
    }
}

/// Whether `a` may stand before `b` in a listing sorted by name.
pub open spec fn name_le(a: EntryView, b: EntryView) -> bool {
    match (a.name, b.name) {
        (Some(x), Some(y)) => lex_le(x, y),
        (None, _) => true,
        _ => false,
    }
}

/// Whether `a` may stand before `b` in a listing sorted newest first.
pub open spec fn newer_or_same(a: EntryView, b: EntryView) -> bool {
    match (a.modified, b.modified) {
        (Some(x), Some(y)) => x >= y,
        (_, None) => true,
        _ => false,
    }
}

/// An order of entries.
#[derive(Clone, Copy, PartialEq, Eq, Structural, Debug)]
pub enum Order {
    ByName,
    NewestFirst,
}

/// Whether `a` may stand before `b`.
pub open spec fn may_precede(order: Order, a: EntryView, b: EntryView) -> bool {
    match order {
        Order::ByName => name_le(a, b),
        Order::NewestFirst => newer_or_same(a, b),
    }
}

/// `sorted` with `e` put behind the last entry that may stand before it.
pub open spec fn insert_in_order(sorted: Seq<EntryView>, e: EntryView, order: Order) -> Seq<
    EntryView,
>
    decreases sorted.len(),
{
    if sorted.len() == 0 || may_precede(order, sorted.last(), e) {
        sorted.push(e)
    } else {
        insert_in_order(sorted.drop_last(), e, order).push(sorted.last())
    }
}

/// The entries in order, those that may stand either way as they were.
pub open spec fn in_order(entries: Seq<EntryView>, order: Order) -> Seq<EntryView>
    decreases entries.len(),
{
    if entries.len() == 0 {
        Seq::empty()
    } else {
        insert_in_order(in_order(entries.drop_last(), order), entries.last(), order)
    }
}

/// The publish markers, by name.
pub open spec fn publish_markers(entries: Seq<EntryView>, stem: Seq<char>) -> Seq<EntryView> {
    in_order(entries.filter(|e: EntryView| in_class(e, stem, "publishing"@)), Order::ByName)
}

/// The files a recovery may claim, by name.
pub open spec fn recovery_claimables(
    entries: Seq<EntryView>,
    stem: Seq<char>,
    now: i128,
) -> Seq<EntryView> {
    in_order(entries.filter(|e: EntryView| claimable(e, stem, now)), Order::ByName)
}

/// The quarantined keys that may be adopted, newest first.
pub open spec fn adoptable_quarantines(
    entries: Seq<EntryView>,
    stem: Seq<char>,
    now: i128,
) -> Seq<EntryView> {
    in_order(entries.filter(|e: EntryView| adoptable(e, stem, now)), Order::NewestFirst)
}

fn entry_in_class(e: &DirEntry, prefix: &str) -> (r: bool)
    ensures
        r == (e@.name is Some && has_prefix(e@.name->0, prefix@)),
{
    match &e.name {
        Some(n) => starts_with(n.as_str(), prefix),
        None => false,
    }
}

fn entry_at_least(e: &DirEntry, now: i128, age: u64) -> (r: bool)
    ensures
        r == at_least(e@, now, age as int),
{
    match e.modified {
        Some(m) => m <= now && gap(m, now) >= age as u128,
        None => false,
    }
}

fn entry_younger_than(e: &DirEntry, now: i128, age: u64) -> (r: bool)
    ensures
        r == younger_than(e@, now, age as int),
{
    match e.modified {
        Some(m) => age > 0 && (m > now || gap(m, now) < age as u128),
        None => false,
    }
}

/// The distance from `a` up to `b`.
fn gap(a: i128, b: i128) -> (r: u128)
    requires
        a <= b,
    ensures
        r == b - a,
{
    if a >= 0 {
        (b - a) as u128
    } else if b < 0 {
        (b - a) as u128
    } else {
        (b as u128) + ((-(a + 1)) as u128) + 1
    }
}

fn lex_not_after(a: &Vec<char>, b: &Vec<char>) -> (r: bool)
    ensures
        r == lex_le(a@, b@),
{
    let mut i: usize = 0;
    proof {
        assert(a@.skip(0) =~= a@);
        assert(b@.skip(0) =~= b@);
    }
    while i < a.len() && i < b.len() && a[i] == b[i]
        invariant
            i <= a.len(),
            i <= b.len(),
            lex_le(a@, b@) == lex_le(a@.skip(i as int), b@.skip(i as int)),
        decreases a.len() - i,
    {
        proof {
            assert(a@.skip(i as int).drop_first() =~= a@.skip(i as int + 1));
            assert(b@.skip(i as int).drop_first() =~= b@.skip(i as int + 1));
        }
        i = i + 1;
    }
    if i == a.len() {
        true
    } else if i == b.len() {
        false
    } else {
        a[i] < b[i]
    }
}

fn name_not_after(a: &DirEntry, b: &DirEntry) -> (r: bool)
    ensures
        r == name_le(a@, b@),
{
    match &a.name {
        None => true,
        Some(x) => match &b.name {
            None => false,
            Some(y) => lex_not_after(&chars_of(x.as_str()), &chars_of(y.as_str())),
        },
    }
}

fn not_older(a: &DirEntry, b: &DirEntry) -> (r: bool)
    ensures
        r == newer_or_same(a@, b@),
{
    match b.modified {
        None => true,
        Some(y) => match a.modified {
            None => false,
            Some(x) => x >= y,
        },
    }
}

fn precedes(order: Order, a: &DirEntry, b: &DirEntry) -> (r: bool)
    ensures
        r == may_precede(order, a@, b@),
{
    match order {
        Order::ByName => name_not_after(a, b),
        Order::NewestFirst => not_older(a, b),
    }
}

/// The entries at the given positions.
spec fn picked(entries: Seq<DirEntry>, at: Seq<usize>) -> Seq<EntryView> {
    at.map_values(|i: usize| entries[i as int]@)
}

proof fn picked_push(entries: Seq<DirEntry>, at: Seq<usize>, i: usize)
    ensures
        picked(entries, at.push(i)) == picked(entries, at).push(entries[i as int]@),
{
    assert(picked(entries, at.push(i)) =~= picked(entries, at).push(entries[i as int]@));
}

proof fn filter_step(entries: Seq<DirEntry>, i: int, keep: spec_fn(EntryView) -> bool)
    requires
        0 <= i < entries.len(),
    ensures
        views(entries.take(i + 1)).filter(keep) == (if keep(entries[i]@) {
            views(entries.take(i)).filter(keep).push(entries[i]@)
        } else {
            views(entries.take(i)).filter(keep)
        }),
{
    let longer = views(entries.take(i + 1));
    assert(longer.drop_last() =~= views(entries.take(i)));
    assert(longer.last() == entries[i]@);
    reveal(Seq::filter);
}

proof fn filter_none(entries: Seq<DirEntry>, keep: spec_fn(EntryView) -> bool)
    ensures
        views(entries.take(0)).filter(keep) == Seq::<EntryView>::empty(),
        views(entries.take(entries.len() as int)) == views(entries),
{
    reveal(Seq::filter);
    assert(views(entries.take(0)) =~= Seq::<EntryView>::empty());
    assert(entries.take(entries.len() as int) =~= entries);
}

/// The ids of the entries at the given positions.
fn ids_at(entries: &Vec<DirEntry>, at: &Vec<usize>) -> (r: Vec<u64>)
    requires
        forall|j: int| 0 <= j < at.len() ==> at[j] < entries.len(),
    ensures
        r@ == ids(picked(entries@, at@)),
{
    let mut out: Vec<u64> = Vec::new();
    let mut i: usize = 0;
    while i < at.len()
        invariant
            i <= at.len(),
            out.len() == i,
            forall|j: int| 0 <= j < at.len() ==> at[j] < entries.len(),
            forall|j: int| 0 <= j < i ==> out[j] == entries[at[j] as int].id,
        decreases at.len() - i,
    {
        out.push(entries[at[i]].id);
        i = i + 1;
    }
    assert(out@ =~= ids(picked(entries@, at@)));
    out
}

/// The positions in the order of their entries.
fn sorted(entries: &Vec<DirEntry>, at: &Vec<usize>, order: Order) -> (r: Vec<usize>)
    requires
        forall|j: int| 0 <= j < at.len() ==> at[j] < entries.len(),
    ensures
        forall|j: int| 0 <= j < r.len() ==> r[j] < entries.len(),
        picked(entries@, r@) == in_order(picked(entries@, at@), order),
{
    let mut out: Vec<usize> = Vec::new();
    let mut i: usize = 0;
    proof {
        assert(picked(entries@, at@.take(0)) =~= Seq::<EntryView>::empty());
        assert(picked(entries@, out@) =~= Seq::<EntryView>::empty());
    }
    while i < at.len()
        invariant
            i <= at.len(),
            forall|j: int| 0 <= j < at.len() ==> at[j] < entries.len(),
            forall|j: int| 0 <= j < out.len() ==> out[j] < entries.len(),
            picked(entries@, out@) == in_order(picked(entries@, at@.take(i as int)), order),
        decreases at.len() - i,
    {
        let new: usize = at[i];
        let mut p: usize = out.len();
        let ghost e = entries[new as int]@;
        proof {
            let longer = picked(entries@, at@.take(i as int + 1));
            assert(longer.drop_last() =~= picked(entries@, at@.take(i as int)));
            assert(longer.last() == e);
            assert(out@.skip(out.len() as int) =~= Seq::<usize>::empty());
            assert(out@.take(out.len() as int) =~= out@);
            assert(insert_in_order(picked(entries@, out@), e, order) + picked(
                entries@,
                Seq::<usize>::empty(),
            ) =~= insert_in_order(picked(entries@, out@), e, order));
        }
        while p > 0 && !precedes(order, &entries[out[p - 1]], &entries[new])
            invariant
                p <= out.len(),
                new < entries.len(),
                e == entries[new as int]@,
                forall|j: int| 0 <= j < out.len() ==> out[j] < entries.len(),
                insert_in_order(picked(entries@, out@), e, order) == insert_in_order(
                    picked(entries@, out@.take(p as int)),
                    e,
                    order,
                ) + picked(entries@, out@.skip(p as int)),
            decreases p,
        {
            proof {
                let head = picked(entries@, out@.take(p as int));
                assert(head.drop_last() =~= picked(entries@, out@.take(p as int - 1)));
                assert(head.last() == entries[out[p - 1] as int]@);
                assert(seq![head.last()] + picked(entries@, out@.skip(p as int)) =~= picked(
                    entries@,
                    out@.skip(p as int - 1),
                ));
                let shorter = insert_in_order(head.drop_last(), e, order);
                assert(shorter.push(head.last()) + picked(entries@, out@.skip(p as int))
                    =~= shorter + (seq![head.last()] + picked(entries@, out@.skip(p as int))));
            }
            p = p - 1;
        }
        proof {
            let head = picked(entries@, out@.take(p as int));
            assert(p > 0 ==> head.last() == entries[out[p - 1] as int]@);
            assert(out@.insert(p as int, new) =~= out@.take(p as int).push(new) + out@.skip(
                p as int,
            ));
            assert(picked(entries@, out@.insert(p as int, new)) =~= head.push(e) + picked(
                entries@,
                out@.skip(p as int),
            ));
        }
        out.insert(p, new);
        i = i + 1;
    }
    proof {
        assert(at@.take(at.len() as int) =~= at@);
    }
    out
}

/// The publish markers (`.{stem}.publishing.*`), by name. Entries whose names
/// are not text are none.
pub fn list_publish_markers(stem: &str, entries: &Vec<DirEntry>) -> (r: Vec<u64>)
    ensures
        r@ == ids(publish_markers(views(entries@), stem@)),
{
    let ghost keep = |e: EntryView| in_class(e, stem@, "publishing"@);
    let prefix = publishing_prefix(stem);
    let mut at: Vec<usize> = Vec::new();
    let mut i: usize = 0;
    proof {
        filter_none(entries@, keep);
        assert(picked(entries@, at@) =~= Seq::<EntryView>::empty());
    }
    while i < entries.len()
        invariant
            i <= entries.len(),
            keep == (|e: EntryView| in_class(e, stem@, "publishing"@)),
            prefix@ == class_prefix(stem@, "publishing"@),
            forall|j: int| 0 <= j < at.len() ==> at[j] < entries.len(),
            picked(entries@, at@) == views(entries@.take(i as int)).filter(keep),
        decreases entries.len() - i,
    {
        proof {
            filter_step(entries@, i as int, keep);
            picked_push(entries@, at@, i);
        }
        if entry_in_class(&entries[i], prefix.as_str()) {
            at.push(i);
        }
        i = i + 1;
    }
    proof {
        filter_none(entries@, keep);
    }
    let order = sorted(entries, &at, Order::ByName);
    ids_at(entries, &order)
}

/// The publish markers and the orphaned recovery claims, by name: what a
/// recovery may claim.
pub fn list_recovery_claimables(stem: &str, entries: &Vec<DirEntry>, now: i128) -> (r: Vec<u64>)
    ensures
        r@ == ids(recovery_claimables(views(entries@), stem@, now)),
{
    let ghost keep = |e: EntryView| claimable(e, stem@, now);
    let publishing = publishing_prefix(stem);
    let recovering = recovering_prefix(stem);
    let mut at: Vec<usize> = Vec::new();
    let mut i: usize = 0;
    proof {
        filter_none(entries@, keep);
        assert(picked(entries@, at@) =~= Seq::<EntryView>::empty());
    }
    while i < entries.len()
        invariant
            i <= entries.len(),
            keep == (|e: EntryView| claimable(e, stem@, now)),
            publishing@ == class_prefix(stem@, "publishing"@),
            recovering@ == class_prefix(stem@, "recovering"@),
            forall|j: int| 0 <= j < at.len() ==> at[j] < entries.len(),
            picked(entries@, at@) == views(entries@.take(i as int)).filter(keep),
        decreases entries.len() - i,
    {
        proof {
            filter_step(entries@, i as int, keep);
            picked_push(entries@, at@, i);
        }
        if entry_in_class(&entries[i], publishing.as_str()) || (entry_in_class(
            &entries[i],
            recovering.as_str(),
        ) && entry_at_least(&entries[i], now, CLAIM_SWEEP_MIN_AGE)) {
            at.push(i);
        }
        i = i + 1;
    }
    proof {
        filter_none(entries@, keep);
    }
    let order = sorted(entries, &at, Order::ByName);
    ids_at(entries, &order)
}

/// The quarantined keys younger than [`CLAIM_SWEEP_MIN_AGE`], newest first: the
/// candidates for adoption, in the order in which they are tried.
pub fn list_adoptable_quarantines(stem: &str, entries: &Vec<DirEntry>, now: i128) -> (r: Vec<u64>)
    ensures
        r@ == ids(adoptable_quarantines(views(entries@), stem@, now)),
{
    let ghost keep = |e: EntryView| adoptable(e, stem@, now);
    let prefix = quarantined_prefix(stem);
    let mut at: Vec<usize> = Vec::new();
    let mut i: usize = 0;
    proof {
        filter_none(entries@, keep);
        assert(picked(entries@, at@) =~= Seq::<EntryView>::empty());
    }
    while i < entries.len()
        invariant
            i <= entries.len(),
            keep == (|e: EntryView| adoptable(e, stem@, now)),
            prefix@ == class_prefix(stem@, "quarantined"@),
            forall|j: int| 0 <= j < at.len() ==> at[j] < entries.len(),
            picked(entries@, at@) == views(entries@.take(i as int)).filter(keep),
        decreases entries.len() - i,
    {
        proof {
            filter_step(entries@, i as int, keep);
            picked_push(entries@, at@, i);
        }
        if entry_in_class(&entries[i], prefix.as_str()) && entry_younger_than(
            &entries[i],
            now,
            CLAIM_SWEEP_MIN_AGE,
        ) {
            at.push(i);
        }
        i = i + 1;
    }
    proof {
        filter_none(entries@, keep);
    }
    let order = sorted(entries, &at, Order::NewestFirst);
    ids_at(entries, &order)
}

/// Whether `e` is a young quarantined key under another name than `kept`.
pub open spec fn sibling(e: EntryView, stem: Seq<char>, now: i128, kept: Seq<char>) -> bool {
    adoptable(e, stem, now) && e.name->0 != kept
}

/// The young quarantined keys other than the file named `kept`, as listed.
pub fn list_sibling_quarantines(
    stem: &str,
    entries: &Vec<DirEntry>,
    now: i128,
    kept: &String,
) -> (r: Vec<u64>)
    ensures
        r@ == ids(views(entries@).filter(|e: EntryView| sibling(e, stem@, now, kept@))),
        r@ == ids(sibling_quarantines(views(entries@), stem@, now, kept@)),
{
    let ghost keep = |e: EntryView| sibling(e, stem@, now, kept@);
    let prefix = quarantined_prefix(stem);
    let mut at: Vec<usize> = Vec::new();
    let mut i: usize = 0;
    proof {
        filter_none(entries@, keep);
        assert(picked(entries@, at@) =~= Seq::<EntryView>::empty());
    }
    while i < entries.len()
        invariant
            i <= entries.len(),
            keep == (|e: EntryView| sibling(e, stem@, now, kept@)),
            prefix@ == class_prefix(stem@, "quarantined"@),
            forall|j: int| 0 <= j < at.len() ==> at[j] < entries.len(),
            picked(entries@, at@) == views(entries@.take(i as int)).filter(keep),
        decreases entries.len() - i,
    {
        proof {
            filter_step(entries@, i as int, keep);
            picked_push(entries@, at@, i);
        }
        let other = match &entries[i].name {
            Some(n) => !n.eq(kept),
            None => false,
        };
        if other && entry_in_class(&entries[i], prefix.as_str()) && entry_younger_than(
            &entries[i],
            now,
            CLAIM_SWEEP_MIN_AGE,
        ) {
            at.push(i);
        }
        i = i + 1;
    }
    proof {
        filter_none(entries@, keep);
    }
    ids_at(entries, &at)
}

/// The recovery claims (`.{stem}.recovering.*`) of any age, as listed.
pub fn list_recovery_claims(stem: &str, entries: &Vec<DirEntry>) -> (r: Vec<u64>)
    ensures
        r@ == ids(views(entries@).filter(|e: EntryView| in_class(e, stem@, "recovering"@))),
        r@ == ids(recovery_claims(views(entries@), stem@)),
{
    let ghost keep = |e: EntryView| in_class(e, stem@, "recovering"@);
    let prefix = recovering_prefix(stem);
    let mut at: Vec<usize> = Vec::new();
    let mut i: usize = 0;
    proof {
        filter_none(entries@, keep);
        assert(picked(entries@, at@) =~= Seq::<EntryView>::empty());
    }
    while i < entries.len()
        invariant
            i <= entries.len(),
            keep == (|e: EntryView| in_class(e, stem@, "recovering"@)),
            prefix@ == class_prefix(stem@, "recovering"@),
            forall|j: int| 0 <= j < at.len() ==> at[j] < entries.len(),
            picked(entries@, at@) == views(entries@.take(i as int)).filter(keep),
        decreases entries.len() - i,
    {
        proof {
            filter_step(entries@, i as int, keep);
            picked_push(entries@, at@, i);
        }
        if entry_in_class(&entries[i], prefix.as_str()) {
            at.push(i);
        }
        i = i + 1;
    }
    proof {
        filter_none(entries@, keep);
    }
    ids_at(entries, &at)
}

/// The files that a sweep beside a healthy key removes, as listed.
pub fn list_stale_files(stem: &str, entries: &Vec<DirEntry>, now: i128) -> (r: Vec<u64>)
    ensures
        r@ == ids(views(entries@).filter(|e: EntryView| stale(e, stem@, now))),
        r@ == ids(stale_files(views(entries@), stem@, now)),
{
    let ghost keep = |e: EntryView| stale(e, stem@, now);
    let publishing = publishing_prefix(stem);
    let recovering = recovering_prefix(stem);
    let superseded = superseded_prefix(stem);
    let quarantined = quarantined_prefix(stem);
    let mut at: Vec<usize> = Vec::new();
    let mut i: usize = 0;
    proof {
        filter_none(entries@, keep);
        assert(picked(entries@, at@) =~= Seq::<EntryView>::empty());
    }
    while i < entries.len()
        invariant
            i <= entries.len(),
            keep == (|e: EntryView| stale(e, stem@, now)),
            publishing@ == class_prefix(stem@, "publishing"@),
            recovering@ == class_prefix(stem@, "recovering"@),
            superseded@ == class_prefix(stem@, "superseded"@),
            quarantined@ == class_prefix(stem@, "quarantined"@),
            forall|j: int| 0 <= j < at.len() ==> at[j] < entries.len(),
            picked(entries@, at@) == views(entries@.take(i as int)).filter(keep),
        decreases entries.len() - i,
    {
        proof {
            filter_step(entries@, i as int, keep);
            picked_push(entries@, at@, i);
        }
        let e = &entries[i];
        let marker = entry_in_class(e, publishing.as_str());
        let claim = entry_in_class(e, recovering.as_str());
        let kept = entry_in_class(e, superseded.as_str()) || entry_in_class(
            e,
            quarantined.as_str(),
        );
        if marker || (claim && entry_at_least(e, now, CLAIM_SWEEP_MIN_AGE)) || (kept
            && entry_at_least(e, now, SUPERSEDED_RETENTION)) {
            at.push(i);
        }
        i = i + 1;
    }
    proof {
        filter_none(entries@, keep);
    }
    ids_at(entries, &at)
}

proof fn lex_le_total(a: Seq<char>, b: Seq<char>)
    ensures
        lex_le(a, b) || lex_le(b, a),
    decreases a.len(),
{
    if a.len() > 0 && b.len() > 0 && a[0] == b[0] {
        lex_le_total(a.drop_first(), b.drop_first());
    }
}

proof fn lex_le_transitive(a: Seq<char>, b: Seq<char>, c: Seq<char>)
    requires
        lex_le(a, b),
        lex_le(b, c),
    ensures
        lex_le(a, c),
    decreases a.len(),
{
    if a.len() > 0 && b.len() > 0 && c.len() > 0 && a[0] == b[0] && b[0] == c[0] {
        lex_le_transitive(a.drop_first(), b.drop_first(), c.drop_first());
    }
}

proof fn may_precede_total(order: Order, a: EntryView, b: EntryView)
    ensures
        may_precede(order, a, b) || may_precede(order, b, a),
{
    if a.name is Some && b.name is Some {
        lex_le_total(a.name->0, b.name->0);
    }
}

proof fn may_precede_transitive(order: Order, a: EntryView, b: EntryView, c: EntryView)
    requires
        may_precede(order, a, b),
        may_precede(order, b, c),
    ensures
        may_precede(order, a, c),
{
    if a.name is Some && b.name is Some && c.name is Some && order is ByName {
        lex_le_transitive(a.name->0, b.name->0, c.name->0);
    }
}

/// Whether every entry may stand before every later one.
pub open spec fn is_sorted(entries: Seq<EntryView>, order: Order) -> bool {
    forall|i: int, j: int|
        0 <= i < j < entries.len() ==> may_precede(order, #[trigger] entries[i], #[trigger]
            entries[j])
}

proof fn insert_keeps_order(sorted: Seq<EntryView>, e: EntryView, order: Order)
    requires
        is_sorted(sorted, order),
    ensures
        is_sorted(insert_in_order(sorted, e, order), order),
        insert_in_order(sorted, e, order).to_multiset() == sorted.to_multiset().insert(e),
    decreases sorted.len(),
{
    broadcast use vstd::seq_lib::group_to_multiset_ensures;

    let out = insert_in_order(sorted, e, order);
    if sorted.len() == 0 {
    } else if may_precede(order, sorted.last(), e) {
        assert forall|i: int, j: int| 0 <= i < j < out.len() implies may_precede(
            order,
            #[trigger] out[i],
            #[trigger] out[j],
        ) by {
            if j == sorted.len() && i < sorted.len() - 1 {
                may_precede_transitive(order, sorted[i], sorted.last(), e);
            }
        }
    } else {
        let shorter = sorted.drop_last();
        let inner = insert_in_order(shorter, e, order);
        insert_keeps_order(shorter, e, order);
        may_precede_total(order, sorted.last(), e);
        assert(sorted =~= shorter.push(sorted.last()));
        assert forall|k: int| 0 <= k < inner.len() implies may_precede(
            order,
            #[trigger] inner[k],
            sorted.last(),
        ) by {
            assert(inner.to_multiset().count(inner[k]) > 0) by {
                assert(inner.contains(inner[k]));
            }
            if inner[k] != e {
                assert(shorter.to_multiset().count(inner[k]) > 0);
                assert(shorter.contains(inner[k]));
                let m = choose|m: int| 0 <= m < shorter.len() && shorter[m] == inner[k];
                assert(may_precede(order, sorted[m], sorted[sorted.len() - 1]));
            }
        }
        assert(out.to_multiset() =~= sorted.to_multiset().insert(e));
    }
}

/// Putting entries in order loses none, adds none and sorts them.
pub proof fn in_order_is_a_sorted_permutation(entries: Seq<EntryView>, order: Order)
    ensures
        is_sorted(in_order(entries, order), order),
        in_order(entries, order).to_multiset() == entries.to_multiset(),
    decreases entries.len(),
{
    broadcast use vstd::seq_lib::group_to_multiset_ensures;

    if entries.len() > 0 {
        in_order_is_a_sorted_permutation(entries.drop_last(), order);
        insert_keeps_order(in_order(entries.drop_last(), order), entries.last(), order);
        assert(entries =~= entries.drop_last().push(entries.last()));
    } else {
        assert(in_order(entries, order) =~= entries);
    }
}

/// A recovery claim that is not yet orphaned is neither claimed by another
/// recovery nor swept.
pub proof fn young_claims_are_left_alone(e: EntryView, stem: Seq<char>, now: i128)
    requires
        in_class(e, stem, "recovering"@),
        !at_least(e, now, CLAIM_SWEEP_MIN_AGE as int),
    ensures
        !claimable(e, stem, now),
        !stale(e, stem, now),
{
    other_classes(e, stem, "recovering"@);
}

/// A quarantined key that may still be adopted is not swept.
pub proof fn adoptable_keys_are_not_swept(e: EntryView, stem: Seq<char>, now: i128)
    requires
        adoptable(e, stem, now),
    ensures
        !stale(e, stem, now),
{
    other_classes(e, stem, "quarantined"@);
}

/// A superseded key is never adopted and never claimed, whatever its age.
pub proof fn superseded_keys_are_inert(e: EntryView, stem: Seq<char>, now: i128)
    requires
        in_class(e, stem, "superseded"@),
    ensures
        !adoptable(e, stem, now),
        !claimable(e, stem, now),
{
    other_classes(e, stem, "superseded"@);
}

/// A publish marker may be claimed and is swept at any age.
pub proof fn markers_need_no_age(e: EntryView, stem: Seq<char>, now: i128)
    requires
        in_class(e, stem, "publishing"@),
    ensures
        claimable(e, stem, now),
        stale(e, stem, now),
{
}

/// A temporary file is never claimed, adopted or swept.
pub proof fn temporary_files_are_left_alone(e: EntryView, stem: Seq<char>, now: i128)
    requires
        in_class(e, stem, "tmp"@),
    ensures
        !claimable(e, stem, now),
        !adoptable(e, stem, now),
        !stale(e, stem, now),
{
    other_classes(e, stem, "tmp"@);
}

/// The identity key itself is never claimed, adopted or swept.
pub proof fn the_identity_key_is_left_alone(e: EntryView, stem: Seq<char>, now: i128)
    requires
        e.name == Some(stem),
    ensures
        !claimable(e, stem, now),
        !adoptable(e, stem, now),
        !stale(e, stem, now),
{
}

proof fn other_classes(e: EntryView, stem: Seq<char>, class: Seq<char>)
    requires
        class_word(class),
        in_class(e, stem, class),
    ensures
        in_class(e, stem, "publishing"@) ==> class == "publishing"@,
        in_class(e, stem, "recovering"@) ==> class == "recovering"@,
        in_class(e, stem, "quarantined"@) ==> class == "quarantined"@,
        in_class(e, stem, "superseded"@) ==> class == "superseded"@,
        "publishing"@ != "recovering"@,
        "publishing"@ != "quarantined"@,
        "publishing"@ != "superseded"@,
        "recovering"@ != "quarantined"@,
        "recovering"@ != "superseded"@,
        "quarantined"@ != "superseded"@,
        "tmp"@ != "publishing"@,
        "tmp"@ != "recovering"@,
        "tmp"@ != "quarantined"@,
        "tmp"@ != "superseded"@,
{
    class_words();
    let name = e.name->0;
    if in_class(e, stem, "publishing"@) {
        classes_are_disjoint(stem, name, class, "publishing"@);
    }
    if in_class(e, stem, "recovering"@) {
        classes_are_disjoint(stem, name, class, "recovering"@);
    }
    if in_class(e, stem, "quarantined"@) {
        classes_are_disjoint(stem, name, class, "quarantined"@);
    }
    if in_class(e, stem, "superseded"@) {
        classes_are_disjoint(stem, name, class, "superseded"@);
    }
}

/// Whether the texts are the same up to the place `i`, and there `a` has ended, or
/// has the smaller character.
pub open spec fn ends_or_differs(a: Seq<char>, b: Seq<char>, i: int) -> bool {
    &&& 0 <= i <= a.len()
    &&& i <= b.len()
    &&& forall|j: int| 0 <= j < i ==> #[trigger] a[j] == b[j]
    &&& i == a.len() || (i < b.len() && a[i] < b[i])
}

/// One name stands before another exactly if it is the beginning of it, or has the
/// smaller character at the first place where they differ.
pub proof fn names_are_ordered_by_their_first_difference(a: Seq<char>, b: Seq<char>)
    ensures
        lex_le(a, b) <==> exists|i: int| #[trigger] ends_or_differs(a, b, i),
    decreases a.len(),
{
    if a.len() == 0 || b.len() == 0 || a[0] != b[0] {
        if lex_le(a, b) {
            assert(ends_or_differs(a, b, 0));
        }
        if exists|i: int| #[trigger] ends_or_differs(a, b, i) {
            let i = choose|i: int| #[trigger] ends_or_differs(a, b, i);
            if i > 0 {
                assert(a[0] == b[0]);
            }
        }
    } else {
        let c = a.drop_first();
        let d = b.drop_first();
        names_are_ordered_by_their_first_difference(c, d);
        if lex_le(a, b) {
            let i = choose|i: int| #[trigger] ends_or_differs(c, d, i);
            assert forall|j: int| 0 <= j < i + 1 implies #[trigger] a[j] == b[j] by {
                if j > 0 {
                    assert(c[j - 1] == d[j - 1]);
                }
            }
            assert(ends_or_differs(a, b, i + 1));
        }
        if exists|i: int| #[trigger] ends_or_differs(a, b, i) {
            let i = choose|i: int| #[trigger] ends_or_differs(a, b, i);
            assert(i > 0);
            assert forall|j: int| 0 <= j < i - 1 implies #[trigger] c[j] == d[j] by {
                assert(a[j + 1] == b[j + 1]);
            }
            assert(ends_or_differs(c, d, i - 1));
        }
    }
}

/// What may be claimed, adopted and swept, in numbers. A claim is orphaned once it
/// is ten seconds old, and until then a quarantined key may be adopted; one whose
/// time lies ahead is young, and one whose time is unknown is neither. What is kept
/// is swept once it is a day old.
pub proof fn ages_in_numbers(e: EntryView, stem: Seq<char>, now: i128, kept: Seq<char>)
    ensures
        ({
            let seconds = |n: int| n * 1_000_000_000;
            let old = |age: int| e.modified matches Some(m) && m + seconds(age) <= now;
            let marker = in_class(e, stem, "publishing"@);
            let claim = in_class(e, stem, "recovering"@);
            let held = in_class(e, stem, "quarantined"@);
            let lost = in_class(e, stem, "superseded"@);
            &&& claimable(e, stem, now) <==> marker || (claim && old(10))
            &&& stale(e, stem, now) <==> marker || (claim && old(10)) || ((held || lost) && old(
                86_400,
            ))
            &&& adoptable(e, stem, now) <==> held && e.modified is Some && !old(10)
            &&& sibling(e, stem, now, kept) <==> held && e.modified is Some && !old(10) && e.name
                != Some(kept)
        }),
{
}

/// An entry belongs to a class exactly if its name is text and begins with a dot, the
/// stem, a dot, the class and a dot.
pub proof fn classes_are_told_by_the_name(e: EntryView, stem: Seq<char>, class: Seq<char>)
    ensures
        in_class(e, stem, class) <==> exists|rest: Seq<char>|
            e.name == Some(#[trigger] ("."@ + stem + "."@ + class + "."@ + rest)),
{
    reveal_strlit(".");
    assert("."@ =~= seq!['.']);
    let p = class_prefix(stem, class);
    assert(p == "."@ + stem + "."@ + class + "."@);
    if e.name is Some {
        prefixes_stand_before_the_rest(e.name->0, p);
        if in_class(e, stem, class) {
            let rest = choose|rest: Seq<char>| e.name->0 == #[trigger] (p + rest);
            assert(e.name == Some("."@ + stem + "."@ + class + "."@ + rest));
        }
        if exists|rest: Seq<char>|
            e.name == Some(#[trigger] ("."@ + stem + "."@ + class + "."@ + rest)) {
            let rest = choose|rest: Seq<char>|
                e.name == Some(#[trigger] ("."@ + stem + "."@ + class + "."@ + rest));
            assert(e.name->0 == p + rest);
        }
    }
}

/// The recovery claims, as listed.
pub open spec fn recovery_claims(entries: Seq<EntryView>, stem: Seq<char>) -> Seq<EntryView> {
    entries.filter(|e: EntryView| in_class(e, stem, "recovering"@))
}

/// The young quarantined keys other than the one named `kept`, as listed.
pub open spec fn sibling_quarantines(
    entries: Seq<EntryView>,
    stem: Seq<char>,
    now: i128,
    kept: Seq<char>,
) -> Seq<EntryView> {
    entries.filter(|e: EntryView| sibling(e, stem, now, kept))
}

/// The files that a sweep removes, as listed.
pub open spec fn stale_files(entries: Seq<EntryView>, stem: Seq<char>, now: i128) -> Seq<
    EntryView,
> {
    entries.filter(|e: EntryView| stale(e, stem, now))
}

proof fn ordering_keeps_contents(entries: Seq<EntryView>, order: Order, e: EntryView)
    ensures
        in_order(entries, order).contains(e) <==> entries.contains(e),
{
    broadcast use vstd::seq_lib::group_to_multiset_ensures;

    in_order_is_a_sorted_permutation(entries, order);
    let r = in_order(entries, order);
    assert(r.contains(e) <==> r.to_multiset().count(e) > 0);
    assert(entries.contains(e) <==> entries.to_multiset().count(e) > 0);
}

proof fn filters_keep_what_fits(
    entries: Seq<EntryView>,
    keep: spec_fn(EntryView) -> bool,
    e: EntryView,
)
    ensures
        entries.filter(keep).contains(e) <==> entries.contains(e) && keep(e),
    decreases entries.len(),
{
    reveal(Seq::filter);
    if entries.len() > 0 {
        let shorter = entries.drop_last();
        filters_keep_what_fits(shorter, keep, e);
        let r = entries.filter(keep);
        let s = shorter.filter(keep);
        if entries.contains(e) {
            let i = choose|i: int| 0 <= i < entries.len() && entries[i] == e;
            if i < shorter.len() {
                assert(shorter[i] == e);
            }
        }
        if shorter.contains(e) {
            let i = choose|i: int| 0 <= i < shorter.len() && shorter[i] == e;
            assert(entries[i] == e);
        }
        if s.contains(e) {
            let i = choose|i: int| 0 <= i < s.len() && s[i] == e;
            assert(r[i] == e);
        }
        if keep(entries.last()) {
            assert(r[r.len() - 1] == entries.last());
        }
        if r.contains(e) {
            let i = choose|i: int| 0 <= i < r.len() && r[i] == e;
            if i < s.len() {
                assert(s[i] == e);
            }
        }
        assert(entries[entries.len() - 1] == entries.last());
    }
}

/// What the listings hold: of the directory's entries just those that they are for,
/// the markers and what may be claimed by name, and what may be adopted with the
/// newest first.
pub proof fn listings_hold_what_they_are_for(
    entries: Seq<EntryView>,
    stem: Seq<char>,
    now: i128,
    kept: Seq<char>,
    e: EntryView,
)
    ensures
        publish_markers(entries, stem).contains(e) <==> entries.contains(e) && in_class(
            e,
            stem,
            "publishing"@,
        ),
        recovery_claimables(entries, stem, now).contains(e) <==> entries.contains(e) && claimable(
            e,
            stem,
            now,
        ),
        adoptable_quarantines(entries, stem, now).contains(e) <==> entries.contains(e) && adoptable(
            e,
            stem,
            now,
        ),
        recovery_claims(entries, stem).contains(e) <==> entries.contains(e) && in_class(
            e,
            stem,
            "recovering"@,
        ),
        sibling_quarantines(entries, stem, now, kept).contains(e) <==> entries.contains(e)
            && sibling(e, stem, now, kept),
        stale_files(entries, stem, now).contains(e) <==> entries.contains(e) && stale(e, stem, now),
        is_sorted(publish_markers(entries, stem), Order::ByName),
        is_sorted(recovery_claimables(entries, stem, now), Order::ByName),
        is_sorted(adoptable_quarantines(entries, stem, now), Order::NewestFirst),
{
    let markers = |x: EntryView| in_class(x, stem, "publishing"@);
    filters_keep_what_fits(entries, markers, e);
    ordering_keeps_contents(entries.filter(markers), Order::ByName, e);
    in_order_is_a_sorted_permutation(entries.filter(markers), Order::ByName);
    let claimables = |x: EntryView| claimable(x, stem, now);
    filters_keep_what_fits(entries, claimables, e);
    ordering_keeps_contents(entries.filter(claimables), Order::ByName, e);
    in_order_is_a_sorted_permutation(entries.filter(claimables), Order::ByName);
    let adoptables = |x: EntryView| adoptable(x, stem, now);
    filters_keep_what_fits(entries, adoptables, e);
    ordering_keeps_contents(entries.filter(adoptables), Order::NewestFirst, e);
    in_order_is_a_sorted_permutation(entries.filter(adoptables), Order::NewestFirst);
    filters_keep_what_fits(entries, |x: EntryView| in_class(x, stem, "recovering"@), e);
    filters_keep_what_fits(entries, |x: EntryView| sibling(x, stem, now, kept), e);
    filters_keep_what_fits(entries, |x: EntryView| stale(x, stem, now), e);
}

/// Entries are ordered by name, one whose name is no text first, or by time, the
/// later first and one whose time is unknown last.
pub proof fn orders_in_words(a: EntryView, b: EntryView)
    ensures
        may_precede(Order::ByName, a, b) <==> a.name is None || (b.name is Some && lex_le(
            a.name->0,
            b.name->0,
        )),
        may_precede(Order::NewestFirst, a, b) <==> b.modified is None || (a.modified is Some
            && a.modified->0 >= b.modified->0),
{
}

/// Whether two entries may stand either way.
pub open spec fn ties(order: Order, a: EntryView, b: EntryView) -> bool {
    may_precede(order, a, b) && may_precede(order, b, a)
}

/// The entries that may stand either way beside `x`.
pub open spec fn tying(order: Order, x: EntryView) -> spec_fn(EntryView) -> bool {
    |y: EntryView| ties(order, x, y)
}

proof fn filters_take_the_last(s: Seq<EntryView>, y: EntryView, p: spec_fn(EntryView) -> bool)
    ensures
        s.push(y).filter(p) == (if p(y) {
            s.filter(p).push(y)
        } else {
            s.filter(p)
        }),
{
    reveal(Seq::filter);
    assert(s.push(y).drop_last() =~= s);
}

proof fn insertion_keeps_ties(sorted: Seq<EntryView>, e: EntryView, order: Order, x: EntryView)
    ensures
        insert_in_order(sorted, e, order).filter(tying(order, x)) == sorted.push(e).filter(
            tying(order, x),
        ),
    decreases sorted.len(),
{
    let p = tying(order, x);
    if !(sorted.len() == 0 || may_precede(order, sorted.last(), e)) {
        let shorter = sorted.drop_last();
        let last = sorted.last();
        insertion_keeps_ties(shorter, e, order, x);
        filters_take_the_last(insert_in_order(shorter, e, order), last, p);
        filters_take_the_last(shorter, e, p);
        filters_take_the_last(shorter, last, p);
        filters_take_the_last(sorted, e, p);
        assert(shorter.push(last) =~= sorted);
        if p(e) && p(last) {
            may_precede_transitive(order, last, x, e);
        }
    }
}

/// Entries that may stand either way keep the order in which they were listed.
pub proof fn ties_stay_as_listed(entries: Seq<EntryView>, order: Order, x: EntryView)
    ensures
        in_order(entries, order).filter(tying(order, x)) == entries.filter(tying(order, x)),
    decreases entries.len(),
{
    if entries.len() == 0 {
        assert(in_order(entries, order) =~= entries);
    } else {
        let before = entries.drop_last();
        let s = in_order(before, order);
        ties_stay_as_listed(before, order, x);
        insertion_keeps_ties(s, entries.last(), order, x);
        filters_take_the_last(s, entries.last(), tying(order, x));
        filters_take_the_last(before, entries.last(), tying(order, x));
        assert(before.push(entries.last()) =~= entries);
    }
}

} // verus!
