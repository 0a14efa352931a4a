//! What a start leaves beside the identity key.
//!
//! The directory holds the identity key, temporary files, publish markers,
//! recovery claims, quarantined and superseded keys, by their names. One start
//! runs at a time.

use vstd::prelude::*;

use crate::identity::boot::{
    boot_knows, boot_next, boot_start, boot_step_knows, boot_waits_for, BootView, KeyEnd, KeyStage,
};
use crate::identity::disk::replies_answer;
use crate::identity::listing::{
    adoptable, adoptable_quarantines, claimable, ids, in_class, in_order,
    in_order_is_a_sorted_permutation, publish_markers, recovery_claimables, sibling, stale,
    EntryView, Order,
};
use crate::identity::names::{
    class_of, class_prefix, class_words, classes_are_disjoint, file_names_are_distinct, name_of,
    names_by_class,
};
use crate::identity::ops::{answers, listed, FileRef, KeyOp, Reply};
use crate::identity::recover::{claims_fit_next_stage, RecoverStage};
use crate::identity::supersede::{SiblingPhase, SiblingView, SupersedePhase};
use crate::identity::sweep::SweepPhase;
use crate::text::has_prefix;

verus! {

/// A file of the directory: what it holds, and when it was modified, where that
/// can be read.
pub struct DirFile {
    pub text: Seq<char>,
    pub modified: Option<i128>,
}

/// The names of a start's files: the stem of the identity key, the process, the
/// nonce of its claims, and the names of the files that were listed to it.
pub struct Site {
    pub stem: Seq<char>,
    pub pid: u32,
    pub nonce: u32,
    pub names: spec_fn(u64) -> Seq<char>,
}

impl Site {
    /// The name of a file.
    pub open spec fn name(self, file: FileRef) -> Seq<char> {
        match file {
            FileRef::Listed(id) => (self.names)(id),
            _ => name_of(self.stem, self.pid, self.nonce, file)->0,
        }
    }

    /// Whether a name belongs to a class of files.
    pub open spec fn has_class(self, name: Seq<char>, class: Seq<char>) -> bool {
        has_prefix(name, class_prefix(self.stem, class))
    }

    /// Whether the name is that of a claim of this start.
    pub open spec fn is_claim(self, name: Seq<char>) -> bool {
        exists|c: u32| name == #[trigger] self.name(FileRef::Claim(c))
    }
}

/// The directory's entry for a file.
pub open spec fn entry(name: Seq<char>, file: DirFile) -> EntryView {
    EntryView { id: 0, name: Some(name), modified: file.modified }
}

/// Whether the file is there or not as before; and as it was, unless it is a claim
/// of the start, whose heartbeat goes on beside the operations.
pub open spec fn kept(
    s: Site,
    d: Map<Seq<char>, DirFile>,
    e: Map<Seq<char>, DirFile>,
    name: Seq<char>,
) -> bool {
    &&& e.contains_key(name) == d.contains_key(name)
    &&& d.contains_key(name) && !s.is_claim(name) ==> e[name] == d[name]
}

/// Whether these entries are the directory.
pub open spec fn lists(s: Site, d: Map<Seq<char>, DirFile>, entries: Seq<EntryView>) -> bool {
    &&& forall|i: int|
        0 <= i < entries.len() ==> {
            let name = (s.names)((#[trigger] entries[i]).id);
            &&& d.contains_key(name)
            &&& entries[i].name == Some(name)
            &&& entries[i].modified == d[name].modified
        }
    &&& forall|name: Seq<char>| #[trigger]
        d.contains_key(name) ==> exists|i: int|
            0 <= i < entries.len() && (#[trigger] entries[i]).name == Some(name)
}

/// Whether a listing of the directory at `wall` can have had this outcome.
pub open spec fn can_list(
    s: Site,
    d: Map<Seq<char>, DirFile>,
    op: KeyOp,
    reply: Reply,
    wall: i128,
    entries: Seq<EntryView>,
) -> bool {
    &&& lists(s, d, entries)
    &&& reply matches Reply::Ids(found) && match op {
        KeyOp::ListClaimables => found@ == ids(recovery_claimables(entries, s.stem, wall)),
        KeyOp::ListMarkers => found@ == ids(publish_markers(entries, s.stem)),
        KeyOp::ListAdoptable => found@ == ids(adoptable_quarantines(entries, s.stem, wall)),
        KeyOp::ListSiblings(file) => found@ == ids(
            entries.filter(|e: EntryView| sibling(e, s.stem, wall, s.name(file))),
        ),
        KeyOp::ListStale => found@ == ids(entries.filter(|e: EntryView| stale(e, s.stem, wall))),
        _ => true,
    }
}

/// Whether the operation can be answered with `reply` in the directory `d` at
/// `wall`, and can leave the directory `e`.
pub open spec fn dir_step(
    s: Site,
    d: Map<Seq<char>, DirFile>,
    op: KeyOp,
    reply: Reply,
    wall: i128,
    e: Map<Seq<char>, DirFile>,
) -> bool {
    let done = !(reply is Failed);
    match op {
        KeyOp::Exists(f) => {
            &&& reply == Reply::Present(d.contains_key(s.name(f)))
            &&& forall|name: Seq<char>| kept(s, d, e, name)
        },
        KeyOp::CreateNew(f) => {
            &&& forall|name: Seq<char>| done && name == s.name(f) || kept(s, d, e, name)
            &&& done ==> !d.contains_key(s.name(f)) && e.contains_key(s.name(f))
        },
        KeyOp::WriteKey(f, _) => {
            &&& forall|name: Seq<char>| name == s.name(f) || kept(s, d, e, name)
            &&& e.contains_key(s.name(f)) == d.contains_key(s.name(f))
        },
        KeyOp::HardLink(from, to) => {
            &&& forall|name: Seq<char>| done && name == s.name(to) || kept(s, d, e, name)
            &&& done ==> !d.contains_key(s.name(to)) && d.contains_key(s.name(from))
                && e.contains_key(s.name(to)) && e[s.name(to)] == d[s.name(from)]
        },
        KeyOp::Remove(f) => {
            &&& forall|name: Seq<char>| done && name == s.name(f) || kept(s, d, e, name)
            &&& done ==> !e.contains_key(s.name(f))
        },
        KeyOp::Rename(from, to) => {
            &&& forall|name: Seq<char>|
                done && (name == s.name(from) || name == s.name(to)) || kept(s, d, e, name)
            &&& done ==> {
                &&& d.contains_key(s.name(from))
                &&& e.contains_key(s.name(to))
                &&& s.name(from) != s.name(to) ==> !e.contains_key(s.name(from))
                &&& !s.is_claim(s.name(to)) ==> e[s.name(to)] == d[s.name(from)]
            }
        },
        KeyOp::ReleaseClaims(claims) => forall|name: Seq<char>|
            (exists|i: int|
                0 <= i < claims@.len() && name == s.name(FileRef::Claim(#[trigger] claims@[i])))
                && !e.contains_key(name) || kept(s, d, e, name),
        KeyOp::RemoveListed(found) => forall|name: Seq<char>|
            (exists|i: int| 0 <= i < found@.len() && name == (s.names)(#[trigger] found@[i]))
                && !e.contains_key(name) || kept(s, d, e, name),
        KeyOp::ListClaims | KeyOp::ListClaimables | KeyOp::ListMarkers | KeyOp::ListAdoptable
        | KeyOp::ListSiblings(_) | KeyOp::ListStale => {
            &&& forall|name: Seq<char>| kept(s, d, e, name)
            &&& done ==> exists|entries: Seq<EntryView>| #[trigger]
                can_list(s, d, op, reply, wall, entries)
        },
        _ => forall|name: Seq<char>| kept(s, d, e, name),
    }
}

/// One operation of a start: its reply, when that came, by the clock and by the
/// calendar, and the directory behind it.
pub struct DirEvent {
    pub op: KeyOp,
    pub reply: Reply,
    pub now: u64,
    pub wall: i128,
    pub dir: Map<Seq<char>, DirFile>,
}

/// Where a start has got to with these operations, and its outcome once there is
/// one.
pub open spec fn start_at(start: BootView, run: Seq<DirEvent>) -> (BootView, Option<KeyEnd>)
    decreases run.len(),
{
    if run.len() == 0 {
        (start, None)
    } else {
        let before = start_at(start, run.drop_last());
        boot_next(before.0, run.last().reply, run.last().now)
    }
}

/// The directory behind these operations, from the directory `d`.
pub open spec fn dir_after(d: Map<Seq<char>, DirFile>, run: Seq<DirEvent>) -> Map<
    Seq<char>,
    DirFile,
> {
    if run.len() == 0 {
        d
    } else {
        run.last().dir
    }
}

/// Whether these are the operations of a start, from the directory `d`, in which
/// no file has the name of one of its claims.
pub open spec fn starts_in(
    s: Site,
    start: BootView,
    d: Map<Seq<char>, DirFile>,
    run: Seq<DirEvent>,
) -> bool
    decreases run.len(),
{
    if run.len() == 0 {
        &&& boot_start(start)
        &&& forall|c: u32| !d.contains_key(#[trigger] s.name(FileRef::Claim(c)))
    } else {
        let before = run.drop_last();
        let e = run.last();
        &&& starts_in(s, start, d, before)
        &&& start_at(start, before).1 is None
        &&& boot_waits_for(start_at(start, before).0, e.op)
        &&& answers(e.op, e.reply)
        &&& dir_step(s, dir_after(d, before), e.op, e.reply, e.wall, e.dir)
    }
}

/// When the files that a sweep removes were listed last.
pub open spec fn last_listing(run: Seq<DirEvent>) -> i128
    decreases run.len(),
{
    if run.len() == 0 {
        0
    } else if run.last().op is ListStale {
        run.last().wall
    } else {
        last_listing(run.drop_last())
    }
}

/// Whether the start could clear up: it removed the claims that it released; and
/// of its sweep no operation failed, and the listed files were removed.
pub open spec fn clears_up(s: Site, start: BootView, run: Seq<DirEvent>) -> bool
    decreases run.len(),
{
    run.len() > 0 ==> {
        let e = run.last();
        &&& clears_up(s, start, run.drop_last())
        &&& e.op matches KeyOp::ReleaseClaims(claims) ==> forall|i: int|
            0 <= i < claims@.len() ==> !e.dir.contains_key(
                s.name(FileRef::Claim(#[trigger] claims@[i])),
            )
        &&& start_at(start, run.drop_last()).0.stage is Sweep ==> {
            &&& !(e.reply is Failed)
            &&& e.op matches KeyOp::RemoveListed(found) ==> forall|i: int|
                0 <= i < found@.len() ==> !e.dir.contains_key(
                    (s.names)(#[trigger] found@[i]),
                )
        }
    }
}

/// Whether all these files belong to the class.
spec fn all_of(s: Site, found: Seq<u64>, class: Seq<char>) -> bool {
    forall|i: int| 0 <= i < found.len() ==> s.has_class((s.names)(#[trigger] found[i]), class)
}

/// Whether all these files are publish markers or recovery claims.
spec fn all_claimable(s: Site, found: Seq<u64>) -> bool {
    forall|i: int|
        0 <= i < found.len() ==> s.has_class((s.names)(#[trigger] found[i]), "publishing"@)
            || s.has_class((s.names)(found[i]), "recovering"@)
}

proof fn sorting_keeps(
    entries: Seq<EntryView>,
    keep: spec_fn(EntryView) -> bool,
    order: Order,
    i: int,
)
    requires
        0 <= i < in_order(entries.filter(keep), order).len(),
    ensures
        keep(in_order(entries.filter(keep), order)[i]),
        entries.contains(in_order(entries.filter(keep), order)[i]),
{
    broadcast use vstd::seq_lib::group_to_multiset_ensures;

    let picked = entries.filter(keep);
    let sorted = in_order(picked, order);
    in_order_is_a_sorted_permutation(picked, order);
    assert(sorted.contains(sorted[i]));
    assert(sorted.to_multiset().count(sorted[i]) > 0);
    assert(picked.contains(sorted[i]));
    filtering_keeps(entries, keep, sorted[i]);
}

proof fn filtering_keeps(entries: Seq<EntryView>, keep: spec_fn(EntryView) -> bool, e: EntryView)
    requires
        entries.filter(keep).contains(e),
    ensures
        keep(e),
        entries.contains(e),
{
    let picked = entries.filter(keep);
    let i = choose|i: int| 0 <= i < picked.len() && picked[i] == e;
    entries.lemma_filter_pred(keep, i);
    entries.lemma_filter_contains_rev(keep, e);
}

proof fn listings_tell_the_class(
    s: Site,
    d: Map<Seq<char>, DirFile>,
    op: KeyOp,
    reply: Reply,
    wall: i128,
    e: Map<Seq<char>, DirFile>,
)
    requires
        answers(op, reply),
        dir_step(s, d, op, reply, wall, e),
    ensures
        op is ListClaimables ==> all_claimable(s, listed(reply)),
        op is ListMarkers ==> all_of(s, listed(reply), "publishing"@),
        op is ListAdoptable ==> all_of(s, listed(reply), "quarantined"@),
        op is ListSiblings ==> all_of(s, listed(reply), "quarantined"@),
{
    if reply is Ids && (op is ListClaimables || op is ListMarkers || op is ListAdoptable || op
        is ListSiblings) {
        let entries = choose|entries: Seq<EntryView>| #[trigger]
            can_list(s, d, op, reply, wall, entries);
        assert(can_list(s, d, op, reply, wall, entries));
        let found = listed(reply);
        assert forall|i: int| 0 <= i < found.len() implies match op {
            KeyOp::ListClaimables => s.has_class((s.names)(#[trigger] found[i]), "publishing"@)
                || s.has_class((s.names)(found[i]), "recovering"@),
            KeyOp::ListMarkers => s.has_class((s.names)(found[i]), "publishing"@),
            _ => s.has_class((s.names)(found[i]), "quarantined"@),
        } by {
            match op {
                KeyOp::ListClaimables => {
                    sorting_keeps(
                        entries,
                        |e: EntryView| claimable(e, s.stem, wall),
                        Order::ByName,
                        i,
                    );
                },
                KeyOp::ListMarkers => {
                    sorting_keeps(
                        entries,
                        |e: EntryView| in_class(e, s.stem, "publishing"@),
                        Order::ByName,
                        i,
                    );
                },
                KeyOp::ListAdoptable => {
                    sorting_keeps(
                        entries,
                        |e: EntryView| adoptable(e, s.stem, wall),
                        Order::NewestFirst,
                        i,
                    );
                },
                KeyOp::ListSiblings(file) => {
                    let keep = |e: EntryView| sibling(e, s.stem, wall, s.name(file));
                    assert(entries.filter(keep).contains(entries.filter(keep)[i]));
                    filtering_keeps(entries, keep, entries.filter(keep)[i]);
                },
                _ => {},
            }
        }
    }
}

proof fn sweeps_list_what_is_stale(
    s: Site,
    d: Map<Seq<char>, DirFile>,
    reply: Reply,
    wall: i128,
    e: Map<Seq<char>, DirFile>,
)
    requires
        reply is Ids,
        dir_step(s, d, KeyOp::ListStale, reply, wall, e),
    ensures
        stale_are_listed(s, d, listed(reply), wall),
{
    let op = KeyOp::ListStale;
    let entries = choose|entries: Seq<EntryView>| #[trigger]
        can_list(s, d, op, reply, wall, entries);
    assert(can_list(s, d, op, reply, wall, entries));
    let found = listed(reply);
    let keep = |e: EntryView| stale(e, s.stem, wall);
    let picked = entries.filter(keep);
    assert forall|name: Seq<char>| #[trigger]
        d.contains_key(name) && stale(entry(name, d[name]), s.stem, wall) implies is_among(
        s,
        found,
        name,
    ) by {
        let i = choose|i: int|
            0 <= i < entries.len() && (#[trigger] entries[i]).name == Some(name);
        assert(keep(entries[i]));
        entries.lemma_filter_contains(keep, i);
        let k = choose|k: int| 0 <= k < picked.len() && picked[k] == entries[i];
        assert(found[k] == picked[k].id);
        assert((s.names)(found[k]) == name);
    }
}

/// Whether one of these files has the name.
spec fn is_among(s: Site, found: Seq<u64>, name: Seq<char>) -> bool {
    exists|i: int| 0 <= i < found.len() && name == (s.names)(#[trigger] found[i])
}

/// Whether all files that were stale at `wall` are among these.
spec fn stale_are_listed(
    s: Site,
    d: Map<Seq<char>, DirFile>,
    found: Seq<u64>,
    wall: i128,
) -> bool {
    forall|name: Seq<char>| #[trigger]
        d.contains_key(name) && stale(entry(name, d[name]), s.stem, wall) ==> is_among(
            s,
            found,
            name,
        )
}

/// Whether the start holds this claim.
spec fn holds_claim(v: BootView, c: u32) -> bool {
    if v.stage is Recover {
        v.recovery.claims.contains(c) || match v.recovery.stage {
            RecoverStage::Stamp { name, .. } => name == c,
            RecoverStage::Append { name, .. } => name == c,
            _ => false,
        }
    } else {
        v.claims.contains(c)
    }
}

/// Every claim of the start that is on disk is held by it.
#[verifier::opaque]
spec fn claims_are_held(s: Site, v: BootView, d: Map<Seq<char>, DirFile>) -> bool {
    forall|c: u32| d.contains_key(#[trigger] s.name(FileRef::Claim(c))) ==> holds_claim(v, c)
}

/// Whether the operation puts a file under the name.
spec fn puts(s: Site, op: KeyOp, name: Seq<char>) -> bool {
    match op {
        KeyOp::CreateNew(f) => name == s.name(f),
        KeyOp::HardLink(_, to) => name == s.name(to),
        KeyOp::Rename(_, to) => name == s.name(to),
        _ => false,
    }
}

proof fn new_files_are_put(
    s: Site,
    d: Map<Seq<char>, DirFile>,
    op: KeyOp,
    reply: Reply,
    wall: i128,
    e: Map<Seq<char>, DirFile>,
    name: Seq<char>,
)
    requires
        dir_step(s, d, op, reply, wall, e),
        e.contains_key(name),
        !d.contains_key(name),
    ensures
        puts(s, op, name),
        !(reply is Failed),
{
    assert(!kept(s, d, e, name));
}

/// Whether the operation puts no listed file's name in use, and a claim's only by
/// a recovery's rename.
spec fn puts_named_files(v: BootView, op: KeyOp) -> bool {
    match op {
        KeyOp::CreateNew(f) => !(f is Listed) && !(f is Claim) && !(f is Superseded),
        KeyOp::HardLink(_, to) => to is Final,
        KeyOp::Rename(_, to) => to is Quarantine || to is Superseded || (to matches FileRef::Claim(
            c,
        ) && v.stage is Recover && (v.recovery.stage matches RecoverStage::Claim { name, .. }
            && name == c)),
        _ => true,
    }
}

proof fn starts_put_named_files(v: BootView, op: KeyOp)
    requires
        boot_waits_for(v, op),
    ensures
        puts_named_files(v, op),
        op is StampClaim || op is AppendClaim ==> v.stage is Recover,
        op is ListStale ==> v.stage is Sweep,
        op is ReleaseClaims ==> v.stage is Release || v.stage is Recover,
{
}

proof fn claim_changes(v: BootView, op: KeyOp, reply: Reply, now: u64, c: u32)
    requires
        boot_knows(v, None),
        boot_waits_for(v, op),
        answers(op, reply),
        holds_claim(v, c) || (!(reply is Failed) && (op matches KeyOp::Rename(
            _,
            to,
        ) && to == FileRef::Claim(c))),
    ensures
        holds_claim(boot_next(v, reply, now).0, c) || (op matches KeyOp::ReleaseClaims(claims)
            && claims@.contains(c)),
{
    if v.stage is Recover {
        claims_fit_next_stage(v.recovery, reply, now);
        assert(v.recovery.claims.push(c).contains(c)) by {
            assert(v.recovery.claims.push(c)[v.recovery.claims.len() as int] == c);
        }
        match v.recovery.stage {
            RecoverStage::Stamp { name, .. } => pushing_keeps(v.recovery.claims, name, c),
            RecoverStage::Append { name, .. } => pushing_keeps(v.recovery.claims, name, c),
            _ => {},
        }
    }
}

proof fn pushing_keeps(claims: Seq<u32>, name: u32, c: u32)
    ensures
        claims.contains(c) || name == c ==> claims.push(name).contains(c),
{
    if name == c {
        assert(claims.push(name)[claims.len() as int] == c);
    } else if claims.contains(c) {
        let i = choose|i: int| 0 <= i < claims.len() && claims[i] == c;
        assert(claims.push(name)[i] == c);
    }
}

proof fn a_step_keeps_claims_held(
    s: Site,
    v: BootView,
    e: DirEvent,
    d: Map<Seq<char>, DirFile>,
)
    requires
        claims_are_held(s, v, d),
        boot_knows(v, None),
        boot_waits_for(v, e.op),
        answers(e.op, e.reply),
        dir_step(s, d, e.op, e.reply, e.wall, e.dir),
        e.op matches KeyOp::ReleaseClaims(claims) ==> forall|i: int|
            0 <= i < claims@.len() ==> !e.dir.contains_key(
                s.name(FileRef::Claim(#[trigger] claims@[i])),
            ),
    ensures
        claims_are_held(s, boot_next(v, e.reply, e.now).0, e.dir),
{
    reveal(claims_are_held);
    let w = boot_next(v, e.reply, e.now).0;
    assert forall|c: u32|
        e.dir.contains_key(#[trigger] s.name(FileRef::Claim(c))) implies holds_claim(w, c) by {
        let name = s.name(FileRef::Claim(c));
        if !d.contains_key(name) {
            new_files_are_put(s, d, e.op, e.reply, e.wall, e.dir, name);
            starts_put_named_files(v, e.op);
            let to = match e.op {
                KeyOp::CreateNew(f) => f,
                KeyOp::HardLink(_, to) => to,
                KeyOp::Rename(_, to) => to,
                _ => FileRef::Final,
            };
            file_names_are_distinct(s.stem, s.pid, s.nonce, to, FileRef::Claim(c));
        }
        claim_changes(v, e.op, e.reply, e.now, c);
    }
}

/// What a sweep knows of the directory; the stale files were listed at `wall`.
#[verifier::opaque]
spec fn sweep_knows(
    s: Site,
    v: BootView,
    end: Option<KeyEnd>,
    d: Map<Seq<char>, DirFile>,
    wall: i128,
) -> bool {
    &&& v.stage is Sweep ==> match v.sweep.phase {
        SweepPhase::Remove => stale_are_listed(s, d, v.sweep.stale, wall),
        SweepPhase::SyncAgain => nothing_stale(s, d, wall),
        SweepPhase::Finished => false,
        _ => true,
    }
    &&& end matches Some(KeyEnd::Key(_)) ==> nothing_stale(s, d, wall)
}

/// Whether none of the files was stale at `wall`.
pub open spec fn nothing_stale(s: Site, d: Map<Seq<char>, DirFile>, wall: i128) -> bool {
    forall|name: Seq<char>| #[trigger]
        d.contains_key(name) ==> !stale(entry(name, d[name]), s.stem, wall)
}

proof fn a_step_keeps_the_sweep(
    s: Site,
    v: BootView,
    e: DirEvent,
    d: Map<Seq<char>, DirFile>,
    wall: i128,
)
    requires
        sweep_knows(s, v, None, d, wall),
        boot_knows(v, None),
        claims_are_held(s, v, d),
        boot_waits_for(v, e.op),
        answers(e.op, e.reply),
        dir_step(s, d, e.op, e.reply, e.wall, e.dir),
        v.stage is Sweep ==> {
            &&& !(e.reply is Failed)
            &&& e.op matches KeyOp::RemoveListed(found) ==> forall|i: int|
                0 <= i < found@.len() ==> !e.dir.contains_key((s.names)(#[trigger] found@[i]))
        },
    ensures
        sweep_knows(
            s,
            boot_next(v, e.reply, e.now).0,
            boot_next(v, e.reply, e.now).1,
            e.dir,
            if e.op is ListStale { e.wall } else { wall },
        ),
{
    reveal(sweep_knows);
    if v.stage is Sweep {
        assert forall|name: Seq<char>| #[trigger] d.contains_key(name) implies !s.is_claim(
            name,
        ) by {
            reveal(claims_are_held);
        }
        assert forall|name: Seq<char>| #[trigger] e.dir.contains_key(name) implies d.contains_key(
            name,
        ) && e.dir[name] == d[name] by {
            assert(kept(s, d, e.dir, name));
        }
        if e.op is ListStale {
            sweeps_list_what_is_stale(s, d, e.reply, e.wall, e.dir);
        }
    }
}

#[verifier::opaque]
spec fn clear_so_far(
    s: Site,
    start: BootView,
    d: Map<Seq<char>, DirFile>,
    run: Seq<DirEvent>,
) -> bool {
    let (v, end) = start_at(start, run);
    &&& boot_knows(v, end)
    &&& claims_are_held(s, v, dir_after(d, run))
    &&& sweep_knows(s, v, end, dir_after(d, run), last_listing(run))
}

proof fn starts_clear_up(s: Site, start: BootView, d: Map<Seq<char>, DirFile>, run: Seq<DirEvent>)
    requires
        starts_in(s, start, d, run),
        clears_up(s, start, run),
    ensures
        clear_so_far(s, start, d, run),
    decreases run.len(),
{
    reveal(clear_so_far);
    if run.len() == 0 {
        reveal(claims_are_held);
        reveal(sweep_knows);
    } else {
        let before = run.drop_last();
        let e = run.last();
        starts_clear_up(s, start, d, before);
        let v = start_at(start, before).0;
        replies_answer(v, e.op, e.reply);
        boot_step_knows(v, e.reply, e.now);
        a_step_keeps_claims_held(s, v, e, dir_after(d, before));
        a_step_keeps_the_sweep(s, v, e, dir_after(d, before), last_listing(before));
    }
}

/// A start that returns a key leaves it alone in its directory, where it could
/// clear up: there is no publish marker, no claim of its own, and no file that a
/// sweep removes, such as an orphaned claim, counted from its last listing.
pub proof fn nothing_is_left_beside_the_key(
    s: Site,
    start: BootView,
    d: Map<Seq<char>, DirFile>,
    run: Seq<DirEvent>,
    key: u64,
)
    requires
        starts_in(s, start, d, run),
        clears_up(s, start, run),
        start_at(start, run).1 == Some(KeyEnd::Key(key)),
    ensures
        nothing_stale(s, dir_after(d, run), last_listing(run)),
        forall|name: Seq<char>| #[trigger]
            dir_after(d, run).contains_key(name) ==> !s.has_class(name, "publishing"@)
                && !s.is_claim(name),
{
    reveal(clear_so_far);
    reveal(sweep_knows);
    reveal(claims_are_held);
    starts_clear_up(s, start, d, run);
    let after = dir_after(d, run);
    assert forall|name: Seq<char>| #[trigger] after.contains_key(name) implies !s.has_class(
        name,
        "publishing"@,
    ) && !s.is_claim(name) by {
        assert(!stale(entry(name, after[name]), s.stem, last_listing(run)));
    }
}

/// What a superseding knows: it moves a quarantined key, to a name that is free.
spec fn superseding_knows(s: Site, p: SupersedePhase, d: Map<Seq<char>, DirFile>) -> bool {
    match p {
        SupersedePhase::Probe { file, .. } => s.has_class(s.name(file), "quarantined"@),
        SupersedePhase::Move { file, n } => s.has_class(s.name(file), "quarantined"@)
            && !d.contains_key(s.name(FileRef::Superseded(n))),
    }
}

/// What a superseding of siblings knows.
spec fn siblings_know(s: Site, v: SiblingView, d: Map<Seq<char>, DirFile>) -> bool {
    &&& !(v.phase is List) ==> all_of(s, v.siblings, "quarantined"@)
    &&& v.phase matches SiblingPhase::Move { phase, .. } ==> superseding_knows(s, phase, d)
}

/// What a stage of a start knows of the files that were listed to it.
#[verifier::opaque]
spec fn files_are_known(s: Site, v: BootView, d: Map<Seq<char>, DirFile>) -> bool {
    &&& all_of(s, v.queue, "quarantined"@)
    &&& match v.stage {
        KeyStage::Adopt { id, .. } => s.has_class((s.names)(id), "quarantined"@),
        KeyStage::AdoptSiblings { id, .. } => s.has_class((s.names)(id), "quarantined"@)
            && siblings_know(s, v.siblings, d),
        KeyStage::DropAdopted { id, .. } => s.has_class((s.names)(id), "quarantined"@),
        KeyStage::SupersedeAdopted { phase } => superseding_knows(s, phase, d),
        KeyStage::Recover { .. } => match v.recovery.stage {
            RecoverStage::Probe { .. } | RecoverStage::Claim { .. } | RecoverStage::Stamp { .. }
            | RecoverStage::Append { .. } => all_claimable(s, v.recovery.items),
            RecoverStage::DropMarkers => all_of(s, v.recovery.items, "publishing"@),
            RecoverStage::Siblings { .. } => siblings_know(s, v.recovery.siblings, d),
            RecoverStage::Supersede { phase } => superseding_knows(s, phase, d),
            _ => true,
        },
        _ => true,
    }
}

/// Whether the operation leaves the superseded keys alone.
spec fn spares_superseded(s: Site, op: KeyOp, d: Map<Seq<char>, DirFile>) -> bool {
    match op {
        KeyOp::CreateNew(f) => !s.has_class(s.name(f), "superseded"@),
        KeyOp::WriteKey(f, _) => !s.has_class(s.name(f), "superseded"@),
        KeyOp::HardLink(_, to) => !s.has_class(s.name(to), "superseded"@),
        KeyOp::Remove(f) => !s.has_class(s.name(f), "superseded"@),
        KeyOp::Rename(from, to) => !s.has_class(s.name(from), "superseded"@) && (s.has_class(
            s.name(to),
            "superseded"@,
        ) ==> !d.contains_key(s.name(to))),
        KeyOp::RemoveListed(found) => forall|i: int|
            0 <= i < found@.len() ==> !s.has_class((s.names)(#[trigger] found@[i]), "superseded"@),
        _ => true,
    }
}

proof fn no_other_class(s: Site, name: Seq<char>, class: Seq<char>)
    requires
        class == "tmp"@ || class == "publishing"@ || class == "recovering"@ || class
            == "quarantined"@,
        s.has_class(name, class),
    ensures
        !s.has_class(name, "superseded"@),
{
    class_words();
    if s.has_class(name, "superseded"@) {
        classes_are_disjoint(s.stem, name, class, "superseded"@);
    }
}

proof fn own_files_are_not_superseded(s: Site, f: FileRef)
    ensures
        !(f is Superseded) && !(f is Listed) ==> !s.has_class(s.name(f), "superseded"@),
        f is Superseded ==> s.has_class(s.name(f), "superseded"@),
        f is Quarantine ==> s.has_class(s.name(f), "quarantined"@),
{
    if f is Final {
        let p = class_prefix(s.stem, "superseded"@);
        assert(p.len() > s.stem.len());
    } else if !(f is Listed) {
        names_by_class(s.stem, s.pid, s.nonce, f);
        if !(f is Superseded) {
            no_other_class(s, s.name(f), class_of(f));
        }
    }
}

proof fn starts_spare_superseded(s: Site, v: BootView, op: KeyOp, d: Map<Seq<char>, DirFile>)
    requires
        files_are_known(s, v, d),
        boot_knows(v, None),
        boot_waits_for(v, op),
        !(v.stage is Sweep),
    ensures
        spares_superseded(s, op, d),
{
    reveal(files_are_known);
    starts_put_named_files(v, op);
    match op {
        KeyOp::CreateNew(f) => own_files_are_not_superseded(s, f),
        KeyOp::WriteKey(f, _) => own_files_are_not_superseded(s, f),
        KeyOp::HardLink(_, to) => own_files_are_not_superseded(s, to),
        KeyOp::Remove(f) => {
            own_files_are_not_superseded(s, f);
            if f is Listed {
                no_other_class(s, s.name(f), "quarantined"@);
            }
        },
        KeyOp::Rename(from, to) => {
            own_files_are_not_superseded(s, from);
            own_files_are_not_superseded(s, to);
            if s.has_class(s.name(from), "quarantined"@) {
                no_other_class(s, s.name(from), "quarantined"@);
            } else if s.has_class(s.name(from), "publishing"@) {
                no_other_class(s, s.name(from), "publishing"@);
            } else if from is Listed {
                no_other_class(s, s.name(from), "recovering"@);
            }
        },
        KeyOp::RemoveListed(found) => {
            assert forall|i: int| 0 <= i < found@.len() implies !s.has_class(
                (s.names)(#[trigger] found@[i]),
                "superseded"@,
            ) by {
                no_other_class(s, (s.names)(found@[i]), "publishing"@);
            }
        },
        _ => {},
    }
}

proof fn files_stay_known(s: Site, v: BootView, e: DirEvent, d: Map<Seq<char>, DirFile>)
    requires
        files_are_known(s, v, d),
        boot_knows(v, None),
        boot_waits_for(v, e.op),
        answers(e.op, e.reply),
        dir_step(s, d, e.op, e.reply, e.wall, e.dir),
    ensures
        files_are_known(s, boot_next(v, e.reply, e.now).0, e.dir),
{
    reveal(files_are_known);
    listings_tell_the_class(s, d, e.op, e.reply, e.wall, e.dir);
    if let KeyOp::Exists(f) = e.op {
        assert(kept(s, d, e.dir, s.name(f)));
    }
    if v.stage is Recover {
        if let RecoverStage::Restore { n, .. } = v.recovery.stage {
            own_files_are_not_superseded(s, FileRef::Quarantine(n));
        }
    }
}

proof fn superseded_keys_survive_a_step(
    s: Site,
    v: BootView,
    e: DirEvent,
    d: Map<Seq<char>, DirFile>,
    name: Seq<char>,
)
    requires
        files_are_known(s, v, d),
        boot_knows(v, None),
        boot_waits_for(v, e.op),
        answers(e.op, e.reply),
        dir_step(s, d, e.op, e.reply, e.wall, e.dir),
        s.has_class(name, "superseded"@),
        d.contains_key(name),
    ensures
        (e.dir.contains_key(name) && e.dir[name] == d[name]) || (v.stage is Sweep && v.sweep.phase
            is Remove && is_among(s, v.sweep.stale, name) && !e.dir.contains_key(name)),
{
    if s.is_claim(name) {
        let c = choose|c: u32| name == #[trigger] s.name(FileRef::Claim(c));
        own_files_are_not_superseded(s, FileRef::Claim(c));
    }
    if !(v.stage is Sweep) {
        starts_spare_superseded(s, v, e.op, d);
    }
    if !kept(s, d, e.dir, name) {
        match e.op {
            KeyOp::ReleaseClaims(claims) => {
                let i = choose|i: int|
                    0 <= i < claims@.len() && name == s.name(
                        FileRef::Claim(#[trigger] claims@[i]),
                    );
                own_files_are_not_superseded(s, FileRef::Claim(claims@[i]));
            },
            KeyOp::RemoveListed(found) => {
                assert(is_among(s, found@, name));
                if !(v.stage is Sweep) {
                    assert(spares_superseded(s, e.op, d));
                }
            },
            _ => {},
        }
    }
}

/// Whether a sweep that is about to remove its list removes no superseded key but
/// those that were stale at `wall`.
#[verifier::opaque]
spec fn removes_only_stale(
    s: Site,
    v: BootView,
    d: Map<Seq<char>, DirFile>,
    wall: i128,
) -> bool {
    v.stage is Sweep && v.sweep.phase is Remove ==> forall|name: Seq<char>| #[trigger]
        d.contains_key(name) && s.has_class(name, "superseded"@) && is_among(
            s,
            v.sweep.stale,
            name,
        ) ==> stale(entry(name, d[name]), s.stem, wall)
}

proof fn sweeps_list_only_what_is_stale(
    s: Site,
    v: BootView,
    e: DirEvent,
    d: Map<Seq<char>, DirFile>,
)
    requires
        boot_waits_for(v, e.op),
        answers(e.op, e.reply),
        dir_step(s, d, e.op, e.reply, e.wall, e.dir),
    ensures
        removes_only_stale(s, boot_next(v, e.reply, e.now).0, e.dir, e.wall),
        boot_next(v, e.reply, e.now).0.stage is Sweep && boot_next(
            v,
            e.reply,
            e.now,
        ).0.sweep.phase is Remove ==> e.op is ListStale,
{
    reveal(removes_only_stale);
    let w = boot_next(v, e.reply, e.now).0;
    if w.stage is Sweep && w.sweep.phase is Remove {
        let entries = choose|entries: Seq<EntryView>| #[trigger]
            can_list(s, d, e.op, e.reply, e.wall, entries);
        assert(can_list(s, d, e.op, e.reply, e.wall, entries));
        let keep = |x: EntryView| stale(x, s.stem, e.wall);
        let picked = entries.filter(keep);
        let found = listed(e.reply);
        assert forall|name: Seq<char>| #[trigger]
            e.dir.contains_key(name) && s.has_class(name, "superseded"@) && is_among(
                s,
                found,
                name,
            ) implies stale(entry(name, e.dir[name]), s.stem, e.wall) by {
            let k = choose|k: int| 0 <= k < found.len() && name == (s.names)(#[trigger] found[k]);
            assert(found[k] == picked[k].id);
            assert(picked.contains(picked[k]));
            filtering_keeps(entries, keep, picked[k]);
            let i = choose|i: int| 0 <= i < entries.len() && entries[i] == picked[k];
            assert(entries[i].name == Some(name));
            assert(kept(s, d, e.dir, name));
            if s.is_claim(name) {
                let c = choose|c: u32| name == #[trigger] s.name(FileRef::Claim(c));
                own_files_are_not_superseded(s, FileRef::Claim(c));
            }
        }
    }
}

#[verifier::opaque]
spec fn known_so_far(
    s: Site,
    start: BootView,
    d: Map<Seq<char>, DirFile>,
    run: Seq<DirEvent>,
) -> bool {
    let (v, end) = start_at(start, run);
    &&& boot_knows(v, end)
    &&& files_are_known(s, v, dir_after(d, run))
    &&& removes_only_stale(s, v, dir_after(d, run), last_listing(run))
}

proof fn starts_know_their_files(
    s: Site,
    start: BootView,
    d: Map<Seq<char>, DirFile>,
    run: Seq<DirEvent>,
)
    requires
        starts_in(s, start, d, run),
    ensures
        known_so_far(s, start, d, run),
    decreases run.len(),
{
    reveal(known_so_far);
    if run.len() == 0 {
        reveal(files_are_known);
        reveal(removes_only_stale);
    } else {
        let before = run.drop_last();
        let e = run.last();
        starts_know_their_files(s, start, d, before);
        let v = start_at(start, before).0;
        replies_answer(v, e.op, e.reply);
        boot_step_knows(v, e.reply, e.now);
        files_stay_known(s, v, e, dir_after(d, before));
        sweeps_list_only_what_is_stale(s, v, e, dir_after(d, before));
        if !(e.op is ListStale) {
            reveal(removes_only_stale);
        }
    }
}

/// The name stays out of use once the sweep has removed the file.
proof fn sweeps_put_nothing(v: BootView, op: KeyOp)
    requires
        boot_waits_for(v, op),
        v.stage is Sweep,
    ensures
        !(op is CreateNew) && !(op is HardLink) && !(op is Rename) && !(op is WriteKey) && !(op
            is Remove),
{
}

/// A file that a start supersedes keeps what it holds: the file under the
/// superseded name is the one that had the quarantined name.
pub proof fn superseding_moves_the_key(
    s: Site,
    d: Map<Seq<char>, DirFile>,
    file: FileRef,
    n: u32,
    reply: Reply,
    wall: i128,
    e: Map<Seq<char>, DirFile>,
)
    requires
        dir_step(s, d, KeyOp::Rename(file, FileRef::Superseded(n)), reply, wall, e),
        !(reply is Failed),
    ensures
        e.contains_key(s.name(FileRef::Superseded(n))),
        e[s.name(FileRef::Superseded(n))] == d[s.name(file)],
{
    if s.is_claim(s.name(FileRef::Superseded(n))) {
        let c = choose|c: u32|
            s.name(FileRef::Superseded(n)) == #[trigger] s.name(FileRef::Claim(c));
        file_names_are_distinct(s.stem, s.pid, s.nonce, FileRef::Superseded(n), FileRef::Claim(c));
    }
}

/// A superseded key stays what it is: from any point of a start on, it is there
/// with the same content, unless the sweep at the start's end has removed it; and
/// that it does only if the key's retention was over when it was listed.
pub proof fn superseded_keys_are_kept(
    s: Site,
    start: BootView,
    d: Map<Seq<char>, DirFile>,
    run: Seq<DirEvent>,
    from: int,
    name: Seq<char>,
)
    requires
        starts_in(s, start, d, run),
        0 <= from <= run.len(),
        s.has_class(name, "superseded"@),
        dir_after(d, run.take(from)).contains_key(name),
    ensures
        dir_after(d, run).contains_key(name) ==> dir_after(d, run)[name] == dir_after(
            d,
            run.take(from),
        )[name],
        !dir_after(d, run).contains_key(name) ==> {
            &&& stale(
                entry(name, dir_after(d, run.take(from))[name]),
                s.stem,
                last_listing(run),
            )
            &&& start_at(start, run).1 is None ==> start_at(start, run).0.stage is Sweep
                && start_at(start, run).0.sweep.phase is SyncAgain
        },
    decreases run.len() - from,
{
    if from == run.len() {
        assert(run.take(from) =~= run);
    } else {
        let before = run.drop_last();
        let e = run.last();
        assert(before.take(from) =~= run.take(from));
        superseded_keys_are_kept(s, start, d, before, from, name);
        starts_know_their_files(s, start, d, before);
        reveal(known_so_far);
        let v = start_at(start, before).0;
        let held = dir_after(d, before);
        if held.contains_key(name) {
            superseded_keys_survive_a_step(s, v, e, held, name);
            if !e.dir.contains_key(name) {
                reveal(removes_only_stale);
            }
        } else {
            sweeps_put_nothing(v, e.op);
            if e.dir.contains_key(name) {
                new_files_are_put(s, held, e.op, e.reply, e.wall, e.dir, name);
            }
        }
    }
}

} // verus!
