//! Taking quarantined keys that lost their round out of the adoptable class.

use vstd::prelude::*;

use crate::identity::ops::{
    answers, listed, listing_fits, FileRef, IoKind, KeyOp, Reply, KEY_TEMP_ATTEMPTS,
};

verus! {

/// Where the renaming of one quarantined key stands: the operation that it
/// waits for.
#[derive(Clone, Copy, PartialEq, Eq, Structural, Debug)]
pub enum SupersedePhase {
    /// Is the superseded name with this number free?
    Probe { file: FileRef, n: u32 },
    /// Rename the key to it.
    Move { file: FileRef, n: u32 },
}

/// How the renaming of a quarantined key ended.
#[derive(Clone, Copy, PartialEq, Eq, Structural, Debug)]
pub enum SupersedeEnd {
    /// It has the superseded name with this number.
    Moved(u32),
    /// It was gone already.
    Gone,
    /// No name could be had: it stays adoptable while it is young.
    Kept,
}

/// What a step of the renaming leads to.
#[derive(Clone, Copy, PartialEq, Eq, Structural, Debug)]
pub enum SupersedeNext {
    Go(SupersedePhase),
    End(SupersedeEnd),
}

/// The operation that a phase waits for.
pub open spec fn supersede_op_spec(p: SupersedePhase) -> KeyOp {
    match p {
        SupersedePhase::Probe { n, .. } => KeyOp::Exists(FileRef::Superseded(n)),
        SupersedePhase::Move { file, n } => KeyOp::Rename(file, FileRef::Superseded(n)),
    }
}

/// On to the next name, as far as there is one.
pub open spec fn next_superseded_name(file: FileRef, n: u32) -> SupersedeNext {
    if n + 1 < KEY_TEMP_ATTEMPTS {
        SupersedeNext::Go(SupersedePhase::Probe { file, n: (n + 1) as u32 })
    } else {
        SupersedeNext::End(SupersedeEnd::Kept)
    }
}

/// What the reply to a phase's operation leads to.
pub open spec fn supersede_next_spec(p: SupersedePhase, reply: Reply) -> SupersedeNext {
    match p {
        SupersedePhase::Probe { file, n } => if reply == Reply::Present(true) {
            next_superseded_name(file, n)
        } else {
            SupersedeNext::Go(SupersedePhase::Move { file, n })
        },
        SupersedePhase::Move { file, n } => match reply {
            Reply::Failed(e) => if e.kind is NotFound {
                SupersedeNext::End(SupersedeEnd::Gone)
            } else {
                next_superseded_name(file, n)
            },
            _ => SupersedeNext::End(SupersedeEnd::Moved(n)),
        },
    }
}

/// Begins to rename a quarantined key into the superseded class.
pub fn supersede_quarantine(file: FileRef) -> (r: SupersedePhase)
    ensures
        r == (SupersedePhase::Probe { file, n: 0 }),
{
    SupersedePhase::Probe { file, n: 0 }
}

/// The operation that a phase waits for.
pub fn supersede_op(p: SupersedePhase) -> (r: KeyOp)
    ensures
        r == supersede_op_spec(p),
{
    match p {
        SupersedePhase::Probe { n, .. } => KeyOp::Exists(FileRef::Superseded(n)),
        SupersedePhase::Move { file, n } => KeyOp::Rename(file, FileRef::Superseded(n)),
    }
}

fn after_name(file: FileRef, n: u32) -> (r: SupersedeNext)
    ensures
        r == next_superseded_name(file, n),
{
    if n < KEY_TEMP_ATTEMPTS - 1 {
        SupersedeNext::Go(SupersedePhase::Probe { file, n: n + 1 })
    } else {
        SupersedeNext::End(SupersedeEnd::Kept)
    }
}

/// What the reply to a phase's operation leads to.
pub fn supersede_next(p: SupersedePhase, reply: &Reply) -> (r: SupersedeNext)
    requires
        answers(supersede_op_spec(p), *reply),
    ensures
        r == supersede_next_spec(p, *reply),
{
    match p {
        SupersedePhase::Probe { file, n } => if reply.present() {
            after_name(file, n)
        } else {
            SupersedeNext::Go(SupersedePhase::Move { file, n })
        },
        SupersedePhase::Move { file, n } => match reply.error() {
            Some(e) => if e.kind == IoKind::NotFound {
                SupersedeNext::End(SupersedeEnd::Gone)
            } else {
                after_name(file, n)
            },
            None => SupersedeNext::End(SupersedeEnd::Moved(n)),
        },
    }
}

/// A superseded name is never overwritten: a key is renamed only to a name
/// that was free a moment ago.
pub proof fn supersede_moves_to_a_free_name(p: SupersedePhase, reply: Reply, file: FileRef, n: u32)
    requires
        answers(supersede_op_spec(p), reply),
        supersede_next_spec(p, reply) == SupersedeNext::Go(SupersedePhase::Move { file, n }),
    ensures
        p == (SupersedePhase::Probe { file, n }),
        reply == Reply::Present(false),
{
}

/// Where the superseding of siblings stands.
#[derive(Clone, Copy, PartialEq, Eq, Structural, Debug)]
pub enum SiblingPhase {
    /// List the young quarantined keys other than this one.
    List { kept: FileRef },
    /// Does the sibling at this place hold a key?
    Read { at: usize },
    /// It does: rename it.
    Move { at: usize, phase: SupersedePhase },
    /// All siblings have been dealt with.
    Finished,
}

/// The superseding of the young quarantined keys beside the one that won.
#[derive(Debug)]
pub struct SiblingSupersede {
    pub phase: SiblingPhase,
    pub siblings: Vec<u64>,
}

/// The superseding of siblings as the contracts see it.
pub struct SiblingView {
    pub phase: SiblingPhase,
    pub siblings: Seq<u64>,
}

impl View for SiblingSupersede {
    type V = SiblingView;

    open spec fn view(&self) -> SiblingView {
        SiblingView { phase: self.phase, siblings: self.siblings@ }
    }
}

impl SiblingView {
    /// Whether the place it stands at is one of the siblings.
    pub open spec fn wf(self) -> bool {
        &&& self.siblings.len() <= usize::MAX
        &&& match self.phase {
            SiblingPhase::Read { at } => at < self.siblings.len(),
            SiblingPhase::Move { at, .. } => at < self.siblings.len(),
            _ => true,
        }
    }
}

/// The superseding of every young quarantined key other than `kept`.
pub open spec fn sibling_start(kept: FileRef) -> SiblingView {
    SiblingView { phase: SiblingPhase::List { kept }, siblings: Seq::empty() }
}

/// The operation that it waits for.
pub open spec fn sibling_op_spec(s: SiblingView) -> KeyOp {
    match s.phase {
        SiblingPhase::List { kept } => KeyOp::ListSiblings(kept),
        SiblingPhase::Read { at } => KeyOp::ReadKey(FileRef::Listed(s.siblings[at as int])),
        SiblingPhase::Move { phase, .. } => supersede_op_spec(phase),
        SiblingPhase::Finished => KeyOp::Pause(0),
    }
}

/// On to the sibling at this place, as far as there is one.
pub open spec fn sibling_at(s: SiblingView, at: int) -> SiblingView {
    if at < s.siblings.len() {
        SiblingView { phase: SiblingPhase::Read { at: at as usize }, ..s }
    } else {
        SiblingView { phase: SiblingPhase::Finished, ..s }
    }
}

/// What the reply leads to: each sibling that holds a key is superseded, one
/// that does not, or cannot be read, is left.
pub open spec fn sibling_next_spec(s: SiblingView, reply: Reply) -> SiblingView {
    match s.phase {
        SiblingPhase::List { .. } => sibling_at(SiblingView { siblings: listed(reply), ..s }, 0),
        SiblingPhase::Read { at } => if reply is Key {
            SiblingView {
                phase: SiblingPhase::Move {
                    at,
                    phase: SupersedePhase::Probe {
                        file: FileRef::Listed(s.siblings[at as int]),
                        n: 0,
                    },
                },
                ..s
            }
        } else {
            sibling_at(s, at + 1)
        },
        SiblingPhase::Move { at, phase } => match supersede_next_spec(phase, reply) {
            SupersedeNext::Go(q) => SiblingView {
                phase: SiblingPhase::Move { at, phase: q },
                ..s
            },
            SupersedeNext::End(_) => sibling_at(s, at + 1),
        },
        SiblingPhase::Finished => s,
    }
}

impl SiblingSupersede {
    /// Nothing to do.
    pub fn idle() -> (r: Self)
        ensures
            r@ == (SiblingView { phase: SiblingPhase::Finished, siblings: Seq::empty() }),
    {
        SiblingSupersede { phase: SiblingPhase::Finished, siblings: Vec::new() }
    }

    /// Begins to supersede every young quarantined key other than `kept`.
    pub fn supersede_sibling_quarantines(kept: FileRef) -> (r: Self)
        ensures
            r@ == sibling_start(kept),
            r@.wf(),
    {
        SiblingSupersede { phase: SiblingPhase::List { kept }, siblings: Vec::new() }
    }

    /// The operation that it waits for.
    pub fn op(&self) -> (r: KeyOp)
        requires
            self@.wf(),
        ensures
            r == sibling_op_spec(self@),
    {
        match self.phase {
            SiblingPhase::List { kept } => KeyOp::ListSiblings(kept),
            SiblingPhase::Read { at } => KeyOp::ReadKey(FileRef::Listed(self.siblings[at])),
            SiblingPhase::Move { phase, .. } => supersede_op(phase),
            SiblingPhase::Finished => KeyOp::Pause(0),
        }
    }

    fn stand_at(&mut self, at: usize)
        requires
            old(self)@.siblings.len() <= usize::MAX,
        ensures
            final(self)@ == sibling_at(old(self)@, at as int),
            final(self)@.wf(),
    {
        if at < self.siblings.len() {
            self.phase = SiblingPhase::Read { at };
        } else {
            self.phase = SiblingPhase::Finished;
        }
    }

    /// Takes the reply to the operation.
    pub fn step(&mut self, reply: Reply)
        requires
            old(self)@.wf(),
            answers(sibling_op_spec(old(self)@), reply),
        ensures
            final(self)@ == sibling_next_spec(old(self)@, reply),
            final(self)@.wf(),
    {
        assert(self.siblings.len() == self.siblings@.len());
        match self.phase {
            SiblingPhase::List { .. } => {
                proof {
                    listing_fits(reply);
                }
                self.siblings = reply.into_ids();
                self.stand_at(0);
            },
            SiblingPhase::Read { at } => {
                let holds_key = match reply {
                    Reply::Key(_) => true,
                    _ => false,
                };
                if holds_key {
                    self.phase = SiblingPhase::Move {
                        at,
                        phase: supersede_quarantine(FileRef::Listed(self.siblings[at])),
                    };
                } else {
                    self.stand_at(at + 1);
                }
            },
            SiblingPhase::Move { at, phase } => match supersede_next(phase, &reply) {
                SupersedeNext::Go(q) => {
                    self.phase = SiblingPhase::Move { at, phase: q };
                },
                SupersedeNext::End(_) => {
                    self.stand_at(at + 1);
                },
            },
            SiblingPhase::Finished => {},
        }
    }
}

/// A step stays at a place that exists.
pub proof fn siblings_keep_wf(s: SiblingView, reply: Reply)
    requires
        s.wf(),
    ensures
        sibling_next_spec(s, reply).wf(),
{
    listing_fits(reply);
}

/// What leads through the renaming of a quarantined key: it goes to the first name
/// that was free, of sixty-four that are tried in order; a key that is gone is
/// left, and any other failure leads to the next name. The file that is moved is
/// always the one that it began with.
pub proof fn what_leads_through_a_superseding(p: SupersedePhase, reply: Reply)
    requires
        answers(supersede_op_spec(p), reply),
    ensures
        ({
            let file = match p {
                SupersedePhase::Probe { file, .. } => file,
                SupersedePhase::Move { file, .. } => file,
            };
            let gone = reply matches Reply::Failed(e) && e.kind is NotFound;
            let stuck = (p is Probe && reply == Reply::Present(true)) || (p is Move && reply
                is Failed && !gone);
            match supersede_next_spec(p, reply) {
                SupersedeNext::Go(SupersedePhase::Probe { file: f, n }) => f == file && 0 < n < 64
                    && stuck && (p == (SupersedePhase::Probe { file, n: (n - 1) as u32 }) || p == (
                SupersedePhase::Move { file, n: (n - 1) as u32 })),
                SupersedeNext::Go(SupersedePhase::Move { file: f, n }) => f == file && p == (
                SupersedePhase::Probe { file, n }) && reply == Reply::Present(false),
                SupersedeNext::End(SupersedeEnd::Moved(n)) => p == (SupersedePhase::Move {
                    file,
                    n,
                }) && !(reply is Failed),
                SupersedeNext::End(SupersedeEnd::Gone) => p is Move && gone,
                SupersedeNext::End(SupersedeEnd::Kept) => stuck && (p matches SupersedePhase::Probe {
                    n,
                    ..
                } ==> n >= 63) && (p matches SupersedePhase::Move { n, .. } ==> n >= 63),
            }
        }),
        match supersede_op_spec(p) {
            KeyOp::Exists(f) => p matches SupersedePhase::Probe { n, .. } && f
                == FileRef::Superseded(n),
            KeyOp::Rename(from, to) => p matches SupersedePhase::Move { file, n } && from == file
                && to == FileRef::Superseded(n),
            _ => false,
        },
{
}

/// What leads through the superseding of siblings: all that were listed are dealt
/// with, in order. Each is read; one that holds a key is renamed, and what follows
/// it comes after that has ended; one that holds none is left. It is done behind
/// the last one.
pub proof fn what_leads_through_the_siblings(s: SiblingView, reply: Reply)
    requires
        s.wf(),
        answers(sibling_op_spec(s), reply),
        !(s.phase is Finished),
    ensures
        ({
            let t = sibling_next_spec(s, reply);
            let all = if s.phase is List {
                listed(reply)
            } else {
                s.siblings
            };
            let at = match s.phase {
                SiblingPhase::Read { at } => at as int,
                SiblingPhase::Move { at, .. } => at as int,
                _ => -1,
            };
            let over = match s.phase {
                SiblingPhase::List { .. } => true,
                SiblingPhase::Read { .. } => !(reply is Key),
                SiblingPhase::Move { phase, .. } => supersede_next_spec(phase, reply) is End,
                SiblingPhase::Finished => false,
            };
            &&& t.siblings == all
            &&& match t.phase {
                SiblingPhase::List { .. } => false,
                SiblingPhase::Read { at: next } => over && next == at + 1 && next < all.len(),
                SiblingPhase::Finished => over && at + 1 >= all.len(),
                SiblingPhase::Move { at: next, phase } => {
                    &&& !over
                    &&& next == at
                    &&& s.phase is Read ==> phase == (SupersedePhase::Probe {
                        file: FileRef::Listed(all[at]),
                        n: 0,
                    })
                    &&& s.phase matches SiblingPhase::Move { phase: q, .. } ==> supersede_next_spec(
                        q,
                        reply,
                    ) == SupersedeNext::Go(phase)
                },
            }
        }),
        s.phase matches SiblingPhase::List { kept } ==> sibling_op_spec(s) == KeyOp::ListSiblings(
            kept,
        ),
        s.phase matches SiblingPhase::Read { at } ==> sibling_op_spec(s) == KeyOp::ReadKey(
            FileRef::Listed(s.siblings[at as int]),
        ),
        s.phase matches SiblingPhase::Move { phase, .. } ==> sibling_op_spec(s)
            == supersede_op_spec(phase),
{
    listing_fits(reply);
}

/// The superseding of siblings begins with their listing, and spares the key that
/// won.
pub proof fn siblings_are_listed_first(kept: FileRef)
    ensures
        sibling_op_spec(sibling_start(kept)) == KeyOp::ListSiblings(kept),
{
}

} // verus!
