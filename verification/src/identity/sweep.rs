//! The sweep beside a healthy identity key.
//!
//! A marker vouches for a key that may not be on disk yet, so the sweep flushes
//! the key and the directory first, and removes nothing if either fails.

use vstd::prelude::*;

use crate::identity::ops::{listed, KeyOp, Reply};

verus! {

/// Where a sweep stands: the operation that it waits for.
#[derive(Clone, Copy, PartialEq, Eq, Structural, Debug)]
pub enum SweepPhase {
    SyncKey,
    SyncDir,
    List,
    Remove,
    SyncAgain,
    Finished,
}

/// A sweep.
#[derive(Debug)]
pub struct Sweep {
    pub phase: SweepPhase,
    pub stale: Vec<u64>,
}

/// A sweep as the contracts see it.
pub struct SweepView {
    pub phase: SweepPhase,
    pub stale: Seq<u64>,
}

impl View for Sweep {
    type V = SweepView;

    open spec fn view(&self) -> SweepView {
        SweepView { phase: self.phase, stale: self.stale@ }
    }
}

/// The start of a sweep.
pub open spec fn sweep_start() -> SweepView {
    SweepView { phase: SweepPhase::SyncKey, stale: Seq::empty() }
}

/// Whether `op` is the operation that the sweep waits for.
pub open spec fn sweep_waits_for(s: SweepView, op: KeyOp) -> bool {
    match s.phase {
        SweepPhase::SyncKey => op is SyncFinal,
        SweepPhase::SyncDir => op is SyncDir,
        SweepPhase::List => op is ListStale,
        SweepPhase::Remove => op matches KeyOp::RemoveListed(ids) && ids@ == s.stale,
        SweepPhase::SyncAgain => op is SyncDir,
        SweepPhase::Finished => op == KeyOp::Pause(0),
    }
}

/// Whether the sweep can be answered with `reply`.
pub open spec fn sweep_answer(s: SweepView, reply: Reply) -> bool {
    match s.phase {
        SweepPhase::SyncKey | SweepPhase::SyncDir | SweepPhase::SyncAgain => reply is Done
            || reply is Failed,
        SweepPhase::List => reply is Ids || reply is Failed,
        SweepPhase::Remove | SweepPhase::Finished => reply is Done,
    }
}

/// What the reply leads to.
pub open spec fn sweep_next_spec(s: SweepView, reply: Reply) -> SweepView {
    let finished = SweepView { phase: SweepPhase::Finished, ..s };
    match s.phase {
        SweepPhase::SyncKey => if reply is Failed {
            finished
        } else {
            SweepView { phase: SweepPhase::SyncDir, ..s }
        },
        SweepPhase::SyncDir => if reply is Failed {
            finished
        } else {
            SweepView { phase: SweepPhase::List, ..s }
        },
        SweepPhase::List => if reply is Failed {
            finished
        } else {
            SweepView { phase: SweepPhase::Remove, stale: listed(reply) }
        },
        SweepPhase::Remove => SweepView { phase: SweepPhase::SyncAgain, ..s },
        SweepPhase::SyncAgain => finished,
        SweepPhase::Finished => s,
    }
}

fn copy_ids(ids: &Vec<u64>) -> (r: Vec<u64>)
    ensures
        r@ == ids@,
{
    let mut out: Vec<u64> = Vec::new();
    let mut i: usize = 0;
    while i < ids.len()
        invariant
            i <= ids.len(),
            out@ == ids@.take(i as int),
        decreases ids.len() - i,
    {
        assert(ids@.take(i as int + 1) =~= ids@.take(i as int).push(ids@[i as int]));
        out.push(ids[i]);
        i = i + 1;
    }
    assert(ids@.take(ids.len() as int) =~= ids@);
    out
}

/// The operation that removes the listed files.
pub fn remove_listed(ids: &Vec<u64>) -> (r: KeyOp)
    ensures
        r matches KeyOp::RemoveListed(v) && v@ == ids@,
{
    KeyOp::RemoveListed(copy_ids(ids))
}

impl Sweep {
    /// Nothing to do.
    pub fn idle() -> (r: Self)
        ensures
            r@ == (SweepView { phase: SweepPhase::Finished, stale: Seq::empty() }),
    {
        Sweep { phase: SweepPhase::Finished, stale: Vec::new() }
    }

    /// Begins a sweep.
    pub fn sweep_stale_markers() -> (r: Self)
        ensures
            r@ == sweep_start(),
    {
        Sweep { phase: SweepPhase::SyncKey, stale: Vec::new() }
    }

    /// The operation that the sweep waits for.
    pub fn op(&self) -> (r: KeyOp)
        ensures
            sweep_waits_for(self@, r),
    {
        match self.phase {
            SweepPhase::SyncKey => KeyOp::SyncFinal,
            SweepPhase::SyncDir => KeyOp::SyncDir,
            SweepPhase::List => KeyOp::ListStale,
            SweepPhase::Remove => remove_listed(&self.stale),
            SweepPhase::SyncAgain => KeyOp::SyncDir,
            SweepPhase::Finished => KeyOp::Pause(0),
        }
    }

    /// Takes the reply to the operation.
    pub fn step(&mut self, reply: Reply)
        requires
            sweep_answer(old(self)@, reply),
        ensures
            final(self)@ == sweep_next_spec(old(self)@, reply),
    {
        let failed = reply.error().is_some();
        match self.phase {
            SweepPhase::SyncKey => {
                self.phase = if failed { SweepPhase::Finished } else { SweepPhase::SyncDir };
            },
            SweepPhase::SyncDir => {
                self.phase = if failed { SweepPhase::Finished } else { SweepPhase::List };
            },
            SweepPhase::List => {
                if failed {
                    self.phase = SweepPhase::Finished;
                } else {
                    self.phase = SweepPhase::Remove;
                    self.stale = reply.into_ids();
                }
            },
            SweepPhase::Remove => {
                self.phase = SweepPhase::SyncAgain;
            },
            SweepPhase::SyncAgain => {
                self.phase = SweepPhase::Finished;
            },
            SweepPhase::Finished => {},
        }
    }
}

/// Where a run of a sweep has led.
pub open spec fn sweep_after(replies: Seq<Reply>) -> SweepView
    decreases replies.len(),
{
    if replies.len() == 0 {
        sweep_start()
    } else {
        sweep_next_spec(sweep_after(replies.drop_last()), replies.last())
    }
}

/// A sweep removes files only after it has flushed the key and the directory:
/// the run began with two operations that succeeded.
pub proof fn sweep_removes_only_beside_a_durable_key(replies: Seq<Reply>)
    requires
        sweep_after(replies).phase is Remove || sweep_after(replies).phase is SyncAgain,
    ensures
        replies.len() >= 3,
        !(replies[0] is Failed),
        !(replies[1] is Failed),
        sweep_after(replies).stale == listed(replies[2]),
    decreases replies.len(),
{
    sweep_path(replies);
}

proof fn sweep_path(replies: Seq<Reply>)
    ensures
        sweep_after(replies).phase is SyncKey ==> replies.len() == 0,
        sweep_after(replies).phase is SyncDir ==> replies.len() == 1 && !(replies[0] is Failed),
        sweep_after(replies).phase is List ==> replies.len() == 2 && !(replies[0] is Failed) && !(
        replies[1] is Failed),
        sweep_after(replies).phase is Remove ==> replies.len() == 3 && !(replies[0] is Failed) && !(
        replies[1] is Failed) && sweep_after(replies).stale == listed(replies[2]),
        sweep_after(replies).phase is SyncAgain ==> replies.len() == 4 && !(replies[0] is Failed)
            && !(replies[1] is Failed) && sweep_after(replies).stale == listed(replies[2]),
    decreases replies.len(),
{
    if replies.len() > 0 {
        sweep_path(replies.drop_last());
    }
}

/// A sweep that could not flush the key, or not the directory, removes nothing.
pub proof fn sweep_stops_without_durability(replies: Seq<Reply>)
    requires
        replies.len() >= 1,
        replies[0] is Failed || (replies.len() >= 2 && replies[1] is Failed),
    ensures
        replies.len() >= 2 || replies[0] is Failed ==> sweep_after(replies).phase is Finished,
        !(sweep_after(replies).phase is Remove),
    decreases replies.len(),
{
    sweep_path(replies);
    let shorter = replies.drop_last();
    sweep_path(shorter);
    if replies.len() > 2 || (replies.len() == 2 && replies[0] is Failed) {
        sweep_stops_without_durability(shorter);
    } else if replies.len() == 2 {
        assert(shorter.drop_last().len() == 0);
        assert(sweep_after(shorter.drop_last()) == sweep_start());
    } else {
        assert(sweep_after(shorter) == sweep_start());
    }
}

/// What leads through a sweep: the key is flushed, then the directory, then the
/// stale files are listed, and all that were listed are removed, and the directory
/// flushed again. A flush or a listing that fails before the removal ends it; the
/// last flush ends it either way.
pub proof fn what_leads_through_a_sweep(s: SweepView, reply: Reply)
    requires
        sweep_answer(s, reply),
        !(s.phase is Finished),
    ensures
        ({
            let t = sweep_next_spec(s, reply);
            let done = !(reply is Failed);
            match t.phase {
                SweepPhase::SyncKey => false,
                SweepPhase::SyncDir => s.phase is SyncKey && done,
                SweepPhase::List => s.phase is SyncDir && done,
                SweepPhase::Remove => s.phase is List && done && t.stale == listed(reply),
                SweepPhase::SyncAgain => s.phase is Remove,
                SweepPhase::Finished => s.phase is SyncAgain || (!done && !(s.phase is Remove)),
            }
        }),
        sweep_start().phase is SyncKey,
{
}

/// What a sweep waits for: the key and the directory are what is flushed, the stale
/// files what is listed, and the listed ones what is removed.
pub proof fn what_a_sweep_waits_for(s: SweepView, op: KeyOp)
    requires
        sweep_waits_for(s, op),
        !(s.phase is Finished),
    ensures
        op is SyncFinal <==> s.phase is SyncKey,
        op is SyncDir <==> s.phase is SyncDir || s.phase is SyncAgain,
        op is ListStale <==> s.phase is List,
        op is RemoveListed <==> s.phase is Remove,
        op matches KeyOp::RemoveListed(ids) ==> ids@ == s.stale,
{
}

/// A sweep that nothing goes against removes all that it listed, in five
/// operations.
pub proof fn an_undisturbed_sweep_removes_what_is_stale(replies: Seq<Reply>)
    requires
        0 < replies.len() <= 5,
        forall|i: int| 0 <= i < replies.len() ==> !(#[trigger] replies[i] is Failed),
    ensures
        ({
            let s = sweep_after(replies);
            &&& replies.len() == 1 ==> s.phase is SyncDir
            &&& replies.len() == 2 ==> s.phase is List
            &&& replies.len() == 3 ==> s.phase is Remove && s.stale == listed(replies[2])
            &&& replies.len() == 4 ==> s.phase is SyncAgain
            &&& replies.len() == 5 ==> s.phase is Finished
        }),
    decreases replies.len(),
{
    let before = replies.drop_last();
    assert forall|i: int| 0 <= i < before.len() implies !(#[trigger] before[i] is Failed) by {
        assert(before[i] == replies[i]);
    }
    if before.len() > 0 {
        an_undisturbed_sweep_removes_what_is_stale(before);
    } else {
        assert(sweep_after(before) == sweep_start());
    }
    assert(!(replies[replies.len() - 1] is Failed));
}

} // verus!
