//! The signal that ends the node.

use vstd::prelude::*;

verus! {

/// Whether the node is to end. Once set, the signal stays set.
#[derive(Clone, Copy, PartialEq, Eq, Structural, Debug)]
pub struct ShutdownSignal {
    pub signalled: bool,
}

impl ShutdownSignal {
    /// The node is to go on.
    pub fn new() -> (r: Self)
        ensures
            !r.signalled,
    {
        ShutdownSignal { signalled: false }
    }

    /// Sets the signal; whether this call was the one that set it.
    pub fn shutdown(&mut self) -> (r: bool)
        ensures
            final(self).signalled,
            r == !old(self).signalled,
            (*final(self), r) == shut_down(*old(self)),
    {
        if self.signalled {
            false
        } else {
            self.signalled = true;
            true
        }
    }

    /// Whether the signal is set.
    pub fn is_shutting_down(&self) -> (r: bool)
        ensures
            r == self.signalled,
    {
        self.signalled
    }
}

/// The signal after a call that sets it, and what the call returns.
pub open spec fn shut_down(signal: ShutdownSignal) -> (ShutdownSignal, bool) {
    (ShutdownSignal { signalled: true }, !signal.signalled)
}

/// What a number of calls in a row return, and the signal behind them.
pub open spec fn shutdowns(signal: ShutdownSignal, calls: nat) -> (Seq<bool>, ShutdownSignal)
    decreases calls,
{
    if calls == 0 {
        (Seq::empty(), signal)
    } else {
        let before = shutdowns(signal, (calls - 1) as nat);
        (before.0.push(shut_down(before.1).1), shut_down(before.1).0)
    }
}

/// Of several calls in a row, only the first returns true, and only where the
/// signal was not set before; behind any of them the signal is set.
pub proof fn the_signal_is_set_once(signal: ShutdownSignal, calls: nat)
    ensures
        shutdowns(signal, calls).0.len() == calls,
        calls > 0 ==> shutdowns(signal, calls).1.signalled,
        forall|i: int|
            0 <= i < calls ==> (#[trigger] shutdowns(signal, calls).0[i] <==> i == 0
                && !signal.signalled),
    decreases calls,
{
    if calls > 0 {
        the_signal_is_set_once(signal, (calls - 1) as nat);
    }
}

} // verus!
