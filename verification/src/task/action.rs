//! What a process does on a signal.
use vstd::prelude::*;
use super::signal::SignalFlags;

verus! {

/// The action of a signal: the address of the handler, 0 for none, and the
/// signals that are blocked while the handler runs.
#[derive(Copy, Clone, PartialEq, Eq, Structural, Debug)]
pub struct SignalAction {
    pub handler: u64,
    pub mask: SignalFlags,
}

impl Default for SignalAction {
    /// No handler; quit and trap are blocked.
    fn default() -> (r: Self)
        ensures
            r.handler == 0,
            r.mask.bits == 40,
    {
        Self { handler: 0, mask: SignalFlags { bits: 40 } }
    }
}

/// The actions of all signals of a process.
#[derive(Clone, Debug)]
pub struct SignalActions {
    pub table: [SignalAction; 32],
}

impl Default for SignalActions {
    /// The default action for every signal.
    fn default() -> (r: Self)
        ensures
            forall|i: int| 0 <= i < 32 ==> r.table@[i].handler == 0 && r.table@[i].mask.bits == 40,
    {
        Self { table: [SignalAction { handler: 0, mask: SignalFlags { bits: 40 } }; 32] }
    }
}

} // verus!
