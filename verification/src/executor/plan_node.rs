//! What all plan nodes have in common: they are pulled for tuples.

use crate::buffer_manager::BufferManager;
use crate::tuple::TupleTableSlot;
use vstd::prelude::*;

verus! {

/// A node of a plan. Each call of `exec` hands on the next tuple of the
/// node, or nothing when the node has no more.
pub trait PlanNode {
    /// What the node needs to hold of itself and of the pool to be pulled.
    spec fn node_wf(&self, bufmrg: &BufferManager) -> bool;

    fn exec(&mut self, bufmrg: &mut BufferManager) -> (r: Option<&TupleTableSlot>)
        requires
            old(self).node_wf(old(bufmrg)),
            old(bufmrg).wf(),
        ensures
            final(bufmrg).wf(),
            final(bufmrg).extends(old(bufmrg)),
    ;
}

} // verus!
