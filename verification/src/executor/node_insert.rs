//! The insert node: inserts the tuple of its slot into its relation.

#![allow(non_snake_case)]

use crate::buffer_manager::{spec_heap_insert_block, spec_heap_insert_pages, BufferManager,
    RelFileNode};
use crate::executor::plan_node::PlanNode;
use crate::page::{ITEM_ID_DATA_BYTE_SIZE, MAX_HEAP_TUPLE_SIZE};
use crate::storage_manager::{RelationData, MAX_BLOCKS};
use crate::tuple::TupleTableSlot;
use vstd::prelude::*;

verus! {

/// Inserts the tuple of a slot into a relation.
pub struct InsertState<'a> {
    /// The slot that holds the tuple.
    pub slot: &'a TupleTableSlot,
    /// The relation that the tuple goes to.
    pub ss_currentRelation: RelationData,
}

impl<'a> InsertState<'a> {
    pub fn new(relation: &RelationData, slot: &'a TupleTableSlot) -> (insert: InsertState<'a>)
        ensures
            insert.ss_currentRelation == *relation,
            insert.slot == slot,
    {
        InsertState { ss_currentRelation: *relation, slot: slot }
    }

    /// What the node needs to be pulled: the tuple is one that a page can
    /// hold beside its line pointer, and the relation can still grow by a
    /// block.
    pub open spec fn wf(&self, bm: &BufferManager) -> bool {
        &&& self.slot.heap_tuple.wf()
        &&& 0 < self.slot.bytes().len()
        &&& self.slot.bytes().len() + ITEM_ID_DATA_BYTE_SIZE <= MAX_HEAP_TUPLE_SIZE
        &&& bm.rel_len(self.ss_currentRelation.smgr_rnode) < MAX_BLOCKS
    }

    /// Inserts the tuple of the slot into the relation and hands on the
    /// slot.
    pub fn exec_insert(&mut self, bufmrg: &mut BufferManager) -> (r: Option<&TupleTableSlot>)
        requires
            old(self).wf(old(bufmrg)),
            old(bufmrg).wf(),
        ensures
            final(bufmrg).wf(),
            final(bufmrg).extends(old(bufmrg)),
            *final(self) == *old(self),
            r == Some(old(self).slot),
            final(bufmrg).rel_pages(old(self).ss_currentRelation.smgr_rnode)
                == spec_heap_insert_pages(
                old(bufmrg).rel_pages(old(self).ss_currentRelation.smgr_rnode),
                old(bufmrg).targblock(old(self).ss_currentRelation.smgr_rnode),
                old(self).slot.bytes(),
            ),
            final(bufmrg).targblock(old(self).ss_currentRelation.smgr_rnode)
                == spec_heap_insert_block(
                old(bufmrg).rel_pages(old(self).ss_currentRelation.smgr_rnode),
                old(bufmrg).targblock(old(self).ss_currentRelation.smgr_rnode),
                old(self).slot.bytes(),
            ),
            forall|r: RelFileNode|
                r != old(self).ss_currentRelation.smgr_rnode ==> #[trigger] final(bufmrg).rel_pages(r) == old(bufmrg).rel_pages(r),
            forall|r: RelFileNode|
                r != old(self).ss_currentRelation.smgr_rnode ==> #[trigger] final(bufmrg).targblock(r) == old(bufmrg).targblock(r),
    {
        let relation = self.ss_currentRelation;
        bufmrg.heap_insert(&relation, self.slot);
        Some(self.slot)
    }
}

impl<'a> PlanNode for InsertState<'a> {
    open spec fn node_wf(&self, bufmrg: &BufferManager) -> bool {
        self.wf(bufmrg)
    }

    fn exec(&mut self, bufmrg: &mut BufferManager) -> (r: Option<&TupleTableSlot>)
        ensures
            *final(self) == *old(self),
            r == Some(old(self).slot),
            final(bufmrg).rel_pages(old(self).ss_currentRelation.smgr_rnode)
                == spec_heap_insert_pages(
                old(bufmrg).rel_pages(old(self).ss_currentRelation.smgr_rnode),
                old(bufmrg).targblock(old(self).ss_currentRelation.smgr_rnode),
                old(self).slot.bytes(),
            ),
            final(bufmrg).targblock(old(self).ss_currentRelation.smgr_rnode)
                == spec_heap_insert_block(
                old(bufmrg).rel_pages(old(self).ss_currentRelation.smgr_rnode),
                old(bufmrg).targblock(old(self).ss_currentRelation.smgr_rnode),
                old(self).slot.bytes(),
            ),
            forall|other: RelFileNode|
                other != old(self).ss_currentRelation.smgr_rnode ==> #[trigger] final(bufmrg).rel_pages(other) == old(bufmrg).rel_pages(other),
            forall|other: RelFileNode|
                other != old(self).ss_currentRelation.smgr_rnode ==> #[trigger] final(bufmrg).targblock(other) == old(bufmrg).targblock(other),
    {
        self.exec_insert(bufmrg)
    }
}

} // verus!
