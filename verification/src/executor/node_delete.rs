//! The delete node: marks the tuples of the scan below it as deleted.

#![allow(non_snake_case)]

use crate::ast::Expr;
use crate::buffer_manager::{spec_heap_delete_page, BufferManager, RelFileNode};
use crate::catalog::mini_attribute::MiniAttributeRecord;
use crate::executor::node_seqscan::{lemma_scan_all_unfold, spec_scan_all, spec_tuple_matches,
    spec_tuple_visible, ScanState};
use crate::executor::plan_node::PlanNode;
use crate::page::{bytes_entry, bytes_item, bytes_item_count, bytes_item_len, lemma_entry_bounds,
    lemma_put_entry, page_bytes_wf};
use crate::storage_manager::RelationData;
use crate::tuple::{lemma_mark_deleted, spec_mark_deleted, TupleTableSlot};
use vstd::prelude::*;

verus! {

/// The pages of a relation after each of the given tuples, one after the
/// other, was marked as deleted.
pub open spec fn spec_delete_each(pages: Seq<Seq<u8>>, tuples: Seq<(int, int)>) -> Seq<Seq<u8>>
    decreases tuples.len(),
{
    if tuples.len() == 0 {
        pages
    } else {
        let before = spec_delete_each(pages, tuples.drop_last());
        let (b, o) = tuples.last();
        before.update(b, spec_heap_delete_page(before[b], o))
    }
}

/// A page on which a tuple was marked as deleted is a well-formed page with
/// the slots it had; the tuple is no longer seen by a scan, and every other
/// tuple is seen, and taken, just as it was.
pub proof fn lemma_delete_page(
    page: Seq<u8>,
    o: int,
    t_len: int,
    attrs: Seq<MiniAttributeRecord>,
    qual: Option<Box<Expr>>,
)
    requires
        page_bytes_wf(page),
        0 <= o < bytes_item_count(page),
        bytes_item_len(page, o) >= 2,
    ensures
        ({
            let after = spec_heap_delete_page(page, o);
            &&& page_bytes_wf(after)
            &&& after.len() == page.len()
            &&& bytes_item_count(after) == bytes_item_count(page)
            &&& !spec_tuple_visible(after, o, t_len)
            &&& forall|i: int|
                0 <= i < bytes_item_count(page) ==> #[trigger] bytes_item(after, i) == bytes_item(
                    page,
                    i,
                )
            &&& forall|i: int|
                0 <= i < bytes_item_count(page) && i != o ==> #[trigger] spec_tuple_matches(
                    after,
                    i,
                    t_len,
                    attrs,
                    qual,
                ) == spec_tuple_matches(page, i, t_len, attrs, qual)
            &&& forall|i: int|
                0 <= i < bytes_item_count(page) && i != o ==> #[trigger] bytes_entry(after, i)
                    == bytes_entry(page, i)
        }),
{
    let entry = bytes_entry(page, o);
    lemma_entry_bounds(page, o);
    lemma_mark_deleted(entry);
    lemma_put_entry(page, o, spec_mark_deleted(entry));
    let after = spec_heap_delete_page(page, o);
    assert forall|i: int| 0 <= i < bytes_item_count(page) && i != o implies #[trigger]
        spec_tuple_matches(after, i, t_len, attrs, qual) == spec_tuple_matches(
        page,
        i,
        t_len,
        attrs,
        qual,
    ) by {
        assert(bytes_item(after, i) == bytes_item(page, i));
        assert(bytes_entry(after, i) == bytes_entry(page, i));
    }
    assert(bytes_item(after, o) == bytes_item(page, o));
    assert forall|i: int| 0 <= i < bytes_item_count(page) && i != o implies #[trigger] bytes_entry(
        after,
        i,
    ) == bytes_entry(page, i) by {
        assert(bytes_item(after, i) == bytes_item(page, i));
    }
}

/// Marking a tuple as deleted does not change what a scan hands on from
/// behind that tuple on.
pub proof fn lemma_delete_keeps_later(
    pages: Seq<Seq<u8>>,
    t_len: int,
    attrs: Seq<MiniAttributeRecord>,
    qual: Option<Box<Expr>>,
    b: int,
    o: int,
    block: int,
    off: int,
    end: int,
)
    requires
        0 <= b < pages.len(),
        end <= pages.len(),
        page_bytes_wf(pages[b]),
        0 <= o < bytes_item_count(pages[b]),
        bytes_item_len(pages[b], o) >= 2,
        0 <= block,
        0 <= off,
        block > b || (block == b && off > o),
    ensures
        spec_scan_all(
            pages.update(b, spec_heap_delete_page(pages[b], o)),
            t_len,
            attrs,
            qual,
            block,
            off,
            end,
        ) == spec_scan_all(pages, t_len, attrs, qual, block, off, end),
    decreases end - block, bytes_item_count(pages[block]) - off,
{
    let after = pages.update(b, spec_heap_delete_page(pages[b], o));
    lemma_delete_page(pages[b], o, t_len, attrs, qual);
    if block >= end {
    } else if off >= bytes_item_count(pages[block]) {
        lemma_delete_keeps_later(pages, t_len, attrs, qual, b, o, block + 1, 0, end);
    } else {
        lemma_delete_keeps_later(pages, t_len, attrs, qual, b, o, block, off + 1, end);
    }
}

/// One step of deleting what a scan hands on: the tuple that the scan
/// hands on next is the first of those it has yet to hand on, it can be
/// marked as deleted, and once it is, the scan has the others yet to hand
/// on.
pub proof fn lemma_delete_step(
    pages0: Seq<Seq<u8>>,
    all: Seq<(int, int)>,
    k: int,
    pages: Seq<Seq<u8>>,
    t_len: int,
    attrs: Seq<MiniAttributeRecord>,
    qual: Option<Box<Expr>>,
    block: int,
    off: int,
    end: int,
    b: int,
    o: int,
)
    requires
        0 <= k <= all.len(),
        pages == spec_delete_each(pages0, all.subrange(0, k)),
        all.subrange(k, all.len() as int) == spec_scan_all(
            pages,
            t_len,
            attrs,
            qual,
            block,
            off,
            end,
        ),
        crate::executor::node_seqscan::spec_next_match(pages, t_len, attrs, qual, block, off, end)
            == Some((b, o)),
        0 <= block,
        0 <= off,
        end <= pages.len(),
        t_len >= 2,
        forall|i: int| 0 <= i < end ==> page_bytes_wf(#[trigger] pages[i]),
    ensures
        k < all.len(),
        all[k] == (b, o),
        0 <= b < end,
        0 <= o < bytes_item_count(pages[b]),
        bytes_item_len(pages[b], o) >= 2,
        spec_scan_all(
            pages.update(b, spec_heap_delete_page(pages[b], o)),
            t_len,
            attrs,
            qual,
            b,
            o + 1,
            end,
        ) == all.subrange(k + 1, all.len() as int),
        pages.update(b, spec_heap_delete_page(pages[b], o)) == spec_delete_each(
            pages0,
            all.subrange(0, k + 1),
        ),
        bytes_item_count(spec_heap_delete_page(pages[b], o)) == bytes_item_count(pages[b]),
{
    lemma_scan_all_unfold(pages, t_len, attrs, qual, block, off, end);
    let rest = all.subrange(k, all.len() as int);
    let later = spec_scan_all(pages, t_len, attrs, qual, b, o + 1, end);
    assert(rest == seq![(b, o)] + later);
    assert(rest.len() >= 1);
    assert(rest[0] == all[k]);
    assert(rest[0] == (b, o));
    assert(page_bytes_wf(pages[b]));
    lemma_delete_page(pages[b], o, t_len, attrs, qual);
    lemma_delete_keeps_later(pages, t_len, attrs, qual, b, o, b, o + 1, end);
    assert(all.subrange(k + 1, all.len() as int) =~= later) by {
        assert forall|i: int| 0 <= i < later.len() implies all.subrange(
            k + 1,
            all.len() as int,
        )[i] == later[i] by {
            assert(rest[i + 1] == later[i]);
        }
    }
    let upto = all.subrange(0, k + 1);
    assert(upto.drop_last() == all.subrange(0, k));
    assert(upto.last() == (b, o));
}

/// Marks the tuples that the scan below it hands on as deleted, and counts
/// them.
pub struct DeleteState<'a> {
    /// The relation whose tuples are deleted.
    pub currentRelation: RelationData,
    pub lefttree: ScanState<'a>,
    /// The number of tuples deleted so far.
    pub count: u64,
}

impl<'a> DeleteState<'a> {
    pub fn new(relation: &RelationData, lefttree: ScanState<'a>) -> (delete: DeleteState<'a>)
        ensures
            delete.currentRelation == *relation,
            delete.lefttree == lefttree,
            delete.count == 0,
    {
        DeleteState { currentRelation: *relation, lefttree: lefttree, count: 0 }
    }

    /// The tuples that the scan below has yet to hand on.
    pub open spec fn remaining(&self, bufmrg: &BufferManager) -> Seq<(int, int)> {
        if self.lefttree.ss_currentScanDesc.rs_finished {
            Seq::<(int, int)>::empty()
        } else {
            spec_scan_all(
                bufmrg.rel_pages(self.lefttree.rnode()),
                self.lefttree.t_len(),
                self.lefttree.attrs(),
                *self.lefttree.qual,
                self.lefttree.next_block(),
                self.lefttree.next_off(),
                self.lefttree.scan_end(),
            )
        }
    }

    /// The invariant of the node over the pool `bm`.
    pub open spec fn wf(&self, bm: &BufferManager) -> bool {
        &&& self.lefttree.wf(bm)
        &&& self.currentRelation == self.lefttree.ss_currentRelation
        &&& self.count + self.remaining(bm).len() <= u64::MAX
    }

    /// Pulls the scan below to its end and marks each tuple that it hands on
    /// as deleted, in the order in which they come; adds their number to
    /// `count`. Nothing else changes in any relation. Hands on no tuple
    /// itself.
    pub fn exec_delete(&mut self, bufmrg: &mut BufferManager) -> (r: Option<&TupleTableSlot>)
        requires
            old(self).wf(old(bufmrg)),
            old(bufmrg).wf(),
        ensures
            final(bufmrg).wf(),
            final(bufmrg).extends(old(bufmrg)),
            final(bufmrg).same_files(old(bufmrg)),
            final(self).lefttree.wf(final(bufmrg)),
            final(self).lefttree.ss_currentScanDesc.rs_finished,
            r is None,
            final(self).count == old(self).count + old(self).remaining(old(bufmrg)).len(),
            final(bufmrg).rel_pages(old(self).lefttree.rnode()) == spec_delete_each(
                old(bufmrg).rel_pages(old(self).lefttree.rnode()),
                old(self).remaining(old(bufmrg)),
            ),
            forall|r: RelFileNode|
                r != old(self).lefttree.rnode() ==> #[trigger] final(bufmrg).rel_pages(r) == old(
                    bufmrg,
                ).rel_pages(r),
    {
        let ghost rnode = self.lefttree.rnode();
        let ghost pages0 = bufmrg.rel_pages(rnode);
        let ghost all = self.remaining(bufmrg);
        let ghost t_len = self.lefttree.t_len();
        let ghost attrs = self.lefttree.attrs();
        let ghost qual = *self.lefttree.qual;
        let ghost end = self.lefttree.scan_end();
        let ghost mut k: int = 0;
        proof {
            bufmrg.lemma_targblock(rnode);
            assert forall|b: int| 0 <= b < end implies 0 <= bytes_item_count(#[trigger] pages0[b])
                <= 2047 by {
                bufmrg.lemma_page_bytes(rnode, b);
            }
            assert(all.subrange(0, 0) == Seq::<(int, int)>::empty());
            assert(all.subrange(0, all.len() as int) == all);
        }
        loop
            invariant
                bufmrg.wf(),
                old(bufmrg).wf(),
                bufmrg.extends(old(bufmrg)),
                bufmrg.same_files(old(bufmrg)),
                self.lefttree.wf(bufmrg),
                self.currentRelation == self.lefttree.ss_currentRelation,
                rnode == self.lefttree.rnode(),
                rnode == old(self).lefttree.rnode(),
                t_len == self.lefttree.t_len(),
                attrs == self.lefttree.attrs(),
                qual == *self.lefttree.qual,
                end == self.lefttree.scan_end(),
                pages0 == old(bufmrg).rel_pages(rnode),
                all == old(self).remaining(old(bufmrg)),
                old(self).count + all.len() <= u64::MAX,
                0 <= k <= all.len(),
                self.count == old(self).count + k,
                self.remaining(bufmrg) == all.subrange(k, all.len() as int),
                bufmrg.rel_pages(rnode) == spec_delete_each(pages0, all.subrange(0, k)),
                forall|r: RelFileNode|
                    r != rnode ==> #[trigger] bufmrg.rel_pages(r) == old(bufmrg).rel_pages(r),
            decreases
                    all.len() - k,
                    (if self.lefttree.ss_currentScanDesc.rs_finished {
                        0int
                    } else {
                        1int
                    }),
        {
            let ghost before_bm = *bufmrg;
            let ghost pages = bufmrg.rel_pages(rnode);
            let ghost block = self.lefttree.next_block();
            let ghost off = self.lefttree.next_off();
            let ghost was_finished = self.lefttree.ss_currentScanDesc.rs_finished;
            let opt = self.lefttree.exec_scan(bufmrg);
            let ghost scanned_bm = *bufmrg;
            proof {
                scanned_bm.lemma_same_rel_pages(&before_bm, rnode);
                before_bm.lemma_targblock(rnode);
                scanned_bm.lemma_frames_compose(&before_bm, old(bufmrg));
                assert forall|r: RelFileNode| r != rnode implies #[trigger] scanned_bm.rel_pages(r)
                    == old(bufmrg).rel_pages(r) by {
                    scanned_bm.lemma_same_rel_pages(&before_bm, r);
                    assert(before_bm.rel_pages(r) == old(bufmrg).rel_pages(r));
                }
            }
            match opt {
                Some(slot) => {
                    let tid = *slot.tid();
                    let relation = self.currentRelation;
                    proof {
                        assert forall|i: int| 0 <= i < end implies page_bytes_wf(
                            #[trigger] pages[i],
                        ) by {
                            before_bm.lemma_page_bytes(rnode, i);
                        }
                        crate::tuple::lemma_attrs_len_monotone(attrs, 0, attrs.len() as int);
                        lemma_scan_all_unfold(pages, t_len, attrs, qual, block, off, end);
                        assert(crate::executor::node_seqscan::spec_next_match(
                            pages,
                            t_len,
                            attrs,
                            qual,
                            block,
                            off,
                            end,
                        ) == Some((tid.ip_blkid as int, tid.ip_posid as int)));
                        lemma_delete_step(
                            pages0,
                            all,
                            k,
                            pages,
                            t_len,
                            attrs,
                            qual,
                            block,
                            off,
                            end,
                            tid.ip_blkid as int,
                            tid.ip_posid as int,
                        );
                    }
                    bufmrg.heap_delete(&relation, &tid);
                    self.count = self.count + 1;
                    proof {
                        self.lefttree.lemma_wf_extends(&scanned_bm, bufmrg);
                        bufmrg.lemma_frames_compose(&scanned_bm, old(bufmrg));
                        assert forall|r: RelFileNode| r != rnode implies #[trigger]
                            bufmrg.rel_pages(r) == old(bufmrg).rel_pages(r) by {
                            assert(scanned_bm.rel_pages(r) == old(bufmrg).rel_pages(r));
                        }
                        k = k + 1;
                    }
                },
                None => {
                    proof {
                        if !was_finished {
                            lemma_scan_all_unfold(pages, t_len, attrs, qual, block, off, end);
                        }
                        assert(all.subrange(k, all.len() as int).len() == 0);
                        assert(all.subrange(0, k) == all);
                    }
                    return None;
                },
            }
        }
    }
}

impl<'a> PlanNode for DeleteState<'a> {
    open spec fn node_wf(&self, bufmrg: &BufferManager) -> bool {
        self.wf(bufmrg)
    }

    fn exec(&mut self, bufmrg: &mut BufferManager) -> (r: Option<&TupleTableSlot>)
        ensures
            final(bufmrg).same_files(old(bufmrg)),
            final(self).lefttree.wf(final(bufmrg)),
            final(self).lefttree.ss_currentScanDesc.rs_finished,
            r is None,
            final(self).count == old(self).count + old(self).remaining(old(bufmrg)).len(),
            final(bufmrg).rel_pages(old(self).lefttree.rnode()) == spec_delete_each(
                old(bufmrg).rel_pages(old(self).lefttree.rnode()),
                old(self).remaining(old(bufmrg)),
            ),
            forall|r: RelFileNode|
                r != old(self).lefttree.rnode() ==> #[trigger] final(bufmrg).rel_pages(r) == old(
                    bufmrg,
                ).rel_pages(r),
    {
        self.exec_delete(bufmrg)
    }
}

} // verus!
