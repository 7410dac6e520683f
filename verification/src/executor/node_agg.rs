//! The count aggregate: counts the tuples of the scan below it.

use crate::buffer_manager::{BufferManager, RelFileNode};
use crate::executor::node_seqscan::{lemma_scan_all_unfold, spec_scan_all, ScanState};
use crate::executor::plan_node::PlanNode;
use crate::page::bytes_item_count;
use crate::tuple::TupleTableSlot;
use vstd::prelude::*;

verus! {

/// The most slots that a page of the default size has.
pub const MAX_ITEMS_PER_PAGE: u64 = 2047;

/// A scan hands on no more tuples than the pages it looks at have slots.
pub proof fn lemma_scan_all_bound(
    pages: Seq<Seq<u8>>,
    t_len: int,
    attrs: Seq<crate::catalog::mini_attribute::MiniAttributeRecord>,
    qual: Option<Box<crate::ast::Expr>>,
    block: int,
    off: int,
    end: int,
)
    requires
        0 <= block,
        0 <= off,
        block < end ==> off <= bytes_item_count(pages[block]),
        forall|b: int| block <= b < end ==> 0 <= bytes_item_count(#[trigger] pages[b]) <= 2047,
    ensures
        block >= end ==> spec_scan_all(pages, t_len, attrs, qual, block, off, end).len() == 0,
        block < end ==> spec_scan_all(pages, t_len, attrs, qual, block, off, end).len() <= (end
            - block) * 2047 - off,
    decreases end - block, bytes_item_count(pages[block]) - off,
{
    if block >= end {
    } else if off >= bytes_item_count(pages[block]) {
        lemma_scan_all_bound(pages, t_len, attrs, qual, block + 1, 0, end);
        assert((end - block) * 2047 == (end - block - 1) * 2047 + 2047) by (nonlinear_arith);
    } else {
        lemma_scan_all_bound(pages, t_len, attrs, qual, block, off + 1, end);
    }
}

/// What a scan has yet to hand on is less than a counter can count.
pub proof fn lemma_scan_rest_bound(scan: &ScanState, bufmrg: &BufferManager)
    requires
        scan.wf(bufmrg),
        bufmrg.wf(),
        !scan.ss_currentScanDesc.rs_finished,
    ensures
        spec_scan_all(
            bufmrg.rel_pages(scan.rnode()),
            scan.t_len(),
            scan.attrs(),
            *scan.qual,
            scan.next_block(),
            scan.next_off(),
            scan.scan_end(),
        ).len() <= 0x7FFFF * 2047,
{
    let rnode = scan.rnode();
    let pages = bufmrg.rel_pages(rnode);
    let all = spec_scan_all(
        pages,
        scan.t_len(),
        scan.attrs(),
        *scan.qual,
        scan.next_block(),
        scan.next_off(),
        scan.scan_end(),
    );
    bufmrg.lemma_targblock(rnode);
    assert forall|b: int| 0 <= b < scan.scan_end() implies 0 <= bytes_item_count(
        #[trigger] pages[b],
    ) <= 2047 by {
        bufmrg.lemma_page_bytes(rnode, b);
    }
    if scan.ss_currentScanDesc.rs_inited {
        bufmrg.lemma_page_bytes(rnode, scan.next_block());
    }
    lemma_scan_all_bound(
        pages,
        scan.t_len(),
        scan.attrs(),
        *scan.qual,
        scan.next_block(),
        scan.next_off(),
        scan.scan_end(),
    );
    assert(all.len() <= 0x7FFFF * 2047) by (nonlinear_arith)
        requires
            all.len() <= (scan.scan_end() - scan.next_block()) * 2047 - scan.next_off(),
            0 <= scan.next_block(),
            0 <= scan.next_off(),
            scan.scan_end() <= 0x7FFFF,
    ;
}

/// Counts the tuples that the scan below it hands on.
pub struct CountState<'a> {
    pub lefttree: ScanState<'a>,
    /// The number of tuples counted so far.
    pub result: u64,
}

impl<'a> CountState<'a> {
    pub fn new(lefttree: ScanState<'a>) -> (count: CountState<'a>)
        ensures
            count.lefttree == lefttree,
            count.result == 0,
    {
        CountState { lefttree: lefttree, result: 0 }
    }

    /// The tuples that the scan below has yet to hand on.
    pub open spec fn remaining(&self, bufmrg: &BufferManager) -> Seq<(int, int)> {
        if self.lefttree.ss_currentScanDesc.rs_finished {
            Seq::<(int, int)>::empty()
        } else {
            spec_scan_all(
                bufmrg.rel_pages(self.lefttree.rnode()),
                self.lefttree.t_len(),
                self.lefttree.attrs(),
                *self.lefttree.qual,
                self.lefttree.next_block(),
                self.lefttree.next_off(),
                self.lefttree.scan_end(),
            )
        }
    }

    /// Pulls the scan below to its end and adds the number of tuples that
    /// it hands on to `result`. Hands on no tuple itself. The sum has to fit
    /// the counter.
    pub fn exec_agg(&mut self, bufmrg: &mut BufferManager) -> (r: Option<&TupleTableSlot>)
        requires
            old(self).lefttree.wf(old(bufmrg)),
            old(bufmrg).wf(),
            old(self).result + old(self).remaining(old(bufmrg)).len() <= u64::MAX,
        ensures
            final(bufmrg).wf(),
            final(bufmrg).extends(old(bufmrg)),
            final(bufmrg).same_pages(old(bufmrg)),
            final(bufmrg).same_files(old(bufmrg)),
            final(self).lefttree.wf(final(bufmrg)),
            final(self).lefttree.ss_currentScanDesc.rs_finished,
            r is None,
            final(self).result == old(self).result + old(self).remaining(old(bufmrg)).len(),
    {
        let ghost rnode = self.lefttree.rnode();
        let ghost pages = bufmrg.rel_pages(rnode);
        let ghost all = self.remaining(bufmrg);
        loop
            invariant
                bufmrg.wf(),
                old(bufmrg).wf(),
                bufmrg.extends(old(bufmrg)),
                bufmrg.same_pages(old(bufmrg)),
                bufmrg.same_files(old(bufmrg)),
                self.lefttree.wf(bufmrg),
                rnode == self.lefttree.rnode(),
                pages == bufmrg.rel_pages(rnode),
                all == old(self).remaining(old(bufmrg)),
                old(self).result + all.len() <= u64::MAX,
                self.result + self.remaining(bufmrg).len() == old(self).result + all.len(),
            decreases self.remaining(bufmrg).len(), (if self.lefttree.ss_currentScanDesc.rs_finished { 0int } else { 1int }),
        {
            let ghost before_bm = *bufmrg;
            proof {
                if !self.lefttree.ss_currentScanDesc.rs_finished {
                    lemma_scan_all_unfold(
                        pages,
                        self.lefttree.t_len(),
                        self.lefttree.attrs(),
                        *self.lefttree.qual,
                        self.lefttree.next_block(),
                        self.lefttree.next_off(),
                        self.lefttree.scan_end(),
                    );
                }
            }
            let opt = self.lefttree.exec_scan(bufmrg);
            proof {
                bufmrg.lemma_same_rel_pages(&before_bm, rnode);
                bufmrg.lemma_frames_compose(&before_bm, old(bufmrg));
            }
            match opt {
                Some(_slot) => {
                    self.result = self.result + 1;
                },
                None => {
                    return None;
                },
            }
        }
    }
}

impl<'a> PlanNode for CountState<'a> {
    open spec fn node_wf(&self, bufmrg: &BufferManager) -> bool {
        self.lefttree.wf(bufmrg) && self.result + self.remaining(bufmrg).len() <= u64::MAX
    }

    fn exec(&mut self, bufmrg: &mut BufferManager) -> (r: Option<&TupleTableSlot>)
        ensures
            final(bufmrg).same_pages(old(bufmrg)),
            final(bufmrg).same_files(old(bufmrg)),
            final(self).lefttree.wf(final(bufmrg)),
            final(self).lefttree.ss_currentScanDesc.rs_finished,
            r is None,
            final(self).result == old(self).result + old(self).remaining(old(bufmrg)).len(),
    {
        self.exec_agg(bufmrg)
    }
}

} // verus!
