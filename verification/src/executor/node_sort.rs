//! The sort node: takes in all tuples of the scan below it, puts them in
//! the order of one column, and hands them on one by one.
//!
//! The order is that of the column's values as texts, ascending; tuples
//! with the same value stay in the order in which the scan handed them on.

#![allow(non_snake_case)]

use crate::buffer_manager::BufferManager;
use crate::catalog::mini_attribute::MiniAttributeRecord;
use crate::executor::node_seqscan::{spec_scan_all, ScanState};
use crate::executor::plan_node::PlanNode;
use crate::page::bytes_entry;
use crate::text::{lemma_text_order_flip, lemma_text_order_trans, spec_decimal_int, spec_text_order,
    spec_views, text_order, to_chars};
use crate::tuple::{spec_column, spec_index_from_name, ItemPointerData, TupleTableSlot};
use crate::ty::TypeValue;
use vstd::prelude::*;

verus! {

/// Whether the item `a` comes before the item `b` when items are put in the
/// order of their keys: its key comes first, or the keys are equal and `a`
/// came first.
pub open spec fn spec_key_before(keys: Seq<Seq<char>>, a: int, b: int) -> bool {
    spec_text_order(keys[a], keys[b]) < 0 || (spec_text_order(keys[a], keys[b]) == 0 && a < b)
}

/// Whether `order` lists the first `n` items in the order of their keys,
/// items with equal keys in the order in which they came.
pub open spec fn spec_sorted_prefix(keys: Seq<Seq<char>>, order: Seq<int>, n: int) -> bool {
    &&& order.len() == n
    &&& forall|i: int| 0 <= i < n ==> 0 <= #[trigger] order[i] < n
    &&& forall|i: int, j: int|
        0 <= i < j < n ==> spec_key_before(keys, #[trigger] order[i], #[trigger] order[j])
}

/// Whether `order` lists all items in the order of their keys, items with
/// equal keys in the order in which they came. No item is listed twice:
/// of two places in the list the first holds the item that comes before.
pub open spec fn spec_sorted_order(keys: Seq<Seq<char>>, order: Seq<int>) -> bool {
    spec_sorted_prefix(keys, order, keys.len() as int)
}

/// The indexes of a vector as numbers.
pub open spec fn spec_indexes(order: Seq<usize>) -> Seq<int> {
    order.map_values(|i: usize| i as int)
}

/// Putting a new item behind the items that do not come after it keeps a
/// list in order.
proof fn lemma_insert_keeps_order(keys: Seq<Seq<char>>, order: Seq<int>, n: int, j: int)
    requires
        spec_sorted_prefix(keys, order, n),
        0 <= j <= n,
        n < keys.len(),
        forall|m: int| 0 <= m < j ==> spec_text_order(keys[#[trigger] order[m]], keys[n]) <= 0,
        j < n ==> spec_text_order(keys[order[j]], keys[n]) > 0,
    ensures
        spec_sorted_prefix(keys, order.insert(j, n), n + 1),
{
    let after = order.insert(j, n);
    assert forall|a: int, b: int| 0 <= a < b < n + 1 implies spec_key_before(
        keys,
        #[trigger] after[a],
        #[trigger] after[b],
    ) by {
        if b < j {
            assert(after[a] == order[a] && after[b] == order[b]);
        } else if b == j {
            assert(after[a] == order[a]);
        } else if a < j {
            assert(after[a] == order[a] && after[b] == order[b - 1]);
        } else if a == j {
            assert(after[b] == order[b - 1]);
            let first = order[j];
            let other = order[b - 1];
            lemma_text_order_flip(keys[first], keys[n], 0);
            if b - 1 > j {
                assert(spec_key_before(keys, first, other));
                lemma_text_order_trans(keys[n], keys[first], keys[other], 0);
            }
        } else {
            assert(after[a] == order[a - 1] && after[b] == order[b - 1]);
        }
    }
    assert forall|i: int| 0 <= i < n + 1 implies 0 <= #[trigger] after[i] < n + 1 by {
        if i < j {
            assert(after[i] == order[i]);
        } else if i > j {
            assert(after[i] == order[i - 1]);
        }
    }
}

/// The order in which a stable sort by key puts items with the given keys:
/// at each place the index of the item that goes there.
pub fn sort_order(keys: &Vec<Vec<char>>) -> (order: Vec<usize>)
    ensures
        spec_sorted_order(spec_views(keys@), spec_indexes(order@)),
{
    let ghost ks = spec_views(keys@);
    let mut order: Vec<usize> = Vec::new();
    let mut n: usize = 0;
    while n < keys.len()
        invariant
            n <= keys.len(),
            ks == spec_views(keys@),
            ks.len() == keys@.len(),
            spec_sorted_prefix(ks, spec_indexes(order@), n as int),
        decreases keys.len() - n,
    {
        let ghost before = spec_indexes(order@);
        assert forall|m: int| 0 <= m < n implies #[trigger] order@[m] < n by {
            assert(before[m] == order@[m]);
        }
        let mut j: usize = 0;
        while j < n && text_order(&keys[order[j]], &keys[n]) <= 0
            invariant
                j <= n < keys.len(),
                ks == spec_views(keys@),
                ks.len() == keys@.len(),
                before == spec_indexes(order@),
                spec_sorted_prefix(ks, before, n as int),
                order@.len() == n,
                forall|m: int| 0 <= m < n ==> #[trigger] order@[m] < n,
                forall|m: int| 0 <= m < j ==> spec_text_order(ks[#[trigger] before[m]], ks[n as int])
                    <= 0,
            decreases n - j,
        {
            assert(before[j as int] == order@[j as int]);
            assert(ks[order@[j as int] as int] == keys@[order@[j as int] as int]@);
            assert(ks[n as int] == keys@[n as int]@);
            j += 1;
        }
        proof {
            if j < n {
                assert(before[j as int] == order@[j as int]);
                assert(ks[order@[j as int] as int] == keys@[order@[j as int] as int]@);
                assert(ks[n as int] == keys@[n as int]@);
            }
            lemma_insert_keeps_order(ks, before, n as int, j as int);
        }
        order.insert(j, n);
        assert(spec_indexes(order@) =~= before.insert(j as int, n as int));
        n += 1;
    }
    order
}

/// The key of a tuple with the given columns and bytes when tuples are put
/// in the order of the column `target`: the value of that column as text.
pub open spec fn spec_sort_key(
    attrs: Seq<MiniAttributeRecord>,
    bytes: Seq<u8>,
    target: Seq<char>,
) -> Seq<char> {
    spec_decimal_int(
        spec_column(attrs, bytes, spec_index_from_name(attrs, target, attrs.len() as int)->0),
    )
}

/// The keys of the tuples of slots.
pub open spec fn spec_slot_keys(slots: Seq<TupleTableSlot>, target: Seq<char>) -> Seq<Seq<char>> {
    Seq::new(slots.len(), |i: int| spec_sort_key(slots[i].attrs(), slots[i].bytes(), target))
}

/// Whether two slots hold the same tuple: the same columns, the same bytes
/// and the same identity.
pub open spec fn spec_same_tuple(a: TupleTableSlot, b: TupleTableSlot) -> bool {
    &&& a.attrs() == b.attrs()
    &&& a.bytes() == b.bytes()
    &&& a.heap_tuple.t_self == b.heap_tuple.t_self
    &&& a.heap_tuple.t_len == b.heap_tuple.t_len
}

/// Takes in the tuples of the scan below it and hands them on in the order
/// of one column.
pub struct SortState<'a> {
    pub lefttree: ScanState<'a>,
    /// Whether the tuples were taken in and put in order.
    pub sort_Done: bool,
    /// The tuples, in order once `sort_Done` holds.
    pub memtuples: Vec<TupleTableSlot>,
    /// The index of the tuple to hand on next.
    pub current: usize,
    /// The name of the column whose values give the order.
    pub target_col_name: String,
}

impl<'a> SortState<'a> {
    pub fn new(ss: ScanState<'a>, target_col_name: String) -> (sort: SortState<'a>)
        ensures
            sort.lefttree == ss,
            !sort.sort_Done,
            sort.memtuples@.len() == 0,
            sort.current == 0,
            sort.target_col_name == target_col_name,
    {
        SortState {
            lefttree: ss,
            sort_Done: false,
            memtuples: Vec::new(),
            current: 0,
            target_col_name: target_col_name,
        }
    }

    /// Whether the tuples taken in can be put in order: each is sound and
    /// has the column that gives the order.
    pub open spec fn sortable(&self) -> bool {
        forall|i: int|
            0 <= i < self.memtuples@.len() ==> (#[trigger] self.memtuples@[i]).wf()
                && spec_index_from_name(
                self.memtuples@[i].attrs(),
                self.target_col_name@,
                self.memtuples@[i].attrs().len() as int,
            ) is Some
    }

    /// The invariant of the node over the pool `bm`.
    pub open spec fn wf(&self, bm: &BufferManager) -> bool {
        &&& self.lefttree.wf(bm)
        &&& spec_index_from_name(
            self.lefttree.attrs(),
            self.target_col_name@,
            self.lefttree.attrs().len() as int,
        ) is Some
        &&& self.sortable()
        &&& self.current <= self.memtuples@.len()
        &&& !self.sort_Done ==> self.memtuples@.len() == 0
    }

    /// Puts the tuples taken in into the order of the column that gives the
    /// order: ascending by the value of that column as text, tuples with the
    /// same value in the order in which they were.
    pub fn tuplesort_performsort(&mut self)
        requires
            old(self).sortable(),
        ensures
            final(self).sortable(),
            final(self).lefttree == old(self).lefttree,
            final(self).sort_Done == old(self).sort_Done,
            final(self).current == old(self).current,
            final(self).target_col_name == old(self).target_col_name,
            final(self).memtuples@.len() == old(self).memtuples@.len(),
            exists|order: Seq<int>|
                {
                    &&& spec_sorted_order(
                        spec_slot_keys(old(self).memtuples@, old(self).target_col_name@),
                        order,
                    )
                    &&& forall|i: int|
                        0 <= i < order.len() ==> spec_same_tuple(
                            #[trigger] final(self).memtuples@[i],
                            old(self).memtuples@[order[i]],
                        )
                },
    {
        let ghost target = self.target_col_name@;
        let ghost slots = self.memtuples@;
        let mut keys: Vec<Vec<char>> = Vec::new();
        let mut i: usize = 0;
        while i < self.memtuples.len()
            invariant
                i <= self.memtuples@.len(),
                self.sortable(),
                *self == *old(self),
                slots == self.memtuples@,
                target == self.target_col_name@,
                keys@.len() == i,
                forall|m: int|
                    0 <= m < i ==> (#[trigger] keys@[m])@ == spec_sort_key(
                        slots[m].attrs(),
                        slots[m].bytes(),
                        target,
                    ),
            decreases self.memtuples@.len() - i,
        {
            let slot = &self.memtuples[i];
            assert(slot.wf());
            let index = slot.get_index_from_name(self.target_col_name.as_str());
            let col = slot.get_column(index);
            keys.push(to_chars(col.as_string().as_str()));
            i += 1;
        }
        let order = sort_order(&keys);
        let ghost key_views = spec_slot_keys(slots, target);
        assert(spec_views(keys@) =~= key_views);
        let ghost ord = spec_indexes(order@);
        let mut sorted: Vec<TupleTableSlot> = Vec::new();
        let mut m: usize = 0;
        while m < order.len()
            invariant
                m <= order@.len(),
                order@.len() == slots.len(),
                ord == spec_indexes(order@),
                spec_sorted_order(key_views, ord),
                key_views.len() == slots.len(),
                *self == *old(self),
                slots == self.memtuples@,
                target == self.target_col_name@,
                self.sortable(),
                sorted@.len() == m,
                forall|i: int|
                    0 <= i < m ==> spec_same_tuple(#[trigger] sorted@[i], slots[ord[i]])
                        && sorted@[i].wf(),
            decreases order@.len() - m,
        {
            assert(0 <= ord[m as int] < slots.len());
            assert(ord[m as int] == order@[m as int]);
            let slot = &self.memtuples[order[m]];
            assert(slot.wf());
            sorted.push(slot.clone());
            m += 1;
        }
        self.memtuples = sorted;
        proof {
            assert forall|i: int| 0 <= i < ord.len() implies spec_same_tuple(
                #[trigger] self.memtuples@[i],
                slots[ord[i]],
            ) by {}
            assert forall|i: int| 0 <= i < self.memtuples@.len() implies (
            #[trigger] self.memtuples@[i]).wf() && spec_index_from_name(
                self.memtuples@[i].attrs(),
                self.target_col_name@,
                self.memtuples@[i].attrs().len() as int,
            ) is Some by {
                assert(spec_same_tuple(self.memtuples@[i], slots[ord[i]]));
                assert(slots[ord[i]].wf());
            }
        }
    }

    /// The tuples that the scan below has yet to hand on.
    pub open spec fn remaining(&self, bufmrg: &BufferManager) -> Seq<(int, int)> {
        if self.lefttree.ss_currentScanDesc.rs_finished {
            Seq::<(int, int)>::empty()
        } else {
            spec_scan_all(
                bufmrg.rel_pages(self.lefttree.rnode()),
                self.lefttree.t_len(),
                self.lefttree.attrs(),
                *self.lefttree.qual,
                self.lefttree.next_block(),
                self.lefttree.next_off(),
                self.lefttree.scan_end(),
            )
        }
    }

    /// Hands on the next tuple in the order of the column that gives the
    /// order. The first call takes in all tuples that the scan below hands
    /// on and puts them in order.
    pub fn exec_sort(&mut self, bufmrg: &mut BufferManager) -> (r: Option<&TupleTableSlot>)
        requires
            old(self).wf(old(bufmrg)),
            old(bufmrg).wf(),
        ensures
            final(bufmrg).wf(),
            final(bufmrg).extends(old(bufmrg)),
            final(bufmrg).same_pages(old(bufmrg)),
            final(bufmrg).same_files(old(bufmrg)),
            final(self).wf(final(bufmrg)),
            final(self).sort_Done,
            final(self).target_col_name == old(self).target_col_name,
            final(self).lefttree.attrs() == old(self).lefttree.attrs(),
            old(self).sort_Done ==> final(self).memtuples@ == old(self).memtuples@,
            !old(self).sort_Done ==> exists|order: Seq<int>| #[trigger]
                spec_holds_in_order(
                    final(self).memtuples@,
                    old(bufmrg).rel_pages(old(self).lefttree.rnode()),
                    old(self).remaining(old(bufmrg)),
                    old(self).lefttree.attrs(),
                    old(self).target_col_name@,
                    order,
                ),
            old(self).current < final(self).memtuples@.len() ==> r == Some(
                &final(self).memtuples@[old(self).current as int],
            ) && final(self).current == old(self).current + 1,
            old(self).current >= final(self).memtuples@.len() ==> r is None && final(self).current
                == old(self).current,
            r matches Some(slot) ==> slot.wf(),
    {
        if !self.sort_Done {
            self.take_in(bufmrg);
            let ghost taken = self.memtuples@;
            let ghost target = self.target_col_name@;
            self.tuplesort_performsort();
            self.sort_Done = true;
            proof {
                let pages = old(bufmrg).rel_pages(old(self).lefttree.rnode());
                let all = old(self).remaining(old(bufmrg));
                let attrs = old(self).lefttree.attrs();
                let order = choose|order: Seq<int>|
                    {
                        &&& spec_sorted_order(spec_slot_keys(taken, target), order)
                        &&& forall|i: int|
                            0 <= i < order.len() ==> spec_same_tuple(
                                #[trigger] self.memtuples@[i],
                                taken[order[i]],
                            )
                    };
                assert(spec_slot_keys(taken, target) =~= spec_entry_keys(pages, all, attrs, target));
                assert forall|i: int| 0 <= i < all.len() implies {
                    let slot = #[trigger] self.memtuples@[i];
                    &&& slot.attrs() == attrs
                    &&& slot.bytes() == bytes_entry(pages[all[order[i]].0], all[order[i]].1)
                    &&& slot.heap_tuple.t_self == (ItemPointerData {
                        ip_blkid: all[order[i]].0 as u32,
                        ip_posid: all[order[i]].1 as u16,
                    })
                } by {
                    assert(spec_same_tuple(self.memtuples@[i], taken[order[i]]));
                    assert(0 <= order[i] < all.len());
                }
                assert(spec_holds_in_order(self.memtuples@, pages, all, attrs, target, order));
            }
        }
        if self.current < self.memtuples.len() {
            assert(self.memtuples@[self.current as int].wf());
            let slot = &self.memtuples[self.current];
            self.current = self.current + 1;
            return Some(slot);
        }
        return None;
    }

    /// Takes in all tuples that the scan below hands on, in the order in
    /// which they come.
    fn take_in(&mut self, bufmrg: &mut BufferManager)
        requires
            old(self).wf(old(bufmrg)),
            old(bufmrg).wf(),
            !old(self).sort_Done,
        ensures
            final(bufmrg).wf(),
            final(bufmrg).extends(old(bufmrg)),
            final(bufmrg).same_pages(old(bufmrg)),
            final(bufmrg).same_files(old(bufmrg)),
            final(self).lefttree.wf(final(bufmrg)),
            final(self).sortable(),
            !final(self).sort_Done,
            final(self).current == old(self).current,
            final(self).target_col_name == old(self).target_col_name,
            final(self).lefttree.attrs() == old(self).lefttree.attrs(),
            final(self).lefttree.ss_currentScanDesc.rs_finished,
            final(self).memtuples@.len() == old(self).remaining(old(bufmrg)).len(),
            forall|i: int|
                0 <= i < final(self).memtuples@.len() ==> {
                    let slot = #[trigger] final(self).memtuples@[i];
                    let at = old(self).remaining(old(bufmrg))[i];
                    &&& slot.attrs() == old(self).lefttree.attrs()
                    &&& slot.bytes() == bytes_entry(
                        old(bufmrg).rel_pages(old(self).lefttree.rnode())[at.0],
                        at.1,
                    )
                    &&& slot.heap_tuple.t_self == (ItemPointerData {
                        ip_blkid: at.0 as u32,
                        ip_posid: at.1 as u16,
                    })
                },
    {
        let taken = self.lefttree.drain(bufmrg);
        self.memtuples = taken;
    }
}

/// The keys of the tuples at the given places of the given pages when
/// tuples are put in the order of the column `target`.
pub open spec fn spec_entry_keys(
    pages: Seq<Seq<u8>>,
    places: Seq<(int, int)>,
    attrs: Seq<MiniAttributeRecord>,
    target: Seq<char>,
) -> Seq<Seq<char>> {
    Seq::new(
        places.len(),
        |i: int| spec_sort_key(attrs, bytes_entry(pages[places[i].0], places[i].1), target),
    )
}

/// Whether `slots` hold the tuples at the given places of the given pages
/// in the order of the column `target`, which `order` lists: at each place of
/// `order` the index, among the places, of the tuple that goes there.
pub open spec fn spec_holds_in_order(
    slots: Seq<TupleTableSlot>,
    pages: Seq<Seq<u8>>,
    places: Seq<(int, int)>,
    attrs: Seq<MiniAttributeRecord>,
    target: Seq<char>,
    order: Seq<int>,
) -> bool {
    &&& slots.len() == places.len()
    &&& spec_sorted_order(spec_entry_keys(pages, places, attrs, target), order)
    &&& forall|i: int|
        0 <= i < places.len() ==> {
            let slot = #[trigger] slots[i];
            &&& slot.attrs() == attrs
            &&& slot.bytes() == bytes_entry(pages[places[order[i]].0], places[order[i]].1)
            &&& slot.heap_tuple.t_self == (ItemPointerData {
                ip_blkid: places[order[i]].0 as u32,
                ip_posid: places[order[i]].1 as u16,
            })
        }
}

impl<'a> PlanNode for SortState<'a> {
    open spec fn node_wf(&self, bufmrg: &BufferManager) -> bool {
        self.wf(bufmrg)
    }

    fn exec(&mut self, bufmrg: &mut BufferManager) -> (r: Option<&TupleTableSlot>)
        ensures
            final(bufmrg).same_pages(old(bufmrg)),
            final(bufmrg).same_files(old(bufmrg)),
            final(self).wf(final(bufmrg)),
            final(self).sort_Done,
            final(self).target_col_name == old(self).target_col_name,
            final(self).lefttree.attrs() == old(self).lefttree.attrs(),
            old(self).sort_Done ==> final(self).memtuples@ == old(self).memtuples@,
            !old(self).sort_Done ==> exists|order: Seq<int>| #[trigger]
                spec_holds_in_order(
                    final(self).memtuples@,
                    old(bufmrg).rel_pages(old(self).lefttree.rnode()),
                    old(self).remaining(old(bufmrg)),
                    old(self).lefttree.attrs(),
                    old(self).target_col_name@,
                    order,
                ),
            old(self).current < final(self).memtuples@.len() ==> r == Some(
                &final(self).memtuples@[old(self).current as int],
            ) && final(self).current == old(self).current + 1,
            old(self).current >= final(self).memtuples@.len() ==> r is None && final(self).current
                == old(self).current,
            r matches Some(slot) ==> slot.wf(),
    {
        self.exec_sort(bufmrg)
    }
}

} // verus!
