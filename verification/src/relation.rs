//! A relation as the sequence of its pages: what inserting and deleting
//! tuples do to it, and what a scan of it hands on.

use crate::ast::Expr;
use crate::buffer_manager::{spec_heap_delete_page, spec_heap_insert_block, spec_heap_insert_pages,
    spec_insert_fits, spec_insert_target, BlockNumber, BufferManager, InvalidBlockNumber,
    RelFileNode};
use crate::catalog::mini_attribute::MiniAttributeRecord;
use crate::config::DEFAULT_BLOCK_SIZE;
use crate::executor::node_delete::lemma_delete_page;
use crate::executor::node_seqscan::{spec_next_match, spec_qual_holds, spec_scan_all,
    spec_slots_hold, spec_tuple_matches};
use crate::page::{bytes_entry, bytes_free_space, bytes_item, bytes_item_count, bytes_item_len,
    lemma_add_entry, lemma_init_page, lemma_item_count, page_bytes_wf, spec_add_entry, spec_init_page,
    spec_zero_block, ITEM_ID_DATA_BYTE_SIZE, MAX_HEAP_TUPLE_SIZE};
use crate::storage_manager::MAX_BLOCKS;
use crate::tuple::{spec_column, spec_heap_keys_updated, ItemPointerData, TupleTableSlot};
use vstd::prelude::*;

verus! {

/// Whether pages and a block number can be the pages of a relation and the
/// block that inserts into it go to: there is a first page, there are no
/// more pages than a file can have blocks, each page is a well-formed page
/// of the default size, and the block is one of the relation or none.
pub open spec fn spec_relation_ok(pages: Seq<Seq<u8>>, targblock: BlockNumber) -> bool {
    &&& 1 <= pages.len() <= MAX_BLOCKS
    &&& forall|b: int|
        0 <= b < pages.len() ==> page_bytes_wf(#[trigger] pages[b]) && pages[b].len()
            == DEFAULT_BLOCK_SIZE
    &&& targblock == InvalidBlockNumber || targblock < pages.len()
}

/// Whether a tuple can be inserted: it has at least one byte, and a page
/// can hold it beside its line pointer.
pub open spec fn spec_tuple_ok(tuple: Seq<u8>) -> bool {
    0 < tuple.len() && tuple.len() + ITEM_ID_DATA_BYTE_SIZE <= MAX_HEAP_TUPLE_SIZE
}

/// What is seen of a relation through a sound pool can be the pages of a
/// relation.
pub proof fn lemma_relation_ok(bm: &BufferManager, rnode: RelFileNode)
    requires
        bm.wf(),
    ensures
        spec_relation_ok(bm.rel_pages(rnode), bm.targblock(rnode)),
{
    bm.lemma_targblock(rnode);
    assert forall|b: int| 0 <= b < bm.rel_pages(rnode).len() implies page_bytes_wf(
        #[trigger] bm.rel_pages(rnode)[b],
    ) && bm.rel_pages(rnode)[b].len() == DEFAULT_BLOCK_SIZE by {
        bm.lemma_page_bytes(rnode, b);
    }
}

/// The slot that an inserted tuple gets: the last of its page.
pub open spec fn spec_heap_insert_off(
    pages: Seq<Seq<u8>>,
    targblock: BlockNumber,
    tuple: Seq<u8>,
) -> int {
    bytes_item_count(
        spec_heap_insert_pages(pages, targblock, tuple)[spec_heap_insert_block(
            pages,
            targblock,
            tuple,
        )],
    ) - 1
}

/// Inserting a tuple gives a relation again, which holds the tuple in the
/// last slot of the block that inserts go to from then on; every tuple that
/// was there is where it was, with the line pointer and the bytes it had.
pub proof fn lemma_heap_insert(pages: Seq<Seq<u8>>, targblock: BlockNumber, tuple: Seq<u8>)
    requires
        spec_relation_ok(pages, targblock),
        spec_tuple_ok(tuple),
        pages.len() < MAX_BLOCKS,
    ensures
        ({
            let after = spec_heap_insert_pages(pages, targblock, tuple);
            let block = spec_heap_insert_block(pages, targblock, tuple);
            let off = spec_heap_insert_off(pages, targblock, tuple);
            &&& spec_relation_ok(after, block as u32)
            &&& pages.len() <= after.len() <= pages.len() + 1
            &&& 0 <= block < after.len()
            &&& 0 <= off < bytes_item_count(after[block])
            &&& bytes_entry(after[block], off) == tuple
            &&& bytes_item_len(after[block], off) == tuple.len()
            &&& forall|b: int, o: int|
                0 <= b < pages.len() && 0 <= o < bytes_item_count(pages[b]) ==> {
                    &&& o < bytes_item_count(after[b])
                    &&& #[trigger] bytes_item(after[b], o) == bytes_item(pages[b], o)
                    &&& bytes_entry(after[b], o) == bytes_entry(pages[b], o)
                    &&& (b, o) != (block, off)
                }
        }),
{
    let target = spec_insert_target(pages, targblock);
    let after = spec_heap_insert_pages(pages, targblock, tuple);
    let fresh = spec_init_page(spec_zero_block(DEFAULT_BLOCK_SIZE as nat));
    assert(page_bytes_wf(pages[target]));
    if spec_insert_fits(pages, targblock, tuple) {
        lemma_add_entry(pages[target], tuple);
        assert forall|b: int| 0 <= b < after.len() implies page_bytes_wf(#[trigger] after[b])
            && after[b].len() == DEFAULT_BLOCK_SIZE by {
            if b != target {
                assert(page_bytes_wf(pages[b]));
            }
        }
    } else {
        lemma_init_page(spec_zero_block(DEFAULT_BLOCK_SIZE as nat));
        lemma_add_entry(fresh, tuple);
        assert forall|b: int| 0 <= b < after.len() implies page_bytes_wf(#[trigger] after[b])
            && after[b].len() == DEFAULT_BLOCK_SIZE by {
            if b < pages.len() {
                assert(page_bytes_wf(pages[b]));
            }
        }
    }
}

/// The pages of a relation, and the block that inserts go to, after the
/// given tuples were inserted one after the other.
pub open spec fn spec_insert_all(
    pages: Seq<Seq<u8>>,
    targblock: BlockNumber,
    tuples: Seq<Seq<u8>>,
) -> (Seq<Seq<u8>>, BlockNumber)
    decreases tuples.len(),
{
    if tuples.len() == 0 {
        (pages, targblock)
    } else {
        let before = spec_insert_all(pages, targblock, tuples.drop_last());
        (
            spec_heap_insert_pages(before.0, before.1, tuples.last()),
            spec_heap_insert_block(before.0, before.1, tuples.last()) as u32,
        )
    }
}

/// Whatever is inserted into a relation, a tuple that is there stays where
/// it is, with the line pointer and the bytes it has.
pub proof fn lemma_insert_all_keeps(
    pages: Seq<Seq<u8>>,
    targblock: BlockNumber,
    tuples: Seq<Seq<u8>>,
    b: int,
    o: int,
)
    requires
        spec_relation_ok(pages, targblock),
        forall|i: int| 0 <= i < tuples.len() ==> spec_tuple_ok(#[trigger] tuples[i]),
        pages.len() + tuples.len() <= MAX_BLOCKS,
        0 <= b < pages.len(),
        0 <= o < bytes_item_count(pages[b]),
    ensures
        ({
            let after = spec_insert_all(pages, targblock, tuples);
            &&& spec_relation_ok(after.0, after.1)
            &&& pages.len() <= after.0.len() <= pages.len() + tuples.len()
            &&& o < bytes_item_count(after.0[b])
            &&& bytes_item(after.0[b], o) == bytes_item(pages[b], o)
            &&& bytes_entry(after.0[b], o) == bytes_entry(pages[b], o)
        }),
    decreases tuples.len(),
{
    if tuples.len() > 0 {
        let earlier = tuples.drop_last();
        assert forall|i: int| 0 <= i < earlier.len() implies spec_tuple_ok(#[trigger] earlier[i]) by {
            assert(earlier[i] == tuples[i]);
        }
        lemma_insert_all_keeps(pages, targblock, earlier, b, o);
        let before = spec_insert_all(pages, targblock, earlier);
        assert(spec_tuple_ok(tuples[tuples.len() - 1]));
        lemma_heap_insert(before.0, before.1, tuples.last());
        let after = spec_heap_insert_pages(before.0, before.1, tuples.last());
        assert(bytes_item(after[b], o) == bytes_item(before.0[b], o));
    }
}

/// Whether the place `a` comes before the place `b` in the order of a scan:
/// by block, and by slot within a block.
pub open spec fn spec_place_before(a: (int, int), b: (int, int)) -> bool {
    a.0 < b.0 || (a.0 == b.0 && a.1 < b.1)
}

/// What a scan hands on from a place on: tuples that it sees and that meet
/// the condition, none of them before that place, each after the one
/// before it.
pub proof fn lemma_scan_all_increasing(
    pages: Seq<Seq<u8>>,
    t_len: int,
    attrs: Seq<MiniAttributeRecord>,
    qual: Option<Box<Expr>>,
    block: int,
    off: int,
    end: int,
)
    requires
        0 <= block,
        0 <= off,
    ensures
        ({
            let seen = spec_scan_all(pages, t_len, attrs, qual, block, off, end);
            &&& forall|i: int|
                0 <= i < seen.len() ==> {
                    let at = #[trigger] seen[i];
                    &&& block <= at.0 < end
                    &&& 0 <= at.1 < bytes_item_count(pages[at.0])
                    &&& at.0 == block ==> off <= at.1
                    &&& spec_tuple_matches(pages[at.0], at.1, t_len, attrs, qual)
                }
            &&& forall|i: int, j: int|
                0 <= i < j < seen.len() ==> spec_place_before(#[trigger] seen[i], #[trigger] seen[j])
        }),
    decreases end - block, bytes_item_count(pages[block]) - off,
{
    let seen = spec_scan_all(pages, t_len, attrs, qual, block, off, end);
    if block >= end {
        assert(seen.len() == 0);
    } else if off >= bytes_item_count(pages[block]) {
        lemma_scan_all_increasing(pages, t_len, attrs, qual, block + 1, 0, end);
        assert(seen == spec_scan_all(pages, t_len, attrs, qual, block + 1, 0, end));
    } else {
        lemma_scan_all_increasing(pages, t_len, attrs, qual, block, off + 1, end);
        let later = spec_scan_all(pages, t_len, attrs, qual, block, off + 1, end);
        if !spec_tuple_matches(pages[block], off, t_len, attrs, qual) {
            assert(seen == later);
        }
        if spec_tuple_matches(pages[block], off, t_len, attrs, qual) {
            assert(seen == seq![(block, off)] + later);
            assert forall|i: int| 0 <= i < seen.len() implies {
                let at = #[trigger] seen[i];
                &&& block <= at.0 < end
                &&& 0 <= at.1 < bytes_item_count(pages[at.0])
                &&& at.0 == block ==> off <= at.1
                &&& spec_tuple_matches(pages[at.0], at.1, t_len, attrs, qual)
            } by {
                if i > 0 {
                    assert(seen[i] == later[i - 1]);
                }
            }
            assert forall|i: int, j: int| 0 <= i < j < seen.len() implies spec_place_before(
                #[trigger] seen[i],
                #[trigger] seen[j],
            ) by {
                assert(seen[j] == later[j - 1]);
                if i > 0 {
                    assert(seen[i] == later[i - 1]);
                }
            }
        }
    }
}

/// A scan hands on every tuple, at or after the place where it starts, that
/// it sees and that meets the condition.
pub proof fn lemma_scan_all_holds(
    pages: Seq<Seq<u8>>,
    t_len: int,
    attrs: Seq<MiniAttributeRecord>,
    qual: Option<Box<Expr>>,
    block: int,
    off: int,
    end: int,
    b: int,
    o: int,
)
    requires
        0 <= block,
        0 <= off,
        block < b || (block == b && off <= o),
        b < end,
        0 <= o < bytes_item_count(pages[b]),
        spec_tuple_matches(pages[b], o, t_len, attrs, qual),
    ensures
        spec_scan_all(pages, t_len, attrs, qual, block, off, end).contains((b, o)),
    decreases end - block, bytes_item_count(pages[block]) - off,
{
    let seen = spec_scan_all(pages, t_len, attrs, qual, block, off, end);
    if off >= bytes_item_count(pages[block]) {
        lemma_scan_all_holds(pages, t_len, attrs, qual, block + 1, 0, end, b, o);
    } else if block == b && off == o {
        assert(seen[0] == (b, o));
    } else {
        lemma_scan_all_holds(pages, t_len, attrs, qual, block, off + 1, end, b, o);
        let later = spec_scan_all(pages, t_len, attrs, qual, block, off + 1, end);
        let i = choose|i: int| 0 <= i < later.len() && later[i] == (b, o);
        if spec_tuple_matches(pages[block], off, t_len, attrs, qual) {
            assert(seen[i + 1] == later[i]);
        }
    }
}

/// Whether `seen` holds `at` at exactly one place.
pub open spec fn spec_holds_once(seen: Seq<(int, int)>, at: (int, int)) -> bool {
    exists|i: int|
        {
            &&& 0 <= i < seen.len()
            &&& #[trigger] seen[i] == at
            &&& forall|j: int| 0 <= j < seen.len() && #[trigger] seen[j] == at ==> j == i
        }
}

/// A tuple that was inserted into a relation is handed on exactly once by a
/// scan of the whole relation, with the bytes that were inserted, however
/// many tuples were inserted after it; given that the tuple is one that the
/// scan sees and that meets the condition of the scan.
pub proof fn lemma_inserted_tuple_is_scanned_once(
    pages: Seq<Seq<u8>>,
    targblock: BlockNumber,
    tuple: Seq<u8>,
    more: Seq<Seq<u8>>,
    attrs: Seq<MiniAttributeRecord>,
    qual: Option<Box<Expr>>,
)
    requires
        spec_relation_ok(pages, targblock),
        spec_tuple_ok(tuple),
        forall|i: int| 0 <= i < more.len() ==> spec_tuple_ok(#[trigger] more[i]),
        pages.len() + 1 + more.len() <= MAX_BLOCKS,
        !spec_heap_keys_updated(tuple),
        spec_qual_holds(qual, attrs, tuple),
    ensures
        ({
            let first = spec_heap_insert_pages(pages, targblock, tuple);
            let block = spec_heap_insert_block(pages, targblock, tuple);
            let off = spec_heap_insert_off(pages, targblock, tuple);
            let last = spec_insert_all(first, block as u32, more).0;
            &&& 0 <= block < last.len()
            &&& 0 <= off < bytes_item_count(last[block])
            &&& bytes_entry(last[block], off) == tuple
            &&& spec_holds_once(
                spec_scan_all(last, tuple.len() as int, attrs, qual, 0, 0, last.len() as int),
                (block, off),
            )
        }),
{
    let first = spec_heap_insert_pages(pages, targblock, tuple);
    let block = spec_heap_insert_block(pages, targblock, tuple);
    let off = spec_heap_insert_off(pages, targblock, tuple);
    lemma_heap_insert(pages, targblock, tuple);
    lemma_insert_all_keeps(first, block as u32, more, block, off);
    let last = spec_insert_all(first, block as u32, more).0;
    let t_len = tuple.len() as int;
    let seen = spec_scan_all(last, t_len, attrs, qual, 0, 0, last.len() as int);
    assert(bytes_item_len(last[block], off) == bytes_item_len(first[block], off));
    assert(spec_tuple_matches(last[block], off, t_len, attrs, qual));
    lemma_scan_all_holds(last, t_len, attrs, qual, 0, 0, last.len() as int, block, off);
    lemma_scan_all_increasing(last, t_len, attrs, qual, 0, 0, last.len() as int);
    let i = choose|i: int| 0 <= i < seen.len() && seen[i] == (block, off);
    assert forall|j: int| 0 <= j < seen.len() && #[trigger] seen[j] == (block, off) implies j
        == i by {
        if j < i {
            assert(spec_place_before(seen[j], seen[i]));
        } else if i < j {
            assert(spec_place_before(seen[i], seen[j]));
        }
    }
}

/// A tuple that was marked as deleted is not handed on by a scan; its page
/// has the slots it had, and the line pointer of the tuple is as it was.
pub proof fn lemma_deleted_tuple_is_not_scanned(
    pages: Seq<Seq<u8>>,
    b: int,
    o: int,
    t_len: int,
    attrs: Seq<MiniAttributeRecord>,
    qual: Option<Box<Expr>>,
    block: int,
    off: int,
    end: int,
)
    requires
        0 <= b < pages.len(),
        page_bytes_wf(pages[b]),
        0 <= o < bytes_item_count(pages[b]),
        bytes_item_len(pages[b], o) >= 2,
        0 <= block,
        0 <= off,
    ensures
        ({
            let after = pages.update(b, spec_heap_delete_page(pages[b], o));
            &&& !spec_scan_all(after, t_len, attrs, qual, block, off, end).contains((b, o))
            &&& bytes_item_count(after[b]) == bytes_item_count(pages[b])
            &&& bytes_item(after[b], o) == bytes_item(pages[b], o)
        }),
{
    let after = pages.update(b, spec_heap_delete_page(pages[b], o));
    lemma_delete_page(pages[b], o, t_len, attrs, qual);
    lemma_scan_all_increasing(after, t_len, attrs, qual, block, off, end);
    let seen = spec_scan_all(after, t_len, attrs, qual, block, off, end);
    if seen.contains((b, o)) {
        let i = choose|i: int| 0 <= i < seen.len() && seen[i] == (b, o);
        assert(spec_tuple_matches(after[seen[i].0], seen[i].1, t_len, attrs, qual));
    }
}

/// The identifier of the tuple at a place.
pub open spec fn spec_tid(at: (int, int)) -> ItemPointerData {
    ItemPointerData { ip_blkid: at.0 as u32, ip_posid: at.1 as u16 }
}

/// Whether exactly one of the slots holds the tuple with the identifier
/// `tid`.
pub open spec fn spec_slot_once(slots: Seq<TupleTableSlot>, tid: ItemPointerData) -> bool {
    exists|i: int|
        {
            &&& 0 <= i < slots.len()
            &&& (#[trigger] slots[i]).heap_tuple.t_self == tid
            &&& forall|j: int|
                0 <= j < slots.len() && (#[trigger] slots[j]).heap_tuple.t_self == tid ==> j == i
        }
}

/// Whether the slots come in the order of a scan: each holds a tuple of a
/// later place than the one before it, by block, and by slot within a
/// block.
pub open spec fn spec_slots_ascend(slots: Seq<TupleTableSlot>) -> bool {
    forall|i: int, j: int|
        0 <= i < j < slots.len() ==> spec_place_before(
            (
                (#[trigger] slots[i]).heap_tuple.t_self.ip_blkid as int,
                slots[i].heap_tuple.t_self.ip_posid as int,
            ),
            (
                (#[trigger] slots[j]).heap_tuple.t_self.ip_blkid as int,
                slots[j].heap_tuple.t_self.ip_posid as int,
            ),
        )
}

/// What a scan of the whole relation, pulled until it hands on nothing, has
/// handed on: the tuples come in the order of their places, and a tuple
/// that the scan sees and that meets the condition is among them exactly
/// once, with the bytes that it has in its page.
pub proof fn lemma_drained_slots(
    pages: Seq<Seq<u8>>,
    targblock: BlockNumber,
    t_len: int,
    attrs: Seq<MiniAttributeRecord>,
    qual: Option<Box<Expr>>,
    slots: Seq<TupleTableSlot>,
    b: int,
    o: int,
)
    requires
        spec_relation_ok(pages, targblock),
        spec_slots_hold(
            slots,
            pages,
            spec_scan_all(pages, t_len, attrs, qual, 0, 0, pages.len() as int),
            attrs,
        ),
        0 <= b < pages.len(),
        0 <= o < bytes_item_count(pages[b]),
    ensures
        spec_slots_ascend(slots),
        spec_tuple_matches(pages[b], o, t_len, attrs, qual) ==> spec_slot_once(
            slots,
            spec_tid((b, o)),
        ),
        !spec_tuple_matches(pages[b], o, t_len, attrs, qual) ==> forall|i: int|
            0 <= i < slots.len() ==> (#[trigger] slots[i]).heap_tuple.t_self != spec_tid((b, o)),
        forall|i: int|
            0 <= i < slots.len() && (#[trigger] slots[i]).heap_tuple.t_self == spec_tid((b, o))
                ==> slots[i].bytes() == bytes_entry(pages[b], o) && slots[i].attrs() == attrs,
{
    let end = pages.len() as int;
    let seen = spec_scan_all(pages, t_len, attrs, qual, 0, 0, end);
    lemma_scan_all_increasing(pages, t_len, attrs, qual, 0, 0, end);
    lemma_item_count(pages[b]);
    assert forall|i: int| 0 <= i < seen.len() implies 0 <= (#[trigger] seen[i]).0 < MAX_BLOCKS && 0
        <= seen[i].1 < 2048 && slots[i].heap_tuple.t_self == spec_tid(seen[i]) by {
        assert(page_bytes_wf(pages[seen[i].0]));
        lemma_item_count(pages[seen[i].0]);
        assert(slots[i].wf());
    }
    assert forall|i: int|
        0 <= i < slots.len() && (#[trigger] slots[i]).heap_tuple.t_self == spec_tid(
            (b, o),
        ) implies seen[i] == (b, o) by {
        assert(0 <= seen[i].0 < MAX_BLOCKS);
    }
    assert forall|i: int, j: int| 0 <= i < j < slots.len() implies spec_place_before(
        (
            (#[trigger] slots[i]).heap_tuple.t_self.ip_blkid as int,
            slots[i].heap_tuple.t_self.ip_posid as int,
        ),
        (
            (#[trigger] slots[j]).heap_tuple.t_self.ip_blkid as int,
            slots[j].heap_tuple.t_self.ip_posid as int,
        ),
    ) by {
        assert(spec_place_before(seen[i], seen[j]));
        assert(0 <= seen[i].0 < MAX_BLOCKS);
        assert(0 <= seen[j].0 < MAX_BLOCKS);
    }
    if spec_tuple_matches(pages[b], o, t_len, attrs, qual) {
        lemma_scan_all_holds(pages, t_len, attrs, qual, 0, 0, end, b, o);
        let i = choose|i: int| 0 <= i < seen.len() && seen[i] == (b, o);
        assert(0 <= seen[i].0 < MAX_BLOCKS);
        assert(slots[i].heap_tuple.t_self == spec_tid((b, o)));
        assert forall|j: int|
            0 <= j < slots.len() && (#[trigger] slots[j]).heap_tuple.t_self == spec_tid(
                (b, o),
            ) implies j == i by {
            assert(seen[j] == (b, o));
            if j < i {
                assert(spec_place_before(seen[j], seen[i]));
            } else if i < j {
                assert(spec_place_before(seen[i], seen[j]));
            }
        }
    } else {
        assert forall|i: int| 0 <= i < slots.len() implies (
        #[trigger] slots[i]).heap_tuple.t_self != spec_tid((b, o)) by {
            if slots[i].heap_tuple.t_self == spec_tid((b, o)) {
                assert(seen[i] == (b, o));
                assert(spec_tuple_matches(pages[seen[i].0], seen[i].1, t_len, attrs, qual));
            }
        }
    }
}

/// A tuple that was inserted into a relation is handed on exactly once when
/// a scan of the whole relation is pulled until it hands on nothing,
/// however many tuples were inserted after it, and the slot that holds it
/// then has the bytes, and so the value of each column, that were inserted;
/// given that the tuple is not marked as deleted and meets the condition of
/// the scan.
pub proof fn lemma_inserted_tuple_is_handed_on_once(
    pages: Seq<Seq<u8>>,
    targblock: BlockNumber,
    tuple: Seq<u8>,
    more: Seq<Seq<u8>>,
    attrs: Seq<MiniAttributeRecord>,
    qual: Option<Box<Expr>>,
    slots: Seq<TupleTableSlot>,
)
    requires
        spec_relation_ok(pages, targblock),
        spec_tuple_ok(tuple),
        forall|i: int| 0 <= i < more.len() ==> spec_tuple_ok(#[trigger] more[i]),
        pages.len() + 1 + more.len() <= MAX_BLOCKS,
        !spec_heap_keys_updated(tuple),
        spec_qual_holds(qual, attrs, tuple),
        ({
            let first = spec_heap_insert_pages(pages, targblock, tuple);
            let block = spec_heap_insert_block(pages, targblock, tuple);
            let last = spec_insert_all(first, block as u32, more).0;
            spec_slots_hold(
                slots,
                last,
                spec_scan_all(last, tuple.len() as int, attrs, qual, 0, 0, last.len() as int),
                attrs,
            )
        }),
    ensures
        ({
            let block = spec_heap_insert_block(pages, targblock, tuple);
            let off = spec_heap_insert_off(pages, targblock, tuple);
            &&& spec_slot_once(slots, spec_tid((block, off)))
            &&& forall|i: int|
                0 <= i < slots.len() && (#[trigger] slots[i]).heap_tuple.t_self == spec_tid(
                    (block, off),
                ) ==> {
                    &&& slots[i].bytes() == tuple
                    &&& forall|c: int|
                        0 <= c < attrs.len() ==> #[trigger] spec_column(attrs, slots[i].bytes(), c)
                            == spec_column(attrs, tuple, c)
                }
        }),
{
    let first = spec_heap_insert_pages(pages, targblock, tuple);
    let block = spec_heap_insert_block(pages, targblock, tuple);
    let off = spec_heap_insert_off(pages, targblock, tuple);
    lemma_heap_insert(pages, targblock, tuple);
    lemma_insert_all_keeps(first, block as u32, more, block, off);
    let after = spec_insert_all(first, block as u32, more);
    let last = after.0;
    let t_len = tuple.len() as int;
    assert(bytes_item_len(last[block], off) == bytes_item_len(first[block], off));
    assert(spec_tuple_matches(last[block], off, t_len, attrs, qual));
    lemma_drained_slots(last, after.1, t_len, attrs, qual, slots, block, off);
}

/// Once a tuple was marked as deleted, a scan of the whole relation that is
/// pulled until it hands on nothing does not hand it on, whatever its
/// condition; the tuples that it hands on come in the order of their
/// places.
pub proof fn lemma_deleted_tuple_is_not_handed_on(
    pages: Seq<Seq<u8>>,
    targblock: BlockNumber,
    b: int,
    o: int,
    t_len: int,
    attrs: Seq<MiniAttributeRecord>,
    qual: Option<Box<Expr>>,
    slots: Seq<TupleTableSlot>,
)
    requires
        spec_relation_ok(pages, targblock),
        0 <= b < pages.len(),
        0 <= o < bytes_item_count(pages[b]),
        bytes_item_len(pages[b], o) >= 2,
        ({
            let after = pages.update(b, spec_heap_delete_page(pages[b], o));
            spec_slots_hold(
                slots,
                after,
                spec_scan_all(after, t_len, attrs, qual, 0, 0, after.len() as int),
                attrs,
            )
        }),
    ensures
        forall|i: int|
            0 <= i < slots.len() ==> (#[trigger] slots[i]).heap_tuple.t_self != spec_tid((b, o)),
        spec_slots_ascend(slots),
{
    let after = pages.update(b, spec_heap_delete_page(pages[b], o));
    lemma_delete_page(pages[b], o, t_len, attrs, qual);
    assert forall|k: int| 0 <= k < after.len() implies page_bytes_wf(#[trigger] after[k])
        && after[k].len() == DEFAULT_BLOCK_SIZE by {
        if k != b {
            assert(page_bytes_wf(pages[k]));
        }
    }
    lemma_drained_slots(after, targblock, t_len, attrs, qual, slots, b, o);
}

/// Once a tuple was marked as deleted, a scan of the whole relation that is
/// pulled until it hands on nothing still hands on every other tuple that
/// it saw before and that meets the condition, exactly once and with the
/// bytes that it has.
pub proof fn lemma_other_tuple_is_still_handed_on_once(
    pages: Seq<Seq<u8>>,
    targblock: BlockNumber,
    b: int,
    o: int,
    t_len: int,
    attrs: Seq<MiniAttributeRecord>,
    qual: Option<Box<Expr>>,
    slots: Seq<TupleTableSlot>,
    other_b: int,
    other_o: int,
)
    requires
        spec_relation_ok(pages, targblock),
        0 <= b < pages.len(),
        0 <= o < bytes_item_count(pages[b]),
        bytes_item_len(pages[b], o) >= 2,
        0 <= other_b < pages.len(),
        0 <= other_o < bytes_item_count(pages[other_b]),
        (other_b, other_o) != (b, o),
        spec_tuple_matches(pages[other_b], other_o, t_len, attrs, qual),
        ({
            let after = pages.update(b, spec_heap_delete_page(pages[b], o));
            spec_slots_hold(
                slots,
                after,
                spec_scan_all(after, t_len, attrs, qual, 0, 0, after.len() as int),
                attrs,
            )
        }),
    ensures
        spec_slot_once(slots, spec_tid((other_b, other_o))),
        forall|i: int|
            0 <= i < slots.len() && (#[trigger] slots[i]).heap_tuple.t_self == spec_tid(
                (other_b, other_o),
            ) ==> slots[i].bytes() == bytes_entry(pages[other_b], other_o),
{
    let after = pages.update(b, spec_heap_delete_page(pages[b], o));
    lemma_delete_page(pages[b], o, t_len, attrs, qual);
    assert forall|k: int| 0 <= k < after.len() implies page_bytes_wf(#[trigger] after[k])
        && after[k].len() == DEFAULT_BLOCK_SIZE by {
        if k != b {
            assert(page_bytes_wf(pages[k]));
        }
    }
    assert(spec_tuple_matches(after[other_b], other_o, t_len, attrs, qual) && bytes_entry(
        after[other_b],
        other_o,
    ) == bytes_entry(pages[other_b], other_o)) by {
        if other_b == b {
            assert(other_o != o);
        } else {
            assert(after[other_b] == pages[other_b]);
        }
    }
    lemma_drained_slots(after, targblock, t_len, attrs, qual, slots, other_b, other_o);
}

/// A tuple that is one byte too long for the free space of the block tried
/// first goes to a new block at the end of the relation; the pages that
/// were there stay as they were.
pub proof fn lemma_overflow_extends(pages: Seq<Seq<u8>>, targblock: BlockNumber, tuple: Seq<u8>)
    requires
        spec_relation_ok(pages, targblock),
        tuple.len() == bytes_free_space(pages[spec_insert_target(pages, targblock)]) + 1,
    ensures
        ({
            let after = spec_heap_insert_pages(pages, targblock, tuple);
            &&& after.len() == pages.len() + 1
            &&& spec_heap_insert_block(pages, targblock, tuple) == pages.len()
            &&& forall|b: int| 0 <= b < pages.len() ==> #[trigger] after[b] == pages[b]
            &&& after[pages.len() as int] == spec_add_entry(
                spec_init_page(spec_zero_block(DEFAULT_BLOCK_SIZE as nat)),
                tuple,
            )
        }),
{
}

/// A scan of pages without tuples hands on nothing, and is at its end at
/// once.
pub proof fn lemma_empty_relation_scan(
    pages: Seq<Seq<u8>>,
    t_len: int,
    attrs: Seq<MiniAttributeRecord>,
    qual: Option<Box<Expr>>,
    block: int,
    end: int,
)
    requires
        0 <= block,
        forall|b: int| block <= b < end ==> bytes_item_count(#[trigger] pages[b]) == 0,
    ensures
        spec_next_match(pages, t_len, attrs, qual, block, 0, end) is None,
        spec_scan_all(pages, t_len, attrs, qual, block, 0, end).len() == 0,
    decreases end - block,
{
    if block < end {
        assert(bytes_item_count(pages[block]) == 0);
        lemma_empty_relation_scan(pages, t_len, attrs, qual, block + 1, end);
    }
}

} // verus!
