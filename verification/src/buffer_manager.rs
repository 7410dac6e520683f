//! The buffer pool: pages in memory, found by relation and block number,
//! and the insertion and deletion of tuples through them.
//!
//! The pool only grows: a page that was brought in stays at its index. What
//! a relation holds is what its pages hold as seen through the pool: the
//! page in the pool for a block that is there, the page in the file for any
//! other.

#![allow(non_upper_case_globals)]

use crate::config::{Config, DEFAULT_BLOCK_SIZE, N_BUFFERS};
use crate::oid_manager::Oid;
use crate::page::{bytes_entry, bytes_free_space, bytes_has_space, bytes_item_count, bytes_item_len,
    lemma_entry_bounds, lemma_init_page, lemma_page_of_block, page_bytes_wf, spec_add_entry,
    spec_init_page, spec_put_entry, spec_zero_block, Page, ITEM_ID_DATA_BYTE_SIZE,
    MAX_HEAP_TUPLE_SIZE};
use crate::storage_manager::{lemma_file_page, spec_block, spec_file_page, spec_file_pages,
    spec_file_wf, spec_nblocks, spec_rel_len, spec_state, spec_write_block, RelState, RelationData,
    StorageManager, MAX_BLOCKS};
use crate::tuple::{lemma_mark_deleted, spec_mark_deleted, HeapTupleData, ItemPointerData,
    TupleTableSlot};
use std::collections::HashMap;
use vstd::prelude::*;

verus! {

broadcast use vstd::std_specs::hash::group_hash_axioms;

/// Names a buffer of the pool, or none.
#[derive(Debug, Clone, Copy, PartialEq, Eq, Structural)]
pub enum Buffer {
    InvalidBuffer,
    /// The buffer at this index of the pool.
    Buffer(usize),
}

/// The index that a buffer identifier names.
pub fn unwrap_buffer_id(buffer_id: Buffer) -> (buf: usize)
    requires
        buffer_id is Buffer,
    ensures
        buffer_id == Buffer::Buffer(buf),
{
    match buffer_id {
        Buffer::Buffer(buf) => buf,
        Buffer::InvalidBuffer => 0,
    }
}

/// The number of a block within a heap file, from 0.
pub type BlockNumber = u32;

/// The block number that stands for "no block".
pub const InvalidBlockNumber: BlockNumber = 0xFFFFFFFF;

pub type BlockIdData = BlockNumber;

/// Names the file of a relation: the table and the database it belongs to.
#[derive(Debug, Clone, Copy, PartialEq, Eq, Hash, Structural)]
pub struct RelFileNode {
    pub table_oid: Oid,
    pub db_oid: Oid,
}

/// Names a block of a relation.
#[derive(Debug, Clone, Copy, PartialEq, Eq, Hash, Structural)]
pub struct BufferTag {
    pub rnode: RelFileNode,
    pub block_num: BlockNumber,
}

/// What the pool knows of one buffer.
#[derive(Debug, Clone, Copy)]
pub struct BufferDesc {
    /// The block that the buffer holds.
    pub tag: BufferTag,
    /// The buffer's index in the pool.
    pub buf_id: Buffer,
    pub locked: bool,
    pub dirty: bool,
    pub valid: bool,
}

/// The key under which the pool keeps a block: database, table and block
/// number side by side in one number.
pub open spec fn spec_tag_key(tag: BufferTag) -> u128 {
    (tag.rnode.db_oid as int * 0x1_0000_0000_0000_0000 + tag.rnode.table_oid as int
        * 0x1_0000_0000 + tag.block_num as int) as u128
}

/// Different blocks have different keys.
pub proof fn lemma_tag_key_injective(a: BufferTag, b: BufferTag)
    requires
        spec_tag_key(a) == spec_tag_key(b),
    ensures
        a == b,
{
}

fn tag_key(tag: &BufferTag) -> (key: u128)
    ensures
        key == spec_tag_key(*tag),
{
    (tag.rnode.db_oid as u128) * 0x1_0000_0000_0000_0000 + (tag.rnode.table_oid as u128)
        * 0x1_0000_0000 + (tag.block_num as u128)
}

/// The block that an insert tries first: the block that inserts go to, or
/// the last block of the relation if there is none yet.
pub open spec fn spec_insert_target(pages: Seq<Seq<u8>>, targblock: BlockNumber) -> int {
    if targblock != InvalidBlockNumber {
        targblock as int
    } else {
        pages.len() - 1
    }
}

/// Whether a tuple fits the free space of the block that an insert tries
/// first.
pub open spec fn spec_insert_fits(
    pages: Seq<Seq<u8>>,
    targblock: BlockNumber,
    tuple: Seq<u8>,
) -> bool {
    tuple.len() <= bytes_free_space(pages[spec_insert_target(pages, targblock)])
}

/// The block that an inserted tuple goes to: the block tried first if the
/// tuple fits there, else a new block at the end of the relation. Blocks
/// before it are never looked at for room.
pub open spec fn spec_heap_insert_block(
    pages: Seq<Seq<u8>>,
    targblock: BlockNumber,
    tuple: Seq<u8>,
) -> int {
    if spec_insert_fits(pages, targblock, tuple) {
        spec_insert_target(pages, targblock)
    } else {
        pages.len() as int
    }
}

/// The pages of a relation after a tuple was inserted.
pub open spec fn spec_heap_insert_pages(
    pages: Seq<Seq<u8>>,
    targblock: BlockNumber,
    tuple: Seq<u8>,
) -> Seq<Seq<u8>> {
    if spec_insert_fits(pages, targblock, tuple) {
        let target = spec_insert_target(pages, targblock);
        pages.update(target, spec_add_entry(pages[target], tuple))
    } else {
        pages.push(
            spec_add_entry(spec_init_page(spec_zero_block(DEFAULT_BLOCK_SIZE as nat)), tuple),
        )
    }
}

/// A page after the tuple in slot `off` was marked as deleted: the mark is
/// set in the header of the tuple, in place.
pub open spec fn spec_heap_delete_page(page: Seq<u8>, off: int) -> Seq<u8> {
    spec_put_entry(page, off, spec_mark_deleted(bytes_entry(page, off)))
}

/// The pool of pages, over the storage manager that holds the files.
pub struct BufferManager {
    config: Config,
    smgr: StorageManager,
    buffer_descriptors: Vec<BufferDesc>,
    pages: Vec<Page>,
    buffer_hash: HashMap<u128, Buffer>,
}

impl BufferManager {
    /// What the storage manager holds of each relation.
    pub closed spec fn storage(&self) -> Map<RelFileNode, RelState> {
        self.smgr@
    }

    /// The number of pages in the pool.
    pub closed spec fn pool_len(&self) -> int {
        self.pages@.len() as int
    }

    /// The page at index `i` of the pool.
    pub closed spec fn pool_page(&self, i: int) -> Page {
        self.pages@[i]
    }

    /// The block that the page at index `i` of the pool holds.
    pub closed spec fn pool_tag(&self, i: int) -> BufferTag {
        self.buffer_descriptors@[i].tag
    }

    /// The index in the pool of the page of a block, if the block is in the
    /// pool.
    pub closed spec fn lookup(&self, tag: BufferTag) -> Option<int> {
        if self.buffer_hash@.contains_key(spec_tag_key(tag)) {
            match self.buffer_hash@[spec_tag_key(tag)] {
                Buffer::Buffer(i) => Some(i as int),
                Buffer::InvalidBuffer => None,
            }
        } else {
            None
        }
    }

    /// The bytes of the file of a relation.
    pub open spec fn image(&self, rnode: RelFileNode) -> Seq<u8> {
        spec_state(self.storage(), rnode).image
    }

    /// The block that inserts into a relation go to.
    pub open spec fn targblock(&self, rnode: RelFileNode) -> BlockNumber {
        spec_state(self.storage(), rnode).targblock
    }

    /// The number of blocks of a relation; a relation always has a first
    /// block.
    pub open spec fn rel_len(&self, rnode: RelFileNode) -> int {
        spec_rel_len(self.image(rnode))
    }

    /// The page of a block of a relation, as seen through the pool.
    pub open spec fn page_bytes(&self, rnode: RelFileNode, block: int) -> Seq<u8> {
        match self.lookup(BufferTag { rnode: rnode, block_num: block as u32 }) {
            Some(i) => self.pool_page(i).bytes(),
            None => spec_file_page(self.image(rnode), block),
        }
    }

    /// The pages of a relation, as seen through the pool.
    pub open spec fn rel_pages(&self, rnode: RelFileNode) -> Seq<Seq<u8>> {
        Seq::new(self.rel_len(rnode) as nat, |b: int| self.page_bytes(rnode, b))
    }

    /// The invariant of the pool: the storage manager is sound, each page in
    /// the pool is a well-formed page of the default size and is found
    /// under the block it holds and under no other, each block in the pool
    /// is a block of its relation, and so is the block that inserts into a
    /// relation go to.
    pub closed spec fn wf(&self) -> bool {
        &&& self.smgr.wf()
        &&& self.buffer_descriptors@.len() == self.pages@.len()
        &&& forall|i: int|
            0 <= i < self.pages@.len() ==> (#[trigger] self.pages@[i]).wf() && self.pages@[i].block_size()
                == DEFAULT_BLOCK_SIZE
        &&& forall|i: int|
            0 <= i < self.pages@.len() ==> {
                let d = #[trigger] self.buffer_descriptors@[i];
                &&& d.buf_id == Buffer::Buffer(i as usize)
                &&& self.buffer_hash@.contains_key(spec_tag_key(d.tag))
                &&& self.buffer_hash@[spec_tag_key(d.tag)] == Buffer::Buffer(i as usize)
                &&& d.tag.block_num < self.rel_len(d.tag.rnode)
                &&& self.storage().contains_key(d.tag.rnode)
            }
        &&& forall|k: u128| #[trigger]
            self.buffer_hash@.contains_key(k) ==> {
                &&& self.buffer_hash@[k] is Buffer
                &&& self.buffer_hash@[k]->Buffer_0 < self.pages@.len()
                &&& spec_tag_key(self.buffer_descriptors@[self.buffer_hash@[k]->Buffer_0 as int].tag)
                    == k
            }
        &&& forall|rnode: RelFileNode|
            #![trigger self.storage().contains_key(rnode)]
            self.targblock(rnode) == InvalidBlockNumber || self.targblock(rnode) < self.rel_len(
                rnode,
            )
    }

    /// A block is found at an index of the pool just if the page at that
    /// index holds the block.
    pub proof fn lemma_lookup(&self, tag: BufferTag)
        requires
            self.wf(),
        ensures
            self.lookup(tag) matches Some(i) ==> 0 <= i < self.pool_len() && self.pool_tag(i)
                == tag,
            self.lookup(tag) is None ==> forall|i: int|
                0 <= i < self.pool_len() ==> #[trigger] self.pool_tag(i) != tag,
    {
        let k = spec_tag_key(tag);
        if self.buffer_hash@.contains_key(k) {
            let i = self.buffer_hash@[k]->Buffer_0 as int;
            lemma_tag_key_injective(self.buffer_descriptors@[i].tag, tag);
        } else {
            assert forall|i: int| 0 <= i < self.pool_len() implies #[trigger] self.pool_tag(i)
                != tag by {
                let d = self.buffer_descriptors@[i];
                assert(self.buffer_hash@.contains_key(spec_tag_key(d.tag)));
            }
        }
    }

    /// The page at an index of the pool is found under the block it holds,
    /// which is a block of its relation, and is a well-formed page of the
    /// default size.
    pub proof fn lemma_pool_page(&self, i: int)
        requires
            self.wf(),
            0 <= i < self.pool_len(),
        ensures
            self.lookup(self.pool_tag(i)) == Some(i),
            self.pool_page(i).wf(),
            self.pool_page(i).block_size() == DEFAULT_BLOCK_SIZE,
            self.pool_tag(i).block_num < self.rel_len(self.pool_tag(i).rnode),
            self.page_bytes(self.pool_tag(i).rnode, self.pool_tag(i).block_num as int)
                == self.pool_page(i).bytes(),
    {
        let d = self.buffer_descriptors@[i];
        assert(self.pages@[i].wf());
        assert(self.pages.len() == self.pages@.len());
        assert(self.buffer_hash@[spec_tag_key(d.tag)] == Buffer::Buffer(i as usize));
    }

    /// Every page of a relation, as seen through the pool, is a well-formed
    /// page of the default size.
    pub proof fn lemma_page_bytes(&self, rnode: RelFileNode, block: int)
        requires
            self.wf(),
            0 <= block < 0x1_0000_0000,
        ensures
            page_bytes_wf(self.page_bytes(rnode, block)),
            self.page_bytes(rnode, block).len() == DEFAULT_BLOCK_SIZE,
    {
        let tag = BufferTag { rnode: rnode, block_num: block as u32 };
        self.lemma_lookup(tag);
        match self.lookup(tag) {
            Some(i) => {
                self.lemma_pool_page(i);
            },
            None => {
                self.smgr.lemma_files_wf(rnode);
                lemma_file_page(self.image(rnode), block);
            },
        }
    }

    /// The block that inserts into a relation go to is a block of the
    /// relation, unless there is none yet.
    pub proof fn lemma_targblock(&self, rnode: RelFileNode)
        requires
            self.wf(),
        ensures
            self.targblock(rnode) == InvalidBlockNumber || self.targblock(rnode) < self.rel_len(
                rnode,
            ),
            1 <= self.rel_len(rnode) <= MAX_BLOCKS,
    {
        assert(self.storage().contains_key(rnode) || !self.storage().contains_key(rnode));
        self.smgr.lemma_files_wf(rnode);
    }

    /// A pool without pages over a storage manager without relations.
    pub fn new(size: usize, config: Config) -> (bm: BufferManager)
        ensures
            bm.wf(),
            bm.pool_len() == 0,
            bm.storage() == Map::<RelFileNode, RelState>::empty(),
    {
        let bm = BufferManager {
            config: config.clone(),
            smgr: StorageManager::new(config),
            buffer_descriptors: Vec::with_capacity(N_BUFFERS),
            pages: Vec::with_capacity(N_BUFFERS),
            buffer_hash: HashMap::new(),
        };
        proof {
            assert forall|rnode: RelFileNode|
                #![trigger bm.storage().contains_key(rnode)]
                bm.targblock(rnode) == InvalidBlockNumber by {}
        }
        bm
    }

    /// Whether the pool holds every block that the pool of `before` held,
    /// at the same index.
    pub open spec fn extends(&self, before: &BufferManager) -> bool {
        &&& before.pool_len() <= self.pool_len()
        &&& forall|i: int|
            0 <= i < before.pool_len() ==> #[trigger] self.pool_tag(i) == before.pool_tag(i)
    }

    /// Whether every page of every relation, as seen through the pool, is
    /// what it was in `before`.
    pub open spec fn same_pages(&self, before: &BufferManager) -> bool {
        forall|r: RelFileNode, b: int|
            0 <= b <= u32::MAX ==> #[trigger] self.page_bytes(r, b) == before.page_bytes(r, b)
    }

    /// Whether every file holds what it held in `before`, and inserts into
    /// every relation go to the block they went to.
    pub open spec fn same_files(&self, before: &BufferManager) -> bool {
        forall|r: RelFileNode|
            #![trigger self.image(r)]
            #![trigger self.targblock(r)]
            self.image(r) == before.image(r) && self.targblock(r) == before.targblock(r)
    }

    /// What holds of a pool after one step and then another: the steps
    /// compose.
    pub proof fn lemma_frames_compose(&self, mid: &BufferManager, before: &BufferManager)
        requires
            self.extends(mid),
            mid.extends(before),
        ensures
            self.extends(before),
            self.same_pages(mid) && mid.same_pages(before) ==> self.same_pages(before),
            self.same_files(mid) && mid.same_files(before) ==> self.same_files(before),
    {
        assert forall|i: int| 0 <= i < before.pool_len() implies #[trigger] self.pool_tag(i)
            == before.pool_tag(i) by {
            assert(mid.pool_tag(i) == before.pool_tag(i));
        }
        if self.same_pages(mid) && mid.same_pages(before) {
            assert forall|r: RelFileNode, b: int| 0 <= b <= u32::MAX implies #[trigger]
                self.page_bytes(r, b) == before.page_bytes(r, b) by {
                assert(mid.page_bytes(r, b) == before.page_bytes(r, b));
            }
        }
        if self.same_files(mid) && mid.same_files(before) {
            assert forall|r: RelFileNode|
                #![trigger self.image(r)]
                #![trigger self.targblock(r)]
                self.image(r) == before.image(r) && self.targblock(r) == before.targblock(r) by {
                assert(mid.image(r) == before.image(r) && mid.targblock(r) == before.targblock(r));
            }
        }
    }

    /// Where nothing changed for a relation, it has the pages it had.
    pub proof fn lemma_same_rel_pages(&self, before: &BufferManager, rnode: RelFileNode)
        requires
            before.wf(),
            self.same_pages(before),
            self.image(rnode) == before.image(rnode),
        ensures
            self.rel_pages(rnode) == before.rel_pages(rnode),
    {
        before.lemma_targblock(rnode);
        assert(self.rel_pages(rnode) =~= before.rel_pages(rnode));
    }

    /// Through a pool without pages every relation is seen as its file
    /// holds it.
    pub proof fn lemma_unpooled(&self, rnode: RelFileNode)
        requires
            self.wf(),
            self.pool_len() == 0,
        ensures
            self.rel_pages(rnode) == spec_file_pages(self.image(rnode)),
    {
        assert forall|b: int| 0 <= b < self.rel_len(rnode) implies self.page_bytes(rnode, b)
            == spec_file_page(self.image(rnode), b) by {
            self.lemma_lookup(BufferTag { rnode: rnode, block_num: b as u32 });
        }
        assert(self.rel_pages(rnode) =~= spec_file_pages(self.image(rnode)));
    }

    /// Takes `image` as what the file of a relation holds. Refuses, and
    /// changes nothing, if the storage manager holds the relation already
    /// or `image` is no heap file.
    pub fn mount(&mut self, rd_node: &RelFileNode, image: Vec<u8>) -> (ok: bool)
        requires
            old(self).wf(),
        ensures
            final(self).wf(),
            final(self).extends(old(self)),
            final(self).pool_len() == old(self).pool_len(),
            ok <==> !old(self).storage().contains_key(*rd_node) && spec_file_wf(image@),
            ok ==> final(self).storage() == old(self).storage().insert(
                *rd_node,
                RelState { image: image@, opened: false, targblock: InvalidBlockNumber },
            ),
            !ok ==> final(self).storage() == old(self).storage(),
    {
        let ok = self.smgr.mount(rd_node, image);
        proof {
            if ok {
                assert forall|i: int| 0 <= i < self.pages@.len() implies {
                    let d = #[trigger] self.buffer_descriptors@[i];
                    d.tag.block_num < self.rel_len(d.tag.rnode) && self.storage().contains_key(
                        d.tag.rnode,
                    )
                } by {
                    let d = self.buffer_descriptors@[i];
                    assert(old(self).storage().contains_key(d.tag.rnode));
                    assert(d.tag.rnode != *rd_node);
                }
                assert forall|rnode: RelFileNode|
                    #![trigger self.storage().contains_key(rnode)]
                    self.targblock(rnode) == InvalidBlockNumber || self.targblock(rnode)
                        < self.rel_len(rnode) by {
                    assert(old(self).storage().contains_key(rnode) || !old(self).storage().contains_key(rnode));
                }
            }
        }
        ok
    }

    /// Puts a page into the pool as the page of a block that is not there.
    fn install(&mut self, tag: BufferTag, page: Page) -> (buffer: Buffer)
        requires
            old(self).wf(),
            old(self).lookup(tag) is None,
            page.wf(),
            page.block_size() == DEFAULT_BLOCK_SIZE,
            tag.block_num < old(self).rel_len(tag.rnode),
            old(self).storage().contains_key(tag.rnode),
        ensures
            final(self).wf(),
            final(self).storage() == old(self).storage(),
            final(self).pool_len() == old(self).pool_len() + 1,
            buffer == Buffer::Buffer(old(self).pool_len() as usize),
            final(self).pool_tag(old(self).pool_len()) == tag,
            final(self).pool_page(old(self).pool_len()) == page,
            final(self).lookup(tag) == Some(old(self).pool_len()),
            forall|t: BufferTag| t != tag ==> #[trigger] final(self).lookup(t) == old(self).lookup(t),
            forall|i: int|
                0 <= i < old(self).pool_len() ==> #[trigger] final(self).pool_tag(i) == old(self).pool_tag(i),
            forall|i: int|
                0 <= i < old(self).pool_len() ==> #[trigger] final(self).pool_page(i) == old(self).pool_page(i),
    {
        let index = self.pages.len();
        let buffer = Buffer::Buffer(index);
        let descriptor = BufferDesc {
            tag: tag,
            buf_id: buffer,
            locked: false,
            dirty: false,
            valid: true,
        };
        let key = tag_key(&tag);
        self.pages.push(page);
        self.buffer_descriptors.push(descriptor);
        self.buffer_hash.insert(key, buffer);
        proof {
            assert forall|t: BufferTag| t != tag implies #[trigger] self.lookup(t) == old(self).lookup(t) by {
                if spec_tag_key(t) == spec_tag_key(tag) {
                    lemma_tag_key_injective(t, tag);
                }
            }
            assert forall|i: int| 0 <= i < self.pages@.len() implies {
                let d = #[trigger] self.buffer_descriptors@[i];
                &&& d.buf_id == Buffer::Buffer(i as usize)
                &&& self.buffer_hash@.contains_key(spec_tag_key(d.tag))
                &&& self.buffer_hash@[spec_tag_key(d.tag)] == Buffer::Buffer(i as usize)
                &&& d.tag.block_num < self.rel_len(d.tag.rnode)
                &&& self.storage().contains_key(d.tag.rnode)
            } by {
                if i < index {
                    let d = old(self).buffer_descriptors@[i];
                    assert(self.buffer_descriptors@[i] == d);
                    assert(old(self).buffer_hash@[spec_tag_key(d.tag)] == Buffer::Buffer(
                        i as usize,
                    ));
                    if spec_tag_key(d.tag) == key {
                        lemma_tag_key_injective(d.tag, tag);
                        assert(old(self).buffer_hash@.contains_key(spec_tag_key(tag)));
                    }
                }
            }
            assert forall|k: u128| #[trigger] self.buffer_hash@.contains_key(k) implies {
                &&& self.buffer_hash@[k] is Buffer
                &&& self.buffer_hash@[k]->Buffer_0 < self.pages@.len()
                &&& spec_tag_key(
                    self.buffer_descriptors@[self.buffer_hash@[k]->Buffer_0 as int].tag,
                ) == k
            } by {
                if k != key {
                    assert(old(self).buffer_hash@.contains_key(k));
                    let j = old(self).buffer_hash@[k]->Buffer_0 as int;
                    assert(self.buffer_descriptors@[j] == old(self).buffer_descriptors@[j]);
                }
            }
            assert forall|i: int| 0 <= i < self.pages@.len() implies (#[trigger] self.pages@[i]).wf()
                && self.pages@[i].block_size() == DEFAULT_BLOCK_SIZE by {
                if i < index {
                    assert(old(self).pages@[i].wf());
                }
            }
            assert forall|rnode: RelFileNode|
                #![trigger self.storage().contains_key(rnode)]
                self.targblock(rnode) == InvalidBlockNumber || self.targblock(rnode)
                    < self.rel_len(rnode) by {
                assert(old(self).storage().contains_key(rnode) || !old(self).storage().contains_key(rnode));
            }
        }
        buffer
    }

    /// The buffer of a block of a relation. Brings the page of the block
    /// into the pool if it is not there: from the file, or as an empty page
    /// if the file does not hold the block. What the relations hold, as
    /// seen through the pool, stays as it was.
    pub fn read_buffer(&mut self, relation: &RelationData, block_num: BlockNumber) -> (buffer:
        Buffer)
        requires
            old(self).wf(),
            block_num < old(self).rel_len(relation.smgr_rnode),
        ensures
            final(self).wf(),
            final(self).extends(old(self)),
            final(self).same_pages(old(self)),
            final(self).same_files(old(self)),
            buffer matches Buffer::Buffer(i) && i < final(self).pool_len() && final(self).pool_tag(
                i as int,
            ) == (BufferTag { rnode: relation.smgr_rnode, block_num: block_num }) && final(self).pool_page(i as int).bytes() == old(self).page_bytes(
                relation.smgr_rnode,
                block_num as int,
            ),
            forall|i: int|
                0 <= i < old(self).pool_len() ==> #[trigger] final(self).pool_page(i) == old(self).pool_page(i),
            final(self).lookup(BufferTag { rnode: relation.smgr_rnode, block_num: block_num })
                == Some(buffer->Buffer_0 as int),
            forall|t: BufferTag|
                old(self).lookup(t) is Some ==> #[trigger] final(self).lookup(t) == old(self).lookup(t),
            match old(self).lookup(BufferTag { rnode: relation.smgr_rnode, block_num: block_num }) {
                Some(i) => buffer == Buffer::Buffer(i as usize) && final(self).pool_len() == old(self).pool_len(),
                None => buffer == Buffer::Buffer(old(self).pool_len() as usize) && final(self).pool_len() == old(self).pool_len() + 1,
            },
    {
        let tag = BufferTag { rnode: relation.smgr_rnode, block_num: block_num };
        self.smgr.relation_smgropen(relation);
        proof {
            assert(self.storage() =~= old(self).storage().insert(
                relation.smgr_rnode,
                spec_state(old(self).storage(), relation.smgr_rnode),
            ));
            self.lemma_storage_touched(old(self), relation.smgr_rnode);
        }
        self.read_buffer_common(relation, tag, false)
    }

    /// The storage manager touched a relation without changing its file or
    /// the block that inserts go to: the pool is as sound as it was, and
    /// everything is seen through it as it was.
    proof fn lemma_storage_touched(&self, before: &BufferManager, rnode: RelFileNode)
        requires
            before.wf(),
            self.smgr.wf(),
            self.buffer_descriptors == before.buffer_descriptors,
            self.pages == before.pages,
            self.buffer_hash == before.buffer_hash,
            self.storage().contains_key(rnode),
            self.storage().dom() == before.storage().dom().insert(rnode),
            forall|r: RelFileNode|
                r != rnode && before.storage().contains_key(r) ==> #[trigger] self.storage()[r]
                    == before.storage()[r],
            self.storage()[rnode].image == spec_state(before.storage(), rnode).image,
            self.storage()[rnode].targblock == spec_state(before.storage(), rnode).targblock,
        ensures
            self.wf(),
            self.extends(before),
            self.same_pages(before),
            self.same_files(before),
            self.pool_len() == before.pool_len(),
            forall|t: BufferTag| #[trigger] self.lookup(t) == before.lookup(t),
            forall|i: int| 0 <= i < before.pool_len() ==> #[trigger] self.pool_page(i) == before.pool_page(i),
    {
        assert forall|r: RelFileNode|
            #![trigger self.image(r)]
            #![trigger self.targblock(r)]
            self.image(r) == before.image(r) && self.targblock(r) == before.targblock(r) by {
            if r != rnode && before.storage().contains_key(r) {
                assert(self.storage().contains_key(r));
            }
            if r != rnode && !before.storage().contains_key(r) {
                assert(!self.storage().contains_key(r));
            }
        }
        assert forall|i: int| 0 <= i < self.pages@.len() implies {
            let d = #[trigger] self.buffer_descriptors@[i];
            d.tag.block_num < self.rel_len(d.tag.rnode) && self.storage().contains_key(d.tag.rnode)
        } by {
            let d = before.buffer_descriptors@[i];
            assert(before.storage().contains_key(d.tag.rnode));
            assert(self.image(d.tag.rnode) == before.image(d.tag.rnode));
        }
        assert forall|r: RelFileNode|
            #![trigger self.storage().contains_key(r)]
            self.targblock(r) == InvalidBlockNumber || self.targblock(r) < self.rel_len(r) by {
            assert(before.storage().contains_key(r) || !before.storage().contains_key(r));
            assert(self.image(r) == before.image(r));
        }
    }

    /// The buffer of the block `tag`. A block that is not in the pool is
    /// read from its file, or, with `new_page`, added to the file as a block
    /// of zeros; its page goes into the pool.
    fn read_buffer_common(&mut self, relation: &RelationData, tag: BufferTag, new_page: bool) -> (buffer:
        Buffer)
        requires
            old(self).wf(),
            tag.rnode == relation.smgr_rnode,
            old(self).storage().contains_key(tag.rnode),
            !new_page ==> tag.block_num < old(self).rel_len(tag.rnode),
            new_page ==> {
                &&& old(self).lookup(tag) is None
                &&& tag.block_num == spec_nblocks(old(self).image(tag.rnode))
                &&& 0 < tag.block_num < MAX_BLOCKS
            },
        ensures
            final(self).wf(),
            final(self).extends(old(self)),
            buffer matches Buffer::Buffer(i) && i < final(self).pool_len() && final(self).pool_tag(
                i as int,
            ) == tag,
            forall|i: int|
                0 <= i < old(self).pool_len() ==> #[trigger] final(self).pool_page(i) == old(self).pool_page(i),
            final(self).lookup(tag) == Some(buffer->Buffer_0 as int),
            forall|t: BufferTag|
                old(self).lookup(t) is Some ==> #[trigger] final(self).lookup(t) == old(self).lookup(t),
            match old(self).lookup(tag) {
                Some(i) => buffer == Buffer::Buffer(i as usize) && final(self).pool_len() == old(self).pool_len(),
                None => buffer == Buffer::Buffer(old(self).pool_len() as usize) && final(self).pool_len() == old(self).pool_len() + 1,
            },
            forall|r: RelFileNode|
                #![trigger final(self).targblock(r)]
                final(self).targblock(r) == old(self).targblock(r),
            forall|r: RelFileNode|
                r != tag.rnode ==> #[trigger] final(self).image(r) == old(self).image(r),
            !new_page ==> {
                &&& final(self).same_pages(old(self))
                &&& final(self).same_files(old(self))
                &&& final(self).pool_page(buffer->Buffer_0 as int).bytes() == old(self).page_bytes(
                    tag.rnode,
                    tag.block_num as int,
                )
            },
            new_page ==> {
                &&& final(self).image(tag.rnode) == old(self).image(tag.rnode) + spec_zero_block(
                    DEFAULT_BLOCK_SIZE as nat,
                )
                &&& buffer == Buffer::Buffer(old(self).pool_len() as usize)
                &&& final(self).pool_len() == old(self).pool_len() + 1
                &&& final(self).pool_page(old(self).pool_len()).bytes() == spec_init_page(
                    spec_zero_block(DEFAULT_BLOCK_SIZE as nat),
                )
                &&& forall|t: BufferTag|
                    t != tag ==> #[trigger] final(self).lookup(t) == old(self).lookup(t)
            },
    {
        let key = tag_key(&tag);
        proof {
            self.lemma_lookup(tag);
        }
        match self.buffer_hash.get(&key) {
            Some(buffer) => {
                let buffer = *buffer;
                proof {
                    self.lemma_pool_page(buffer->Buffer_0 as int);
                }
                return buffer;
            },
            None => {},
        }
        let page = if new_page {
            let mut zeros: Vec<u8> = Vec::new();
            let mut i: u16 = 0;
            while i < DEFAULT_BLOCK_SIZE
                invariant
                    i <= DEFAULT_BLOCK_SIZE,
                    zeros@ == spec_zero_block(i as nat),
                decreases DEFAULT_BLOCK_SIZE - i,
            {
                zeros.push(0u8);
                i += 1;
                assert(zeros@ =~= spec_zero_block(i as nat));
            }
            self.smgr.mdextend(&tag.rnode, tag.block_num, zeros.as_slice());
            Page::new(DEFAULT_BLOCK_SIZE)
        } else {
            match self.smgr.mdread(&tag.rnode, tag.block_num) {
                Some(bytes) => Page::from_block(bytes),
                None => Page::new(DEFAULT_BLOCK_SIZE),
            }
        };
        proof {
            let before = old(self);
            let image = before.image(tag.rnode);
            before.smgr.lemma_files_wf(tag.rnode);
            if new_page {
                assert(spec_write_block(image, tag.block_num as int, spec_zero_block(
                    DEFAULT_BLOCK_SIZE as nat,
                )) =~= image + spec_zero_block(DEFAULT_BLOCK_SIZE as nat));
                self.lemma_file_grew(before, tag.rnode);
            } else {
                self.lemma_storage_touched(before, tag.rnode);
            }
        }
        let ghost mid = *self;
        let buffer = self.install(tag, page);
        proof {
            if !new_page {
                assert forall|r: RelFileNode, b: int| 0 <= b <= u32::MAX implies #[trigger]
                    self.page_bytes(r, b) == old(self).page_bytes(r, b) by {
                    let t = BufferTag { rnode: r, block_num: b as u32 };
                    if t == tag {
                    } else {
                        assert(self.lookup(t) == mid.lookup(t));
                        mid.lemma_lookup(t);
                    }
                }
            }
        }
        buffer
    }

    /// The file of a relation grew by blocks at its end while the pool
    /// stayed as it was: the pool is as sound as it was.
    proof fn lemma_file_grew(&self, before: &BufferManager, rnode: RelFileNode)
        requires
            before.wf(),
            self.smgr.wf(),
            self.buffer_descriptors == before.buffer_descriptors,
            self.pages == before.pages,
            self.buffer_hash == before.buffer_hash,
            self.storage().contains_key(rnode),
            self.storage().dom() == before.storage().dom().insert(rnode),
            forall|r: RelFileNode|
                r != rnode && before.storage().contains_key(r) ==> #[trigger] self.storage()[r]
                    == before.storage()[r],
            spec_nblocks(self.storage()[rnode].image) >= spec_nblocks(
                spec_state(before.storage(), rnode).image,
            ),
            self.storage()[rnode].targblock == spec_state(before.storage(), rnode).targblock,
        ensures
            self.wf(),
            self.extends(before),
            self.pool_len() == before.pool_len(),
            forall|t: BufferTag| #[trigger] self.lookup(t) == before.lookup(t),
            forall|i: int|
                0 <= i < before.pool_len() ==> #[trigger] self.pool_page(i) == before.pool_page(i),
            forall|r: RelFileNode|
                #![trigger self.targblock(r)]
                self.targblock(r) == before.targblock(r),
            forall|r: RelFileNode| r != rnode ==> #[trigger] self.image(r) == before.image(r),
    {
        assert forall|r: RelFileNode| r != rnode implies #[trigger] self.image(r) == before.image(
            r,
        ) && self.targblock(r) == before.targblock(r) by {
            if before.storage().contains_key(r) {
                assert(self.storage().contains_key(r));
            } else {
                assert(!self.storage().contains_key(r));
            }
        }
        assert forall|i: int| 0 <= i < self.pages@.len() implies {
            let d = #[trigger] self.buffer_descriptors@[i];
            d.tag.block_num < self.rel_len(d.tag.rnode) && self.storage().contains_key(d.tag.rnode)
        } by {
            let d = before.buffer_descriptors@[i];
            assert(before.storage().contains_key(d.tag.rnode));
            if d.tag.rnode != rnode {
                assert(self.image(d.tag.rnode) == before.image(d.tag.rnode));
            }
        }
        assert forall|r: RelFileNode|
            #![trigger self.storage().contains_key(r)]
            self.targblock(r) == InvalidBlockNumber || self.targblock(r) < self.rel_len(r) by {
            assert(before.storage().contains_key(r) || !before.storage().contains_key(r));
            if r != rnode {
                assert(self.image(r) == before.image(r));
            }
        }
    }

    /// The page of a buffer.
    pub fn get_page(&self, buffer_id: Buffer) -> (page: &Page)
        requires
            buffer_id matches Buffer::Buffer(i) && i < self.pool_len(),
        ensures
            *page == self.pool_page(buffer_id->Buffer_0 as int),
    {
        match buffer_id {
            Buffer::Buffer(buf) => &self.pages[buf],
            Buffer::InvalidBuffer => &self.pages[0],
        }
    }

    /// The page of a buffer, to be changed in place. The pool stays sound
    /// as long as the page is left a well-formed page: nothing else in the
    /// pool or in the files changes.
    pub fn get_page_mut(&mut self, buffer_id: Buffer) -> (page: &mut Page)
        requires
            old(self).wf(),
            buffer_id matches Buffer::Buffer(i) && i < old(self).pool_len(),
        ensures
            *page == old(self).pool_page(buffer_id->Buffer_0 as int),
            page.wf(),
            page.block_size() == DEFAULT_BLOCK_SIZE,
            final(page).wf() && final(page).block_size() == DEFAULT_BLOCK_SIZE ==> {
                &&& final(self).wf()
                &&& final(self).extends(old(self))
                &&& final(self).same_files(old(self))
                &&& final(self).pool_len() == old(self).pool_len()
                &&& forall|t: BufferTag| #[trigger] final(self).lookup(t) == old(self).lookup(t)
                &&& final(self).pool_page(buffer_id->Buffer_0 as int) == *final(page)
                &&& forall|j: int|
                    0 <= j < old(self).pool_len() && j != buffer_id->Buffer_0 ==> #[trigger] final(self).pool_page(j) == old(self).pool_page(j)
            },
    {
        let buf = unwrap_buffer_id(buffer_id);
        proof {
            self.lemma_pool_page(buf as int);
        }
        let page = &mut self.pages[buf];
        assert(final(page).wf() && final(page).block_size() == DEFAULT_BLOCK_SIZE ==> after_borrow(
            *self,
        ).wf()) by {
            let after = after_borrow(*self);
            assert(after.pages@ =~= old(self).pages@.update(buf as int, after.pages@[buf as int]));
            if after.pages@[buf as int].wf() && after.pages@[buf as int].block_size()
                == DEFAULT_BLOCK_SIZE {
                after.lemma_page_replaced(old(self), buf as int);
            }
        }
        page
    }

    /// The free space of the page of a buffer.
    pub fn get_page_free_space(&self, buffer_id: Buffer) -> (space: usize)
        requires
            self.wf(),
            buffer_id matches Buffer::Buffer(i) && i < self.pool_len(),
        ensures
            space == bytes_free_space(self.pool_page(buffer_id->Buffer_0 as int).bytes()),
    {
        proof {
            self.lemma_pool_page(buffer_id->Buffer_0 as int);
        }
        self.get_page(buffer_id).page_get_free_space()
    }

    /// The number of the block that a buffer holds.
    pub fn buffer_get_block_number(&self, buffer: Buffer) -> (block: BlockNumber)
        requires
            self.wf(),
            buffer matches Buffer::Buffer(i) && i < self.pool_len(),
        ensures
            block == self.pool_tag(buffer->Buffer_0 as int).block_num,
    {
        let buf = unwrap_buffer_id(buffer);
        let tag = &self.buffer_descriptors[buf].tag;
        tag.block_num
    }

    /// The number of blocks of the file of a relation.
    pub fn relation_get_number_of_blocks(&mut self, relation: &RelationData) -> (nblocks:
        BlockNumber)
        requires
            old(self).wf(),
        ensures
            final(self).wf(),
            final(self).extends(old(self)),
            final(self).pool_len() == old(self).pool_len(),
            final(self).same_pages(old(self)),
            final(self).same_files(old(self)),
            forall|i: int|
                0 <= i < old(self).pool_len() ==> #[trigger] final(self).pool_page(i) == old(self).pool_page(i),
            nblocks == spec_nblocks(old(self).image(relation.smgr_rnode)),
            nblocks <= MAX_BLOCKS,
    {
        let nblocks = self.smgr.mdnblocks(&relation.smgr_rnode);
        proof {
            self.lemma_storage_touched(old(self), relation.smgr_rnode);
        }
        nblocks
    }

    /// Writes the page of a buffer to its block of its file: the file of the
    /// buffer's relation then holds the page at that block, having grown by
    /// zeros up to it if it ended before. The other files, the pages of the
    /// pool and the blocks that inserts go to stay as they were, so nothing
    /// changes as seen through the pool.
    pub fn flush_buffer(&mut self, buffer_id: Buffer)
        requires
            old(self).wf(),
            buffer_id matches Buffer::Buffer(i) && i < old(self).pool_len(),
        ensures
            final(self).wf(),
            final(self).extends(old(self)),
            final(self).pool_len() == old(self).pool_len(),
            final(self).same_pages(old(self)),
            forall|t: BufferTag| #[trigger] final(self).lookup(t) == old(self).lookup(t),
            forall|j: int|
                0 <= j < old(self).pool_len() ==> #[trigger] final(self).pool_page(j) == old(self).pool_page(j),
            forall|r: RelFileNode|
                #![trigger final(self).targblock(r)]
                final(self).targblock(r) == old(self).targblock(r),
            forall|r: RelFileNode|
                r != old(self).pool_tag(buffer_id->Buffer_0 as int).rnode ==> #[trigger] final(self).image(r) == old(self).image(r),
            final(self).image(old(self).pool_tag(buffer_id->Buffer_0 as int).rnode)
                == spec_write_block(
                old(self).image(old(self).pool_tag(buffer_id->Buffer_0 as int).rnode),
                old(self).pool_tag(buffer_id->Buffer_0 as int).block_num as int,
                old(self).pool_page(buffer_id->Buffer_0 as int).bytes(),
            ),
            spec_block(
                final(self).image(old(self).pool_tag(buffer_id->Buffer_0 as int).rnode),
                old(self).pool_tag(buffer_id->Buffer_0 as int).block_num as int,
            ) == old(self).pool_page(buffer_id->Buffer_0 as int).bytes(),
            final(self).rel_len(old(self).pool_tag(buffer_id->Buffer_0 as int).rnode) == old(self).rel_len(old(self).pool_tag(buffer_id->Buffer_0 as int).rnode),
    {
        proof {
            let i = buffer_id->Buffer_0 as int;
            let rnode = self.pool_tag(i).rnode;
            self.lemma_pool_page(i);
            self.lemma_targblock(rnode);
            self.smgr.lemma_files_wf(rnode);
            crate::storage_manager::lemma_write_block(
                self.image(rnode),
                self.pool_tag(i).block_num as int,
                self.pool_page(i).bytes(),
            );
        }
        let buf = unwrap_buffer_id(buffer_id);
        self.flush_buffer_with_index(buf);
    }

    /// Writes the page at index `i` of the pool to its block of its file.
    /// Nothing changes as seen through the pool.
    fn flush_buffer_with_index(&mut self, i: usize)
        requires
            old(self).wf(),
            i < old(self).pool_len(),
        ensures
            final(self).wf(),
            final(self).extends(old(self)),
            final(self).pool_len() == old(self).pool_len(),
            final(self).same_pages(old(self)),
            forall|t: BufferTag| #[trigger] final(self).lookup(t) == old(self).lookup(t),
            forall|j: int|
                0 <= j < old(self).pool_len() ==> #[trigger] final(self).pool_page(j) == old(self).pool_page(j),
            forall|r: RelFileNode|
                #![trigger final(self).targblock(r)]
                final(self).targblock(r) == old(self).targblock(r),
            forall|r: RelFileNode|
                r != old(self).pool_tag(i as int).rnode ==> #[trigger] final(self).image(r) == old(self).image(r),
            final(self).image(old(self).pool_tag(i as int).rnode) == spec_write_block(
                old(self).image(old(self).pool_tag(i as int).rnode),
                old(self).pool_tag(i as int).block_num as int,
                old(self).pool_page(i as int).bytes(),
            ),
            final(self).rel_len(old(self).pool_tag(i as int).rnode) == old(self).rel_len(
                old(self).pool_tag(i as int).rnode,
            ),
    {
        let rnode = self.buffer_descriptors[i].tag.rnode;
        let block_num = self.buffer_descriptors[i].tag.block_num;
        proof {
            self.lemma_pool_page(i as int);
            self.lemma_targblock(rnode);
            self.smgr.lemma_files_wf(rnode);
            crate::storage_manager::lemma_write_block(
                self.image(rnode),
                block_num as int,
                self.pages@[i as int].bytes(),
            );
        }
        let page = &self.pages[i];
        self.smgr.mdwrite(&rnode, block_num, page.header_pointer());
        proof {
            let before = old(self);
            self.lemma_file_grew(before, rnode);
            assert forall|r: RelFileNode, b: int| 0 <= b <= u32::MAX implies #[trigger]
                self.page_bytes(r, b) == before.page_bytes(r, b) by {
                let t = BufferTag { rnode: r, block_num: b as u32 };
                before.lemma_lookup(t);
                if self.lookup(t) is None && r == rnode {
                    assert(t != before.pool_tag(i as int));
                    if b < spec_nblocks(before.image(rnode)) {
                        assert(spec_block(self.image(rnode), b) == spec_block(
                            before.image(rnode),
                            b,
                        ));
                    }
                }
            }
        }
    }

    /// Whether every page of every relation is in its file as it is seen
    /// through the pool.
    pub open spec fn flushed(&self) -> bool {
        forall|r: RelFileNode, b: int|
            0 <= b <= u32::MAX ==> spec_file_page(self.image(r), b) == #[trigger] self.page_bytes(
                r,
                b,
            )
    }

    /// Writes every page of the pool to its block of its file. Nothing
    /// changes as seen through the pool; afterwards the files hold what is
    /// seen through the pool.
    pub fn flush_buffers(&mut self)
        requires
            old(self).wf(),
        ensures
            final(self).wf(),
            final(self).extends(old(self)),
            final(self).pool_len() == old(self).pool_len(),
            final(self).same_pages(old(self)),
            final(self).flushed(),
            forall|r: RelFileNode|
                #![trigger final(self).targblock(r)]
                #![trigger final(self).rel_len(r)]
                final(self).targblock(r) == old(self).targblock(r) && final(self).rel_len(r)
                    == old(self).rel_len(r),
    {
        let len = self.buffer_descriptors.len();
        let mut i: usize = 0;
        while i < len
            invariant
                i <= len,
                len == self.pool_len(),
                self.wf(),
                self.extends(old(self)),
                self.pool_len() == old(self).pool_len(),
                self.same_pages(old(self)),
                forall|r: RelFileNode|
                    #![trigger self.targblock(r)]
                    #![trigger self.rel_len(r)]
                    self.targblock(r) == old(self).targblock(r) && self.rel_len(r) == old(self).rel_len(r),
                forall|j: int|
                    0 <= j < i ==> {
                        let t = #[trigger] self.pool_tag(j);
                        &&& t.block_num < spec_nblocks(self.image(t.rnode))
                        &&& spec_block(self.image(t.rnode), t.block_num as int) == self.pool_page(
                            j,
                        ).bytes()
                    },
            decreases len - i,
        {
            let ghost before = *self;
            proof {
                before.lemma_pool_page(i as int);
                before.lemma_targblock(before.pool_tag(i as int).rnode);
                before.smgr.lemma_files_wf(before.pool_tag(i as int).rnode);
                crate::storage_manager::lemma_write_block(
                    before.image(before.pool_tag(i as int).rnode),
                    before.pool_tag(i as int).block_num as int,
                    before.pool_page(i as int).bytes(),
                );
            }
            self.flush_buffer_with_index(i);
            proof {
                let ti = before.pool_tag(i as int);
                assert forall|j: int| 0 <= j < i + 1 implies {
                    let t = #[trigger] self.pool_tag(j);
                    &&& t.block_num < spec_nblocks(self.image(t.rnode))
                    &&& spec_block(self.image(t.rnode), t.block_num as int) == self.pool_page(
                        j,
                    ).bytes()
                } by {
                    let t = self.pool_tag(j);
                    assert(t == before.pool_tag(j));
                    assert(self.pool_page(j) == before.pool_page(j));
                    if j < i {
                        before.lemma_pool_page(j);
                        if t.rnode == ti.rnode {
                            assert(t != ti);
                        } else {
                            assert(self.image(t.rnode) == before.image(t.rnode));
                        }
                    }
                }
                assert forall|r: RelFileNode|
                    #![trigger self.targblock(r)]
                    #![trigger self.rel_len(r)]
                    self.targblock(r) == old(self).targblock(r) && self.rel_len(r) == old(self).rel_len(r) by {
                    assert(before.targblock(r) == old(self).targblock(r));
                    assert(before.rel_len(r) == old(self).rel_len(r));
                    if r != ti.rnode {
                        assert(self.image(r) == before.image(r));
                    }
                }
                assert forall|r: RelFileNode, b: int| 0 <= b <= u32::MAX implies #[trigger]
                    self.page_bytes(r, b) == old(self).page_bytes(r, b) by {
                    assert(before.page_bytes(r, b) == old(self).page_bytes(r, b));
                }
            }
            i += 1;
        }
        proof {
            assert forall|r: RelFileNode, b: int| 0 <= b <= u32::MAX implies spec_file_page(
                self.image(r),
                b,
            ) == #[trigger] self.page_bytes(r, b) by {
                let t = BufferTag { rnode: r, block_num: b as u32 };
                self.lemma_lookup(t);
                match self.lookup(t) {
                    Some(j) => {
                        self.lemma_pool_page(j);
                        assert(self.pool_tag(j) == t);
                        lemma_page_of_block(self.pool_page(j).bytes());
                    },
                    None => {},
                }
            }
        }
    }

    /// Writes every page of the pool to its file and hands over the storage
    /// manager, whose files then hold what was seen through the pool.
    pub fn finish(self) -> (smgr: StorageManager)
        requires
            self.wf(),
        ensures
            smgr.wf(),
            forall|r: RelFileNode|
                #![trigger spec_state(smgr@, r)]
                spec_rel_len(spec_state(smgr@, r).image) == self.rel_len(r) && spec_state(
                    smgr@,
                    r,
                ).targblock == self.targblock(r),
            forall|r: RelFileNode, b: int|
                0 <= b <= u32::MAX ==> spec_file_page(spec_state(smgr@, r).image, b)
                    == #[trigger] self.page_bytes(r, b),
    {
        let mut bm = self;
        bm.flush_buffers();
        proof {
            assert forall|r: RelFileNode, b: int| 0 <= b <= u32::MAX implies spec_file_page(
                spec_state(bm.smgr@, r).image,
                b,
            ) == #[trigger] self.page_bytes(r, b) by {
                assert(bm.page_bytes(r, b) == self.page_bytes(r, b));
            }
            assert forall|r: RelFileNode|
                #![trigger spec_state(bm.smgr@, r)]
                spec_rel_len(spec_state(bm.smgr@, r).image) == self.rel_len(r) && spec_state(
                    bm.smgr@,
                    r,
                ).targblock == self.targblock(r) by {
                assert(bm.targblock(r) == self.targblock(r));
                assert(bm.rel_len(r) == self.rel_len(r));
            }
        }
        bm.smgr
    }

    /// The page at index `i` of the pool was replaced by a well-formed page
    /// of the same size: the pool is as sound as it was, and nothing else
    /// changed.
    proof fn lemma_page_replaced(&self, before: &BufferManager, i: int)
        requires
            before.wf(),
            0 <= i < before.pool_len(),
            self.smgr == before.smgr,
            self.buffer_descriptors == before.buffer_descriptors,
            self.buffer_hash == before.buffer_hash,
            self.pages@ == before.pages@.update(i, self.pages@[i]),
            self.pages@[i].wf(),
            self.pages@[i].block_size() == DEFAULT_BLOCK_SIZE,
        ensures
            self.wf(),
            self.extends(before),
            self.same_files(before),
            self.storage() == before.storage(),
            self.pool_len() == before.pool_len(),
            forall|t: BufferTag| #[trigger] self.lookup(t) == before.lookup(t),
            forall|j: int|
                0 <= j < before.pool_len() && j != i ==> #[trigger] self.pool_page(j)
                    == before.pool_page(j),
            forall|r: RelFileNode, b: int|
                0 <= b <= u32::MAX && (BufferTag { rnode: r, block_num: b as u32 })
                    != before.pool_tag(i) ==> #[trigger] self.page_bytes(r, b)
                    == before.page_bytes(r, b),
            self.page_bytes(before.pool_tag(i).rnode, before.pool_tag(i).block_num as int)
                == self.pages@[i].bytes(),
    {
        assert forall|j: int| 0 <= j < self.pages@.len() implies (#[trigger] self.pages@[j]).wf()
            && self.pages@[j].block_size() == DEFAULT_BLOCK_SIZE by {
            if j != i {
                assert(before.pages@[j].wf());
            }
        }
        assert forall|j: int| 0 <= j < self.pages@.len() implies {
            let d = #[trigger] self.buffer_descriptors@[j];
            &&& d.buf_id == Buffer::Buffer(j as usize)
            &&& self.buffer_hash@.contains_key(spec_tag_key(d.tag))
            &&& self.buffer_hash@[spec_tag_key(d.tag)] == Buffer::Buffer(j as usize)
            &&& d.tag.block_num < self.rel_len(d.tag.rnode)
            &&& self.storage().contains_key(d.tag.rnode)
        } by {
            let d = before.buffer_descriptors@[j];
            assert(before.buffer_hash@[spec_tag_key(d.tag)] == Buffer::Buffer(j as usize));
        }
        assert(self.storage() == before.storage());
        assert forall|rnode: RelFileNode|
            #![trigger self.storage().contains_key(rnode)]
            self.targblock(rnode) == InvalidBlockNumber || self.targblock(rnode) < self.rel_len(
                rnode,
            ) by {
            before.lemma_targblock(rnode);
        }
        assert(self.wf());
        before.lemma_pool_page(i);
        assert forall|r: RelFileNode, b: int|
            0 <= b <= u32::MAX && (BufferTag { rnode: r, block_num: b as u32 }) != before.pool_tag(
                i,
            ) implies #[trigger] self.page_bytes(r, b) == before.page_bytes(r, b) by {
            before.lemma_lookup(BufferTag { rnode: r, block_num: b as u32 });
        }
    }

    /// Appends the tuple of `tuple` to the page at index `i` of the pool,
    /// which has room for it.
    fn page_add_tuple(&mut self, i: usize, tuple: &TupleTableSlot)
        requires
            old(self).wf(),
            i < old(self).pool_len(),
            tuple.heap_tuple.wf(),
            bytes_has_space(old(self).pool_page(i as int).bytes(), tuple.bytes().len() as int),
        ensures
            final(self).wf(),
            final(self).extends(old(self)),
            final(self).same_files(old(self)),
            final(self).pool_len() == old(self).pool_len(),
            final(self).pool_page(i as int).bytes() == spec_add_entry(
                old(self).pool_page(i as int).bytes(),
                tuple.bytes(),
            ),
            forall|r: RelFileNode, b: int|
                0 <= b <= u32::MAX && (BufferTag { rnode: r, block_num: b as u32 }) != old(self).pool_tag(i as int) ==> #[trigger] final(self).page_bytes(r, b) == old(self).page_bytes(r, b),
            final(self).page_bytes(
                old(self).pool_tag(i as int).rnode,
                old(self).pool_tag(i as int).block_num as int,
            ) == spec_add_entry(old(self).pool_page(i as int).bytes(), tuple.bytes()),
    {
        proof {
            self.lemma_pool_page(i as int);
        }
        let r = self.pages[i].add_tuple_slot_entry(tuple);
        proof {
            assert(r is Ok);
            assert(self.pages@ =~= old(self).pages@.update(i as int, self.pages@[i as int]));
            self.lemma_page_replaced(old(self), i as int);
        }
    }

    /// Makes the page at index `i` of the pool empty.
    fn page_init_at(&mut self, i: usize)
        requires
            old(self).wf(),
            i < old(self).pool_len(),
        ensures
            final(self).wf(),
            final(self).extends(old(self)),
            final(self).same_files(old(self)),
            final(self).pool_len() == old(self).pool_len(),
            final(self).pool_page(i as int).bytes() == spec_init_page(
                old(self).pool_page(i as int).bytes(),
            ),
            forall|r: RelFileNode, b: int|
                0 <= b <= u32::MAX && (BufferTag { rnode: r, block_num: b as u32 }) != old(self).pool_tag(i as int) ==> #[trigger] final(self).page_bytes(r, b) == old(self).page_bytes(r, b),
            final(self).page_bytes(
                old(self).pool_tag(i as int).rnode,
                old(self).pool_tag(i as int).block_num as int,
            ) == spec_init_page(old(self).pool_page(i as int).bytes()),
    {
        proof {
            self.lemma_pool_page(i as int);
        }
        self.pages[i].page_init(DEFAULT_BLOCK_SIZE);
        proof {
            assert(self.pages@ =~= old(self).pages@.update(i as int, self.pages@[i as int]));
            self.lemma_page_replaced(old(self), i as int);
        }
    }

    /// Writes `src` over the entry of slot `index` of the page at index `i`
    /// of the pool.
    fn page_put_entry(&mut self, i: usize, index: u16, src: &[u8])
        requires
            old(self).wf(),
            i < old(self).pool_len(),
            index < bytes_item_count(old(self).pool_page(i as int).bytes()),
            src@.len() == bytes_item_len(old(self).pool_page(i as int).bytes(), index as int),
        ensures
            final(self).wf(),
            final(self).extends(old(self)),
            final(self).same_files(old(self)),
            final(self).pool_len() == old(self).pool_len(),
            final(self).pool_page(i as int).bytes() == spec_put_entry(
                old(self).pool_page(i as int).bytes(),
                index as int,
                src@,
            ),
            forall|r: RelFileNode, b: int|
                0 <= b <= u32::MAX && (BufferTag { rnode: r, block_num: b as u32 }) != old(self).pool_tag(i as int) ==> #[trigger] final(self).page_bytes(r, b) == old(self).page_bytes(r, b),
            final(self).page_bytes(
                old(self).pool_tag(i as int).rnode,
                old(self).pool_tag(i as int).block_num as int,
            ) == spec_put_entry(old(self).pool_page(i as int).bytes(), index as int, src@),
    {
        proof {
            self.lemma_pool_page(i as int);
        }
        self.pages[i].put_entry(index, src);
        proof {
            assert(self.pages@ =~= old(self).pages@.update(i as int, self.pages@[i as int]));
            self.lemma_page_replaced(old(self), i as int);
        }
    }

    /// The block that inserts into a relation go to was set to a block of
    /// the relation, and nothing else changed: the pool is as sound as it
    /// was, and everything is seen through it as it was.
    proof fn lemma_targblock_set(&self, before: &BufferManager, rnode: RelFileNode, block: BlockNumber)
        requires
            before.wf(),
            self.smgr.wf(),
            self.buffer_descriptors == before.buffer_descriptors,
            self.pages == before.pages,
            self.buffer_hash == before.buffer_hash,
            self.storage() == before.storage().insert(
                rnode,
                RelState { targblock: block, ..spec_state(before.storage(), rnode) },
            ),
            block < before.rel_len(rnode),
        ensures
            self.wf(),
            self.extends(before),
            self.same_pages(before),
            self.pool_len() == before.pool_len(),
            self.targblock(rnode) == block,
            forall|t: BufferTag| #[trigger] self.lookup(t) == before.lookup(t),
            forall|i: int|
                0 <= i < before.pool_len() ==> #[trigger] self.pool_page(i) == before.pool_page(i),
            forall|r: RelFileNode| #[trigger] self.image(r) == before.image(r),
            forall|r: RelFileNode|
                r != rnode ==> #[trigger] self.targblock(r) == before.targblock(r),
    {
        assert forall|r: RelFileNode| #[trigger] self.image(r) == before.image(r) by {}
        assert forall|i: int| 0 <= i < self.pages@.len() implies {
            let d = #[trigger] self.buffer_descriptors@[i];
            d.tag.block_num < self.rel_len(d.tag.rnode) && self.storage().contains_key(d.tag.rnode)
        } by {
            let d = before.buffer_descriptors@[i];
            assert(before.storage().contains_key(d.tag.rnode));
            assert(self.image(d.tag.rnode) == before.image(d.tag.rnode));
        }
        assert forall|r: RelFileNode|
            #![trigger self.storage().contains_key(r)]
            self.targblock(r) == InvalidBlockNumber || self.targblock(r) < self.rel_len(r) by {
            before.lemma_targblock(r);
            assert(self.image(r) == before.image(r));
        }
    }

    /// Adds a block of zeros at the end of the file of a relation and
    /// brings its page, which is empty, into the pool. Where the first
    /// block of the relation is in the pool only, it is written to the
    /// file first, so that the new block comes behind it.
    fn read_buffer_new_page(&mut self, relation: &RelationData) -> (buffer: Buffer)
        requires
            old(self).wf(),
            old(self).rel_len(relation.smgr_rnode) < MAX_BLOCKS,
            spec_nblocks(old(self).image(relation.smgr_rnode)) > 0 || old(self).lookup(
                BufferTag { rnode: relation.smgr_rnode, block_num: 0 },
            ) is Some,
        ensures
            final(self).wf(),
            final(self).extends(old(self)),
            buffer matches Buffer::Buffer(i) && i < final(self).pool_len() && final(self).pool_tag(
                i as int,
            ) == (BufferTag {
                rnode: relation.smgr_rnode,
                block_num: old(self).rel_len(relation.smgr_rnode) as u32,
            }),
            final(self).rel_len(relation.smgr_rnode) == old(self).rel_len(relation.smgr_rnode)
                + 1,
            final(self).page_bytes(
                relation.smgr_rnode,
                old(self).rel_len(relation.smgr_rnode),
            ) == spec_init_page(spec_zero_block(DEFAULT_BLOCK_SIZE as nat)),
            forall|r: RelFileNode|
                #![trigger final(self).targblock(r)]
                final(self).targblock(r) == old(self).targblock(r),
            forall|r: RelFileNode|
                r != relation.smgr_rnode ==> #[trigger] final(self).image(r) == old(self).image(r),
            forall|r: RelFileNode, b: int|
                0 <= b <= u32::MAX && !(r == relation.smgr_rnode && b == old(self).rel_len(
                    relation.smgr_rnode,
                )) ==> #[trigger] final(self).page_bytes(r, b) == old(self).page_bytes(r, b),
    {
        let rnode = relation.smgr_rnode;
        let mut block_num = self.smgr.mdnblocks(&rnode);
        proof {
            self.lemma_storage_touched(old(self), rnode);
        }
        if block_num == 0 {
            let first = BufferTag { rnode: rnode, block_num: 0 };
            let key = tag_key(&first);
            let ghost s1 = *self;
            proof {
                s1.lemma_lookup(first);
                assert(s1.page_bytes(rnode, 0) == old(self).page_bytes(rnode, 0));
            }
            match self.buffer_hash.get(&key) {
                Some(buffer) => {
                    let i = unwrap_buffer_id(*buffer);
                    proof {
                        s1.lemma_pool_page(i as int);
                        s1.smgr.lemma_files_wf(rnode);
                        crate::storage_manager::lemma_write_block(
                            s1.image(rnode),
                            0,
                            s1.pool_page(i as int).bytes(),
                        );
                    }
                    self.flush_buffer_with_index(i);
                },
                None => {
                    assert(false);
                },
            }
            let ghost s2 = *self;
            block_num = self.smgr.mdnblocks(&rnode);
            proof {
                self.lemma_storage_touched(&s2, rnode);
                assert forall|r: RelFileNode, b: int| 0 <= b <= u32::MAX implies #[trigger]
                    self.page_bytes(r, b) == old(self).page_bytes(r, b) by {
                    assert(s2.page_bytes(r, b) == s1.page_bytes(r, b));
                    assert(s1.page_bytes(r, b) == old(self).page_bytes(r, b));
                }
                assert forall|r: RelFileNode|
                    #![trigger self.targblock(r)]
                    self.targblock(r) == old(self).targblock(r) by {
                    assert(s2.targblock(r) == s1.targblock(r));
                    assert(s1.targblock(r) == old(self).targblock(r));
                }
                assert forall|r: RelFileNode| r != rnode implies #[trigger] self.image(r) == old(self).image(r) by {
                    assert(s2.image(r) == s1.image(r));
                    assert(s1.image(r) == old(self).image(r));
                }
                assert forall|i: int| 0 <= i < old(self).pool_len() implies #[trigger] self.pool_tag(
                    i,
                ) == old(self).pool_tag(i) by {
                    assert(s2.pool_tag(i) == s1.pool_tag(i));
                }
            }
        }
        let tag = BufferTag { rnode: rnode, block_num: block_num };
        let ghost touched = *self;
        proof {
            assert(block_num == old(self).rel_len(rnode));
            assert(touched.same_pages(old(self)));
            touched.lemma_lookup(tag);
            if touched.lookup(tag) is Some {
                touched.lemma_pool_page(touched.lookup(tag)->0);
            }
        }
        let buffer = self.read_buffer_common(relation, tag, true);
        proof {
            let image = touched.image(rnode);
            assert(spec_nblocks(image + spec_zero_block(DEFAULT_BLOCK_SIZE as nat)) == spec_nblocks(
                image,
            ) + 1);
            self.lemma_pool_page(buffer->Buffer_0 as int);
            assert forall|r: RelFileNode, b: int|
                0 <= b <= u32::MAX && !(r == rnode && b == old(self).rel_len(
                    rnode,
                )) implies #[trigger] self.page_bytes(r, b) == old(self).page_bytes(r, b) by {
                let t = BufferTag { rnode: r, block_num: b as u32 };
                assert(touched.page_bytes(r, b) == old(self).page_bytes(r, b));
                assert(self.lookup(t) == touched.lookup(t));
                touched.lemma_lookup(t);
                if self.lookup(t) is None {
                    if r == rnode {
                        if b < spec_nblocks(image) {
                            assert(spec_block(
                                image + spec_zero_block(DEFAULT_BLOCK_SIZE as nat),
                                b,
                            ) =~= spec_block(image, b));
                        }
                    } else {
                        assert(self.image(r) == touched.image(r));
                    }
                }
            }
        }
        buffer
    }

    /// The buffer that a tuple of `len` bytes goes to: that of the block
    /// tried first if the tuple fits there, else that of a new, empty block
    /// at the end of the relation. Inserts go to that block from now on.
    fn relation_get_buffer_for_tuple(&mut self, relation: &RelationData, len: u32) -> (buffer:
        Buffer)
        requires
            old(self).wf(),
            0 < len,
            len + ITEM_ID_DATA_BYTE_SIZE <= MAX_HEAP_TUPLE_SIZE,
            old(self).rel_len(relation.smgr_rnode) < MAX_BLOCKS,
        ensures
            final(self).wf(),
            final(self).extends(old(self)),
            ({
                let rnode = relation.smgr_rnode;
                let pages = old(self).rel_pages(rnode);
                let target = spec_insert_target(pages, old(self).targblock(rnode));
                let fits = len <= bytes_free_space(pages[target]);
                let block = if fits {
                    target
                } else {
                    pages.len() as int
                };
                &&& buffer matches Buffer::Buffer(i) && i < final(self).pool_len() && final(self).pool_tag(i as int) == (BufferTag { rnode: rnode, block_num: block as u32 })
                &&& final(self).targblock(rnode) == block
                &&& final(self).rel_pages(rnode) == (if fits {
                    pages
                } else {
                    pages.push(spec_init_page(spec_zero_block(DEFAULT_BLOCK_SIZE as nat)))
                })
                &&& bytes_has_space(
                    final(self).pool_page(buffer->Buffer_0 as int).bytes(),
                    len as int,
                )
            }),
            forall|r: RelFileNode|
                r != relation.smgr_rnode ==> #[trigger] final(self).rel_pages(r) == old(self).rel_pages(r),
            forall|r: RelFileNode|
                r != relation.smgr_rnode ==> #[trigger] final(self).targblock(r) == old(self).targblock(r),
    {
        let rnode = relation.smgr_rnode;
        let ghost s0 = *self;
        let ghost pages = s0.rel_pages(rnode);
        proof {
            s0.lemma_targblock(rnode);
        }
        let mut target_block = self.smgr.targblock(&rnode);
        proof {
            self.lemma_storage_touched(&s0, rnode);
        }
        let ghost s1 = *self;
        if target_block == InvalidBlockNumber {
            let nblocks = self.smgr.mdnblocks(&rnode);
            proof {
                self.lemma_storage_touched(&s1, rnode);
            }
            if nblocks > 0 {
                target_block = nblocks - 1;
            } else {
                target_block = 0;
            }
        }
        let ghost s2 = *self;
        proof {
            assert(s2.wf());
            assert(s2.image(rnode) == s0.image(rnode));
            assert(target_block == spec_insert_target(pages, s0.targblock(rnode)));
        }
        let buffer = self.read_buffer(relation, target_block);
        let ghost s3 = *self;
        let page_free_space = self.get_page_free_space(buffer);
        proof {
            // Through all of this the relations were seen as they were.
            s2.lemma_frames_compose(&s1, &s0);
            s3.lemma_frames_compose(&s2, &s0);
            s3.lemma_pool_page(buffer->Buffer_0 as int);
            s3.lemma_page_bytes(rnode, target_block as int);
            assert(s3.pool_page(buffer->Buffer_0 as int).bytes() == pages[target_block as int]);
        }
        if (len as usize) <= page_free_space {
            self.smgr.set_targblock(&rnode, target_block);
            proof {
                self.lemma_targblock_set(&s3, rnode, target_block);
                assert forall|r: RelFileNode| #[trigger] self.rel_pages(r) == s0.rel_pages(r) by {
                    s0.lemma_targblock(r);
                    assert(self.image(r) == s3.image(r));
                    assert forall|b: int| 0 <= b < s0.rel_len(r) implies self.page_bytes(r, b)
                        == s0.page_bytes(r, b) by {
                        assert(self.page_bytes(r, b) == s3.page_bytes(r, b));
                    }
                    assert(self.rel_pages(r) =~= s0.rel_pages(r));
                }
                assert forall|r: RelFileNode| r != rnode implies #[trigger] self.targblock(r)
                    == s0.targblock(r) by {
                    assert(s3.targblock(r) == s0.targblock(r));
                }
                assert forall|i: int| 0 <= i < s0.pool_len() implies #[trigger] self.pool_tag(i)
                    == s0.pool_tag(i) by {
                    assert(self.pool_tag(i) == s3.pool_tag(i));
                }
            }
            return buffer;
        }
        proof {
            s3.lemma_lookup(BufferTag { rnode: rnode, block_num: 0 });
            if spec_nblocks(s3.image(rnode)) == 0 {
                assert(target_block == 0);
            }
        }
        let buffer = self.read_buffer_new_page(relation);
        let ghost s4 = *self;
        let buf = unwrap_buffer_id(buffer);
        proof {
            s4.lemma_pool_page(buf as int);
        }
        self.page_init_at(buf);
        let ghost s5 = *self;
        let block_num = self.buffer_get_block_number(buffer);
        self.smgr.set_targblock(&rnode, block_num);
        proof {
            let fresh = spec_init_page(spec_zero_block(DEFAULT_BLOCK_SIZE as nat));
            lemma_init_page(spec_zero_block(DEFAULT_BLOCK_SIZE as nat));
            assert(spec_init_page(fresh) =~= fresh);
            assert(s5.image(rnode) == s4.image(rnode));
            self.lemma_targblock_set(&s5, rnode, block_num);
            self.lemma_pool_page(buf as int);
            let n = s0.rel_len(rnode);
            assert(s4.pool_tag(buf as int) == s5.pool_tag(buf as int));
            assert forall|r: RelFileNode, b: int|
                0 <= b <= u32::MAX && !(r == rnode && b == n) implies #[trigger] self.page_bytes(
                    r,
                    b,
                ) == s0.page_bytes(r, b) by {
                assert(self.page_bytes(r, b) == s5.page_bytes(r, b));
                assert((BufferTag { rnode: r, block_num: b as u32 }) != s4.pool_tag(buf as int));
                assert(s5.page_bytes(r, b) == s4.page_bytes(r, b));
                assert(s4.page_bytes(r, b) == s3.page_bytes(r, b));
            }
            assert(self.page_bytes(rnode, n) == fresh) by {
                assert(self.page_bytes(rnode, n) == s5.page_bytes(rnode, n));
            }
            assert(self.rel_pages(rnode) =~= pages.push(fresh));
            assert forall|r: RelFileNode| r != rnode implies #[trigger] self.rel_pages(r)
                == s0.rel_pages(r) by {
                s0.lemma_targblock(r);
                assert(self.image(r) == s5.image(r));
                assert(s5.image(r) == s4.image(r));
                assert(s4.image(r) == s3.image(r));
                assert(s3.image(r) == s0.image(r));
                assert forall|b: int| 0 <= b < s0.rel_len(r) implies self.page_bytes(r, b)
                    == s0.page_bytes(r, b) by {}
                assert(self.rel_pages(r) =~= s0.rel_pages(r));
            }
            assert forall|r: RelFileNode| r != rnode implies #[trigger] self.targblock(r)
                == s0.targblock(r) by {
                assert(self.targblock(r) == s5.targblock(r));
                assert(s5.targblock(r) == s4.targblock(r));
                assert(s4.targblock(r) == s3.targblock(r));
                assert(s3.targblock(r) == s0.targblock(r));
            }
            assert forall|i: int| 0 <= i < s0.pool_len() implies #[trigger] self.pool_tag(i)
                == s0.pool_tag(i) by {
                assert(self.pool_tag(i) == s5.pool_tag(i));
                assert(s5.pool_tag(i) == s4.pool_tag(i));
                assert(s4.pool_tag(i) == s3.pool_tag(i));
            }
        }
        buffer
    }

    /// Appends the tuple of `tuple` to the page of a buffer, which has room
    /// for it.
    fn relation_put_heap_tuple(&mut self, buffer: Buffer, tuple: &TupleTableSlot)
        requires
            old(self).wf(),
            buffer matches Buffer::Buffer(i) && i < old(self).pool_len(),
            tuple.heap_tuple.wf(),
            bytes_has_space(
                old(self).pool_page(buffer->Buffer_0 as int).bytes(),
                tuple.bytes().len() as int,
            ),
        ensures
            final(self).wf(),
            final(self).extends(old(self)),
            final(self).same_files(old(self)),
            final(self).pool_len() == old(self).pool_len(),
            forall|r: RelFileNode, b: int|
                0 <= b <= u32::MAX && (BufferTag { rnode: r, block_num: b as u32 }) != old(self).pool_tag(buffer->Buffer_0 as int) ==> #[trigger] final(self).page_bytes(r, b)
                    == old(self).page_bytes(r, b),
            final(self).page_bytes(
                old(self).pool_tag(buffer->Buffer_0 as int).rnode,
                old(self).pool_tag(buffer->Buffer_0 as int).block_num as int,
            ) == spec_add_entry(
                old(self).pool_page(buffer->Buffer_0 as int).bytes(),
                tuple.bytes(),
            ),
    {
        let buf = unwrap_buffer_id(buffer);
        self.page_add_tuple(buf, tuple);
    }

    /// Inserts the tuple of `tuple` into a relation. The tuple goes to the
    /// block that inserts go to, or to the last block of the relation if
    /// there is none yet; if it does not fit there, it goes to a new block
    /// at the end of the relation. Inserts go to the tuple's block from
    /// then on. Nothing else changes in any relation.
    pub fn heap_insert(&mut self, relation: &RelationData, tuple: &TupleTableSlot)
        requires
            old(self).wf(),
            tuple.heap_tuple.wf(),
            0 < tuple.bytes().len(),
            tuple.bytes().len() + ITEM_ID_DATA_BYTE_SIZE <= MAX_HEAP_TUPLE_SIZE,
            old(self).rel_len(relation.smgr_rnode) < MAX_BLOCKS,
        ensures
            final(self).wf(),
            final(self).extends(old(self)),
            final(self).rel_pages(relation.smgr_rnode) == spec_heap_insert_pages(
                old(self).rel_pages(relation.smgr_rnode),
                old(self).targblock(relation.smgr_rnode),
                tuple.bytes(),
            ),
            final(self).targblock(relation.smgr_rnode) == spec_heap_insert_block(
                old(self).rel_pages(relation.smgr_rnode),
                old(self).targblock(relation.smgr_rnode),
                tuple.bytes(),
            ),
            forall|r: RelFileNode|
                r != relation.smgr_rnode ==> #[trigger] final(self).rel_pages(r) == old(self).rel_pages(r),
            forall|r: RelFileNode|
                r != relation.smgr_rnode ==> #[trigger] final(self).targblock(r) == old(self).targblock(r),
    {
        let rnode = relation.smgr_rnode;
        let ghost s0 = *self;
        let buffer = self.relation_get_buffer_for_tuple(relation, tuple.len());
        let ghost s1 = *self;
        proof {
            s1.lemma_pool_page(buffer->Buffer_0 as int);
            s1.lemma_targblock(rnode);
        }
        self.relation_put_heap_tuple(buffer, tuple);
        proof {
            let tag = s1.pool_tag(buffer->Buffer_0 as int);
            let block = tag.block_num as int;
            assert(self.image(rnode) == s1.image(rnode));
            assert(self.rel_pages(rnode) =~= s1.rel_pages(rnode).update(
                block,
                spec_add_entry(s1.rel_pages(rnode)[block], tuple.bytes()),
            ));
            assert(self.rel_pages(rnode) =~= spec_heap_insert_pages(
                s0.rel_pages(rnode),
                s0.targblock(rnode),
                tuple.bytes(),
            ));
            assert forall|r: RelFileNode| r != rnode implies #[trigger] self.rel_pages(r)
                == s0.rel_pages(r) by {
                s1.lemma_targblock(r);
                assert(self.image(r) == s1.image(r));
                assert(self.rel_pages(r) =~= s1.rel_pages(r));
            }
            assert forall|r: RelFileNode| r != rnode implies #[trigger] self.targblock(r)
                == s0.targblock(r) by {
                assert(self.targblock(r) == s1.targblock(r));
            }
            assert forall|i: int| 0 <= i < s0.pool_len() implies #[trigger] self.pool_tag(i)
                == s0.pool_tag(i) by {
                assert(self.pool_tag(i) == s1.pool_tag(i));
            }
        }
    }

    /// Marks the tuple `tid` of a relation as deleted: the mark is set in
    /// the header of the tuple, in place. The line pointer of the tuple,
    /// its other bytes and everything else in any relation stay as they
    /// were.
    pub fn heap_delete(&mut self, relation: &RelationData, tid: &ItemPointerData)
        requires
            old(self).wf(),
            tid.ip_blkid < old(self).rel_len(relation.smgr_rnode),
            tid.ip_posid < bytes_item_count(
                old(self).rel_pages(relation.smgr_rnode)[tid.ip_blkid as int],
            ),
            bytes_item_len(
                old(self).rel_pages(relation.smgr_rnode)[tid.ip_blkid as int],
                tid.ip_posid as int,
            ) >= 2,
        ensures
            final(self).wf(),
            final(self).extends(old(self)),
            final(self).same_files(old(self)),
            final(self).rel_pages(relation.smgr_rnode) == old(self).rel_pages(
                relation.smgr_rnode,
            ).update(
                tid.ip_blkid as int,
                spec_heap_delete_page(
                    old(self).rel_pages(relation.smgr_rnode)[tid.ip_blkid as int],
                    tid.ip_posid as int,
                ),
            ),
            forall|r: RelFileNode|
                r != relation.smgr_rnode ==> #[trigger] final(self).rel_pages(r) == old(self).rel_pages(r),
    {
        let rnode = relation.smgr_rnode;
        let ghost s0 = *self;
        let block = crate::tuple::item_pointer_get_block_number(tid);
        let buffer = self.read_buffer(relation, block);
        let ghost s1 = *self;
        let buf = unwrap_buffer_id(buffer);
        proof {
            s1.lemma_pool_page(buf as int);
            s0.lemma_targblock(rnode);
        }
        let page = self.get_page(buffer);
        let lineoff = tid.item_pointer_get_offset_number();
        let lp = page.get_item_ref(lineoff);
        let len = lp.lp_len();
        let mut tuple_data = HeapTupleData::new_with_full_len(len as u32);
        proof {
            lemma_entry_bounds(page.bytes(), lineoff as int);
        }
        match page.get_entry_pointer(lineoff) {
            Ok(entry) => {
                tuple_data.load_without_len(entry, *tid);
                assert(tuple_data.t_data.bytes() == bytes_entry(page.bytes(), lineoff as int)) by {
                    assert(entry@.subrange(0, len as int) == entry@);
                }
            },
            Err(_) => {
                assert(false);
            },
        }
        tuple_data.t_data.set_heap_keys_updated();
        proof {
            lemma_mark_deleted(bytes_entry(s1.pool_page(buf as int).bytes(), lineoff as int));
        }
        self.page_put_entry(buf, lineoff, tuple_data.data_ptr());
        proof {
            assert(self.image(rnode) == s0.image(rnode));
            assert(self.rel_pages(rnode) =~= s0.rel_pages(rnode).update(
                block as int,
                spec_heap_delete_page(s0.rel_pages(rnode)[block as int], lineoff as int),
            ));
            assert forall|r: RelFileNode| r != rnode implies #[trigger] self.rel_pages(r)
                == s0.rel_pages(r) by {
                s0.lemma_targblock(r);
                assert(self.image(r) == s0.image(r));
                assert(self.rel_pages(r) =~= s0.rel_pages(r));
            }
            assert forall|i: int| 0 <= i < s0.pool_len() implies #[trigger] self.pool_tag(i)
                == s0.pool_tag(i) by {
                assert(self.pool_tag(i) == s1.pool_tag(i));
            }
            assert forall|r: RelFileNode|
                #![trigger self.image(r)]
                #![trigger self.targblock(r)]
                self.image(r) == s0.image(r) && self.targblock(r) == s0.targblock(r) by {
                assert(self.image(r) == s1.image(r) && self.targblock(r) == s1.targblock(r));
            }
        }
    }
}

} // verus!
