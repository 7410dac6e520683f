//! The storage manager: the heap file of each relation, addressed block by
//! block.
//!
//! A heap file is held as the sequence of its bytes. The program around the
//! engine hands over what a file holds before a statement runs and writes
//! back what it holds afterwards.

use crate::buffer_manager::{BlockNumber, InvalidBlockNumber, RelFileNode};
use crate::config::{Config, DEFAULT_BLOCK_SIZE};
use crate::oid_manager::{Oid, DUMMY_OID};
use crate::page::{block_is_new, block_ok, check_block, copy_range, lemma_init_page,
    lemma_page_of_block, page_bytes_wf, spec_init_page, spec_overwrite, spec_page_of_block,
    spec_zero_block, write_bytes};
use std::collections::HashMap;
use vstd::prelude::*;
use vstd::slice::slice_subrange;

verus! {

broadcast use vstd::std_specs::hash::group_hash_axioms;

pub type BlockNum = BlockNumber;

/// The most blocks a heap file can have: the offset of each block is a
/// 32-bit number.
pub const MAX_BLOCKS: BlockNum = 0x7FFFF;

/// A relation: the file that holds its tuples.
#[derive(Debug, Clone, Copy, PartialEq, Eq, Structural)]
pub struct RelationData {
    /// The relation's physical identifier.
    pub rd_node: RelFileNode,
    /// Names the relation's file to the storage manager.
    pub smgr_rnode: RelFileNode,
}

/// The relations that were asked for, each under the file node that names
/// its file: the database and the table together.
pub struct RelationManager {
    config: Config,
    cache: HashMap<u64, RelationData>,
}

/// The relation of a table of a database, as `get_relation` makes it.
pub open spec fn spec_new_relation(db_oid: Oid, table_oid: Oid) -> RelationData {
    RelationData {
        rd_node: RelFileNode { table_oid: table_oid, db_oid: DUMMY_OID },
        smgr_rnode: RelFileNode { table_oid: table_oid, db_oid: db_oid },
    }
}

/// The key under which a relation is kept: database and table side by side
/// in one number.
pub open spec fn spec_rel_key(rnode: RelFileNode) -> u64 {
    (rnode.db_oid as int * 0x1_0000_0000 + rnode.table_oid as int) as u64
}

/// Different file nodes have different keys.
pub proof fn lemma_rel_key_injective(a: RelFileNode, b: RelFileNode)
    requires
        spec_rel_key(a) == spec_rel_key(b),
    ensures
        a == b,
{
}

fn rel_key(db_oid: Oid, table_oid: Oid) -> (key: u64)
    ensures
        key == spec_rel_key(RelFileNode { table_oid: table_oid, db_oid: db_oid }),
{
    (db_oid as u64) * 0x1_0000_0000 + (table_oid as u64)
}

impl RelationManager {
    /// Each relation that is kept is the relation of the file node that it
    /// is kept under.
    #[verifier::type_invariant]
    closed spec fn inv(self) -> bool {
        forall|rnode: RelFileNode|
            self.cache@.contains_key(#[trigger] spec_rel_key(rnode)) ==> self.cache@[spec_rel_key(
                rnode,
            )] == spec_new_relation(rnode.db_oid, rnode.table_oid)
    }

    /// The relations that were asked for, by the file node of each.
    pub closed spec fn relations(&self) -> Map<RelFileNode, RelationData> {
        Map::new(
            |rnode: RelFileNode| self.cache@.contains_key(spec_rel_key(rnode)),
            |rnode: RelFileNode| self.cache@[spec_rel_key(rnode)],
        )
    }

    pub fn new(config: Config) -> (rm: RelationManager)
        ensures
            rm.relations() == Map::<RelFileNode, RelationData>::empty(),
    {
        let rm = RelationManager { config: config, cache: HashMap::new() };
        assert(rm.relations() =~= Map::<RelFileNode, RelationData>::empty());
        rm
    }

    /// The relation of the table `table_oid` of the database `db_oid`: its
    /// file node names both. The relation is kept, and a later call for the
    /// same two gets the one that is kept; what is kept for others stays.
    pub fn get_relation(&mut self, db_oid: Oid, table_oid: Oid) -> (relation: RelationData)
        ensures
            relation == spec_new_relation(db_oid, table_oid),
            relation.smgr_rnode == (RelFileNode { table_oid: table_oid, db_oid: db_oid }),
            old(self).relations().contains_key(RelFileNode { table_oid: table_oid, db_oid: db_oid })
                ==> relation == old(self).relations()[RelFileNode {
                table_oid: table_oid,
                db_oid: db_oid,
            }] && final(self).relations() == old(self).relations(),
            final(self).relations() == old(self).relations().insert(
                RelFileNode { table_oid: table_oid, db_oid: db_oid },
                relation,
            ),
    {
        proof {
            use_type_invariant(&*self);
        }
        let ghost rnode = RelFileNode { table_oid: table_oid, db_oid: db_oid };
        let key = rel_key(db_oid, table_oid);
        match self.cache.get(&key) {
            Some(kept) => {
                let relation = *kept;
                assert(self.relations() =~= old(self).relations().insert(rnode, relation));
                relation
            },
            None => {
                let rd_node = RelFileNode { table_oid: table_oid, db_oid: DUMMY_OID };
                let smgr_rnode = RelFileNode { table_oid: table_oid, db_oid: db_oid };
                let relation = RelationData { rd_node: rd_node, smgr_rnode: smgr_rnode };
                let mut cache: HashMap<u64, RelationData> = HashMap::new();
                std::mem::swap(&mut cache, &mut self.cache);
                cache.insert(key, relation);
                proof {
                    assert forall|other: RelFileNode|
                        cache@.contains_key(#[trigger] spec_rel_key(other)) implies cache@[spec_rel_key(
                        other,
                    )] == spec_new_relation(other.db_oid, other.table_oid) by {
                        if spec_rel_key(other) == key {
                            lemma_rel_key_injective(other, rnode);
                        }
                    }
                }
                self.cache = cache;
                assert(self.relations() =~= old(self).relations().insert(rnode, relation)) by {
                    assert forall|other: RelFileNode| other != rnode implies spec_rel_key(other)
                        != key by {
                        if spec_rel_key(other) == key {
                            lemma_rel_key_injective(other, rnode);
                        }
                    }
                }
                relation
            },
        }
    }
}

// ---------------------------------------------------------------------
// A heap file as a sequence of bytes
// ---------------------------------------------------------------------

/// The number of whole blocks in a file.
pub open spec fn spec_nblocks(file: Seq<u8>) -> int {
    file.len() as int / (DEFAULT_BLOCK_SIZE as int)
}

/// The bytes of block `block` of a file.
pub open spec fn spec_block(file: Seq<u8>, block: int) -> Seq<u8> {
    file.subrange(block * DEFAULT_BLOCK_SIZE, (block + 1) * DEFAULT_BLOCK_SIZE)
}

/// Whether bytes are whole blocks, no more of them than a file can have.
pub open spec fn spec_file_whole(file: Seq<u8>) -> bool {
    &&& file.len() % (DEFAULT_BLOCK_SIZE as nat) == 0
    &&& spec_nblocks(file) <= MAX_BLOCKS
}

/// Whether bytes are a heap file: whole blocks, no more of them than a file
/// can have, each of which can be taken as a page.
pub open spec fn spec_file_wf(file: Seq<u8>) -> bool {
    &&& spec_file_whole(file)
    &&& forall|b: int| 0 <= b < spec_nblocks(file) ==> block_ok(#[trigger] spec_block(file, b))
}

/// A file after a block was written at `block`: a file that ended before
/// that block grows by zeros up to it.
pub open spec fn spec_write_block(file: Seq<u8>, block: int, buf: Seq<u8>) -> Seq<u8> {
    let end = (block + 1) * DEFAULT_BLOCK_SIZE;
    let grown = if file.len() < end {
        file + spec_zero_block((end - file.len()) as nat)
    } else {
        file
    };
    spec_overwrite(grown, block * DEFAULT_BLOCK_SIZE, buf)
}

/// Writing a block into a file of whole blocks gives a file of whole
/// blocks that holds the block where it was written, has grown to hold it
/// if it ended before, and holds the other blocks that it had as they were.
pub proof fn lemma_write_whole(file: Seq<u8>, block: int, buf: Seq<u8>)
    requires
        spec_file_whole(file),
        0 <= block < MAX_BLOCKS,
        buf.len() == DEFAULT_BLOCK_SIZE,
    ensures
        ({
            let after = spec_write_block(file, block, buf);
            &&& spec_file_whole(after)
            &&& spec_nblocks(after) == (if spec_nblocks(file) <= block {
                block + 1
            } else {
                spec_nblocks(file)
            })
            &&& spec_block(after, block) == buf
            &&& forall|b: int|
                0 <= b < spec_nblocks(file) && b != block ==> #[trigger] spec_block(after, b)
                    == spec_block(file, b)
        }),
{
    let bs = DEFAULT_BLOCK_SIZE as int;
    let end = (block + 1) * bs;
    let grown = if file.len() < end {
        file + spec_zero_block((end - file.len()) as nat)
    } else {
        file
    };
    let after = spec_overwrite(grown, block * bs, buf);
    assert(after == spec_write_block(file, block, buf));
    assert(after.len() == grown.len());
    assert(end % bs == 0) by (nonlinear_arith)
        requires
            end == (block + 1) * bs,
            bs == 8192,
    ;
    assert(grown.len() % (bs as nat) == 0);
    assert(spec_block(after, block) =~= buf);
    assert forall|b: int| 0 <= b < spec_nblocks(file) && b != block implies #[trigger] spec_block(
        after,
        b,
    ) == spec_block(file, b) by {
        assert(spec_block(after, b) =~= spec_block(file, b));
    }
}

/// Writing a block as the next block of a file of whole blocks puts it
/// behind what the file held: the file is longer by one block, holds the
/// block at its end, and holds before it what it held.
pub proof fn lemma_extend_file(file: Seq<u8>, buf: Seq<u8>)
    requires
        file.len() % (DEFAULT_BLOCK_SIZE as nat) == 0,
        buf.len() == DEFAULT_BLOCK_SIZE,
    ensures
        ({
            let block = spec_nblocks(file);
            let after = spec_write_block(file, block, buf);
            &&& after == file + buf
            &&& after.len() == file.len() + DEFAULT_BLOCK_SIZE
            &&& after.len() % (DEFAULT_BLOCK_SIZE as nat) == 0
            &&& after.subrange(block * DEFAULT_BLOCK_SIZE, (block + 1) * DEFAULT_BLOCK_SIZE) == buf
            &&& after.subrange(0, file.len() as int) == file
            &&& spec_nblocks(after) == block + 1
        }),
{
    let bs = DEFAULT_BLOCK_SIZE as int;
    let block = spec_nblocks(file);
    let after = spec_write_block(file, block, buf);
    assert(file.len() == block * bs);
    assert((block + 1) * bs == block * bs + bs) by (nonlinear_arith);
    assert(after =~= file + buf);
    assert(after.subrange(block * bs, (block + 1) * bs) =~= buf);
    assert(after.subrange(0, file.len() as int) =~= file);
    assert(after.len() == (block + 1) * bs);
    assert(((block + 1) * bs) % bs == 0 && ((block + 1) * bs) / bs == block + 1)
        by (nonlinear_arith)
        requires
            bs == 8192,
            block >= 0,
    ;
}

/// Writing a block that can be taken as a page into a heap file gives a
/// heap file that holds the block where it was written, has grown to hold
/// it if it ended before, and is otherwise as it was.
pub proof fn lemma_write_block(file: Seq<u8>, block: int, buf: Seq<u8>)
    requires
        spec_file_wf(file),
        0 <= block < MAX_BLOCKS,
        block_ok(buf),
    ensures
        ({
            let after = spec_write_block(file, block, buf);
            &&& spec_file_wf(after)
            &&& spec_nblocks(after) == (if spec_nblocks(file) <= block {
                block + 1
            } else {
                spec_nblocks(file)
            })
            &&& spec_block(after, block) == buf
            &&& forall|b: int|
                0 <= b < spec_nblocks(file) && b != block ==> #[trigger] spec_block(after, b)
                    == spec_block(file, b)
            &&& forall|b: int|
                spec_nblocks(file) <= b < block ==> block_is_new(#[trigger] spec_block(after, b))
        }),
{
    let bs = DEFAULT_BLOCK_SIZE as int;
    let end = (block + 1) * bs;
    let grown = if file.len() < end {
        file + spec_zero_block((end - file.len()) as nat)
    } else {
        file
    };
    let after = spec_overwrite(grown, block * bs, buf);
    assert(after == spec_write_block(file, block, buf));
    assert(after.len() == grown.len());
    assert(end % bs == 0) by (nonlinear_arith)
        requires
            end == (block + 1) * bs,
            bs == 8192,
    ;
    assert(grown.len() % (bs as nat) == 0);
    assert(spec_block(after, block) =~= buf);
    assert forall|b: int| 0 <= b < spec_nblocks(file) && b != block implies #[trigger] spec_block(
        after,
        b,
    ) == spec_block(file, b) by {
        assert(spec_block(after, b) =~= spec_block(file, b));
    }
    assert forall|b: int| spec_nblocks(file) <= b < block implies block_is_new(
        #[trigger] spec_block(after, b),
    ) by {
        let blk = spec_block(after, b);
        assert(blk[2] == 0 && blk[3] == 0);
    }
    assert forall|b: int| 0 <= b < spec_nblocks(after) implies block_ok(
        #[trigger] spec_block(after, b),
    ) by {
        if b == block {
        } else if b < spec_nblocks(file) {
            assert(block_ok(spec_block(file, b)));
        } else {
            let blk = spec_block(after, b);
            assert(blk[2] == 0 && blk[3] == 0);
        }
    }
}

/// The number of blocks of a relation whose file holds `file`: a relation
/// without a block on disk has a first block all the same, which is empty.
pub open spec fn spec_rel_len(file: Seq<u8>) -> int {
    if spec_nblocks(file) == 0 {
        1
    } else {
        spec_nblocks(file)
    }
}

/// The page that block `block` of a file stands for; an empty page for a
/// block that the file does not hold.
pub open spec fn spec_file_page(file: Seq<u8>, block: int) -> Seq<u8> {
    if 0 <= block < spec_nblocks(file) {
        spec_page_of_block(spec_block(file, block))
    } else {
        spec_init_page(spec_zero_block(DEFAULT_BLOCK_SIZE as nat))
    }
}

/// The pages of a relation whose file holds `file`.
pub open spec fn spec_file_pages(file: Seq<u8>) -> Seq<Seq<u8>> {
    Seq::new(spec_rel_len(file) as nat, |b: int| spec_file_page(file, b))
}

/// The length of a heap file is a multiple of the block size.
pub proof fn lemma_file_length(file: Seq<u8>)
    requires
        spec_file_wf(file),
    ensures
        file.len() % (DEFAULT_BLOCK_SIZE as nat) == 0,
        file.len() == spec_nblocks(file) * DEFAULT_BLOCK_SIZE,
{
}

/// Every block of a heap file stands for a well-formed page of the default
/// size.
pub proof fn lemma_file_page(file: Seq<u8>, block: int)
    requires
        spec_file_wf(file),
    ensures
        page_bytes_wf(spec_file_page(file, block)),
        spec_file_page(file, block).len() == DEFAULT_BLOCK_SIZE,
{
    if 0 <= block < spec_nblocks(file) {
        assert(block_ok(spec_block(file, block)));
        lemma_page_of_block(spec_block(file, block));
    } else {
        lemma_init_page(spec_zero_block(DEFAULT_BLOCK_SIZE as nat));
    }
}

/// Whether bytes are a heap file.
pub fn check_file(file: &[u8]) -> (ok: bool)
    ensures
        ok == spec_file_wf(file@),
{
    let bs = DEFAULT_BLOCK_SIZE as usize;
    let len = file.len();
    if len % bs != 0 {
        return false;
    }
    let nblocks = len / bs;
    if nblocks > MAX_BLOCKS as usize {
        return false;
    }
    let mut b: usize = 0;
    while b < nblocks
        invariant
            b <= nblocks,
            bs == DEFAULT_BLOCK_SIZE,
            len == file@.len(),
            len % bs == 0,
            nblocks == spec_nblocks(file@),
            forall|k: int| 0 <= k < b ==> block_ok(#[trigger] spec_block(file@, k)),
        decreases nblocks - b,
    {
        let block = slice_subrange(file, b * bs, (b + 1) * bs);
        assert(block@ == spec_block(file@, b as int));
        if !check_block(block) {
            return false;
        }
        b += 1;
    }
    true
}

// ---------------------------------------------------------------------
// One relation's file
// ---------------------------------------------------------------------

/// What the storage manager holds of one relation.
pub struct RelState {
    /// The bytes of the relation's file; none where there is no file.
    pub image: Seq<u8>,
    /// Whether the file was opened, and so exists from then on.
    pub opened: bool,
    /// The block that inserts go to; invalid until the first insert.
    pub targblock: BlockNum,
}

/// What is held of a relation that was not touched yet: no bytes, not
/// opened, no target block.
pub open spec fn spec_untouched() -> RelState {
    RelState { image: Seq::<u8>::empty(), opened: false, targblock: InvalidBlockNumber }
}

/// The file of one relation, and the block that inserts go to.
pub struct SMgrRelationData {
    smgr_rnode: RelFileNode,
    file: Vec<u8>,
    opened: bool,
    smgr_targblock: BlockNum,
}

impl View for SMgrRelationData {
    type V = RelState;

    closed spec fn view(&self) -> RelState {
        RelState { image: self.file@, opened: self.opened, targblock: self.smgr_targblock }
    }
}

impl SMgrRelationData {
    /// The relation whose file this is.
    pub closed spec fn rnode(&self) -> RelFileNode {
        self.smgr_rnode
    }

    /// The bytes are whole blocks. This holds of every file, whatever was
    /// written to it.
    pub open spec fn whole(&self) -> bool {
        spec_file_whole(self@.image)
    }

    /// The invariant of a heap file: the bytes are whole blocks, each of
    /// which can be taken as a page.
    pub open spec fn wf(&self) -> bool {
        spec_file_wf(self@.image)
    }

    /// A relation without a file.
    pub fn new(rnode: RelFileNode) -> (rel: SMgrRelationData)
        ensures
            rel.rnode() == rnode,
            rel@ == spec_untouched(),
            rel.wf(),
    {
        SMgrRelationData {
            smgr_rnode: rnode,
            file: Vec::new(),
            opened: false,
            smgr_targblock: InvalidBlockNumber,
        }
    }

    /// A relation whose file holds `image`, if that is a heap file.
    pub fn with_image(rnode: RelFileNode, image: Vec<u8>) -> (r: Option<SMgrRelationData>)
        ensures
            r is Some <==> spec_file_wf(image@),
            r matches Some(rel) ==> rel.rnode() == rnode && rel.wf() && rel@ == (RelState {
                image: image@,
                opened: false,
                targblock: InvalidBlockNumber,
            }),
    {
        if check_file(image.as_slice()) {
            Some(
                SMgrRelationData {
                    smgr_rnode: rnode,
                    file: image,
                    opened: false,
                    smgr_targblock: InvalidBlockNumber,
                },
            )
        } else {
            None
        }
    }

    pub fn smgr_rnode(&self) -> (rnode: RelFileNode)
        ensures
            rnode == self.rnode(),
    {
        self.smgr_rnode
    }

    pub fn smgr_targblock(&self) -> (block: BlockNum)
        ensures
            block == self@.targblock,
    {
        self.smgr_targblock
    }

    pub fn set_smgr_targblock(&mut self, block: BlockNum)
        ensures
            final(self).rnode() == old(self).rnode(),
            final(self)@ == (RelState { targblock: block, ..old(self)@ }),
    {
        self.smgr_targblock = block;
    }

    /// Whether the file was opened.
    pub fn is_open(&self) -> (opened: bool)
        ensures
            opened == self@.opened,
    {
        self.opened
    }

    /// The bytes of the file.
    pub fn image(&self) -> (bytes: &[u8])
        ensures
            bytes@ == self@.image,
    {
        self.file.as_slice()
    }

    /// Opens the file, which makes it exist, unless it is open already.
    pub fn mdopen(&mut self)
        ensures
            final(self).rnode() == old(self).rnode(),
            final(self)@ == (RelState { opened: true, ..old(self)@ }),
    {
        if self.opened {
            return ;
        }
        self.opened = true;
    }

    /// Reads block `block_num`: its bytes, or nothing if the file ends
    /// before that block.
    pub fn mdread(&mut self, block_num: BlockNum) -> (r: Option<Vec<u8>>)
        requires
            old(self).whole(),
        ensures
            final(self).rnode() == old(self).rnode(),
            final(self)@ == (RelState { opened: true, ..old(self)@ }),
            r is Some <==> block_num < spec_nblocks(old(self)@.image),
            r matches Some(bytes) ==> bytes@ == spec_block(old(self)@.image, block_num as int)
                && bytes@.len() == DEFAULT_BLOCK_SIZE,
            r matches Some(bytes) ==> (old(self).wf() ==> block_ok(bytes@)),
    {
        self.mdopen();
        let bs = DEFAULT_BLOCK_SIZE as usize;
        let nblocks = self.file.len() / bs;
        if (block_num as usize) < nblocks {
            let seekpos = bs * (block_num as usize);
            assert(old(self).wf() ==> block_ok(spec_block(self.file@, block_num as int)));
            Some(copy_range(self.file.as_slice(), seekpos, seekpos + bs))
        } else {
            None
        }
    }

    /// Writes `buffer`, which is one block long, as block `block_num`. A
    /// file that ends before that block grows by zeros up to it. A heap
    /// file stays one if the block can be taken as a page.
    pub fn mdwrite(&mut self, block_num: BlockNum, buffer: &[u8])
        requires
            old(self).whole(),
            block_num < MAX_BLOCKS,
            buffer@.len() == DEFAULT_BLOCK_SIZE,
        ensures
            final(self).whole(),
            old(self).wf() && block_ok(buffer@) ==> final(self).wf(),
            final(self).rnode() == old(self).rnode(),
            final(self)@ == (RelState {
                image: spec_write_block(old(self)@.image, block_num as int, buffer@),
                opened: true,
                targblock: old(self)@.targblock,
            }),
    {
        self.mdopen();
        let bs = DEFAULT_BLOCK_SIZE as usize;
        assert(usize::MAX >= 0xffff_ffff);
        assert(bs * (block_num as usize) == 8192 * (block_num as int)
            && 8192 * (block_num as int) <= 0xffff_c000) by (nonlinear_arith)
            requires
                bs == 8192,
                block_num < 0x7FFFF,
        ;
        let seekpos = bs * (block_num as usize);
        let end = seekpos + bs;
        proof {
            lemma_write_whole(self.file@, block_num as int, buffer@);
            if old(self).wf() && block_ok(buffer@) {
                lemma_write_block(self.file@, block_num as int, buffer@);
            }
        }
        let ghost before = self.file@;
        while self.file.len() < end
            invariant
                self.file@.len() <= end || before.len() >= end,
                before.len() >= end ==> self.file@ == before,
                before.len() <= self.file@.len(),
                self.file@ == before + spec_zero_block((self.file@.len() - before.len()) as nat),
                self.opened,
                self.smgr_targblock == old(self).smgr_targblock,
                self.smgr_rnode == old(self).smgr_rnode,
            decreases end - self.file@.len(),
        {
            self.file.push(0u8);
            assert(self.file@ =~= before + spec_zero_block(
                (self.file@.len() - before.len()) as nat,
            ));
        }
        assert(before.len() >= end ==> self.file@ =~= before);
        assert(buffer@.subrange(0, bs as int) == buffer@);
        write_bytes(&mut self.file, seekpos, buffer, bs);
    }

    /// Writes `buffer`, which is one block long, as the new block
    /// `block_num` of the file. Where that is the block behind the last,
    /// the file then holds what it held and the buffer behind it.
    pub fn mdextend(&mut self, block_num: BlockNum, buffer: &[u8])
        requires
            old(self).whole(),
            block_num < MAX_BLOCKS,
            buffer@.len() == DEFAULT_BLOCK_SIZE,
        ensures
            final(self).whole(),
            old(self).wf() && block_ok(buffer@) ==> final(self).wf(),
            final(self).rnode() == old(self).rnode(),
            final(self)@ == (RelState {
                image: spec_write_block(old(self)@.image, block_num as int, buffer@),
                opened: true,
                targblock: old(self)@.targblock,
            }),
            block_num == spec_nblocks(old(self)@.image) ==> {
                &&& final(self)@.image == old(self)@.image + buffer@
                &&& final(self)@.image.len() == old(self)@.image.len() + DEFAULT_BLOCK_SIZE
                &&& spec_nblocks(final(self)@.image) == block_num + 1
            },
    {
        proof {
            if block_num == spec_nblocks(self@.image) {
                lemma_extend_file(self@.image, buffer@);
            }
        }
        self.mdwrite(block_num, buffer)
    }

    /// The number of blocks of the file.
    pub fn mdnblocks(&mut self) -> (nblocks: BlockNum)
        requires
            old(self).whole(),
        ensures
            final(self).rnode() == old(self).rnode(),
            final(self)@ == (RelState { opened: true, ..old(self)@ }),
            nblocks == spec_nblocks(old(self)@.image),
            nblocks <= MAX_BLOCKS,
    {
        self.mdopen();
        let len = self.file.len();
        (len / DEFAULT_BLOCK_SIZE as usize) as BlockNum
    }
}


// ---------------------------------------------------------------------
// The storage manager
// ---------------------------------------------------------------------

/// What a storage manager holds of a relation: what it holds of it by
/// name, and the untouched state for a relation that it does not know.
pub open spec fn spec_state(m: Map<RelFileNode, RelState>, rnode: RelFileNode) -> RelState {
    if m.contains_key(rnode) {
        m[rnode]
    } else {
        spec_untouched()
    }
}

/// The files of the relations, by the name of each.
pub struct StorageManager {
    config: Config,
    cache: Vec<SMgrRelationData>,
}

impl View for StorageManager {
    type V = Map<RelFileNode, RelState>;

    closed spec fn view(&self) -> Map<RelFileNode, RelState> {
        Map::new(|rnode: RelFileNode| self.has(rnode), |rnode: RelFileNode| self.cache@[self.index_of(rnode)]@)
    }
}

impl StorageManager {
    /// The relations held, in the order in which they were first asked for.
    pub closed spec fn rels(&self) -> Seq<SMgrRelationData> {
        self.cache@
    }

    spec fn has(&self, rnode: RelFileNode) -> bool {
        exists|i: int| 0 <= i < self.cache@.len() && (#[trigger] self.cache@[i]).rnode() == rnode
    }

    spec fn index_of(&self, rnode: RelFileNode) -> int {
        choose|i: int| 0 <= i < self.cache@.len() && (#[trigger] self.cache@[i]).rnode() == rnode
    }

    /// The invariant: every file is a heap file, and no relation is held
    /// twice.
    pub closed spec fn wf(&self) -> bool {
        &&& forall|i: int| 0 <= i < self.cache@.len() ==> (#[trigger] self.cache@[i]).wf()
        &&& forall|i: int, j: int|
            0 <= i < j < self.cache@.len() ==> (#[trigger] self.cache@[i]).rnode() != (
            #[trigger] self.cache@[j]).rnode()
    }

    proof fn lemma_index(&self, i: int)
        requires
            self.wf(),
            0 <= i < self.cache@.len(),
        ensures
            self.has(self.cache@[i].rnode()),
            self.index_of(self.cache@[i].rnode()) == i,
            self@.contains_key(self.cache@[i].rnode()),
            self@[self.cache@[i].rnode()] == self.cache@[i]@,
    {
        let rnode = self.cache@[i].rnode();
        let k = self.index_of(rnode);
        assert(0 <= k < self.cache@.len() && self.cache@[k].rnode() == rnode);
        if k < i {
            assert(self.cache@[k].rnode() != self.cache@[i].rnode());
        } else if i < k {
            assert(self.cache@[i].rnode() != self.cache@[k].rnode());
        }
    }

    /// Every file held is a heap file.
    pub proof fn lemma_files_wf(&self, rnode: RelFileNode)
        requires
            self.wf(),
        ensures
            spec_file_wf(spec_state(self@, rnode).image),
    {
        if self@.contains_key(rnode) {
            let k = self.index_of(rnode);
            assert(self.cache@[k].wf());
        } else {
            assert(spec_nblocks(Seq::<u8>::empty()) == 0);
        }
    }

    /// A storage manager that holds no relation yet.
    pub fn new(config: Config) -> (smgr: StorageManager)
        ensures
            smgr.wf(),
            smgr@ == Map::<RelFileNode, RelState>::empty(),
    {
        let smgr = StorageManager { config: config, cache: Vec::new() };
        assert(smgr@ =~= Map::<RelFileNode, RelState>::empty());
        smgr
    }

    fn find(&self, rd_node: &RelFileNode) -> (r: Option<usize>)
        requires
            self.wf(),
        ensures
            r is Some <==> self@.contains_key(*rd_node),
            r matches Some(i) ==> i < self.cache@.len() && self.cache@[i as int].rnode()
                == *rd_node && self.cache@[i as int]@ == self@[*rd_node],
    {
        let mut i: usize = 0;
        while i < self.cache.len()
            invariant
                i <= self.cache@.len(),
                self.wf(),
                forall|j: int| 0 <= j < i ==> (#[trigger] self.cache@[j]).rnode() != *rd_node,
            decreases self.cache@.len() - i,
        {
            if self.cache[i].smgr_rnode() == *rd_node {
                proof {
                    self.lemma_index(i as int);
                }
                return Some(i);
            }
            i += 1;
        }
        None
    }

    /// Takes `image` as what the file of a relation holds. Refuses, and
    /// changes nothing, if the relation is held already or `image` is no
    /// heap file.
    pub fn mount(&mut self, rd_node: &RelFileNode, image: Vec<u8>) -> (ok: bool)
        requires
            old(self).wf(),
        ensures
            final(self).wf(),
            ok <==> !old(self)@.contains_key(*rd_node) && spec_file_wf(image@),
            ok ==> final(self)@ == old(self)@.insert(
                *rd_node,
                RelState { image: image@, opened: false, targblock: InvalidBlockNumber },
            ),
            !ok ==> final(self)@ == old(self)@,
    {
        if self.find(rd_node).is_some() {
            return false;
        }
        match SMgrRelationData::with_image(*rd_node, image) {
            None => false,
            Some(rel) => {
                self.push_relation(rel);
                true
            },
        }
    }

    fn push_relation(&mut self, rel: SMgrRelationData)
        requires
            old(self).wf(),
            rel.wf(),
            !old(self)@.contains_key(rel.rnode()),
        ensures
            final(self).wf(),
            final(self)@ == old(self)@.insert(rel.rnode(), rel@),
            final(self).cache@ == old(self).cache@.push(rel),
    {
        let ghost before = *self;
        self.cache.push(rel);
        proof {
            assert forall|i: int, j: int| 0 <= i < j < self.cache@.len() implies (
            #[trigger] self.cache@[i]).rnode() != (#[trigger] self.cache@[j]).rnode() by {
                if j == self.cache@.len() - 1 {
                    assert(before.cache@[i].rnode() == self.cache@[i].rnode());
                    assert(!before.has(rel.rnode()));
                } else {
                    assert(before.cache@[i].rnode() != before.cache@[j].rnode());
                }
            }
            assert forall|r: RelFileNode| self.has(r) == (before.has(r) || r == rel.rnode()) by {
                if before.has(r) {
                    let k = before.index_of(r);
                    assert(self.cache@[k].rnode() == r);
                }
                if r == rel.rnode() {
                    assert(self.cache@[self.cache@.len() - 1].rnode() == r);
                }
                if self.has(r) {
                    let k = self.index_of(r);
                    if k < before.cache@.len() {
                        assert(before.cache@[k].rnode() == r);
                    }
                }
            }
            assert forall|r: RelFileNode| self.has(r) implies #[trigger] self@[r]
                == before@.insert(rel.rnode(), rel@)[r] by {
                let k = self.index_of(r);
                self.lemma_index(k);
                if k < before.cache@.len() {
                    before.lemma_index(k);
                }
            }
            assert(self@ =~= before@.insert(rel.rnode(), rel@));
        }
    }

    /// Makes sure that the relation is held, taking it as untouched if it
    /// was not. Returns the place of the relation in the cache.
    pub fn smgropen(&mut self, rd_node: &RelFileNode) -> (at: usize)
        requires
            old(self).wf(),
        ensures
            final(self).wf(),
            final(self)@ == old(self)@.insert(*rd_node, spec_state(old(self)@, *rd_node)),
            at < final(self).rels().len(),
            final(self).rels()[at as int].rnode() == *rd_node,
            final(self).rels()[at as int]@ == spec_state(old(self)@, *rd_node),
    {
        match self.find(rd_node) {
            Some(i) => {
                assert(self@ =~= old(self)@.insert(*rd_node, spec_state(old(self)@, *rd_node)));
                i
            },
            None => {
                self.push_relation(SMgrRelationData::new(*rd_node));
                self.cache.len() - 1
            },
        }
    }

    /// As `smgropen`, for the file of `relation`.
    pub fn relation_smgropen(&mut self, relation: &RelationData) -> (at: usize)
        requires
            old(self).wf(),
        ensures
            final(self).wf(),
            final(self)@ == old(self)@.insert(
                relation.smgr_rnode,
                spec_state(old(self)@, relation.smgr_rnode),
            ),
            at < final(self).rels().len(),
            final(self).rels()[at as int].rnode() == relation.smgr_rnode,
            final(self).rels()[at as int]@ == spec_state(old(self)@, relation.smgr_rnode),
    {
        self.smgropen(&relation.smgr_rnode)
    }

    /// Replacing a relation by one of the same name changes what is held of
    /// that relation and nothing else.
    proof fn lemma_update(before: StorageManager, after: StorageManager, at: int, rel: SMgrRelationData)
        requires
            before.wf(),
            0 <= at < before.cache@.len(),
            after.cache@ == before.cache@.update(at, rel),
            rel.rnode() == before.cache@[at].rnode(),
            rel.wf(),
        ensures
            after.wf(),
            after@ == before@.insert(rel.rnode(), rel@),
    {
        assert forall|i: int| 0 <= i < after.cache@.len() implies (
        #[trigger] after.cache@[i]).rnode() == before.cache@[i].rnode() by {}
        assert forall|i: int| 0 <= i < after.cache@.len() implies (
        #[trigger] after.cache@[i]).wf() by {
            if i != at {
                assert(before.cache@[i].wf());
            }
        }
        assert forall|i: int, j: int| 0 <= i < j < after.cache@.len() implies (
        #[trigger] after.cache@[i]).rnode() != (#[trigger] after.cache@[j]).rnode() by {
            assert(before.cache@[i].rnode() != before.cache@[j].rnode());
        }
        assert forall|r: RelFileNode| after.has(r) == before.has(r) by {
            if before.has(r) {
                let k = before.index_of(r);
                assert(after.cache@[k].rnode() == r);
            }
            if after.has(r) {
                let k = after.index_of(r);
                assert(before.cache@[k].rnode() == r);
            }
        }
        before.lemma_index(at);
        assert forall|r: RelFileNode| after.has(r) implies #[trigger] after@[r] == before@.insert(
            rel.rnode(),
            rel@,
        )[r] by {
            let k = after.index_of(r);
            after.lemma_index(k);
            before.lemma_index(k);
        }
        assert(after@ =~= before@.insert(rel.rnode(), rel@));
    }

    /// Puts `rel` in the place of the relation at `at`, which has the same
    /// name.
    fn put_back(&mut self, at: usize, rel: SMgrRelationData)
        requires
            old(self).wf(),
            at < old(self).cache@.len(),
            rel.rnode() == old(self).cache@[at as int].rnode(),
            rel.wf(),
        ensures
            final(self).wf(),
            final(self)@ == old(self)@.insert(rel.rnode(), rel@),
    {
        let ghost before = *self;
        self.cache.set(at, rel);
        proof {
            Self::lemma_update(before, *self, at as int, rel);
        }
    }

    /// Takes the relation at `at` out of its place, leaving an untouched one
    /// of the same name there.
    fn take(&mut self, at: usize) -> (rel: SMgrRelationData)
        requires
            old(self).wf(),
            at < old(self).cache@.len(),
        ensures
            rel == old(self).cache@[at as int],
            rel.wf(),
            final(self).wf(),
            final(self).cache@.len() == old(self).cache@.len(),
            final(self).cache@[at as int].rnode() == rel.rnode(),
            final(self)@ == old(self)@.insert(rel.rnode(), spec_untouched()),
    {
        let rnode = self.cache[at].smgr_rnode();
        let mut rel = SMgrRelationData::new(rnode);
        let ghost before = *self;
        let ghost fresh = rel;
        std::mem::swap(&mut rel, &mut self.cache[at]);
        proof {
            assert(self.cache@ =~= before.cache@.update(at as int, fresh));
            Self::lemma_update(before, *self, at as int, fresh);
        }
        rel
    }

    /// The number of blocks of the file of a relation.
    pub fn mdnblocks(&mut self, rd_node: &RelFileNode) -> (nblocks: BlockNum)
        requires
            old(self).wf(),
        ensures
            final(self).wf(),
            final(self)@ == old(self)@.insert(
                *rd_node,
                RelState { opened: true, ..spec_state(old(self)@, *rd_node) },
            ),
            nblocks == spec_nblocks(spec_state(old(self)@, *rd_node).image),
            nblocks <= MAX_BLOCKS,
    {
        let at = self.smgropen(rd_node);
        let mut rel = self.take(at);
        let nblocks = rel.mdnblocks();
        self.put_back(at, rel);
        assert(self@ =~= old(self)@.insert(
            *rd_node,
            RelState { opened: true, ..spec_state(old(self)@, *rd_node) },
        ));
        nblocks
    }

    /// Reads a block of the file of a relation: its bytes, or nothing if the
    /// file ends before that block.
    pub fn mdread(&mut self, rd_node: &RelFileNode, block_num: BlockNum) -> (r: Option<Vec<u8>>)
        requires
            old(self).wf(),
        ensures
            final(self).wf(),
            final(self)@ == old(self)@.insert(
                *rd_node,
                RelState { opened: true, ..spec_state(old(self)@, *rd_node) },
            ),
            r is Some <==> block_num < spec_nblocks(spec_state(old(self)@, *rd_node).image),
            r matches Some(bytes) ==> bytes@ == spec_block(
                spec_state(old(self)@, *rd_node).image,
                block_num as int,
            ) && block_ok(bytes@),
    {
        let at = self.smgropen(rd_node);
        let mut rel = self.take(at);
        let r = rel.mdread(block_num);
        self.put_back(at, rel);
        assert(self@ =~= old(self)@.insert(
            *rd_node,
            RelState { opened: true, ..spec_state(old(self)@, *rd_node) },
        ));
        r
    }

    /// Writes a block of the file of a relation. A file that ends before
    /// that block grows by zeros up to it.
    pub fn mdwrite(&mut self, rd_node: &RelFileNode, block_num: BlockNum, buffer: &[u8])
        requires
            old(self).wf(),
            block_num < MAX_BLOCKS,
            block_ok(buffer@),
        ensures
            final(self).wf(),
            final(self)@ == old(self)@.insert(
                *rd_node,
                RelState {
                    image: spec_write_block(
                        spec_state(old(self)@, *rd_node).image,
                        block_num as int,
                        buffer@,
                    ),
                    opened: true,
                    targblock: spec_state(old(self)@, *rd_node).targblock,
                },
            ),
    {
        let at = self.smgropen(rd_node);
        let mut rel = self.take(at);
        rel.mdwrite(block_num, buffer);
        let ghost after = rel@;
        self.put_back(at, rel);
        assert(self@ =~= old(self)@.insert(*rd_node, after));
    }

    /// Writes a new block at the end of the file of a relation.
    pub fn mdextend(&mut self, rd_node: &RelFileNode, block_num: BlockNum, buffer: &[u8])
        requires
            old(self).wf(),
            block_num < MAX_BLOCKS,
            block_ok(buffer@),
        ensures
            final(self).wf(),
            final(self)@ == old(self)@.insert(
                *rd_node,
                RelState {
                    image: spec_write_block(
                        spec_state(old(self)@, *rd_node).image,
                        block_num as int,
                        buffer@,
                    ),
                    opened: true,
                    targblock: spec_state(old(self)@, *rd_node).targblock,
                },
            ),
    {
        let at = self.smgropen(rd_node);
        let mut rel = self.take(at);
        rel.mdextend(block_num, buffer);
        let ghost after = rel@;
        self.put_back(at, rel);
        assert(self@ =~= old(self)@.insert(*rd_node, after));
    }

    /// The block that inserts into a relation go to.
    pub fn targblock(&mut self, rd_node: &RelFileNode) -> (block: BlockNum)
        requires
            old(self).wf(),
        ensures
            final(self).wf(),
            final(self)@ == old(self)@.insert(*rd_node, spec_state(old(self)@, *rd_node)),
            block == spec_state(old(self)@, *rd_node).targblock,
    {
        let at = self.smgropen(rd_node);
        self.cache[at].smgr_targblock()
    }

    /// Sets the block that inserts into a relation go to.
    pub fn set_targblock(&mut self, rd_node: &RelFileNode, block: BlockNum)
        requires
            old(self).wf(),
        ensures
            final(self).wf(),
            final(self)@ == old(self)@.insert(
                *rd_node,
                RelState { targblock: block, ..spec_state(old(self)@, *rd_node) },
            ),
    {
        let at = self.smgropen(rd_node);
        let mut rel = self.take(at);
        rel.set_smgr_targblock(block);
        let ghost after = rel@;
        self.put_back(at, rel);
        assert(self@ =~= old(self)@.insert(*rd_node, after));
    }

    /// What the file of a relation holds; nothing for a relation without a
    /// file.
    pub fn image_of(&mut self, rd_node: &RelFileNode) -> (bytes: Vec<u8>)
        requires
            old(self).wf(),
        ensures
            final(self).wf(),
            final(self)@ == old(self)@.insert(*rd_node, spec_state(old(self)@, *rd_node)),
            bytes@ == spec_state(old(self)@, *rd_node).image,
            spec_file_wf(bytes@),
    {
        let at = self.smgropen(rd_node);
        let image = self.cache[at].image();
        assert(image@.subrange(0, image@.len() as int) == image@);
        proof {
            old(self).lemma_files_wf(*rd_node);
        }
        copy_range(image, 0, image.len())
    }

    /// What the file of a relation holds, if the relation is held and its
    /// file was opened.
    pub fn file_of(&self, rd_node: &RelFileNode) -> (r: Option<Vec<u8>>)
        requires
            self.wf(),
        ensures
            r is Some <==> self@.contains_key(*rd_node) && self@[*rd_node].opened,
            r matches Some(bytes) ==> bytes@ == self@[*rd_node].image,
    {
        match self.find(rd_node) {
            Some(i) => {
                if self.cache[i].is_open() {
                    let image = self.cache[i].image();
                    assert(image@.subrange(0, image@.len() as int) == image@);
                    Some(copy_range(image, 0, image.len()))
                } else {
                    None
                }
            },
            None => None,
        }
    }
}

} // verus!
