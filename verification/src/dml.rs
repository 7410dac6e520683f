//! The commands that read and change the tuples of a table: insert, select,
//! count and delete.
//!
//! A command is handed what the heap file of the table holds and hands back
//! what it holds afterwards, together with the lines to print.

use crate::ast::{spec_strings, Expr};
use crate::relation::{lemma_inserted_tuple_is_scanned_once, spec_heap_insert_off,
    spec_holds_once, spec_insert_all, spec_relation_ok, spec_tuple_ok};
use crate::buffer_manager::{spec_heap_insert_block, spec_heap_insert_pages, BufferManager,
    InvalidBlockNumber, RelFileNode};
use crate::catalog::catalog_manager::CatalogManager;
use crate::catalog::mini_attribute::{spec_attributes, MiniAttributeRecord};
use crate::catalog::mini_class::spec_find_class_oid;
use crate::catalog::mini_database::spec_find_database_oid;
use crate::config::Config;
use crate::executor::node_agg::{lemma_scan_rest_bound, CountState};
use crate::executor::node_delete::{spec_delete_each, DeleteState};
use crate::executor::node_insert::InsertState;
use crate::executor::node_seqscan::{check_qual, lemma_scan_all_unfold, spec_next_match,
    spec_qual_holds, spec_qual_ok, spec_scan_all, ScanState};
use crate::executor::node_sort::{spec_entry_keys, spec_holds_in_order, spec_sorted_order, SortState};
use crate::page::{bytes_entry, spec_no_space_message, spec_zero_block, ITEM_ID_DATA_BYTE_SIZE,
    MAX_HEAP_TUPLE_SIZE};
use crate::config::DEFAULT_BLOCK_SIZE;
use crate::storage_manager::{check_file, spec_file_pages, spec_file_wf, spec_new_relation,
    spec_rel_len, spec_state, RelationData, RelationManager, MAX_BLOCKS};
use crate::text::{push_char, push_decimal, spec_decimal_int, spec_decimal_nat};
use crate::tuple::{attrs_fit, lemma_attrs_len_monotone, lemma_set_columns, lemma_set_columns_len,
    spec_attrs_len, spec_column, spec_desc_wf, spec_heap_keys_updated, spec_index_from_name,
    spec_pairs, spec_parsed_values, spec_set_columns, spec_t_infomask2, spec_update_error,
    spec_update_ok, KeyValue, TupleTableSlot, SIZE_OF_HEADER_HEADER};
use crate::ty::TypeValue;
use vstd::prelude::*;
use vstd::string::StringExecFns;

verus! {

/// What a command hands back.
pub struct CommandOutput {
    /// The lines to print, in order, each without its line feed.
    pub lines: Vec<String>,
    /// What the heap file of the table holds after the command.
    pub file: Vec<u8>,
}

/// What is said of a database that the catalog does not have.
pub open spec fn spec_database_message(dbname: Seq<char>) -> Seq<char> {
    dbname + " database should be defined."@
}

/// What is said of a table that the catalog does not have.
pub open spec fn spec_table_message(table_name: Seq<char>, dbname: Seq<char>) -> Seq<char> {
    table_name + " table should be defined under the "@ + dbname + " database. "@
}

/// What is said of a table whose columns cannot describe a tuple.
pub open spec fn spec_columns_message(table_name: Seq<char>) -> Seq<char> {
    table_name + " table should have columns that make up a tuple."@
}

/// What is said of bytes that are no heap file.
pub open spec fn spec_file_message(table_name: Seq<char>) -> Seq<char> {
    table_name + " table should have a heap file of whole, well-formed blocks."@
}

/// What is said of a `where` condition that cannot be used on a table.
pub open spec fn spec_qual_message(table_name: Seq<char>) -> Seq<char> {
    "where clause should be a condition on the columns of the "@ + table_name + " table."@
}

/// What is said of a column to order by that a table does not have.
pub open spec fn spec_sort_message(column: Seq<char>, table_name: Seq<char>) -> Seq<char> {
    column + " column should be defined in the "@ + table_name + " table."@
}

/// What is said of a row that is longer than any tuple can be.
pub open spec fn spec_row_message(size: nat) -> Seq<char> {
    "row is too big: size "@ + spec_decimal_nat(size) + ", maximum size "@ + spec_decimal_nat(
        MAX_HEAP_TUPLE_SIZE as nat,
    )
}

/// What is said of a table whose file cannot grow.
pub open spec fn spec_full_message(table_name: Seq<char>) -> Seq<char> {
    table_name + " table is full."@
}

/// The identifier of a database by its name.
pub open spec fn spec_db_oid(cmgr: &CatalogManager, dbname: Seq<char>) -> Option<u32> {
    spec_find_database_oid(cmgr.database_rm.records@, dbname, cmgr.database_rm.records@.len() as int)
}

/// The identifier of a table by its name and that of its database.
pub open spec fn spec_table_oid(
    cmgr: &CatalogManager,
    dbname: Seq<char>,
    table_name: Seq<char>,
) -> Option<u32> {
    match spec_db_oid(cmgr, dbname) {
        None => None,
        Some(db_oid) => spec_find_class_oid(
            cmgr.class_rm.records@,
            db_oid,
            table_name,
            cmgr.class_rm.records@.len() as int,
        ),
    }
}

/// The file of a table that the catalog has.
pub open spec fn spec_table_rnode(
    cmgr: &CatalogManager,
    dbname: Seq<char>,
    table_name: Seq<char>,
) -> RelFileNode {
    RelFileNode {
        table_oid: spec_table_oid(cmgr, dbname, table_name)->0,
        db_oid: spec_db_oid(cmgr, dbname)->0,
    }
}

/// The columns of a table that the catalog has, in the order of the
/// catalog.
pub open spec fn spec_table_columns(
    cmgr: &CatalogManager,
    dbname: Seq<char>,
    table_name: Seq<char>,
) -> Seq<MiniAttributeRecord> {
    spec_attributes(
        cmgr.attribute_rm.records@,
        spec_db_oid(cmgr, dbname)->0,
        spec_table_oid(cmgr, dbname, table_name)->0,
    )
}

/// Why a table cannot be worked on, if it cannot: the catalog does not have
/// the database; else it does not have the table; else the columns of the
/// table cannot describe a tuple; else the bytes handed over are no heap
/// file.
pub open spec fn spec_open_error(
    cmgr: &CatalogManager,
    dbname: Seq<char>,
    table_name: Seq<char>,
    file: Seq<u8>,
) -> Option<Seq<char>> {
    if spec_db_oid(cmgr, dbname) is None {
        Some(spec_database_message(dbname))
    } else if spec_table_oid(cmgr, dbname, table_name) is None {
        Some(spec_table_message(table_name, dbname))
    } else if !spec_desc_wf(spec_table_columns(cmgr, dbname, table_name)) {
        Some(spec_columns_message(table_name))
    } else if !spec_file_wf(file) {
        Some(spec_file_message(table_name))
    } else {
        None
    }
}

/// The number of bytes of a tuple with the given columns, header included.
pub open spec fn spec_tuple_len(attrs: Seq<MiniAttributeRecord>) -> int {
    SIZE_OF_HEADER_HEADER + spec_attrs_len(attrs, attrs.len() as int)
}

/// A table that is ready to be worked on.
pub struct OpenTable {
    pub relation: RelationData,
    /// The columns of the table.
    pub attrs: Vec<MiniAttributeRecord>,
    /// A pool over the file of the table.
    pub bm: BufferManager,
}

fn database_message(dbname: &str) -> (msg: String)
    ensures
        msg@ == spec_database_message(dbname@),
{
    let mut msg = String::from_str(dbname);
    msg.append(" database should be defined.");
    msg
}

fn table_message(table_name: &str, dbname: &str) -> (msg: String)
    ensures
        msg@ == spec_table_message(table_name@, dbname@),
{
    let mut msg = String::from_str(table_name);
    msg.append(" table should be defined under the ");
    msg.append(dbname);
    msg.append(" database. ");
    msg
}

/// Makes a table ready to be worked on: finds it in the catalog and puts
/// what its heap file holds under a new pool.
pub fn open_table(
    config: &Config,
    dbname: &str,
    table_name: &str,
    cmgr: &CatalogManager,
    file: Vec<u8>,
) -> (r: Result<OpenTable, String>)
    ensures
        match spec_open_error(cmgr, dbname@, table_name@, file@) {
            Some(msg) => r matches Err(m) && m@ == msg,
            None => r matches Ok(t) && {
                let rnode = spec_table_rnode(cmgr, dbname@, table_name@);
                &&& t.relation == spec_new_relation(rnode.db_oid, rnode.table_oid)
                &&& t.relation.smgr_rnode == rnode
                &&& t.attrs@ == spec_table_columns(cmgr, dbname@, table_name@)
                &&& t.bm.wf()
                &&& t.bm.pool_len() == 0
                &&& t.bm.image(rnode) == file@
                &&& t.bm.targblock(rnode) == InvalidBlockNumber
                &&& t.bm.rel_pages(rnode) == spec_file_pages(file@)
            },
        },
{
    let db_oid = match cmgr.database_rm.find_mini_database_oid(dbname) {
        Some(oid) => oid,
        None => {
            return Err(database_message(dbname));
        },
    };
    let table_oid = match cmgr.class_rm.find_mini_class_oid(db_oid, table_name) {
        Some(oid) => oid,
        None => {
            return Err(table_message(table_name, dbname));
        },
    };
    let attrs = cmgr.attribute_rm.attributes_clone(db_oid, table_oid);
    if !attrs_fit(&attrs) {
        let mut msg = String::from_str(table_name);
        msg.append(" table should have columns that make up a tuple.");
        return Err(msg);
    }
    let mut rmgr = RelationManager::new(config.clone());
    let relation = rmgr.get_relation(db_oid, table_oid);
    let mut bm = BufferManager::new(1, config.clone());
    if !bm.mount(&relation.smgr_rnode, file) {
        let mut msg = String::from_str(table_name);
        msg.append(" table should have a heap file of whole, well-formed blocks.");
        return Err(msg);
    }
    proof {
        bm.lemma_unpooled(relation.smgr_rnode);
    }
    Ok(OpenTable { relation: relation, attrs: attrs, bm: bm })
}

/// Writes the pages of the pool to the file of a table and hands over what
/// the file then holds.
pub fn close_table(bm: BufferManager, relation: &RelationData) -> (file: Vec<u8>)
    requires
        bm.wf(),
    ensures
        spec_file_wf(file@),
        spec_file_pages(file@) == bm.rel_pages(relation.smgr_rnode),
{
    let ghost rnode = relation.smgr_rnode;
    proof {
        bm.lemma_targblock(rnode);
    }
    let mut smgr = bm.finish();
    let file = smgr.image_of(&relation.smgr_rnode);
    proof {
        assert(file@ == spec_state(smgr@, rnode).image) by {
            assert(spec_state(smgr@, rnode) == spec_state(smgr@, rnode));
        }
        assert(spec_file_pages(file@) =~= bm.rel_pages(rnode));
    }
    file
}

/// A value as it is printed: its decimal digits in double quotes.
pub open spec fn spec_quoted(value: int) -> Seq<char> {
    seq!['"'] + spec_decimal_int(value) + seq!['"']
}

/// The line that is printed for a tuple: the values of its first `n`
/// columns, each in double quotes, with one blank between two of them and
/// none behind the last.
pub open spec fn spec_format_row(
    attrs: Seq<MiniAttributeRecord>,
    bytes: Seq<u8>,
    n: int,
) -> Seq<char>
    decreases n,
{
    if n <= 0 {
        Seq::<char>::empty()
    } else if n == 1 {
        spec_quoted(spec_column(attrs, bytes, 0))
    } else {
        spec_format_row(attrs, bytes, n - 1).push(' ') + spec_quoted(
            spec_column(attrs, bytes, n - 1),
        )
    }
}

/// The line that is printed for the tuple of a slot.
pub fn format_row(slot: &TupleTableSlot) -> (line: String)
    requires
        slot.wf(),
    ensures
        line@ == spec_format_row(slot.attrs(), slot.bytes(), slot.attrs().len() as int),
{
    let mut line = String::new();
    let n = slot.attrs_count();
    let mut i: usize = 0;
    while i < n
        invariant
            i <= n,
            n == slot.attrs().len(),
            slot.wf(),
            line@ == spec_format_row(slot.attrs(), slot.bytes(), i as int),
        decreases n - i,
    {
        let ty = slot.get_column(i);
        if i > 0 {
            push_char(&mut line, ' ');
        }
        push_char(&mut line, '"');
        line.append(ty.as_string().as_str());
        push_char(&mut line, '"');
        i += 1;
        assert(line@ =~= spec_format_row(slot.attrs(), slot.bytes(), i as int));
    }
    line
}

/// Inserts a row into a table.
pub struct InsertIntoCommand {
    config: Config,
}

/// The bytes of a new tuple with the given columns and values: a header of
/// zeros, and each value at the start of its column.
pub open spec fn spec_new_tuple(attrs: Seq<MiniAttributeRecord>, values: Seq<int>) -> Seq<u8> {
    spec_set_columns(
        spec_zero_block(spec_tuple_len(attrs) as nat),
        attrs,
        values,
        attrs.len() as int,
    )
}

/// A new tuple has the length that its columns give, holds the values it
/// was made of, and is not marked as deleted.
pub proof fn lemma_new_tuple(attrs: Seq<MiniAttributeRecord>, values: Seq<int>)
    requires
        spec_desc_wf(attrs),
        values.len() == attrs.len(),
        forall|i: int| 0 <= i < values.len() ==> -0x8000_0000 <= #[trigger] values[i] < 0x8000_0000,
    ensures
        spec_new_tuple(attrs, values).len() == spec_tuple_len(attrs),
        !spec_heap_keys_updated(spec_new_tuple(attrs, values)),
        forall|i: int|
            0 <= i < attrs.len() ==> spec_column(attrs, spec_new_tuple(attrs, values), i)
                == #[trigger] values[i],
{
    let zeros = spec_zero_block(spec_tuple_len(attrs) as nat);
    lemma_attrs_len_monotone(attrs, 0, attrs.len() as int);
    lemma_set_columns(zeros, attrs, values, attrs.len() as int);
    let tuple = spec_set_columns(zeros, attrs, values, attrs.len() as int);
    assert(tuple == spec_new_tuple(attrs, values));
    assert(tuple[0] == zeros[0] && tuple[1] == zeros[1]);
    assert(tuple[0] == 0 && tuple[1] == 0);
    assert(spec_t_infomask2(tuple) == 0);
    assert(0u16 & 0x2000u16 == 0) by (bit_vector);
}

/// A row that was inserted into a table is handed on exactly once by a scan
/// of the whole table, with the values that were inserted, however many
/// tuples are inserted after it; given that the row meets the condition of
/// the scan.
pub proof fn lemma_inserted_row_is_scanned_once(
    attrs: Seq<MiniAttributeRecord>,
    values: Seq<int>,
    pages: Seq<Seq<u8>>,
    targblock: u32,
    more: Seq<Seq<u8>>,
    qual: Option<Box<Expr>>,
)
    requires
        spec_desc_wf(attrs),
        values.len() == attrs.len(),
        forall|i: int| 0 <= i < values.len() ==> -0x8000_0000 <= #[trigger] values[i] < 0x8000_0000,
        spec_tuple_len(attrs) + ITEM_ID_DATA_BYTE_SIZE <= MAX_HEAP_TUPLE_SIZE,
        spec_relation_ok(pages, targblock),
        forall|i: int| 0 <= i < more.len() ==> spec_tuple_ok(#[trigger] more[i]),
        pages.len() + 1 + more.len() <= MAX_BLOCKS,
        spec_qual_holds(qual, attrs, spec_new_tuple(attrs, values)),
    ensures
        ({
            let tuple = spec_new_tuple(attrs, values);
            let first = spec_heap_insert_pages(pages, targblock, tuple);
            let block = spec_heap_insert_block(pages, targblock, tuple);
            let off = spec_heap_insert_off(pages, targblock, tuple);
            let last = spec_insert_all(first, block as u32, more).0;
            &&& spec_holds_once(
                spec_scan_all(last, spec_tuple_len(attrs), attrs, qual, 0, 0, last.len() as int),
                (block, off),
            )
            &&& forall|i: int|
                0 <= i < attrs.len() ==> spec_column(attrs, bytes_entry(last[block], off), i)
                    == #[trigger] values[i]
        }),
{
    let tuple = spec_new_tuple(attrs, values);
    lemma_new_tuple(attrs, values);
    lemma_attrs_len_monotone(attrs, 0, attrs.len() as int);
    lemma_inserted_tuple_is_scanned_once(pages, targblock, tuple, more, attrs, qual);
}

/// Whether the catalog has a table and gives it columns that can describe
/// a tuple.
pub open spec fn spec_table_ok(
    cmgr: &CatalogManager,
    dbname: Seq<char>,
    table_name: Seq<char>,
) -> bool {
    &&& spec_db_oid(cmgr, dbname) is Some
    &&& spec_table_oid(cmgr, dbname, table_name) is Some
    &&& spec_desc_wf(spec_table_columns(cmgr, dbname, table_name))
}

/// Whether a row, given as pairs of a column name and a value, can be
/// inserted into a table with the given columns that has `rel_len` blocks:
/// the pairs are those of a row of the table, the tuple is one that a page
/// can hold beside its line pointer, and the table can grow by a block.
pub open spec fn spec_row_ok(
    attrs: Seq<MiniAttributeRecord>,
    pairs: Seq<(Seq<char>, Seq<char>)>,
    rel_len: int,
) -> bool {
    &&& spec_update_ok(attrs, pairs)
    &&& spec_tuple_len(attrs) + ITEM_ID_DATA_BYTE_SIZE <= MAX_HEAP_TUPLE_SIZE
    &&& rel_len < MAX_BLOCKS
}

/// Whether `msg` is what is said of a row that cannot be inserted into a
/// table that the catalog has and whose file is a heap file: that the pairs
/// are not those of a row of the table; else that the row is longer than a
/// tuple can be; else that no page has room for it; else that the table is
/// full.
pub open spec fn spec_row_refusal(
    table_name: Seq<char>,
    attrs: Seq<MiniAttributeRecord>,
    pairs: Seq<(Seq<char>, Seq<char>)>,
    rel_len: int,
    msg: Seq<char>,
) -> bool {
    if !spec_update_ok(attrs, pairs) {
        spec_update_error(attrs, pairs, msg)
    } else if spec_tuple_len(attrs) > MAX_HEAP_TUPLE_SIZE {
        msg == spec_row_message(spec_tuple_len(attrs) as nat)
    } else if spec_tuple_len(attrs) + ITEM_ID_DATA_BYTE_SIZE > MAX_HEAP_TUPLE_SIZE {
        msg == spec_no_space_message(spec_tuple_len(attrs) as nat)
    } else {
        rel_len >= MAX_BLOCKS && msg == spec_full_message(table_name)
    }
}

/// Whether `msg` is what is said of a row that cannot be inserted: that the
/// catalog does not have the database; else that it does not have the
/// table; else that the columns of the table cannot describe a tuple; else
/// what is wrong with the row itself, short of the table being full; else
/// that the bytes handed over are no heap file; else that the table is
/// full.
pub open spec fn spec_insert_refusal(
    cmgr: &CatalogManager,
    dbname: Seq<char>,
    table_name: Seq<char>,
    pairs: Seq<(Seq<char>, Seq<char>)>,
    file: Seq<u8>,
    msg: Seq<char>,
) -> bool {
    let attrs = spec_table_columns(cmgr, dbname, table_name);
    if spec_db_oid(cmgr, dbname) is None {
        msg == spec_database_message(dbname)
    } else if spec_table_oid(cmgr, dbname, table_name) is None {
        msg == spec_table_message(table_name, dbname)
    } else if !spec_desc_wf(attrs) {
        msg == spec_columns_message(table_name)
    } else if !spec_row_ok(attrs, pairs, 0) {
        spec_row_refusal(table_name, attrs, pairs, 0, msg)
    } else if !spec_file_wf(file) {
        msg == spec_file_message(table_name)
    } else {
        spec_row_refusal(table_name, attrs, pairs, spec_rel_len(file), msg)
    }
}

/// Whether a row can be inserted into a table, given what its heap file
/// holds.
pub open spec fn spec_insertable(
    cmgr: &CatalogManager,
    dbname: Seq<char>,
    table_name: Seq<char>,
    pairs: Seq<(Seq<char>, Seq<char>)>,
    file: Seq<u8>,
) -> bool {
    &&& spec_table_ok(cmgr, dbname, table_name)
    &&& spec_file_wf(file)
    &&& spec_row_ok(spec_table_columns(cmgr, dbname, table_name), pairs, spec_rel_len(file))
}

impl InsertIntoCommand {
    /// The configuration.
    pub closed spec fn config(&self) -> &Config {
        &self.config
    }

    pub fn new(config: Config) -> (command: InsertIntoCommand)
        ensures
            *command.config() == config,
    {
        InsertIntoCommand { config: config }
    }

    /// Inserts one row, given as the names of the columns and a value for
    /// each, into a table, and hands back what the heap file holds
    /// afterwards: the pages it held, with the row in the last of them or
    /// in a new one behind them. A row that cannot be inserted leaves the
    /// file as it is.
    pub fn insert_row(
        &self,
        dbname: &str,
        table_name: &str,
        key_values: Vec<KeyValue>,
        cmgr: &CatalogManager,
        file: Vec<u8>,
    ) -> (r: (Result<(), String>, Vec<u8>))
        ensures
            r.0 is Ok <==> spec_insertable(
                cmgr,
                dbname@,
                table_name@,
                spec_pairs(key_values@),
                file@,
            ),
            r.0 is Ok ==> {
                &&& spec_file_wf(r.1@)
                &&& spec_file_pages(r.1@) == spec_heap_insert_pages(
                    spec_file_pages(file@),
                    InvalidBlockNumber,
                    spec_new_tuple(
                        spec_table_columns(cmgr, dbname@, table_name@),
                        spec_parsed_values(spec_pairs(key_values@)),
                    ),
                )
            },
            r.0 matches Err(m) ==> r.1@ == file@ && spec_insert_refusal(
                cmgr,
                dbname@,
                table_name@,
                spec_pairs(key_values@),
                file@,
                m@,
            ),
    {
        let db_oid = match cmgr.database_rm.find_mini_database_oid(dbname) {
            Some(oid) => oid,
            None => {
                return (Err(database_message(dbname)), file);
            },
        };
        let table_oid = match cmgr.class_rm.find_mini_class_oid(db_oid, table_name) {
            Some(oid) => oid,
            None => {
                return (Err(table_message(table_name, dbname)), file);
            },
        };
        let rm = &cmgr.attribute_rm;
        let attrs = rm.attributes_clone(db_oid, table_oid);
        if !attrs_fit(&attrs) {
            let mut msg = String::from_str(table_name);
            msg.append(" table should have columns that make up a tuple.");
            return (Err(msg), file);
        }
        let ghost columns = attrs@;
        let mut rmgr = RelationManager::new(self.config.clone());
        let relation = rmgr.get_relation(db_oid, table_oid);
        let mut slot = TupleTableSlot::new(attrs);
        match slot.update_tuple(key_values) {
            Ok(_) => {},
            Err(msg) => {
                return (Err(msg), file);
            },
        }
        proof {
            lemma_set_columns_len(
                spec_zero_block(spec_tuple_len(columns) as nat),
                columns,
                spec_parsed_values(spec_pairs(key_values@)),
                columns.len() as int,
            );
            lemma_attrs_len_monotone(columns, 0, columns.len() as int);
        }
        let len = slot.len() as usize;
        if len > MAX_HEAP_TUPLE_SIZE {
            let mut msg = String::from_str("row is too big: size ");
            push_decimal(&mut msg, len as u64);
            msg.append(", maximum size ");
            push_decimal(&mut msg, MAX_HEAP_TUPLE_SIZE as u64);
            return (Err(msg), file);
        }
        if len + ITEM_ID_DATA_BYTE_SIZE > MAX_HEAP_TUPLE_SIZE {
            let mut msg = String::from_str("Does not have enough space for ");
            push_decimal(&mut msg, len as u64);
            return (Err(msg), file);
        }
        if !check_file(file.as_slice()) {
            let mut msg = String::from_str(table_name);
            msg.append(" table should have a heap file of whole, well-formed blocks.");
            return (Err(msg), file);
        }
        if file.len() / (DEFAULT_BLOCK_SIZE as usize) >= MAX_BLOCKS as usize {
            let mut msg = String::from_str(table_name);
            msg.append(" table is full.");
            return (Err(msg), file);
        }
        let mut bm = BufferManager::new(1, self.config.clone());
        let mounted = bm.mount(&relation.smgr_rnode, file);
        assert(mounted);
        proof {
            bm.lemma_unpooled(relation.smgr_rnode);
        }
        let mut insert = InsertState::new(&relation, &slot);
        insert.exec_insert(&mut bm);
        let file = close_table(bm, &relation);
        (Ok(()), file)
    }

    /// Inserts one row into a table: hands back what the heap file holds
    /// with the row in it, and no line to print; for a row that cannot be
    /// inserted, what is said of it.
    pub fn execute(
        &self,
        dbname: &str,
        table_name: &str,
        key_values: Vec<KeyValue>,
        cmgr: &CatalogManager,
        file: Vec<u8>,
    ) -> (r: Result<CommandOutput, String>)
        ensures
            r is Ok <==> spec_insertable(
                cmgr,
                dbname@,
                table_name@,
                spec_pairs(key_values@),
                file@,
            ),
            r matches Ok(out) ==> {
                &&& out.lines@.len() == 0
                &&& spec_file_wf(out.file@)
                &&& spec_file_pages(out.file@) == spec_heap_insert_pages(
                    spec_file_pages(file@),
                    InvalidBlockNumber,
                    spec_new_tuple(
                        spec_table_columns(cmgr, dbname@, table_name@),
                        spec_parsed_values(spec_pairs(key_values@)),
                    ),
                )
            },
            r matches Err(m) ==> spec_insert_refusal(
                cmgr,
                dbname@,
                table_name@,
                spec_pairs(key_values@),
                file@,
                m@,
            ),
    {
        let (result, file) = self.insert_row(dbname, table_name, key_values, cmgr, file);
        match result {
            Ok(_) => Ok(CommandOutput { lines: Vec::new(), file: file }),
            Err(msg) => Err(msg),
        }
    }
}

/// Why a scan of a table with a `where` condition cannot be made, if it
/// cannot: the table cannot be worked on, or the condition cannot be used
/// on its columns.
pub open spec fn spec_scan_error(
    cmgr: &CatalogManager,
    dbname: Seq<char>,
    table_name: Seq<char>,
    qual: Option<Box<Expr>>,
    file: Seq<u8>,
) -> Option<Seq<char>> {
    match spec_open_error(cmgr, dbname, table_name, file) {
        Some(msg) => Some(msg),
        None => if !spec_qual_ok(qual, spec_table_columns(cmgr, dbname, table_name)) {
            Some(spec_qual_message(table_name))
        } else {
            None
        },
    }
}

/// The tuples of a table, given what its heap file holds, that meet a
/// `where` condition and are not marked as deleted: the place of each, in
/// the order of blocks and of slots within a block.
pub open spec fn spec_table_scan(
    attrs: Seq<MiniAttributeRecord>,
    qual: Option<Box<Expr>>,
    file: Seq<u8>,
) -> Seq<(int, int)> {
    spec_scan_all(
        spec_file_pages(file),
        spec_tuple_len(attrs),
        attrs,
        qual,
        0,
        0,
        spec_rel_len(file),
    )
}

/// A table that is ready to be scanned.
pub struct OpenScan<'a> {
    pub relation: RelationData,
    pub bm: BufferManager,
    pub scan: ScanState<'a>,
}

/// Makes a table ready to be scanned with a `where` condition.
pub fn open_scan<'a>(
    config: &Config,
    dbname: &str,
    table_name: &str,
    cmgr: &CatalogManager,
    qual: &'a Option<Box<Expr>>,
    file: Vec<u8>,
) -> (r: Result<OpenScan<'a>, String>)
    ensures
        match spec_scan_error(cmgr, dbname@, table_name@, *qual, file@) {
            Some(msg) => r matches Err(m) && m@ == msg,
            None => r matches Ok(t) && {
                let rnode = spec_table_rnode(cmgr, dbname@, table_name@);
                let attrs = spec_table_columns(cmgr, dbname@, table_name@);
                &&& t.relation.smgr_rnode == rnode
                &&& t.bm.wf()
                &&& t.bm.rel_pages(rnode) == spec_file_pages(file@)
                &&& t.scan.wf(&t.bm)
                &&& t.scan.ss_currentRelation == t.relation
                &&& t.scan.qual == qual
                &&& t.scan.attrs() == attrs
                &&& t.scan.t_len() == spec_tuple_len(attrs)
                &&& !t.scan.ss_currentScanDesc.rs_inited
                &&& !t.scan.ss_currentScanDesc.rs_finished
                &&& t.scan.scan_end() == spec_rel_len(file@)
            },
        },
{
    let table = match open_table(config, dbname, table_name, cmgr, file) {
        Ok(t) => t,
        Err(msg) => {
            return Err(msg);
        },
    };
    let relation = table.relation;
    let mut bm = table.bm;
    let slot = TupleTableSlot::new(table.attrs);
    if !check_qual(qual, &slot) {
        let mut msg = String::from_str("where clause should be a condition on the columns of the ");
        msg.append(table_name);
        msg.append(" table.");
        return Err(msg);
    }
    let ghost opened = bm;
    let scan = ScanState::new(&relation, &cmgr.attribute_rm, &mut bm, qual);
    proof {
        bm.lemma_same_rel_pages(&opened, relation.smgr_rnode);
    }
    Ok(OpenScan { relation: relation, bm: bm, scan: scan })
}

/// Prints the tuples of a table.
pub struct SelectFromCommand {
    config: Config,
}

/// Whether `lines` are the lines printed for the tuples at the given places
/// of the given pages, in the order that `order` lists: at each place of
/// `order` the index, among the places, of the tuple whose line goes there.
pub open spec fn spec_lines_in_order(
    lines: Seq<Seq<char>>,
    pages: Seq<Seq<u8>>,
    places: Seq<(int, int)>,
    attrs: Seq<MiniAttributeRecord>,
    order: Seq<int>,
) -> bool {
    &&& lines.len() == places.len()
    &&& order.len() == places.len()
    &&& forall|i: int|
        0 <= i < places.len() ==> #[trigger] lines[i] == spec_format_row(
            attrs,
            bytes_entry(pages[places[order[i]].0], places[order[i]].1),
            attrs.len() as int,
        )
}

/// The order in which tuples come: each in its own place.
pub open spec fn spec_same_order(n: nat) -> Seq<int> {
    Seq::new(n, |i: int| i)
}

/// A name that may be missing, as a mathematical value.
pub open spec fn spec_name_view(name: Option<String>) -> Option<Seq<char>> {
    match name {
        Some(n) => Some(n@),
        None => None,
    }
}

/// Why the tuples of a table cannot be selected, if they cannot: the table
/// cannot be scanned, or it lacks the column to order by.
pub open spec fn spec_select_error(
    cmgr: &CatalogManager,
    dbname: Seq<char>,
    table_name: Seq<char>,
    qual: Option<Box<Expr>>,
    sort: Option<Seq<char>>,
    file: Seq<u8>,
) -> Option<Seq<char>> {
    let attrs = spec_table_columns(cmgr, dbname, table_name);
    match spec_scan_error(cmgr, dbname, table_name, qual, file) {
        Some(msg) => Some(msg),
        None => match sort {
            Some(column) => if spec_index_from_name(attrs, column, attrs.len() as int) is None {
                Some(spec_sort_message(column, table_name))
            } else {
                None
            },
            None => None,
        },
    }
}

/// Whether `lines` and `out_file` are what selecting the tuples of a table
/// hands back: one line for each tuple that the scan hands on, in the order
/// of the scan or in the order of the column to order by, and a heap file
/// that holds the pages that the file held.
pub open spec fn spec_select_output(
    cmgr: &CatalogManager,
    dbname: Seq<char>,
    table_name: Seq<char>,
    qual: Option<Box<Expr>>,
    sort: Option<Seq<char>>,
    file: Seq<u8>,
    lines: Seq<Seq<char>>,
    out_file: Seq<u8>,
) -> bool {
    let attrs = spec_table_columns(cmgr, dbname, table_name);
    let pages = spec_file_pages(file);
    let places = spec_table_scan(attrs, qual, file);
    &&& spec_file_wf(out_file)
    &&& spec_file_pages(out_file) == pages
    &&& match sort {
        None => spec_lines_in_order(lines, pages, places, attrs, spec_same_order(places.len())),
        Some(column) => exists|order: Seq<int>|
            spec_sorted_order(spec_entry_keys(pages, places, attrs, column), order)
                && #[trigger] spec_lines_in_order(lines, pages, places, attrs, order),
    }
}

impl SelectFromCommand {
    /// The configuration.
    pub closed spec fn config(&self) -> &Config {
        &self.config
    }

    pub fn new(config: Config) -> (command: SelectFromCommand)
        ensures
            *command.config() == config,
    {
        SelectFromCommand { config: config }
    }

    /// Hands back one line for each tuple of a table that meets the `where`
    /// condition and is not marked as deleted: in the order of blocks and
    /// of slots within a block, or, with a column to order by, ascending by
    /// the value of that column as text, tuples with the same value in the
    /// order of blocks and slots. The heap file holds afterwards the pages
    /// that it held. Fails if the table cannot be worked on, the condition
    /// cannot be used on it, or it lacks the column to order by.
    pub fn execute(
        &self,
        dbname: &str,
        table_name: &str,
        cmgr: &CatalogManager,
        qual: &Option<Box<Expr>>,
        sort: &Option<String>,
        file: Vec<u8>,
    ) -> (r: Result<CommandOutput, String>)
        ensures
            match spec_select_error(
                cmgr,
                dbname@,
                table_name@,
                *qual,
                spec_name_view(*sort),
                file@,
            ) {
                Some(msg) => r matches Err(m) && m@ == msg,
                None => r matches Ok(out) && spec_select_output(
                    cmgr,
                    dbname@,
                    table_name@,
                    *qual,
                    spec_name_view(*sort),
                    file@,
                    spec_strings(out.lines@),
                    out.file@,
                ),
            },
    {
        let opened = match open_scan(&self.config, dbname, table_name, cmgr, qual, file) {
            Ok(t) => t,
            Err(msg) => {
                return Err(msg);
            },
        };
        let relation = opened.relation;
        let mut bm = opened.bm;
        let mut scan = opened.scan;
        let ghost rnode = relation.smgr_rnode;
        let ghost attrs = scan.attrs();
        let ghost pages = spec_file_pages(file@);
        let ghost places = spec_table_scan(attrs, *qual, file@);
        let mut lines: Vec<String> = Vec::new();
        match sort {
            Some(col_name) => {
                if !scan.ss_ScanTupleSlot.has_column(col_name.as_str()) {
                    let mut msg = String::from_str(col_name.as_str());
                    msg.append(" column should be defined in the ");
                    msg.append(table_name);
                    msg.append(" table.");
                    return Err(msg);
                }
                let mut sort_state = SortState::new(scan, col_name.clone());
                let ghost before = bm;
                let mut done = false;
                match sort_state.exec_sort(&mut bm) {
                    Some(slot) => {
                        lines.push(format_row(slot));
                    },
                    None => {
                        done = true;
                    },
                }
                proof {
                    bm.lemma_same_rel_pages(&before, rnode);
                }
                let ghost order = choose|order: Seq<int>| #[trigger]
                    spec_holds_in_order(
                        sort_state.memtuples@,
                        pages,
                        places,
                        attrs,
                        col_name@,
                        order,
                    );
                while !done
                    invariant
                        bm.wf(),
                        bm.rel_pages(rnode) == pages,
                        sort_state.wf(&bm),
                        sort_state.sort_Done,
                        spec_holds_in_order(
                            sort_state.memtuples@,
                            pages,
                            places,
                            attrs,
                            col_name@,
                            order,
                        ),
                        lines@.len() == sort_state.current,
                        done ==> sort_state.current >= sort_state.memtuples@.len(),
                        forall|i: int|
                            0 <= i < lines@.len() ==> (#[trigger] lines@[i])@ == spec_format_row(
                                attrs,
                                bytes_entry(pages[places[order[i]].0], places[order[i]].1),
                                attrs.len() as int,
                            ),
                    decreases
                            sort_state.memtuples@.len() - sort_state.current,
                            (if done {
                                0int
                            } else {
                                1int
                            }),
                {
                    let ghost before = bm;
                    let ghost held = lines@;
                    match sort_state.exec_sort(&mut bm) {
                        Some(slot) => {
                            lines.push(format_row(slot));
                        },
                        None => {
                            done = true;
                        },
                    }
                    proof {
                        bm.lemma_same_rel_pages(&before, rnode);
                        assert forall|i: int| 0 <= i < lines@.len() implies (#[trigger] lines@[i])@
                            == spec_format_row(
                            attrs,
                            bytes_entry(pages[places[order[i]].0], places[order[i]].1),
                            attrs.len() as int,
                        ) by {
                            if i < held.len() {
                                assert(lines@[i] == held[i]);
                            } else {
                                assert(sort_state.memtuples@[i].attrs() == attrs);
                            }
                        }
                    }
                }
                proof {
                    assert(spec_strings(lines@).len() == lines@.len());
                    assert forall|i: int| 0 <= i < places.len() implies #[trigger] spec_strings(
                        lines@,
                    )[i] == spec_format_row(
                        attrs,
                        bytes_entry(pages[places[order[i]].0], places[order[i]].1),
                        attrs.len() as int,
                    ) by {
                        assert(spec_strings(lines@)[i] == lines@[i]@);
                    }
                    assert(spec_lines_in_order(spec_strings(lines@), pages, places, attrs, order));
                    assert(spec_sorted_order(spec_entry_keys(pages, places, attrs, col_name@), order));
                    assert(spec_index_from_name(attrs, col_name@, attrs.len() as int) is Some);
                }
                let ghost printed = lines@;
                let out_file = close_table(bm, &relation);
                let out = CommandOutput { lines: lines, file: out_file };
                proof {
                    assert(out.lines@ == printed);
                    assert(exists|order: Seq<int>|
                        spec_sorted_order(spec_entry_keys(pages, places, attrs, col_name@), order)
                            && #[trigger] spec_lines_in_order(
                            spec_strings(out.lines@),
                            pages,
                            places,
                            attrs,
                            order,
                        ));
                }
                return Ok(out);
            },
            None => {
                let ghost mut k: int = 0;
                proof {
                    assert(places.subrange(0, places.len() as int) == places);
                }
                let mut done = false;
                while !done
                    invariant
                        done ==> k == places.len(),
                        bm.wf(),
                        bm.rel_pages(rnode) == pages,
                        scan.wf(&bm),
                        scan.rnode() == rnode,
                        scan.attrs() == attrs,
                        scan.t_len() == spec_tuple_len(attrs),
                        scan.qual == qual,
                        scan.scan_end() == spec_rel_len(file@),
                        0 <= k <= places.len(),
                        lines@.len() == k,
                        (if scan.ss_currentScanDesc.rs_finished {
                            Seq::<(int, int)>::empty()
                        } else {
                            spec_scan_all(
                                pages,
                                scan.t_len(),
                                attrs,
                                *qual,
                                scan.next_block(),
                                scan.next_off(),
                                scan.scan_end(),
                            )
                        }) == places.subrange(k, places.len() as int),
                        forall|i: int|
                            0 <= i < k ==> (#[trigger] lines@[i])@ == spec_format_row(
                                attrs,
                                bytes_entry(pages[places[i].0], places[i].1),
                                attrs.len() as int,
                            ),
                    decreases
                            places.len() - k,
                            (if done {
                                0int
                            } else {
                                1int
                            }),
                {
                    let ghost before = bm;
                    let ghost block = scan.next_block();
                    let ghost off = scan.next_off();
                    let ghost was_finished = scan.ss_currentScanDesc.rs_finished;
                    proof {
                        if !was_finished {
                            lemma_scan_all_unfold(
                                pages,
                                scan.t_len(),
                                attrs,
                                *qual,
                                block,
                                off,
                                scan.scan_end(),
                            );
                        }
                    }
                    let opt = scan.exec_scan(&mut bm);
                    proof {
                        bm.lemma_same_rel_pages(&before, rnode);
                    }
                    match opt {
                        Some(slot) => {
                            lines.push(format_row(slot));
                            proof {
                                let rest = places.subrange(k, places.len() as int);
                                let found = spec_next_match(
                                    pages,
                                    scan.t_len(),
                                    attrs,
                                    *qual,
                                    block,
                                    off,
                                    scan.scan_end(),
                                );
                                let at = found->0;
                                assert(rest == seq![at] + spec_scan_all(
                                    pages,
                                    scan.t_len(),
                                    attrs,
                                    *qual,
                                    at.0,
                                    at.1 + 1,
                                    scan.scan_end(),
                                ));
                                assert(rest.len() >= 1);
                                assert(rest[0] == places[k]);
                                assert(rest.subrange(1, rest.len() as int) =~= places.subrange(
                                    k + 1,
                                    places.len() as int,
                                ));
                                k = k + 1;
                            }
                        },
                        None => {
                            proof {
                                assert(places.subrange(k, places.len() as int).len() == 0);
                            }
                            done = true;
                        },
                    }
                }
                proof {
                    assert(k == places.len());
                    assert(spec_strings(lines@).len() == lines@.len());
                    assert forall|i: int| 0 <= i < places.len() implies #[trigger] spec_strings(
                        lines@,
                    )[i] == spec_format_row(
                        attrs,
                        bytes_entry(
                            pages[places[spec_same_order(places.len())[i]].0],
                            places[spec_same_order(places.len())[i]].1,
                        ),
                        attrs.len() as int,
                    ) by {
                        assert(spec_strings(lines@)[i] == lines@[i]@);
                    }
                    assert(spec_lines_in_order(
                        spec_strings(lines@),
                        pages,
                        places,
                        attrs,
                        spec_same_order(places.len()),
                    ));
                }
            },
        }
        let file = close_table(bm, &relation);
        Ok(CommandOutput { lines: lines, file: file })
    }
}

/// Counts the tuples of a table.
pub struct CountCommand {
    config: Config,
}

/// The line that says how many tuples were counted.
pub open spec fn spec_count_line(count: nat) -> Seq<char> {
    "Count: "@ + spec_decimal_nat(count)
}

/// Whether `lines` and `out_file` are what counting the tuples of a table
/// hands back: one line that says how many tuples the scan hands on, and a
/// heap file that holds the pages that the file held.
pub open spec fn spec_count_output(
    cmgr: &CatalogManager,
    dbname: Seq<char>,
    table_name: Seq<char>,
    qual: Option<Box<Expr>>,
    file: Seq<u8>,
    lines: Seq<Seq<char>>,
    out_file: Seq<u8>,
) -> bool {
    let attrs = spec_table_columns(cmgr, dbname, table_name);
    &&& spec_file_wf(out_file)
    &&& spec_file_pages(out_file) == spec_file_pages(file)
    &&& lines == seq![spec_count_line(spec_table_scan(attrs, qual, file).len())]
}

impl CountCommand {
    /// The configuration.
    pub closed spec fn config(&self) -> &Config {
        &self.config
    }

    pub fn new(config: Config) -> (command: CountCommand)
        ensures
            *command.config() == config,
    {
        CountCommand { config: config }
    }

    /// Hands back one line that says how many tuples of a table meet the
    /// `where` condition and are not marked as deleted; a column to order
    /// by changes nothing of that number. The heap file holds afterwards
    /// the pages that it held. Fails if the table cannot be worked on, the
    /// condition cannot be used on it, or it lacks the column to order by.
    pub fn execute(
        &self,
        dbname: &str,
        table_name: &str,
        cmgr: &CatalogManager,
        qual: &Option<Box<Expr>>,
        sort: &Option<String>,
        file: Vec<u8>,
    ) -> (r: Result<CommandOutput, String>)
        ensures
            match spec_select_error(
                cmgr,
                dbname@,
                table_name@,
                *qual,
                spec_name_view(*sort),
                file@,
            ) {
                Some(msg) => r matches Err(m) && m@ == msg,
                None => r matches Ok(out) && spec_count_output(
                    cmgr,
                    dbname@,
                    table_name@,
                    *qual,
                    file@,
                    spec_strings(out.lines@),
                    out.file@,
                ),
            },
    {
        let opened = match open_scan(&self.config, dbname, table_name, cmgr, qual, file) {
            Ok(t) => t,
            Err(msg) => {
                return Err(msg);
            },
        };
        let relation = opened.relation;
        let mut bm = opened.bm;
        match sort {
            Some(col_name) => {
                if !opened.scan.ss_ScanTupleSlot.has_column(col_name.as_str()) {
                    let mut msg = String::from_str(col_name.as_str());
                    msg.append(" column should be defined in the ");
                    msg.append(table_name);
                    msg.append(" table.");
                    return Err(msg);
                }
            },
            None => {},
        }
        let mut count = CountState::new(opened.scan);
        let ghost before = bm;
        proof {
            if !count.lefttree.ss_currentScanDesc.rs_finished {
                lemma_scan_rest_bound(&count.lefttree, &bm);
            }
        }
        count.exec_agg(&mut bm);
        proof {
            bm.lemma_same_rel_pages(&before, relation.smgr_rnode);
        }
        let mut line = String::from_str("Count: ");
        push_decimal(&mut line, count.result);
        let mut lines: Vec<String> = Vec::new();
        lines.push(line);
        assert(spec_strings(lines@) =~= seq![lines@[0]@]);
        let file = close_table(bm, &relation);
        Ok(CommandOutput { lines: lines, file: file })
    }
}

/// Deletes tuples of a table.
pub struct DeleteCommand {
    config: Config,
}

/// The line that says how many tuples were deleted.
pub open spec fn spec_deleted_line(count: nat) -> Seq<char> {
    "Deleted records: "@ + spec_decimal_nat(count)
}

/// Whether `lines` and `out_file` are what deleting tuples of a table hands
/// back: one line that says how many tuples the scan hands on, and a heap
/// file that holds the pages that the file held with those tuples marked
/// as deleted.
pub open spec fn spec_delete_output(
    cmgr: &CatalogManager,
    dbname: Seq<char>,
    table_name: Seq<char>,
    qual: Option<Box<Expr>>,
    file: Seq<u8>,
    lines: Seq<Seq<char>>,
    out_file: Seq<u8>,
) -> bool {
    let attrs = spec_table_columns(cmgr, dbname, table_name);
    let places = spec_table_scan(attrs, qual, file);
    &&& spec_file_wf(out_file)
    &&& spec_file_pages(out_file) == spec_delete_each(spec_file_pages(file), places)
    &&& lines == seq![spec_deleted_line(places.len())]
}

impl DeleteCommand {
    /// The configuration.
    pub closed spec fn config(&self) -> &Config {
        &self.config
    }

    pub fn new(config: Config) -> (command: DeleteCommand)
        ensures
            *command.config() == config,
    {
        DeleteCommand { config: config }
    }

    /// Marks as deleted each tuple of a table that meets the `where`
    /// condition and is not marked yet, and hands back one line that says
    /// how many they were. The heap file holds afterwards the pages that it
    /// held with those tuples marked. Fails if the table cannot be worked
    /// on or the condition cannot be used on it.
    pub fn execute(
        &self,
        dbname: &str,
        table_name: &str,
        cmgr: &CatalogManager,
        qual: &Option<Box<Expr>>,
        file: Vec<u8>,
    ) -> (r: Result<CommandOutput, String>)
        ensures
            match spec_scan_error(cmgr, dbname@, table_name@, *qual, file@) {
                Some(msg) => r matches Err(m) && m@ == msg,
                None => r matches Ok(out) && spec_delete_output(
                    cmgr,
                    dbname@,
                    table_name@,
                    *qual,
                    file@,
                    spec_strings(out.lines@),
                    out.file@,
                ),
            },
    {
        let opened = match open_scan(&self.config, dbname, table_name, cmgr, qual, file) {
            Ok(t) => t,
            Err(msg) => {
                return Err(msg);
            },
        };
        let relation = opened.relation;
        let mut bm = opened.bm;
        let mut delete = DeleteState::new(&relation, opened.scan);
        proof {
            if !delete.lefttree.ss_currentScanDesc.rs_finished {
                lemma_scan_rest_bound(&delete.lefttree, &bm);
            }
        }
        delete.exec_delete(&mut bm);
        let mut line = String::from_str("Deleted records: ");
        push_decimal(&mut line, delete.count);
        let mut lines: Vec<String> = Vec::new();
        lines.push(line);
        assert(spec_strings(lines@) =~= seq![lines@[0]@]);
        let file = close_table(bm, &relation);
        Ok(CommandOutput { lines: lines, file: file })
    }
}

} // verus!
