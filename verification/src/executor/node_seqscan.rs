//! The sequential scan: walks the blocks of a relation in order and the
//! slots of each block in order, passes over tuples that are marked as
//! deleted, and hands on those that meet the `where` condition.

#![allow(non_snake_case)]

use crate::ast::Expr;
use crate::buffer_manager::{BlockNumber, Buffer, BufferManager, BufferTag, InvalidBlockNumber,
    RelFileNode};
use crate::catalog::catalog::RecordManeger;
use crate::catalog::mini_attribute::{spec_attributes, MiniAttributeRecord};
use crate::off::FirstOffsetNumber;
use crate::page::{bytes_entry, bytes_item_count, bytes_item_len, lemma_entry_bounds, page_bytes_wf};
use crate::executor::plan_node::PlanNode;
use crate::storage_manager::RelationData;
use crate::text::spec_decimal_int;
use crate::tuple::{item_pointer_set, item_pointer_set_invalid, lemma_index_from_name,
    spec_attrs_len, spec_column, spec_desc_wf, spec_heap_keys_updated, spec_index_from_name,
    HeapTupleData, ItemPointerData, TupleTableSlot, SIZE_OF_HEADER_HEADER};
use crate::ty::TypeValue;
use vstd::prelude::*;

verus! {

// ---------------------------------------------------------------------
// Expressions
// ---------------------------------------------------------------------

/// What an expression evaluates to.
pub enum Value {
    Bool(bool),
    String(String),
}

/// What an expression evaluates to, as a mathematical value.
pub enum SpecValue {
    Bool(bool),
    Text(Seq<char>),
}

impl View for Value {
    type V = SpecValue;

    open spec fn view(&self) -> SpecValue {
        match self {
            Value::Bool(b) => SpecValue::Bool(*b),
            Value::String(s) => SpecValue::Text(s@),
        }
    }
}

/// Whether an expression can be evaluated on tuples of the given columns:
/// it holds neither `*` nor `count()`, and every column it names is one of
/// them.
pub open spec fn spec_expr_ok(expr: Expr, attrs: Seq<MiniAttributeRecord>) -> bool
    decreases expr,
{
    match expr {
        Expr::Bool(_) => true,
        Expr::Number(_) => true,
        Expr::OpEq(a, b) => spec_expr_ok(*a, attrs) && spec_expr_ok(*b, attrs),
        Expr::ColumnRef(name) => spec_index_from_name(attrs, name@, attrs.len() as int) is Some,
        Expr::All => false,
        Expr::Count => false,
    }
}

/// Equality of two values: truth values are equal as such, texts as such,
/// and a truth value and a text are never equal.
pub open spec fn spec_op_eq(a: SpecValue, b: SpecValue) -> bool {
    match (a, b) {
        (SpecValue::Bool(x), SpecValue::Bool(y)) => x == y,
        (SpecValue::Text(x), SpecValue::Text(y)) => x == y,
        _ => false,
    }
}

/// The value of an expression on a tuple with the given columns and bytes.
/// A number, and the value of a column, is the text of its canonical
/// decimal form.
pub open spec fn spec_eval(expr: Expr, attrs: Seq<MiniAttributeRecord>, bytes: Seq<u8>) -> SpecValue
    decreases expr,
{
    match expr {
        Expr::Bool(b) => SpecValue::Bool(b),
        Expr::Number(n) => SpecValue::Text(spec_decimal_int(n as int)),
        Expr::OpEq(a, b) => SpecValue::Bool(
            spec_op_eq(spec_eval(*a, attrs, bytes), spec_eval(*b, attrs, bytes)),
        ),
        Expr::ColumnRef(name) => SpecValue::Text(
            spec_decimal_int(
                spec_column(
                    attrs,
                    bytes,
                    spec_index_from_name(attrs, name@, attrs.len() as int)->0,
                ),
            ),
        ),
        Expr::All => SpecValue::Bool(false),
        Expr::Count => SpecValue::Bool(false),
    }
}

/// Whether an expression evaluates to a truth value.
pub open spec fn spec_is_predicate(expr: Expr) -> bool {
    expr is Bool || expr is OpEq
}

/// Whether a `where` condition can be used on tuples of the given columns:
/// there is none, or it can be evaluated and evaluates to a truth value.
pub open spec fn spec_qual_ok(qual: Option<Box<Expr>>, attrs: Seq<MiniAttributeRecord>) -> bool {
    match qual {
        None => true,
        Some(e) => spec_expr_ok(*e, attrs) && spec_is_predicate(*e),
    }
}

/// Whether a tuple meets a `where` condition: there is none, or it is true
/// of the tuple.
pub open spec fn spec_qual_holds(
    qual: Option<Box<Expr>>,
    attrs: Seq<MiniAttributeRecord>,
    bytes: Seq<u8>,
) -> bool {
    match qual {
        None => true,
        Some(e) => spec_eval(*e, attrs, bytes) == SpecValue::Bool(true),
    }
}

/// A column equals a number, compared as texts, just if the value of the
/// column is the number: the text of a number is its canonical decimal
/// form, which no other number has.
pub proof fn lemma_column_equals_number(
    column: Expr,
    n: i32,
    attrs: Seq<MiniAttributeRecord>,
    bytes: Seq<u8>,
)
    requires
        column is ColumnRef,
        spec_expr_ok(column, attrs),
        bytes.len() >= SIZE_OF_HEADER_HEADER + spec_attrs_len(
            attrs,
            spec_index_from_name(attrs, column->ColumnRef_0@, attrs.len() as int)->0,
        ) + 4,
    ensures
        spec_eval(Expr::OpEq(Box::new(column), Box::new(Expr::Number(n))), attrs, bytes)
            == SpecValue::Bool(
            spec_column(
                attrs,
                bytes,
                spec_index_from_name(attrs, column->ColumnRef_0@, attrs.len() as int)->0,
            ) == n,
        ),
{
    let index = spec_index_from_name(attrs, column->ColumnRef_0@, attrs.len() as int)->0;
    let value = spec_column(attrs, bytes, index);
    lemma_index_from_name(attrs, column->ColumnRef_0@, attrs.len() as int, attrs.len() as int);
    crate::tuple::lemma_attrs_len_monotone(attrs, 0, index);
    assert(-0x8000_0000 <= value < 0x8000_0000);
    crate::text::lemma_decimal_int_injective(value as i32, n);
    assert(spec_eval(column, attrs, bytes) == SpecValue::Text(spec_decimal_int(value)));
    assert(spec_eval(Expr::Number(n), attrs, bytes) == SpecValue::Text(spec_decimal_int(n as int)));
}

/// Evaluates an expression on a tuple.
pub struct ExprEvaluator<'a> {
    pub currentTuple: &'a TupleTableSlot,
    pub expr: &'a Expr,
}

impl<'a> ExprEvaluator<'a> {
    pub fn new(currentTuple: &'a TupleTableSlot, expr: &'a Expr) -> (evaluator: ExprEvaluator<'a>)
        ensures
            evaluator.currentTuple == currentTuple,
            evaluator.expr == expr,
    {
        ExprEvaluator { currentTuple: currentTuple, expr: expr }
    }

    /// Whether the expression, which evaluates to a truth value, is true of
    /// the tuple.
    pub fn eval(&self) -> (r: bool)
        requires
            self.currentTuple.wf(),
            spec_expr_ok(*self.expr, self.currentTuple.attrs()),
            spec_is_predicate(*self.expr),
        ensures
            r == (spec_eval(*self.expr, self.currentTuple.attrs(), self.currentTuple.bytes())
                == SpecValue::Bool(true)),
    {
        match *self.eval_rec(self.expr) {
            Value::Bool(b) => b,
            Value::String(_) => false,
        }
    }

    /// The value of an expression on the tuple.
    pub fn eval_rec(&self, expr: &Expr) -> (r: Box<Value>)
        requires
            self.currentTuple.wf(),
            spec_expr_ok(*expr, self.currentTuple.attrs()),
        ensures
            (*r)@ == spec_eval(*expr, self.currentTuple.attrs(), self.currentTuple.bytes()),
        decreases expr,
    {
        let ghost attrs = self.currentTuple.attrs();
        let ghost bytes = self.currentTuple.bytes();
        match expr {
            Expr::Bool(b) => {
                let r = Box::new(Value::Bool(*b));
                assert((*r)@ == spec_eval(*expr, attrs, bytes));
                r
            },
            Expr::Number(n) => {
                let r = Box::new(Value::String(crate::text::i32_to_decimal(*n)));
                assert((*r)@ == spec_eval(*expr, attrs, bytes));
                r
            },
            Expr::OpEq(e1, e2) => {
                let v1 = self.eval_rec(e1);
                let v2 = self.eval_rec(e2);
                let r = Box::new(Value::Bool(self.op_eq(&*v1, &*v2)));
                assert((*r)@ == spec_eval(*expr, attrs, bytes));
                r
            },
            Expr::ColumnRef(col_name) => {
                let i = self.currentTuple.get_index_from_name(col_name.as_str());
                let c = self.currentTuple.get_column(i);
                let text = c.as_string();
                assert(c.elem == spec_column(attrs, bytes, i as int));
                assert(text@ == spec_decimal_int(c.elem as int));
                let r = Box::new(Value::String(text));
                assert((*r)@ == SpecValue::Text(text@));
                assert((*r)@ == spec_eval(*expr, attrs, bytes));
                r
            },
            Expr::All => Box::new(Value::Bool(false)),
            Expr::Count => Box::new(Value::Bool(false)),
        }
    }

    /// Whether two values are equal.
    pub fn op_eq(&self, v1: &Value, v2: &Value) -> (r: bool)
        ensures
            r == spec_op_eq(v1@, v2@),
    {
        match (v1, v2) {
            (Value::Bool(b1), Value::Bool(b2)) => *b1 == *b2,
            (Value::String(s1), Value::String(s2)) => *s1 == *s2,
            _ => false,
        }
    }
}

/// Whether an expression can be evaluated on the tuples of a slot.
pub fn check_expr(expr: &Expr, slot: &TupleTableSlot) -> (ok: bool)
    ensures
        ok == spec_expr_ok(*expr, slot.attrs()),
    decreases expr,
{
    match expr {
        Expr::Bool(_) => true,
        Expr::Number(_) => true,
        Expr::OpEq(e1, e2) => check_expr(e1, slot) && check_expr(e2, slot),
        Expr::ColumnRef(col_name) => slot.has_column(col_name.as_str()),
        Expr::All => false,
        Expr::Count => false,
    }
}

/// Whether a `where` condition can be used on the tuples of a slot.
pub fn check_qual(qual: &Option<Box<Expr>>, slot: &TupleTableSlot) -> (ok: bool)
    ensures
        ok == spec_qual_ok(*qual, slot.attrs()),
{
    match qual {
        None => true,
        Some(e) => {
            let is_predicate = match &**e {
                Expr::Bool(_) => true,
                Expr::OpEq(_, _) => true,
                _ => false,
            };
            is_predicate && check_expr(e, slot)
        },
    }
}

// ---------------------------------------------------------------------
// What a scan sees
// ---------------------------------------------------------------------

/// Whether the tuple in slot `off` of a page is one that a scan for tuples
/// of `t_len` bytes sees: it has that length and is not marked as deleted.
/// An item of another length is no tuple of the table that is scanned, as
/// its columns would not lie where the descriptor has them: a scan passes
/// over it as it passes over a deleted tuple.
pub open spec fn spec_tuple_visible(page: Seq<u8>, off: int, t_len: int) -> bool {
    bytes_item_len(page, off) == t_len && !spec_heap_keys_updated(bytes_entry(page, off))
}

/// Whether the tuple in slot `off` of a page is one that a scan hands on:
/// the scan sees it, and it meets the `where` condition.
pub open spec fn spec_tuple_matches(
    page: Seq<u8>,
    off: int,
    t_len: int,
    attrs: Seq<MiniAttributeRecord>,
    qual: Option<Box<Expr>>,
) -> bool {
    spec_tuple_visible(page, off, t_len) && spec_qual_holds(qual, attrs, bytes_entry(page, off))
}

/// The first tuple at or after slot `off` of block `block`, in the order of
/// blocks and of slots within a block, that a scan of the blocks before
/// `end` sees.
pub open spec fn spec_next_visible(
    pages: Seq<Seq<u8>>,
    t_len: int,
    block: int,
    off: int,
    end: int,
) -> Option<(int, int)>
    decreases end - block, bytes_item_count(pages[block]) - off,
{
    if block >= end {
        None
    } else if off >= bytes_item_count(pages[block]) {
        spec_next_visible(pages, t_len, block + 1, 0, end)
    } else if spec_tuple_visible(pages[block], off, t_len) {
        Some((block, off))
    } else {
        spec_next_visible(pages, t_len, block, off + 1, end)
    }
}

/// The first tuple at or after slot `off` of block `block` that a scan of
/// the blocks before `end` hands on.
pub open spec fn spec_next_match(
    pages: Seq<Seq<u8>>,
    t_len: int,
    attrs: Seq<MiniAttributeRecord>,
    qual: Option<Box<Expr>>,
    block: int,
    off: int,
    end: int,
) -> Option<(int, int)>
    decreases end - block, bytes_item_count(pages[block]) - off,
{
    if block >= end {
        None
    } else if off >= bytes_item_count(pages[block]) {
        spec_next_match(pages, t_len, attrs, qual, block + 1, 0, end)
    } else if spec_tuple_matches(pages[block], off, t_len, attrs, qual) {
        Some((block, off))
    } else {
        spec_next_match(pages, t_len, attrs, qual, block, off + 1, end)
    }
}

/// All tuples at or after slot `off` of block `block` that a scan of the
/// blocks before `end` hands on, in the order in which it does.
pub open spec fn spec_scan_all(
    pages: Seq<Seq<u8>>,
    t_len: int,
    attrs: Seq<MiniAttributeRecord>,
    qual: Option<Box<Expr>>,
    block: int,
    off: int,
    end: int,
) -> Seq<(int, int)>
    decreases end - block, bytes_item_count(pages[block]) - off,
{
    if block >= end {
        Seq::<(int, int)>::empty()
    } else if off >= bytes_item_count(pages[block]) {
        spec_scan_all(pages, t_len, attrs, qual, block + 1, 0, end)
    } else if spec_tuple_matches(pages[block], off, t_len, attrs, qual) {
        seq![(block, off)] + spec_scan_all(pages, t_len, attrs, qual, block, off + 1, end)
    } else {
        spec_scan_all(pages, t_len, attrs, qual, block, off + 1, end)
    }
}

/// The next tuple that a scan hands on is the next one it sees, or comes
/// after it.
pub proof fn lemma_match_after_visible(
    pages: Seq<Seq<u8>>,
    t_len: int,
    attrs: Seq<MiniAttributeRecord>,
    qual: Option<Box<Expr>>,
    block: int,
    off: int,
    end: int,
)
    requires
        0 <= off,
        0 <= block,
    ensures
        match spec_next_visible(pages, t_len, block, off, end) {
            None => spec_next_match(pages, t_len, attrs, qual, block, off, end) is None,
            Some((b, o)) => {
                &&& spec_next_match(pages, t_len, attrs, qual, block, off, end) == spec_next_match(
                    pages,
                    t_len,
                    attrs,
                    qual,
                    b,
                    o,
                    end,
                )
                &&& spec_tuple_visible(pages[b], o, t_len)
                &&& block <= b < end
                &&& 0 <= o < bytes_item_count(pages[b])
                &&& b == block ==> off <= o
            },
        },
    decreases end - block, bytes_item_count(pages[block]) - off,
{
    if block >= end {
    } else if off >= bytes_item_count(pages[block]) {
        lemma_match_after_visible(pages, t_len, attrs, qual, block + 1, 0, end);
    } else if spec_tuple_visible(pages[block], off, t_len) {
    } else {
        lemma_match_after_visible(pages, t_len, attrs, qual, block, off + 1, end);
    }
}

/// What a scan hands on from a place on is the next tuple it hands on,
/// followed by what it hands on from behind that tuple on.
pub proof fn lemma_scan_all_unfold(
    pages: Seq<Seq<u8>>,
    t_len: int,
    attrs: Seq<MiniAttributeRecord>,
    qual: Option<Box<Expr>>,
    block: int,
    off: int,
    end: int,
)
    requires
        0 <= off,
        0 <= block,
    ensures
        match spec_next_match(pages, t_len, attrs, qual, block, off, end) {
            None => spec_scan_all(pages, t_len, attrs, qual, block, off, end) == Seq::<
                (int, int),
            >::empty(),
            Some((b, o)) => {
                &&& spec_scan_all(pages, t_len, attrs, qual, block, off, end) == seq![(b, o)]
                    + spec_scan_all(pages, t_len, attrs, qual, b, o + 1, end)
                &&& spec_tuple_matches(pages[b], o, t_len, attrs, qual)
                &&& block <= b < end
                &&& 0 <= o < bytes_item_count(pages[b])
                &&& b == block ==> off <= o
            },
        },
    decreases end - block, bytes_item_count(pages[block]) - off,
{
    if block >= end {
    } else if off >= bytes_item_count(pages[block]) {
        lemma_scan_all_unfold(pages, t_len, attrs, qual, block + 1, 0, end);
    } else if spec_tuple_matches(pages[block], off, t_len, attrs, qual) {
    } else {
        lemma_scan_all_unfold(pages, t_len, attrs, qual, block, off + 1, end);
    }
}

// ---------------------------------------------------------------------
// The scan
// ---------------------------------------------------------------------

pub struct PlanState {}

/// Where a scan of a relation stands.
#[derive(Debug)]
pub struct HeapScanDescData {
    /// The relation that is scanned.
    pub rs_rd: RelationData,
    /// The number of blocks that the file of the relation had when the scan
    /// was made.
    pub rs_nblocks: BlockNumber,
    /// The block to start at.
    pub rs_startblock: BlockNumber,
    /// The most blocks to scan.
    pub rs_numblocks: BlockNumber,
    /// Whether the scan has looked at a block yet.
    pub rs_inited: bool,
    /// Whether the scan has come to the end of the relation.
    pub rs_finished: bool,
    /// The tuple that the scan stands at, if any.
    pub rs_ctup: HeapTupleData,
    /// The block that the scan stands in, if any.
    pub rs_cblock: BlockNumber,
    /// The buffer of that block, if any.
    pub rs_cbuf: Buffer,
}

/// Whether `slots` hold the tuples at `places` of `pages`, one for one and
/// in that order: each slot has the columns `attrs`, the bytes of the tuple
/// at its place, and that place as the identifier of its tuple.
pub open spec fn spec_slots_hold(
    slots: Seq<TupleTableSlot>,
    pages: Seq<Seq<u8>>,
    places: Seq<(int, int)>,
    attrs: Seq<MiniAttributeRecord>,
) -> bool {
    &&& slots.len() == places.len()
    &&& forall|i: int|
        0 <= i < places.len() ==> {
            let slot = #[trigger] slots[i];
            &&& slot.wf()
            &&& slot.attrs() == attrs
            &&& slot.bytes() == bytes_entry(pages[places[i].0], places[i].1)
            &&& slot.heap_tuple.t_self == (ItemPointerData {
                ip_blkid: places[i].0 as u32,
                ip_posid: places[i].1 as u16,
            })
        }
}

/// A sequential scan of a relation: hands on, in the order of blocks and of
/// slots within a block, the tuples that have the length of the slot's
/// descriptor, are not marked as deleted and meet the `where` condition.
/// An item of another length in a page is never handed on, and so neither
/// counted, put in order nor deleted by the nodes above the scan.
pub struct ScanState<'a> {
    pub ps: PlanState,
    /// The relation that is scanned.
    pub ss_currentRelation: RelationData,
    /// Where the scan stands.
    pub ss_currentScanDesc: HeapScanDescData,
    /// The slot that holds the tuple that the scan hands on.
    pub ss_ScanTupleSlot: TupleTableSlot,
    /// The `where` condition.
    pub qual: &'a Option<Box<Expr>>,
}

impl<'a> ScanState<'a> {
    /// The file of the relation that is scanned.
    pub open spec fn rnode(&self) -> RelFileNode {
        self.ss_currentRelation.smgr_rnode
    }

    /// The columns of the tuples.
    pub open spec fn attrs(&self) -> Seq<MiniAttributeRecord> {
        self.ss_ScanTupleSlot.attrs()
    }

    /// The number of bytes of a tuple, header included.
    pub open spec fn t_len(&self) -> int {
        self.ss_ScanTupleSlot.heap_tuple.t_len as int
    }

    /// The scan looks at the blocks before this one: those that the file
    /// had when the scan was made, and the first block in any case.
    pub open spec fn scan_end(&self) -> int {
        if self.ss_currentScanDesc.rs_nblocks == 0 {
            1
        } else {
            self.ss_currentScanDesc.rs_nblocks as int
        }
    }

    /// The block of the place where the scan goes on.
    pub open spec fn next_block(&self) -> int {
        if self.ss_currentScanDesc.rs_inited {
            self.ss_currentScanDesc.rs_cblock as int
        } else {
            0
        }
    }

    /// The slot of the place where the scan goes on: behind the tuple it
    /// stands at.
    pub open spec fn next_off(&self) -> int {
        if self.ss_currentScanDesc.rs_inited {
            self.ss_currentScanDesc.rs_ctup.t_self.ip_posid + 1
        } else {
            0
        }
    }

    /// The invariant of a scan over the pool `bm`.
    pub open spec fn wf(&self, bm: &BufferManager) -> bool {
        let desc = self.ss_currentScanDesc;
        &&& self.ss_ScanTupleSlot.wf()
        &&& desc.rs_ctup.wf()
        &&& desc.rs_ctup.t_len == self.ss_ScanTupleSlot.heap_tuple.t_len
        &&& desc.rs_rd == self.ss_currentRelation
        &&& desc.rs_startblock == 0
        &&& spec_qual_ok(*self.qual, self.attrs())
        &&& self.scan_end() <= bm.rel_len(self.rnode())
        &&& desc.rs_inited ==> {
            &&& desc.rs_cbuf matches Buffer::Buffer(i) && i < bm.pool_len() && bm.pool_tag(i as int)
                == (BufferTag { rnode: self.rnode(), block_num: desc.rs_cblock })
            &&& desc.rs_cblock < self.scan_end()
        }
        &&& desc.rs_inited && !desc.rs_finished ==> {
            &&& desc.rs_ctup.t_self.ip_blkid == desc.rs_cblock
            &&& desc.rs_ctup.t_self.ip_posid < bytes_item_count(
                bm.rel_pages(self.rnode())[desc.rs_cblock as int],
            )
        }
    }

    /// A scan stays sound over a pool that was added to, as long as no page
    /// lost a slot.
    pub proof fn lemma_wf_extends(&self, before: &BufferManager, after: &BufferManager)
        requires
            self.wf(before),
            before.wf(),
            after.wf(),
            after.extends(before),
            before.rel_len(self.rnode()) <= after.rel_len(self.rnode()),
            self.ss_currentScanDesc.rs_inited ==> bytes_item_count(
                before.rel_pages(self.rnode())[self.ss_currentScanDesc.rs_cblock as int],
            ) <= bytes_item_count(
                after.rel_pages(self.rnode())[self.ss_currentScanDesc.rs_cblock as int],
            ),
        ensures
            self.wf(after),
    {
    }

    /// A scan of a relation, from its first block on. The tuples have the
    /// columns that the catalog gives for the relation.
    pub fn new(
        relation: &RelationData,
        rm: &RecordManeger<MiniAttributeRecord>,
        bufmrg: &mut BufferManager,
        qual: &'a Option<Box<Expr>>,
    ) -> (scan: ScanState<'a>)
        requires
            old(bufmrg).wf(),
            spec_desc_wf(
                spec_attributes(rm.records@, relation.smgr_rnode.db_oid, relation.smgr_rnode.table_oid),
            ),
            spec_qual_ok(
                *qual,
                spec_attributes(rm.records@, relation.smgr_rnode.db_oid, relation.smgr_rnode.table_oid),
            ),
        ensures
            final(bufmrg).wf(),
            final(bufmrg).extends(old(bufmrg)),
            final(bufmrg).pool_len() == old(bufmrg).pool_len(),
            final(bufmrg).same_pages(old(bufmrg)),
            final(bufmrg).same_files(old(bufmrg)),
            scan.wf(final(bufmrg)),
            scan.ss_currentRelation == *relation,
            scan.qual == qual,
            scan.attrs() == spec_attributes(
                rm.records@,
                relation.smgr_rnode.db_oid,
                relation.smgr_rnode.table_oid,
            ),
            !scan.ss_currentScanDesc.rs_inited,
            !scan.ss_currentScanDesc.rs_finished,
            scan.ss_currentScanDesc.rs_nblocks == crate::storage_manager::spec_nblocks(
                old(bufmrg).image(relation.smgr_rnode),
            ),
            scan.ss_currentScanDesc.rs_startblock == 0,
            scan.ss_currentScanDesc.rs_numblocks == InvalidBlockNumber,
            scan.ss_currentScanDesc.rs_cblock == InvalidBlockNumber,
            scan.ss_currentScanDesc.rs_cbuf == Buffer::InvalidBuffer,
            scan.ss_currentScanDesc.rs_ctup.t_self == (ItemPointerData {
                ip_blkid: InvalidBlockNumber,
                ip_posid: crate::off::InvalidOffsetNumber,
            }),
            scan.scan_end() == old(bufmrg).rel_len(relation.smgr_rnode),
    {
        let rnode = &relation.smgr_rnode;
        let attrs = rm.attributes_clone(rnode.db_oid, rnode.table_oid);
        let slot = TupleTableSlot::new(attrs);
        let attrs_len = slot.attrs_total_len();
        let mut tuple = HeapTupleData::new(attrs_len);
        item_pointer_set_invalid(&mut tuple.t_self);
        let rs_nblocks = bufmrg.relation_get_number_of_blocks(relation);
        let scan_desc = HeapScanDescData {
            rs_rd: *relation,
            rs_nblocks: rs_nblocks,
            rs_startblock: 0,
            rs_numblocks: InvalidBlockNumber,
            rs_inited: false,
            rs_finished: false,
            rs_ctup: tuple,
            rs_cblock: InvalidBlockNumber,
            rs_cbuf: Buffer::InvalidBuffer,
        };
        let plan_state = PlanState {  };
        ScanState {
            ps: plan_state,
            ss_currentRelation: *relation,
            ss_currentScanDesc: scan_desc,
            ss_ScanTupleSlot: slot,
            qual: qual,
        }
    }

    /// Moves the scan on to the next tuple that it sees, or to the end of
    /// the relation if there is none. A scan that has come to the end stays
    /// there.
    pub fn heapgettup(&mut self, bufmrg: &mut BufferManager)
        requires
            old(self).wf(old(bufmrg)),
            old(bufmrg).wf(),
        ensures
            final(bufmrg).wf(),
            final(bufmrg).extends(old(bufmrg)),
            final(bufmrg).same_pages(old(bufmrg)),
            final(bufmrg).same_files(old(bufmrg)),
            final(self).wf(final(bufmrg)),
            final(self).ss_ScanTupleSlot == old(self).ss_ScanTupleSlot,
            final(self).ss_currentRelation == old(self).ss_currentRelation,
            final(self).qual == old(self).qual,
            final(self).ss_currentScanDesc.rs_nblocks == old(self).ss_currentScanDesc.rs_nblocks,
            old(self).ss_currentScanDesc.rs_finished ==> final(self).ss_currentScanDesc
                == old(self).ss_currentScanDesc,
            !old(self).ss_currentScanDesc.rs_finished ==> match spec_next_visible(
                old(bufmrg).rel_pages(old(self).rnode()),
                old(self).t_len(),
                old(self).next_block(),
                old(self).next_off(),
                old(self).scan_end(),
            ) {
                Some((b, o)) => {
                    &&& !final(self).ss_currentScanDesc.rs_finished
                    &&& final(self).ss_currentScanDesc.rs_inited
                    &&& final(self).ss_currentScanDesc.rs_cblock == b
                    &&& final(self).ss_currentScanDesc.rs_ctup.t_self == (ItemPointerData {
                        ip_blkid: b as u32,
                        ip_posid: o as u16,
                    })
                    &&& final(self).ss_currentScanDesc.rs_ctup.t_data.bytes() == bytes_entry(
                        old(bufmrg).rel_pages(old(self).rnode())[b],
                        o,
                    )
                },
                None => final(self).ss_currentScanDesc.rs_finished,
            },
    {
        if self.ss_currentScanDesc.rs_finished {
            return ;
        }
        let ghost rnode = self.rnode();
        let ghost pages = bufmrg.rel_pages(rnode);
        let ghost t_len = self.t_len();
        let ghost end = self.scan_end();
        let ghost start_block = self.next_block();
        let ghost start_off = self.next_off();
        let relation = self.ss_currentRelation;
        let nblocks = self.ss_currentScanDesc.rs_nblocks;
        proof {
            bufmrg.lemma_targblock(rnode);
            crate::tuple::lemma_attrs_len_monotone(self.attrs(), 0, self.attrs().len() as int);
        }
        let mut lineoff: u16 = 0;
        if !self.ss_currentScanDesc.rs_inited {
            let page = self.ss_currentScanDesc.rs_startblock;
            let buf = bufmrg.read_buffer(&relation, page);
            self.ss_currentScanDesc.rs_cbuf = buf;
            self.ss_currentScanDesc.rs_cblock = page;
            self.ss_currentScanDesc.rs_inited = true;
            lineoff = FirstOffsetNumber;
        } else {
            proof {
                let cb = self.ss_currentScanDesc.rs_cblock as int;
                bufmrg.lemma_page_bytes(rnode, cb);
                lemma_entry_bounds(
                    pages[cb],
                    self.ss_currentScanDesc.rs_ctup.t_self.ip_posid as int,
                );
            }
            lineoff = self.ss_currentScanDesc.rs_ctup.get_item_offset_number() + 1;
        }
        let mut cblock = self.ss_currentScanDesc.rs_cblock;
        let mut cbuf = self.ss_currentScanDesc.rs_cbuf;
        proof {
            bufmrg.lemma_pool_page(cbuf->Buffer_0 as int);
            bufmrg.lemma_same_rel_pages(old(bufmrg), rnode);
        }
        let mut lines = bufmrg.get_page(cbuf).page_get_max_offset_number();
        loop
            invariant
                bufmrg.wf(),
                bufmrg.extends(old(bufmrg)),
                bufmrg.same_pages(old(bufmrg)),
                bufmrg.same_files(old(bufmrg)),
                old(bufmrg).wf(),
                pages == old(bufmrg).rel_pages(rnode),
                pages == bufmrg.rel_pages(rnode),
                rnode == relation.smgr_rnode,
                relation == old(self).ss_currentRelation,
                t_len == old(self).t_len(),
                end == old(self).scan_end(),
                nblocks == old(self).ss_currentScanDesc.rs_nblocks,
                end <= bufmrg.rel_len(rnode),
                bufmrg.rel_len(rnode) <= crate::storage_manager::MAX_BLOCKS,
                cblock < end,
                cbuf matches Buffer::Buffer(i) && i < bufmrg.pool_len() && bufmrg.pool_tag(i as int)
                    == (BufferTag { rnode: rnode, block_num: cblock }),
                lines == bytes_item_count(pages[cblock as int]),
                lineoff <= lines,
                page_bytes_wf(pages[cblock as int]),
                spec_next_visible(pages, t_len, start_block, start_off, end) == spec_next_visible(
                    pages,
                    t_len,
                    cblock as int,
                    lineoff as int,
                    end,
                ),
                self.ss_ScanTupleSlot == old(self).ss_ScanTupleSlot,
                self.ss_currentRelation == old(self).ss_currentRelation,
                self.qual == old(self).qual,
                self.ss_ScanTupleSlot.wf(),
                spec_qual_ok(*self.qual, self.attrs()),
                self.ss_currentScanDesc.rs_ctup.wf(),
                self.ss_currentScanDesc.rs_ctup.t_len == t_len,
                self.ss_currentScanDesc.rs_rd == self.ss_currentRelation,
                self.ss_currentScanDesc.rs_startblock == 0,
                self.ss_currentScanDesc.rs_nblocks == nblocks,
                self.ss_currentScanDesc.rs_inited,
                !self.ss_currentScanDesc.rs_finished,
                !old(self).ss_currentScanDesc.rs_finished,
                t_len >= SIZE_OF_HEADER_HEADER,
                start_block == old(self).next_block(),
                start_off == old(self).next_off(),
                rnode == old(self).rnode(),
            decreases end - cblock, lines - lineoff,
        {
            if lineoff < lines {
                let dp = bufmrg.get_page(cbuf);
                proof {
                    bufmrg.lemma_pool_page(cbuf->Buffer_0 as int);
                    lemma_entry_bounds(pages[cblock as int], lineoff as int);
                }
                let item = dp.get_item_ref(lineoff);
                if item.lp_len() as u32 == self.ss_currentScanDesc.rs_ctup.t_len {
                    let mut t_self = ItemPointerData::new();
                    item_pointer_set(&mut t_self, cblock, lineoff);
                    match dp.get_entry_pointer(lineoff) {
                        Ok(entry) => {
                            self.ss_currentScanDesc.rs_ctup.load_without_len(entry, t_self);
                            assert(entry@.subrange(0, t_len) == entry@);
                        },
                        Err(_) => {
                            assert(false);
                        },
                    }
                    if !self.ss_currentScanDesc.rs_ctup.t_data.heap_keys_updated_p() {
                        self.ss_currentScanDesc.rs_cblock = cblock;
                        self.ss_currentScanDesc.rs_cbuf = cbuf;
                        return ;
                    }
                }
                lineoff = lineoff + 1;
            } else {
                if cblock + 1 >= nblocks {
                    assert(spec_next_visible(pages, t_len, cblock + 1, 0, end) is None);
                    self.ss_currentScanDesc.rs_cblock = cblock;
                    self.ss_currentScanDesc.rs_cbuf = cbuf;
                    self.ss_currentScanDesc.rs_finished = true;
                    return ;
                }
                let page = cblock + 1;
                cblock = page;
                let ghost before = *bufmrg;
                let buf = bufmrg.read_buffer(&relation, page);
                cbuf = buf;
                proof {
                    bufmrg.lemma_pool_page(cbuf->Buffer_0 as int);
                    bufmrg.lemma_same_rel_pages(&before, rnode);
                    bufmrg.lemma_page_bytes(rnode, cblock as int);
                    bufmrg.lemma_frames_compose(&before, old(bufmrg));
                }
                lineoff = FirstOffsetNumber;
                lines = bufmrg.get_page(cbuf).page_get_max_offset_number();
            }
        }
    }

    /// Moves the scan on to the next tuple that it sees.
    pub fn heap_getnext(&mut self, bufmrg: &mut BufferManager)
        requires
            old(self).wf(old(bufmrg)),
            old(bufmrg).wf(),
        ensures
            final(bufmrg).wf(),
            final(bufmrg).extends(old(bufmrg)),
            final(bufmrg).same_pages(old(bufmrg)),
            final(bufmrg).same_files(old(bufmrg)),
            final(self).wf(final(bufmrg)),
            final(self).ss_ScanTupleSlot == old(self).ss_ScanTupleSlot,
            final(self).ss_currentRelation == old(self).ss_currentRelation,
            final(self).qual == old(self).qual,
            final(self).ss_currentScanDesc.rs_nblocks == old(self).ss_currentScanDesc.rs_nblocks,
            old(self).ss_currentScanDesc.rs_finished ==> final(self).ss_currentScanDesc
                == old(self).ss_currentScanDesc,
            !old(self).ss_currentScanDesc.rs_finished ==> match spec_next_visible(
                old(bufmrg).rel_pages(old(self).rnode()),
                old(self).t_len(),
                old(self).next_block(),
                old(self).next_off(),
                old(self).scan_end(),
            ) {
                Some((b, o)) => {
                    &&& !final(self).ss_currentScanDesc.rs_finished
                    &&& final(self).ss_currentScanDesc.rs_inited
                    &&& final(self).ss_currentScanDesc.rs_cblock == b
                    &&& final(self).ss_currentScanDesc.rs_ctup.t_self == (ItemPointerData {
                        ip_blkid: b as u32,
                        ip_posid: o as u16,
                    })
                    &&& final(self).ss_currentScanDesc.rs_ctup.t_data.bytes() == bytes_entry(
                        old(bufmrg).rel_pages(old(self).rnode())[b],
                        o,
                    )
                },
                None => final(self).ss_currentScanDesc.rs_finished,
            },
    {
        self.heapgettup(bufmrg);
    }

    /// Moves the scan on to the next tuple that it sees and takes that tuple
    /// into the slot.
    pub fn seq_next(&mut self, bufmrg: &mut BufferManager)
        requires
            old(self).wf(old(bufmrg)),
            old(bufmrg).wf(),
        ensures
            final(bufmrg).wf(),
            final(bufmrg).extends(old(bufmrg)),
            final(bufmrg).same_pages(old(bufmrg)),
            final(bufmrg).same_files(old(bufmrg)),
            final(self).wf(final(bufmrg)),
            final(self).attrs() == old(self).attrs(),
            final(self).t_len() == old(self).t_len(),
            final(self).ss_currentRelation == old(self).ss_currentRelation,
            final(self).qual == old(self).qual,
            final(self).ss_currentScanDesc.rs_nblocks == old(self).ss_currentScanDesc.rs_nblocks,
            old(self).ss_currentScanDesc.rs_finished ==> final(self).ss_currentScanDesc.rs_finished,
            !old(self).ss_currentScanDesc.rs_finished ==> match spec_next_visible(
                old(bufmrg).rel_pages(old(self).rnode()),
                old(self).t_len(),
                old(self).next_block(),
                old(self).next_off(),
                old(self).scan_end(),
            ) {
                Some((b, o)) => {
                    &&& !final(self).ss_currentScanDesc.rs_finished
                    &&& final(self).ss_currentScanDesc.rs_inited
                    &&& final(self).ss_currentScanDesc.rs_cblock == b
                    &&& final(self).ss_currentScanDesc.rs_ctup.t_self == (ItemPointerData {
                        ip_blkid: b as u32,
                        ip_posid: o as u16,
                    })
                    &&& final(self).ss_ScanTupleSlot.heap_tuple.t_self == (ItemPointerData {
                        ip_blkid: b as u32,
                        ip_posid: o as u16,
                    })
                    &&& final(self).ss_ScanTupleSlot.bytes() == bytes_entry(
                        old(bufmrg).rel_pages(old(self).rnode())[b],
                        o,
                    )
                },
                None => final(self).ss_currentScanDesc.rs_finished,
            },
    {
        self.heap_getnext(bufmrg);
        if !self.ss_currentScanDesc.rs_finished {
            let tuple = &self.ss_currentScanDesc.rs_ctup;
            let bytes = tuple.data_ptr();
            assert(bytes@.subrange(0, self.t_len()) == bytes@);
            self.ss_ScanTupleSlot.load_data_without_len(bytes, tuple.t_self);
        }
    }

    /// Whether the tuple in the slot meets the `where` condition.
    pub fn exec_qual(&self) -> (r: bool)
        requires
            self.ss_ScanTupleSlot.wf(),
            spec_qual_ok(*self.qual, self.attrs()),
        ensures
            r == spec_qual_holds(*self.qual, self.attrs(), self.ss_ScanTupleSlot.bytes()),
    {
        match self.qual {
            None => true,
            Some(e) => {
                let evaluator = ExprEvaluator::new(&self.ss_ScanTupleSlot, e);
                evaluator.eval()
            },
        }
    }

    /// The places of the tuples that the scan has yet to hand on, in the
    /// order in which it hands them on.
    pub open spec fn remaining(&self, bufmrg: &BufferManager) -> Seq<(int, int)> {
        if self.ss_currentScanDesc.rs_finished {
            Seq::<(int, int)>::empty()
        } else {
            spec_scan_all(
                bufmrg.rel_pages(self.rnode()),
                self.t_len(),
                self.attrs(),
                *self.qual,
                self.next_block(),
                self.next_off(),
                self.scan_end(),
            )
        }
    }

    /// Pulls the scan until it hands on nothing, and gives a copy of each
    /// tuple that it handed on, in the order in which they came: the tuples
    /// that the scan had yet to hand on, each once.
    pub fn drain(&mut self, bufmrg: &mut BufferManager) -> (slots: Vec<TupleTableSlot>)
        requires
            old(self).wf(old(bufmrg)),
            old(bufmrg).wf(),
        ensures
            final(bufmrg).wf(),
            final(bufmrg).extends(old(bufmrg)),
            final(bufmrg).same_pages(old(bufmrg)),
            final(bufmrg).same_files(old(bufmrg)),
            final(self).wf(final(bufmrg)),
            final(self).attrs() == old(self).attrs(),
            final(self).t_len() == old(self).t_len(),
            final(self).ss_currentRelation == old(self).ss_currentRelation,
            final(self).qual == old(self).qual,
            final(self).scan_end() == old(self).scan_end(),
            final(self).ss_currentScanDesc.rs_finished,
            spec_slots_hold(
                slots@,
                old(bufmrg).rel_pages(old(self).rnode()),
                old(self).remaining(old(bufmrg)),
                old(self).attrs(),
            ),
    {
        let ghost rnode = self.rnode();
        let ghost pages = bufmrg.rel_pages(rnode);
        let ghost all = self.remaining(bufmrg);
        let ghost attrs = self.attrs();
        let ghost mut k: int = 0;
        let mut slots: Vec<TupleTableSlot> = Vec::new();
        proof {
            assert(all.subrange(0, all.len() as int) == all);
        }
        loop
            invariant
                bufmrg.wf(),
                old(bufmrg).wf(),
                bufmrg.extends(old(bufmrg)),
                bufmrg.same_pages(old(bufmrg)),
                bufmrg.same_files(old(bufmrg)),
                self.wf(bufmrg),
                rnode == self.rnode(),
                rnode == old(self).rnode(),
                attrs == self.attrs(),
                attrs == old(self).attrs(),
                self.t_len() == old(self).t_len(),
                self.ss_currentRelation == old(self).ss_currentRelation,
                self.qual == old(self).qual,
                self.scan_end() == old(self).scan_end(),
                pages == bufmrg.rel_pages(rnode),
                pages == old(bufmrg).rel_pages(rnode),
                all == old(self).remaining(old(bufmrg)),
                0 <= k <= all.len(),
                slots@.len() == k,
                self.remaining(bufmrg) == all.subrange(k, all.len() as int),
                spec_slots_hold(slots@, pages, all.subrange(0, k), attrs),
            decreases
                    all.len() - k,
                    (if self.ss_currentScanDesc.rs_finished {
                        0int
                    } else {
                        1int
                    }),
        {
            let ghost before_bm = *bufmrg;
            let ghost block = self.next_block();
            let ghost off = self.next_off();
            let ghost was_finished = self.ss_currentScanDesc.rs_finished;
            let ghost held = slots@;
            proof {
                if !was_finished {
                    lemma_scan_all_unfold(
                        pages,
                        self.t_len(),
                        attrs,
                        *self.qual,
                        block,
                        off,
                        self.scan_end(),
                    );
                }
            }
            let opt = self.exec_scan(bufmrg);
            proof {
                bufmrg.lemma_same_rel_pages(&before_bm, rnode);
                bufmrg.lemma_frames_compose(&before_bm, old(bufmrg));
            }
            match opt {
                Some(slot) => {
                    let copy = slot.clone();
                    slots.push(copy);
                    proof {
                        let rest = all.subrange(k, all.len() as int);
                        let found = spec_next_match(
                            pages,
                            self.t_len(),
                            attrs,
                            *self.qual,
                            block,
                            off,
                            self.scan_end(),
                        );
                        assert(found is Some);
                        let at = found->0;
                        assert(rest == seq![at] + spec_scan_all(
                            pages,
                            self.t_len(),
                            attrs,
                            *self.qual,
                            at.0,
                            at.1 + 1,
                            self.scan_end(),
                        ));
                        assert(rest.len() >= 1);
                        assert(rest[0] == all[k]);
                        assert(rest.subrange(1, rest.len() as int) =~= all.subrange(
                            k + 1,
                            all.len() as int,
                        ));
                        let upto = all.subrange(0, k + 1);
                        assert forall|i: int| 0 <= i < upto.len() implies {
                            let s = #[trigger] slots@[i];
                            &&& s.wf()
                            &&& s.attrs() == attrs
                            &&& s.bytes() == bytes_entry(pages[upto[i].0], upto[i].1)
                            &&& s.heap_tuple.t_self == (ItemPointerData {
                                ip_blkid: upto[i].0 as u32,
                                ip_posid: upto[i].1 as u16,
                            })
                        } by {
                            if i < k {
                                assert(slots@[i] == held[i]);
                                assert(all.subrange(0, k)[i] == upto[i]);
                            }
                        }
                        k = k + 1;
                    }
                },
                None => {
                    proof {
                        assert(all.subrange(k, all.len() as int).len() == 0);
                        assert(all.subrange(0, k) == all);
                    }
                    return slots;
                },
            }
        }
    }

    /// Hands on the next tuple, in the order of blocks and of slots within
    /// a block, that has the length of the slot's descriptor, is not marked
    /// as deleted and meets the `where` condition; nothing, from then on,
    /// once there is no such tuple left. The tuple handed on is one that
    /// `spec_tuple_matches` holds of; items of another length are passed
    /// over.
    pub fn exec_scan(&mut self, bufmrg: &mut BufferManager) -> (r: Option<&TupleTableSlot>)
        requires
            old(self).wf(old(bufmrg)),
            old(bufmrg).wf(),
        ensures
            final(bufmrg).wf(),
            final(bufmrg).extends(old(bufmrg)),
            final(bufmrg).same_pages(old(bufmrg)),
            final(bufmrg).same_files(old(bufmrg)),
            final(self).wf(final(bufmrg)),
            final(self).attrs() == old(self).attrs(),
            final(self).t_len() == old(self).t_len(),
            final(self).ss_currentRelation == old(self).ss_currentRelation,
            final(self).qual == old(self).qual,
            final(self).scan_end() == old(self).scan_end(),
            r matches Some(slot) ==> *slot == final(self).ss_ScanTupleSlot,
            old(self).ss_currentScanDesc.rs_finished ==> r is None && final(self).ss_currentScanDesc.rs_finished,
            !old(self).ss_currentScanDesc.rs_finished ==> match spec_next_match(
                old(bufmrg).rel_pages(old(self).rnode()),
                old(self).t_len(),
                old(self).attrs(),
                *old(self).qual,
                old(self).next_block(),
                old(self).next_off(),
                old(self).scan_end(),
            ) {
                Some((b, o)) => {
                    &&& r is Some
                    &&& !final(self).ss_currentScanDesc.rs_finished
                    &&& final(self).next_block() == b
                    &&& final(self).next_off() == o + 1
                    &&& final(self).ss_ScanTupleSlot.heap_tuple.t_self == (ItemPointerData {
                        ip_blkid: b as u32,
                        ip_posid: o as u16,
                    })
                    &&& final(self).ss_ScanTupleSlot.bytes() == bytes_entry(
                        old(bufmrg).rel_pages(old(self).rnode())[b],
                        o,
                    )
                    &&& spec_tuple_matches(
                        old(bufmrg).rel_pages(old(self).rnode())[b],
                        o,
                        old(self).t_len(),
                        old(self).attrs(),
                        *old(self).qual,
                    )
                },
                None => r is None && final(self).ss_currentScanDesc.rs_finished,
            },
    {
        let ghost rnode = self.rnode();
        let ghost pages = bufmrg.rel_pages(rnode);
        let ghost t_len = self.t_len();
        let ghost attrs = self.attrs();
        let ghost qual = *self.qual;
        let ghost end = self.scan_end();
        let ghost start_block = self.next_block();
        let ghost start_off = self.next_off();
        loop
            invariant
                bufmrg.wf(),
                old(bufmrg).wf(),
                bufmrg.extends(old(bufmrg)),
                bufmrg.same_pages(old(bufmrg)),
                bufmrg.same_files(old(bufmrg)),
                self.wf(bufmrg),
                rnode == self.rnode(),
                rnode == old(self).rnode(),
                pages == old(bufmrg).rel_pages(rnode),
                pages == bufmrg.rel_pages(rnode),
                t_len == self.t_len(),
                t_len == old(self).t_len(),
                attrs == self.attrs(),
                attrs == old(self).attrs(),
                qual == *self.qual,
                self.qual == old(self).qual,
                self.ss_currentRelation == old(self).ss_currentRelation,
                end == self.scan_end(),
                end == old(self).scan_end(),
                start_block == old(self).next_block(),
                start_off == old(self).next_off(),
                old(self).ss_currentScanDesc.rs_finished == self.ss_currentScanDesc.rs_finished,
                !self.ss_currentScanDesc.rs_finished ==> spec_next_match(
                    pages,
                    t_len,
                    attrs,
                    qual,
                    start_block,
                    start_off,
                    end,
                ) == spec_next_match(
                    pages,
                    t_len,
                    attrs,
                    qual,
                    self.next_block(),
                    self.next_off(),
                    end,
                ),
            decreases
                    (if self.ss_currentScanDesc.rs_finished {
                        0
                    } else {
                        end - self.next_block() + 1
                    }),
                    bytes_item_count(pages[self.next_block()]) - self.next_off(),
        {
            let ghost before_bm = *bufmrg;
            proof {
                lemma_match_after_visible(
                    pages,
                    t_len,
                    attrs,
                    qual,
                    self.next_block(),
                    self.next_off(),
                    end,
                );
            }
            self.seq_next(bufmrg);
            proof {
                bufmrg.lemma_same_rel_pages(&before_bm, rnode);
                bufmrg.lemma_frames_compose(&before_bm, old(bufmrg));
            }
            if self.ss_currentScanDesc.rs_finished {
                return None;
            }
            if self.exec_qual() {
                return Some(&self.ss_ScanTupleSlot);
            }
        }
    }
}

impl<'a> PlanNode for ScanState<'a> {
    open spec fn node_wf(&self, bufmrg: &BufferManager) -> bool {
        self.wf(bufmrg)
    }

    fn exec(&mut self, bufmrg: &mut BufferManager) -> (r: Option<&TupleTableSlot>)
        ensures
            final(bufmrg).same_pages(old(bufmrg)),
            final(bufmrg).same_files(old(bufmrg)),
            final(self).wf(final(bufmrg)),
            final(self).attrs() == old(self).attrs(),
            final(self).t_len() == old(self).t_len(),
            final(self).ss_currentRelation == old(self).ss_currentRelation,
            final(self).qual == old(self).qual,
            final(self).scan_end() == old(self).scan_end(),
            r matches Some(slot) ==> *slot == final(self).ss_ScanTupleSlot,
            old(self).ss_currentScanDesc.rs_finished ==> r is None && final(self).ss_currentScanDesc.rs_finished,
            !old(self).ss_currentScanDesc.rs_finished ==> match spec_next_match(
                old(bufmrg).rel_pages(old(self).rnode()),
                old(self).t_len(),
                old(self).attrs(),
                *old(self).qual,
                old(self).next_block(),
                old(self).next_off(),
                old(self).scan_end(),
            ) {
                Some((b, o)) => {
                    &&& r is Some
                    &&& !final(self).ss_currentScanDesc.rs_finished
                    &&& final(self).next_block() == b
                    &&& final(self).next_off() == o + 1
                    &&& final(self).ss_ScanTupleSlot.heap_tuple.t_self == (ItemPointerData {
                        ip_blkid: b as u32,
                        ip_posid: o as u16,
                    })
                    &&& final(self).ss_ScanTupleSlot.bytes() == bytes_entry(
                        old(bufmrg).rel_pages(old(self).rnode())[b],
                        o,
                    )
                    &&& spec_tuple_matches(
                        old(bufmrg).rel_pages(old(self).rnode())[b],
                        o,
                        old(self).t_len(),
                        old(self).attrs(),
                        *old(self).qual,
                    )
                },
                None => r is None && final(self).ss_currentScanDesc.rs_finished,
            },
    {
        self.exec_scan(bufmrg)
    }
}

} // verus!
