//! Tuples: the bytes of a row, the descriptor that says where its columns
//! lie, and the slot that holds both.
//!
//! A heap tuple is a header of two 16-bit masks, `t_infomask2` and
//! `t_infomask`, followed by the values of the columns in the order of the
//! descriptor.

use crate::buffer_manager::{BlockIdData, BlockNumber, InvalidBlockNumber};
use crate::catalog::mini_attribute::{spec_ty_byte_len, MiniAttributeRecord};
use crate::off::{FirstOffsetNumber, InvalidOffsetNumber, OffsetNumber};
use crate::page::{copy_range, read_u16_le, spec_overwrite, spec_u16_bytes, spec_u16_le,
    spec_zero_block, write_bytes, write_u16_le};
use crate::text::{push_decimal, spec_decimal_nat, spec_parse_i32, str_equal};
use crate::ty::{build_type_value, lemma_i32_round_trip, load_type_value, spec_i32_bytes,
    spec_i32_le, Integer, TypeValue};
use vstd::prelude::*;
use vstd::slice::slice_subrange;
use vstd::string::StringExecFns;

verus! {

/// A column name and the text of a value for it.
pub struct KeyValue<'a> {
    pub key: &'a str,
    pub value: &'a str,
}

/// Collects pairs of a column name and a value, in order.
pub struct KeyValueBuilder<'a> {
    key_values: Vec<KeyValue<'a>>,
}

impl<'a> KeyValueBuilder<'a> {
    /// The pairs collected so far.
    pub closed spec fn pairs(&self) -> Seq<KeyValue<'a>> {
        self.key_values@
    }

    pub fn new() -> (builder: KeyValueBuilder<'a>)
        ensures
            builder.pairs().len() == 0,
    {
        KeyValueBuilder { key_values: Vec::new() }
    }

    pub fn add_pair(&mut self, key: &'a str, value: &'a str)
        ensures
            final(self).pairs() == old(self).pairs().push((KeyValue { key: key, value: value })),
    {
        self.key_values.push(KeyValue { key: key, value: value })
    }

    pub fn build(self) -> (key_values: Vec<KeyValue<'a>>)
        ensures
            key_values@ == self.pairs(),
    {
        self.key_values
    }
}

/// The identity of a tuple: the block it lies in and its slot there.
#[derive(Debug, Clone, Copy, PartialEq, Eq, Structural)]
pub struct ItemPointerData {
    pub ip_blkid: BlockIdData,
    /// The slot of the tuple in its page.
    pub ip_posid: OffsetNumber,
}

/// Makes `pointer` point at no tuple.
pub fn item_pointer_set_invalid(pointer: &mut ItemPointerData)
    ensures
        final(pointer).ip_blkid == InvalidBlockNumber,
        final(pointer).ip_posid == InvalidOffsetNumber,
{
    pointer.ip_blkid = InvalidBlockNumber;
    pointer.ip_posid = InvalidOffsetNumber;
}

/// Makes `pointer` point at slot `off_num` of block `block_number`.
pub fn item_pointer_set(
    pointer: &mut ItemPointerData,
    block_number: BlockNumber,
    off_num: OffsetNumber,
)
    ensures
        final(pointer).ip_blkid == block_number,
        final(pointer).ip_posid == off_num,
{
    pointer.ip_blkid = block_number;
    pointer.ip_posid = off_num;
}

pub fn item_pointer_get_block_number(pointer: &ItemPointerData) -> (block: BlockIdData)
    ensures
        block == pointer.ip_blkid,
{
    pointer.ip_blkid
}

impl ItemPointerData {
    /// A pointer at the first slot of the first block.
    pub fn new() -> (pointer: ItemPointerData)
        ensures
            pointer.ip_blkid == 0,
            pointer.ip_posid == FirstOffsetNumber,
    {
        ItemPointerData { ip_blkid: 0, ip_posid: FirstOffsetNumber }
    }

    pub fn item_pointer_get_offset_number(&self) -> (off: OffsetNumber)
        ensures
            off == self.ip_posid,
    {
        self.ip_posid
    }
}

/// Bytes taken by the two masks at the start of a tuple.
pub const SIZE_OF_HEADER_HEADER: usize = 4;

/// The bit of `t_infomask2` that marks a tuple as deleted.
pub const HEAP_KEYS_UPDATED: u16 = 0x2000;

/// `t_infomask2` of the tuple whose bytes are `b`.
pub open spec fn spec_t_infomask2(b: Seq<u8>) -> u16 {
    spec_u16_le(b, 0) as u16
}

/// Whether the tuple whose bytes are `b` is marked as deleted.
pub open spec fn spec_heap_keys_updated(b: Seq<u8>) -> bool {
    spec_t_infomask2(b) & HEAP_KEYS_UPDATED != 0
}

/// The bytes of the tuple `b` once it is marked as deleted: the mark is set
/// in `t_infomask2`, and nothing else changes.
pub open spec fn spec_mark_deleted(b: Seq<u8>) -> Seq<u8> {
    spec_overwrite(b, 0, spec_u16_bytes(spec_t_infomask2(b) | HEAP_KEYS_UPDATED))
}

/// A tuple that was marked as deleted is marked as deleted, and differs
/// from what it was in its first two bytes at most.
pub proof fn lemma_mark_deleted(b: Seq<u8>)
    requires
        b.len() >= 2,
    ensures
        spec_heap_keys_updated(spec_mark_deleted(b)),
        spec_mark_deleted(b).len() == b.len(),
        forall|k: int| 2 <= k < b.len() ==> spec_mark_deleted(b)[k] == b[k],
        spec_t_infomask2(spec_mark_deleted(b)) == spec_t_infomask2(b) | HEAP_KEYS_UPDATED,
{
    let m = spec_t_infomask2(b);
    let marked = m | HEAP_KEYS_UPDATED;
    assert((m | 0x2000u16) & 0x2000u16 != 0) by (bit_vector);
    assert(spec_u16_le(spec_mark_deleted(b), 0) == marked);
}

/// The bytes of a tuple: header and column values.
#[derive(Debug)]
pub struct HeapTupleHeaderData {
    data: Vec<u8>,
}

impl HeapTupleHeaderData {
    /// The bytes of the tuple, header first.
    pub closed spec fn bytes(&self) -> Seq<u8> {
        self.data@
    }

    /// A tuple of `data_size` zero bytes.
    pub fn new(data_size: u32) -> (header: HeapTupleHeaderData)
        ensures
            header.bytes() == spec_zero_block(data_size as nat),
    {
        let mut data: Vec<u8> = Vec::new();
        let mut i: u32 = 0;
        while i < data_size
            invariant
                i <= data_size,
                data@ == spec_zero_block(i as nat),
            decreases data_size - i,
        {
            data.push(0u8);
            i += 1;
            assert(data@ =~= spec_zero_block(i as nat));
        }
        HeapTupleHeaderData { data }
    }

    /// Marks the tuple as deleted.
    pub fn set_heap_keys_updated(&mut self)
        requires
            old(self).bytes().len() >= 2,
        ensures
            final(self).bytes() == spec_mark_deleted(old(self).bytes()),
            spec_heap_keys_updated(final(self).bytes()),
    {
        proof {
            lemma_mark_deleted(self.data@);
        }
        let mask2 = self.t_infomask2();
        self.set_t_infomask2(mask2 | HEAP_KEYS_UPDATED);
    }

    /// Whether the tuple is marked as deleted.
    pub fn heap_keys_updated_p(&self) -> (deleted: bool)
        requires
            self.bytes().len() >= 2,
        ensures
            deleted == spec_heap_keys_updated(self.bytes()),
    {
        let mask2 = self.t_infomask2();
        (mask2 & HEAP_KEYS_UPDATED) != 0
    }

    pub fn t_infomask2(&self) -> (mask: u16)
        requires
            self.bytes().len() >= 2,
        ensures
            mask == spec_t_infomask2(self.bytes()),
    {
        read_u16_le(self.data.as_slice(), 0)
    }

    pub fn set_t_infomask2(&mut self, mask: u16)
        requires
            old(self).bytes().len() >= 2,
        ensures
            final(self).bytes() == spec_overwrite(old(self).bytes(), 0, spec_u16_bytes(mask)),
            spec_t_infomask2(final(self).bytes()) == mask,
    {
        write_u16_le(&mut self.data, 0, mask);
    }

    /// The bytes of the column values: what follows the header.
    pub fn data_ptr(&self) -> (body: &[u8])
        requires
            self.bytes().len() >= SIZE_OF_HEADER_HEADER,
        ensures
            body@ == self.bytes().subrange(
                SIZE_OF_HEADER_HEADER as int,
                self.bytes().len() as int,
            ),
    {
        slice_subrange(self.data.as_slice(), SIZE_OF_HEADER_HEADER, self.data.len())
    }

    /// The bytes of the whole tuple.
    pub fn as_bytes(&self) -> (bytes: &[u8])
        ensures
            bytes@ == self.bytes(),
    {
        self.data.as_slice()
    }

    /// Copies the first `n` bytes of `src` over the start of the tuple.
    pub fn load(&mut self, src: &[u8], n: u32)
        requires
            n <= src@.len(),
            n <= old(self).bytes().len(),
        ensures
            final(self).bytes() == spec_overwrite(
                old(self).bytes(),
                0,
                src@.subrange(0, n as int),
            ),
    {
        write_bytes(&mut self.data, 0, src, n as usize);
    }

    /// Copies the first `n` bytes of `src` to `offset` bytes behind the
    /// header.
    pub fn set_column(&mut self, src: &[u8], n: u32, offset: usize)
        requires
            n <= src@.len(),
            SIZE_OF_HEADER_HEADER + offset + n <= old(self).bytes().len(),
        ensures
            final(self).bytes() == spec_overwrite(
                old(self).bytes(),
                SIZE_OF_HEADER_HEADER + offset,
                src@.subrange(0, n as int),
            ),
    {
        assert(self.data.len() <= usize::MAX);
        write_bytes(&mut self.data, SIZE_OF_HEADER_HEADER + offset, src, n as usize);
    }

    /// Copies the first `n` bytes of the tuple over the start of `dest`.
    pub fn write_data(&self, dest: &mut Vec<u8>, n: u32)
        requires
            n <= self.bytes().len(),
            n <= old(dest)@.len(),
        ensures
            final(dest)@ == spec_overwrite(old(dest)@, 0, self.bytes().subrange(0, n as int)),
    {
        write_bytes(dest, 0, self.data.as_slice(), n as usize);
    }
}

/// A tuple in memory: its bytes, their number, and where the tuple lies in
/// its relation.
#[derive(Debug)]
pub struct HeapTupleData {
    /// The number of bytes of the tuple, header included.
    pub t_len: u32,
    /// The identity of the tuple.
    pub t_self: ItemPointerData,
    pub t_data: HeapTupleHeaderData,
}

impl HeapTupleData {
    /// The invariant: `t_len` is the number of bytes held.
    pub open spec fn wf(&self) -> bool {
        self.t_data.bytes().len() == self.t_len
    }

    /// A tuple with room for `data_len` bytes of column values behind its
    /// header, all bytes zero.
    pub fn new(data_len: u32) -> (tuple: HeapTupleData)
        requires
            data_len + SIZE_OF_HEADER_HEADER <= u32::MAX,
        ensures
            tuple.wf(),
            tuple.t_len == data_len + SIZE_OF_HEADER_HEADER,
            tuple.t_data.bytes() == spec_zero_block(tuple.t_len as nat),
            tuple.t_self.ip_blkid == 0,
            tuple.t_self.ip_posid == FirstOffsetNumber,
    {
        let len = data_len + SIZE_OF_HEADER_HEADER as u32;
        HeapTupleData {
            t_len: len,
            t_self: ItemPointerData::new(),
            t_data: HeapTupleHeaderData::new(len),
        }
    }

    /// A tuple of `len` bytes in all, all bytes zero.
    pub fn new_with_full_len(len: u32) -> (tuple: HeapTupleData)
        ensures
            tuple.wf(),
            tuple.t_len == len,
            tuple.t_data.bytes() == spec_zero_block(len as nat),
            tuple.t_self.ip_blkid == 0,
            tuple.t_self.ip_posid == FirstOffsetNumber,
    {
        HeapTupleData {
            t_len: len,
            t_self: ItemPointerData::new(),
            t_data: HeapTupleHeaderData::new(len),
        }
    }

    /// Takes the first `n` bytes of `src` as the start of the tuple, and
    /// `t_self` as its identity.
    pub fn load(&mut self, src: &[u8], n: u32, t_self: ItemPointerData)
        requires
            old(self).wf(),
            n <= old(self).t_len,
            n <= src@.len(),
        ensures
            final(self).wf(),
            final(self).t_len == old(self).t_len,
            final(self).t_self == t_self,
            final(self).t_data.bytes() == spec_overwrite(
                old(self).t_data.bytes(),
                0,
                src@.subrange(0, n as int),
            ),
    {
        self.t_self = t_self;
        self.t_data.load(src, n);
    }

    /// Takes the first `t_len` bytes of `src` as the tuple, and `t_self` as
    /// its identity.
    pub fn load_without_len(&mut self, src: &[u8], t_self: ItemPointerData)
        requires
            old(self).wf(),
            old(self).t_len <= src@.len(),
        ensures
            final(self).wf(),
            final(self).t_len == old(self).t_len,
            final(self).t_self == t_self,
            final(self).t_data.bytes() == src@.subrange(0, old(self).t_len as int),
    {
        self.t_self = t_self;
        self.t_data.load(src, self.t_len);
        assert(self.t_data.bytes() =~= src@.subrange(0, old(self).t_len as int));
    }

    pub fn get_item_offset_number(&self) -> (off: OffsetNumber)
        ensures
            off == self.t_self.ip_posid,
    {
        self.t_self.ip_posid
    }

    /// The bytes of the tuple, header first.
    pub fn data_ptr(&self) -> (bytes: &[u8])
        ensures
            bytes@ == self.t_data.bytes(),
    {
        self.t_data.as_bytes()
    }

    /// Copies the tuple over the start of `dest`.
    pub fn write_data(&self, dest: &mut Vec<u8>)
        requires
            self.wf(),
            self.t_len <= old(dest)@.len(),
        ensures
            final(dest)@ == spec_overwrite(old(dest)@, 0, self.t_data.bytes()),
    {
        assert(self.t_data.bytes().subrange(0, self.t_len as int) == self.t_data.bytes());
        self.t_data.write_data(dest, self.t_len);
    }
}

/// The number of bytes that the first `upto` columns take.
pub open spec fn spec_attrs_len(attrs: Seq<MiniAttributeRecord>, upto: int) -> int
    decreases upto,
{
    if upto <= 0 {
        0
    } else {
        spec_attrs_len(attrs, upto - 1) + attrs[upto - 1].len
    }
}

/// Whether columns can describe a tuple: each is at least as long as a
/// value of its type, and the tuple, header included, has a length that a
/// 32-bit number can hold.
pub open spec fn spec_desc_wf(attrs: Seq<MiniAttributeRecord>) -> bool {
    &&& spec_attrs_len(attrs, attrs.len() as int) + SIZE_OF_HEADER_HEADER <= u32::MAX
    &&& forall|i: int|
        0 <= i < attrs.len() ==> spec_ty_byte_len((#[trigger] attrs[i]).ty) <= attrs[i].len
}

/// More columns take no fewer bytes.
pub proof fn lemma_attrs_len_monotone(attrs: Seq<MiniAttributeRecord>, i: int, j: int)
    requires
        0 <= i <= j,
    ensures
        0 <= spec_attrs_len(attrs, i) <= spec_attrs_len(attrs, j),
    decreases j,
{
    if i < j {
        lemma_attrs_len_monotone(attrs, i, j - 1);
    } else if i > 0 {
        lemma_attrs_len_monotone(attrs, i - 1, i - 1);
    }
}

/// An earlier column ends where or before a later one starts.
pub proof fn lemma_columns_apart(attrs: Seq<MiniAttributeRecord>, i: int, j: int)
    requires
        0 <= i < j,
    ensures
        spec_attrs_len(attrs, i) + attrs[i].len <= spec_attrs_len(attrs, j),
{
    lemma_attrs_len_monotone(attrs, i + 1, j);
}

/// Whether columns can describe a tuple.
pub fn attrs_fit(attrs: &Vec<MiniAttributeRecord>) -> (ok: bool)
    ensures
        ok == spec_desc_wf(attrs@),
{
    let limit: u64 = 0xffff_ffff - SIZE_OF_HEADER_HEADER as u64;
    let mut total: u64 = 0;
    let mut i: usize = 0;
    while i < attrs.len()
        invariant
            i <= attrs.len(),
            limit == u32::MAX - SIZE_OF_HEADER_HEADER,
            total == spec_attrs_len(attrs@, i as int),
            total <= limit,
            forall|j: int|
                0 <= j < i ==> spec_ty_byte_len((#[trigger] attrs@[j]).ty) <= attrs@[j].len,
        decreases attrs.len() - i,
    {
        let attr = &attrs[i];
        if (attr.byte_len() as usize) > attr.len {
            return false;
        }
        if attr.len as u64 > limit - total {
            proof {
                lemma_attrs_len_monotone(attrs@, i + 1, attrs@.len() as int);
            }
            return false;
        }
        total = total + attr.len as u64;
        i += 1;
    }
    true
}

/// The columns of a tuple, in order.
pub struct TupleDesc {
    pub attrs: Vec<MiniAttributeRecord>,
}

impl TupleDesc {
    /// The invariant: the columns can describe a tuple.
    pub open spec fn wf(&self) -> bool {
        spec_desc_wf(self.attrs@)
    }

    pub fn new(attrs: Vec<MiniAttributeRecord>) -> (desc: TupleDesc)
        ensures
            desc.attrs == attrs,
    {
        TupleDesc { attrs: attrs }
    }

    pub fn attrs_count(&self) -> (count: usize)
        ensures
            count == self.attrs@.len(),
    {
        self.attrs.len()
    }

    /// The number of bytes that all columns take.
    pub fn attrs_total_len(&self) -> (len: u32)
        requires
            self.wf(),
        ensures
            len == spec_attrs_len(self.attrs@, self.attrs@.len() as int),
    {
        self.attrs_len(self.attrs.len())
    }

    /// The number of bytes that the first `index` columns take: where the
    /// column `index` starts behind the header.
    pub fn attrs_len(&self, index: usize) -> (len: u32)
        requires
            self.wf(),
            index <= self.attrs@.len(),
        ensures
            len == spec_attrs_len(self.attrs@, index as int),
    {
        let mut total: u32 = 0;
        let mut i: usize = 0;
        while i < index
            invariant
                i <= index <= self.attrs@.len(),
                self.wf(),
                total == spec_attrs_len(self.attrs@, i as int),
            decreases index - i,
        {
            proof {
                lemma_attrs_len_monotone(self.attrs@, i + 1, self.attrs@.len() as int);
            }
            total = total + self.attrs[i].len as u32;
            i += 1;
        }
        total
    }
}

impl Clone for TupleDesc {
    fn clone(&self) -> (desc: TupleDesc)
        ensures
            desc.attrs@ == self.attrs@,
    {
        let mut attrs: Vec<MiniAttributeRecord> = Vec::new();
        let mut i: usize = 0;
        while i < self.attrs.len()
            invariant
                i <= self.attrs.len(),
                attrs@ == self.attrs@.subrange(0, i as int),
            decreases self.attrs.len() - i,
        {
            attrs.push(self.attrs[i].clone());
            i += 1;
            assert(attrs@ =~= self.attrs@.subrange(0, i as int));
        }
        assert(self.attrs@.subrange(0, self.attrs.len() as int) == self.attrs@);
        TupleDesc { attrs: attrs }
    }
}

/// What `update_tuple` says when the numbers of columns and of values
/// differ.
pub open spec fn spec_length_message(attrs: nat, key_values: nat) -> Seq<char> {
    "Length not match. attrs: "@ + spec_decimal_nat(attrs) + ", key_values: "@
        + spec_decimal_nat(key_values)
}

/// What `update_tuple` says when a value is given under another name than
/// that of its column.
pub open spec fn spec_name_message(attr: Seq<char>, key: Seq<char>) -> Seq<char> {
    "Name not match. attrs: "@ + attr + ", key_values: "@ + key
}

/// What `update_tuple` says when a value is no value of its column's type.
pub open spec fn spec_value_message(attr: Seq<char>, value: Seq<char>) -> Seq<char> {
    "Value not match. attrs: "@ + attr + ", value: "@ + value
}

/// Pairs of a column name and the text of a value, as mathematical
/// values.
pub open spec fn spec_pairs(key_values: Seq<KeyValue>) -> Seq<(Seq<char>, Seq<char>)> {
    Seq::new(key_values.len(), |i: int| (key_values[i].key@, key_values[i].value@))
}

/// Whether the first `n` values are given under the names of the first
/// `n` columns.
pub open spec fn spec_names_match(
    attrs: Seq<MiniAttributeRecord>,
    pairs: Seq<(Seq<char>, Seq<char>)>,
    n: int,
) -> bool {
    forall|i: int| 0 <= i < n ==> (#[trigger] pairs[i]).0 == attrs[i].name@
}

/// Whether the first `n` values stand for 32-bit numbers.
pub open spec fn spec_values_parse(pairs: Seq<(Seq<char>, Seq<char>)>, n: int) -> bool {
    forall|i: int| 0 <= i < n ==> spec_parse_i32((#[trigger] pairs[i]).1) is Some
}

/// Whether `update_tuple` takes the values: there is one for each column,
/// each under the name of its column, and each stands for a number.
pub open spec fn spec_update_ok(
    attrs: Seq<MiniAttributeRecord>,
    pairs: Seq<(Seq<char>, Seq<char>)>,
) -> bool {
    &&& attrs.len() == pairs.len()
    &&& spec_names_match(attrs, pairs, attrs.len() as int)
    &&& spec_values_parse(pairs, attrs.len() as int)
}

/// Whether `msg` is what `update_tuple` says of values that it does not
/// take: that their number is wrong; else the first name that is not that
/// of its column; else the first value that stands for no number.
pub open spec fn spec_update_error(
    attrs: Seq<MiniAttributeRecord>,
    pairs: Seq<(Seq<char>, Seq<char>)>,
    msg: Seq<char>,
) -> bool {
    if attrs.len() != pairs.len() {
        msg == spec_length_message(attrs.len(), pairs.len())
    } else if !spec_names_match(attrs, pairs, attrs.len() as int) {
        exists|k: int|
            {
                &&& 0 <= k < attrs.len()
                &&& spec_names_match(attrs, pairs, k)
                &&& (#[trigger] pairs[k]).0 != attrs[k].name@
                &&& msg == spec_name_message(attrs[k].name@, pairs[k].0)
            }
    } else {
        exists|k: int|
            {
                &&& 0 <= k < attrs.len()
                &&& spec_values_parse(pairs, k)
                &&& spec_parse_i32((#[trigger] pairs[k]).1) is None
                &&& msg == spec_value_message(attrs[k].name@, pairs[k].1)
            }
    }
}

/// The numbers that the values of pairs stand for, where they stand for
/// numbers.
pub open spec fn spec_parsed_values(pairs: Seq<(Seq<char>, Seq<char>)>) -> Seq<int> {
    Seq::new(pairs.len(), |i: int| spec_parse_i32(pairs[i].1)->0 as int)
}

/// The bytes of a tuple after the first `n` columns were set to the first
/// `n` of the given values, one after the other.
pub open spec fn spec_set_columns(
    bytes: Seq<u8>,
    attrs: Seq<MiniAttributeRecord>,
    values: Seq<int>,
    n: int,
) -> Seq<u8>
    decreases n,
{
    if n <= 0 {
        bytes
    } else {
        spec_overwrite(
            spec_set_columns(bytes, attrs, values, n - 1),
            SIZE_OF_HEADER_HEADER + spec_attrs_len(attrs, n - 1),
            spec_i32_bytes(values[n - 1] as i32),
        )
    }
}

/// Setting columns keeps the length of a tuple.
pub proof fn lemma_set_columns_len(
    bytes: Seq<u8>,
    attrs: Seq<MiniAttributeRecord>,
    values: Seq<int>,
    n: int,
)
    ensures
        spec_set_columns(bytes, attrs, values, n).len() == bytes.len(),
    decreases n,
{
    if n > 0 {
        lemma_set_columns_len(bytes, attrs, values, n - 1);
    }
}

/// Writing a number at the start of a column makes it the value of that
/// column and leaves the header and the values of the other columns as
/// they were.
pub proof fn lemma_set_integer_column(
    attrs: Seq<MiniAttributeRecord>,
    b: Seq<u8>,
    i: int,
    v: i32,
)
    requires
        spec_desc_wf(attrs),
        0 <= i < attrs.len(),
        b.len() == spec_attrs_len(attrs, attrs.len() as int) + SIZE_OF_HEADER_HEADER,
    ensures
        ({
            let after = spec_overwrite(
                b,
                SIZE_OF_HEADER_HEADER + spec_attrs_len(attrs, i),
                spec_i32_bytes(v),
            );
            &&& after.len() == b.len()
            &&& spec_i32_le(after, SIZE_OF_HEADER_HEADER + spec_attrs_len(attrs, i)) == v
            &&& forall|j: int|
                0 <= j < attrs.len() && j != i ==> spec_i32_le(
                    after,
                    SIZE_OF_HEADER_HEADER + #[trigger] spec_attrs_len(attrs, j),
                ) == spec_i32_le(b, SIZE_OF_HEADER_HEADER + spec_attrs_len(attrs, j))
            &&& forall|k: int| 0 <= k < SIZE_OF_HEADER_HEADER ==> after[k] == b[k]
        }),
{
    let at = SIZE_OF_HEADER_HEADER + spec_attrs_len(attrs, i);
    let after = spec_overwrite(b, at, spec_i32_bytes(v));
    lemma_attrs_len_monotone(attrs, 0, i);
    lemma_attrs_len_monotone(attrs, i + 1, attrs.len() as int);
    assert(spec_ty_byte_len(attrs[i].ty) <= attrs[i].len);
    assert(after.subrange(at, at + 4) =~= spec_i32_bytes(v));
    lemma_i32_round_trip(v, after, at);
    assert forall|j: int| 0 <= j < attrs.len() && j != i implies spec_i32_le(
        after,
        SIZE_OF_HEADER_HEADER + #[trigger] spec_attrs_len(attrs, j),
    ) == spec_i32_le(b, SIZE_OF_HEADER_HEADER + spec_attrs_len(attrs, j)) by {
        lemma_attrs_len_monotone(attrs, 0, j);
        lemma_attrs_len_monotone(attrs, j + 1, attrs.len() as int);
        assert(spec_ty_byte_len(attrs[j].ty) <= attrs[j].len);
        if j < i {
            lemma_columns_apart(attrs, j, i);
        } else {
            lemma_columns_apart(attrs, i, j);
        }
    }
}

/// After the first `n` columns of a tuple were set, each of them has the
/// value it was set to, and the header of the tuple is as it was.
pub proof fn lemma_set_columns(
    bytes: Seq<u8>,
    attrs: Seq<MiniAttributeRecord>,
    values: Seq<int>,
    n: int,
)
    requires
        spec_desc_wf(attrs),
        bytes.len() == spec_attrs_len(attrs, attrs.len() as int) + SIZE_OF_HEADER_HEADER,
        0 <= n <= attrs.len(),
        n <= values.len(),
        forall|i: int| 0 <= i < n ==> -0x8000_0000 <= #[trigger] values[i] < 0x8000_0000,
    ensures
        spec_set_columns(bytes, attrs, values, n).len() == bytes.len(),
        forall|k: int|
            0 <= k < SIZE_OF_HEADER_HEADER ==> spec_set_columns(bytes, attrs, values, n)[k]
                == bytes[k],
        forall|i: int|
            0 <= i < n ==> spec_column(attrs, spec_set_columns(bytes, attrs, values, n), i)
                == #[trigger] values[i],
    decreases n,
{
    if n > 0 {
        lemma_set_columns(bytes, attrs, values, n - 1);
        let before = spec_set_columns(bytes, attrs, values, n - 1);
        let after = spec_set_columns(bytes, attrs, values, n);
        lemma_set_integer_column(attrs, before, n - 1, values[n - 1] as i32);
        assert forall|i: int| 0 <= i < n implies spec_column(attrs, after, i)
            == #[trigger] values[i] by {
            if i < n - 1 {
                assert(spec_column(attrs, before, i) == values[i]);
                assert(spec_i32_le(after, SIZE_OF_HEADER_HEADER + spec_attrs_len(attrs, i))
                    == spec_i32_le(before, SIZE_OF_HEADER_HEADER + spec_attrs_len(attrs, i)));
            }
        }
    }
}

/// The index of the first of the first `n` columns that has the given
/// name, if one of them has it.
pub open spec fn spec_index_from_name(
    attrs: Seq<MiniAttributeRecord>,
    name: Seq<char>,
    n: int,
) -> Option<int>
    decreases n,
{
    if n <= 0 {
        None
    } else {
        match spec_index_from_name(attrs, name, n - 1) {
            Some(i) => Some(i),
            None => if attrs[n - 1].name@ == name {
                Some(n - 1)
            } else {
                None
            },
        }
    }
}

/// A column that was found among the first columns is found among more of
/// them; a column that is found has the name, and no column before it has.
pub proof fn lemma_index_from_name(attrs: Seq<MiniAttributeRecord>, name: Seq<char>, n: int, m: int)
    requires
        0 <= n <= m <= attrs.len(),
    ensures
        spec_index_from_name(attrs, name, n) is Some ==> spec_index_from_name(attrs, name, m)
            == spec_index_from_name(attrs, name, n),
        spec_index_from_name(attrs, name, n) matches Some(i) ==> 0 <= i < n && attrs[i].name@
            == name,
        spec_index_from_name(attrs, name, n) is None ==> forall|j: int|
            0 <= j < n ==> (#[trigger] attrs[j]).name@ != name,
    decreases m,
{
    if n > 0 {
        lemma_index_from_name(attrs, name, n - 1, n - 1);
    }
    if n < m {
        lemma_index_from_name(attrs, name, n, m - 1);
    }
}

/// The value of the column `i` of a tuple with the given columns and bytes.
pub open spec fn spec_column(attrs: Seq<MiniAttributeRecord>, bytes: Seq<u8>, i: int) -> int {
    spec_i32_le(bytes, SIZE_OF_HEADER_HEADER + spec_attrs_len(attrs, i))
}

/// A tuple together with the descriptor of its columns.
pub struct TupleTableSlot {
    pub tuple_desc: TupleDesc,
    pub heap_tuple: HeapTupleData,
}

impl TupleTableSlot {
    /// The columns.
    pub open spec fn attrs(&self) -> Seq<MiniAttributeRecord> {
        self.tuple_desc.attrs@
    }

    /// The bytes of the tuple, header first.
    pub open spec fn bytes(&self) -> Seq<u8> {
        self.heap_tuple.t_data.bytes()
    }

    /// The invariant: the columns can describe a tuple, and the tuple has
    /// room for the header and for each of them.
    pub open spec fn wf(&self) -> bool {
        &&& spec_desc_wf(self.attrs())
        &&& self.heap_tuple.wf()
        &&& self.heap_tuple.t_len == spec_attrs_len(self.attrs(), self.attrs().len() as int)
            + SIZE_OF_HEADER_HEADER
    }

    /// Where the column `i` starts in the tuple.
    pub open spec fn column_offset(&self, i: int) -> int {
        SIZE_OF_HEADER_HEADER + spec_attrs_len(self.attrs(), i)
    }

    /// The value of the column `i`.
    pub open spec fn column(&self, i: int) -> int {
        spec_column(self.attrs(), self.bytes(), i)
    }

    /// The values of the columns, in order.
    pub open spec fn values(&self) -> Seq<int> {
        Seq::new(self.attrs().len(), |i: int| self.column(i))
    }

    /// A slot for tuples of the given columns; the tuple in it is all zero.
    pub fn new(attrs: Vec<MiniAttributeRecord>) -> (slot: TupleTableSlot)
        requires
            spec_desc_wf(attrs@),
        ensures
            slot.wf(),
            slot.attrs() == attrs@,
            slot.bytes() == spec_zero_block(slot.heap_tuple.t_len as nat),
            slot.heap_tuple.t_self.ip_blkid == 0,
            slot.heap_tuple.t_self.ip_posid == FirstOffsetNumber,
    {
        let tuple_desc = TupleDesc::new(attrs);
        let len = tuple_desc.attrs_total_len();
        let heap_tuple = HeapTupleData::new(len);
        TupleTableSlot { tuple_desc: tuple_desc, heap_tuple: heap_tuple }
    }

    /// The number of bytes of the tuple, header included.
    pub fn len(&self) -> (len: u32)
        ensures
            len == self.heap_tuple.t_len,
    {
        self.heap_tuple.t_len
    }

    /// The identity of the tuple.
    pub fn tid(&self) -> (tid: &ItemPointerData)
        ensures
            *tid == self.heap_tuple.t_self,
    {
        &self.heap_tuple.t_self
    }

    /// Takes the first `n` bytes of `src` as the start of the tuple, and
    /// `t_self` as its identity.
    pub fn load_data(&mut self, src: &[u8], n: u32, t_self: ItemPointerData)
        requires
            old(self).wf(),
            n <= old(self).heap_tuple.t_len,
            n <= src@.len(),
        ensures
            final(self).wf(),
            final(self).attrs() == old(self).attrs(),
            final(self).heap_tuple.t_self == t_self,
            final(self).bytes() == spec_overwrite(old(self).bytes(), 0, src@.subrange(0, n as int)),
    {
        self.heap_tuple.load(src, n, t_self);
    }

    /// Takes the start of `src` as the tuple, and `t_self` as its identity.
    pub fn load_data_without_len(&mut self, src: &[u8], t_self: ItemPointerData)
        requires
            old(self).wf(),
            old(self).heap_tuple.t_len <= src@.len(),
        ensures
            final(self).wf(),
            final(self).attrs() == old(self).attrs(),
            final(self).heap_tuple.t_self == t_self,
            final(self).bytes() == src@.subrange(0, old(self).heap_tuple.t_len as int),
    {
        self.heap_tuple.load_without_len(src, t_self);
    }

    pub fn attrs_count(&self) -> (count: usize)
        ensures
            count == self.attrs().len(),
    {
        self.tuple_desc.attrs_count()
    }

    /// The number of bytes that all columns take.
    pub fn attrs_total_len(&self) -> (len: u32)
        requires
            self.wf(),
        ensures
            len == spec_attrs_len(self.attrs(), self.attrs().len() as int),
            len + SIZE_OF_HEADER_HEADER == self.heap_tuple.t_len,
    {
        self.tuple_desc.attrs_total_len()
    }

    /// The index of the first column of the given name. The slot has to
    /// have a column of that name: `has_column` says whether it has.
    pub fn get_index_from_name(&self, name: &str) -> (index: usize)
        requires
            spec_index_from_name(self.attrs(), name@, self.attrs().len() as int) is Some,
        ensures
            index < self.attrs().len(),
            spec_index_from_name(self.attrs(), name@, self.attrs().len() as int) == Some(
                index as int,
            ),
            self.attrs()[index as int].name@ == name@,
            forall|j: int| 0 <= j < index ==> (#[trigger] self.attrs()[j]).name@ != name@,
    {
        proof {
            lemma_index_from_name(
                self.attrs(),
                name@,
                self.attrs().len() as int,
                self.attrs().len() as int,
            );
        }
        match self.position_of_name(name) {
            Some(index) => {
                proof {
                    lemma_index_from_name(
                        self.attrs(),
                        name@,
                        index as int,
                        self.attrs().len() as int,
                    );
                }
                index
            },
            None => vstd::pervasive::unreached(),
        }
    }

    /// Whether the slot has a column of the given name.
    pub fn has_column(&self, name: &str) -> (ok: bool)
        ensures
            ok == (spec_index_from_name(self.attrs(), name@, self.attrs().len() as int) is Some),
            ok == (exists|j: int| 0 <= j < self.attrs().len() && (#[trigger] self.attrs()[j]).name@ == name@),
    {
        proof {
            lemma_index_from_name(
                self.attrs(),
                name@,
                self.attrs().len() as int,
                self.attrs().len() as int,
            );
        }
        self.position_of_name(name).is_some()
    }

    /// The index of the first column of the given name, if there is one.
    fn position_of_name(&self, name: &str) -> (r: Option<usize>)
        ensures
            r is Some <==> spec_index_from_name(self.attrs(), name@, self.attrs().len() as int)
                is Some,
            r matches Some(i) ==> i < self.attrs().len() && spec_index_from_name(
                self.attrs(),
                name@,
                self.attrs().len() as int,
            ) == Some(i as int),
    {
        let mut i: usize = 0;
        while i < self.tuple_desc.attrs.len()
            invariant
                i <= self.attrs().len(),
                spec_index_from_name(self.attrs(), name@, i as int) is None,
            decreases self.attrs().len() - i,
        {
            if str_equal(self.tuple_desc.attrs[i].name.as_str(), name) {
                proof {
                    lemma_index_from_name(
                        self.attrs(),
                        name@,
                        i + 1,
                        self.attrs().len() as int,
                    );
                }
                return Some(i);
            }
            i += 1;
        }
        None
    }

    /// Whether the slot has a column `index`.
    pub fn check_index(&self, index: usize) -> (ok: bool)
        ensures
            ok == (index < self.attrs().len()),
    {
        index < self.attrs_count()
    }

    /// The bytes of the tuple from the column `index` on.
    pub fn attr_ptr(&self, index: usize) -> (bytes: &[u8])
        requires
            self.wf(),
            index < self.attrs().len(),
        ensures
            bytes@ == self.bytes().subrange(
                self.column_offset(index as int),
                self.bytes().len() as int,
            ),
            bytes@.len() >= self.attrs()[index as int].len,
    {
        proof {
            lemma_attrs_len_monotone(self.attrs(), index + 1, self.attrs().len() as int);
        }
        let offset = SIZE_OF_HEADER_HEADER + self.tuple_desc.attrs_len(index) as usize;
        slice_subrange(self.heap_tuple.data_ptr(), offset, self.heap_tuple.t_len as usize)
    }

    /// The value of the column `index`.
    pub fn get_column(&self, index: usize) -> (v: Integer)
        requires
            self.wf(),
            index < self.attrs().len(),
        ensures
            v.elem == self.column(index as int),
    {
        let attr = &self.tuple_desc.attrs[index];
        let src = self.attr_ptr(index);
        proof {
            let at = self.column_offset(index as int);
            lemma_attrs_len_monotone(self.attrs(), index + 1, self.attrs().len() as int);
            lemma_attrs_len_monotone(self.attrs(), 0, index as int);
            assert(spec_ty_byte_len(self.attrs()[index as int].ty) <= self.attrs()[index as int].len);
            assert(at + 4 <= self.bytes().len());
            assert(src@[0] == self.bytes()[at] && src@[1] == self.bytes()[at + 1] && src@[2]
                == self.bytes()[at + 2] && src@[3] == self.bytes()[at + 3]);
        }
        load_type_value(&attr.ty, src)
    }

    /// Puts the bytes of a value at the start of the column `index`.
    pub fn set_column<V: TypeValue>(&mut self, index: usize, ty: &V)
        requires
            old(self).wf(),
            index < old(self).attrs().len(),
            ty.spec_bytes().len() <= old(self).attrs()[index as int].len,
        ensures
            final(self).wf(),
            final(self).attrs() == old(self).attrs(),
            final(self).heap_tuple.t_self == old(self).heap_tuple.t_self,
            final(self).heap_tuple.t_len == old(self).heap_tuple.t_len,
            final(self).bytes() == spec_overwrite(
                old(self).bytes(),
                old(self).column_offset(index as int),
                ty.spec_bytes(),
            ),
    {
        proof {
            lemma_attrs_len_monotone(self.attrs(), index + 1, self.attrs().len() as int);
        }
        let src = ty.as_pointer();
        let n = ty.len();
        let offset = self.tuple_desc.attrs_len(index) as usize;
        assert(src@.subrange(0, n as int) == src@);
        self.heap_tuple.t_data.set_column(src.as_slice(), n, offset);
    }

    /// Takes one value for each column, in the order of the columns and each
    /// under the name of its column, and puts them into the tuple. If a
    /// value is missing, misnamed or no number, the tuple stays as it was.
    pub fn update_tuple(&mut self, key_values: Vec<KeyValue>) -> (r: Result<(), String>)
        requires
            old(self).wf(),
        ensures
            final(self).wf(),
            final(self).attrs() == old(self).attrs(),
            final(self).heap_tuple.t_self == old(self).heap_tuple.t_self,
            final(self).heap_tuple.t_len == old(self).heap_tuple.t_len,
            r is Ok <==> spec_update_ok(old(self).attrs(), spec_pairs(key_values@)),
            r is Ok ==> {
                &&& final(self).bytes() == spec_set_columns(
                    old(self).bytes(),
                    old(self).attrs(),
                    spec_parsed_values(spec_pairs(key_values@)),
                    old(self).attrs().len() as int,
                )
                &&& forall|i: int|
                    0 <= i < old(self).attrs().len() ==> Some(final(self).column(i) as i32)
                        == spec_parse_i32((#[trigger] key_values@[i]).value@)
                &&& forall|k: int|
                    0 <= k < SIZE_OF_HEADER_HEADER ==> final(self).bytes()[k] == old(self).bytes()[k]
            },
            r matches Err(msg) ==> final(self).bytes() == old(self).bytes() && spec_update_error(
                old(self).attrs(),
                spec_pairs(key_values@),
                msg@,
            ),
    {
        let n = key_values.len();
        if self.attrs_count() != n {
            let mut msg = String::from_str("Length not match. attrs: ");
            push_decimal(&mut msg, self.attrs_count() as u64);
            msg.append(", key_values: ");
            push_decimal(&mut msg, n as u64);
            return Err(msg);
        }
        let mut i: usize = 0;
        while i < n
            invariant
                i <= n,
                n == key_values@.len(),
                n == self.attrs().len(),
                *self == *old(self),
                self.wf(),
                spec_names_match(self.attrs(), spec_pairs(key_values@), i as int),
            decreases n - i,
        {
            let kv = &key_values[i];
            let attr = &self.tuple_desc.attrs[i];
            assert(spec_pairs(key_values@)[i as int] == (kv.key@, kv.value@));
            assert(spec_pairs(key_values@).len() == n);
            if !str_equal(kv.key, attr.name.as_str()) {
                let mut msg = String::from_str("Name not match. attrs: ");
                msg.append(attr.name.as_str());
                msg.append(", key_values: ");
                msg.append(kv.key);
                return Err(msg);
            }
            i += 1;
        }
        let mut v: Vec<Integer> = Vec::new();
        i = 0;
        while i < n
            invariant
                i <= n,
                n == key_values@.len(),
                n == self.attrs().len(),
                v@.len() == i,
                *self == *old(self),
                self.wf(),
                spec_names_match(self.attrs(), spec_pairs(key_values@), n as int),
                spec_values_parse(spec_pairs(key_values@), i as int),
                forall|j: int|
                    0 <= j < i ==> Some((#[trigger] v@[j]).elem) == spec_parse_i32(
                        key_values@[j].value@,
                    ),
            decreases n - i,
        {
            let kv = &key_values[i];
            let attr = &self.tuple_desc.attrs[i];
            assert(spec_pairs(key_values@)[i as int] == (kv.key@, kv.value@));
            assert(spec_pairs(key_values@).len() == n);
            match build_type_value(&attr.ty, kv.value) {
                Some(x) => {
                    v.push(x);
                },
                None => {
                    let mut msg = String::from_str("Value not match. attrs: ");
                    msg.append(attr.name.as_str());
                    msg.append(", value: ");
                    msg.append(kv.value);
                    return Err(msg);
                },
            }
            i += 1;
        }
        i = 0;
        while i < n
            invariant
                i <= n,
                n == key_values@.len(),
                n == self.attrs().len(),
                v@.len() == n,
                self.wf(),
                self.attrs() == old(self).attrs(),
                self.heap_tuple.t_self == old(self).heap_tuple.t_self,
                self.heap_tuple.t_len == old(self).heap_tuple.t_len,
                forall|j: int|
                    0 <= j < n ==> Some((#[trigger] v@[j]).elem) == spec_parse_i32(
                        key_values@[j].value@,
                    ),
                forall|j: int| 0 <= j < i ==> self.column(j) == (#[trigger] v@[j]).elem,
                forall|k: int|
                    0 <= k < SIZE_OF_HEADER_HEADER ==> self.bytes()[k] == old(self).bytes()[k],
                self.bytes() == spec_set_columns(
                    old(self).bytes(),
                    self.attrs(),
                    spec_parsed_values(spec_pairs(key_values@)),
                    i as int,
                ),
            decreases n - i,
        {
            proof {
                lemma_set_integer_column(self.attrs(), self.bytes(), i as int, v@[i as int].elem);
                assert(spec_ty_byte_len(self.attrs()[i as int].ty) <= self.attrs()[i as int].len);
            }
            let ghost before = *self;
            assert(spec_pairs(key_values@)[i as int].1 == key_values@[i as int].value@);
            assert(spec_parsed_values(spec_pairs(key_values@))[i as int] == v@[i as int].elem);
            self.set_column(i, &v[i]);
            assert forall|j: int| 0 <= j < i + 1 implies self.column(j) == (#[trigger] v@[j]).elem by {
                if j < i {
                    assert(before.column(j) == v@[j].elem);
                    assert(self.column(j) == spec_i32_le(
                        self.bytes(),
                        SIZE_OF_HEADER_HEADER + spec_attrs_len(self.attrs(), j),
                    ));
                }
            }
            i += 1;
        }
        assert forall|j: int| 0 <= j < n implies Some(self.column(j) as i32) == spec_parse_i32(
            (#[trigger] key_values@[j]).value@,
        ) by {
            assert(self.column(j) == v@[j].elem);
        }
        Ok(())
    }

    /// The bytes of the tuple, header first.
    pub fn data_ptr(&self) -> (bytes: &[u8])
        ensures
            bytes@ == self.bytes(),
    {
        self.heap_tuple.data_ptr()
    }
}

impl Clone for TupleTableSlot {
    fn clone(&self) -> (slot: TupleTableSlot)
        ensures
            slot.attrs() == self.attrs(),
            slot.bytes() == self.bytes(),
            slot.heap_tuple.t_len == self.heap_tuple.t_len,
            slot.heap_tuple.t_self == self.heap_tuple.t_self,
            self.wf() ==> slot.wf(),
    {
        let bytes = self.heap_tuple.data_ptr();
        let data = copy_range(bytes, 0, bytes.len());
        assert(bytes@.subrange(0, bytes@.len() as int) == bytes@);
        TupleTableSlot {
            tuple_desc: self.tuple_desc.clone(),
            heap_tuple: HeapTupleData {
                t_len: self.heap_tuple.t_len,
                t_self: self.heap_tuple.t_self,
                t_data: HeapTupleHeaderData { data: data },
            },
        }
    }
}

} // verus!
