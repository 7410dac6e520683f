//! The slotted page: a header, a line-pointer array growing up and tuple
//! bodies growing down, all inside one block-sized byte buffer.
//!
//! ```text
//! [ pd_lower pd_upper | item 0, item 1, ... ->      <- ... entry 1, entry 0 ]
//! ```
//!
//! `pd_lower` is the end of the line-pointer array, `pd_upper` the start of
//! the newest entry; the bytes between them are free.

use crate::config::DEFAULT_BLOCK_SIZE;
use crate::off::OffsetNumber;
use crate::text::{push_decimal, spec_decimal_nat};
use crate::tuple::TupleTableSlot;
use vstd::prelude::*;
use vstd::slice::slice_subrange;
use vstd::string::StringExecFns;

verus! {

pub type LocationIndex = u16;

/// Bytes taken by one line pointer.
pub const ITEM_ID_DATA_BYTE_SIZE: usize = 4;

/// Bytes taken by the page header (`pd_lower` and `pd_upper`).
pub const SIZE_OF_PAGE_HEADER_DATA: usize = 4;

/// The largest tuple that fits a page of the default size.
pub const MAX_HEAP_TUPLE_SIZE: usize = 8188;

/// The largest block a page can span: line pointers hold 15-bit offsets.
pub const MAX_PAGE_SIZE: u16 = 0x7fff;

// ---------------------------------------------------------------------
// Little-endian integers in a byte sequence
// ---------------------------------------------------------------------

/// The 16-bit little-endian number at `b[at..at + 2]`.
pub open spec fn spec_u16_le(b: Seq<u8>, at: int) -> int {
    b[at] as int + 256 * (b[at + 1] as int)
}

/// The 32-bit little-endian number at `b[at..at + 4]`.
pub open spec fn spec_u32_le(b: Seq<u8>, at: int) -> int {
    b[at] as int + 256 * (b[at + 1] as int) + 65536 * (b[at + 2] as int) + 16777216 * (b[at
        + 3] as int)
}

/// `b` with the bytes from `at` on replaced by those of `src`.
pub open spec fn spec_overwrite(b: Seq<u8>, at: int, src: Seq<u8>) -> Seq<u8> {
    Seq::new(
        b.len(),
        |k: int|
            if at <= k < at + src.len() {
                src[k - at]
            } else {
                b[k]
            },
    )
}

/// The two bytes of a 16-bit number, low byte first.
pub open spec fn spec_u16_bytes(v: u16) -> Seq<u8> {
    seq![(v % 256) as u8, (v / 256) as u8]
}

/// The four bytes of a 32-bit number, low byte first.
pub open spec fn spec_u32_bytes(v: u32) -> Seq<u8> {
    seq![
        (v % 256) as u8,
        ((v / 256) % 256) as u8,
        ((v / 65536) % 256) as u8,
        (v / 16777216) as u8,
    ]
}

/// The 16-bit number that lies at `b[at..at + 2]`, low byte first.
pub fn read_u16_le(b: &[u8], at: usize) -> (v: u16)
    requires
        at + 2 <= b@.len(),
    ensures
        v == spec_u16_le(b@, at as int),
{
    let lo: u16 = b[at] as u16;
    let hi: u16 = b[at + 1] as u16;
    lo + hi * 256
}

/// The 32-bit number that lies at `b[at..at + 4]`, low byte first.
pub fn read_u32_le(b: &[u8], at: usize) -> (v: u32)
    requires
        at + 4 <= b@.len(),
    ensures
        v == spec_u32_le(b@, at as int),
{
    let b0: u32 = b[at] as u32;
    let b1: u32 = b[at + 1] as u32;
    let b2: u32 = b[at + 2] as u32;
    let b3: u32 = b[at + 3] as u32;
    b0 + b1 * 256 + b2 * 65536 + b3 * 16777216
}

/// Copies the first `n` bytes of `src` over `data[at..at + n]`.
pub fn write_bytes(data: &mut Vec<u8>, at: usize, src: &[u8], n: usize)
    requires
        at + n <= old(data).len(),
        n <= src@.len(),
    ensures
        final(data)@ == spec_overwrite(old(data)@, at as int, src@.subrange(0, n as int)),
{
    let mut i: usize = 0;
    while i < n
        invariant
            i <= n,
            n <= src@.len(),
            at + n <= data.len(),
            data@ == spec_overwrite(old(data)@, at as int, src@.subrange(0, i as int)),
        decreases n - i,
    {
        data.set(at + i, src[i]);
        i += 1;
        assert(data@ =~= spec_overwrite(old(data)@, at as int, src@.subrange(0, i as int)));
    }
}

/// Writes a 16-bit number over `data[at..at + 2]`, low byte first.
pub fn write_u16_le(data: &mut Vec<u8>, at: usize, v: u16)
    requires
        at + 2 <= old(data).len(),
    ensures
        final(data)@ == spec_overwrite(old(data)@, at as int, spec_u16_bytes(v)),
        spec_u16_le(final(data)@, at as int) == v,
{
    data.set(at, (v % 256) as u8);
    data.set(at + 1, (v / 256) as u8);
    assert(data@ =~= spec_overwrite(old(data)@, at as int, spec_u16_bytes(v)));
}

/// Writes a 32-bit number over `data[at..at + 4]`, low byte first.
pub fn write_u32_le(data: &mut Vec<u8>, at: usize, v: u32)
    requires
        at + 4 <= old(data).len(),
    ensures
        final(data)@ == spec_overwrite(old(data)@, at as int, spec_u32_bytes(v)),
        spec_u32_le(final(data)@, at as int) == v,
{
    data.set(at, (v % 256) as u8);
    data.set(at + 1, ((v / 256) % 256) as u8);
    data.set(at + 2, ((v / 65536) % 256) as u8);
    data.set(at + 3, (v / 16777216) as u8);
    assert(data@ =~= spec_overwrite(old(data)@, at as int, spec_u32_bytes(v)));
}

/// A copy of `src[from..to]`.
pub fn copy_range(src: &[u8], from: usize, to: usize) -> (out: Vec<u8>)
    requires
        from <= to <= src@.len(),
    ensures
        out@ == src@.subrange(from as int, to as int),
{
    let mut out: Vec<u8> = Vec::new();
    let mut i: usize = from;
    while i < to
        invariant
            from <= i <= to <= src@.len(),
            out@ == src@.subrange(from as int, i as int),
        decreases to - i,
    {
        out.push(src[i]);
        i += 1;
        assert(out@ =~= src@.subrange(from as int, i as int));
    }
    out
}

// ---------------------------------------------------------------------
// Line pointers
// ---------------------------------------------------------------------

/// A line pointer: 15 bits of offset, 2 bits of flags and 15 bits of length
/// packed into 32 bits as `(lp_off << 17) | (lp_flags << 15) | lp_len`.
#[derive(Debug, Clone, Copy)]
pub struct ItemIdData {
    data: u32,
}

/// The offset field of a packed line pointer.
pub open spec fn spec_lp_off(data: u32) -> u16 {
    (data >> 17) as u16
}

/// The flags field of a packed line pointer.
pub open spec fn spec_lp_flags(data: u32) -> u8 {
    ((data >> 15) & 3) as u8
}

/// The length field of a packed line pointer.
pub open spec fn spec_lp_len(data: u32) -> u16 {
    (data & 0x7fff) as u16
}

/// The packed form of a line pointer with the given fields; bits of a field
/// beyond its width are dropped.
pub open spec fn spec_item_id_pack(off: u16, flags: u8, len: u16) -> u32 {
    ((off as u32) << 17) | (((flags & 3) as u32) << 15) | ((len & 0x7fff) as u32)
}

/// Packing three fields that fit their widths and reading them back gives
/// the same three fields.
pub proof fn lemma_item_id_round_trip(off: u16, flags: u8, len: u16)
    requires
        off < 0x8000,
        flags < 4,
        len < 0x8000,
    ensures
        spec_lp_off(spec_item_id_pack(off, flags, len)) == off,
        spec_lp_flags(spec_item_id_pack(off, flags, len)) == flags,
        spec_lp_len(spec_item_id_pack(off, flags, len)) == len,
{
    assert(off < 0x8000 && flags < 4 && len < 0x8000 ==> {
        let p = ((off as u32) << 17) | (((flags & 3) as u32) << 15) | ((len & 0x7fff) as u32);
        &&& (p >> 17) as u16 == off
        &&& ((p >> 15) & 3) as u8 == flags
        &&& (p & 0x7fff) as u16 == len
    }) by (bit_vector);
}

impl ItemIdData {
    /// The packed 32-bit word.
    pub closed spec fn raw(&self) -> u32 {
        self.data
    }

    /// The offset field: where the entry starts in its page.
    pub open spec fn off(&self) -> u16 {
        spec_lp_off(self.raw())
    }

    /// The flags field: the state of the line pointer.
    pub open spec fn flags(&self) -> u8 {
        spec_lp_flags(self.raw())
    }

    /// The length field: the number of bytes of the entry.
    pub open spec fn len(&self) -> u16 {
        spec_lp_len(self.raw())
    }

    pub fn new(data: u32) -> (item: ItemIdData)
        ensures
            item.raw() == data,
    {
        ItemIdData { data: data }
    }

    /// A line pointer with the given fields; bits of a field beyond its width
    /// are dropped.
    pub fn new_with_lps(off: u16, flags: u8, len: u16) -> (item: ItemIdData)
        ensures
            item.raw() == spec_item_id_pack(off, flags, len),
            off < 0x8000 && flags < 4 && len < 0x8000 ==> item.off() == off && item.flags()
                == flags && item.len() == len,
    {
        let mut item = ItemIdData::new(0);
        item.set_lp_off(off);
        item.set_lp_flags(flags);
        item.set_lp_len(len);
        assert(item.data == spec_item_id_pack(off, flags, len)) by {
            let d = item.data;
            assert(d == (((((0u32 & !0xfffe0000u32) | ((off as u32) << 17)) & !0x00018000u32) | (((
            flags & 3) as u32) << 15)) & !0x00007fffu32) | ((len & 0x7fff) as u32));
            assert((((((0u32 & !0xfffe0000u32) | ((off as u32) << 17)) & !0x00018000u32) | (((flags
                & 3) as u32) << 15)) & !0x00007fffu32) | ((len & 0x7fff) as u32) == ((off as u32)
                << 17) | (((flags & 3) as u32) << 15) | ((len & 0x7fff) as u32)) by (bit_vector);
        }
        proof {
            if off < 0x8000 && flags < 4 && len < 0x8000 {
                lemma_item_id_round_trip(off, flags, len);
            }
        }
        item
    }

    pub fn raw_value(&self) -> (data: u32)
        ensures
            data == self.raw(),
    {
        self.data
    }

    pub fn lp_off(&self) -> (off: u16)
        ensures
            off == self.off(),
            off < 0x8000,
    {
        let d: u32 = self.data;
        assert((d & 0xfffe0000) >> 17 == d >> 17 && (d >> 17) < 0x8000) by (bit_vector);
        ((self.data & 0xfffe0000) >> 17) as u16
    }

    pub fn lp_flags(&self) -> (flags: u8)
        ensures
            flags == self.flags(),
            flags < 4,
    {
        let d: u32 = self.data;
        assert((d & 0x00018000) >> 15 == (d >> 15) & 3 && ((d >> 15) & 3) < 4) by (bit_vector);
        ((self.data & 0x00018000) >> 15) as u8
    }

    pub fn lp_len(&self) -> (len: u16)
        ensures
            len == self.len(),
            len < 0x8000,
    {
        let d: u32 = self.data;
        assert((d & 0x00007fff) < 0x8000) by (bit_vector);
        (self.data & 0x00007fff) as u16
    }

    /// Replaces the offset field by the low 15 bits of `off`.
    pub fn set_lp_off(&mut self, off: u16)
        ensures
            final(self).raw() == (old(self).raw() & !0xfffe0000u32) | ((off as u32) << 17),
            final(self).off() == off % 0x8000,
            final(self).flags() == old(self).flags(),
            final(self).len() == old(self).len(),
    {
        let d: u32 = self.data;
        assert({
            let p = (d & !0xfffe0000u32) | ((off as u32) << 17);
            &&& (p >> 17) as u16 == off % 0x8000
            &&& ((p >> 15) & 3) as u8 == ((d >> 15) & 3) as u8
            &&& (p & 0x7fff) as u16 == (d & 0x7fff) as u16
        }) by (bit_vector);
        self.data = (self.data & !0xfffe0000) | ((off as u32) << 17);
    }

    /// Replaces the flags field by the low 2 bits of `flags`.
    pub fn set_lp_flags(&mut self, flags: u8)
        ensures
            final(self).raw() == (old(self).raw() & !0x00018000u32) | (((flags & 3) as u32) << 15),
            final(self).off() == old(self).off(),
            final(self).flags() == flags % 4,
            final(self).len() == old(self).len(),
    {
        let d: u32 = self.data;
        assert({
            let p = (d & !0x00018000u32) | (((flags & 3) as u32) << 15);
            &&& (p >> 17) as u16 == (d >> 17) as u16
            &&& ((p >> 15) & 3) as u8 == flags % 4
            &&& (p & 0x7fff) as u16 == (d & 0x7fff) as u16
        }) by (bit_vector);
        self.data = (self.data & !0x00018000) | (((flags & 0x0003) as u32) << 15);
    }

    /// Replaces the length field by the low 15 bits of `len`.
    pub fn set_lp_len(&mut self, len: u16)
        ensures
            final(self).raw() == (old(self).raw() & !0x00007fffu32) | ((len & 0x7fff) as u32),
            final(self).off() == old(self).off(),
            final(self).flags() == old(self).flags(),
            final(self).len() == len % 0x8000,
    {
        let d: u32 = self.data;
        assert({
            let p = (d & !0x00007fffu32) | ((len & 0x7fff) as u32);
            &&& (p >> 17) as u16 == (d >> 17) as u16
            &&& ((p >> 15) & 3) as u8 == ((d >> 15) & 3) as u8
            &&& (p & 0x7fff) as u16 == len % 0x8000
        }) by (bit_vector);
        self.data = (self.data & !0x00007fff) | ((len & 0x7fff) as u32);
    }
}


// ---------------------------------------------------------------------
// The page as a byte sequence
// ---------------------------------------------------------------------

/// `pd_lower`: the end of the line-pointer array.
pub open spec fn bytes_pd_lower(b: Seq<u8>) -> int {
    spec_u16_le(b, 0)
}

/// `pd_upper`: the start of the newest entry.
pub open spec fn bytes_pd_upper(b: Seq<u8>) -> int {
    spec_u16_le(b, 2)
}

/// The number of line pointers in the page.
pub open spec fn bytes_item_count(b: Seq<u8>) -> int {
    (bytes_pd_lower(b) - 4) / 4
}

/// The packed line pointer in slot `i`.
pub open spec fn bytes_item(b: Seq<u8>, i: int) -> u32 {
    spec_u32_le(b, 4 + 4 * i) as u32
}

/// Where the entry of slot `i` starts.
pub open spec fn bytes_item_off(b: Seq<u8>, i: int) -> int {
    spec_lp_off(bytes_item(b, i)) as int
}

/// How many bytes the entry of slot `i` has.
pub open spec fn bytes_item_len(b: Seq<u8>, i: int) -> int {
    spec_lp_len(bytes_item(b, i)) as int
}

/// The bytes of the entry of slot `i`.
pub open spec fn bytes_entry(b: Seq<u8>, i: int) -> Seq<u8> {
    b.subrange(bytes_item_off(b, i), bytes_item_off(b, i) + bytes_item_len(b, i))
}

/// Where the entry of slot `i` has to end: at the end of the block for the
/// first entry, at the start of the entry before it for the others.
pub open spec fn bytes_entry_end(b: Seq<u8>, i: int) -> int {
    if i == 0 {
        b.len() as int
    } else {
        bytes_item_off(b, i - 1)
    }
}

/// A block holds a well-formed page: the header's two offsets are in order
/// and inside the block, the line pointers fill the space up to `pd_lower`
/// exactly, and the entries lie back to back from the end of the block
/// down to `pd_upper`, in slot order.
pub open spec fn page_bytes_wf(b: Seq<u8>) -> bool {
    &&& 4 <= b.len() <= 0x7fff
    &&& 4 <= bytes_pd_lower(b) <= bytes_pd_upper(b) <= b.len()
    &&& (bytes_pd_lower(b) - 4) % 4 == 0
    &&& forall|i: int|
        0 <= i < bytes_item_count(b) ==> bytes_item_off(b, i) + #[trigger] bytes_item_len(b, i)
            == bytes_entry_end(b, i)
    &&& bytes_pd_upper(b) == bytes_entry_end(b, bytes_item_count(b))
}

/// In a well-formed page a later entry ends where or before an earlier one
/// starts.
pub proof fn lemma_entries_ordered(b: Seq<u8>, i: int, j: int)
    requires
        page_bytes_wf(b),
        0 <= i < j < bytes_item_count(b),
    ensures
        bytes_item_off(b, j) + bytes_item_len(b, j) <= bytes_item_off(b, i),
    decreases j - i,
{
    assert(bytes_item_off(b, j) + bytes_item_len(b, j) == bytes_entry_end(b, j));
    if j - 1 > i {
        lemma_entries_ordered(b, i, j - 1);
    }
}

/// In a well-formed page every entry lies between `pd_upper` and the end of
/// the block.
pub proof fn lemma_entry_bounds(b: Seq<u8>, i: int)
    requires
        page_bytes_wf(b),
        0 <= i < bytes_item_count(b),
    ensures
        bytes_pd_upper(b) <= bytes_item_off(b, i),
        bytes_item_off(b, i) + bytes_item_len(b, i) <= b.len(),
        4 + 4 * i + 4 <= bytes_pd_lower(b),
{
    let count = bytes_item_count(b);
    if i < count - 1 {
        lemma_entries_ordered(b, i, count - 1);
    }
    assert(bytes_item_off(b, i) + bytes_item_len(b, i) == bytes_entry_end(b, i));
    if i > 0 {
        lemma_entries_ordered(b, 0, i);
        assert(bytes_item_off(b, 0) + bytes_item_len(b, 0) == bytes_entry_end(b, 0));
    }
}

/// Whether a block holds a well-formed page.
pub fn check_page(b: &[u8]) -> (ok: bool)
    ensures
        ok == page_bytes_wf(b@),
{
    let n = b.len();
    if n < 4 || n > 0x7fff {
        return false;
    }
    let lower = read_u16_le(b, 0) as usize;
    let upper = read_u16_le(b, 2) as usize;
    if lower < 4 || lower > upper || upper > n || (lower - 4) % 4 != 0 {
        return false;
    }
    let count = (lower - 4) / 4;
    let mut end: usize = n;
    let mut i: usize = 0;
    while i < count
        invariant
            n == b@.len(),
            4 <= n <= 0x7fff,
            lower == bytes_pd_lower(b@),
            4 <= lower <= n,
            (lower - 4) % 4 == 0,
            count == bytes_item_count(b@),
            i <= count,
            end == bytes_entry_end(b@, i as int),
            forall|j: int|
                0 <= j < i ==> bytes_item_off(b@, j) + #[trigger] bytes_item_len(b@, j)
                    == bytes_entry_end(b@, j),
        decreases count - i,
    {
        let item = ItemIdData::new(read_u32_le(b, 4 + 4 * i));
        let off = item.lp_off() as usize;
        let len = item.lp_len() as usize;
        assert(off == bytes_item_off(b@, i as int));
        assert(len == bytes_item_len(b@, i as int));
        if off + len != end {
            return false;
        }
        end = off;
        i += 1;
    }
    end == upper
}

// ---------------------------------------------------------------------
// The page header
// ---------------------------------------------------------------------

/// The two offsets at the start of a page.
#[derive(Debug, Clone, Copy)]
pub struct PageHeaderData {
    /// Offset to the start of the free space.
    pub pd_lower: LocationIndex,
    /// Offset to the end of the free space.
    pub pd_upper: LocationIndex,
}

impl PageHeaderData {
    /// The header of an empty page of `block_size` bytes.
    pub fn new(block_size: u16) -> (header: PageHeaderData)
        ensures
            header.pd_lower == SIZE_OF_PAGE_HEADER_DATA,
            header.pd_upper == block_size,
    {
        PageHeaderData { pd_lower: SIZE_OF_PAGE_HEADER_DATA as u16, pd_upper: block_size }
    }

    /// Makes this the header of an empty page of `block_size` bytes.
    pub fn init(&mut self, block_size: u16)
        ensures
            final(self).pd_lower == SIZE_OF_PAGE_HEADER_DATA,
            final(self).pd_upper == block_size,
    {
        self.pd_lower = SIZE_OF_PAGE_HEADER_DATA as u16;
        self.pd_upper = block_size;
    }

    /// Reads a header from its four bytes: `pd_lower`, then `pd_upper`, each
    /// with its low byte first.
    pub fn from_bytes(buf: &[u8]) -> (header: PageHeaderData)
        requires
            buf@.len() == SIZE_OF_PAGE_HEADER_DATA,
        ensures
            header.pd_lower == spec_u16_le(buf@, 0),
            header.pd_upper == spec_u16_le(buf@, 2),
    {
        PageHeaderData { pd_lower: read_u16_le(buf, 0), pd_upper: read_u16_le(buf, 2) }
    }
}

// ---------------------------------------------------------------------
// The page
// ---------------------------------------------------------------------

/// One block in memory, laid out as a slotted page.
pub struct Page {
    data: Vec<u8>,
}

/// What `add_entry` says when the entry does not fit.
pub open spec fn spec_no_space_message(n: nat) -> Seq<char> {
    "Does not have enough space for "@ + spec_decimal_nat(n)
}

/// What the entry accessors say of a slot that the page does not have.
pub open spec fn spec_index_message(index: nat, entry_count: nat) -> Seq<char> {
    "Index over entry_count. index: "@ + spec_decimal_nat(index) + ", entry_count: "@
        + spec_decimal_nat(entry_count)
}

/// A block of `n` zero bytes.
pub open spec fn spec_zero_block(n: nat) -> Seq<u8> {
    Seq::new(n, |k: int| 0u8)
}

/// The block `b` with the header of an empty page written over its first
/// four bytes.
pub open spec fn spec_init_page(b: Seq<u8>) -> Seq<u8> {
    spec_overwrite(spec_overwrite(b, 0, spec_u16_bytes(4)), 2, spec_u16_bytes(b.len() as u16))
}

/// Any block of a size that a page can have holds an empty well-formed
/// page once its header is initialised.
pub proof fn lemma_init_page(b: Seq<u8>)
    requires
        4 <= b.len() <= 0x7fff,
    ensures
        page_bytes_wf(spec_init_page(b)),
        spec_init_page(b).len() == b.len(),
        bytes_pd_lower(spec_init_page(b)) == 4,
        bytes_pd_upper(spec_init_page(b)) == b.len(),
        bytes_item_count(spec_init_page(b)) == 0,
        forall|k: int| 4 <= k < b.len() ==> spec_init_page(b)[k] == b[k],
{
}

/// A page after an entry of `src` was added to the page `b`.
pub open spec fn spec_add_entry(b: Seq<u8>, src: Seq<u8>) -> Seq<u8> {
    let lower = bytes_pd_lower(b);
    let upper = bytes_pd_upper(b) - src.len();
    let item = spec_item_id_pack(upper as u16, 0, src.len() as u16);
    let with_entry = spec_overwrite(b, upper, src);
    let with_item = spec_overwrite(with_entry, lower, spec_u32_bytes(item));
    let with_upper = spec_overwrite(with_item, 2, spec_u16_bytes(upper as u16));
    spec_overwrite(with_upper, 0, spec_u16_bytes((lower + 4) as u16))
}

/// The free space of a page: the gap between the two header offsets, less
/// the line pointer that a new entry would take; never below zero.
pub open spec fn bytes_free_space(b: Seq<u8>) -> int {
    let gap = bytes_pd_upper(b) - bytes_pd_lower(b);
    if gap < 4 {
        0
    } else {
        gap - 4
    }
}

/// Whether an entry of `n` bytes and its line pointer fit the free space of
/// a page. For an entry of at least one byte this is to say that `n` is no
/// more than the free space.
pub open spec fn bytes_has_space(b: Seq<u8>, n: int) -> bool {
    n + 4 <= bytes_pd_upper(b) - bytes_pd_lower(b)
}

/// Adding an entry that fits to a well-formed page gives a well-formed
/// page with one more slot, which holds the entry; the slots and entries
/// that were there stay as they were.
pub proof fn lemma_add_entry(b: Seq<u8>, src: Seq<u8>)
    requires
        page_bytes_wf(b),
        bytes_has_space(b, src.len() as int),
    ensures
        ({
            let after = spec_add_entry(b, src);
            let count = bytes_item_count(b);
            &&& after.len() == b.len()
            &&& page_bytes_wf(after)
            &&& bytes_pd_lower(after) == bytes_pd_lower(b) + 4
            &&& bytes_pd_upper(after) == bytes_pd_upper(b) - src.len()
            &&& bytes_item_count(after) == count + 1
            &&& bytes_item(after, count) == spec_item_id_pack(
                (bytes_pd_upper(b) - src.len()) as u16,
                0,
                src.len() as u16,
            )
            &&& bytes_item_off(after, count) == bytes_pd_upper(b) - src.len()
            &&& bytes_item_len(after, count) == src.len()
            &&& spec_lp_flags(bytes_item(after, count)) == 0
            &&& bytes_entry(after, count) == src
            &&& forall|i: int|
                0 <= i < count ==> bytes_item(after, i) == #[trigger] bytes_item(b, i)
            &&& forall|i: int|
                0 <= i < count ==> bytes_entry(after, i) == #[trigger] bytes_entry(b, i)
        }),
{
    let lower = bytes_pd_lower(b);
    let upper = bytes_pd_upper(b) - src.len();
    let count = bytes_item_count(b);
    let item = spec_item_id_pack(upper as u16, 0, src.len() as u16);
    let with_entry = spec_overwrite(b, upper, src);
    let with_item = spec_overwrite(with_entry, lower, spec_u32_bytes(item));
    let with_upper = spec_overwrite(with_item, 2, spec_u16_bytes(upper as u16));
    let after = spec_overwrite(with_upper, 0, spec_u16_bytes((lower + 4) as u16));
    assert(after == spec_add_entry(b, src));
    lemma_item_id_round_trip(upper as u16, 0, src.len() as u16);
    assert(bytes_pd_lower(after) == lower + 4);
    assert(bytes_pd_upper(after) == upper);
    assert(bytes_item_count(after) == count + 1);
    assert(spec_u32_le(after, 4 + 4 * count) == item) by {
        assert(after[lower] == spec_u32_bytes(item)[0]);
        assert(after[lower + 1] == spec_u32_bytes(item)[1]);
        assert(after[lower + 2] == spec_u32_bytes(item)[2]);
        assert(after[lower + 3] == spec_u32_bytes(item)[3]);
    }
    assert(bytes_item(after, count) == item);
    assert(bytes_entry(after, count) =~= src);
    assert forall|i: int| 0 <= i < count implies bytes_item(after, i) == #[trigger] bytes_item(
        b,
        i,
    ) by {
        assert(spec_u32_le(after, 4 + 4 * i) == spec_u32_le(b, 4 + 4 * i));
    }
    assert forall|i: int| 0 <= i < count implies bytes_entry(after, i) == #[trigger] bytes_entry(
        b,
        i,
    ) by {
        lemma_entry_bounds(b, i);
        assert(bytes_item(after, i) == bytes_item(b, i));
        assert(bytes_entry(after, i) =~= bytes_entry(b, i));
    }
    assert forall|i: int| 0 <= i < count + 1 implies bytes_item_off(after, i)
        + #[trigger] bytes_item_len(after, i) == bytes_entry_end(after, i) by {
        if i < count {
            assert(bytes_item(after, i) == bytes_item(b, i));
            assert(bytes_item_off(b, i) + bytes_item_len(b, i) == bytes_entry_end(b, i));
            if i > 0 {
                assert(bytes_item(after, i - 1) == bytes_item(b, i - 1));
            }
        } else {
            if count > 0 {
                assert(bytes_item(after, count - 1) == bytes_item(b, count - 1));
            }
        }
    }
}

/// In a well-formed page the two offsets of the header are in order and
/// inside the block, behind the header.
pub proof fn lemma_page_bounds(b: Seq<u8>)
    requires
        page_bytes_wf(b),
    ensures
        SIZE_OF_PAGE_HEADER_DATA <= bytes_pd_lower(b) <= bytes_pd_upper(b) <= b.len(),
{
}

/// In a well-formed page the line pointers fill the space between the
/// header and `pd_lower`.
pub proof fn lemma_item_count(b: Seq<u8>)
    requires
        page_bytes_wf(b),
    ensures
        bytes_item_count(b) == (bytes_pd_lower(b) - SIZE_OF_PAGE_HEADER_DATA) / (
        ITEM_ID_DATA_BYTE_SIZE as int),
        0 <= bytes_item_count(b),
        SIZE_OF_PAGE_HEADER_DATA + bytes_item_count(b) * ITEM_ID_DATA_BYTE_SIZE == bytes_pd_lower(
            b,
        ),
{
}

/// The free space of a page is never negative.
pub proof fn lemma_free_space(b: Seq<u8>)
    ensures
        bytes_free_space(b) >= 0,
{
}

/// An entry of exactly the free space of a page fits, and leaves no free
/// space; given that the page has room for a line pointer at all.
pub proof fn lemma_exact_fit(b: Seq<u8>, src: Seq<u8>)
    requires
        page_bytes_wf(b),
        bytes_pd_upper(b) - bytes_pd_lower(b) >= ITEM_ID_DATA_BYTE_SIZE,
        src.len() == bytes_free_space(b),
    ensures
        bytes_has_space(b, src.len() as int),
        page_bytes_wf(spec_add_entry(b, src)),
        bytes_free_space(spec_add_entry(b, src)) == 0,
{
    lemma_add_entry(b, src);
}

/// A page in which the entry of slot `index` was replaced by `src`, of the
/// same length.
pub open spec fn spec_put_entry(b: Seq<u8>, index: int, src: Seq<u8>) -> Seq<u8> {
    spec_overwrite(b, bytes_item_off(b, index), src)
}

/// Replacing an entry by bytes of the same length changes that entry and
/// nothing else of a well-formed page.
pub proof fn lemma_put_entry(b: Seq<u8>, index: int, src: Seq<u8>)
    requires
        page_bytes_wf(b),
        0 <= index < bytes_item_count(b),
        src.len() == bytes_item_len(b, index),
    ensures
        ({
            let after = spec_put_entry(b, index, src);
            &&& after.len() == b.len()
            &&& page_bytes_wf(after)
            &&& bytes_pd_lower(after) == bytes_pd_lower(b)
            &&& bytes_pd_upper(after) == bytes_pd_upper(b)
            &&& bytes_item_count(after) == bytes_item_count(b)
            &&& bytes_entry(after, index) == src
            &&& forall|i: int|
                0 <= i < bytes_item_count(b) ==> bytes_item(after, i) == #[trigger] bytes_item(
                    b,
                    i,
                )
            &&& forall|i: int|
                0 <= i < bytes_item_count(b) && i != index ==> bytes_entry(after, i)
                    == #[trigger] bytes_entry(b, i)
        }),
{
    let after = spec_put_entry(b, index, src);
    let count = bytes_item_count(b);
    lemma_entry_bounds(b, index);
    assert forall|i: int| 0 <= i < count implies bytes_item(after, i) == #[trigger] bytes_item(
        b,
        i,
    ) by {
        lemma_entry_bounds(b, i);
        assert(spec_u32_le(after, 4 + 4 * i) == spec_u32_le(b, 4 + 4 * i));
    }
    assert(bytes_entry(after, index) =~= src);
    assert forall|i: int| 0 <= i < count && i != index implies bytes_entry(after, i)
        == #[trigger] bytes_entry(b, i) by {
        lemma_entry_bounds(b, i);
        if i < index {
            lemma_entries_ordered(b, i, index);
        } else {
            lemma_entries_ordered(b, index, i);
        }
        assert(bytes_item(after, i) == bytes_item(b, i));
        assert(bytes_entry(after, i) =~= bytes_entry(b, i));
    }
    assert forall|i: int| 0 <= i < count implies bytes_item_off(after, i)
        + #[trigger] bytes_item_len(after, i) == bytes_entry_end(after, i) by {
        assert(bytes_item(after, i) == bytes_item(b, i));
        assert(bytes_item_off(b, i) + bytes_item_len(b, i) == bytes_entry_end(b, i));
        if i > 0 {
            assert(bytes_item(after, i - 1) == bytes_item(b, i - 1));
        }
    }
    if count > 0 {
        assert(bytes_item(after, count - 1) == bytes_item(b, count - 1));
    }
}


/// Whether a block was never laid out as a page: its `pd_upper` is zero, as
/// in a block of zeros.
pub open spec fn block_is_new(b: Seq<u8>) -> bool {
    bytes_pd_upper(b) == 0
}

/// Whether a block of a heap file can be taken as a page: it has the
/// default block size, and it was never laid out or holds a well-formed
/// page.
pub open spec fn block_ok(b: Seq<u8>) -> bool {
    b.len() == DEFAULT_BLOCK_SIZE && (block_is_new(b) || page_bytes_wf(b))
}

/// The page that a block of a heap file stands for: an empty page if the
/// block was never laid out, else the page that the block holds.
pub open spec fn spec_page_of_block(b: Seq<u8>) -> Seq<u8> {
    if block_is_new(b) {
        spec_init_page(b)
    } else {
        b
    }
}

/// The page that a block stands for is well-formed; a block that holds a
/// well-formed page stands for that page.
pub proof fn lemma_page_of_block(b: Seq<u8>)
    requires
        block_ok(b),
    ensures
        page_bytes_wf(spec_page_of_block(b)),
        spec_page_of_block(b).len() == b.len(),
        page_bytes_wf(b) ==> spec_page_of_block(b) == b,
        block_ok(spec_page_of_block(b)),
{
    lemma_init_page(b);
}

/// Whether a block of a heap file can be taken as a page.
pub fn check_block(b: &[u8]) -> (ok: bool)
    ensures
        ok == block_ok(b@),
{
    if b.len() != DEFAULT_BLOCK_SIZE as usize {
        return false;
    }
    if read_u16_le(b, 2) == 0 {
        return true;
    }
    check_page(b)
}

impl Page {
    /// The bytes of the block.
    pub closed spec fn bytes(&self) -> Seq<u8> {
        self.data@
    }

    /// The page's invariant: its bytes hold a well-formed page.
    pub open spec fn wf(&self) -> bool {
        page_bytes_wf(self.bytes())
    }

    pub open spec fn block_size(&self) -> int {
        self.bytes().len() as int
    }

    pub open spec fn pd_lower(&self) -> int {
        bytes_pd_lower(self.bytes())
    }

    pub open spec fn pd_upper(&self) -> int {
        bytes_pd_upper(self.bytes())
    }

    /// The number of line pointers.
    pub open spec fn item_count(&self) -> int {
        bytes_item_count(self.bytes())
    }

    /// The line pointer of slot `i`.
    pub open spec fn item(&self, i: int) -> u32 {
        bytes_item(self.bytes(), i)
    }

    /// The bytes of the entry of slot `i`.
    pub open spec fn entry(&self, i: int) -> Seq<u8> {
        bytes_entry(self.bytes(), i)
    }

    /// The entries of the page, in slot order.
    pub open spec fn entries(&self) -> Seq<Seq<u8>> {
        Seq::new(self.item_count() as nat, |i: int| self.entry(i))
    }

    /// The free space: the gap between the two offsets of the header, less a
    /// line pointer; never below zero.
    pub open spec fn free_space(&self) -> int {
        bytes_free_space(self.bytes())
    }

    /// An empty page of `block_size` bytes, all zero behind the header.
    pub fn new(block_size: u16) -> (page: Page)
        requires
            SIZE_OF_PAGE_HEADER_DATA <= block_size <= MAX_PAGE_SIZE,
        ensures
            page.wf(),
            page.bytes() == spec_init_page(spec_zero_block(block_size as nat)),
            page.block_size() == block_size,
            page.pd_lower() == SIZE_OF_PAGE_HEADER_DATA,
            page.pd_upper() == block_size,
            page.item_count() == 0,
    {
        let mut data: Vec<u8> = Vec::new();
        let mut i: u16 = 0;
        while i < block_size
            invariant
                i <= block_size,
                data@ == spec_zero_block(i as nat),
            decreases block_size - i,
        {
            data.push(0u8);
            i += 1;
            assert(data@ =~= spec_zero_block(i as nat));
        }
        proof {
            lemma_init_page(data@);
        }
        write_u16_le(&mut data, 0, SIZE_OF_PAGE_HEADER_DATA as u16);
        write_u16_le(&mut data, 2, block_size);
        Page { data }
    }

    /// A page over the given block, if the block holds a well-formed page.
    pub fn from_bytes(data: Vec<u8>) -> (page: Option<Page>)
        ensures
            page is Some <==> page_bytes_wf(data@),
            page matches Some(p) ==> p.bytes() == data@,
    {
        if check_page(data.as_slice()) {
            Some(Page { data })
        } else {
            None
        }
    }

    /// The page that a block of a heap file stands for.
    pub fn from_block(data: Vec<u8>) -> (page: Page)
        requires
            block_ok(data@),
        ensures
            page.wf(),
            page.bytes() == spec_page_of_block(data@),
            page.block_size() == DEFAULT_BLOCK_SIZE,
    {
        let mut data = data;
        proof {
            lemma_page_of_block(data@);
        }
        if read_u16_le(data.as_slice(), 2) == 0 {
            write_u16_le(&mut data, 0, SIZE_OF_PAGE_HEADER_DATA as u16);
            write_u16_le(&mut data, 2, DEFAULT_BLOCK_SIZE);
        }
        Page { data }
    }

    /// Makes the page empty: `pd_lower` at the end of the header, `pd_upper`
    /// at the end of the block. `block_size` is the size of the page.
    pub fn page_init(&mut self, block_size: u16)
        requires
            old(self).wf(),
            block_size == old(self).block_size(),
        ensures
            final(self).wf(),
            final(self).bytes() == spec_init_page(old(self).bytes()),
            final(self).block_size() == block_size,
            final(self).pd_lower() == SIZE_OF_PAGE_HEADER_DATA,
            final(self).pd_upper() == block_size,
            final(self).item_count() == 0,
    {
        proof {
            lemma_init_page(self.data@);
        }
        write_u16_le(&mut self.data, 0, SIZE_OF_PAGE_HEADER_DATA as u16);
        write_u16_le(&mut self.data, 2, block_size);
    }

    /// The bytes of the page, from its header on.
    pub fn header_pointer(&self) -> (bytes: &[u8])
        ensures
            bytes@ == self.bytes(),
    {
        self.data.as_slice()
    }

    /// The header of the page.
    pub fn header(&self) -> (header: PageHeaderData)
        requires
            self.wf(),
        ensures
            header.pd_lower == self.pd_lower(),
            header.pd_upper == self.pd_upper(),
            SIZE_OF_PAGE_HEADER_DATA <= header.pd_lower <= header.pd_upper <= self.block_size(),
    {
        PageHeaderData {
            pd_lower: read_u16_le(self.data.as_slice(), 0),
            pd_upper: read_u16_le(self.data.as_slice(), 2),
        }
    }

    pub fn is_empty(&self) -> (empty: bool)
        requires
            self.wf(),
        ensures
            empty == (self.item_count() == 0),
    {
        self.header().pd_lower as usize <= SIZE_OF_PAGE_HEADER_DATA
    }

    /// The number of line pointers in the page.
    pub fn page_get_max_offset_number(&self) -> (count: OffsetNumber)
        requires
            self.wf(),
        ensures
            count == self.item_count(),
            count == (self.pd_lower() - SIZE_OF_PAGE_HEADER_DATA) / (ITEM_ID_DATA_BYTE_SIZE as int),
    {
        let lower = self.header().pd_lower as usize;
        if lower <= SIZE_OF_PAGE_HEADER_DATA {
            0
        } else {
            ((lower - SIZE_OF_PAGE_HEADER_DATA) / ITEM_ID_DATA_BYTE_SIZE) as OffsetNumber
        }
    }

    /// The number of line pointers in the page.
    pub fn entry_count(&self) -> (count: u16)
        requires
            self.wf(),
        ensures
            count == self.item_count(),
    {
        (((self.header().pd_lower as usize) - SIZE_OF_PAGE_HEADER_DATA)
            / ITEM_ID_DATA_BYTE_SIZE) as u16
    }

    /// The free space: the gap between `pd_lower` and `pd_upper` less the
    /// line pointer that a new entry would take, and 0 if the gap is smaller
    /// than that.
    pub fn page_get_free_space(&self) -> (space: usize)
        requires
            self.wf(),
        ensures
            space == self.free_space(),
            space >= 0,
    {
        let header = self.header();
        let space = (header.pd_upper - header.pd_lower) as usize;
        if space < ITEM_ID_DATA_BYTE_SIZE {
            0
        } else {
            space - ITEM_ID_DATA_BYTE_SIZE
        }
    }

    /// Whether an entry of `len` bytes fits together with its line pointer.
    pub fn has_space(&self, len: u16) -> (fits: bool)
        requires
            self.wf(),
        ensures
            fits == bytes_has_space(self.bytes(), len as int),
            len > 0 ==> fits == (len <= self.free_space()),
    {
        let header = self.header();
        let space = (header.pd_upper - header.pd_lower) as usize;
        space >= ITEM_ID_DATA_BYTE_SIZE && (len as usize) <= space - ITEM_ID_DATA_BYTE_SIZE
    }

    /// Appends the first `n` bytes of `src` as a new entry: the bytes go
    /// right below `pd_upper`, and a line pointer with their offset, flags 0
    /// and their length goes at `pd_lower`. Fails, leaving the page as it
    /// was, if the entry and its line pointer do not fit the free space.
    pub fn add_entry(&mut self, src: &[u8], n: u16) -> (r: Result<(), String>)
        requires
            old(self).wf(),
            n <= src@.len(),
        ensures
            final(self).wf(),
            final(self).block_size() == old(self).block_size(),
            r is Ok <==> bytes_has_space(old(self).bytes(), n as int),
            r is Ok ==> {
                &&& final(self).bytes() == spec_add_entry(
                    old(self).bytes(),
                    src@.subrange(0, n as int),
                )
                &&& final(self).item_count() == old(self).item_count() + 1
                &&& final(self).pd_upper() == old(self).pd_upper() - n
                &&& final(self).pd_lower() == old(self).pd_lower() + ITEM_ID_DATA_BYTE_SIZE
                &&& final(self).item(old(self).item_count()) == spec_item_id_pack(
                    (old(self).pd_upper() - n) as u16,
                    0,
                    n,
                )
                &&& final(self).entry(old(self).item_count()) == src@.subrange(0, n as int)
                &&& forall|i: int|
                    0 <= i < old(self).item_count() ==> final(self).item(i) == #[trigger] old(
                        self,
                    ).item(i)
                &&& forall|i: int|
                    0 <= i < old(self).item_count() ==> final(self).entry(i) == #[trigger] old(
                        self,
                    ).entry(i)
            },
            r matches Err(msg) ==> final(self).bytes() == old(self).bytes() && msg@
                == spec_no_space_message(n as nat),
    {
        if self.has_space(n) {
            let header = self.header();
            let lower = header.pd_lower;
            let upper = header.pd_upper - n;
            let item = ItemIdData::new_with_lps(upper, 0, n);
            proof {
                lemma_add_entry(self.data@, src@.subrange(0, n as int));
            }
            write_bytes(&mut self.data, upper as usize, src, n as usize);
            write_u32_le(&mut self.data, lower as usize, item.raw_value());
            write_u16_le(&mut self.data, 2, upper);
            write_u16_le(&mut self.data, 0, lower + ITEM_ID_DATA_BYTE_SIZE as u16);
            Ok(())
        } else {
            let mut msg = String::from_str("Does not have enough space for ");
            push_decimal(&mut msg, n as u64);
            Err(msg)
        }
    }

    /// Appends `entry` as a new entry of the page.
    pub fn add_vec_entry(&mut self, entry: &Vec<u8>) -> (r: Result<(), String>)
        requires
            old(self).wf(),
        ensures
            final(self).wf(),
            final(self).block_size() == old(self).block_size(),
            r is Ok <==> bytes_has_space(old(self).bytes(), entry@.len() as int),
            r is Ok ==> {
                &&& final(self).bytes() == spec_add_entry(old(self).bytes(), entry@)
                &&& final(self).item_count() == old(self).item_count() + 1
                &&& final(self).pd_upper() == old(self).pd_upper() - entry@.len()
                &&& final(self).pd_lower() == old(self).pd_lower() + ITEM_ID_DATA_BYTE_SIZE
                &&& final(self).entry(old(self).item_count()) == entry@
                &&& bytes_item_len(final(self).bytes(), old(self).item_count()) == entry@.len()
                &&& forall|i: int|
                    0 <= i < old(self).item_count() ==> final(self).item(i) == #[trigger] old(
                        self,
                    ).item(i)
                &&& forall|i: int|
                    0 <= i < old(self).item_count() ==> final(self).entry(i) == #[trigger] old(
                        self,
                    ).entry(i)
            },
            r matches Err(msg) ==> final(self).bytes() == old(self).bytes() && msg@
                == spec_no_space_message(entry@.len()),
    {
        if entry.len() > 0xffff {
            let mut msg = String::from_str("Does not have enough space for ");
            push_decimal(&mut msg, entry.len() as u64);
            return Err(msg);
        }
        assert(entry@.subrange(0, entry@.len() as int) == entry@);
        proof {
            if bytes_has_space(self.bytes(), entry@.len() as int) {
                lemma_add_entry(self.data@, entry@);
            }
        }
        self.add_entry(entry.as_slice(), entry.len() as u16)
    }

    /// Appends the tuple of `slot`, header and column values, as a new entry
    /// of the page.
    pub fn add_tuple_slot_entry(&mut self, slot: &TupleTableSlot) -> (r: Result<(), String>)
        requires
            old(self).wf(),
            slot.heap_tuple.wf(),
        ensures
            final(self).wf(),
            final(self).block_size() == old(self).block_size(),
            r is Ok <==> bytes_has_space(old(self).bytes(), slot.bytes().len() as int),
            r is Ok ==> {
                &&& final(self).bytes() == spec_add_entry(old(self).bytes(), slot.bytes())
                &&& final(self).item_count() == old(self).item_count() + 1
                &&& final(self).pd_upper() == old(self).pd_upper() - slot.bytes().len()
                &&& final(self).pd_lower() == old(self).pd_lower() + ITEM_ID_DATA_BYTE_SIZE
                &&& final(self).entry(old(self).item_count()) == slot.bytes()
                &&& bytes_item_len(final(self).bytes(), old(self).item_count())
                    == slot.bytes().len()
                &&& forall|i: int|
                    0 <= i < old(self).item_count() ==> final(self).item(i) == #[trigger] old(
                        self,
                    ).item(i)
                &&& forall|i: int|
                    0 <= i < old(self).item_count() ==> final(self).entry(i) == #[trigger] old(
                        self,
                    ).entry(i)
            },
            r matches Err(msg) ==> final(self).bytes() == old(self).bytes() && msg@
                == spec_no_space_message(slot.bytes().len()),
    {
        let bytes = slot.data_ptr();
        if slot.len() > 0xffff {
            let mut msg = String::from_str("Does not have enough space for ");
            push_decimal(&mut msg, slot.len() as u64);
            return Err(msg);
        }
        assert(bytes@.subrange(0, bytes@.len() as int) == bytes@);
        proof {
            if bytes_has_space(self.bytes(), bytes@.len() as int) {
                lemma_add_entry(self.data@, bytes@);
            }
        }
        self.add_entry(bytes, slot.len() as u16)
    }

    /// The line pointer of slot `index`.
    pub fn get_item_ref(&self, index: u16) -> (item: ItemIdData)
        requires
            self.wf(),
            index < self.item_count(),
        ensures
            item.raw() == self.item(index as int),
    {
        self.get_item(index)
    }

    /// A copy of the line pointer of slot `index`.
    pub fn get_item(&self, index: u16) -> (item: ItemIdData)
        requires
            self.wf(),
            index < self.item_count(),
        ensures
            item.raw() == self.item(index as int),
    {
        proof {
            lemma_entry_bounds(self.data@, index as int);
        }
        ItemIdData::new(
            read_u32_le(
                self.data.as_slice(),
                SIZE_OF_PAGE_HEADER_DATA + ITEM_ID_DATA_BYTE_SIZE * (index as usize),
            ),
        )
    }

    /// The bytes of the entry of slot `index`, in place. Fails if the page
    /// has no such slot.
    pub fn get_entry_pointer(&self, index: u16) -> (r: Result<&[u8], String>)
        requires
            self.wf(),
        ensures
            r is Ok <==> index < self.item_count(),
            r matches Ok(bytes) ==> bytes@ == self.entry(index as int),
            r matches Err(msg) ==> msg@ == spec_index_message(
                index as nat,
                self.item_count() as nat,
            ),
    {
        let count = self.entry_count();
        if index >= count {
            return Err(index_message(index, count));
        }
        let item = self.get_item(index);
        let off = item.lp_off() as usize;
        let len = item.lp_len() as usize;
        proof {
            lemma_entry_bounds(self.data@, index as int);
        }
        Ok(slice_subrange(self.data.as_slice(), off, off + len))
    }

    /// A copy of the entry of slot `index`. Fails if the page has no such
    /// slot.
    pub fn get_entry(&self, index: u16) -> (r: Result<Vec<u8>, String>)
        requires
            self.wf(),
        ensures
            r is Ok <==> index < self.item_count(),
            r matches Ok(bytes) ==> bytes@ == self.entry(index as int),
            r matches Err(msg) ==> msg@ == spec_index_message(
                index as nat,
                self.item_count() as nat,
            ),
    {
        let count = self.entry_count();
        if index >= count {
            return Err(index_message(index, count));
        }
        let item = self.get_item(index);
        let off = item.lp_off() as usize;
        let len = item.lp_len() as usize;
        proof {
            lemma_entry_bounds(self.data@, index as int);
        }
        Ok(copy_range(self.data.as_slice(), off, off + len))
    }

    /// What the page says of itself, to be printed.
    pub fn info(&self) -> (text: String)
        requires
            self.wf(),
        ensures
            text@ == spec_page_info(
                self.item_count() as nat,
                self.pd_lower() as nat,
                self.pd_upper() as nat,
            ),
    {
        let header = self.header();
        let mut text = String::from_str("entry_count: ");
        push_decimal(&mut text, self.entry_count() as u64);
        text.append(".\npd_lower: ");
        push_decimal(&mut text, header.pd_lower as u64);
        text.append(".\npd_upper: ");
        push_decimal(&mut text, header.pd_upper as u64);
        text.append(".\nSIZE_OF_PAGE_HEADER_DATA: ");
        push_decimal(&mut text, SIZE_OF_PAGE_HEADER_DATA as u64);
        text.append(".\nITEM_ID_DATA_BYTE_SIZE: ");
        push_decimal(&mut text, ITEM_ID_DATA_BYTE_SIZE as u64);
        text.append(".");
        text
    }

    /// Writes `src` over the entry of slot `index`, which has the length of
    /// `src`. Nothing else of the page changes.
    pub fn put_entry(&mut self, index: u16, src: &[u8])
        requires
            old(self).wf(),
            index < old(self).item_count(),
            src@.len() == bytes_item_len(old(self).bytes(), index as int),
        ensures
            final(self).wf(),
            final(self).bytes() == spec_put_entry(old(self).bytes(), index as int, src@),
            final(self).block_size() == old(self).block_size(),
            final(self).pd_lower() == old(self).pd_lower(),
            final(self).pd_upper() == old(self).pd_upper(),
            final(self).item_count() == old(self).item_count(),
            final(self).entry(index as int) == src@,
            forall|i: int|
                0 <= i < old(self).item_count() ==> final(self).item(i) == #[trigger] old(
                    self,
                ).item(i),
            forall|i: int|
                0 <= i < old(self).item_count() && i != index ==> final(self).entry(i)
                    == #[trigger] old(self).entry(i),
    {
        let item = self.get_item(index);
        let off = item.lp_off() as usize;
        proof {
            lemma_entry_bounds(self.data@, index as int);
            lemma_put_entry(self.data@, index as int, src@);
            assert(src@.subrange(0, src@.len() as int) == src@);
        }
        write_bytes(&mut self.data, off, src, src.len());
    }
}

/// What a page says of itself: the number of its entries, its two offsets
/// and the sizes of a header and of a line pointer, each on its line.
pub open spec fn spec_page_info(entry_count: nat, pd_lower: nat, pd_upper: nat) -> Seq<char> {
    "entry_count: "@ + spec_decimal_nat(entry_count) + ".\npd_lower: "@ + spec_decimal_nat(
        pd_lower,
    ) + ".\npd_upper: "@ + spec_decimal_nat(pd_upper) + ".\nSIZE_OF_PAGE_HEADER_DATA: "@
        + spec_decimal_nat(SIZE_OF_PAGE_HEADER_DATA as nat) + ".\nITEM_ID_DATA_BYTE_SIZE: "@
        + spec_decimal_nat(ITEM_ID_DATA_BYTE_SIZE as nat) + "."@
}

/// The message for a slot that a page of `entry_count` slots does not have.
fn index_message(index: u16, entry_count: u16) -> (msg: String)
    ensures
        msg@ == spec_index_message(index as nat, entry_count as nat),
{
    let mut msg = String::from_str("Index over entry_count. index: ");
    push_decimal(&mut msg, index as u64);
    msg.append(", entry_count: ");
    push_decimal(&mut msg, entry_count as u64);
    msg
}

} // verus!
