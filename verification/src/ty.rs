//! Column values: how a value of a column's type lies in a tuple, and how
//! it reads as text.

use crate::catalog::mini_attribute::{spec_ty_byte_len, TypeLabel};
use crate::page::{spec_u32_bytes, spec_u32_le};
use crate::text::{i32_to_decimal, parse_i32, spec_decimal_int, spec_parse_i32, to_chars};
use byteorder::{LittleEndian, ReadBytesExt, WriteBytesExt};
use vstd::prelude::*;

verus! {

/// The signed number that a 32-bit pattern stands for in two's complement.
pub open spec fn spec_i32_from_u32(u: int) -> int {
    if u < 0x8000_0000 {
        u
    } else {
        u - 0x1_0000_0000
    }
}

/// The 32-bit pattern of a signed number in two's complement.
pub open spec fn spec_i32_to_u32(v: int) -> int {
    if v < 0 {
        v + 0x1_0000_0000
    } else {
        v
    }
}

/// The signed 32-bit little-endian number at `b[at..at + 4]`.
pub open spec fn spec_i32_le(b: Seq<u8>, at: int) -> int {
    spec_i32_from_u32(spec_u32_le(b, at))
}

/// The four bytes of a signed 32-bit number, low byte first.
pub open spec fn spec_i32_bytes(v: i32) -> Seq<u8> {
    spec_u32_bytes(spec_i32_to_u32(v as int) as u32)
}

/// The four bytes of a number, wherever they lie, read back as the number.
pub proof fn lemma_i32_round_trip(v: i32, b: Seq<u8>, at: int)
    requires
        0 <= at,
        at + 4 <= b.len(),
        b.subrange(at, at + 4) == spec_i32_bytes(v),
    ensures
        spec_i32_le(b, at) == v,
{
    let w = b.subrange(at, at + 4);
    assert(w[0] == b[at] && w[1] == b[at + 1] && w[2] == b[at + 2] && w[3] == b[at + 3]);
}

/// `byteorder::ReadBytesExt::read_i32::<LittleEndian>` on a byte slice:
/// the first four bytes of the slice, taken as a signed 32-bit number with
/// the low byte first.
#[verifier::external_body]
fn read_i32_le(src: &[u8]) -> (v: i32)
    requires
        src@.len() >= 4,
    ensures
        v == spec_i32_le(src@, 0),
{
    let mut reader = src;
    reader.read_i32::<LittleEndian>().unwrap()
}

/// `byteorder::WriteBytesExt::write_i32::<LittleEndian>` on a byte vector:
/// the vector grows by the four bytes of the number, low byte first.
#[verifier::external_body]
fn write_i32_le(wrt: &mut Vec<u8>, v: i32)
    ensures
        final(wrt)@ == old(wrt)@ + spec_i32_bytes(v),
{
    wrt.write_i32::<LittleEndian>(v).unwrap()
}

/// A value of a column.
pub trait TypeValue {
    /// The bytes of the value in a tuple.
    spec fn spec_bytes(&self) -> Seq<u8>;

    /// The value as text.
    spec fn spec_string(&self) -> Seq<char>;

    /// Appends the bytes of the value to `wrt`.
    fn write_bytes(&self, wrt: &mut Vec<u8>)
        ensures
            final(wrt)@ == old(wrt)@ + self.spec_bytes(),
    ;

    /// The number of bytes of the value in a tuple.
    fn len(&self) -> (n: u32)
        ensures
            n == self.spec_bytes().len(),
    ;

    /// The value as text.
    fn as_string(&self) -> (s: String)
        ensures
            s@ == self.spec_string(),
    ;

    /// The bytes of the value in a tuple.
    fn as_pointer(&self) -> (bytes: Vec<u8>)
        ensures
            bytes@ == self.spec_bytes(),
    ;
}

/// Signed 4 bytes integer.
#[derive(Debug, Clone, Copy, PartialEq, Eq, Structural)]
pub struct Integer {
    pub elem: i32,
}

impl TypeValue for Integer {
    open spec fn spec_bytes(&self) -> Seq<u8> {
        spec_i32_bytes(self.elem)
    }

    open spec fn spec_string(&self) -> Seq<char> {
        spec_decimal_int(self.elem as int)
    }

    fn write_bytes(&self, wrt: &mut Vec<u8>) {
        write_i32_le(wrt, self.elem)
    }

    fn len(&self) -> (n: u32) {
        4
    }

    fn as_string(&self) -> (s: String) {
        i32_to_decimal(self.elem)
    }

    fn as_pointer(&self) -> (bytes: Vec<u8>) {
        let mut bytes: Vec<u8> = Vec::new();
        self.write_bytes(&mut bytes);
        bytes
    }
}

/// The value of a column of type `tl` whose bytes start `src`.
pub fn load_type_value(tl: &TypeLabel, src: &[u8]) -> (v: Integer)
    requires
        src@.len() >= spec_ty_byte_len(*tl),
    ensures
        v.elem == spec_i32_le(src@, 0),
{
    match tl {
        TypeLabel::Integer => Integer { elem: read_i32_le(src) },
    }
}

/// The value of a column of type `tl` that the text `row` stands for, if it
/// stands for one.
pub fn build_type_value(tl: &TypeLabel, row: &str) -> (v: Option<Integer>)
    ensures
        match spec_parse_i32(row@) {
            Some(n) => v == Some(Integer { elem: n }),
            None => v is None,
        },
{
    match tl {
        TypeLabel::Integer => {
            let chars = to_chars(row);
            match parse_i32(&chars) {
                Some(n) => Some(Integer { elem: n }),
                None => None,
            }
        },
    }
}

} // verus!
