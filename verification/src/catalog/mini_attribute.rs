//! The catalog of columns: `<name>,<db_oid>,<table_oid>,<type>,<len>` per
//! line. The order of a table's columns in the catalog is their order in a
//! tuple.

use crate::catalog::catalog::{invalid_line_message, write_str, Record, RecordManeger};
use crate::oid_manager::Oid;
use crate::text::{chars_to_string, lemma_decimal_has_no_comma, lemma_parse_decimal_nat,
    lemma_split_joined, lemma_split_one_piece, parse_unsigned, push_char, push_decimal,
    spec_decimal_nat, spec_parse_unsigned, spec_split, split_chars, to_chars};
use vstd::prelude::*;
use vstd::string::StringExecFns;

verus! {

/// The type of a column.
#[derive(Debug, Clone, Copy, PartialEq, Eq, Structural)]
pub enum TypeLabel {
    /// Signed 4 bytes integer.
    Integer,
}

/// The number that stands for a type in the catalog.
pub open spec fn spec_ty_to_u32(ty: TypeLabel) -> u32 {
    match ty {
        TypeLabel::Integer => 1,
    }
}

/// The number that stands for a type in the catalog.
pub fn ty_to_u32(ty: &TypeLabel) -> (tag: u32)
    ensures
        tag == spec_ty_to_u32(*ty),
{
    match ty {
        TypeLabel::Integer => 1,
    }
}

/// The type that a number of the catalog stands for, if it stands for one.
pub fn u32_to_ty(i: u32) -> (ty: Option<TypeLabel>)
    ensures
        ty is Some <==> i == 1,
        ty matches Some(t) ==> spec_ty_to_u32(t) == i,
{
    if i == 1 {
        Some(TypeLabel::Integer)
    } else {
        None
    }
}

/// The number of bytes that a value of a type takes in a tuple.
pub open spec fn spec_ty_byte_len(ty: TypeLabel) -> u16 {
    match ty {
        TypeLabel::Integer => 4,
    }
}

/// The number of bytes that a value of a type takes in a tuple.
pub fn ty_byte_len(ty: &TypeLabel) -> (len: u16)
    ensures
        len == spec_ty_byte_len(*ty),
{
    match ty {
        TypeLabel::Integer => 4,
    }
}

/// One column of one table.
#[derive(Debug)]
pub struct MiniAttributeRecord {
    /// The name of the column.
    pub name: String,
    /// The identifier of the database that the column's table belongs to.
    pub db_oid: Oid,
    /// The identifier of the table that the column belongs to.
    pub class_oid: Oid,
    pub ty: TypeLabel,
    /// The number of bytes that the column takes in a tuple.
    pub len: usize,
}

impl Clone for MiniAttributeRecord {
    fn clone(&self) -> (record: MiniAttributeRecord)
        ensures
            record == *self,
    {
        MiniAttributeRecord {
            name: self.name.clone(),
            db_oid: self.db_oid,
            class_oid: self.class_oid,
            ty: self.ty,
            len: self.len,
        }
    }
}

/// The line of a column: `<name>,<db_oid>,<table_oid>,<type>,<len>`.
pub open spec fn spec_attribute_line(
    name: Seq<char>,
    db_oid: Oid,
    class_oid: Oid,
    ty: TypeLabel,
    len: usize,
) -> Seq<char> {
    name.push(',') + spec_decimal_nat(db_oid as nat).push(',') + spec_decimal_nat(
        class_oid as nat,
    ).push(',') + spec_decimal_nat(spec_ty_to_u32(ty) as nat).push(',') + spec_decimal_nat(
        len as nat,
    )
}

impl Record for MiniAttributeRecord {
    open spec fn spec_line(&self) -> Seq<char> {
        spec_attribute_line(self.name@, self.db_oid, self.class_oid, self.ty, self.len)
    }

    open spec fn spec_valid_line(line: Seq<char>) -> bool {
        let f = spec_split(line, ',');
        &&& f.len() == 5
        &&& spec_parse_unsigned(f[1], u32::MAX as nat) is Some
        &&& spec_parse_unsigned(f[2], u32::MAX as nat) is Some
        &&& spec_parse_unsigned(f[3], u32::MAX as nat) == Some(1nat)
        &&& spec_parse_unsigned(f[4], usize::MAX as nat) is Some
    }

    open spec fn spec_from_line(&self, line: Seq<char>) -> bool {
        let f = spec_split(line, ',');
        &&& f.len() == 5
        &&& self.name@ == f[0]
        &&& spec_parse_unsigned(f[1], u32::MAX as nat) == Some(self.db_oid as nat)
        &&& spec_parse_unsigned(f[2], u32::MAX as nat) == Some(self.class_oid as nat)
        &&& spec_parse_unsigned(f[3], u32::MAX as nat) == Some(spec_ty_to_u32(self.ty) as nat)
        &&& spec_parse_unsigned(f[4], usize::MAX as nat) == Some(self.len as nat)
    }

    fn build_from_line(line: String) -> (r: Result<Box<MiniAttributeRecord>, String>) {
        let chars = to_chars(line.as_str());
        let c = split_chars(&chars, ',');
        let ghost f = spec_split(line@, ',');
        assert(f.len() == c@.len());
        if c.len() != 5 {
            return Err(invalid_line_message(line.as_str()));
        }
        assert(f[0] == c@[0]@ && f[1] == c@[1]@ && f[2] == c@[2]@ && f[3] == c@[3]@ && f[4]
            == c@[4]@);
        let db_oid = match parse_unsigned(&c[1], 0xffff_ffff) {
            Some(v) => v as u32,
            None => {
                return Err(invalid_line_message(line.as_str()));
            },
        };
        let class_oid = match parse_unsigned(&c[2], 0xffff_ffff) {
            Some(v) => v as u32,
            None => {
                return Err(invalid_line_message(line.as_str()));
            },
        };
        let tag = match parse_unsigned(&c[3], 0xffff_ffff) {
            Some(v) => v as u32,
            None => {
                return Err(invalid_line_message(line.as_str()));
            },
        };
        let ty = match u32_to_ty(tag) {
            Some(t) => t,
            None => {
                return Err(invalid_line_message(line.as_str()));
            },
        };
        let len = match parse_unsigned(&c[4], usize::MAX as u64) {
            Some(v) => v as usize,
            None => {
                return Err(invalid_line_message(line.as_str()));
            },
        };
        Ok(
            Box::new(
                MiniAttributeRecord {
                    name: chars_to_string(&c[0]),
                    db_oid: db_oid,
                    class_oid: class_oid,
                    ty: ty,
                    len: len,
                },
            ),
        )
    }

    fn save_to_file(&self, w: &mut Vec<u8>) -> (n: usize) {
        let mut line = self.name.clone();
        push_char(&mut line, ',');
        push_decimal(&mut line, self.db_oid as u64);
        push_char(&mut line, ',');
        push_decimal(&mut line, self.class_oid as u64);
        push_char(&mut line, ',');
        push_decimal(&mut line, ty_to_u32(&self.ty) as u64);
        push_char(&mut line, ',');
        push_decimal(&mut line, self.len as u64);
        assert(line@ =~= self.spec_line());
        write_str(w, line.as_str())
    }
}

/// The line of a column reads back as that column, given that its name
/// holds no comma.
pub proof fn lemma_attribute_line_reads_back(record: MiniAttributeRecord)
    requires
        !record.name@.contains(','),
    ensures
        MiniAttributeRecord::spec_valid_line(record.spec_line()),
        record.spec_from_line(record.spec_line()),
{
    let name = record.name@;
    let db_oid = spec_decimal_nat(record.db_oid as nat);
    let class_oid = spec_decimal_nat(record.class_oid as nat);
    let ty = spec_decimal_nat(spec_ty_to_u32(record.ty) as nat);
    let len = spec_decimal_nat(record.len as nat);
    lemma_decimal_has_no_comma(record.db_oid as nat);
    lemma_decimal_has_no_comma(record.class_oid as nat);
    lemma_decimal_has_no_comma(spec_ty_to_u32(record.ty) as nat);
    lemma_decimal_has_no_comma(record.len as nat);
    lemma_split_one_piece(name, ',');
    lemma_split_one_piece(db_oid, ',');
    lemma_split_one_piece(class_oid, ',');
    lemma_split_one_piece(ty, ',');
    lemma_split_one_piece(len, ',');
    let tail3 = ty.push(',') + len;
    let tail2 = class_oid.push(',') + tail3;
    let tail1 = db_oid.push(',') + tail2;
    lemma_split_joined(ty, len, ',');
    lemma_split_joined(class_oid, tail3, ',');
    lemma_split_joined(db_oid, tail2, ',');
    lemma_split_joined(name, tail1, ',');
    lemma_parse_decimal_nat(record.db_oid as nat, u32::MAX as nat);
    lemma_parse_decimal_nat(record.class_oid as nat, u32::MAX as nat);
    lemma_parse_decimal_nat(spec_ty_to_u32(record.ty) as nat, u32::MAX as nat);
    lemma_parse_decimal_nat(record.len as nat, usize::MAX as nat);
    assert(record.spec_line() =~= name.push(',') + tail1);
    assert(spec_split(record.spec_line(), ',') =~= seq![name, db_oid, class_oid, ty, len]);
}

impl MiniAttributeRecord {
    pub fn new(name: String, db_oid: Oid, class_oid: Oid, ty: TypeLabel, len: usize) -> (record:
        MiniAttributeRecord)
        ensures
            record.name == name,
            record.db_oid == db_oid,
            record.class_oid == class_oid,
            record.ty == ty,
            record.len == len,
    {
        MiniAttributeRecord { name: name, db_oid: db_oid, class_oid: class_oid, ty: ty, len: len }
    }

    /// The number of bytes that a value of the column's type takes.
    pub fn byte_len(&self) -> (len: u16)
        ensures
            len == spec_ty_byte_len(self.ty),
    {
        ty_byte_len(&self.ty)
    }

    /// Whether this is a column of the table `table_oid` of the database
    /// `db_oid`.
    pub open spec fn spec_of(&self, db_oid: Oid, table_oid: Oid) -> bool {
        self.db_oid == db_oid && self.class_oid == table_oid
    }
}

/// The columns of a table, in the order of the catalog.
pub open spec fn spec_attributes(
    records: Seq<Box<MiniAttributeRecord>>,
    db_oid: Oid,
    table_oid: Oid,
) -> Seq<MiniAttributeRecord>
    decreases records.len(),
{
    if records.len() == 0 {
        Seq::<MiniAttributeRecord>::empty()
    } else {
        let before = spec_attributes(records.drop_last(), db_oid, table_oid);
        if records.last().spec_of(db_oid, table_oid) {
            before.push(*records.last())
        } else {
            before
        }
    }
}

impl RecordManeger<MiniAttributeRecord> {
    /// The catalog of columns that the text of its file stands for.
    pub fn mini_attribute_rm(text: &str) -> (r: Result<RecordManeger<MiniAttributeRecord>, String>)
        ensures
            Self::spec_built_from(r, "mini_attribute"@, text@),
    {
        RecordManeger::build_from_text(String::from_str("mini_attribute"), text)
    }

    /// The columns of a table, in the order of the catalog.
    pub fn attributes(&self, db_oid: Oid, table_oid: Oid) -> (attrs: Vec<&MiniAttributeRecord>)
        ensures
            attrs@.len() == spec_attributes(self.records@, db_oid, table_oid).len(),
            forall|i: int|
                0 <= i < attrs@.len() ==> *(#[trigger] attrs@[i]) == spec_attributes(
                    self.records@,
                    db_oid,
                    table_oid,
                )[i],
    {
        let mut attrs: Vec<&MiniAttributeRecord> = Vec::new();
        let mut i: usize = 0;
        while i < self.records.len()
            invariant
                i <= self.records.len(),
                attrs@.len() == spec_attributes(
                    self.records@.subrange(0, i as int),
                    db_oid,
                    table_oid,
                ).len(),
                forall|j: int|
                    0 <= j < attrs@.len() ==> *(#[trigger] attrs@[j]) == spec_attributes(
                        self.records@.subrange(0, i as int),
                        db_oid,
                        table_oid,
                    )[j],
            decreases self.records.len() - i,
        {
            let ghost upto = self.records@.subrange(0, i + 1);
            assert(upto.drop_last() == self.records@.subrange(0, i as int));
            assert(upto.last() == self.records@[i as int]);
            let e = &self.records[i];
            if e.db_oid == db_oid && e.class_oid == table_oid {
                attrs.push(&**e);
            }
            i += 1;
        }
        assert(self.records@.subrange(0, self.records.len() as int) == self.records@);
        attrs
    }

    /// Copies of the columns of a table, in the order of the catalog.
    pub fn attributes_clone(&self, db_oid: Oid, table_oid: Oid) -> (attrs: Vec<
        MiniAttributeRecord,
    >)
        ensures
            attrs@ == spec_attributes(self.records@, db_oid, table_oid),
    {
        let mut attrs: Vec<MiniAttributeRecord> = Vec::new();
        let mut i: usize = 0;
        while i < self.records.len()
            invariant
                i <= self.records.len(),
                attrs@ == spec_attributes(self.records@.subrange(0, i as int), db_oid, table_oid),
            decreases self.records.len() - i,
        {
            let ghost upto = self.records@.subrange(0, i + 1);
            assert(upto.drop_last() == self.records@.subrange(0, i as int));
            assert(upto.last() == self.records@[i as int]);
            let e = &self.records[i];
            if e.db_oid == db_oid && e.class_oid == table_oid {
                attrs.push((**e).clone());
            }
            i += 1;
        }
        assert(self.records@.subrange(0, self.records.len() as int) == self.records@);
        attrs
    }
}

} // verus!
