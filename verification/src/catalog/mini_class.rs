//! The catalog of tables: `<oid>,<name>,<db_oid>` per line.

use crate::catalog::catalog::{invalid_line_message, write_str, Record, RecordManeger};
use crate::oid_manager::{oid_to_string, Oid};
use crate::text::{chars_to_string, lemma_decimal_has_no_comma, lemma_parse_decimal_nat,
    lemma_split_joined, lemma_split_one_piece, parse_unsigned, push_char, push_decimal,
    spec_decimal_nat, spec_parse_unsigned, spec_split, split_chars, str_equal, to_chars};
use vstd::prelude::*;
use vstd::string::StringExecFns;

verus! {

/// One table.
#[derive(Debug)]
pub struct MiniClassRecord {
    /// The identifier of the table.
    pub oid: Oid,
    /// The name of the table.
    pub name: String,
    /// The identifier of the database that the table belongs to.
    pub db_oid: Oid,
}

/// The line of a table: `<oid>,<name>,<db_oid>`.
pub open spec fn spec_class_line(oid: Oid, name: Seq<char>, db_oid: Oid) -> Seq<char> {
    spec_decimal_nat(oid as nat).push(',') + name.push(',') + spec_decimal_nat(db_oid as nat)
}

impl Record for MiniClassRecord {
    open spec fn spec_line(&self) -> Seq<char> {
        spec_class_line(self.oid, self.name@, self.db_oid)
    }

    open spec fn spec_valid_line(line: Seq<char>) -> bool {
        let f = spec_split(line, ',');
        &&& f.len() == 3
        &&& spec_parse_unsigned(f[0], u32::MAX as nat) is Some
        &&& spec_parse_unsigned(f[2], u32::MAX as nat) is Some
    }

    open spec fn spec_from_line(&self, line: Seq<char>) -> bool {
        let f = spec_split(line, ',');
        &&& f.len() == 3
        &&& spec_parse_unsigned(f[0], u32::MAX as nat) == Some(self.oid as nat)
        &&& self.name@ == f[1]
        &&& spec_parse_unsigned(f[2], u32::MAX as nat) == Some(self.db_oid as nat)
    }

    fn build_from_line(line: String) -> (r: Result<Box<MiniClassRecord>, String>) {
        let chars = to_chars(line.as_str());
        let c = split_chars(&chars, ',');
        let ghost f = spec_split(line@, ',');
        assert(f.len() == c@.len());
        if c.len() != 3 {
            return Err(invalid_line_message(line.as_str()));
        }
        assert(f[0] == c@[0]@ && f[1] == c@[1]@ && f[2] == c@[2]@);
        let oid = match parse_unsigned(&c[0], 0xffff_ffff) {
            Some(v) => v as u32,
            None => {
                return Err(invalid_line_message(line.as_str()));
            },
        };
        let db_oid = match parse_unsigned(&c[2], 0xffff_ffff) {
            Some(v) => v as u32,
            None => {
                return Err(invalid_line_message(line.as_str()));
            },
        };
        Ok(Box::new(MiniClassRecord { oid: oid, name: chars_to_string(&c[1]), db_oid: db_oid }))
    }

    fn save_to_file(&self, w: &mut Vec<u8>) -> (n: usize) {
        let mut line = oid_to_string(self.oid);
        push_char(&mut line, ',');
        line.append(self.name.as_str());
        push_char(&mut line, ',');
        push_decimal(&mut line, self.db_oid as u64);
        assert(line@ =~= self.spec_line());
        write_str(w, line.as_str())
    }
}

/// The line of a table reads back as that table, given that its name holds
/// no comma.
pub proof fn lemma_class_line_reads_back(record: MiniClassRecord)
    requires
        !record.name@.contains(','),
    ensures
        MiniClassRecord::spec_valid_line(record.spec_line()),
        record.spec_from_line(record.spec_line()),
{
    let oid = spec_decimal_nat(record.oid as nat);
    let db_oid = spec_decimal_nat(record.db_oid as nat);
    lemma_decimal_has_no_comma(record.oid as nat);
    lemma_decimal_has_no_comma(record.db_oid as nat);
    lemma_split_one_piece(oid, ',');
    lemma_split_one_piece(record.name@, ',');
    lemma_split_one_piece(db_oid, ',');
    lemma_split_joined(record.name@, db_oid, ',');
    lemma_split_joined(oid, record.name@.push(',') + db_oid, ',');
    lemma_parse_decimal_nat(record.oid as nat, u32::MAX as nat);
    lemma_parse_decimal_nat(record.db_oid as nat, u32::MAX as nat);
    assert(record.spec_line() =~= oid.push(',') + (record.name@.push(',') + db_oid));
    assert(spec_split(record.spec_line(), ',') =~= seq![oid, record.name@, db_oid]);
}

impl MiniClassRecord {
    pub fn new(oid: Oid, name: String, db_oid: Oid) -> (record: MiniClassRecord)
        ensures
            record.oid == oid,
            record.name == name,
            record.db_oid == db_oid,
    {
        MiniClassRecord { oid: oid, name: name, db_oid: db_oid }
    }

    /// Whether this is the table `name` of the database `db_oid`.
    pub open spec fn spec_is(&self, db_oid: Oid, name: Seq<char>) -> bool {
        self.name@ == name && self.db_oid == db_oid
    }
}

/// The identifier of the first of the first `n` tables that has the given
/// name and belongs to the given database, if there is one among them.
pub open spec fn spec_find_class_oid(
    records: Seq<Box<MiniClassRecord>>,
    db_oid: Oid,
    name: Seq<char>,
    n: int,
) -> Option<Oid>
    decreases n,
{
    if n <= 0 {
        None
    } else {
        match spec_find_class_oid(records, db_oid, name, n - 1) {
            Some(oid) => Some(oid),
            None => if records[n - 1].spec_is(db_oid, name) {
                Some(records[n - 1].oid)
            } else {
                None
            },
        }
    }
}

/// A table that was found among the first tables is found among more of
/// them.
pub proof fn lemma_find_class_oid(
    records: Seq<Box<MiniClassRecord>>,
    db_oid: Oid,
    name: Seq<char>,
    n: int,
    m: int,
)
    requires
        0 <= n <= m,
    ensures
        spec_find_class_oid(records, db_oid, name, n) is Some ==> spec_find_class_oid(
            records,
            db_oid,
            name,
            m,
        ) == spec_find_class_oid(records, db_oid, name, n),
    decreases m,
{
    if n < m {
        lemma_find_class_oid(records, db_oid, name, n, m - 1);
    }
}

impl RecordManeger<MiniClassRecord> {
    /// The catalog of tables that the text of its file stands for.
    pub fn mini_class_rm(text: &str) -> (r: Result<RecordManeger<MiniClassRecord>, String>)
        ensures
            Self::spec_built_from(r, "mini_class"@, text@),
    {
        RecordManeger::build_from_text(String::from_str("mini_class"), text)
    }

    /// The identifier of the first table of the given name in the given
    /// database, if there is one.
    pub fn find_mini_class_oid(&self, db_oid: Oid, name: &str) -> (r: Option<Oid>)
        ensures
            r == spec_find_class_oid(self.records@, db_oid, name@, self.records@.len() as int),
    {
        match self.find_mini_class(db_oid, name) {
            Some(rec) => Some(rec.oid),
            None => None,
        }
    }

    /// The first table of the given name in the given database, if there is
    /// one.
    pub fn find_mini_class(&self, db_oid: Oid, name: &str) -> (r: Option<&MiniClassRecord>)
        ensures
            r is Some <==> spec_find_class_oid(
                self.records@,
                db_oid,
                name@,
                self.records@.len() as int,
            ) is Some,
            r matches Some(rec) ==> Some(rec.oid) == spec_find_class_oid(
                self.records@,
                db_oid,
                name@,
                self.records@.len() as int,
            ) && rec.spec_is(db_oid, name@),
    {
        let mut i: usize = 0;
        while i < self.records.len()
            invariant
                i <= self.records.len(),
                spec_find_class_oid(self.records@, db_oid, name@, i as int) is None,
            decreases self.records.len() - i,
        {
            if str_equal(self.records[i].name.as_str(), name) && self.records[i].db_oid == db_oid {
                proof {
                    lemma_find_class_oid(
                        self.records@,
                        db_oid,
                        name@,
                        i + 1,
                        self.records@.len() as int,
                    );
                }
                return Some(&*self.records[i]);
            }
            i += 1;
        }
        None
    }
}

} // verus!
