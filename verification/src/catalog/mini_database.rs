//! The catalog of databases: `<oid>,<name>` per line.

use crate::catalog::catalog::{invalid_line_message, write_str, Record, RecordManeger};
use crate::oid_manager::{oid_to_string, Oid};
use crate::text::{chars_to_string, lemma_decimal_has_no_comma, lemma_parse_decimal_nat,
    lemma_split_joined, lemma_split_one_piece, parse_unsigned, push_char, spec_decimal_nat,
    spec_parse_unsigned, spec_split, split_chars, str_equal, to_chars};
use vstd::prelude::*;
use vstd::string::StringExecFns;

verus! {

/// One database.
#[derive(Debug)]
pub struct MiniDatabaseRecord {
    /// The identifier of the database.
    pub oid: Oid,
    /// The name of the database.
    pub name: String,
}

/// The line of a database: `<oid>,<name>`.
pub open spec fn spec_database_line(oid: Oid, name: Seq<char>) -> Seq<char> {
    spec_decimal_nat(oid as nat).push(',') + name
}

impl Record for MiniDatabaseRecord {
    open spec fn spec_line(&self) -> Seq<char> {
        spec_database_line(self.oid, self.name@)
    }

    open spec fn spec_valid_line(line: Seq<char>) -> bool {
        let f = spec_split(line, ',');
        f.len() == 2 && spec_parse_unsigned(f[0], u32::MAX as nat) is Some
    }

    open spec fn spec_from_line(&self, line: Seq<char>) -> bool {
        let f = spec_split(line, ',');
        &&& f.len() == 2
        &&& spec_parse_unsigned(f[0], u32::MAX as nat) == Some(self.oid as nat)
        &&& self.name@ == f[1]
    }

    fn build_from_line(line: String) -> (r: Result<Box<MiniDatabaseRecord>, String>) {
        let chars = to_chars(line.as_str());
        let c = split_chars(&chars, ',');
        let ghost f = spec_split(line@, ',');
        assert(f.len() == c@.len());
        if c.len() != 2 {
            return Err(invalid_line_message(line.as_str()));
        }
        assert(f[0] == c@[0]@ && f[1] == c@[1]@);
        match parse_unsigned(&c[0], 0xffff_ffff) {
            Some(oid) => Ok(
                Box::new(MiniDatabaseRecord { oid: oid as u32, name: chars_to_string(&c[1]) }),
            ),
            None => Err(invalid_line_message(line.as_str())),
        }
    }

    fn save_to_file(&self, w: &mut Vec<u8>) -> (n: usize) {
        let mut line = oid_to_string(self.oid);
        push_char(&mut line, ',');
        line.append(self.name.as_str());
        write_str(w, line.as_str())
    }
}

/// The line of a database reads back as that database, given that its name
/// holds no comma.
pub proof fn lemma_database_line_reads_back(record: MiniDatabaseRecord)
    requires
        !record.name@.contains(','),
    ensures
        MiniDatabaseRecord::spec_valid_line(record.spec_line()),
        record.spec_from_line(record.spec_line()),
{
    let oid = spec_decimal_nat(record.oid as nat);
    lemma_decimal_has_no_comma(record.oid as nat);
    lemma_split_joined(oid, record.name@, ',');
    lemma_split_one_piece(oid, ',');
    lemma_split_one_piece(record.name@, ',');
    lemma_parse_decimal_nat(record.oid as nat, u32::MAX as nat);
    assert(spec_split(record.spec_line(), ',') =~= seq![oid, record.name@]);
}

impl MiniDatabaseRecord {
    pub fn new(oid: Oid, name: String) -> (record: MiniDatabaseRecord)
        ensures
            record.oid == oid,
            record.name == name,
    {
        MiniDatabaseRecord { oid: oid, name: name }
    }
}

/// The identifier of the first of the first `n` databases that has the
/// given name, if one of them has it.
pub open spec fn spec_find_database_oid(
    records: Seq<Box<MiniDatabaseRecord>>,
    name: Seq<char>,
    n: int,
) -> Option<Oid>
    decreases n,
{
    if n <= 0 {
        None
    } else {
        match spec_find_database_oid(records, name, n - 1) {
            Some(oid) => Some(oid),
            None => if records[n - 1].name@ == name {
                Some(records[n - 1].oid)
            } else {
                None
            },
        }
    }
}

/// A database that was found among the first databases is found among
/// more of them.
pub proof fn lemma_find_database_oid(
    records: Seq<Box<MiniDatabaseRecord>>,
    name: Seq<char>,
    n: int,
    m: int,
)
    requires
        0 <= n <= m,
    ensures
        spec_find_database_oid(records, name, n) is Some ==> spec_find_database_oid(
            records,
            name,
            m,
        ) == spec_find_database_oid(records, name, n),
    decreases m,
{
    if n < m {
        lemma_find_database_oid(records, name, n, m - 1);
    }
}

impl RecordManeger<MiniDatabaseRecord> {
    /// The catalog of databases that the text of its file stands for.
    pub fn mini_database_rm(text: &str) -> (r: Result<RecordManeger<MiniDatabaseRecord>, String>)
        ensures
            Self::spec_built_from(r, "mini_database"@, text@),
    {
        RecordManeger::build_from_text(String::from_str("mini_database"), text)
    }

    /// The first database of the given name, if there is one.
    pub fn find_mini_database(&self, name: &str) -> (r: Option<&MiniDatabaseRecord>)
        ensures
            r is Some <==> spec_find_database_oid(
                self.records@,
                name@,
                self.records@.len() as int,
            ) is Some,
            r matches Some(rec) ==> Some(rec.oid) == spec_find_database_oid(
                self.records@,
                name@,
                self.records@.len() as int,
            ) && rec.name@ == name@,
    {
        let mut i: usize = 0;
        while i < self.records.len()
            invariant
                i <= self.records.len(),
                spec_find_database_oid(self.records@, name@, i as int) is None,
            decreases self.records.len() - i,
        {
            if str_equal(self.records[i].name.as_str(), name) {
                proof {
                    lemma_find_database_oid(
                        self.records@,
                        name@,
                        i + 1,
                        self.records@.len() as int,
                    );
                }
                return Some(&*self.records[i]);
            }
            i += 1;
        }
        None
    }

    /// The identifier of the first database of the given name, if there is
    /// one.
    pub fn find_mini_database_oid(&self, name: &str) -> (r: Option<Oid>)
        ensures
            r == spec_find_database_oid(self.records@, name@, self.records@.len() as int),
    {
        match self.find_mini_database(name) {
            Some(rec) => Some(rec.oid),
            None => None,
        }
    }
}

} // verus!
