//! A catalog as a list of records, one per line of its file.

use crate::config::Config;
use crate::fs_action::{FsAction, FsStep};
use crate::text::{chars_to_string, lines, spec_lines, spec_views, to_chars};
use vstd::prelude::*;
use vstd::string::StringExecFns;
use vstd::utf8::encode_utf8;

verus! {

/// What is said of a line that is no record.
pub open spec fn spec_invalid_line_message(line: Seq<char>) -> Seq<char> {
    "Line ("@ + line + ") is invalid."@
}

/// What is said of a line that is no record.
pub fn invalid_line_message(line: &str) -> (msg: String)
    ensures
        msg@ == spec_invalid_line_message(line@),
{
    let mut msg = String::from_str("Line (");
    msg.append(line);
    msg.append(") is invalid.");
    msg
}

/// Appends the bytes of `s` to `w` and says how many they were.
pub fn write_str(w: &mut Vec<u8>, s: &str) -> (n: usize)
    ensures
        final(w)@ == old(w)@ + encode_utf8(s@),
        n == encode_utf8(s@).len(),
{
    let bytes = s.as_bytes();
    let mut i: usize = 0;
    while i < bytes.len()
        invariant
            i <= bytes@.len(),
            bytes@ == encode_utf8(s@),
            w@ == old(w)@ + bytes@.subrange(0, i as int),
        decreases bytes@.len() - i,
    {
        w.push(bytes[i]);
        i += 1;
        assert(w@ =~= old(w)@ + bytes@.subrange(0, i as int));
    }
    assert(bytes@.subrange(0, bytes@.len() as int) == bytes@);
    bytes.len()
}

/// A kind of catalog record: it can be read from a line and written as one.
pub trait Record: Sized {
    /// The line that stands for this record.
    spec fn spec_line(&self) -> Seq<char>;

    /// Whether a line stands for a record of this kind.
    spec fn spec_valid_line(line: Seq<char>) -> bool;

    /// Whether this is the record that `line` stands for.
    spec fn spec_from_line(&self, line: Seq<char>) -> bool;

    /// The record that a line stands for; for a line that stands for none,
    /// a message that holds the line.
    fn build_from_line(line: String) -> (r: Result<Box<Self>, String>)
        ensures
            r is Ok <==> Self::spec_valid_line(line@),
            r matches Ok(rec) ==> rec.spec_from_line(line@),
            r matches Err(msg) ==> msg@ == spec_invalid_line_message(line@),
    ;

    /// Appends the record's line, without a line feed, to `w`; returns the
    /// number of bytes written.
    fn save_to_file(&self, w: &mut Vec<u8>) -> (n: usize)
        ensures
            final(w)@ == old(w)@ + encode_utf8(self.spec_line()),
            n == encode_utf8(self.spec_line()).len(),
    ;
}

/// The content of a catalog file: the line of each record, each closed by a
/// line feed.
pub open spec fn spec_catalog_bytes<T: Record>(records: Seq<Box<T>>) -> Seq<u8>
    decreases records.len(),
{
    if records.len() == 0 {
        Seq::<u8>::empty()
    } else {
        spec_catalog_bytes(records.drop_last()) + encode_utf8(records.last().spec_line())
            + seq![10u8]
    }
}

/// The records of one catalog, in the order of its file.
pub struct RecordManeger<T: Record> {
    /// The name of the catalog, which names its directory.
    pub name: String,
    pub records: Vec<Box<T>>,
}

impl<T: Record> RecordManeger<T> {
    /// The name of the catalog.
    pub open spec fn spec_name(&self) -> Seq<char> {
        self.name@
    }

    /// An empty catalog.
    pub fn new(name: String) -> (rm: RecordManeger<T>)
        ensures
            rm.spec_name() == name@,
            rm.records@.len() == 0,
    {
        RecordManeger { name: name, records: Vec::new() }
    }

    /// Whether `r` is the outcome of reading the catalog `name` from the
    /// text of its file: a catalog with one record per line, in order, if
    /// every line stands for a record; otherwise the message for the first
    /// line that stands for none.
    pub open spec fn spec_built_from(
        r: Result<RecordManeger<T>, String>,
        name: Seq<char>,
        text: Seq<char>,
    ) -> bool {
        let ls = spec_lines(text);
        &&& r is Ok <==> (forall|i: int| 0 <= i < ls.len() ==> T::spec_valid_line(#[trigger] ls[i]))
        &&& r matches Ok(rm) ==> {
            &&& rm.spec_name() == name
            &&& rm.records@.len() == ls.len()
            &&& forall|i: int|
                0 <= i < rm.records@.len() ==> (#[trigger] rm.records@[i]).spec_from_line(ls[i])
        }
        &&& r matches Err(msg) ==> exists|k: int|
            {
                &&& 0 <= k < ls.len()
                &&& !T::spec_valid_line(#[trigger] ls[k])
                &&& msg@ == spec_invalid_line_message(ls[k])
                &&& forall|j: int| 0 <= j < k ==> T::spec_valid_line(#[trigger] ls[j])
            }
    }

    /// Whether every line of a text stands for a record.
    pub open spec fn spec_reads(text: Seq<char>) -> bool {
        forall|i: int|
            0 <= i < spec_lines(text).len() ==> T::spec_valid_line(#[trigger] spec_lines(text)[i])
    }

    /// The catalog that the text of a catalog file stands for: one record
    /// per line, in order. Fails at the first line that stands for no
    /// record, with a message that holds that line.
    pub fn build_from_text(name: String, text: &str) -> (r: Result<RecordManeger<T>, String>)
        ensures
            Self::spec_built_from(r, name@, text@),
    {
        let chars = to_chars(text);
        let all = lines(&chars);
        let ghost ls = spec_lines(text@);
        assert(ls.len() == all@.len());
        let mut records: Vec<Box<T>> = Vec::new();
        let mut i: usize = 0;
        while i < all.len()
            invariant
                i <= all.len(),
                ls == spec_lines(text@),
                ls == spec_views(all@),
                ls.len() == all@.len(),
                records@.len() == i,
                forall|j: int| 0 <= j < i ==> T::spec_valid_line(#[trigger] ls[j]),
                forall|j: int| 0 <= j < i ==> (#[trigger] records@[j]).spec_from_line(ls[j]),
            decreases all.len() - i,
        {
            assert(ls[i as int] == all@[i as int]@);
            let line = chars_to_string(&all[i]);
            match T::build_from_line(line) {
                Ok(r) => {
                    records.push(r);
                },
                Err(msg) => {
                    assert(!T::spec_valid_line(ls[i as int]));
                    assert(msg@ == spec_invalid_line_message(ls[i as int]));
                    return Err(msg);
                },
            }
            i += 1;
        }
        Ok(RecordManeger { name: name, records: records })
    }

    /// Puts a record at the end of the catalog.
    pub fn add_record(&mut self, record: T)
        ensures
            final(self).spec_name() == old(self).spec_name(),
            final(self).records@.len() == old(self).records@.len() + 1,
            *final(self).records@.last() == record,
            forall|i: int|
                0 <= i < old(self).records@.len() ==> final(self).records@[i] == old(
                    self,
                ).records@[i],
    {
        self.records.push(Box::new(record))
    }

    /// The content of the catalog's file.
    pub fn to_bytes(&self) -> (content: Vec<u8>)
        ensures
            content@ == spec_catalog_bytes(self.records@),
    {
        let mut content: Vec<u8> = Vec::new();
        let mut i: usize = 0;
        while i < self.records.len()
            invariant
                i <= self.records.len(),
                content@ == spec_catalog_bytes(self.records@.subrange(0, i as int)),
            decreases self.records.len() - i,
        {
            let ghost upto = self.records@.subrange(0, i + 1);
            assert(upto.drop_last() == self.records@.subrange(0, i as int));
            assert(upto.last() == self.records@[i as int]);
            self.records[i].save_to_file(&mut content);
            content.push(10u8);
            i += 1;
        }
        assert(self.records@.subrange(0, self.records.len() as int) == self.records@);
        content
    }

    /// What saving the catalog asks for: its file under `config`, written
    /// anew with the line of each record.
    pub fn save(&self, config: &Config) -> (action: FsAction)
        ensures
            action@ == (FsStep::WriteFile {
                path: config.spec_system_catalog_file(self.spec_name()),
                content: spec_catalog_bytes(self.records@),
            }),
    {
        FsAction::WriteFile {
            path: config.system_catalog_file_path(self.name.as_str()),
            content: self.to_bytes(),
        }
    }
}

} // verus!
