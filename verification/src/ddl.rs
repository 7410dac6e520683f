//! The commands that make a database and a table: each takes a new
//! identifier, makes a directory and adds to the catalogs.

use crate::catalog::catalog::{spec_catalog_bytes, Record, RecordManeger};
use crate::catalog::mini_attribute::{spec_attribute_line, MiniAttributeRecord, TypeLabel};
use crate::catalog::mini_class::{spec_class_line, MiniClassRecord};
use crate::catalog::mini_database::{spec_database_line, spec_find_database_oid, MiniDatabaseRecord};
use crate::config::Config;
use crate::dml::spec_database_message;
use crate::fs_action::{spec_steps, FsAction, FsStep};
use crate::oid_manager::{Oid, OidManager};
use vstd::prelude::*;
use vstd::string::StringExecFns;
use vstd::utf8::encode_utf8;

verus! {

/// What is said where the directory of the databases is missing.
pub open spec fn spec_base_dir_message(config: &Config) -> Seq<char> {
    "Base dir ("@ + config.spec_base_dir() + ") does not exist."@
}

/// What is said once every identifier was handed out.
pub open spec fn spec_oid_message() -> Seq<char> {
    "No object identifier is left."@
}

fn base_dir_message(config: &Config) -> (msg: String)
    ensures
        msg@ == spec_base_dir_message(config),
{
    let mut msg = String::from_str("Base dir (");
    msg.append(config.base_dir_path().as_str());
    msg.append(") does not exist.");
    msg
}

/// The content of a catalog file once the line of one more record is at
/// its end.
pub open spec fn spec_with_line(content: Seq<u8>, line: Seq<char>) -> Seq<u8> {
    content + encode_utf8(line) + seq![10u8]
}

/// A catalog with one more record at its end has one more line at the end
/// of its file.
pub proof fn lemma_catalog_grows<T: Record>(records: Seq<Box<T>>, last: Box<T>)
    ensures
        spec_catalog_bytes(records.push(last)) == spec_with_line(
            spec_catalog_bytes(records),
            last.spec_line(),
        ),
{
    assert(records.push(last).drop_last() == records);
}

/// Makes a database.
pub struct CreateDatabaseCommand {
    config: Config,
    oid_manager: OidManager,
}

impl CreateDatabaseCommand {
    /// The configuration.
    pub closed spec fn config(&self) -> &Config {
        &self.config
    }

    /// The identifier that the database made next gets.
    pub closed spec fn next_oid(&self) -> Oid {
        self.oid_manager.next()
    }

    pub fn new(config: Config, oid_manager: OidManager) -> (command: CreateDatabaseCommand)
        ensures
            *command.config() == config,
            command.next_oid() == oid_manager.next(),
    {
        CreateDatabaseCommand { config: config, oid_manager: oid_manager }
    }

    /// Makes a database of the given name: takes a new identifier for it,
    /// and hands back the steps that make its directory, named by the
    /// identifier, and write the catalog of databases with its record
    /// added. `db` is the catalog of databases; `base_dir_exists` says
    /// whether the directory of the databases is there. Fails if no
    /// identifier is left; fails, with the identifier taken all the same,
    /// if the directory of the databases is missing.
    pub fn execute(
        &mut self,
        dbname: &str,
        base_dir_exists: bool,
        db: RecordManeger<MiniDatabaseRecord>,
    ) -> (r: Result<Vec<FsAction>, String>)
        ensures
            final(self).config() == old(self).config(),
            old(self).next_oid() == u32::MAX ==> final(self).next_oid() == old(self).next_oid() && (
            r matches Err(m) && m@ == spec_oid_message()),
            old(self).next_oid() < u32::MAX ==> final(self).next_oid() == old(self).next_oid() + 1,
            old(self).next_oid() < u32::MAX && !base_dir_exists ==> (r matches Err(m) && m@
                == spec_base_dir_message(old(self).config())),
            old(self).next_oid() < u32::MAX && base_dir_exists ==> (r matches Ok(actions)
                && spec_steps(actions@) == seq![
                FsStep::CreateDir { path: old(self).config().spec_database_dir(old(self).next_oid()) },
                FsStep::WriteFile {
                    path: old(self).config().spec_system_catalog_file(db.spec_name()),
                    content: spec_with_line(
                        spec_catalog_bytes(db.records@),
                        spec_database_line(old(self).next_oid(), dbname@),
                    ),
                },
            ]),
    {
        if !self.oid_manager.has_next() {
            return Err(String::from_str("No object identifier is left."));
        }
        let oid = self.oid_manager.get_new_oid();
        match self.check_base_dir(base_dir_exists) {
            Ok(_) => {},
            Err(msg) => {
                return Err(msg);
            },
        }
        let mut actions: Vec<FsAction> = Vec::new();
        actions.push(self.create_database_dir(oid));
        actions.push(self.add_record(dbname, oid, db));
        assert(spec_steps(actions@) =~= seq![actions@[0]@, actions@[1]@]);
        Ok(actions)
    }

    /// The step that keeps the counter of identifiers.
    pub fn save_oid(&self) -> (action: FsAction)
        ensures
            action@ == (FsStep::WriteFile {
                path: self.config().spec_oid_file(),
                content: encode_utf8(crate::text::spec_decimal_nat(self.next_oid() as nat)),
            }),
    {
        self.oid_manager.save(&self.config)
    }

    fn check_base_dir(&self, base_dir_exists: bool) -> (r: Result<(), String>)
        ensures
            r is Ok <==> base_dir_exists,
            r matches Err(m) ==> m@ == spec_base_dir_message(self.config()),
    {
        if base_dir_exists {
            Ok(())
        } else {
            Err(base_dir_message(&self.config))
        }
    }

    fn create_database_dir(&self, db_oid: Oid) -> (action: FsAction)
        ensures
            action@ == (FsStep::CreateDir { path: self.config().spec_database_dir(db_oid) }),
    {
        FsAction::CreateDir { path: self.config.database_dir_path(db_oid) }
    }

    fn add_record(&self, dbname: &str, db_oid: Oid, db: RecordManeger<MiniDatabaseRecord>) -> (action:
        FsAction)
        ensures
            action@ == (FsStep::WriteFile {
                path: self.config().spec_system_catalog_file(db.spec_name()),
                content: spec_with_line(
                    spec_catalog_bytes(db.records@),
                    spec_database_line(db_oid, dbname@),
                ),
            }),
    {
        let mut db = db;
        let ghost before = db.records@;
        let record = MiniDatabaseRecord::new(db_oid, String::from_str(dbname));
        db.add_record(record);
        proof {
            assert(db.records@ =~= before.push(db.records@.last()));
            lemma_catalog_grows(before, db.records@.last());
        }
        db.save(&self.config)
    }
}

/// Makes a table.
pub struct CreateTableCommand {
    config: Config,
    oid_manager: OidManager,
}

/// The line of a column of four-byte integers.
pub open spec fn spec_column_line(name: Seq<char>, db_oid: Oid, table_oid: Oid) -> Seq<char> {
    spec_attribute_line(name, db_oid, table_oid, TypeLabel::Integer, 4)
}

impl CreateTableCommand {
    /// The configuration.
    pub closed spec fn config(&self) -> &Config {
        &self.config
    }

    /// The identifier that the table made next gets.
    pub closed spec fn next_oid(&self) -> Oid {
        self.oid_manager.next()
    }

    pub fn new(config: Config, oid_manager: OidManager) -> (command: CreateTableCommand)
        ensures
            *command.config() == config,
            command.next_oid() == oid_manager.next(),
    {
        CreateTableCommand { config: config, oid_manager: oid_manager }
    }

    /// Makes a table of the given name in the given database: takes a new
    /// identifier for it, and hands back the steps that make its directory,
    /// named by the identifier, under that of the database, write the
    /// catalog of tables with its record added, and write the catalog of
    /// columns with its two columns added, `id` and then `age`, both
    /// four-byte integers. `db`, `class` and `attribute` are the catalogs
    /// of databases, of tables and of columns. Fails if the catalog does
    /// not have the database or no identifier is left; fails, with the
    /// identifier taken all the same, if the directory of the databases is
    /// missing.
    pub fn execute(
        &mut self,
        dbname: &str,
        tablename: &str,
        base_dir_exists: bool,
        db: &RecordManeger<MiniDatabaseRecord>,
        class: RecordManeger<MiniClassRecord>,
        attribute: RecordManeger<MiniAttributeRecord>,
    ) -> (r: Result<Vec<FsAction>, String>)
        ensures
            final(self).config() == old(self).config(),
            ({
                let found = spec_find_database_oid(db.records@, dbname@, db.records@.len() as int);
                let table_oid = old(self).next_oid();
                let config = old(self).config();
                if found is None {
                    final(self).next_oid() == table_oid && (r matches Err(m) && m@
                        == spec_database_message(dbname@))
                } else if table_oid == u32::MAX {
                    final(self).next_oid() == table_oid && (r matches Err(m) && m@
                        == spec_oid_message())
                } else if !base_dir_exists {
                    final(self).next_oid() == table_oid + 1 && (r matches Err(m) && m@
                        == spec_base_dir_message(config))
                } else {
                    let db_oid = found->0;
                    let with_id = spec_with_line(
                        spec_catalog_bytes(attribute.records@),
                        spec_column_line("id"@, db_oid, table_oid),
                    );
                    final(self).next_oid() == table_oid + 1 && (r matches Ok(actions)
                        && spec_steps(actions@) == seq![
                        FsStep::CreateDir { path: config.spec_table_dir(db_oid, table_oid) },
                        FsStep::WriteFile {
                            path: config.spec_system_catalog_file(class.spec_name()),
                            content: spec_with_line(
                                spec_catalog_bytes(class.records@),
                                spec_class_line(table_oid, tablename@, db_oid),
                            ),
                        },
                        FsStep::WriteFile {
                            path: config.spec_system_catalog_file(attribute.spec_name()),
                            content: with_id,
                        },
                        FsStep::WriteFile {
                            path: config.spec_system_catalog_file(attribute.spec_name()),
                            content: spec_with_line(
                                with_id,
                                spec_column_line("age"@, db_oid, table_oid),
                            ),
                        },
                    ])
                }
            }),
    {
        let db_oid = match db.find_mini_database(dbname) {
            Some(record) => record.oid,
            None => {
                let mut msg = String::from_str(dbname);
                msg.append(" database should be defined.");
                return Err(msg);
            },
        };
        if !self.oid_manager.has_next() {
            return Err(String::from_str("No object identifier is left."));
        }
        let table_oid = self.oid_manager.get_new_oid();
        match self.check_base_dir(base_dir_exists) {
            Ok(_) => {},
            Err(msg) => {
                return Err(msg);
            },
        }
        let mut actions: Vec<FsAction> = Vec::new();
        let mut class = class;
        let mut attribute = attribute;
        actions.push(self.create_table_dir(db_oid, table_oid));
        actions.push(self.add_record_to_mini_class(&mut class, db_oid, tablename, table_oid));
        actions.push(
            self.add_record_to_mini_attribute(
                &mut attribute,
                "id",
                db_oid,
                table_oid,
                TypeLabel::Integer,
                4,
            ),
        );
        actions.push(
            self.add_record_to_mini_attribute(
                &mut attribute,
                "age",
                db_oid,
                table_oid,
                TypeLabel::Integer,
                4,
            ),
        );
        assert(spec_steps(actions@) =~= seq![
            actions@[0]@,
            actions@[1]@,
            actions@[2]@,
            actions@[3]@,
        ]);
        Ok(actions)
    }

    /// The step that keeps the counter of identifiers.
    pub fn save_oid(&self) -> (action: FsAction)
        ensures
            action@ == (FsStep::WriteFile {
                path: self.config().spec_oid_file(),
                content: encode_utf8(crate::text::spec_decimal_nat(self.next_oid() as nat)),
            }),
    {
        self.oid_manager.save(&self.config)
    }

    fn check_base_dir(&self, base_dir_exists: bool) -> (r: Result<(), String>)
        ensures
            r is Ok <==> base_dir_exists,
            r matches Err(m) ==> m@ == spec_base_dir_message(self.config()),
    {
        if base_dir_exists {
            Ok(())
        } else {
            Err(base_dir_message(&self.config))
        }
    }

    fn create_table_dir(&self, db_oid: Oid, table_oid: Oid) -> (action: FsAction)
        ensures
            action@ == (FsStep::CreateDir { path: self.config().spec_table_dir(db_oid, table_oid) }),
    {
        FsAction::CreateDir { path: self.config.table_dir_path(db_oid, table_oid) }
    }

    fn add_record_to_mini_class(
        &self,
        class: &mut RecordManeger<MiniClassRecord>,
        db_oid: Oid,
        tablename: &str,
        oid: Oid,
    ) -> (action: FsAction)
        ensures
            final(class).spec_name() == old(class).spec_name(),
            action@ == (FsStep::WriteFile {
                path: self.config().spec_system_catalog_file(old(class).spec_name()),
                content: spec_with_line(
                    spec_catalog_bytes(old(class).records@),
                    spec_class_line(oid, tablename@, db_oid),
                ),
            }),
    {
        let ghost before = class.records@;
        let record = MiniClassRecord::new(oid, String::from_str(tablename), db_oid);
        class.add_record(record);
        proof {
            assert(class.records@ =~= before.push(class.records@.last()));
            lemma_catalog_grows(before, class.records@.last());
        }
        class.save(&self.config)
    }

    fn add_record_to_mini_attribute(
        &self,
        attribute: &mut RecordManeger<MiniAttributeRecord>,
        name: &str,
        db_oid: Oid,
        table_oid: Oid,
        ty: TypeLabel,
        len: usize,
    ) -> (action: FsAction)
        ensures
            final(attribute).spec_name() == old(attribute).spec_name(),
            spec_catalog_bytes(final(attribute).records@) == spec_with_line(
                spec_catalog_bytes(old(attribute).records@),
                spec_attribute_line(name@, db_oid, table_oid, ty, len),
            ),
            action@ == (FsStep::WriteFile {
                path: self.config().spec_system_catalog_file(old(attribute).spec_name()),
                content: spec_catalog_bytes(final(attribute).records@),
            }),
    {
        let ghost before = attribute.records@;
        let record = MiniAttributeRecord::new(String::from_str(name), db_oid, table_oid, ty, len);
        attribute.add_record(record);
        proof {
            assert(attribute.records@ =~= before.push(attribute.records@.last()));
            lemma_catalog_grows(before, attribute.records@.last());
        }
        attribute.save(&self.config)
    }
}

} // verus!
