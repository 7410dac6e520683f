use minidb::catalog::catalog::RecordManeger;
use minidb::catalog::catalog_manager::CatalogManager;
use minidb::config::Config;
use minidb::ddl::{CreateDatabaseCommand, CreateTableCommand};
use minidb::dml::{CountCommand, DeleteCommand, InsertIntoCommand, SelectFromCommand};
use minidb::fs_action::FsAction;
use minidb::init::InitCommand;
use minidb::oid_manager::OidManager;
use minidb::page::Page;
use minidb::spi::Executor;
use minidb::tuple::KeyValueBuilder;

fn config() -> Config {
    Config::new("/mydb".to_string())
}

fn catalogs() -> CatalogManager {
    CatalogManager::new(
        "10000,db1\n",
        "10001,t,10000\n",
        "id,10000,10001,1,4\nage,10000,10001,1,4\n",
    )
    .unwrap()
}

fn run(cmgr: &CatalogManager, query: &str, file: Vec<u8>) -> (Vec<String>, Vec<u8>) {
    let executor = Executor::new(config(), cmgr);
    let outcome = executor.execute_query(query, file);
    assert_eq!(outcome.result, Ok(()), "{}", query);
    (outcome.lines, outcome.file.unwrap())
}

fn paths(actions: &[FsAction]) -> Vec<String> {
    actions
        .iter()
        .map(|a| match a {
            FsAction::CreateDirAll { path } => format!("mkdir -p {}", path),
            FsAction::CreateDir { path } => format!("mkdir {}", path),
            FsAction::CreateFile { path } => format!("touch {}", path),
            FsAction::WriteFile { path, content } => {
                format!("write {} {:?}", path, String::from_utf8(content.clone()).unwrap())
            }
        })
        .collect()
}

#[test]
fn init_sets_up_directories_counter_and_catalogs() {
    let actions = InitCommand::new(config()).execute();
    assert_eq!(
        paths(&actions),
        vec![
            "mkdir -p /mydb/base",
            "mkdir -p /mydb/global",
            "write /mydb/global/oid \"10000\"",
            "mkdir /mydb/global/mini_database",
            "touch /mydb/global/mini_database/data",
            "mkdir /mydb/global/mini_class",
            "touch /mydb/global/mini_class/data",
            "mkdir /mydb/global/mini_attribute",
            "touch /mydb/global/mini_attribute/data",
        ]
    );
}

#[test]
fn create_db_takes_the_first_oid() {
    let oid_manager = OidManager::new("10000").unwrap();
    let mut command = CreateDatabaseCommand::new(config(), oid_manager);
    let db = RecordManeger::mini_database_rm("").unwrap();
    let actions = command.execute("db1", true, db).unwrap();
    assert_eq!(
        paths(&actions),
        vec!["mkdir /mydb/base/10000", "write /mydb/global/mini_database/data \"10000,db1\\n\""]
    );
    assert_eq!(paths(&[command.save_oid()]), vec!["write /mydb/global/oid \"10001\""]);
}

#[test]
fn create_db_needs_the_base_directory() {
    let mut command = CreateDatabaseCommand::new(config(), OidManager::new("10000").unwrap());
    let db = RecordManeger::mini_database_rm("").unwrap();
    assert_eq!(
        command.execute("db1", false, db).err().unwrap(),
        "Base dir (/mydb/base) does not exist."
    );
    // The identifier is taken all the same.
    assert_eq!(paths(&[command.save_oid()]), vec!["write /mydb/global/oid \"10001\""]);

    let mut command = CreateDatabaseCommand::new(config(), OidManager::starting_at(u32::MAX));
    let db = RecordManeger::mini_database_rm("").unwrap();
    assert_eq!(command.execute("db1", true, db).err().unwrap(), "No object identifier is left.");
}

#[test]
fn create_table_adds_its_record_and_two_columns() {
    let oid_manager = OidManager::new("10001").unwrap();
    let mut command = CreateTableCommand::new(config(), oid_manager);
    let db = RecordManeger::mini_database_rm("10000,db1\n").unwrap();
    let class = RecordManeger::mini_class_rm("").unwrap();
    let attribute = RecordManeger::mini_attribute_rm("").unwrap();
    let actions = command.execute("db1", "t", true, &db, class, attribute).unwrap();
    assert_eq!(
        paths(&actions),
        vec![
            "mkdir /mydb/base/10000/10001",
            "write /mydb/global/mini_class/data \"10001,t,10000\\n\"",
            "write /mydb/global/mini_attribute/data \"id,10000,10001,1,4\\n\"",
            "write /mydb/global/mini_attribute/data \"id,10000,10001,1,4\\nage,10000,10001,1,4\\n\"",
        ]
    );
    assert_eq!(paths(&[command.save_oid()]), vec!["write /mydb/global/oid \"10002\""]);
}

#[test]
fn create_table_needs_its_database() {
    let mut command = CreateTableCommand::new(config(), OidManager::new("10001").unwrap());
    let db = RecordManeger::mini_database_rm("10000,db1\n").unwrap();
    let class = RecordManeger::mini_class_rm("").unwrap();
    let attribute = RecordManeger::mini_attribute_rm("").unwrap();
    assert_eq!(
        command.execute("db9", "t", true, &db, class, attribute).err().unwrap(),
        "db9 database should be defined."
    );
    assert_eq!(paths(&[command.save_oid()]), vec!["write /mydb/global/oid \"10001\""]);
    let class = RecordManeger::mini_class_rm("").unwrap();
    let attribute = RecordManeger::mini_attribute_rm("").unwrap();
    assert_eq!(
        command.execute("db1", "t", false, &db, class, attribute).err().unwrap(),
        "Base dir (/mydb/base) does not exist."
    );
}

#[test]
fn insert_then_select_prints_rows_in_insertion_order() {
    let cmgr = catalogs();
    let (lines, file) = run(&cmgr, "insert into db1.t (id, age) values (1, 10), (2, 20)", Vec::new());
    assert!(lines.is_empty());
    assert_eq!(file.len(), 8192);
    let (lines, file) = run(&cmgr, "select * from db1.t", file);
    assert_eq!(lines, vec!["\"1\" \"10\"", "\"2\" \"20\""]);
    assert_eq!(file.len(), 8192);
}

#[test]
fn count_after_insert_is_two() {
    let cmgr = catalogs();
    let (_, file) = run(&cmgr, "insert into db1.t (id, age) values (1, 10), (2, 20)", Vec::new());
    let (lines, _) = run(&cmgr, "select count() from db1.t", file);
    assert_eq!(lines, vec!["Count: 2"]);
}

#[test]
fn delete_hides_the_row_from_count_and_select() {
    let cmgr = catalogs();
    let (_, file) = run(&cmgr, "insert into db1.t (id, age) values (1, 10), (2, 20)", Vec::new());
    let (lines, file) = run(&cmgr, "delete from db1.t where id = 1", file);
    assert_eq!(lines, vec!["Deleted records: 1"]);
    let (lines, file) = run(&cmgr, "select count() from db1.t", file);
    assert_eq!(lines, vec!["Count: 1"]);
    let (lines, file) = run(&cmgr, "select * from db1.t", file);
    assert_eq!(lines, vec!["\"2\" \"20\""]);
    // The slot of the deleted row is still there.
    let page = Page::from_block(file[0..8192].to_vec());
    assert_eq!(page.entry_count(), 2);
    assert_eq!(page.get_entry(0).unwrap(), vec![0, 0x20, 0, 0, 1, 0, 0, 0, 10, 0, 0, 0]);
}

#[test]
fn page_overflow_appends_a_block() {
    let cmgr = catalogs();
    let mut file = Vec::new();
    // 511 tuples of 12 bytes and their line pointers fill a page.
    for i in 0..511 {
        let query = format!("insert into db1.t (id, age) values ({}, {})", i, i);
        file = run(&cmgr, &query, file).1;
    }
    assert_eq!(file.len(), 8192);
    file = run(&cmgr, "insert into db1.t (id, age) values (511, 511)", file).1;
    assert_eq!(file.len(), 16384);
    let (lines, file) = run(&cmgr, "select count() from db1.t", file);
    assert_eq!(lines, vec!["Count: 512"]);
    let (lines, _) = run(&cmgr, "select * from db1.t where id = 511", file);
    assert_eq!(lines, vec!["\"511\" \"511\""]);
}

#[test]
fn select_order_by_age_is_by_text() {
    let cmgr = catalogs();
    let (_, file) =
        run(&cmgr, "insert into db1.t (id, age) values (3,30),(1,10),(2,20)", Vec::new());
    let (lines, file) = run(&cmgr, "select * from db1.t order by age", file);
    assert_eq!(lines, vec!["\"1\" \"10\"", "\"2\" \"20\"", "\"3\" \"30\""]);
    let (_, file) = run(&cmgr, "insert into db1.t (id, age) values (4, 100), (5, 9)", file);
    let (lines, _) = run(&cmgr, "select * from db1.t order by age", file);
    assert_eq!(
        lines,
        vec!["\"1\" \"10\"", "\"4\" \"100\"", "\"2\" \"20\"", "\"3\" \"30\"", "\"5\" \"9\""]
    );
}

#[test]
fn select_with_where_and_order() {
    let cmgr = catalogs();
    let (_, file) = run(
        &cmgr,
        "insert into db1.t (id, age) values (1, 30), (2, 20), (1, 10), (1, 20)",
        Vec::new(),
    );
    let (lines, file) = run(&cmgr, "select * from db1.t where id = 1 order by age", file);
    assert_eq!(lines, vec!["\"1\" \"10\"", "\"1\" \"20\"", "\"1\" \"30\""]);
    let (lines, file) = run(&cmgr, "select count() from db1.t where id = 1", file);
    assert_eq!(lines, vec!["Count: 3"]);
    let (lines, _) = run(&cmgr, "select * from db1.t where false", file);
    assert!(lines.is_empty());
}

#[test]
fn empty_table_selects_nothing() {
    let cmgr = catalogs();
    let (lines, file) = run(&cmgr, "select * from db1.t", Vec::new());
    assert!(lines.is_empty());
    assert_eq!(file.len(), 8192);
    let (lines, _) = run(&cmgr, "select count() from db1.t", Vec::new());
    assert_eq!(lines, vec!["Count: 0"]);
    let (lines, _) = run(&cmgr, "delete from db1.t", Vec::new());
    assert_eq!(lines, vec!["Deleted records: 0"]);
}

#[test]
fn statement_errors_name_what_is_wrong() {
    let cmgr = catalogs();
    let executor = Executor::new(config(), &cmgr);
    let failure = |query: &str, file: Vec<u8>| {
        let outcome = executor.execute_query(query, file);
        assert!(outcome.lines.is_empty());
        (outcome.result.err().unwrap(), outcome.file)
    };
    assert_eq!(failure("selec * from db1.t", Vec::new()), ("Invalid syntax".to_string(), None));
    assert_eq!(
        failure("select * from db9.t", Vec::new()),
        ("db9 database should be defined.".to_string(), None)
    );
    assert_eq!(
        failure("select * from db1.u", Vec::new()),
        ("u table should be defined under the db1 database. ".to_string(), None)
    );
    assert_eq!(
        failure("select * from db1.t", vec![1, 2, 3]),
        ("t table should have a heap file of whole, well-formed blocks.".to_string(), None)
    );
    assert_eq!(
        failure("select * from db1.t where name = 1", Vec::new()),
        ("where clause should be a condition on the columns of the t table.".to_string(), None)
    );
    assert_eq!(
        failure("delete from db1.t where 1", Vec::new()),
        ("where clause should be a condition on the columns of the t table.".to_string(), None)
    );
    assert_eq!(
        failure("select * from db1.t order by name", Vec::new()),
        ("name column should be defined in the t table.".to_string(), None)
    );
    assert_eq!(
        failure("insert into db1.t (id) values (1)", Vec::new()),
        ("Length not match. attrs: 2, key_values: 1".to_string(), Some(Vec::new()))
    );
    assert_eq!(
        failure("insert into db1.t (id, name) values (1, 2)", Vec::new()),
        ("Name not match. attrs: age, key_values: name".to_string(), Some(Vec::new()))
    );
    assert_eq!(
        failure("insert into db1.t (id, age) values (1, 'b')", Vec::new()),
        ("Value not match. attrs: age, value: b".to_string(), Some(Vec::new()))
    );
    assert_eq!(
        failure("insert into db9.t (id, age) values (1, 2)", Vec::new()),
        ("db9 database should be defined.".to_string(), Some(Vec::new()))
    );
}

#[test]
fn rows_before_a_bad_row_are_inserted() {
    let cmgr = catalogs();
    let executor = Executor::new(config(), &cmgr);
    let outcome =
        executor.execute_query("insert into db1.t (id, age) values (1, 10), (2, 'x'), (3, 30)", Vec::new());
    assert_eq!(outcome.result, Err("Value not match. attrs: age, value: x".to_string()));
    let file = outcome.file.unwrap();
    let (lines, _) = run(&cmgr, "select * from db1.t", file);
    assert_eq!(lines, vec!["\"1\" \"10\""]);
}

#[test]
fn executor_names_the_heap_file_of_a_statement() {
    let cmgr = catalogs();
    let executor = Executor::new(config(), &cmgr);
    let stmt = executor.parse_query("select * from db1.t").unwrap();
    assert_eq!(executor.data_file(&stmt), Ok("/mydb/base/10000/10001/data".to_string()));
    let stmt = executor.parse_query("delete from db2.t").unwrap();
    assert_eq!(executor.data_file(&stmt), Err("db2 database should be defined.".to_string()));
    let stmt = executor.parse_query("insert into db1.x (a) values (1)").unwrap();
    assert_eq!(
        executor.data_file(&stmt),
        Err("x table should be defined under the db1 database. ".to_string())
    );
}

#[test]
fn commands_work_on_the_file_they_are_handed() {
    let cmgr = catalogs();
    let mut pairs = KeyValueBuilder::new();
    pairs.add_pair("id", "7");
    pairs.add_pair("age", "70");
    let out = InsertIntoCommand::new(config()).execute("db1", "t", pairs.build(), &cmgr, Vec::new()).unwrap();
    assert!(out.lines.is_empty());
    let out = SelectFromCommand::new(config()).execute("db1", "t", &cmgr, &None, &None, out.file).unwrap();
    assert_eq!(out.lines, vec!["\"7\" \"70\""]);
    let out = CountCommand::new(config()).execute("db1", "t", &cmgr, &None, &None, out.file).unwrap();
    assert_eq!(out.lines, vec!["Count: 1"]);
    let out = DeleteCommand::new(config()).execute("db1", "t", &cmgr, &None, out.file).unwrap();
    assert_eq!(out.lines, vec!["Deleted records: 1"]);
    let out = CountCommand::new(config()).execute("db1", "t", &cmgr, &None, &None, out.file).unwrap();
    assert_eq!(out.lines, vec!["Count: 0"]);
    assert_eq!(out.file.len() % 8192, 0);
}

#[test]
fn inserted_row_is_seen_once_after_more_inserts() {
    let cmgr = catalogs();
    let (_, mut file) = run(&cmgr, "insert into db1.t (id, age) values (-77, 123456)", Vec::new());
    for i in 0..600 {
        let query = format!("insert into db1.t (id, age) values ({}, 0)", i);
        file = run(&cmgr, &query, file).1;
    }
    let (lines, _) = run(&cmgr, "select * from db1.t where id = -77", file);
    assert_eq!(lines, vec!["\"-77\" \"123456\""]);
}

fn catalogs_with_columns(columns: &str) -> CatalogManager {
    CatalogManager::new("10000,db1\n", "10001,t,10000\n", columns).unwrap()
}

#[test]
fn rows_that_no_page_can_hold_are_refused() {
    let executor_error = |columns: &str, query: &str| {
        let cmgr = catalogs_with_columns(columns);
        let executor = Executor::new(config(), &cmgr);
        let outcome = executor.execute_query(query, Vec::new());
        assert_eq!(outcome.file, Some(Vec::new()));
        outcome.result.err().unwrap()
    };
    assert_eq!(
        executor_error("id,10000,10001,1,9000\n", "insert into db1.t (id) values (1)"),
        "row is too big: size 9004, maximum size 8188"
    );
    assert_eq!(
        executor_error("id,10000,10001,1,8184\n", "insert into db1.t (id) values (1)"),
        "Does not have enough space for 8188"
    );
    assert_eq!(
        executor_error("id,10000,10001,1,8181\n", "insert into db1.t (id) values (1)"),
        "Does not have enough space for 8185"
    );
    assert_eq!(
        executor_error("id,10000,10001,1,3\n", "insert into db1.t (id) values (1)"),
        "t table should have columns that make up a tuple."
    );
}

#[test]
fn widest_row_that_a_page_can_hold_is_inserted() {
    let cmgr = catalogs_with_columns("id,10000,10001,1,8180\n");
    let (_, file) = run(&cmgr, "insert into db1.t (id) values (5)", Vec::new());
    assert_eq!(file.len(), 8192);
    let page = Page::from_block(file[0..8192].to_vec());
    assert_eq!(page.page_get_free_space(), 0);
    assert_eq!(page.get_item(0).lp_len(), 8184);
    // The next row goes to a block of its own.
    let (_, file) = run(&cmgr, "insert into db1.t (id) values (6)", file);
    assert_eq!(file.len(), 16384);
    let (lines, _) = run(&cmgr, "select * from db1.t", file);
    assert_eq!(lines, vec!["\"5\"", "\"6\""]);
}

#[test]
fn scan_of_a_table_with_bad_columns_is_refused() {
    let cmgr = catalogs_with_columns("id,10000,10001,1,3\n");
    let executor = Executor::new(config(), &cmgr);
    let outcome = executor.execute_query("select * from db1.t", Vec::new());
    assert_eq!(outcome.result, Err("t table should have columns that make up a tuple.".to_string()));
    assert_eq!(outcome.file, None);
}

#[test]
fn count_with_order_counts_the_same() {
    let cmgr = catalogs();
    let (_, file) = run(&cmgr, "insert into db1.t (id, age) values (3,30),(1,10),(2,20)", Vec::new());
    let (lines, file) = run(&cmgr, "select count() from db1.t order by age", file);
    assert_eq!(lines, vec!["Count: 3"]);
    let executor = Executor::new(config(), &cmgr);
    let outcome = executor.execute_query("select count() from db1.t order by name", file);
    assert_eq!(outcome.result, Err("name column should be defined in the t table.".to_string()));
}
