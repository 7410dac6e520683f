use minidb::catalog::catalog::{Record, RecordManeger};
use minidb::catalog::catalog_manager::CatalogManager;
use minidb::catalog::mini_attribute::{ty_byte_len, MiniAttributeRecord, TypeLabel};
use minidb::catalog::mini_class::MiniClassRecord;
use minidb::catalog::mini_database::MiniDatabaseRecord;
use minidb::config::Config;
use minidb::fs_action::FsAction;

#[test]
fn mini_attribute_test_record_build_from_line() {
    let result1 = MiniAttributeRecord::build_from_line("id,10001,10002,1,4".to_string());
    assert_eq!(result1.is_ok(), true);
    let ok1 = result1.ok().unwrap();
    assert_eq!(ok1.name, "id".to_string());
    assert_eq!(ok1.db_oid, 10001);
    assert_eq!(ok1.class_oid, 10002);
    assert_eq!(ok1.ty, TypeLabel::Integer);
    assert_eq!(ok1.len, 4);

    let result2 = MiniAttributeRecord::build_from_line("table1".to_string());
    assert_eq!(result2.is_err(), true);
}

#[test]
fn mini_attribute_test_record_save_to_file() {
    let record = MiniAttributeRecord {
        name: "id".to_string(),
        db_oid: 10003,
        class_oid: 10004,
        ty: TypeLabel::Integer,
        len: 4,
    };
    let mut v = Vec::new();
    record.save_to_file(&mut v);
    assert_eq!(v, b"id,10003,10004,1,4");
}

#[test]
fn mini_class_test_record_build_from_line() {
    let result1 = MiniClassRecord::build_from_line("10004,table1,10010".to_string());
    assert_eq!(result1.is_ok(), true);
    let ok1 = result1.ok().unwrap();
    assert_eq!(ok1.oid, 10004);
    assert_eq!(ok1.name, "table1".to_string());
    assert_eq!(ok1.db_oid, 10010);

    let result2 = MiniClassRecord::build_from_line("table1".to_string());
    assert_eq!(result2.is_err(), true);
}

#[test]
fn mini_class_test_record_save_to_file() {
    let record = MiniClassRecord { oid: 10005, name: "table1".to_string(), db_oid: 10006 };
    let mut v = Vec::new();
    record.save_to_file(&mut v);
    assert_eq!(v, b"10005,table1,10006");
}

#[test]
fn mini_database_test_record_build_from_line() {
    let result1 = MiniDatabaseRecord::build_from_line("10001,db1".to_string());
    assert_eq!(result1.is_ok(), true);
    let ok1 = result1.ok().unwrap();
    assert_eq!(ok1.oid, 10001);
    assert_eq!(ok1.name, "db1".to_string());
}

#[test]
fn mini_database_test_record_save_to_file() {
    let record = MiniDatabaseRecord { oid: 10002, name: "db1".to_string() };
    let mut v = Vec::new();
    record.save_to_file(&mut v);
    assert_eq!(v, b"10002,db1");
}

#[test]
fn malformed_lines_are_named_in_the_error() {
    let e = MiniDatabaseRecord::build_from_line("db1".to_string()).err().unwrap();
    assert_eq!(e, "Line (db1) is invalid.");
    let e = MiniDatabaseRecord::build_from_line("x,db1".to_string()).err().unwrap();
    assert_eq!(e, "Line (x,db1) is invalid.");
    let e = MiniClassRecord::build_from_line("10004,t,abc".to_string()).err().unwrap();
    assert_eq!(e, "Line (10004,t,abc) is invalid.");
    let e = MiniAttributeRecord::build_from_line("id,1,2,7,4".to_string()).err().unwrap();
    assert_eq!(e, "Line (id,1,2,7,4) is invalid.");
    let e = MiniAttributeRecord::build_from_line("id,1,2,1,".to_string()).err().unwrap();
    assert_eq!(e, "Line (id,1,2,1,) is invalid.");
    assert!(MiniDatabaseRecord::build_from_line("4294967296,db".to_string()).is_err());
    assert!(MiniDatabaseRecord::build_from_line("4294967295,db".to_string()).is_ok());
    assert!(MiniDatabaseRecord::build_from_line("-1,db".to_string()).is_err());
    assert_eq!(MiniDatabaseRecord::build_from_line("+7,db".to_string()).unwrap().oid, 7);
    assert!(MiniDatabaseRecord::build_from_line("1,a,b".to_string()).is_err());
}

#[test]
fn catalog_reads_one_record_per_line() {
    let db: RecordManeger<MiniDatabaseRecord> =
        RecordManeger::build_from_text("mini_database".to_string(), "10000,foo\n10001,bar\n").unwrap();
    assert_eq!(db.records.len(), 2);
    assert_eq!(db.records[0].name, "foo".to_string());
    assert_eq!(db.records[1].name, "bar".to_string());
    assert_eq!(db.records[1].oid, 10001);

    let empty: RecordManeger<MiniDatabaseRecord> =
        RecordManeger::build_from_text("mini_database".to_string(), "").unwrap();
    assert_eq!(empty.records.len(), 0);

    let no_final_newline: RecordManeger<MiniDatabaseRecord> =
        RecordManeger::build_from_text("mini_database".to_string(), "1,a\r\n2,b").unwrap();
    assert_eq!(no_final_newline.records.len(), 2);
    assert_eq!(no_final_newline.records[0].name, "a");
    assert_eq!(no_final_newline.records[1].name, "b");
}

#[test]
fn catalog_fails_at_first_bad_line() {
    let r: Result<RecordManeger<MiniDatabaseRecord>, String> =
        RecordManeger::build_from_text("mini_database".to_string(), "1,a\nbad\nworse\n");
    assert_eq!(r.err().unwrap(), "Line (bad) is invalid.");
    let r: Result<RecordManeger<MiniDatabaseRecord>, String> =
        RecordManeger::build_from_text("mini_database".to_string(), "1,a\n\n2,b\n");
    assert_eq!(r.err().unwrap(), "Line () is invalid.");
}

#[test]
fn catalog_saves_each_record_on_its_line() {
    let mut db: RecordManeger<MiniDatabaseRecord> = RecordManeger::new("mini_database".to_string());
    db.add_record(MiniDatabaseRecord::new(10000, "baz".to_string()));
    db.add_record(MiniDatabaseRecord::new(10001, "fooo".to_string()));
    assert_eq!(db.to_bytes(), b"10000,baz\n10001,fooo\n");

    let config = Config::new("/mydb".to_string());
    match db.save(&config) {
        FsAction::WriteFile { path, content } => {
            assert_eq!(path, "/mydb/global/mini_database/data");
            assert_eq!(content, b"10000,baz\n10001,fooo\n");
        }
        _ => panic!("saving a catalog writes its file"),
    }
}

#[test]
fn saved_catalog_reads_back() {
    let mut rm: RecordManeger<MiniAttributeRecord> = RecordManeger::new("mini_attribute".to_string());
    rm.add_record(MiniAttributeRecord::new("id".to_string(), 10000, 10001, TypeLabel::Integer, 4));
    rm.add_record(MiniAttributeRecord::new("age".to_string(), 10000, 10001, TypeLabel::Integer, 4));
    let text = String::from_utf8(rm.to_bytes()).unwrap();
    assert_eq!(text, "id,10000,10001,1,4\nage,10000,10001,1,4\n");
    let back = RecordManeger::mini_attribute_rm(&text).unwrap();
    assert_eq!(back.records.len(), 2);
    assert_eq!(back.records[1].name, "age");
    assert_eq!(back.records[1].len, 4);
}

#[test]
fn lookups_find_the_first_match() {
    let dbs = RecordManeger::mini_database_rm("10000,db1\n10005,db2\n10007,db1\n").unwrap();
    assert_eq!(dbs.find_mini_database_oid("db1"), Some(10000));
    assert_eq!(dbs.find_mini_database_oid("db2"), Some(10005));
    assert_eq!(dbs.find_mini_database_oid("db3"), None);

    let classes = RecordManeger::mini_class_rm("10001,t,10000\n10002,u,10000\n10003,t,10005\n").unwrap();
    assert_eq!(classes.find_mini_class_oid(10000, "t"), Some(10001));
    assert_eq!(classes.find_mini_class_oid(10005, "t"), Some(10003));
    assert_eq!(classes.find_mini_class_oid(10005, "u"), None);
    assert_eq!(classes.find_mini_class_oid(10000, "v"), None);
}

#[test]
fn attributes_keep_catalog_order() {
    let attrs = RecordManeger::mini_attribute_rm(
        "id,10000,10001,1,4\nx,10000,10002,1,4\nage,10000,10001,1,4\nid,10005,10001,1,4\n",
    )
    .unwrap();
    let of_table = attrs.attributes_clone(10000, 10001);
    assert_eq!(of_table.len(), 2);
    assert_eq!(of_table[0].name, "id");
    assert_eq!(of_table[1].name, "age");
    let refs = attrs.attributes(10000, 10002);
    assert_eq!(refs.len(), 1);
    assert_eq!(refs[0].name, "x");
    assert_eq!(attrs.attributes_clone(1, 2).len(), 0);
}

#[test]
fn type_label_has_four_bytes() {
    assert_eq!(ty_byte_len(&TypeLabel::Integer), 4);
    let r = MiniAttributeRecord::new("id".to_string(), 1, 2, TypeLabel::Integer, 4);
    assert_eq!(r.byte_len(), 4);
}

#[test]
fn catalog_manager_reads_three_catalogs() {
    let cm = CatalogManager::new("10000,db1\n", "10001,t,10000\n", "id,10000,10001,1,4\n").unwrap();
    assert_eq!(cm.database_rm.records.len(), 1);
    assert_eq!(cm.class_rm.records.len(), 1);
    assert_eq!(cm.attribute_rm.records.len(), 1);
    let e = CatalogManager::new("10000,db1\n", "oops\n", "also bad\n").err().unwrap();
    assert_eq!(e, "Line (oops) is invalid.");
}

// A line of the catalog of databases is `<oid>,<name>`: a bare name is no
// record, and the error holds the line.
#[test]
fn test_build_from_file() {
    let refused: Result<RecordManeger<MiniDatabaseRecord>, String> =
        RecordManeger::build_from_text("mini_database".to_string(), "foo\nbar\n");
    assert_eq!(refused.err().unwrap(), "Line (foo) is invalid.");

    let db: RecordManeger<MiniDatabaseRecord> =
        RecordManeger::build_from_text("mini_database".to_string(), "10000,foo\n10001,bar\n").unwrap();
    assert_eq!(db.records.len(), 2);
    assert_eq!(db.records[0].name, "foo".to_string());
    assert_eq!(db.records[1].name, "bar".to_string());
}

#[test]
fn test_save_to_file() {
    let mut db: RecordManeger<MiniDatabaseRecord> = RecordManeger::new("mini_database".to_string());
    db.add_record(MiniDatabaseRecord::new(10000, "baz".to_string()));
    db.add_record(MiniDatabaseRecord::new(10001, "fooo".to_string()));

    let buf = String::from_utf8(db.to_bytes()).unwrap();

    assert_eq!(buf, "10000,baz\n10001,fooo\n".to_string());
}
