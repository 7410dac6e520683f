use minidb::catalog::catalog_manager::CatalogManager;
use minidb::config::Config;
use minidb::page::Page;
use minidb::spi::Executor;

fn catalogs() -> CatalogManager {
    CatalogManager::new(
        "10000,db1\n10002,db2\n",
        "10001,t,10000\n10003,t,10002\n",
        "id,10000,10001,1,4\nage,10000,10001,1,4\nid,10002,10003,1,4\n",
    )
    .unwrap()
}

fn run(cmgr: &CatalogManager, query: &str, file: Vec<u8>) -> (Vec<String>, Vec<u8>) {
    let executor = Executor::new(Config::new("/mydb".to_string()), cmgr);
    let outcome = executor.execute_query(query, file);
    assert_eq!(outcome.result, Ok(()), "{}", query);
    (outcome.lines, outcome.file.unwrap())
}

struct Lcg(u64);

impl Lcg {
    fn next(&mut self, bound: u64) -> u64 {
        self.0 = self.0.wrapping_mul(6364136223846793005).wrapping_add(1442695040888963407);
        (self.0 >> 33) % bound
    }
}

// Rows that were inserted and not deleted since are what a select hands
// back, in the order in which they were inserted.
#[test]
fn table_agrees_with_a_list_of_rows() {
    let cmgr = catalogs();
    let mut rng = Lcg(42);
    let mut file = Vec::new();
    let mut rows: Vec<(i32, i32)> = Vec::new();
    for step in 0..400 {
        match rng.next(10) {
            0 => {
                let id = rng.next(8) as i32;
                let expected = rows.iter().filter(|r| r.0 == id).count();
                let (lines, after) = run(&cmgr, &format!("delete from db1.t where id = {}", id), file);
                assert_eq!(lines, vec![format!("Deleted records: {}", expected)]);
                rows.retain(|r| r.0 != id);
                file = after;
            }
            1 => {
                let id = rng.next(8) as i32;
                let expected: Vec<String> = rows
                    .iter()
                    .filter(|r| r.0 == id)
                    .map(|r| format!("\"{}\" \"{}\"", r.0, r.1))
                    .collect();
                let (lines, after) = run(&cmgr, &format!("select * from db1.t where id = {}", id), file);
                assert_eq!(lines, expected);
                file = after;
            }
            _ => {
                let id = rng.next(8) as i32;
                let age = rng.next(2000) as i32 - 1000;
                let second = (id + 1, age - step);
                let query = format!(
                    "insert into db1.t (id, age) values ({}, {}), ({}, {})",
                    id, age, second.0, second.1
                );
                file = run(&cmgr, &query, file).1;
                rows.push((id, age));
                rows.push(second);
            }
        }
        assert_eq!(file.len() % 8192, 0);
    }
    let expected: Vec<String> = rows.iter().map(|r| format!("\"{}\" \"{}\"", r.0, r.1)).collect();
    let (lines, file) = run(&cmgr, "select * from db1.t", file);
    assert_eq!(lines, expected);
    let (lines, file) = run(&cmgr, "select count() from db1.t", file);
    assert_eq!(lines, vec![format!("Count: {}", rows.len())]);

    let mut sorted: Vec<(String, usize)> =
        rows.iter().enumerate().map(|(i, r)| (r.1.to_string(), i)).collect();
    sorted.sort();
    let expected: Vec<String> =
        sorted.iter().map(|(_, i)| format!("\"{}\" \"{}\"", rows[*i].0, rows[*i].1)).collect();
    let (lines, _) = run(&cmgr, "select * from db1.t order by age", file);
    assert_eq!(lines, expected);
}

#[test]
fn tables_of_two_databases_do_not_mix() {
    let cmgr = catalogs();
    let (_, first) = run(&cmgr, "insert into db1.t (id, age) values (1, 2)", Vec::new());
    let (_, second) = run(&cmgr, "insert into db2.t (id) values (9)", Vec::new());
    let (lines, _) = run(&cmgr, "select * from db1.t", first);
    assert_eq!(lines, vec!["\"1\" \"2\""]);
    let (lines, second) = run(&cmgr, "select * from db2.t", second);
    assert_eq!(lines, vec!["\"9\""]);
    // A tuple of another length is not a tuple of the table.
    let (lines, _) = run(&cmgr, "select count() from db1.t", second);
    assert_eq!(lines, vec!["Count: 0"]);
}

#[test]
fn block_of_zeros_inside_a_file_is_an_empty_page() {
    let cmgr = catalogs();
    let (_, one) = run(&cmgr, "insert into db1.t (id, age) values (1, 2)", Vec::new());
    let mut file = one.clone();
    file.extend_from_slice(&vec![0u8; 8192]);
    file.extend_from_slice(&one);
    let (lines, file) = run(&cmgr, "select * from db1.t", file);
    assert_eq!(lines, vec!["\"1\" \"2\"", "\"1\" \"2\""]);
    assert_eq!(file.len(), 3 * 8192);
    assert!(Page::from_block(file[8192..16384].to_vec()).is_empty());
    // Inserts go to the last block.
    let (_, file) = run(&cmgr, "insert into db1.t (id, age) values (3, 4)", file);
    assert_eq!(Page::from_block(file[16384..].to_vec()).entry_count(), 2);
    assert_eq!(Page::from_block(file[0..8192].to_vec()).entry_count(), 1);
}
