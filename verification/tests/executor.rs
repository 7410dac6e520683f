use minidb::ast::Expr;
use minidb::buffer_manager::{BufferManager, RelFileNode};
use minidb::catalog::catalog::RecordManeger;
use minidb::catalog::mini_attribute::MiniAttributeRecord;
use minidb::config::Config;
use minidb::executor::node_agg::CountState;
use minidb::executor::node_delete::DeleteState;
use minidb::executor::node_insert::InsertState;
use minidb::executor::node_seqscan::{check_qual, ExprEvaluator, ScanState};
use minidb::executor::node_sort::{sort_order, SortState};
use minidb::executor::plan_node::PlanNode;
use minidb::storage_manager::RelationData;
use minidb::tuple::{ItemPointerData, KeyValueBuilder, TupleTableSlot};
use minidb::ty::Integer;

fn rnode() -> RelFileNode {
    RelFileNode { table_oid: 10001, db_oid: 10000 }
}

fn relation() -> RelationData {
    RelationData { rd_node: RelFileNode { table_oid: 10001, db_oid: 0 }, smgr_rnode: rnode() }
}

fn attribute_catalog() -> RecordManeger<MiniAttributeRecord> {
    RecordManeger::mini_attribute_rm("id,10000,10001,1,4\nage,10000,10001,1,4\n").unwrap()
}

fn slot(id: i32, age: i32) -> TupleTableSlot {
    let mut slot = TupleTableSlot::new(attribute_catalog().attributes_clone(10000, 10001));
    slot.set_column(0, &Integer { elem: id });
    slot.set_column(1, &Integer { elem: age });
    slot
}

fn pool_with(rows: &[(i32, i32)]) -> BufferManager {
    let mut bm = BufferManager::new(1, Config::new("/mydb".to_string()));
    assert!(bm.mount(&rnode(), Vec::new()));
    for (id, age) in rows {
        bm.heap_insert(&relation(), &slot(*id, *age));
    }
    bm
}

fn drain(scan: &mut ScanState, bm: &mut BufferManager) -> Vec<(i32, i32, u32, u16)> {
    let mut seen = Vec::new();
    loop {
        match scan.exec_scan(bm) {
            Some(slot) => seen.push((
                slot.get_column(0).elem,
                slot.get_column(1).elem,
                slot.tid().ip_blkid,
                slot.tid().ip_posid,
            )),
            None => break,
        }
    }
    seen
}

fn eq(column: &str, n: i32) -> Option<Box<Expr>> {
    Some(Box::new(Expr::OpEq(
        Box::new(Expr::ColumnRef(column.to_string())),
        Box::new(Expr::Number(n)),
    )))
}

#[test]
fn scan_of_an_empty_relation_is_finished_at_once() {
    let mut bm = pool_with(&[]);
    let qual = None;
    let rel = relation();
    let rm = attribute_catalog();
    let mut scan = ScanState::new(&rel, &rm, &mut bm, &qual);
    assert_eq!(scan.ss_currentScanDesc.rs_finished, false);
    assert!(scan.exec_scan(&mut bm).is_none());
    assert_eq!(scan.ss_currentScanDesc.rs_finished, true);
    assert!(scan.exec_scan(&mut bm).is_none());
    assert!(scan.exec(&mut bm).is_none());
}

#[test]
fn scan_hands_on_tuples_in_the_order_of_their_slots() {
    let mut bm = pool_with(&[(1, 10), (2, 20), (3, 30)]);
    let qual = None;
    let rel = relation();
    let rm = attribute_catalog();
    let mut scan = ScanState::new(&rel, &rm, &mut bm, &qual);
    assert_eq!(drain(&mut scan, &mut bm), vec![(1, 10, 0, 0), (2, 20, 0, 1), (3, 30, 0, 2)]);
    assert!(scan.exec_scan(&mut bm).is_none());
}

#[test]
fn scan_goes_on_through_the_blocks() {
    let rows: Vec<(i32, i32)> = (0..1200).map(|i| (i, i * 2)).collect();
    let mut bm = pool_with(&rows);
    // 511 tuples of 12 bytes fill a page.
    assert_eq!(bm.relation_get_number_of_blocks(&relation()), 3);
    let qual = None;
    let rel = relation();
    let rm = attribute_catalog();
    let mut scan = ScanState::new(&rel, &rm, &mut bm, &qual);
    let seen = drain(&mut scan, &mut bm);
    assert_eq!(seen.len(), 1200);
    for (i, row) in seen.iter().enumerate() {
        let i = i as i32;
        assert_eq!((row.0, row.1), (i, i * 2));
        assert_eq!(row.2 as i32, i / 511);
        assert_eq!(row.3 as i32, i % 511);
    }
}

#[test]
fn scan_passes_over_deleted_tuples() {
    let mut bm = pool_with(&[(1, 10), (2, 20), (3, 30)]);
    let rel = relation();
    let rm = attribute_catalog();
    {
        let qual = eq("id", 2);
        let scan = ScanState::new(&rel, &rm, &mut bm, &qual);
        let mut delete = DeleteState::new(&rel, scan);
        assert!(delete.exec_delete(&mut bm).is_none());
        assert_eq!(delete.count, 1);
    }
    let qual = None;
    let mut scan = ScanState::new(&rel, &rm, &mut bm, &qual);
    assert_eq!(drain(&mut scan, &mut bm), vec![(1, 10, 0, 0), (3, 30, 0, 2)]);
    let b = bm.read_buffer(&rel, 0);
    assert_eq!(bm.get_page(b).page_get_max_offset_number(), 3);
}

#[test]
fn scan_hands_on_only_what_meets_the_condition() {
    let mut bm = pool_with(&[(1, 10), (2, 20), (1, 30), (-1, 10)]);
    let rel = relation();
    let rm = attribute_catalog();
    let qual = eq("id", 1);
    let mut scan = ScanState::new(&rel, &rm, &mut bm, &qual);
    assert_eq!(drain(&mut scan, &mut bm), vec![(1, 10, 0, 0), (1, 30, 0, 2)]);
    let qual = eq("id", -1);
    let mut scan = ScanState::new(&rel, &rm, &mut bm, &qual);
    assert_eq!(drain(&mut scan, &mut bm), vec![(-1, 10, 0, 3)]);
    let qual = Some(Box::new(Expr::Bool(false)));
    let mut scan = ScanState::new(&rel, &rm, &mut bm, &qual);
    assert_eq!(drain(&mut scan, &mut bm), vec![]);
    let qual = Some(Box::new(Expr::Bool(true)));
    let mut scan = ScanState::new(&rel, &rm, &mut bm, &qual);
    assert_eq!(drain(&mut scan, &mut bm).len(), 4);
}

#[test]
fn expressions_compare_values_as_texts() {
    let tuple = slot(7, -3);
    let eval = |e: Expr| ExprEvaluator::new(&tuple, &e).eval();
    let col = |n: &str| Box::new(Expr::ColumnRef(n.to_string()));
    let num = |n: i32| Box::new(Expr::Number(n));
    let b = |v: bool| Box::new(Expr::Bool(v));
    assert_eq!(eval(Expr::Bool(true)), true);
    assert_eq!(eval(Expr::Bool(false)), false);
    assert_eq!(eval(Expr::OpEq(col("id"), num(7))), true);
    assert_eq!(eval(Expr::OpEq(num(7), col("id"))), true);
    assert_eq!(eval(Expr::OpEq(col("age"), num(-3))), true);
    assert_eq!(eval(Expr::OpEq(col("age"), num(3))), false);
    assert_eq!(eval(Expr::OpEq(col("id"), col("age"))), false);
    assert_eq!(eval(Expr::OpEq(col("id"), col("id"))), true);
    assert_eq!(eval(Expr::OpEq(b(true), b(true))), true);
    assert_eq!(eval(Expr::OpEq(b(false), b(true))), false);
    // A truth value and a text are never equal.
    assert_eq!(eval(Expr::OpEq(b(true), num(1))), false);
    assert_eq!(eval(Expr::OpEq(col("id"), b(true))), false);
    assert_eq!(eval(Expr::OpEq(Box::new(Expr::OpEq(col("id"), num(7))), b(true))), true);
    assert_eq!(eval(Expr::OpEq(Box::new(Expr::OpEq(col("id"), num(8))), b(true))), false);
}

#[test]
fn conditions_are_checked_before_they_are_used() {
    let tuple = slot(0, 0);
    assert!(check_qual(&None, &tuple));
    assert!(check_qual(&Some(Box::new(Expr::Bool(true))), &tuple));
    assert!(check_qual(&eq("id", 1), &tuple));
    assert!(!check_qual(&eq("name", 1), &tuple));
    assert!(!check_qual(&Some(Box::new(Expr::Number(1))), &tuple));
    assert!(!check_qual(&Some(Box::new(Expr::ColumnRef("id".to_string()))), &tuple));
    assert!(!check_qual(&Some(Box::new(Expr::All)), &tuple));
    assert!(!check_qual(
        &Some(Box::new(Expr::OpEq(Box::new(Expr::Count), Box::new(Expr::Bool(true))))),
        &tuple
    ));
}

#[test]
fn count_counts_what_the_scan_hands_on() {
    let mut bm = pool_with(&[(1, 10), (2, 20), (1, 30)]);
    let rel = relation();
    let rm = attribute_catalog();
    let qual = None;
    let scan = ScanState::new(&rel, &rm, &mut bm, &qual);
    let mut count = CountState::new(scan);
    assert!(count.exec_agg(&mut bm).is_none());
    assert_eq!(count.result, 3);
    let qual = eq("id", 1);
    let scan = ScanState::new(&rel, &rm, &mut bm, &qual);
    let mut count = CountState::new(scan);
    assert!(count.exec(&mut bm).is_none());
    assert_eq!(count.result, 2);
}

#[test]
fn delete_marks_every_tuple_of_the_scan() {
    let mut bm = pool_with(&[(1, 10), (2, 20), (1, 30)]);
    let rel = relation();
    let rm = attribute_catalog();
    let qual = None;
    let scan = ScanState::new(&rel, &rm, &mut bm, &qual);
    let mut delete = DeleteState::new(&rel, scan);
    assert!(delete.exec(&mut bm).is_none());
    assert_eq!(delete.count, 3);
    let mut scan = ScanState::new(&rel, &rm, &mut bm, &qual);
    assert_eq!(drain(&mut scan, &mut bm), vec![]);
    // Deleting again finds nothing to delete.
    let scan = ScanState::new(&rel, &rm, &mut bm, &qual);
    let mut delete = DeleteState::new(&rel, scan);
    delete.exec_delete(&mut bm);
    assert_eq!(delete.count, 0);
}

#[test]
fn insert_node_hands_on_its_slot() {
    let mut bm = pool_with(&[]);
    let rel = relation();
    let tuple = slot(4, 40);
    let mut insert = InsertState::new(&rel, &tuple);
    let handed = insert.exec_insert(&mut bm).unwrap();
    assert_eq!(handed.get_column(1).elem, 40);
    let mut insert = InsertState::new(&rel, &tuple);
    assert!(insert.exec(&mut bm).is_some());
    let rm = attribute_catalog();
    let qual = None;
    let mut scan = ScanState::new(&rel, &rm, &mut bm, &qual);
    assert_eq!(drain(&mut scan, &mut bm), vec![(4, 40, 0, 0), (4, 40, 0, 1)]);
}

#[test]
fn sort_orders_by_the_text_of_the_column() {
    let mut bm = pool_with(&[(3, 30), (1, 10), (2, 20), (4, 100), (5, 9), (6, -5), (7, 10)]);
    let rel = relation();
    let rm = attribute_catalog();
    let qual = None;
    let scan = ScanState::new(&rel, &rm, &mut bm, &qual);
    let mut sort = SortState::new(scan, "age".to_string());
    let mut seen = Vec::new();
    loop {
        match sort.exec_sort(&mut bm) {
            Some(slot) => seen.push((slot.get_column(0).elem, slot.get_column(1).elem)),
            None => break,
        }
    }
    // "-5" < "10" = "10" < "100" < "20" < "30" < "9"; the two tuples of age 10
    // stay in the order of the scan.
    assert_eq!(seen, vec![(6, -5), (1, 10), (7, 10), (4, 100), (2, 20), (3, 30), (5, 9)]);
    assert!(sort.exec_sort(&mut bm).is_none());
    assert!(sort.exec(&mut bm).is_none());
}

#[test]
fn sort_order_is_stable() {
    let keys: Vec<Vec<char>> =
        ["b", "a", "b", "", "a", "ab", "B"].iter().map(|k| k.chars().collect()).collect();
    assert_eq!(sort_order(&keys), vec![3, 6, 1, 4, 5, 0, 2]);
    assert_eq!(sort_order(&Vec::new()), Vec::<usize>::new());
}

#[test]
fn update_tuple_feeds_insert() {
    let mut bm = pool_with(&[]);
    let rel = relation();
    let mut tuple = TupleTableSlot::new(attribute_catalog().attributes_clone(10000, 10001));
    let mut b = KeyValueBuilder::new();
    b.add_pair("id", "12");
    b.add_pair("age", "34");
    tuple.update_tuple(b.build()).unwrap();
    bm.heap_insert(&rel, &tuple);
    let rm = attribute_catalog();
    let qual = None;
    let mut scan = ScanState::new(&rel, &rm, &mut bm, &qual);
    assert_eq!(drain(&mut scan, &mut bm), vec![(12, 34, 0, 0)]);
}

#[test]
fn drained_scan_holds_each_inserted_tuple_once() {
    let mut bm = pool_with(&[(1, 10), (2, 20), (3, 30), (4, 40)]);
    let qual = None;
    let rel = relation();
    let rm = attribute_catalog();
    let mut scan = ScanState::new(&rel, &rm, &mut bm, &qual);
    let slots = scan.drain(&mut bm);
    assert!(scan.ss_currentScanDesc.rs_finished);
    let seen: Vec<(i32, i32, u32, u16)> = slots
        .iter()
        .map(|s| (s.get_column(0).elem, s.get_column(1).elem, s.tid().ip_blkid, s.tid().ip_posid))
        .collect();
    assert_eq!(seen, vec![(1, 10, 0, 0), (2, 20, 0, 1), (3, 30, 0, 2), (4, 40, 0, 3)]);
    assert_eq!(slots.iter().filter(|s| s.tid().ip_posid == 1).count(), 1);
    assert_eq!(slots[1].data_ptr(), slot(2, 20).data_ptr());
    // A scan that is at its end has nothing left to hand on.
    assert!(scan.drain(&mut bm).is_empty());
}

#[test]
fn drained_scan_leaves_out_the_deleted_tuple_only() {
    let mut bm = pool_with(&[(1, 10), (2, 20), (3, 30)]);
    let rel = relation();
    let rm = attribute_catalog();
    let gone = ItemPointerData { ip_blkid: 0, ip_posid: 1 };
    bm.heap_delete(&rel, &gone);
    let qual = None;
    let mut scan = ScanState::new(&rel, &rm, &mut bm, &qual);
    let slots = scan.drain(&mut bm);
    let seen: Vec<(i32, u32, u16)> =
        slots.iter().map(|s| (s.get_column(0).elem, s.tid().ip_blkid, s.tid().ip_posid)).collect();
    assert_eq!(seen, vec![(1, 0, 0), (3, 0, 2)]);
    let some = eq("age", 30);
    let mut scan = ScanState::new(&rel, &rm, &mut bm, &some);
    let slots = scan.drain(&mut bm);
    assert_eq!(slots.len(), 1);
    assert_eq!(slots[0].tid().ip_posid, 2);
    // A scan that was pulled once hands on the rest.
    let all = None;
    let mut scan = ScanState::new(&rel, &rm, &mut bm, &all);
    assert!(scan.exec_scan(&mut bm).is_some());
    let rest = scan.drain(&mut bm);
    assert_eq!(rest.len(), 1);
    assert_eq!(rest[0].get_column(0).elem, 3);
}
