use minidb::buffer_manager::{unwrap_buffer_id, Buffer, BufferManager, RelFileNode};
use minidb::catalog::mini_attribute::{MiniAttributeRecord, TypeLabel};
use minidb::config::{Config, DEFAULT_BLOCK_SIZE, N_BUFFERS};
use minidb::oid_manager::{create_oid_file, oid_to_string, OidManager};
use minidb::fs_action::FsAction;
use minidb::page::Page;
use minidb::storage_manager::{check_file, RelationData, RelationManager, SMgrRelationData,
    StorageManager, MAX_BLOCKS};
use minidb::tuple::{ItemPointerData, TupleTableSlot};
use minidb::ty::Integer;

fn rnode() -> RelFileNode {
    RelFileNode { table_oid: 10001, db_oid: 10000 }
}

fn relation() -> RelationData {
    RelationData { rd_node: RelFileNode { table_oid: 10001, db_oid: 0 }, smgr_rnode: rnode() }
}

fn config() -> Config {
    Config::new("/mydb".to_string())
}

fn slot(id: i32, age: i32) -> TupleTableSlot {
    let attrs = vec![
        MiniAttributeRecord::new("id".to_string(), 10000, 10001, TypeLabel::Integer, 4),
        MiniAttributeRecord::new("age".to_string(), 10000, 10001, TypeLabel::Integer, 4),
    ];
    let mut slot = TupleTableSlot::new(attrs);
    slot.set_column(0, &Integer { elem: id });
    slot.set_column(1, &Integer { elem: age });
    slot
}

fn wide_slot(bytes: usize) -> TupleTableSlot {
    let attrs = vec![MiniAttributeRecord::new("blob".to_string(), 10000, 10001, TypeLabel::Integer, bytes - 4)];
    let mut slot = TupleTableSlot::new(attrs);
    slot.set_column(0, &Integer { elem: 7 });
    slot
}

fn page_of(file: &[u8], block: usize) -> Page {
    Page::from_block(file[block * 8192..(block + 1) * 8192].to_vec())
}

#[test]
fn oid_manager_counts_up() {
    let mut m = OidManager::new("10000").unwrap();
    assert_eq!(m.get_new_oid(), 10000);
    assert_eq!(m.get_new_oid(), 10001);
    assert_eq!(m.counter_text(), "10002");
    assert_eq!(oid_to_string(10001), "10001");
    assert_eq!(oid_to_string(0), "0");
    assert_eq!(oid_to_string(u32::MAX), "4294967295");
    assert!(OidManager::new("10000\nrest is ignored\n").is_some());
    assert!(OidManager::new("").is_none());
    assert!(OidManager::new("ten\n").is_none());
    assert!(OidManager::new(" 10000").is_none());
    assert!(OidManager::new("4294967296").is_none());
    let last = OidManager::starting_at(u32::MAX);
    assert!(!last.has_next());
    match m.save(&config()) {
        FsAction::WriteFile { path, content } => {
            assert_eq!(path, "/mydb/global/oid");
            assert_eq!(content, b"10002");
        }
        _ => panic!("saving the counter writes its file"),
    }
    match create_oid_file(&config()) {
        FsAction::WriteFile { path, content } => {
            assert_eq!(path, "/mydb/global/oid");
            assert_eq!(content, b"10000");
        }
        _ => panic!("the counter file is written"),
    }
}

#[test]
fn relation_manager_keeps_one_relation_for_each_file_node() {
    let mut rm = RelationManager::new(config());
    let r = rm.get_relation(10000, 10001);
    assert_eq!(r.smgr_rnode, RelFileNode { table_oid: 10001, db_oid: 10000 });
    assert_eq!(r.rd_node, RelFileNode { table_oid: 10001, db_oid: 0 });
    let again = rm.get_relation(10000, 10001);
    assert_eq!(again, r);
    // The same table under another database is another relation.
    let elsewhere = rm.get_relation(10005, 10001);
    assert_eq!(elsewhere.smgr_rnode, RelFileNode { table_oid: 10001, db_oid: 10005 });
    assert_eq!(elsewhere.rd_node, RelFileNode { table_oid: 10001, db_oid: 0 });
    assert_ne!(elsewhere, r);
    let other = rm.get_relation(10005, 10002);
    assert_eq!(other.smgr_rnode, RelFileNode { table_oid: 10002, db_oid: 10005 });
    // What was kept first stays.
    assert_eq!(rm.get_relation(10000, 10001), r);
    assert_eq!(rm.get_relation(1, 0), RelationData {
        rd_node: RelFileNode { table_oid: 0, db_oid: 0 },
        smgr_rnode: RelFileNode { table_oid: 0, db_oid: 1 },
    });
    assert_eq!(rm.get_relation(0, 1).smgr_rnode, RelFileNode { table_oid: 1, db_oid: 0 });
}

#[test]
fn block_file_reads_and_writes_whole_blocks() {
    let mut rel = SMgrRelationData::new(rnode());
    assert_eq!(rel.mdnblocks(), 0);
    assert!(rel.is_open());
    assert_eq!(rel.mdread(0), None);
    let page = Page::new(DEFAULT_BLOCK_SIZE);
    rel.mdextend(0, page.header_pointer());
    assert_eq!(rel.mdnblocks(), 1);
    assert_eq!(rel.image().len(), 8192);
    assert_eq!(rel.mdread(0).unwrap(), page.header_pointer());
    assert_eq!(rel.mdread(1), None);

    let mut filled = Page::new(DEFAULT_BLOCK_SIZE);
    filled.add_vec_entry(&vec![1, 2, 3]).unwrap();
    rel.mdwrite(2, filled.header_pointer());
    assert_eq!(rel.mdnblocks(), 3);
    assert_eq!(rel.image().len() % 8192, 0);
    assert_eq!(rel.mdread(1).unwrap(), vec![0u8; 8192]);
    assert_eq!(rel.mdread(2).unwrap(), filled.header_pointer());
    assert_eq!(rel.mdread(0).unwrap(), page.header_pointer());
    rel.mdwrite(0, filled.header_pointer());
    assert_eq!(rel.mdnblocks(), 3);
    assert_eq!(rel.mdread(0).unwrap(), filled.header_pointer());
    assert_eq!(rel.smgr_rnode(), rnode());
    assert_eq!(rel.smgr_targblock(), 0xffff_ffff);
    rel.set_smgr_targblock(2);
    assert_eq!(rel.smgr_targblock(), 2);
}

#[test]
fn extend_puts_any_block_behind_the_file() {
    let mut rel = SMgrRelationData::new(rnode());
    let first: Vec<u8> = (0..8192).map(|i| (i % 251) as u8).collect();
    let second = vec![0xabu8; 8192];
    rel.mdextend(0, &first);
    assert_eq!(rel.image().len(), 8192);
    assert_eq!(rel.mdnblocks(), 1);
    rel.mdextend(1, &second);
    assert_eq!(rel.image().len(), 16384);
    assert_eq!(rel.image().len() % 8192, 0);
    assert_eq!(rel.mdnblocks(), 2);
    assert_eq!(&rel.image()[..8192], &first[..]);
    assert_eq!(&rel.image()[8192..], &second[..]);
    assert_eq!(rel.mdread(0).unwrap(), first);
    assert_eq!(rel.mdread(1).unwrap(), second);
    assert_eq!(rel.mdread(2), None);
}

#[test]
fn heap_file_must_be_whole_well_formed_blocks() {
    assert!(check_file(&[]));
    assert!(check_file(&vec![0u8; 8192]));
    assert!(!check_file(&vec![0u8; 8191]));
    assert!(!check_file(&vec![0u8; 100]));
    let page = Page::new(DEFAULT_BLOCK_SIZE);
    let mut two = page.header_pointer().to_vec();
    two.extend_from_slice(page.header_pointer());
    assert!(check_file(&two));
    two[8192] = 5; // pd_lower of the second block
    assert!(!check_file(&two));
    assert!(SMgrRelationData::with_image(rnode(), vec![1u8; 8192]).is_none());
    assert!(SMgrRelationData::with_image(rnode(), vec![0u8; 16384]).is_some());
    assert_eq!(MAX_BLOCKS, 0x7ffff);
    assert_eq!(N_BUFFERS, 10);
}

#[test]
fn storage_manager_keeps_relations_apart() {
    let mut smgr = StorageManager::new(config());
    let a = RelFileNode { table_oid: 1, db_oid: 9 };
    let b = RelFileNode { table_oid: 2, db_oid: 9 };
    assert!(smgr.mount(&a, vec![0u8; 8192]));
    assert!(!smgr.mount(&a, Vec::new()));
    assert!(!smgr.mount(&b, vec![0u8; 5]));
    assert_eq!(smgr.mdnblocks(&a), 1);
    assert_eq!(smgr.mdnblocks(&b), 0);
    assert_eq!(smgr.smgropen(&a), 0);
    assert_eq!(smgr.smgropen(&b), 1);
    let page = Page::new(DEFAULT_BLOCK_SIZE);
    smgr.mdextend(&b, 0, page.header_pointer());
    assert_eq!(smgr.mdnblocks(&b), 1);
    assert_eq!(smgr.mdnblocks(&a), 1);
    assert_eq!(smgr.mdread(&a, 0).unwrap(), vec![0u8; 8192]);
    assert_eq!(smgr.mdread(&b, 0).unwrap(), page.header_pointer());
    smgr.mdwrite(&a, 0, page.header_pointer());
    assert_eq!(smgr.file_of(&a).unwrap(), page.header_pointer());
    assert_eq!(smgr.image_of(&b), page.header_pointer());
    assert_eq!(smgr.targblock(&a), 0xffff_ffff);
    smgr.set_targblock(&a, 0);
    assert_eq!(smgr.targblock(&a), 0);
    assert_eq!(smgr.targblock(&b), 0xffff_ffff);
    let c = RelFileNode { table_oid: 3, db_oid: 9 };
    assert_eq!(smgr.file_of(&c), None);
    assert_eq!(smgr.image_of(&c), Vec::<u8>::new());
    assert_eq!(smgr.relation_smgropen(&relation()), 3);
}

#[test]
fn read_buffer_gives_one_buffer_per_block() {
    let mut bm = BufferManager::new(1, config());
    assert!(bm.mount(&rnode(), Vec::new()));
    let rel = relation();
    let b0 = bm.read_buffer(&rel, 0);
    assert_eq!(b0, Buffer::Buffer(0));
    assert_eq!(bm.read_buffer(&rel, 0), b0);
    assert_eq!(unwrap_buffer_id(b0), 0);
    assert!(bm.get_page(b0).is_empty());
    assert_eq!(bm.get_page_free_space(b0), 8184);
    assert_eq!(bm.buffer_get_block_number(b0), 0);
    assert_eq!(bm.relation_get_number_of_blocks(&rel), 0);
}

#[test]
fn heap_insert_fills_the_first_block_and_flushes_it() {
    let mut bm = BufferManager::new(1, config());
    assert!(bm.mount(&rnode(), Vec::new()));
    let rel = relation();
    bm.heap_insert(&rel, &slot(1, 10));
    bm.heap_insert(&rel, &slot(2, 20));
    let b = bm.read_buffer(&rel, 0);
    let page = bm.get_page(b);
    assert_eq!(page.entry_count(), 2);
    assert_eq!(page.get_entry(0).unwrap(), vec![0, 0, 0, 0, 1, 0, 0, 0, 10, 0, 0, 0]);
    assert_eq!(page.get_entry(1).unwrap(), vec![0, 0, 0, 0, 2, 0, 0, 0, 20, 0, 0, 0]);
    assert_eq!(page.get_item(1).lp_off(), 8192 - 24);
    assert_eq!(bm.relation_get_number_of_blocks(&rel), 0);
    bm.flush_buffers();
    assert_eq!(bm.relation_get_number_of_blocks(&rel), 1);
    let mut smgr = bm.finish();
    let file = smgr.image_of(&rnode());
    assert_eq!(file.len(), 8192);
    assert_eq!(page_of(&file, 0).get_entry(1).unwrap(), vec![0, 0, 0, 0, 2, 0, 0, 0, 20, 0, 0, 0]);
}

#[test]
fn flush_buffer_writes_the_one_page_to_its_file() {
    let other = RelFileNode { table_oid: 10002, db_oid: 10000 };
    let other_rel = RelationData { rd_node: RelFileNode { table_oid: 10002, db_oid: 0 }, smgr_rnode: other };
    let mut bm = BufferManager::new(1, config());
    assert!(bm.mount(&rnode(), Vec::new()));
    assert!(bm.mount(&other, Vec::new()));
    let rel = relation();
    bm.heap_insert(&rel, &slot(1, 10));
    bm.heap_insert(&other_rel, &slot(2, 20));
    let b = bm.read_buffer(&rel, 0);
    let held = bm.get_page(b).header_pointer().to_vec();
    assert_eq!(bm.relation_get_number_of_blocks(&rel), 0);
    bm.flush_buffer(b);
    assert_eq!(bm.relation_get_number_of_blocks(&rel), 1);
    assert_eq!(bm.relation_get_number_of_blocks(&other_rel), 0);
    assert_eq!(bm.read_buffer(&rel, 0), b);
    assert_eq!(bm.get_page(b).header_pointer(), &held[..]);
    assert_eq!(bm.get_page(b).get_entry(0).unwrap(), vec![0, 0, 0, 0, 1, 0, 0, 0, 10, 0, 0, 0]);
    // A second write of the same page leaves the file as it is.
    bm.flush_buffer(b);
    assert_eq!(bm.relation_get_number_of_blocks(&rel), 1);
    let mut smgr = bm.finish();
    let file = smgr.image_of(&rnode());
    assert_eq!(file.len(), 8192);
    assert_eq!(page_of(&file, 0).get_entry(0).unwrap(), vec![0, 0, 0, 0, 1, 0, 0, 0, 10, 0, 0, 0]);
}

#[test]
fn tuple_that_does_not_fit_goes_to_a_new_block() {
    let mut bm = BufferManager::new(1, config());
    assert!(bm.mount(&rnode(), Vec::new()));
    let rel = relation();
    // 8184 bytes are free in an empty page; 4000 + 4 go to each tuple.
    bm.heap_insert(&rel, &wide_slot(4000));
    bm.heap_insert(&rel, &wide_slot(4000));
    let b0 = bm.read_buffer(&rel, 0);
    let before = bm.get_page(b0).header_pointer().to_vec();
    assert_eq!(bm.get_page(b0).entry_count(), 2);
    let free = bm.get_page_free_space(b0);
    assert_eq!(free, 8184 - 2 * 4004);
    bm.heap_insert(&rel, &wide_slot(free + 1));
    assert_eq!(bm.relation_get_number_of_blocks(&rel), 2);
    let b0 = bm.read_buffer(&rel, 0);
    assert_eq!(bm.get_page(b0).header_pointer(), &before[..]);
    let b1 = bm.read_buffer(&rel, 1);
    assert_eq!(bm.get_page(b1).entry_count(), 1);
    assert_eq!(bm.get_page(b1).get_item(0).lp_len() as usize, free + 1);
    // Inserts go on in the new block, though the first has room again.
    bm.heap_insert(&rel, &slot(1, 1));
    let b1 = bm.read_buffer(&rel, 1);
    assert_eq!(bm.get_page(b1).entry_count(), 2);
    let mut smgr = bm.finish();
    let file = smgr.image_of(&rnode());
    assert_eq!(file.len(), 16384);
    assert_eq!(page_of(&file, 0).entry_count(), 2);
    assert_eq!(page_of(&file, 1).entry_count(), 2);
}

#[test]
fn tuple_of_exactly_the_free_space_stays_in_the_block() {
    let mut bm = BufferManager::new(1, config());
    assert!(bm.mount(&rnode(), Vec::new()));
    let rel = relation();
    bm.heap_insert(&rel, &wide_slot(4000));
    let b0 = bm.read_buffer(&rel, 0);
    let free = bm.get_page_free_space(b0);
    bm.heap_insert(&rel, &wide_slot(free));
    let b0 = bm.read_buffer(&rel, 0);
    assert_eq!(bm.get_page(b0).entry_count(), 2);
    assert_eq!(bm.get_page_free_space(b0), 0);
    assert_eq!(bm.relation_get_number_of_blocks(&rel), 0);
}

#[test]
fn inserts_into_a_mounted_file_go_to_its_last_block() {
    let mut first = BufferManager::new(1, config());
    assert!(first.mount(&rnode(), Vec::new()));
    let rel = relation();
    first.heap_insert(&rel, &wide_slot(8000));
    first.heap_insert(&rel, &wide_slot(8000));
    let file = first.finish().image_of(&rnode());
    assert_eq!(file.len(), 16384);

    let mut second = BufferManager::new(1, config());
    assert!(second.mount(&rnode(), file));
    second.heap_insert(&rel, &slot(3, 30));
    let b1 = second.read_buffer(&rel, 1);
    assert_eq!(second.get_page(b1).entry_count(), 2);
    let b0 = second.read_buffer(&rel, 0);
    assert_eq!(second.get_page(b0).entry_count(), 1);
    let file = second.finish().image_of(&rnode());
    assert_eq!(file.len(), 16384);
    assert_eq!(page_of(&file, 1).get_entry(1).unwrap(), vec![0, 0, 0, 0, 3, 0, 0, 0, 30, 0, 0, 0]);
}

#[test]
fn heap_delete_sets_the_mark_in_place() {
    let mut bm = BufferManager::new(1, config());
    assert!(bm.mount(&rnode(), Vec::new()));
    let rel = relation();
    bm.heap_insert(&rel, &slot(1, 10));
    bm.heap_insert(&rel, &slot(2, 20));
    let b = bm.read_buffer(&rel, 0);
    let item_before = bm.get_page(b).get_item(0).raw_value();
    let header_before = bm.get_page(b).header();
    bm.heap_delete(&rel, &ItemPointerData { ip_blkid: 0, ip_posid: 0 });
    let page = bm.get_page(b);
    assert_eq!(page.page_get_max_offset_number(), 2);
    assert_eq!(page.get_item(0).raw_value(), item_before);
    assert_eq!(page.header().pd_lower, header_before.pd_lower);
    assert_eq!(page.header().pd_upper, header_before.pd_upper);
    assert_eq!(page.get_entry(0).unwrap(), vec![0, 0x20, 0, 0, 1, 0, 0, 0, 10, 0, 0, 0]);
    assert_eq!(page.get_entry(1).unwrap(), vec![0, 0, 0, 0, 2, 0, 0, 0, 20, 0, 0, 0]);
}

#[test]
fn mount_refuses_what_is_no_heap_file() {
    let mut bm = BufferManager::new(1, config());
    assert!(!bm.mount(&rnode(), vec![0u8; 10]));
    assert!(bm.mount(&rnode(), vec![0u8; 8192]));
    assert!(!bm.mount(&rnode(), Vec::new()));
    let rel = relation();
    // A block of zeros stands for an empty page.
    let b = bm.read_buffer(&rel, 0);
    assert!(bm.get_page(b).is_empty());
    bm.heap_insert(&rel, &slot(5, 50));
    let file = bm.finish().image_of(&rnode());
    assert_eq!(file.len(), 8192);
    assert_eq!(page_of(&file, 0).entry_count(), 1);
}

#[test]
fn pool_page_can_be_changed_in_place() {
    let mut bm = BufferManager::new(1, config());
    assert!(bm.mount(&rnode(), Vec::new()));
    let rel = relation();
    let b = bm.read_buffer(&rel, 0);
    bm.get_page_mut(b).add_vec_entry(&vec![9, 9, 9, 9]).unwrap();
    assert_eq!(bm.read_buffer(&rel, 0), b);
    assert_eq!(bm.get_page(b).get_entry(0).unwrap(), vec![9, 9, 9, 9]);
    let file = bm.finish().image_of(&rnode());
    assert_eq!(page_of(&file, 0).get_entry(0).unwrap(), vec![9, 9, 9, 9]);
}

#[test]
fn page_says_what_it_holds() {
    let mut page = Page::new(DEFAULT_BLOCK_SIZE);
    page.add_vec_entry(&vec![1, 2, 3]).unwrap();
    assert_eq!(
        page.info(),
        "entry_count: 1.\npd_lower: 8.\npd_upper: 8189.\nSIZE_OF_PAGE_HEADER_DATA: 4.\nITEM_ID_DATA_BYTE_SIZE: 4."
    );
}
