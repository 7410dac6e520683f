use minidb::catalog::mini_attribute::{MiniAttributeRecord, TypeLabel};
use minidb::config::DEFAULT_BLOCK_SIZE;
use minidb::page::{ItemIdData, Page, PageHeaderData, ITEM_ID_DATA_BYTE_SIZE,
    MAX_HEAP_TUPLE_SIZE, SIZE_OF_PAGE_HEADER_DATA};
use minidb::tuple::TupleTableSlot;
use minidb::ty::Integer;
use std::mem;

#[test]
fn test_item_id_data_lps() {
    let mut header1 = ItemIdData::new(0x00000000);
    header1.set_lp_off(256);
    header1.set_lp_flags(3);
    header1.set_lp_len(100);

    assert_eq!(header1.lp_off(), 256);
    assert_eq!(header1.lp_flags(), 3);
    assert_eq!(header1.lp_len(), 100);

    let mut header2 = ItemIdData::new(0xffffffff);
    header2.set_lp_off(256);
    header2.set_lp_flags(3);
    header2.set_lp_len(100);

    assert_eq!(header2.lp_off(), 256);
    assert_eq!(header2.lp_flags(), 3);
    assert_eq!(header2.lp_len(), 100);
}

#[test]
fn test_page_new() {
    let page = Page::new(DEFAULT_BLOCK_SIZE);

    // Check pd_lower by is_empty method.
    assert_eq!(page.is_empty(), true);
    assert_eq!(page.header().pd_upper, DEFAULT_BLOCK_SIZE);
    assert_eq!(page.entry_count(), 0);
}

#[test]
fn test_page_empty() {
    let page = Page::new(DEFAULT_BLOCK_SIZE);

    assert_eq!(page.is_empty(), true);
}

#[test]
fn test_add_vec_entry() {
    let mut page = Page::new(DEFAULT_BLOCK_SIZE);
    let entry1: Vec<u8> = vec![1, 2, 3];
    let entry2: Vec<u8> = vec![3, 2, 1, 0];
    let entry_size1 = (mem::size_of::<u8>() * 3) as u16;
    let entry_size2 = (mem::size_of::<u8>() * 4) as u16;

    page.add_vec_entry(&entry1).unwrap();
    assert_eq!(page.header().pd_lower, (SIZE_OF_PAGE_HEADER_DATA + ITEM_ID_DATA_BYTE_SIZE) as u16);
    assert_eq!(page.header().pd_upper, DEFAULT_BLOCK_SIZE - entry_size1);
    assert_eq!(page.is_empty(), false);
    assert_eq!(page.entry_count(), 1);
    assert_eq!(page.get_item_ref(0).lp_len(), 3);
    assert_eq!(page.get_entry(0).unwrap(), entry1);

    page.add_vec_entry(&entry2).unwrap();
    assert_eq!(page.header().pd_lower, (SIZE_OF_PAGE_HEADER_DATA + ITEM_ID_DATA_BYTE_SIZE * 2) as u16);
    assert_eq!(page.header().pd_upper, DEFAULT_BLOCK_SIZE - entry_size1 - entry_size2);
    assert_eq!(page.is_empty(), false);
    assert_eq!(page.entry_count(), 2);
    assert_eq!(page.get_item_ref(1).lp_len(), 4);
    assert_eq!(page.get_entry(1).unwrap(), entry2);
}

fn two_int_columns(first: u32) -> Vec<MiniAttributeRecord> {
    let mut attrs = Vec::new();
    attrs.push(MiniAttributeRecord::new("name".to_string(), first, first + 1, TypeLabel::Integer, 4));
    attrs.push(MiniAttributeRecord::new("name".to_string(), first + 2, first + 3, TypeLabel::Integer, 4));
    attrs
}

// A tuple lies in a page with its header: two masks of two bytes each in
// front of the column values.
#[test]
fn test_add_tuple_slot_entry() {
    let mut page = Page::new(DEFAULT_BLOCK_SIZE);
    let mut slot = TupleTableSlot::new(two_int_columns(10001));
    let slot_data_size = (mem::size_of::<u16>() * 2 + mem::size_of::<i32>() * 2) as u16;

    slot.set_column(0, &Integer { elem: 10 });
    slot.set_column(1, &Integer { elem: 22 });
    page.add_tuple_slot_entry(&slot).unwrap();

    assert_eq!(page.header().pd_lower, (SIZE_OF_PAGE_HEADER_DATA + ITEM_ID_DATA_BYTE_SIZE * 1) as u16);
    assert_eq!(page.header().pd_upper, DEFAULT_BLOCK_SIZE - slot_data_size);
    assert_eq!(page.is_empty(), false);
    assert_eq!(page.entry_count(), 1);
    assert_eq!(page.get_item_ref(0).lp_len(), 4 + 4 * 2);
    assert_eq!(page.get_entry(0).unwrap(), vec![0, 0, 0, 0, 10, 0, 0, 0, 22, 0, 0, 0]);
}

#[test]
fn item_id_packs_off_flags_len() {
    let item = ItemIdData::new_with_lps(8180, 0, 12);
    assert_eq!(item.raw_value(), (8180u32 << 17) | 12);
    assert_eq!(item.lp_off(), 8180);
    assert_eq!(item.lp_flags(), 0);
    assert_eq!(item.lp_len(), 12);
    let item = ItemIdData::new_with_lps(0x7fff, 3, 0x7fff);
    assert_eq!(item.raw_value(), 0xffff_ffff);
    let item = ItemIdData::new(0x0001_8000);
    assert_eq!((item.lp_off(), item.lp_flags(), item.lp_len()), (0, 3, 0));
}

#[test]
fn item_id_round_trips_on_sampled_fields() {
    let offs = [0u16, 1, 2, 255, 256, 4095, 8191, 0x7ffe, 0x7fff];
    let lens = [0u16, 1, 12, 8184, 0x7fff];
    for off in offs {
        for flags in 0u8..4 {
            for len in lens {
                let item = ItemIdData::new_with_lps(off, flags, len);
                assert_eq!((item.lp_off(), item.lp_flags(), item.lp_len()), (off, flags, len));
            }
        }
    }
}

#[test]
fn item_id_setters_drop_bits_beyond_the_field() {
    let mut item = ItemIdData::new(0);
    item.set_lp_off(0x8001);
    assert_eq!(item.lp_off(), 1);
    item.set_lp_flags(7);
    assert_eq!(item.lp_flags(), 3);
    item.set_lp_len(0x8005);
    assert_eq!(item.lp_len(), 5);
}

#[test]
fn header_reads_low_byte_first() {
    let h = PageHeaderData::from_bytes(&[0x04, 0x00, 0x00, 0x20]);
    assert_eq!(h.pd_lower, 4);
    assert_eq!(h.pd_upper, 8192);
    let h = PageHeaderData::new(8192);
    assert_eq!((h.pd_lower, h.pd_upper), (4, 8192));
    let mut h = PageHeaderData { pd_lower: 9, pd_upper: 9 };
    h.init(100);
    assert_eq!((h.pd_lower, h.pd_upper), (4, 100));
}

#[test]
fn new_page_bytes_are_header_then_zeros() {
    let page = Page::new(DEFAULT_BLOCK_SIZE);
    let bytes = page.header_pointer();
    assert_eq!(bytes.len(), 8192);
    assert_eq!(&bytes[0..4], &[4, 0, 0, 0x20]);
    assert!(bytes[4..].iter().all(|b| *b == 0));
    assert_eq!(page.page_get_free_space(), 8192 - 4 - 4);
    assert_eq!(page.page_get_max_offset_number(), 0);
    assert_eq!(MAX_HEAP_TUPLE_SIZE, 8188);
}

#[test]
fn added_entry_is_laid_out_bit_exact() {
    let mut page = Page::new(DEFAULT_BLOCK_SIZE);
    page.add_entry(&[0xaa, 0xbb, 0xcc, 0xdd, 0xee], 3).unwrap();
    let bytes = page.header_pointer().to_vec();
    // pd_lower = 8, pd_upper = 8189
    assert_eq!(&bytes[0..4], &[8, 0, 0xfd, 0x1f]);
    // the line pointer: (8189 << 17) | 3, low byte first
    assert_eq!(&bytes[4..8], &((8189u32 << 17) | 3).to_le_bytes());
    assert_eq!(&bytes[8189..8192], &[0xaa, 0xbb, 0xcc]);
    assert_eq!(page.get_entry_pointer(0).unwrap(), &[0xaa, 0xbb, 0xcc]);
    assert_eq!(page.get_item(0).lp_off(), 8189);
    assert_eq!(page.get_item(0).lp_flags(), 0);
}

#[test]
fn add_entry_changes_counts_by_exactly_one_entry() {
    let mut page = Page::new(DEFAULT_BLOCK_SIZE);
    page.add_vec_entry(&vec![7; 100]).unwrap();
    let before = page.header();
    let count = page.entry_count();
    let free = page.page_get_free_space();
    let entry: Vec<u8> = (0..50).collect();
    page.add_vec_entry(&entry).unwrap();
    let after = page.header();
    assert_eq!(page.entry_count(), count + 1);
    assert_eq!(after.pd_upper, before.pd_upper - 50);
    assert_eq!(after.pd_lower, before.pd_lower + 4);
    assert_eq!(page.page_get_free_space(), free - 50 - 4);
    assert_eq!(page.get_entry(count).unwrap(), entry);
    assert_eq!(page.get_entry(0).unwrap(), vec![7; 100]);
    assert_eq!(
        page.page_get_max_offset_number() as usize,
        (after.pd_lower as usize - SIZE_OF_PAGE_HEADER_DATA) / ITEM_ID_DATA_BYTE_SIZE
    );
    assert!(4 <= after.pd_lower && after.pd_lower <= after.pd_upper && after.pd_upper <= 8192);
}

#[test]
fn entry_of_exactly_the_free_space_fits() {
    let mut page = Page::new(DEFAULT_BLOCK_SIZE);
    page.add_vec_entry(&vec![1; 10]).unwrap();
    let free = page.page_get_free_space();
    assert_eq!(free, 8192 - 4 - 4 - 10 - 4);
    page.add_vec_entry(&vec![2; free]).unwrap();
    assert_eq!(page.page_get_free_space(), 0);
    assert_eq!(page.header().pd_lower, page.header().pd_upper);
    assert_eq!(page.get_entry(1).unwrap(), vec![2; free]);
}

#[test]
fn entry_of_one_byte_more_than_the_free_space_is_refused() {
    let mut page = Page::new(DEFAULT_BLOCK_SIZE);
    page.add_vec_entry(&vec![1; 10]).unwrap();
    let before = page.header_pointer().to_vec();
    let free = page.page_get_free_space();
    let e = page.add_vec_entry(&vec![2; free + 1]).err().unwrap();
    assert_eq!(e, format!("Does not have enough space for {}", free + 1));
    assert_eq!(page.header_pointer(), &before[..]);
    assert_eq!(page.has_space(free as u16), true);
    assert_eq!(page.has_space(free as u16 + 1), false);
}

#[test]
fn empty_entry_needs_room_for_its_line_pointer() {
    let mut page = Page::new(DEFAULT_BLOCK_SIZE);
    page.add_vec_entry(&vec![2; 8184 - 2]).unwrap();
    // Two bytes are left between the line pointers and the entries.
    assert_eq!(page.page_get_free_space(), 0);
    assert!(page.add_vec_entry(&Vec::new()).is_err());
    assert_eq!(page.entry_count(), 1);
}

#[test]
fn entry_too_long_for_its_length_field_is_refused() {
    let mut page = Page::new(DEFAULT_BLOCK_SIZE);
    let e = page.add_vec_entry(&vec![0; 70000]).err().unwrap();
    assert_eq!(e, "Does not have enough space for 70000");
}

#[test]
fn slots_beyond_the_count_are_errors() {
    let mut page = Page::new(DEFAULT_BLOCK_SIZE);
    assert_eq!(page.get_entry(0).err().unwrap(), "Index over entry_count. index: 0, entry_count: 0");
    page.add_vec_entry(&vec![1, 2]).unwrap();
    assert_eq!(
        page.get_entry_pointer(5).err().unwrap(),
        "Index over entry_count. index: 5, entry_count: 1"
    );
    assert!(page.get_entry_pointer(0).is_ok());
}

#[test]
fn put_entry_overwrites_in_place() {
    let mut page = Page::new(DEFAULT_BLOCK_SIZE);
    page.add_vec_entry(&vec![1, 2, 3]).unwrap();
    page.add_vec_entry(&vec![4, 5]).unwrap();
    page.add_vec_entry(&vec![6]).unwrap();
    let header = page.header();
    page.put_entry(1, &[9, 8]);
    assert_eq!(page.get_entry(0).unwrap(), vec![1, 2, 3]);
    assert_eq!(page.get_entry(1).unwrap(), vec![9, 8]);
    assert_eq!(page.get_entry(2).unwrap(), vec![6]);
    assert_eq!(page.header().pd_lower, header.pd_lower);
    assert_eq!(page.header().pd_upper, header.pd_upper);
}

#[test]
fn page_init_empties_a_page() {
    let mut page = Page::new(DEFAULT_BLOCK_SIZE);
    page.add_vec_entry(&vec![1, 2, 3]).unwrap();
    page.page_init(DEFAULT_BLOCK_SIZE);
    assert!(page.is_empty());
    assert_eq!(page.header().pd_upper, 8192);
    assert_eq!(page.page_get_free_space(), 8184);
}

#[test]
fn from_bytes_takes_only_well_formed_pages() {
    let mut page = Page::new(DEFAULT_BLOCK_SIZE);
    page.add_vec_entry(&vec![1, 2, 3]).unwrap();
    page.add_vec_entry(&vec![4, 5]).unwrap();
    let bytes = page.header_pointer().to_vec();
    let again = Page::from_bytes(bytes.clone()).unwrap();
    assert_eq!(again.entry_count(), 2);
    assert_eq!(again.get_entry(1).unwrap(), vec![4, 5]);

    assert!(Page::from_bytes(vec![0; 8192]).is_none());
    assert!(Page::from_bytes(vec![4, 0]).is_none());
    let mut bad = bytes.clone();
    bad[0] = 6; // pd_lower between two line pointers
    assert!(Page::from_bytes(bad).is_none());
    let mut bad = bytes.clone();
    bad[2] = 0; // pd_upper no longer at the start of the newest entry
    assert!(Page::from_bytes(bad).is_none());
    let mut bad = bytes.clone();
    bad[4] = 4; // length of the first entry
    assert!(Page::from_bytes(bad).is_none());
}

#[test]
fn block_of_zeros_stands_for_an_empty_page() {
    assert!(minidb::page::check_block(&vec![0; 8192]));
    assert!(!minidb::page::check_block(&vec![0; 8191]));
    let page = Page::from_block(vec![0; 8192]);
    assert!(page.is_empty());
    assert_eq!(page.header().pd_upper, 8192);
    let mut full = Page::new(DEFAULT_BLOCK_SIZE);
    full.add_vec_entry(&vec![1]).unwrap();
    let again = Page::from_block(full.header_pointer().to_vec());
    assert_eq!(again.entry_count(), 1);
}
