use minidb::buffer_manager::InvalidBlockNumber;
use minidb::catalog::mini_attribute::{MiniAttributeRecord, TypeLabel};
use minidb::off::InvalidOffsetNumber;
use minidb::tuple::{attrs_fit, item_pointer_get_block_number, item_pointer_set,
    item_pointer_set_invalid, HeapTupleData, ItemPointerData, KeyValueBuilder, TupleDesc,
    TupleTableSlot};
use minidb::ty::{build_type_value, load_type_value, Integer, TypeValue};

fn columns(names: &[&str]) -> Vec<MiniAttributeRecord> {
    names
        .iter()
        .map(|n| MiniAttributeRecord::new(n.to_string(), 10000, 10001, TypeLabel::Integer, 4))
        .collect()
}

#[test]
fn test_tuple_table_slot() {
    let mut attrs = Vec::new();
    attrs.push(MiniAttributeRecord::new("name".to_string(), 10001, 10002, TypeLabel::Integer, 4));
    attrs.push(MiniAttributeRecord::new("name".to_string(), 10003, 10004, TypeLabel::Integer, 4));
    let slot = TupleTableSlot::new(attrs);

    assert_eq!(slot.attrs_count(), 2);
    assert_eq!(slot.attr_ptr(0), slot.heap_tuple.t_data.data_ptr());
    assert_eq!(slot.attr_ptr(1), &slot.heap_tuple.t_data.data_ptr()[4..]);
}

#[test]
fn test_tuple_table_slot_get_set_column() {
    let mut attrs = Vec::new();
    attrs.push(MiniAttributeRecord::new("name".to_string(), 20001, 20002, TypeLabel::Integer, 4));
    attrs.push(MiniAttributeRecord::new("name".to_string(), 20003, 20004, TypeLabel::Integer, 4));
    let mut slot = TupleTableSlot::new(attrs);

    slot.set_column(0, &Integer { elem: 10 });
    slot.set_column(1, &Integer { elem: 22 });

    assert_eq!(slot.get_column(0).as_string(), "10".to_string());
    assert_eq!(slot.get_column(1).as_string(), "22".to_string());
}

#[test]
fn integer_lies_low_byte_first() {
    let v = Integer { elem: 0x0102_0304 };
    let mut out = vec![0xff];
    v.write_bytes(&mut out);
    assert_eq!(out, vec![0xff, 4, 3, 2, 1]);
    assert_eq!(v.as_pointer(), vec![4, 3, 2, 1]);
    assert_eq!(v.len(), 4);
    assert_eq!(Integer { elem: -1 }.as_pointer(), vec![0xff, 0xff, 0xff, 0xff]);
    assert_eq!(Integer { elem: -2 }.as_pointer(), vec![0xfe, 0xff, 0xff, 0xff]);
    assert_eq!(Integer { elem: i32::MIN }.as_pointer(), vec![0, 0, 0, 0x80]);
}

#[test]
fn load_type_value_reads_low_byte_first() {
    assert_eq!(load_type_value(&TypeLabel::Integer, &[4, 3, 2, 1]).elem, 0x0102_0304);
    assert_eq!(load_type_value(&TypeLabel::Integer, &[4, 3, 2, 1, 9, 9]).elem, 0x0102_0304);
    assert_eq!(load_type_value(&TypeLabel::Integer, &[0xff, 0xff, 0xff, 0xff]).elem, -1);
    assert_eq!(load_type_value(&TypeLabel::Integer, &[0, 0, 0, 0x80]).elem, i32::MIN);
    assert_eq!(load_type_value(&TypeLabel::Integer, &[0xff, 0xff, 0xff, 0x7f]).elem, i32::MAX);
}

#[test]
fn integer_reads_as_canonical_decimal() {
    assert_eq!(Integer { elem: 0 }.as_string(), "0");
    assert_eq!(Integer { elem: 7 }.as_string(), "7");
    assert_eq!(Integer { elem: -7 }.as_string(), "-7");
    assert_eq!(Integer { elem: 1234567890 }.as_string(), "1234567890");
    assert_eq!(Integer { elem: i32::MAX }.as_string(), "2147483647");
    assert_eq!(Integer { elem: i32::MIN }.as_string(), "-2147483648");
}

#[test]
fn build_type_value_reads_signed_decimal() {
    let t = TypeLabel::Integer;
    assert_eq!(build_type_value(&t, "10"), Some(Integer { elem: 10 }));
    assert_eq!(build_type_value(&t, "-10"), Some(Integer { elem: -10 }));
    assert_eq!(build_type_value(&t, "+10"), Some(Integer { elem: 10 }));
    assert_eq!(build_type_value(&t, "007"), Some(Integer { elem: 7 }));
    assert_eq!(build_type_value(&t, "-0"), Some(Integer { elem: 0 }));
    assert_eq!(build_type_value(&t, "2147483647"), Some(Integer { elem: i32::MAX }));
    assert_eq!(build_type_value(&t, "-2147483648"), Some(Integer { elem: i32::MIN }));
    assert_eq!(build_type_value(&t, "2147483648"), None);
    assert_eq!(build_type_value(&t, "-2147483649"), None);
    assert_eq!(build_type_value(&t, "99999999999999999999"), None);
    assert_eq!(build_type_value(&t, ""), None);
    assert_eq!(build_type_value(&t, "-"), None);
    assert_eq!(build_type_value(&t, "+"), None);
    assert_eq!(build_type_value(&t, "1 "), None);
    assert_eq!(build_type_value(&t, " 1"), None);
    assert_eq!(build_type_value(&t, "a"), None);
    assert_eq!(build_type_value(&t, "1a"), None);
    assert_eq!(build_type_value(&t, "--1"), None);
}

#[test]
fn slot_is_header_and_columns() {
    let slot = TupleTableSlot::new(columns(&["id", "age"]));
    assert_eq!(slot.len(), 12);
    assert_eq!(slot.attrs_total_len(), 8);
    assert_eq!(slot.data_ptr(), &[0u8; 12]);
    assert_eq!(slot.tid().ip_blkid, 0);
    assert_eq!(slot.tid().ip_posid, 0);
    assert_eq!(slot.check_index(1), true);
    assert_eq!(slot.check_index(2), false);
    assert_eq!(slot.get_index_from_name("age"), 1);
    assert_eq!(slot.get_index_from_name("id"), 0);
    assert!(slot.has_column("age"));
    assert!(slot.has_column("id"));
    assert!(!slot.has_column("none"));
    assert!(!slot.has_column(""));
}

#[test]
fn first_column_of_a_name_is_found() {
    let slot = TupleTableSlot::new(columns(&["a", "b", "a", "b"]));
    assert_eq!(slot.get_index_from_name("a"), 0);
    assert_eq!(slot.get_index_from_name("b"), 1);
    assert!(!slot.has_column("c"));
    assert!(!TupleTableSlot::new(columns(&[])).has_column("a"));
}

#[test]
fn set_column_writes_its_window_only() {
    let mut slot = TupleTableSlot::new(columns(&["a", "b", "c"]));
    slot.set_column(1, &Integer { elem: -2 });
    assert_eq!(slot.data_ptr(), &[0, 0, 0, 0, 0, 0, 0, 0, 0xfe, 0xff, 0xff, 0xff, 0, 0, 0, 0]);
    assert_eq!(slot.get_column(0).elem, 0);
    assert_eq!(slot.get_column(1).elem, -2);
    assert_eq!(slot.get_column(2).elem, 0);
}

#[test]
fn update_tuple_sets_every_column() {
    let mut slot = TupleTableSlot::new(columns(&["id", "age"]));
    let mut b = KeyValueBuilder::new();
    b.add_pair("id", "1");
    b.add_pair("age", "-10");
    assert_eq!(slot.update_tuple(b.build()), Ok(()));
    assert_eq!(slot.get_column(0).elem, 1);
    assert_eq!(slot.get_column(1).elem, -10);
    assert_eq!(slot.data_ptr(), &[0, 0, 0, 0, 1, 0, 0, 0, 0xf6, 0xff, 0xff, 0xff]);
}

#[test]
fn update_tuple_refuses_and_leaves_the_tuple() {
    let mut slot = TupleTableSlot::new(columns(&["id", "age"]));
    slot.set_column(0, &Integer { elem: 5 });

    let mut b = KeyValueBuilder::new();
    b.add_pair("id", "1");
    assert_eq!(
        slot.update_tuple(b.build()),
        Err("Length not match. attrs: 2, key_values: 1".to_string())
    );

    let mut b = KeyValueBuilder::new();
    b.add_pair("id", "1");
    b.add_pair("name", "2");
    assert_eq!(
        slot.update_tuple(b.build()),
        Err("Name not match. attrs: age, key_values: name".to_string())
    );

    let mut b = KeyValueBuilder::new();
    b.add_pair("age", "1");
    b.add_pair("id", "x");
    assert_eq!(
        slot.update_tuple(b.build()),
        Err("Name not match. attrs: id, key_values: age".to_string())
    );

    let mut b = KeyValueBuilder::new();
    b.add_pair("id", "1");
    b.add_pair("age", "ten");
    assert_eq!(
        slot.update_tuple(b.build()),
        Err("Value not match. attrs: age, value: ten".to_string())
    );
    assert_eq!(slot.get_column(0).elem, 5);
    assert_eq!(slot.get_column(1).elem, 0);
}

#[test]
fn item_pointers() {
    let mut p = ItemPointerData::new();
    assert_eq!((p.ip_blkid, p.ip_posid), (0, 0));
    item_pointer_set(&mut p, 7, 3);
    assert_eq!(item_pointer_get_block_number(&p), 7);
    assert_eq!(p.item_pointer_get_offset_number(), 3);
    item_pointer_set_invalid(&mut p);
    assert_eq!(p.ip_blkid, InvalidBlockNumber);
    assert_eq!(p.ip_posid, InvalidOffsetNumber);
    assert_eq!(InvalidBlockNumber, 0xffff_ffff);
}

#[test]
fn heap_tuple_marks() {
    let mut t = HeapTupleData::new(8);
    assert_eq!(t.t_len, 12);
    assert_eq!(t.t_data.heap_keys_updated_p(), false);
    t.t_data.set_t_infomask2(0x0102);
    t.t_data.set_heap_keys_updated();
    assert_eq!(t.t_data.heap_keys_updated_p(), true);
    assert_eq!(t.t_data.t_infomask2(), 0x2102);
    assert_eq!(&t.data_ptr()[0..4], &[0x02, 0x21, 0, 0]);
    assert_eq!(t.get_item_offset_number(), 0);

    let mut u = HeapTupleData::new_with_full_len(12);
    u.load_without_len(t.data_ptr(), ItemPointerData { ip_blkid: 2, ip_posid: 9 });
    assert_eq!(u.data_ptr(), t.data_ptr());
    assert_eq!(u.get_item_offset_number(), 9);
    let mut dest = vec![0xee; 14];
    u.write_data(&mut dest);
    assert_eq!(&dest[0..12], t.data_ptr());
    assert_eq!(&dest[12..], &[0xee, 0xee]);
    u.load(&[1, 2, 3], 2, ItemPointerData::new());
    assert_eq!(&u.data_ptr()[0..3], &[1, 2, 0]);
}

#[test]
fn descriptor_sums_column_lengths() {
    let desc = TupleDesc::new(columns(&["a", "b", "c"]));
    assert_eq!(desc.attrs_count(), 3);
    assert_eq!(desc.attrs_total_len(), 12);
    assert_eq!(desc.attrs_len(0), 0);
    assert_eq!(desc.attrs_len(2), 8);
    assert!(attrs_fit(&columns(&["a"])));
    let short = vec![MiniAttributeRecord::new("a".to_string(), 1, 2, TypeLabel::Integer, 3)];
    assert!(!attrs_fit(&short));
    let huge = vec![
        MiniAttributeRecord::new("a".to_string(), 1, 2, TypeLabel::Integer, 0xffff_fff0),
        MiniAttributeRecord::new("b".to_string(), 1, 2, TypeLabel::Integer, 0x10),
    ];
    assert!(!attrs_fit(&huge));
}
