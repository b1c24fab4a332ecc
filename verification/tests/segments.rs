use rum::segments::SegmentTable;

fn booted() -> SegmentTable {
    let mut table = SegmentTable::new();
    table.append(vec![0x7000_0000]);
    table
}

#[test]
fn new_table_has_no_live_segment() {
    let table = SegmentTable::new();
    assert!(!table.is_live(0));
    assert!(!table.is_live(1));
    assert_eq!(table.segment_len(0), None);
    assert!(table.has_room());
}

#[test]
fn append_on_new_table_makes_segment_zero() {
    let mut table = SegmentTable::new();
    table.append(vec![7, 8, 9]);
    assert!(table.is_live(0));
    assert_eq!(table.segment_len(0), Some(3));
    assert_eq!(table.read(0, 0), 7);
    assert_eq!(table.read(0, 2), 9);
    assert_eq!(table.word_at(0, 1), 8);
    assert!(!table.is_live(1));
}

#[test]
fn allocation_with_empty_free_list_counts_up_from_one() {
    let mut table = booted();
    for expected in 1..=20u32 {
        assert_eq!(table.allocate(expected), expected);
        assert_eq!(table.segment_len(expected), Some(expected as usize));
    }
}

#[test]
fn allocated_segment_is_zero_filled() {
    let mut table = booted();
    let id = table.allocate(4);
    for offset in 0..4 {
        assert_eq!(table.read(id, offset), 0);
    }
    assert!(table.is_addressable(id, 3));
    assert!(!table.is_addressable(id, 4));
}

#[test]
fn allocation_of_length_zero_is_live_and_empty() {
    let mut table = booted();
    let id = table.allocate(0);
    assert_eq!(id, 1);
    assert!(table.is_live(id));
    assert_eq!(table.segment_len(id), Some(0));
    assert!(!table.is_addressable(id, 0));
}

#[test]
fn released_identifier_is_reused_first() {
    let mut table = booted();
    let a = table.allocate(3);
    let b = table.allocate(5);
    table.release(a);
    let d = table.allocate(1);
    assert_eq!((a, b, d), (1, 2, 1));
    assert_eq!(table.segment_len(1), Some(1));
    assert_eq!(table.segment_len(2), Some(5));
}

#[test]
fn release_is_last_in_first_out() {
    let mut table = booted();
    for _ in 0..4 {
        table.allocate(1);
    }
    table.release(2);
    table.release(4);
    table.release(1);
    assert_eq!(table.allocate(1), 1);
    assert_eq!(table.allocate(1), 4);
    assert_eq!(table.allocate(1), 2);
    assert_eq!(table.allocate(1), 5);
}

#[test]
fn released_segment_is_not_live_and_reuse_is_zeroed() {
    let mut table = booted();
    let id = table.allocate(2);
    table.write(id, 1, 99);
    assert_eq!(table.read(id, 1), 99);
    table.release(id);
    assert!(!table.is_live(id));
    assert_eq!(table.segment_len(id), None);
    assert!(!table.is_addressable(id, 0));
    let again = table.allocate(2);
    assert_eq!(again, id);
    assert_eq!(table.read(id, 1), 0);
}

#[test]
fn write_changes_one_word_only() {
    let mut table = booted();
    let a = table.allocate(3);
    let b = table.allocate(3);
    table.write(a, 1, 0xDEAD_BEEF);
    assert_eq!(table.read(a, 0), 0);
    assert_eq!(table.read(a, 1), 0xDEAD_BEEF);
    assert_eq!(table.read(a, 2), 0);
    assert_eq!(table.read(b, 1), 0);
    assert_eq!(table.read(0, 0), 0x7000_0000);
}

#[test]
fn replace_zero_copies_by_value() {
    let mut table = booted();
    let id = table.allocate(2);
    table.write(id, 0, 11);
    table.write(id, 1, 22);
    table.replace_zero_from(id);
    assert_eq!(table.segment_len(0), Some(2));
    assert_eq!(table.read(0, 0), 11);
    assert_eq!(table.read(0, 1), 22);
    // the copy is independent of its source
    table.write(id, 0, 33);
    assert_eq!(table.read(0, 0), 11);
    table.release(id);
    assert_eq!(table.read(0, 1), 22);
}

#[test]
fn replace_zero_from_zero_changes_nothing() {
    let mut table = SegmentTable::new();
    table.append(vec![1, 2, 3]);
    table.replace_zero_from(0);
    assert_eq!(table.segment_len(0), Some(3));
    assert_eq!(table.read(0, 0), 1);
    assert_eq!(table.read(0, 1), 2);
    assert_eq!(table.read(0, 2), 3);
}
