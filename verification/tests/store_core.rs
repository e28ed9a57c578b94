use playground::{
    relabel_rows, CellView, CellViewMut, Column, ColumnView, ColumnViewMut, IntCharTextRow, Key,
    MyTable, Row,
};

fn empty_table() -> MyTable {
    MyTable { ints: Column::new(), chars: Column::new(), texts: Column::new() }
}

#[test]
fn write_lock_is_exclusive() {
    let mut col: Column<i32> = Column::new();
    assert!(col.try_write_lock());
    assert!(!col.try_read_lock());
    assert!(!col.try_write_lock());
    col.write_unlock();
    assert!(col.try_read_lock());
    assert!(!col.try_write_lock());
    col.read_unlock();
    assert!(col.try_write_lock());
    col.write_unlock();
}

#[test]
fn cell_isolation() {
    let mut table = MyTable::new();
    let held = CellViewMut::<char>::new(&mut table, Key(0)).expect("first cell write view");
    // A different key in the same column is not blocked, in either mode.
    let other_read = CellView::<char>::new(&mut table, Key(2)).expect("read view on other key");
    other_read.release(&mut table);
    let other_write = CellViewMut::<char>::new(&mut table, Key(2)).expect("write view on other key");
    other_write.release(&mut table);
    // The same key is blocked in both modes until the holder lets go.
    assert!(CellView::<char>::new(&mut table, Key(0)).is_none());
    assert!(CellViewMut::<char>::new(&mut table, Key(0)).is_none());
    held.release(&mut table);
    let retry = CellView::<char>::new(&mut table, Key(0)).expect("read view after release");
    retry.release(&mut table);
}

#[test]
fn read_sharing() {
    let mut table = MyTable::new();
    let first = CellView::<i32>::new(&mut table, Key(2)).expect("first reader");
    let second = CellView::<i32>::new(&mut table, Key(2)).expect("second reader");
    let third = CellView::<i32>::new(&mut table, Key(2)).expect("third reader");
    assert_eq!(*first.cell(&table.ints), 2);
    assert_eq!(*second.cell(&table.ints), 2);
    assert_eq!(*third.cell(&table.ints), 2);
    // A write view of that cell cannot be granted until all readers let go.
    assert!(CellViewMut::<i32>::new(&mut table, Key(2)).is_none());
    first.release(&mut table);
    assert!(CellViewMut::<i32>::new(&mut table, Key(2)).is_none());
    second.release(&mut table);
    assert!(CellViewMut::<i32>::new(&mut table, Key(2)).is_none());
    third.release(&mut table);
    let writer = CellViewMut::<i32>::new(&mut table, Key(2)).expect("writer after all released");
    writer.release(&mut table);
}

#[test]
fn insert_then_new_round_trip() {
    let mut table = MyTable::new();
    IntCharTextRow::insert(&mut table, Key(7), (42, 'x', String::from("mark")));
    let row = IntCharTextRow::new(&mut table, Key(7));
    assert_eq!(row.int_value(&table), 42);
    assert_eq!(row.glyph_value(&table), 'x');
    assert_eq!(row.text_value(&table), "mark");
    row.release(&mut table);
    IntCharTextRow::remove(&mut table, Key(7));
    let keys = IntCharTextRow::keys(&mut table);
    assert!(!keys.contains(&Key(7)));
    assert_eq!(keys, vec![Key(0), Key(2), Key(3)]);
}

#[test]
fn key_sets() {
    let mut table = empty_table();
    let ints_view = ColumnViewMut::new::<i32, MyTable>(&mut table).expect("ints write view");
    ints_view.insert(&mut table, Key(1), 10);
    ints_view.insert(&mut table, Key(2), 20);
    ints_view.insert(&mut table, Key(3), 30);
    ints_view.release::<i32, MyTable>(&mut table);
    let chars_view = ColumnViewMut::new::<char, MyTable>(&mut table).expect("chars write view");
    chars_view.insert(&mut table, Key(2), 'b');
    chars_view.insert(&mut table, Key(3), 'c');
    chars_view.insert(&mut table, Key(4), 'd');
    chars_view.release::<char, MyTable>(&mut table);
    let texts_view = ColumnViewMut::new::<String, MyTable>(&mut table).expect("texts write view");
    texts_view.insert(&mut table, Key(2), String::from("two"));
    texts_view.insert(&mut table, Key(3), String::from("three"));
    texts_view.release::<String, MyTable>(&mut table);
    assert_eq!(IntCharTextRow::keys(&mut table), vec![Key(1), Key(2), Key(3), Key(4)]);
    assert_eq!(IntCharTextRow::common_keys(&mut table), vec![Key(2), Key(3)]);
}

#[test]
fn partial_insert_is_observable() {
    let mut table = empty_table();
    // First field of the row goes in alone: no cross-column atomicity.
    let ints_view = ColumnViewMut::new::<i32, MyTable>(&mut table).expect("ints write view");
    ints_view.insert(&mut table, Key(9), 99);
    ints_view.release::<i32, MyTable>(&mut table);
    // A reader polling between the fields sees the row half present.
    let ints_read = ColumnView::<i32>::new(&mut table).expect("ints read view");
    assert!(ints_read.contains_key(&table.ints, Key(9)));
    ints_read.release(&mut table);
    let chars_read = ColumnView::<char>::new(&mut table).expect("chars read view");
    assert!(!chars_read.contains_key(&table.chars, Key(9)));
    chars_read.release(&mut table);
    assert_eq!(IntCharTextRow::keys(&mut table), vec![Key(9)]);
    assert_eq!(IntCharTextRow::common_keys(&mut table), vec![]);
    // The remaining fields complete the row.
    let chars_view = ColumnViewMut::new::<char, MyTable>(&mut table).expect("chars write view");
    chars_view.insert(&mut table, Key(9), 'n');
    chars_view.release::<char, MyTable>(&mut table);
    let texts_view = ColumnViewMut::new::<String, MyTable>(&mut table).expect("texts write view");
    texts_view.insert(&mut table, Key(9), String::from("nine"));
    texts_view.release::<String, MyTable>(&mut table);
    assert_eq!(IntCharTextRow::common_keys(&mut table), vec![Key(9)]);
}

#[test]
fn handle_survives_unrelated_work() {
    let mut table = MyTable::new();
    let view = CellView::<i32>::new(&mut table, Key(0)).expect("read view");
    // Unrelated work on another key and column while the view is held.
    let other = CellViewMut::<char>::new(&mut table, Key(2)).expect("write view on other cell");
    other.set(&mut table, 'z');
    other.release(&mut table);
    // Structural mutation of the viewed column stays blocked the whole time.
    assert!(ColumnViewMut::new::<i32, MyTable>(&mut table).is_none());
    // The composite handle still reads the value it saw at acquisition.
    assert_eq!(*view.cell(&table.ints), 1);
    view.release(&mut table);
    let unblocked = ColumnViewMut::new::<i32, MyTable>(&mut table).expect("write view after release");
    unblocked.release::<i32, MyTable>(&mut table);
}

#[test]
fn seeded_table_contents() {
    let mut table = MyTable::new();
    assert_eq!(IntCharTextRow::keys(&mut table), vec![Key(0), Key(2), Key(3)]);
    assert_eq!(IntCharTextRow::common_keys(&mut table), vec![Key(0), Key(2), Key(3)]);
    let row = IntCharTextRow::new(&mut table, Key(2));
    assert_eq!(row.int_value(&table), 2);
    assert_eq!(row.glyph_value(&table), '8');
    assert_eq!(row.text_value(&table), "five");
    row.release(&mut table);
}

#[test]
fn relabel_rewrites_glyphs() {
    let mut table = MyTable::new();
    let out = relabel_rows(&mut table);
    assert_eq!(out.len(), 3);
    assert_eq!(out[0], (Key(0), 1, 1u8 as char));
    assert_eq!(out[1], (Key(2), 2, 2u8 as char));
    assert_eq!(out[2], (Key(3), 3, 3u8 as char));
    let row = IntCharTextRow::new(&mut table, Key(3));
    assert_eq!(row.glyph_value(&table), 3u8 as char);
    assert_eq!(row.text_value(&table), "six");
    row.release(&mut table);
}

#[test]
fn removed_key_absent_everywhere() {
    let mut table = MyTable::new();
    IntCharTextRow::remove(&mut table, Key(2));
    let keys = IntCharTextRow::keys(&mut table);
    assert_eq!(keys, vec![Key(0), Key(3)]);
    let ints_read = ColumnView::<i32>::new(&mut table).expect("ints read view");
    assert!(!ints_read.contains_key(&table.ints, Key(2)));
    ints_read.release(&mut table);
    let chars_read = ColumnView::<char>::new(&mut table).expect("chars read view");
    assert!(!chars_read.contains_key(&table.chars, Key(2)));
    chars_read.release(&mut table);
    let texts_read = ColumnView::<String>::new(&mut table).expect("texts read view");
    assert!(!texts_read.contains_key(&table.texts, Key(2)));
    texts_read.release(&mut table);
}

#[test]
fn column_insert_replaces_and_remove_returns() {
    let mut col: Column<u64> = Column::new();
    assert!(col.try_write_lock());
    col.insert(Key(5), 50);
    col.insert(Key(5), 55);
    assert_eq!(col.len(), 1);
    assert_eq!(col.remove(Key(5)), Some(55));
    assert_eq!(col.remove(Key(5)), None);
    col.write_unlock();
}

#[test]
fn keys_come_out_sorted() {
    let mut col: Column<u64> = Column::new();
    assert!(col.try_write_lock());
    col.insert(Key(30), 3);
    col.insert(Key(10), 1);
    col.insert(Key(20), 2);
    assert_eq!(col.keys(), vec![Key(10), Key(20), Key(30)]);
    col.write_unlock();
}

#[test]
fn column_view_reads_structure() {
    let mut table = MyTable::new();
    let view = ColumnView::<i32>::new(&mut table).expect("read view");
    assert_eq!(view.len(&table.ints), 3);
    assert!(view.contains_key(&table.ints, Key(0)));
    assert!(!view.contains_key(&table.ints, Key(1)));
    assert_eq!(view.keys(&table.ints), vec![Key(0), Key(2), Key(3)]);
    // A second read view shares the structural lock with the first.
    let second = ColumnView::<i32>::new(&mut table).expect("second read view");
    second.release(&mut table);
    view.release(&mut table);
}

#[test]
fn write_view_updates_through_cell_handle() {
    let mut table = MyTable::new();
    let handle = CellViewMut::<char>::new(&mut table, Key(3)).expect("write view");
    assert_eq!(*handle.cell(&table.chars), '9');
    handle.set(&mut table, 'Z');
    assert_eq!(*handle.cell(&table.chars), 'Z');
    handle.release(&mut table);
    let row = IntCharTextRow::new(&mut table, Key(3));
    assert_eq!(row.glyph_value(&table), 'Z');
    row.release(&mut table);
}

#[test]
fn key_conversions() {
    let key = Key::from(12usize);
    assert_eq!(key, Key(12));
    assert_eq!(key.ordinal(), 12);
    assert_eq!(usize::from(key), 12);
}
