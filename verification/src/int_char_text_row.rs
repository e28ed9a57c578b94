use vstd::prelude::*;

use crate::cell_view::CellView;
use crate::cell_view_mut::CellViewMut;
use crate::column::BorrowColumn;
use crate::column_view::ColumnView;
use crate::column_view_mut::ColumnViewMut;
use crate::key::{keys_contain, keys_sorted, Key};
use crate::lock::LockState;
use crate::my_table::MyTable;
use crate::row::{intersect_keys, union_keys, Row};

verus! {

/// A three-field virtual row over [`MyTable`]: a shared view of the
/// `i32` cell, an exclusive view of the `char` cell, and a shared view
/// of the `String` cell, all under one key.  The bundle holds its locks
/// until `release`; dropping happens in reverse acquisition order there.
pub struct IntCharTextRow {
    pub int: CellView<i32>,
    pub glyph: CellViewMut<char>,
    pub text: CellView<String>,
}

/// Acquire a write view of the aggregate's column of `T`, store `value`
/// under `key`, and release the view again: one field's share of a row
/// insert.  The column ends unlocked again, changed at this one key only.
fn put_cell<T, DB: crate::column::BorrowColumnMut<T>>(db: &mut DB, key: Key, value: T)
    requires
        old(db).spec_column().wf(),
        old(db).spec_column().lock_state().can_exclusive(),
    ensures
        final(db).spec_column().wf(),
        *final(db) == old(db).with_column(final(db).spec_column()),
        final(db).spec_column().lock_state() == old(db).spec_column().lock_state(),
        final(db).spec_column().has_key(key.0 as int),
        final(db).spec_column().value_at(key.0 as int) == value,
        final(db).spec_column().cell_lock(key.0 as int).unlocked(),
        forall|k: int|
            k != key.0 as int ==> #[trigger] final(db).spec_column().has_key(k) == old(db).spec_column().has_key(k),
        forall|k: int|
            k != key.0 as int && old(db).spec_column().has_key(k) ==> #[trigger] final(db).spec_column().value_at(k) == old(db).spec_column().value_at(k) && final(db).spec_column().cell_lock(k) == old(db).spec_column().cell_lock(k),
{
    let view = match ColumnViewMut::new::<T, DB>(db) {
        Some(v) => v,
        None => unreached(),
    };
    let ghost db_locked = *db;
    view.insert(db, key, value);
    let ghost db_stored = *db;
    view.release::<T, DB>(db);
    proof {
        old(db).lemma_with_column_twice(db_locked.spec_column(), db_stored.spec_column());
        old(db).lemma_with_column_twice(db_stored.spec_column(), db.spec_column());
        assert forall|k: int|
            k != key.0 as int implies #[trigger] db.spec_column().has_key(k) == old(db).spec_column().has_key(k) by {
            assert(db_stored.spec_column().has_key(k) == db_locked.spec_column().has_key(k));
        }
        assert forall|k: int|
            k != key.0 as int && old(db).spec_column().has_key(k) implies #[trigger] db.spec_column().value_at(k) == old(db).spec_column().value_at(k)
                && db.spec_column().cell_lock(k) == old(db).spec_column().cell_lock(k) by {
            assert(db_stored.spec_column().value_at(k) == db_locked.spec_column().value_at(k));
            assert(db_stored.spec_column().cell_lock(k) == db_locked.spec_column().cell_lock(k));
        }
    }
}

/// Acquire a write view of the aggregate's column of `T`, drop the cell
/// under `key`, and release the view again: one field's share of a row
/// removal.  The column ends unlocked again, changed at this one key only.
fn drop_cell<T, DB: crate::column::BorrowColumnMut<T>>(db: &mut DB, key: Key)
    requires
        old(db).spec_column().wf(),
        old(db).spec_column().lock_state().can_exclusive(),
    ensures
        final(db).spec_column().wf(),
        *final(db) == old(db).with_column(final(db).spec_column()),
        final(db).spec_column().lock_state() == old(db).spec_column().lock_state(),
        !final(db).spec_column().has_key(key.0 as int),
        forall|k: int|
            k != key.0 as int ==> #[trigger] final(db).spec_column().has_key(k) == old(db).spec_column().has_key(k),
        forall|k: int|
            k != key.0 as int && old(db).spec_column().has_key(k) ==> #[trigger] final(db).spec_column().value_at(k) == old(db).spec_column().value_at(k) && final(db).spec_column().cell_lock(k) == old(db).spec_column().cell_lock(k),
{
    let view = match ColumnViewMut::new::<T, DB>(db) {
        Some(v) => v,
        None => unreached(),
    };
    let ghost db_locked = *db;
    let _dropped: Option<T> = view.remove(db, key);
    let ghost db_stored = *db;
    view.release::<T, DB>(db);
    proof {
        old(db).lemma_with_column_twice(db_locked.spec_column(), db_stored.spec_column());
        old(db).lemma_with_column_twice(db_stored.spec_column(), db.spec_column());
        assert forall|k: int|
            k != key.0 as int implies #[trigger] db.spec_column().has_key(k) == old(db).spec_column().has_key(k) by {
            assert(db_stored.spec_column().has_key(k) == db_locked.spec_column().has_key(k));
        }
        assert forall|k: int|
            k != key.0 as int && old(db).spec_column().has_key(k) implies #[trigger] db.spec_column().value_at(k) == old(db).spec_column().value_at(k)
                && db.spec_column().cell_lock(k) == old(db).spec_column().cell_lock(k) by {
            assert(db_stored.spec_column().value_at(k) == db_locked.spec_column().value_at(k));
            assert(db_stored.spec_column().cell_lock(k) == db_locked.spec_column().cell_lock(k));
        }
    }
}

impl Row<MyTable> for IntCharTextRow {
    type Insert = (i32, char, String);

    open spec fn wf_db(db: MyTable) -> bool {
        db.wf()
    }

    open spec fn readable(db: MyTable) -> bool {
        &&& db.ints.lock_state().can_share()
        &&& db.chars.lock_state().can_share()
        &&& db.texts.lock_state().can_share()
    }

    open spec fn quiescent(db: MyTable) -> bool {
        db.quiescent()
    }

    open spec fn present(db: MyTable, k: int) -> bool {
        &&& db.ints.has_key(k)
        &&& db.chars.has_key(k)
        &&& db.texts.has_key(k)
    }

    open spec fn in_any(db: MyTable, k: int) -> bool {
        ||| db.ints.has_key(k)
        ||| db.chars.has_key(k)
        ||| db.texts.has_key(k)
    }

    open spec fn cells_free(db: MyTable, key: Key) -> bool {
        &&& db.ints.cell_lock(key.0 as int).can_share()
        &&& db.chars.cell_lock(key.0 as int).can_exclusive()
        &&& db.texts.cell_lock(key.0 as int).can_share()
    }

    open spec fn row_values(db: MyTable, key: Key) -> (i32, char, String) {
        (
            db.ints.value_at(key.0 as int),
            db.chars.value_at(key.0 as int),
            db.texts.value_at(key.0 as int),
        )
    }

    open spec fn others_unchanged(pre: MyTable, post: MyTable, key: Key) -> bool {
        &&& forall|k: int|
            k != key.0 as int ==> #[trigger] post.ints.has_key(k) == pre.ints.has_key(k)
        &&& forall|k: int|
            k != key.0 as int && pre.ints.has_key(k) ==> #[trigger] post.ints.value_at(k)
                == pre.ints.value_at(k) && post.ints.cell_lock(k) == pre.ints.cell_lock(k)
        &&& forall|k: int|
            k != key.0 as int ==> #[trigger] post.chars.has_key(k) == pre.chars.has_key(k)
        &&& forall|k: int|
            k != key.0 as int && pre.chars.has_key(k) ==> #[trigger] post.chars.value_at(k)
                == pre.chars.value_at(k) && post.chars.cell_lock(k) == pre.chars.cell_lock(k)
        &&& forall|k: int|
            k != key.0 as int ==> #[trigger] post.texts.has_key(k) == pre.texts.has_key(k)
        &&& forall|k: int|
            k != key.0 as int && pre.texts.has_key(k) ==> #[trigger] post.texts.value_at(k)
                == pre.texts.value_at(k) && post.texts.cell_lock(k) == pre.texts.cell_lock(k)
    }

    open spec fn maps_unchanged(pre: MyTable, post: MyTable) -> bool {
        &&& forall|k: int| #[trigger] post.ints.has_key(k) == pre.ints.has_key(k)
        &&& forall|k: int|
            pre.ints.has_key(k) ==> #[trigger] post.ints.value_at(k) == pre.ints.value_at(k)
        &&& forall|k: int| #[trigger] post.chars.has_key(k) == pre.chars.has_key(k)
        &&& forall|k: int|
            pre.chars.has_key(k) ==> #[trigger] post.chars.value_at(k) == pre.chars.value_at(k)
        &&& forall|k: int| #[trigger] post.texts.has_key(k) == pre.texts.has_key(k)
        &&& forall|k: int|
            pre.texts.has_key(k) ==> #[trigger] post.texts.value_at(k) == pre.texts.value_at(k)
    }

    open spec fn row_valid(self, db: MyTable) -> bool {
        &&& self.int.valid(db.ints)
        &&& self.glyph.valid(db.chars)
        &&& self.text.valid(db.texts)
    }

    fn new(db: &mut MyTable, key: Key) -> (r: Self)
        ensures
            r.int.key == key,
            r.glyph.key == key,
            r.text.key == key,
            r.int.seen@ == old(db).ints.value_at(key.0 as int),
            r.text.seen@ == old(db).texts.value_at(key.0 as int),
            final(db).ints.lock_state() == (LockState {
                readers: (old(db).ints.lock.readers + 1) as usize,
                ..old(db).ints.lock
            }),
            final(db).chars.lock_state() == (LockState {
                readers: (old(db).chars.lock.readers + 1) as usize,
                ..old(db).chars.lock
            }),
            final(db).texts.lock_state() == (LockState {
                readers: (old(db).texts.lock.readers + 1) as usize,
                ..old(db).texts.lock
            }),
            final(db).ints.cell_lock(key.0 as int) == (LockState {
                readers: (old(db).ints.cell_lock(key.0 as int).readers + 1) as usize,
                ..old(db).ints.cell_lock(key.0 as int)
            }),
            final(db).chars.cell_lock(key.0 as int) == (LockState {
                writer: true,
                ..old(db).chars.cell_lock(key.0 as int)
            }),
            final(db).texts.cell_lock(key.0 as int) == (LockState {
                readers: (old(db).texts.cell_lock(key.0 as int).readers + 1) as usize,
                ..old(db).texts.cell_lock(key.0 as int)
            }),
            forall|k: int|
                k != key.0 as int && old(db).ints.has_key(k) ==> final(db).ints.cell_lock(k)
                    == old(db).ints.cell_lock(k),
            forall|k: int|
                k != key.0 as int && old(db).chars.has_key(k) ==> final(db).chars.cell_lock(k)
                    == old(db).chars.cell_lock(k),
            forall|k: int|
                k != key.0 as int && old(db).texts.has_key(k) ==> final(db).texts.cell_lock(k)
                    == old(db).texts.cell_lock(k),
    {
        let int_view = match CellView::<i32>::new(db, key) {
            Some(v) => v,
            None => unreached(),
        };
        let glyph = match CellViewMut::<char>::new(db, key) {
            Some(v) => v,
            None => unreached(),
        };
        let text = match CellView::<String>::new(db, key) {
            Some(v) => v,
            None => unreached(),
        };
        IntCharTextRow { int: int_view, glyph, text }
    }

    fn insert(db: &mut MyTable, key: Key, row: (i32, char, String)) {
        let ghost k0 = key.0 as int;
        let (int_value, glyph_value, text_value) = row;
        put_cell::<i32, MyTable>(db, key, int_value);
        let ghost db1 = *db;
        put_cell::<char, MyTable>(db, key, glyph_value);
        let ghost db2 = *db;
        put_cell::<String, MyTable>(db, key, text_value);
        proof {
            assert(db.ints == db1.ints);
            assert(db.chars == db2.chars);
            assert(db1.chars == old(db).chars);
            assert(db2.texts == old(db).texts);
            assert forall|k: int| k != k0 implies #[trigger] db.ints.has_key(k) == old(db).ints.has_key(k) by {
                assert(db1.ints.has_key(k) == old(db).ints.has_key(k));
            }
            assert forall|k: int|
                k != k0 && old(db).ints.has_key(k) implies #[trigger] db.ints.value_at(k) == old(db).ints.value_at(k) && db.ints.cell_lock(k) == old(db).ints.cell_lock(k) by {
                assert(db1.ints.value_at(k) == old(db).ints.value_at(k));
                assert(db1.ints.cell_lock(k) == old(db).ints.cell_lock(k));
            }
            assert forall|k: int| k != k0 implies #[trigger] db.chars.has_key(k) == old(db).chars.has_key(k) by {
                assert(db2.chars.has_key(k) == db1.chars.has_key(k));
            }
            assert forall|k: int|
                k != k0 && old(db).chars.has_key(k) implies #[trigger] db.chars.value_at(k) == old(db).chars.value_at(k) && db.chars.cell_lock(k) == old(db).chars.cell_lock(k) by {
                assert(db2.chars.value_at(k) == db1.chars.value_at(k));
                assert(db2.chars.cell_lock(k) == db1.chars.cell_lock(k));
            }
        }
    }

    fn remove(db: &mut MyTable, key: Key) {
        let ghost k0 = key.0 as int;
        drop_cell::<i32, MyTable>(db, key);
        let ghost db1 = *db;
        drop_cell::<char, MyTable>(db, key);
        let ghost db2 = *db;
        drop_cell::<String, MyTable>(db, key);
        proof {
            assert(db.ints == db1.ints);
            assert(db.chars == db2.chars);
            assert(db1.chars == old(db).chars);
            assert(db2.texts == old(db).texts);
            assert forall|k: int| k != k0 implies #[trigger] db.ints.has_key(k) == old(db).ints.has_key(k) by {
                assert(db1.ints.has_key(k) == old(db).ints.has_key(k));
            }
            assert forall|k: int|
                k != k0 && old(db).ints.has_key(k) implies #[trigger] db.ints.value_at(k) == old(db).ints.value_at(k) && db.ints.cell_lock(k) == old(db).ints.cell_lock(k) by {
                assert(db1.ints.value_at(k) == old(db).ints.value_at(k));
                assert(db1.ints.cell_lock(k) == old(db).ints.cell_lock(k));
            }
            assert forall|k: int| k != k0 implies #[trigger] db.chars.has_key(k) == old(db).chars.has_key(k) by {
                assert(db2.chars.has_key(k) == db1.chars.has_key(k));
            }
            assert forall|k: int|
                k != k0 && old(db).chars.has_key(k) implies #[trigger] db.chars.value_at(k) == old(db).chars.value_at(k) && db.chars.cell_lock(k) == old(db).chars.cell_lock(k) by {
                assert(db2.chars.value_at(k) == db1.chars.value_at(k));
                assert(db2.chars.cell_lock(k) == db1.chars.cell_lock(k));
            }
        }
    }

    fn keys(db: &mut MyTable) -> (r: Vec<Key>) {
        let iv = match ColumnView::<i32>::new(db) {
            Some(v) => v,
            None => unreached(),
        };
        let int_keys = iv.keys(<MyTable as BorrowColumn<i32>>::borrow_column(db));
        iv.release(db);
        let cv = match ColumnView::<char>::new(db) {
            Some(v) => v,
            None => unreached(),
        };
        let char_keys = cv.keys(<MyTable as BorrowColumn<char>>::borrow_column(db));
        cv.release(db);
        let tv = match ColumnView::<String>::new(db) {
            Some(v) => v,
            None => unreached(),
        };
        let text_keys = tv.keys(<MyTable as BorrowColumn<String>>::borrow_column(db));
        tv.release(db);
        let both = union_keys(&int_keys, &char_keys);
        let all = union_keys(&both, &text_keys);
        proof {
            assert(db.ints.lock =~= old(db).ints.lock);
            assert(db.chars.lock =~= old(db).chars.lock);
            assert(db.texts.lock =~= old(db).texts.lock);
            assert(db.ints =~= old(db).ints);
            assert(db.chars =~= old(db).chars);
            assert(db.texts =~= old(db).texts);
            assert(*db =~= *old(db));
        }
        all
    }

    fn common_keys(db: &mut MyTable) -> (r: Vec<Key>) {
        let iv = match ColumnView::<i32>::new(db) {
            Some(v) => v,
            None => unreached(),
        };
        let int_keys = iv.keys(<MyTable as BorrowColumn<i32>>::borrow_column(db));
        iv.release(db);
        let cv = match ColumnView::<char>::new(db) {
            Some(v) => v,
            None => unreached(),
        };
        let char_keys = cv.keys(<MyTable as BorrowColumn<char>>::borrow_column(db));
        cv.release(db);
        let tv = match ColumnView::<String>::new(db) {
            Some(v) => v,
            None => unreached(),
        };
        let text_keys = tv.keys(<MyTable as BorrowColumn<String>>::borrow_column(db));
        tv.release(db);
        let both = intersect_keys(&int_keys, &char_keys);
        let all = intersect_keys(&both, &text_keys);
        proof {
            assert(db.ints.lock =~= old(db).ints.lock);
            assert(db.chars.lock =~= old(db).chars.lock);
            assert(db.texts.lock =~= old(db).texts.lock);
            assert(db.ints =~= old(db).ints);
            assert(db.chars =~= old(db).chars);
            assert(db.texts =~= old(db).texts);
            assert(*db =~= *old(db));
        }
        all
    }
}


/// Round trip, storing side: a table that a row insert has just left —
/// the key present in every field column, the inserted components
/// stored under it — still shows those exact components to a row
/// composed later over the same key, as long as no column's mapping
/// changed in between (and composing a row never changes one).
pub proof fn lemma_insert_then_new_round_trip(
    stored: MyTable,
    later: MyTable,
    key: Key,
    row_in: (i32, char, String),
)
    requires
        IntCharTextRow::present(stored, key.0 as int),
        IntCharTextRow::row_values(stored, key) == row_in,
        IntCharTextRow::maps_unchanged(stored, later),
    ensures
        later.ints.value_at(key.0 as int) == row_in.0,
        later.chars.value_at(key.0 as int) == row_in.1,
        later.texts.value_at(key.0 as int) == row_in.2,
        IntCharTextRow::present(later, key.0 as int),
        IntCharTextRow::row_values(later, key) == row_in,
{
}

/// Round trip, removing side: after a row removal the key is in no
/// field column, so no key listing taken afterwards can show it —
/// whether the union (`keys`) or the intersection (`common_keys`).
pub proof fn lemma_remove_then_keys_absent(cleared: MyTable, key: Key, listing: Seq<Key>)
    requires
        !IntCharTextRow::in_any(cleared, key.0 as int),
        forall|k: int| keys_contain(listing, k) ==> IntCharTextRow::in_any(cleared, k),
    ensures
        !keys_contain(listing, key.0 as int),
{
}

impl IntCharTextRow {
    /// Give the row up: each view releases its cell guard and then its
    /// structural guard, fields in reverse acquisition order.  Values
    /// stay as they were; only lock counts move back down.
    pub fn release(self, db: &mut MyTable)
        requires
            self.row_valid(*old(db)),
        ensures
            final(db).wf(),
            Self::maps_unchanged(*old(db), *final(db)),
            final(db).ints.lock_state() == (crate::lock::LockState {
                readers: (old(db).ints.lock.readers - 1) as usize,
                ..old(db).ints.lock
            }),
            final(db).chars.lock_state() == (crate::lock::LockState {
                readers: (old(db).chars.lock.readers - 1) as usize,
                ..old(db).chars.lock
            }),
            final(db).texts.lock_state() == (crate::lock::LockState {
                readers: (old(db).texts.lock.readers - 1) as usize,
                ..old(db).texts.lock
            }),
            final(db).ints.cell_lock(self.int.key.0 as int) == (crate::lock::LockState {
                readers: (old(db).ints.cell_lock(self.int.key.0 as int).readers - 1) as usize,
                ..old(db).ints.cell_lock(self.int.key.0 as int)
            }),
            final(db).chars.cell_lock(self.glyph.key.0 as int) == (crate::lock::LockState {
                writer: false,
                ..old(db).chars.cell_lock(self.glyph.key.0 as int)
            }),
            final(db).texts.cell_lock(self.text.key.0 as int) == (crate::lock::LockState {
                readers: (old(db).texts.cell_lock(self.text.key.0 as int).readers
                    - 1) as usize,
                ..old(db).texts.cell_lock(self.text.key.0 as int)
            }),
            forall|k: int|
                k != self.int.key.0 as int && old(db).ints.has_key(k) ==> final(db).ints.cell_lock(k) == old(db).ints.cell_lock(k),
            forall|k: int|
                k != self.glyph.key.0 as int && old(db).chars.has_key(k) ==> final(db).chars.cell_lock(k) == old(db).chars.cell_lock(k),
            forall|k: int|
                k != self.text.key.0 as int && old(db).texts.has_key(k) ==> final(db).texts.cell_lock(k) == old(db).texts.cell_lock(k),
    {
        self.text.release(db);
        self.glyph.release(db);
        self.int.release(db);
    }

    /// The value of the row's `i32` field, read through the held view.
    pub fn int_value(&self, db: &MyTable) -> (r: i32)
        requires
            self.int.valid(db.ints),
        ensures
            r == db.ints.value_at(self.int.key.0 as int),
            r == self.int.seen@,
    {
        *self.int.cell(<MyTable as BorrowColumn<i32>>::borrow_column(db))
    }

    /// The current value of the row's `char` field.
    pub fn glyph_value(&self, db: &MyTable) -> (r: char)
        requires
            self.glyph.valid(db.chars),
        ensures
            r == db.chars.value_at(self.glyph.key.0 as int),
    {
        *self.glyph.cell(<MyTable as BorrowColumn<char>>::borrow_column(db))
    }

    /// The value of the row's `String` field, read through the held view.
    pub fn text_value<'a>(&self, db: &'a MyTable) -> (r: &'a String)
        requires
            self.text.valid(db.texts),
        ensures
            *r == db.texts.value_at(self.text.key.0 as int),
            *r == self.text.seen@,
    {
        self.text.cell(<MyTable as BorrowColumn<String>>::borrow_column(db))
    }

    /// Overwrite the row's `char` field through its held exclusive cell
    /// guard.  Nothing else in the table moves.
    pub fn set_glyph(&self, db: &mut MyTable, value: char)
        requires
            self.glyph.valid(old(db).chars),
        ensures
            self.glyph.valid(final(db).chars),
            final(db).ints == old(db).ints,
            final(db).texts == old(db).texts,
            final(db).chars.value_at(self.glyph.key.0 as int) == value,
            final(db).chars.lock_state() == old(db).chars.lock_state(),
            forall|k: int|
                final(db).chars.has_key(k) == old(db).chars.has_key(k),
            forall|k: int|
                old(db).chars.has_key(k) ==> final(db).chars.cell_lock(k) == old(db).chars.cell_lock(k),
            forall|k: int|
                k != self.glyph.key.0 as int && old(db).chars.has_key(k) ==> final(db).chars.value_at(k) == old(db).chars.value_at(k),
    {
        self.glyph.set(db, value);
    }
}

} // verus!
