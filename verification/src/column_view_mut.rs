use vstd::prelude::*;

use crate::column::{BorrowColumnMut, Column};
use crate::key::{keys_contain, keys_sorted, Key};
use crate::lock::LockState;

verus! {

/// A write view into one [`Column`]: the record of the exclusive
/// structural guard.  While it is held no other guard — shared or
/// exclusive, structural or cell-level — can be granted on that column,
/// so the holder may insert and remove cells without invalidating anyone.
pub struct ColumnViewMut {}

impl ColumnViewMut {
    /// The view still speaks for the column: the column is well formed
    /// and the exclusive structural guard is outstanding.
    pub open spec fn valid<T>(self, col: Column<T>) -> bool {
        &&& col.wf()
        &&& col.lock_state().spec_writer()
    }

    /// Acquire a write view of the aggregate's column of `T`: take the
    /// exclusive structural guard.  `None` means the acquisition would
    /// have to wait (some guard is out); nothing is changed then.
    pub fn new<T, DB: BorrowColumnMut<T>>(db: &mut DB) -> (r: Option<ColumnViewMut>)
        requires
            old(db).spec_column().wf(),
        ensures
            final(db).spec_column().wf(),
            r is Some <==> old(db).spec_column().lock_state().can_exclusive(),
            *final(db) == old(db).with_column(final(db).spec_column()),
            match r {
                Some(v) => {
                    &&& v.valid(final(db).spec_column())
                    &&& final(db).spec_column().entries == old(db).spec_column().entries
                    &&& final(db).spec_column().lock_state() == (LockState {
                        writer: true,
                        ..old(db).spec_column().lock
                    })
                },
                None => *final(db) == *old(db),
            },
    {
        let ghost db0 = *old(db);
        let col = db.borrow_column_mut();
        let granted = col.try_write_lock();
        if granted {
            proof {
                db0.lemma_with_column(*col);
            }
            Some(ColumnViewMut {})
        } else {
            proof {
                db0.lemma_with_same_column();
            }
            None
        }
    }

    /// How many cells the viewed column holds.
    pub fn len<T>(&self, col: &Column<T>) -> (r: usize)
        requires
            self.valid(*col),
        ensures
            r == col.spec_len(),
    {
        col.len()
    }

    /// Whether the viewed mapping holds a cell under `key`.
    pub fn contains_key<T>(&self, col: &Column<T>, key: Key) -> (r: bool)
        requires
            self.valid(*col),
        ensures
            r == col.has_key(key.0 as int),
    {
        col.contains_key(key)
    }

    /// The keys of the viewed mapping, in increasing order.
    pub fn keys<T>(&self, col: &Column<T>) -> (r: Vec<Key>)
        requires
            self.valid(*col),
        ensures
            r@.len() == col.spec_len(),
            forall|i: int| 0 <= i < r@.len() ==> #[trigger] r@[i] == col.entries_seq()[i].key,
            keys_sorted(r@),
            forall|k: int| col.has_key(k) == keys_contain(r@, k),
    {
        col.keys()
    }

    /// Store `value` under `key` in the viewed column, replacing any cell
    /// already there; the new cell starts unlocked.  Only this one key of
    /// this one column changes.
    pub fn insert<T, DB: BorrowColumnMut<T>>(&self, db: &mut DB, key: Key, value: T)
        requires
            self.valid(old(db).spec_column()),
        ensures
            self.valid(final(db).spec_column()),
            *final(db) == old(db).with_column(final(db).spec_column()),
            final(db).spec_column().lock_state() == old(db).spec_column().lock_state(),
            final(db).spec_column().has_key(key.0 as int),
            final(db).spec_column().value_at(key.0 as int) == value,
            final(db).spec_column().cell_lock(key.0 as int).unlocked(),
            forall|k: int|
                k != key.0 as int ==> final(db).spec_column().has_key(k) == old(db).spec_column().has_key(k),
            forall|k: int|
                k != key.0 as int && old(db).spec_column().has_key(k) ==> final(db).spec_column().value_at(k) == old(db).spec_column().value_at(k)
                    && final(db).spec_column().cell_lock(k) == old(db).spec_column().cell_lock(k),
    {
        let ghost db0 = *old(db);
        let col = db.borrow_column_mut();
        col.insert(key, value);
        proof {
            db0.lemma_with_column(*col);
        }
    }

    /// Drop the cell stored under `key` from the viewed column, handing
    /// its value back (`None` when no cell was there).  Only this one key
    /// of this one column changes.
    pub fn remove<T, DB: BorrowColumnMut<T>>(&self, db: &mut DB, key: Key) -> (r: Option<T>)
        requires
            self.valid(old(db).spec_column()),
        ensures
            self.valid(final(db).spec_column()),
            *final(db) == old(db).with_column(final(db).spec_column()),
            final(db).spec_column().lock_state() == old(db).spec_column().lock_state(),
            !final(db).spec_column().has_key(key.0 as int),
            old(db).spec_column().has_key(key.0 as int) ==> r == Some(
                old(db).spec_column().value_at(key.0 as int),
            ),
            !old(db).spec_column().has_key(key.0 as int) ==> r is None,
            forall|k: int|
                k != key.0 as int ==> final(db).spec_column().has_key(k) == old(db).spec_column().has_key(k),
            forall|k: int|
                k != key.0 as int && old(db).spec_column().has_key(k) ==> final(db).spec_column().value_at(k) == old(db).spec_column().value_at(k)
                    && final(db).spec_column().cell_lock(k) == old(db).spec_column().cell_lock(k),
    {
        let ghost db0 = *old(db);
        let col = db.borrow_column_mut();
        let r = col.remove(key);
        proof {
            db0.lemma_with_column(*col);
        }
        r
    }

    /// Give the view up: the exclusive structural guard goes back and the
    /// column is fully unlocked again.
    pub fn release<T, DB: BorrowColumnMut<T>>(self, db: &mut DB)
        requires
            self.valid(old(db).spec_column()),
        ensures
            final(db).spec_column().wf(),
            *final(db) == old(db).with_column(final(db).spec_column()),
            final(db).spec_column().entries == old(db).spec_column().entries,
            final(db).spec_column().lock_state() == (LockState {
                writer: false,
                ..old(db).spec_column().lock
            }),
            final(db).spec_column().lock_state().unlocked(),
    {
        let ghost db0 = *old(db);
        let col = db.borrow_column_mut();
        col.write_unlock();
        proof {
            db0.lemma_with_column(*col);
        }
    }
}

} // verus!
