use vstd::prelude::*;

use crate::column::{BorrowColumnMut, Column};
use crate::key::Key;
use crate::lock::LockState;

verus! {

/// A write view into one cell of a [`Column`]: the composite of one
/// shared structural guard and the exclusive guard on that cell's value
/// lock, acquired in that order.  The structural guard is only shared —
/// the view protects against the column being rearranged, not against
/// other cells being written concurrently.  While the view is held no
/// other guard of any kind can be granted on this one cell.
pub struct CellViewMut<T> {
    pub key: Key,
    pub seen: Ghost<T>,
}

impl<T> CellViewMut<T> {
    /// The view still speaks for the column: both guards are
    /// outstanding and the cell is in place.  The value is whatever the
    /// holder last wrote; `seen` records only what was there at
    /// acquisition.
    pub open spec fn valid(self, col: Column<T>) -> bool {
        &&& col.wf()
        &&& col.lock_state().spec_readers() > 0
        &&& col.has_key(self.key.0 as int)
        &&& col.cell_lock(self.key.0 as int).spec_writer()
    }

    /// Acquire a write view of the cell under `key` in the aggregate's
    /// column of `T`: take a shared structural guard, then the exclusive
    /// guard on the cell.  The key must be present — callers check
    /// `keys` / `common_keys` first, absence is a contract violation.
    /// `None` means one of the two acquisitions would have to wait; the
    /// column is then left exactly as it was, holding nothing.
    pub fn new<DB: BorrowColumnMut<T>>(db: &mut DB, key: Key) -> (r: Option<CellViewMut<T>>)
        requires
            old(db).spec_column().wf(),
            old(db).spec_column().has_key(key.0 as int),
        ensures
            final(db).spec_column().wf(),
            *final(db) == old(db).with_column(final(db).spec_column()),
            r is Some <==> old(db).spec_column().lock_state().can_share() && old(db).spec_column().cell_lock(key.0 as int).can_exclusive(),
            match r {
                Some(v) => {
                    &&& v.key == key
                    &&& v.seen@ == old(db).spec_column().value_at(key.0 as int)
                    &&& v.valid(final(db).spec_column())
                    &&& final(db).spec_column().value_at(key.0 as int) == old(
                        db,
                    ).spec_column().value_at(key.0 as int)
                    &&& final(db).spec_column().lock_state() == (LockState {
                        readers: (old(db).spec_column().lock.readers + 1) as usize,
                        ..old(db).spec_column().lock
                    })
                    &&& final(db).spec_column().cell_lock(key.0 as int) == (LockState {
                        writer: true,
                        ..old(db).spec_column().cell_lock(key.0 as int)
                    })
                    &&& forall|k: int|
                        final(db).spec_column().has_key(k) == old(db).spec_column().has_key(k)
                    &&& forall|k: int|
                        old(db).spec_column().has_key(k) ==> final(db).spec_column().value_at(k)
                            == old(db).spec_column().value_at(k)
                    &&& forall|k: int|
                        k != key.0 as int && old(db).spec_column().has_key(k) ==> final(db).spec_column().cell_lock(k) == old(db).spec_column().cell_lock(k)
                },
                None => *final(db) == *old(db),
            },
    {
        let ghost db0 = *old(db);
        let col = db.borrow_column_mut();
        if !col.try_read_lock() {
            proof {
                db0.lemma_with_same_column();
            }
            return None;
        }
        if !col.try_cell_write_lock(key) {
            col.read_unlock();
            proof {
                db0.lemma_with_same_column();
            }
            return None;
        }
        let r = CellViewMut { key, seen: Ghost(col.value_at(key.0 as int)) };
        proof {
            db0.lemma_with_column(*col);
        }
        Some(r)
    }

    /// The viewed cell's current value, read through the held guards.
    pub fn cell<'a>(&self, col: &'a Column<T>) -> (r: &'a T)
        requires
            self.valid(*col),
        ensures
            *r == col.value_at(self.key.0 as int),
    {
        col.read_cell(self.key)
    }

    /// Overwrite the viewed cell's value through the held exclusive cell
    /// guard.  Nothing else moves: keys, every other value, and every
    /// lock stay as they were, and the view stays valid.
    pub fn set<DB: BorrowColumnMut<T>>(&self, db: &mut DB, value: T)
        requires
            self.valid(old(db).spec_column()),
        ensures
            self.valid(final(db).spec_column()),
            *final(db) == old(db).with_column(final(db).spec_column()),
            final(db).spec_column().value_at(self.key.0 as int) == value,
            final(db).spec_column().lock_state() == old(db).spec_column().lock_state(),
            final(db).spec_column().cell_lock(self.key.0 as int) == old(db).spec_column().cell_lock(self.key.0 as int),
            forall|k: int|
                final(db).spec_column().has_key(k) == old(db).spec_column().has_key(k),
            forall|k: int|
                k != self.key.0 as int && old(db).spec_column().has_key(k) ==> final(db).spec_column().value_at(k) == old(db).spec_column().value_at(k)
                    && final(db).spec_column().cell_lock(k) == old(db).spec_column().cell_lock(k),
    {
        let ghost db0 = *old(db);
        let col = db.borrow_column_mut();
        col.write_cell(self.key, value);
        proof {
            db0.lemma_with_column(*col);
        }
    }

    /// Give the view up: the exclusive cell guard goes back first, then
    /// the shared structural guard — the reverse of the acquisition
    /// order.  The value last written stays in the cell.
    pub fn release<DB: BorrowColumnMut<T>>(self, db: &mut DB)
        requires
            self.valid(old(db).spec_column()),
        ensures
            final(db).spec_column().wf(),
            *final(db) == old(db).with_column(final(db).spec_column()),
            final(db).spec_column().lock_state() == (LockState {
                readers: (old(db).spec_column().lock.readers - 1) as usize,
                ..old(db).spec_column().lock
            }),
            final(db).spec_column().cell_lock(self.key.0 as int) == (LockState {
                writer: false,
                ..old(db).spec_column().cell_lock(self.key.0 as int)
            }),
            forall|k: int|
                final(db).spec_column().has_key(k) == old(db).spec_column().has_key(k),
            forall|k: int|
                old(db).spec_column().has_key(k) ==> final(db).spec_column().value_at(k) == old(db).spec_column().value_at(k),
            forall|k: int|
                k != self.key.0 as int && old(db).spec_column().has_key(k) ==> final(db).spec_column().cell_lock(k) == old(db).spec_column().cell_lock(k),
    {
        let ghost db0 = *old(db);
        let col = db.borrow_column_mut();
        col.cell_write_unlock(self.key);
        col.read_unlock();
        proof {
            db0.lemma_with_column(*col);
        }
    }
}

} // verus!
