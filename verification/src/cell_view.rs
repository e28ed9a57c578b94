use vstd::prelude::*;

use crate::column::{BorrowColumnMut, Column};
use crate::key::Key;
use crate::lock::LockState;

verus! {

/// A read view into one cell of a [`Column`]: the composite of one shared
/// structural guard and one shared guard on that cell's value lock,
/// acquired in that order.  Both guards are recorded here, so the value
/// the view exposes is reachable through guards that are provably still
/// held — never through a reference that outlived the guard that
/// justified it.  While the view is held, the structural guard keeps the
/// cell in place and the cell guard keeps its value unwritten.
pub struct CellView<T> {
    pub key: Key,
    pub seen: Ghost<T>,
}

impl<T> CellView<T> {
    /// The view still speaks for the column: both guards are
    /// outstanding, the cell is in place, and its value is the one seen
    /// at acquisition.
    pub open spec fn valid(self, col: Column<T>) -> bool {
        &&& col.wf()
        &&& col.lock_state().spec_readers() > 0
        &&& col.has_key(self.key.0 as int)
        &&& col.cell_lock(self.key.0 as int).spec_readers() > 0
        &&& col.value_at(self.key.0 as int) == self.seen@
    }

    /// Acquire a read view of the cell under `key` in the aggregate's
    /// column of `T`: take a shared structural guard, then a shared guard
    /// on the cell.  The key must be present — callers check `keys` /
    /// `common_keys` first, absence is a contract violation.  `None`
    /// means one of the two acquisitions would have to wait; the column
    /// is then left exactly as it was, holding nothing (a caller that
    /// gives up waiting leaves no lock behind).
    pub fn new<DB: BorrowColumnMut<T>>(db: &mut DB, key: Key) -> (r: Option<CellView<T>>)
        requires
            old(db).spec_column().wf(),
            old(db).spec_column().has_key(key.0 as int),
        ensures
            final(db).spec_column().wf(),
            *final(db) == old(db).with_column(final(db).spec_column()),
            r is Some <==> old(db).spec_column().lock_state().can_share() && old(db).spec_column().cell_lock(key.0 as int).can_share(),
            match r {
                Some(v) => {
                    &&& v.key == key
                    &&& v.seen@ == old(db).spec_column().value_at(key.0 as int)
                    &&& v.valid(final(db).spec_column())
                    &&& final(db).spec_column().lock_state() == (LockState {
                        readers: (old(db).spec_column().lock.readers + 1) as usize,
                        ..old(db).spec_column().lock
                    })
                    &&& final(db).spec_column().cell_lock(key.0 as int) == (LockState {
                        readers: (old(db).spec_column().cell_lock(key.0 as int).readers
                            + 1) as usize,
                        ..old(db).spec_column().cell_lock(key.0 as int)
                    })
                    &&& forall|k: int|
                        final(db).spec_column().has_key(k) == old(db).spec_column().has_key(k)
                    &&& forall|k: int|
                        old(db).spec_column().has_key(k) ==> final(db).spec_column().value_at(k)
                            == old(db).spec_column().value_at(k)
                    &&& forall|k: int|
                        k != key.0 as int && old(db).spec_column().has_key(k) ==> final(db).spec_column().cell_lock(k) == old(db).spec_column().cell_lock(k)
                },
                None => *final(db) == *old(db),
            },
    {
        let ghost db0 = *old(db);
        let col = db.borrow_column_mut();
        if !col.try_read_lock() {
            proof {
                db0.lemma_with_same_column();
            }
            return None;
        }
        if !col.try_cell_read_lock(key) {
            col.read_unlock();
            proof {
                db0.lemma_with_same_column();
            }
            return None;
        }
        let r = CellView { key, seen: Ghost(col.value_at(key.0 as int)) };
        proof {
            db0.lemma_with_column(*col);
        }
        Some(r)
    }

    /// The viewed cell's value, read through the held guards.
    pub fn cell<'a>(&self, col: &'a Column<T>) -> (r: &'a T)
        requires
            self.valid(*col),
        ensures
            *r == self.seen@,
            *r == col.value_at(self.key.0 as int),
    {
        col.read_cell(self.key)
    }

    /// Give the view up: the cell guard goes back first, then the
    /// structural guard — the reverse of the acquisition order.  Nothing
    /// but those two lock counts changes.
    pub fn release<DB: BorrowColumnMut<T>>(self, db: &mut DB)
        requires
            self.valid(old(db).spec_column()),
        ensures
            final(db).spec_column().wf(),
            *final(db) == old(db).with_column(final(db).spec_column()),
            final(db).spec_column().lock_state() == (LockState {
                readers: (old(db).spec_column().lock.readers - 1) as usize,
                ..old(db).spec_column().lock
            }),
            final(db).spec_column().cell_lock(self.key.0 as int) == (LockState {
                readers: (old(db).spec_column().cell_lock(self.key.0 as int).readers
                    - 1) as usize,
                ..old(db).spec_column().cell_lock(self.key.0 as int)
            }),
            forall|k: int|
                final(db).spec_column().has_key(k) == old(db).spec_column().has_key(k),
            forall|k: int|
                old(db).spec_column().has_key(k) ==> final(db).spec_column().value_at(k) == old(db).spec_column().value_at(k),
            forall|k: int|
                k != self.key.0 as int && old(db).spec_column().has_key(k) ==> final(db).spec_column().cell_lock(k) == old(db).spec_column().cell_lock(k),
    {
        let ghost db0 = *old(db);
        let col = db.borrow_column_mut();
        col.cell_read_unlock(self.key);
        col.read_unlock();
        proof {
            db0.lemma_with_column(*col);
        }
    }
}

} // verus!
