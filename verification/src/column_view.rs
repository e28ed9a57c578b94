use vstd::prelude::*;

use crate::column::{cell_guard_sum, BorrowColumnMut, Column, Entry};
use crate::key::{keys_contain, keys_sorted, Key};
use crate::lock::LockState;

verus! {

/// A read view into one [`Column`]: the record of one shared structural
/// guard, together with the image of the mapping at acquisition time.
/// While the view is held the mapping cannot change (no exclusive
/// structural guard can be granted), so `valid` — the column still shows
/// exactly the entries seen at acquisition — is preserved by every
/// operation the locking discipline permits.
pub struct ColumnView<T> {
    pub entries_seen: Ghost<Seq<Entry<T>>>,
}

impl<T> ColumnView<T> {
    /// The view still speaks for the column: the column is well formed,
    /// the shared structural guard is outstanding, and the mapping is the
    /// one seen at acquisition.
    pub open spec fn valid(self, col: Column<T>) -> bool {
        &&& col.wf()
        &&& col.lock_state().spec_readers() > 0
        &&& col.entries_seq() == self.entries_seen@
    }

    /// Acquire a read view of the aggregate's column of `T`: take one
    /// shared structural guard.  `None` means the acquisition would have
    /// to wait (an exclusive guard is out); nothing is changed then.
    pub fn new<DB: BorrowColumnMut<T>>(db: &mut DB) -> (r: Option<ColumnView<T>>)
        requires
            old(db).spec_column().wf(),
        ensures
            final(db).spec_column().wf(),
            r is Some <==> old(db).spec_column().lock_state().can_share(),
            *final(db) == old(db).with_column(final(db).spec_column()),
            match r {
                Some(v) => {
                    &&& v.valid(final(db).spec_column())
                    &&& final(db).spec_column().entries == old(db).spec_column().entries
                    &&& final(db).spec_column().lock_state() == (LockState {
                        readers: (old(db).spec_column().lock.readers + 1) as usize,
                        ..old(db).spec_column().lock
                    })
                },
                None => *final(db) == *old(db),
            },
    {
        let ghost db0 = *old(db);
        let col = db.borrow_column_mut();
        let granted = col.try_read_lock();
        if granted {
            let r = ColumnView { entries_seen: Ghost(col.entries@) };
            proof {
                db0.lemma_with_column(*col);
            }
            Some(r)
        } else {
            proof {
                db0.lemma_with_same_column();
            }
            None
        }
    }

    /// How many cells the viewed column holds.
    pub fn len(&self, col: &Column<T>) -> (r: usize)
        requires
            self.valid(*col),
        ensures
            r == self.entries_seen@.len(),
    {
        col.len()
    }

    /// Whether the viewed mapping holds a cell under `key`.
    pub fn contains_key(&self, col: &Column<T>, key: Key) -> (r: bool)
        requires
            self.valid(*col),
        ensures
            r == col.has_key(key.0 as int),
    {
        col.contains_key(key)
    }

    /// The keys of the viewed mapping, in increasing order.
    pub fn keys(&self, col: &Column<T>) -> (r: Vec<Key>)
        requires
            self.valid(*col),
        ensures
            r@.len() == self.entries_seen@.len(),
            forall|i: int| 0 <= i < r@.len() ==> #[trigger] r@[i] == self.entries_seen@[i].key,
            keys_sorted(r@),
            forall|k: int| col.has_key(k) == keys_contain(r@, k),
    {
        col.keys()
    }

    /// Give the view up: the shared structural guard goes back.  The
    /// guard must not still be justifying a cell guard — composite views
    /// release their cell lock first.
    pub fn release<DB: BorrowColumnMut<T>>(self, db: &mut DB)
        requires
            self.valid(old(db).spec_column()),
            old(db).spec_column().lock_state().spec_readers() > cell_guard_sum(
                old(db).spec_column().entries_seq(),
            ),
        ensures
            final(db).spec_column().wf(),
            *final(db) == old(db).with_column(final(db).spec_column()),
            final(db).spec_column().entries == old(db).spec_column().entries,
            final(db).spec_column().lock_state() == (LockState {
                readers: (old(db).spec_column().lock.readers - 1) as usize,
                ..old(db).spec_column().lock
            }),
    {
        let ghost db0 = *old(db);
        let col = db.borrow_column_mut();
        col.read_unlock();
        proof {
            db0.lemma_with_column(*col);
        }
    }
}

} // verus!
