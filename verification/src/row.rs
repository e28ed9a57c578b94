use vstd::prelude::*;

use crate::key::{keys_contain, keys_sorted, Key};

verus! {

/// The union of two sorted key runs, again sorted: a key is in the
/// result exactly when it is in either argument.
pub fn union_keys(a: &Vec<Key>, b: &Vec<Key>) -> (r: Vec<Key>)
    requires
        keys_sorted(a@),
        keys_sorted(b@),
    ensures
        keys_sorted(r@),
        forall|k: int| keys_contain(r@, k) == (keys_contain(a@, k) || keys_contain(b@, k)),
{
    let mut r: Vec<Key> = Vec::new();
    let mut i: usize = 0;
    let mut j: usize = 0;
    while i < a.len() || j < b.len()
        invariant
            keys_sorted(a@),
            keys_sorted(b@),
            i <= a@.len(),
            j <= b@.len(),
            keys_sorted(r@),
            forall|k: int|
                keys_contain(r@, k) == (keys_contain(a@.take(i as int), k) || keys_contain(
                    b@.take(j as int),
                    k,
                )),
            forall|x: int|
                0 <= x < r@.len() && i < a@.len() ==> (#[trigger] r@[x]).0 < a@[i as int].0,
            forall|x: int|
                0 <= x < r@.len() && j < b@.len() ==> (#[trigger] r@[x]).0 < b@[j as int].0,
        decreases a@.len() - i + b@.len() - j,
    {
        let ghost r0 = r@;
        let ghost i0 = i as int;
        let ghost j0 = j as int;
        let take_a = if i < a.len() {
            if j < b.len() {
                a[i].0 <= b[j].0
            } else {
                true
            }
        } else {
            false
        };
        if take_a {
            let ka = a[i];
            if j < b.len() && b[j].0 == ka.0 {
                j = j + 1;
            }
            r.push(ka);
            i = i + 1;
            proof {
                assert(a@.take(i as int) =~= a@.take(i0).push(ka));
                if j as int != j0 {
                    assert(b@.take(j as int) =~= b@.take(j0).push(ka));
                }
                assert forall|k: int|
                    keys_contain(r@, k) == (keys_contain(a@.take(i as int), k) || keys_contain(
                        b@.take(j as int),
                        k,
                    )) by {
                    if keys_contain(r@, k) {
                        let x = choose|x: int| 0 <= x < r@.len() && (#[trigger] r@[x]).0 == k;
                        if x < r0.len() {
                            assert(r0[x].0 == k);
                            assert(keys_contain(r0, k));
                        }
                    }
                    if keys_contain(a@.take(i as int), k) {
                        let x = choose|x: int|
                            0 <= x < a@.take(i as int).len() && (#[trigger] a@.take(i as int)[x]).0
                                == k;
                        if x < i0 {
                            assert(keys_contain(a@.take(i0), k));
                        } else {
                            assert(r@[r@.len() - 1].0 == k);
                        }
                    }
                    if keys_contain(b@.take(j as int), k) {
                        let x = choose|x: int|
                            0 <= x < b@.take(j as int).len() && (#[trigger] b@.take(j as int)[x]).0
                                == k;
                        if x < j0 {
                            assert(keys_contain(b@.take(j0), k));
                        } else {
                            assert(r@[r@.len() - 1].0 == k);
                        }
                    }
                    if keys_contain(r0, k) {
                        let x = choose|x: int| 0 <= x < r0.len() && (#[trigger] r0[x]).0 == k;
                        assert(r@[x].0 == k);
                        assert(keys_contain(r@, k));
                    }
                    if keys_contain(a@.take(i0), k) {
                        let x = choose|x: int|
                            0 <= x < i0 && (#[trigger] a@.take(i0)[x]).0 == k;
                        assert(a@.take(i as int)[x].0 == k);
                    }
                    if keys_contain(b@.take(j0), k) {
                        let x = choose|x: int|
                            0 <= x < j0 && (#[trigger] b@.take(j0)[x]).0 == k;
                        assert(b@.take(j as int)[x].0 == k);
                    }
                    if k == ka.0 {
                        assert(r@[r@.len() - 1].0 == k);
                        assert(a@.take(i as int)[i0].0 == k);
                    }
                }
            }
        } else {
            let kb = b[j];
            r.push(kb);
            j = j + 1;
            proof {
                assert(b@.take(j as int) =~= b@.take(j0).push(kb));
                assert forall|k: int|
                    keys_contain(r@, k) == (keys_contain(a@.take(i as int), k) || keys_contain(
                        b@.take(j as int),
                        k,
                    )) by {
                    if keys_contain(r@, k) {
                        let x = choose|x: int| 0 <= x < r@.len() && (#[trigger] r@[x]).0 == k;
                        if x < r0.len() {
                            assert(r0[x].0 == k);
                            assert(keys_contain(r0, k));
                        }
                    }
                    if keys_contain(b@.take(j as int), k) {
                        let x = choose|x: int|
                            0 <= x < b@.take(j as int).len() && (#[trigger] b@.take(j as int)[x]).0
                                == k;
                        if x < j0 {
                            assert(keys_contain(b@.take(j0), k));
                        } else {
                            assert(r@[r@.len() - 1].0 == k);
                        }
                    }
                    if keys_contain(r0, k) {
                        let x = choose|x: int| 0 <= x < r0.len() && (#[trigger] r0[x]).0 == k;
                        assert(r@[x].0 == k);
                        assert(keys_contain(r@, k));
                    }
                    if keys_contain(b@.take(j0), k) {
                        let x = choose|x: int|
                            0 <= x < j0 && (#[trigger] b@.take(j0)[x]).0 == k;
                        assert(b@.take(j as int)[x].0 == k);
                    }
                    if k == kb.0 {
                        assert(r@[r@.len() - 1].0 == k);
                        assert(b@.take(j as int)[j0].0 == k);
                    }
                }
            }
        }
    }
    proof {
        assert(a@.take(a@.len() as int) =~= a@);
        assert(b@.take(b@.len() as int) =~= b@);
    }
    r
}

/// Whether the run holds `key`.
fn keys_member(v: &Vec<Key>, key: Key) -> (r: bool)
    ensures
        r == keys_contain(v@, key.0 as int),
{
    let mut i: usize = 0;
    while i < v.len()
        invariant
            i <= v@.len(),
            forall|x: int| 0 <= x < i ==> (#[trigger] v@[x]).0 != key.0,
        decreases v@.len() - i,
    {
        if v[i].0 == key.0 {
            return true;
        }
        i = i + 1;
    }
    false
}

/// The intersection of two sorted key runs, again sorted: a key is in
/// the result exactly when it is in both arguments.
pub fn intersect_keys(a: &Vec<Key>, b: &Vec<Key>) -> (r: Vec<Key>)
    requires
        keys_sorted(a@),
        keys_sorted(b@),
    ensures
        keys_sorted(r@),
        forall|k: int| keys_contain(r@, k) == (keys_contain(a@, k) && keys_contain(b@, k)),
{
    let mut r: Vec<Key> = Vec::new();
    let mut i: usize = 0;
    while i < a.len()
        invariant
            keys_sorted(a@),
            i <= a@.len(),
            keys_sorted(r@),
            forall|k: int|
                keys_contain(r@, k) == (keys_contain(a@.take(i as int), k) && keys_contain(b@, k)),
            forall|x: int|
                0 <= x < r@.len() && i < a@.len() ==> (#[trigger] r@[x]).0 < a@[i as int].0,
        decreases a@.len() - i,
    {
        let ghost r0 = r@;
        let ghost i0 = i as int;
        let ka = a[i];
        let hit = keys_member(b, ka);
        if hit {
            r.push(ka);
        }
        i = i + 1;
        proof {
            assert(a@.take(i as int) =~= a@.take(i0).push(ka));
            assert forall|k: int|
                keys_contain(r@, k) == (keys_contain(a@.take(i as int), k) && keys_contain(
                    b@,
                    k,
                )) by {
                if keys_contain(r@, k) {
                    let x = choose|x: int| 0 <= x < r@.len() && (#[trigger] r@[x]).0 == k;
                    if x < r0.len() {
                        assert(r0[x].0 == k);
                        assert(keys_contain(r0, k));
                    } else {
                        assert(k == ka.0);
                        assert(a@.take(i as int)[i0].0 == k);
                    }
                }
                if keys_contain(r0, k) {
                    let x = choose|x: int| 0 <= x < r0.len() && (#[trigger] r0[x]).0 == k;
                    assert(r@[x].0 == k);
                }
                if keys_contain(a@.take(i0), k) {
                    let x = choose|x: int| 0 <= x < i0 && (#[trigger] a@.take(i0)[x]).0 == k;
                    assert(a@.take(i as int)[x].0 == k);
                }
                if keys_contain(a@.take(i as int), k) && keys_contain(b@, k) {
                    let x = choose|x: int|
                        0 <= x < i0 + 1 && (#[trigger] a@.take(i as int)[x]).0 == k;
                    if x < i0 {
                        assert(keys_contain(a@.take(i0), k));
                    } else {
                        assert(k == ka.0);
                        assert(hit);
                        assert(r@[r@.len() - 1].0 == k);
                    }
                }
            }
        }
    }
    proof {
        assert(a@.take(a@.len() as int) =~= a@);
    }
    r
}

/// A virtual row: a fixed, type-level set of (column type, access mode)
/// fields, composed on demand over any aggregate that satisfies each
/// field's column capability.  Each operation works on every field's
/// column in the row's declared field order; across columns there is no
/// atomicity — `insert` and `remove` go one column at a time.
///
/// Lock acquisition order within any one view or row is always column
/// before cell, and fields go in the row's declared field order; rows
/// declaring the same columns in different orders could deadlock each
/// other in a concurrent setting, so one global column order should be
/// kept.
///
/// The spec functions name, per implementation, what the contracts talk
/// about: which columns take part, when they are all acquirable, what is
/// stored under a key, and what counts as untouched.
pub trait Row<DB>: Sized {
    /// The values one row carries, one component per field.
    type Insert;

    /// Every field column is well formed.
    spec fn wf_db(db: DB) -> bool;

    /// Every field column's structural lock can be taken shared.
    spec fn readable(db: DB) -> bool;

    /// Every field column is fully unlocked (no structural and no cell
    /// guard outstanding).
    spec fn quiescent(db: DB) -> bool;

    /// The key has a cell in every field column.
    spec fn present(db: DB, k: int) -> bool;

    /// The key has a cell in at least one field column.
    spec fn in_any(db: DB, k: int) -> bool;

    /// The cell locks at `key` are free for the access mode each field
    /// declares.
    spec fn cells_free(db: DB, key: Key) -> bool;

    /// The components stored under `key` across the field columns.
    spec fn row_values(db: DB, key: Key) -> Self::Insert;

    /// Every field column's mapping is untouched at every key other
    /// than `key` — cells, values and cell locks alike.
    spec fn others_unchanged(pre: DB, post: DB, key: Key) -> bool;

    /// Every field column's mapping (keys and values) is untouched;
    /// locks may differ.
    spec fn maps_unchanged(pre: DB, post: DB) -> bool;

    /// The bundle of views making up this row is live for the
    /// aggregate's current state.
    spec fn row_valid(self, db: DB) -> bool;

    /// Compose the row over `key`: acquire one cell view per field, in
    /// field order, column lock before cell lock.  The key must be
    /// present in every field column — callers check `keys` /
    /// `common_keys` first.  No value changes; only lock counts move.
    fn new(db: &mut DB, key: Key) -> (r: Self)
        requires
            Self::wf_db(*old(db)),
            Self::readable(*old(db)),
            Self::present(*old(db), key.0 as int),
            Self::cells_free(*old(db), key),
        ensures
            Self::wf_db(*final(db)),
            r.row_valid(*final(db)),
            Self::present(*final(db), key.0 as int),
            Self::maps_unchanged(*old(db), *final(db)),
            Self::row_values(*final(db), key) == Self::row_values(*old(db), key),
    ;

    /// Store one row under `key`: per field, in field order, take the
    /// column's exclusive lock, insert the component, release.  Columns
    /// are written one at a time, with no cross-column atomicity: a
    /// concurrent reader may see some fields present and others not yet.
    fn insert(db: &mut DB, key: Key, row: Self::Insert)
        requires
            Self::wf_db(*old(db)),
            Self::quiescent(*old(db)),
        ensures
            Self::wf_db(*final(db)),
            Self::quiescent(*final(db)),
            Self::present(*final(db), key.0 as int),
            Self::row_values(*final(db), key) == row,
            Self::others_unchanged(*old(db), *final(db), key),
    ;

    /// Drop the row under `key`: per field, in field order, take the
    /// column's exclusive lock, remove the cell, release.  Sequential
    /// across columns, like `insert`.
    fn remove(db: &mut DB, key: Key)
        requires
            Self::wf_db(*old(db)),
            Self::quiescent(*old(db)),
        ensures
            Self::wf_db(*final(db)),
            Self::quiescent(*final(db)),
            !Self::in_any(*final(db), key.0 as int),
            Self::others_unchanged(*old(db), *final(db), key),
    ;

    /// The union of the field columns' key sets, in increasing order.
    /// Acquires and releases a read view per column; the aggregate comes
    /// back exactly as it was.
    fn keys(db: &mut DB) -> (r: Vec<Key>)
        requires
            Self::wf_db(*old(db)),
            Self::readable(*old(db)),
        ensures
            *final(db) == *old(db),
            keys_sorted(r@),
            forall|k: int| keys_contain(r@, k) == Self::in_any(*old(db), k),
    ;

    /// The intersection of the field columns' key sets, in increasing
    /// order: the only key set for which `new` is guaranteed to find
    /// every field — and stale the moment the locks are dropped, since
    /// none is held across the two calls.
    fn common_keys(db: &mut DB) -> (r: Vec<Key>)
        requires
            Self::wf_db(*old(db)),
            Self::readable(*old(db)),
        ensures
            *final(db) == *old(db),
            keys_sorted(r@),
            forall|k: int| keys_contain(r@, k) == Self::present(*old(db), k),
    ;
}

} // verus!
