use vstd::prelude::*;

use crate::key::{keys_contain, keys_sorted, Key};
use crate::lock::LockState;

verus! {

/// One storage slot of a column: a single value together with the value
/// lock that guards it, independent of the column's structural lock.
#[verifier::ext_equal]
pub struct Cell<T> {
    pub value: T,
    pub lock: LockState,
}

impl<T> Cell<T> {
    pub open spec fn wf(self) -> bool {
        self.lock.wf()
    }

    pub fn new(value: T) -> (r: Cell<T>)
        ensures
            r.value == value,
            r.lock.unlocked(),
            r.wf(),
    {
        Cell { value, lock: LockState::new() }
    }
}

/// One entry of a column's ordered mapping: a key and the cell stored
/// under it.
#[verifier::ext_equal]
pub struct Entry<T> {
    pub key: Key,
    pub cell: Cell<T>,
}

/// Keys strictly increase along the run of entries: ordered, no duplicates.
pub open spec fn entries_sorted<T>(s: Seq<Entry<T>>) -> bool {
    forall|i: int, j: int|
        0 <= i < j < s.len() ==> (#[trigger] s[i].key).0 < (#[trigger] s[j].key).0
}

/// Every cell's value lock is internally consistent.
pub open spec fn cells_wf<T>(s: Seq<Entry<T>>) -> bool {
    forall|i: int| 0 <= i < s.len() ==> (#[trigger] s[i].cell.lock).wf()
}

/// Whether some entry of the run carries ordinal `k`.
pub open spec fn has_entry<T>(s: Seq<Entry<T>>, k: int) -> bool {
    exists|i: int| 0 <= i < s.len() && (#[trigger] s[i].key).0 == k
}

/// The position of ordinal `k` in the run (meaningful when `has_entry`;
/// unique when the run is sorted).
pub open spec fn entry_index<T>(s: Seq<Entry<T>>, k: int) -> int {
    choose|i: int| 0 <= i < s.len() && (#[trigger] s[i].key).0 == k
}

/// The total number of cell guards outstanding across a run of entries.
/// The column invariant keeps this below or equal to the number of shared
/// structural guards: every cell guard is justified by one column reader.
pub open spec fn cell_guard_sum<T>(s: Seq<Entry<T>>) -> nat
    decreases s.len(),
{
    if s.len() == 0 {
        0
    } else {
        cell_guard_sum(s.drop_last()) + s.last().cell.lock.guards()
    }
}

pub proof fn lemma_cell_guard_sum_index<T>(s: Seq<Entry<T>>, i: int)
    requires
        0 <= i < s.len(),
    ensures
        cell_guard_sum(s) >= s[i].cell.lock.guards(),
    decreases s.len(),
{
    if i == s.len() - 1 {
    } else {
        lemma_cell_guard_sum_index(s.drop_last(), i);
    }
}

pub proof fn lemma_cell_guard_sum_update<T>(s: Seq<Entry<T>>, i: int, e: Entry<T>)
    requires
        0 <= i < s.len(),
    ensures
        cell_guard_sum(s.update(i, e)) + s[i].cell.lock.guards() == cell_guard_sum(s)
            + e.cell.lock.guards(),
    decreases s.len(),
{
    if i == s.len() - 1 {
        assert(s.update(i, e).drop_last() =~= s.drop_last());
    } else {
        assert(s.update(i, e).drop_last() =~= s.drop_last().update(i, e));
        lemma_cell_guard_sum_update(s.drop_last(), i, e);
    }
}

pub proof fn lemma_cell_guard_sum_zero<T>(s: Seq<Entry<T>>)
    requires
        cell_guard_sum(s) == 0,
    ensures
        forall|i: int| 0 <= i < s.len() ==> (#[trigger] s[i].cell.lock).guards() == 0,
    decreases s.len(),
{
    if s.len() > 0 {
        lemma_cell_guard_sum_zero(s.drop_last());
        assert forall|i: int| 0 <= i < s.len() implies (#[trigger] s[i].cell.lock).guards()
            == 0 by {
            if i < s.len() - 1 {
                assert(s.drop_last()[i] == s[i]);
            }
        }
    }
}

pub proof fn lemma_cell_guard_sum_all_unlocked<T>(s: Seq<Entry<T>>)
    requires
        forall|i: int| 0 <= i < s.len() ==> (#[trigger] s[i].cell.lock).guards() == 0,
    ensures
        cell_guard_sum(s) == 0,
    decreases s.len(),
{
    if s.len() > 0 {
        assert forall|i: int|
            0 <= i < s.drop_last().len() implies (#[trigger] s.drop_last()[i].cell.lock).guards()
            == 0 by {
            assert(s.drop_last()[i] == s[i]);
        }
        lemma_cell_guard_sum_all_unlocked(s.drop_last());
    }
}

/// Replacing one entry's cell by another cell under the same key leaves
/// every other key's entry, and the position of every key, unchanged.
pub proof fn lemma_update_entry_frame<T>(s: Seq<Entry<T>>, i: int, e: Entry<T>)
    requires
        entries_sorted(s),
        0 <= i < s.len(),
        e.key == s[i].key,
    ensures
        entries_sorted(s.update(i, e)),
        forall|k: int| has_entry(s.update(i, e), k) == has_entry(s, k),
        forall|k: int|
            has_entry(s, k) ==> #[trigger] entry_index(s.update(i, e), k) == entry_index(s, k),
        entry_index(s, s[i].key.0 as int) == i,
        has_entry(s, s[i].key.0 as int),
{
    let s2 = s.update(i, e);
    assert forall|k: int| has_entry(s2, k) == has_entry(s, k) by {
        if has_entry(s, k) {
            let j = entry_index(s, k);
            assert(s2[j].key == s[j].key);
            assert(has_entry(s2, k));
        }
        if has_entry(s2, k) {
            let j = entry_index(s2, k);
            assert(s[j].key == s2[j].key);
            assert(has_entry(s, k));
        }
    }
    assert forall|k: int| has_entry(s, k) implies #[trigger] entry_index(s2, k) == entry_index(
        s,
        k,
    ) by {
        let j = entry_index(s, k);
        let j2 = entry_index(s2, k);
        assert(s2[j].key == s[j].key);
        assert(s[j2].key == s2[j2].key);
        lemma_sorted_entry_unique(s, j, j2);
    }
    let k0 = s[i].key.0 as int;
    assert(has_entry(s, k0));
    lemma_sorted_entry_unique(s, i, entry_index(s, k0));
}

/// In a sorted run an ordinal occurs at one position only.
pub proof fn lemma_sorted_entry_unique<T>(s: Seq<Entry<T>>, i: int, j: int)
    requires
        entries_sorted(s),
        0 <= i < s.len(),
        0 <= j < s.len(),
        s[i].key.0 == s[j].key.0,
    ensures
        i == j,
{
}

/// Inserting a fresh entry at its ordered position keeps the run sorted
/// and leaves every other key's entry unchanged.
pub proof fn lemma_insert_entry_frame<T>(s: Seq<Entry<T>>, p: int, e: Entry<T>)
    requires
        entries_sorted(s),
        0 <= p <= s.len(),
        forall|j: int| 0 <= j < p ==> (#[trigger] s[j].key).0 < e.key.0,
        forall|j: int| p <= j < s.len() ==> (#[trigger] s[j].key).0 > e.key.0,
    ensures
        entries_sorted(s.insert(p, e)),
        has_entry(s.insert(p, e), e.key.0 as int),
        entry_index(s.insert(p, e), e.key.0 as int) == p,
        forall|k: int| k != e.key.0 as int ==> has_entry(s.insert(p, e), k) == has_entry(s, k),
        forall|k: int|
            k != e.key.0 as int && has_entry(s, k) ==> s.insert(p, e)[entry_index(
                s.insert(p, e),
                k,
            )] == s[#[trigger] entry_index(s, k)],
{
    let s2 = s.insert(p, e);
    assert(s2.len() == s.len() + 1);
    assert forall|j: int| 0 <= j < s2.len() implies #[trigger] s2[j] == (if j < p {
        s[j]
    } else if j == p {
        e
    } else {
        s[j - 1]
    }) by {}
    assert(entries_sorted(s2));
    assert(s2[p] == e);
    assert(has_entry(s2, e.key.0 as int));
    assert forall|k: int| k != e.key.0 as int implies has_entry(s2, k) == has_entry(s, k) by {
        if has_entry(s, k) {
            let j = entry_index(s, k);
            if j < p {
                assert(s2[j].key == s[j].key);
            } else {
                assert(s2[j + 1].key == s[j].key);
            }
            assert(has_entry(s2, k));
        }
        if has_entry(s2, k) {
            let j = entry_index(s2, k);
            if j < p {
                assert(s[j].key == s2[j].key);
            } else {
                assert(j != p);
                assert(s[j - 1].key == s2[j].key);
            }
            assert(has_entry(s, k));
        }
    }
    assert(entry_index(s2, e.key.0 as int) == p) by {
        let j = entry_index(s2, e.key.0 as int);
        lemma_sorted_entry_unique(s2, j, p);
    }
    assert forall|k: int| k != e.key.0 as int && has_entry(s, k) implies s2[entry_index(s2, k)]
        == s[#[trigger] entry_index(s, k)] by {
        let j = entry_index(s, k);
        let j2 = entry_index(s2, k);
        if j < p {
            assert(s2[j].key == s[j].key);
            lemma_sorted_entry_unique(s2, j2, j);
        } else {
            assert(s2[j + 1].key == s[j].key);
            lemma_sorted_entry_unique(s2, j2, j + 1);
        }
    }
}

/// Removing one entry leaves every other key's entry unchanged.
pub proof fn lemma_remove_entry_frame<T>(s: Seq<Entry<T>>, i: int)
    requires
        entries_sorted(s),
        0 <= i < s.len(),
    ensures
        entries_sorted(s.remove(i)),
        !has_entry(s.remove(i), s[i].key.0 as int),
        forall|k: int|
            k != s[i].key.0 as int ==> has_entry(s.remove(i), k) == has_entry(s, k),
        forall|k: int|
            k != s[i].key.0 as int && has_entry(s, k) ==> s.remove(i)[entry_index(s.remove(i), k)]
                == s[#[trigger] entry_index(s, k)],
{
    let s2 = s.remove(i);
    assert(s2.len() == s.len() - 1);
    assert forall|j: int| 0 <= j < s2.len() implies #[trigger] s2[j] == (if j < i {
        s[j]
    } else {
        s[j + 1]
    }) by {}
    assert(entries_sorted(s2));
    assert(!has_entry(s2, s[i].key.0 as int)) by {
        if has_entry(s2, s[i].key.0 as int) {
            let j = entry_index(s2, s[i].key.0 as int);
            if j < i {
                lemma_sorted_entry_unique(s, j, i);
            } else {
                lemma_sorted_entry_unique(s, j + 1, i);
            }
        }
    }
    assert forall|k: int| k != s[i].key.0 as int implies has_entry(s2, k) == has_entry(s, k) by {
        if has_entry(s, k) {
            let j = entry_index(s, k);
            assert(j != i);
            if j < i {
                assert(s2[j].key == s[j].key);
            } else {
                assert(s2[j - 1].key == s[j].key);
            }
            assert(has_entry(s2, k));
        }
        if has_entry(s2, k) {
            let j = entry_index(s2, k);
            if j < i {
                assert(s[j].key == s2[j].key);
            } else {
                assert(s[j + 1].key == s2[j].key);
            }
            assert(has_entry(s, k));
        }
    }
    assert forall|k: int| k != s[i].key.0 as int && has_entry(s, k) implies s2[entry_index(s2, k)]
        == s[#[trigger] entry_index(s, k)] by {
        let j = entry_index(s, k);
        assert(j != i);
        let j2 = entry_index(s2, k);
        if j < i {
            assert(s2[j].key == s[j].key);
            lemma_sorted_entry_unique(s2, j2, j);
        } else {
            assert(s2[j - 1].key == s[j].key);
            lemma_sorted_entry_unique(s2, j2, j - 1);
        }
    }
}


/// The capability that an aggregate exposes a [`Column<T>`]: satisfied by
/// any type that can hand out a shared reference to its column of `T`,
/// resolved purely from the static type `T`.  `spec_column` is the
/// spec-level image of that column.
pub trait BorrowColumn<T> {
    spec fn spec_column(&self) -> Column<T>;

    fn borrow_column(&self) -> (c: &Column<T>)
        ensures
            *c == self.spec_column(),
    ;
}

/// The capability that an aggregate exposes a [`Column<T>`] for mutation
/// (which lock acquisition is, in this model).  `with_column` describes
/// the aggregate with its column of `T` replaced and everything else as
/// it was; the two lemmas oblige every implementor to that reading.
pub trait BorrowColumnMut<T>: BorrowColumn<T> + Sized {
    spec fn with_column(&self, c: Column<T>) -> Self;

    /// Replacing the column stores exactly that column.
    proof fn lemma_with_column(&self, c: Column<T>)
        ensures
            self.with_column(c).spec_column() == c,
    ;

    /// Replacing the column by itself changes nothing.
    proof fn lemma_with_same_column(&self)
        ensures
            self.with_column(self.spec_column()) == *self,
    ;

    /// Replacing the column twice is the same as replacing it once with
    /// the later value.
    proof fn lemma_with_column_twice(&self, c1: Column<T>, c2: Column<T>)
        ensures
            self.with_column(c1).with_column(c2) == self.with_column(c2),
    ;

    fn borrow_column_mut(&mut self) -> (c: &mut Column<T>)
        ensures
            *c == old(self).spec_column(),
            *final(self) == old(self).with_column(*final(c)),
    ;
}

/// A column: an ordered mapping from [`Key`] to [`Cell`], the mapping
/// itself guarded by a structural shared/exclusive lock.  The structural
/// lock must be held for the whole time any reference into the mapping is
/// outstanding: a cell's own lock never protects against the column
/// rearranging or dropping that cell.
#[verifier::ext_equal]
pub struct Column<T> {
    pub entries: Vec<Entry<T>>,
    pub lock: LockState,
}

impl<T> Column<T> {
    pub open spec fn entries_seq(self) -> Seq<Entry<T>> {
        self.entries@
    }

    pub open spec fn spec_len(self) -> nat {
        self.entries@.len()
    }

    /// The key of the entry at position `i`, as a plain integer.
    pub open spec fn key_at(self, i: int) -> int {
        self.entries@[i].key.0 as int
    }

    /// Keys strictly increase along the mapping: ordered and duplicate-free.
    pub open spec fn sorted(self) -> bool {
        entries_sorted(self.entries@)
    }

    /// Whether some cell is stored under ordinal `k`.
    pub open spec fn has_key(self, k: int) -> bool {
        has_entry(self.entries@, k)
    }

    /// The position of ordinal `k` in the mapping (meaningful when
    /// `has_key(k)`; unique because the keys strictly increase).
    pub open spec fn index_of(self, k: int) -> int {
        entry_index(self.entries@, k)
    }

    /// The value stored under ordinal `k`.
    pub open spec fn value_at(self, k: int) -> T {
        self.entries@[self.index_of(k)].cell.value
    }

    /// The state of the value lock of the cell stored under ordinal `k`.
    pub open spec fn cell_lock(self, k: int) -> LockState {
        self.entries@[self.index_of(k)].cell.lock
    }

    /// The state of the structural lock.
    pub open spec fn lock_state(self) -> LockState {
        self.lock
    }

    /// Well-formedness: both lock layers are consistent, the mapping is
    /// strictly ordered, and every outstanding cell guard is justified by
    /// one outstanding shared structural guard.
    pub open spec fn wf(self) -> bool {
        &&& self.lock.wf()
        &&& entries_sorted(self.entries@)
        &&& cells_wf(self.entries@)
        &&& cell_guard_sum(self.entries@) <= self.lock.spec_readers()
    }

    pub proof fn lemma_index_of_works(self, k: int)
        requires
            self.has_key(k),
        ensures
            0 <= self.index_of(k) < self.spec_len(),
            self.key_at(self.index_of(k)) == k,
    {
    }

    /// With strictly increasing keys, an ordinal occurs at one position
    /// only, so `index_of` names that position.
    pub proof fn lemma_index_unique(self, i: int, j: int)
        requires
            self.sorted(),
            0 <= i < self.spec_len(),
            0 <= j < self.spec_len(),
            self.key_at(i) == self.key_at(j),
        ensures
            i == j,
    {
    }

    pub fn new() -> (r: Column<T>)
        ensures
            r.wf(),
            r.spec_len() == 0,
            forall|k: int| !r.has_key(k),
            r.lock_state().unlocked(),
    {
        Column { entries: Vec::new(), lock: LockState::new() }
    }

    /// Try to take one shared structural guard; readers share, a writer
    /// excludes.  On failure nothing changes: a waiting caller holds no
    /// lock.
    pub fn try_read_lock(&mut self) -> (granted: bool)
        requires
            old(self).wf(),
        ensures
            final(self).wf(),
            granted == old(self).lock_state().can_share(),
            final(self).entries == old(self).entries,
            granted ==> final(self).lock_state() == (LockState {
                readers: (old(self).lock.readers + 1) as usize,
                ..old(self).lock
            }),
            !granted ==> *final(self) == *old(self),
    {
        self.lock.try_share()
    }

    /// Give one shared structural guard back.  The guard being given back
    /// must not still be justifying a cell guard: cell locks are released
    /// before the column lock.
    pub fn read_unlock(&mut self)
        requires
            old(self).wf(),
            old(self).lock_state().spec_readers() > cell_guard_sum(old(self).entries_seq()),
        ensures
            final(self).wf(),
            final(self).entries == old(self).entries,
            final(self).lock_state() == (LockState {
                readers: (old(self).lock.readers - 1) as usize,
                ..old(self).lock
            }),
    {
        self.lock.drop_share();
    }

    /// Try to take the exclusive structural guard; granted only when no
    /// shared guard (and hence, by the invariant, no cell guard) is
    /// outstanding.
    pub fn try_write_lock(&mut self) -> (granted: bool)
        requires
            old(self).wf(),
        ensures
            final(self).wf(),
            granted == old(self).lock_state().can_exclusive(),
            final(self).entries == old(self).entries,
            granted ==> final(self).lock_state() == (LockState { writer: true, ..old(self).lock }),
            granted ==> forall|k: int|
                final(self).has_key(k) ==> (#[trigger] final(self).cell_lock(k)).unlocked(),
            !granted ==> *final(self) == *old(self),
    {
        let granted = self.lock.try_exclusive();
        proof {
            if granted {
                lemma_cell_guard_sum_zero(self.entries@);
                assert forall|k: int| self.has_key(k) implies (
                #[trigger] self.cell_lock(k)).unlocked() by {
                    self.lemma_index_of_works(k);
                }
            }
        }
        granted
    }

    /// Linear scan for the position holding `key`.
    fn find(&self, key: Key) -> (r: Option<usize>)
        ensures
            match r {
                Some(i) => i < self.spec_len() && self.entries_seq()[i as int].key == key,
                None => !self.has_key(key.0 as int),
            },
    {
        let mut i: usize = 0;
        while i < self.entries.len()
            invariant
                i <= self.entries@.len(),
                forall|j: int| 0 <= j < i ==> (#[trigger] self.entries@[j].key).0 != key.0,
            decreases self.entries@.len() - i,
        {
            if self.entries[i].key.0 == key.0 {
                return Some(i);
            }
            i = i + 1;
        }
        None
    }

    /// How many cells the column holds.  Reading the structure needs the
    /// structural lock in either mode.
    pub fn len(&self) -> (r: usize)
        requires
            self.lock_state().guards() > 0,
        ensures
            r == self.spec_len(),
    {
        self.entries.len()
    }

    /// Whether a cell is stored under `key`.  Needs the structural lock in
    /// either mode.
    pub fn contains_key(&self, key: Key) -> (r: bool)
        requires
            self.wf(),
            self.lock_state().guards() > 0,
        ensures
            r == self.has_key(key.0 as int),
    {
        self.find(key).is_some()
    }

    /// The keys of the mapping, in increasing order.  Needs the structural
    /// lock in either mode.
    pub fn keys(&self) -> (r: Vec<Key>)
        requires
            self.wf(),
            self.lock_state().guards() > 0,
        ensures
            r@.len() == self.spec_len(),
            forall|i: int| 0 <= i < r@.len() ==> #[trigger] r@[i] == self.entries_seq()[i].key,
            keys_sorted(r@),
            forall|k: int| self.has_key(k) == keys_contain(r@, k),
    {
        let mut r: Vec<Key> = Vec::new();
        let mut i: usize = 0;
        while i < self.entries.len()
            invariant
                i <= self.entries@.len(),
                r@.len() == i,
                forall|j: int| 0 <= j < i ==> #[trigger] r@[j] == self.entries@[j].key,
            decreases self.entries@.len() - i,
        {
            r.push(self.entries[i].key);
            i = i + 1;
        }
        proof {
            assert forall|k: int| self.has_key(k) == keys_contain(r@, k) by {
                if self.has_key(k) {
                    let j = entry_index(self.entries@, k);
                    assert(r@[j].0 == k);
                }
                if keys_contain(r@, k) {
                    let j = choose|i: int| 0 <= i < r@.len() && (#[trigger] r@[i]).0 == k;
                    assert(self.entries@[j].key.0 == k);
                }
            }
        }
        r
    }

    /// Read the value stored under `key`.  The cell's own lock must be
    /// held, in either mode; holding it implies (through the invariant)
    /// that the structural lock is held shared, so the mapping cannot
    /// shift underneath the reference.
    pub fn read_cell(&self, key: Key) -> (r: &T)
        requires
            self.wf(),
            self.has_key(key.0 as int),
            self.cell_lock(key.0 as int).guards() > 0,
        ensures
            *r == self.value_at(key.0 as int),
    {
        let found = self.find(key);
        proof {
            self.lemma_index_of_works(key.0 as int);
        }
        match found {
            Some(i) => {
                proof {
                    self.lemma_index_unique(i as int, self.index_of(key.0 as int));
                }
                &self.entries[i].cell.value
            },
            None => unreached(),
        }
    }

    /// Overwrite the value stored under `key` through a held exclusive
    /// cell guard.  Nothing else moves: keys, other values and every lock
    /// stay as they were.
    pub fn write_cell(&mut self, key: Key, value: T)
        requires
            old(self).wf(),
            old(self).has_key(key.0 as int),
            old(self).cell_lock(key.0 as int).spec_writer(),
        ensures
            final(self).wf(),
            final(self).lock_state() == old(self).lock_state(),
            forall|k: int| final(self).has_key(k) == old(self).has_key(k),
            final(self).value_at(key.0 as int) == value,
            final(self).cell_lock(key.0 as int) == old(self).cell_lock(key.0 as int),
            forall|k: int|
                k != key.0 as int && old(self).has_key(k) ==> final(self).value_at(k) == old(
                    self,
                ).value_at(k) && final(self).cell_lock(k) == old(self).cell_lock(k),
    {
        let ghost s0 = self.entries@;
        let ghost k0 = key.0 as int;
        proof {
            self.lemma_index_of_works(k0);
        }
        let found = self.find(key);
        match found {
            Some(i) => {
                proof {
                    self.lemma_index_unique(i as int, self.index_of(k0));
                }
                let e = &mut self.entries[i];
                let ghost lock0 = e.cell.lock;
                e.cell.value = value;
                proof {
                    let e2 = Entry { key, cell: Cell { value, lock: lock0 } };
                    assert(self.entries@ =~= s0.update(i as int, e2));
                    lemma_update_entry_frame(s0, i as int, e2);
                    lemma_cell_guard_sum_update(s0, i as int, e2);
                    assert forall|k: int|
                        k != k0 && has_entry(s0, k) implies final(self).value_at(k) == old(
                        self,
                    ).value_at(k) && final(self).cell_lock(k) == old(self).cell_lock(k) by {
                        assert(self.entries@[entry_index(self.entries@, k)] == s0[entry_index(
                            s0,
                            k,
                        )]);
                    }
                }
            },
            None => unreached(),
        }
    }

    /// Try to take one shared guard on the cell stored under `key`.  The
    /// caller must already hold a shared structural guard that no cell
    /// guard is charged to yet: a cell lock is only ever taken under the
    /// column lock.  On failure nothing changes at all.
    pub fn try_cell_read_lock(&mut self, key: Key) -> (granted: bool)
        requires
            old(self).wf(),
            old(self).has_key(key.0 as int),
            old(self).lock_state().spec_readers() > cell_guard_sum(old(self).entries_seq()),
        ensures
            final(self).wf(),
            granted == old(self).cell_lock(key.0 as int).can_share(),
            final(self).lock_state() == old(self).lock_state(),
            forall|k: int| final(self).has_key(k) == old(self).has_key(k),
            forall|k: int|
                old(self).has_key(k) ==> final(self).value_at(k) == old(self).value_at(k),
            forall|k: int|
                k != key.0 as int && old(self).has_key(k) ==> final(self).cell_lock(k) == old(
                    self,
                ).cell_lock(k),
            granted ==> final(self).cell_lock(key.0 as int) == (LockState {
                readers: (old(self).cell_lock(key.0 as int).readers + 1) as usize,
                ..old(self).cell_lock(key.0 as int)
            }),
            granted ==> cell_guard_sum(final(self).entries_seq()) == cell_guard_sum(
                old(self).entries_seq(),
            ) + 1,
            !granted ==> *final(self) == *old(self),
    {
        let ghost s0 = self.entries@;
        let ghost k0 = key.0 as int;
        proof {
            self.lemma_index_of_works(k0);
        }
        let found = self.find(key);
        match found {
            Some(i) => {
                proof {
                    self.lemma_index_unique(i as int, self.index_of(k0));
                    lemma_cell_guard_sum_index(s0, i as int);
                }
                let l = self.entries[i].cell.lock;
                if l.writer || l.readers == usize::MAX {
                    return false;
                }
                let e = &mut self.entries[i];
                let granted = e.cell.lock.try_share();
                proof {
                    if granted {
                        let e2 = Entry {
                            key,
                            cell: Cell {
                                value: s0[i as int].cell.value,
                                lock: LockState {
                                    readers: (s0[i as int].cell.lock.readers + 1) as usize,
                                    ..s0[i as int].cell.lock
                                },
                            },
                        };
                        assert(self.entries@ =~= s0.update(i as int, e2));
                        lemma_update_entry_frame(s0, i as int, e2);
                        lemma_cell_guard_sum_update(s0, i as int, e2);
                        assert forall|k: int| old(self).has_key(k) implies final(self).value_at(k)
                            == old(self).value_at(k) by {
                            if k != k0 {
                                assert(self.entries@[entry_index(self.entries@, k)] == s0[
                                entry_index(s0, k)]);
                            }
                        }
                    } else {
                        assert(self.entries@ =~= s0);
                    }
                }
                granted
            },
            None => unreached(),
        }
    }

    /// Give one shared cell guard back; the shared structural guard that
    /// justified it stays held and is given back separately, afterwards.
    pub fn cell_read_unlock(&mut self, key: Key)
        requires
            old(self).wf(),
            old(self).has_key(key.0 as int),
            old(self).cell_lock(key.0 as int).spec_readers() > 0,
        ensures
            final(self).wf(),
            final(self).lock_state() == old(self).lock_state(),
            forall|k: int| final(self).has_key(k) == old(self).has_key(k),
            forall|k: int|
                old(self).has_key(k) ==> final(self).value_at(k) == old(self).value_at(k),
            forall|k: int|
                k != key.0 as int && old(self).has_key(k) ==> final(self).cell_lock(k) == old(
                    self,
                ).cell_lock(k),
            final(self).cell_lock(key.0 as int) == (LockState {
                readers: (old(self).cell_lock(key.0 as int).readers - 1) as usize,
                ..old(self).cell_lock(key.0 as int)
            }),
            cell_guard_sum(final(self).entries_seq()) + 1 == cell_guard_sum(
                old(self).entries_seq(),
            ),
    {
        let ghost s0 = self.entries@;
        let ghost k0 = key.0 as int;
        proof {
            self.lemma_index_of_works(k0);
        }
        let found = self.find(key);
        match found {
            Some(i) => {
                proof {
                    self.lemma_index_unique(i as int, self.index_of(k0));
                    lemma_cell_guard_sum_index(s0, i as int);
                }
                let e = &mut self.entries[i];
                e.cell.lock.drop_share();
                proof {
                    let e2 = Entry {
                        key,
                        cell: Cell {
                            value: s0[i as int].cell.value,
                            lock: LockState {
                                readers: (s0[i as int].cell.lock.readers - 1) as usize,
                                ..s0[i as int].cell.lock
                            },
                        },
                    };
                    assert(self.entries@ =~= s0.update(i as int, e2));
                    lemma_update_entry_frame(s0, i as int, e2);
                    lemma_cell_guard_sum_update(s0, i as int, e2);
                    assert forall|k: int| old(self).has_key(k) implies final(self).value_at(k)
                        == old(self).value_at(k) by {
                        if k != k0 {
                            assert(self.entries@[entry_index(self.entries@, k)] == s0[entry_index(
                                s0,
                                k,
                            )]);
                        }
                    }
                }
            },
            None => unreached(),
        }
    }

    /// Try to take the exclusive guard on the cell stored under `key`;
    /// granted only while no other guard is outstanding on that cell.
    /// The caller must hold a shared structural guard not yet charged to
    /// any cell guard.  On failure nothing changes at all.
    pub fn try_cell_write_lock(&mut self, key: Key) -> (granted: bool)
        requires
            old(self).wf(),
            old(self).has_key(key.0 as int),
            old(self).lock_state().spec_readers() > cell_guard_sum(old(self).entries_seq()),
        ensures
            final(self).wf(),
            granted == old(self).cell_lock(key.0 as int).can_exclusive(),
            final(self).lock_state() == old(self).lock_state(),
            forall|k: int| final(self).has_key(k) == old(self).has_key(k),
            forall|k: int|
                old(self).has_key(k) ==> final(self).value_at(k) == old(self).value_at(k),
            forall|k: int|
                k != key.0 as int && old(self).has_key(k) ==> final(self).cell_lock(k) == old(
                    self,
                ).cell_lock(k),
            granted ==> final(self).cell_lock(key.0 as int) == (LockState {
                writer: true,
                ..old(self).cell_lock(key.0 as int)
            }),
            granted ==> cell_guard_sum(final(self).entries_seq()) == cell_guard_sum(
                old(self).entries_seq(),
            ) + 1,
            !granted ==> *final(self) == *old(self),
    {
        let ghost s0 = self.entries@;
        let ghost k0 = key.0 as int;
        proof {
            self.lemma_index_of_works(k0);
        }
        let found = self.find(key);
        match found {
            Some(i) => {
                proof {
                    self.lemma_index_unique(i as int, self.index_of(k0));
                    lemma_cell_guard_sum_index(s0, i as int);
                }
                let l = self.entries[i].cell.lock;
                if l.writer || l.readers > 0 {
                    return false;
                }
                let e = &mut self.entries[i];
                let granted = e.cell.lock.try_exclusive();
                proof {
                    if granted {
                        let e2 = Entry {
                            key,
                            cell: Cell {
                                value: s0[i as int].cell.value,
                                lock: LockState { writer: true, ..s0[i as int].cell.lock },
                            },
                        };
                        assert(self.entries@ =~= s0.update(i as int, e2));
                        lemma_update_entry_frame(s0, i as int, e2);
                        lemma_cell_guard_sum_update(s0, i as int, e2);
                        assert forall|k: int| old(self).has_key(k) implies final(self).value_at(k)
                            == old(self).value_at(k) by {
                            if k != k0 {
                                assert(self.entries@[entry_index(self.entries@, k)] == s0[
                                entry_index(s0, k)]);
                            }
                        }
                    } else {
                        assert(self.entries@ =~= s0);
                    }
                }
                granted
            },
            None => unreached(),
        }
    }

    /// Give the exclusive cell guard back; the shared structural guard
    /// that justified it stays held and is given back separately.
    pub fn cell_write_unlock(&mut self, key: Key)
        requires
            old(self).wf(),
            old(self).has_key(key.0 as int),
            old(self).cell_lock(key.0 as int).spec_writer(),
        ensures
            final(self).wf(),
            final(self).lock_state() == old(self).lock_state(),
            forall|k: int| final(self).has_key(k) == old(self).has_key(k),
            forall|k: int|
                old(self).has_key(k) ==> final(self).value_at(k) == old(self).value_at(k),
            forall|k: int|
                k != key.0 as int && old(self).has_key(k) ==> final(self).cell_lock(k) == old(
                    self,
                ).cell_lock(k),
            final(self).cell_lock(key.0 as int) == (LockState {
                writer: false,
                ..old(self).cell_lock(key.0 as int)
            }),
            final(self).cell_lock(key.0 as int).unlocked() == (old(self).cell_lock(
                key.0 as int,
            ).spec_readers() == 0),
            cell_guard_sum(final(self).entries_seq()) + 1 == cell_guard_sum(
                old(self).entries_seq(),
            ),
    {
        let ghost s0 = self.entries@;
        let ghost k0 = key.0 as int;
        proof {
            self.lemma_index_of_works(k0);
        }
        let found = self.find(key);
        match found {
            Some(i) => {
                proof {
                    self.lemma_index_unique(i as int, self.index_of(k0));
                    lemma_cell_guard_sum_index(s0, i as int);
                }
                let e = &mut self.entries[i];
                e.cell.lock.drop_exclusive();
                proof {
                    let e2 = Entry {
                        key,
                        cell: Cell {
                            value: s0[i as int].cell.value,
                            lock: LockState { writer: false, ..s0[i as int].cell.lock },
                        },
                    };
                    assert(self.entries@ =~= s0.update(i as int, e2));
                    lemma_update_entry_frame(s0, i as int, e2);
                    lemma_cell_guard_sum_update(s0, i as int, e2);
                    assert forall|k: int| old(self).has_key(k) implies final(self).value_at(k)
                        == old(self).value_at(k) by {
                        if k != k0 {
                            assert(self.entries@[entry_index(self.entries@, k)] == s0[entry_index(
                                s0,
                                k,
                            )]);
                        }
                    }
                }
            },
            None => unreached(),
        }
    }

    /// Store `value` under `key`, replacing any cell already there.  Needs
    /// the exclusive structural guard, under which no cell guard can be
    /// outstanding, so no held view is ever invalidated.  The new (or
    /// replaced) cell starts unlocked.  Only this one key changes.
    pub fn insert(&mut self, key: Key, value: T)
        requires
            old(self).wf(),
            old(self).lock_state().spec_writer(),
        ensures
            final(self).wf(),
            final(self).lock_state() == old(self).lock_state(),
            final(self).has_key(key.0 as int),
            final(self).value_at(key.0 as int) == value,
            final(self).cell_lock(key.0 as int).unlocked(),
            forall|k: int|
                k != key.0 as int ==> final(self).has_key(k) == old(self).has_key(k),
            forall|k: int|
                k != key.0 as int && old(self).has_key(k) ==> final(self).value_at(k) == old(
                    self,
                ).value_at(k) && final(self).cell_lock(k) == old(self).cell_lock(k),
            final(self).spec_len() == old(self).spec_len() + (if old(self).has_key(key.0 as int) {
                0int
            } else {
                1int
            }),
    {
        let ghost s0 = self.entries@;
        let ghost k0 = key.0 as int;
        proof {
            lemma_cell_guard_sum_zero(s0);
        }
        let mut p: usize = 0;
        while p < self.entries.len() && self.entries[p].key.0 < key.0
            invariant
                p <= self.entries@.len(),
                self.entries@ == s0,
                forall|j: int| 0 <= j < p ==> (#[trigger] self.entries@[j].key).0 < key.0,
            decreases self.entries@.len() - p,
        {
            p = p + 1;
        }
        let e = Entry { key, cell: Cell::new(value) };
        if p < self.entries.len() && self.entries[p].key.0 == key.0 {
            proof {
                assert(has_entry(s0, k0));
                lemma_sorted_entry_unique(s0, p as int, entry_index(s0, k0));
            }
            self.entries.set(p, e);
            proof {
                let e2 = Entry { key, cell: Cell { value, lock: LockState { readers: 0, writer: false } } };
                assert(self.entries@ =~= s0.update(p as int, e2));
                lemma_update_entry_frame(s0, p as int, e2);
                lemma_cell_guard_sum_update(s0, p as int, e2);
                assert forall|k: int|
                    k != k0 && old(self).has_key(k) implies final(self).value_at(k) == old(
                    self,
                ).value_at(k) && final(self).cell_lock(k) == old(self).cell_lock(k) by {
                    assert(self.entries@[entry_index(self.entries@, k)] == s0[entry_index(s0, k)]);
                }
            }
        } else {
            proof {
                assert forall|j: int| p <= j < s0.len() implies (#[trigger] s0[j].key).0
                    > key.0 by {
                    if j > p {
                        assert(s0[p as int].key.0 < s0[j].key.0);
                    }
                }
                assert(!has_entry(s0, k0)) by {
                    if has_entry(s0, k0) {
                        let j = entry_index(s0, k0);
                        assert(s0[j].key.0 == key.0);
                    }
                }
            }
            self.entries.insert(p, e);
            proof {
                let e2 = Entry { key, cell: Cell { value, lock: LockState { readers: 0, writer: false } } };
                assert(self.entries@ =~= s0.insert(p as int, e2));
                lemma_insert_entry_frame(s0, p as int, e2);
                assert forall|i: int|
                    0 <= i < self.entries@.len() implies (#[trigger] self.entries@[i].cell.lock).guards()
                    == 0 by {
                    if i < p {
                        assert(self.entries@[i] == s0[i]);
                    } else if i > p {
                        assert(self.entries@[i] == s0[i - 1]);
                    }
                }
                lemma_cell_guard_sum_all_unlocked(self.entries@);
                assert forall|k: int|
                    k != k0 && old(self).has_key(k) implies final(self).value_at(k) == old(
                    self,
                ).value_at(k) && final(self).cell_lock(k) == old(self).cell_lock(k) by {
                    assert(self.entries@[entry_index(self.entries@, k)] == s0[entry_index(s0, k)]);
                }
            }
        }
    }

    /// Drop the cell stored under `key`, handing its value back.  Needs
    /// the exclusive structural guard, so no view can still be looking at
    /// the dropped cell.  Only this one key changes.
    pub fn remove(&mut self, key: Key) -> (r: Option<T>)
        requires
            old(self).wf(),
            old(self).lock_state().spec_writer(),
        ensures
            final(self).wf(),
            final(self).lock_state() == old(self).lock_state(),
            !final(self).has_key(key.0 as int),
            old(self).has_key(key.0 as int) ==> r == Some(old(self).value_at(key.0 as int)),
            !old(self).has_key(key.0 as int) ==> r is None && *final(self) == *old(self),
            forall|k: int|
                k != key.0 as int ==> final(self).has_key(k) == old(self).has_key(k),
            forall|k: int|
                k != key.0 as int && old(self).has_key(k) ==> final(self).value_at(k) == old(
                    self,
                ).value_at(k) && final(self).cell_lock(k) == old(self).cell_lock(k),
            final(self).spec_len() == old(self).spec_len() - (if old(self).has_key(key.0 as int) {
                1int
            } else {
                0int
            }),
    {
        let ghost s0 = self.entries@;
        let ghost k0 = key.0 as int;
        let found = self.find(key);
        match found {
            Some(i) => {
                proof {
                    assert(has_entry(s0, k0));
                    lemma_sorted_entry_unique(s0, i as int, entry_index(s0, k0));
                    lemma_cell_guard_sum_zero(s0);
                }
                let e = self.entries.remove(i);
                proof {
                    assert(self.entries@ =~= s0.remove(i as int));
                    lemma_remove_entry_frame(s0, i as int);
                    assert forall|j: int|
                        0 <= j < self.entries@.len() implies (#[trigger] self.entries@[j].cell.lock).guards()
                        == 0 by {
                        if j < i {
                            assert(self.entries@[j] == s0[j]);
                        } else {
                            assert(self.entries@[j] == s0[j + 1]);
                        }
                    }
                    lemma_cell_guard_sum_all_unlocked(self.entries@);
                    assert forall|k: int|
                        k != k0 && old(self).has_key(k) implies final(self).value_at(k) == old(
                        self,
                    ).value_at(k) && final(self).cell_lock(k) == old(self).cell_lock(k) by {
                        assert(self.entries@[entry_index(self.entries@, k)] == s0[entry_index(
                            s0,
                            k,
                        )]);
                    }
                }
                Some(e.cell.value)
            },
            None => {
                proof {
                    assert(*final(self) == *old(self));
                }
                None
            },
        }
    }

    /// While the structural lock is fully unlocked no cell guard can be
    /// outstanding either: every cell guard is charged to a structural
    /// reader.
    pub proof fn lemma_unlocked_cells_unlocked(self)
        requires
            self.wf(),
            self.lock_state().unlocked(),
        ensures
            forall|k: int| self.has_key(k) ==> (#[trigger] self.cell_lock(k)).unlocked(),
    {
        lemma_cell_guard_sum_zero(self.entries@);
        assert forall|k: int| self.has_key(k) implies (#[trigger] self.cell_lock(k)).unlocked() by {
            self.lemma_index_of_works(k);
        }
    }

    /// Mutual exclusion at the column level: while the exclusive
    /// structural guard is held, neither a shared nor another exclusive
    /// structural guard can be granted, and while any shared guard is
    /// held, the exclusive guard cannot be granted.
    pub proof fn lemma_structural_mutual_exclusion(self)
        requires
            self.wf(),
        ensures
            self.lock_state().spec_writer() ==> !self.lock_state().can_share()
                && !self.lock_state().can_exclusive(),
            self.lock_state().spec_readers() > 0 ==> !self.lock_state().can_exclusive(),
    {
    }

    /// Cell isolation: an exclusive guard held on the cell under `k1`
    /// blocks every further guard on that same cell, yet leaves any other,
    /// unlocked cell under `k2` fully acquirable.
    pub proof fn lemma_cell_isolation(self, k1: int, k2: int)
        requires
            self.wf(),
            self.has_key(k1),
            self.has_key(k2),
            k1 != k2,
            self.cell_lock(k1).spec_writer(),
            self.cell_lock(k2).unlocked(),
        ensures
            !self.cell_lock(k1).can_share(),
            !self.cell_lock(k1).can_exclusive(),
            self.cell_lock(k2).can_share(),
            self.cell_lock(k2).can_exclusive(),
    {
    }

    /// Read sharing at the cell level: while shared guards are out on a
    /// cell, its exclusive guard cannot be granted, yet further shared
    /// guards still can be; once every shared guard is given back the
    /// exclusive guard becomes grantable again.
    pub proof fn lemma_cell_read_sharing(self, k: int)
        requires
            self.wf(),
            self.has_key(k),
    ensures
            self.cell_lock(k).spec_readers() > 0 ==> !self.cell_lock(k).can_exclusive(),
            self.cell_lock(k).spec_readers() > 0 && self.cell_lock(k).spec_readers() < usize::MAX
                ==> self.cell_lock(k).can_share(),
            self.cell_lock(k).unlocked() ==> self.cell_lock(k).can_exclusive(),
    {
        let i = self.index_of(k);
        self.lemma_index_of_works(k);
        assert(self.entries@[i].cell.lock.wf());
    }

    /// A held composite view pins the structure: while any cell guard is
    /// outstanding, at least one shared structural guard is outstanding
    /// too, so the exclusive structural guard — which every structural
    /// mutation (`insert`, `remove`) requires — cannot be granted.  A view
    /// therefore stays valid, and the value it exposes stays in place,
    /// for as long as it is held.
    pub proof fn lemma_held_view_pins_structure(self, k: int)
        requires
            self.wf(),
            self.has_key(k),
            self.cell_lock(k).guards() > 0,
        ensures
            self.lock_state().spec_readers() > 0,
            !self.lock_state().can_exclusive(),
    {
        self.lemma_index_of_works(k);
        lemma_cell_guard_sum_index(self.entries@, self.index_of(k));
    }

    /// Give the exclusive structural guard back.
    pub fn write_unlock(&mut self)
        requires
            old(self).wf(),
            old(self).lock_state().spec_writer(),
        ensures
            final(self).wf(),
            final(self).entries == old(self).entries,
            final(self).lock_state() == (LockState { writer: false, ..old(self).lock }),
            final(self).lock_state().unlocked(),
    {
        self.lock.drop_exclusive();
    }
}

} // verus!
