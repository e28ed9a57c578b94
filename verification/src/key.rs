use vstd::prelude::*;

verus! {

/// An opaque, totally ordered row identifier wrapping an ordinal index.
/// A key names a row position across all columns; no column is required to
/// hold a cell for every key.
#[derive(Debug, Default, Copy, Clone, PartialEq, Eq, PartialOrd, Ord, Hash, Structural)]
pub struct Key(pub usize);

impl Key {
    /// The ordinal the key wraps, as a plain integer.
    pub fn ordinal(self) -> (r: usize)
        ensures
            r == self.0,
    {
        self.0
    }
}

impl From<usize> for Key {
    fn from(ordinal: usize) -> (r: Key)
        ensures
            r == Key(ordinal),
    {
        Key(ordinal)
    }
}

impl vstd::std_specs::convert::FromSpecImpl<usize> for Key {
    open spec fn obeys_from_spec() -> bool {
        true
    }

    open spec fn from_spec(ordinal: usize) -> Key {
        Key(ordinal)
    }
}

impl From<Key> for usize {
    fn from(key: Key) -> (r: usize)
        ensures
            r == key.0,
    {
        key.0
    }
}

impl vstd::std_specs::convert::FromSpecImpl<Key> for usize {
    open spec fn obeys_from_spec() -> bool {
        true
    }

    open spec fn from_spec(key: Key) -> usize {
        key.0
    }
}

/// Keys strictly increase along the run: sorted, free of duplicates.
pub open spec fn keys_sorted(s: Seq<Key>) -> bool {
    forall|i: int, j: int| 0 <= i < j < s.len() ==> (#[trigger] s[i]).0 < (#[trigger] s[j]).0
}

/// Whether the run holds a key with ordinal `k`.
pub open spec fn keys_contain(s: Seq<Key>, k: int) -> bool {
    exists|i: int| 0 <= i < s.len() && (#[trigger] s[i]).0 == k
}

} // verus!
