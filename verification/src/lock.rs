use vstd::prelude::*;

verus! {

/// The state of one shared/exclusive lock: how many shared guards are
/// outstanding, and whether the exclusive guard is outstanding.  At most one
/// of the two sides may be in use at a time; that is the well-formedness
/// condition `wf`, which every operation preserves.
///
/// Acquisition is modelled as a fallible step: `try_share` / `try_exclusive`
/// succeed exactly when a real reader/writer lock would grant the request
/// immediately, and otherwise change nothing (the caller would have to
/// wait).
#[derive(Debug, Copy, Clone, PartialEq, Eq, Structural)]
#[verifier::ext_equal]
pub struct LockState {
    pub readers: usize,
    pub writer: bool,
}

impl LockState {
    /// At most one side in use: an exclusive guard excludes all shared ones.
    pub open spec fn wf(self) -> bool {
        !(self.writer && self.readers > 0)
    }

    pub open spec fn spec_readers(self) -> nat {
        self.readers as nat
    }

    pub open spec fn spec_writer(self) -> bool {
        self.writer
    }

    /// No guard of either kind is outstanding.
    pub open spec fn unlocked(self) -> bool {
        self.readers == 0 && !self.writer
    }

    /// How many guards are outstanding in total.
    pub open spec fn guards(self) -> nat {
        (self.readers + if self.writer {
            1int
        } else {
            0int
        }) as nat
    }

    /// A shared acquisition would be granted now.
    pub open spec fn can_share(self) -> bool {
        !self.writer && self.readers < usize::MAX
    }

    /// An exclusive acquisition would be granted now.
    pub open spec fn can_exclusive(self) -> bool {
        !self.writer && self.readers == 0
    }

    pub fn new() -> (r: LockState)
        ensures
            r.unlocked(),
            r.wf(),
    {
        LockState { readers: 0, writer: false }
    }

    /// Take one shared guard if the lock is free of an exclusive guard.
    pub fn try_share(&mut self) -> (granted: bool)
        requires
            old(self).wf(),
        ensures
            granted == old(self).can_share(),
            granted ==> *final(self) == (LockState {
                readers: (old(self).readers + 1) as usize,
                ..*old(self)
            }),
            !granted ==> *final(self) == *old(self),
            final(self).wf(),
            final(self).spec_writer() == old(self).spec_writer(),
    {
        if !self.writer && self.readers < usize::MAX {
            self.readers = self.readers + 1;
            true
        } else {
            false
        }
    }

    /// Give one shared guard back.
    pub fn drop_share(&mut self)
        requires
            old(self).wf(),
            old(self).spec_readers() > 0,
        ensures
            *final(self) == (LockState { readers: (old(self).readers - 1) as usize, ..*old(self) }),
            final(self).wf(),
    {
        self.readers = self.readers - 1;
    }

    /// Take the exclusive guard if no guard of either kind is outstanding.
    pub fn try_exclusive(&mut self) -> (granted: bool)
        requires
            old(self).wf(),
        ensures
            granted == old(self).can_exclusive(),
            granted ==> *final(self) == (LockState { writer: true, ..*old(self) }),
            !granted ==> *final(self) == *old(self),
            final(self).wf(),
            final(self).spec_readers() == old(self).spec_readers(),
    {
        if !self.writer && self.readers == 0 {
            self.writer = true;
            true
        } else {
            false
        }
    }

    /// Give the exclusive guard back.
    pub fn drop_exclusive(&mut self)
        requires
            old(self).wf(),
            old(self).spec_writer(),
        ensures
            *final(self) == (LockState { writer: false, ..*old(self) }),
            final(self).wf(),
            final(self).unlocked(),
    {
        self.writer = false;
    }

    /// While the exclusive guard is held, no further guard of either kind
    /// can be granted: writers exclude both readers and other writers.
    pub proof fn lemma_exclusive_blocks_all(self)
        requires
            self.wf(),
            self.spec_writer(),
        ensures
            !self.can_share(),
            !self.can_exclusive(),
    {
    }

    /// While at least one shared guard is held, the exclusive guard cannot
    /// be granted, yet further shared guards still can be.
    pub proof fn lemma_shared_blocks_exclusive(self)
        requires
            self.wf(),
            self.spec_readers() > 0,
        ensures
            !self.can_exclusive(),
            self.spec_readers() < usize::MAX ==> self.can_share(),
    {
    }
}

} // verus!
