use vstd::prelude::*;

verus! {

/// A stable identity handle for any entity that participates in recording.
/// It is independent of the host scheduler's transient entity handles, which
/// may be recycled; many histories (one per payload type) may reference the
/// same id.
#[derive(Clone, Copy, Debug, PartialEq, Eq, Structural, Hash)]
pub struct TimeTrackedId {
    pub value: u64,
}

impl TimeTrackedId {
    pub fn new(value: u64) -> (r: TimeTrackedId)
        ensures
            r.value == value,
    {
        TimeTrackedId { value }
    }
}

/// The monotonically increasing counter that assigns [`TimeTrackedId`]s,
/// guarded against reuse: an id handed out once is never handed out again
/// for the lifetime of the generator. One generator serves the whole
/// process; it is passed to whoever spawns trackable entities.
pub struct IdGenerator {
    next: u64,
}

impl IdGenerator {
    /// True of every id this generator has already handed out.
    pub closed spec fn issued(self, id: TimeTrackedId) -> bool {
        id.value < self.next
    }

    /// How many ids were handed out so far.
    pub closed spec fn issued_count(self) -> nat {
        self.next as nat
    }

    pub fn new() -> (r: IdGenerator)
        ensures
            r.issued_count() == 0,
            forall|id: TimeTrackedId| !r.issued(id),
    {
        IdGenerator { next: 0 }
    }

    /// Hands out a fresh id: one that was never issued before, and that
    /// counts as issued from now on. Earlier ids stay issued, so no two
    /// calls ever return the same id.
    pub fn generate(&mut self) -> (id: TimeTrackedId)
        requires
            old(self).issued_count() < u64::MAX,
        ensures
            !old(self).issued(id),
            final(self).issued(id),
            final(self).issued_count() == old(self).issued_count() + 1,
            forall|other: TimeTrackedId|
                old(self).issued(other) ==> final(self).issued(other),
            forall|other: TimeTrackedId|
                final(self).issued(other) ==> old(self).issued(other) || other == id,
    {
        let id = TimeTrackedId { value: self.next };
        self.next = self.next + 1;
        id
    }
}

} // verus!
