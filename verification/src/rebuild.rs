//! Rebuild policy for the top-level hierarchy.
//!
//! Two states, `Dirty` and `Clean`, starting `Dirty` so the first frame
//! builds.  Any change to a tracked instance's transform or mesh binding, or
//! an addition or removal, marks the policy `Dirty`; at the pre-draw
//! synchronization point the scene rebuilds exactly when the policy is
//! `Dirty` and becomes `Clean`, so no frame ever draws against a hierarchy
//! older than the instance set it renders.  The rebuild counter makes the
//! policy's decisions observable.

use vstd::prelude::*;

verus! {

/// The dirty-flag state machine and its observable rebuild counter.
#[derive(Clone, Copy, PartialEq, Eq, Structural, Debug)]
pub struct RebuildPolicy {
    pub dirty: bool,
    pub rebuild_count: u64,
}

impl RebuildPolicy {
    /// A fresh policy starts `Dirty`, forcing the initial build.
    pub fn new() -> (r: RebuildPolicy)
        ensures
            r.dirty,
            r.rebuild_count == 0,
    {
        RebuildPolicy { dirty: true, rebuild_count: 0 }
    }

    /// Folds one change observation in: once dirty, the policy stays dirty
    /// until the next synchronization point.
    pub fn note_change(&mut self, changed: bool)
        ensures
            final(self).dirty == (old(self).dirty || changed),
            final(self).rebuild_count == old(self).rebuild_count,
    {
        if changed {
            self.dirty = true;
        }
    }

    /// An instance was added, removed or rebound: the next frame rebuilds.
    pub fn mark_dirty(&mut self)
        ensures
            final(self).dirty,
            final(self).rebuild_count == old(self).rebuild_count,
    {
        self.dirty = true;
    }

    /// Whether the next synchronization point will rebuild.
    pub fn needs_rebuild(&self) -> (r: bool)
        ensures
            r == self.dirty,
    {
        self.dirty
    }

    /// The per-frame pre-draw synchronization point: reports whether the
    /// caller must rebuild now (exactly when the policy was dirty), counts
    /// that rebuild, and leaves the policy clean.  An unchanged frame
    /// therefore reuses the cached hierarchy and the counter stands still.
    pub fn pre_draw_sync(&mut self) -> (rebuilt: bool)
        requires
            old(self).rebuild_count < u64::MAX,
        ensures
            rebuilt == old(self).dirty,
            !final(self).dirty,
            final(self).rebuild_count == old(self).rebuild_count + (if old(self).dirty {
                1int
            } else {
                0int
            }),
    {
        let was_dirty = self.dirty;
        if was_dirty {
            self.rebuild_count = self.rebuild_count + 1;
        }
        self.dirty = false;
        was_dirty
    }
}

/// Change detection over per-instance version counters: each tracked
/// instance carries a monotonically increasing version, and the set is
/// considered changed exactly when the current versions differ anywhere —
/// including in length, which covers additions and removals — from those
/// observed at the last successful build.
pub fn versions_changed(current: &Vec<u64>, observed: &Vec<u64>) -> (r: bool)
    ensures
        r == (current@ != observed@),
{
    if current.len() != observed.len() {
        proof {
            assert(current@ != observed@);
        }
        return true;
    }
    let mut i: usize = 0;
    while i < current.len()
        invariant
            i <= current@.len(),
            current@.len() == observed@.len(),
            forall|j: int| 0 <= j < i ==> (#[trigger] current@[j]) == observed@[j],
        decreases current@.len() - i,
    {
        if current[i] != observed[i] {
            proof {
                assert(current@[i as int] != observed@[i as int]);
            }
            return true;
        }
        i = i + 1;
    }
    proof {
        assert(current@ =~= observed@);
    }
    false
}

} // verus!
