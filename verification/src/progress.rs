//! The progress reporter: a monotone counter bounded by the pixel total,
//! refreshed at a bounded cadence rather than on every pixel. It is purely
//! observational: the render contracts never mention it when pinning the
//! image down, so removing it cannot change a render's output.

use vstd::prelude::*;

verus! {

/// The refresh batch: one thousandth of the total, at least one.
pub open spec fn batch_of(total: u64) -> u64 {
    if total / 1000 >= 1 {
        total / 1000
    } else {
        1
    }
}

/// Observes pixel-completion events during a render.
pub struct ProgressReporter {
    pub total: u64,
    pub completed: u64,
    pub batch: u64,
}

impl ProgressReporter {
    /// The counter never runs past the total, and the batch is fixed.
    pub open spec fn wf(self) -> bool {
        &&& self.completed <= self.total
        &&& self.batch == batch_of(self.total)
    }

    /// A fresh reporter for `total` pixels.
    pub fn new(total: u64) -> (r: ProgressReporter)
        ensures
            r.wf(),
            r.total == total,
            r.completed == 0,
    {
        let batch = if total / 1000 >= 1 {
            total / 1000
        } else {
            1
        };
        ProgressReporter { total, completed: 0, batch }
    }

    /// One more pixel is done.
    pub fn record(&mut self)
        requires
            old(self).wf(),
            old(self).completed < old(self).total,
        ensures
            final(self).wf(),
            final(self).total == old(self).total,
            final(self).batch == old(self).batch,
            final(self).completed == old(self).completed + 1,
    {
        self.completed = self.completed + 1;
    }

    /// Whether the visual indicator should be redrawn now: only at batch
    /// boundaries or at the very end, so a refresh happens at most once per
    /// `batch` completions.
    pub fn should_refresh(&self) -> (r: bool)
        requires
            self.wf(),
        ensures
            r == (self.completed % self.batch == 0 || self.completed == self.total),
    {
        self.completed % self.batch == 0 || self.completed == self.total
    }
}

} // verus!
