//! Survival accounting: the per-thread promotion volume that feeds the
//! survival-ratio predictor at the end of each pause.

use vstd::prelude::*;

verus! {

/// A thread's record of how many bytes it promoted this pause.
pub struct SurvivalRatioPredictorLocal {
    /// Bytes promoted by this thread since the last synchronization.
    pub promote_vol: usize,
}

impl SurvivalRatioPredictorLocal {
    /// A fresh record.
    pub fn new() -> (r: SurvivalRatioPredictorLocal)
        ensures
            r.promote_vol == 0,
    {
        SurvivalRatioPredictorLocal { promote_vol: 0 }
    }

    /// Record the size of one promoted object, saturating at the
    /// counter's range.
    pub fn record_promotion(&mut self, size: usize)
        ensures
            final(self).promote_vol == (if old(self).promote_vol + size <= usize::MAX {
                old(self).promote_vol + size
            } else {
                usize::MAX as int
            }),
    {
        if size <= usize::MAX - self.promote_vol {
            self.promote_vol = self.promote_vol + size;
        } else {
            self.promote_vol = usize::MAX;
        }
    }

    /// Drain this thread's volume into the global total.
    pub fn sync(&mut self, global_promote_vol: &mut usize)
        requires
            *old(global_promote_vol) + old(self).promote_vol <= usize::MAX,
        ensures
            *final(global_promote_vol) == *old(global_promote_vol) + old(self).promote_vol,
            final(self).promote_vol == 0,
    {
        *global_promote_vol = *global_promote_vol + self.promote_vol;
        self.promote_vol = 0;
    }
}

} // verus!
