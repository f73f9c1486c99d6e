use vstd::prelude::*;
use crate::backlight::{abs_spec, LUX_LIMIT};

verus! {

/// The relative change between the last reported baseline and a fresh
/// reading, as an integer percentage. The divisor is held at one when the
/// baseline is zero (a fully dark room), so the ratio is always defined.
pub open spec fn ratio_spec(baseline: int, current: int) -> int {
    abs_spec(baseline - current) * 100 / (if baseline < 1 {
        1int
    } else {
        baseline
    })
}

/// A reading is significant when it differs from the baseline by more than
/// 25%. Only significant readings are reported to the actuator.
pub open spec fn significant_change(baseline: int, current: int) -> bool {
    ratio_spec(baseline, current) > 25
}

/// The change detector of the ambient-light poll loop. It keeps the last
/// *reported* reading as its baseline: readings within 25% of it are
/// swallowed, a reading beyond that is emitted and becomes the new baseline.
pub struct AmbientMonitor {
    pub baseline: i32,
}

impl AmbientMonitor {
    /// The baseline is a lux reading the controller accepts.
    pub open spec fn wf(self) -> bool {
        0 <= self.baseline <= LUX_LIMIT
    }

    /// Starts the detector from its first reading, which is reported to
    /// nobody: it only seeds the baseline.
    pub fn new(baseline: i32) -> (m: AmbientMonitor)
        requires
            0 <= baseline <= LUX_LIMIT,
        ensures
            m.baseline == baseline,
            m.wf(),
    {
        AmbientMonitor { baseline }
    }

    /// Judges one fresh reading. Exactly when the relative change against
    /// the last reported baseline exceeds 25%, the reading is returned as
    /// the event to emit and becomes the new baseline; otherwise nothing is
    /// emitted and the baseline stays.
    pub fn observe(&mut self, current: i32) -> (event: Option<i32>)
        requires
            old(self).wf(),
            0 <= current <= LUX_LIMIT,
        ensures
            final(self).wf(),
            significant_change(old(self).baseline as int, current as int) ==> (event == Some(
                current,
            ) && final(self).baseline == current),
            !significant_change(old(self).baseline as int, current as int) ==> (event is None
                && *final(self) == *old(self)),
    {
        let diff: i32 = if self.baseline > current {
            self.baseline - current
        } else {
            current - self.baseline
        };
        let denom: i32 = if self.baseline < 1 {
            1
        } else {
            self.baseline
        };
        let ratio: i32 = diff * 100 / denom;
        if ratio > 25 {
            self.baseline = current;
            Some(current)
        } else {
            None
        }
    }
}

} // verus!
