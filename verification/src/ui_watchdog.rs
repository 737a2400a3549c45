//! Notices when the event loop stalls.
use vstd::prelude::*;

verus! {

/// After more milliseconds than this without a sign of life, the loop has
/// stalled.
pub const STALL_THRESHOLD_MS: u64 = 400;

/// What there is to report.
#[derive(Clone, Copy, Debug, PartialEq, Eq, Structural)]
pub enum Report {
    Nothing,
    /// A stall began; so many milliseconds have passed.
    Stalled(u64),
    /// A stall is over; so long was the longest gap seen.
    Recovered(u64),
}

/// Watches the signs of life.
#[derive(Clone, Copy, Debug, PartialEq, Eq, Structural)]
pub struct Watchdog {
    pub in_stall: bool,
    pub peak: u64,
}

/// The milliseconds since the last sign of life.
pub open spec fn gap(now: u64, beat: u64) -> int {
    if now >= beat {
        now - beat
    } else {
        0
    }
}

impl Watchdog {
    /// Outside a stall nothing is remembered; in one, a gap that counts as one.
    pub open spec fn wf(self) -> bool {
        if self.in_stall {
            self.peak > 400
        } else {
            self.peak == 0
        }
    }

    pub fn new() -> (r: Self)
        ensures
            r.wf(),
            !r.in_stall,
    {
        Watchdog { in_stall: false, peak: 0 }
    }

    /// Takes a sample at the time `now`, where the last sign of life came at
    /// `beat`. Reports a stall when it begins and when it is over.
    pub fn sample(&mut self, now: u64, beat: u64) -> (r: Report)
        requires
            old(self).wf(),
        ensures
            final(self).wf(),
            *final(self) == sampled(*old(self), gap(now, beat) as u64),
            r == if gap(now, beat) > 400 {
                if old(self).in_stall {
                    Report::Nothing
                } else {
                    Report::Stalled(gap(now, beat) as u64)
                }
            } else if old(self).in_stall {
                Report::Recovered(old(self).peak)
            } else {
                Report::Nothing
            },
    {
        let since: u64 = if now >= beat {
            now - beat
        } else {
            0
        };
        if since > STALL_THRESHOLD_MS {
            let r: Report = if self.in_stall {
                Report::Nothing
            } else {
                Report::Stalled(since)
            };
            self.in_stall = true;
            if since > self.peak {
                self.peak = since;
            }
            r
        } else if self.in_stall {
            let r: Report = Report::Recovered(self.peak);
            self.in_stall = false;
            self.peak = 0;
            r
        } else {
            Report::Nothing
        }
    }
}

/// The state of a watchdog after a sample with a gap.
pub open spec fn sampled(w: Watchdog, g: u64) -> Watchdog {
    if g > 400 {
        Watchdog {
            in_stall: true,
            peak: if g > w.peak {
                g
            } else {
                w.peak
            },
        }
    } else {
        Watchdog { in_stall: false, peak: 0 }
    }
}

/// The state of a watchdog after the first `n` samples.
pub open spec fn sampled_upto(gaps: Seq<u64>, n: int) -> Watchdog
    decreases n,
{
    if n <= 0 {
        Watchdog { in_stall: false, peak: 0 }
    } else {
        sampled(sampled_upto(gaps, n - 1), gaps[n - 1])
    }
}

/// Once a stall is over, the gap reported for it is the longest of the samples
/// taken during it: none is longer, and one of them is it.
pub proof fn the_peak_is_the_longest_gap(gaps: Seq<u64>, from: int, n: int)
    requires
        0 <= from < n <= gaps.len(),
        from == 0 || gaps[from - 1] <= 400,
        forall|k: int| from <= k < n ==> #[trigger] gaps[k] > 400,
    ensures
        sampled_upto(gaps, n).in_stall,
        forall|k: int| from <= k < n ==> #[trigger] gaps[k] <= sampled_upto(gaps, n).peak,
        exists|k: int| from <= k < n && #[trigger] gaps[k] == sampled_upto(gaps, n).peak,
    decreases n,
{
    assert(gaps[n - 1] > 400);
    if n - 1 > from {
        the_peak_is_the_longest_gap(gaps, from, n - 1);
    } else {
        assert(sampled_upto(gaps, from).peak == 0);
    }
}

} // verus!
