//! Stage-level performance counters of Markdown filling.

use vstd::prelude::*;

verus! {

/// Aggregated stage-level performance counters (nanoseconds per stage).
#[derive(Clone, Copy, PartialEq, Eq, Debug, Structural)]
pub struct FillPerfStats {
    /// Number of filling calls recorded.
    pub files: u64,
    pub preprocess_ns: u128,
    pub parse_ns: u128,
    pub transforms_ns: u128,
    pub render_ns: u128,
    pub postprocess_ns: u128,
}

/// The durations of the stages of one filling call.
#[derive(Clone, Copy, PartialEq, Eq, Debug, Structural)]
pub struct FillPerfSample {
    pub preprocess_ns: u128,
    pub parse_ns: u128,
    pub transforms_ns: u128,
    pub render_ns: u128,
    pub postprocess_ns: u128,
}

pub open spec fn stage_total(s: FillPerfStats) -> int {
    s.preprocess_ns + s.parse_ns + s.transforms_ns + s.render_ns + s.postprocess_ns
}

pub open spec fn zero_stats() -> FillPerfStats {
    FillPerfStats { files: 0, preprocess_ns: 0, parse_ns: 0, transforms_ns: 0, render_ns: 0, postprocess_ns: 0 }
}

/// The counters with one more call and its durations added.
pub open spec fn with_sample(s: FillPerfStats, x: FillPerfSample) -> FillPerfStats {
    FillPerfStats {
        files: (s.files + 1) as u64,
        preprocess_ns: (s.preprocess_ns + x.preprocess_ns) as u128,
        parse_ns: (s.parse_ns + x.parse_ns) as u128,
        transforms_ns: (s.transforms_ns + x.transforms_ns) as u128,
        render_ns: (s.render_ns + x.render_ns) as u128,
        postprocess_ns: (s.postprocess_ns + x.postprocess_ns) as u128,
    }
}

/// The sums of `with_sample` fit their fields.
pub open spec fn sample_fits(s: FillPerfStats, x: FillPerfSample) -> bool {
    &&& s.files < u64::MAX
    &&& s.preprocess_ns + x.preprocess_ns <= u128::MAX
    &&& s.parse_ns + x.parse_ns <= u128::MAX
    &&& s.transforms_ns + x.transforms_ns <= u128::MAX
    &&& s.render_ns + x.render_ns <= u128::MAX
    &&& s.postprocess_ns + x.postprocess_ns <= u128::MAX
}

impl FillPerfStats {
    pub fn zero() -> (r: Self)
        ensures
            r == zero_stats(),
    {
        FillPerfStats { files: 0, preprocess_ns: 0, parse_ns: 0, transforms_ns: 0, render_ns: 0, postprocess_ns: 0 }
    }

    /// Total tracked nanoseconds across stages.
    pub fn total_ns(self) -> (t: u128)
        requires
            stage_total(self) <= u128::MAX,
        ensures
            t == stage_total(self),
    {
        self.preprocess_ns + self.parse_ns + self.transforms_ns + self.render_ns + self.postprocess_ns
    }

    pub fn add_sample(&mut self, sample: FillPerfSample)
        requires
            sample_fits(*old(self), sample),
        ensures
            *final(self) == with_sample(*old(self), sample),
    {
        self.files = self.files + 1;
        self.preprocess_ns = self.preprocess_ns + sample.preprocess_ns;
        self.parse_ns = self.parse_ns + sample.parse_ns;
        self.transforms_ns = self.transforms_ns + sample.transforms_ns;
        self.render_ns = self.render_ns + sample.render_ns;
        self.postprocess_ns = self.postprocess_ns + sample.postprocess_ns;
    }
}

/// Whether counters are collected, and the counters so far.
#[derive(Debug)]
pub struct FillPerfCollector {
    pub enabled: bool,
    pub stats: FillPerfStats,
}

impl FillPerfCollector {
    pub fn new() -> (r: Self)
        ensures
            !r.enabled,
            r.stats == zero_stats(),
    {
        FillPerfCollector { enabled: false, stats: FillPerfStats::zero() }
    }
}

/// Enable or disable collection.
pub fn set_fill_perf_stats_enabled(collector: &mut FillPerfCollector, enabled: bool)
    ensures
        final(collector).enabled == enabled,
        final(collector).stats == old(collector).stats,
{
    collector.enabled = enabled;
}

/// Reset the counters.
pub fn reset_fill_perf_stats(collector: &mut FillPerfCollector)
    ensures
        final(collector).enabled == old(collector).enabled,
        final(collector).stats == zero_stats(),
{
    collector.stats = FillPerfStats::zero();
}

/// A snapshot of the counters.
pub fn get_fill_perf_stats(collector: &FillPerfCollector) -> (r: FillPerfStats)
    ensures
        r == collector.stats,
{
    collector.stats
}

/// Add one call's durations to the counters.
pub fn record_fill_perf_sample(collector: &mut FillPerfCollector, sample: FillPerfSample)
    requires
        sample_fits(old(collector).stats, sample),
    ensures
        final(collector).enabled == old(collector).enabled,
        final(collector).stats == with_sample(old(collector).stats, sample),
{
    collector.stats.add_sample(sample);
}

} // verus!
