//! How metrics are collected and kept.

use vstd::prelude::*;

verus! {

/// Where evicted history goes.
#[derive(Debug, PartialEq, Eq)]
pub struct SpilloverSettings {
    /// The directory of its segments.
    pub directory: String,
    /// The most bytes of all segments together.
    pub max_bytes: u64,
    /// The size at which a segment is closed.
    pub segment_bytes: u64,
}

/// How metrics are collected and kept. Times are in seconds.
#[derive(Debug, PartialEq, Eq)]
pub struct MetricsSettings {
    /// How long history is kept.
    pub retention: u64,
    /// How long between two samples.
    pub sample_interval: u64,
    /// The most bytes that history takes in memory.
    pub max_memory_bytes: usize,
    /// Where evicted history goes; nowhere when absent.
    pub spillover: Option<SpilloverSettings>,
}

/// How long history is kept when nothing else is said.
pub const DEFAULT_RETENTION: u64 = 43200;

impl Default for MetricsSettings {
    fn default() -> (r: Self)
        ensures
            r.retention == 43200,
            r.sample_interval == 1,
            r.max_memory_bytes == 10485760,
            r.spillover is None,
    {
        MetricsSettings {
            retention: DEFAULT_RETENTION,
            sample_interval: 1,
            max_memory_bytes: 10485760,
            spillover: None,
        }
    }
}

impl MetricsSettings {
    /// How many samples are kept as they are: slower sampling keeps the same stretch of time.
    pub open spec fn raw_limit(&self) -> nat {
        let interval: nat = if self.sample_interval < 1 {
            1
        } else {
            self.sample_interval as nat
        };
        if 120nat / interval < 30 {
            30
        } else {
            120nat / interval
        }
    }

    /// How many samples are kept as they are before they are put together.
    pub fn raw_capacity(&self) -> (r: usize)
        ensures
            r == self.raw_limit(),
            30 <= r <= 120,
    {
        let interval: u64 = if self.sample_interval < 1 {
            1
        } else {
            self.sample_interval
        };
        let n: u64 = 120 / interval;
        assert(n <= 120) by (nonlinear_arith)
            requires
                n == 120u64 / interval,
                interval >= 1,
        ;
        if n < 30 {
            30
        } else {
            n as usize
        }
    }

    /// How many seconds the oldest history is put together in: a longer retention widens the
    /// stretches rather than adding to them. A retention beyond all bounds is taken for none.
    pub open spec fn widest_span(&self) -> nat {
        let needed = self.retention as nat / 48;
        if needed < 900 || self.retention > i64::MAX {
            900
        } else {
            needed
        }
    }

    /// How many seconds the oldest history is put together in.
    pub fn coarse_span(&self) -> (r: u64)
        ensures
            r == self.widest_span(),
            900 <= r <= i64::MAX / 48,
    {
        let needed: u64 = self.retention / 48;
        if needed < 900 || self.retention > i64::MAX as u64 {
            900
        } else {
            needed
        }
    }
}

/// However long the retention, a fixed number of the longest stretches covers it.
pub proof fn law_coarse_history_covers_retention(s: MetricsSettings)
    requires
        s.retention <= i64::MAX,
    ensures
        49 * s.widest_span() > s.retention,
{
    let needed = s.retention as nat / 48;
    assert(48 * needed + 47 >= s.retention) by (nonlinear_arith)
        requires
            needed == s.retention as nat / 48,
    ;
}

/// Slower sampling keeps fewer samples as they are, but never fewer than thirty nor more than a
/// hundred and twenty.
pub proof fn law_recent_samples_are_bounded(s: MetricsSettings)
    ensures
        30 <= s.raw_limit() <= 120,
        s.sample_interval <= 1 ==> s.raw_limit() == 120,
        s.sample_interval >= 4 ==> s.raw_limit() == 30,
        s.widest_span() >= 900,
        s.retention <= 48 * 900 ==> s.widest_span() == 900,
{
    let interval: nat = if s.sample_interval < 1 {
        1
    } else {
        s.sample_interval as nat
    };
    assert(120nat / interval <= 120) by (nonlinear_arith)
        requires
            interval >= 1,
    ;
    if s.sample_interval >= 4 {
        assert(120nat / interval <= 30) by (nonlinear_arith)
            requires
                interval >= 4,
        ;
    }
}

} // verus!
