//! Bounded latency samples of a service.
use vstd::prelude::*;

verus! {

/// Keeps the latest `max_samples` query and save latencies, in milliseconds.
#[derive(Debug, Clone)]
pub struct PerformanceMonitor {
    pub query_times: Vec<u64>,
    pub save_times: Vec<u64>,
    pub max_samples: usize,
}

/// Averages of the kept samples, rounded down; zero without samples.
#[derive(Debug, Clone, Copy)]
pub struct PerformanceMetrics {
    pub avg_query_time_ms: u64,
    pub avg_save_time_ms: u64,
    pub query_samples: usize,
    pub save_samples: usize,
}

/// The window after recording `x`: the oldest sample leaves once there are
/// more than `max`.
pub open spec fn window_push(w: Seq<u64>, x: u64, max: usize) -> Seq<u64> {
    let p = w.push(x);
    if p.len() > max {
        p.drop_first()
    } else {
        p
    }
}

/// Sum of a list of samples.
pub open spec fn total(s: Seq<u64>) -> int
    decreases s.len(),
{
    if s.len() == 0 {
        0
    } else {
        total(s.drop_last()) + s.last()
    }
}

/// Mean of a list of samples, rounded down; zero when empty.
pub open spec fn mean(s: Seq<u64>) -> int {
    if s.len() == 0 {
        0
    } else {
        total(s) / (s.len() as int)
    }
}

proof fn lemma_total_bound(s: Seq<u64>)
    ensures
        0 <= total(s) <= s.len() * u64::MAX,
    decreases s.len(),
{
    if s.len() > 0 {
        lemma_total_bound(s.drop_last());
    }
}

/// The mean of a list of samples.
pub fn mean_of(s: &Vec<u64>) -> (r: u64)
    ensures
        r == mean(s@),
{
    let mut sum: u128 = 0;
    let mut i: usize = 0;
    while i < s.len()
        invariant
            i <= s@.len(),
            sum == total(s@.subrange(0, i as int)),
            sum <= i * u64::MAX,
        decreases s@.len() - i,
    {
        proof {
            assert(s@.subrange(0, i + 1).drop_last() =~= s@.subrange(0, i as int));
        }
        sum = sum + s[i] as u128;
        i = i + 1;
    }
    assert(s@.subrange(0, s@.len() as int) =~= s@);
    if s.len() == 0 {
        0
    } else {
        let n = s.len() as u128;
        proof {
            assert(sum / n <= u64::MAX) by (nonlinear_arith)
                requires
                    sum <= n * u64::MAX,
                    n >= 1,
            ;
        }
        (sum / n) as u64
    }
}

fn push_bounded(w: &mut Vec<u64>, x: u64, max: usize)
    requires
        old(w)@.len() <= max,
    ensures
        final(w)@ == window_push(old(w)@, x, max),
        final(w)@.len() <= max || max == 0 && final(w)@.len() == 0,
{
    w.push(x);
    if w.len() > max {
        w.remove(0);
        assert(final(w)@ =~= window_push(old(w)@, x, max));
    }
}

impl PerformanceMonitor {
    /// Neither window holds more than `max_samples`.
    pub open spec fn wf(&self) -> bool {
        self.query_times@.len() <= self.max_samples && self.save_times@.len() <= self.max_samples
    }

    /// Empty windows of the given size.
    pub fn new(max_samples: usize) -> (r: PerformanceMonitor)
        ensures
            r.wf(),
            r.max_samples == max_samples,
            r.query_times@.len() == 0 && r.save_times@.len() == 0,
    {
        PerformanceMonitor { query_times: Vec::new(), save_times: Vec::new(), max_samples }
    }

    /// Records a query latency.
    pub fn record_query_time(&mut self, ms: u64)
        requires
            old(self).wf(),
        ensures
            final(self).wf(),
            final(self).query_times@ == window_push(old(self).query_times@, ms, old(self).max_samples),
            final(self).save_times@ == old(self).save_times@,
            final(self).max_samples == old(self).max_samples,
    {
        push_bounded(&mut self.query_times, ms, self.max_samples);
    }

    /// Records a save latency.
    pub fn record_save_time(&mut self, ms: u64)
        requires
            old(self).wf(),
        ensures
            final(self).wf(),
            final(self).save_times@ == window_push(old(self).save_times@, ms, old(self).max_samples),
            final(self).query_times@ == old(self).query_times@,
            final(self).max_samples == old(self).max_samples,
    {
        push_bounded(&mut self.save_times, ms, self.max_samples);
    }

    /// Averages and counts of the kept samples.
    pub fn get_metrics(&self) -> (r: PerformanceMetrics)
        ensures
            r.avg_query_time_ms == mean(self.query_times@),
            r.avg_save_time_ms == mean(self.save_times@),
            r.query_samples == self.query_times@.len(),
            r.save_samples == self.save_times@.len(),
    {
        PerformanceMetrics {
            avg_query_time_ms: mean_of(&self.query_times),
            avg_save_time_ms: mean_of(&self.save_times),
            query_samples: self.query_times.len(),
            save_samples: self.save_times.len(),
        }
    }

    /// Drops every sample.
    pub fn reset(&mut self)
        ensures
            final(self).query_times@.len() == 0 && final(self).save_times@.len() == 0,
            final(self).max_samples == old(self).max_samples,
            final(self).wf(),
    {
        self.query_times = Vec::new();
        self.save_times = Vec::new();
    }
}

} // verus!
