//! The final summary, derived once from the aggregate after every
//! worker has been joined.

use crate::aggregate::{errs_view, status_sorted, AggregateState};
use crate::histogram::{pct_index, sample_sum};
use vstd::prelude::*;

verus! {

/// Latency figures read from the histogram, in milliseconds.
#[derive(Debug)]
pub struct LatencyStats {
    pub mean_ms: u64,
    pub min_ms: u64,
    pub max_ms: u64,
    pub p50_ms: u64,
    pub p90_ms: u64,
    pub p95_ms: u64,
    pub p99_ms: u64,
}

/// Requests per second in hundredths: the executed total over the
/// elapsed wall-clock time.
pub open spec fn rps_hundredths_of(total: int, elapsed_ms: int) -> int
    recommends
        elapsed_ms > 0,
{
    total * 100000 / elapsed_ms
}

/// The read-only record handed to the reporting layer.
#[derive(Debug)]
pub struct Summary {
    pub elapsed_ms: u64,
    pub total_executed: usize,
    pub success_count: usize,
    pub failure_count: usize,
    pub rps_hundredths: Option<u128>,
    pub latency: Option<LatencyStats>,
    pub status_distribution: Vec<(u16, usize)>,
    pub error_distribution: Vec<(String, usize)>,
}

/// Builds the summary: the executed total and its split, the rate when
/// any time has passed at all, the latency figures when any call
/// succeeded, the status codes ascending and the error messages in
/// order of first appearance.
pub fn build_summary(state: AggregateState, elapsed_ms: u64) -> (r: Summary)
    requires
        state.wf(),
        state.total() <= usize::MAX,
    ensures
        r.elapsed_ms == elapsed_ms,
        r.total_executed == state.total(),
        r.success_count == state.success_count,
        r.failure_count == state.failure_count,
        elapsed_ms == 0 ==> r.rps_hundredths is None,
        elapsed_ms > 0 ==> (r.rps_hundredths matches Some(v) && v == rps_hundredths_of(
            state.total(),
            elapsed_ms as int,
        )),
        state.success_count == 0 ==> r.latency is None,
        state.success_count > 0 ==> (r.latency matches Some(ls) && {
            let h = state.hist@;
            &&& ls.min_ms == h[0]
            &&& ls.max_ms == h[h.len() - 1]
            &&& ls.mean_ms == sample_sum(h) / (h.len() as int)
            &&& ls.p50_ms == h[pct_index(50, h.len() as int)]
            &&& ls.p90_ms == h[pct_index(90, h.len() as int)]
            &&& ls.p95_ms == h[pct_index(95, h.len() as int)]
            &&& ls.p99_ms == h[pct_index(99, h.len() as int)]
        }),
        r.status_distribution@ == state.statuses@,
        status_sorted(r.status_distribution@),
        errs_view(r.error_distribution@) == state.errors_view(),
{
    let total_executed = state.success_count + state.failure_count;
    let rps = if elapsed_ms == 0 {
        None
    } else {
        proof {
            assert((total_executed as int) * 100000 <= (u64::MAX as int) * 100000)
                by (nonlinear_arith)
                requires
                    total_executed <= u64::MAX,
            ;
        }
        Some((total_executed as u128) * 100000 / (elapsed_ms as u128))
    };
    let latency = if state.hist.len() == 0 {
        None
    } else {
        Some(
            LatencyStats {
                mean_ms: state.hist.mean_ms(),
                min_ms: state.hist.min_ms(),
                max_ms: state.hist.max_ms(),
                p50_ms: state.hist.value_at_percentile(50),
                p90_ms: state.hist.value_at_percentile(90),
                p95_ms: state.hist.value_at_percentile(95),
                p99_ms: state.hist.value_at_percentile(99),
            },
        )
    };
    Summary {
        elapsed_ms,
        total_executed,
        success_count: state.success_count,
        failure_count: state.failure_count,
        rps_hundredths: rps,
        latency,
        status_distribution: state.statuses,
        error_distribution: state.errors,
    }
}

} // verus!
