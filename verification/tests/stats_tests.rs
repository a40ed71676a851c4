use loadcore::aggregate::AggregateState;
use loadcore::histogram::LatencyHistogram;
use loadcore::outcome::{http_exchange_result, websocket_result, RequestResult, WsEvent};
use loadcore::summary::build_summary;

fn ok_result(duration_ms: u64) -> RequestResult {
    RequestResult { duration_ms, success: true, status_code: None, error: None }
}

#[test]
fn histogram_orders_samples() {
    let mut h = LatencyHistogram::new();
    h.record(3);
    h.record(1);
    h.record(2);
    assert_eq!(h.len(), 3);
    assert_eq!(h.min_ms(), 1);
    assert_eq!(h.max_ms(), 3);
    assert_eq!(h.mean_ms(), 2);
}

#[test]
fn histogram_mean_rounds_down() {
    let mut h = LatencyHistogram::new();
    h.record(1);
    h.record(2);
    assert_eq!(h.mean_ms(), 1);
}

#[test]
fn percentiles_are_exact_order_statistics() {
    let mut h = LatencyHistogram::new();
    for v in [10, 20, 30, 40] {
        h.record(v);
    }
    assert_eq!(h.value_at_percentile(0), 10);
    assert_eq!(h.value_at_percentile(50), 30);
    assert_eq!(h.value_at_percentile(100), 40);
}

#[test]
fn percentiles_are_monotone() {
    let mut h = LatencyHistogram::new();
    for v in [5, 1, 9, 2, 14, 7, 3, 11, 6, 8] {
        h.record(v);
    }
    let mut last = 0u64;
    for p in [0u64, 10, 25, 50, 75, 90, 95, 99, 100] {
        let v = h.value_at_percentile(p);
        assert!(v >= last);
        last = v;
    }
}

#[test]
fn sub_millisecond_durations_are_clamped_to_one() {
    let mut st = AggregateState::new();
    st.record(&ok_result(0));
    assert_eq!(st.hist.len(), 1);
    assert_eq!(st.hist.min_ms(), 1);
}

#[test]
fn all_two_hundred_responses_count_as_successes() {
    let mut st = AggregateState::new();
    for _ in 0..5 {
        st.record(&http_exchange_result(Ok(200), 10));
    }
    assert_eq!(st.success_count, 5);
    assert_eq!(st.failure_count, 0);
    let s = build_summary(st, 1000);
    assert_eq!(s.status_distribution, vec![(200u16, 5usize)]);
    assert!(s.error_distribution.is_empty());
}

#[test]
fn all_five_hundred_responses_count_as_failures() {
    let mut st = AggregateState::new();
    for _ in 0..5 {
        st.record(&http_exchange_result(Ok(500), 10));
    }
    assert_eq!(st.success_count, 0);
    assert_eq!(st.failure_count, 5);
    let s = build_summary(st, 1000);
    assert_eq!(s.status_distribution, vec![(500u16, 5usize)]);
    assert_eq!(s.error_distribution, vec![("HTTP status: 500".to_string(), 5usize)]);
}

#[test]
fn unreachable_host_failures_have_no_status_entries() {
    let mut st = AggregateState::new();
    for _ in 0..3 {
        st.record(&http_exchange_result(Err("dns error".to_string()), 25));
    }
    assert_eq!(st.failure_count, 3);
    let s = build_summary(st, 1000);
    assert!(s.status_distribution.is_empty());
    assert_eq!(s.error_distribution, vec![("dns error".to_string(), 3usize)]);
}

#[test]
fn held_websocket_session_is_one_success() {
    let mut st = AggregateState::new();
    let r = websocket_result(WsEvent::Completed, 2043);
    assert!(r.duration_ms >= 2000);
    st.record(&r);
    assert_eq!(st.success_count, 1);
    assert_eq!(st.failure_count, 0);
    assert_eq!(st.hist.len(), 1);
    assert!(st.hist.max_ms() >= 2000);
}

#[test]
fn failure_without_message_uses_the_unknown_key() {
    let mut st = AggregateState::new();
    st.record(
        &RequestResult { duration_ms: 5, success: false, status_code: None, error: None },
    );
    let s = build_summary(st, 10);
    assert_eq!(s.error_distribution, vec![("unknown error".to_string(), 1usize)]);
}

#[test]
fn status_distribution_is_sorted_ascending() {
    let mut st = AggregateState::new();
    for code in [500u16, 200, 404, 200, 301, 404, 200] {
        st.record(&http_exchange_result(Ok(code), 1));
    }
    let s = build_summary(st, 1000);
    assert_eq!(
        s.status_distribution,
        vec![(200u16, 3usize), (301, 1), (404, 2), (500, 1)]
    );
}

#[test]
fn worker_task_failures_add_to_the_failure_count() {
    let mut st = AggregateState::new();
    st.record(&ok_result(10));
    st.record(&ok_result(10));
    st.note_task_failure();
    assert_eq!(st.success_count, 2);
    assert_eq!(st.failure_count, 1);
    // The lost worker leaves no histogram sample behind.
    assert_eq!(st.hist.len(), 2);
    let s = build_summary(st, 1000);
    assert_eq!(s.total_executed, 3);
}

#[test]
fn rps_is_unavailable_for_zero_elapsed_time() {
    let mut st = AggregateState::new();
    st.record(&ok_result(10));
    let s = build_summary(st, 0);
    assert_eq!(s.rps_hundredths, None);
}

#[test]
fn rps_is_the_total_over_the_elapsed_time() {
    let mut st = AggregateState::new();
    for _ in 0..10 {
        st.record(&ok_result(10));
    }
    let s = build_summary(st, 2000);
    // 10 units in 2 s is 5.00 requests per second.
    assert_eq!(s.rps_hundredths, Some(500));
}

#[test]
fn summary_without_successes_has_no_latency_figures() {
    let mut st = AggregateState::new();
    st.record(&http_exchange_result(Err("timeout".to_string()), 40));
    let s = build_summary(st, 50);
    assert!(s.latency.is_none());
    assert_eq!(s.failure_count, 1);
}

#[test]
fn summary_latency_figures_come_from_the_histogram() {
    let mut st = AggregateState::new();
    for v in [100u64, 200, 300, 400] {
        st.record(&ok_result(v));
    }
    let s = build_summary(st, 4000);
    let l = s.latency.unwrap();
    assert_eq!(l.min_ms, 100);
    assert_eq!(l.max_ms, 400);
    assert_eq!(l.mean_ms, 250);
    assert_eq!(l.p50_ms, 300);
    assert_eq!(l.p90_ms, 400);
    assert_eq!(l.p95_ms, 400);
    assert_eq!(l.p99_ms, 400);
}

fn mixed_results() -> Vec<RequestResult> {
    vec![
        http_exchange_result(Ok(200), 5),
        http_exchange_result(Ok(500), 7),
        http_exchange_result(Err("boom".to_string()), 9),
        ok_result(3),
        http_exchange_result(Ok(200), 1),
    ]
}

#[test]
fn aggregation_does_not_depend_on_arrival_order() {
    let mut forward = AggregateState::new();
    for r in mixed_results() {
        forward.record(&r);
    }
    let mut backward = AggregateState::new();
    for r in mixed_results().into_iter().rev() {
        backward.record(&r);
    }
    assert_eq!(forward.success_count, backward.success_count);
    assert_eq!(forward.failure_count, backward.failure_count);
    let a = build_summary(forward, 100);
    let b = build_summary(backward, 100);
    assert_eq!(a.status_distribution, b.status_distribution);
    let (la, lb) = (a.latency.unwrap(), b.latency.unwrap());
    assert_eq!(la.min_ms, lb.min_ms);
    assert_eq!(la.max_ms, lb.max_ms);
    assert_eq!(la.mean_ms, lb.mean_ms);
    assert_eq!(la.p50_ms, lb.p50_ms);
}

#[test]
fn totals_account_for_every_work_unit() {
    // Ten work units: seven results received, three workers lost.
    let mut st = AggregateState::new();
    for i in 0..7u64 {
        st.record(&ok_result(i + 1));
    }
    for _ in 0..3 {
        st.note_task_failure();
    }
    assert_eq!(st.success_count + st.failure_count, 10);
}
