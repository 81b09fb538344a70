use sitewatch::clock::{DateTime, Utc};
use sitewatch::probe::{Outcome, ProbeError};
use sitewatch::scheduler::{Scheduler, SchedulerState};
use sitewatch::stats::{Aggregator, Stats};

fn outcome(url: &str, status: Result<u16, ProbeError>, ms: u64) -> Outcome {
    Outcome {
        url: url.to_string(),
        status,
        response_time_ms: ms,
        timestamp: DateTime::<Utc>::now(),
    }
}

#[test]
fn stats_start_empty() {
    let s = Stats::new();
    assert_eq!(s.samples, 0);
    assert_eq!(s.ok, 0);
    assert_eq!(s.avg_ms(), 0);
    assert_eq!(s.uptime_pct_x100(), 0);
}

#[test]
fn stats_record_twice_doubles() {
    let o = outcome("http://a.example", Ok(301), 25);
    let mut s = Stats::new();
    s.record(&o);
    s.record(&o);
    assert_eq!(s.samples, 2);
    assert_eq!(s.ok, 2);
    assert_eq!(s.total_ms, 50);
}

#[test]
fn stats_avg_of_10_and_30_is_20() {
    let mut s = Stats::new();
    s.record(&outcome("http://a.example", Ok(200), 10));
    s.record(&outcome("http://a.example", Ok(200), 30));
    assert_eq!(s.avg_ms(), 20);
}

#[test]
fn stats_uptime_three_of_four_is_75_percent() {
    let mut s = Stats::new();
    s.record(&outcome("http://a.example", Ok(200), 1));
    s.record(&outcome("http://a.example", Ok(204), 1));
    s.record(&outcome("http://a.example", Ok(399), 1));
    s.record(&outcome("http://a.example", Ok(503), 1));
    assert_eq!(s.samples, 4);
    assert_eq!(s.ok, 3);
    assert_eq!(s.uptime_pct_x100(), 7500);
}

#[test]
fn stats_503_counts_as_downtime() {
    let mut s = Stats::new();
    s.record(&outcome("http://a.example", Ok(503), 1));
    assert_eq!(s.samples, 1);
    assert_eq!(s.ok, 0);
}

#[test]
fn stats_failure_latency_still_accumulates() {
    let mut s = Stats::new();
    s.record(&outcome(
        "http://a.example",
        Err(ProbeError::Transport { message: "x".to_string() }),
        40,
    ));
    assert_eq!(s.samples, 1);
    assert_eq!(s.ok, 0);
    assert_eq!(s.total_ms, 40);
}

#[test]
fn aggregator_one_entry_per_url() {
    let mut agg = Aggregator::new();
    agg.record(&outcome("http://b.example", Ok(200), 10));
    agg.record(&outcome("http://a.example", Ok(503), 20));
    agg.record(&outcome("http://b.example", Ok(200), 30));
    assert_eq!(agg.entries.len(), 2);
    let b = agg.get(&"http://b.example".to_string()).unwrap();
    assert_eq!(b.samples, 2);
    assert_eq!(b.ok, 2);
    assert_eq!(b.avg_ms(), 20);
    let a = agg.get(&"http://a.example".to_string()).unwrap();
    assert_eq!(a.samples, 1);
    assert_eq!(a.ok, 0);
    assert!(agg.get(&"http://c.example".to_string()).is_none());
}

#[test]
fn scheduler_runs_and_sleeps() {
    let mut s = Scheduler::new(250);
    assert!(matches!(s.state, SchedulerState::Idle));
    assert!(s.start(false));
    assert!(matches!(s.state, SchedulerState::RunningRound));
    let batch = vec![outcome("http://a.example", Ok(200), 5)];
    s.round_done(&batch);
    assert!(matches!(s.state, SchedulerState::Sleeping { slept_ms: 0 }));
    s.tick(false);
    assert!(matches!(s.state, SchedulerState::Sleeping { slept_ms: 100 }));
    s.tick(false);
    assert!(matches!(s.state, SchedulerState::Sleeping { slept_ms: 200 }));
    s.tick(false);
    // 250 ms of period reached within the third granule: next round starts.
    assert!(matches!(s.state, SchedulerState::RunningRound));
}

#[test]
fn scheduler_stop_ends_sleep_within_one_poll() {
    let mut s = Scheduler::new(60_000);
    assert!(s.start(false));
    s.round_done(&vec![outcome("http://a.example", Ok(200), 5)]);
    s.tick(false);
    // The stop arrives early in a long period: the very next poll stops the
    // loop rather than sleeping the period out.
    s.tick(true);
    assert!(s.is_stopped());
}

#[test]
fn scheduler_records_round_before_stopping() {
    let mut s = Scheduler::new(1000);
    assert!(s.start(false));
    // The stop trigger fires while the round is in flight; the round still
    // completes and its outcomes are recorded before the machine stops.
    let batch = vec![
        outcome("http://a.example", Ok(200), 10),
        outcome("http://b.example", Ok(503), 20),
    ];
    s.round_done(&batch);
    s.tick(true);
    assert!(s.is_stopped());
    assert_eq!(s.agg.get(&"http://a.example".to_string()).unwrap().samples, 1);
    assert_eq!(s.agg.get(&"http://b.example".to_string()).unwrap().ok, 0);
}

#[test]
fn scheduler_stop_before_first_round() {
    let mut s = Scheduler::new(1000);
    assert!(!s.start(true));
    assert!(s.is_stopped());
    assert_eq!(s.agg.entries.len(), 0);
}
