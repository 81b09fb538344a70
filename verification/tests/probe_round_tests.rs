use sitewatch::clock::{DateTime, Utc};
use sitewatch::probe::{
    str_eq_nocase, validate_headers, FetchResult, Outcome, ProbeError, ProbeStep, ProbeTask,
};
use sitewatch::round::{round_summary, RoundError, RoundRunner};

fn checks(pairs: &[(&str, &str)]) -> Vec<(String, String)> {
    let mut v = Vec::new();
    for (k, val) in pairs {
        v.push((k.to_string(), val.to_string()));
    }
    v
}

#[test]
fn nocase_comparison() {
    assert!(str_eq_nocase("Content-Type", "content-type"));
    assert!(str_eq_nocase("", ""));
    assert!(!str_eq_nocase("Content-Type", "Content-Typ"));
    assert!(!str_eq_nocase("a", "b"));
}

#[test]
fn probe_success_with_matching_headers() {
    let mut task = ProbeTask::new(
        "http://a.example".to_string(),
        checks(&[("Content-Type", "text/plain")]),
        0,
    );
    let fetch = FetchResult::Response {
        code: 200,
        headers: checks(&[("Content-Type", "text/plain"), ("Server", "x")]),
    };
    match task.on_attempt(fetch, 12, 12, DateTime::<Utc>::now()) {
        ProbeStep::Done(o) => {
            assert_eq!(o.url, "http://a.example");
            assert_eq!(o.status, Ok(200));
            assert_eq!(o.response_time_ms, 12);
        }
        ProbeStep::Retry => panic!("a response must finish the probe"),
    }
}

#[test]
fn probe_header_lookup_is_case_insensitive() {
    let mut task = ProbeTask::new(
        "http://a.example".to_string(),
        checks(&[("Content-Type", "text/plain")]),
        0,
    );
    let fetch = FetchResult::Response {
        code: 200,
        headers: checks(&[("content-type", "text/plain")]),
    };
    match task.on_attempt(fetch, 1, 1, DateTime::<Utc>::now()) {
        ProbeStep::Done(o) => assert_eq!(o.status, Ok(200)),
        ProbeStep::Retry => panic!("a response must finish the probe"),
    }
}

#[test]
fn probe_503_is_a_status_outcome() {
    let mut task = ProbeTask::new("http://a.example".to_string(), Vec::new(), 3);
    let fetch = FetchResult::Response { code: 503, headers: Vec::new() };
    match task.on_attempt(fetch, 7, 7, DateTime::<Utc>::now()) {
        ProbeStep::Done(o) => {
            // An HTTP error status is a completed attempt, never retried.
            assert_eq!(o.status, Ok(503));
        }
        ProbeStep::Retry => panic!("an HTTP error status must not be retried"),
    }
}

#[test]
fn probe_missing_header() {
    let mut task = ProbeTask::new(
        "http://a.example".to_string(),
        checks(&[("Content-Type", "text/plain")]),
        0,
    );
    let fetch = FetchResult::Response { code: 200, headers: checks(&[("Server", "x")]) };
    match task.on_attempt(fetch, 1, 1, DateTime::<Utc>::now()) {
        ProbeStep::Done(o) => match o.status {
            Err(ProbeError::MissingHeader { name }) => assert_eq!(name, "Content-Type"),
            other => panic!("expected a missing-header failure, got {:?}", other.is_ok()),
        },
        ProbeStep::Retry => panic!("a response must finish the probe"),
    }
}

#[test]
fn probe_header_mismatch_names_both_values() {
    let mut task = ProbeTask::new(
        "http://a.example".to_string(),
        checks(&[("Content-Type", "text/plain")]),
        0,
    );
    let fetch = FetchResult::Response {
        code: 200,
        headers: checks(&[("Content-Type", "text/html")]),
    };
    match task.on_attempt(fetch, 1, 1, DateTime::<Utc>::now()) {
        ProbeStep::Done(o) => match o.status {
            Err(ProbeError::HeaderMismatch { name, got, expected }) => {
                assert_eq!(name, "Content-Type");
                assert_eq!(got, "text/html");
                assert_eq!(expected, "text/plain");
            }
            other => panic!("expected a mismatch failure, got {:?}", other.is_ok()),
        },
        ProbeStep::Retry => panic!("a response must finish the probe"),
    }
}

#[test]
fn validate_reports_first_failure_in_order() {
    let cs = checks(&[("A", "1"), ("B", "2")]);
    let headers = checks(&[("A", "wrong"), ("B", "also-wrong")]);
    match validate_headers(&cs, &headers) {
        Some(ProbeError::HeaderMismatch { name, .. }) => assert_eq!(name, "A"),
        _ => panic!("the first failing requirement must be reported"),
    }
}

#[test]
fn probe_transport_exhausts_after_retries_plus_one() {
    // Timeout of 50 ms per attempt, one retry: exactly two attempts, then a
    // transport failure carrying the elapsed time across both attempts.
    let mut task = ProbeTask::new("http://a.example".to_string(), Vec::new(), 1);
    let mut attempts = 0;
    let first = task.on_attempt(
        FetchResult::TransportFailure { message: "timed out".to_string() },
        50,
        50,
        DateTime::<Utc>::now(),
    );
    attempts += 1;
    assert!(matches!(first, ProbeStep::Retry));
    let second = task.on_attempt(
        FetchResult::TransportFailure { message: "timed out".to_string() },
        50,
        100,
        DateTime::<Utc>::now(),
    );
    attempts += 1;
    match second {
        ProbeStep::Done(o) => {
            match o.status {
                Err(ProbeError::Transport { message }) => assert_eq!(message, "timed out"),
                _ => panic!("an exhausted budget must surface a transport failure"),
            }
            // The transport-exhausted outcome carries the overall elapsed
            // time: two timed-out attempts of 50 ms each.
            assert!(o.response_time_ms >= 2 * 50);
        }
        ProbeStep::Retry => panic!("the budget was spent; the probe must finish"),
    }
    assert_eq!(attempts, 2);
}

#[test]
fn probe_zero_retries_fails_on_first_transport_error() {
    let mut task = ProbeTask::new("http://a.example".to_string(), Vec::new(), 0);
    let step = task.on_attempt(
        FetchResult::TransportFailure { message: "connection refused".to_string() },
        5,
        5,
        DateTime::<Utc>::now(),
    );
    assert!(matches!(step, ProbeStep::Done(_)));
}

fn outcome(url: &str, status: Result<u16, ProbeError>, ms: u64) -> Outcome {
    Outcome {
        url: url.to_string(),
        status,
        response_time_ms: ms,
        timestamp: DateTime::<Utc>::now(),
    }
}

#[test]
fn round_delivers_exactly_one_outcome_per_url() {
    let urls = vec!["http://a.example".to_string(), "http://b.example".to_string()];
    let mut runner = RoundRunner::new(&urls);
    let first = runner.next_job().unwrap();
    let second = runner.next_job().unwrap();
    assert!(runner.next_job().is_none());
    assert!(runner.deliver(outcome(&second, Ok(200), 3)));
    assert!(runner.deliver(outcome(&first, Ok(503), 4)));
    let batch = runner.finish().unwrap();
    assert_eq!(batch.len(), 2);
    let mut seen: Vec<&str> = batch.iter().map(|o| o.url.as_str()).collect();
    seen.sort();
    assert_eq!(seen, vec!["http://a.example", "http://b.example"]);
}

#[test]
fn round_incomplete_is_distinguishable() {
    let urls = vec!["http://a.example".to_string(), "http://b.example".to_string()];
    let mut runner = RoundRunner::new(&urls);
    let job = runner.next_job().unwrap();
    assert!(runner.deliver(outcome(&job, Ok(200), 1)));
    match runner.finish() {
        Err(RoundError::Incomplete) => {}
        Ok(_) => panic!("a short round must not pass as complete"),
    }
}

#[test]
fn round_refuses_unknown_delivery() {
    let urls = vec!["http://a.example".to_string()];
    let mut runner = RoundRunner::new(&urls);
    let _job = runner.next_job().unwrap();
    assert!(!runner.deliver(outcome("http://never-submitted.example", Ok(200), 1)));
    assert_eq!(runner.outstanding(), 1);
}

#[test]
fn round_summary_counts_and_averages() {
    let batch = vec![outcome("http://a.example", Ok(200), 10), outcome("http://b.example", Ok(503), 30)];
    let s = round_summary(&batch);
    assert_eq!(s.count, 2);
    assert_eq!(s.successes, 1);
    assert_eq!(s.avg_ms, 20);
    assert_eq!(s.uptime_pct_x100, 5000);
}

#[test]
fn round_summary_empty() {
    let s = round_summary(&Vec::new());
    assert_eq!(s.count, 0);
    assert_eq!(s.successes, 0);
    assert_eq!(s.avg_ms, 0);
    assert_eq!(s.uptime_pct_x100, 0);
}
