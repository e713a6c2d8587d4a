use tosho::fetch::{decide, http_status_error, Attempt, Decision, RateLimiter};
use tosho::Error;

#[test]
fn rate_limit_spacing() {
    let mut limiter = RateLimiter::new(200);
    assert_eq!(limiter.wait_time("s", 1000), 0);
    limiter.record("s", 1000);
    assert_eq!(limiter.wait_time("s", 1000), 200);
    assert_eq!(limiter.wait_time("s", 1150), 50);
    assert_eq!(limiter.wait_time("s", 1200), 0);
    assert_eq!(limiter.wait_time("t", 1000), 0);
    limiter.record("s", 1200);
    assert_eq!(limiter.wait_time("s", 1210), 190);
    assert_eq!(limiter.wait_time_custom("s", 1210, 1000), 990);
    assert_eq!(limiter.wait_time("s", 900), 200);
}

#[test]
fn rate_limited_responses_are_retried_then_reported() {
    let max = 3;
    let mut attempts = 0;
    let mut requests = 0;
    let outcome = Attempt::Status { code: 429, retry_after: Some(7) };
    let final_decision = loop {
        requests += 1;
        match decide(attempts, max, outcome) {
            Decision::Retry { wait_secs } => {
                attempts += 1;
                assert_eq!(wait_secs, 1u64 << attempts);
            }
            other => break other,
        }
    };
    assert_eq!(requests, max + 1);
    assert_eq!(final_decision, Decision::RateLimited { retry_after: Some(7) });
}

#[test]
fn other_outcomes() {
    assert_eq!(decide(0, 3, Attempt::Success), Decision::Deliver);
    assert_eq!(decide(0, 3, Attempt::Transport), Decision::Retry { wait_secs: 1 });
    assert_eq!(decide(3, 3, Attempt::Transport), Decision::NetworkFailure);
    assert_eq!(
        decide(0, 3, Attempt::Status { code: 500, retry_after: None }),
        Decision::HttpStatus { code: 500 }
    );
    assert_eq!(
        decide(70, 100, Attempt::Status { code: 429, retry_after: None }),
        Decision::Retry { wait_secs: u64::MAX }
    );
    assert_eq!(
        http_status_error("mgd", 503),
        Error::Source { src: "mgd".to_string(), message: "HTTP 503".to_string() }
    );
}
