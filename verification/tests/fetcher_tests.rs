use textfiles_browser::fetcher::{retry_delay_secs, timeout_secs, user_agent, FetchPlan};

#[test]
fn policy_constants() {
    assert_eq!(timeout_secs(), 30);
    assert_eq!(retry_delay_secs(), 1);
    assert_eq!(user_agent(), "TextfilesBrowser/1.0");
}

#[test]
fn fresh_plan_allows_three_attempts() {
    let mut p = FetchPlan::new();
    assert!(p.should_attempt());
    p.record_failure("one".to_string());
    assert!(p.should_attempt());
    p.record_failure("two".to_string());
    assert!(p.should_attempt());
    p.record_failure("three".to_string());
    assert!(!p.should_attempt());
}

#[test]
fn three_failures_surface_one_error_with_last_cause() {
    let mut p = FetchPlan::new();
    p.record_failure("connection refused".to_string());
    p.record_failure("connection refused".to_string());
    p.record_failure("timed out".to_string());
    assert!(!p.should_attempt());
    let e = p.into_error();
    assert_eq!(e.message, "timed out");
}

#[test]
fn success_before_exhaustion_leaves_attempts() {
    let mut p = FetchPlan::new();
    p.record_failure("once".to_string());
    assert!(p.should_attempt());
}
