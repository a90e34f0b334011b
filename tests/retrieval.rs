use rocks::retrieval::{quote_url, FetchOutcome, FetchStep, Retry, BACKOFF_SECS, MAX_ATTEMPTS};

#[test]
fn url_appends_symbol() {
    assert_eq!(quote_url("AAPL"), "https://finance.yahoo.com/quote/AAPL");
    assert_eq!(quote_url(""), "https://finance.yahoo.com/quote/");
}

#[test]
fn body_is_delivered() {
    let mut r = Retry::new();
    match r.on_outcome(FetchOutcome::Received("<html></html>".to_string())) {
        FetchStep::Deliver(b) => assert_eq!(b, "<html></html>"),
        other => panic!("unexpected {:?}", other),
    }
    assert_eq!(r.failed, 0);
}

#[test]
fn failures_retry_with_fixed_backoff_then_exhaust() {
    let mut r = Retry::new();
    assert_eq!(MAX_ATTEMPTS, 3);
    assert_eq!(BACKOFF_SECS, 2);
    assert!(matches!(r.on_outcome(FetchOutcome::Failed), FetchStep::RetryAfter(2)));
    assert!(matches!(r.on_outcome(FetchOutcome::Failed), FetchStep::RetryAfter(2)));
    assert!(matches!(r.on_outcome(FetchOutcome::Failed), FetchStep::Exhausted));
    assert_eq!(r.failed, 3);
}

#[test]
fn success_after_a_failure() {
    let mut r = Retry::new();
    assert!(matches!(r.on_outcome(FetchOutcome::Failed), FetchStep::RetryAfter(2)));
    assert!(matches!(r.on_outcome(FetchOutcome::Received("ok".to_string())), FetchStep::Deliver(_)));
    assert_eq!(r.failed, 1);
}
