use copy_sync::retry::{ReconnectPolicy, DETECTOR_INTERVAL_SECONDS, RETRY_INTERVAL_SECONDS};

#[test]
fn reconnect_after_three_failures() {
    // The transport refuses three times in a row; every wait is the same
    // fixed interval, and the fourth, successful attempt resets the policy.
    let mut policy = ReconnectPolicy::new();
    assert_eq!(policy.failures, 0);
    for expected in 1..=3u64 {
        let wait = policy.on_failure();
        assert_eq!(wait, 60);
        assert_eq!(policy.failures, expected);
    }
    policy.on_success();
    assert_eq!(policy.failures, 0);

    // A later failure waits the same fixed interval again: no backoff.
    assert_eq!(policy.on_failure(), RETRY_INTERVAL_SECONDS);
}

#[test]
fn intervals_match_the_design() {
    assert_eq!(RETRY_INTERVAL_SECONDS, 60);
    assert_eq!(DETECTOR_INTERVAL_SECONDS, 2);
}
