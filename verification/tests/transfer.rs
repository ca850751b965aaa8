use raze_cli::transfer::{
    accept_bandwidth_limit, rule_on, select_upload_strategy, throttle_allocation, LimitRuling,
    UploadStrategy, DELETE_WORKERS, STREAM_UPLOAD_THRESHOLD, UPLOAD_WORKERS,
};

#[test]
fn four_workers_share_four_million_bytes_evenly() {
    assert_eq!(throttle_allocation(4_000_000, 4), 1_000_000);
}

#[test]
fn share_is_rounded_down_and_may_be_nothing() {
    assert_eq!(throttle_allocation(10, 4), 2);
    assert_eq!(throttle_allocation(3, 4), 0);
    assert_eq!(throttle_allocation(0, 4), 0);
    assert_eq!(throttle_allocation(7, 1), 7);
    assert_eq!(throttle_allocation(usize::MAX, UPLOAD_WORKERS), usize::MAX / 4);
    assert_eq!(UPLOAD_WORKERS, 4);
    assert!(DELETE_WORKERS > 0);
}

#[test]
fn uncapped_upload_is_streamed_above_the_threshold_only() {
    assert_eq!(STREAM_UPLOAD_THRESHOLD, 5_000_000);
    assert_eq!(select_upload_strategy(0, 0, 4), UploadStrategy::Buffered);
    assert_eq!(select_upload_strategy(4_999_999, 0, 4), UploadStrategy::Buffered);
    assert_eq!(select_upload_strategy(5_000_000, 0, 4), UploadStrategy::Buffered);
    assert_eq!(select_upload_strategy(5_000_001, 0, 4), UploadStrategy::Streaming);
    assert_eq!(select_upload_strategy(u64::MAX, 0, 4), UploadStrategy::Streaming);
}

#[test]
fn capped_upload_is_throttled_whatever_the_size() {
    for size in [0u64, 1, 5_000_000, 5_000_001, u64::MAX] {
        assert_eq!(
            select_upload_strategy(size, 4_000_000, 4),
            UploadStrategy::Throttled { bytes_per_second: 1_000_000 }
        );
        assert_eq!(select_upload_strategy(size, 3, 4), UploadStrategy::Throttled { bytes_per_second: 0 });
    }
}

#[test]
fn requested_cap_is_raised_to_the_number_of_workers() {
    assert_eq!(accept_bandwidth_limit(None, 4), 0);
    assert_eq!(accept_bandwidth_limit(Some(0), 4), 0);
    assert_eq!(accept_bandwidth_limit(Some(1), 4), 4);
    assert_eq!(accept_bandwidth_limit(Some(4), 4), 4);
    assert_eq!(accept_bandwidth_limit(Some(5), 4), 5);
    assert_eq!(accept_bandwidth_limit(Some(usize::MAX), 4), usize::MAX);
}

#[test]
fn request_for_a_cap_is_ruled_on() {
    assert_eq!(rule_on(None, 4), LimitRuling::Invalid);
    assert_eq!(rule_on(Some(0), 4), LimitRuling::Accepted);
    assert_eq!(rule_on(Some(1), 4), LimitRuling::RaisedToMinimum);
    assert_eq!(rule_on(Some(4), 4), LimitRuling::RaisedToMinimum);
    assert_eq!(rule_on(Some(5), 4), LimitRuling::Accepted);
}
