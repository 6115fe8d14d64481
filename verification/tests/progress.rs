use httpress::config::StopCondition;
use httpress::progress::{format_duration, position, progress_targets, requests_since};
use httpress::time::Duration;

#[test]
fn clock_formatting() {
    assert_eq!(format_duration(Duration::from_secs(0)), "00s");
    assert_eq!(format_duration(Duration::from_millis(9_999)), "09s");
    assert_eq!(format_duration(Duration::from_secs(59)), "59s");
    assert_eq!(format_duration(Duration::from_secs(60)), "01m00s");
    assert_eq!(format_duration(Duration::from_secs(754)), "12m34s");
    assert_eq!(format_duration(Duration::from_secs(6000)), "100m00s");
}

#[test]
fn progress_positions() {
    assert_eq!(position(5, Duration::zero(), Some(10), None), Some(5));
    assert_eq!(position(15, Duration::zero(), Some(10), None), Some(10));
    assert_eq!(
        position(0, Duration::from_millis(1500), None, Some(Duration::from_secs(1))),
        Some(1000)
    );
    assert_eq!(
        position(0, Duration::from_millis(250), None, Some(Duration::from_secs(1))),
        Some(250)
    );
    assert_eq!(position(3, Duration::from_secs(4), None, None), None);
}

#[test]
fn progress_targets_follow_the_stop_condition() {
    assert_eq!(progress_targets(&StopCondition::Requests(100)), (Some(100), None));
    assert_eq!(
        progress_targets(&StopCondition::Duration(Duration::from_secs(10))),
        (None, Some(Duration::from_secs(10)))
    );
    assert_eq!(progress_targets(&StopCondition::Infinite), (None, None));
    assert_eq!(requests_since(250, 200), 50);
    assert_eq!(requests_since(200, 200), 0);
    assert_eq!(requests_since(3, 7), 0);
}
