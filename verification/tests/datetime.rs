use chrono::{TimeZone, Utc};
use grpc_alarms_db::datetime::{datetime_to_timestamp, timestamp_to_datetime, DateTimeUtc, Timestamp};
use grpc_alarms_db::error::Code;

#[test]
fn test_timestamp_to_datetime_out_of_range() {
    let invalid_timestamp = Timestamp { seconds: i64::MAX, nanos: i32::MAX };
    let result = timestamp_to_datetime(invalid_timestamp);
    assert!(result.is_err());
    let status = result.unwrap_err();
    assert_eq!(status.code(), Code::InvalidArgument);
    assert_eq!(
        status.message(),
        "Timestamp is not within the allowable range. Exceeds system limits."
    );
}

#[test]
fn datetime_to_timestamp_keeps_seconds_and_nanoseconds() {
    let time = Utc.with_ymd_and_hms(2024, 1, 2, 0, 0, 0).single().unwrap();
    let d = DateTimeUtc::from_timestamp(time.timestamp(), 5).unwrap();
    assert_eq!(
        datetime_to_timestamp(d),
        Some(Timestamp { seconds: 1704153600, nanos: 5 })
    );
}

#[test]
fn timestamp_round_trips_through_datetime() {
    let d = DateTimeUtc::from_timestamp(1_431_648_000, 123_456_789).unwrap();
    let t = datetime_to_timestamp(d).unwrap();
    assert_eq!(timestamp_to_datetime(t).unwrap(), d);
}

#[test]
fn negative_nanoseconds_are_refused() {
    assert!(timestamp_to_datetime(Timestamp { seconds: 0, nanos: -1 }).is_err());
}

#[test]
fn leap_second_nanoseconds_only_at_the_end_of_a_minute() {
    assert!(DateTimeUtc::from_timestamp(59, 1_500_000_000).is_some());
    assert!(DateTimeUtc::from_timestamp(58, 1_500_000_000).is_none());
    assert!(DateTimeUtc::from_timestamp(59, 2_000_000_000).is_none());
}

#[test]
fn datetime_accessors_report_their_parts() {
    let d = DateTimeUtc::from_timestamp(-86_400, 42).unwrap();
    assert_eq!(d.timestamp(), -86_400);
    assert_eq!(d.timestamp_subsec_nanos(), 42);
}

#[test]
fn the_unix_epoch_is_accepted() {
    let d = timestamp_to_datetime(Timestamp { seconds: 0, nanos: 0 }).unwrap();
    assert_eq!(d.timestamp(), 0);
    assert_eq!(d.timestamp_subsec_nanos(), 0);
}

#[test]
fn chrono_calendar_bounds_decide_acceptance() {
    assert!(DateTimeUtc::from_timestamp(8_210_266_876_799, 999_999_999).is_some());
    assert!(DateTimeUtc::from_timestamp(8_210_266_876_800, 0).is_none());
    assert!(DateTimeUtc::from_timestamp(-8_334_601_228_800, 0).is_some());
    assert!(DateTimeUtc::from_timestamp(-8_334_601_228_801, 0).is_none());
    assert!(DateTimeUtc::from_timestamp(-1, 1_500_000_000).is_some());
    assert!(DateTimeUtc::from_timestamp(-2, 1_000_000_000).is_none());
}
