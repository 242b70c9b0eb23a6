use grpc_alarms_db::error::Code;
use grpc_alarms_db::timer_type::{KnownTimerType, TimerType, UnknownEnumValue};

#[test]
fn timer_type_names_and_values_round_trip() {
    for t in [TimerType::Unknown, TimerType::BypassReminder, TimerType::Snooze] {
        assert_eq!(TimerType::from_str_name(t.as_str_name()), Some(t));
        assert_eq!(TimerType::try_from_i32(t.value()), Ok(t));
    }
    assert_eq!(TimerType::from_str_name("Snooze"), None);
    assert_eq!(TimerType::try_from_i32(3), Err(UnknownEnumValue(3)));
}

#[test]
fn known_timer_types() {
    assert_eq!(KnownTimerType::Bypass.as_string_name(), "TimerType_BYPASS_REMINDER");
    assert_eq!(KnownTimerType::Snooze.as_string_name(), "TimerType_SNOOZE");
    assert_eq!(KnownTimerType::try_from(TimerType::Snooze).unwrap(), KnownTimerType::Snooze);
    assert_eq!(
        KnownTimerType::try_from(TimerType::BypassReminder).unwrap(),
        KnownTimerType::Bypass
    );
    let status = KnownTimerType::try_from(TimerType::Unknown).unwrap_err();
    assert_eq!(status.code(), Code::InvalidArgument);
    assert_eq!(status.message(), "Invalid \"timer_type\" value.");
}
