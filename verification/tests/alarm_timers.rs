use chrono::Utc;
use grpc_alarms_db::datetime::{datetime_to_timestamp, DateTimeUtc};
use grpc_alarms_db::error::Code;
use grpc_alarms_db::row::{DataRow, DataValue, QueryParameter};
use grpc_alarms_db::services::alarm_timers::queries::{
    CREATE_TIMER_QUERY, DELETE_TIMER_QUERY, READ_SNOOZE_TIMERS,
    READ_USER_BYPASS_REMINDERS_QUERY, UPDATE_TIMER_QUERY,
};
use grpc_alarms_db::services::alarm_timers::{
    bypass_reminders_query, create_query, create_reply, delete_query, delete_reply, read_query,
    read_reply, rows_to_timers, update_query, update_reply, validate_delete_request,
    validate_read_request, validate_timer_input, AlarmTimer, DeleteRequest, ReadRequest,
    ValidReadRequest,
};
use grpc_alarms_db::error::DataStoreError;
use grpc_alarms_db::timer_type::{KnownTimerType, TimerType};

struct TestRow {
    device: String,
    end_time: DateTimeUtc,
    timer_type: String,
    updated_at: DateTimeUtc,
    updated_by: String,
}

impl TestRow {
    fn to_row(&self) -> DataRow {
        DataRow::new()
            .with("device", DataValue::Str(self.device.clone()))
            .with("end_time", DataValue::DateTime(self.end_time))
            .with("timer_type", DataValue::Str(self.timer_type.clone()))
            .with("updated_at", DataValue::DateTime(self.updated_at))
            .with("updated_by", DataValue::Str(self.updated_by.clone()))
    }
}

fn now() -> DateTimeUtc {
    let now = Utc::now();
    DateTimeUtc::from_timestamp(now.timestamp(), now.timestamp_subsec_nanos()).unwrap()
}

#[test]
fn test_read_bypass_reminders() {
    let test_time = now();
    let test_row = TestRow {
        device: "Device1".to_string(),
        end_time: test_time,
        timer_type: TimerType::BypassReminder.as_str_name().to_string(),
        updated_at: test_time,
        updated_by: "UserA".to_string(),
    };
    let query = bypass_reminders_query(ValidReadRequest {
        timer_type: KnownTimerType::Bypass,
        user: "UserA".to_string(),
    });
    assert_eq!(query.query, READ_USER_BYPASS_REMINDERS_QUERY);
    let result = rows_to_timers(vec![test_row.to_row()]);
    assert!(result.is_ok());

    let timers = result.expect("read_bypass_reminders should succeed");
    assert_eq!(timers.len(), 1);
    let timer = &timers[0];
    assert_eq!(timer.device, test_row.device);
    assert_eq!(timer.end_time, datetime_to_timestamp(test_row.end_time));
    assert_eq!(timer.timer_type, TimerType::BypassReminder.value());
    assert_eq!(timer.updated_at, datetime_to_timestamp(test_row.updated_at));
    assert_eq!(timer.updated_by, test_row.updated_by);
}

#[test]
fn test_read_snooze_timers() {
    let test_time = now();
    let test_row = TestRow {
        device: "Device1".to_string(),
        end_time: test_time,
        timer_type: TimerType::Snooze.as_str_name().to_string(),
        updated_at: test_time,
        updated_by: "UserA".to_string(),
    };
    let query = read_query(ReadRequest {
        timer_type: TimerType::Snooze.value(),
        user: String::new(),
    });
    assert!(query.is_ok());
    assert_eq!(query.unwrap().query, READ_SNOOZE_TIMERS);

    let result = read_reply(Ok(vec![test_row.to_row()]));
    assert!(result.is_ok());

    let timers = result.expect("read snooze timers should succeed").alarm_timers;
    assert_eq!(timers.len(), 1);

    let timer = &timers[0];
    assert_eq!(timer.device, test_row.device);
    assert_eq!(timer.end_time, datetime_to_timestamp(test_row.end_time));
    assert_eq!(timer.timer_type, TimerType::Snooze.value());
    assert_eq!(timer.updated_at, datetime_to_timestamp(test_row.updated_at));
    assert_eq!(timer.updated_by, test_row.updated_by);
}

#[test]
fn test_create_timer() {
    let test_time = datetime_to_timestamp(now());
    let alarm_timer = AlarmTimer {
        device: "Device2".to_string(),
        end_time: test_time,
        timer_type: TimerType::BypassReminder.value(),
        updated_at: None,
        updated_by: "UserB".to_string(),
    };
    let query = create_query(alarm_timer);
    assert!(query.is_ok());
    let result = create_reply(Ok(vec![]));
    assert!(result.is_ok());
}

#[test]
fn test_delete_timer() {
    let delete_request = DeleteRequest {
        device: "Device3".to_string(),
        timer_type: TimerType::Snooze.value(),
    };
    let query = delete_query(delete_request);
    assert!(query.is_ok());
    let result = delete_reply(Ok(vec![]));
    assert!(result.is_ok());
}

#[test]
fn test_update_timer() {
    let test_time = datetime_to_timestamp(now());
    let alarm_timer = AlarmTimer {
        device: "Device4".to_string(),
        end_time: test_time,
        timer_type: TimerType::BypassReminder.value(),
        updated_at: None,
        updated_by: "UserC".to_string(),
    };
    let query = update_query(alarm_timer);
    assert!(query.is_ok());
    let result = update_reply(Ok(vec![]));
    assert!(result.is_ok());
}

#[test]
fn test_validate_delete_request() {
    let invalid_request = DeleteRequest {
        device: "".to_string(),
        timer_type: TimerType::BypassReminder.value(),
    };
    let result = validate_delete_request(invalid_request);
    assert!(result.is_err());

    let invalid_request = DeleteRequest {
        device: "Device1".to_string(),
        timer_type: TimerType::Unknown.value(),
    };
    let result = validate_delete_request(invalid_request);
    assert!(result.is_err());

    let invalid_request = DeleteRequest { device: "Device1".to_string(), timer_type: 12345 };
    let result = validate_delete_request(invalid_request);
    assert!(result.is_err());
}

#[test]
fn test_validate_read_request() {
    let invalid_request = ReadRequest {
        timer_type: TimerType::Unknown.value(),
        user: "UserA".to_string(),
    };
    let result = validate_read_request(invalid_request);
    assert!(result.is_err());

    let invalid_request = ReadRequest {
        timer_type: TimerType::BypassReminder.value(),
        user: "".to_string(),
    };
    let result = validate_read_request(invalid_request);
    assert!(result.is_err());

    let invalid_request = ReadRequest { timer_type: 67890, user: "UserA".to_string() };
    let result = validate_read_request(invalid_request);
    assert!(result.is_err());
}

fn invalid_alarm_timer() -> AlarmTimer {
    AlarmTimer {
        device: "".to_string(),
        end_time: None,
        timer_type: TimerType::Unknown.value(),
        updated_at: None,
        updated_by: "".to_string(),
    }
}

#[test]
fn test_validate_timer_input() {
    let valid_device = "Device3".to_string();
    let valid_time = datetime_to_timestamp(now());

    let result = validate_timer_input(invalid_alarm_timer());
    assert!(result.is_err());

    let mut invalid_timer = invalid_alarm_timer();
    invalid_timer.device = valid_device.clone();
    let result = validate_timer_input(invalid_timer);
    assert!(result.is_err());

    let mut invalid_timer = invalid_alarm_timer();
    invalid_timer.device = valid_device.clone();
    invalid_timer.end_time = valid_time;
    let result = validate_timer_input(invalid_timer);
    assert!(result.is_err());

    let mut invalid_timer = invalid_alarm_timer();
    invalid_timer.device = valid_device.clone();
    invalid_timer.end_time = valid_time;
    invalid_timer.timer_type = 897;
    let result = validate_timer_input(invalid_timer);
    assert!(result.is_err());

    let mut invalid_timer = invalid_alarm_timer();
    invalid_timer.device = valid_device.clone();
    invalid_timer.end_time = valid_time;
    invalid_timer.timer_type = TimerType::Snooze.value();
    let result = validate_timer_input(invalid_timer);
    assert!(result.is_err());
}

fn message_of<T: std::fmt::Debug>(r: Result<T, grpc_alarms_db::error::Status>) -> String {
    let status = r.unwrap_err();
    assert_eq!(status.code(), Code::InvalidArgument);
    status.message().to_string()
}

#[test]
fn timer_input_refusals_come_in_order() {
    let time = datetime_to_timestamp(now());
    let mut timer = invalid_alarm_timer();
    assert_eq!(message_of(validate_timer_input(timer)), "\"device\" field is required.");
    timer = invalid_alarm_timer();
    timer.device = "Device3".to_string();
    assert_eq!(message_of(validate_timer_input(timer)), "\"updated_by\" field is required.");
    timer = invalid_alarm_timer();
    timer.device = "Device3".to_string();
    timer.updated_by = "UserA".to_string();
    assert_eq!(message_of(validate_timer_input(timer)), "\"end_time\" field is required.");
    timer = invalid_alarm_timer();
    timer.device = "Device3".to_string();
    timer.updated_by = "UserA".to_string();
    timer.end_time = Some(grpc_alarms_db::datetime::Timestamp { seconds: i64::MAX, nanos: 0 });
    assert_eq!(
        message_of(validate_timer_input(timer)),
        "Timestamp is not within the allowable range. Exceeds system limits."
    );
    timer = invalid_alarm_timer();
    timer.device = "Device3".to_string();
    timer.updated_by = "UserA".to_string();
    timer.end_time = time;
    assert_eq!(message_of(validate_timer_input(timer)), "Invalid \"timer_type\" value.");
}

#[test]
fn valid_timer_input_is_lowercased() {
    let d = DateTimeUtc::from_timestamp(1_700_000_000, 0).unwrap();
    let timer = AlarmTimer {
        device: "M:OUTTMP".to_string(),
        end_time: datetime_to_timestamp(d),
        timer_type: TimerType::Snooze.value(),
        updated_at: None,
        updated_by: "JDoe".to_string(),
    };
    let valid = validate_timer_input(timer).unwrap();
    assert_eq!(valid.device, "m:outtmp");
    assert_eq!(valid.updated_by, "jdoe");
    assert_eq!(valid.end_time, d);
    assert_eq!(valid.timer_type, KnownTimerType::Snooze);
}

#[test]
fn create_and_update_bind_the_validated_values() {
    let d = DateTimeUtc::from_timestamp(1_700_000_000, 0).unwrap();
    let timer = || AlarmTimer {
        device: "Device2".to_string(),
        end_time: datetime_to_timestamp(d),
        timer_type: TimerType::BypassReminder.value(),
        updated_at: None,
        updated_by: "UserB".to_string(),
    };
    let create = create_query(timer()).unwrap();
    assert_eq!(create.query, CREATE_TIMER_QUERY);
    assert_eq!(create.parameters.len(), 4);
    assert!(matches!(&create.parameters[0], QueryParameter::Str(s) if s == "device2"));
    assert!(matches!(&create.parameters[1], QueryParameter::DateTime(t) if *t == d));
    assert!(
        matches!(&create.parameters[2], QueryParameter::Str(s) if s == "TimerType_BYPASS_REMINDER")
    );
    assert!(matches!(&create.parameters[3], QueryParameter::Str(s) if s == "userb"));

    let update = update_query(timer()).unwrap();
    assert_eq!(update.query, UPDATE_TIMER_QUERY);
    assert_eq!(update.parameters.len(), 4);
    assert!(matches!(&update.parameters[0], QueryParameter::DateTime(t) if *t == d));
    assert!(matches!(&update.parameters[1], QueryParameter::Str(s) if s == "userb"));
    assert!(matches!(&update.parameters[2], QueryParameter::Str(s) if s == "device2"));
    assert!(
        matches!(&update.parameters[3], QueryParameter::Str(s) if s == "TimerType_BYPASS_REMINDER")
    );
}

#[test]
fn delete_binds_the_lowercased_device_and_kind() {
    let q = delete_query(DeleteRequest {
        device: "Device3".to_string(),
        timer_type: TimerType::Snooze.value(),
    })
    .unwrap();
    assert_eq!(q.query, DELETE_TIMER_QUERY);
    assert_eq!(q.parameters.len(), 2);
    assert!(matches!(&q.parameters[0], QueryParameter::Str(s) if s == "device3"));
    assert!(matches!(&q.parameters[1], QueryParameter::Str(s) if s == "TimerType_SNOOZE"));
}

#[test]
fn read_requests() {
    let snooze = validate_read_request(ReadRequest {
        timer_type: TimerType::Snooze.value(),
        user: "Someone".to_string(),
    })
    .unwrap();
    assert_eq!(snooze.user, "");
    let q = read_query(ReadRequest {
        timer_type: TimerType::BypassReminder.value(),
        user: "UserA".to_string(),
    })
    .unwrap();
    assert_eq!(q.query, READ_USER_BYPASS_REMINDERS_QUERY);
    assert!(
        matches!(&q.parameters[0], QueryParameter::Str(s) if s == "TimerType_BYPASS_REMINDER")
    );
    assert!(matches!(&q.parameters[1], QueryParameter::Str(s) if s == "usera"));
    assert_eq!(
        message_of(read_query(ReadRequest {
            timer_type: TimerType::BypassReminder.value(),
            user: String::new(),
        })),
        "\"user\" field is required for reminder queries."
    );
    assert_eq!(
        message_of(read_query(ReadRequest { timer_type: 0, user: String::new() })),
        "Invalid \"timer_type\" value."
    );
}

#[test]
fn unknown_stored_timer_type_reads_as_unknown() {
    let d = now();
    let row = TestRow {
        device: "Device1".to_string(),
        end_time: d,
        timer_type: "TimerType_OTHER".to_string(),
        updated_at: d,
        updated_by: "UserA".to_string(),
    }
    .to_row();
    let timers = rows_to_timers(vec![row]).unwrap();
    assert_eq!(timers[0].timer_type, TimerType::Unknown.value());
}

#[test]
fn unreadable_timer_row_fails_the_read() {
    let d = now();
    let good = TestRow {
        device: "Device1".to_string(),
        end_time: d,
        timer_type: "TimerType_SNOOZE".to_string(),
        updated_at: d,
        updated_by: "UserA".to_string(),
    };
    let bad = DataRow::new().with("device", DataValue::Str("Device2".to_string()));
    let err = rows_to_timers(vec![good.to_row(), bad]).unwrap_err();
    assert_eq!(err.details(), "column `end_time` does not hold a date-time value");
    let reply = read_reply(Ok(vec![good.to_row(), DataRow::new()]));
    let status = reply.unwrap_err();
    assert_eq!(status.code(), Code::Internal);
    assert_eq!(
        status.message(),
        "Failed to fetch alarm timers. See server logs for details."
    );
}

#[test]
fn data_store_failures_become_internal_errors() {
    let failed = || Err(DataStoreError::new("down".to_string()));
    assert_eq!(
        create_reply(failed()).unwrap_err().message(),
        "Failed to set alarm timer. See server logs for details."
    );
    assert_eq!(
        delete_reply(failed()).unwrap_err().message(),
        "Failed to delete alarm timer. See server logs for details."
    );
    assert_eq!(
        update_reply(failed()).unwrap_err().message(),
        "Failed to update alarm timer. See server logs for details."
    );
    assert_eq!(read_reply(failed()).unwrap_err().code(), Code::Internal);
}
