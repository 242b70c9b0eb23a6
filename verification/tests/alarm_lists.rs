use chrono::{TimeZone, Utc};
use grpc_alarms_db::datetime::{DateTimeUtc, Timestamp};
use grpc_alarms_db::error::{Code, DataStoreError};
use grpc_alarms_db::row::{DataRow, DataValue};
use grpc_alarms_db::services::alarm_lists::{alarm_lists_reply, lists_from_rows, sort_lists, AlarmList};

fn list_row(number: i32, day: u32, device: &str) -> DataRow {
    let time = Utc
        .with_ymd_and_hms(2024, 1, day, 0, 0, 0)
        .single()
        .expect("Date could not be calculated");
    DataRow::new()
        .with("list_name", DataValue::Str(format!("List{number}")))
        .with("long_name", DataValue::Str(format!("Long List {number}")))
        .with("description", DataValue::Str(format!("Description {number}")))
        .with("device_name", DataValue::Str(device.to_string()))
        .with(
            "modify_date",
            DataValue::DateTime(DateTimeUtc::from_timestamp(time.timestamp(), 0).unwrap()),
        )
        .with("modify_user_name", DataValue::Str(format!("User{number}")))
        .with("list_number", DataValue::Int(number))
}

#[test]
fn test_get_alarm_lists() {
    let result = alarm_lists_reply(Ok(vec![list_row(1, 1, "G:AMANDA1"), list_row(2, 2, "G:AMANDA2")]));
    assert!(result.is_ok());
    let response = result.unwrap();
    assert_eq!(response.alarm_lists.len(), 2);
    for (index, value) in response.alarm_lists.iter().enumerate() {
        let index_text = (index + 1).to_string();
        let time = Utc
            .with_ymd_and_hms(2024, 1, (index + 1).try_into().unwrap(), 0, 0, 0)
            .single()
            .expect("Date could not be calculated");
        assert_eq!(value.name, format!("List{}", index_text));
        assert_eq!(value.long_name, format!("Long List {}", index_text));
        assert_eq!(value.description, format!("Description {}", index_text));
        assert_eq!(
            value.modify_date,
            Some(Timestamp {
                seconds: time.timestamp(),
                nanos: time.timestamp_subsec_nanos() as i32,
            })
        );
        assert_eq!(value.modify_user_name, format!("User{}", index_text));
        assert_eq!(value.list_number, (index + 1) as i32);
        assert_eq!(value.member_devices, vec![format!("G:AMANDA{}", index_text)]);
    }
}

#[test]
fn lists_gather_devices_and_sort_by_number() {
    let rows = vec![
        list_row(5, 1, "D1"),
        list_row(2, 2, "D2"),
        list_row(5, 3, "D3"),
        list_row(-1, 4, "D4"),
    ];
    let lists = lists_from_rows(rows).unwrap();
    let numbers: Vec<i32> = lists.iter().map(|l| l.list_number).collect();
    assert_eq!(numbers, vec![-1, 2, 5]);
    assert_eq!(lists[2].member_devices, vec!["D1", "D3"]);
    assert_eq!(lists[2].modify_date.unwrap().seconds, 1704067200);
}

#[test]
fn alarm_list_failures_become_data_store_statuses() {
    let status = alarm_lists_reply(Err(DataStoreError::new("down".to_string()))).unwrap_err();
    assert_eq!(status.code(), Code::Internal);
    assert_eq!(
        status.message(),
        "An error occured while accessing the data store. See system logs for details."
    );
    assert!(alarm_lists_reply(Ok(vec![DataRow::new()])).is_err());
}

#[test]
fn alarm_lists_query_binds_nothing() {
    let q = grpc_alarms_db::services::alarm_lists::alarm_lists_query();
    assert_eq!(q.query, grpc_alarms_db::services::alarm_lists::ALARM_LISTS_QUERY);
    assert!(q.parameters.is_empty());
}

#[test]
fn sorting_lists_keeps_the_order_of_lists_with_one_number() {
    let list = |number: i32, name: &str| AlarmList {
        list_number: number,
        name: name.to_string(),
        long_name: String::new(),
        description: String::new(),
        modify_date: None,
        modify_user_name: String::new(),
        member_devices: Vec::new(),
    };
    let sorted = sort_lists(vec![list(3, "a"), list(1, "b"), list(3, "c"), list(1, "d")]);
    let order: Vec<(i32, String)> = sorted.into_iter().map(|l| (l.list_number, l.name)).collect();
    assert_eq!(
        order,
        vec![
            (1, "b".to_string()),
            (1, "d".to_string()),
            (3, "a".to_string()),
            (3, "c".to_string()),
        ]
    );
}
