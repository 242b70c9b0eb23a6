use chrono::{DateTime, TimeZone, Utc};
use grpc_alarms_db::datetime::{DateTimeUtc, Timestamp};
use grpc_alarms_db::error::{Code, DataStoreError};
use grpc_alarms_db::row::{DataRow, DataValue, QueryParameter};
use grpc_alarms_db::services::alarm_groups::queries::ALL_GROUPS_METADATA_QUERY;
use grpc_alarms_db::services::alarm_groups::{
    group_metadata_query, group_metadata_reply, groups_query, groups_reply, placeholder_list,
    rows_to_groups, GroupsRequest,
};

struct TestRow {
    group_name: String,
    description: String,
    updated_at: DateTime<Utc>,
    updated_by: String,
    group_is_user_category: bool,
    member_name: String,
    member_is_group: bool,
}

impl TestRow {
    fn to_row(&self) -> DataRow {
        let updated_at = DateTimeUtc::from_timestamp(
            self.updated_at.timestamp(),
            self.updated_at.timestamp_subsec_nanos(),
        )
        .unwrap();
        DataRow::new()
            .with("group_name", DataValue::Str(self.group_name.clone()))
            .with("description", DataValue::Str(self.description.clone()))
            .with("updated_at", DataValue::DateTime(updated_at))
            .with("updated_by", DataValue::Str(self.updated_by.clone()))
            .with("group_is_user_category", DataValue::Bool(self.group_is_user_category))
            .with("member_name", DataValue::Str(self.member_name.clone()))
            .with("member_is_group", DataValue::Bool(self.member_is_group))
    }
}

fn row1() -> TestRow {
    TestRow {
        group_name: "Group1".to_string(),
        description: "Description 1".to_string(),
        updated_at: Utc
            .with_ymd_and_hms(2024, 1, 1, 0, 0, 0)
            .single()
            .expect("Date could not be calculated"),
        updated_by: "User1".to_string(),
        group_is_user_category: false,
        member_name: "G:AMANDA1".to_string(),
        member_is_group: true,
    }
}

fn row2() -> TestRow {
    TestRow {
        group_name: "Group2".to_string(),
        description: "Description 2".to_string(),
        updated_at: Utc
            .with_ymd_and_hms(2024, 1, 2, 0, 0, 0)
            .single()
            .expect("Date could not be calculated"),
        updated_by: "User2".to_string(),
        group_is_user_category: true,
        member_name: "G:AMANDA2".to_string(),
        member_is_group: false,
    }
}

fn check_metadata(rows: Vec<DataRow>) {
    let query = group_metadata_query();
    assert_eq!(query.query, ALL_GROUPS_METADATA_QUERY);
    assert!(query.parameters.is_empty());
    let result = group_metadata_reply(Ok(rows));
    assert!(result.is_ok());
    let response = result.expect("get_group_metadata should succeed");
    assert_eq!(response.metadata.len(), 2);
    for (index, value) in response.metadata.iter().enumerate() {
        let index_text = (index + 1).to_string();
        let time = Utc
            .with_ymd_and_hms(
                2024,
                1,
                (index + 1).try_into().expect("index + 1 should fit in u32"),
                0,
                0,
                0,
            )
            .single()
            .expect("Date could not be calculated");
        assert_eq!(value.name, format!("Group{index_text}"));
        assert_eq!(value.description, format!("Description {index_text}"));
        assert_eq!(
            value.updated_at,
            Some(Timestamp {
                seconds: time.timestamp(),
                nanos: time.timestamp_subsec_nanos() as i32,
            })
        );
        assert_eq!(value.updated_by, format!("User{index_text}"));
        assert_eq!(value.is_user_category, index == 1);
    }
}

fn check_groups(rows: Vec<DataRow>) {
    let request = GroupsRequest { groups: vec!["Group2".to_string()] };
    let query = groups_query(request);
    assert!(query.is_ok());
    let result = groups_reply(Ok(rows));
    assert!(result.is_ok());
    let response = result.expect("get_groups should succeed");
    assert_eq!(response.alarm_groups.len(), 1);
    let value = response
        .alarm_groups
        .first()
        .expect("response should contain at least one group");
    let metadata = value.metadata.as_ref().expect("alarm group should have metadata");
    assert_eq!(metadata.name, "Group2");
    assert_eq!(metadata.description, "Description 2");
    let time = Utc
        .with_ymd_and_hms(2024, 1, 2, 0, 0, 0)
        .single()
        .expect("Date could not be calculated");
    assert_eq!(
        metadata.updated_at,
        Some(Timestamp {
            seconds: time.timestamp(),
            nanos: time.timestamp_subsec_nanos() as i32,
        })
    );
    assert_eq!(metadata.updated_by, "User2");
    assert!(metadata.is_user_category);
    assert_eq!(value.devices, vec!["G:AMANDA2"]);
    assert!(value.groups.is_empty());
}

#[test]
fn tests_test_get_group_metadata() {
    check_metadata(vec![row1().to_row(), row2().to_row()]);
}

#[test]
fn alarm_groups_test_get_group_metadata() {
    check_metadata(vec![row1().to_row(), row2().to_row()]);
}

#[test]
fn tests_test_get_groups() {
    check_groups(vec![row2().to_row()]);
}

#[test]
fn alarm_groups_test_get_groups() {
    check_groups(vec![row2().to_row()]);
}

#[test]
fn test_get_groups_empty_request() {
    let result = groups_query(GroupsRequest { groups: vec![] });
    assert!(result.is_err());
    let status = result.unwrap_err();
    assert_eq!(status.code(), Code::InvalidArgument);
    assert_eq!(status.message(), "\"groups\" field must not be empty.");
}

#[test]
fn placeholders_number_the_requested_groups() {
    assert_eq!(placeholder_list(0), "");
    assert_eq!(placeholder_list(1), "$1");
    assert_eq!(placeholder_list(3), "$1, $2, $3");
    assert!(placeholder_list(12).ends_with("$11, $12"));
}

#[test]
fn groups_query_binds_each_requested_group() {
    let q = groups_query(GroupsRequest {
        groups: vec!["Top".to_string(), "Other".to_string()],
    })
    .unwrap();
    assert!(q.query.contains("group_name IN ($1, $2)"));
    assert!(q.query.contains("WITH RECURSIVE members AS"));
    assert_eq!(q.parameters.len(), 2);
    assert!(matches!(&q.parameters[0], QueryParameter::Str(s) if s == "Top"));
    assert!(matches!(&q.parameters[1], QueryParameter::Str(s) if s == "Other"));
}

fn member_row(group: &str, member: &str, is_group: bool) -> DataRow {
    let mut row = row1();
    row.group_name = group.to_string();
    row.member_name = member.to_string();
    row.member_is_group = is_group;
    row.to_row()
}

#[test]
fn rows_gather_into_one_group_per_name() {
    let rows = vec![
        member_row("A", "D1", false),
        member_row("B", "D2", false),
        member_row("A", "C", true),
        member_row("A", "D3", false),
    ];
    let groups = rows_to_groups(rows).unwrap();
    assert_eq!(groups.len(), 2);
    assert_eq!(groups[0].metadata.as_ref().unwrap().name, "A");
    assert_eq!(groups[0].devices, vec!["D1", "D3"]);
    assert_eq!(groups[0].groups, vec!["C"]);
    assert_eq!(groups[1].metadata.as_ref().unwrap().name, "B");
    assert_eq!(groups[1].devices, vec!["D2"]);
    assert!(groups[1].groups.is_empty());
}

#[test]
fn a_group_without_readable_metadata_keeps_its_members() {
    let row = DataRow::new()
        .with("group_name", DataValue::Str("G".to_string()))
        .with("member_name", DataValue::Str("D".to_string()))
        .with("member_is_group", DataValue::Bool(false));
    let groups = rows_to_groups(vec![row]).unwrap();
    assert!(groups[0].metadata.is_none());
    assert_eq!(groups[0].devices, vec!["D"]);
}

#[test]
fn unreadable_group_rows_fail_the_reply() {
    let row = DataRow::new().with("group_name", DataValue::Str("G".to_string()));
    let err = rows_to_groups(vec![row]).unwrap_err();
    assert_eq!(err.details(), "column `member_name` does not hold a text value");
    let status = groups_reply(Err(DataStoreError::new("down".to_string()))).unwrap_err();
    assert_eq!(status.code(), Code::Internal);
    assert_eq!(
        status.message(),
        "Failed to retrieve alarm groups. See server logs for details."
    );
    let status = group_metadata_reply(Ok(vec![DataRow::new()])).unwrap_err();
    assert_eq!(
        status.message(),
        "Failed to retrieve alarm group metadata. See server logs for details."
    );
}

fn metadata_names(reply: &grpc_alarms_db::services::alarm_groups::AlarmGroups) -> Vec<Option<String>> {
    reply
        .alarm_groups
        .iter()
        .map(|g| g.metadata.as_ref().map(|m| m.name.clone()))
        .collect()
}

#[test]
fn groups_reply_orders_groups_by_name() {
    let rows = vec![
        member_row("Group2", "D2", false),
        member_row("Group1", "D1", false),
        member_row("Group2", "G3", true),
    ];
    let reply = groups_reply(Ok(rows)).unwrap();
    assert_eq!(
        metadata_names(&reply),
        vec![Some("Group1".to_string()), Some("Group2".to_string())]
    );
    assert_eq!(reply.alarm_groups[1].devices, vec!["D2"]);
    assert_eq!(reply.alarm_groups[1].groups, vec!["G3"]);
}

#[test]
fn groups_without_metadata_come_last_in_gathered_order() {
    let bare = |group: &str, member: &str| {
        DataRow::new()
            .with("group_name", DataValue::Str(group.to_string()))
            .with("member_name", DataValue::Str(member.to_string()))
            .with("member_is_group", DataValue::Bool(false))
    };
    let rows = vec![
        bare("Y", "D1"),
        member_row("b", "D2", false),
        bare("X", "D3"),
        member_row("B", "D4", false),
        member_row("a", "D5", false),
    ];
    let reply = groups_reply(Ok(rows)).unwrap();
    assert_eq!(
        metadata_names(&reply),
        vec![Some("B".to_string()), Some("a".to_string()), Some("b".to_string()), None, None]
    );
    assert_eq!(reply.alarm_groups[3].devices, vec!["D1"]);
    assert_eq!(reply.alarm_groups[4].devices, vec!["D3"]);
}

#[test]
fn groups_without_metadata_follow_in_gathered_order() {
    let bare = |group: &str| {
        DataRow::new()
            .with("group_name", DataValue::Str(group.to_string()))
            .with("member_name", DataValue::Str("M".to_string()))
            .with("member_is_group", DataValue::Bool(true))
    };
    let reply = groups_reply(Ok(vec![bare("Q"), member_row("Z", "D", false), bare("P")])).unwrap();
    assert_eq!(metadata_names(&reply), vec![Some("Z".to_string()), None, None]);
    assert_eq!(reply.alarm_groups[1].groups, vec!["M"]);
}
