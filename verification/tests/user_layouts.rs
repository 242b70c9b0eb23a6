use grpc_alarms_db::error::{Code, DataStoreError};
use grpc_alarms_db::row::{DataRow, DataValue};
use grpc_alarms_db::services::user_layouts::{
    layouts_from_rows, sort_layouts, user_layouts_reply, UserLayout,
};

fn layout_row(user: &str, group: &str) -> DataRow {
    DataRow::new()
        .with("user_name", DataValue::Str(user.to_string()))
        .with("group_name", DataValue::Str(group.to_string()))
}

fn check_layouts() {
    let result = user_layouts_reply(Ok(vec![layout_row("User1", "List1"), layout_row("User2", "List2")]));
    assert!(result.is_ok());
    let response = result.expect("get_user_layouts should succeed");
    assert_eq!(response.layouts.len(), 2);
    for (index, value) in response.layouts.iter().enumerate() {
        let index_text = (index + 1).to_string();
        assert_eq!(value.user_name, format!("User{index_text}"));
        assert_eq!(value.groups, vec![format!("List{index_text}")]);
    }
}

#[test]
fn tests_test_get_user_layouts() {
    check_layouts();
}

#[test]
fn user_layouts_test_get_user_layouts() {
    check_layouts();
}

#[test]
fn layouts_gather_per_user_and_sort_by_user() {
    let rows = vec![
        layout_row("zoe", "A"),
        layout_row("adam", "B"),
        layout_row("zoe", "C"),
        layout_row("Mia", "D"),
    ];
    let layouts = layouts_from_rows(rows).unwrap();
    let users: Vec<&str> = layouts.iter().map(|l| l.user_name.as_str()).collect();
    assert_eq!(users, vec!["Mia", "adam", "zoe"]);
    assert_eq!(layouts[2].groups, vec!["A", "C"]);
    assert_eq!(layouts[1].groups, vec!["B"]);
}

#[test]
fn unreadable_layout_rows_fail_the_reply() {
    let bad = DataRow::new().with("user_name", DataValue::Str("x".to_string()));
    let err = layouts_from_rows(vec![bad]).unwrap_err();
    assert_eq!(err.details(), "column `group_name` does not hold a text value");
    let status = user_layouts_reply(Err(DataStoreError::new("down".to_string()))).unwrap_err();
    assert_eq!(status.code(), Code::Internal);
    assert_eq!(
        status.message(),
        "Failed to retrieve user layouts. See server logs for details."
    );
}

#[test]
fn layouts_query_binds_nothing() {
    let q = grpc_alarms_db::services::user_layouts::user_layouts_query();
    assert_eq!(q.query, grpc_alarms_db::services::user_layouts::queries::GET_ALL_LAYOUTS_QUERY);
    assert!(q.parameters.is_empty());
}

fn reply_layouts(rows: Vec<DataRow>) -> Vec<(String, Vec<String>)> {
    user_layouts_reply(Ok(rows))
        .unwrap()
        .layouts
        .into_iter()
        .map(|l| (l.user_name, l.groups))
        .collect()
}

#[test]
fn keeping_each_users_row_order_keeps_the_reply() {
    let first = vec![
        layout_row("bo", "G1"),
        layout_row("al", "G2"),
        layout_row("bo", "G3"),
        layout_row("al", "G4"),
    ];
    let second = vec![
        layout_row("al", "G2"),
        layout_row("al", "G4"),
        layout_row("bo", "G1"),
        layout_row("bo", "G3"),
    ];
    let expected = vec![
        ("al".to_string(), vec!["G2".to_string(), "G4".to_string()]),
        ("bo".to_string(), vec!["G1".to_string(), "G3".to_string()]),
    ];
    assert_eq!(reply_layouts(first), expected);
    assert_eq!(reply_layouts(second), expected);
}

#[test]
fn sorting_layouts_keeps_the_order_of_one_users_layouts() {
    let layout = |user: &str, group: &str| UserLayout {
        user_name: user.to_string(),
        groups: vec![group.to_string()],
    };
    let sorted = sort_layouts(vec![
        layout("b", "1"),
        layout("a", "2"),
        layout("b", "3"),
        layout("a", "4"),
    ]);
    let order: Vec<(String, String)> = sorted
        .into_iter()
        .map(|l| (l.user_name, l.groups[0].clone()))
        .collect();
    assert_eq!(
        order,
        vec![
            ("a".to_string(), "2".to_string()),
            ("a".to_string(), "4".to_string()),
            ("b".to_string(), "1".to_string()),
            ("b".to_string(), "3".to_string()),
        ]
    );
}

#[test]
fn moving_an_unreadable_row_keeps_the_same_error_reply() {
    let bad = || DataRow::new().with("group_name", DataValue::Str("G".to_string()));
    let first = vec![bad(), layout_row("al", "G1"), layout_row("bo", "G2")];
    let second = vec![layout_row("al", "G1"), layout_row("bo", "G2"), bad()];
    let a = user_layouts_reply(Ok(first)).unwrap_err();
    let b = user_layouts_reply(Ok(second)).unwrap_err();
    assert_eq!(a.code(), b.code());
    assert_eq!(a.message(), b.message());
}
