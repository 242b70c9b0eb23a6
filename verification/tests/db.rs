use grpc_alarms_db::error::{Code, DataStoreError};
use grpc_alarms_db::row::{DataRow, DataValue};

#[test]
fn test_display_datastore_error() {
    let error = DataStoreError::new("Test error".to_string());
    assert_eq!(error.to_string(), "DataStoreError: Test error");
}

#[test]
fn test_datastore_error_to_status() {
    let error = DataStoreError::new("Test error".to_string());
    let status = error.to_status();
    assert_eq!(status.code(), Code::Internal);
    assert_eq!(
        status.message(),
        "An error occured while accessing the data store. See system logs for details."
    );
}

#[test]
fn datastore_error_keeps_its_details() {
    let error = DataStoreError::new("row missing".to_string());
    assert_eq!(error.details(), "row missing");
}

#[test]
fn row_reads_each_kind_of_value() {
    let row = DataRow::new()
        .with("name", DataValue::Str("Group1".to_string()))
        .with("flag", DataValue::Bool(true))
        .with("number", DataValue::Int(7));
    assert_eq!(row.get_str("name").unwrap(), "Group1");
    assert!(row.get_bool("flag").unwrap());
    assert_eq!(row.get_int("number").unwrap(), 7);
}

#[test]
fn row_refuses_a_missing_or_mistyped_column() {
    let row = DataRow::new().with("flag", DataValue::Bool(true));
    let missing = row.get_str("name").unwrap_err();
    assert_eq!(missing.details(), "column `name` does not hold a text value");
    let mistyped = row.get_str("flag").unwrap_err();
    assert_eq!(mistyped.details(), "column `flag` does not hold a text value");
    assert!(row.get_datetime("flag").is_err());
    assert!(row.get_int("flag").is_err());
    let null = DataRow::new().with("flag", DataValue::Null);
    assert!(null.get_bool("flag").is_err());
}

#[test]
fn row_lookup_takes_the_first_column_of_a_name() {
    let row = DataRow::new()
        .with("name", DataValue::Str("first".to_string()))
        .with("name", DataValue::Str("second".to_string()));
    assert_eq!(row.get_str("name").unwrap(), "first");
}
