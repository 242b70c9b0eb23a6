use grpc_alarms_db::text::{decimal_string, str_less};

#[test]
fn decimal_numerals() {
    assert_eq!(decimal_string(0), "0");
    assert_eq!(decimal_string(7), "7");
    assert_eq!(decimal_string(10), "10");
    assert_eq!(decimal_string(12345), "12345");
    assert_eq!(decimal_string(usize::MAX), usize::MAX.to_string());
}

#[test]
fn strings_order_as_rust_orders_them() {
    let words = ["", "a", "ab", "b", "User1", "User2", "user1", "Z", "é", "ü"];
    for a in words.iter() {
        for b in words.iter() {
            assert_eq!(str_less(a, b), a < b, "{a} < {b}");
        }
    }
}
