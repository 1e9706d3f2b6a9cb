use uzi_pool::json::json_member;

#[test]
fn object_with_one_member() {
    assert_eq!(json_member("a", "b"), r#"{"a":"b"}"#);
    assert_eq!(json_member("", ""), r#"{"":""}"#);
}

#[test]
fn texts_are_escaped() {
    assert_eq!(json_member("a\"", "\\\n"), r#"{"a\"":"\\\n"}"#);
}
