use pifile::fs::ops::validate_name;

#[test]
fn rejects_bad_names() {
    assert!(validate_name("").is_err());
    assert!(validate_name("..").is_err());
    assert!(validate_name("a/b").is_err());
    assert!(validate_name("ok").is_ok());
}
