use generator_native::sanitise::c_escape;

#[test]
fn escapes_backslash_and_quote() {
    assert_eq!(c_escape("a\\b\"c"), "a\\\\b\\\"c");
    assert_eq!(c_escape("plain text"), "plain text");
    assert_eq!(c_escape(""), "");
    assert_eq!(c_escape("\"\""), "\\\"\\\"");
    assert_eq!(c_escape("héllo\\"), "héllo\\\\");
}
