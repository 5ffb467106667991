use openconfig::{config_json_text, strip, strip_jsonc};

#[test]
fn strips_line_comments_and_keeps_newline() {
    let raw = "{\n  // a comment\n  \"a\": 1 // trailing\n}";
    assert_eq!(strip_jsonc(raw).unwrap(), "{\n  \n  \"a\": 1 \n}");
}

#[test]
fn strips_block_comments() {
    let raw = "{ /* one\n two */ \"a\": /* x */ 2 }";
    assert_eq!(strip_jsonc(raw).unwrap(), "{  \"a\":  2 }");
}

#[test]
fn keeps_comment_markers_inside_strings() {
    let raw = "{\"url\": \"http://x/*y*/\", \"b\": \"a//b\"}";
    assert_eq!(strip_jsonc(raw).unwrap(), raw);
}

#[test]
fn escaped_quote_does_not_end_string() {
    let raw = "{\"a\": \"q\\\"//x\"} // c";
    assert_eq!(strip_jsonc(raw).unwrap(), "{\"a\": \"q\\\"//x\"} ");
}

#[test]
fn open_string_is_refused() {
    assert_eq!(strip_jsonc("{\"a\": \"oops}"), None);
}

#[test]
fn open_block_comment_is_refused() {
    assert_eq!(strip_jsonc("{} /* never closed"), None);
}

#[test]
fn line_comment_at_end_is_fine() {
    assert_eq!(strip_jsonc("{} // end").unwrap(), "{} ");
}

#[test]
fn lone_slash_is_kept() {
    assert_eq!(strip_jsonc("a / b").unwrap(), "a / b");
    assert_eq!(strip_jsonc("/").unwrap(), "/");
}

#[test]
fn star_slash_outside_comment_is_kept() {
    assert_eq!(strip_jsonc("a */ b").unwrap(), "a */ b");
}

#[test]
fn empty_text() {
    assert_eq!(strip_jsonc("").unwrap(), "");
}

#[test]
fn unicode_is_kept() {
    assert_eq!(strip_jsonc("{\"n\": \"héllo ✓\"} /* ü */").unwrap(), "{\"n\": \"héllo ✓\"} ");
}

#[test]
fn strip_agrees_with_strip_jsonc() {
    for raw in ["{ // x\n}", "\"open", "/* c */ 1", "a/b", ""] {
        assert_eq!(strip(raw), strip_jsonc(raw));
    }
}

#[test]
fn stripping_twice_changes_nothing_more() {
    for raw in ["{ // x\n \"a\": \"//\" /* y */ }", "/ /* c */ / x", "x //* y */\nz", "a/\n/b"] {
        let once = strip_jsonc(raw).unwrap();
        let twice = strip_jsonc(&once).unwrap();
        assert_eq!(once, twice);
        assert!(once.chars().count() <= raw.chars().count());
    }
}

#[test]
fn plain_text_is_unchanged() {
    let raw = "{ a: 1, b: [2, 3] }";
    assert_eq!(strip_jsonc(raw).unwrap(), raw);
}

#[test]
fn config_text_errors() {
    assert_eq!(config_json_text("{\"a\": \"x").unwrap_err(), "JSONC invalid");
    assert_eq!(config_json_text("{} // c").unwrap(), "{} ");
}
