use barm_worker::reply::error_reply;

#[test]
fn reply_is_a_json_object() {
    assert_eq!(
        error_reply("Model not loaded yet", "req-1"),
        r#"{"error":"Model not loaded yet","request_id":"req-1"}"#
    );
    assert_eq!(error_reply("", ""), r#"{"error":"","request_id":""}"#);
}

#[test]
fn every_kind_of_character_is_escaped() {
    assert_eq!(
        error_reply("a\"b\\c/d", "\u{8}\t\n\u{c}\r"),
        r#"{"error":"a\"b\\c/d","request_id":"\b\t\n\f\r"}"#
    );
    assert_eq!(
        error_reply("\u{0}\u{b}\u{1f}", "\u{7f}\u{e9}\u{2028}\u{1f600}"),
        "{\"error\":\"\\u0000\\u000b\\u001f\",\"request_id\":\"\u{7f}\u{e9}\u{2028}\u{1f600}\"}"
    );
}

#[test]
fn reply_reads_back() {
    let error = "quote \" backslash \\ newline \n bell \u{7} \u{1f600}";
    let id = "}\",{\u{1}";
    let value: serde_json::Value = serde_json::from_str(&error_reply(error, id)).unwrap();
    let fields = value.as_object().unwrap();
    assert_eq!(fields.len(), 2);
    assert_eq!(fields["error"].as_str(), Some(error));
    assert_eq!(fields["request_id"].as_str(), Some(id));
}

#[test]
fn different_replies_differ() {
    assert_ne!(error_reply("a", "b"), error_reply("a", "c"));
    assert_ne!(error_reply("a", "b"), error_reply("c", "b"));
    assert_ne!(
        error_reply("a\",\"request_id\":\"b", "c"),
        error_reply("a", "b\",\"request_id\":\"c")
    );
    assert_ne!(error_reply("\\n", ""), error_reply("\n", ""));
}
