use m87::execjson::{exec_result_json_string, exec_result_line, parse_exec_config, parse_exec_result};

#[test]
fn test_exec_request_deserialization() {
    let json = r#"{"command":"ls -la","tty":true}"#;
    let req = parse_exec_config(json).unwrap();
    assert_eq!(req.command, "ls -la");
    assert!(req.tty);
}

#[test]
fn test_exec_request_tty_default_false() {
    let json = r#"{"command":"echo hello"}"#;
    let req = parse_exec_config(json).unwrap();
    assert_eq!(req.command, "echo hello");
    assert!(!req.tty);
}

#[test]
fn test_exec_request_with_rows_cols() {
    let json = r#"{"command":"htop","tty":true,"rows":50,"cols":120}"#;
    let req = parse_exec_config(json).unwrap();
    assert_eq!(req.rows, Some(50));
    assert_eq!(req.cols, Some(120));
}

#[test]
fn test_exec_request_rows_cols_default_none() {
    let json = r#"{"command":"echo hello"}"#;
    let req = parse_exec_config(json).unwrap();
    assert_eq!(req.rows, None);
    assert_eq!(req.cols, None);
}

#[test]
fn test_exec_request_invalid_json() {
    let json = r#"{"invalid": true}"#;
    let result = parse_exec_config(json);
    assert!(result.is_none());
}

#[test]
fn test_exec_result_serialization() {
    let json = exec_result_json_string(0);
    assert_eq!(json, r#"{"exit_code":0}"#);

    let json = exec_result_json_string(-1);
    assert_eq!(json, r#"{"exit_code":-1}"#);
}

#[test]
fn test_exec_result_serialization_various_codes() {
    for code in [0, 1, 127, 255, -1, -15] {
        let json = exec_result_json_string(code);
        assert!(json.contains(&format!("\"exit_code\":{}", code)));
    }
}

#[test]
fn test_exec_request_whitespace_and_escapes() {
    let json = " { \"command\" : \"say \\\"hi\\\"\\n\" , \"tty\" : false } ";
    let req = parse_exec_config(json).unwrap();
    assert_eq!(req.command, "say \"hi\"\n");
    assert!(!req.tty);
}

#[test]
fn test_exec_request_unicode_escape() {
    let json = r#"{"command":"echo \u00e9\ud83d\ude00"}"#;
    let req = parse_exec_config(json).unwrap();
    assert_eq!(req.command, "echo \u{e9}\u{1F600}");
}

#[test]
fn test_exec_request_null_rows() {
    let json = r#"{"command":"x","rows":null,"cols":7}"#;
    let req = parse_exec_config(json).unwrap();
    assert_eq!(req.rows, None);
    assert_eq!(req.cols, Some(7));
}

#[test]
fn test_exec_request_rejects_oversize_config() {
    // a config over 8 KiB is rejected before parsing
    let mut json = String::from(r#"{"command":""#);
    json.push_str(&"a".repeat(9000));
    json.push_str("\"}");
    assert!(parse_exec_config(&json).is_none());
}

#[test]
fn test_exec_request_rejects_bad_number() {
    assert!(parse_exec_config(r#"{"command":"x","rows":70000}"#).is_none());
    assert!(parse_exec_config(r#"{"command":"x","rows":-1}"#).is_none());
    assert!(parse_exec_config(r#"{"command":"x","rows":007}"#).is_none());
}

#[test]
fn test_exec_request_rejects_duplicate_field() {
    assert!(parse_exec_config(r#"{"command":"a","command":"b"}"#).is_none());
}

#[test]
fn test_exec_result_line_for_exit_seven() {
    // the one line a piped exec session emits for `exit 7`
    let line = exec_result_line(7);
    assert_eq!(line.as_slice(), b"{\"exit_code\":7}\n");
}

#[test]
fn test_parse_exec_result_round_trip() {
    assert_eq!(parse_exec_result(r#"{"exit_code":7}"#), Some(7));
    assert_eq!(parse_exec_result(r#"{"exit_code":-15}"#), Some(-15));
    assert_eq!(parse_exec_result(&exec_result_json_string(42)), Some(42));
    assert_eq!(parse_exec_result("plain output"), None);
    assert_eq!(parse_exec_result(r#"{"other":1}"#), None);
    assert_eq!(parse_exec_result(r#"{"exit_code":99999999999}"#), None);
}

#[test]
fn test_exec_request_skips_unknown_members() {
    // unknown members are ignored, whatever their values hold
    let json = r#"{"command":"ls","extra":[1,{"a":2.5e3},null,"s\n"],"more":-0.5}"#;
    let req = parse_exec_config(json).unwrap();
    assert_eq!(req.command, "ls");
    assert!(!req.tty);
    // but a config without a command stays rejected
    assert!(parse_exec_config(r#"{"extra":{"deep":{"deeper":true}}}"#).is_none());
    // and malformed unknown values reject the object
    assert!(parse_exec_config(r#"{"command":"ls","bad":01}"#).is_none());
    assert!(parse_exec_config(r#"{"command":"ls","bad":[1,]}"#).is_none());
}

#[test]
fn test_exec_request_nesting_cap() {
    // container nesting past the parser's limit is rejected
    let mut json = String::from(r#"{"command":"x","deep":"#);
    json.push_str(&"[".repeat(200));
    json.push('1');
    json.push_str(&"]".repeat(200));
    json.push('}');
    assert!(parse_exec_config(&json).is_none());
    let mut ok = String::from(r#"{"command":"x","deep":"#);
    ok.push_str(&"[".repeat(100));
    ok.push('1');
    ok.push_str(&"]".repeat(100));
    ok.push('}');
    assert!(parse_exec_config(&ok).is_some());
}
