use libintent::infras::fs::list::list::{sort_names, List};
use libintent::json::{to_json_text, JsonValue};
use libintent::text::{trim_str, is_whitespace};
use libintent::types::{ExecutionStatus, IntentInput, IntentResult};

#[test]
fn to_json_envelope_orders_fields_and_omits_absent_ones() {
    let ok = IntentResult::success(JsonValue::Str("done".to_string()));
    assert_eq!(ok.to_json(), r#"{"status":"Ok","result":"done"}"#);
    let err = IntentResult::failure("bad \"input\"\n".to_string());
    assert_eq!(err.to_json(), r#"{"status":"Error","error":"bad \"input\"\n"}"#);
    let bare = IntentResult { status: ExecutionStatus::Success, result: None, error: None };
    assert_eq!(bare.to_json(), r#"{"status":"Ok"}"#);
}

#[test]
fn json_text_matches_serde_json() {
    let v = JsonValue::Object(vec![
        ("a".to_string(), JsonValue::Array(vec![JsonValue::Null, JsonValue::Bool(true), JsonValue::Bool(false)])),
        ("b\u{7}".to_string(), JsonValue::Str("é \u{1f} / \\".to_string())),
        ("c".to_string(), JsonValue::Object(vec![])),
        ("d".to_string(), JsonValue::Array(vec![])),
    ]);
    let text = to_json_text(&v);
    assert_eq!(text, "{\"a\":[null,true,false],\"b\\u0007\":\"é \\u001f / \\\\\",\"c\":{},\"d\":[]}");
    let parsed: serde_json::Value = serde_json::from_str(&text).unwrap();
    assert_eq!(parsed["b\u{7}"], "é \u{1f} / \\");
    assert_eq!(v.clone(), v);
}

#[test]
fn json_integers_are_written_in_decimal() {
    let v = JsonValue::Array(vec![
        JsonValue::Int(0),
        JsonValue::Int(7),
        JsonValue::Int(-42),
        JsonValue::Int(1234567890),
        JsonValue::Int(i64::MAX),
        JsonValue::Int(i64::MIN),
    ]);
    let text = to_json_text(&v);
    assert_eq!(text, "[0,7,-42,1234567890,9223372036854775807,-9223372036854775808]");
    let expected = serde_json::to_string(&vec![0i64, 7, -42, 1234567890, i64::MAX, i64::MIN]).unwrap();
    assert_eq!(text, expected);
    let result = IntentResult::success(JsonValue::Int(-3));
    assert_eq!(result.to_json(), r#"{"status":"Ok","result":-3}"#);
}

#[test]
fn list_listing_sorts_files_and_dirs() {
    let entries = vec![
        ("b.txt".to_string(), false),
        ("src".to_string(), true),
        ("a.txt".to_string(), false),
        ("Z".to_string(), false),
        ("docs".to_string(), true),
    ];
    let result = List::listing(entries);
    assert_eq!(result.status, ExecutionStatus::Success);
    assert_eq!(
        result.to_json(),
        r#"{"status":"Ok","result":{"data":{"files":["Z","a.txt","b.txt"],"dirs":["docs","src"]}}}"#
    );
    let empty = List::listing(vec![]);
    assert_eq!(empty.to_json(), r#"{"status":"Ok","result":{"data":{"files":[],"dirs":[]}}}"#);
}

#[test]
fn list_read_failure_and_directory_choice() {
    let failed = List::read_failure("No such file or directory (os error 2)");
    assert_eq!(failed.status, ExecutionStatus::Error);
    assert_eq!(failed.result, None);
    let parsed: serde_json::Value = serde_json::from_str(&failed.to_json()).unwrap();
    assert!(parsed["error"].as_str().unwrap().contains("No such file or directory"));
    assert_eq!(
        List::directory(&IntentInput { data: None, args: vec![] }),
        "."
    );
    assert_eq!(
        List::directory(&IntentInput { data: Some("/tmp".to_string()), args: vec![] }),
        "/tmp"
    );
    assert_eq!(List.path(), "fs.list");
}

#[test]
fn sort_names_orders_by_bytes() {
    let sorted = sort_names(vec!["é".to_string(), "z".to_string(), "a".to_string(), "A".to_string(), "a".to_string()]);
    assert_eq!(sorted, vec!["A", "a", "a", "z", "é"]);
}

#[test]
fn trim_follows_unicode_whitespace() {
    assert_eq!(trim_str("\u{3000}\t hello world \u{85}\n"), "hello world");
    assert_eq!(trim_str("   "), "");
    assert!(is_whitespace('\u{2029}'));
    assert!(!is_whitespace('\u{200B}'));
    assert_eq!(trim_str(" a b "), " a b ".trim());
}

#[test]
fn list_directory_depends_on_data_alone() {
    let without = IntentInput { data: None, args: vec!["--all".to_string()] };
    let dot = IntentInput { data: Some(".".to_string()), args: vec![] };
    assert_eq!(List::directory(&without), List::directory(&dot));
    let a = IntentInput { data: Some("/tmp".to_string()), args: vec!["x".to_string()] };
    let b = IntentInput { data: Some("/tmp".to_string()), args: vec![] };
    assert_eq!(List::directory(&a), "/tmp");
    assert_eq!(List::directory(&a), List::directory(&b));
}

#[test]
fn to_json_parses_as_an_object_with_the_present_members() {
    let ok = IntentResult::success(JsonValue::Object(vec![("data".to_string(), JsonValue::Str("x".to_string()))]));
    let parsed: serde_json::Value = serde_json::from_str(&ok.to_json()).unwrap();
    let object = parsed.as_object().unwrap();
    assert_eq!(object.len(), 2);
    assert_eq!(object["status"], "Ok");
    assert_eq!(object["result"]["data"], "x");
    assert!(object.get("error").is_none());

    let err = IntentResult::failure("no \"luck\"".to_string());
    let parsed: serde_json::Value = serde_json::from_str(&err.to_json()).unwrap();
    let object = parsed.as_object().unwrap();
    assert_eq!(object.len(), 2);
    assert_eq!(object["status"], "Error");
    assert_eq!(object["error"].as_str(), Some("no \"luck\""));
    assert!(object.get("result").is_none());
}
