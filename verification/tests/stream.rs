use agy_gyro::json::{parse, parse_as_written, Json};
use agy_gyro::stream::{
    empty_candidates_in_json, empty_in_opening, error_in_json, error_in_opening,
    is_empty_candidate_response, is_opening_empty, may_report_error, parse_in_stream_error,
    parse_opening_error,
};

fn error_of(text: &str) -> Option<(u16, String)> {
    parse_in_stream_error(text.as_bytes())
}

fn some(status: u16, message: &str) -> Option<(u16, String)> {
    Some((status, message.to_string()))
}

#[test]
fn status_names() {
    for (name, status) in [
        ("UNAVAILABLE", 503),
        ("RESOURCE_EXHAUSTED", 429),
        ("INTERNAL", 500),
        ("DEADLINE_EXCEEDED", 504),
        ("BAD_GATEWAY", 502),
        ("INVALID_ARGUMENT", 400),
        ("PERMISSION_DENIED", 403),
        ("NOT_FOUND", 404),
        ("FAILED_PRECONDITION", 400),
        ("UNAUTHENTICATED", 401),
        ("SOMETHING_ELSE", 500),
    ] {
        let text = format!("{{\"error\": {{\"status\": \"{}\", \"message\": \"m\"}}}}", name);
        assert_eq!(error_of(&text), some(status, "m"), "{}", name);
    }
}

#[test]
fn code_comes_before_the_name_of_the_status() {
    let text = r#"{"error": {"code": 404, "status": "UNAVAILABLE"}}"#;
    assert_eq!(error_of(text), some(404, "Unknown in-stream error"));
    assert_eq!(error_of(r#"{"error": {}}"#), some(500, "Unknown in-stream error"));
    assert_eq!(error_of(r#"{"error": {"code": null, "message": null}}"#),
        some(500, "Unknown in-stream error"));
    // Sixteen bits of the code are kept, and must be a code of three digits.
    assert_eq!(error_of(r#"{"error": {"code": 66036}}"#), some(500, "Unknown in-stream error"));
    assert_eq!(error_of(r#"{"error": {"code": 99}}"#), None);
    assert_eq!(error_of(r#"{"error": {"code": 1000}}"#), None);
    assert_eq!(error_of(r#"{"error": {"code": 65536}}"#), None);
}

#[test]
fn malformed_errors_are_none() {
    for text in [
        r#"{"error": {"code": "503"}}"#,
        r#"{"error": {"code": 503.5}}"#,
        r#"{"error": {"code": -1}}"#,
        r#"{"error": {"message": 5}}"#,
        r#"{"error": {"status": []}}"#,
        r#"{"error": "text"}"#,
        r#"{"error": null}"#,
        r#"{"other": 1}"#,
        r#"{"error": {"code": 503}"#,
        "[]",
        "503",
        "",
    ] {
        assert_eq!(error_of(text), None, "{}", text);
    }
    assert_eq!(parse_in_stream_error(&[0xff, 0x7b]), None);
}

#[test]
fn errors_in_rows() {
    assert_eq!(error_of(r#"[{"error": {"code": 503, "message": "x"}}]"#), some(503, "x"));
    // A row of one may also be the error by itself.
    assert_eq!(error_of(r#"[{"code": 503, "message": "x"}]"#), some(503, "x"));
    assert_eq!(error_of(r#"[[503, "m", "UNAVAILABLE"]]"#), some(503, "m"));
    assert_eq!(error_of(r#"[[[503, "m", "UNAVAILABLE"]]]"#), some(503, "m"));
    assert_eq!(error_of(r#"[[{"code": 429}], {"error": {"code": 503}}]"#),
        some(429, "Unknown in-stream error"));
    assert_eq!(error_of(r#"[{"code": 503}, {"code": 429}]"#), None);
    assert_eq!(error_of(r#"{"error": [null, "m", "NOT_FOUND"]}"#), some(404, "m"));
    assert_eq!(error_of(r#"{"error": [503, "m"]}"#), None);
    let two = r#"[{"error": {"code": 429, "message": "first"}}, {"error": {"code": 503}}]"#;
    assert_eq!(error_of(two), some(429, "first"));
    assert_eq!(error_of(r#"[{"error": {"code": 429}}, {"candidates": []}]"#), None);
    assert_eq!(error_of(r#"[{"error": {"code": 429}}]"#), some(429, "Unknown in-stream error"));
    assert_eq!(error_of(r#"[{"other": 1}]"#), some(500, "Unknown in-stream error"));
    assert_eq!(error_of(r#"[{"other": 1}, {"other": 1}]"#), None);
}

#[test]
fn repeated_fields_are_malformed() {
    for text in [
        r#"{"error": {"code": 503}, "error": {"code": 503}}"#,
        r#"{"error": 1, "x": {}, "err\u006fr": {"code": 503}}"#,
        r#"{"error": {"code": 503, "code": 503}}"#,
        r#"{"error": {"message": "a", "code": 503, "message": "b"}}"#,
        r#"{"error": {"status": null, "status": "INTERNAL"}}"#,
        r#"[{"error": {"code": 503}}, {"error": {"code": 503}, "error": {}}]"#,
        r#"[{"code": 503, "code": 503}]"#,
    ] {
        assert!(parse(text).is_some(), "{}", text);
        assert_eq!(error_of(text), None, "{}", text);
    }
    // Other fields may come again.
    let text = r#" { "x" : [1, {"error": 2}, "}"] ,"error" :{"code":503, "y": 1,"y": "\"," },
        "x": {} , "x": [ ] } "#;
    assert_eq!(error_of(text), some(503, "Unknown in-stream error"));
    // In a row of one such a response is an error that tells nothing.
    let text = r#"[{"error": {"code": 429, "code": 429}}]"#;
    assert_eq!(error_of(text), some(500, "Unknown in-stream error"));
}

#[test]
fn documents_are_read_as_written() {
    let text = "\n{ \"a\" : [ ] , \"b\":{ },\"a\":[ 1 , \"x\" ,null,{\"k\":true} ]\t}";
    match parse_as_written(text.as_bytes()).unwrap() {
        Json::Object(fields) => {
            let names: Vec<&str> = fields.iter().map(|f| f.0.as_str()).collect();
            assert_eq!(names, vec!["a", "b", "a"]);
            assert!(matches!(&fields[0].1, Json::Array(items) if items.is_empty()));
            assert!(matches!(&fields[1].1, Json::Object(inner) if inner.is_empty()));
            match &fields[2].1 {
                Json::Array(items) => {
                    assert_eq!(items.len(), 4);
                    assert!(matches!(items[0], Json::Number(Some(1))));
                    assert!(matches!(&items[1], Json::Text(t) if t == "x"));
                    assert!(matches!(items[2], Json::Null));
                    assert!(matches!(items[3].get("k"), Some(Json::Bool(true))));
                }
                _ => panic!("not an array"),
            }
        }
        _ => panic!("not an object"),
    }
    let twice = parse_as_written(br#"{"a": 1, "b": 2, "a": 3}"#).unwrap();
    assert!(twice.has_repeated("a"));
    assert!(!twice.has_repeated("b"));
    assert!(!twice.has_repeated("c"));
    assert!(!parse(r#"{"a": 1, "a": 3}"#).unwrap().has_repeated("a"));
    assert!(matches!(parse_as_written(b" 7 "), Some(Json::Number(Some(7)))));
    for text in ["{", "{\"a\"}", "{\"a\": 1", "{1: 2}", "[1", "[1 2]", ""] {
        assert!(parse_as_written(text.as_bytes()).is_none(), "{}", text);
    }
}

#[test]
fn openings_as_text() {
    let error = "data: {\"error\": {\"code\": 503, \"message\": \"忙\"}}\n";
    assert_eq!(error_in_opening(error), some(503, "忙"));
    assert_eq!(error_in_opening("\u{fffd}"), None);
    assert_eq!(empty_in_opening("data: {\"candidates\": []}"), Some(true));
    assert_eq!(empty_in_opening(error), Some(false));
    assert_eq!(empty_in_opening("no data"), None);
}

#[test]
fn an_error_in_any_event_is_found() {
    let text = "data: {\"candidates\": []}\n\ndata: nothing\r\n: comment\n\
                data:{\"error\": {\"code\": 503, \"message\": \"late\"}}\r\n\n";
    assert_eq!(error_of(text), some(503, "late"));
    let spread = "{\n \"error\": {\n  \"code\": 429,\n  \"message\": \"m\"\n }\n}\n";
    assert_eq!(error_of(spread), some(429, "m"));
    let tagged = "data: {\"error\":\n {\"code\": 429, \"message\": \"m\"}}";
    assert_eq!(error_of(tagged), some(429, "m"));
}

#[test]
fn only_the_first_event_of_an_opening_counts() {
    let late = "data: {\"candidates\": [{\"content\": 1}]}\n\ndata: {\"error\": {\"code\": 503}}\n";
    assert_eq!(parse_opening_error(late.as_bytes()), None);
    assert!(error_of(late).is_some());
    let early = "event: x\ndata: {\"error\": {\"code\": 503, \"message\": \"m\"}}\n";
    assert_eq!(parse_opening_error(early.as_bytes()), some(503, "m"));
    // Without the tag of an event there is none.
    assert_eq!(parse_opening_error(b"{\"error\": {\"code\": 503}}"), None);
    // What is no UTF-8 is replaced, not refused.
    let mut bytes = b"\xff\n".to_vec();
    bytes.extend_from_slice(early.as_bytes());
    assert_eq!(parse_opening_error(&bytes), some(503, "m"));
    assert_eq!(parse_in_stream_error(&bytes), None);
}

#[test]
fn openings_without_content() {
    assert!(is_opening_empty(b""));
    assert!(is_opening_empty(b"data: {\"candidates\": []}\n\ndata: {\"x\": 1}\n"));
    assert!(is_opening_empty(b": comment\n{\"candidates\": [{}]}\n"));
    assert!(!is_opening_empty(b"data: {\"x\": 1}\n\ndata: {\"candidates\": []}\n"));
    assert!(!is_opening_empty(b"data: {\"error\": {}}\n"));
    assert!(!is_opening_empty(b"not json"));
}

#[test]
fn missing_content_is_empty_but_for_marked_candidates() {
    for text in [
        r#"{"candidates": [{"finishReason": "STOP"}]}"#,
        r#"{"candidates": [{"content": null, "finishReason": "STOP"}]}"#,
        r#"{"candidates": [null]}"#,
        r#"{"candidates": [{"content": {"parts": "x"}}]}"#,
        r#"[{"other": 1}, {"candidates": []}]"#,
        r#"{"candidates": [{"content": {"parts": [{"text": null}, {"text": " "}]}}]}"#,
    ] {
        assert!(is_empty_candidate_response(text.as_bytes()), "{}", text);
    }
    for text in [
        r#"{"candidates": [{"clean": true}]}"#,
        r#"{"candidates": [{"partial": true}]}"#,
        r#"{"candidates": {}}"#,
        r#"{"candidates": [{"content": {"parts": [{}, {"text": "x"}]}}]}"#,
        r#"[{"error": 1}, {"candidates": []}]"#,
        r#"{"candidates": [], "error": {}}"#,
    ] {
        assert!(!is_empty_candidate_response(text.as_bytes()), "{}", text);
    }
    assert!(!is_empty_candidate_response(&[0xff]));
}

#[test]
fn documents_are_read_whole() {
    let text = r#"{"b": [1, -2, 3.5, "x", null, true], "a": {"k": "v"}}"#;
    let json = parse(text).unwrap();
    match &json {
        Json::Object(fields) => {
            assert_eq!(fields.len(), 2);
            assert_eq!(fields[0].0, "a");
            assert_eq!(fields[1].0, "b");
        }
        _ => panic!("not an object"),
    }
    match json.get("b") {
        Some(Json::Array(items)) => {
            assert_eq!(items.len(), 6);
            assert!(matches!(items[0], Json::Number(Some(1))));
            assert!(matches!(items[1], Json::Number(None)));
            assert!(matches!(items[2], Json::Number(None)));
            assert!(matches!(&items[3], Json::Text(t) if t == "x"));
            assert!(matches!(items[4], Json::Null));
            assert!(matches!(items[5], Json::Bool(true)));
        }
        _ => panic!("not an array"),
    }
    assert_eq!(json.get("a").unwrap().get_text("k").unwrap(), "v");
    assert!(json.get("c").is_none());
    assert!(parse("{").is_none());
    assert!(parse("").is_none());
}

#[test]
fn documents_that_were_read_are_judged() {
    let fields = vec![("error".to_string(), Json::Object(vec![
        ("code".to_string(), Json::Number(Some(503))),
        ("message".to_string(), Json::Text("m".to_string())),
    ]))];
    let json = Json::Object(fields);
    assert_eq!(error_in_json(&json), some(503, "m"));
    let twice = Json::Object(vec![
        ("error".to_string(), Json::Object(Vec::new())),
        ("error".to_string(), Json::Object(Vec::new())),
    ]);
    assert_eq!(error_in_json(&twice), None);
    assert!(!may_report_error(&twice));
    assert!(may_report_error(&json));
    assert_eq!(empty_candidates_in_json(&json), Some(false));
    let none = Json::Object(vec![("candidates".to_string(), Json::Array(Vec::new()))]);
    assert_eq!(error_in_json(&none), None);
    assert_eq!(empty_candidates_in_json(&none), Some(true));
    assert_eq!(empty_candidates_in_json(&Json::Null), None);
}
