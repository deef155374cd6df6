use ovax::request::{decode_utf16le, parse_json_files, parse_request, JsonValue};

fn s(t: &str) -> JsonValue {
    JsonValue::Str(t.to_string())
}

fn obj(entries: Vec<(&str, JsonValue)>) -> JsonValue {
    JsonValue::Object(entries.into_iter().map(|(k, v)| (k.to_string(), v)).collect())
}

const MSG: &str = "Expected 'files' to be an array of strings";

#[test]
fn files_array_yields_its_strings() {
    let doc = obj(vec![(
        "files",
        JsonValue::Array(vec![s("a.mp4"), JsonValue::Number, s("b.mp4"), JsonValue::Null]),
    )]);
    assert_eq!(parse_json_files(&doc), Ok(vec!["a.mp4".to_string(), "b.mp4".to_string()]));
}

#[test]
fn empty_files_array_is_accepted() {
    let doc = obj(vec![("other", JsonValue::Bool(true)), ("files", JsonValue::Array(vec![]))]);
    assert_eq!(parse_json_files(&doc), Ok(vec![]));
}

#[test]
fn missing_or_wrong_files_member_is_an_error() {
    assert_eq!(parse_json_files(&obj(vec![])), Err(MSG.to_string()));
    assert_eq!(parse_json_files(&obj(vec![("files", s("a.mp4"))])), Err(MSG.to_string()));
    assert_eq!(parse_json_files(&JsonValue::Array(vec![s("a.mp4")])), Err(MSG.to_string()));
    assert_eq!(parse_json_files(&JsonValue::Null), Err(MSG.to_string()));
}

fn utf16le(text: &str) -> Vec<u8> {
    text.encode_utf16().flat_map(|u| u.to_le_bytes()).collect()
}

#[test]
fn decodes_utf16le_text() {
    let bytes = utf16le("{\"files\":[\"C:\\\\v\\\\é.mp4\"]}");
    let (text, had_errors) = decode_utf16le(&bytes);
    assert_eq!(text, "{\"files\":[\"C:\\\\v\\\\é.mp4\"]}");
    assert!(!had_errors);
}

#[test]
fn decoding_drops_bom_and_flags_malformed_input() {
    let mut bytes = vec![0xFF, 0xFE];
    bytes.extend(utf16le("ok"));
    assert_eq!(decode_utf16le(&bytes), ("ok".to_string(), false));
    let (text, had_errors) = decode_utf16le(&[0x41, 0x00, 0x42]);
    assert!(had_errors);
    assert!(text.starts_with('A'));
}

#[test]
fn request_text_yields_file_list() {
    assert_eq!(
        parse_request("{\"files\": [\"a.mp4\", 3, \"b.mp4\"], \"x\": null}"),
        Ok(vec!["a.mp4".to_string(), "b.mp4".to_string()])
    );
    assert_eq!(parse_request("{\"files\": []}"), Ok(vec![]));
}

#[test]
fn request_text_errors() {
    assert_eq!(parse_request("{\"files\": \"a.mp4\"}"), Err(MSG.to_string()));
    assert_eq!(parse_request("[1, 2]"), Err(MSG.to_string()));
    assert_eq!(parse_request("{}"), Err(MSG.to_string()));
    let err = parse_request("{\"files\": [").unwrap_err();
    let expected = serde_json::from_str::<serde_json::Value>("{\"files\": [").unwrap_err();
    assert_eq!(err, format!("Failed to parse JSON: {}", expected));
    assert!(parse_request("").unwrap_err().starts_with("Failed to parse JSON: "));
}
