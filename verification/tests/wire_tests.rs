use rust_agent::interface::{ToolParameters, ToolResult};
use rust_agent::json::JsonValue;
use rust_agent::parse::parse_json;
use rust_agent::ser::to_json_text;
use rust_agent::wire::{
    decode_request, decode_result, encode_request, encode_result, RpcError,
};

#[test]
fn request_roundtrips_exactly() {
    let args = parse_json("{\"path\":\"/tmp\",\"recursive\":true,\"n\":-2.5e1}")
        .expect("should parse");
    let p = ToolParameters { name: String::from("file_analyzer"), args };
    let wire = encode_request(&p);
    let back = decode_request(&wire).expect("should decode");
    assert_eq!(back.name, "file_analyzer");
    assert_eq!(
        to_json_text(&back.args),
        "{\"path\":\"/tmp\",\"recursive\":true,\"n\":-2.5e1}"
    );
}

#[test]
fn request_wire_form_is_the_documented_object() {
    let p = ToolParameters { name: String::from("t"), args: JsonValue::Null };
    assert_eq!(encode_request(&p), "{\"name\":\"t\",\"args\":null}");
}

#[test]
fn result_roundtrips_exactly() {
    let data = parse_json("{\"file_count\":3}").expect("should parse");
    let r = ToolResult { success: true, data, error: None };
    let wire = encode_result(&r);
    assert_eq!(wire, "{\"success\":true,\"data\":{\"file_count\":3},\"error\":null}");
    let back = decode_result(&wire).expect("should decode");
    assert!(back.success);
    assert_eq!(to_json_text(&back.data), "{\"file_count\":3}");
    assert_eq!(back.error, None);
}

#[test]
fn failed_result_roundtrips_with_error_text() {
    let r = ToolResult {
        success: false,
        data: JsonValue::Null,
        error: Some(String::from("no such directory")),
    };
    let back = decode_result(&encode_result(&r)).expect("should decode");
    assert!(!back.success);
    assert_eq!(back.error.as_deref(), Some("no such directory"));
}

#[test]
fn decode_request_rejects_bad_payloads() {
    assert!(matches!(decode_request("not json"), Err(RpcError::Decode(_))));
    assert!(matches!(decode_request("{\"args\":{}}"), Err(RpcError::Decode(_))));
    assert!(matches!(
        decode_request("{\"name\":7,\"args\":{}}"),
        Err(RpcError::Decode(_))
    ));
    assert!(matches!(decode_request("{\"name\":\"t\"}"), Err(RpcError::Decode(_))));
}

#[test]
fn decode_result_rejects_bad_payloads() {
    assert!(matches!(decode_result("[]"), Err(RpcError::Decode(_))));
    assert!(matches!(
        decode_result("{\"success\":1,\"data\":null}"),
        Err(RpcError::Decode(_))
    ));
    assert!(matches!(
        decode_result("{\"success\":true}"),
        Err(RpcError::Decode(_))
    ));
    assert!(matches!(
        decode_result("{\"success\":true,\"data\":null,\"error\":7}"),
        Err(RpcError::Decode(_))
    ));
}

#[test]
fn missing_error_member_reads_as_none() {
    let back = decode_result("{\"success\":true,\"data\":1}").expect("should decode");
    assert!(back.success);
    assert_eq!(back.error, None);
}
