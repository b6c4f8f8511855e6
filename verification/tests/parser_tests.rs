use rust_agent::interface::ToolResult;
use rust_agent::json::JsonValue;
use rust_agent::parse::parse_json;
use rust_agent::parser::{format_tool_result, parse_tool_calls, parse_tool_content};
use rust_agent::ser::to_json_text;

#[test]
fn finds_every_block_in_order() {
    let text = "intro\n```tool\n{\"name\":\"alpha\",\"args\":{\"k\":1}}\n```\nmiddle\n```tool\n{\"name\":\"beta\"}\n```\nend";
    let calls = parse_tool_calls(text);
    assert_eq!(calls.len(), 2);
    assert_eq!(calls[0].name, "alpha");
    assert_eq!(to_json_text(&calls[0].args), "{\"k\":1}");
    assert_eq!(calls[1].name, "beta");
    // args defaults to an empty mapping when omitted
    assert_eq!(to_json_text(&calls[1].args), "{}");
}

#[test]
fn no_blocks_no_calls() {
    assert_eq!(parse_tool_calls("plain text with no fences").len(), 0);
    assert_eq!(parse_tool_calls("").len(), 0);
}

#[test]
fn malformed_blocks_are_skipped() {
    let text = "```tool\nnot json and no colon here...\n```\n```tool\n{\"name\":\"good\",\"args\":{}}\n```";
    let calls = parse_tool_calls(text);
    assert_eq!(calls.len(), 1);
    assert_eq!(calls[0].name, "good");
}

#[test]
fn block_without_closing_fence_is_ignored() {
    let text = "```tool\n{\"name\":\"lost\"}";
    assert_eq!(parse_tool_calls(text).len(), 0);
}

#[test]
fn shorthand_with_json_args() {
    let p = parse_tool_content("alpha: {\"x\": true}").expect("should parse");
    assert_eq!(p.name, "alpha");
    assert_eq!(to_json_text(&p.args), "{\"x\":true}");
}

#[test]
fn shorthand_with_raw_string_args() {
    let p = parse_tool_content("alpha: not json at all").expect("should parse");
    assert_eq!(p.name, "alpha");
    assert_eq!(to_json_text(&p.args), "\"not json at all\"");
}

#[test]
fn content_without_name_or_colon_is_dropped() {
    assert!(parse_tool_content("no separator here").is_none());
    assert!(parse_tool_content("{\"weird\"}").is_none());
}

#[test]
fn json_object_without_name_splits_at_its_first_colon() {
    // the payload parses as JSON but has no name member, so the shorthand
    // split applies to the raw text
    let p = parse_tool_content("{\"args\":{}}").expect("shorthand applies");
    assert_eq!(p.name, "{\"args\"");
}

#[test]
fn json_object_without_text_name_falls_back_to_shorthand() {
    // the payload parses as JSON but carries no text name; the first colon
    // then splits it as shorthand
    let p = parse_tool_content("{\"name\": 3}").expect("should parse");
    assert_eq!(p.name, "{\"name\"");
    assert_eq!(to_json_text(&p.args), "\"3}\"");
}

#[test]
fn formats_string_data_directly() {
    let res = ToolResult {
        success: true,
        data: JsonValue::Text(String::from("already text")),
        error: None,
    };
    assert_eq!(
        format_tool_result("t", &res),
        "Tool `t` succeeded:\n\nalready text"
    );
}

#[test]
fn formats_structured_data_pretty() {
    let data = parse_json("{\"file_count\":3}").expect("should parse");
    let res = ToolResult { success: true, data, error: None };
    assert_eq!(
        format_tool_result("t", &res),
        "Tool `t` succeeded:\n\n{\n  \"file_count\": 3\n}"
    );
}

#[test]
fn formats_failure_with_error() {
    let res = ToolResult {
        success: false,
        data: JsonValue::Null,
        error: Some(String::from("boom")),
    };
    assert_eq!(format_tool_result("t", &res), "Tool `t` failed:\n\nboom");
}

#[test]
fn formats_failure_without_error_with_placeholder() {
    let res = ToolResult { success: false, data: JsonValue::Null, error: None };
    assert_eq!(
        format_tool_result("t", &res),
        "Tool `t` failed:\n\nunknown error"
    );
}

#[test]
fn formatting_is_referentially_transparent() {
    let make = || ToolResult {
        success: true,
        data: parse_json("{\"a\":[1,2]}").expect("should parse"),
        error: None,
    };
    let first = format_tool_result("same", &make());
    let second = format_tool_result("same", &make());
    assert_eq!(first, second);
}
