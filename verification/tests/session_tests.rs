use rust_agent::client::{build_execute_action, decode_execute_reply};
use rust_agent::interface::ToolResult;
use rust_agent::parse::parse_json;
use rust_agent::server::{ToolDescriptor, ToolsFlightService};
use rust_agent::session::{ChatSession, TurnRunner};
use rust_agent::wire::{encode_result, text_to_bytes, RpcError};

#[test]
fn history_is_append_only_with_one_rollback() {
    let mut s = ChatSession::new(String::from("key"), false);
    assert_eq!(s.message_count(), 0);
    s.add_system_message(String::from("be helpful"));
    s.add_user_message(String::from("hello"));
    s.add_assistant_message(String::from("hi"));
    assert_eq!(s.message_count(), 3);
    assert_eq!(s.messages[0].role, "system");
    assert_eq!(s.messages[1].role, "user");
    assert_eq!(s.messages[2].role, "assistant");
    s.remove_last_message();
    assert_eq!(s.message_count(), 2);
    assert_eq!(s.messages[1].content, "hello");
}

#[test]
fn rollback_on_empty_history_is_a_no_op() {
    let mut s = ChatSession::new(String::from("key"), true);
    s.remove_last_message();
    assert_eq!(s.message_count(), 0);
    assert!(s.is_verbose());
}

#[test]
fn tools_client_attachment_is_remembered() {
    let mut s = ChatSession::new(String::from("key"), false);
    assert!(!s.has_tools());
    s.set_tools_client();
    assert!(s.has_tools());
}

const ASSISTANT_TEXT: &str =
    "Use ```tool\n{\"name\":\"file_analyzer\",\"args\":{\"path\":\"/tmp\",\"recursive\":true}}\n```";

#[test]
fn end_to_end_turn_with_a_stub_tool() {
    // the registry knows the tool; the turn carries one request
    let mut svc = ToolsFlightService::new();
    svc.register_tool(ToolDescriptor {
        name: String::from("file_analyzer"),
        description: String::from("dir stats"),
    });

    let mut turn = TurnRunner::start(String::from(ASSISTANT_TEXT), true);
    let mut sink: Vec<String> = Vec::new();
    while let Some(req) = turn.pending() {
        sink.push(turn.progress_fragment());
        // the request crosses the wire to the dispatch service
        let (tag, body) = build_execute_action(req);
        let (_idx, params) = svc
            .do_action_decide(&tag, &body)
            .expect("dispatch should reach the stub");
        assert_eq!(params.name, "file_analyzer");
        // the stub tool answers; its result crosses back as one record
        let stub_result = ToolResult {
            success: true,
            data: parse_json("{\"file_count\":3}").expect("should parse"),
            error: None,
        };
        let reply_bytes = text_to_bytes(&encode_result(&stub_result));
        let outcome = decode_execute_reply(Some(&reply_bytes));
        for frag in turn.record_outcome(&outcome) {
            sink.push(frag);
        }
    }
    let final_text = turn.finish();
    assert!(final_text.starts_with(ASSISTANT_TEXT));
    assert!(final_text.contains("file_count"));
    assert!(final_text.contains('3'));
    // the sink saw the progress note and the same rendered text
    assert_eq!(sink.len(), 3);
    assert!(sink[0].contains("file_analyzer"));
    assert_eq!(sink[1], "\n\n");
    assert!(final_text.ends_with(&sink[2]));
}

#[test]
fn without_a_client_the_text_is_returned_unchanged() {
    let turn = TurnRunner::start(String::from(ASSISTANT_TEXT), false);
    assert!(turn.pending().is_none());
    assert_eq!(turn.finish(), ASSISTANT_TEXT);
}

#[test]
fn a_failed_call_is_rendered_inline_and_does_not_abort_the_turn() {
    let text = "a\n```tool\n{\"name\":\"x\"}\n```\nb\n```tool\n{\"name\":\"y\"}\n```";
    let mut turn = TurnRunner::start(String::from(text), true);

    let first = turn.pending().expect("two requests planned");
    assert_eq!(first.name, "x");
    turn.record_outcome(&Err(RpcError::NoResult));

    let second = turn.pending().expect("the second request still runs");
    assert_eq!(second.name, "y");
    let ok = ToolResult {
        success: true,
        data: rust_agent::json::JsonValue::Text(String::from("fine")),
        error: None,
    };
    turn.record_outcome(&Ok(ok));

    let out = turn.finish();
    assert!(out.contains("Tool `x` failed to execute: no result received from tool execution"));
    assert!(out.contains("Tool `y` succeeded:\n\nfine"));
}
