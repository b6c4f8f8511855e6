use rust_agent::server::{ToolDescriptor, ToolsFlightService};
use rust_agent::wire::RpcError;

fn two_tool_service() -> ToolsFlightService {
    let mut svc = ToolsFlightService::new();
    svc.register_tool(ToolDescriptor {
        name: String::from("file_analyzer"),
        description: String::from("dir stats"),
    });
    svc.register_tool(ToolDescriptor {
        name: String::from("web_search"),
        description: String::from("search"),
    });
    svc
}

#[test]
fn discovery_lists_names_in_registration_order() {
    let svc = two_tool_service();
    let names = svc.tool_names();
    assert_eq!(names, vec![String::from("file_analyzer"), String::from("web_search")]);
}

#[test]
fn dispatch_known_tool_succeeds() {
    let svc = two_tool_service();
    let body = b"{\"name\":\"file_analyzer\",\"args\":{\"path\":\"/tmp\",\"recursive\":true}}";
    let (idx, params) = svc
        .do_action_decide("execute", body)
        .expect("dispatch should reach the tool");
    assert_eq!(idx, 0);
    assert_eq!(params.name, "file_analyzer");
}

#[test]
fn dispatch_unknown_tool_fails_not_found() {
    let svc = two_tool_service();
    let body = b"{\"name\":\"nonexistent_tool\",\"args\":{}}";
    assert!(matches!(
        svc.do_action_decide("execute", body),
        Err(RpcError::NotFound)
    ));
}

#[test]
fn dispatch_other_action_tag_fails_invalid_argument() {
    // the tag is rejected before the registry is consulted: an empty
    // registry answers exactly the same way
    let empty = ToolsFlightService::new();
    let full = two_tool_service();
    let body = b"{\"name\":\"file_analyzer\",\"args\":{}}";
    let e1 = full.do_action_decide("other", body).unwrap_err();
    let e2 = empty.do_action_decide("other", body).unwrap_err();
    match (&e1, &e2) {
        (RpcError::InvalidArgument(m1), RpcError::InvalidArgument(m2)) => {
            assert_eq!(m1, "Unsupported action type");
            assert_eq!(m1, m2);
        }
        _ => panic!("both must be invalid-argument failures"),
    }
}

#[test]
fn dispatch_bad_payload_fails_decode() {
    let svc = two_tool_service();
    assert!(matches!(
        svc.do_action_decide("execute", b"not json"),
        Err(RpcError::Decode(_))
    ));
    assert!(matches!(
        svc.do_action_decide("execute", &[0xFF, 0xFE]),
        Err(RpcError::Decode(_))
    ));
}

#[test]
fn duplicate_names_dispatch_to_first_registration() {
    let mut svc = ToolsFlightService::new();
    svc.register_tool(ToolDescriptor {
        name: String::from("dup"),
        description: String::from("first"),
    });
    svc.register_tool(ToolDescriptor {
        name: String::from("dup"),
        description: String::from("second"),
    });
    assert_eq!(svc.find_tool("dup"), Some(0));
    let body = b"{\"name\":\"dup\",\"args\":{}}";
    let (idx, _) = svc.do_action_decide("execute", body).expect("should dispatch");
    assert_eq!(idx, 0);
}

#[test]
fn do_get_returns_tool_record() {
    let svc = two_tool_service();
    let info = svc.do_get_decide(b"web_search").expect("tool exists");
    assert_eq!(info, "{\"name\":\"web_search\",\"description\":\"search\"}");
    assert!(matches!(svc.do_get_decide(b"missing"), Err(RpcError::NotFound)));
}

#[test]
fn the_one_action_is_execute() {
    let svc = ToolsFlightService::new();
    let (tag, desc) = svc.action_types();
    assert_eq!(tag, "execute");
    assert_eq!(desc, "Execute a tool");
}
