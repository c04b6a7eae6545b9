use mcp_wsl::args::ToolArgs;
use mcp_wsl::http::{
    batch_replies, dispatch_request, finish_request, handle_method, http_status, parse_failure, MethodAction,
    RequestPlan, RpcReply, RpcRequest, RpcResult,
};
use mcp_wsl::server::McpWslServer;

fn request(has_id: bool, method: Option<&str>, tool: Option<&str>) -> RpcRequest {
    RpcRequest {
        has_id,
        method: method.map(|m| m.to_string()),
        tool_name: tool.map(|t| t.to_string()),
        arguments: ToolArgs::empty(),
    }
}

fn answer(req: &RpcRequest, tool: Option<Result<String, String>>) -> Option<RpcReply> {
    finish_request(dispatch_request(req), tool)
}

#[test]
fn methods_are_recognised() {
    assert!(matches!(handle_method("initialize", &None), MethodAction::Initialize));
    assert!(matches!(handle_method("ping", &None), MethodAction::Ping));
    assert!(matches!(handle_method("notifications/initialized", &None), MethodAction::Acknowledge));
    assert!(matches!(handle_method("notifications/cancelled", &None), MethodAction::Acknowledge));
    assert!(matches!(handle_method("tools/list", &None), MethodAction::ListTools));
    match handle_method("tools/call", &Some("read:get_env".to_string())) {
        MethodAction::CallTool(n) => assert_eq!(n, "read:get_env"),
        _ => panic!("a tool call"),
    }
    match handle_method("tools/call", &None) {
        MethodAction::Fail(m) => assert_eq!(m, "Missing tool name"),
        _ => panic!("no tool name"),
    }
    match handle_method("resources/list", &None) {
        MethodAction::Fail(m) => assert_eq!(m, "Method not found: resources/list"),
        _ => panic!("unknown method"),
    }
}

#[test]
fn notifications_get_no_answer() {
    assert!(answer(&request(false, Some("notifications/initialized"), None), None).is_none());
    assert!(answer(&request(false, Some("bogus"), None), None).is_none());
    assert!(answer(&request(false, Some("tools/call"), Some("read:get_env")), Some(Ok("x".to_string()))).is_none());
}

#[test]
fn messages_without_a_method_are_ignored() {
    assert!(matches!(dispatch_request(&request(true, None, None)), RequestPlan::Ignore));
    assert!(answer(&request(true, None, None), None).is_none());
}

#[test]
fn requests_get_one_answer() {
    assert!(matches!(answer(&request(true, Some("ping"), None), None), Some(RpcReply::Success(RpcResult::Empty))));
    assert!(matches!(answer(&request(true, Some("initialize"), None), None), Some(RpcReply::Success(RpcResult::Initialize))));
    assert!(matches!(
        answer(&request(true, Some("notifications/initialized"), None), None),
        Some(RpcReply::Success(RpcResult::Null))
    ));
    match answer(&request(true, Some("tools/list"), None), None) {
        Some(RpcReply::Success(RpcResult::Tools(t))) => assert_eq!(t.len(), 14),
        _ => panic!("a tool listing"),
    }
}

#[test]
fn failures_are_internal_errors() {
    match answer(&request(true, Some("nope"), None), None) {
        Some(RpcReply::Failure { code, message }) => {
            assert_eq!(code, -32603);
            assert_eq!(message, "Method not found: nope");
        },
        _ => panic!("an error"),
    }
    match answer(&request(true, Some("tools/call"), None), None) {
        Some(RpcReply::Failure { code, message }) => assert_eq!((code, message.as_str()), (-32603, "Missing tool name")),
        _ => panic!("an error"),
    }
    match parse_failure("EOF while parsing") {
        RpcReply::Failure { code, message } => assert_eq!((code, message.as_str()), (-32700, "Parse error: EOF while parsing")),
        _ => panic!("a parse error"),
    }
}

#[test]
fn tool_errors_are_successful_answers() {
    match answer(&request(true, Some("tools/call"), Some("read:x")), Some(Err("Unknown tool: read:x".to_string()))) {
        Some(RpcReply::Success(RpcResult::ToolCall(c))) => {
            assert!(c.is_error);
            assert_eq!(c.text, "Unknown tool: read:x");
        },
        _ => panic!("a tool answer"),
    }
    match answer(&request(true, Some("tools/call"), Some("read:get_env")), Some(Ok("A=1".to_string()))) {
        Some(RpcReply::Success(RpcResult::ToolCall(c))) => assert_eq!((c.is_error, c.text.as_str()), (false, "A=1")),
        _ => panic!("a tool answer"),
    }
}

#[test]
fn batches_keep_the_answers_in_order() {
    let reqs = vec![
        request(true, Some("ping"), None),
        request(false, Some("notifications/initialized"), None),
        request(true, Some("nope"), None),
        request(true, None, None),
    ];
    let replies: Vec<Option<RpcReply>> = reqs.iter().map(|r| answer(r, None)).collect();
    let out = batch_replies(replies);
    assert_eq!(out.len(), 2);
    assert!(matches!(out[0], RpcReply::Success(RpcResult::Empty)));
    assert!(matches!(out[1], RpcReply::Failure { .. }));
    assert!(batch_replies::<RpcReply>(vec![]).is_empty());
}

#[test]
fn single_answers_are_200_or_204() {
    assert_eq!(http_status(&answer(&request(true, Some("ping"), None), None)), 200);
    assert_eq!(http_status(&answer(&request(false, Some("ping"), None), None)), 204);
}

#[test]
fn server_describes_itself() {
    let s = McpWslServer;
    let info = s.get_info();
    assert_eq!(info.instructions, "MCP server providing WSL system information and command execution");
    assert!(info.tools);
    assert_eq!(s.list_tools().len(), 14);
    let c = s.call_tool(Err("boom".to_string()));
    assert!(c.is_error);
    assert_eq!(c.text, "boom");
    let c = s.call_tool(Ok("fine".to_string()));
    assert!(!c.is_error);
}
