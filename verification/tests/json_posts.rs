use mcp_wsl::args::ArgValue;
use mcp_wsl::files::select_files;
use mcp_wsl::http::{
    answer_batch, answer_not_json, answer_single, dispatch_request, finish_request, message_answer, plan_post,
    PostPlan, RpcMessage, RpcReply,
};
use mcp_wsl::json::{number_value, parse_json, tool_args, JsonValue};
use mcp_wsl::replies::initialize_json;

fn member<'a>(v: &'a JsonValue, key: &str) -> Option<&'a JsonValue> {
    match v {
        JsonValue::Object(ms) => ms.iter().find(|(k, _)| k == key).map(|(_, x)| x),
        _ => None,
    }
}

fn text(v: Option<&JsonValue>) -> Option<String> {
    match v {
        Some(JsonValue::Text(s)) => Some(s.clone()),
        _ => None,
    }
}

fn number(v: Option<&JsonValue>) -> Option<String> {
    match v {
        Some(JsonValue::Number(s)) => Some(s.clone()),
        _ => None,
    }
}

fn answer(message: RpcMessage) -> Option<RpcReply> {
    let plan = dispatch_request(&message.request);
    finish_request(plan, Some(Ok("tool output".to_string())))
}

#[test]
fn bodies_are_parsed_by_serde_json() {
    let v = parse_json(br#"{"a": [1, -2, 2.5, "x", null, true], "b": {}}"#).unwrap();
    match member(&v, "a") {
        Some(JsonValue::Array(items)) => {
            assert_eq!(items.len(), 6);
            assert_eq!(number(items.first()), Some("1".to_string()));
            assert_eq!(number(items.get(1)), Some("-2".to_string()));
            assert_eq!(number(items.get(2)), Some("2.5".to_string()));
            assert_eq!(text(items.get(3)), Some("x".to_string()));
            assert!(matches!(items[4], JsonValue::Null));
            assert!(matches!(items[5], JsonValue::Bool(true)));
        }
        _ => panic!("not an array"),
    }
    assert!(matches!(member(&v, "b"), Some(JsonValue::Object(ms)) if ms.is_empty()));
    assert!(parse_json(b"{nope").is_err());
}

#[test]
fn numbers_count_only_as_plain_integers() {
    assert_eq!(number_value("42"), Some(42));
    assert_eq!(number_value("18446744073709551615"), Some(u64::MAX));
    assert_eq!(number_value("18446744073709551616"), None);
    assert_eq!(number_value("-1"), None);
    assert_eq!(number_value("2.0"), None);
    assert_eq!(number_value("1e3"), None);
    assert_eq!(number_value(""), None);
}

#[test]
fn tool_arguments_are_read_from_the_object() {
    let v = parse_json(br#"{"filter": "x", "limit": 5, "all": true, "fields": ["pid", 3], "o": {}, "n": null, "f": 1.5}"#)
        .unwrap();
    let args = tool_args(Some(&v));
    assert_eq!(args.entries.len(), 7);
    let get = |k: &str| args.entries.iter().find(|(n, _)| n == k).map(|(_, a)| a).unwrap();
    assert!(matches!(get("filter"), ArgValue::Text(s) if s == "x"));
    assert!(matches!(get("limit"), ArgValue::Number(Some(5))));
    assert!(matches!(get("f"), ArgValue::Number(None)));
    assert!(matches!(get("all"), ArgValue::Bool(true)));
    assert!(matches!(get("fields"), ArgValue::Array(items) if items == &vec![Some("pid".to_string()), None]));
    assert!(matches!(get("o"), ArgValue::Object));
    assert!(matches!(get("n"), ArgValue::Null));
    assert!(tool_args(Some(&JsonValue::Text("x".to_string()))).entries.is_empty());
    assert!(tool_args(None).entries.is_empty());
}

#[test]
fn a_body_that_is_not_json_gets_a_parse_error() {
    let plan = plan_post(parse_json(b"{oops"));
    let err = match plan {
        PostPlan::NotJson(e) => e,
        _ => panic!("not a parse error"),
    };
    let a = answer_not_json(&err);
    assert_eq!(a.status, 200);
    let body = a.body.unwrap();
    assert_eq!(text(member(&body, "jsonrpc")), Some("2.0".to_string()));
    assert!(matches!(member(&body, "id"), Some(JsonValue::Null)));
    let error = member(&body, "error").unwrap();
    assert_eq!(number(member(error, "code")), Some("-32700".to_string()));
    assert_eq!(text(member(error, "message")), Some(format!("Parse error: {err}")));
}

#[test]
fn a_single_message_has_its_id_echoed() {
    let plan = plan_post(parse_json(br#"{"jsonrpc": "2.0", "id": "abc", "method": "ping"}"#));
    let message = match plan {
        PostPlan::Single(m) => m,
        _ => panic!("one message"),
    };
    assert_eq!(message.request.method.as_deref(), Some("ping"));
    let plan = plan_post(parse_json(br#"{"jsonrpc": "2.0", "id": "abc", "method": "ping"}"#));
    let PostPlan::Single(m2) = plan else { panic!("one message") };
    let reply = answer(m2);
    let a = answer_single(message, reply);
    assert_eq!(a.status, 200);
    let body = a.body.unwrap();
    assert_eq!(text(member(&body, "id")), Some("abc".to_string()));
    assert!(matches!(member(&body, "result"), Some(JsonValue::Object(ms)) if ms.is_empty()));
}

#[test]
fn a_notification_gets_no_content() {
    let body = br#"{"jsonrpc": "2.0", "method": "notifications/initialized"}"#;
    let PostPlan::Single(m) = plan_post(parse_json(body)) else { panic!("one message") };
    assert!(!m.request.has_id);
    let PostPlan::Single(m2) = plan_post(parse_json(body)) else { panic!("one message") };
    let reply = answer(m2);
    let a = answer_single(m, reply);
    assert_eq!(a.status, 204);
    assert!(a.body.is_none());
}

#[test]
fn a_batch_answers_its_requests_in_order() {
    let body = br#"[{"id": 1, "method": "ping"}, {"method": "ping"}, {"id": 2, "method": "nope"}, {"id": 3, "method": "tools/call", "params": {"name": "read:get_env", "arguments": {"filter": "x"}}}]"#;
    let PostPlan::Batch(ms) = plan_post(parse_json(body)) else { panic!("a batch") };
    assert_eq!(ms.len(), 4);
    assert_eq!(ms[3].request.tool_name.as_deref(), Some("read:get_env"));
    assert_eq!(ms[3].request.arguments.entries.len(), 1);
    let PostPlan::Batch(again) = plan_post(parse_json(body)) else { panic!("a batch") };
    let replies: Vec<Option<RpcReply>> = again.into_iter().map(answer).collect();
    let answers: Vec<Option<JsonValue>> = ms.into_iter().zip(replies).map(|(m, r)| message_answer(m, r)).collect();
    let a = answer_batch(answers);
    assert_eq!(a.status, 200);
    let items = match a.body.unwrap() {
        JsonValue::Array(items) => items,
        _ => panic!("an array"),
    };
    assert_eq!(items.len(), 3);
    assert_eq!(number(member(&items[0], "id")), Some("1".to_string()));
    assert_eq!(number(member(&items[1], "id")), Some("2".to_string()));
    let error = member(&items[1], "error").unwrap();
    assert_eq!(number(member(error, "code")), Some("-32603".to_string()));
    assert_eq!(text(member(error, "message")), Some("Method not found: nope".to_string()));
    let result = member(&items[2], "result").unwrap();
    assert!(matches!(member(result, "isError"), Some(JsonValue::Bool(false))));
}

#[test]
fn initialize_announces_capabilities_and_version() {
    let v = initialize_json();
    assert_eq!(text(member(&v, "protocolVersion")), Some("2025-03-26".to_string()));
    let caps = member(&v, "capabilities").unwrap();
    assert!(matches!(member(caps, "tools"), Some(JsonValue::Object(ms)) if ms.is_empty()));
    let info = member(&v, "serverInfo").unwrap();
    assert_eq!(text(member(info, "name")), Some("mcp-wsl".to_string()));
    assert_eq!(text(member(info, "version")), Some("0.1.0".to_string()));
}

#[test]
fn only_regular_files_up_to_the_limit_are_listed() {
    let is_file = vec![false, true, true, false, true];
    assert_eq!(select_files(&is_file, u64::MAX), vec![1, 2, 4]);
    assert_eq!(select_files(&is_file, 2), vec![1, 2]);
    assert_eq!(select_files(&is_file, 0), Vec::<usize>::new());
    assert_eq!(select_files(&vec![], 3), Vec::<usize>::new());
}
