use mcp_wsl::json::JsonValue;
use mcp_wsl::replies::input_schema;
use mcp_wsl::tools::{dispatch, tool_list, ParamKind, ToolKind};

#[test]
fn every_listed_tool_is_dispatched() {
    let list = tool_list();
    assert_eq!(list.len(), 14);
    for t in &list {
        assert!(dispatch(&t.name).is_ok(), "{}", t.name);
    }
    let mut names: Vec<&str> = list.iter().map(|t| t.name.as_str()).collect();
    names.sort();
    names.dedup();
    assert_eq!(names.len(), 14);
}

#[test]
fn names_dispatch_to_their_tools() {
    assert_eq!(dispatch("read:get_system_info"), Ok(ToolKind::SystemInfo));
    assert_eq!(dispatch("read:list_dir"), Ok(ToolKind::ListDir));
    assert_eq!(dispatch("read:get_file"), Ok(ToolKind::File));
    assert_eq!(dispatch("exec:execute_command"), Ok(ToolKind::ExecuteCommand));
    assert_eq!(dispatch("exec:execute_shell_command"), Ok(ToolKind::ExecuteShellCommand));
}

#[test]
fn unknown_tools_are_named_in_the_error() {
    assert_eq!(dispatch("read:nothing"), Err("Unknown tool: read:nothing".to_string()));
    assert_eq!(dispatch(""), Err("Unknown tool: ".to_string()));
    assert_eq!(dispatch("READ:GET_ENV"), Err("Unknown tool: READ:GET_ENV".to_string()));
}

#[test]
fn listing_order_and_required_parameters() {
    let list = tool_list();
    let names: Vec<&str> = list.iter().map(|t| t.name.as_str()).collect();
    assert_eq!(
        names,
        vec![
            "read:get_system_info",
            "read:get_os_info",
            "read:list_dir",
            "read:get_mounts",
            "read:get_wsl_config",
            "read:get_disk_usage",
            "read:get_env",
            "read:list_procs",
            "read:get_file",
            "read:get_package_manager",
            "read:get_shells",
            "read:get_default_shell",
            "exec:execute_command",
            "exec:execute_shell_command",
        ]
    );
    for t in &list {
        let required: Vec<&str> = t.required.iter().map(|s| s.as_str()).collect();
        match t.name.as_str() {
            "read:get_file" => assert_eq!(required, vec!["glob"]),
            "exec:execute_command" | "exec:execute_shell_command" => assert_eq!(required, vec!["command"]),
            _ => assert!(required.is_empty(), "{}", t.name),
        }
        for r in &t.required {
            assert!(t.params.iter().any(|p| &p.name == r));
        }
    }
}

#[test]
fn parameter_schemas() {
    let list = tool_list();
    let procs = list.iter().find(|t| t.name == "read:list_procs").unwrap();
    assert_eq!(procs.description, "Lists running processes with optional filtering and field selection");
    let fields = procs.params.iter().find(|p| p.name == "fields").unwrap();
    match &fields.kind {
        ParamKind::ChoiceList(v) => assert_eq!(
            v,
            &vec!["pid", "user", "cpu", "memory", "virtual_memory", "time", "status", "name", "command"]
        ),
        _ => panic!("fields is a list of choices"),
    }
    let file = list.iter().find(|t| t.name == "read:get_file").unwrap();
    let content = file.params.iter().find(|p| p.name == "content").unwrap();
    match &content.kind {
        ParamKind::Choice(v) => assert_eq!(v, &vec!["none", "text", "hex"]),
        _ => panic!("content is a choice"),
    }
    let exec = list.iter().find(|t| t.name == "exec:execute_command").unwrap();
    assert_eq!(exec.params.len(), 9);
    assert!(matches!(exec.params[1].kind, ParamKind::TextList));
    assert!(matches!(exec.params[7].kind, ParamKind::Integer));
    let shell = list.iter().find(|t| t.name == "exec:execute_shell_command").unwrap();
    assert_eq!(shell.params.len(), 8);
    assert!(shell.params.iter().all(|p| p.name != "stdin_file"));
}

fn member<'a>(v: &'a JsonValue, key: &str) -> Option<&'a JsonValue> {
    match v {
        JsonValue::Object(ms) => ms.iter().find(|(k, _)| k == key).map(|(_, x)| x),
        _ => None,
    }
}

fn text(v: Option<&JsonValue>) -> Option<&str> {
    match v {
        Some(JsonValue::Text(s)) => Some(s.as_str()),
        _ => None,
    }
}

#[test]
fn schemas_are_objects_with_typed_properties() {
    for t in tool_list() {
        let schema = input_schema(&t);
        assert_eq!(text(member(&schema, "type")), Some("object"));
        let props = member(&schema, "properties").unwrap();
        match props {
            JsonValue::Object(ms) => {
                let names: Vec<&str> = ms.iter().map(|(k, _)| k.as_str()).collect();
                let expected: Vec<&str> = t.params.iter().map(|p| p.name.as_str()).collect();
                assert_eq!(names, expected);
            }
            _ => panic!("properties is not an object"),
        }
        assert_eq!(member(&schema, "required").is_some(), !t.required.is_empty());
    }
    let file = tool_list().into_iter().find(|t| t.name == "read:get_file").unwrap();
    let schema = input_schema(&file);
    let props = member(&schema, "properties").unwrap();
    assert_eq!(text(member(member(props, "glob").unwrap(), "type")), Some("string"));
    assert_eq!(text(member(member(props, "limit").unwrap(), "type")), Some("integer"));
    assert_eq!(text(member(member(props, "show_size").unwrap(), "type")), Some("boolean"));
    let content = member(props, "content").unwrap();
    match member(content, "enum") {
        Some(JsonValue::Array(items)) => assert_eq!(items.len(), 3),
        _ => panic!("content has no enum"),
    }
    match member(&schema, "required") {
        Some(JsonValue::Array(items)) => {
            assert_eq!(items.len(), 1);
            assert_eq!(text(items.first()), Some("glob"));
        }
        _ => panic!("get_file requires glob"),
    }
}
