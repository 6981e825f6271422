use ogent::tools::agent_tool::{AgentTool, AgentToolNameError, AgentToolRequestError, LuaToolRequest};
use ogent::types::ToolCall;

#[test]
fn agent_tool_names_are_closed_domain() {
    assert_eq!(AgentTool::from_name("exec").unwrap(), AgentTool::Exec);
    assert_eq!(AgentTool::from_name("eval").unwrap(), AgentTool::Eval);
    assert!(matches!(
        AgentTool::from_name("shell"),
        Err(AgentToolNameError::Unknown { name }) if name == "shell"
    ));
}

#[test]
fn agent_tool_names_round_trip() {
    assert_eq!(AgentTool::Exec.name(), "exec");
    assert_eq!(AgentTool::Eval.name(), "eval");
    assert_eq!(AgentTool::from_name(AgentTool::Eval.name()).unwrap(), AgentTool::Eval);
}

#[test]
fn lua_requests_from_decoded_arguments() {
    let ok = LuaToolRequest::from_decoded(AgentTool::Exec, Ok("return 1".to_string())).unwrap();
    assert_eq!(ok.tool, AgentTool::Exec);
    assert_eq!(ok.code, "return 1");
    let missing = LuaToolRequest::from_decoded(AgentTool::Eval, Ok("   ".to_string())).unwrap_err();
    assert_eq!(missing.message(), "missing code for `eval`");
    let invalid = LuaToolRequest::from_decoded(AgentTool::Exec, Err("expected ident".to_string())).unwrap_err();
    assert_eq!(invalid.message(), "invalid arguments for `exec`: expected ident");
    let call = ToolCall::function("1".to_string(), "shell".to_string(), "{}".to_string());
    let unknown = LuaToolRequest::from_tool_call(&call, Ok("x".to_string())).unwrap_err();
    assert!(matches!(unknown, AgentToolRequestError::Name(_)));
    assert_eq!(unknown.message(), "unknown agent tool: shell");
}

/// Decodes tool arguments as JSON and reads their `code` string.
fn decode_code(arguments: &str) -> Result<String, String> {
    let value: serde_json::Value = serde_json::from_str(arguments).map_err(|e| e.to_string())?;
    match value.get("code").and_then(|c| c.as_str()) {
        Some(code) => Ok(code.to_string()),
        None => Err("missing field `code`".to_string()),
    }
}

#[test]
fn lua_tool_request_decodes_schema_arguments() {
    let request = LuaToolRequest::from_decoded(
        AgentTool::Exec,
        decode_code(r#"{"code":"return 1","reason":"test"}"#),
    )
    .unwrap();
    assert_eq!(request, LuaToolRequest { tool: AgentTool::Exec, code: "return 1".to_string() });
}

#[test]
fn lua_tool_request_rejects_missing_code() {
    let err = LuaToolRequest::from_decoded(AgentTool::Eval, decode_code(r#"{"code":"   "}"#)).unwrap_err();
    assert!(matches!(err, AgentToolRequestError::MissingCode { tool: AgentTool::Eval }));
    assert_eq!(err.message(), "missing code for `eval`");
}

#[test]
fn invalid_arguments_error_displays_parse_source() {
    let err = LuaToolRequest::from_decoded(AgentTool::Exec, decode_code("not json")).unwrap_err();
    assert!(err.message().contains("invalid arguments for `exec`:"));
    assert!(err.message().contains("expected ident"));
}
