use agentic_flow_lib::context::ExecutionContext;
use agentic_flow_lib::errors::AgenticFlowError;
use agentic_flow_lib::json::JsonValue;
use agentic_flow_lib::mcp_manager::MCPTool;
use agentic_flow_lib::tool_registry::{
    LocalTool, ServerToolListing, ToolDispatch, ToolRegistry,
};

struct EchoTool;

impl LocalTool for EchoTool {
    fn name(&self) -> &str {
        "echo"
    }

    fn description(&self) -> &str {
        "Echoes the input text"
    }

    fn parameter_schema(&self) -> JsonValue {
        JsonValue::object_with("type", JsonValue::text("object"))
    }

    fn execute(
        &self,
        params: JsonValue,
        context: &mut ExecutionContext,
    ) -> Result<JsonValue, AgenticFlowError> {
        let text = match params.get_field("text").and_then(|v| v.as_text()) {
            Some(s) => s.clone(),
            None => return Err(AgenticFlowError::ToolError("text".to_string())),
        };
        context.set("echoed_text".to_string(), JsonValue::Text(text.clone()));
        Ok(JsonValue::object_with("text", JsonValue::Text(text)))
    }
}

struct MockTool;

impl LocalTool for MockTool {
    fn name(&self) -> &str {
        "mock_tool"
    }

    fn description(&self) -> &str {
        "Mock tool for testing"
    }

    fn parameter_schema(&self) -> JsonValue {
        JsonValue::object_with("type", JsonValue::text("object"))
    }

    fn execute(
        &self,
        _params: JsonValue,
        _context: &mut ExecutionContext,
    ) -> Result<JsonValue, AgenticFlowError> {
        Ok(JsonValue::text("test successful step 1"))
    }
}

fn remote_tool(server: &str, name: &str) -> MCPTool {
    MCPTool {
        name: name.to_string(),
        description: "remote".to_string(),
        input_schema: JsonValue::Null,
        server_name: server.to_string(),
    }
}

fn ok_listing(server: &str, tools: Vec<MCPTool>) -> ServerToolListing {
    ServerToolListing { server_name: server.to_string(), tools: Ok(tools) }
}

#[test]
fn test_available_tools() {
    let mut registry = ToolRegistry::new();
    let registered = registry.register_local_tool(Box::new(MockTool));
    assert_eq!(registered, "mock_tool");
    let names = registry.get_tools_names();
    assert_eq!(names, vec!["mock_tool".to_string()]);
}

#[test]
fn local_tool_shadows_remote_of_same_name() {
    let mut registry = ToolRegistry::new();
    registry.register_local_tool(Box::new(EchoTool));
    registry
        .refresh_mcp_tools(vec![ok_listing("alpha", vec![remote_tool("alpha", "echo")])])
        .unwrap();
    // The discovered tool was re-keyed away from the registered local name.
    let names = registry.get_tools_names();
    assert_eq!(names, vec!["echo".to_string(), "alpha::echo".to_string()]);

    let mut ctx = ExecutionContext::new();
    let params = JsonValue::object_with("text", JsonValue::text("hi"));
    match registry.execute_tool("echo", params, &mut ctx) {
        ToolDispatch::Local(result) => {
            assert_eq!(result.unwrap(), JsonValue::object_with("text", JsonValue::text("hi")));
        }
        other => panic!("expected the local handler, got {:?}", other),
    }
    // The re-keyed name still routes to its server with the bare tool name.
    match registry.execute_tool("alpha::echo", JsonValue::Null, &mut ctx) {
        ToolDispatch::Remote { server_name, tool_name, .. } => {
            assert_eq!(server_name, "alpha");
            assert_eq!(tool_name, "echo");
        }
        other => panic!("expected a remote dispatch, got {:?}", other),
    }
}

#[test]
fn conflicting_remote_names_are_namespaced() {
    let mut registry = ToolRegistry::new();
    registry
        .refresh_mcp_tools(vec![
            ok_listing("alpha", vec![remote_tool("alpha", "search")]),
            ok_listing("beta", vec![remote_tool("beta", "search")]),
        ])
        .unwrap();
    let names = registry.get_tools_names();
    assert_eq!(names, vec!["search".to_string(), "beta::search".to_string()]);

    let mut ctx = ExecutionContext::new();
    match registry.execute_tool("beta::search", JsonValue::Null, &mut ctx) {
        ToolDispatch::Remote { server_name, tool_name, .. } => {
            assert_eq!(server_name, "beta");
            assert_eq!(tool_name, "search");
        }
        other => panic!("expected a remote dispatch, got {:?}", other),
    }
    match registry.execute_tool("search", JsonValue::Null, &mut ctx) {
        ToolDispatch::Remote { server_name, .. } => assert_eq!(server_name, "alpha"),
        other => panic!("expected a remote dispatch, got {:?}", other),
    }
}

#[test]
fn refresh_propagates_first_listing_error() {
    let mut registry = ToolRegistry::new();
    let result = registry.refresh_mcp_tools(vec![
        ok_listing("alpha", vec![remote_tool("alpha", "search")]),
        ServerToolListing {
            server_name: "beta".to_string(),
            tools: Err(AgenticFlowError::ToolError("Failed to list tools".to_string())),
        },
        ok_listing("gamma", vec![remote_tool("gamma", "lookup")]),
    ]);
    match result {
        Err(AgenticFlowError::ToolError(msg)) => assert_eq!(msg, "Failed to list tools"),
        other => panic!("expected the listing error, got {:?}", other),
    }
    // The refresh stopped at the failure: what came before it stays, nothing
    // after it was inserted.
    let names = registry.get_tools_names();
    assert_eq!(names, vec!["search".to_string()]);
}

#[test]
fn refresh_clears_previous_remote_tools() {
    let mut registry = ToolRegistry::new();
    registry
        .refresh_mcp_tools(vec![ok_listing("alpha", vec![remote_tool("alpha", "old")])])
        .unwrap();
    registry
        .refresh_mcp_tools(vec![ok_listing("alpha", vec![remote_tool("alpha", "new")])])
        .unwrap();
    assert_eq!(registry.get_tools_names(), vec!["new".to_string()]);
}

#[test]
fn unknown_tool_is_reported() {
    let registry = ToolRegistry::new();
    let mut ctx = ExecutionContext::new();
    match registry.execute_tool("nope", JsonValue::Null, &mut ctx) {
        ToolDispatch::NotFound(e) => {
            assert_eq!(e.message(), "Tool error: Tool 'nope' not found");
        }
        other => panic!("expected not-found, got {:?}", other),
    }
}

#[test]
fn planner_catalog_has_function_entries() {
    let mut registry = ToolRegistry::new();
    registry.register_local_tool(Box::new(EchoTool));
    let catalog = registry.get_tools_for_planner();
    assert_eq!(catalog.len(), 1);
    let entry = &catalog[0];
    assert_eq!(entry.get_field("type"), Some(&JsonValue::text("function")));
    let function = entry.get_field("function").expect("function field");
    assert_eq!(function.get_field("name"), Some(&JsonValue::text("echo")));
    assert_eq!(
        function.get_field("description"),
        Some(&JsonValue::text("Echoes the input text")),
    );
    assert!(function.get_field("parameters").is_some());
}

#[test]
fn remote_call_results_are_normalized() {
    let ok = ToolRegistry::finish_remote_call("echo", Ok(Some(JsonValue::Int(3))));
    assert_eq!(ok.unwrap(), JsonValue::Int(3));
    let empty = ToolRegistry::finish_remote_call("echo", Ok(None));
    assert_eq!(empty.unwrap(), JsonValue::Null);
    let failed = ToolRegistry::finish_remote_call("echo", Err("boom".to_string()));
    match failed {
        Err(e) => assert_eq!(e.message(), "Tool error: Failed to call MCP tool 'echo': boom"),
        other => panic!("expected a tool failure, got {:?}", other),
    }
}
