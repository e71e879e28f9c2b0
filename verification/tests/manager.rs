use agentic_flow_lib::config::{MCPConfig, ServerConfig, ServerType};
use agentic_flow_lib::json::JsonValue;
use agentic_flow_lib::mcp_manager::{MCPManager, RawToolInfo};
use agentic_flow_lib::strmap::StrMap;

fn python_config(module: Option<&str>) -> ServerConfig {
    ServerConfig {
        server_type: ServerType::Python,
        module_name: module.map(|m| m.to_string()),
        package_name: None,
        auto_install: false,
        config: None,
    }
}

fn node_config(package: Option<&str>) -> ServerConfig {
    ServerConfig {
        server_type: ServerType::Node,
        module_name: None,
        package_name: package.map(|p| p.to_string()),
        auto_install: false,
        config: None,
    }
}

fn manager_with(name: &str, cfg: ServerConfig) -> MCPManager {
    let mut servers: StrMap<ServerConfig> = StrMap::new();
    servers.insert(name.to_string(), cfg);
    MCPManager::new(MCPConfig { servers })
}

#[test]
fn python_servers_launch_as_modules() {
    let manager = manager_with("web", python_config(Some("mcp_server_web")));
    let plan = manager.prepare_launch("web").unwrap();
    assert_eq!(plan.program, "python");
    assert_eq!(plan.args, vec!["-m".to_string(), "mcp_server_web".to_string()]);
}

#[test]
fn node_servers_launch_as_packages() {
    let manager = manager_with("files", node_config(Some("@mcp/files")));
    let plan = manager.prepare_launch("files").unwrap();
    assert_eq!(plan.program, "npx");
    assert_eq!(plan.args, vec!["-y".to_string(), "@mcp/files".to_string()]);
}

#[test]
fn launch_errors_name_their_cause() {
    let manager = manager_with("web", python_config(Some("m")));
    let missing = manager.prepare_launch("nope").unwrap_err();
    assert_eq!(missing.message(), "Tool error: Server config not found: nope");

    let manager = manager_with("web", python_config(None));
    let no_module = manager.prepare_launch("web").unwrap_err();
    assert_eq!(no_module.message(), "Tool error: Python module name required");

    let manager = manager_with("files", node_config(None));
    let no_package = manager.prepare_launch("files").unwrap_err();
    assert_eq!(no_package.message(), "Tool error: Node package name required");
}

#[test]
fn failed_launches_record_no_connection() {
    let mut manager = manager_with("web", python_config(Some("m")));
    let err = manager
        .record_server_started(
            "web",
            Err(agentic_flow_lib::errors::AgenticFlowError::ToolError("spawn failed".to_string())),
        )
        .unwrap_err();
    assert_eq!(err.message(), "Tool error: spawn failed");
    assert!(manager.get_active_server_names().is_empty());
    assert!(manager.check_server("web").is_err());
}

#[test]
fn started_servers_are_listed() {
    let mut manager = manager_with("web", python_config(Some("m")));
    manager.record_server_started("web", Ok(())).unwrap();
    assert_eq!(manager.get_active_server_names(), vec!["web".to_string()]);
    assert!(manager.check_server("web").is_ok());
    assert!(manager.get_server_connection("web").is_some());
    assert!(manager.get_server_connection("other").is_none());
}

#[test]
fn stop_server_is_idempotent() {
    let mut manager = manager_with("web", python_config(Some("m")));
    // Stopping a server that was never started succeeds and changes nothing.
    assert!(!manager.stop_server("web"));
    assert!(manager.get_active_server_names().is_empty());

    manager.record_server_started("web", Ok(())).unwrap();
    assert!(manager.stop_server("web"));
    assert!(manager.get_active_server_names().is_empty());
    // A second stop right after the first succeeds with no further effect.
    assert!(!manager.stop_server("web"));
    assert!(manager.get_active_server_names().is_empty());
}

#[test]
fn reported_tools_are_normalized() {
    let raw = vec![
        RawToolInfo {
            name: "search".to_string(),
            description: Some("finds things".to_string()),
            input_schema: JsonValue::Null,
        },
        RawToolInfo {
            name: "fetch".to_string(),
            description: None,
            input_schema: JsonValue::object_with("type", JsonValue::text("object")),
        },
    ];
    let tools = MCPManager::normalize_server_tools("web", raw);
    assert_eq!(tools.len(), 2);
    assert_eq!(tools[0].name, "search");
    assert_eq!(tools[0].description, "finds things");
    assert_eq!(tools[0].server_name, "web");
    assert_eq!(tools[1].name, "fetch");
    assert_eq!(tools[1].description, "");
    assert_eq!(tools[1].server_name, "web");
}
