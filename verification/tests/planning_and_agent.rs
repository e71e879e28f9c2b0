use agentic_flow_lib::agent::Agent;
use agentic_flow_lib::config::MCPConfig;
use agentic_flow_lib::context::ExecutionContext;
use agentic_flow_lib::errors::AgenticFlowError;
use agentic_flow_lib::json::JsonValue;
use agentic_flow_lib::mcp_manager::MCPManager;
use agentic_flow_lib::model::{Function, ToolCall};
use agentic_flow_lib::planner::{collect_as_plan_steps, select_best_plan, PlanStep};
use agentic_flow_lib::tool_registry::{LocalTool, ToolRegistry};

struct EchoTool;

impl LocalTool for EchoTool {
    fn name(&self) -> &str {
        "echo"
    }

    fn description(&self) -> &str {
        "Echoes the input text"
    }

    fn parameter_schema(&self) -> JsonValue {
        JsonValue::object_with("type", JsonValue::text("object"))
    }

    fn execute(
        &self,
        params: JsonValue,
        context: &mut ExecutionContext,
    ) -> Result<JsonValue, AgenticFlowError> {
        let text = match params.get_field("text").and_then(|v| v.as_text()) {
            Some(s) => s.clone(),
            None => return Err(AgenticFlowError::ToolError("text".to_string())),
        };
        context.set("echoed_text".to_string(), JsonValue::Text(text.clone()));
        Ok(JsonValue::object_with("text", JsonValue::Text(text)))
    }
}

fn make_tool_call(name: &str, key: &str, value: &str) -> ToolCall {
    ToolCall {
        function: Function {
            name: name.to_string(),
            arguments: JsonValue::object_with(key, JsonValue::text(value)),
        },
    }
}

fn plan_of(len: usize) -> Vec<PlanStep> {
    (0..len)
        .map(|_| PlanStep { tool_name: "echo".to_string(), params: JsonValue::Null })
        .collect()
}

#[test]
fn tool_calls_become_plan_steps_in_order() {
    let calls = Some(vec![
        make_tool_call("mock_tool", "foo", "bar"),
        make_tool_call("echo", "text", "hi"),
    ]);
    let steps = collect_as_plan_steps(&calls);
    assert_eq!(steps.len(), 2);
    assert_eq!(steps[0].tool_name, "mock_tool");
    assert_eq!(steps[0].params.get_field("foo"), Some(&JsonValue::text("bar")));
    assert_eq!(steps[1].tool_name, "echo");
    assert_eq!(steps[1].params.get_field("text"), Some(&JsonValue::text("hi")));
}

#[test]
fn a_response_without_tool_calls_is_an_empty_plan() {
    assert_eq!(collect_as_plan_steps(&None).len(), 0);
}

#[test]
fn plan_steps_come_from_tool_calls() {
    let step = PlanStep::from(make_tool_call("mock_tool", "foo", "bar"));
    assert_eq!(step.tool_name, "mock_tool");
    assert_eq!(step.params.get_field("foo"), Some(&JsonValue::text("bar")));
}

#[test]
fn the_shortest_nonempty_plan_wins() {
    let best = select_best_plan(vec![plan_of(0), plan_of(3), plan_of(2), plan_of(2)]);
    assert_eq!(best.len(), 2);
    let best = select_best_plan(vec![plan_of(1), plan_of(2)]);
    assert_eq!(best.len(), 1);
    // Every simulation empty: the first plan stands.
    let best = select_best_plan(vec![plan_of(0), plan_of(0)]);
    assert_eq!(best.len(), 0);
}

#[test]
fn echo_through_the_registry_directly() {
    let mut registry = ToolRegistry::new();
    registry.register_local_tool(Box::new(EchoTool));
    let manager = MCPManager::new(MCPConfig::default());
    let agent = Agent::new(manager, registry);

    let steps = vec![PlanStep {
        tool_name: "echo".to_string(),
        params: JsonValue::object_with("text", JsonValue::text("hi")),
    }];
    let context = agent.execute_steps(steps).unwrap();
    assert_eq!(
        context.get("1: echo"),
        Some(&JsonValue::object_with("text", JsonValue::text("hi"))),
    );
    // The handler's own context entry is kept too.
    assert_eq!(context.get("echoed_text"), Some(&JsonValue::text("hi")));
}

#[test]
fn step_results_are_keyed_by_position() {
    let mut registry = ToolRegistry::new();
    registry.register_local_tool(Box::new(EchoTool));
    let manager = MCPManager::new(MCPConfig::default());
    let agent = Agent::new(manager, registry);

    let steps = vec![
        PlanStep {
            tool_name: "echo".to_string(),
            params: JsonValue::object_with("text", JsonValue::text("one")),
        },
        PlanStep {
            tool_name: "echo".to_string(),
            params: JsonValue::object_with("text", JsonValue::text("two")),
        },
    ];
    let context = agent.execute_steps(steps).unwrap();
    assert_eq!(
        context.get("1: echo"),
        Some(&JsonValue::object_with("text", JsonValue::text("one"))),
    );
    assert_eq!(
        context.get("2: echo"),
        Some(&JsonValue::object_with("text", JsonValue::text("two"))),
    );
}

#[test]
fn a_failing_step_ends_the_run_with_its_error() {
    let registry = ToolRegistry::new();
    let manager = MCPManager::new(MCPConfig::default());
    let agent = Agent::new(manager, registry);
    let steps = vec![PlanStep { tool_name: "missing".to_string(), params: JsonValue::Null }];
    let err = agent.execute_steps(steps).unwrap_err();
    assert_eq!(err.message(), "Tool error: Tool 'missing' not found");
}

#[test]
fn an_empty_plan_leaves_the_context_empty() {
    let registry = ToolRegistry::new();
    let manager = MCPManager::new(MCPConfig::default());
    let agent = Agent::new(manager, registry);
    let context = agent.execute_steps(Vec::new()).unwrap();
    assert!(context.data().is_empty());
}
