use agentic_flow_lib::context::ExecutionContext;
use agentic_flow_lib::errors::AgenticFlowError;
use agentic_flow_lib::json::JsonValue;
use agentic_flow_lib::planner::PlanStep;
use agentic_flow_lib::tool_registry::{LocalTool, ToolRegistry};
use agentic_flow_lib::worker::{
    AgenticTaskPool, CollectOutcome, QueueOutcome, SubmitOutcome, TaskPool,
};

struct EchoTool;

impl LocalTool for EchoTool {
    fn name(&self) -> &str {
        "echo"
    }

    fn description(&self) -> &str {
        "Echoes the input text"
    }

    fn parameter_schema(&self) -> JsonValue {
        JsonValue::object_with("type", JsonValue::text("object"))
    }

    fn execute(
        &self,
        params: JsonValue,
        context: &mut ExecutionContext,
    ) -> Result<JsonValue, AgenticFlowError> {
        let text = match params.get_field("text").and_then(|v| v.as_text()) {
            Some(s) => s.clone(),
            None => return Err(AgenticFlowError::ToolError("text".to_string())),
        };
        context.set("echoed_text".to_string(), JsonValue::Text(text.clone()));
        Ok(JsonValue::object_with("text", JsonValue::Text(text)))
    }
}

fn echo_registry() -> ToolRegistry {
    let mut registry = ToolRegistry::new();
    registry.register_local_tool(Box::new(EchoTool));
    registry
}

fn echo_step(text: &str) -> PlanStep {
    PlanStep {
        tool_name: "echo".to_string(),
        params: JsonValue::object_with("text", JsonValue::text(text)),
    }
}

#[test]
fn test_agentic_task_pool_new_and_shutdown() {
    let mut pool = AgenticTaskPool::new(4);
    assert_eq!(pool.worker_count(), 4);
    assert!(pool.is_active());
    pool.shutdown();
    assert!(!pool.is_active());
}

#[test]
fn test_agentic_task_pool_execute_step() {
    let registry = echo_registry();
    let mut pool = AgenticTaskPool::new(2);
    let result = pool.execute_step(&registry, echo_step("hello, world!")).unwrap();
    assert_eq!(result, JsonValue::object_with("text", JsonValue::text("hello, world!")));
    pool.shutdown();
}

#[test]
fn test_agentic_task_pool_execute_parallel() {
    let registry = echo_registry();
    let mut pool = AgenticTaskPool::new(3);
    let steps = vec![echo_step("one"), echo_step("two"), echo_step("three")];
    let results = pool.execute_parallel(&registry, steps).unwrap();
    assert_eq!(results.len(), 3);
    assert_eq!(results[0], JsonValue::object_with("text", JsonValue::text("one")));
    assert_eq!(results[1], JsonValue::object_with("text", JsonValue::text("two")));
    assert_eq!(results[2], JsonValue::object_with("text", JsonValue::text("three")));
    pool.shutdown();
}

#[test]
fn submissions_wait_at_capacity() {
    let mut pool = AgenticTaskPool::new_with_capacity(1, 2);
    assert!(matches!(pool.submit(echo_step("a")), SubmitOutcome::Enqueued(_)));
    assert!(matches!(pool.submit(echo_step("b")), SubmitOutcome::Enqueued(_)));
    // The queue is at capacity: the next submission must wait.
    let held = match pool.submit(echo_step("c")) {
        SubmitOutcome::Full(step) => step,
        other => panic!("expected backpressure, got {:?}", other),
    };
    // One worker turn frees a slot, and the held step goes through.
    let task = pool.take_task().expect("a task is queued");
    assert!(pool.complete(task.ticket, Ok(JsonValue::Null)));
    assert!(matches!(pool.submit(held), SubmitOutcome::Enqueued(_)));
}

#[test]
fn submissions_fail_after_shutdown() {
    let registry = echo_registry();
    let mut pool = AgenticTaskPool::new(2);
    pool.shutdown();
    match pool.submit(echo_step("late")) {
        SubmitOutcome::Closed(step) => assert_eq!(step.tool_name, "echo"),
        other => panic!("expected refusal, got {:?}", other),
    }
    let err = pool.execute_step(&registry, echo_step("late")).unwrap_err();
    assert_eq!(err.message(), "Execution error: Task pool is shut down");
    let err = pool.execute_parallel(&registry, vec![echo_step("late")]).unwrap_err();
    assert_eq!(err.message(), "Execution error: Task pool is shut down");
}

#[test]
fn each_result_answers_its_own_submission() {
    let mut pool = AgenticTaskPool::new_with_capacity(2, 10);
    let first = match pool.submit(echo_step("first")) {
        SubmitOutcome::Enqueued(t) => t,
        other => panic!("expected enqueue, got {:?}", other),
    };
    let second = match pool.submit(echo_step("second")) {
        SubmitOutcome::Enqueued(t) => t,
        other => panic!("expected enqueue, got {:?}", other),
    };
    // Results are collectable only once delivered.
    assert!(matches!(pool.try_collect(first), CollectOutcome::Pending));

    // Workers take tasks in arrival order; completion order does not matter.
    let task_one = pool.take_task().unwrap();
    let task_two = pool.take_task().unwrap();
    assert_eq!(task_one.step.tool_name, "echo");
    assert!(pool.complete(task_two.ticket, Ok(JsonValue::Int(2))));
    assert!(pool.complete(task_one.ticket, Ok(JsonValue::Int(1))));

    match pool.try_collect(first) {
        CollectOutcome::Ready(result) => assert_eq!(result.unwrap(), JsonValue::Int(1)),
        other => panic!("expected the first result, got {:?}", other),
    }
    match pool.try_collect(second) {
        CollectOutcome::Ready(result) => assert_eq!(result.unwrap(), JsonValue::Int(2)),
        other => panic!("expected the second result, got {:?}", other),
    }
    // A ticket is single-use: collecting again finds nothing.
    assert!(matches!(pool.try_collect(first), CollectOutcome::Gone));
}

#[test]
fn a_lost_worker_fails_its_submission() {
    let mut pool = AgenticTaskPool::new_with_capacity(1, 4);
    let ticket = match pool.submit(echo_step("doomed")) {
        SubmitOutcome::Enqueued(t) => t,
        other => panic!("expected enqueue, got {:?}", other),
    };
    let task = pool.take_task().unwrap();
    assert!(pool.abandon(task.ticket));
    // The submitter observes a terminal failure, not an indefinite wait.
    assert!(matches!(pool.try_collect(ticket), CollectOutcome::Gone));
}

#[test]
fn failing_steps_surface_their_own_error() {
    let registry = echo_registry();
    let mut pool = AgenticTaskPool::new(2);
    // The echo tool rejects parameters without a text field.
    let bad = PlanStep { tool_name: "echo".to_string(), params: JsonValue::Null };
    let err = pool.execute_step(&registry, bad).unwrap_err();
    assert_eq!(err.message(), "Tool error: text");
    // An unknown tool fails with the registry's not-found error.
    let unknown = PlanStep { tool_name: "nope".to_string(), params: JsonValue::Null };
    let err = pool.execute_step(&registry, unknown).unwrap_err();
    assert_eq!(err.message(), "Tool error: Tool 'nope' not found");
}

#[test]
fn test_new_task_pool() {
    let mut pool: TaskPool<u32> = TaskPool::new(3);
    assert_eq!(pool.worker_count(), 3);
    assert_eq!(pool.capacity(), 100);
    pool.shutdown();
}

#[test]
fn test_taskpool_execute_task() {
    let mut pool: TaskPool<u32> = TaskPool::new(2);
    assert!(matches!(pool.execute(7), QueueOutcome::Accepted));
    assert_eq!(pool.take_task(), Some(7));
    assert_eq!(pool.take_task(), None);
    pool.shutdown();
    match pool.execute(8) {
        QueueOutcome::Closed(task) => assert_eq!(task, 8),
        other => panic!("expected refusal, got {:?}", other),
    }
}

#[test]
fn an_empty_run_yields_no_results() {
    let registry = echo_registry();
    let mut pool = AgenticTaskPool::new(2);
    let results = pool.execute_parallel(&registry, Vec::new()).unwrap();
    assert!(results.is_empty());
}

#[test]
fn a_single_slot_queue_still_finishes_longer_runs() {
    let registry = echo_registry();
    let mut pool = AgenticTaskPool::new_with_capacity(1, 1);
    let steps = vec![echo_step("one"), echo_step("two"), echo_step("three")];
    let results = pool.execute_parallel(&registry, steps).unwrap();
    assert_eq!(results.len(), 3);
    assert_eq!(results[2], JsonValue::object_with("text", JsonValue::text("three")));
}
