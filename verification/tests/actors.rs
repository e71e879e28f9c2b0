use agentic_flow_lib::actor::{
    Actor, ActorSystem, Message, ProcessOutcome, Reply, ReplyWait,
};
use agentic_flow_lib::errors::AgenticFlowError;
use agentic_flow_lib::json::JsonValue;

struct EchoActor;

impl Actor for EchoActor {
    fn handle_message(&mut self, message: Message) -> Result<Option<Reply>, AgenticFlowError> {
        match message {
            Message::ExecuteTool { tool_name, params } => Ok(Some(Reply::ToolResult(Ok(
                JsonValue::Object(vec![
                    ("tool".to_string(), JsonValue::Text(tool_name)),
                    ("params".to_string(), params),
                ]),
            )))),
            Message::HealthCheck => Ok(Some(Reply::Health(true))),
            Message::Shutdown => Ok(None),
        }
    }

    fn initialize(&mut self) -> Result<(), AgenticFlowError> {
        Ok(())
    }

    fn shutdown(&mut self) -> Result<(), AgenticFlowError> {
        Ok(())
    }
}

struct BrokenActor;

impl Actor for BrokenActor {
    fn handle_message(&mut self, _message: Message) -> Result<Option<Reply>, AgenticFlowError> {
        Ok(None)
    }

    fn initialize(&mut self) -> Result<(), AgenticFlowError> {
        Err(AgenticFlowError::ExecutionError("no backing store".to_string()))
    }

    fn shutdown(&mut self) -> Result<(), AgenticFlowError> {
        Ok(())
    }
}

#[test]
fn test_actor_system() {
    let mut system = ActorSystem::new();
    let id = system.spawn_actor(Box::new(EchoActor));
    let idx = system.find_actor(id).expect("the actor is registered");
    let task = system.actor_at(idx);

    let healthy = task.mailbox.health_check(&mut task.behavior).unwrap();
    assert!(healthy);

    let ticket = task
        .mailbox
        .call_open(Message::ExecuteTool {
            tool_name: "echo".to_string(),
            params: JsonValue::object_with("foo", JsonValue::text("bar")),
        })
        .unwrap();
    let _ = task.mailbox.run_until_idle(&mut task.behavior);
    match task.mailbox.take_reply(ticket) {
        ReplyWait::Ready(Reply::ToolResult(Ok(value))) => {
            assert_eq!(value.get_field("tool"), Some(&JsonValue::text("echo")));
            let params = value.get_field("params").expect("params echoed");
            assert_eq!(params.get_field("foo"), Some(&JsonValue::text("bar")));
        }
        other => panic!("expected the echoed reply, got {:?}", other),
    }

    system.shutdown_all().unwrap();
}

#[test]
fn test_multiple_execute_tool_messages() {
    let mut system = ActorSystem::new();
    let id = system.spawn_actor(Box::new(EchoActor));
    let idx = system.find_actor(id).unwrap();
    let task = system.actor_at(idx);

    let mut tickets = Vec::new();
    for i in 0..10i64 {
        let ticket = task
            .mailbox
            .call_open(Message::ExecuteTool {
                tool_name: format!("tool_{}", i),
                params: JsonValue::object_with("index", JsonValue::Int(i)),
            })
            .unwrap();
        tickets.push(ticket);
    }
    let _ = task.mailbox.run_until_idle(&mut task.behavior);
    for (i, ticket) in tickets.into_iter().enumerate() {
        match task.mailbox.take_reply(ticket) {
            ReplyWait::Ready(Reply::ToolResult(Ok(value))) => {
                assert_eq!(
                    value.get_field("tool"),
                    Some(&JsonValue::text(&format!("tool_{}", i)))
                );
                let params = value.get_field("params").unwrap();
                assert_eq!(params.get_field("index"), Some(&JsonValue::Int(i as i64)));
            }
            other => panic!("expected a correlated reply, got {:?}", other),
        }
    }

    system.shutdown_all().unwrap();
}

#[test]
fn test_shutdown_message() {
    let mut system = ActorSystem::new();
    let id = system.spawn_actor(Box::new(EchoActor));
    let idx = system.find_actor(id).unwrap();
    let task = system.actor_at(idx);

    // Send a shutdown and let the loop process it.
    task.mailbox.send(Message::Shutdown).unwrap();
    assert_eq!(
        task.mailbox.process_one(&mut task.behavior),
        ProcessOutcome::ShutDown
    );

    // Further correlated calls fail: the inbox is abandoned.
    let result = task.mailbox.health_check(&mut task.behavior);
    assert!(result.is_err());

    system.shutdown_all().unwrap();
}

#[test]
fn messages_behind_a_shutdown_are_never_dispatched() {
    let mut system = ActorSystem::new();
    let id = system.spawn_actor(Box::new(EchoActor));
    let idx = system.find_actor(id).unwrap();
    let task = system.actor_at(idx);

    let before = task
        .mailbox
        .call_open(Message::ExecuteTool { tool_name: "early".to_string(), params: JsonValue::Null })
        .unwrap();
    task.mailbox.send(Message::Shutdown).unwrap();
    let after = task
        .mailbox
        .call_open(Message::ExecuteTool { tool_name: "late".to_string(), params: JsonValue::Null })
        .unwrap();

    let _ = task.mailbox.run_until_idle(&mut task.behavior);

    // The message ahead of the shutdown drained first and was answered.
    assert!(matches!(task.mailbox.take_reply(before), ReplyWait::Ready(_)));
    // The message behind it was abandoned, never answered.
    assert!(matches!(task.mailbox.take_reply(after), ReplyWait::Failed));

    system.shutdown_all().unwrap();
}

#[test]
fn failed_initialization_leaves_a_dead_handle() {
    let mut system = ActorSystem::new();
    let id = system.spawn_actor(Box::new(BrokenActor));
    let idx = system.find_actor(id).unwrap();
    let task = system.actor_at(idx);
    // Sends fail: the loop never started draining this inbox.
    assert!(task.mailbox.send(Message::HealthCheck).is_err());
    assert!(task.mailbox.health_check(&mut task.behavior).is_err());
    system.shutdown_all().unwrap();
}

#[test]
fn handler_errors_do_not_stop_the_loop() {
    struct FlakyActor;
    impl Actor for FlakyActor {
        fn handle_message(
            &mut self,
            message: Message,
        ) -> Result<Option<Reply>, AgenticFlowError> {
            match message {
                Message::ExecuteTool { .. } => {
                    Err(AgenticFlowError::ToolError("broken handler".to_string()))
                }
                Message::HealthCheck => Ok(Some(Reply::Health(true))),
                Message::Shutdown => Ok(None),
            }
        }

        fn initialize(&mut self) -> Result<(), AgenticFlowError> {
            Ok(())
        }

        fn shutdown(&mut self) -> Result<(), AgenticFlowError> {
            Ok(())
        }
    }

    let mut system = ActorSystem::new();
    let id = system.spawn_actor(Box::new(FlakyActor));
    let idx = system.find_actor(id).unwrap();
    let task = system.actor_at(idx);

    let failing = task
        .mailbox
        .call_open(Message::ExecuteTool { tool_name: "x".to_string(), params: JsonValue::Null })
        .unwrap();
    let _ = task.mailbox.run_until_idle(&mut task.behavior);
    // The failing message's ticket is visibly abandoned, not left hanging.
    assert!(matches!(task.mailbox.take_reply(failing), ReplyWait::Failed));
    // The loop is still alive afterwards.
    let healthy = task.mailbox.health_check(&mut task.behavior).unwrap();
    assert!(healthy);

    system.shutdown_all().unwrap();
}

#[test]
fn spawned_actors_get_distinct_identities() {
    let mut system = ActorSystem::new();
    let first = system.spawn_actor(Box::new(EchoActor));
    let second = system.spawn_actor(Box::new(EchoActor));
    assert_ne!(first, second);
    assert!(system.find_actor(first).is_some());
    assert!(system.find_actor(second).is_some());
    assert_ne!(system.find_actor(first), system.find_actor(second));
    system.shutdown_all().unwrap();
    assert!(system.find_actor(first).is_none());
}
