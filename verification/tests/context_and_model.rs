use agentic_flow_lib::context::ExecutionContext;
use agentic_flow_lib::json::JsonValue;
use agentic_flow_lib::llm_client::{OllamaModel, OpenRouterModel};
use agentic_flow_lib::config::{LLMConfig, MCPConfig, SystemConfig};
use agentic_flow_lib::model::{
    ChatMessage, ChatResponse, CompletionChoice, CompletionResponse, Function,
    OllamaCompletionResponse, OllamaResponse, OpenRouterChoice, OpenRouterCompletionResponse,
    OpenRouterResponse, ToolCall,
};

#[test]
fn context_set_and_get() {
    let mut ctx = ExecutionContext::new();
    assert!(ctx.get("k").is_none());
    ctx.set("k".to_string(), JsonValue::Int(1));
    assert_eq!(ctx.get("k"), Some(&JsonValue::Int(1)));
}

#[test]
fn context_insertion_overwrites_same_key() {
    let mut ctx = ExecutionContext::new();
    ctx.set("k".to_string(), JsonValue::Int(1));
    ctx.set("k".to_string(), JsonValue::Int(2));
    assert_eq!(ctx.get("k"), Some(&JsonValue::Int(2)));
    assert_eq!(ctx.data().len(), 1);
}

#[test]
fn context_data_keeps_insertion_order() {
    let mut ctx = ExecutionContext::new();
    ctx.set("first".to_string(), JsonValue::Int(1));
    ctx.set("second".to_string(), JsonValue::Int(2));
    let data = ctx.data();
    assert_eq!(data.len(), 2);
    assert_eq!(data[0].0, "first");
    assert_eq!(data[1].0, "second");
}

#[test]
fn chat_message_builders_fix_roles() {
    let user = ChatMessage::user("hi".to_string());
    assert_eq!(user.role, "user");
    assert_eq!(user.content, "hi");
    assert!(user.tool_calls.is_none());
    let assistant = ChatMessage::assistant("ok".to_string());
    assert_eq!(assistant.role, "assistant");
    let system = ChatMessage::system("rules".to_string());
    assert_eq!(system.role, "system");
}

#[test]
fn with_tool_calls_attaches_calls() {
    let call = ToolCall {
        function: Function { name: "echo".to_string(), arguments: JsonValue::Null },
    };
    let msg = ChatMessage::assistant("".to_string()).with_tool_calls(vec![call]);
    let calls = msg.tool_calls.expect("calls were attached");
    assert_eq!(calls.len(), 1);
    assert_eq!(calls[0].function.name, "echo");
}

#[test]
fn ollama_response_default_is_empty_assistant() {
    let response = OllamaResponse::default();
    let message = response.message();
    assert_eq!(message.role, "assistant");
    assert_eq!(message.content, "");
}

#[test]
fn open_router_response_reads_first_choice() {
    let response = OpenRouterResponse {
        choices: vec![OpenRouterChoice {
            message: ChatMessage::assistant("answer".to_string()),
            finish_reason: "stop".to_string(),
        }],
    };
    assert_eq!(response.message().content, "answer");
}

#[test]
fn completion_responses_read_their_text() {
    let ollama = OllamaCompletionResponse { response: "hello".to_string() };
    assert_eq!(ollama.response(), "hello");
    let open_router = OpenRouterCompletionResponse {
        id: "r1".to_string(),
        choices: vec![CompletionChoice {
            text: "hi".to_string(),
            index: 0,
            finish_reason: "stop".to_string(),
        }],
    };
    assert_eq!(open_router.response(), "hi");
}

#[test]
fn model_names_are_fixed() {
    assert_eq!(OllamaModel::GPToss.to_string(), "gpt-oss:20b");
    assert_eq!(OllamaModel::Gemma2_2b.to_string(), "gemma2:2b");
    assert_eq!(OllamaModel::Gemma3_4b.to_string(), "gemma3:4b");
    assert_eq!(OllamaModel::Qwen3_8B.to_string(), "qwen3:8b");
    assert_eq!(OllamaModel::Custom("x".to_string()).to_string(), "x");
    assert_eq!(OpenRouterModel::Flash2.to_string(), "google/gemini-2.0-flash-001");
    assert_eq!(OpenRouterModel::GPTMini.to_string(), "openai/gpt-4o-mini");
    assert_eq!(OpenRouterModel::Custom("y".to_string()).to_string(), "y");
}

#[test]
fn default_configs_are_empty() {
    let llm = LLMConfig::default();
    assert_eq!(llm.model, "gpt-oss:20b");
    let mcp = MCPConfig::default();
    assert_eq!(mcp.servers.len(), 0);
    let system = SystemConfig::default();
    assert_eq!(system.enabled_servers.len(), 0);
    assert_eq!(system.agent_config.max_steps, 10);
    assert_eq!(system.agent_config.timeout_seconds, 30);
    let example = SystemConfig::example();
    assert_eq!(example.mcp_config.servers.len(), 0);
}
