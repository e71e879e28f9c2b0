//! Chat data model: messages, tool calls, and the response shapes of the two
//! supported backends.

use vstd::prelude::*;
use crate::json::JsonValue;

verus! {

/// A tool invocation requested inside a chat response.
#[derive(Debug)]
pub struct Function {
    pub name: String,
    pub arguments: JsonValue,
}

impl Clone for Function {
    fn clone(&self) -> (res: Self)
        ensures
            res.name@ == self.name@,
            res.arguments@ == self.arguments@,
    {
        Function { name: self.name.clone(), arguments: self.arguments.clone() }
    }
}

#[derive(Debug)]
pub struct ToolCall {
    pub function: Function,
}

impl Clone for ToolCall {
    fn clone(&self) -> (res: Self)
        ensures
            res.function.name@ == self.function.name@,
            res.function.arguments@ == self.function.arguments@,
    {
        ToolCall { function: self.function.clone() }
    }
}

#[derive(Debug)]
pub struct ChatMessage {
    pub role: String,
    pub content: String,
    pub thinking: Option<String>,
    pub tool_calls: Option<Vec<ToolCall>>,
}

impl ChatMessage {
    pub fn user(content: String) -> (r: Self)
        ensures
            r.role@ == "user"@,
            r.content == content,
            r.thinking is None,
            r.tool_calls is None,
    {
        ChatMessage {
            role: "user".to_owned(),
            content,
            thinking: None,
            tool_calls: None,
        }
    }

    pub fn assistant(content: String) -> (r: Self)
        ensures
            r.role@ == "assistant"@,
            r.content == content,
            r.thinking is None,
            r.tool_calls is None,
    {
        ChatMessage {
            role: "assistant".to_owned(),
            content,
            thinking: None,
            tool_calls: None,
        }
    }

    pub fn system(content: String) -> (r: Self)
        ensures
            r.role@ == "system"@,
            r.content == content,
            r.thinking is None,
            r.tool_calls is None,
    {
        ChatMessage {
            role: "system".to_owned(),
            content,
            thinking: None,
            tool_calls: None,
        }
    }

    pub fn with_tool_calls(self, tool_calls: Vec<ToolCall>) -> (r: Self)
        ensures
            r.role == self.role,
            r.content == self.content,
            r.thinking == self.thinking,
            r.tool_calls == Some(tool_calls),
    {
        ChatMessage { tool_calls: Some(tool_calls), ..self }
    }
}

/// A chat answer, whatever backend produced it.
pub trait ChatResponse {
    /// Whether the carried payload is complete enough to read.
    spec fn valid(&self) -> bool;

    fn message(&self) -> (r: &ChatMessage)
        requires
            self.valid(),
    ;
}

#[derive(Debug)]
pub struct OllamaResponse {
    pub message: ChatMessage,
}

impl Default for OllamaResponse {
    fn default() -> (r: Self)
        ensures
            r.message.role@ == "assistant"@,
            r.message.content@ == Seq::<char>::empty(),
            r.message.thinking is None,
            r.message.tool_calls is None,
    {
        proof {
            reveal_strlit("");
        }
        OllamaResponse { message: ChatMessage::assistant("".to_owned()) }
    }
}

impl ChatResponse for OllamaResponse {
    open spec fn valid(&self) -> bool {
        true
    }

    fn message(&self) -> (r: &ChatMessage)
        ensures
            *r == self.message,
    {
        &self.message
    }
}

#[derive(Debug)]
pub struct OpenRouterChoice {
    pub message: ChatMessage,
    pub finish_reason: String,
}

#[derive(Debug)]
pub struct OpenRouterResponse {
    pub choices: Vec<OpenRouterChoice>,
}

impl ChatResponse for OpenRouterResponse {
    /// Readable only when the backend returned at least one choice.
    open spec fn valid(&self) -> bool {
        self.choices@.len() > 0
    }

    fn message(&self) -> (r: &ChatMessage)
        ensures
            *r == self.choices@[0].message,
    {
        &self.choices[0].message
    }
}

/// A plain-text completion answer, whatever backend produced it.
pub trait CompletionResponse {
    /// Whether the carried payload is complete enough to read.
    spec fn valid(&self) -> bool;

    fn response(&self) -> (r: &str)
        requires
            self.valid(),
    ;
}

#[derive(Debug)]
pub struct CompletionChoice {
    pub text: String,
    pub index: usize,
    pub finish_reason: String,
}

#[derive(Debug)]
pub struct OpenRouterCompletionResponse {
    pub id: String,
    pub choices: Vec<CompletionChoice>,
}

impl CompletionResponse for OpenRouterCompletionResponse {
    /// Readable only when the backend returned at least one choice.
    open spec fn valid(&self) -> bool {
        self.choices@.len() > 0
    }

    fn response(&self) -> (r: &str)
        ensures
            r@ == self.choices@[0].text@,
    {
        self.choices[0].text.as_str()
    }
}

#[derive(Debug)]
pub struct OllamaCompletionResponse {
    pub response: String,
}

impl CompletionResponse for OllamaCompletionResponse {
    open spec fn valid(&self) -> bool {
        true
    }

    fn response(&self) -> (r: &str)
        ensures
            r@ == self.response@,
    {
        self.response.as_str()
    }
}

} // verus!
