//! The error taxonomy of the runtime: planning, tool, API-client, parse and
//! network failures, and the connection manager's lookup miss.

use vstd::prelude::*;

verus! {

#[derive(Debug)]
pub enum AgenticFlowError {
    PlanningError(String),
    ToolError(String),
    ApiClientError(String),
    ParseError(String),
    NetworkError(String),
    ExecutionError(String),
    ServerNotFound,
}

impl AgenticFlowError {
    /// The text that `message` produces.
    pub open spec fn spec_message(&self) -> Seq<char> {
        match self {
            AgenticFlowError::PlanningError(m) => "Planning error: "@ + m@,
            AgenticFlowError::ToolError(m) => "Tool error: "@ + m@,
            AgenticFlowError::ApiClientError(m) => "API client error: "@ + m@,
            AgenticFlowError::ParseError(m) => "Parse error: "@ + m@,
            AgenticFlowError::NetworkError(m) => "Network error: "@ + m@,
            AgenticFlowError::ExecutionError(m) => "Execution error: "@ + m@,
            AgenticFlowError::ServerNotFound => "Server not found"@,
        }
    }

    /// A readable description of the error.
    pub fn message(&self) -> (r: String)
        ensures
            r@ == self.spec_message(),
    {
        match self {
            AgenticFlowError::PlanningError(m) => {
                let mut s = "Planning error: ".to_owned();
                s.append(m.as_str());
                s
            },
            AgenticFlowError::ToolError(m) => {
                let mut s = "Tool error: ".to_owned();
                s.append(m.as_str());
                s
            },
            AgenticFlowError::ApiClientError(m) => {
                let mut s = "API client error: ".to_owned();
                s.append(m.as_str());
                s
            },
            AgenticFlowError::ParseError(m) => {
                let mut s = "Parse error: ".to_owned();
                s.append(m.as_str());
                s
            },
            AgenticFlowError::NetworkError(m) => {
                let mut s = "Network error: ".to_owned();
                s.append(m.as_str());
                s
            },
            AgenticFlowError::ExecutionError(m) => {
                let mut s = "Execution error: ".to_owned();
                s.append(m.as_str());
                s
            },
            AgenticFlowError::ServerNotFound => "Server not found".to_owned(),
        }
    }
}

impl Clone for AgenticFlowError {
    /// A copy that carries the same variant and the same text.
    fn clone(&self) -> (res: Self)
        ensures
            res.spec_message() == self.spec_message(),
            res is PlanningError <==> self is PlanningError,
            res is ToolError <==> self is ToolError,
            res is ApiClientError <==> self is ApiClientError,
            res is ParseError <==> self is ParseError,
            res is NetworkError <==> self is NetworkError,
            res is ExecutionError <==> self is ExecutionError,
            res is ServerNotFound <==> self is ServerNotFound,
            self is PlanningError ==> res->PlanningError_0@ == self->PlanningError_0@,
            self is ToolError ==> res->ToolError_0@ == self->ToolError_0@,
            self is ApiClientError ==> res->ApiClientError_0@ == self->ApiClientError_0@,
            self is ParseError ==> res->ParseError_0@ == self->ParseError_0@,
            self is NetworkError ==> res->NetworkError_0@ == self->NetworkError_0@,
            self is ExecutionError ==> res->ExecutionError_0@ == self->ExecutionError_0@,
    {
        match self {
            AgenticFlowError::PlanningError(m) => AgenticFlowError::PlanningError(m.clone()),
            AgenticFlowError::ToolError(m) => AgenticFlowError::ToolError(m.clone()),
            AgenticFlowError::ApiClientError(m) => AgenticFlowError::ApiClientError(m.clone()),
            AgenticFlowError::ParseError(m) => AgenticFlowError::ParseError(m.clone()),
            AgenticFlowError::NetworkError(m) => AgenticFlowError::NetworkError(m.clone()),
            AgenticFlowError::ExecutionError(m) => AgenticFlowError::ExecutionError(m.clone()),
            AgenticFlowError::ServerNotFound => AgenticFlowError::ServerNotFound,
        }
    }
}

} // verus!
